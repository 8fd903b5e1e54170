//! The transform engine: shape checks, the three axis passes, inverse
//! normalisation and the interleaved output format.

use vstd::prelude::*;
use crate::error::{Component, FftError};
use crate::layout::{
    along, gather_line, keeps_length, lemma_pass_order, lemma_position_on_its_line,
    lemma_round_trip, lemma_with_line_lines, line_a, line_b, line_of, map_each, map_lines,
    map_lines_3d, pass_commutes_with, passes_commute, scatter_line, undoes_on_lines, Axis,
};
use crate::plan::{supported_size, Direction, FFTPlanCache};
use core::marker::PhantomData;

verus! {

/// One complex sample.
#[derive(Clone, Copy, Debug)]
pub struct Sample<T> {
    pub re: T,
    pub im: T,
}

/// The volume whose `i`-th sample has real part `re[i]` and imaginary part `im[i]`.
pub open spec fn paired<T>(re: Seq<T>, im: Seq<T>) -> Seq<Sample<T>> {
    Seq::new(re.len(), |i: int| Sample { re: re[i], im: im[i] })
}

/// The flat sequence that alternates the real and imaginary part of each sample.
pub open spec fn interleaved<T>(vol: Seq<Sample<T>>) -> Seq<T> {
    Seq::new(
        2 * vol.len(),
        |i: int|
            if i % 2 == 0 {
                vol[i / 2].re
            } else {
                vol[i / 2].im
            },
    )
}

/// `after` is a result of the one-dimensional transform `exec` with `plan` on `before`.
pub open spec fn line_transformed<T, P, X: Fn(&P, Vec<Sample<T>>) -> Vec<Sample<T>>>(
    exec: X,
    plan: P,
    before: Seq<Sample<T>>,
    after: Seq<Sample<T>>,
) -> bool {
    exists|input: Vec<Sample<T>>, output: Vec<Sample<T>>|
        input@ == before && output@ == after && #[trigger] call_ensures(
            exec,
            (&plan, input),
            output,
        )
}

/// `after` is `before` with every line along `axis` transformed by `exec`.
pub open spec fn pass_transformed<T, P, X: Fn(&P, Vec<Sample<T>>) -> Vec<Sample<T>>>(
    exec: X,
    plan: P,
    n: int,
    axis: Axis,
    before: Seq<Sample<T>>,
    after: Seq<Sample<T>>,
) -> bool {
    &&& before.len() == n * n * n
    &&& after.len() == n * n * n
    &&& forall|a: int, b: int|
        0 <= a < n && 0 <= b < n ==> line_transformed(
            exec,
            plan,
            #[trigger] line_of(before, n, axis, a, b),
            line_of(after, n, axis, a, b),
        )
}

/// `after` is `before` transformed along `X`, then along `Y`, then along `Z`.
pub open spec fn transformed_3d<T, P, X: Fn(&P, Vec<Sample<T>>) -> Vec<Sample<T>>>(
    exec: X,
    plan: P,
    n: int,
    before: Seq<Sample<T>>,
    after: Seq<Sample<T>>,
) -> bool {
    exists|after_x: Seq<Sample<T>>, after_y: Seq<Sample<T>>|
        #![trigger pass_transformed(exec, plan, n, Axis::X, before, after_x), pass_transformed(exec, plan, n, Axis::Z, after_y, after)]
        pass_transformed(exec, plan, n, Axis::X, before, after_x) && pass_transformed(
            exec,
            plan,
            n,
            Axis::Y,
            after_x,
            after_y,
        ) && pass_transformed(exec, plan, n, Axis::Z, after_y, after)
}

/// Whether every result of `exec` with `plan` is `f` of the line it was given.
pub open spec fn computes<T, P, X: Fn(&P, Vec<Sample<T>>) -> Vec<Sample<T>>>(
    exec: X,
    plan: P,
    f: spec_fn(Seq<Sample<T>>) -> Seq<Sample<T>>,
) -> bool {
    forall|line: Vec<Sample<T>>, out: Vec<Sample<T>>|
        #[trigger] call_ensures(exec, (&plan, line), out) ==> out@ == f(line@)
}

/// With a one-dimensional transform that computes `f`, a pass along `axis`
/// has exactly one result: `f` applied to every line along `axis`.
pub proof fn lemma_pass_maps_lines<T, P, X: Fn(&P, Vec<Sample<T>>) -> Vec<Sample<T>>>(
    exec: X,
    plan: P,
    f: spec_fn(Seq<Sample<T>>) -> Seq<Sample<T>>,
    n: int,
    axis: Axis,
    before: Seq<Sample<T>>,
    after: Seq<Sample<T>>,
)
    requires
        0 < n,
        computes(exec, plan, f),
        pass_transformed(exec, plan, n, axis, before, after),
    ensures
        after == map_lines(f, before, n, axis),
{
    assert forall|i: int| 0 <= i < after.len() implies after[i] == map_lines(
        f,
        before,
        n,
        axis,
    )[i] by {
        lemma_position_on_its_line(n, axis, i);
        let a = line_a(n, axis, i);
        let b = line_b(n, axis, i);
        let k = along(n, axis, i);
        let old_line = line_of(before, n, axis, a, b);
        let new_line = line_of(after, n, axis, a, b);
        assert(line_transformed(exec, plan, old_line, new_line));
        assert(new_line == f(old_line));
        assert(new_line[k] == after[i]);
    }
    assert(after =~= map_lines(f, before, n, axis));
}

/// With a one-dimensional transform that computes `f`, the separable
/// transform has exactly one result: `f` applied to every line along `X`,
/// then to every line along `Y`, then to every line along `Z`.
pub proof fn lemma_transform_maps_lines<T, P, X: Fn(&P, Vec<Sample<T>>) -> Vec<Sample<T>>>(
    exec: X,
    plan: P,
    f: spec_fn(Seq<Sample<T>>) -> Seq<Sample<T>>,
    n: int,
    before: Seq<Sample<T>>,
    after: Seq<Sample<T>>,
)
    requires
        0 < n,
        computes(exec, plan, f),
        transformed_3d(exec, plan, n, before, after),
    ensures
        after == map_lines_3d(f, before, n),
{
    let (after_x, after_y): (Seq<Sample<T>>, Seq<Sample<T>>) = choose|
        after_x: Seq<Sample<T>>,
        after_y: Seq<Sample<T>>,
    |
        #![trigger pass_transformed(exec, plan, n, Axis::X, before, after_x), pass_transformed(exec, plan, n, Axis::Z, after_y, after)]
        pass_transformed(exec, plan, n, Axis::X, before, after_x) && pass_transformed(
            exec,
            plan,
            n,
            Axis::Y,
            after_x,
            after_y,
        ) && pass_transformed(exec, plan, n, Axis::Z, after_y, after);
    lemma_pass_maps_lines(exec, plan, f, n, Axis::X, before, after_x);
    lemma_pass_maps_lines(exec, plan, f, n, Axis::Y, after_x, after_y);
    lemma_pass_maps_lines(exec, plan, f, n, Axis::Z, after_y, after);
}

/// With a one-dimensional transform that computes `f`, and where passes of
/// `f` along different axes can change places, three passes along the three
/// axes in any order give what the separable transform gives.
pub proof fn lemma_pass_order_result<T, P, X: Fn(&P, Vec<Sample<T>>) -> Vec<Sample<T>>>(
    exec: X,
    plan: P,
    f: spec_fn(Seq<Sample<T>>) -> Seq<Sample<T>>,
    n: int,
    order: (Axis, Axis, Axis),
    before: Seq<Sample<T>>,
    first: Seq<Sample<T>>,
    second: Seq<Sample<T>>,
    third: Seq<Sample<T>>,
    after: Seq<Sample<T>>,
)
    requires
        0 < n,
        computes(exec, plan, f),
        passes_commute(f, f, n),
        order.0 != order.1,
        order.1 != order.2,
        order.0 != order.2,
        pass_transformed(exec, plan, n, order.0, before, first),
        pass_transformed(exec, plan, n, order.1, first, second),
        pass_transformed(exec, plan, n, order.2, second, third),
        transformed_3d(exec, plan, n, before, after),
    ensures
        third == after,
{
    lemma_pass_maps_lines(exec, plan, f, n, order.0, before, first);
    lemma_pass_maps_lines(exec, plan, f, n, order.1, first, second);
    lemma_pass_maps_lines(exec, plan, f, n, order.2, second, third);
    lemma_transform_maps_lines(exec, plan, f, n, before, after);
    lemma_pass_order(f, before, n, order.0, order.1, order.2);
}

/// The map on samples that applies `c` to both components.
pub open spec fn on_both<T>(c: spec_fn(T) -> T) -> spec_fn(Sample<T>) -> Sample<T> {
    |x: Sample<T>| Sample { re: c(x.re), im: c(x.im) }
}

/// Whether every result of `scale` with `total` is `g` of the component it was given.
pub open spec fn scales<T, N: Fn(T, usize) -> T>(scale: N, total: usize, g: spec_fn(T) -> T) -> bool {
    forall|v: T, r: T| #[trigger] call_ensures(scale, (v, total), r) ==> r == g(v)
}

/// The volume with `g` applied to both components of every sample.
pub open spec fn map_components<T>(g: spec_fn(T) -> T, vol: Seq<Sample<T>>) -> Seq<Sample<T>> {
    Seq::new(vol.len(), |i: int| Sample { re: g(vol[i].re), im: g(vol[i].im) })
}

/// Every component of `after` is a result of `scale` on that component of
/// `before` and the number of samples.
pub open spec fn normalized<T, N: Fn(T, usize) -> T>(
    scale: N,
    total: usize,
    before: Seq<Sample<T>>,
    after: Seq<Sample<T>>,
) -> bool {
    &&& after.len() == before.len()
    &&& forall|i: int|
        #![trigger after[i]]
        0 <= i < before.len() ==> call_ensures(scale, (before[i].re, total), after[i].re)
            && call_ensures(scale, (before[i].im, total), after[i].im)
}

/// Whether `exec` accepts every line of `n` samples with `plan` and hands
/// back as many samples as it was given.
pub open spec fn accepts_lines<T, P, X: Fn(&P, Vec<Sample<T>>) -> Vec<Sample<T>>>(
    exec: X,
    plan: P,
    n: usize,
) -> bool {
    &&& forall|line: Vec<Sample<T>>|
        line.len() == n ==> #[trigger] call_requires(exec, (&plan, line))
    &&& forall|line: Vec<Sample<T>>, out: Vec<Sample<T>>|
        #[trigger] call_ensures(exec, (&plan, line), out) ==> out.len() == line.len()
}

/// What the engine asks of the numeric primitives it is built on, for edge
/// length `size`: `build` plans an executor for either direction, `exec`
/// accepts every line of `size` samples with such an executor and hands back
/// as many samples as it was given, and `scale` accepts every component
/// together with the number of samples of a volume.
pub open spec fn primitives_fit<
    T,
    P,
    B: Fn(usize, Direction) -> P,
    X: Fn(&P, Vec<Sample<T>>) -> Vec<Sample<T>>,
    N: Fn(T, usize) -> T,
>(build: B, exec: X, scale: N, size: usize) -> bool {
    &&& forall|d: Direction| call_requires(build, (size, d))
    &&& forall|plan: P, d: Direction| #[trigger]
        call_ensures(build, (size, d), plan) ==> accepts_lines(exec, plan, size)
    &&& forall|v: T, total: usize|
        total == size * size * size ==> #[trigger] call_requires(scale, (v, total))
}

/// Transforms every line along `axis` of the volume in `buffer`.
pub fn axis_pass<T: Copy, P, X: Fn(&P, Vec<Sample<T>>) -> Vec<Sample<T>>>(
    buffer: &mut Vec<Sample<T>>,
    n: usize,
    axis: Axis,
    plan: &P,
    exec: &X,
)
    requires
        0 < n,
        old(buffer).len() == n * n * n,
        accepts_lines(*exec, *plan, n),
    ensures
        pass_transformed(*exec, *plan, n as int, axis, old(buffer)@, final(buffer)@),
{
    let mut a: usize = 0;
    while a < n
        invariant
            0 < n,
            a <= n,
            buffer.len() == n * n * n,
            old(buffer).len() == n * n * n,
            accepts_lines(*exec, *plan, n),
            forall|a2: int, b2: int|
                0 <= a2 < a && 0 <= b2 < n ==> line_transformed(
                    *exec,
                    *plan,
                    #[trigger] line_of(old(buffer)@, n as int, axis, a2, b2),
                    line_of(buffer@, n as int, axis, a2, b2),
                ),
            forall|a2: int, b2: int|
                a <= a2 < n && 0 <= b2 < n ==> #[trigger] line_of(buffer@, n as int, axis, a2, b2)
                    == line_of(old(buffer)@, n as int, axis, a2, b2),
        decreases n - a,
    {
        let mut b: usize = 0;
        while b < n
            invariant
                0 < n,
                a < n,
                b <= n,
                buffer.len() == n * n * n,
                old(buffer).len() == n * n * n,
                accepts_lines(*exec, *plan, n),
                forall|a2: int, b2: int|
                    0 <= a2 < n && 0 <= b2 < n && (a2 < a || (a2 == a && b2 < b))
                        ==> line_transformed(
                        *exec,
                        *plan,
                        #[trigger] line_of(old(buffer)@, n as int, axis, a2, b2),
                        line_of(buffer@, n as int, axis, a2, b2),
                    ),
                forall|a2: int, b2: int|
                    0 <= a2 < n && 0 <= b2 < n && !(a2 < a || (a2 == a && b2 < b))
                        ==> #[trigger] line_of(buffer@, n as int, axis, a2, b2) == line_of(
                        old(buffer)@,
                        n as int,
                        axis,
                        a2,
                        b2,
                    ),
            decreases n - b,
        {
            let input = gather_line(buffer, n, axis, a, b);
            let ghost before = buffer@;
            let ghost given = input;
            assert(input.len() == n);
            let output = exec(plan, input);
            scatter_line(buffer, n, axis, a, b, &output);
            proof {
                lemma_with_line_lines(before, n as int, axis, a as int, b as int, output@);
                assert(call_ensures(*exec, (plan, given), output));
                assert(line_transformed(
                    *exec,
                    *plan,
                    line_of(old(buffer)@, n as int, axis, a as int, b as int),
                    line_of(buffer@, n as int, axis, a as int, b as int),
                ));
            }
            b += 1;
        }
        a += 1;
    }
}

/// Pairs `input_real[i]` with `input_imag[i]` into the `i`-th sample of a volume.
pub fn pair_samples<T: Copy>(input_real: &[T], input_imag: &[T]) -> (volume: Vec<Sample<T>>)
    requires
        input_real.len() == input_imag.len(),
    ensures
        volume@ == paired(input_real@, input_imag@),
{
    let len = input_real.len();
    let mut volume: Vec<Sample<T>> = Vec::with_capacity(len);
    let mut i: usize = 0;
    while i < len
        invariant
            i <= len,
            len == input_real.len(),
            len == input_imag.len(),
            volume.len() == i,
            forall|j: int|
                0 <= j < i ==> volume[j] == (Sample { re: input_real@[j], im: input_imag@[j] }),
        decreases len - i,
    {
        volume.push(Sample { re: input_real[i], im: input_imag[i] });
        i += 1;
    }
    assert(volume@ =~= paired(input_real@, input_imag@));
    volume
}

/// Lays the samples of a volume out as `[re0, im0, re1, im1, ..]`.
pub fn interleave<T: Copy>(volume: &Vec<Sample<T>>) -> (output: Vec<T>)
    ensures
        output@ == interleaved(volume@),
{
    let len = volume.len();
    let mut output: Vec<T> = Vec::new();
    let mut i: usize = 0;
    while i < len
        invariant
            i <= len,
            len == volume.len(),
            output.len() == 2 * i,
            forall|j: int| 0 <= j < i ==> output[2 * j] == volume[j].re,
            forall|j: int| 0 <= j < i ==> output[2 * j + 1] == volume[j].im,
        decreases len - i,
    {
        let sample = volume[i];
        output.push(sample.re);
        output.push(sample.im);
        i += 1;
    }
    proof {
        assert forall|k: int| 0 <= k < output.len() implies output[k] == interleaved(volume@)[k] by {
            let j = k / 2;
            if k % 2 == 0 {
                assert(k == 2 * j);
            } else {
                assert(k == 2 * j + 1);
            }
        }
        assert(output@ =~= interleaved(volume@));
    }
    output
}

/// Scales both components of every sample with `scale` and the number of samples.
pub fn normalize<T: Copy, N: Fn(T, usize) -> T>(buffer: &mut Vec<Sample<T>>, total: usize, scale: &N)
    requires
        forall|v: T| #[trigger] call_requires(*scale, (v, total)),
    ensures
        normalized(*scale, total, old(buffer)@, final(buffer)@),
{
    let len = buffer.len();
    let mut i: usize = 0;
    while i < len
        invariant
            i <= len,
            len == buffer.len(),
            len == old(buffer).len(),
            forall|v: T| #[trigger] call_requires(*scale, (v, total)),
            forall|j: int|
                #![trigger buffer[j]]
                0 <= j < i ==> call_ensures(*scale, (old(buffer)[j].re, total), buffer[j].re)
                    && call_ensures(*scale, (old(buffer)[j].im, total), buffer[j].im),
            forall|j: int| i <= j < len ==> buffer[j] == old(buffer)[j],
        decreases len - i,
    {
        let sample = buffer[i];
        let re = scale(sample.re, total);
        let im = scale(sample.im, total);
        buffer.set(i, Sample { re, im });
        i += 1;
    }
}

/// What the shape check answers for arrays of the given lengths.
pub open spec fn input_check(expected: usize, real_len: usize, imag_len: usize) -> Result<
    (),
    FftError,
> {
    if real_len != expected {
        Err(
            FftError::InvalidInputLength {
                expected,
                actual: real_len,
                component: Component::Real,
            },
        )
    } else if imag_len != expected {
        Err(
            FftError::InvalidInputLength {
                expected,
                actual: imag_len,
                component: Component::Imaginary,
            },
        )
    } else {
        Ok(())
    }
}

/// A transform engine for cubic volumes of one edge length.
///
/// It is built on three numeric primitives: `build` plans the executor of a
/// one-dimensional transform of a given length and direction, `exec` runs an
/// executor on one line of samples, and `scale` divides one component by the
/// number of samples of the volume.
pub struct FFT3D<T, P, B, X, N> {
    size: usize,
    total_size: usize,
    plan_cache: FFTPlanCache<P>,
    build: B,
    transform: X,
    scale: N,
    sample: PhantomData<T>,
}

impl<
    T: Copy,
    P,
    B: Fn(usize, Direction) -> P,
    X: Fn(&P, Vec<Sample<T>>) -> Vec<Sample<T>>,
    N: Fn(T, usize) -> T,
> FFT3D<T, P, B, X, N> {
    /// The edge length.
    pub closed spec fn edge(self) -> usize {
        self.size
    }

    /// The number of samples of a volume.
    pub closed spec fn total(self) -> usize {
        self.total_size
    }

    /// The plan cache.
    pub closed spec fn cache(self) -> FFTPlanCache<P> {
        self.plan_cache
    }

    /// The planning primitive.
    pub closed spec fn builder(self) -> B {
        self.build
    }

    /// The one-dimensional transform.
    pub closed spec fn executor(self) -> X {
        self.transform
    }

    /// The normalising primitive.
    pub closed spec fn scaler(self) -> N {
        self.scale
    }

    /// The cached executor for `direction`, once the cache holds the engine's size.
    pub open spec fn plan(self, direction: Direction) -> P {
        self.cache().slot(self.edge() as int)->Some_0.executor(direction)
    }

    /// The engine's invariant: a supported edge length, its cube as the
    /// number of samples, primitives that fit that length, and cached
    /// executors that the planning primitive built for it.
    pub open spec fn wf(self) -> bool {
        &&& supported_size(self.edge() as int)
        &&& self.total() == self.edge() * self.edge() * self.edge()
        &&& primitives_fit(self.builder(), self.executor(), self.scaler(), self.edge())
        &&& self.cache().slot(self.edge() as int) is Some ==> forall|d: Direction|
            call_ensures(self.builder(), (self.edge(), d), #[trigger] self.plan(d))
    }

    /// Whether `self` is the engine `other` but for what its cache holds.
    pub open spec fn same_engine(self, other: Self) -> bool {
        &&& self.edge() == other.edge()
        &&& self.total() == other.total()
        &&& self.builder() == other.builder()
        &&& self.executor() == other.executor()
        &&& self.scaler() == other.scaler()
    }

    /// Creates the engine for volumes of edge length `size`, with an empty plan cache.
    pub fn new(size: usize, build: B, exec: X, scale: N) -> (res: Result<Self, FftError>)
        requires
            supported_size(size as int) ==> primitives_fit(build, exec, scale, size),
        ensures
            res is Ok <==> supported_size(size as int),
            res is Err ==> res->Err_0 == (FftError::UnsupportedSize { size }),
            res is Ok ==> {
                let engine = res->Ok_0;
                &&& engine.wf()
                &&& engine.edge() == size
                &&& engine.total() == size * size * size
                &&& engine.builder() == build
                &&& engine.executor() == exec
                &&& engine.scaler() == scale
                &&& forall|s: int| engine.cache().slot(s) is None
            },
    {
        if size != 8 && size != 16 && size != 32 {
            return Err(FftError::UnsupportedSize { size });
        }
        assert(size * size <= 1024 && size * size * size <= 32768) by (nonlinear_arith)
            requires
                size <= 32,
        ;
        Ok(
            FFT3D {
                size,
                total_size: size * size * size,
                plan_cache: FFTPlanCache::new(),
                build,
                transform: exec,
                scale,
                sample: PhantomData,
            },
        )
    }

    /// The edge length of the volumes that this engine transforms.
    pub fn size(&self) -> (n: usize)
        ensures
            n == self.edge(),
    {
        self.size
    }

    /// The number of samples of a volume: the cube of the edge length.
    pub fn total_size(&self) -> (t: usize)
        ensures
            t == self.total(),
            self.wf() ==> t == self.edge() * self.edge() * self.edge(),
    {
        self.total_size
    }

    /// Checks that both input arrays hold exactly one value per sample.
    pub fn validate_input(&self, input_real: &[T], input_imag: &[T]) -> (res: Result<(), FftError>)
        ensures
            res == input_check(self.total(), input_real.len(), input_imag.len()),
    {
        if input_real.len() != self.total_size {
            return Err(
                FftError::InvalidInputLength {
                    expected: self.total_size,
                    actual: input_real.len(),
                    component: Component::Real,
                },
            );
        }
        if input_imag.len() != self.total_size {
            return Err(
                FftError::InvalidInputLength {
                    expected: self.total_size,
                    actual: input_imag.len(),
                    component: Component::Imaginary,
                },
            );
        }
        Ok(())
    }

    /// Transforms the volume in `buffer` along `X`, then `Y`, then `Z`, with
    /// the cached executor for `direction`, which is built first if the cache
    /// does not hold it yet.
    pub fn fft_3d(&mut self, buffer: &mut Vec<Sample<T>>, direction: Direction) -> (res: Result<
        (),
        FftError,
    >)
        requires
            old(self).wf(),
            old(buffer).len() == old(self).total(),
        ensures
            res is Ok,
            final(self).wf(),
            final(self).same_engine(*old(self)),
            final(self).cache().slot(final(self).edge() as int) is Some,
            old(self).cache().slot(old(self).edge() as int) is Some ==> final(self).cache() == old(
                self,
            ).cache(),
            forall|other: int|
                other != old(self).edge() ==> final(self).cache().slot(other) == old(
                    self,
                ).cache().slot(other),
            transformed_3d(
                final(self).executor(),
                final(self).plan(direction),
                final(self).edge() as int,
                old(buffer)@,
                final(buffer)@,
            ),
    {
        let n = self.size;
        let pair = match self.plan_cache.get_plans(n, &self.build) {
            Ok(pair) => pair,
            Err(e) => {
                return Err(e);
            },
        };
        let plan = pair.get(direction);
        proof {
            if old(self).cache().slot(n as int) is Some {
                assert(old(self).cache().slot(n as int) == Some(*pair));
                assert(old(self).plan(direction) == *plan);
            } else {
                assert(call_ensures(self.build, (n, Direction::Forward), pair.forward));
                assert(call_ensures(self.build, (n, Direction::Inverse), pair.inverse));
            }
            assert(call_ensures(old(self).builder(), (n, direction), *plan));
        }
        axis_pass(buffer, n, Axis::X, plan, &self.transform);
        let ghost after_x = buffer@;
        axis_pass(buffer, n, Axis::Y, plan, &self.transform);
        let ghost after_y = buffer@;
        axis_pass(buffer, n, Axis::Z, plan, &self.transform);
        assert(pass_transformed(self.transform, *plan, n as int, Axis::X, old(buffer)@, after_x));
        assert(pass_transformed(self.transform, *plan, n as int, Axis::Z, after_y, buffer@));
        Ok(())
    }

    /// Whether `output` is the interleaved result of the forward transform of
    /// the volume given by `re` and `im`.
    pub open spec fn is_forward_of(self, re: Seq<T>, im: Seq<T>, output: Seq<T>) -> bool {
        exists|spectrum: Seq<Sample<T>>|
            #[trigger] transformed_3d(
                self.executor(),
                self.plan(Direction::Forward),
                self.edge() as int,
                paired(re, im),
                spectrum,
            ) && output == interleaved(spectrum)
    }

    /// Whether `output` is the interleaved, normalised result of the inverse
    /// transform of the volume given by `re` and `im`.
    pub open spec fn is_inverse_of(self, re: Seq<T>, im: Seq<T>, output: Seq<T>) -> bool {
        exists|raw: Seq<Sample<T>>, scaled: Seq<Sample<T>>|
            #![trigger normalized(self.scaler(), self.total(), raw, scaled)]
            transformed_3d(
                self.executor(),
                self.plan(Direction::Inverse),
                self.edge() as int,
                paired(re, im),
                raw,
            ) && normalized(self.scaler(), self.total(), raw, scaled) && output == interleaved(
                scaled,
            )
    }

    /// With a one-dimensional transform that computes `f`, the forward
    /// transform has exactly one result: the interleaved volume with `f`
    /// applied along each axis in turn.
    pub proof fn lemma_forward_result(
        self,
        f: spec_fn(Seq<Sample<T>>) -> Seq<Sample<T>>,
        re: Seq<T>,
        im: Seq<T>,
        output: Seq<T>,
    )
        requires
            self.wf(),
            computes(self.executor(), self.plan(Direction::Forward), f),
            self.is_forward_of(re, im, output),
        ensures
            output == interleaved(map_lines_3d(f, paired(re, im), self.edge() as int)),
    {
        let spectrum = choose|spectrum: Seq<Sample<T>>|
            #[trigger] transformed_3d(
                self.executor(),
                self.plan(Direction::Forward),
                self.edge() as int,
                paired(re, im),
                spectrum,
            ) && output == interleaved(spectrum);
        lemma_transform_maps_lines(
            self.executor(),
            self.plan(Direction::Forward),
            f,
            self.edge() as int,
            paired(re, im),
            spectrum,
        );
    }

    /// With a one-dimensional transform that computes `f` and a scaling that
    /// computes `g`, the inverse transform has exactly one result: the
    /// interleaved volume with `f` applied along each axis in turn and `g`
    /// applied once to every component.
    pub proof fn lemma_inverse_result(
        self,
        f: spec_fn(Seq<Sample<T>>) -> Seq<Sample<T>>,
        g: spec_fn(T) -> T,
        re: Seq<T>,
        im: Seq<T>,
        output: Seq<T>,
    )
        requires
            self.wf(),
            computes(self.executor(), self.plan(Direction::Inverse), f),
            scales(self.scaler(), self.total(), g),
            self.is_inverse_of(re, im, output),
        ensures
            output == interleaved(
                map_components(g, map_lines_3d(f, paired(re, im), self.edge() as int)),
            ),
    {
        let (raw, scaled): (Seq<Sample<T>>, Seq<Sample<T>>) = choose|
            raw: Seq<Sample<T>>,
            scaled: Seq<Sample<T>>,
        |
            #![trigger normalized(self.scaler(), self.total(), raw, scaled)]
            transformed_3d(
                self.executor(),
                self.plan(Direction::Inverse),
                self.edge() as int,
                paired(re, im),
                raw,
            ) && normalized(self.scaler(), self.total(), raw, scaled) && output == interleaved(
                scaled,
            );
        lemma_transform_maps_lines(
            self.executor(),
            self.plan(Direction::Inverse),
            f,
            self.edge() as int,
            paired(re, im),
            raw,
        );
        assert forall|i: int| 0 <= i < scaled.len() implies scaled[i] == map_components(g, raw)[i] by {
            assert(call_ensures(self.scaler(), (raw[i].re, self.total()), scaled[i].re));
            assert(call_ensures(self.scaler(), (raw[i].im, self.total()), scaled[i].im));
        }
        assert(scaled =~= map_components(g, raw));
    }

    /// The round trip. Let the executors compute `f` forwards and `g`
    /// backwards and the scaling compute `s`, where `g` undoes `f` on lines up
    /// to `c` on every component, passes along different axes can change
    /// places with each other and with `c`, and `s` undoes three uses of `c`.
    /// Then the inverse transform of the output of the forward transform is
    /// the input, interleaved.
    pub proof fn lemma_round_trip_result(
        self,
        f: spec_fn(Seq<Sample<T>>) -> Seq<Sample<T>>,
        g: spec_fn(Seq<Sample<T>>) -> Seq<Sample<T>>,
        c: spec_fn(T) -> T,
        s: spec_fn(T) -> T,
        re: Seq<T>,
        im: Seq<T>,
        spectrum: Seq<T>,
        spectrum_re: Seq<T>,
        spectrum_im: Seq<T>,
        output: Seq<T>,
    )
        requires
            self.wf(),
            re.len() == self.total(),
            im.len() == self.total(),
            computes(self.executor(), self.plan(Direction::Forward), f),
            computes(self.executor(), self.plan(Direction::Inverse), g),
            scales(self.scaler(), self.total(), s),
            keeps_length(f, self.edge() as int),
            undoes_on_lines(f, g, on_both(c), self.edge() as int),
            passes_commute(f, g, self.edge() as int),
            pass_commutes_with(f, on_both(c), self.edge() as int),
            pass_commutes_with(g, on_both(c), self.edge() as int),
            forall|x: T| s(c(c(#[trigger] c(x)))) == x,
            self.is_forward_of(re, im, spectrum),
            spectrum_re.len() == self.total(),
            spectrum_im.len() == self.total(),
            forall|i: int|
                0 <= i < self.total() ==> #[trigger] spectrum_re[i] == spectrum[2 * i]
                    && spectrum_im[i] == spectrum[2 * i + 1],
            self.is_inverse_of(spectrum_re, spectrum_im, output),
        ensures
            output == interleaved(paired(re, im)),
    {
        let n = self.edge() as int;
        let volume = paired(re, im);
        let forwards = map_lines_3d(f, volume, n);
        self.lemma_forward_result(f, re, im, spectrum);
        assert forall|i: int| 0 <= i < forwards.len() implies paired(spectrum_re, spectrum_im)[i]
            == forwards[i] by {
            assert(spectrum_re[i] == spectrum[2 * i]);
            assert((2 * i) % 2 == 0 && (2 * i) / 2 == i);
            assert((2 * i + 1) % 2 == 1 && (2 * i + 1) / 2 == i);
        }
        assert(paired(spectrum_re, spectrum_im) =~= forwards);
        self.lemma_inverse_result(g, s, spectrum_re, spectrum_im, output);
        let backwards = map_lines_3d(g, forwards, n);
        assert forall|x: Sample<T>| on_both(s)(on_both(c)(on_both(c)(#[trigger] on_both(c)(x))))
            == x by {
            assert(s(c(c(c(x.re)))) == x.re);
            assert(s(c(c(c(x.im)))) == x.im);
        }
        lemma_round_trip(f, g, on_both(c), on_both(s), volume, n);
        assert(map_components(s, backwards) =~= map_each(on_both(s), backwards));
    }

    /// The forward transform of the volume whose samples are given by
    /// `input_real` and `input_imag` in row-major order. Nothing is normalised.
    pub fn forward(&mut self, input_real: &[T], input_imag: &[T]) -> (res: Result<Vec<T>, FftError>)
        requires
            old(self).wf(),
        ensures
            final(self).wf(),
            final(self).same_engine(*old(self)),
            old(self).cache().slot(old(self).edge() as int) is Some ==> final(self).cache() == old(
                self,
            ).cache(),
            forall|other: int|
                other != old(self).edge() ==> final(self).cache().slot(other) == old(
                    self,
                ).cache().slot(other),
            match input_check(old(self).total(), input_real.len(), input_imag.len()) {
                Err(e) => res == Err::<Vec<T>, FftError>(e) && *final(self) == *old(self),
                Ok(_) => {
                    &&& res is Ok
                    &&& res->Ok_0.len() == 2 * old(self).total()
                    &&& final(self).cache().slot(final(self).edge() as int) is Some
                    &&& final(self).is_forward_of(input_real@, input_imag@, res->Ok_0@)
                },
            },
    {
        match self.validate_input(input_real, input_imag) {
            Err(e) => {
                return Err(e);
            },
            Ok(_) => {},
        }
        let mut buffer = pair_samples(input_real, input_imag);
        let ghost volume = buffer@;
        match self.fft_3d(&mut buffer, Direction::Forward) {
            Err(e) => {
                return Err(e);
            },
            Ok(_) => {},
        }
        let output = interleave(&buffer);
        assert(transformed_3d(
            self.executor(),
            self.plan(Direction::Forward),
            self.edge() as int,
            volume,
            buffer@,
        ));
        Ok(output)
    }

    /// The inverse transform of the volume whose samples are given by
    /// `input_real` and `input_imag`, every component scaled once by the
    /// number of samples.
    pub fn inverse(&mut self, input_real: &[T], input_imag: &[T]) -> (res: Result<Vec<T>, FftError>)
        requires
            old(self).wf(),
        ensures
            final(self).wf(),
            final(self).same_engine(*old(self)),
            old(self).cache().slot(old(self).edge() as int) is Some ==> final(self).cache() == old(
                self,
            ).cache(),
            forall|other: int|
                other != old(self).edge() ==> final(self).cache().slot(other) == old(
                    self,
                ).cache().slot(other),
            match input_check(old(self).total(), input_real.len(), input_imag.len()) {
                Err(e) => res == Err::<Vec<T>, FftError>(e) && *final(self) == *old(self),
                Ok(_) => {
                    &&& res is Ok
                    &&& res->Ok_0.len() == 2 * old(self).total()
                    &&& final(self).cache().slot(final(self).edge() as int) is Some
                    &&& final(self).is_inverse_of(input_real@, input_imag@, res->Ok_0@)
                },
            },
    {
        match self.validate_input(input_real, input_imag) {
            Err(e) => {
                return Err(e);
            },
            Ok(_) => {},
        }
        let mut buffer = pair_samples(input_real, input_imag);
        let ghost volume = buffer@;
        match self.fft_3d(&mut buffer, Direction::Inverse) {
            Err(e) => {
                return Err(e);
            },
            Ok(_) => {},
        }
        let ghost raw = buffer@;
        normalize(&mut buffer, self.total_size, &self.scale);
        let output = interleave(&buffer);
        assert(normalized(self.scaler(), self.total(), raw, buffer@));
        Ok(output)
    }
}

} // verus!
