//! Row-major addressing of a cubic volume and its axis-aligned lines.

use vstd::prelude::*;

verus! {

/// One of the three axes of a volume. `X` varies fastest in memory, `Z` slowest.
#[derive(Clone, Copy, Debug, PartialEq, Eq, Structural)]
pub enum Axis {
    X,
    Y,
    Z,
}

/// Position of the sample `(x, y, z)` in a volume of edge length `n`.
pub open spec fn flat_index(n: int, x: int, y: int, z: int) -> int {
    z * n * n + y * n + x
}

/// The `x` coordinate of the sample at position `i`.
pub open spec fn x_of(n: int, i: int) -> int {
    i % n
}

/// The `y` coordinate of the sample at position `i`.
pub open spec fn y_of(n: int, i: int) -> int {
    (i / n) % n
}

/// The `z` coordinate of the sample at position `i`.
pub open spec fn z_of(n: int, i: int) -> int {
    (i / n) / n
}

/// Position of the `k`-th sample of the line `(a, b)` that runs along `axis`.
///
/// A line along `X` is named by `(z, y)`, one along `Y` by `(z, x)` and one
/// along `Z` by `(y, x)`.
pub open spec fn line_index(n: int, axis: Axis, a: int, b: int, k: int) -> int {
    match axis {
        Axis::X => flat_index(n, k, b, a),
        Axis::Y => flat_index(n, b, k, a),
        Axis::Z => flat_index(n, b, a, k),
    }
}

/// Whether position `i` lies on the line `(a, b)` along `axis`.
pub open spec fn on_line(n: int, axis: Axis, a: int, b: int, i: int) -> bool {
    match axis {
        Axis::X => z_of(n, i) == a && y_of(n, i) == b,
        Axis::Y => z_of(n, i) == a && x_of(n, i) == b,
        Axis::Z => y_of(n, i) == a && x_of(n, i) == b,
    }
}

/// The first coordinate of the line along `axis` that position `i` lies on.
pub open spec fn line_a(n: int, axis: Axis, i: int) -> int {
    match axis {
        Axis::X => z_of(n, i),
        Axis::Y => z_of(n, i),
        Axis::Z => y_of(n, i),
    }
}

/// The second coordinate of the line along `axis` that position `i` lies on.
pub open spec fn line_b(n: int, axis: Axis, i: int) -> int {
    match axis {
        Axis::X => y_of(n, i),
        Axis::Y => x_of(n, i),
        Axis::Z => x_of(n, i),
    }
}

/// The coordinate of position `i` along `axis`.
pub open spec fn along(n: int, axis: Axis, i: int) -> int {
    match axis {
        Axis::X => x_of(n, i),
        Axis::Y => y_of(n, i),
        Axis::Z => z_of(n, i),
    }
}

/// The samples of the line `(a, b)` along `axis`, in order.
pub open spec fn line_of<S>(vol: Seq<S>, n: int, axis: Axis, a: int, b: int) -> Seq<S> {
    Seq::new(n as nat, |k: int| vol[line_index(n, axis, a, b, k)])
}

/// The volume `vol` with the line `(a, b)` along `axis` replaced by `line`.
pub open spec fn with_line<S>(vol: Seq<S>, n: int, axis: Axis, a: int, b: int, line: Seq<S>) -> Seq<
    S,
> {
    Seq::new(
        vol.len(),
        |i: int|
            if on_line(n, axis, a, b, i) {
                line[along(n, axis, i)]
            } else {
                vol[i]
            },
    )
}

/// Coordinates inside the cube give a position inside the volume, and the
/// position gives the coordinates back.
pub proof fn lemma_flat_index_coords(n: int, x: int, y: int, z: int)
    requires
        0 < n,
        0 <= x < n,
        0 <= y < n,
        0 <= z < n,
    ensures
        0 <= flat_index(n, x, y, z) < n * n * n,
        x_of(n, flat_index(n, x, y, z)) == x,
        y_of(n, flat_index(n, x, y, z)) == y,
        z_of(n, flat_index(n, x, y, z)) == z,
{
    let i = flat_index(n, x, y, z);
    let q = z * n + y;
    assert(i == q * n + x) by (nonlinear_arith)
        requires
            i == z * n * n + y * n + x,
            q == z * n + y,
    ;
    assert(0 <= q < n * n) by (nonlinear_arith)
        requires
            q == z * n + y,
            0 <= y < n,
            0 <= z < n,
    ;
    assert(0 <= i < n * n * n) by (nonlinear_arith)
        requires
            i == q * n + x,
            0 <= q < n * n,
            0 <= x < n,
    ;
    vstd::arithmetic::div_mod::lemma_fundamental_div_mod_converse(i, n, q, x);
    vstd::arithmetic::div_mod::lemma_fundamental_div_mod_converse(q, n, z, y);
}

/// Every position inside the volume is the position of its own coordinates.
pub proof fn lemma_coords_flat_index(n: int, i: int)
    requires
        0 < n,
        0 <= i < n * n * n,
    ensures
        0 <= x_of(n, i) < n,
        0 <= y_of(n, i) < n,
        0 <= z_of(n, i) < n,
        flat_index(n, x_of(n, i), y_of(n, i), z_of(n, i)) == i,
{
    let q = i / n;
    let z = q / n;
    vstd::arithmetic::div_mod::lemma_fundamental_div_mod(i, n);
    vstd::arithmetic::div_mod::lemma_fundamental_div_mod(q, n);
    vstd::arithmetic::div_mod::lemma_mod_bound(i, n);
    vstd::arithmetic::div_mod::lemma_mod_bound(q, n);
    assert(0 <= q < n * n) by (nonlinear_arith)
        requires
            0 < n,
            0 <= i < n * n * n,
            i == n * q + i % n,
            0 <= i % n < n,
    ;
    assert(0 <= z < n) by (nonlinear_arith)
        requires
            0 < n,
            0 <= q < n * n,
            q == n * z + q % n,
            0 <= q % n < n,
    ;
    assert(z * n * n + (q % n) * n + i % n == i) by (nonlinear_arith)
        requires
            i == n * q + i % n,
            q == n * z + q % n,
    ;
}

/// The `k`-th position of a line lies on that line, at coordinate `k`.
pub proof fn lemma_line_index_on_line(n: int, axis: Axis, a: int, b: int, k: int)
    requires
        0 < n,
        0 <= a < n,
        0 <= b < n,
        0 <= k < n,
    ensures
        0 <= line_index(n, axis, a, b, k) < n * n * n,
        on_line(n, axis, a, b, line_index(n, axis, a, b, k)),
        along(n, axis, line_index(n, axis, a, b, k)) == k,
{
    match axis {
        Axis::X => lemma_flat_index_coords(n, k, b, a),
        Axis::Y => lemma_flat_index_coords(n, b, k, a),
        Axis::Z => lemma_flat_index_coords(n, b, a, k),
    }
}

/// A position on a line is the position of its coordinate along the axis.
pub proof fn lemma_on_line_is_line_index(n: int, axis: Axis, a: int, b: int, i: int)
    requires
        0 < n,
        0 <= i < n * n * n,
        on_line(n, axis, a, b, i),
    ensures
        0 <= a < n,
        0 <= b < n,
        0 <= along(n, axis, i) < n,
        line_index(n, axis, a, b, along(n, axis, i)) == i,
{
    lemma_coords_flat_index(n, i);
}

/// The volume in which every line along `axis` is `f` of that line of `vol`.
pub open spec fn map_lines<S>(f: spec_fn(Seq<S>) -> Seq<S>, vol: Seq<S>, n: int, axis: Axis) -> Seq<
    S,
> {
    Seq::new(
        vol.len(),
        |i: int|
            f(line_of(vol, n, axis, line_a(n, axis, i), line_b(n, axis, i)))[along(n, axis, i)],
    )
}

/// Every position lies on exactly one line along each axis, at the place
/// that its coordinate along the axis gives.
pub proof fn lemma_position_on_its_line(n: int, axis: Axis, i: int)
    requires
        0 < n,
        0 <= i < n * n * n,
    ensures
        0 <= line_a(n, axis, i) < n,
        0 <= line_b(n, axis, i) < n,
        0 <= along(n, axis, i) < n,
        on_line(n, axis, line_a(n, axis, i), line_b(n, axis, i), i),
        line_index(n, axis, line_a(n, axis, i), line_b(n, axis, i), along(n, axis, i)) == i,
{
    lemma_coords_flat_index(n, i);
}

/// The volume in which `f` was applied to every line along `X`, then to
/// every line along `Y`, then to every line along `Z`.
pub open spec fn map_lines_3d<S>(f: spec_fn(Seq<S>) -> Seq<S>, vol: Seq<S>, n: int) -> Seq<S> {
    map_lines(f, map_lines(f, map_lines(f, vol, n, Axis::X), n, Axis::Y), n, Axis::Z)
}

/// Replacing one line changes that line and no other line along the same axis.
pub proof fn lemma_with_line_lines<S>(vol: Seq<S>, n: int, axis: Axis, a: int, b: int, line: Seq<S>)
    requires
        0 < n,
        0 <= a < n,
        0 <= b < n,
        vol.len() == n * n * n,
        line.len() == n,
    ensures
        line_of(with_line(vol, n, axis, a, b, line), n, axis, a, b) == line,
        forall|a2: int, b2: int|
            0 <= a2 < n && 0 <= b2 < n && !(a2 == a && b2 == b) ==> #[trigger] line_of(
                with_line(vol, n, axis, a, b, line),
                n,
                axis,
                a2,
                b2,
            ) == line_of(vol, n, axis, a2, b2),
{
    let changed = with_line(vol, n, axis, a, b, line);
    assert forall|k: int| 0 <= k < n implies changed[line_index(n, axis, a, b, k)] == line[k] by {
        lemma_line_index_on_line(n, axis, a, b, k);
    }
    assert(line_of(changed, n, axis, a, b) =~= line);
    assert forall|a2: int, b2: int|
        0 <= a2 < n && 0 <= b2 < n && !(a2 == a && b2 == b) implies #[trigger] line_of(
        changed,
        n,
        axis,
        a2,
        b2,
    ) == line_of(vol, n, axis, a2, b2) by {
        assert forall|k: int| 0 <= k < n implies changed[line_index(n, axis, a2, b2, k)]
            == vol[line_index(n, axis, a2, b2, k)] by {
            lemma_line_index_on_line(n, axis, a2, b2, k);
        }
        assert(line_of(changed, n, axis, a2, b2) =~= line_of(vol, n, axis, a2, b2));
    }
}

/// Computes the position of the sample `(x, y, z)`.
pub fn flat_index_of(n: usize, x: usize, y: usize, z: usize) -> (i: usize)
    requires
        x < n,
        y < n,
        z < n,
        n * n * n <= usize::MAX,
    ensures
        i == flat_index(n as int, x as int, y as int, z as int),
        i < n * n * n,
{
    proof {
        lemma_flat_index_coords(n as int, x as int, y as int, z as int);
        assert(0 <= z * n <= z * n * n) by (nonlinear_arith)
            requires
                0 <= z,
                0 < n,
        ;
        assert(0 <= y * n) by (nonlinear_arith)
            requires
                0 <= y,
                0 < n,
        ;
    }
    z * n * n + y * n + x
}

/// Computes the position of the `k`-th sample of the line `(a, b)` along `axis`.
pub fn line_index_of(n: usize, axis: Axis, a: usize, b: usize, k: usize) -> (i: usize)
    requires
        a < n,
        b < n,
        k < n,
        n * n * n <= usize::MAX,
    ensures
        i == line_index(n as int, axis, a as int, b as int, k as int),
        i < n * n * n,
{
    match axis {
        Axis::X => flat_index_of(n, k, b, a),
        Axis::Y => flat_index_of(n, b, k, a),
        Axis::Z => flat_index_of(n, b, a, k),
    }
}

/// Copies the line `(a, b)` along `axis` out of the volume.
pub fn gather_line<S: Copy>(buffer: &Vec<S>, n: usize, axis: Axis, a: usize, b: usize) -> (line:
    Vec<S>)
    requires
        a < n,
        b < n,
        buffer.len() == n * n * n,
    ensures
        line@ == line_of(buffer@, n as int, axis, a as int, b as int),
{
    let mut line: Vec<S> = Vec::with_capacity(n);
    let mut k: usize = 0;
    while k < n
        invariant
            a < n,
            b < n,
            k <= n,
            buffer.len() == n * n * n,
            line.len() == k,
            forall|j: int|
                0 <= j < k ==> line[j] == buffer[line_index(n as int, axis, a as int, b as int, j)],
        decreases n - k,
    {
        let i = line_index_of(n, axis, a, b, k);
        line.push(buffer[i]);
        k += 1;
    }
    assert(line@ =~= line_of(buffer@, n as int, axis, a as int, b as int));
    line
}

/// Writes `line` back over the line `(a, b)` along `axis` of the volume.
pub fn scatter_line<S: Copy>(
    buffer: &mut Vec<S>,
    n: usize,
    axis: Axis,
    a: usize,
    b: usize,
    line: &Vec<S>,
)
    requires
        a < n,
        b < n,
        old(buffer).len() == n * n * n,
        line.len() == n,
    ensures
        final(buffer)@ == with_line(old(buffer)@, n as int, axis, a as int, b as int, line@),
{
    let mut k: usize = 0;
    while k < n
        invariant
            a < n,
            b < n,
            k <= n,
            line.len() == n,
            buffer.len() == n * n * n,
            old(buffer).len() == n * n * n,
            forall|i: int|
                0 <= i < buffer.len() ==> buffer[i] == if on_line(
                    n as int,
                    axis,
                    a as int,
                    b as int,
                    i,
                ) && along(n as int, axis, i) < k {
                    line[along(n as int, axis, i)]
                } else {
                    old(buffer)[i]
                },
        decreases n - k,
    {
        let i = line_index_of(n, axis, a, b, k);
        let ghost before = buffer@;
        buffer.set(i, line[k]);
        proof {
            lemma_line_index_on_line(n as int, axis, a as int, b as int, k as int);
            assert forall|j: int| 0 <= j < buffer.len() implies #[trigger] buffer[j] == if on_line(
                n as int,
                axis,
                a as int,
                b as int,
                j,
            ) && along(n as int, axis, j) < k + 1 {
                line[along(n as int, axis, j)]
            } else {
                old(buffer)[j]
            } by {
                if j != i {
                    assert(buffer[j] == before[j]);
                    if on_line(n as int, axis, a as int, b as int, j) {
                        lemma_on_line_is_line_index(n as int, axis, a as int, b as int, j);
                    }
                }
            }
        }
        k += 1;
    }
    proof {
        assert forall|i: int| 0 <= i < buffer.len() && on_line(
            n as int,
            axis,
            a as int,
            b as int,
            i,
        ) implies along(n as int, axis, i) < n by {
            lemma_on_line_is_line_index(n as int, axis, a as int, b as int, i);
        }
        assert(buffer@ =~= with_line(old(buffer)@, n as int, axis, a as int, b as int, line@));
    }
}

/// The volume with `c` applied to every sample.
pub open spec fn map_each<S>(c: spec_fn(S) -> S, vol: Seq<S>) -> Seq<S> {
    Seq::new(vol.len(), |i: int| c(vol[i]))
}

/// Whether `f` hands back `n` samples for every line of `n` samples.
pub open spec fn keeps_length<S>(f: spec_fn(Seq<S>) -> Seq<S>, n: int) -> bool {
    forall|line: Seq<S>| line.len() == n ==> (#[trigger] f(line)).len() == n
}

/// Whether a pass of `f` along one axis and a pass of `g` along another
/// axis can change places.
pub open spec fn passes_commute<S>(
    f: spec_fn(Seq<S>) -> Seq<S>,
    g: spec_fn(Seq<S>) -> Seq<S>,
    n: int,
) -> bool {
    forall|vol: Seq<S>, p: Axis, q: Axis|
        vol.len() == n * n * n && p != q ==> #[trigger] map_lines(
            g,
            map_lines(f, vol, n, p),
            n,
            q,
        ) == map_lines(f, map_lines(g, vol, n, q), n, p)
}

/// Whether a pass of `f` and the sample-wise map `c` can change places.
pub open spec fn pass_commutes_with<S>(
    f: spec_fn(Seq<S>) -> Seq<S>,
    c: spec_fn(S) -> S,
    n: int,
) -> bool {
    forall|vol: Seq<S>, p: Axis|
        vol.len() == n * n * n ==> #[trigger] map_lines(f, map_each(c, vol), n, p) == map_each(
            c,
            map_lines(f, vol, n, p),
        )
}

/// Whether `g` after `f` gives every line of `n` samples back with `c`
/// applied to each sample.
pub open spec fn undoes_on_lines<S>(
    f: spec_fn(Seq<S>) -> Seq<S>,
    g: spec_fn(Seq<S>) -> Seq<S>,
    c: spec_fn(S) -> S,
    n: int,
) -> bool {
    forall|line: Seq<S>| line.len() == n ==> g(#[trigger] f(line)) == map_each(c, line)
}

/// The lines of a volume after a pass of `f` are `f` of its lines before.
pub proof fn lemma_map_lines_line<S>(
    f: spec_fn(Seq<S>) -> Seq<S>,
    vol: Seq<S>,
    n: int,
    axis: Axis,
    a: int,
    b: int,
)
    requires
        0 < n,
        vol.len() == n * n * n,
        keeps_length(f, n),
        0 <= a < n,
        0 <= b < n,
    ensures
        line_of(map_lines(f, vol, n, axis), n, axis, a, b) == f(line_of(vol, n, axis, a, b)),
{
    let mapped = map_lines(f, vol, n, axis);
    let line = line_of(vol, n, axis, a, b);
    assert(f(line).len() == n);
    assert forall|k: int| 0 <= k < n implies mapped[line_index(n, axis, a, b, k)] == f(line)[k] by {
        lemma_line_index_on_line(n, axis, a, b, k);
    }
    assert(line_of(mapped, n, axis, a, b) =~= f(line));
}

/// A pass of `g` after a pass of `f` along the same axis, where `g` undoes
/// `f` on lines up to `c`, is `c` on every sample.
pub proof fn lemma_pass_undone<S>(
    f: spec_fn(Seq<S>) -> Seq<S>,
    g: spec_fn(Seq<S>) -> Seq<S>,
    c: spec_fn(S) -> S,
    vol: Seq<S>,
    n: int,
    axis: Axis,
)
    requires
        0 < n,
        vol.len() == n * n * n,
        keeps_length(f, n),
        undoes_on_lines(f, g, c, n),
    ensures
        map_lines(g, map_lines(f, vol, n, axis), n, axis) == map_each(c, vol),
{
    let mapped = map_lines(f, vol, n, axis);
    let back = map_lines(g, mapped, n, axis);
    assert forall|i: int| 0 <= i < vol.len() implies back[i] == c(vol[i]) by {
        lemma_position_on_its_line(n, axis, i);
        let a = line_a(n, axis, i);
        let b = line_b(n, axis, i);
        let k = along(n, axis, i);
        let line = line_of(vol, n, axis, a, b);
        lemma_map_lines_line(f, vol, n, axis, a, b);
        assert(g(f(line)) == map_each(c, line));
        assert(line[k] == vol[i]);
    }
    assert(back =~= map_each(c, vol));
}

/// Where passes of `f` along different axes can change places, the order of
/// the three passes does not show in the result: every order gives what the
/// order `X`, `Y`, `Z` gives.
pub proof fn lemma_pass_order<S>(
    f: spec_fn(Seq<S>) -> Seq<S>,
    vol: Seq<S>,
    n: int,
    p: Axis,
    q: Axis,
    r: Axis,
)
    requires
        vol.len() == n * n * n,
        passes_commute(f, f, n),
        p != q,
        q != r,
        p != r,
    ensures
        map_lines(f, map_lines(f, map_lines(f, vol, n, p), n, q), n, r) == map_lines_3d(f, vol, n),
{
    let fx = map_lines(f, vol, n, Axis::X);
    let fy = map_lines(f, vol, n, Axis::Y);
    let fz = map_lines(f, vol, n, Axis::Z);
    assert(map_lines(f, fy, n, Axis::X) == map_lines(f, fx, n, Axis::Y));
    assert(map_lines(f, fz, n, Axis::X) == map_lines(f, fx, n, Axis::Z));
    assert(map_lines(f, fz, n, Axis::Y) == map_lines(f, fy, n, Axis::Z));
    assert(map_lines(f, map_lines(f, fx, n, Axis::Z), n, Axis::Y) == map_lines(
        f,
        map_lines(f, fx, n, Axis::Y),
        n,
        Axis::Z,
    ));
    assert(map_lines(f, map_lines(f, fy, n, Axis::Z), n, Axis::X) == map_lines(
        f,
        map_lines(f, fy, n, Axis::X),
        n,
        Axis::Z,
    ));
}

/// The round trip of the separable transform. Where `g` undoes `f` on lines
/// up to `c`, passes of `f` and `g` along different axes can change places,
/// both can change places with `c`, and `s` undoes three uses of `c`, the
/// transform with `g` after the transform with `f`, scaled once with `s`,
/// gives the volume back.
pub proof fn lemma_round_trip<S>(
    f: spec_fn(Seq<S>) -> Seq<S>,
    g: spec_fn(Seq<S>) -> Seq<S>,
    c: spec_fn(S) -> S,
    s: spec_fn(S) -> S,
    vol: Seq<S>,
    n: int,
)
    requires
        0 < n,
        vol.len() == n * n * n,
        keeps_length(f, n),
        undoes_on_lines(f, g, c, n),
        passes_commute(f, g, n),
        pass_commutes_with(f, c, n),
        pass_commutes_with(g, c, n),
        forall|x: S| s(c(c(#[trigger] c(x)))) == x,
    ensures
        map_each(s, map_lines_3d(g, map_lines_3d(f, vol, n), n)) == vol,
{
    let fx = map_lines(f, vol, n, Axis::X);
    let fy = map_lines(f, vol, n, Axis::Y);
    let fz = map_lines(f, vol, n, Axis::Z);
    let fxy = map_lines(f, fx, n, Axis::Y);
    let fxyz = map_lines(f, fxy, n, Axis::Z);
    let fyz = map_lines(f, fy, n, Axis::Z);
    let c1 = map_each(c, vol);
    let c2 = map_each(c, c1);
    let c3 = map_each(c, c2);
    // the pass of g along X moves inwards and meets the pass of f along X
    assert(map_lines(g, fxyz, n, Axis::X) == map_lines(f, map_lines(g, fxy, n, Axis::X), n, Axis::Z));
    assert(map_lines(g, fxy, n, Axis::X) == map_lines(f, map_lines(g, fx, n, Axis::X), n, Axis::Y));
    lemma_pass_undone(f, g, c, vol, n, Axis::X);
    assert(map_lines(f, c1, n, Axis::Y) == map_each(c, fy));
    assert(map_lines(f, map_each(c, fy), n, Axis::Z) == map_each(c, fyz));
    let gx = map_lines(g, fxyz, n, Axis::X);
    assert(gx == map_each(c, fyz));
    // the pass of g along Y
    assert(map_lines(g, map_each(c, fyz), n, Axis::Y) == map_each(c, map_lines(g, fyz, n, Axis::Y)));
    assert(map_lines(g, fyz, n, Axis::Y) == map_lines(f, map_lines(g, fy, n, Axis::Y), n, Axis::Z));
    lemma_pass_undone(f, g, c, vol, n, Axis::Y);
    assert(map_lines(f, c1, n, Axis::Z) == map_each(c, fz));
    let gxy = map_lines(g, gx, n, Axis::Y);
    assert(gxy == map_each(c, map_each(c, fz)));
    // the pass of g along Z
    assert(map_lines(g, map_each(c, map_each(c, fz)), n, Axis::Z) == map_each(
        c,
        map_lines(g, map_each(c, fz), n, Axis::Z),
    ));
    assert(map_lines(g, map_each(c, fz), n, Axis::Z) == map_each(c, map_lines(g, fz, n, Axis::Z)));
    lemma_pass_undone(f, g, c, vol, n, Axis::Z);
    let gxyz = map_lines(g, gxy, n, Axis::Z);
    assert(gxyz == c3);
    assert(map_each(s, c3) =~= vol);
}

} // verus!
