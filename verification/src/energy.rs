//! The total energy of a set of coefficients.

use vstd::prelude::*;
use crate::error::FftError;

verus! {

/// Whether `energy` is a result of folding `accumulate` over the coefficients
/// in order, starting from `zero`: `sums` holds the running totals.
pub open spec fn is_energy_of<T, A: Fn(T, T, T) -> T>(
    accumulate: A,
    zero: T,
    re: Seq<T>,
    im: Seq<T>,
    energy: T,
) -> bool {
    exists|sums: Seq<T>| #[trigger] running_totals(accumulate, zero, re, im, sums) && sums.last() == energy
}

/// Whether `sums` holds the running totals of `accumulate` over the
/// coefficients: it starts at `zero` and each further entry is a result of
/// `accumulate` on the entry before it and the next coefficient.
pub open spec fn running_totals<T, A: Fn(T, T, T) -> T>(
    accumulate: A,
    zero: T,
    re: Seq<T>,
    im: Seq<T>,
    sums: Seq<T>,
) -> bool {
    &&& sums.len() == re.len() + 1
    &&& sums[0] == zero
    &&& forall|i: int|
        0 <= i < re.len() ==> call_ensures(accumulate, (sums[i], re[i], im[i]), #[trigger] sums[i + 1])
}

/// The sum over all coefficients of the squared magnitude, where
/// `accumulate(total, re, im)` adds the squared magnitude of one coefficient
/// to a running total that starts at `zero`.
pub fn calculate_energy<T: Copy, A: Fn(T, T, T) -> T>(
    coefficients_real: &[T],
    coefficients_imag: &[T],
    zero: T,
    accumulate: A,
) -> (res: Result<T, FftError>)
    requires
        forall|total: T, re: T, im: T| #[trigger] call_requires(accumulate, (total, re, im)),
    ensures
        coefficients_real.len() != coefficients_imag.len() ==> res == Err::<T, FftError>(
            FftError::LengthMismatch,
        ),
        coefficients_real.len() == coefficients_imag.len() ==> res is Ok && is_energy_of(
            accumulate,
            zero,
            coefficients_real@,
            coefficients_imag@,
            res->Ok_0,
        ),
{
    if coefficients_real.len() != coefficients_imag.len() {
        return Err(FftError::LengthMismatch);
    }
    let len = coefficients_real.len();
    let mut energy = zero;
    let ghost mut sums: Seq<T> = seq![zero];
    let mut i: usize = 0;
    while i < len
        invariant
            i <= len,
            len == coefficients_real.len(),
            len == coefficients_imag.len(),
            forall|total: T, re: T, im: T| #[trigger] call_requires(accumulate, (total, re, im)),
            sums.len() == i + 1,
            sums[0] == zero,
            sums.last() == energy,
            forall|j: int|
                0 <= j < i ==> call_ensures(
                    accumulate,
                    (sums[j], coefficients_real@[j], coefficients_imag@[j]),
                    #[trigger] sums[j + 1],
                ),
        decreases len - i,
    {
        energy = accumulate(energy, coefficients_real[i], coefficients_imag[i]);
        proof {
            sums = sums.push(energy);
        }
        i += 1;
    }
    assert(running_totals(accumulate, zero, coefficients_real@, coefficients_imag@, sums));
    Ok(energy)
}

} // verus!
