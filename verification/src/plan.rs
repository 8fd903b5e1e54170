//! The plan cache: one slot per supported edge length, each filled at most once.

use vstd::prelude::*;
use crate::error::FftError;

verus! {

/// The direction of a transform.
#[derive(Clone, Copy, Debug, PartialEq, Eq, Structural)]
pub enum Direction {
    Forward,
    Inverse,
}

/// The edge lengths that the engine supports.
pub open spec fn supported_size(size: int) -> bool {
    size == 8 || size == 16 || size == 32
}

/// The two executors planned for one edge length.
pub struct PlanPair<P> {
    pub forward: P,
    pub inverse: P,
}

impl<P> PlanPair<P> {
    /// The executor for `direction`.
    pub open spec fn executor(self, direction: Direction) -> P {
        match direction {
            Direction::Forward => self.forward,
            Direction::Inverse => self.inverse,
        }
    }

    /// Picks the executor for `direction`.
    pub fn get(&self, direction: Direction) -> (plan: &P)
        ensures
            *plan == self.executor(direction),
    {
        match direction {
            Direction::Forward => &self.forward,
            Direction::Inverse => &self.inverse,
        }
    }
}

/// Keeps the executors of each edge length from their first use on.
pub struct FFTPlanCache<P> {
    size_8: Option<PlanPair<P>>,
    size_16: Option<PlanPair<P>>,
    size_32: Option<PlanPair<P>>,
}

impl<P> FFTPlanCache<P> {
    /// What the cache holds for `size`; nothing for a size that is not supported.
    pub closed spec fn slot(self, size: int) -> Option<PlanPair<P>> {
        if size == 8 {
            self.size_8
        } else if size == 16 {
            self.size_16
        } else if size == 32 {
            self.size_32
        } else {
            None
        }
    }

    /// An empty cache.
    pub fn new() -> (cache: Self)
        ensures
            forall|size: int| cache.slot(size) is None,
    {
        FFTPlanCache { size_8: None, size_16: None, size_32: None }
    }

    /// Returns the executors for `size`, building them with `build` on the
    /// first request for that size and never again.
    pub fn get_plans<B: Fn(usize, Direction) -> P>(&mut self, size: usize, build: &B) -> (res:
        Result<&PlanPair<P>, FftError>)
        requires
            supported_size(size as int) ==> call_requires(*build, (size, Direction::Forward))
                && call_requires(*build, (size, Direction::Inverse)),
        ensures
            res is Ok <==> supported_size(size as int),
            res is Err ==> res == Err::<&PlanPair<P>, FftError>(
                FftError::UnsupportedSize { size },
            ) && *final(self) == *old(self),
            res is Ok ==> final(self).slot(size as int) == Some(*res->Ok_0),
            forall|other: int| other != size ==> final(self).slot(other) == old(self).slot(other),
            old(self).slot(size as int) is Some ==> *final(self) == *old(self),
            res is Ok && old(self).slot(size as int) is None ==> call_ensures(
                *build,
                (size, Direction::Forward),
                res->Ok_0.forward,
            ) && call_ensures(*build, (size, Direction::Inverse), res->Ok_0.inverse),
    {
        match size {
            8 => {
                if self.size_8.is_none() {
                    let forward = build(8, Direction::Forward);
                    let inverse = build(8, Direction::Inverse);
                    self.size_8 = Some(PlanPair { forward, inverse });
                }
                Ok(self.size_8.as_ref().unwrap())
            },
            16 => {
                if self.size_16.is_none() {
                    let forward = build(16, Direction::Forward);
                    let inverse = build(16, Direction::Inverse);
                    self.size_16 = Some(PlanPair { forward, inverse });
                }
                Ok(self.size_16.as_ref().unwrap())
            },
            32 => {
                if self.size_32.is_none() {
                    let forward = build(32, Direction::Forward);
                    let inverse = build(32, Direction::Inverse);
                    self.size_32 = Some(PlanPair { forward, inverse });
                }
                Ok(self.size_32.as_ref().unwrap())
            },
            _ => Err(FftError::UnsupportedSize { size }),
        }
    }
}

impl<P> Default for FFTPlanCache<P> {
    fn default() -> (cache: Self)
        ensures
            forall|size: int| cache.slot(size) is None,
    {
        Self::new()
    }
}

} // verus!
