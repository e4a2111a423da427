//! The one source of randomness the coordinator uses: `rand::random`,
//! taken on trust with no promise about the value drawn, and a verified
//! reduction of a draw to an index below a bound.

use vstd::prelude::*;

verus! {

/// Relies on rand::random: a uniformly distributed value of `T`. Nothing is
/// promised of the draw; callers must hold for every possible value.
pub assume_specification<T>[ rand::random::<T> ]() -> (r: T)
    where
        rand::distributions::Standard: rand::distributions::Distribution<T>,
;

/// A uniformly drawn index below `n`, for choosing one element of a
/// non-empty collection. The result is in range whatever the draw was.
pub fn pick_index(n: usize) -> (r: usize)
    requires
        n > 0,
    ensures
        r < n,
{
    let x: usize = rand::random::<usize>();
    x % n
}

} // verus!
