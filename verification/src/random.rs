//! Random choices, through the `rand` crate.

use rand::Rng;
use vstd::prelude::*;

verus! {

/// An index drawn with `Rng::gen_range(0, n)` from the thread's generator;
/// the contract states only that it is below `n`.
#[verifier::external_body]
pub(crate) fn random_index(n: usize) -> (r: usize)
    requires
        n > 0,
    ensures
        r < n,
{
    rand::thread_rng().gen_range(0, n)
}

/// A number drawn with `rand::random`; nothing is stated of it.
#[verifier::external_body]
pub(crate) fn random_i64() -> i64 {
    rand::random::<i64>()
}

} // verus!
