//! The one source of chance the library draws from.

use rand::Rng;
use vstd::prelude::*;

verus! {

/// Draws an index below `bound`.
///
/// Calls `rand::Rng::gen_range(0, bound)` on `rand::thread_rng()`. The
/// generator documents its result as lying in the half-open range from the
/// low end to the high end, and that is all this contract claims: two draws
/// with the same bound need not agree.
#[verifier::external_body]
pub(crate) fn random_below(bound: usize) -> (r: usize)
    requires
        bound > 0,
    ensures
        r < bound,
{
    rand::thread_rng().gen_range(0, bound)
}

} // verus!
