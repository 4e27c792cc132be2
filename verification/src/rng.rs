//! The randomness capability the shape factories draw from.

use vstd::prelude::*;

verus! {

/// Relies on rand::Rng::gen_range over the half-open range lo..hi:
/// it returns a value of that range, and panics only when the range is
/// empty, which the precondition rules out.
#[verifier::external_body]
pub(crate) fn rand_in_range(lo: i32, hi: i32) -> (r: i32)
    requires
        lo < hi,
    ensures
        lo <= r < hi,
{
    rand::Rng::gen_range(&mut rand::thread_rng(), lo..hi)
}

} // verus!
