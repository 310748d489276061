//! The external random source: a single function producing a uniformly
//! distributed index in `[0, max)`.

use vstd::prelude::*;

verus! {

/// Relies on `rand::random_range`: a uniformly distributed value drawn from
/// the given range by the thread-local generator; it panics only when the
/// range is empty, which the precondition rules out. Nothing more than the
/// range can be promised of a random value.
#[verifier::external_body]
pub(crate) fn rnd(max: usize) -> (r: usize)
    requires
        max > 0,
    ensures
        r < max,
{
    rand::random_range(0..max)
}

} // verus!
