//! The two places where chance enters the library: fresh identifiers and
//! uniform picks for the placement strategy.

use vstd::prelude::*;

verus! {

/// Relies on uuid::Uuid::new_v4, read back as its 128-bit value: a freshly
/// drawn random identifier.  Nothing can be promised of a random value.
#[verifier::external_body]
pub(crate) fn fresh_id() -> u128 {
    uuid::Uuid::new_v4().as_u128()
}

/// Relies on rand::random_range over `0..bound`: a value drawn uniformly
/// below the bound.  The call panics on an empty range, so the bound must be
/// positive; of the value itself only its range can be promised.
#[verifier::external_body]
pub(crate) fn random_below(bound: u64) -> (r: u64)
    requires
        bound > 0,
    ensures
        r < bound,
{
    rand::random_range(0..bound)
}

} // verus!
