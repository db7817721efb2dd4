//! The agent's source of randomness.
use vstd::prelude::*;

verus! {

/// Relies on `rand::random`: a draw from the thread-local generator.
/// Nothing is promised of the value; every caller must be correct for
/// every outcome.
#[verifier::external_body]
pub(crate) fn random_u64() -> u64 {
    rand::random()
}

} // verus!
