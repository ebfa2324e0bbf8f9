use vstd::prelude::*;

verus! {

/// Relies on uuid::Uuid::new_v4 (via Uuid::as_u128): a randomly generated
/// 128-bit identifier. Nothing is promised of the value; callers treat it
/// as an arbitrary id.
#[verifier::external_body]
pub(crate) fn fresh_id() -> u128 {
    uuid::Uuid::new_v4().as_u128()
}

} // verus!
