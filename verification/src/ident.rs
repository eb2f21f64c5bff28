//! Drawing fresh plugin identifiers.

use vstd::prelude::*;

verus! {

/// Relies on uuid::Uuid::new_v4, via Uuid::as_u128: draws a random
/// version-4 UUID and returns its 128-bit value. Nothing is promised of
/// the value — it depends on the process's randomness — so callers check
/// it against the ids they already hold before using it.
#[verifier::external_body]
pub(crate) fn fresh_id() -> u128 {
    uuid::Uuid::new_v4().as_u128()
}

} // verus!
