//! Fresh identifiers.

use vstd::prelude::*;

verus! {

/// Relies on uuid::Uuid::new_v4 and uuid::Uuid::to_string: a fresh random
/// version-4 UUID in its 36-byte hyphenated text form. Nothing else can be
/// said of a random value.
#[verifier::external_body]
pub fn fresh_uuid() -> (r: Vec<u8>)
    ensures
        r@.len() == 36,
{
    uuid::Uuid::new_v4().to_string().into_bytes()
}

} // verus!
