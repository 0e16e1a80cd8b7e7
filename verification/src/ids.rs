//! Trusted boundary to the uuid crate.

use vstd::prelude::*;

verus! {

/// Relies on uuid::Uuid::new_v4 with Uuid::to_string and Uuid::as_bytes:
/// a random version-4 UUID, as its canonical 36-character hyphenated text
/// and its 16 raw bytes. Nothing more is promised of a random value.
#[verifier::external_body]
pub fn new_uuid() -> (r: (String, Vec<u8>))
    ensures
        r.0@.len() == 36,
        r.1@.len() == 16,
{
    let u = uuid::Uuid::new_v4();
    (u.to_string(), u.as_bytes().to_vec())
}

}
