//! Fresh identifiers for broadcasts and events.
use vstd::prelude::*;

verus! {

/// Relies on `uuid::Uuid::new_v4` and its `Display` impl: a fresh random
/// version-4 UUID rendered in the 36-character hyphenated form. The value is
/// random, so nothing beyond its shape is promised. The call aborts only if
/// the operating system's randomness source fails — a fault of the
/// environment, independent of any input.
#[verifier::external_body]
pub fn fresh_uuid() -> (r: String)
    ensures
        r@.len() == 36,
{
    uuid::Uuid::new_v4().to_string()
}

} // verus!
