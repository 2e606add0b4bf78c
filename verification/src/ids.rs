//! Identifier generation for persisted rows and deletion references.

use vstd::prelude::*;

verus! {

/// Relies on uuid::Uuid::new_v4 and its Display implementation: a fresh
/// version-4 UUID rendered as 36 hyphenated lowercase-hex ASCII characters.
/// The value is random; nothing relates two calls.
#[verifier::external_body]
pub(crate) fn fresh_id() -> (r: String)
    ensures
        r@.len() == 36,
        vstd::utf8::is_ascii_chars(r@),
{
    uuid::Uuid::new_v4().to_string()
}

} // verus!
