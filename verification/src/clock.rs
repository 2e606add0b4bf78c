//! Wall-clock timestamps for persisted rows and reports.

use vstd::prelude::*;

verus! {

/// Relies on chrono::Utc::now and DateTime::to_rfc3339: the current time as
/// an RFC 3339 timestamp. The value depends on the clock; only its shape is
/// stated: ASCII text of at least 19 characters.
#[verifier::external_body]
pub(crate) fn now_rfc3339() -> (r: String)
    ensures
        vstd::utf8::is_ascii_chars(r@),
        r@.len() >= 19,
{
    chrono::Utc::now().to_rfc3339()
}

} // verus!
