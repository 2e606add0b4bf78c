//! ISO 3166-1 alpha-2 country codes, normalized to upper case on creation.

use vstd::prelude::*;

use crate::error::AppError;
use crate::text::{ascii_upper, to_ascii_upper_string, trim, trim_of};

verus! {

/// A sequence of exactly two ASCII upper-case letters.
pub open spec fn is_valid_country_code(s: Seq<char>) -> bool {
    s.len() == 2 && 'A' <= s[0] <= 'Z' && 'A' <= s[1] <= 'Z'
}

/// ISO 3166-1 alpha-2 country code (e.g. "US", "FR", "DE").
#[derive(Debug, Clone, Hash)]
pub struct CountryCode(String);

impl View for CountryCode {
    type V = Seq<char>;

    closed spec fn view(&self) -> Seq<char> {
        self.0@
    }
}

impl CountryCode {
    /// Create a new `CountryCode` from a string: ASCII whitespace is trimmed,
    /// ASCII letters are upper-cased, and the result must be exactly two
    /// upper-case ASCII letters.
    pub fn new(code: &str) -> (r: Result<CountryCode, AppError>)
        ensures
            match r {
                Ok(cc) => cc@ == ascii_upper(trim_of(code@)) && is_valid_country_code(cc@),
                Err(e) => !is_valid_country_code(ascii_upper(trim_of(code@))) && (e matches
                    AppError::InvalidCountryCode(c) && c@ == ascii_upper(trim_of(code@))),
            },
    {
        let upper = to_ascii_upper_string(trim(code));
        let ok = upper.as_str().unicode_len() == 2 && {
            let c0 = upper.as_str().get_char(0);
            let c1 = upper.as_str().get_char(1);
            'A' <= c0 && c0 <= 'Z' && 'A' <= c1 && c1 <= 'Z'
        };
        if ok {
            Ok(CountryCode(upper))
        } else {
            Err(AppError::InvalidCountryCode(upper))
        }
    }

    pub fn as_str(&self) -> (r: &str)
        ensures
            r@ == self@,
    {
        self.0.as_str()
    }
}

} // verus!
