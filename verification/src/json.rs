//! The decimal as a JSON number.
//!
//! A decimal goes out as a bare JSON number: the text written for it is
//! handed to `serde_json`, which reads it as a number. Coming in, a decimal
//! is read from a JSON string by `from_str`.

use vstd::prelude::*;
use crate::decimal::SafeDecimal;
use crate::error::Error;
use crate::format::display_text;

verus! {

/// `serde_json::Number`, a JSON number. Nothing of what it holds is
/// visible here.
#[verifier::external_type_specification]
#[verifier::external_body]
pub struct ExNumber(serde_json::Number);

/// Whether `serde_json` reads the text as a JSON number: the outcome of
/// `<serde_json::Number as FromStr>::from_str`, which depends on the text
/// alone.
pub uninterp spec fn json_number_accepts(text: Seq<char>) -> bool;

/// Calls `<serde_json::Number as FromStr>::from_str`, which reads the whole
/// text as one JSON number and returns the number, or an error where the
/// text is none; the error is dropped. Claimed here: it succeeds on the
/// same texts every time. Nothing is claimed of the number itself.
#[verifier::external_body]
fn parse_json_number(text: &str) -> (r: Option<serde_json::Number>)
    ensures
        r is Some <==> json_number_accepts(text@),
{
    text.parse::<serde_json::Number>().ok()
}

impl SafeDecimal {
    /// The JSON number that `serde_json` reads from the text of the
    /// decimal. Where it reads none, the text was not of the form it
    /// expects.
    pub fn to_json_number(&self) -> (r: Result<serde_json::Number, Error>)
        ensures
            r is Ok <==> json_number_accepts(display_text(self@)),
            r is Err ==> r.unwrap_err() == (Error::UnexpectedFormat {}),
    {
        let text = self.to_string();
        match parse_json_number(text.as_str()) {
            Some(number) => Ok(number),
            None => Err(Error::UnexpectedFormat {}),
        }
    }
}

} // verus!
