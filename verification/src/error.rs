//! The failures the decimal operations report.

use vstd::prelude::*;

verus! {

/// Why a run of characters is not an unsigned integer literal.
#[derive(Clone, Copy, Debug, PartialEq, Eq, Structural)]
pub enum IntErrorKind {
    /// There were no characters at all.
    Empty,
    /// A character other than `0`..`9` was met.
    InvalidDigit,
    /// The digits denote a number above `u32::MAX`.
    PosOverflow,
}

/// What went wrong in building, computing or reading a decimal.
#[derive(Clone, Copy, Debug, PartialEq, Eq, Structural)]
pub enum Error {
    /// The value does not fit the representable range.
    Overflow {},
    /// The text is not of the form expected; for a decimal, it has more
    /// than one point.
    UnexpectedFormat {},
    /// The divisor was zero.
    DivisionByZero {},
    /// The whole or the fractional digits are not an integer literal.
    ParseInt(IntErrorKind),
}

impl IntErrorKind {
    /// The sentence that describes the failure.
    pub open spec fn message(self) -> Seq<char> {
        match self {
            IntErrorKind::Empty => "cannot parse integer from empty string"@,
            IntErrorKind::InvalidDigit => "invalid digit found in string"@,
            IntErrorKind::PosOverflow => "number too large to fit in target type"@,
        }
    }

    /// The sentence that describes the failure.
    pub fn to_string(&self) -> (s: String)
        ensures
            s@ == self.message(),
    {
        match self {
            IntErrorKind::Empty => "cannot parse integer from empty string".to_owned(),
            IntErrorKind::InvalidDigit => "invalid digit found in string".to_owned(),
            IntErrorKind::PosOverflow => "number too large to fit in target type".to_owned(),
        }
    }
}

impl Error {
    /// The sentence that describes the error; for a failure to read an
    /// integer, that of the failure.
    pub open spec fn message(self) -> Seq<char> {
        match self {
            Error::Overflow {} => "Value exceeds max safe decimal"@,
            Error::UnexpectedFormat {} => "Unexpected decimal format"@,
            Error::DivisionByZero {} => "Division by zero"@,
            Error::ParseInt(kind) => kind.message(),
        }
    }

    /// The sentence that describes the error.
    pub fn to_string(&self) -> (s: String)
        ensures
            s@ == self.message(),
    {
        match self {
            Error::Overflow {} => "Value exceeds max safe decimal".to_owned(),
            Error::UnexpectedFormat {} => "Unexpected decimal format".to_owned(),
            Error::DivisionByZero {} => "Division by zero".to_owned(),
            Error::ParseInt(kind) => kind.to_string(),
        }
    }
}

} // verus!
