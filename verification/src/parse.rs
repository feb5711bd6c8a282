//! Reading a decimal from text: digits, and after one point more digits.

use vstd::prelude::*;
use vstd::slice::slice_subrange;
use std::str::FromStr;
use crate::decimal::{magnitude_of_parts, outcome, SafeDecimal};
use crate::digits::{pad_zeros, padded, parse_u32, parse_u32_text, trim_zeros, trimmed_len};
use crate::error::{Error, IntErrorKind};

verus! {

/// How many characters stand before the first point; all of them where
/// there is none.
pub open spec fn first_dot(s: Seq<char>) -> nat
    decreases s.len(),
{
    if s.len() > 0 && s[0] != '.' {
        1 + first_dot(s.drop_first())
    } else {
        0
    }
}

/// What the digits after the point denote in millionths: the zeros at
/// their end are dropped, the rest is filled up with zeros to six
/// characters and read as an integer. There has to be a character.
pub open spec fn fraction_text(fragment: Seq<char>) -> Result<u32, IntErrorKind> {
    if fragment.len() == 0 {
        Err(IntErrorKind::Empty)
    } else {
        parse_u32_text(pad_zeros(trim_zeros(fragment)))
    }
}

/// The magnitude that a text denotes, or why it denotes none.
///
/// The text is cut at its first point. What stands before it is the whole
/// part. What stands behind it, up to a second point or the end, is the
/// fraction. The errors come in this order: a whole part that is no
/// integer; a fraction that is none; a second point; a whole part of
/// `MAX` or more, or a fraction that keeps more than six digits once the
/// zeros at its end are dropped.
pub open spec fn parse_text(s: Seq<char>) -> Result<nat, Error> {
    let dot = first_dot(s) as int;
    let rest = s.skip(dot + 1);
    let fragment = rest.take(first_dot(rest) as int);
    match parse_u32_text(s.take(dot)) {
        Err(kind) => Err(Error::ParseInt(kind)),
        Ok(integral) => if dot == s.len() {
            magnitude_of_parts(integral as nat, 0)
        } else {
            match fraction_text(fragment) {
                Err(kind) => Err(Error::ParseInt(kind)),
                Ok(fractional) => if fragment.len() < rest.len() {
                    Err(Error::UnexpectedFormat {})
                } else if trim_zeros(fragment).len() > 6 {
                    Err(Error::Overflow {})
                } else {
                    magnitude_of_parts(integral as nat, fractional as nat)
                },
            }
        },
    }
}

/// No point stands before the first one, which is a point or the end.
pub proof fn lemma_first_dot(s: Seq<char>)
    ensures
        first_dot(s) <= s.len(),
        forall|i: int| 0 <= i < first_dot(s) ==> s[i] != '.',
        first_dot(s) < s.len() ==> s[first_dot(s) as int] == '.',
    decreases s.len(),
{
    if s.len() > 0 && s[0] != '.' {
        let t = s.drop_first();
        lemma_first_dot(t);
        assert forall|i: int| 0 <= i < first_dot(s) implies s[i] != '.' by {
            if i > 0 {
                assert(s[i] == t[i - 1]);
            }
        }
    }
}

/// The first point stands at `k` where a point, or the end, follows `k`
/// characters that are none.
pub proof fn lemma_first_dot_at(s: Seq<char>, k: int)
    requires
        0 <= k <= s.len(),
        forall|i: int| 0 <= i < k ==> s[i] != '.',
        k < s.len() ==> s[k] == '.',
    ensures
        first_dot(s) == k,
{
    lemma_first_dot(s);
}

/// The index of the first point, or the length where there is none.
fn find_dot(chars: &[char]) -> (n: usize)
    ensures
        n == first_dot(chars@),
        n <= chars.len(),
{
    let mut n: usize = 0;
    proof {
        lemma_first_dot(chars@);
    }
    while n < chars.len() && chars[n] != '.'
        invariant
            n <= chars.len(),
            n <= first_dot(chars@) <= chars.len(),
            forall|i: int| 0 <= i < first_dot(chars@) ==> chars@[i] != '.',
            first_dot(chars@) < chars.len() ==> chars@[first_dot(chars@) as int] == '.',
        decreases chars.len() - n,
    {
        n += 1;
    }
    n
}

/// The characters of a string, one by one.
fn chars_of(text: &str) -> (v: Vec<char>)
    ensures
        v@ == text@,
{
    let mut v: Vec<char> = Vec::new();
    for c in it: text.chars()
        invariant
            v@ == it.seq().take(it.index()),
            it.seq() == text@,
    {
        v.push(c);
    }
    v
}

impl FromStr for SafeDecimal {
    type Err = Error;

    /// Reads `<digits>` or `<digits>.<digits>`, the digits being `0` to
    /// `9`. The whole part has to stay below `MAX`. Of the fraction no more
    /// than six digits may be left once the zeros at its end are dropped.
    /// See `parse_text` for the error that each other text gives.
    fn from_str(text: &str) -> (r: Result<SafeDecimal, Error>)
        ensures
            outcome(r) == parse_text(text@),
    {
        let chars = chars_of(text);
        let all = chars.as_slice();
        let dot = find_dot(all);
        let integral = match parse_u32(slice_subrange(all, 0, dot)) {
            Ok(integral) => integral,
            Err(kind) => {
                return Err(Error::ParseInt(kind));
            },
        };
        if dot == all.len() {
            return SafeDecimal::new(integral, 0);
        }
        let rest = slice_subrange(all, dot + 1, all.len());
        let end = find_dot(rest);
        let fragment = slice_subrange(rest, 0, end);
        if fragment.len() == 0 {
            return Err(Error::ParseInt(IntErrorKind::Empty));
        }
        let kept = slice_subrange(fragment, 0, trimmed_len(fragment));
        let filled = padded(kept);
        let fractional = match parse_u32(filled.as_slice()) {
            Ok(fractional) => fractional,
            Err(kind) => {
                return Err(Error::ParseInt(kind));
            },
        };
        if end < rest.len() {
            return Err(Error::UnexpectedFormat {});
        }
        if kept.len() > 6 {
            return Err(Error::Overflow {});
        }
        SafeDecimal::new(integral, fractional)
    }
}

} // verus!
