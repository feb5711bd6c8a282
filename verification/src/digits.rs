//! Runs of decimal digits: what they denote, and how a number is written.

use vstd::prelude::*;
use vstd::slice::slice_to_vec;
use crate::error::IntErrorKind;

verus! {

/// `String::push` appends the character to the end of the string and
/// leaves what stood before it as it was.
pub assume_specification[ String::push ](s: &mut String, ch: char)
    ensures
        final(s)@ == old(s)@.push(ch),
;

/// One of the characters `0` to `9`.
pub open spec fn is_digit(c: char) -> bool {
    '0' <= c && c <= '9'
}

/// The number that a digit stands for.
pub open spec fn digit_value(c: char) -> nat {
    (c as u32 - '0' as u32) as nat
}

/// The digit that stands for a number below ten.
pub open spec fn digit_char(d: nat) -> char {
    (d + '0' as u32) as char
}

/// Every character is a digit.
pub open spec fn all_digits(s: Seq<char>) -> bool {
    forall|i: int| 0 <= i < s.len() ==> is_digit(#[trigger] s[i])
}

/// The number that a run of digits denotes in base ten, the first digit
/// weighing most. The empty run denotes zero.
pub open spec fn decimal_value(s: Seq<char>) -> nat
    decreases s.len(),
{
    if s.len() == 0 {
        0
    } else {
        decimal_value(s.drop_last()) * 10 + digit_value(s.last())
    }
}

/// How many digits stand at the front of `s` before anything else.
pub open spec fn leading_digits(s: Seq<char>) -> nat
    decreases s.len(),
{
    if s.len() > 0 && is_digit(s[0]) {
        1 + leading_digits(s.drop_first())
    } else {
        0
    }
}

/// `s` without the zeros at its end.
pub open spec fn trim_zeros(s: Seq<char>) -> Seq<char>
    decreases s.len(),
{
    if s.len() > 0 && s.last() == '0' {
        trim_zeros(s.drop_last())
    } else {
        s
    }
}

/// A run of `n` zeros.
pub open spec fn zeros(n: nat) -> Seq<char> {
    Seq::new(n, |i: int| '0')
}

/// `s` filled up at its end with zeros to six characters; a longer `s` is
/// left alone.
pub open spec fn pad_zeros(s: Seq<char>) -> Seq<char> {
    if s.len() < 6 {
        s + zeros((6 - s.len()) as nat)
    } else {
        s
    }
}

/// The number written without leading zeros; zero is written `0`.
pub open spec fn decimal_digits(n: nat) -> Seq<char>
    decreases n,
{
    if n < 10 {
        seq![digit_char(n)]
    } else {
        decimal_digits(n / 10).push(digit_char(n % 10))
    }
}

/// The last `width` digits of the number, zeros at the front where it is
/// shorter.
pub open spec fn fixed_digits(n: nat, width: nat) -> Seq<char>
    decreases width,
{
    if width == 0 {
        Seq::empty()
    } else {
        fixed_digits(n / 10, (width - 1) as nat).push(digit_char(n % 10))
    }
}

/// What reading `s` as an unsigned 32-bit integer gives. The characters are
/// taken from the left, and the first thing wrong decides the error: a
/// number that has already left the range before a character that is no
/// digit, such a character otherwise. No sign is accepted.
pub open spec fn parse_u32_text(s: Seq<char>) -> Result<u32, IntErrorKind> {
    let digits = s.take(leading_digits(s) as int);
    if s.len() == 0 {
        Err(IntErrorKind::Empty)
    } else if decimal_value(digits) > u32::MAX {
        Err(IntErrorKind::PosOverflow)
    } else if digits.len() < s.len() {
        Err(IntErrorKind::InvalidDigit)
    } else {
        Ok(decimal_value(s) as u32)
    }
}

/// The leading digits are digits, they are all of `s` or end before
/// something else, and a run of digits at the front is never longer.
pub proof fn lemma_leading_digits(s: Seq<char>)
    ensures
        leading_digits(s) <= s.len(),
        all_digits(s.take(leading_digits(s) as int)),
        leading_digits(s) < s.len() ==> !is_digit(s[leading_digits(s) as int]),
        forall|k: int| 0 <= k <= s.len() && all_digits(s.take(k)) ==> k <= leading_digits(s),
    decreases s.len(),
{
    if s.len() > 0 && is_digit(s[0]) {
        let t = s.drop_first();
        lemma_leading_digits(t);
        let n = leading_digits(t) as int;
        assert forall|i: int| 0 <= i < n + 1 implies is_digit(#[trigger] s.take(n + 1)[i]) by {
            if i > 0 {
                assert(s.take(n + 1)[i] == t.take(n)[i - 1]);
            }
        }
        assert forall|k: int| 0 <= k <= s.len() && all_digits(s.take(k)) implies k
            <= leading_digits(s) by {
            if k > 0 {
                assert forall|i: int| 0 <= i < k - 1 implies is_digit(#[trigger] t.take(k - 1)[i]) by {
                    assert(t.take(k - 1)[i] == s.take(k)[i + 1]);
                }
                assert(all_digits(t.take(k - 1)));
            }
        }
    } else {
        assert forall|k: int| 0 <= k <= s.len() && all_digits(s.take(k)) implies k <= 0 by {
            if k > 0 {
                assert(s.take(k)[0] == s[0]);
            }
        }
    }
}

/// A longer piece from the front denotes no less than a shorter one.
pub proof fn lemma_value_grows(s: Seq<char>, j: int, k: int)
    requires
        0 <= j <= k <= s.len(),
    ensures
        decimal_value(s.take(j)) <= decimal_value(s.take(k)),
    decreases k - j,
{
    if j < k {
        lemma_value_grows(s, j, k - 1);
        assert(s.take(k).drop_last() == s.take(k - 1));
    }
}

/// Ten to the power `width`.
pub open spec fn pow10(width: nat) -> nat
    decreases width,
{
    if width == 0 {
        1
    } else {
        10 * pow10((width - 1) as nat)
    }
}

/// A number written without leading zeros is a run of digits, not empty,
/// that denotes the number.
pub proof fn lemma_decimal_digits(n: nat)
    ensures
        decimal_digits(n).len() >= 1,
        all_digits(decimal_digits(n)),
        decimal_value(decimal_digits(n)) == n,
    decreases n,
{
    let d = decimal_digits(n);
    if n < 10 {
        assert(d.drop_last() =~= Seq::<char>::empty());
        assert(decimal_value(d.drop_last()) == 0);
    } else {
        lemma_decimal_digits(n / 10);
        assert(d.drop_last() =~= decimal_digits(n / 10));
    }
}

/// A number written with `width` digits is a run of that many digits, and
/// denotes the number where that has no more digits than `width`.
pub proof fn lemma_fixed_digits(n: nat, width: nat)
    ensures
        fixed_digits(n, width).len() == width,
        all_digits(fixed_digits(n, width)),
        n < pow10(width) ==> decimal_value(fixed_digits(n, width)) == n,
    decreases width,
{
    let d = fixed_digits(n, width);
    if width > 0 {
        lemma_fixed_digits(n / 10, (width - 1) as nat);
        assert(d.drop_last() =~= fixed_digits(n / 10, (width - 1) as nat));
    }
}

/// Dropping the zeros at the end leaves a piece from the front that does
/// not end in a zero; only zeros were dropped, and there is nothing more
/// to drop.
pub proof fn lemma_trim_zeros(s: Seq<char>)
    ensures
        trim_zeros(s).len() <= s.len(),
        trim_zeros(s) == s.take(trim_zeros(s).len() as int),
        trim_zeros(s).len() > 0 ==> trim_zeros(s).last() != '0',
        forall|i: int| trim_zeros(s).len() <= i < s.len() ==> s[i] == '0',
        trim_zeros(trim_zeros(s)) == trim_zeros(s),
    decreases s.len(),
{
    if s.len() > 0 && s.last() == '0' {
        let t = s.drop_last();
        lemma_trim_zeros(t);
        assert(t.take(trim_zeros(t).len() as int) =~= s.take(trim_zeros(t).len() as int));
        assert forall|i: int| trim_zeros(s).len() <= i < s.len() implies s[i] == '0' by {
            if i < t.len() {
                assert(t[i] == s[i]);
            }
        }
    } else {
        assert(s.take(s.len() as int) =~= s);
    }
}

/// A run of zeros denotes zero.
pub proof fn lemma_zeros_value(s: Seq<char>)
    requires
        forall|i: int| 0 <= i < s.len() ==> s[i] == '0',
    ensures
        decimal_value(s) == 0,
    decreases s.len(),
{
    if s.len() > 0 {
        lemma_zeros_value(s.drop_last());
    }
}

/// A run of digits denotes less than ten to the power of its length.
pub proof fn lemma_value_bound(s: Seq<char>)
    requires
        all_digits(s),
    ensures
        decimal_value(s) < pow10(s.len()),
    decreases s.len(),
{
    if s.len() > 0 {
        let t = s.drop_last();
        assert forall|i: int| 0 <= i < t.len() implies is_digit(#[trigger] t[i]) by {
            assert(t[i] == s[i]);
        }
        lemma_value_bound(t);
        assert(is_digit(s[s.len() - 1]));
    }
}

/// Each zero written behind a run of digits makes it denote ten times as
/// much.
pub proof fn lemma_value_zeros(s: Seq<char>, n: nat)
    ensures
        decimal_value(s + zeros(n)) == decimal_value(s) * pow10(n),
    decreases n,
{
    let v = decimal_value(s);
    if n == 0 {
        assert(s + zeros(0) =~= s);
        assert(v * pow10(0) == v) by (nonlinear_arith)
            requires
                pow10(0) == 1,
        ;
    } else {
        let less = pow10((n - 1) as nat);
        lemma_value_zeros(s, (n - 1) as nat);
        assert((s + zeros(n)).drop_last() =~= s + zeros((n - 1) as nat));
        assert((s + zeros(n)).last() == '0');
        assert(v * less * 10 == v * (10 * less)) by (nonlinear_arith);
    }
}

/// A run of digits, not empty, that denotes a number up to `u32::MAX` is
/// read as that number.
pub proof fn lemma_parse_digits(s: Seq<char>)
    requires
        s.len() > 0,
        all_digits(s),
        decimal_value(s) <= u32::MAX,
    ensures
        parse_u32_text(s) == Ok::<u32, IntErrorKind>(decimal_value(s) as u32),
{
    lemma_leading_digits(s);
    assert(s.take(s.len() as int) =~= s);
    assert(s.take(leading_digits(s) as int) =~= s);
}

/// The digit that a character is, if it is one.
pub(crate) fn digit_of(c: char) -> (r: Option<u32>)
    ensures
        r == if is_digit(c) {
            Some(digit_value(c) as u32)
        } else {
            None::<u32>
        },
{
    if '0' <= c && c <= '9' {
        Some(c as u32 - '0' as u32)
    } else {
        None
    }
}

/// The character for a digit.
pub(crate) fn char_of(d: u32) -> (c: char)
    requires
        d < 10,
    ensures
        c == digit_char(d as nat),
{
    (d as u8 + 48u8) as char
}

/// Reads the characters as an unsigned 32-bit integer.
pub(crate) fn parse_u32(chars: &[char]) -> (r: Result<u32, IntErrorKind>)
    ensures
        r == parse_u32_text(chars@),
{
    if chars.len() == 0 {
        return Err(IntErrorKind::Empty);
    }
    let mut value: u32 = 0;
    let mut i: usize = 0;
    while i < chars.len()
        invariant
            i <= chars.len(),
            chars.len() > 0,
            all_digits(chars@.take(i as int)),
            value == decimal_value(chars@.take(i as int)),
        decreases chars.len() - i,
    {
        proof {
            lemma_leading_digits(chars@);
            assert(chars@.take(i + 1).drop_last() == chars@.take(i as int));
        }
        let digit = match digit_of(chars[i]) {
            Some(digit) => digit,
            None => {
                proof {
                    let p = leading_digits(chars@) as int;
                    if p > i {
                        assert(chars@.take(p)[i as int] == chars@[i as int]);
                    }
                }
                return Err(IntErrorKind::InvalidDigit);
            },
        };
        proof {
            assert forall|j: int| 0 <= j < i + 1 implies is_digit(#[trigger] chars@.take(i + 1)[j]) by {
                if j < i {
                    assert(chars@.take(i + 1)[j] == chars@.take(i as int)[j]);
                }
            }
            lemma_value_grows(chars@, i + 1, leading_digits(chars@) as int);
        }
        let next = match value.checked_mul(10) {
            Some(shifted) => shifted.checked_add(digit),
            None => None,
        };
        match next {
            Some(next) => {
                value = next;
            },
            None => {
                return Err(IntErrorKind::PosOverflow);
            },
        }
        i += 1;
    }
    proof {
        lemma_leading_digits(chars@);
        assert(chars@.take(i as int) == chars@);
    }
    Ok(value)
}

/// How many characters are left when the zeros at the end are dropped.
pub(crate) fn trimmed_len(chars: &[char]) -> (n: usize)
    ensures
        n <= chars.len(),
        chars@.take(n as int) == trim_zeros(chars@),
{
    let mut n: usize = chars.len();
    assert(chars@.take(n as int) == chars@);
    while n > 0 && chars[n - 1] == '0'
        invariant
            n <= chars.len(),
            trim_zeros(chars@.take(n as int)) == trim_zeros(chars@),
        decreases n,
    {
        assert(chars@.take(n as int).drop_last() == chars@.take(n - 1));
        n -= 1;
    }
    n
}

/// A copy of the characters, filled up with zeros to six.
pub(crate) fn padded(chars: &[char]) -> (v: Vec<char>)
    ensures
        v@ == pad_zeros(chars@),
{
    let mut v: Vec<char> = slice_to_vec(chars);
    assert(v@ == chars@ + zeros(0));
    while v.len() < 6
        invariant
            chars@.len() <= v@.len(),
            v@.len() <= 6 || v@.len() == chars@.len(),
            v@ == chars@ + zeros((v@.len() - chars@.len()) as nat),
        decreases 6 - v.len(),
    {
        v.push('0');
        assert(v@ == chars@ + zeros((v@.len() - chars@.len()) as nat));
    }
    v
}

/// Appends the number, written without leading zeros.
pub(crate) fn push_decimal(out: &mut Vec<char>, n: u32)
    ensures
        final(out)@ == old(out)@ + decimal_digits(n as nat),
    decreases n,
{
    if n >= 10 {
        push_decimal(out, n / 10);
    }
    out.push(char_of(n % 10));
}

/// Appends the last `width` digits of the number.
pub(crate) fn push_fixed(out: &mut Vec<char>, n: u32, width: u32)
    ensures
        final(out)@ == old(out)@ + fixed_digits(n as nat, width as nat),
    decreases width,
{
    if width > 0 {
        push_fixed(out, n / 10, width - 1);
        out.push(char_of(n % 10));
    }
}

/// A string of the given characters.
pub(crate) fn string_of(chars: &[char]) -> (s: String)
    ensures
        s@ == chars@,
{
    let mut s = String::new();
    let mut i: usize = 0;
    while i < chars.len()
        invariant
            i <= chars.len(),
            s@ == chars@.take(i as int),
        decreases chars.len() - i,
    {
        s.push(chars[i]);
        i += 1;
    }
    s
}

} // verus!
