//! What holds of the operations taken together.

use vstd::prelude::*;
use vstd::arithmetic::div_mod::lemma_fundamental_div_mod;
use crate::decimal::{
    checked_difference, checked_product, checked_quotient, checked_sum, lemma_parts,
    lemma_same_magnitude, magnitude_of_parts, outcome, SafeDecimal, MAX_VAL, SCALE,
};
use crate::digits::{
    all_digits, decimal_digits, decimal_value, fixed_digits, is_digit, lemma_decimal_digits,
    lemma_fixed_digits, lemma_parse_digits, lemma_trim_zeros, lemma_value_bound,
    lemma_value_zeros, lemma_zeros_value, pad_zeros, parse_u32_text, pow10, trim_zeros, zeros,
};
use crate::error::{Error, IntErrorKind};
use crate::format::display_text;
use crate::parse::{first_dot, fraction_text, lemma_first_dot_at, parse_text};

verus! {

/// A run of digits is read as the whole number that it denotes.
pub proof fn lemma_parse_whole(whole: Seq<char>)
    requires
        whole.len() > 0,
        all_digits(whole),
        decimal_value(whole) <= u32::MAX,
    ensures
        parse_text(whole) == magnitude_of_parts(decimal_value(whole), 0),
{
    lemma_parse_digits(whole);
    assert(forall|i: int| 0 <= i < whole.len() ==> is_digit(whole[i]) && whole[i] != '.');
    lemma_first_dot_at(whole, whole.len() as int);
    assert(whole.take(whole.len() as int) =~= whole);
}

/// Digits, a point and digits are read as a whole number and a fraction.
/// Zeros at the end of the fraction count for nothing; of what is left,
/// the first digit counts tenths and the sixth millionths.
pub proof fn lemma_parse_fraction(whole: Seq<char>, fraction: Seq<char>)
    requires
        whole.len() > 0,
        all_digits(whole),
        decimal_value(whole) <= u32::MAX,
        fraction.len() > 0,
        all_digits(fraction),
        trim_zeros(fraction).len() <= 6,
    ensures
        parse_text(whole + seq!['.'] + fraction) == magnitude_of_parts(
            decimal_value(whole),
            decimal_value(trim_zeros(fraction)) * pow10((6 - trim_zeros(fraction).len()) as nat),
        ),
{
    let text = whole + seq!['.'] + fraction;
    let kept = trim_zeros(fraction);
    let filled = pad_zeros(kept);
    lemma_parse_digits(whole);
    assert(forall|i: int| 0 <= i < whole.len() ==> is_digit(whole[i]) && whole[i] != '.');
    lemma_first_dot_at(text, whole.len() as int);
    assert(text.take(whole.len() as int) =~= whole);
    assert(text.skip(whole.len() as int + 1) =~= fraction);
    assert(forall|i: int| 0 <= i < fraction.len() ==> is_digit(fraction[i]) && fraction[i] != '.');
    lemma_first_dot_at(fraction, fraction.len() as int);
    assert(fraction.take(fraction.len() as int) =~= fraction);
    lemma_trim_zeros(fraction);
    assert(forall|i: int| 0 <= i < kept.len() ==> kept[i] == fraction[i]);
    assert(filled =~= kept + zeros((6 - kept.len()) as nat));
    assert(forall|i: int| 0 <= i < filled.len() ==> is_digit(filled[i]));
    lemma_value_bound(filled);
    lemma_value_zeros(kept, (6 - kept.len()) as nat);
    assert(pow10(6) == 1_000_000) by {
        reveal_with_fuel(pow10, 7);
    }
    lemma_parse_digits(filled);
}

/// A second point is refused, whatever follows it, where the whole number
/// and the fraction before it can be read.
pub proof fn lemma_parse_second_point(whole: Seq<char>, fraction: Seq<char>, tail: Seq<char>)
    requires
        whole.len() > 0,
        all_digits(whole),
        decimal_value(whole) <= u32::MAX,
        fraction_text(fraction) is Ok,
        all_digits(fraction),
    ensures
        parse_text(whole + seq!['.'] + fraction + seq!['.'] + tail) == Err::<nat, Error>(
            Error::UnexpectedFormat {},
        ),
{
    let text = whole + seq!['.'] + fraction + seq!['.'] + tail;
    let rest = fraction + seq!['.'] + tail;
    lemma_parse_digits(whole);
    assert(forall|i: int| 0 <= i < whole.len() ==> is_digit(whole[i]) && whole[i] != '.');
    assert(forall|i: int| 0 <= i < whole.len() ==> text[i] == whole[i]);
    lemma_first_dot_at(text, whole.len() as int);
    assert(text.take(whole.len() as int) =~= whole);
    assert(text.skip(whole.len() as int + 1) =~= rest);
    assert(forall|i: int| 0 <= i < fraction.len() ==> is_digit(fraction[i]) && fraction[i] != '.');
    assert(forall|i: int| 0 <= i < fraction.len() ==> rest[i] == fraction[i]);
    lemma_first_dot_at(rest, fraction.len() as int);
    assert(rest.take(fraction.len() as int) =~= fraction);
}

/// Reading the text of a decimal gives the decimal back: for every
/// magnitude that a decimal can have, the text written for it denotes that
/// magnitude.
pub proof fn lemma_parse_display(magnitude: nat)
    requires
        magnitude <= MAX_VAL,
    ensures
        parse_text(display_text(magnitude)) == Ok::<nat, Error>(magnitude),
{
    let integral = magnitude / (SCALE as nat);
    let fractional = magnitude % (SCALE as nat);
    let whole = decimal_digits(integral);
    let text = display_text(magnitude);
    lemma_decimal_digits(integral);
    lemma_parse_digits(whole);
    assert(forall|i: int| 0 <= i < whole.len() ==> is_digit(whole[i]) && whole[i] != '.');
    if fractional == 0 {
        lemma_first_dot_at(text, text.len() as int);
        assert(text.take(text.len() as int) =~= text);
    } else {
        let six = fixed_digits(fractional, 6);
        let kept = trim_zeros(six);
        assert(pow10(6) == 1_000_000) by {
            reveal_with_fuel(pow10, 7);
        }
        lemma_fixed_digits(fractional, 6);
        lemma_trim_zeros(six);
        if kept.len() == 0 {
            lemma_zeros_value(six);
        }
        assert(forall|i: int| 0 <= i < kept.len() ==> kept[i] == six[i]);
        assert(forall|i: int| 0 <= i < kept.len() ==> is_digit(six[i]) && kept[i] != '.');
        lemma_first_dot_at(text, whole.len() as int);
        assert(text.take(whole.len() as int) =~= whole);
        let rest = text.skip(whole.len() as int + 1);
        assert(rest =~= kept);
        lemma_first_dot_at(kept, kept.len() as int);
        assert(kept.take(kept.len() as int) =~= kept);
        assert(pad_zeros(kept) =~= six);
        lemma_parse_digits(six);
        assert(fraction_text(kept) == Ok::<u32, IntErrorKind>(fractional as u32));
    }
}

/// Whatever `from_str` returns for the text that `to_string` wrote for a
/// decimal is that decimal.
pub proof fn lemma_round_trip(v: SafeDecimal, r: Result<SafeDecimal, Error>)
    requires
        v.is_valid(),
        outcome(r) == parse_text(display_text(v@)),
    ensures
        r == Ok::<SafeDecimal, Error>(v),
{
    lemma_parse_display(v@);
    lemma_same_magnitude(r.unwrap(), v);
}

/// No operator leaves the range: what the four of them give for two
/// decimals has a magnitude up to `MAX_VAL`.
pub proof fn lemma_results_in_range(a: nat, b: nat)
    requires
        a <= MAX_VAL,
        b <= MAX_VAL,
    ensures
        checked_sum(a, b) matches Ok(m) ==> m <= MAX_VAL,
        checked_difference(a, b) matches Ok(m) ==> m <= MAX_VAL,
        checked_product(a, b) matches Ok(m) ==> m <= MAX_VAL,
        checked_quotient(a, b) matches Ok(m) ==> m <= MAX_VAL,
{
}

/// What a text denotes is a magnitude up to `MAX_VAL`.
pub proof fn lemma_parse_in_range(text: Seq<char>)
    ensures
        parse_text(text) matches Ok(m) ==> m <= MAX_VAL,
{
    if parse_text(text) is Ok {
        let dot = first_dot(text) as int;
        let rest = text.skip(dot + 1);
        let integral = parse_u32_text(text.take(dot)).unwrap() as nat;
        if dot == text.len() {
            lemma_parts(integral, 0);
        } else {
            let fractional = fraction_text(rest.take(first_dot(rest) as int)).unwrap() as nat;
            lemma_parts(integral, fractional);
        }
    }
}

/// Taking away what was added leaves what was there before.
pub proof fn lemma_sum_difference(a: nat, b: nat)
    requires
        checked_sum(a, b) is Ok,
    ensures
        checked_difference(checked_sum(a, b).unwrap(), b) == Ok::<nat, Error>(a),
{
}

/// Adding what was taken away leaves what was there before.
pub proof fn lemma_difference_sum(a: nat, b: nat)
    requires
        a <= MAX_VAL,
        checked_difference(a, b) is Ok,
    ensures
        checked_sum(checked_difference(a, b).unwrap(), b) == Ok::<nat, Error>(a),
{
}

/// A product is cut off, never rounded up: it is the largest magnitude
/// whose `SCALE`-fold does not pass `a * b`.
pub proof fn lemma_product_truncates(a: nat, b: nat)
    requires
        checked_product(a, b) is Ok,
    ensures
        checked_product(a, b).unwrap() * SCALE <= a * b,
        a * b < (checked_product(a, b).unwrap() + 1) * SCALE,
{
    lemma_fundamental_div_mod((a * b) as int, SCALE as int);
}

/// A quotient is cut off, never rounded up: it is the largest magnitude
/// whose product with `b` does not pass `a * SCALE`.
pub proof fn lemma_quotient_truncates(a: nat, b: nat)
    requires
        checked_quotient(a, b) is Ok,
    ensures
        checked_quotient(a, b).unwrap() * b <= a * SCALE,
        a * SCALE < (checked_quotient(a, b).unwrap() + 1) * b,
{
    let x = (a * SCALE) as int;
    let q = x / (b as int);
    lemma_fundamental_div_mod(x, b as int);
    assert(b * q + b == (q + 1) * b) by (nonlinear_arith);
    assert(b * q == q * b) by (nonlinear_arith);
}

} // verus!
