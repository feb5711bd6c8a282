//! Writing a decimal as text, in the one shortest form.

use vstd::prelude::*;
use crate::decimal::{SafeDecimal, SCALE};
use crate::digits::{
    decimal_digits, fixed_digits, push_decimal, push_fixed, string_of, trim_zeros, trimmed_len,
};

verus! {

/// The text of a magnitude: the whole part without leading zeros, and,
/// unless the fraction is zero, a point and the six digits of the
/// fraction without the zeros at their end.
pub open spec fn display_text(magnitude: nat) -> Seq<char> {
    let integral = magnitude / (SCALE as nat);
    let fractional = magnitude % (SCALE as nat);
    if fractional == 0 {
        decimal_digits(integral)
    } else {
        decimal_digits(integral) + seq!['.'] + trim_zeros(fixed_digits(fractional, 6))
    }
}

impl SafeDecimal {
    /// The decimal as text, such as `5`, `0.25` or `123.456789`.
    pub fn to_string(&self) -> (s: String)
        ensures
            s@ == display_text(self@),
    {
        let integral = self.integral();
        let fractional = self.fractional();
        let mut chars: Vec<char> = Vec::new();
        push_decimal(&mut chars, integral);
        if fractional != 0 {
            chars.push('.');
            let mut fraction: Vec<char> = Vec::new();
            push_fixed(&mut fraction, fractional, 6);
            let kept = trimmed_len(fraction.as_slice());
            let ghost head = chars@;
            let mut i: usize = 0;
            while i < kept
                invariant
                    i <= kept <= fraction.len(),
                    chars@ == head + fraction@.take(i as int),
                decreases kept - i,
            {
                chars.push(fraction[i]);
                i += 1;
            }
        }
        string_of(chars.as_slice())
    }
}

} // verus!
