//! The decimal value type, its construction and its arithmetic.
//!
//! A decimal is modelled by its magnitude, a natural number that counts
//! millionths: the decimal `1.5` has the magnitude `1_500_000`. The view of
//! a [`SafeDecimal`] is that number, and every contract below is stated
//! over magnitudes.

use vstd::prelude::*;
use vstd::arithmetic::div_mod::lemma_fundamental_div_mod_converse;
use vstd::std_specs::convert::TryFromSpecImpl;
use vstd::std_specs::ops::{AddSpecImpl, DivSpecImpl, MulSpecImpl, SubSpecImpl};
use std::ops::{Add, Div, Mul, Sub};
use crate::error::Error;

verus! {

/// Units of magnitude per whole unit: `10^6`.
pub const SCALE: u32 = 1_000_000;

/// The whole part stays strictly below this bound: `10^9`.
pub const MAX: u32 = 1_000_000_000;

/// The largest magnitude: `MAX * SCALE - 1`.
pub const MAX_VAL: u64 = 999_999_999_999_999;

/// A non-negative decimal with six fractional digits and a whole part
/// below `MAX`.
#[derive(Clone, Copy, Debug, PartialEq, Eq, Ord, Structural)]
pub struct SafeDecimal(u64);

impl View for SafeDecimal {
    type V = nat;

    /// The magnitude: the value counted in millionths.
    closed spec fn view(&self) -> nat {
        self.0 as nat
    }
}

/// The magnitude of the decimal with the given whole and fractional part,
/// or `Overflow` where one of the two is out of range.
pub open spec fn magnitude_of_parts(integral: nat, fractional: nat) -> Result<nat, Error> {
    if integral >= MAX || fractional >= SCALE {
        Err(Error::Overflow {})
    } else {
        Ok((integral * SCALE + fractional) as nat)
    }
}

/// The sum of two magnitudes, or `Overflow` where it passes `MAX_VAL`.
pub open spec fn checked_sum(a: nat, b: nat) -> Result<nat, Error> {
    if a + b > MAX_VAL {
        Err(Error::Overflow {})
    } else {
        Ok(a + b)
    }
}

/// The difference of two magnitudes, or `Overflow` where it would be
/// negative.
pub open spec fn checked_difference(a: nat, b: nat) -> Result<nat, Error> {
    if a < b {
        Err(Error::Overflow {})
    } else {
        Ok((a - b) as nat)
    }
}

/// The magnitude of the product of two decimals, `a * b / SCALE` rounded
/// down, or `Overflow` where it passes `MAX_VAL`. The product `a * b` is
/// that of the natural numbers, however large.
pub open spec fn checked_product(a: nat, b: nat) -> Result<nat, Error> {
    if a * b / (SCALE as nat) > MAX_VAL {
        Err(Error::Overflow {})
    } else {
        Ok(a * b / (SCALE as nat))
    }
}

/// The magnitude of the quotient of two decimals, `a * SCALE / b` rounded
/// down: `DivisionByZero` where `b` is zero, `Overflow` where the quotient
/// passes `MAX_VAL`.
pub open spec fn checked_quotient(a: nat, b: nat) -> Result<nat, Error> {
    if b == 0 {
        Err(Error::DivisionByZero {})
    } else if a * (SCALE as nat) / b > MAX_VAL {
        Err(Error::Overflow {})
    } else {
        Ok(a * (SCALE as nat) / b)
    }
}

/// A result with the decimal, if there is one, replaced by its magnitude.
pub open spec fn outcome(r: Result<SafeDecimal, Error>) -> Result<nat, Error> {
    match r {
        Ok(v) => Ok(v@),
        Err(e) => Err(e),
    }
}

/// The result whose `outcome` is `o`, for a magnitude that fits 64 bits.
closed spec fn lifted(o: Result<nat, Error>) -> Result<SafeDecimal, Error> {
    match o {
        Ok(m) => Ok(SafeDecimal(m as u64)),
        Err(e) => Err(e),
    }
}

/// Two decimals with the same magnitude are the same decimal.
pub proof fn lemma_same_magnitude(a: SafeDecimal, b: SafeDecimal)
    ensures
        (a@ == b@) == (a == b),
{
}

/// Parts within their ranges give a magnitude up to `MAX_VAL`, and the
/// magnitude gives the parts back.
pub proof fn lemma_parts(integral: nat, fractional: nat)
    requires
        integral < MAX,
        fractional < SCALE,
    ensures
        integral * SCALE + fractional <= MAX_VAL,
        (integral * SCALE + fractional) / (SCALE as int) == integral,
        (integral * SCALE + fractional) % (SCALE as int) == fractional,
{
    assert(integral * SCALE + fractional <= MAX_VAL) by (nonlinear_arith)
        requires
            integral < MAX,
            fractional < SCALE,
            MAX == 1_000_000_000,
            SCALE == 1_000_000,
            MAX_VAL == 999_999_999_999_999,
    ;
    lemma_fundamental_div_mod_converse(
        integral * SCALE + fractional,
        SCALE as int,
        integral as int,
        fractional as int,
    );
}

/// Two magnitudes multiply without leaving 128 bits, and so do a
/// magnitude and the scale: the products that multiplication and division
/// form are exact.
pub proof fn lemma_wide_product(a: nat, b: nat)
    requires
        a <= MAX_VAL,
        b <= MAX_VAL,
    ensures
        a * b <= u128::MAX,
{
    assert(a * b <= 999_999_999_999_999 * 999_999_999_999_999) by (nonlinear_arith)
        requires
            a <= 999_999_999_999_999,
            b <= 999_999_999_999_999,
    ;
}

impl SafeDecimal {
    /// The magnitude is at most `MAX_VAL`. This holds of every decimal
    /// that exists when the program runs.
    #[verifier::type_invariant]
    pub open spec fn is_valid(self) -> bool {
        self@ <= MAX_VAL
    }

    /// The magnitude as a machine integer.
    pub(crate) fn magnitude(&self) -> (m: u64)
        ensures
            m == self@,
            m <= MAX_VAL,
    {
        proof {
            use_type_invariant(self);
        }
        self.0
    }

    /// The decimal with the given whole and fractional part, the latter in
    /// millionths. Fails with `Overflow` where `integral` is `MAX` or more
    /// or `fractional` is `SCALE` or more.
    pub fn new(integral: u32, fractional: u32) -> (r: Result<SafeDecimal, Error>)
        ensures
            outcome(r) == magnitude_of_parts(integral as nat, fractional as nat),
            r matches Ok(v) ==> v@ / (SCALE as nat) == integral && v@ % (SCALE as nat)
                == fractional,
    {
        if integral >= MAX || fractional >= SCALE {
            return Err(Error::Overflow {});
        }
        proof {
            lemma_parts(integral as nat, fractional as nat);
        }
        Ok(SafeDecimal(integral as u64 * SCALE as u64 + fractional as u64))
    }

    /// The whole part: the magnitude divided by `SCALE`, rounded down.
    pub fn integral(&self) -> (r: u32)
        ensures
            r == self@ / (SCALE as nat),
            r < MAX,
    {
        proof {
            use_type_invariant(self);
        }
        (self.0 / SCALE as u64) as u32
    }

    /// The fractional part in millionths: the magnitude modulo `SCALE`.
    pub fn fractional(&self) -> (r: u32)
        ensures
            r == self@ % (SCALE as nat),
            r < SCALE,
    {
        (self.0 % SCALE as u64) as u32
    }
}

impl AddSpecImpl for SafeDecimal {
    open spec fn obeys_add_spec() -> bool {
        true
    }

    open spec fn add_req(self, rhs: SafeDecimal) -> bool {
        true
    }

    closed spec fn add_spec(self, rhs: SafeDecimal) -> Result<SafeDecimal, Error> {
        lifted(checked_sum(self@, rhs@))
    }
}

impl Add for SafeDecimal {
    type Output = Result<SafeDecimal, Error>;

    /// The exact sum. Fails with `Overflow` where the sum passes `MAX_VAL`.
    fn add(self, rhs: SafeDecimal) -> (r: Result<SafeDecimal, Error>)
        ensures
            outcome(r) == checked_sum(self@, rhs@),
    {
        proof {
            use_type_invariant(&self);
            use_type_invariant(&rhs);
        }
        match self.0.checked_add(rhs.0) {
            Some(sum) => if sum > MAX_VAL {
                Err(Error::Overflow {})
            } else {
                Ok(SafeDecimal(sum))
            },
            None => Err(Error::Overflow {}),
        }
    }
}

impl SubSpecImpl for SafeDecimal {
    open spec fn obeys_sub_spec() -> bool {
        true
    }

    open spec fn sub_req(self, rhs: SafeDecimal) -> bool {
        true
    }

    closed spec fn sub_spec(self, rhs: SafeDecimal) -> Result<SafeDecimal, Error> {
        lifted(checked_difference(self@, rhs@))
    }
}

impl Sub for SafeDecimal {
    type Output = Result<SafeDecimal, Error>;

    /// The exact difference. Fails with `Overflow` where `rhs` is the
    /// larger of the two.
    fn sub(self, rhs: SafeDecimal) -> (r: Result<SafeDecimal, Error>)
        ensures
            outcome(r) == checked_difference(self@, rhs@),
    {
        proof {
            use_type_invariant(&self);
        }
        match self.0.checked_sub(rhs.0) {
            Some(difference) => Ok(SafeDecimal(difference)),
            None => Err(Error::Overflow {}),
        }
    }
}

impl MulSpecImpl for SafeDecimal {
    open spec fn obeys_mul_spec() -> bool {
        true
    }

    open spec fn mul_req(self, rhs: SafeDecimal) -> bool {
        true
    }

    closed spec fn mul_spec(self, rhs: SafeDecimal) -> Result<SafeDecimal, Error> {
        lifted(checked_product(self@, rhs@))
    }
}

impl Mul for SafeDecimal {
    type Output = Result<SafeDecimal, Error>;

    /// The product, with what lies below a millionth cut off. Fails with
    /// `Overflow` where the product passes `MAX_VAL`.
    fn mul(self, rhs: SafeDecimal) -> (r: Result<SafeDecimal, Error>)
        ensures
            outcome(r) == checked_product(self@, rhs@),
    {
        proof {
            use_type_invariant(&self);
            use_type_invariant(&rhs);
            lemma_wide_product(self.0 as nat, rhs.0 as nat);
        }
        let wide: u128 = self.0 as u128 * rhs.0 as u128 / SCALE as u128;
        if wide > MAX_VAL as u128 {
            return Err(Error::Overflow {});
        }
        Ok(SafeDecimal(wide as u64))
    }
}

impl DivSpecImpl for SafeDecimal {
    open spec fn obeys_div_spec() -> bool {
        true
    }

    open spec fn div_req(self, rhs: SafeDecimal) -> bool {
        true
    }

    closed spec fn div_spec(self, rhs: SafeDecimal) -> Result<SafeDecimal, Error> {
        lifted(checked_quotient(self@, rhs@))
    }
}

impl Div for SafeDecimal {
    type Output = Result<SafeDecimal, Error>;

    /// The quotient, with what lies below a millionth cut off. Fails with
    /// `DivisionByZero` where `rhs` is zero, and with `Overflow` where the
    /// quotient passes `MAX_VAL`.
    fn div(self, rhs: SafeDecimal) -> (r: Result<SafeDecimal, Error>)
        ensures
            outcome(r) == checked_quotient(self@, rhs@),
    {
        if rhs.0 == 0 {
            return Err(Error::DivisionByZero {});
        }
        proof {
            use_type_invariant(&self);
            lemma_wide_product(self.0 as nat, SCALE as nat);
        }
        let wide: u128 = self.0 as u128 * SCALE as u128 / rhs.0 as u128;
        if wide > MAX_VAL as u128 {
            return Err(Error::Overflow {});
        }
        Ok(SafeDecimal(wide as u64))
    }
}

impl TryFromSpecImpl<u32> for SafeDecimal {
    open spec fn obeys_try_from_spec() -> bool {
        true
    }

    closed spec fn try_from_spec(value: u32) -> Result<SafeDecimal, Error> {
        lifted(magnitude_of_parts(value as nat, 0))
    }
}

impl TryFrom<u32> for SafeDecimal {
    type Error = Error;

    /// The decimal of a whole number. Fails with `Overflow` where the
    /// number is `MAX` or more.
    fn try_from(value: u32) -> (r: Result<SafeDecimal, Error>)
        ensures
            outcome(r) == magnitude_of_parts(value as nat, 0),
    {
        SafeDecimal::new(value, 0)
    }
}

impl TryFromSpecImpl<u64> for SafeDecimal {
    open spec fn obeys_try_from_spec() -> bool {
        true
    }

    closed spec fn try_from_spec(value: u64) -> Result<SafeDecimal, Error> {
        lifted(magnitude_of_parts(value as nat, 0))
    }
}

impl TryFrom<u64> for SafeDecimal {
    type Error = Error;

    /// The decimal of a whole number. Fails with `Overflow` where the
    /// number is `MAX` or more.
    fn try_from(value: u64) -> (r: Result<SafeDecimal, Error>)
        ensures
            outcome(r) == magnitude_of_parts(value as nat, 0),
    {
        if value > u32::MAX as u64 {
            return Err(Error::Overflow {});
        }
        SafeDecimal::new(value as u32, 0)
    }
}

impl TryFromSpecImpl<u128> for SafeDecimal {
    open spec fn obeys_try_from_spec() -> bool {
        true
    }

    closed spec fn try_from_spec(value: u128) -> Result<SafeDecimal, Error> {
        lifted(magnitude_of_parts(value as nat, 0))
    }
}

impl TryFrom<u128> for SafeDecimal {
    type Error = Error;

    /// The decimal of a whole number. Fails with `Overflow` where the
    /// number is `MAX` or more.
    fn try_from(value: u128) -> (r: Result<SafeDecimal, Error>)
        ensures
            outcome(r) == magnitude_of_parts(value as nat, 0),
    {
        if value > u32::MAX as u128 {
            return Err(Error::Overflow {});
        }
        SafeDecimal::new(value as u32, 0)
    }
}

} // verus!
