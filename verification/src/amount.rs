//! Exact decimal amounts.
//!
//! An [`Amount`] holds the two integers that make up a 96-bit decimal number:
//! a signed mantissa and the count of digits after the decimal point. The
//! arithmetic itself is done by `rust_decimal`.

use rust_decimal::Decimal;
use vstd::prelude::*;

verus! {

/// Largest count of fractional digits that an amount can carry.
pub const MAX_SCALE: u32 = 28;

/// Largest magnitude of a mantissa: `2^96 - 1`.
pub const MAX_MANTISSA: i128 = 0xFFFF_FFFF_FFFF_FFFF_FFFF_FFFF;

/// The decimal number `mantissa / 10^scale`.
///
/// Two amounts are equal when both integers are: `1.0` and `1.00` are
/// different amounts of the same worth.
#[derive(Clone, Copy, Debug, PartialEq, Eq, Structural)]
pub struct Amount {
    mantissa: i128,
    scale: u32,
}

/// The power of ten with exponent `n`.
pub open spec fn pow10(n: nat) -> int
    decreases n,
{
    if n == 0 {
        1
    } else {
        10 * pow10((n - 1) as nat)
    }
}

/// The sum that `rust_decimal` computes for two amounts that are both other
/// than zero and that it does not add on its short path (see
/// [`Amount::adds_exactly`]), or `None` where that sum leaves the
/// representable range.
pub uninterp spec fn decimal_sum(a: Amount, b: Amount) -> Option<Amount>;

/// Calls `Decimal::checked_add` on the decimals that `a` and `b` stand for,
/// made with `Decimal::from_i128_with_scale` and read back with
/// `Decimal::mantissa` and `Decimal::scale`.
///
/// Trusted, not proved: where the left operand has a zero mantissa the result
/// is the right operand, digit for digit; where only the right one has, the
/// result is the left operand. Where both mantissas are other than zero and
/// below `2^64` in magnitude, the scales are at most 19 apart and the exact
/// sum, written with the longer of the two scales, has a mantissa of at most
/// 96 bits, the result is that exact sum with that scale. Otherwise the
/// result is a function of the two amounts alone, named [`decimal_sum`]. And
/// whatever comes back is a decimal of at most 96 bits and 28 fractional
/// digits.
#[verifier::external_body]
fn decimal_checked_add(a: Amount, b: Amount) -> (r: Option<Amount>)
    requires
        a.representable(),
        b.representable(),
    ensures
        a.mantissa == 0 ==> r == Some(b),
        a.mantissa != 0 && b.mantissa == 0 ==> r == Some(a),
        a.mantissa != 0 && b.mantissa != 0 && a.adds_exactly(b) ==> r == Some(
            Amount::spec_of(a.exact_sum(b), a.longer_scale(b)),
        ),
        a.mantissa != 0 && b.mantissa != 0 && !a.adds_exactly(b) ==> r == decimal_sum(a, b),
        r matches Some(s) ==> s.representable(),
{
    let x = Decimal::from_i128_with_scale(a.mantissa, a.scale);
    let y = Decimal::from_i128_with_scale(b.mantissa, b.scale);
    match x.checked_add(y) {
        Some(z) => Some(Amount { mantissa: z.mantissa(), scale: z.scale() }),
        None => None,
    }
}

impl Amount {
    /// The mantissa as a mathematical integer.
    pub closed spec fn spec_mantissa(self) -> int {
        self.mantissa as int
    }

    /// The count of fractional digits.
    pub closed spec fn spec_scale(self) -> nat {
        self.scale as nat
    }

    /// Whether the two integers fit a 96-bit decimal. Every amount that exists
    /// at run time does.
    pub open spec fn representable(self) -> bool {
        &&& -MAX_MANTISSA <= self.spec_mantissa() <= MAX_MANTISSA
        &&& self.spec_scale() <= MAX_SCALE
    }

    #[verifier::type_invariant]
    spec fn inv(self) -> bool {
        self.representable()
    }

    /// Whether the amount is worth nothing, whatever its scale.
    pub open spec fn is_zero(self) -> bool {
        self.spec_mantissa() == 0
    }

    /// The amount zero, without fractional digits.
    pub closed spec fn spec_zero() -> Amount {
        Amount { mantissa: 0, scale: 0 }
    }

    /// The amount made of the two integers, where they fit a 96-bit decimal.
    pub closed spec fn spec_of(mantissa: int, scale: nat) -> Amount {
        Amount { mantissa: mantissa as i128, scale: scale as u32 }
    }

    /// The longer of the two scales.
    pub open spec fn longer_scale(self, other: Amount) -> nat {
        if self.spec_scale() >= other.spec_scale() {
            self.spec_scale()
        } else {
            other.spec_scale()
        }
    }

    /// The mantissa of the exact sum of the two amounts, written with the
    /// longer of their scales.
    pub open spec fn exact_sum(self, other: Amount) -> int {
        self.spec_mantissa() * pow10((self.longer_scale(other) - self.spec_scale()) as nat)
            + other.spec_mantissa() * pow10(
            (self.longer_scale(other) - other.spec_scale()) as nat,
        )
    }

    /// Whether the sum of the two amounts is exact and keeps the longer
    /// scale for certain: both mantissas are below `2^64` in magnitude, the
    /// scales are at most 19 apart, and the exact sum with the longer scale
    /// has a mantissa of at most 96 bits.
    pub open spec fn adds_exactly(self, other: Amount) -> bool {
        &&& -0x1_0000_0000_0000_0000 < self.spec_mantissa() < 0x1_0000_0000_0000_0000
        &&& -0x1_0000_0000_0000_0000 < other.spec_mantissa() < 0x1_0000_0000_0000_0000
        &&& self.spec_scale() <= other.spec_scale() + 19
        &&& other.spec_scale() <= self.spec_scale() + 19
        &&& -MAX_MANTISSA <= self.exact_sum(other) <= MAX_MANTISSA
    }

    /// The sum of two amounts, or `None` where it leaves the representable
    /// range. Adding zero changes nothing, not even the scale. The sum of two
    /// amounts that add exactly is their exact sum with the longer scale.
    pub open spec fn spec_checked_add(self, other: Amount) -> Option<Amount> {
        if self.is_zero() {
            Some(other)
        } else if other.is_zero() {
            Some(self)
        } else if self.adds_exactly(other) {
            Some(Amount::spec_of(self.exact_sum(other), self.longer_scale(other)))
        } else {
            decimal_sum(self, other)
        }
    }

    /// The integers of an amount made of two integers that fit.
    pub proof fn lemma_spec_of(mantissa: int, scale: nat)
        requires
            -MAX_MANTISSA <= mantissa <= MAX_MANTISSA,
            scale <= MAX_SCALE,
        ensures
            Amount::spec_of(mantissa, scale).spec_mantissa() == mantissa,
            Amount::spec_of(mantissa, scale).spec_scale() == scale,
    {
    }

    /// Amounts are equal when their integers are.
    pub proof fn lemma_equal_by_parts(a: Amount, b: Amount)
        requires
            a.spec_mantissa() == b.spec_mantissa(),
            a.spec_scale() == b.spec_scale(),
        ensures
            a == b,
    {
    }

    /// Zero is worth nothing and carries no fractional digits.
    pub proof fn lemma_zero()
        ensures
            Amount::spec_zero().spec_mantissa() == 0,
            Amount::spec_zero().spec_scale() == 0,
            Amount::spec_zero().is_zero(),
            Amount::spec_zero().representable(),
    {
    }

    /// `num / 10^scale`.
    pub fn new(num: i64, scale: u32) -> (r: Amount)
        requires
            scale <= MAX_SCALE,
        ensures
            r.spec_mantissa() == num,
            r.spec_scale() == scale,
    {
        Amount { mantissa: num as i128, scale }
    }

    /// `mantissa / 10^scale`, where the two integers fit a 96-bit decimal.
    pub fn try_new(mantissa: i128, scale: u32) -> (r: Option<Amount>)
        ensures
            r is Some <==> -MAX_MANTISSA <= mantissa <= MAX_MANTISSA && scale <= MAX_SCALE,
            r matches Some(a) ==> a.spec_mantissa() == mantissa && a.spec_scale() == scale,
    {
        if scale <= MAX_SCALE && -MAX_MANTISSA <= mantissa && mantissa <= MAX_MANTISSA {
            Some(Amount { mantissa, scale })
        } else {
            None
        }
    }

    /// The amount zero, without fractional digits.
    pub fn zero() -> (r: Amount)
        ensures
            r == Amount::spec_zero(),
    {
        Amount { mantissa: 0, scale: 0 }
    }

    pub fn mantissa(&self) -> (m: i128)
        ensures
            m == self.spec_mantissa(),
            -MAX_MANTISSA <= m <= MAX_MANTISSA,
    {
        proof {
            use_type_invariant(self);
        }
        self.mantissa
    }

    pub fn scale(&self) -> (s: u32)
        ensures
            s == self.spec_scale(),
            s <= MAX_SCALE,
    {
        proof {
            use_type_invariant(self);
        }
        self.scale
    }

    /// Adds two amounts as `rust_decimal` does: exactly where the sum fits,
    /// rounded to fewer fractional digits where only that makes it fit, and
    /// `None` where even the whole part is out of range.
    pub fn checked_add(self, other: Amount) -> (r: Option<Amount>)
        ensures
            r == self.spec_checked_add(other),
    {
        proof {
            use_type_invariant(&self);
            use_type_invariant(&other);
        }
        decimal_checked_add(self, other)
    }
}

} // verus!
