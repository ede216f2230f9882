//! Decimal amounts.

use rust_decimal::Decimal;
use vstd::arithmetic::power::{lemma_pow_adds, lemma_pow_increases, lemma_pow_positive, pow};
use vstd::prelude::*;

verus! {

/// The largest number of digits after the decimal point.
pub const MAX_SCALE: u32 = 28;

/// The largest mantissa: ninety-six bits, all set.
pub const MAX_MANTISSA: i128 = 79_228_162_514_264_337_593_543_950_335;

/// The decimal number `mantissa / 10^scale`.
#[derive(Clone, Copy, Debug, PartialEq, Eq, Structural)]
pub struct Amount {
    pub mantissa: i128,
    pub scale: u32,
}

/// The sum of two decimals, or `None` where there is no such sum.
pub uninterp spec fn decimal_sum(lhs: Amount, rhs: Amount) -> Option<Amount>;

/// Adds two decimals with `rust_decimal::Decimal::checked_add`, and has no sum
/// where `Decimal::try_from_i128_with_scale` refuses an operand.
///
/// Claimed of it: the sum depends on the operands alone; operands that have a
/// sum, and the sum, are representable; where one operand is zero, the sum is
/// the other one, scale included, and where both are, it is the right one; and
/// where the operand with the smaller scale can be brought to the larger one
/// and the sum then still fits the mantissa, the sum is exact and has the
/// larger scale: in short, the sum is [`exact_sum`] wherever there is one. Where
/// it does not fit, the sum is rounded or missing, of which nothing more is
/// claimed.
#[verifier::external_body]
fn decimal_checked_add(lhs: Amount, rhs: Amount) -> (sum: Option<Amount>)
    ensures
        sum == decimal_sum(lhs, rhs),
        sum is Some ==> lhs.representable() && rhs.representable() && sum->0.representable(),
        exact_sum(lhs, rhs) is Some ==> sum == exact_sum(lhs, rhs),
{
    match (
        Decimal::try_from_i128_with_scale(lhs.mantissa, lhs.scale),
        Decimal::try_from_i128_with_scale(rhs.mantissa, rhs.scale),
    ) {
        (Ok(lhs), Ok(rhs)) => {
            let sum: Option<Decimal> = lhs.checked_add(rhs);
            sum.map(|sum| Amount { mantissa: sum.mantissa(), scale: sum.scale() })
        },
        _ => None,
    }
}

/// The larger of the two scales.
pub open spec fn larger_scale(lhs: Amount, rhs: Amount) -> u32 {
    if lhs.scale >= rhs.scale {
        lhs.scale
    } else {
        rhs.scale
    }
}

/// The mantissa of the sum, written with the larger of the two scales.
pub open spec fn aligned_sum(lhs: Amount, rhs: Amount) -> int {
    let to = larger_scale(lhs, rhs);
    lhs.rescaled(to) + rhs.rescaled(to)
}

/// Whether both operands, and their sum, fit the mantissa once they are
/// written with the larger of the two scales.
pub open spec fn sum_fits(lhs: Amount, rhs: Amount) -> bool {
    let to = larger_scale(lhs, rhs);
    &&& lhs.representable()
    &&& rhs.representable()
    &&& -MAX_MANTISSA <= lhs.rescaled(to) <= MAX_MANTISSA
    &&& -MAX_MANTISSA <= rhs.rescaled(to) <= MAX_MANTISSA
    &&& -MAX_MANTISSA <= aligned_sum(lhs, rhs) <= MAX_MANTISSA
}

/// The sum of two amounts where it needs no rounding. Where one of them is zero
/// it is the other one, scale included, and where both are it is the right one;
/// else it is written with the larger of the two scales.
pub open spec fn exact_sum(lhs: Amount, rhs: Amount) -> Option<Amount> {
    if !lhs.representable() || !rhs.representable() {
        None
    } else if lhs.mantissa == 0 {
        Some(rhs)
    } else if rhs.mantissa == 0 {
        Some(lhs)
    } else if sum_fits(lhs, rhs) {
        Some(Amount { mantissa: aligned_sum(lhs, rhs) as i128, scale: larger_scale(lhs, rhs) })
    } else {
        None
    }
}

impl Amount {
    /// Whether a decimal can hold this mantissa and scale.
    pub open spec fn representable(self) -> bool {
        -MAX_MANTISSA <= self.mantissa <= MAX_MANTISSA && self.scale <= MAX_SCALE
    }

    /// The mantissa, once the amount is written with `to` digits after the
    /// decimal point.
    pub open spec fn rescaled(self, to: u32) -> int {
        self.mantissa * pow(10, (to - self.scale) as nat)
    }

    /// The number that the amount stands for, in units of `10^-28`.
    pub open spec fn value(self) -> int {
        self.rescaled(MAX_SCALE)
    }

    /// What [`Amount::zero`] returns.
    pub open spec fn spec_zero() -> Amount {
        Amount { mantissa: 0, scale: 0 }
    }

    /// Nothing at all.
    pub fn zero() -> (amount: Amount)
        ensures
            amount == Self::spec_zero(),
    {
        Amount { mantissa: 0, scale: 0 }
    }

    /// The largest value that can be written with `scale` digits after the
    /// decimal point.
    pub open spec fn cap(scale: u32) -> int {
        MAX_MANTISSA * pow(10, (MAX_SCALE - scale) as nat)
    }

    /// Whether the amount can be written with `scale` digits after the decimal
    /// point.
    pub open spec fn within(self, scale: u32) -> bool {
        &&& self.representable()
        &&& self.scale <= scale <= MAX_SCALE
        &&& -Self::cap(scale) <= self.value() <= Self::cap(scale)
    }

    /// Whether both amounts, and their exact sum, can be written with `scale`
    /// digits after the decimal point.
    pub open spec fn sum_within(self, other: Amount, scale: u32) -> bool {
        &&& self.within(scale)
        &&& other.within(scale)
        &&& -Self::cap(scale) <= self.value() + other.value() <= Self::cap(scale)
    }

    /// Adds two amounts; `None` where the sum does not fit. A sum that needs no
    /// rounding is exact.
    pub fn checked_add(self, other: Amount) -> (sum: Option<Amount>)
        ensures
            sum == decimal_sum(self, other),
            sum is Some ==> self.representable() && other.representable()
                && sum->0.representable(),
            exact_sum(self, other) is Some ==> sum == exact_sum(self, other)
                && sum->0.value() == self.value() + other.value(),
    {
        proof {
            lemma_exact_sum(self, other);
        }
        decimal_checked_add(self, other)
    }
}

/// An exact sum is representable and has the sum of the values.
pub proof fn lemma_exact_sum(a: Amount, b: Amount)
    ensures
        exact_sum(a, b) matches Some(sum) ==> sum.representable() && sum.value() == a.value()
            + b.value(),
{
    if exact_sum(a, b) is Some {
        if a.mantissa == 0 || b.mantissa == 0 {
            assert(0 * pow(10, (MAX_SCALE - a.scale) as nat) == 0) by (nonlinear_arith);
            assert(0 * pow(10, (MAX_SCALE - b.scale) as nat) == 0) by (nonlinear_arith);
        } else {
            let to = larger_scale(a, b);
            lemma_value_of_rescaled(a, to);
            lemma_value_of_rescaled(b, to);
            let unit = pow(10, (MAX_SCALE - to) as nat);
            let x = a.rescaled(to);
            let y = b.rescaled(to);
            assert((x + y) * unit == x * unit + y * unit) by (nonlinear_arith);
        }
    }
}

/// A sum that can be written with as many digits as its operands can needs no
/// rounding.
pub proof fn lemma_sum_within_is_exact(a: Amount, b: Amount, scale: u32)
    requires
        a.sum_within(b, scale),
    ensures
        exact_sum(a, b) is Some,
        exact_sum(a, b)->0.within(scale),
{
    if a.mantissa != 0 && b.mantissa != 0 {
        lemma_sum_fits(a, b, scale);
    }
    lemma_exact_sum(a, b);
}

/// Writing an amount with `to` digits and then with all twenty-eight is
/// writing it with twenty-eight at once.
proof fn lemma_value_of_rescaled(a: Amount, to: u32)
    requires
        a.scale <= to <= MAX_SCALE,
    ensures
        a.value() == a.rescaled(to) * pow(10, (MAX_SCALE - to) as nat),
        pow(10, (MAX_SCALE - to) as nat) > 0,
{
    let inner = (to - a.scale) as nat;
    let outer = (MAX_SCALE - to) as nat;
    lemma_pow_adds(10, inner, outer);
    lemma_pow_positive(10, outer);
    assert(a.mantissa * (pow(10, inner) * pow(10, outer)) == (a.mantissa * pow(10, inner)) * pow(
        10,
        outer,
    )) by (nonlinear_arith);
}

/// Amounts that can be written with `scale` digits, and whose sum can, meet
/// the condition under which the sum is exact.
proof fn lemma_sum_fits(a: Amount, b: Amount, scale: u32)
    requires
        a.sum_within(b, scale),
    ensures
        sum_fits(a, b),
        larger_scale(a, b) <= scale,
{
    let to = larger_scale(a, b);
    lemma_value_of_rescaled(a, to);
    lemma_value_of_rescaled(b, to);
    let unit = pow(10, (MAX_SCALE - to) as nat);
    lemma_pow_increases(10, (MAX_SCALE - scale) as nat, (MAX_SCALE - to) as nat);
    let limit = pow(10, (MAX_SCALE - scale) as nat);
    lemma_pow_positive(10, (MAX_SCALE - scale) as nat);
    let x = a.rescaled(to);
    let y = b.rescaled(to);
    assert((x + y) * unit == x * unit + y * unit) by (nonlinear_arith);
    lemma_bounded_factor(x, unit, limit);
    lemma_bounded_factor(y, unit, limit);
    lemma_bounded_factor(x + y, unit, limit);
}

/// A number whose multiple by `unit` stays within the multiple of the largest
/// mantissa by a smaller number stays within the largest mantissa.
proof fn lemma_bounded_factor(x: int, unit: int, limit: int)
    requires
        0 < limit <= unit,
        -(MAX_MANTISSA * limit) <= x * unit <= MAX_MANTISSA * limit,
    ensures
        -MAX_MANTISSA <= x <= MAX_MANTISSA,
{
    let most: int = MAX_MANTISSA as int;
    assert(x <= most) by (nonlinear_arith)
        requires
            0 < limit <= unit,
            x * unit <= most * limit,
            most > 0,
    ;
    assert(-most <= x) by (nonlinear_arith)
        requires
            0 < limit <= unit,
            -(most * limit) <= x * unit,
            most > 0,
    ;
}

} // verus!
