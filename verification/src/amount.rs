//! Exact decimal amounts. An amount is an integer mantissa and a power-of-ten
//! scale, as `rust_decimal::Decimal` stores it; the arithmetic, the comparison
//! by value and the text of an amount are those of `Decimal`.

use rust_decimal::Decimal;
use vstd::prelude::*;

use crate::text::{magnitude_digits};

verus! {

/// The largest scale a `Decimal` holds.
pub const MAX_SCALE: u32 = 28;

/// The largest magnitude of a `Decimal` mantissa (96 bits).
pub const MAX_MANTISSA: i128 = 79228162514264337593543950335;

/// `10` to the power `n`.
pub open spec fn pow10(n: nat) -> int
    decreases n,
{
    if n == 0 {
        1
    } else {
        10 * pow10((n - 1) as nat)
    }
}

/// The mathematical model of an amount: the number `mantissa / 10^scale`,
/// together with the scale it is written with.
pub struct AmountValue {
    pub mantissa: int,
    pub scale: nat,
}

impl AmountValue {
    /// The zero amount, `Decimal::ZERO`.
    pub open spec fn zero() -> AmountValue {
        AmountValue { mantissa: 0, scale: 0 }
    }

    /// What a `Decimal` can hold.
    pub open spec fn is_valid(self) -> bool {
        &&& -MAX_MANTISSA <= self.mantissa <= MAX_MANTISSA
        &&& self.scale <= MAX_SCALE
    }

    /// The amount is strictly greater than zero.
    pub open spec fn is_positive(self) -> bool {
        self.mantissa > 0
    }

    /// The two amounts denote the same number, whatever their scales.
    pub open spec fn same_value(self, other: AmountValue) -> bool {
        self.mantissa * pow10(other.scale) == other.mantissa * pow10(self.scale)
    }
}

/// The amount with the opposite sign.
pub open spec fn negated(a: AmountValue) -> AmountValue {
    AmountValue { mantissa: -a.mantissa, scale: a.scale }
}

/// The exact sum of two amounts, written at the larger of their scales.
pub open spec fn exact_sum(a: AmountValue, b: AmountValue) -> AmountValue {
    let scale: nat = if a.scale >= b.scale { a.scale } else { b.scale };
    AmountValue {
        mantissa: a.mantissa * pow10((scale - a.scale) as nat) + b.mantissa * pow10(
            (scale - b.scale) as nat,
        ),
        scale,
    }
}

/// The sums `Decimal` computes without rounding on its fast paths: two
/// nonzero mantissas of at most 64 bits, scales at most 19 apart, and an
/// exact sum of at most 96 bits.
pub open spec fn adds_exactly(a: AmountValue, b: AmountValue) -> bool {
    let sum = exact_sum(a, b).mantissa;
    &&& a.mantissa != 0 && b.mantissa != 0
    &&& -0x1_0000_0000_0000_0000 < a.mantissa < 0x1_0000_0000_0000_0000
    &&& -0x1_0000_0000_0000_0000 < b.mantissa < 0x1_0000_0000_0000_0000
    &&& -19 <= a.scale - b.scale <= 19
    &&& -0x1_0000_0000_0000_0000_0000_0000 < sum < 0x1_0000_0000_0000_0000_0000_0000
}

/// The text `Decimal` displays for an amount: a minus sign for a negative
/// amount, the integer digits (`0` when there are none), and, for a nonzero
/// scale, a point followed by exactly `scale` fractional digits.
pub open spec fn amount_text(a: AmountValue) -> Seq<char> {
    let magnitude: int = if a.mantissa < 0 { -a.mantissa } else { a.mantissa };
    let raw = magnitude_digits(magnitude as nat);
    let digits = if raw.len() < a.scale {
        Seq::new((a.scale - raw.len()) as nat, |i: int| '0') + raw
    } else {
        raw
    };
    let split: int = digits.len() - a.scale;
    let whole = digits.subrange(0, split);
    let fraction = digits.subrange(split, digits.len() as int);
    let sign = if a.mantissa < 0 { seq!['-'] } else { Seq::empty() };
    let whole_text = if whole.len() == 0 { seq!['0'] } else { whole };
    if a.scale == 0 {
        sign + whole_text
    } else {
        sign + whole_text + seq!['.'] + fraction
    }
}

/// An exact decimal amount of money.
#[derive(Clone, Copy, Debug)]
pub struct Amount {
    mantissa: i128,
    scale: u32,
}

impl View for Amount {
    type V = AmountValue;

    closed spec fn view(&self) -> AmountValue {
        AmountValue { mantissa: self.mantissa as int, scale: self.scale as nat }
    }
}

/// The model of an optional amount.
pub open spec fn option_view(r: Option<Amount>) -> Option<AmountValue> {
    match r {
        Some(a) => Some(a@),
        None => None,
    }
}

/// What `Decimal::checked_add` returns for two amounts.
pub uninterp spec fn decimal_checked_add(a: AmountValue, b: AmountValue) -> Option<AmountValue>;

/// What `Decimal::checked_sub` returns for two amounts.
pub uninterp spec fn decimal_checked_sub(a: AmountValue, b: AmountValue) -> Option<AmountValue>;

impl Amount {
    #[verifier::type_invariant]
    spec fn holds_a_decimal(self) -> bool {
        self@.is_valid()
    }

    /// The amount `num / 10^scale`, as `Decimal::new` builds it.
    pub fn new(num: i64, scale: u32) -> (r: Amount)
        requires
            scale <= MAX_SCALE,
        ensures
            r@ == (AmountValue { mantissa: num as int, scale: scale as nat }),
    {
        Amount { mantissa: num as i128, scale }
    }

    /// The whole amount `n`, as `Decimal::from` an `i64` builds it.
    pub fn from_integer(n: i64) -> (r: Amount)
        ensures
            r@ == (AmountValue { mantissa: n as int, scale: 0 }),
    {
        Amount { mantissa: n as i128, scale: 0 }
    }

    /// The zero amount, `Decimal::ZERO`.
    pub fn zero() -> (r: Amount)
        ensures
            r@ == AmountValue::zero(),
    {
        Amount { mantissa: 0, scale: 0 }
    }

    /// The amount `mantissa / 10^scale`, or `None` where a `Decimal` cannot
    /// hold it (as `Decimal::try_from_i128_with_scale` decides).
    pub fn from_parts(mantissa: i128, scale: u32) -> (r: Option<Amount>)
        ensures
            r is Some <==> (AmountValue { mantissa: mantissa as int, scale: scale as nat }).is_valid(),
            r matches Some(a) ==> a@ == (AmountValue { mantissa: mantissa as int, scale: scale as nat }),
    {
        if scale > MAX_SCALE || mantissa > MAX_MANTISSA || mantissa < -MAX_MANTISSA {
            None
        } else {
            Some(Amount { mantissa, scale })
        }
    }

    /// The mantissa.
    pub fn mantissa(&self) -> (r: i128)
        ensures
            r == self@.mantissa,
            self@.is_valid(),
    {
        proof { use_type_invariant(self); }
        self.mantissa
    }

    /// The scale.
    pub fn scale(&self) -> (r: u32)
        ensures
            r == self@.scale,
            self@.is_valid(),
    {
        proof { use_type_invariant(self); }
        self.scale
    }

    /// Whether the amount is strictly greater than zero.
    pub fn is_positive(&self) -> (r: bool)
        ensures
            r == self@.is_positive(),
    {
        self.mantissa > 0
    }
}

/// `Decimal::checked_add`. The contract names the result, and states two
/// facts the source of `rust_decimal` shows: when the left operand is zero the
/// right one comes back unchanged, scale included; on the fast paths
/// (`adds_exactly`) the sum is exact, at the larger scale. What other sums
/// give (rounding, overflow) is left unsaid.
#[verifier::external_body]
pub(crate) fn amount_checked_add(a: Amount, b: Amount) -> (r: Option<Amount>)
    ensures
        option_view(r) == decimal_checked_add(a@, b@),
        a@.mantissa == 0 ==> option_view(r) == Some(b@),
        adds_exactly(a@, b@) ==> option_view(r) == Some(exact_sum(a@, b@)),
        r matches Some(c) ==> c@.is_valid(),
{
    let x = Decimal::from_i128_with_scale(a.mantissa, a.scale);
    let y = Decimal::from_i128_with_scale(b.mantissa, b.scale);
    match x.checked_add(y) {
        Some(d) => Some(Amount { mantissa: d.mantissa(), scale: d.scale() }),
        None => None,
    }
}

/// `Decimal::checked_sub`. The contract names the result, and states two
/// facts the source of `rust_decimal` shows: from a zero left operand the
/// result is the right operand negated, scale included; on the fast paths
/// (`adds_exactly`) the difference is exact, at the larger scale. What other
/// differences give (rounding, overflow) is left unsaid.
#[verifier::external_body]
pub(crate) fn amount_checked_sub(a: Amount, b: Amount) -> (r: Option<Amount>)
    ensures
        option_view(r) == decimal_checked_sub(a@, b@),
        a@.mantissa == 0 ==> option_view(r) == Some(negated(b@)),
        adds_exactly(a@, negated(b@)) ==> option_view(r) == Some(exact_sum(a@, negated(b@))),
        r matches Some(c) ==> c@.is_valid(),
{
    let x = Decimal::from_i128_with_scale(a.mantissa, a.scale);
    let y = Decimal::from_i128_with_scale(b.mantissa, b.scale);
    match x.checked_sub(y) {
        Some(d) => Some(Amount { mantissa: d.mantissa(), scale: d.scale() }),
        None => None,
    }
}

/// `Decimal`'s `==`: true when the two amounts denote the same number.
#[verifier::external_body]
fn amounts_equal(a: &Amount, b: &Amount) -> (r: bool)
    ensures
        r == a@.same_value(b@),
{
    Decimal::from_i128_with_scale(a.mantissa, a.scale) == Decimal::from_i128_with_scale(
        b.mantissa,
        b.scale,
    )
}

/// `Decimal`'s `to_string` (its `Display` with no precision): the digits of
/// the mantissa with a point placed `scale` digits from the right.
#[verifier::external_body]
pub(crate) fn amount_to_text(a: &Amount) -> (r: String)
    ensures
        r@ == amount_text(a@),
{
    Decimal::from_i128_with_scale(a.mantissa, a.scale).to_string()
}

impl PartialEq for Amount {
    fn eq(&self, other: &Self) -> (r: bool) {
        amounts_equal(self, other)
    }
}

impl vstd::std_specs::cmp::PartialEqSpecImpl for Amount {
    open spec fn obeys_eq_spec() -> bool {
        true
    }

    open spec fn eq_spec(&self, other: &Amount) -> bool {
        self@.same_value(other@)
    }
}

} // verus!
