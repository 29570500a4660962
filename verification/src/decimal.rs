//! Exact decimal numbers: a 96-bit signed mantissa and a count of fractional digits.
//!
//! The arithmetic itself is done by the `rust_decimal` crate. This module holds a number as two
//! plain integers, says what each operation means, and returns `None` where a result cannot be
//! held.
use core::cmp::Ordering;

use vstd::prelude::*;

verus! {

/// The largest number of fractional digits.
pub const MAX_SCALE: u32 = 28;

/// One more than the largest mantissa, in absolute value.
pub const MANTISSA_LIMIT: i128 = 0x1_0000_0000_0000_0000_0000_0000;

/// Ten to the power of `n`; one if `n` is not positive.
pub open spec fn pow10(n: int) -> int
    decreases n,
{
    if n <= 0 {
        1
    } else {
        10 * pow10(n - 1)
    }
}

/// The value of `mantissa / 10^scale` in units of `10^-28`, the finest that a decimal can hold.
pub open spec fn value_of(mantissa: int, scale: int) -> int {
    mantissa * pow10(MAX_SCALE as int - scale)
}

/// Whether a mantissa and a scale make a decimal.
pub open spec fn representable(mantissa: int, scale: int) -> bool {
    -(MANTISSA_LIMIT as int) < mantissa < MANTISSA_LIMIT && 0 <= scale <= MAX_SCALE
}

/// The larger of two scales.
pub open spec fn common_scale(a: int, b: int) -> int {
    if a < b {
        b
    } else {
        a
    }
}

/// A mantissa brought from one scale to a larger one.
pub open spec fn rescaled(mantissa: int, from: int, to: int) -> int {
    mantissa * pow10(to - from)
}

/// The mantissa and scale that `rust_decimal` gives for the sum of two decimals, or `None` where it
/// reports an overflow.
pub uninterp spec fn outside_sum(am: i128, asc: u32, bm: i128, bsc: u32) -> Option<(i128, u32)>;

/// The mantissa and scale that `rust_decimal` gives for the difference of two decimals, or `None`
/// where it reports an overflow.
pub uninterp spec fn outside_difference(am: i128, asc: u32, bm: i128, bsc: u32) -> Option<(i128, u32)>;

/// The mantissa and scale that `rust_decimal` gives for the product of two decimals, or `None`
/// where it reports an overflow.
pub uninterp spec fn outside_product(am: i128, asc: u32, bm: i128, bsc: u32) -> Option<(i128, u32)>;

/// The mantissa and scale that `rust_decimal` gives for the quotient of two decimals, or `None`
/// where it reports an overflow or a division by zero.
pub uninterp spec fn outside_quotient(am: i128, asc: u32, bm: i128, bsc: u32) -> Option<(i128, u32)>;

/// The decimal digits of `n`, with zeros in front where there are fewer than `least` of them.
pub open spec fn digits_of(n: nat, least: nat) -> Seq<char>
    decreases n, least,
{
    if n == 0 && least == 0 {
        Seq::empty()
    } else {
        let rest = if least == 0 {
            0nat
        } else {
            (least - 1) as nat
        };
        digits_of(n / 10, rest).push((48 + n % 10) as char)
    }
}

/// A number in decimal notation, without its sign: the digits of the mantissa, one of them at least
/// in front of the point, and a point only where there are fractional digits.
pub open spec fn magnitude_text(magnitude: nat, scale: nat) -> Seq<char> {
    let digits = digits_of(magnitude, scale + 1);
    if scale == 0 {
        digits
    } else {
        digits.take(digits.len() - scale) + seq!['.'] + digits.skip(digits.len() - scale)
    }
}

/// A number in decimal notation. Only a negative number has a sign.
pub open spec fn decimal_text(mantissa: int, scale: nat) -> Seq<char> {
    if mantissa < 0 {
        seq!['-'] + magnitude_text((-mantissa) as nat, scale)
    } else {
        magnitude_text(mantissa as nat, scale)
    }
}

/// The value of a mantissa and a scale.
pub open spec fn value(mantissa: i128, scale: u32) -> int {
    value_of(mantissa as int, scale as int)
}

/// The value of a pair of a mantissa and a scale.
pub open spec fn value_of_parts(parts: (i128, u32)) -> int {
    value(parts.0, parts.1)
}

/// Whether a mantissa and a scale make a decimal.
pub open spec fn valid(mantissa: i128, scale: u32) -> bool {
    representable(mantissa as int, scale as int)
}

/// Whether a sum is exact: both numbers and their sum fit in 96 bits at a common scale.
pub open spec fn adds_exactly(am: i128, asc: u32, bm: i128, bsc: u32) -> bool {
    let s = common_scale(asc as int, bsc as int);
    let a = rescaled(am as int, asc as int, s);
    let b = rescaled(bm as int, bsc as int, s);
    representable(a, s) && representable(b, s) && representable(a + b, s)
}

/// Whether a difference is exact: both numbers and their difference fit in 96 bits at a common
/// scale.
pub open spec fn subtracts_exactly(am: i128, asc: u32, bm: i128, bsc: u32) -> bool {
    let s = common_scale(asc as int, bsc as int);
    let a = rescaled(am as int, asc as int, s);
    let b = rescaled(bm as int, bsc as int, s);
    representable(a, s) && representable(b, s) && representable(a - b, s)
}

/// The quotient of two mantissas, taken to so many places.
pub open spec fn quotient_at(am: i128, bm: i128, places: int) -> int {
    (am * pow10(places)) / (bm as int)
}

/// Whether a quotient is exact at so many places behind those of the operands, and a decimal.
pub open spec fn divides_exactly(am: i128, asc: u32, bm: i128, bsc: u32, places: int) -> bool {
    &&& bm != 0
    &&& places >= 0
    &&& (am * pow10(places)) % (bm as int) == 0
    &&& representable(quotient_at(am, bm, places), asc - bsc + places)
}

/// Calls `Ord::cmp` of `rust_decimal::Decimal`, which compares by value, whatever the scales.
#[verifier::external_body]
fn outside_cmp(am: i128, asc: u32, bm: i128, bsc: u32) -> (r: Ordering)
    requires
        valid(am, asc),
        valid(bm, bsc),
    ensures
        r == (if value(am, asc) < value(bm, bsc) {
            Ordering::Less
        } else if value(am, asc) == value(bm, bsc) {
            Ordering::Equal
        } else {
            Ordering::Greater
        }),
{
    let left = rust_decimal::Decimal::from_i128_with_scale(am, asc);
    left.cmp(&rust_decimal::Decimal::from_i128_with_scale(bm, bsc))
}

/// Calls `rust_decimal::Decimal::checked_add`. Its result is a decimal, and it is the exact sum
/// where both operands, brought to the larger of the two scales, and their sum fit in 96 bits.
/// Elsewhere the sum may be rounded to fewer fractional digits, or missing.
#[verifier::external_body]
fn outside_checked_add(am: i128, asc: u32, bm: i128, bsc: u32) -> (r: Option<(i128, u32)>)
    requires
        valid(am, asc),
        valid(bm, bsc),
    ensures
        r == outside_sum(am, asc, bm, bsc),
        r matches Some(p) ==> valid(p.0, p.1),
        adds_exactly(am, asc, bm, bsc) ==> r is Some && value_of_parts(r->0) == value(am, asc)
            + value(bm, bsc),
{
    let left = rust_decimal::Decimal::from_i128_with_scale(am, asc);
    let right = rust_decimal::Decimal::from_i128_with_scale(bm, bsc);
    left.checked_add(right).map(|d| (d.mantissa(), d.scale()))
}

/// Calls `rust_decimal::Decimal::checked_sub`. Its result is a decimal, and it is the exact
/// difference where both operands, brought to the larger of the two scales, and their difference
/// fit in 96 bits. Elsewhere the difference may be rounded to fewer fractional digits, or missing.
#[verifier::external_body]
fn outside_checked_sub(am: i128, asc: u32, bm: i128, bsc: u32) -> (r: Option<(i128, u32)>)
    requires
        valid(am, asc),
        valid(bm, bsc),
    ensures
        r == outside_difference(am, asc, bm, bsc),
        r matches Some(p) ==> valid(p.0, p.1),
        subtracts_exactly(am, asc, bm, bsc) ==> r is Some && value_of_parts(r->0) == value(
            am,
            asc,
        ) - value(bm, bsc),
{
    let left = rust_decimal::Decimal::from_i128_with_scale(am, asc);
    let right = rust_decimal::Decimal::from_i128_with_scale(bm, bsc);
    left.checked_sub(right).map(|d| (d.mantissa(), d.scale()))
}

/// Calls `rust_decimal::Decimal::checked_mul`. Its result is a decimal, and it is the exact product
/// where the product of the mantissas fits in 96 bits and the scales add up to no more than 28.
/// Elsewhere the product may be rounded to fewer fractional digits, or missing.
#[verifier::external_body]
fn outside_checked_mul(am: i128, asc: u32, bm: i128, bsc: u32) -> (r: Option<(i128, u32)>)
    requires
        valid(am, asc),
        valid(bm, bsc),
    ensures
        r == outside_product(am, asc, bm, bsc),
        r matches Some(p) ==> valid(p.0, p.1),
        representable(am * bm, asc + bsc) ==> r is Some && value_of_parts(r->0) == value_of(
            am * bm,
            asc + bsc,
        ),
{
    let left = rust_decimal::Decimal::from_i128_with_scale(am, asc);
    let right = rust_decimal::Decimal::from_i128_with_scale(bm, bsc);
    left.checked_mul(right).map(|d| (d.mantissa(), d.scale()))
}

/// Calls `rust_decimal::Decimal::checked_div`. Its result is a decimal, and there is none where the
/// divisor is zero. It is the exact quotient where that is a decimal. Elsewhere the quotient is
/// rounded, or missing.
#[verifier::external_body]
fn outside_checked_div(am: i128, asc: u32, bm: i128, bsc: u32) -> (r: Option<(i128, u32)>)
    requires
        valid(am, asc),
        valid(bm, bsc),
    ensures
        r == outside_quotient(am, asc, bm, bsc),
        r matches Some(p) ==> valid(p.0, p.1),
        bm == 0 ==> r is None,
        forall|places: int| #[trigger]
            divides_exactly(am, asc, bm, bsc, places) ==> r is Some && value_of_parts(r->0)
                == value_of(quotient_at(am, bm, places), asc - bsc + places),
{
    let left = rust_decimal::Decimal::from_i128_with_scale(am, asc);
    let right = rust_decimal::Decimal::from_i128_with_scale(bm, bsc);
    left.checked_div(right).map(|d| (d.mantissa(), d.scale()))
}

/// Calls `rust_decimal::Decimal::checked_rem`. There is a remainder unless the divisor is zero, and
/// it is zero exactly where the dividend is a whole multiple of the divisor.
#[verifier::external_body]
fn outside_remainder_is_zero(am: i128, asc: u32, bm: i128, bsc: u32) -> (r: Option<bool>)
    requires
        valid(am, asc),
        valid(bm, bsc),
    ensures
        r is None <==> bm == 0,
        r matches Some(zero) ==> zero == (value(am, asc) % value(bm, bsc) == 0),
{
    let left = rust_decimal::Decimal::from_i128_with_scale(am, asc);
    let right = rust_decimal::Decimal::from_i128_with_scale(bm, bsc);
    left.checked_rem(right).map(|d| d.is_zero())
}

/// Calls `to_string` of `rust_decimal::Decimal`: the sign of a negative number, then the digits of
/// the mantissa with all the fractional digits behind a point, and at least one digit before it.
#[verifier::external_body]
fn outside_to_string(mantissa: i128, scale: u32) -> (r: String)
    requires
        valid(mantissa, scale),
    ensures
        r@ == decimal_text(mantissa as int, scale as nat),
{
    rust_decimal::Decimal::from_i128_with_scale(mantissa, scale).to_string()
}

/// A decimal number, `mantissa / 10^scale`.
///
/// Two numbers are equal when their values are, whatever their scales.
#[derive(Clone, Copy, Debug)]
pub struct Decimal {
    mantissa: i128,
    scale: u32,
}

impl View for Decimal {
    type V = int;

    /// The value, in units of `10^-28`.
    open spec fn view(&self) -> int {
        value_of(self.mantissa_part() as int, self.scale_part() as int)
    }
}

impl Decimal {
    /// A decimal always fits in 96 bits and 28 fractional digits.
    #[verifier::type_invariant]
    spec fn in_range(self) -> bool {
        representable(self.mantissa as int, self.scale as int)
    }

    /// The mantissa.
    pub closed spec fn mantissa_part(self) -> i128 {
        self.mantissa
    }

    /// The number of fractional digits.
    pub closed spec fn scale_part(self) -> u32 {
        self.scale
    }

    /// The decimal made of a mantissa and a scale.
    pub closed spec fn of(mantissa: i128, scale: u32) -> Decimal {
        Decimal { mantissa, scale }
    }

    /// The decimal made of the parts that an operation gave, where it gave any.
    pub open spec fn of_parts(parts: Option<(i128, u32)>) -> Option<Decimal> {
        match parts {
            Some(p) => Some(Decimal::of(p.0, p.1)),
            None => None,
        }
    }

    /// The sum, where it can be held.
    pub open spec fn sum(self, other: Decimal) -> Option<Decimal> {
        Decimal::of_parts(
            outside_sum(
                self.mantissa_part(),
                self.scale_part(),
                other.mantissa_part(),
                other.scale_part(),
            ),
        )
    }

    /// The difference, where it can be held.
    pub open spec fn difference(self, other: Decimal) -> Option<Decimal> {
        Decimal::of_parts(
            outside_difference(
                self.mantissa_part(),
                self.scale_part(),
                other.mantissa_part(),
                other.scale_part(),
            ),
        )
    }

    /// The product, where it can be held.
    pub open spec fn product(self, other: Decimal) -> Option<Decimal> {
        Decimal::of_parts(
            outside_product(
                self.mantissa_part(),
                self.scale_part(),
                other.mantissa_part(),
                other.scale_part(),
            ),
        )
    }

    /// The quotient, where it can be held.
    pub open spec fn quotient(self, other: Decimal) -> Option<Decimal> {
        Decimal::of_parts(
            outside_quotient(
                self.mantissa_part(),
                self.scale_part(),
                other.mantissa_part(),
                other.scale_part(),
            ),
        )
    }

    /// The same magnitude with the other sign.
    pub open spec fn negated(self) -> Decimal {
        Decimal::of((-self.mantissa_part()) as i128, self.scale_part())
    }

    /// The smaller of two decimals; the first where they are equal.
    pub open spec fn smaller(self, other: Decimal) -> Decimal {
        if other@ < self@ {
            other
        } else {
            self
        }
    }

    /// Zero, one and two, without fractional digits.
    pub open spec fn whole(n: int) -> Decimal {
        Decimal::of(n as i128, 0)
    }

    /// Whether the sum is exact.
    pub open spec fn adds_exactly(self, other: Decimal) -> bool {
        adds_exactly(
            self.mantissa_part(),
            self.scale_part(),
            other.mantissa_part(),
            other.scale_part(),
        )
    }

    /// Whether the difference is exact.
    pub open spec fn subtracts_exactly(self, other: Decimal) -> bool {
        subtracts_exactly(
            self.mantissa_part(),
            self.scale_part(),
            other.mantissa_part(),
            other.scale_part(),
        )
    }

    /// Whether the product is exact: it fits in 96 bits and 28 fractional digits.
    pub open spec fn multiplies_exactly(self, other: Decimal) -> bool {
        representable(
            self.mantissa_part() * other.mantissa_part(),
            self.scale_part() + other.scale_part(),
        )
    }

    /// Whether the quotient is exact at so many places behind those of the operands, and a decimal.
    pub open spec fn divides_exactly(self, other: Decimal, places: int) -> bool {
        divides_exactly(
            self.mantissa_part(),
            self.scale_part(),
            other.mantissa_part(),
            other.scale_part(),
            places,
        )
    }

    /// The decimal `num / 10^scale`.
    pub fn new(num: i64, scale: u32) -> (r: Decimal)
        requires
            scale <= MAX_SCALE,
        ensures
            r == Decimal::of(num as i128, scale),
            r.mantissa_part() == num,
            r.scale_part() == scale,
            r@ == value_of(num as int, scale as int),
    {
        Decimal { mantissa: num as i128, scale }
    }

    /// The whole number `num`.
    pub fn from_int(num: i64) -> (r: Decimal)
        ensures
            r == Decimal::whole(num as int),
            r.mantissa_part() == num,
            r.scale_part() == 0,
            r@ == num * pow10(28),
    {
        Decimal { mantissa: num as i128, scale: 0 }
    }

    /// Zero.
    pub fn zero() -> (r: Decimal)
        ensures
            r == Decimal::whole(0),
            r.mantissa_part() == 0,
            r.scale_part() == 0,
            r@ == 0,
    {
        Decimal { mantissa: 0, scale: 0 }
    }

    /// One.
    pub fn one() -> (r: Decimal)
        ensures
            r == Decimal::whole(1),
            r.mantissa_part() == 1,
            r.scale_part() == 0,
            r@ == pow10(28),
    {
        Decimal { mantissa: 1, scale: 0 }
    }

    /// The mantissa.
    pub fn mantissa(self) -> (r: i128)
        ensures
            r == self.mantissa_part(),
    {
        self.mantissa
    }

    /// The number of fractional digits.
    pub fn scale(self) -> (r: u32)
        ensures
            r == self.scale_part(),
    {
        self.scale
    }

    /// Adds, or returns `None` where the sum cannot be held.
    pub fn checked_add(self, other: Decimal) -> (r: Option<Decimal>)
        ensures
            r == self.sum(other),
            self.adds_exactly(other) ==> r is Some && r->0@ == self@ + other@,
    {
        proof {
            use_type_invariant(&self);
            use_type_invariant(&other);
        }
        match outside_checked_add(self.mantissa, self.scale, other.mantissa, other.scale) {
            Some((mantissa, scale)) => Some(Decimal { mantissa, scale }),
            None => None,
        }
    }

    /// Subtracts, or returns `None` where the difference cannot be held.
    pub fn checked_sub(self, other: Decimal) -> (r: Option<Decimal>)
        ensures
            r == self.difference(other),
            self.subtracts_exactly(other) ==> r is Some && r->0@ == self@ - other@,
    {
        proof {
            use_type_invariant(&self);
            use_type_invariant(&other);
        }
        match outside_checked_sub(self.mantissa, self.scale, other.mantissa, other.scale) {
            Some((mantissa, scale)) => Some(Decimal { mantissa, scale }),
            None => None,
        }
    }

    /// Multiplies, or returns `None` where the product cannot be held.
    pub fn checked_mul(self, other: Decimal) -> (r: Option<Decimal>)
        ensures
            r == self.product(other),
            self.multiplies_exactly(other) ==> r is Some && r->0@ == value_of(
                self.mantissa_part() * other.mantissa_part(),
                self.scale_part() + other.scale_part(),
            ),
    {
        proof {
            use_type_invariant(&self);
            use_type_invariant(&other);
        }
        match outside_checked_mul(self.mantissa, self.scale, other.mantissa, other.scale) {
            Some((mantissa, scale)) => Some(Decimal { mantissa, scale }),
            None => None,
        }
    }

    /// Divides, or returns `None` where the divisor is zero or the quotient cannot be held.
    pub fn checked_div(self, other: Decimal) -> (r: Option<Decimal>)
        ensures
            r == self.quotient(other),
            other@ == 0 ==> r is None,
            forall|places: int| #[trigger]
                self.divides_exactly(other, places) ==> r is Some && r->0@ == value_of(
                    quotient_at(self.mantissa_part(), other.mantissa_part(), places),
                    self.scale_part() - other.scale_part() + places,
                ),
    {
        proof {
            use_type_invariant(&self);
            use_type_invariant(&other);
            lemma_value_sign(other.mantissa as int, other.scale as int);
        }
        match outside_checked_div(self.mantissa, self.scale, other.mantissa, other.scale) {
            Some((mantissa, scale)) => Some(Decimal { mantissa, scale }),
            None => None,
        }
    }

    /// Whether this is a whole multiple of `unit`; false where `unit` is zero.
    pub fn is_multiple_of(self, unit: Decimal) -> (r: bool)
        ensures
            r == (unit@ != 0 && self@ % unit@ == 0),
    {
        proof {
            use_type_invariant(&self);
            use_type_invariant(&unit);
            lemma_value_sign(unit.mantissa as int, unit.scale as int);
        }
        match outside_remainder_is_zero(self.mantissa, self.scale, unit.mantissa, unit.scale) {
            Some(zero) => zero,
            None => false,
        }
    }

    /// Changes the sign.
    pub fn neg(self) -> (r: Decimal)
        ensures
            r == self.negated(),
            r.mantissa_part() == -self.mantissa_part(),
            r.scale_part() == self.scale_part(),
            r@ == -self@,
    {
        proof {
            use_type_invariant(&self);
            assert((-self.mantissa) * pow10(MAX_SCALE - self.scale) == -(self.mantissa * pow10(
                MAX_SCALE - self.scale,
            ))) by (nonlinear_arith);
        }
        Decimal { mantissa: -self.mantissa, scale: self.scale }
    }

    /// Whether the value is zero.
    pub fn is_zero(self) -> (r: bool)
        ensures
            r == (self@ == 0),
    {
        proof {
            lemma_value_sign(self.mantissa as int, self.scale as int);
        }
        self.mantissa == 0
    }

    /// Whether the value is above zero.
    pub fn is_positive(self) -> (r: bool)
        ensures
            r == (self@ > 0),
    {
        proof {
            lemma_value_sign(self.mantissa as int, self.scale as int);
        }
        self.mantissa > 0
    }

    /// Whether the value is below zero.
    pub fn is_negative(self) -> (r: bool)
        ensures
            r == (self@ < 0),
    {
        proof {
            lemma_value_sign(self.mantissa as int, self.scale as int);
        }
        self.mantissa < 0
    }

    /// Compares by value.
    pub fn compare(self, other: Decimal) -> (r: Ordering)
        ensures
            r == (if self@ < other@ {
                Ordering::Less
            } else if self@ == other@ {
                Ordering::Equal
            } else {
                Ordering::Greater
            }),
    {
        proof {
            use_type_invariant(&self);
            use_type_invariant(&other);
        }
        outside_cmp(self.mantissa, self.scale, other.mantissa, other.scale)
    }

    /// Whether the value is below that of `other`.
    pub fn lt(self, other: Decimal) -> (r: bool)
        ensures
            r == (self@ < other@),
    {
        match self.compare(other) {
            Ordering::Less => true,
            _ => false,
        }
    }

    /// Whether the value is at most that of `other`.
    pub fn le(self, other: Decimal) -> (r: bool)
        ensures
            r == (self@ <= other@),
    {
        match self.compare(other) {
            Ordering::Greater => false,
            _ => true,
        }
    }

    /// The smaller of two decimals; this one where they are equal.
    pub fn min(self, other: Decimal) -> (r: Decimal)
        ensures
            r == self.smaller(other),
    {
        if other.lt(self) {
            other
        } else {
            self
        }
    }

    /// The number in decimal notation, with all its fractional digits.
    pub fn to_text(self) -> (r: String)
        ensures
            r@ == decimal_text(self.mantissa_part() as int, self.scale_part() as nat),
    {
        proof {
            use_type_invariant(&self);
        }
        outside_to_string(self.mantissa, self.scale)
    }
}

impl PartialEq for Decimal {
    fn eq(&self, other: &Decimal) -> (r: bool) {
        match self.compare(*other) {
            Ordering::Equal => true,
            _ => false,
        }
    }
}

impl Eq for Decimal {

}

impl vstd::std_specs::cmp::PartialEqSpecImpl for Decimal {
    open spec fn obeys_eq_spec() -> bool {
        true
    }

    open spec fn eq_spec(&self, other: &Decimal) -> bool {
        self@ == other@
    }
}

impl From<i64> for Decimal {
    fn from(num: i64) -> (r: Decimal) {
        Decimal::from_int(num)
    }
}

impl vstd::std_specs::convert::FromSpecImpl<i64> for Decimal {
    open spec fn obeys_from_spec() -> bool {
        true
    }

    open spec fn from_spec(num: i64) -> Decimal {
        Decimal::whole(num as int)
    }
}

/// A power of ten is positive.
pub proof fn lemma_pow10_positive(n: int)
    ensures
        pow10(n) > 0,
    decreases n,
{
    if n > 0 {
        lemma_pow10_positive(n - 1);
    }
}

/// A decimal is the one made of its mantissa and its scale, and of no others.
pub proof fn a_decimal_is_its_parts(d: Decimal, mantissa: i128, scale: u32)
    ensures
        Decimal::of(mantissa, scale).mantissa_part() == mantissa,
        Decimal::of(mantissa, scale).scale_part() == scale,
        Decimal::of(d.mantissa_part(), d.scale_part()) == d,
{
}

/// Decimals at one scale add and subtract exactly wherever the result can be held at that scale.
pub proof fn decimals_at_one_scale_add_exactly(a: Decimal, b: Decimal)
    requires
        representable(a.mantissa_part() as int, a.scale_part() as int),
        representable(b.mantissa_part() as int, b.scale_part() as int),
        a.scale_part() == b.scale_part(),
    ensures
        representable(a.mantissa_part() + b.mantissa_part(), a.scale_part() as int)
            ==> a.adds_exactly(b),
        representable(a.mantissa_part() - b.mantissa_part(), a.scale_part() as int)
            ==> a.subtracts_exactly(b),
{
    assert(pow10(0) == 1);
}

/// Whole numbers of 64 bits add and subtract exactly.
pub proof fn whole_numbers_add_exactly(a: i64, b: i64)
    ensures
        Decimal::whole(a as int).adds_exactly(Decimal::whole(b as int)),
        Decimal::whole(a as int).subtracts_exactly(Decimal::whole(b as int)),
{
    decimals_at_one_scale_add_exactly(Decimal::whole(a as int), Decimal::whole(b as int));
}

/// An exact quotient times the divisor is the dividend: nothing is lost in an exact division.
pub proof fn an_exact_quotient_multiplies_back(a: Decimal, b: Decimal, places: int)
    requires
        a.divides_exactly(b, places),
    ensures
        quotient_at(a.mantissa_part(), b.mantissa_part(), places) * b.mantissa_part()
            == a.mantissa_part() * pow10(places),
{
    let x = a.mantissa_part() * pow10(places);
    let y = b.mantissa_part() as int;
    vstd::arithmetic::div_mod::lemma_fundamental_div_mod(x, y);
    assert((x / y) * y == y * (x / y)) by (nonlinear_arith);
}

/// The value of a decimal has the sign of its mantissa.
pub proof fn lemma_value_sign(mantissa: int, scale: int)
    ensures
        mantissa == 0 <==> value_of(mantissa, scale) == 0,
        mantissa > 0 <==> value_of(mantissa, scale) > 0,
        mantissa < 0 <==> value_of(mantissa, scale) < 0,
{
    let p = pow10(MAX_SCALE as int - scale);
    lemma_pow10_positive(MAX_SCALE as int - scale);
    assert(mantissa == 0 ==> mantissa * p == 0) by (nonlinear_arith);
    assert(mantissa > 0 ==> mantissa * p > 0) by (nonlinear_arith)
        requires
            p > 0,
    ;
    assert(mantissa < 0 ==> mantissa * p < 0) by (nonlinear_arith)
        requires
            p > 0,
    ;
}

/// Whether a mantissa and a scale of a decimal are ones that a decimal can have.
pub open spec fn proper(d: Decimal) -> bool {
    representable(d.mantissa_part() as int, d.scale_part() as int)
}

/// Whether adding `b` to `a` gives `sum` without rounding.
pub open spec fn exact_sum(a: Decimal, b: Decimal, sum: Decimal) -> bool {
    a.sum(b) == Some(sum) && sum@ == a@ + b@ && proper(sum)
}

/// Whether subtracting `b` from `a` gives `difference` without rounding.
pub open spec fn exact_difference(a: Decimal, b: Decimal, difference: Decimal) -> bool {
    a.difference(b) == Some(difference) && difference@ == a@ - b@ && proper(difference)
}

/// Whether multiplying `a` by `b` gives `product` without rounding.
pub open spec fn exact_product(a: Decimal, b: Decimal, product: Decimal) -> bool {
    a.product(b) == Some(product) && product@ * pow10(28) == a@ * b@ && proper(product)
}

/// Whether dividing `a` by `b` gives `quotient` without rounding.
pub open spec fn exact_quotient(a: Decimal, b: Decimal, quotient: Decimal) -> bool {
    b@ != 0 && a.quotient(b) == Some(quotient) && quotient@ * b@ == a@ * pow10(28) && proper(
        quotient,
    )
}

/// The values of the whole numbers zero and one.
pub proof fn lemma_small_wholes()
    ensures
        Decimal::whole(0)@ == 0,
        Decimal::whole(1)@ == pow10(28),
        pow10(28) > 0,
        proper(Decimal::whole(0)),
        proper(Decimal::whole(1)),
{
    lemma_pow10_positive(28);
    assert(0 * pow10(28) == 0) by (nonlinear_arith);
    assert(1 * pow10(28) == pow10(28)) by (nonlinear_arith);
}

/// Negating a decimal negates its value.
pub proof fn lemma_negated(d: Decimal)
    requires
        proper(d),
    ensures
        d.negated()@ == -d@,
        proper(d.negated()),
{
    let m = d.mantissa_part() as int;
    let p = pow10(MAX_SCALE as int - d.scale_part() as int);
    assert((-m) * p == -(m * p)) by (nonlinear_arith);
}

/// The smaller of two decimals is one of them and above neither, and negating twice gives the same
/// value again.
pub proof fn the_smaller_is_above_neither(a: Decimal, b: Decimal)
    requires
        proper(a),
    ensures
        a.smaller(b)@ <= a@,
        a.smaller(b)@ <= b@,
        a.smaller(b) == a || a.smaller(b) == b,
        a.negated()@ == -a@,
        a.negated().negated()@ == a@,
{
    lemma_negated(a);
    lemma_negated(a.negated());
}

} // verus!
