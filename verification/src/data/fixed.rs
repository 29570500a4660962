//! Prices and quantities as whole numbers of `10^-8`.
use vstd::prelude::*;

use crate::data::digits::all_digits;
use crate::data::digits::is_digit;
use crate::data::digits::lemma_number_at_least;
use crate::data::digits::lemma_number_bounds;
use crate::data::digits::lemma_number_grows;
use crate::data::digits::lemma_number_of_joined;
use crate::data::digits::lemma_pow10_adds;
use crate::data::digits::lemma_pow10_grows;
use crate::data::digits::lemma_scaled_trailing;
use crate::data::digits::lemma_scaled_zero;
use crate::data::digits::lemma_zeros;
use crate::data::digits::number_of;
use crate::data::digits::scaled;
use crate::decimal::lemma_pow10_positive;
use crate::decimal::pow10;
use crate::decimal::value_of;
use crate::decimal::Decimal;

verus! {

/// The number of fractional digits of a stored price or quantity.
pub const DATA_SCALE: u32 = 8;

/// An exponent beyond this decides the outcome, whatever the digits before it.
const EXPONENT_LIMIT: i128 = 0x1000_0000_0000_0000_0000_0000;

/// Why a number field cannot be stored.
#[derive(Clone, Copy, Debug, PartialEq, Eq, Structural)]
pub enum ParseFixedError {
    /// The field is not a decimal number.
    Syntax,
    /// The value has digits below `10^-8`.
    Precision,
    /// The scaled value exceeds the `i64` range.
    Overflow,
}

impl ParseFixedError {
    /// The error in words.
    pub fn message(&self) -> (r: &'static str)
        ensures
            r@ == (match *self {
                ParseFixedError::Syntax => "expected a decimal number"@,
                ParseFixedError::Precision => "value cannot be represented exactly at scale 8"@,
                ParseFixedError::Overflow => "scaled value exceeds the i64 range"@,
            }),
    {
        match self {
            ParseFixedError::Syntax => "expected a decimal number",
            ParseFixedError::Precision => "value cannot be represented exactly at scale 8",
            ParseFixedError::Overflow => "scaled value exceeds the i64 range",
        }
    }
}

/// Whether a field starts with a sign, `+` or `-`.
pub open spec fn has_sign(s: Seq<u8>) -> bool {
    s.len() > 0 && (s[0] == 43 || s[0] == 45)
}

/// Whether a field starts with a minus sign.
pub open spec fn is_negative(s: Seq<u8>) -> bool {
    s.len() > 0 && s[0] == 45
}

/// A field without its sign.
pub open spec fn without_sign(s: Seq<u8>) -> Seq<u8> {
    if has_sign(s) {
        s.skip(1)
    } else {
        s
    }
}

/// Whether a byte introduces an exponent: `e` or `E`.
pub open spec fn is_exponent_mark(b: u8) -> bool {
    b == 101 || b == 69
}

/// The position of the first exponent mark, or the length where there is none.
pub open spec fn exponent_mark(s: Seq<u8>) -> int
    decreases s.len(),
{
    if s.len() == 0 {
        0
    } else if is_exponent_mark(s[0]) {
        0
    } else {
        1 + exponent_mark(s.skip(1))
    }
}

/// The position of the first decimal point, or the length where there is none.
pub open spec fn point(s: Seq<u8>) -> int
    decreases s.len(),
{
    if s.len() == 0 {
        0
    } else if s[0] == 46 {
        0
    } else {
        1 + point(s.skip(1))
    }
}

/// The bytes in front of the exponent mark.
pub open spec fn mantissa_of(s: Seq<u8>) -> Seq<u8> {
    s.take(exponent_mark(s))
}

/// The bytes behind the exponent mark.
pub open spec fn exponent_of(s: Seq<u8>) -> Seq<u8> {
    s.skip(exponent_mark(s) + 1)
}

/// A mantissa is a row of digits, or two with a decimal point between them.
pub open spec fn mantissa_ok(m: Seq<u8>) -> bool {
    let p = point(m);
    &&& p > 0
    &&& all_digits(m.take(p))
    &&& p < m.len() ==> p + 1 < m.len() && all_digits(m.skip(p + 1))
}

/// An exponent is a row of digits behind an optional sign.
pub open spec fn exponent_ok(e: Seq<u8>) -> bool {
    without_sign(e).len() > 0 && all_digits(without_sign(e))
}

/// The value of an exponent.
pub open spec fn exponent_value(e: Seq<u8>) -> int {
    if is_negative(e) {
        -number_of(without_sign(e))
    } else {
        number_of(without_sign(e))
    }
}

/// The bytes without the decimal point.
pub open spec fn digits_of(m: Seq<u8>) -> Seq<u8>
    decreases m.len(),
{
    if m.len() == 0 {
        m
    } else if m.last() == 46 {
        digits_of(m.drop_last())
    } else {
        digits_of(m.drop_last()).push(m.last())
    }
}

/// The number of bytes behind the decimal point.
pub open spec fn fraction_len(m: Seq<u8>) -> int {
    if point(m) < m.len() {
        m.len() - point(m) - 1
    } else {
        0
    }
}

/// Whether a field is a decimal number: an optional sign, a mantissa, and an optional exponent.
pub open spec fn number_ok(s: Seq<u8>) -> bool {
    let u = without_sign(s);
    &&& mantissa_ok(mantissa_of(u))
    &&& exponent_mark(u) < u.len() ==> exponent_ok(exponent_of(u))
}

/// The power of ten that the digits of a field are multiplied by, in units of `10^-8`.
pub open spec fn power_of(s: Seq<u8>) -> int {
    let u = without_sign(s);
    let e = if exponent_mark(u) < u.len() {
        exponent_value(exponent_of(u))
    } else {
        0
    };
    e + DATA_SCALE - fraction_len(mantissa_of(u))
}

/// The absolute value of a field in units of `10^-8`, where it is a whole number.
pub open spec fn magnitude_of(s: Seq<u8>) -> Option<int> {
    scaled(number_of(digits_of(mantissa_of(without_sign(s)))), power_of(s))
}

/// What a field stands for: the exact value in units of `10^-8`, or why there is none.
pub open spec fn fixed_value(s: Seq<u8>) -> Result<i64, ParseFixedError> {
    if !number_ok(s) {
        Err(ParseFixedError::Syntax)
    } else {
        match magnitude_of(s) {
            None => Err(ParseFixedError::Precision),
            Some(m) => signed_value(is_negative(s), m),
        }
    }
}

/// A sign and a magnitude as an `i64`, where they fit.
pub open spec fn signed_value(negative: bool, magnitude: int) -> Result<i64, ParseFixedError> {
    let v = if negative {
        -magnitude
    } else {
        magnitude
    };
    if i64::MIN <= v <= i64::MAX {
        Ok(v as i64)
    } else {
        Err(ParseFixedError::Overflow)
    }
}

/// What the exponent mark's position means.
pub proof fn lemma_exponent_mark(s: Seq<u8>, k: int)
    requires
        0 <= k <= s.len(),
        forall|i: int| 0 <= i < k ==> !is_exponent_mark(#[trigger] s[i]),
        k < s.len() ==> is_exponent_mark(s[k]),
    ensures
        exponent_mark(s) == k,
    decreases s.len(),
{
    if s.len() > 0 && k > 0 {
        let t = s.skip(1);
        assert forall|i: int| 0 <= i < k - 1 implies !is_exponent_mark(#[trigger] t[i]) by {
            assert(t[i] == s[i + 1]);
        }
        assert(!is_exponent_mark(s[0]));
        lemma_exponent_mark(t, k - 1);
    }
}

/// What the decimal point's position means.
pub proof fn lemma_point(s: Seq<u8>, k: int)
    requires
        0 <= k <= s.len(),
        forall|i: int| 0 <= i < k ==> #[trigger] s[i] != 46,
        k < s.len() ==> s[k] == 46,
    ensures
        point(s) == k,
    decreases s.len(),
{
    if s.len() > 0 && k > 0 {
        let t = s.skip(1);
        assert forall|i: int| 0 <= i < k - 1 implies #[trigger] t[i] != 46 by {
            assert(t[i] == s[i + 1]);
        }
        assert(s[0] != 46);
        lemma_point(t, k - 1);
    }
}

/// The decimal point's position is where the first decimal point stands.
pub proof fn lemma_point_is_first(s: Seq<u8>)
    ensures
        0 <= point(s) <= s.len(),
        forall|i: int| 0 <= i < point(s) ==> #[trigger] s[i] != 46,
        point(s) < s.len() ==> s[point(s)] == 46,
    decreases s.len(),
{
    if s.len() > 0 && s[0] != 46 {
        let t = s.skip(1);
        lemma_point_is_first(t);
        assert forall|i: int| 0 <= i < point(s) implies #[trigger] s[i] != 46 by {
            if i > 0 {
                assert(t[i - 1] == s[i]);
            }
        }
        if point(s) < s.len() {
            assert(t[point(t)] == s[point(s)]);
        }
    }
}

/// A byte that cannot continue a mantissa.
proof fn lemma_bad_mantissa(m: Seq<u8>, i: int)
    requires
        0 <= i < m.len(),
        !is_digit(m[i]),
        m[i] == 46 ==> i == 0 || exists|j: int| 0 <= j < i && #[trigger] m[j] == 46,
    ensures
        !mantissa_ok(m),
{
    lemma_point_is_first(m);
    let p = point(m);
    if mantissa_ok(m) {
        if i < p {
            assert(m.take(p)[i] == m[i]);
            assert(false);
        } else if i == p {
            assert(false);
        } else {
            assert(m.skip(p + 1)[i - p - 1] == m[i]);
            assert(false);
        }
    }
}

/// One more digit on a non-negative number, up to the limit of what matters.
fn append_exponent_digit(value: i128, byte: u8) -> (r: i128)
    requires
        0 <= value <= EXPONENT_LIMIT,
        is_digit(byte),
    ensures
        r == (if 10 * value + (byte - 48) > EXPONENT_LIMIT {
            EXPONENT_LIMIT as int
        } else {
            10 * value + (byte - 48)
        }),
{
    let next: i128 = 10 * value + (byte - 48) as i128;
    if next > EXPONENT_LIMIT {
        EXPONENT_LIMIT
    } else {
        next
    }
}

/// An exponent cut down to the range that matters.
spec fn clamped(e: int) -> int {
    if e > EXPONENT_LIMIT {
        EXPONENT_LIMIT as int
    } else if e < -EXPONENT_LIMIT {
        -EXPONENT_LIMIT
    } else {
        e
    }
}

/// Reads the exponent that starts at `from`.
fn parse_exponent(input: &[u8], from: usize) -> (r: Result<i128, ParseFixedError>)
    requires
        from <= input@.len(),
    ensures
        match r {
            Ok(e) => exponent_ok(input@.skip(from as int)) && e == clamped(
                exponent_value(input@.skip(from as int)),
            ),
            Err(error) => !exponent_ok(input@.skip(from as int)) && error
                == ParseFixedError::Syntax,
        },
{
    let ghost e = input@.skip(from as int);
    let negative: bool = from < input.len() && input[from] == 45;
    let signed: bool = from < input.len() && (input[from] == 43 || input[from] == 45);
    let start: usize = if signed {
        from + 1
    } else {
        from
    };
    let ghost digits = without_sign(e);
    assert(digits =~= input@.skip(start as int));
    if start == input.len() {
        return Err(ParseFixedError::Syntax);
    }
    let mut value: i128 = 0;
    let mut i: usize = start;
    while i < input.len()
        invariant
            start <= i <= input@.len(),
            digits =~= input@.skip(start as int),
            digits == without_sign(e),
            e == input@.skip(from as int),
            0 <= value <= EXPONENT_LIMIT,
            all_digits(digits.take(i - start)),
            value == clamped(number_of(digits.take(i - start))),
        decreases input@.len() - i,
    {
        let byte: u8 = input[i];
        assert(digits[i - start] == byte);
        if byte < 48 || byte > 57 {
            return Err(ParseFixedError::Syntax);
        }
        let ghost before = digits.take(i - start);
        let ghost after = digits.take(i - start + 1);
        assert(after.drop_last() =~= before);
        assert(after =~= before.push(byte));
        assert(all_digits(after)) by {
            assert forall|k: int| 0 <= k < after.len() implies is_digit(#[trigger] after[k]) by {
                if k < before.len() {
                    assert(before[k] == after[k]);
                }
            }
        }
        proof {
            lemma_number_bounds(before);
        }
        value = append_exponent_digit(value, byte);
        i = i + 1;
    }
    assert(digits.take(i - start) =~= digits);
    proof {
        lemma_number_bounds(digits);
    }
    if negative {
        Ok(-value)
    } else {
        Ok(value)
    }
}

/// Where the digits of a mantissa stand.
struct Digits {
    /// How many digits there are.
    count: usize,
    /// How many of them stand behind the decimal point.
    fractional: usize,
    /// The index of the first digit that is not zero.
    first: Option<usize>,
    /// The index of the last digit that is not zero.
    last: usize,
}

impl Digits {
    /// Whether this describes a row of digits.
    spec fn describes(&self, ds: Seq<u8>) -> bool {
        &&& self.count == ds.len()
        &&& match self.first {
            None => forall|j: int| 0 <= j < ds.len() ==> #[trigger] ds[j] == 48,
            Some(first) => {
                &&& first <= self.last < ds.len()
                &&& ds[first as int] != 48
                &&& ds[self.last as int] != 48
                &&& forall|j: int| 0 <= j < first ==> #[trigger] ds[j] == 48
                &&& forall|j: int| self.last < j < ds.len() ==> #[trigger] ds[j] == 48
            },
        }
    }
}

/// Reads the mantissa between two positions.
fn scan_mantissa(input: &[u8], start: usize, end: usize) -> (r: Result<Digits, ParseFixedError>)
    requires
        start <= end <= input@.len(),
    ensures
        ({
            let m = input@.subrange(start as int, end as int);
            match r {
                Ok(found) => {
                    &&& mantissa_ok(m)
                    &&& found.describes(digits_of(m))
                    &&& all_digits(digits_of(m))
                    &&& found.fractional == fraction_len(m)
                    &&& found.fractional <= found.count
                },
                Err(error) => !mantissa_ok(m) && error == ParseFixedError::Syntax,
            }
        }),
{
    let ghost m = input@.subrange(start as int, end as int);
    let mut integer_digits: usize = 0;
    let mut fractional: usize = 0;
    let mut count: usize = 0;
    let mut decimal_seen: bool = false;
    let mut first: Option<usize> = None;
    let mut last: usize = 0;
    let mut i: usize = start;
    while i < end
        invariant
            start <= i <= end <= input@.len(),
            m == input@.subrange(start as int, end as int),
            count == integer_digits + fractional,
            decimal_seen ==> 0 < integer_digits && m[integer_digits as int] == 46 && i - start
                == integer_digits + 1 + fractional,
            !decimal_seen ==> fractional == 0 && i - start == integer_digits,
            forall|j: int|
                0 <= j < i - start ==> is_digit(#[trigger] m[j]) || (decimal_seen && j
                    == integer_digits),
            all_digits(digits_of(m.take(i - start))),
            (Digits { count, fractional, first, last }).describes(digits_of(m.take(i - start))),
        decreases end - i,
    {
        let byte: u8 = input[i];
        let ghost before = m.take(i - start);
        let ghost after = m.take(i - start + 1);
        assert(after.drop_last() =~= before);
        assert(m[i - start] == byte);
        if byte == 46 && !decimal_seen && integer_digits > 0 {
            decimal_seen = true;
            i = i + 1;
            continue ;
        }
        if byte < 48 || byte > 57 {
            proof {
                if byte == 46 && decimal_seen {
                    assert(m[integer_digits as int] == 46);
                }
                lemma_bad_mantissa(m, i - start);
            }
            return Err(ParseFixedError::Syntax);
        }
        if decimal_seen {
            fractional = fractional + 1;
        } else {
            integer_digits = integer_digits + 1;
        }
        let ghost old_digits = digits_of(before);
        let ghost new_digits = digits_of(after);
        assert(new_digits == old_digits.push(byte));
        if byte != 48 {
            if first.is_none() {
                first = Some(count);
            }
            last = count;
        }
        count = count + 1;
        i = i + 1;
        proof {
            assert forall|j: int| 0 <= j < new_digits.len() implies is_digit(
                #[trigger] new_digits[j],
            ) by {
                if j < old_digits.len() {
                    assert(old_digits[j] == new_digits[j]);
                }
            }
            assert forall|j: int| 0 <= j < old_digits.len() implies #[trigger] new_digits[j]
                == old_digits[j] by {}
        }
    }
    assert(m.take(i - start) =~= m);
    proof {
        if decimal_seen {
            lemma_point(m, integer_digits as int);
            let a = m.take(integer_digits as int);
            let b = m.skip(integer_digits as int + 1);
            assert forall|j: int| 0 <= j < a.len() implies is_digit(#[trigger] a[j]) by {
                assert(a[j] == m[j]);
            }
            assert forall|j: int| 0 <= j < b.len() implies is_digit(#[trigger] b[j]) by {
                assert(b[j] == m[j + integer_digits + 1]);
            }
        } else {
            lemma_point(m, m.len() as int);
            assert(m.take(m.len() as int) =~= m);
        }
    }
    if integer_digits == 0 || (decimal_seen && fractional == 0) {
        return Err(ParseFixedError::Syntax);
    }
    Ok(Digits { count, fractional, first, last })
}

/// Removing the decimal point from a prefix gives a prefix.
proof fn lemma_digits_of_prefix(m: Seq<u8>, k: int)
    requires
        0 <= k <= m.len(),
    ensures
        digits_of(m.take(k)).len() <= digits_of(m).len(),
        digits_of(m.take(k)) =~= digits_of(m).take(digits_of(m.take(k)).len() as int),
    decreases m.len() - k,
{
    if k == m.len() {
        assert(m.take(k) =~= m);
    } else {
        lemma_digits_of_prefix(m, k + 1);
        assert(m.take(k + 1).drop_last() =~= m.take(k));
    }
}

/// Multiplies a number that is not positive by ten and subtracts a digit, where that fits.
pub(crate) fn append_digit(value: i64, digit: u8) -> (r: Option<i64>)
    requires
        value <= 0,
        digit <= 9,
    ensures
        r == (if 10 * value - digit >= i64::MIN {
            Some((10 * value - digit) as i64)
        } else {
            None
        }),
{
    match value.checked_mul(10) {
        Some(tens) => tens.checked_sub(digit as i64),
        None => None,
    }
}

/// The negated number made of the significant digits, where it fits.
fn negated_significand(
    input: &[u8],
    start: usize,
    end: usize,
    first: usize,
    last: usize,
) -> (r: Option<i64>)
    requires
        start <= end <= input@.len(),
        first <= last < digits_of(input@.subrange(start as int, end as int)).len(),
        all_digits(digits_of(input@.subrange(start as int, end as int))),
        mantissa_ok(input@.subrange(start as int, end as int)),
    ensures
        ({
            let m = input@.subrange(start as int, end as int);
            let n = number_of(digits_of(m).subrange(first as int, last + 1));
            r == (if -n >= i64::MIN {
                Some((-n) as i64)
            } else {
                None
            })
        }),
{
    let ghost m = input@.subrange(start as int, end as int);
    let ghost ds = digits_of(m);
    let ghost significant = ds.subrange(first as int, last + 1);
    assert(all_digits(significant)) by {
        assert forall|j: int| 0 <= j < significant.len() implies is_digit(
            #[trigger] significant[j],
        ) by {
            assert(significant[j] == ds[j + first]);
        }
    }
    let mut value: i64 = 0;
    let mut digit_index: usize = 0;
    let mut i: usize = start;
    assert(significant.take(0) =~= Seq::<u8>::empty());
    assert(m.take(0) =~= Seq::<u8>::empty());
    while i < end
        invariant
            start <= i <= end <= input@.len(),
            m == input@.subrange(start as int, end as int),
            ds == digits_of(m),
            all_digits(ds),
            first <= last < ds.len(),
            significant == ds.subrange(first as int, last + 1),
            all_digits(significant),
            digit_index == digits_of(m.take(i - start)).len(),
            digit_index <= i - start,
            value <= 0,
            value == -number_of(
                significant.take(
                    if digit_index <= first {
                        0
                    } else if digit_index <= last {
                        digit_index - first
                    } else {
                        last + 1 - first
                    },
                ),
            ),
        decreases end - i,
    {
        let byte: u8 = input[i];
        let ghost before = m.take(i - start);
        let ghost after = m.take(i - start + 1);
        assert(after.drop_last() =~= before);
        assert(after.last() == byte);
        if byte == 46 {
            i = i + 1;
            continue ;
        }
        proof {
            lemma_digits_of_prefix(m, i - start + 1);
            assert(digits_of(after)[digit_index as int] == byte);
            assert(ds[digit_index as int] == byte);
            assert(is_digit(ds[digit_index as int]));
        }
        if digit_index >= first && digit_index <= last {
            let ghost k = digit_index - first;
            proof {
                assert(significant.take(k + 1).drop_last() =~= significant.take(k));
                assert(significant[k] == ds[digit_index as int]);
                lemma_number_grows(significant, k + 1);
            }
            match append_digit(value, byte - 48) {
                Some(next) => {
                    value = next;
                },
                None => {
                    return None;
                },
            }
            proof {
                let shorter = significant.take(k + 1);
                assert forall|j: int| 0 <= j < shorter.len() implies is_digit(
                    #[trigger] shorter[j],
                ) by {
                    assert(shorter[j] == significant[j]);
                }
                lemma_number_bounds(shorter);
            }
        }
        digit_index = digit_index + 1;
        i = i + 1;
    }
    assert(m.take(i - start) =~= m);
    assert(significant.take(last + 1 - first) =~= significant);
    Some(value)
}

/// Multiplies a number that is not positive by a power of ten, where that fits.
pub(crate) fn shift_left(value: i64, shift: usize) -> (r: Option<i64>)
    requires
        value <= 0,
    ensures
        r == (if value * pow10(shift as int) >= i64::MIN {
            Some((value * pow10(shift as int)) as i64)
        } else {
            None
        }),
{
    let mut shifted: i64 = value;
    let mut i: usize = 0;
    assert(value * 1 == value);
    while i < shift
        invariant
            i <= shift,
            value <= 0,
            shifted <= 0,
            shifted == value * pow10(i as int),
        decreases shift - i,
    {
        proof {
            let p = pow10(i as int);
            let q = pow10(shift as int);
            let more = pow10(i + 1);
            assert(more == 10 * p);
            assert(value * more == 10 * (value * p)) by (nonlinear_arith)
                requires
                    more == 10 * p,
            ;
            lemma_pow10_grows(i + 1, shift as int);
            assert(value * q <= value * more) by (nonlinear_arith)
                requires
                    value <= 0,
                    more <= q,
            ;
        }
        match append_digit(shifted, 0) {
            Some(next) => {
                shifted = next;
            },
            None => {
                return None;
            },
        }
        i = i + 1;
    }
    Some(shifted)
}

/// The parts of a row of digits: zeros, the significant digits, and zeros again.
proof fn lemma_significant(ds: Seq<u8>, first: int, last: int)
    requires
        all_digits(ds),
        0 <= first <= last < ds.len(),
        ds[first] != 48,
        ds[last] != 48,
        forall|j: int| 0 <= j < first ==> #[trigger] ds[j] == 48,
        forall|j: int| last < j < ds.len() ==> #[trigger] ds[j] == 48,
    ensures
        ({
            let n = number_of(ds.subrange(first, last + 1));
            &&& number_of(ds) == n * pow10(ds.len() - last - 1)
            &&& n >= pow10(last - first)
            &&& n % 10 != 0
        }),
{
    let leading = ds.take(first);
    let middle = ds.subrange(first, last + 1);
    let trailing = ds.skip(last + 1);
    let n = number_of(middle);
    assert(all_digits(middle)) by {
        assert forall|j: int| 0 <= j < middle.len() implies is_digit(#[trigger] middle[j]) by {
            assert(middle[j] == ds[j + first]);
        }
    }
    assert(ds =~= leading + middle + trailing);
    lemma_zeros(leading);
    assert forall|j: int| 0 <= j < trailing.len() implies #[trigger] trailing[j] == 48 by {
        assert(trailing[j] == ds[j + last + 1]);
    }
    lemma_zeros(trailing);
    lemma_number_of_joined(leading, middle);
    lemma_number_of_joined(leading + middle, trailing);
    assert(0 * pow10(middle.len() as int) == 0);
    lemma_number_at_least(middle);
    assert(is_digit(middle[middle.len() - 1]));
    assert(middle.last() == ds[last]);
    assert(n == 10 * number_of(middle.drop_last()) + (middle.last() - 48));
    assert(1 <= middle.last() - 48 <= 9);
}

/// Nineteen zeros are more than an `i64` can hold.
proof fn lemma_nineteen_zeros(n: int)
    requires
        n >= 19,
    ensures
        pow10(n) > -i64::MIN,
{
    reveal_with_fuel(pow10, 20);
    lemma_pow10_grows(19, n);
}

/// Parses a decimal field without rounding or passing through floating point.
///
/// The result is the exact value in units of `10^-8`.
#[verifier::spinoff_prover]
#[verifier::rlimit(60)]
pub fn parse_fixed(input: &[u8]) -> (r: Result<i64, ParseFixedError>)
    ensures
        r == fixed_value(input@),
{
    let negative: bool = input.len() > 0 && input[0] == 45;
    let signed: bool = input.len() > 0 && (input[0] == 43 || input[0] == 45);
    let start: usize = if signed {
        1
    } else {
        0
    };
    let ghost u = without_sign(input@);
    assert(u =~= input@.skip(start as int));
    let mut end: usize = start;
    while end < input.len() && input[end] != 101 && input[end] != 69
        invariant
            start <= end <= input@.len(),
            u =~= input@.skip(start as int),
            forall|i: int| 0 <= i < end - start ==> !is_exponent_mark(#[trigger] u[i]),
        decreases input@.len() - end,
    {
        assert(u[end - start] == input@[end as int]);
        end = end + 1;
    }
    proof {
        if end < input@.len() {
            assert(u[end - start] == input@[end as int]);
        }
        lemma_exponent_mark(u, end - start);
    }
    let ghost m = input@.subrange(start as int, end as int);
    assert(m =~= mantissa_of(u));
    let exponent: i128 = if end < input.len() {
        assert(exponent_of(u) =~= input@.skip(end + 1));
        match parse_exponent(input, end + 1) {
            Ok(exponent) => exponent,
            Err(error) => {
                return Err(error);
            },
        }
    } else {
        0
    };
    let digits = match scan_mantissa(input, start, end) {
        Ok(digits) => digits,
        Err(error) => {
            return Err(error);
        },
    };
    let ghost ds = digits_of(m);
    let first: usize = match digits.first {
        Some(first) => first,
        None => {
            proof {
                lemma_zeros(ds);
                lemma_scaled_zero(power_of(input@));
            }
            return Ok(0);
        },
    };
    let significant: usize = digits.last - first + 1;
    let trailing: usize = digits.count - digits.last - 1;
    let ghost n = number_of(ds.subrange(first as int, digits.last + 1));
    let ghost real_shift = power_of(input@) + trailing;
    proof {
        lemma_significant(ds, first as int, digits.last as int);
        lemma_pow10_positive(digits.last - first);
        lemma_scaled_trailing(n, trailing as int, power_of(input@));
    }
    let shift: i128 = exponent + 8 - digits.fractional as i128 + trailing as i128;
    if shift < 0 {
        return Err(ParseFixedError::Precision);
    }
    if significant > 19 || shift > (19 - significant) as i128 {
        proof {
            assert(real_shift >= 0);
            lemma_pow10_adds(significant - 1, real_shift);
            lemma_nineteen_zeros(significant - 1 + real_shift);
            lemma_pow10_positive(real_shift);
            let p = pow10(real_shift);
            let q = pow10(significant - 1);
            assert(n * p >= q * p) by (nonlinear_arith)
                requires
                    n >= q,
                    p > 0,
            ;
        }
        return Err(ParseFixedError::Overflow);
    }
    assert(real_shift == shift);
    proof {
        lemma_pow10_positive(shift as int);
        let p = pow10(shift as int);
        assert((-n) * p == -(n * p)) by (nonlinear_arith);
        assert(n * p >= n) by (nonlinear_arith)
            requires
                n > 0,
                p >= 1,
        ;
    }
    let value: i64 = match negated_significand(input, start, end, first, digits.last) {
        Some(value) => value,
        None => {
            return Err(ParseFixedError::Overflow);
        },
    };
    let value: i64 = match shift_left(value, shift as usize) {
        Some(value) => value,
        None => {
            return Err(ParseFixedError::Overflow);
        },
    };
    if negative {
        Ok(value)
    } else if value == i64::MIN {
        Err(ParseFixedError::Overflow)
    } else {
        Ok(-value)
    }
}

/// The decimal that a stored value stands for.
pub fn decode_fixed(value: i64) -> (r: Decimal)
    ensures
        r == Decimal::of(value as i128, DATA_SCALE),
        r.mantissa_part() == value,
        r.scale_part() == DATA_SCALE,
        r@ == value_of(value as int, DATA_SCALE as int),
{
    Decimal::new(value, DATA_SCALE)
}

} // verus!
