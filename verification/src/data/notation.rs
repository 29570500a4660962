//! In which ways the notation of a number may vary without its value.
use vstd::arithmetic::div_mod::lemma_fundamental_div_mod;
use vstd::arithmetic::div_mod::lemma_fundamental_div_mod_converse;
use vstd::prelude::*;
use vstd::utf8::encode_utf8;
use vstd::utf8::is_ascii_chars;
use vstd::utf8::is_ascii_chars_encode_utf8;

use crate::data::digits::all_digits;
use crate::data::digits::is_digit;
use crate::data::digits::lemma_number_bounds;
use crate::data::digits::lemma_number_grows;
use crate::data::digits::lemma_number_of_joined;
use crate::data::digits::number_of;
use crate::data::digits::scaled;
use crate::data::fixed::digits_of;
use crate::data::fixed::exponent_mark;
use crate::data::fixed::exponent_of;
use crate::data::fixed::fixed_value;
use crate::data::fixed::fraction_len;
use crate::data::fixed::has_sign;
use crate::data::fixed::is_exponent_mark;
use crate::data::fixed::is_negative;
use crate::data::fixed::lemma_exponent_mark;
use crate::data::fixed::lemma_point;
use crate::data::fixed::lemma_point_is_first;
use crate::data::fixed::magnitude_of;
use crate::data::fixed::mantissa_ok;
use crate::data::fixed::mantissa_of;
use crate::data::fixed::point;
use crate::data::fixed::power_of;
use crate::data::fixed::without_sign;
use crate::data::fixed::ParseFixedError;
use crate::data::fixed::DATA_SCALE;
use crate::data::npy::ascii;
use crate::data::plain::fault;
use crate::data::plain::first_eight;
use crate::data::plain::first_fault;
use crate::data::plain::fraction;
use crate::data::plain::kept;
use crate::data::plain::lemma_digits_of;
use crate::data::plain::lemma_next;
use crate::data::plain::lemma_no_fault;
use crate::data::plain::plain_agrees_with_fixed;
use crate::data::plain::plain_value;
use crate::decimal::decimal_text;
use crate::decimal::lemma_pow10_positive;
use crate::decimal::magnitude_text;
use crate::decimal::pow10;

verus! {

/// A field with a byte in front of it.
pub open spec fn behind(byte: u8, s: Seq<u8>) -> Seq<u8> {
    seq![byte] + s
}

/// A byte in front leaves the rest behind it.
proof fn lemma_behind(byte: u8, s: Seq<u8>)
    ensures
        behind(byte, s).skip(1) == s,
        behind(byte, s)[0] == byte,
        behind(byte, s).len() == s.len() + 1,
{
    assert(behind(byte, s).skip(1) =~= s);
}

/// The digits of a mantissa stand for a number that is not negative.
proof fn lemma_mantissa_digits(m: Seq<u8>)
    requires
        mantissa_ok(m),
    ensures
        digits_of(m) == m.take(point(m)) + fraction(m),
        all_digits(digits_of(m)),
        number_of(digits_of(m)) >= 0,
{
    lemma_point_is_first(m);
    let p = point(m);
    assert forall|i: int| 0 <= i < m.len() && i != p implies #[trigger] m[i] != 46 by {
        if i < p {
            assert(m.take(p)[i] == m[i]);
        } else {
            assert(m.skip(p + 1)[i - p - 1] == m[i]);
        }
    }
    lemma_digits_of(m);
    let ds = digits_of(m);
    assert forall|i: int| 0 <= i < ds.len() implies is_digit(#[trigger] ds[i]) by {
        if i < p {
            assert(ds[i] == m.take(p)[i]);
        } else {
            assert(ds[i] == m.skip(p + 1)[i - p]);
        }
    }
    lemma_number_bounds(ds);
}

/// A number times a power of ten has the number's sign.
proof fn lemma_scaled_sign(number: int, power: int)
    requires
        number >= 0,
    ensures
        scaled(number, power) matches Some(m) ==> m >= 0,
{
    lemma_pow10_positive(power);
    lemma_pow10_positive(-power);
    let p = pow10(power);
    let q = pow10(-power);
    assert(number * p >= 0) by (nonlinear_arith)
        requires
            number >= 0,
            p > 0,
    ;
    assert(number / q >= 0) by (nonlinear_arith)
        requires
            number >= 0,
            q > 0,
    ;
}

/// A number without a sign is not negative. With a plus sign it is the same number, and with a minus
/// sign its negative.
pub proof fn signs_of_numbers(s: Seq<u8>)
    requires
        !has_sign(s),
        fixed_value(s) is Ok,
    ensures
        fixed_value(s)->Ok_0 >= 0,
        fixed_value(behind(43, s)) == fixed_value(s),
        fixed_value(behind(45, s)) == Ok::<i64, ParseFixedError>((-fixed_value(s)->Ok_0) as i64),
{
    lemma_behind(43, s);
    lemma_behind(45, s);
    assert(without_sign(behind(43, s)) == s);
    assert(without_sign(behind(45, s)) == s);
    lemma_mantissa_digits(mantissa_of(s));
    lemma_scaled_sign(number_of(digits_of(mantissa_of(s))), power_of(s));
}

/// A plain number without a sign is not negative. With a plus sign it is the same number, and with a
/// minus sign its negative.
pub proof fn signs_of_plain_numbers(s: Seq<u8>)
    requires
        !has_sign(s),
        plain_value(s) is Ok,
    ensures
        plain_value(s)->Ok_0 >= 0,
        plain_value(behind(43, s)) == plain_value(s),
        plain_value(behind(45, s)) == Ok::<i64, ParseFixedError>((-plain_value(s)->Ok_0) as i64),
{
    lemma_behind(43, s);
    lemma_behind(45, s);
    assert(without_sign(behind(43, s)) == s);
    assert(without_sign(behind(45, s)) == s);
    plain_agrees_with_fixed(s);
    signs_of_numbers(s);
}

/// A zero in front of digits adds nothing to their number.
proof fn lemma_zero_in_front(ds: Seq<u8>)
    ensures
        number_of(behind(48, ds)) == number_of(ds),
{
    let zero = seq![48u8];
    assert(zero.drop_last() =~= Seq::<u8>::empty());
    assert(number_of(zero.drop_last()) == 0);
    assert(number_of(zero) == 0);
    lemma_number_of_joined(zero, ds);
    assert(0 * pow10(ds.len() as int) == 0);
}

/// A leading zero does not change a number.
pub proof fn a_leading_zero_changes_nothing(s: Seq<u8>)
    requires
        !has_sign(s),
        fixed_value(s) is Ok,
    ensures
        fixed_value(behind(48, s)) == fixed_value(s),
{
    let z = behind(48, s);
    lemma_behind(48, s);
    assert(exponent_mark(z) == 1 + exponent_mark(s));
    let m = mantissa_of(s);
    let n = mantissa_of(z);
    lemma_exponent_mark_in(s);
    assert(n =~= behind(48, m));
    if exponent_mark(s) < s.len() {
        assert(exponent_of(z) =~= exponent_of(s));
    }
    lemma_behind(48, m);
    assert(point(n) == 1 + point(m));
    lemma_point_is_first(m);
    let p = point(m);
    assert(n.take(p + 1) =~= behind(48, m.take(p)));
    assert(all_digits(n.take(p + 1))) by {
        assert forall|i: int| 0 <= i < p + 1 implies is_digit(#[trigger] n.take(p + 1)[i]) by {
            if i > 0 {
                assert(n.take(p + 1)[i] == m.take(p)[i - 1]);
            }
        }
    }
    if p < m.len() {
        assert(n.skip(p + 2) =~= m.skip(p + 1));
    }
    assert(mantissa_ok(n));
    lemma_mantissa_digits(m);
    lemma_mantissa_digits(n);
    assert(fraction(n) =~= fraction(m));
    assert(digits_of(n) =~= behind(48, digits_of(m)));
    lemma_zero_in_front(digits_of(m));
    assert(fraction_len(n) == fraction_len(m));
}

/// The exponent mark is within the field.
proof fn lemma_exponent_mark_in(s: Seq<u8>)
    ensures
        0 <= exponent_mark(s) <= s.len(),
    decreases s.len(),
{
    if s.len() > 0 && !is_exponent_mark(s[0]) {
        lemma_exponent_mark_in(s.skip(1));
    }
}

/// Ten times a number at a tenth of its scale is the same.
proof fn lemma_scaled_tenfold(number: int, power: int)
    requires
        scaled(number, power) is Some,
    ensures
        scaled(10 * number, power - 1) == scaled(number, power),
{
    if power >= 1 {
        let p = pow10(power - 1);
        assert(pow10(power) == 10 * p);
        assert((10 * number) * p == number * (10 * p)) by (nonlinear_arith);
    } else if power == 0 {
        assert(pow10(0) == 1);
        assert(pow10(1) == 10 * pow10(0));
        assert(number * 1 == number);
    } else {
        let q = pow10(-power);
        lemma_pow10_positive(-power);
        assert(pow10(-(power - 1)) == 10 * q);
        lemma_fundamental_div_mod(number, q);
        let k = number / q;
        assert(10 * number == k * (10 * q) + 0) by (nonlinear_arith)
            requires
                number == q * k,
        ;
        lemma_fundamental_div_mod_converse(10 * number, 10 * q, k, 0);
    }
}

/// A zero behind the last digit of a fraction does not change a number.
pub proof fn a_trailing_zero_changes_nothing(s: Seq<u8>)
    requires
        fixed_value(s) is Ok,
        exponent_mark(without_sign(s)) == without_sign(s).len(),
        point(without_sign(s)) < without_sign(s).len(),
    ensures
        fixed_value(s.push(48)) == fixed_value(s),
{
    let u = without_sign(s);
    let t = s.push(48);
    let w = u.push(48);
    assert(t[0] == s[0]);
    assert(without_sign(t) =~= w);
    lemma_no_exponent_mark(u);
    assert forall|i: int| 0 <= i < w.len() implies !is_exponent_mark(#[trigger] w[i]) by {
        if i < u.len() {
            assert(w[i] == u[i]);
        }
    }
    lemma_exponent_mark(w, w.len() as int);
    assert(mantissa_of(u) =~= u);
    assert(mantissa_of(w) =~= w);
    lemma_point_is_first(u);
    let p = point(u);
    assert forall|i: int| 0 <= i < p implies #[trigger] w[i] != 46 by {
        assert(w[i] == u[i]);
    }
    lemma_point(w, p);
    assert(w.take(p) =~= u.take(p));
    assert(w.skip(p + 1) =~= u.skip(p + 1).push(48));
    assert(all_digits(w.skip(p + 1))) by {
        assert forall|i: int| 0 <= i < w.skip(p + 1).len() implies is_digit(
            #[trigger] w.skip(p + 1)[i],
        ) by {
            if i < u.skip(p + 1).len() {
                assert(w.skip(p + 1)[i] == u.skip(p + 1)[i]);
            }
        }
    }
    lemma_mantissa_digits(u);
    lemma_mantissa_digits(w);
    assert(digits_of(w) =~= digits_of(u).push(48));
    assert(digits_of(w).drop_last() =~= digits_of(u));
    let n = number_of(digits_of(u));
    assert(number_of(digits_of(w)) == 10 * n);
    assert(power_of(t) == power_of(s) - 1);
    lemma_scaled_tenfold(n, power_of(s));
    assert(magnitude_of(t) == magnitude_of(s));
}

/// Where there is no exponent, no byte is an exponent mark.
proof fn lemma_no_exponent_mark(s: Seq<u8>)
    requires
        exponent_mark(s) == s.len(),
    ensures
        forall|i: int| 0 <= i < s.len() ==> !is_exponent_mark(#[trigger] s[i]),
    decreases s.len(),
{
    if s.len() > 0 {
        let t = s.skip(1);
        lemma_exponent_mark_in(t);
        lemma_no_exponent_mark(t);
        assert forall|i: int| 0 <= i < s.len() implies !is_exponent_mark(#[trigger] s[i]) by {
            if i > 0 {
                assert(s[i] == t[i - 1]);
            }
        }
    }
}

/// A leading zero makes no fault.
proof fn lemma_leading_zero_faultless(s: Seq<u8>)
    requires
        first_fault(s) is None,
    ensures
        first_fault(behind(48, s)) is None,
        point(behind(48, s)) == 1 + point(s),
        fraction(behind(48, s)) == fraction(s),
        number_of(kept(behind(48, s))) == number_of(kept(s)),
    decreases s.len(),
{
    let z = behind(48, s);
    lemma_behind(48, s);
    lemma_point_is_first(s);
    assert(point(z) == 1 + point(s));
    assert(fraction(z) =~= fraction(s));
    assert(kept(z) =~= behind(48, kept(s)));
    lemma_zero_in_front(kept(s));
    if s.len() == 0 {
        assert(z.drop_last() =~= Seq::<u8>::empty());
        assert(first_fault(z.drop_last()) is None);
        assert(kept(s) =~= Seq::<u8>::empty());
        assert(fault(z) is None);
    } else {
        lemma_leading_zero_faultless(s.drop_last());
        assert(z.drop_last() =~= behind(48, s.drop_last()));
        assert(z[z.len() - 1] == s[s.len() - 1]);
        assert(fault(z) is None);
    }
}

/// A leading zero does not change a plain number.
pub proof fn a_leading_zero_changes_no_plain_number(s: Seq<u8>)
    requires
        !has_sign(s),
        plain_value(s) is Ok,
    ensures
        plain_value(behind(48, s)) == plain_value(s),
{
    lemma_behind(48, s);
    lemma_point_is_first(s);
    lemma_leading_zero_faultless(s);
}

/// A zero behind the last digit of a fraction does not change a plain number.
pub proof fn a_trailing_zero_changes_no_plain_number(s: Seq<u8>)
    requires
        plain_value(s) is Ok,
        point(without_sign(s)) < without_sign(s).len(),
    ensures
        plain_value(s.push(48)) == plain_value(s),
{
    let u = without_sign(s);
    let t = s.push(48);
    let w = u.push(48);
    assert(t[0] == s[0]);
    assert(without_sign(t) =~= w);
    lemma_next(u, 48);
    lemma_no_fault(u);
    let n = number_of(kept(u));
    let f = fraction(u);
    assert(all_digits(kept(u))) by {
        lemma_point_is_first(u);
        assert forall|i: int| 0 <= i < kept(u).len() implies is_digit(#[trigger] kept(u)[i]) by {
            if i < point(u) {
                assert(kept(u)[i] == u[i]);
            } else {
                assert(kept(u)[i] == u[i + 1]);
            }
        }
    }
    lemma_number_bounds(kept(u));
    if f.len() >= 8 {
        assert(first_eight(fraction(w)) =~= first_eight(f));
        assert(fault(w) is None);
    } else {
        assert(kept(w).drop_last() =~= kept(u));
        assert(number_of(kept(w)) == 10 * n);
        let p = pow10(8 - f.len() - 1);
        lemma_pow10_positive(8 - f.len() - 1);
        assert(pow10(8 - f.len()) == 10 * p);
        assert((10 * n) * p == n * (10 * p)) by (nonlinear_arith);
        assert(n * (10 * p) >= 10 * n) by (nonlinear_arith)
            requires
                n >= 0,
                p >= 1,
        ;
        assert(fault(w) is None);
    }
}

/// The digits of a number stand for it.
proof fn lemma_digits_of_number(n: nat, least: nat)
    ensures
        number_of(ascii(crate::decimal::digits_of(n, least))) == n,
        all_digits(ascii(crate::decimal::digits_of(n, least))),
        crate::decimal::digits_of(n, least).len() >= least,
        forall|i: int|
            0 <= i < crate::decimal::digits_of(n, least).len() ==> 48 <= #[trigger]
                crate::decimal::digits_of(n, least)[i] as int <= 57,
    decreases n, least,
{
    let ds = crate::decimal::digits_of(n, least);
    if n == 0 && least == 0 {
        assert(ascii(ds) =~= Seq::<u8>::empty());
    } else {
        let rest = if least == 0 {
            0nat
        } else {
            (least - 1) as nat
        };
        let front = crate::decimal::digits_of(n / 10, rest);
        lemma_digits_of_number(n / 10, rest);
        let c = (48 + n % 10) as char;
        assert(ds == front.push(c));
        assert(ascii(ds).drop_last() =~= ascii(front));
        assert(ascii(ds).last() == 48 + n % 10);
        assert forall|i: int| 0 <= i < ds.len() implies 48 <= #[trigger] ds[i] as int <= 57 by {
            if i < front.len() {
                assert(ds[i] == front[i]);
            }
        }
        assert(all_digits(ascii(ds))) by {
            assert forall|i: int| 0 <= i < ascii(ds).len() implies is_digit(
                #[trigger] ascii(ds)[i],
            ) by {
                if i < front.len() {
                    assert(ascii(ds)[i] == ascii(front)[i]);
                }
            }
        }
    }
}

/// Digits with a point before the last eight of them have no fault, where their number can be held.
proof fn lemma_pointed_faultless(ds: Seq<u8>, j: int)
    requires
        all_digits(ds),
        ds.len() >= 9,
        number_of(ds) <= -i64::MIN,
        0 <= j <= ds.len() + 1,
    ensures
        ({
            let p = ds.len() - 8;
            let u = ds.take(p) + seq![46u8] + ds.skip(p);
            let t = u.take(j);
            &&& first_fault(t) is None
            &&& point(t) == (if j <= p {
                j
            } else {
                p
            })
            &&& kept(t) == ds.take(
                if j <= p {
                    j
                } else {
                    j - 1
                },
            )
            &&& fraction(t).len() <= 8
        }),
    decreases j,
{
    let p = ds.len() - 8;
    let u = ds.take(p) + seq![46u8] + ds.skip(p);
    let t = u.take(j);
    if j == 0 {
        assert(t =~= Seq::<u8>::empty());
        assert(kept(t) =~= ds.take(0));
    } else {
        let s = u.take(j - 1);
        lemma_pointed_faultless(ds, j - 1);
        assert(t =~= s.push(u[j - 1]));
        lemma_next(s, u[j - 1]);
        if j <= p {
            assert(u[j - 1] == ds[j - 1]);
            assert(kept(t) =~= ds.take(j));
        } else if j == p + 1 {
            assert(u[j - 1] == 46);
            assert(kept(t) =~= ds.take(j - 1));
        } else {
            assert(u[j - 1] == ds[j - 2]);
            assert(fraction(s).len() == j - 1 - p - 1);
            assert(kept(t) =~= ds.take(j - 1));
        }
        lemma_number_grows(
            ds,
            if j <= p {
                j
            } else {
                j - 1
            },
        );
    }
}

/// A stored value that is written out in decimal notation is read back as it was, by both readers of
/// number fields.
pub proof fn written_values_are_read_back(value: i64)
    ensures
        plain_value(encode_utf8(decimal_text(value as int, DATA_SCALE as nat))) == Ok::<
            i64,
            ParseFixedError,
        >(value),
        fixed_value(encode_utf8(decimal_text(value as int, DATA_SCALE as nat))) == Ok::<
            i64,
            ParseFixedError,
        >(value),
{
    let text = decimal_text(value as int, 8);
    let magnitude: nat = if value < 0 {
        (-value) as nat
    } else {
        value as nat
    };
    let digits = crate::decimal::digits_of(magnitude, 9);
    let ds = ascii(digits);
    lemma_digits_of_number(magnitude, 9);
    let p = ds.len() - 8;
    let u = ds.take(p) + seq![46u8] + ds.skip(p);
    let plain = magnitude_text(magnitude, 8);
    assert(ascii(plain) =~= u);
    assert forall|i: int| 0 <= i < plain.len() implies 46 <= #[trigger] plain[i] as int <= 57 by {
        if i < p {
            assert(plain[i] == digits[i]);
        } else if i > p {
            assert(plain[i] == digits[i - 1]);
        }
    }
    assert(is_ascii_chars(text)) by {
        assert forall|i: int| 0 <= i < text.len() implies '\0' <= #[trigger] text[i] <= '\u{7f}' by {
            if value < 0 && i > 0 {
                assert(text[i] == plain[i - 1]);
            } else if value >= 0 {
                assert(text[i] == plain[i]);
            }
        }
    }
    is_ascii_chars_encode_utf8(text);
    let bytes = encode_utf8(text);
    assert(bytes =~= ascii(text));
    if value < 0 {
        assert(bytes =~= behind(45, u));
        lemma_behind(45, u);
    } else {
        assert(bytes =~= u);
        assert(u[0] == ds[0]);
        assert(is_digit(ds[0]));
    }
    assert(without_sign(bytes) =~= u);
    lemma_pointed_faultless(ds, (ds.len() + 1) as int);
    assert(u.take((ds.len() + 1) as int) =~= u);
    assert(ds.take(ds.len() as int) =~= ds);
    assert(first_eight(fraction(u)).len() == 8);
    assert(pow10(0) == 1);
    plain_agrees_with_fixed(bytes);
}

/// A power of ten that is one higher makes a number ten times as large.
proof fn lemma_scaled_step(number: int, power: int, value: int)
    ensures
        scaled(number, power) == Some(value) ==> scaled(number, power + 1) == Some(10 * value),
        scaled(number, power + 1) == Some(10 * value) ==> scaled(number, power) == Some(value),
{
    if power >= 0 {
        let p = pow10(power);
        assert(pow10(power + 1) == 10 * p);
        assert(number * (10 * p) == 10 * (number * p)) by (nonlinear_arith);
    } else {
        let q = pow10(-power - 1);
        lemma_pow10_positive(-power - 1);
        assert(pow10(-power) == 10 * q);
        assert(pow10(-(power + 1)) == q);
        assert((10 * value) * q == value * (10 * q)) by (nonlinear_arith);
        if power == -1 {
            assert(pow10(0) == 1);
            assert(number * 1 == number);
        }
        if scaled(number, power) == Some(value) {
            lemma_fundamental_div_mod(number, 10 * q);
            assert(number == (10 * value) * q + 0) by (nonlinear_arith)
                requires
                    number == (10 * q) * value,
            ;
            lemma_fundamental_div_mod_converse(number, q, 10 * value, 0);
        }
        if scaled(number, power + 1) == Some(10 * value) {
            if power < -1 {
                lemma_fundamental_div_mod(number, q);
                assert(number == value * (10 * q) + 0) by (nonlinear_arith)
                    requires
                        number == q * (10 * value),
                ;
            }
            assert(number == value * (10 * q) + 0);
            lemma_fundamental_div_mod_converse(number, 10 * q, value, 0);
        }
    }
}

/// A power of ten that is higher by some steps makes a number as many times larger.
proof fn lemma_scaled_steps(number: int, power: int, steps: int, value: int)
    requires
        steps >= 0,
    ensures
        scaled(number, power) == Some(value) ==> scaled(number, power + steps) == Some(
            value * pow10(steps),
        ),
        scaled(number, power + steps) == Some(value * pow10(steps)) ==> scaled(number, power)
            == Some(value),
    decreases steps,
{
    if steps == 0 {
        assert(value * 1 == value);
    } else {
        let p = pow10(steps - 1);
        lemma_scaled_steps(number, power, steps - 1, value);
        lemma_scaled_step(number, power + steps - 1, value * p);
        assert(pow10(steps) == 10 * p);
        assert(value * (10 * p) == 10 * (value * p)) by (nonlinear_arith);
    }
}

/// A field with an exponent behind it.
pub open spec fn with_exponent(s: Seq<u8>, mark: u8, exponent: Seq<u8>) -> Seq<u8> {
    s + seq![mark] + exponent
}

/// The parts of a field that has an exponent behind it.
proof fn lemma_with_exponent(s: Seq<u8>, mark: u8, exponent: Seq<u8>)
    requires
        fixed_value(s) is Ok,
        exponent_mark(without_sign(s)) == without_sign(s).len(),
        is_exponent_mark(mark),
    ensures
        ({
            let t = with_exponent(s, mark, exponent);
            let u = without_sign(t);
            &&& is_negative(t) == is_negative(s)
            &&& exponent_mark(u) < u.len()
            &&& mantissa_of(u) == mantissa_of(without_sign(s))
            &&& exponent_of(u) == exponent
        }),
{
    let t = with_exponent(s, mark, exponent);
    let v = without_sign(s);
    let u = without_sign(t);
    lemma_no_exponent_mark(v);
    assert(mantissa_of(v) =~= v);
    lemma_point_is_first(v);
    assert(v.len() > 0);
    assert(t[0] == s[0]);
    assert(u =~= with_exponent(v, mark, exponent));
    let k = v.len() as int;
    assert forall|i: int| 0 <= i < k implies !is_exponent_mark(#[trigger] u[i]) by {
        assert(u[i] == v[i]);
    }
    assert(u[k] == mark);
    lemma_exponent_mark(u, k);
    assert(mantissa_of(u) =~= v);
    assert(exponent_of(u) =~= exponent);
}

/// An exponent, behind a large or a small mark, moves the decimal point of a number: with a plus sign
/// or none, the number is multiplied by that power of ten, and with a minus sign it is divided. A
/// product that is too large is refused, and so is a quotient that is no whole number of units.
pub proof fn an_exponent_moves_the_point(s: Seq<u8>, mark: u8, digits: Seq<u8>, quotient: i64)
    requires
        fixed_value(s) is Ok,
        exponent_mark(without_sign(s)) == without_sign(s).len(),
        mark == 69 || mark == 101,
        digits.len() > 0,
        all_digits(digits),
    ensures
        ({
            let value = fixed_value(s)->Ok_0;
            let factor = pow10(number_of(digits));
            let larger = fixed_value(with_exponent(s, mark, digits));
            let smaller = fixed_value(with_exponent(s, mark, behind(45, digits)));
            &&& fixed_value(with_exponent(s, mark, behind(43, digits))) == larger
            &&& larger is Ok <==> i64::MIN <= value * factor <= i64::MAX
            &&& larger is Ok ==> larger->Ok_0 == value * factor
            &&& larger is Err ==> larger->Err_0 == ParseFixedError::Overflow
            &&& smaller is Ok ==> smaller->Ok_0 * factor == value
            &&& quotient * factor == value ==> smaller == Ok::<i64, ParseFixedError>(quotient)
            &&& smaller is Err ==> smaller->Err_0 == ParseFixedError::Precision
        }),
{
    let u = without_sign(s);
    let plus = behind(43, digits);
    let minus = behind(45, digits);
    lemma_with_exponent(s, mark, digits);
    lemma_with_exponent(s, mark, plus);
    lemma_with_exponent(s, mark, minus);
    lemma_behind(43, digits);
    lemma_behind(45, digits);
    assert(is_digit(digits[0]));
    assert(without_sign(digits) == digits);
    let n = number_of(digits);
    lemma_number_bounds(digits);
    lemma_mantissa_digits(mantissa_of(u));
    let x = number_of(digits_of(mantissa_of(u)));
    let p = power_of(s);
    let larger = with_exponent(s, mark, digits);
    let smaller = with_exponent(s, mark, minus);
    assert(power_of(larger) == p + n);
    assert(power_of(with_exponent(s, mark, plus)) == p + n);
    assert(power_of(smaller) == p - n);
    let m = magnitude_of(s)->0;
    let f = pow10(n);
    lemma_pow10_positive(n);
    lemma_scaled_sign(x, p);
    lemma_scaled_sign(x, p - n);
    lemma_scaled_steps(x, p, n, m);
    assert((-m) * f == -(m * f)) by (nonlinear_arith);
    if magnitude_of(smaller) is Some {
        let w = magnitude_of(smaller)->0;
        lemma_scaled_steps(x, p - n, n, w);
        assert((-w) * f == -(w * f)) by (nonlinear_arith);
        assert(w <= w * f) by (nonlinear_arith)
            requires
                w >= 0,
                f > 0,
        ;
    }
    let v = fixed_value(s)->Ok_0;
    if quotient * f == v {
        let w: int = if is_negative(s) {
            -quotient
        } else {
            quotient as int
        };
        assert((-quotient) * f == -(quotient * f)) by (nonlinear_arith);
        lemma_scaled_steps(x, p - n, n, w);
    }
}

} // verus!
