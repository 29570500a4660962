//! Number fields without an exponent.
use vstd::arithmetic::div_mod::lemma_fundamental_div_mod_converse;
use vstd::prelude::*;

use crate::data::digits::all_digits;
use crate::data::digits::is_digit;
use crate::data::digits::lemma_number_bounds;
use crate::data::digits::lemma_number_of_joined;
use crate::data::digits::lemma_zeros;
use crate::data::digits::number_of;
use crate::data::fixed::append_digit;
use crate::data::fixed::digits_of;
use crate::data::fixed::fixed_value;
use crate::data::fixed::is_exponent_mark;
use crate::data::fixed::is_negative;
use crate::data::fixed::lemma_exponent_mark;
use crate::data::fixed::lemma_point;
use crate::data::fixed::lemma_point_is_first;
use crate::data::fixed::mantissa_of;
use crate::data::fixed::point;
use crate::data::fixed::shift_left;
use crate::data::fixed::signed_value;
use crate::data::fixed::without_sign;
use crate::data::fixed::ParseFixedError;
use crate::decimal::lemma_pow10_positive;
use crate::decimal::pow10;

verus! {

/// The bytes behind the decimal point.
pub open spec fn fraction(s: Seq<u8>) -> Seq<u8> {
    if point(s) < s.len() {
        s.skip(point(s) + 1)
    } else {
        Seq::empty()
    }
}

/// The first eight of a row of digits, or all of them where there are fewer.
pub open spec fn first_eight(s: Seq<u8>) -> Seq<u8> {
    if s.len() > 8 {
        s.take(8)
    } else {
        s
    }
}

/// The digits that are kept: those in front of the decimal point and eight behind it.
pub open spec fn kept(s: Seq<u8>) -> Seq<u8> {
    s.take(point(s)) + first_eight(fraction(s))
}

/// What the last byte of a field does wrong, where all bytes before it are in order.
pub open spec fn fault(s: Seq<u8>) -> Option<ParseFixedError> {
    let last = s.len() - 1;
    if !is_digit(s[last]) && !(point(s) == last && last > 0) {
        Some(ParseFixedError::Syntax)
    } else if fraction(s).len() > 8 && s[last] != 48 {
        Some(ParseFixedError::Precision)
    } else if number_of(kept(s)) > -i64::MIN {
        Some(ParseFixedError::Overflow)
    } else {
        None
    }
}

/// The first fault in a field, from left to right.
pub open spec fn first_fault(s: Seq<u8>) -> Option<ParseFixedError>
    decreases s.len(),
{
    if s.len() == 0 {
        None
    } else {
        match first_fault(s.drop_last()) {
            Some(error) => Some(error),
            None => fault(s),
        }
    }
}

/// What a plain field stands for: the exact value in units of `10^-8`, or the first reason why
/// there is none.
pub open spec fn plain_value(s: Seq<u8>) -> Result<i64, ParseFixedError> {
    let u = without_sign(s);
    match first_fault(u) {
        Some(error) => Err(error),
        None => if point(u) == 0 || point(u) + 1 == u.len() {
            Err(ParseFixedError::Syntax)
        } else {
            signed_value(
                is_negative(s),
                number_of(kept(u)) * pow10(8 - first_eight(fraction(u)).len()),
            )
        },
    }
}

/// A fault stays the first one, whatever follows it.
proof fn lemma_fault_stays(s: Seq<u8>, k: int)
    requires
        0 <= k <= s.len(),
        first_fault(s.take(k)) is Some,
    ensures
        first_fault(s) == first_fault(s.take(k)),
    decreases s.len(),
{
    if k == s.len() {
        assert(s.take(k) =~= s);
    } else {
        let t = s.drop_last();
        assert(t.take(k) =~= s.take(k));
        lemma_fault_stays(t, k);
    }
}

/// What one more byte changes.
pub proof fn lemma_next(s: Seq<u8>, byte: u8)
    ensures
        ({
            let t = s.push(byte);
            let p = point(s);
            &&& 0 <= p <= s.len()
            &&& t.drop_last() == s
            &&& point(t) == (if p < s.len() || byte == 46 {
                p
            } else {
                p + 1
            })
            &&& fraction(t) == (if p < s.len() {
                fraction(s).push(byte)
            } else {
                Seq::empty()
            })
            &&& kept(t) == (if p < s.len() && fraction(s).len() >= 8 || p == s.len() && byte
                == 46 {
                kept(s)
            } else {
                kept(s).push(byte)
            })
        }),
{
    let t = s.push(byte);
    lemma_point_is_first(s);
    assert forall|j: int| 0 <= j < s.len() implies #[trigger] t[j] == s[j] by {}
    assert(t.drop_last() =~= s);
    if point(s) < s.len() || byte == 46 {
        lemma_point(t, point(s));
    } else {
        lemma_point(t, t.len() as int);
    }
    if point(s) < s.len() {
        assert(fraction(t) =~= fraction(s).push(byte));
        if fraction(s).len() >= 8 {
            assert(kept(t) =~= kept(s));
        } else {
            assert(kept(t) =~= kept(s).push(byte));
        }
    } else {
        assert(fraction(t) =~= Seq::<u8>::empty());
        if byte == 46 {
            assert(kept(t) =~= kept(s));
        } else {
            assert(kept(t) =~= kept(s).push(byte));
        }
    }
}

/// Parses a plain decimal field without rounding or passing through floating point.
///
/// The result is the exact value in units of `10^-8`.
pub fn parse_fixed(input: &[u8]) -> (r: Result<i64, ParseFixedError>)
    ensures
        r == plain_value(input@),
{
    let negative: bool = input.len() > 0 && input[0] == 45;
    let signed: bool = input.len() > 0 && (input[0] == 43 || input[0] == 45);
    let start: usize = if signed {
        1
    } else {
        0
    };
    let ghost u = without_sign(input@);
    assert(u =~= input@.skip(start as int));
    let mut value: i64 = 0;
    let mut fractional: Option<usize> = None;
    let mut integer_digits: usize = 0;
    let mut fractional_digits: usize = 0;
    let mut i: usize = start;
    assert(u.take(0) =~= Seq::<u8>::empty());
    assert(kept(u.take(0)) =~= Seq::<u8>::empty());
    while i < input.len()
        invariant
            start <= i <= input@.len(),
            u =~= input@.skip(start as int),
            u == without_sign(input@),
            ({
                let s = u.take(i - start);
                &&& first_fault(s) is None
                &&& point(s) == integer_digits
                &&& fractional_digits == fraction(s).len()
                &&& fractional is Some <==> integer_digits < i - start
                &&& fractional matches Some(count) ==> count == first_eight(fraction(s)).len()
                    && integer_digits > 0
                &&& value == -number_of(kept(s))
                &&& all_digits(kept(s))
            }),
            value <= 0,
        decreases input@.len() - i,
    {
        let byte: u8 = input[i];
        let ghost s = u.take(i - start);
        let ghost t = u.take(i - start + 1);
        assert(t =~= s.push(byte));
        proof {
            lemma_next(s, byte);
            if first_fault(t) is Some {
                lemma_fault_stays(u, i - start + 1);
            }
        }
        if byte == 46 && fractional.is_none() && integer_digits > 0 {
            fractional = Some(0);
            i = i + 1;
            continue ;
        }
        if byte < 48 || byte > 57 {
            return Err(ParseFixedError::Syntax);
        }
        if let Some(count) = fractional {
            fractional_digits = fractional_digits + 1;
            if count == 8 {
                if byte != 48 {
                    return Err(ParseFixedError::Precision);
                }
                i = i + 1;
                continue ;
            }
            fractional = Some(count + 1);
        } else {
            integer_digits = integer_digits + 1;
        }
        assert(kept(t).drop_last() =~= kept(s));
        assert(all_digits(kept(t))) by {
            assert forall|j: int| 0 <= j < kept(t).len() implies is_digit(
                #[trigger] kept(t)[j],
            ) by {
                if j < kept(s).len() {
                    assert(kept(t)[j] == kept(s)[j]);
                }
            }
        }
        proof {
            lemma_number_bounds(kept(t));
        }
        match append_digit(value, byte - 48) {
            Some(next) => {
                value = next;
            },
            None => {
                return Err(ParseFixedError::Overflow);
            },
        }
        i = i + 1;
    }
    assert(u.take(i - start) =~= u);
    if integer_digits == 0 || (fractional.is_some() && fractional_digits == 0) {
        return Err(ParseFixedError::Syntax);
    }
    let present: usize = match fractional {
        Some(count) => count,
        None => 0,
    };
    proof {
        let n = number_of(kept(u));
        let p = pow10(8 - present);
        assert((-n) * p == -(n * p)) by (nonlinear_arith);
        lemma_number_bounds(kept(u));
        lemma_pow10_positive(8 - present);
        assert(n * p >= 0) by (nonlinear_arith)
            requires
                n >= 0,
                p > 0,
        ;
    }
    let value: i64 = match shift_left(value, 8 - present) {
        Some(value) => value,
        None => {
            return Err(ParseFixedError::Overflow);
        },
    };
    if negative {
        Ok(value)
    } else if value == i64::MIN {
        Err(ParseFixedError::Overflow)
    } else {
        Ok(-value)
    }
}

/// What the absence of faults says of each byte.
pub proof fn lemma_no_fault(s: Seq<u8>)
    requires
        first_fault(s) is None,
    ensures
        forall|i: int| 0 <= i < s.len() && i != point(s) ==> is_digit(#[trigger] s[i]),
        forall|i: int| point(s) + 8 < i < s.len() ==> #[trigger] s[i] == 48,
    decreases s.len(),
{
    if s.len() > 0 {
        let t = s.drop_last();
        let last = s.len() - 1;
        lemma_no_fault(t);
        lemma_point_is_first(t);
        lemma_point_is_first(s);
        assert forall|i: int| 0 <= i < last implies #[trigger] s[i] == t[i] by {}
        if point(t) < t.len() {
            lemma_point(s, point(t));
        } else if s[last] == 46 {
            lemma_point(s, last);
        } else {
            lemma_point(s, s.len() as int);
        }
        assert forall|i: int| 0 <= i < s.len() && i != point(s) implies is_digit(
            #[trigger] s[i],
        ) by {
            if i < last {
                assert(t[i] == s[i]);
            }
        }
        assert forall|i: int| point(s) + 8 < i < s.len() implies #[trigger] s[i] == 48 by {
            if i < last {
                assert(t[i] == s[i]);
            }
        }
    }
}

/// A mantissa without its decimal point.
pub proof fn lemma_digits_of(m: Seq<u8>)
    requires
        forall|i: int| 0 <= i < m.len() && i != point(m) ==> #[trigger] m[i] != 46,
    ensures
        digits_of(m) =~= m.take(point(m)) + fraction(m),
    decreases m.len(),
{
    lemma_point_is_first(m);
    if m.len() > 0 {
        let t = m.drop_last();
        let last = m.len() - 1;
        if point(m) < last {
            lemma_point(t, point(m));
        } else {
            lemma_point(t, last);
        }
        assert forall|i: int| 0 <= i < t.len() && i != point(t) implies #[trigger] t[i] != 46 by {
            assert(t[i] == m[i]);
        }
        lemma_digits_of(t);
        if point(m) < last {
            assert(fraction(m) =~= fraction(t).push(m.last()));
        } else if point(m) == last {
            assert(fraction(m) =~= Seq::<u8>::empty());
        }
    }
}

/// A field that both readers of number fields accept has one value: whatever a plain field stands
/// for, it stands for the same where an exponent would be accepted.
pub proof fn plain_agrees_with_fixed(s: Seq<u8>)
    requires
        plain_value(s) is Ok,
    ensures
        fixed_value(s) == plain_value(s),
{
    let u = without_sign(s);
    lemma_no_fault(u);
    lemma_point_is_first(u);
    assert forall|i: int| 0 <= i < u.len() implies !is_exponent_mark(#[trigger] u[i]) by {
        if i != point(u) {
            assert(is_digit(u[i]));
        }
    }
    lemma_exponent_mark(u, u.len() as int);
    assert(mantissa_of(u) =~= u);
    let whole = u.take(point(u));
    assert forall|i: int| 0 <= i < whole.len() implies is_digit(#[trigger] whole[i]) by {
        assert(whole[i] == u[i]);
    }
    let f = fraction(u);
    assert forall|i: int| 0 <= i < f.len() implies is_digit(#[trigger] f[i]) by {
        assert(f[i] == u[i + point(u) + 1]);
    }
    assert forall|i: int| 0 <= i < u.len() && i != point(u) implies #[trigger] u[i] != 46 by {
        assert(is_digit(u[i]));
    }
    lemma_digits_of(u);
    if f.len() > 8 {
        let rest = f.skip(8);
        assert(digits_of(u) =~= kept(u) + rest);
        assert forall|i: int| 0 <= i < rest.len() implies #[trigger] rest[i] == 48 by {
            assert(rest[i] == u[i + 8 + point(u) + 1]);
        }
        lemma_zeros(rest);
        lemma_number_of_joined(kept(u), rest);
        let n = number_of(kept(u));
        let p = pow10(rest.len() as int);
        lemma_pow10_positive(rest.len() as int);
        lemma_fundamental_div_mod_converse(n * p, p, n, 0);
        assert(n * 1 == n);
    } else {
        assert(digits_of(u) =~= kept(u));
    }
}

} // verus!
