//! Decimal digits: what a row of ASCII digits stands for, and what follows from it.
use vstd::arithmetic::div_mod::lemma_fundamental_div_mod;
use vstd::arithmetic::div_mod::lemma_fundamental_div_mod_converse;
use vstd::prelude::*;

use crate::decimal::lemma_pow10_positive;
use crate::decimal::pow10;

verus! {

/// Whether a byte is an ASCII digit.
pub open spec fn is_digit(b: u8) -> bool {
    48 <= b <= 57
}

/// Whether every byte is an ASCII digit.
pub open spec fn all_digits(s: Seq<u8>) -> bool {
    forall|i: int| 0 <= i < s.len() ==> is_digit(#[trigger] s[i])
}

/// The number that a row of digits stands for; zero for an empty row.
pub open spec fn number_of(s: Seq<u8>) -> int
    decreases s.len(),
{
    if s.len() == 0 {
        0
    } else {
        10 * number_of(s.drop_last()) + (s.last() - 48)
    }
}

/// A row of digits is below the power of ten with as many zeros.
pub proof fn lemma_number_bounds(s: Seq<u8>)
    requires
        all_digits(s),
    ensures
        0 <= number_of(s) < pow10(s.len() as int),
    decreases s.len(),
{
    if s.len() > 0 {
        let front = s.drop_last();
        assert(all_digits(front)) by {
            assert forall|i: int| 0 <= i < front.len() implies is_digit(#[trigger] front[i]) by {
                assert(front[i] == s[i]);
            }
        }
        lemma_number_bounds(front);
        assert(is_digit(s[s.len() - 1]));
    }
}

/// A row of zeros stands for zero.
pub proof fn lemma_zeros(s: Seq<u8>)
    requires
        forall|i: int| 0 <= i < s.len() ==> #[trigger] s[i] == 48,
    ensures
        number_of(s) == 0,
    decreases s.len(),
{
    if s.len() > 0 {
        let front = s.drop_last();
        assert forall|i: int| 0 <= i < front.len() implies #[trigger] front[i] == 48 by {
            assert(front[i] == s[i]);
        }
        lemma_zeros(front);
    }
}

/// Powers of ten multiply by adding their exponents.
pub proof fn lemma_pow10_adds(a: int, b: int)
    requires
        a >= 0,
        b >= 0,
    ensures
        pow10(a + b) == pow10(a) * pow10(b),
    decreases a,
{
    if a == 0 {
    } else {
        lemma_pow10_adds(a - 1, b);
        assert(pow10(a + b) == 10 * pow10(a - 1 + b));
        let x = pow10(a - 1);
        let y = pow10(b);
        assert(10 * (x * y) == (10 * x) * y) by (nonlinear_arith);
    }
}

/// A larger exponent makes a larger power of ten.
pub proof fn lemma_pow10_grows(a: int, b: int)
    requires
        a <= b,
    ensures
        pow10(a) <= pow10(b),
    decreases b - a,
{
    if a < b {
        lemma_pow10_grows(a, b - 1);
        lemma_pow10_positive(b - 1);
    }
}

/// Putting two rows of digits one behind the other shifts the first by the length of the second.
pub proof fn lemma_number_of_joined(a: Seq<u8>, b: Seq<u8>)
    ensures
        number_of(a + b) == number_of(a) * pow10(b.len() as int) + number_of(b),
    decreases b.len(),
{
    if b.len() == 0 {
        assert(a + b =~= a);
        assert(number_of(a) * 1 == number_of(a));
    } else {
        let front = b.drop_last();
        lemma_number_of_joined(a, front);
        assert((a + b).drop_last() =~= a + front);
        assert((a + b).last() == b.last());
        let x = number_of(a);
        let p = pow10(front.len() as int);
        assert(pow10(b.len() as int) == 10 * p);
        assert(10 * (x * p) == x * (10 * p)) by (nonlinear_arith);
    }
}

/// A row of digits that does not start with a zero has a number with as many digits.
pub proof fn lemma_number_at_least(s: Seq<u8>)
    requires
        all_digits(s),
        s.len() > 0,
        s[0] != 48,
    ensures
        number_of(s) >= pow10(s.len() - 1),
{
    let first = s.take(1);
    let rest = s.skip(1);
    assert(s =~= first + rest);
    lemma_number_of_joined(first, rest);
    assert(all_digits(rest)) by {
        assert forall|i: int| 0 <= i < rest.len() implies is_digit(#[trigger] rest[i]) by {
            assert(rest[i] == s[i + 1]);
        }
    }
    lemma_number_bounds(rest);
    assert(is_digit(s[0]));
    assert(first.drop_last() =~= Seq::<u8>::empty());
    assert(number_of(first.drop_last()) == 0);
    assert(number_of(first) == s[0] - 48);
    let d = number_of(first);
    let p = pow10(rest.len() as int);
    lemma_pow10_positive(rest.len() as int);
    assert(d * p >= p) by (nonlinear_arith)
        requires
            d >= 1,
            p > 0,
    ;
}

/// Longer rows stand for numbers at least as large.
pub proof fn lemma_number_grows(s: Seq<u8>, k: int)
    requires
        all_digits(s),
        0 <= k <= s.len(),
    ensures
        number_of(s.take(k)) <= number_of(s),
{
    let a = s.take(k);
    let b = s.skip(k);
    assert(s =~= a + b);
    lemma_number_of_joined(a, b);
    assert(all_digits(a)) by {
        assert forall|i: int| 0 <= i < a.len() implies is_digit(#[trigger] a[i]) by {
            assert(a[i] == s[i]);
        }
    }
    assert(all_digits(b)) by {
        assert forall|i: int| 0 <= i < b.len() implies is_digit(#[trigger] b[i]) by {
            assert(b[i] == s[i + k]);
        }
    }
    lemma_number_bounds(a);
    lemma_number_bounds(b);
    let x = number_of(a);
    let p = pow10(b.len() as int);
    lemma_pow10_positive(b.len() as int);
    assert(x * p >= x) by (nonlinear_arith)
        requires
            x >= 0,
            p >= 1,
    ;
}

/// The exact product of a number and a power of ten, where it is a whole number.
pub open spec fn scaled(number: int, power: int) -> Option<int> {
    if power >= 0 {
        Some(number * pow10(power))
    } else if number % pow10(-power) == 0 {
        Some(number / pow10(-power))
    } else {
        None
    }
}

/// Zero stays zero at every scale.
pub proof fn lemma_scaled_zero(power: int)
    ensures
        scaled(0, power) == Some(0int),
{
    lemma_pow10_positive(power);
    lemma_pow10_positive(-power);
    let p = pow10(-power);
    assert(0int % p == 0 && 0int / p == 0) by (nonlinear_arith)
        requires
            p > 0,
    ;
}

/// Trailing zeros move between the number and the power.
pub proof fn lemma_scaled_trailing(significant: int, zeros: int, power: int)
    requires
        zeros >= 0,
        significant >= 0,
        significant % 10 != 0,
    ensures
        scaled(significant * pow10(zeros), power) == (if power + zeros >= 0 {
            Some(significant * pow10(power + zeros))
        } else {
            None
        }),
{
    let n = significant * pow10(zeros);
    let shift = power + zeros;
    lemma_pow10_positive(zeros);
    if power >= 0 {
        lemma_pow10_adds(zeros, power);
        let a = pow10(zeros);
        let b = pow10(power);
        assert((significant * a) * b == significant * (a * b)) by (nonlinear_arith);
    } else if shift >= 0 {
        lemma_pow10_adds(shift, -power);
        lemma_pow10_positive(-power);
        let a = pow10(shift);
        let b = pow10(-power);
        assert(pow10(zeros) == a * b);
        assert(n == (significant * a) * b + 0) by (nonlinear_arith)
            requires
                n == significant * (a * b),
        ;
        lemma_fundamental_div_mod_converse(n, b, significant * a, 0);
    } else {
        lemma_pow10_adds(-shift, zeros);
        lemma_pow10_positive(-power);
        lemma_pow10_positive(-shift);
        let d = pow10(-power);
        let a = pow10(-shift);
        let z = pow10(zeros);
        assert(d == a * z);
        if n % d == 0 {
            lemma_fundamental_div_mod(n, d);
            let q = n / d;
            assert(n == d * q);
            assert(significant == a * q) by (nonlinear_arith)
                requires
                    significant * z == (a * z) * q,
                    z > 0,
            ;
            let t = pow10(-shift - 1);
            assert(a == 10 * t);
            assert(significant == (t * q) * 10 + 0) by (nonlinear_arith)
                requires
                    significant == (10 * t) * q,
            ;
            lemma_fundamental_div_mod_converse(significant, 10, t * q, 0);
            assert(false);
        }
    }
}

} // verus!
