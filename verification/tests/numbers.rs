use hftbacktest::data::fixed;
use hftbacktest::data::fixed::decode_fixed;
use hftbacktest::data::fixed::ParseFixedError;
use hftbacktest::data::plain;
use hftbacktest::decimal::Decimal;

#[test]
fn parses_exact_values_and_full_signed_range() {
    for (input, expected) in [
        ("0", 0),
        ("-0.000000000", 0),
        ("+1.23", 123_000_000),
        ("1.230000000000", 123_000_000),
        ("0.00000001", 1),
        ("92233720368.54775807", i64::MAX),
        ("-92233720368.54775808", i64::MIN),
    ] {
        assert_eq!(plain::parse_fixed(input.as_bytes()), Ok(expected), "{input}");
    }
}

#[test]
fn rejects_precision_loss_overflow_and_non_decimal_syntax() {
    for input in ["0.000000001", "1.000000001", "-0.000000001"] {
        assert_eq!(
            plain::parse_fixed(input.as_bytes()),
            Err(ParseFixedError::Precision)
        );
    }
    for input in [
        "92233720368.54775808",
        "-92233720368.54775809",
        "999999999999999999999",
    ] {
        assert_eq!(
            plain::parse_fixed(input.as_bytes()),
            Err(ParseFixedError::Overflow)
        );
    }
    for input in [
        "", "+", "-", ".1", "1.", "1e-8", "NaN", "inf", " 1", "1 ", "1.2.3",
    ] {
        assert_eq!(
            plain::parse_fixed(input.as_bytes()),
            Err(ParseFixedError::Syntax),
            "{input}"
        );
    }
}

#[test]
fn fixed_parses_exact_values_and_full_signed_range() {
    for (input, expected) in [
        ("0", 0),
        ("-0.000000000", 0),
        ("+1.23", 123_000_000),
        ("1.230000000000", 123_000_000),
        ("0.00000001", 1),
        ("1e-7", 10),
        ("2.5E-7", 25),
        ("1.234567890e1", 1_234_567_890),
        ("+1e+2", 10_000_000_000),
        ("0e-999999999999999999999", 0),
        ("92233720368.54775807", i64::MAX),
        ("9223372036854775807e-8", i64::MAX),
        ("-92233720368.54775808", i64::MIN),
        ("-9223372036854775808e-8", i64::MIN),
    ] {
        assert_eq!(fixed::parse_fixed(input.as_bytes()), Ok(expected), "{input}");
    }
}

#[test]
fn fixed_rejects_precision_loss_overflow_and_non_decimal_syntax() {
    for input in [
        "0.000000001",
        "1.000000001",
        "-0.000000001",
        "1e-9",
        "1.234567891e-1",
    ] {
        assert_eq!(
            fixed::parse_fixed(input.as_bytes()),
            Err(ParseFixedError::Precision)
        );
    }
    for input in [
        "92233720368.54775808",
        "-92233720368.54775809",
        "999999999999999999999",
        "9223372036854775808e-8",
        "1e999999999999999999999",
    ] {
        assert_eq!(
            fixed::parse_fixed(input.as_bytes()),
            Err(ParseFixedError::Overflow)
        );
    }
    for input in [
        "", "+", "-", ".1", "1.", "1e", "1e+", "1e--7", "1e7x", "NaN", "inf", " 1", "1 ", "1.2.3",
    ] {
        assert_eq!(
            fixed::parse_fixed(input.as_bytes()),
            Err(ParseFixedError::Syntax),
            "{input}"
        );
    }
}

#[test]
fn decoding_preserves_lowest_unit() {
    assert_eq!(decode_fixed(123_000_001).to_text(), "1.23000001");
    assert_eq!(decode_fixed(i64::MIN).to_text(), "-92233720368.54775808");
}

#[test]
fn fixed_decoding_preserves_lowest_unit() {
    assert_eq!(decode_fixed(123_000_001).to_text(), "1.23000001");
    assert_eq!(decode_fixed(i64::MIN).to_text(), "-92233720368.54775808");
}

#[test]
fn plain_fields_read_the_same_with_and_without_exponents() {
    for input in ["12", "-3.5", "+0.00000001", "1.0000000000"] {
        assert_eq!(
            plain::parse_fixed(input.as_bytes()),
            fixed::parse_fixed(input.as_bytes())
        );
    }
}

#[test]
fn parse_errors_have_messages() {
    for error in [
        ParseFixedError::Syntax,
        ParseFixedError::Precision,
        ParseFixedError::Overflow,
    ] {
        assert!(!error.message().is_empty());
    }
}

#[test]
fn decimals_add_subtract_multiply_and_divide() {
    let a = Decimal::new(125, 2);
    let b = Decimal::new(5, 1);
    assert_eq!(a.checked_add(b), Some(Decimal::new(175, 2)));
    assert_eq!(a.checked_sub(b), Some(Decimal::new(75, 2)));
    assert_eq!(a.checked_mul(b), Some(Decimal::new(625, 3)));
    assert_eq!(a.checked_div(b), Some(Decimal::new(25, 1)));
    assert_eq!(a.checked_div(Decimal::zero()), None);
}

#[test]
fn decimals_are_compared_by_value() {
    assert_eq!(Decimal::new(10, 1), Decimal::one());
    assert!(Decimal::new(99, 2).lt(Decimal::one()));
    assert!(Decimal::new(100, 2).le(Decimal::one()));
    assert_eq!(Decimal::new(7, 0).min(Decimal::new(3, 0)), Decimal::from_int(3));
    assert_eq!(Decimal::from_int(4).neg(), Decimal::from_int(-4));
    assert!(Decimal::new(0, 5).is_zero());
    assert!(Decimal::new(1, 5).is_positive());
    assert!(Decimal::new(-1, 5).is_negative());
}

#[test]
fn decimals_know_multiples_of_a_unit() {
    assert!(Decimal::new(10005, 2).is_multiple_of(Decimal::new(1, 2)));
    assert!(!Decimal::new(10005, 2).is_multiple_of(Decimal::new(1, 1)));
}

#[test]
fn decimals_that_cannot_be_held_are_refused() {
    let large = Decimal::from_int(i64::MAX);
    let square = large.checked_mul(large);
    assert_eq!(square.and_then(|value| value.checked_mul(large)), None);
}

#[test]
fn exact_quotients_are_exact() {
    let div = |a: Decimal, b: Decimal| a.checked_div(b).map(|q| (q.mantissa(), q.scale()));
    let quarter = Decimal::from_int(1)
        .checked_div(Decimal::from_int(4))
        .expect("quotient should be representable");
    assert_eq!(quarter, Decimal::new(25, 2));
    assert_eq!(
        Decimal::new(20150, 2).checked_div(Decimal::from_int(2)),
        Some(Decimal::new(10075, 2))
    );
    assert_eq!(
        Decimal::new(-1, 28).checked_div(Decimal::new(1, 28)),
        Some(Decimal::from_int(-1))
    );
    assert_eq!(
        Decimal::from_int(i64::MAX).checked_div(Decimal::new(1, 8)),
        Decimal::from_int(i64::MAX).checked_mul(Decimal::from_int(100_000_000))
    );
    assert_eq!(div(Decimal::new(600, 2), Decimal::from_int(3)), Some((200, 2)));
    let third = Decimal::from_int(1)
        .checked_div(Decimal::from_int(3))
        .expect("quotient should be rounded");
    assert!(third
        .checked_mul(Decimal::from_int(3))
        .expect("product should be representable")
        .lt(Decimal::one()));
}

#[test]
fn decimals_are_written_with_all_their_digits() {
    for (decimal, text) in [
        (Decimal::zero(), "0"),
        (Decimal::new(0, 3), "0.000"),
        (Decimal::new(5, 2), "0.05"),
        (Decimal::new(-5, 1), "-0.5"),
        (Decimal::new(123, 2), "1.23"),
        (Decimal::new(1200, 2), "12.00"),
        (Decimal::from_int(-70), "-70"),
        (Decimal::new(i64::MIN, 8), "-92233720368.54775808"),
        (Decimal::new(1, 28), "0.0000000000000000000000000001"),
    ] {
        assert_eq!(decimal.to_text(), text);
    }
}

#[test]
fn written_values_are_read_back() {
    for value in [0, 1, -1, 99_999_999, 100_000_000, -123_456_789_012, i64::MAX, i64::MIN] {
        let text = decode_fixed(value).to_text();
        assert_eq!(fixed::parse_fixed(text.as_bytes()), Ok(value));
        assert_eq!(plain::parse_fixed(text.as_bytes()), Ok(value));
    }
}

#[test]
fn signs_and_zeros_do_not_change_the_magnitude() {
    for text in ["0", "7", "1.5", "00.00000001", "92233720368.54775807"] {
        let value = plain::parse_fixed(text.as_bytes()).expect("field should be valid");
        for parse in [fixed::parse_fixed, plain::parse_fixed] {
            assert_eq!(parse(text.as_bytes()), Ok(value));
            assert_eq!(parse(format!("+{text}").as_bytes()), Ok(value));
            assert_eq!(parse(format!("-{text}").as_bytes()), Ok(-value));
            assert_eq!(parse(format!("0{text}").as_bytes()), Ok(value));
            if text.contains('.') {
                assert_eq!(parse(format!("{text}0").as_bytes()), Ok(value));
            }
        }
    }
}
