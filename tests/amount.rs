use ledger_engine::amount::{
    fixed_point_4_decimal_to_float_str, float_str_to_fixed_point_4_decimal,
    signed_fixed_point_4_decimal_to_float_str,
};
use ledger_engine::error::ParseError;

#[test]
fn test_fixed_4_decimal_points_to_float() {
    assert_eq!(fixed_point_4_decimal_to_float_str(0), "0.0000");
    assert_eq!(fixed_point_4_decimal_to_float_str(1), "0.0001");
    assert_eq!(fixed_point_4_decimal_to_float_str(9_999), "0.9999");
    assert_eq!(fixed_point_4_decimal_to_float_str(10_000), "1.0000");
    assert_eq!(fixed_point_4_decimal_to_float_str(10_001), "1.0001");
}

#[test]
fn test_signed_fixed_4_decimal_points_to_float() {
    assert_eq!(signed_fixed_point_4_decimal_to_float_str(0), "0.0000");
    assert_eq!(signed_fixed_point_4_decimal_to_float_str(1), "0.0001");
    assert_eq!(signed_fixed_point_4_decimal_to_float_str(9_999), "0.9999");
    assert_eq!(signed_fixed_point_4_decimal_to_float_str(10_000), "1.0000");
    assert_eq!(signed_fixed_point_4_decimal_to_float_str(10_001), "1.0001");
    assert_eq!(signed_fixed_point_4_decimal_to_float_str(-0), "0.0000");
    assert_eq!(signed_fixed_point_4_decimal_to_float_str(-1), "-0.0001");
    assert_eq!(signed_fixed_point_4_decimal_to_float_str(-9_999), "-0.9999");
    assert_eq!(
        signed_fixed_point_4_decimal_to_float_str(-10_000),
        "-1.0000"
    );
    assert_eq!(
        signed_fixed_point_4_decimal_to_float_str(-10_001),
        "-1.0001"
    );
}

#[test]
fn test_float_str_to_fixed_point_4_decimal() {
    assert_eq!(float_str_to_fixed_point_4_decimal("0").unwrap(), 0);
    assert_eq!(float_str_to_fixed_point_4_decimal("0.0001").unwrap(), 1);
    assert_eq!(float_str_to_fixed_point_4_decimal("0.9999").unwrap(), 9_999);
    assert_eq!(
        float_str_to_fixed_point_4_decimal("1.0000").unwrap(),
        10_000
    );
    assert_eq!(
        float_str_to_fixed_point_4_decimal("1.0001").unwrap(),
        10_001
    );

    // Test extra digits in fractional part
    assert_eq!(
        float_str_to_fixed_point_4_decimal("1.00019999").unwrap(),
        10_001
    );
    assert_eq!(
        float_str_to_fixed_point_4_decimal("1.00010000").unwrap(),
        10_001
    );

    // Test correct padding
    assert_eq!(float_str_to_fixed_point_4_decimal("0.99").unwrap(), 9_900);
    assert_eq!(float_str_to_fixed_point_4_decimal("0.990").unwrap(), 9_900);
}

#[test]
fn excess_fraction_digits_are_truncated_not_rounded() {
    assert_eq!(
        float_str_to_fixed_point_4_decimal("1.00019999"),
        float_str_to_fixed_point_4_decimal("1.0001")
    );
    assert_eq!(float_str_to_fixed_point_4_decimal("2.99999").unwrap(), 29_999);
}

#[test]
fn format_then_parse_gives_the_amount_back() {
    for x in [0u64, 1, 9_999, 10_000, 10_001, 1_234_567, 10_000_000_000_000, u64::MAX] {
        let text = fixed_point_4_decimal_to_float_str(x);
        assert_eq!(float_str_to_fixed_point_4_decimal(&text), Ok(x));
    }
}

#[test]
fn largest_amounts_format_exactly() {
    assert_eq!(
        fixed_point_4_decimal_to_float_str(u64::MAX),
        "1844674407370955.1615"
    );
    assert_eq!(
        signed_fixed_point_4_decimal_to_float_str(i64::MIN),
        "-922337203685477.5808"
    );
    assert_eq!(
        signed_fixed_point_4_decimal_to_float_str(i64::MAX),
        "922337203685477.5807"
    );
    assert_eq!(
        signed_fixed_point_4_decimal_to_float_str(-10_000_000_000_000),
        "-1000000000.0000"
    );
}

#[test]
fn whole_numbers_and_trailing_points_parse() {
    assert_eq!(float_str_to_fixed_point_4_decimal("100"), Ok(1_000_000));
    assert_eq!(float_str_to_fixed_point_4_decimal("7."), Ok(70_000));
    assert_eq!(float_str_to_fixed_point_4_decimal("+3.5"), Ok(35_000));
    assert_eq!(
        float_str_to_fixed_point_4_decimal("1844674407370955.1615"),
        Ok(u64::MAX)
    );
}

#[test]
fn malformed_amounts_are_rejected() {
    for text in [
        "",
        ".5",
        "abc",
        "1.a",
        "1.2.3",
        "-1",
        "1,5",
        " 1",
        "+",
        "1844674407370955.1616",
        "99999999999999999999",
        "1.é",
    ] {
        assert_eq!(
            float_str_to_fixed_point_4_decimal(text),
            Err(ParseError::InvalidAmount),
            "{text}"
        );
    }
}
