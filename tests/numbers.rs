use svg_sketch::decimal::{parse_number, parse_token, Decimal, NumberError};

fn dec(mantissa: i64, scale: u32) -> Decimal {
    Decimal { mantissa, scale }
}

#[test]
fn parses_integers_and_fractions() {
    assert_eq!(parse_number("12"), Ok(dec(12, 0)));
    assert_eq!(parse_number("12.5"), Ok(dec(125, 1)));
    assert_eq!(parse_number("-0.5"), Ok(dec(-5, 1)));
    assert_eq!(parse_number(".5"), Ok(dec(5, 1)));
    assert_eq!(parse_number("5."), Ok(dec(5, 0)));
    assert_eq!(parse_number("-.25"), Ok(dec(-25, 2)));
    assert_eq!(parse_number("007"), Ok(dec(7, 0)));
}

#[test]
fn refuses_malformed_tokens() {
    for t in ["", "-", ".", "-.", "1.2.3", "1-2", "abc", "1e3", "+5", " 1"] {
        assert_eq!(parse_number(t), Err(NumberError::Malformed), "{}", t);
    }
}

#[test]
fn refuses_numbers_out_of_range() {
    assert_eq!(parse_number("9223372036854775807"), Ok(dec(i64::MAX, 0)));
    assert_eq!(parse_number("-9223372036854775807"), Ok(dec(-i64::MAX, 0)));
    assert_eq!(parse_number("9223372036854775808"), Err(NumberError::OutOfRange));
    assert_eq!(parse_number("0.000000000000000001"), Ok(dec(1, 18)));
    assert_eq!(parse_number("0.0000000000000000001"), Err(NumberError::OutOfRange));
}

#[test]
fn parses_a_character_buffer() {
    assert_eq!(parse_token(&vec!['-', '3', '.', '0']), Ok(dec(-30, 1)));
}

#[test]
fn adds_at_the_larger_scale() {
    assert_eq!(dec(15, 1).checked_add(dec(2, 0)), Some(dec(35, 1)));
    assert_eq!(dec(-15, 1).checked_add(dec(25, 2)), Some(dec(-125, 2)));
    assert_eq!(dec(i64::MAX, 0).checked_add(dec(1, 0)), None);
    assert_eq!(dec(1, 0).checked_add(dec(1, 18)), Some(dec(1_000_000_000_000_000_001, 18)));
    assert_eq!(dec(10, 0).checked_add(dec(1, 18)), None);
}

#[test]
fn negates() {
    assert_eq!(dec(-5, 1).negate(), dec(5, 1));
    assert_eq!(Decimal::integer(-7), dec(-7, 0));
}

fn text(d: Decimal) -> String {
    d.to_chars().into_iter().collect()
}

#[test]
fn writes_decimal_text() {
    assert_eq!(text(dec(0, 0)), "0");
    assert_eq!(text(dec(42, 0)), "42");
    assert_eq!(text(dec(-42, 0)), "-42");
    assert_eq!(text(dec(125, 1)), "12.5");
    assert_eq!(text(dec(-5, 2)), "-0.05");
    assert_eq!(text(dec(10, 1)), "1.0");
    assert_eq!(text(dec(0, 3)), "0.000");
    assert_eq!(text(dec(i64::MAX, 18)), "9.223372036854775807");
    assert_eq!(text(dec(-i64::MAX, 0)), "-9223372036854775807");
}

#[test]
fn text_reads_back_as_the_same_number() {
    for d in [dec(125, 1), dec(-5, 2), dec(7, 0), dec(-1, 18)] {
        assert_eq!(parse_number(&text(d)), Ok(d));
    }
}
