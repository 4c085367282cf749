use splitwise_ynab::decimal::{parse_i64, to_decimal, IntErrorKind};
use splitwise_ynab::models::cents::{
    format_cents, parse_cents, parse_cents_checked, Cents, CentsError, CentsPart,
};

fn chars(s: &str) -> Vec<char> {
    s.chars().collect()
}

#[test]
fn milli_dollars_is_ten_times_cents() {
    assert_eq!(Cents(2211).milli_dollars(), 22110);
    assert_eq!(Cents(-5).milli_dollars(), -50);
    assert_eq!(Cents(0).milli_dollars(), 0);
}

#[test]
fn cents_add_and_mul() {
    assert_eq!(Cents(150) + Cents(-20), Cents(130));
    assert_eq!(Cents(12) * Cents(-3), Cents(-36));
}

#[test]
fn parse_reads_dollars_and_cents() {
    assert_eq!(parse_cents("22.11"), Ok(Cents(2211)));
    assert_eq!(parse_cents("-22.11"), Ok(Cents(-2211)));
    assert_eq!(parse_cents("0.00"), Ok(Cents(0)));
    assert_eq!(parse_cents("1.05"), Ok(Cents(105)));
    assert_eq!(parse_cents("1.5"), Ok(Cents(105)));
    assert_eq!(parse_cents("+3.07"), Ok(Cents(307)));
}

#[test]
fn parse_keeps_cents_under_a_dollar_with_their_sign() {
    assert_eq!(parse_cents("0.50"), Ok(Cents(50)));
    assert_eq!(parse_cents("-0.50"), Ok(Cents(-50)));
    assert_eq!(parse_cents("-0.05"), Ok(Cents(-5)));
    assert_eq!(parse_cents("-0.5"), Ok(Cents(-5)));
    assert_eq!(parse_cents("0.00"), Ok(Cents(0)));
}

#[test]
fn parse_ignores_what_follows_a_second_dot() {
    assert_eq!(parse_cents("1.02.3"), Ok(Cents(102)));
}

#[test]
fn parse_reports_which_part_failed() {
    assert_eq!(
        parse_cents(".5"),
        Err(CentsError { part: CentsPart::Dollars, kind: IntErrorKind::Empty })
    );
    assert_eq!(
        parse_cents("1."),
        Err(CentsError { part: CentsPart::Cents, kind: IntErrorKind::Empty })
    );
    assert_eq!(
        parse_cents("1x.5"),
        Err(CentsError { part: CentsPart::Dollars, kind: IntErrorKind::InvalidDigit })
    );
    assert_eq!(
        parse_cents("1.-"),
        Err(CentsError { part: CentsPart::Cents, kind: IntErrorKind::InvalidDigit })
    );
    assert_eq!(
        parse_cents("99999999999999999999.1"),
        Err(CentsError { part: CentsPart::Dollars, kind: IntErrorKind::PosOverflow })
    );
    assert_eq!(
        parse_cents("-99999999999999999999.1"),
        Err(CentsError { part: CentsPart::Dollars, kind: IntErrorKind::NegOverflow })
    );
}

#[test]
fn parse_checked_refuses_integer_without_dot_or_too_large() {
    assert_eq!(parse_cents_checked("22"), None);
    assert_eq!(parse_cents_checked("-7"), None);
    assert_eq!(
        parse_cents_checked("ab"),
        Some(Err(CentsError { part: CentsPart::Dollars, kind: IntErrorKind::InvalidDigit }))
    );
    assert_eq!(
        parse_cents_checked(""),
        Some(Err(CentsError { part: CentsPart::Dollars, kind: IntErrorKind::Empty }))
    );
    assert_eq!(
        parse_cents("ab"),
        Err(CentsError { part: CentsPart::Dollars, kind: IntErrorKind::InvalidDigit })
    );
    assert_eq!(parse_cents_checked("92233720368547758.08"), None);
    assert_eq!(parse_cents_checked("22.11"), Some(Ok(Cents(2211))));
    assert_eq!(
        parse_cents_checked("a.b"),
        Some(Err(CentsError { part: CentsPart::Dollars, kind: IntErrorKind::InvalidDigit }))
    );
}

#[test]
fn format_writes_sign_dollars_dot_cents() {
    assert_eq!(format_cents(Cents(2211)), "22.11");
    assert_eq!(format_cents(Cents(-2211)), "-22.11");
    assert_eq!(format_cents(Cents(105)), "1.5");
    assert_eq!(format_cents(Cents(150)), "1.50");
    assert_eq!(format_cents(Cents(5)), "0.5");
    assert_eq!(format_cents(Cents(-5)), "-0.5");
    assert_eq!(format_cents(Cents(-50)), "-0.50");
    assert_eq!(format_cents(Cents(0)), "0.0");
    assert_eq!(format_cents(Cents(i64::MAX)), "92233720368547758.7");
    assert_eq!(format_cents(Cents(i64::MIN + 1)), "-92233720368547758.7");
}

#[test]
fn roundtrip_of_every_amount() {
    let mut values: Vec<i64> = (-2000..2000).collect();
    values.extend([i32::MAX as i64, i32::MIN as i64, i64::MAX, i64::MIN + 1, 123456789, -987654321]);
    let mut v: i64 = 1;
    while v < i64::MAX / 7 {
        values.push(v);
        values.push(-v);
        v = v * 7 + 3;
    }
    for v in values {
        let text = format_cents(Cents(v));
        assert_eq!(parse_cents(&text), Ok(Cents(v)), "{}", text);
    }
}

#[test]
fn distinct_amounts_have_distinct_texts() {
    assert_ne!(format_cents(Cents(5)), format_cents(Cents(-5)));
    assert_ne!(format_cents(Cents(5)), format_cents(Cents(50)));
    assert!(format_cents(Cents(-1)).starts_with('-'));
    assert!(!format_cents(Cents(1)).starts_with('-'));
}

#[test]
fn decimal_text_of_integers() {
    assert_eq!(to_decimal(0), "0");
    assert_eq!(to_decimal(42), "42");
    assert_eq!(to_decimal(-7), "-7");
    assert_eq!(to_decimal(i64::MAX), i64::MAX.to_string());
    assert_eq!(to_decimal(i64::MIN), i64::MIN.to_string());
}

#[test]
fn parse_i64_follows_str_parse() {
    for text in ["0", "-0", "+12", "-12", "", "+", "-", "1a", "a1", "9223372036854775807",
        "9223372036854775808", "-9223372036854775808", "-9223372036854775809", "++1", "+-1",
        "99999999999999999999x", "1 ", "٣"] {
        let expected = text.parse::<i64>().map_err(|e| match e.kind() {
            std::num::IntErrorKind::Empty => IntErrorKind::Empty,
            std::num::IntErrorKind::InvalidDigit => IntErrorKind::InvalidDigit,
            std::num::IntErrorKind::PosOverflow => IntErrorKind::PosOverflow,
            std::num::IntErrorKind::NegOverflow => IntErrorKind::NegOverflow,
            _ => unreachable!(),
        });
        assert_eq!(parse_i64(&chars(text)), expected, "{:?}", text);
    }
}
