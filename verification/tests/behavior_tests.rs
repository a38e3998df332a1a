use overpunch_ng::encoding::{Ebcdic, Encoding, Sign};
use overpunch_ng::error::Error;
use overpunch_ng::{extract, parse_format, FixedDecimal};

fn fixed(magnitude: u64, scale: u32, negative: bool) -> FixedDecimal {
    FixedDecimal::new(magnitude, scale, negative).unwrap()
}

#[test]
fn round_trip_exact_values() {
    let cases = [
        fixed(0, 0, false),
        fixed(0, 0, true),
        fixed(1, 0, false),
        fixed(1231, 2, false),
        fixed(1231, 2, true),
        fixed(2258, 1, false),
        fixed(180592, 3, true),
        fixed(9223372036854775807, 4, false),
    ];
    for v in &cases {
        for scale in 0..4usize {
            if let Ok(field) = overpunch_ng::format(*v, scale) {
                let back = extract(&field, scale).unwrap();
                let lossless = scale as u32 >= v.scale
                    || v.magnitude % 10u64.pow(v.scale - scale as u32) == 0;
                if lossless {
                    assert_eq!(back, *v, "round trip failed for {:?} at scale {}", v, scale);
                    assert_eq!(back.negative, v.negative);
                }
            }
        }
    }
}

#[test]
fn signed_zero_fields() {
    assert_eq!(overpunch_ng::format(fixed(0, 3, true), 3).unwrap(), "000}");
    assert_eq!(overpunch_ng::format(fixed(0, 3, false), 3).unwrap(), "000{");
    let neg = extract("000}", 3).unwrap();
    assert!(neg.negative && neg.magnitude == 0);
    let pos = extract("000{", 3).unwrap();
    assert!(!pos.negative && pos.magnitude == 0);
}

#[test]
fn picture_parsing() {
    assert_eq!(parse_format("s9(7)v999"), Ok(3));
    assert_eq!(parse_format("9(7)v999"), Ok(3));
    assert_eq!(parse_format("s9(3)"), Ok(0));
    assert!(matches!(
        parse_format("xxx"),
        Err(Error::InvalidFormatString(_))
    ));
    assert_eq!(parse_format("s9(7)v9(2)"), Ok(2));
    assert_eq!(parse_format("9v99"), Ok(2));
    assert_eq!(parse_format("sv999"), Ok(3));
    assert_eq!(parse_format("9(4)v"), Ok(0));
    assert_eq!(parse_format("s999"), Ok(0));
    assert_eq!(parse_format("9"), Ok(0));
    assert_eq!(parse_format("s9(2)v9(12)"), Ok(12));
    assert!(matches!(
        parse_format(""),
        Err(Error::InvalidFormatString(_))
    ));
    assert!(matches!(
        parse_format("v9a"),
        Err(Error::InvalidFormatString(_))
    ));
    assert_eq!(parse_format("x9(2)v99"), Ok(2));
    assert!(matches!(
        parse_format("x9(2)"),
        Err(Error::InvalidFormatString(_))
    ));
    assert!(matches!(
        parse_format("s9(2)v9()"),
        Err(Error::InvalidFormatString(_))
    ));
    assert!(matches!(
        parse_format("s9(2)v9(3"),
        Err(Error::InvalidFormatString(_))
    ));
}

#[test]
fn error_variants() {
    assert_eq!(extract("", 0), Err(Error::EmptyField));
    assert_eq!(extract("", 7), Err(Error::EmptyField));
    assert_eq!(
        extract("12*", 0),
        Err(Error::ParseError {
            invalid_char: '*',
            index: 2
        })
    );
    assert!(matches!(extract("1{", 29), Err(Error::InvalidScale(29))));
    assert!(matches!(
        overpunch_ng::format(fixed(1, 0, false), 29),
        Err(Error::InvalidScale(29))
    ));
    match extract("99999999999999999999", 0) {
        Err(Error::OverflowError(s)) => assert_eq!(s, "99999999999999999999"),
        other => panic!("expected an overflow, got {:?}", other),
    }
    assert!(matches!(
        Ebcdic.encode(10, Sign::Positive),
        Err(Error::UnsupportedCharacter(_))
    ));
    assert!(matches!(
        Ebcdic.decode('*'),
        Err(Error::UnsupportedCharacter('*'))
    ));
    assert!(matches!(
        Ebcdic.decode_digit('A'),
        Err(Error::UnsupportedCharacter('A'))
    ));
}

#[test]
fn rounding_is_half_away_from_zero() {
    assert_eq!(overpunch_ng::format(fixed(14, 1, false), 0).unwrap(), "A");
    assert_eq!(overpunch_ng::format(fixed(15, 1, false), 0).unwrap(), "B");
    assert_eq!(overpunch_ng::format(fixed(25, 1, false), 0).unwrap(), "C");
    assert_eq!(overpunch_ng::format(fixed(15, 1, true), 0).unwrap(), "K");
    assert_eq!(overpunch_ng::format(fixed(1242, 2, false), 1).unwrap(), "12D");
    assert_eq!(overpunch_ng::format(fixed(1245, 2, false), 1).unwrap(), "12E");
}

#[test]
fn numeric_equality() {
    assert_eq!(fixed(2258, 1, false), fixed(22580, 2, false));
    assert_eq!(fixed(0, 0, true), fixed(0, 5, false));
    assert_eq!(fixed(10, 1, false), fixed(1, 0, false));
    assert_ne!(fixed(1, 0, false), fixed(1, 0, true));
    assert_ne!(fixed(123, 2, false), fixed(123, 3, false));
    assert_ne!(fixed(123, 2, false), fixed(0, 2, false));
}

#[test]
fn value_construction_and_accessors() {
    assert!(FixedDecimal::new(u64::MAX, 0, false).is_none());
    assert!(FixedDecimal::new(1, 29, false).is_none());
    assert!(FixedDecimal::new(9223372036854775807, 28, true).is_some());
    let v = fixed(500, 2, true);
    assert!(!v.is_zero());
    assert_eq!(v.sign(), Sign::Negative);
    assert!(fixed(0, 2, true).is_zero());
    assert_eq!(fixed(0, 2, false).sign(), Sign::Positive);
}

#[test]
fn decimal_rendering() {
    assert_eq!(fixed(1231, 2, false).to_decimal_string(), "12.31");
    assert_eq!(fixed(1231, 2, true).to_decimal_string(), "-12.31");
    assert_eq!(fixed(0, 2, true).to_decimal_string(), "-0.00");
    assert_eq!(fixed(5, 0, false).to_decimal_string(), "5");
    assert_eq!(fixed(5, 3, false).to_decimal_string(), "0.005");
}

#[test]
fn overpunch_table() {
    assert_eq!(Ebcdic.encode(0, Sign::Positive), Ok('{'));
    assert_eq!(Ebcdic.encode(0, Sign::Negative), Ok('}'));
    assert_eq!(Ebcdic.encode(1, Sign::Positive), Ok('A'));
    assert_eq!(Ebcdic.encode(9, Sign::Negative), Ok('R'));
    assert_eq!(Ebcdic.decode('C'), Ok((3, Sign::Positive)));
    assert_eq!(Ebcdic.decode('M'), Ok((4, Sign::Negative)));
    assert_eq!(Ebcdic.decode('7'), Ok((7, Sign::Positive)));
    assert_eq!(Ebcdic.decode_digit('8'), Ok(8));
}
