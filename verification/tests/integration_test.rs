use overpunch_ng::encoding::{AsciiSignLast, Encoding, Sign};
use overpunch_ng::error::Error;
use overpunch_ng::{
    convert_from_signed_format, convert_to_signed_format, extract, extract_with_encoding,
    format_with_encoding, FixedDecimal,
};

fn fixed(magnitude: u64, scale: u32, negative: bool) -> FixedDecimal {
    FixedDecimal::new(magnitude, scale, negative).unwrap()
}

#[test]
fn test_extract_basic_positive() {
    assert_eq!(extract("123A", 2).unwrap(), fixed(1231, 2, false));
    assert_eq!(extract("123{", 2).unwrap(), fixed(1230, 2, false));
    assert_eq!(extract("123I", 0).unwrap(), fixed(1239, 0, false));
    assert_eq!(extract("123", 0).unwrap(), fixed(123, 0, false));
    assert_eq!(extract("{", 0).unwrap(), fixed(0, 0, false));
}

#[test]
fn test_extract_basic_negative() {
    assert_eq!(extract("123J", 2).unwrap(), fixed(1231, 2, true));
    assert_eq!(extract("123}", 2).unwrap(), fixed(1230, 2, true));
    assert_eq!(extract("123R", 0).unwrap(), fixed(1239, 0, true));
    assert_eq!(extract("}", 0).unwrap(), fixed(0, 1, false));
}

#[test]
fn test_extract_zeros() {
    assert_eq!(extract("0{", 2).unwrap(), fixed(0, 2, false));
    assert_eq!(extract("00{", 2).unwrap(), fixed(0, 2, false));
    assert_eq!(extract("0}", 2).unwrap(), fixed(0, 2, true));
    assert_eq!(extract("00}", 2).unwrap(), fixed(0, 2, true));
}

#[test]
fn test_extract_errors() {
    assert_eq!(extract("", 2), Err(Error::EmptyField));
    assert_eq!(
        extract("12X", 1),
        Err(Error::ParseError {
            invalid_char: 'X',
            index: 2
        })
    );
    assert_eq!(
        extract("1A2", 1),
        Err(Error::ParseError {
            invalid_char: 'A',
            index: 1
        })
    );
}

#[test]
fn test_format_basic_positive() {
    assert_eq!(overpunch_ng::format(fixed(1231, 2, false), 2).unwrap(), "123A");
    assert_eq!(overpunch_ng::format(fixed(1230, 2, false), 2).unwrap(), "123{");
    assert_eq!(overpunch_ng::format(fixed(123, 1, false), 2).unwrap(), "123{");
    assert_eq!(overpunch_ng::format(fixed(1239, 0, false), 0).unwrap(), "123I");
    assert_eq!(overpunch_ng::format(fixed(123, 0, false), 0).unwrap(), "12C");
    assert_eq!(overpunch_ng::format(fixed(0, 0, false), 0).unwrap(), "{");
}

#[test]
fn test_format_basic_negative() {
    assert_eq!(overpunch_ng::format(fixed(1231, 2, true), 2).unwrap(), "123J");
    assert_eq!(overpunch_ng::format(fixed(1230, 2, true), 2).unwrap(), "123}");
    assert_eq!(overpunch_ng::format(fixed(123, 1, true), 2).unwrap(), "123}");
    assert_eq!(overpunch_ng::format(fixed(1239, 0, true), 0).unwrap(), "123R");
    assert_eq!(overpunch_ng::format(fixed(0, 0, true), 0).unwrap(), "}");
    assert_eq!(overpunch_ng::format(fixed(0, 0, true), 2).unwrap(), "00}");
}

#[test]
fn test_format_padding() {
    assert_eq!(overpunch_ng::format(fixed(123, 2, false), 4).unwrap(), "1230{");
    assert_eq!(overpunch_ng::format(fixed(5, 2, false), 2).unwrap(), "00E");
    assert_eq!(overpunch_ng::format(fixed(5, 2, true), 2).unwrap(), "00N");
}

#[test]
fn test_format_errors() {
    assert!(matches!(
        overpunch_ng::format(fixed(1, 0, false), usize::MAX),
        Err(Error::InvalidScale(_))
    ));
    let large_val = FixedDecimal {
        magnitude: 10000000000000000000,
        scale: 0,
        negative: false,
    };
    assert!(matches!(overpunch_ng::format(large_val, 0), Err(Error::OverflowError(_))));
    let neg_large_val = FixedDecimal {
        magnitude: 10000000000000000000,
        scale: 0,
        negative: true,
    };
    assert!(matches!(
        overpunch_ng::format(neg_large_val, 0),
        Err(Error::OverflowError(_))
    ));
}

#[test]
fn test_convert_functions() {
    assert_eq!(
        convert_from_signed_format("2258{", "s9(7)v99").unwrap(),
        fixed(2258, 1, false)
    );
    assert_eq!(
        convert_from_signed_format("18059B", "9(7)v999").unwrap(),
        fixed(180592, 3, false)
    );
    assert_eq!(
        convert_from_signed_format("123R", "s9(3)").unwrap(),
        fixed(1239, 0, true)
    );

    assert_eq!(
        convert_to_signed_format(fixed(2258, 1, false), "s9(7)v99").unwrap(),
        "2258{"
    );
    assert_eq!(
        convert_to_signed_format(fixed(180592, 3, false), "9(7)v999").unwrap(),
        "18059B"
    );
    assert_eq!(
        convert_to_signed_format(fixed(1239, 0, true), "s9(4)").unwrap(),
        "123R"
    );
}

#[test]
fn test_convert_format_errors() {
    assert!(matches!(
        convert_from_signed_format("123{", "s9(1)v9a"),
        Err(Error::InvalidFormatString(_))
    ));
    assert!(matches!(
        convert_to_signed_format(fixed(1, 0, false), "s9(1)v9a"),
        Err(Error::InvalidFormatString(_))
    ));
    assert!(matches!(
        convert_from_signed_format("123{", "xxx"),
        Err(Error::InvalidFormatString(_))
    ));
    assert!(matches!(
        convert_to_signed_format(fixed(1, 0, false), "xxx"),
        Err(Error::InvalidFormatString(_))
    ));
    assert!(convert_from_signed_format("123{", "s9(5)").is_ok());
    assert!(convert_to_signed_format(fixed(1, 0, false), "s9(5)").is_ok());
}

#[test]
fn test_custom_encoding() {
    let encoding = AsciiSignLast;
    assert_eq!(
        extract_with_encoding("1234", 2, &encoding).unwrap(),
        fixed(1234, 2, false)
    );
    assert_eq!(
        extract_with_encoding("123q", 2, &encoding).unwrap(),
        fixed(1231, 2, true)
    );
    assert_eq!(
        extract_with_encoding("123p", 2, &encoding).unwrap(),
        fixed(1230, 2, true)
    );

    assert_eq!(
        format_with_encoding(fixed(1234, 2, false), 2, &encoding).unwrap(),
        "1234"
    );
    assert_eq!(
        format_with_encoding(fixed(1231, 2, true), 2, &encoding).unwrap(),
        "123q"
    );
    assert_eq!(
        format_with_encoding(fixed(1230, 2, true), 2, &encoding).unwrap(),
        "123p"
    );
}

#[test]
fn test_custom_encoding_table() {
    let encoding = AsciiSignLast;
    assert_eq!(encoding.encode(7, Sign::Positive), Ok('7'));
    assert_eq!(encoding.encode(7, Sign::Negative), Ok('w'));
    assert_eq!(encoding.decode('y'), Ok((9, Sign::Negative)));
    assert_eq!(encoding.decode('4'), Ok((4, Sign::Positive)));
    assert!(matches!(
        encoding.decode('J'),
        Err(Error::UnsupportedCharacter('J'))
    ));
}
