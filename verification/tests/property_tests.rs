use overpunch_ng::{extract, FixedDecimal};

fn fixed(magnitude: u64, scale: u32, negative: bool) -> FixedDecimal {
    FixedDecimal::new(magnitude, scale, negative).unwrap()
}

#[test]
fn zero_formatting_consistent() {
    for decimals in 0..=10usize {
        let pos = overpunch_ng::format(fixed(0, 0, false), decimals).unwrap();
        let neg = overpunch_ng::format(fixed(0, 0, true), decimals).unwrap();
        if decimals == 0 {
            assert!(pos == "{" && neg == "}");
        } else {
            let pos_prefix = &pos[0..pos.len() - 1];
            let neg_prefix = &neg[0..neg.len() - 1];
            let pos_last = pos.chars().last().unwrap();
            let neg_last = neg.chars().last().unwrap();
            assert!(pos_prefix == neg_prefix && pos_last == '{' && neg_last == '}');
        }
    }
}

#[test]
fn edge_cases() {
    for decimals in 0..5usize {
        let pos_result = overpunch_ng::format(fixed(0, 0, false), decimals).unwrap();
        assert!(extract(&pos_result, decimals).is_ok());

        let neg_result = overpunch_ng::format(fixed(0, 0, true), decimals).unwrap();
        assert!(extract(&neg_result, decimals).is_ok());

        assert_eq!(pos_result.chars().last().unwrap(), '{');
        assert_eq!(neg_result.chars().last().unwrap(), '}');
    }

    let large_val = fixed(9999999999999, 4, false);
    assert!(overpunch_ng::format(large_val, 4).is_ok());

    let small_val = fixed(9999999999999, 4, true);
    assert!(overpunch_ng::format(small_val, 4).is_ok());

    for (ch, expected) in &[
        ('0', 0u64),
        ('1', 1),
        ('2', 2),
        ('3', 3),
        ('4', 4),
        ('5', 5),
        ('6', 6),
        ('7', 7),
        ('8', 8),
        ('9', 9),
        ('{', 0),
        ('A', 1),
        ('B', 2),
        ('C', 3),
        ('D', 4),
        ('E', 5),
        ('F', 6),
        ('G', 7),
        ('H', 8),
        ('I', 9),
        ('}', 0),
        ('J', 1),
        ('K', 2),
        ('L', 3),
        ('M', 4),
        ('N', 5),
        ('O', 6),
        ('P', 7),
        ('Q', 8),
        ('R', 9),
    ] {
        let test_str = format!("123{}", ch);

        let result = extract(&test_str, 0).unwrap();

        let expected_decimal = match ch {
            '{' => fixed(1230, 0, false),
            '}' => fixed(1230, 0, true),
            'A'..='I' => fixed(1230 + expected, 0, false),
            'J'..='R' => fixed(1230 + expected, 0, true),
            '0'..='9' => fixed(1230 + expected, 0, false),
            _ => panic!("Unexpected character in test"),
        };

        assert_eq!(
            result, expected_decimal,
            "Failed for char '{}': expected {:?}, got {:?}",
            ch, expected_decimal, result
        );
    }
}
