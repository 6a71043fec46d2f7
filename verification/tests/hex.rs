use sonar::auth::hex::{hex_value, lower_digit_text};

#[test]
fn hex_value_of_decimal_digits() {
    assert_eq!(hex_value('0'), Some(0));
    assert_eq!(hex_value('1'), Some(1));
    assert_eq!(hex_value('9'), Some(9));
}

#[test]
fn hex_value_of_letters() {
    assert_eq!(hex_value('a'), Some(10));
    assert_eq!(hex_value('f'), Some(15));
    assert_eq!(hex_value('A'), Some(10));
    assert_eq!(hex_value('F'), Some(15));
    assert_eq!(hex_value('c'), Some(12));
    assert_eq!(hex_value('C'), Some(12));
}

#[test]
fn hex_value_of_other_characters() {
    for c in ['g', 'G', '/', ':', '@', '`', '+', '-', ' ', '$', 'x', 'é', '\u{ff10}', '\u{130}'] {
        assert_eq!(hex_value(c), None, "{:?}", c);
    }
}

#[test]
fn hex_value_agrees_with_to_digit() {
    for code in 0u32..0x300 {
        if let Some(c) = char::from_u32(code) {
            assert_eq!(hex_value(c).map(u32::from), c.to_digit(16), "{:?}", c);
        }
    }
}

#[test]
fn lower_digit_text_of_each_value() {
    let expected = [
        "0", "1", "2", "3", "4", "5", "6", "7", "8", "9", "a", "b", "c", "d", "e", "f",
    ];
    for value in 0u8..16 {
        assert_eq!(lower_digit_text(value), expected[value as usize]);
    }
}

#[test]
fn lower_digit_text_reads_back() {
    for value in 0u8..16 {
        let text = lower_digit_text(value);
        assert_eq!(text.len(), 1);
        assert_eq!(hex_value(text.chars().next().unwrap()), Some(value));
    }
}
