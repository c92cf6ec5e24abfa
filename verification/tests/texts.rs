use iconpacker::text::{
    chars_of, is_white_space, parse_digits, parse_unsigned, push_decimal, push_hex, push_signed,
    strip_white_space, trim_chars,
};

#[test]
fn white_space_is_what_char_says() {
    for n in 0..0x3100u32 {
        if let Some(c) = char::from_u32(n) {
            assert_eq!(is_white_space(c), c.is_whitespace(), "{:?}", c);
        }
    }
    assert!(!is_white_space('\u{feff}'));
    assert!(!is_white_space('\u{10ffff}'));
}

#[test]
fn stripping_drops_white_space_everywhere() {
    assert_eq!(strip_white_space(" My  Icon\tFont "), "MyIconFont");
    assert_eq!(strip_white_space(""), "");
    assert_eq!(strip_white_space("\u{2003}\u{e9}\u{1F600} "), "\u{e9}\u{1F600}");
}

#[test]
fn trimming_keeps_what_is_inside() {
    let chars = chars_of(" a b ");
    assert_eq!(trim_chars(&chars), vec!['a', ' ', 'b']);
    assert_eq!(trim_chars(&chars_of(" \n")), Vec::<char>::new());
}

#[test]
fn numbers_are_read_from_a_place_on() {
    let chars = chars_of("0xff");
    assert_eq!(parse_digits(&chars, 2, 16), Some(255));
    assert_eq!(parse_digits(&chars, 0, 16), None);
    assert_eq!(parse_digits(&chars, 4, 16), None);
    assert_eq!(parse_digits(&chars_of("12"), 0, 10), Some(12));
}

#[test]
fn numbers_may_have_one_sign_in_front() {
    assert_eq!(parse_unsigned(&chars_of("12"), 10), Some(12));
    assert_eq!(parse_unsigned(&chars_of("+12"), 10), Some(12));
    for text in ["", "+", "++1", "-1", "1+"] {
        assert_eq!(parse_unsigned(&chars_of(text), 10), None, "{:?}", text);
    }
    assert_eq!(parse_digits(&chars_of("+12"), 0, 10), None);
}

#[test]
fn numbers_are_written_as_format_writes_them() {
    for n in [0u32, 1, 9, 10, 255, 65535, 65536, u32::MAX] {
        let mut hex = String::from(">");
        push_hex(&mut hex, n, 4);
        assert_eq!(hex, format!(">{:04X}", n));
        let mut decimal = String::new();
        push_decimal(&mut decimal, n as u64);
        assert_eq!(decimal, format!("{}", n));
    }
    for n in [0i32, -1, 7, -120, i32::MAX, i32::MIN] {
        let mut signed = String::new();
        push_signed(&mut signed, n);
        assert_eq!(signed, format!("{}", n));
    }
    let mut decimal = String::new();
    push_decimal(&mut decimal, u64::MAX);
    assert_eq!(decimal, "18446744073709551615");
}
