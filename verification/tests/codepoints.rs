use iconpacker::config::{codepoint_hex, parse_codepoint};

#[test]
fn hexadecimal_keys() {
    assert_eq!(parse_codepoint("0xE000"), Some(0xE000));
    assert_eq!(parse_codepoint("0XE000"), Some(0xE000));
    assert_eq!(parse_codepoint("U+E000"), Some(0xE000));
    assert_eq!(parse_codepoint("u+e000"), Some(0xE000));
    assert_eq!(parse_codepoint("U+1F600"), Some(0x1F600));
}

#[test]
fn decimal_keys() {
    assert_eq!(parse_codepoint("57344"), Some(0xE000));
    assert_eq!(parse_codepoint("0"), Some(0));
    assert_eq!(parse_codepoint("+65"), Some(65));
    assert_eq!(parse_codepoint("4294967295"), Some(u32::MAX));
}

#[test]
fn keys_that_name_no_codepoint() {
    for key in [
        "", " ", "0x", "U+", "+", "-1", "E000", "0xG", "U+-5", "4294967296", "0x100000000",
        "U +41", "1 2", "\u{662}",
    ] {
        assert_eq!(parse_codepoint(key), None, "{:?}", key);
    }
}

#[test]
fn no_sign_follows_a_prefix() {
    for key in ["U++41", "u++41", "0x+E000", "0X+E000", "U++E000", "0x-E000"] {
        assert_eq!(parse_codepoint(key), None, "{:?}", key);
    }
}

#[test]
fn white_space_around_a_key_is_ignored() {
    assert_eq!(parse_codepoint("  U+41\t\n"), Some(0x41));
    assert_eq!(parse_codepoint("\u{3000}65\u{a0}"), Some(65));
}

#[test]
fn prefixes_agree() {
    for hex in ["0", "e001", "E001", "10ffff", "xyz", "", "+41"] {
        let plain = parse_codepoint(&format!("U+{}", hex));
        assert_eq!(parse_codepoint(&format!("u+{}", hex)), plain);
        assert_eq!(parse_codepoint(&format!("0x{}", hex)), plain);
        assert_eq!(parse_codepoint(&format!("0X{}", hex)), plain);
    }
}

#[test]
fn codepoints_are_shown_with_four_digits_or_more() {
    assert_eq!(codepoint_hex(0), "U+0000");
    assert_eq!(codepoint_hex(0x41), "U+0041");
    assert_eq!(codepoint_hex(0xE0AF), "U+E0AF");
    assert_eq!(codepoint_hex(0x1F600), "U+1F600");
    assert_eq!(codepoint_hex(u32::MAX), "U+FFFFFFFF");
}

#[test]
fn keys_in_any_case_and_decimal_keys_read_back() {
    for codepoint in [0u32, 9, 0x10, 0xABC, 0xE000, 0x10FFFF, 0xABCDEF01, u32::MAX] {
        let shown = codepoint_hex(codepoint);
        assert_eq!(parse_codepoint(&shown.to_lowercase()), Some(codepoint));
        assert_eq!(parse_codepoint(&format!("{}", codepoint)), Some(codepoint));
        assert_eq!(parse_codepoint(&format!(" 0X{:x} ", codepoint)), Some(codepoint));
    }
}

#[test]
fn shown_codepoints_read_back() {
    for codepoint in [0, 9, 0x10, 0xFFF, 0xE000, 0x10FFFF, 0xABCDEF01, u32::MAX] {
        assert_eq!(parse_codepoint(&codepoint_hex(codepoint)), Some(codepoint));
    }
}
