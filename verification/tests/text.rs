use squeek_layout::text::{
    char_at, decimal_string, is_c_string, nul_error_debug_string, nul_error_display_string,
    split_ascii_whitespace, unicode_keysym_name,
};

#[test]
fn split_on_every_separator() {
    assert_eq!(split_ascii_whitespace("a b"), vec!["a", "b"]);
    assert_eq!(split_ascii_whitespace("  a\tb\nc\x0Cd\re  "), vec!["a", "b", "c", "d", "e"]);
    assert_eq!(split_ascii_whitespace("Shift_L   BackSpace"), vec!["Shift_L", "BackSpace"]);
}

#[test]
fn split_empty_and_blank() {
    assert_eq!(split_ascii_whitespace(""), Vec::<String>::new());
    assert_eq!(split_ascii_whitespace(" \t\n"), Vec::<String>::new());
}

#[test]
fn split_keeps_other_white_space() {
    // A no-break space is no ASCII white space.
    assert_eq!(split_ascii_whitespace("a\u{a0}b c"), vec!["a\u{a0}b", "c"]);
    assert_eq!(split_ascii_whitespace("å ŧ"), vec!["å", "ŧ"]);
}

#[test]
fn split_agrees_with_std() {
    for row in ["q w e r t y", " x  y ", "", "one", "\t\ta\u{b}b\t"] {
        let expected: Vec<String> = row.split_ascii_whitespace().map(String::from).collect();
        assert_eq!(split_ascii_whitespace(row), expected);
    }
}

#[test]
fn keysym_names_of_code_points() {
    assert_eq!(unicode_keysym_name('.'), "U002E");
    assert_eq!(unicode_keysym_name('\0'), "U0000");
    assert_eq!(unicode_keysym_name('a'), "U0061");
    assert_eq!(unicode_keysym_name('å'), "U00E5");
    assert_eq!(unicode_keysym_name('€'), "U20AC");
    assert_eq!(unicode_keysym_name('\u{ffff}'), "UFFFF");
    assert_eq!(unicode_keysym_name('\u{10000}'), "U10000");
    assert_eq!(unicode_keysym_name('😀'), "U1F600");
    assert_eq!(unicode_keysym_name('\u{abcde}'), "UABCDE");
    assert_eq!(unicode_keysym_name('\u{100000}'), "U100000");
    assert_eq!(unicode_keysym_name('\u{10ffff}'), "U10FFFF");
}

#[test]
fn keysym_names_agree_with_format() {
    for c in ['\u{1}', '\u{9f}', '\u{fff}', '\u{1000}', '\u{d7ff}', '\u{e000}', '\u{fffff}'] {
        assert_eq!(unicode_keysym_name(c), format!("U{:04X}", c as u32));
    }
}

#[test]
fn c_strings_hold_no_nul() {
    assert!(is_c_string(""));
    assert!(is_c_string("text"));
    assert!(!is_c_string("\0"));
    assert!(!is_c_string("te\0xt"));
    assert!(!is_c_string("text\0"));
}

#[test]
fn characters_by_position() {
    assert_eq!(char_at("aåb", 0), "a");
    assert_eq!(char_at("aåb", 1), "å");
    assert_eq!(char_at("aåb", 2), "b");
}

#[test]
fn numbers_in_decimal() {
    assert_eq!(decimal_string(0), "0");
    assert_eq!(decimal_string(7), "7");
    assert_eq!(decimal_string(10), "10");
    assert_eq!(decimal_string(255), "255");
    assert_eq!(decimal_string(1_000_000), "1000000");
    assert_eq!(decimal_string(usize::MAX), usize::MAX.to_string());
}

#[test]
fn nul_errors_in_words() {
    assert_eq!(nul_error_display_string("\0"), "nul byte found in provided data at position: 0");
    assert_eq!(nul_error_debug_string("\0"), "NulError(0, [0])");
    assert_eq!(
        nul_error_display_string("a\0b\0"),
        "nul byte found in provided data at position: 1"
    );
    assert_eq!(nul_error_debug_string("a\0b\0"), "NulError(1, [97, 0, 98, 0])");
    // The position counts bytes, not characters.
    assert_eq!(
        nul_error_display_string("å\0"),
        "nul byte found in provided data at position: 2"
    );
    assert_eq!(nul_error_debug_string("å\0"), "NulError(2, [195, 165, 0])");
    assert_eq!(
        nul_error_debug_string("€😀\0x"),
        "NulError(7, [226, 130, 172, 240, 159, 152, 128, 0, 120])"
    );
}
