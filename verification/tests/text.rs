use voicemcu::common::text::{
    decimal_text, eq_ignore_ascii_case, is_control, is_space, parse_number, trim,
};

#[test]
fn character_classes_are_those_of_unicode() {
    for code in 0..=0x10_ffffu32 {
        if let Some(c) = char::from_u32(code) {
            assert_eq!(is_space(c), c.is_whitespace(), "{code:x}");
            assert_eq!(is_control(c), c.is_control(), "{code:x}");
        }
    }
}

#[test]
fn trimming_and_comparing() {
    for s in ["", "  ", " a b ", "\u{2003}x\u{a0}", "\u{200b}x", "x"] {
        assert_eq!(trim(s), s.trim());
    }
    for (a, b) in [("Bob", "bOB"), ("bob", "bobo"), ("\u{e9}", "\u{c9}"), ("[", "{"), ("@", "`")] {
        assert_eq!(eq_ignore_ascii_case(a, b), a.eq_ignore_ascii_case(b), "{a} {b}");
    }
}

#[test]
fn numbers_are_read_and_written() {
    for n in [0, 9, 10, 907, u64::MAX] {
        assert_eq!(decimal_text(n), n.to_string());
        assert_eq!(parse_number(&n.to_string()), Some(n));
    }
    for s in ["", "+", "+7", "007", "-0", "1_0", "18446744073709551616", "\u{664}", " 1"] {
        assert_eq!(parse_number(s), s.parse::<u64>().ok(), "{s}");
    }
}
