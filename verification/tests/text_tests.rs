use lifecycle::text::{chars_of, is_white_space_char, trim};

#[test]
fn white_space_is_unicode_white_space() {
    for u in 0..=0x10FFFFu32 {
        if let Some(c) = char::from_u32(u) {
            assert_eq!(is_white_space_char(c), c.is_whitespace(), "U+{:04X}", u);
        }
    }
}

#[test]
fn trim_matches_str_trim() {
    for s in ["", " ", "a", " a ", "\t\n a b \r\n", "\u{3000}x\u{a0}", "\u{85}\u{2028}", "x y", "  \u{200b}  "] {
        assert_eq!(trim(s), s.trim(), "{:?}", s);
    }
}

#[test]
fn chars_in_order() {
    assert_eq!(chars_of("aé\u{3000}"), vec!['a', 'é', '\u{3000}']);
}

#[test]
fn padding_does_not_change_trimming() {
    for s in ["0.7", " a b ", ""] {
        let padded = format!("\u{2003}\t{}\n\u{3000}", s);
        assert_eq!(trim(&padded), trim(s));
    }
}
