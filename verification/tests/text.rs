use hawk::text::{blank, chars_of, text_of, trim_end, truncate, white_space};

#[test]
fn short_text_is_kept() {
    assert_eq!(truncate("", 0), "");
    assert_eq!(truncate("", 5), "");
    assert_eq!(truncate("abc", 3), "abc");
    assert_eq!(truncate("abc", 10), "abc");
    assert_eq!(truncate("äöü", 3), "äöü");
}

#[test]
fn long_text_ends_in_an_ellipsis() {
    assert_eq!(truncate("abcd", 3), "ab…");
    assert_eq!(truncate("abcdefgh", 5), "abcd…");
    assert_eq!(truncate("äöüß", 3), "äö…");
    assert_eq!(truncate("ab", 1), "…");
    assert_eq!(truncate("a", 0), "…");
}

#[test]
fn truncated_text_fits_and_stays() {
    for max in 0..12 {
        let once = truncate("some directory", max);
        assert!(once.chars().count() <= max || max == 0);
        assert_eq!(truncate(&once, max), once);
    }
}

#[test]
fn white_space_is_that_of_unicode() {
    for code in 0..0x110000u32 {
        if let Some(c) = char::from_u32(code) {
            assert_eq!(white_space(c), c.is_whitespace(), "{:x}", code);
        }
    }
}

#[test]
fn white_space_at_the_end_is_removed() {
    assert_eq!(trim_end(""), "");
    assert_eq!(trim_end("  a b \t\u{a0}\u{3000}\n"), "  a b");
    assert_eq!(trim_end(" \n "), "");
    for text in ["a", " a ", "\u{85}x\u{2003}", "x\u{200b} ", "▸ é  "] {
        assert_eq!(trim_end(text), text.trim_end());
    }
}

#[test]
fn blank_text_is_all_white_space() {
    assert!(blank(""));
    assert!(blank(" \t\u{2028}"));
    assert!(!blank(" x "));
    assert!(!blank("\u{200b}"));
}

#[test]
fn characters_and_text() {
    let chars = chars_of("aé▸");
    assert_eq!(chars, vec!['a', 'é', '▸']);
    assert_eq!(text_of(&chars, 0), "");
    assert_eq!(text_of(&chars, 2), "aé");
    assert_eq!(text_of(&chars, 3), "aé▸");
}
