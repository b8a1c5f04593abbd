use seclab_suite_runtime::text::{blank, is_white_space_char, same_text, text_precedes, trimmed};

#[test]
fn whitespace_matches_std() {
    for code in 0u32..=0x10FFFF {
        if let Some(c) = char::from_u32(code) {
            assert_eq!(is_white_space_char(c), c.is_whitespace(), "{code:#x}");
        }
    }
    assert_eq!(is_white_space_char('\u{feff}'), '\u{feff}'.is_whitespace());
}

#[test]
fn trim_matches_std() {
    let samples = [
        "", " ", "a", " a ", "\t\na b\r\n", "\u{3000}全角\u{3000}", "\u{85}x\u{2028}",
        "  \u{200b}zero-width\u{200b} ", "end\u{a0}", "é", "  多 字 节  ",
    ];
    for s in samples {
        assert_eq!(trimmed(s), s.trim(), "{s:?}");
        assert_eq!(blank(s), s.trim().is_empty(), "{s:?}");
    }
}

#[test]
fn text_equality() {
    assert!(same_text("abc", "abc"));
    assert!(!same_text("abc", "abd"));
    assert!(!same_text("abc", "ab"));
    assert!(same_text("", ""));
}

#[test]
fn text_order_matches_string_order() {
    let samples = ["", "a", "b", "ab", "aa", "A", "Z", "é", "e", "😀", "\u{ffff}", "ä", "a\u{0}", "abc", "abd"];
    for a in samples {
        for b in samples {
            assert_eq!(text_precedes(a, b), a.to_string() < b.to_string(), "{a:?} {b:?}");
        }
    }
}
