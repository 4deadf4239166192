use sync_server::text::{split_words, text_equals, trim};

#[test]
fn trim_removes_surrounding_whitespace() {
    assert_eq!(trim("  stop \n"), "stop");
    assert_eq!(trim("a b"), "a b");
    assert_eq!(trim(" \t\n "), "");
    assert_eq!(trim(""), "");
    assert_eq!(trim("\u{3000}x\u{3000}"), "x");
}

#[test]
fn split_words_as_split_whitespace() {
    for line in ["fence 100", "  snap   my dir \n", "", "   ", "one", "a\tb\nc"] {
        let expected: Vec<String> = line.split_whitespace().map(String::from).collect();
        assert_eq!(split_words(line), expected, "{line:?}");
    }
}

#[test]
fn text_equals_compares_characters() {
    assert!(text_equals("abc", "abc"));
    assert!(!text_equals("abc", "abd"));
    assert!(!text_equals("ab", "abc"));
    assert!(text_equals("", ""));
}

#[test]
fn is_whitespace_agrees_with_std() {
    for u in 0u32..=0x10ffff {
        if let Some(c) = char::from_u32(u) {
            assert_eq!(sync_server::text::is_whitespace(c), c.is_whitespace(), "{u:#x}");
        }
    }
}
