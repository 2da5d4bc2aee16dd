use restore_engine::text::{is_space, matches_at, replace, trim};

#[test]
fn is_space_agrees_with_the_standard_library_on_every_character() {
    let mut n: u32 = 0;
    while n <= 0x10ffff {
        if let Some(c) = char::from_u32(n) {
            assert_eq!(is_space(c), c.is_whitespace(), "character {:x}", n);
        }
        n += 1;
    }
}

#[test]
fn trim_removes_white_space_at_both_ends_only() {
    assert_eq!(trim("  a b  "), "a b");
    assert_eq!(trim("\t\n a\u{a0}b \r\n"), "a\u{a0}b");
    assert_eq!(trim("\u{3000}x\u{2003}"), "x");
    assert_eq!(trim("x"), "x");
    assert_eq!(trim(""), "");
    assert_eq!(trim(" \t "), "");
    assert_eq!(trim("é "), "é");
}

#[test]
fn trim_agrees_with_the_standard_library() {
    let samples = [
        "", " ", "a", " a", "a ", " a ", "  apt  install  ", "\n\tx\u{85}", "\u{200b} x \u{200b}",
        "日本 語 ", " \u{1680}\u{2028}\u{2029}z\u{202f}\u{205f}",
    ];
    for s in samples {
        assert_eq!(trim(s), s.trim(), "sample {:?}", s);
    }
}

#[test]
fn matches_at_compares_the_characters_in_place() {
    assert!(matches_at("hello", "ell", 1));
    assert!(!matches_at("hello", "ell", 0));
    assert!(matches_at("hello", "", 5));
    assert!(matches_at("héllo", "llo", 2));
    assert!(matches_at("abc", "abc", 0));
    assert!(!matches_at("abc", "bcd", 1));
    assert!(!matches_at("abc", "a", 7));
    assert!(!matches_at("abc", "", 4));
}

#[test]
fn replace_takes_matches_from_the_left_without_overlap() {
    assert_eq!(replace("aaa", "aa", "b"), "ba");
    assert_eq!(replace("aaaa", "aa", "b"), "bb");
    assert_eq!(replace("abab", "ab", "ab"), "abab");
    assert_eq!(replace("abcabc", "bc", ""), "aa");
    assert_eq!(replace("x", "xyz", "q"), "x");
    assert_eq!(replace("", "a", "b"), "");
    assert_eq!(replace("a{{p}}b{{p}}", "{{p}}", "{{p}}{{p}}"), "a{{p}}{{p}}b{{p}}{{p}}");
    assert_eq!(replace("ééé", "é", "e"), "eee");
}

#[test]
fn replace_agrees_with_the_standard_library() {
    let texts = ["", "a", "aaa", "abcabcab", "{{a}}{{b}}{{a}}", "{{{{a}}}}", "x{{a}", "日本語本"];
    let patterns = ["a", "aa", "ab", "bc", "{{a}}", "{{", "}}", "本", "abcabcabc"];
    let replacements = ["", "a", "zz", "{{a}}"];
    for t in texts {
        for p in patterns {
            for r in replacements {
                assert_eq!(replace(t, p, r), t.replace(p, r), "{:?} {:?} {:?}", t, p, r);
            }
        }
    }
}

#[test]
fn replace_with_empty_pattern_changes_nothing() {
    assert_eq!(replace("abc", "", "-"), "abc");
    assert_eq!(replace("", "", "-"), "");
}
