use main_logic::names::{
    chars_of, contains, ends_with, eq_ignore_ascii_case, holds_exactly, join, str_eq, to_ascii_lowercase,
    trim_end_matches,
};

const SAMPLES: [&str; 16] = [
    "", "a", "A", "abc", "ABC", "aBc", "abcd", "Z", "z", "[", "{", "@", "`", "é", "É", "straße.EXE",
];

#[test]
fn comparison_ignores_ascii_case_like_the_standard_library() {
    for a in SAMPLES {
        for b in SAMPLES {
            assert_eq!(eq_ignore_ascii_case(a, b), a.eq_ignore_ascii_case(b), "{:?} vs {:?}", a, b);
            assert_eq!(str_eq(a, b), a == b, "{:?} vs {:?}", a, b);
        }
    }
    assert!(eq_ignore_ascii_case("Notepad.EXE", "notepad.exe"));
    assert!(!eq_ignore_ascii_case("notepad", "notepad.exe"));
    // '@' and '`', '[' and '{' differ by the same bit as letters do, and are no letters.
    assert!(!eq_ignore_ascii_case("@", "`"));
    assert!(!eq_ignore_ascii_case("[", "{"));
}

#[test]
fn ascii_lowercase_changes_capital_letters_only() {
    for s in SAMPLES {
        assert_eq!(to_ascii_lowercase(s), s.to_ascii_lowercase(), "{:?}", s);
    }
    assert_eq!(to_ascii_lowercase("ABCDEFGHIJKLMNOPQRSTUVWXYZ@[É"), "abcdefghijklmnopqrstuvwxyz@[É");
}

#[test]
fn suffixes_and_parts_are_found() {
    let hays = ["", "a", "code", "code.exe", "xcodex", ".exe", "éa", "aaa", "ab"];
    let needles = ["", "a", "e", ".exe", "code", "codex", "é", "aa", "aaaa", "b"];
    for hay in hays {
        for needle in needles {
            assert_eq!(contains(hay, needle), hay.contains(needle), "{:?} in {:?}", needle, hay);
            assert_eq!(ends_with(hay, needle), hay.ends_with(needle), "{:?} ends {:?}", needle, hay);
        }
    }
}

#[test]
fn trailing_characters_are_dropped() {
    for s in ["", "/", "//", "a/", "a//", "/a", "a/b/", "http://x.y/rest///", "é//"] {
        assert_eq!(trim_end_matches(s, '/'), s.trim_end_matches('/'), "{:?}", s);
    }
    assert_eq!(trim_end_matches("xyy", 'y'), "x");
}

#[test]
fn texts_are_joined_and_found() {
    let parts: Vec<String> = vec!["a".to_string(), "".to_string(), "b c".to_string()];
    assert_eq!(join(&parts, ","), "a,,b c");
    assert_eq!(join(&parts, " - "), parts.join(" - "));
    assert_eq!(join(&vec![], ","), "");
    assert_eq!(join(&vec!["x".to_string()], ","), "x");
    assert!(holds_exactly(&parts, &"".to_string()));
    assert!(holds_exactly(&parts, &"b c".to_string()));
    assert!(!holds_exactly(&parts, &"B C".to_string()));
    assert_eq!(chars_of("a\u{10ffff}é"), vec!['a', '\u{10ffff}', 'é']);
}
