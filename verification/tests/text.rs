use package_json_upgrade::text::{
    append_wrapped, chars_of, contains, copy_strings, decimal_string, ends_with, is_white_space,
    list_has, padded_string, split_at_slashes, starts_with, str_eq, strip_prefix, strip_suffix,
    trim, trim_end, trim_start, upper_eq, CharClass,
};

#[test]
fn white_space_is_unicodes() {
    for code in 0u32..=0x10ffff {
        if let Some(c) = char::from_u32(code) {
            assert_eq!(is_white_space(c), c.is_whitespace(), "{code:x}");
        }
    }
}

#[test]
fn strings_are_searched() {
    let texts = ["", "a", "ab", "aab", "a\u{e9}b", "git+x", "x.git", "\u{1F600}"];
    for s in texts {
        assert_eq!(chars_of(s), s.chars().collect::<Vec<char>>());
        for t in texts {
            assert_eq!(str_eq(s, t), s == t);
            assert_eq!(starts_with(s, t), s.starts_with(t));
            assert_eq!(ends_with(s, t), s.ends_with(t));
            assert_eq!(contains(s, t), s.contains(t));
            assert_eq!(strip_prefix(s, t), s.strip_prefix(t));
            assert_eq!(strip_suffix(s, t), s.strip_suffix(t));
        }
    }
}

#[test]
fn strings_are_trimmed() {
    for s in ["", " ", " a ", "\u{3000}a b\n", "a", "//a//", " \t\u{a0}x\u{2028}"] {
        assert_eq!(trim(s), s.trim());
        assert_eq!(trim_start(s), s.trim_start());
        assert_eq!(trim_end(s, CharClass::White), s.trim_end());
        assert_eq!(trim_end(s, CharClass::Slash), s.trim_end_matches('/'));
    }
}

#[test]
fn strings_are_split_at_slashes() {
    for s in ["", "/", "a", "a/b", "/a//b/", "\u{e9}/x"] {
        assert_eq!(split_at_slashes(s), s.split('/').collect::<Vec<&str>>());
    }
}

#[test]
fn numbers_are_written() {
    for n in [0u64, 7, 9, 10, 42, 99, 100, 1234, 12345, u64::MAX] {
        assert_eq!(decimal_string(n), n.to_string());
        assert_eq!(padded_string(n), format!("{n:04}"));
    }
}

#[test]
fn lists_are_searched_and_copied() {
    let list = vec!["a".to_string(), "b".to_string()];
    assert!(list_has(&list, "b"));
    assert!(!list_has(&list, "c"));
    assert_eq!(copy_strings(&list), list);
}

#[test]
fn case_is_that_of_ascii() {
    assert!(upper_eq("hIgH", "HIGH"));
    assert!(!upper_eq("HIGH!", "HIGH"));
    assert!(!upper_eq("low", "low"));
    assert!(!upper_eq("\u{131}", "I"));
}

#[test]
fn optional_texts_are_wrapped() {
    let mut out = "x".to_string();
    append_wrapped(&mut out, "(", &None, ")");
    assert_eq!(out, "x");
    append_wrapped(&mut out, "(", &Some("y".to_string()), ")");
    assert_eq!(out, "x(y)");
}
