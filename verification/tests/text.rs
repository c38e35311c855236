//! Clipping, trimming, numerals and searching.

use agent::text::{
    chars_of, clip, contains, count_matches, count_places, find_from, is_blank, is_white_space, join,
    push_decimal, push_signed, same_text, split, starts_with, trim, trim_end, trim_trailing,
};

#[test]
fn clip_keeps_short_text_and_marks_long_text() {
    assert_eq!(clip("abc", 10), "abc");
    assert_eq!(clip("abcdef", 3), "abc\n[output truncated]");
    // Must not split a multi-byte character.
    assert_eq!(clip("日本語", 4), "日\n[output truncated]");
}

#[test]
fn clip_at_the_edges() {
    assert_eq!(clip("", 0), "");
    assert_eq!(clip("abc", 3), "abc");
    assert_eq!(clip("abc", 0), "\n[output truncated]");
    assert_eq!(clip("日本語", 9), "日本語");
    assert_eq!(clip("日本語", 8), "日本\n[output truncated]");
    assert_eq!(clip("🦀a", 3), "\n[output truncated]");
    assert_eq!(clip("éa", 2), "é\n[output truncated]");
    assert_eq!(clip("a", usize::MAX), "a");
}

#[test]
fn whitespace_is_what_unicode_says() {
    for code in 0u32..=0x10ffff {
        if let Some(c) = char::from_u32(code) {
            assert_eq!(is_white_space(c), c.is_whitespace(), "{code:x}");
        }
    }
}

#[test]
fn trimming_agrees_with_std() {
    for text in ["", " ", "a", " a ", "\t\u{3000}a b\u{85}\n", "a\r\n", "\u{a0}", "日 本"] {
        assert_eq!(trim(text), text.trim(), "{text:?}");
        assert_eq!(trim_end(text), text.trim_end(), "{text:?}");
        assert_eq!(is_blank(text), text.trim().is_empty(), "{text:?}");
        assert_eq!(trim_trailing(text, '\n'), text.trim_end_matches('\n'), "{text:?}");
    }
    assert_eq!(trim_trailing("https://a/b///", '/'), "https://a/b");
    assert_eq!(trim_trailing("///", '/'), "");
}

#[test]
fn splitting_and_joining_agree_with_std() {
    for text in ["", "/", "a", "a/b", "/a//b/", "日/本"] {
        let parts: Vec<String> = text.split('/').map(str::to_string).collect();
        assert_eq!(split(text, '/'), parts, "{text:?}");
        assert_eq!(join(&parts, "/"), text);
    }
    assert_eq!(join(&Vec::new(), ", "), "");
    assert_eq!(join(&vec!["a".to_string(), "b".to_string()], ", "), "a, b");
}

#[test]
fn numerals_agree_with_std() {
    for n in [0u64, 7, 10, 99, 100, 1234567890, u64::MAX] {
        let mut text = "n=".to_string();
        push_decimal(&mut text, n);
        assert_eq!(text, format!("n={n}"));
    }
    for n in [0i32, 1, -1, 127, -128, i32::MAX, i32::MIN] {
        let mut text = String::new();
        push_signed(&mut text, n);
        assert_eq!(text, n.to_string());
    }
}

#[test]
fn searching_agrees_with_std() {
    for (text, part) in [
        ("abcabc", "abc"),
        ("aaaa", "aa"),
        ("aaa", "aa"),
        ("x", "xy"),
        ("", "a"),
        ("日本語日本", "日本"),
        ("abab", "ba"),
    ] {
        let chars = chars_of(text);
        let wanted = chars_of(part);
        assert_eq!(count_matches(&chars, &wanted), text.matches(part).count(), "{text} {part}");
        let places = (0..chars.len()).filter(|at| chars[*at..].starts_with(&wanted)).count();
        assert_eq!(count_places(&chars, &wanted), places, "{text} {part}");
        assert_eq!(contains(text, part), text.contains(part));
        assert_eq!(starts_with(text, part), text.starts_with(part));
        let place = text.find(part).map(|at| text[..at].chars().count());
        assert_eq!(find_from(&chars, &wanted, 0), place);
    }
    assert_eq!(count_places(&chars_of("aaaa"), &chars_of("aa")), 3);
    assert!(contains("abc", ""));
    assert!(starts_with("abc", ""));
    assert!(same_text("a", "a"));
    assert!(!same_text("a", "b"));
}
