use mimo_desktop_bridge::text;

#[test]
fn text_is_trimmed() {
    assert_eq!(text::trim(" \t\u{3000}a b\u{a0}\r\n"), "a b");
    assert_eq!(text::trim("   "), "");
    assert_eq!(text::trim_start("  a "), "a ");
}

#[test]
fn text_is_split() {
    assert_eq!(text::split("a;;b", ';'), vec!["a", "", "b"]);
    assert_eq!(text::split("", ';'), vec![""]);
    assert_eq!(text::split_once("k=v=w", '='), Some(("k".to_string(), "v=w".to_string())));
    assert_eq!(text::split_once("kv", '='), None);
    assert_eq!(text::lines("a\r\nb\n\nc"), vec!["a", "b", "", "c"]);
    assert_eq!(text::lines("a\n"), vec!["a"]);
    assert!(text::lines("").is_empty());
}

#[test]
fn text_is_found_and_replaced() {
    assert_eq!(text::find("abcabc", "ca"), Some(2));
    assert_eq!(text::find("abc", "x"), None);
    assert_eq!(text::replace("aaa", "aa", "b"), "ba");
    assert_eq!(text::replace("x.y.z", ".", "--"), "x--y--z");
    assert_eq!(text::strip("data: 1", "data:"), Some(" 1".to_string()));
    assert_eq!(text::strip("dat", "data:"), None);
    assert_eq!(text::first_chars("\u{4e2d}\u{6587}x", 2), "\u{4e2d}\u{6587}");
    assert!(text::eq_ignore_case("DeLeTed", "deleted"));
    assert!(!text::eq_ignore_case("delete", "deleted"));
    assert_eq!(text::join(&vec!["a".to_string(), "b".to_string()], "; "), "a; b");
}

#[test]
fn text_of_numbers() {
    assert_eq!(text::u64_text(0), "0");
    assert_eq!(text::u64_text(u64::MAX), "18446744073709551615");
    assert_eq!(text::i64_text(i64::MIN), "-9223372036854775808");
    assert_eq!(text::i64_text(70014), "70014");
}
