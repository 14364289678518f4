use mimo_desktop_bridge::cookies::{
    merge_set_cookie, parse_cookie_header, safe_cookie_header, sanitize_header_text,
};

fn raws(list: &[&str]) -> Vec<String> {
    list.iter().map(|s| s.to_string()).collect()
}

#[test]
fn cookie_headers_are_parsed() {
    let jar = parse_cookie_header(" a=1; b=x=y ;; c ; a=2;d=");
    assert_eq!(jar.get("a"), Some("2".to_string()));
    assert_eq!(jar.get("b"), Some("x=y".to_string()));
    assert_eq!(jar.get("c"), None);
    assert_eq!(jar.get("d"), Some("".to_string()));
    assert_eq!(jar.header(), "a=2; b=x=y; d=");
    assert_eq!(parse_cookie_header("").header(), "");
}

#[test]
fn set_cookies_are_merged() {
    let merged = merge_set_cookie(
        "a=1; b=2; c=3",
        &raws(&[
            "b=9; Path=/; HttpOnly",
            "a=; Max-Age=0",
            "c=DELETED",
            " d = v\u{7f}\u{4e2d}w ;Secure",
            "=nameless",
            "no pair",
        ]),
    );
    assert_eq!(merged, "b=9; d=vw");
}

#[test]
fn merged_header_reads_back() {
    let merged = merge_set_cookie("x=1; y=2", &raws(&["y=3", "z=4=5; Path=/"]));
    let jar = parse_cookie_header(&merged);
    assert_eq!(jar.get("x"), Some("1".to_string()));
    assert_eq!(jar.get("y"), Some("3".to_string()));
    assert_eq!(jar.get("z"), Some("4=5".to_string()));
    assert_eq!(merge_set_cookie(&merged, &raws(&[])), merged);
}

#[test]
fn cleaned_value_that_ends_with_space_is_read_back_without() {
    let merged = merge_set_cookie("", &raws(&["a=b \u{1}"]));
    assert_eq!(merged, "a=b ");
    assert_eq!(parse_cookie_header(&merged).get("a"), Some("b".to_string()));
}

#[test]
fn illegal_header_text_is_dropped() {
    assert_eq!(sanitize_header_text("a\r\nb\tc\u{0}d\u{e9}"), "ab\tcd");
    assert_eq!(sanitize_header_text(&sanitize_header_text("a\u{1}b")), "ab");
    assert_eq!(safe_cookie_header("k=v\r\n; l=w"), Some("k=v; l=w".to_string()));
    assert_eq!(safe_cookie_header(" \t\r\n"), None);
    assert_eq!(safe_cookie_header(""), None);
}
