use mimo_desktop_bridge::json::{Json, JsonObject};
use mimo_desktop_bridge::keys::sorted_keys;

#[test]
fn json_reads_back() {
    let text = "{\"b\":[1,2.5,null,true],\"a\":\"x\\ny\",\"n\":-7}";
    let j = Json::parse(text).unwrap();
    assert_eq!(j.to_text(), "{\"a\":\"x\\ny\",\"b\":[1,2.5,null,true],\"n\":-7}");
    let again = Json::parse(&j.to_text()).unwrap();
    assert_eq!(again.to_text(), j.to_text());
    assert_eq!(j.copy().to_text(), j.to_text());
}

#[test]
fn json_errors_are_told() {
    match Json::parse("{\"a\":") {
        Ok(_) => panic!("no JSON"),
        Err(e) => assert_eq!(e, "EOF while parsing a value at line 1 column 5"),
    }
}

#[test]
fn json_members_are_typed() {
    let j = Json::parse("{\"s\":\"t\",\"b\":false,\"u\":18446744073709551615,\"i\":-1,\"f\":1.5,\"l\":[3]}")
        .unwrap();
    assert!(j.is_object());
    assert_eq!(j.str_at("s"), Some("t"));
    assert_eq!(j.str_at("b"), None);
    assert_eq!(j.bool_at("b"), Some(false));
    assert_eq!(j.u64_at("u"), Some(u64::MAX));
    assert_eq!(j.i64_at("u"), None);
    assert_eq!(j.i64_at("i"), Some(-1));
    assert_eq!(j.u64_at("i"), None);
    assert_eq!(j.u64_at("f"), None);
    assert_eq!(j.list_at("l").unwrap().len(), 1);
    assert_eq!(j.get("l").unwrap().zeroth().unwrap().as_u64(), Some(3));
    assert!(j.get("missing").is_none());
    assert_eq!(j.get("f").unwrap().number_text(), Some("1.5".to_string()));
    assert_eq!(j.get("i").unwrap().number_text(), Some("-1".to_string()));
    assert_eq!(j.get("s").unwrap().number_text(), None);
    let o = Json::parse("{\"0\":\"zero\"}").unwrap();
    assert_eq!(o.zeroth().unwrap().as_str(), Some("zero"));
}

#[test]
fn json_later_member_wins() {
    let mut o = JsonObject::new();
    o.put("a", Json::unsigned(1));
    o.put("b", Json::signed(-2));
    o.put("a", Json::text("new"));
    assert_eq!(o.get("a").unwrap().as_str(), Some("new"));
    assert_eq!(sorted_keys(&o), vec!["a".to_string(), "b".to_string()]);
    assert_eq!(Json::Object(o).to_text(), "{\"a\":\"new\",\"b\":-2}");
    assert_eq!(Json::text_or_null(&None).to_text(), "null");
    assert_eq!(Json::text_or_null(&Some("\"".to_string())).to_text(), "\"\\\"\"");
}
