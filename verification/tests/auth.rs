use mimo_desktop_bridge::auth::{
    extract_raw_number, md5_upper, merge_session, nonempty_loc, parse_session_fields,
    pick_service_token, session_from_cookies, sha1_base64, stable_device_id, strip_prefix,
    two_factor_paths, unless_expired, url_form_encode, Session,
};
use mimo_desktop_bridge::json::Json;

#[test]
fn digests_are_those_of_the_account_page() {
    assert_eq!(md5_upper("password"), "5F4DCC3B5AA765D61D8327DEB882CF99");
    assert_eq!(sha1_base64("abc"), "qZk+NkcGgWq6PiVxeFDCbJzQ2J0=");
    assert_eq!(stable_device_id(None), "pc_4dd129d62920ff97");
    assert_eq!(stable_device_id(Some("42")), "pc_c7dc09b56e224a99");
}

#[test]
fn form_values_are_encoded() {
    assert_eq!(url_form_encode("aZ09-_.~"), "aZ09-_.~");
    assert_eq!(url_form_encode("a b+c/="), "a%20b%2Bc%2F%3D");
    assert_eq!(url_form_encode("\u{4e2d}"), "%E4%B8%AD");
    assert_eq!(url_form_encode(""), "");
}

#[test]
fn marks_before_json_are_stripped() {
    assert_eq!(strip_prefix("&&&START&&&{\"a\":1}"), "{\"a\":1}");
    assert_eq!(strip_prefix("&&&START&&&&&&START&&&x"), "x");
    assert_eq!(strip_prefix("&&&STAR{}"), "&&&STAR{}");
    assert_eq!(strip_prefix(""), "");
}

#[test]
fn nonce_keeps_every_digit() {
    let text = "{\"code\":0,\"nonce\": 9007199254740993123,\"x\":1}";
    assert_eq!(extract_raw_number(text, "nonce"), Some("9007199254740993123".to_string()));
    assert_eq!(extract_raw_number("{\"n\":-12}", "n"), Some("-12".to_string()));
    assert_eq!(extract_raw_number("{\"n\":\"12\"}", "n"), None);
    assert_eq!(extract_raw_number("{\"m\":1}", "n"), None);
    assert_eq!(extract_raw_number("{\"n\":-}", "n"), None);
}

#[test]
fn sessions_are_read_from_json_and_cookies() {
    let body = Json::parse("{\"userId\":12,\"passToken\":\"p\",\"nick\":\"N\"}").unwrap();
    let s = parse_session_fields(&body);
    assert_eq!(s.user_id.as_deref(), Some("12"));
    assert_eq!(s.pass_token.as_deref(), Some("p"));
    assert_eq!(s.nick.as_deref(), Some("N"));
    assert_eq!(s.service_token, None);
    let c = session_from_cookies("passToken=cp; userId=; cUserId=c; mimopc_serviceToken=st");
    assert_eq!(c.pass_token.as_deref(), Some("cp"));
    assert_eq!(c.user_id, None);
    assert_eq!(c.c_user_id.as_deref(), Some("c"));
    assert_eq!(c.service_token.as_deref(), Some("st"));
    let m = merge_session(s, "passToken=cp; cUserId=c");
    assert_eq!(m.pass_token.as_deref(), Some("p"));
    assert_eq!(m.c_user_id.as_deref(), Some("c"));
}

#[test]
fn business_cookie_reads_back() {
    let mut s = Session::empty();
    assert!(!s.is_authenticated());
    assert_eq!(s.business_cookie(), "");
    s.service_token = Some("t=1".to_string());
    s.user_id = Some("u".to_string());
    s.c_user_id = Some("c".to_string());
    assert!(s.is_authenticated());
    let cookie = s.business_cookie();
    assert_eq!(cookie, "serviceToken=t=1; mimopc_serviceToken=t=1; userId=u; cUserId=c");
    let back = session_from_cookies(&cookie);
    assert_eq!(back.service_token, s.service_token);
    assert_eq!(back.user_id, s.user_id);
    assert_eq!(back.c_user_id, s.c_user_id);
}

#[test]
fn tokens_are_picked_from_set_cookies() {
    let raws = |list: &[&str]| list.iter().map(|s| s.to_string()).collect::<Vec<String>>();
    assert_eq!(
        pick_service_token(&raws(&["a=b", "serviceToken=tok; Path=/"])),
        Some("tok".to_string())
    );
    assert_eq!(
        pick_service_token(&raws(&["mimopc_serviceToken=tok2; Path=/"])),
        Some("tok2".to_string())
    );
    assert_eq!(pick_service_token(&raws(&["userId=1"])), None);
    assert_eq!(unless_expired(Some("EXPIRED".to_string())), None);
    assert_eq!(unless_expired(Some("".to_string())), None);
    assert_eq!(unless_expired(Some("ok".to_string())), Some("ok".to_string()));
}

#[test]
fn locations_must_lead_somewhere() {
    assert_eq!(nonempty_loc(Some("  https://a/ ")), Some("https://a/".to_string()));
    assert_eq!(nonempty_loc(Some(" null ")), None);
    assert_eq!(nonempty_loc(Some("  ")), None);
    assert_eq!(nonempty_loc(None), None);
}

#[test]
fn second_factors_have_their_paths() {
    let (send, verify) = two_factor_paths(4);
    assert!(send.contains("sendPhoneTicket"));
    assert!(verify.contains("verifyPhone"));
    let (send, verify) = two_factor_paths(8);
    assert!(send.contains("sendEmailTicket"));
    assert!(verify.contains("verifyEmail"));
}
