use mimo_desktop_bridge::auth::TwoFactorFlow;
use mimo_desktop_bridge::error::BridgeError;
use mimo_desktop_bridge::exchange::{HttpReply, Payload};
use mimo_desktop_bridge::ticket::{
    after_send_ticket, send_ticket, send_ticket_at, verify_ticket, VerifyFlow, VerifyNext,
};

fn flow() -> TwoFactorFlow {
    TwoFactorFlow {
        options: vec![4],
        account: "me".to_string(),
        password_hash: "HASH".to_string(),
        cookie_header: "a=1".to_string(),
    }
}

fn reply(status: u16, cookies: &[&str], location: Option<&str>, body: &str) -> HttpReply {
    HttpReply {
        status,
        set_cookies: cookies.iter().map(|s| s.to_string()).collect(),
        location: location.map(|s| s.to_string()),
        body: Ok(body.to_string()),
    }
}

fn go_on(next: VerifyNext) -> VerifyFlow {
    match next {
        VerifyNext::Continue(f) => f,
        VerifyNext::Failed(e) => panic!("{}", e.message()),
        VerifyNext::Done(_) => panic!("it goes on"),
    }
}

fn failed(next: VerifyNext) -> String {
    match next {
        VerifyNext::Failed(e) => e.message(),
        _ => panic!("it fails"),
    }
}

#[test]
fn tickets_are_asked_for() {
    let req = send_ticket_at(&flow(), 4, 1700);
    assert_eq!(req.url, "https://account.xiaomi.com/identity/auth/sendPhoneTicket?_dc=1700");
    assert!(req.headers.items.iter().any(|(k, v)| k == "cookie" && v == "a=1"));
    let req = send_ticket(&flow(), 8);
    assert!(req.url.starts_with("https://account.xiaomi.com/identity/auth/sendEmailTicket?_dc=1"));
}

#[test]
fn ticket_replies_are_judged() {
    let sent = after_send_ticket(&flow(), Ok(reply(200, &["b=2"], None, "&&&START&&&{\"code\":0}")));
    assert_eq!(sent.unwrap(), (true, "a=1; b=2".to_string()));
    let refused = after_send_ticket(
        &flow(),
        Ok(reply(200, &[], None, "{\"code\":9,\"desc\":\"wait\"}")),
    );
    assert_eq!(refused.unwrap(), (false, "wait (code=9)".to_string()));
    let refused = after_send_ticket(&flow(), Ok(reply(200, &[], None, "{}")));
    assert_eq!(refused.unwrap(), (false, "send failed (code=-1)".to_string()));
    let down = after_send_ticket(&flow(), Err("down".to_string()));
    assert_eq!(down.unwrap_err().message(), "login: sendTicket: down");
    let no_json = after_send_ticket(&flow(), Ok(reply(200, &[], None, "?")));
    assert_eq!(
        no_json.unwrap_err().message(),
        "login: sendTicket parse: expected value at line 1 column 1"
    );
}

#[test]
fn tickets_are_handed_in() {
    let v = VerifyFlow::start_at(&flow(), 4, "123456", "a=1", 99);
    let req = v.request();
    assert_eq!(req.url, "https://account.xiaomi.com/identity/auth/verifyPhone?_dc=99");
    match req.payload {
        Payload::Form(form) => {
            let find = |n: &str| form.items.iter().find(|(k, _)| k == n).map(|(_, v)| v.as_str());
            assert_eq!(find("_flag"), Some("4"));
            assert_eq!(find("ticket"), Some("123456"));
            assert_eq!(find("trust"), Some("true"));
        }
        _ => panic!("a form is sent"),
    }
    // The reply names a page, which is visited before the credentials are sent again.
    let v = go_on(v.after(Ok(reply(
        200,
        &["b=2"],
        None,
        "{\"code\":0,\"location\":\"https://a/done\"}",
    ))));
    assert_eq!(v.request().url, "https://a/done");
    let v = go_on(v.after(Ok(reply(200, &["c=3"], None, "ok"))));
    let req = v.request();
    assert_eq!(req.url, "https://account.xiaomi.com/pass/serviceLoginAuth2");
    assert!(req.headers.items.iter().any(|(k, v)| k == "cookie" && v == "a=1; b=2; c=3"));
    match v.after(Ok(reply(200, &["passToken=p"], None, "{\"code\":0,\"userId\":\"7\"}"))) {
        VerifyNext::Done(s) => {
            assert_eq!(s.pass_token.as_deref(), Some("p"));
            assert_eq!(s.user_id.as_deref(), Some("7"));
        }
        _ => panic!("a session is there"),
    }
}

#[test]
fn final_page_sets_the_token() {
    let v = verify_ticket(&flow(), 8, "1", "a=1");
    let v = go_on(v.after(Ok(reply(200, &[], None, "{\"code\":0}"))));
    let v = go_on(v.after(Ok(reply(
        200,
        &[],
        None,
        "{\"code\":0,\"location\":\"https://a/sts\"}",
    ))));
    assert_eq!(v.request().url, "https://a/sts");
    match v.after(Ok(reply(200, &["passToken=late"], None, ""))) {
        VerifyNext::Done(s) => assert_eq!(s.pass_token.as_deref(), Some("late")),
        _ => panic!("a session is there"),
    }
}

#[test]
fn wrong_tickets_are_refused() {
    let start = || verify_ticket(&flow(), 4, "0", "a=1");
    match start().after(Ok(reply(200, &[], None, "{\"code\":70014}"))) {
        VerifyNext::Failed(e) => {
            assert!(matches!(e, BridgeError::VerificationCode));
            assert_eq!(e.status(), 401);
            assert_eq!(e.code(), "verification_code");
        }
        _ => panic!("it fails"),
    }
    assert_eq!(
        failed(start().after(Ok(reply(200, &[], None, "{\"code\":5,\"tips\":\"no\"}")))),
        "login: verify code=5 desc=no"
    );
    assert_eq!(failed(start().after(Err("down".to_string()))), "login: verifyTicket: down");
}

#[test]
fn missing_token_is_told_with_names() {
    let v = go_on(verify_ticket(&flow(), 4, "0", "a=1").after(Ok(reply(200, &[], None, "{\"code\":0}"))));
    let said = failed(v.after(Ok(reply(200, &["z=1"], None, "{\"code\":0,\"b\":1,\"a\":2}"))));
    assert_eq!(
        said,
        "login: auth2 ok but no passToken (keys=[a,b,code] cookies=[a,z] body={\"code\":0,\"b\":1,\"a\":2})"
    );
    let v = go_on(verify_ticket(&flow(), 4, "0", "a=1").after(Ok(reply(200, &[], None, "{\"code\":0}"))));
    assert_eq!(
        failed(v.after(Ok(reply(200, &[], None, "{\"code\":3,\"description\":\"d\"}")))),
        "login: post-2fa auth2 code=3 desc=d"
    );
}

#[test]
fn handing_in_ends_whatever_the_replies() {
    let mut v = verify_ticket(&flow(), 4, "0", "a=1");
    let mut requests = 0;
    loop {
        requests += 1;
        assert!(requests <= 42);
        match v.after(Ok(reply(200, &[], None, "{\"code\":0,\"location\":\"https://a/x\"}"))) {
            VerifyNext::Continue(next) => v = next,
            VerifyNext::Failed(e) => {
                assert!(e.message().starts_with("login: auth2 ok but no passToken"));
                break;
            }
            VerifyNext::Done(_) => panic!("no token was set"),
        }
    }
    assert_eq!(requests, 4);
}
