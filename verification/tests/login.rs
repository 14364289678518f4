use mimo_desktop_bridge::auth::{LoginOutcome, LoginRequest};
use mimo_desktop_bridge::exchange::{HttpReply, HttpRequest, Payload, RedirectWalk, WalkStep};
use mimo_desktop_bridge::login::{login_auth2, LoginDone, LoginFlow, LoginNext};

fn reply(status: u16, cookies: &[&str], location: Option<&str>, body: &str) -> HttpReply {
    HttpReply {
        status,
        set_cookies: cookies.iter().map(|s| s.to_string()).collect(),
        location: location.map(|s| s.to_string()),
        body: Ok(body.to_string()),
    }
}

fn begin() -> LoginFlow {
    login_auth2(&LoginRequest {
        account: "me".to_string(),
        password: "password".to_string(),
        captcha: None,
    })
    .unwrap()
}

fn header(req: &HttpRequest, name: &str) -> Option<String> {
    req.headers.items.iter().find(|(k, _)| k == name).map(|(_, v)| v.clone())
}

fn done(next: LoginNext) -> LoginDone {
    match next {
        LoginNext::Done(d) => d,
        LoginNext::Failed(e) => panic!("{}", e.message()),
        LoginNext::Continue(_) => panic!("not done yet"),
    }
}

fn go_on(next: LoginNext) -> LoginFlow {
    match next {
        LoginNext::Continue(f) => f,
        _ => panic!("it goes on"),
    }
}

fn failed(next: LoginNext) -> String {
    match next {
        LoginNext::Failed(e) => e.message(),
        _ => panic!("it fails"),
    }
}

#[test]
fn credentials_are_needed() {
    let empty = LoginRequest { account: "".to_string(), password: "p".to_string(), captcha: None };
    match login_auth2(&empty) {
        Err(e) => assert_eq!(e.message(), "login: empty credentials"),
        Ok(_) => panic!("no account"),
    }
}

#[test]
fn credentials_are_sent_hashed() {
    let flow = login_auth2(&LoginRequest {
        account: "me".to_string(),
        password: "password".to_string(),
        captcha: Some("ab".to_string()),
    })
    .unwrap();
    let req = flow.request();
    assert!(req.post);
    assert_eq!(req.url, "https://account.xiaomi.com/pass/serviceLoginAuth2");
    assert_eq!(header(&req, "cookie"), None);
    match req.payload {
        Payload::Form(form) => {
            let find = |n: &str| form.items.iter().find(|(k, _)| k == n).map(|(_, v)| v.as_str());
            assert_eq!(find("user"), Some("me"));
            assert_eq!(find("hash"), Some("5F4DCC3B5AA765D61D8327DEB882CF99"));
            assert_eq!(find("sid"), Some("mimopc"));
            assert_eq!(find("captCode"), Some("ab"));
        }
        _ => panic!("a form is sent"),
    }
}

#[test]
fn login_goes_well() {
    let body = "&&&START&&&{\"code\":0,\"userId\":12,\"passToken\":\"p\",\"nick\":\"N\"}";
    let d = done(begin().after(Ok(reply(200, &["cUserId=c; Path=/"], None, body))));
    match d.outcome {
        LoginOutcome::Authenticated { nick, user_id } => {
            assert_eq!(nick.as_deref(), Some("N"));
            assert_eq!(user_id.as_deref(), Some("12"));
        }
        _ => panic!("authenticated"),
    }
    let s = d.session.unwrap();
    assert_eq!(s.pass_token.as_deref(), Some("p"));
    assert_eq!(s.c_user_id.as_deref(), Some("c"));
}

#[test]
fn login_follows_redirects_with_cookies() {
    let walk = go_on(begin().after(Ok(reply(302, &["a=1"], Some("https://account.xiaomi.com/x"), ""))));
    let req = walk.request();
    assert_eq!(req.url, "https://account.xiaomi.com/x");
    assert_eq!(header(&req, "cookie").as_deref(), Some("a=1"));
    let walk = go_on(walk.after(Ok(reply(301, &["b=2"], Some("/y?z"), ""))));
    let req = walk.request();
    assert_eq!(req.url, "https://account.xiaomi.com/y?z");
    assert_eq!(header(&req, "cookie").as_deref(), Some("a=1; b=2"));
    let d = done(walk.after(Ok(reply(200, &["passToken=p"], None, "{\"code\":0}"))));
    assert_eq!(d.session.unwrap().pass_token.as_deref(), Some("p"));
}

#[test]
fn login_may_ask_for_more() {
    let d = done(begin().after(Ok(reply(200, &[], None, "{\"code\":1,\"captchaUrl\":\"/cap\"}"))));
    assert!(matches!(d.outcome, LoginOutcome::CaptchaRequired { captcha_url } if captcha_url == "/cap"));
    let d = done(begin().after(Ok(reply(200, &[], None, "{\"code\":70016,\"description\":\"bad\"}"))));
    assert!(matches!(d.outcome, LoginOutcome::Failed { code: 70016, description } if description == "bad"));
    let body = "{\"notificationUrl\":\"https://a/fe/service/identity/authStart?x=1\"}";
    let flow = go_on(begin().after(Ok(reply(200, &["s=1"], None, body))));
    let req = flow.request();
    assert_eq!(req.url, "https://a/identity/list?x=1");
    assert_eq!(header(&req, "cookie").as_deref(), Some("s=1"));
    let d = done(flow.after(Ok(reply(200, &["t=2"], None, "{\"options\":[4,8]}"))));
    let f = d.flow.unwrap();
    assert_eq!(f.options, vec![4, 8]);
    assert_eq!(f.cookie_header, "s=1; t=2");
    assert_eq!(f.password_hash, "5F4DCC3B5AA765D61D8327DEB882CF99");
}

#[test]
fn login_errors_are_told() {
    assert_eq!(failed(begin().after(Err("down".to_string()))), "login: auth2: down");
    let said = failed(begin().after(Ok(reply(200, &[], None, "<html>"))));
    assert_eq!(
        said,
        "login: auth2 parse: expected value at line 1 column 1 body[..200]=<html>"
    );
    let mut broken = reply(200, &[], None, "");
    broken.body = Err("cut".to_string());
    assert_eq!(failed(begin().after(Ok(broken))), "http: cut");
    let list = |body: &str| {
        let first = "{\"notificationUrl\":\"https://a/fe/service/identity/authStart\"}";
        failed(go_on(begin().after(Ok(reply(200, &[], None, first)))).after(Ok(reply(200, &[], None, body))))
    };
    assert_eq!(list("{\"twoFactorAuth\":true}"), "login: hardware 2FA is not supported");
    assert_eq!(list("{}"), "login: identity/list returned no options");
    assert_eq!(
        list("x"),
        "login: identity/list parse: expected value at line 1 column 1"
    );
}

#[test]
fn walks_end_after_eight_requests() {
    let mut walk = RedirectWalk::start(" https://a/0 ", "", "ua").unwrap();
    let mut requests = 0;
    loop {
        requests += 1;
        match walk.after(Ok(reply(302, &[], Some("next"), ""))) {
            WalkStep::Next(w) => walk = w,
            WalkStep::Failed(e) => {
                assert_eq!(e.message(), "login: too many redirects");
                break;
            }
            WalkStep::Done(..) => panic!("it never arrives"),
        }
    }
    assert_eq!(requests, 8);
    match RedirectWalk::start("  ", "", "ua") {
        Err(e) => assert_eq!(e.message(), "login: follow_redirs: empty url"),
        Ok(_) => panic!("nowhere to go"),
    }
    let walk = RedirectWalk::start("https://a/0", "", "ua").unwrap();
    match walk.after(Err("down".to_string())) {
        WalkStep::Failed(e) => assert_eq!(e.message(), "login: follow_redirs GET https://a/0: down"),
        _ => panic!("it fails"),
    }
}

#[test]
fn sign_in_ends_whatever_the_replies() {
    let mut flow = begin();
    let mut requests = 0;
    let said = loop {
        requests += 1;
        assert!(requests <= 18);
        match flow.after(Ok(reply(302, &[], Some("https://a/again"), ""))) {
            LoginNext::Continue(next) => flow = next,
            LoginNext::Failed(e) => break e.message(),
            LoginNext::Done(_) => panic!("it never arrives"),
        }
    };
    assert_eq!(said, "login: too many redirects");
    assert_eq!(requests, 9);
}
