use mimo_desktop_bridge::auth::Session;
use mimo_desktop_bridge::exchange::HttpReply;
use mimo_desktop_bridge::mint::{
    mint_service_token, probe_me, probe_request, sign_location, MintFlow, MintNext,
};

fn reply(status: u16, cookies: &[&str], location: Option<&str>, body: &str) -> HttpReply {
    HttpReply {
        status,
        set_cookies: cookies.iter().map(|s| s.to_string()).collect(),
        location: location.map(|s| s.to_string()),
        body: Ok(body.to_string()),
    }
}

fn session() -> Session {
    let mut s = Session::empty();
    s.pass_token = Some("p".to_string());
    s.user_id = Some("42".to_string());
    s
}

fn begin() -> MintFlow {
    match mint_service_token(session()) {
        Ok(f) => f,
        Err((_, e)) => panic!("{}", e.message()),
    }
}

fn go_on(next: MintNext) -> MintFlow {
    match next {
        MintNext::Continue(f) => f,
        MintNext::Done(_, Err(e)) => panic!("{}", e.message()),
        MintNext::Done(_, Ok(())) => panic!("it goes on"),
    }
}

fn failed(next: MintNext) -> String {
    match next {
        MintNext::Done(_, Err(e)) => e.message(),
        _ => panic!("it fails"),
    }
}

const PHASE1: &str =
    "&&&START&&&{\"code\":0,\"location\":\"https://m/sts?x=1\",\"nonce\":9007199254740993123,\"ssecurity\":\"sec==\",\"cUserId\":\"c\"}";

#[test]
fn locations_are_signed() {
    assert_eq!(
        sign_location("https://m/sts?x=1", "9007199254740993123", "sec=="),
        "https://m/sts?x=1&clientSign=PGXt0dDnXdLIE0Jb51xwxns1dkY%3D"
    );
    assert_eq!(
        sign_location("https://m/sts", "9007199254740993123", " "),
        "https://m/sts?clientSign=Rchmnh02ZMJOzoayboEEme9Dui0%3D"
    );
}

#[test]
fn token_is_minted_in_two_phases() {
    let flow = begin();
    let req = flow.request();
    assert_eq!(
        req.url,
        "https://account.xiaomi.com/pass/serviceLogin?_locale=zh_CN&_snsNone=true&sid=mimopc&_json=true"
    );
    let cookie = req.headers.items.iter().find(|(k, _)| k == "cookie").unwrap();
    assert_eq!(
        cookie.1,
        "passToken=p; userId=42; deviceId=pc_c7dc09b56e224a99; uLocale=zh_CN; pass_ua=pc"
    );
    let flow = go_on(flow.after(Ok(reply(200, &[], None, PHASE1))));
    let req = flow.request();
    assert_eq!(req.url, "https://m/sts?x=1&clientSign=PGXt0dDnXdLIE0Jb51xwxns1dkY%3D");
    assert!(req.headers.items.iter().all(|(k, _)| k != "cookie"));
    match flow.after_at(Ok(reply(302, &["serviceToken=st; Path=/"], Some("/"), "")), 77) {
        MintNext::Done(s, Ok(())) => {
            assert_eq!(s.service_token.as_deref(), Some("st"));
            assert_eq!(s.refreshed_at, Some(77));
            assert_eq!(s.ssecurity.as_deref(), Some("sec=="));
            assert_eq!(s.c_user_id.as_deref(), Some("c"));
            assert_eq!(s.user_id.as_deref(), Some("42"));
        }
        _ => panic!("a token is there"),
    }
}

#[test]
fn minting_hops_twice_then_falls_back() {
    let flow = go_on(begin().after(Ok(reply(200, &[], None, PHASE1))));
    let flow = go_on(flow.after(Ok(reply(302, &[], Some("/one"), ""))));
    assert_eq!(flow.request().url, "https://m/one");
    let flow = go_on(flow.after(Ok(reply(302, &["serviceToken=EXPIRED"], Some("two"), ""))));
    assert_eq!(flow.request().url, "https://m/two");
    let flow = go_on(flow.after(Ok(reply(302, &[], Some("/three"), ""))));
    let req = flow.request();
    assert_eq!(req.url, "https://mimo-server-cn.xiaomimimo.com/api/user/xiaomi/me");
    assert!(req.headers.items.iter().any(|(k, _)| k == "cookie"));
    match flow.after_at(Ok(reply(200, &["mimopc_serviceToken=late"], None, "")), 1) {
        MintNext::Done(s, Ok(())) => assert_eq!(s.service_token.as_deref(), Some("late")),
        _ => panic!("a token is there"),
    }
}

#[test]
fn minting_errors_are_told() {
    let mut s = session();
    s.pass_token = None;
    match mint_service_token(s) {
        Err((s, e)) => {
            assert_eq!(e.message(), "login: missing passToken");
            assert_eq!(s.user_id.as_deref(), Some("42"));
        }
        Ok(_) => panic!("no long-lived token"),
    }
    assert_eq!(failed(begin().after(Err("down".to_string()))), "login: phase1: down");
    assert_eq!(
        failed(begin().after(Ok(reply(200, &[], None, "{\"code\":1,\"description\":\"d\"}")))),
        "login: phase1 code=1 desc=d"
    );
    assert_eq!(
        failed(begin().after(Ok(reply(200, &[], None, "{\"code\":0}")))),
        "login: phase1 missing location"
    );
    assert_eq!(
        failed(begin().after(Ok(reply(200, &[], None, "{\"code\":0,\"location\":\"x\"}")))),
        "login: phase1 missing nonce"
    );
    let flow = go_on(begin().after(Ok(reply(200, &[], None, PHASE1))));
    let flow = go_on(flow.after(Ok(reply(200, &[], None, ""))));
    assert_eq!(
        failed(flow.after(Ok(reply(200, &[], None, "")))),
        "login: phase2 returned no serviceToken"
    );
}

#[test]
fn profile_is_probed() {
    let mut s = session();
    s.service_token = Some("st".to_string());
    let req = probe_request(&s);
    assert_eq!(req.url, "https://mimo-server-cn.xiaomimimo.com/api/user/xiaomi/me");
    let told = probe_me(Ok(reply(200, &[], None, "{\"code\":0,\"data\":{\"userId\":\"42\"}}")));
    assert_eq!(
        told.unwrap(),
        (200, true, "{\"code\":0,\"data\":{\"userId\":\"42\"}}".to_string())
    );
    let told = probe_me(Ok(reply(401, &[], None, "nope")));
    assert_eq!(told.unwrap(), (401, false, "nope".to_string()));
    assert_eq!(
        probe_me(Err("down".to_string())).unwrap_err().message(),
        "login: probe_me: down"
    );
}

#[test]
fn minting_ends_whatever_the_replies() {
    let mut flow = go_on(begin().after(Ok(reply(200, &[], None, PHASE1))));
    let mut requests = 1;
    let said = loop {
        requests += 1;
        assert!(requests <= 12);
        match flow.after(Ok(reply(302, &[], Some("https://a/again"), ""))) {
            MintNext::Continue(next) => flow = next,
            MintNext::Done(_, Err(e)) => break e.message(),
            MintNext::Done(_, Ok(())) => panic!("no token was set"),
        }
    };
    assert_eq!(said, "login: too many redirects");
    assert_eq!(requests, 12);
}
