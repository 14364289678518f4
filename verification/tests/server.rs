use mimo_desktop_bridge::admin::{
    admin_guard, admin_ok, api_key_guard, issue_admin_session, presented_key,
    revoke_admin_session, session_cookie, Caller,
};
use mimo_desktop_bridge::auth::{LoginOutcome, Session, TwoFactorFlow};
use mimo_desktop_bridge::error::BridgeError;
use mimo_desktop_bridge::json::Json;
use mimo_desktop_bridge::login::LoginDone;
use mimo_desktop_bridge::reply::ApiReply;
use mimo_desktop_bridge::server::{
    api_admin_login, api_admin_logout, api_admin_password, api_admin_session, api_admin_setup,
    api_auth_status, api_key_required_get, api_key_required_set, api_keys_create, api_keys_delete,
    api_keys_list, api_login, api_login_kept, api_logout, api_logs, api_models, api_refresh,
    api_send_ticket, api_set_port, api_tls_get, api_tls_set, api_usage, api_verify_kept,
    api_verify_ticket, asset_path, cors_origins, flow_in_flight, healthz, page, persist_tls,
    provided_tls, refresh_denied, self_signed_names, static_asset, status_report, tls_flag,
    webui_url, Assets, LoginTurn, PageReply, ServerConfig, VerifyTurn,
};
use mimo_desktop_bridge::state::{BoundAddr, BridgeState};
use mimo_desktop_bridge::storage::{KeyStore, Settings, Storage};

fn same(j: &Json, expected: &str) {
    assert_eq!(j.to_text(), Json::parse(expected).unwrap().to_text());
}

fn message(r: &ApiReply) -> String {
    r.body.get("error").unwrap().str_at("message").unwrap().to_string()
}

fn fresh() -> BridgeState {
    BridgeState::new(Storage::load_all(None, None, None), None)
}

fn ok_settings(_s: &Settings) -> Result<(), BridgeError> {
    Ok(())
}

fn bad_settings(_s: &Settings) -> Result<(), BridgeError> {
    Err(BridgeError::Io("full".to_string()))
}

fn ok_keys(_k: &KeyStore) -> Result<(), BridgeError> {
    Ok(())
}

fn ok_session(_s: &Session) -> Result<(), BridgeError> {
    Ok(())
}

fn caller(cookie: Option<&str>, now: i64) -> Caller {
    Caller {
        cookie: cookie.map(|c| c.to_string()),
        authorization: None,
        api_key: None,
        now,
    }
}

const HOUR: i64 = 3600 * 1000;

fn configured() -> BridgeState {
    let mut settings = Settings::default();
    settings.admin_password_hash = Some("$x$".to_string());
    BridgeState::new(Storage::load_all(Some(settings), None, None), None)
}

#[test]
fn admin_cookies_are_found() {
    let token = |c: &str| session_cookie(&caller(Some(c), 0));
    assert_eq!(token("a=1; mdb_session=tok; b=2"), Some("tok".to_string()));
    assert_eq!(token("mdb_session=first;mdb_session=second"), Some("first".to_string()));
    assert_eq!(token("xmdb_session=tok; novalue"), None);
    assert_eq!(session_cookie(&caller(None, 0)), None);
}

#[test]
fn admin_sessions_last_twelve_hours() {
    let mut state = configured();
    let token = issue_admin_session(&mut state, 1000);
    assert_eq!(token.len(), 32);
    let cookie = format!("mdb_session={token}");
    assert!(admin_ok(&state, &caller(Some(&cookie), 1000)));
    assert!(admin_ok(&state, &caller(Some(&cookie), 1000 + 12 * HOUR - 1)));
    assert!(!admin_ok(&state, &caller(Some(&cookie), 1000 + 12 * HOUR)));
    assert!(!admin_ok(&state, &caller(None, 1000)));
    let second = issue_admin_session(&mut state, 2000);
    assert_eq!(state.admin_sessions.len(), 2);
    revoke_admin_session(&mut state, &token);
    assert!(!admin_ok(&state, &caller(Some(&cookie), 2000)));
    assert!(admin_ok(&state, &caller(Some(&format!("mdb_session={second}")), 2000)));
    // Issuing drops what is over.
    issue_admin_session(&mut state, 2000 + 12 * HOUR);
    assert_eq!(state.admin_sessions.len(), 1);
}

#[test]
fn first_run_is_open_on_loopback_only() {
    let mut state = fresh();
    let nobody = caller(None, 0);
    assert!(admin_ok(&state, &nobody));
    state.set_bound_addr(BoundAddr { text: "127.0.0.1:8787".to_string(), loopback: true });
    assert!(admin_ok(&state, &nobody));
    state.set_bound_addr(BoundAddr { text: "0.0.0.0:8787".to_string(), loopback: false });
    assert!(!admin_ok(&state, &nobody));
    assert!(admin_guard(&state, "/api/admin/setup", &nobody).is_none());
    let r = admin_guard(&state, "/api/keys", &nobody).unwrap();
    assert_eq!(r.status, 401);
    assert_eq!(r.body.get("error").unwrap().str_at("code"), Some("unauthorized"));
}

#[test]
fn locked_control_plane_keeps_its_gate() {
    let state = configured();
    let nobody = caller(None, 0);
    for open in ["/api/admin/session", "/api/admin/setup", "/api/admin/login"] {
        assert!(admin_guard(&state, open, &nobody).is_none());
    }
    assert!(admin_guard(&state, "/api/admin/logout", &nobody).is_some());
    assert!(admin_guard(&state, "/api/logs", &nobody).is_some());
}

#[test]
fn api_keys_guard_the_api() {
    let mut state = fresh();
    assert!(api_key_guard(&state, &caller(None, 0)).is_none());
    let (_, token) = state.storage.create_api_key("k", ok_keys).unwrap();
    state.storage.set_api_key_required(true, ok_settings).unwrap();
    let r = api_key_guard(&state, &caller(None, 0)).unwrap();
    assert_eq!(r.status, 401);
    assert_eq!(message(&r), "missing or invalid API key");
    let mut c = caller(None, 0);
    c.authorization = Some(format!("Bearer  {token} "));
    assert!(api_key_guard(&state, &c).is_none());
    c.authorization = Some("Bearer wrong".to_string());
    c.api_key = Some(token.clone());
    assert!(api_key_guard(&state, &c).is_some());
    c.authorization = Some("Basic abc".to_string());
    assert_eq!(presented_key(&c), Some(token));
    assert!(api_key_guard(&state, &c).is_none());
}

#[test]
fn callers_come_now() {
    let c = Caller::arriving(Some("a=1".to_string()), None, Some("k".to_string()));
    assert_eq!(c.cookie.as_deref(), Some("a=1"));
    assert_eq!(c.api_key.as_deref(), Some("k"));
    assert!(c.now > 1_600_000_000_000);
}

#[test]
fn admin_password_is_set_up_once() {
    let mut state = fresh();
    let nobody = caller(None, 50);
    let r = api_admin_setup(&mut state, &nobody, "short", ok_settings);
    assert_eq!(r.status, 400);
    assert_eq!(message(&r), "password must be at least 6 characters");
    let r = api_admin_setup(&mut state, &nobody, "secret1", bad_settings);
    assert_eq!(r.status, 500);
    assert_eq!(message(&r), "io: full");
    assert!(!state.storage.admin_configured());
    // Five characters are too few, however many bytes they take.
    let five = "\u{4e2d}\u{6587}\u{4e2d}\u{6587}\u{4e2d}";
    let r = api_admin_setup(&mut state, &nobody, five, ok_settings);
    assert_eq!(r.status, 400);
    assert_eq!(message(&r), "password must be at least 6 characters");
    assert!(r.set_cookie.is_none());
    assert!(!state.storage.admin_configured());
    let six = "\u{4e2d}\u{6587}\u{4e2d}\u{6587}\u{4e2d}\u{6587}";
    let r = api_admin_setup(&mut state, &nobody, six, ok_settings);
    assert_eq!(r.status, 200);
    let cookie = r.set_cookie.unwrap();
    assert!(cookie.ends_with("; Path=/; HttpOnly; SameSite=Lax"));
    let sent_back = cookie.split(';').next().unwrap().to_string();
    assert!(admin_ok(&state, &caller(Some(&sent_back), 60)));
    let r = api_admin_setup(&mut state, &nobody, "another1", ok_settings);
    assert_eq!(r.status, 409);
    assert!(state.storage.verify_admin_password(six));
}

#[test]
fn admin_logs_in_and_out() {
    let mut state = fresh();
    state.storage.set_admin_password("secret1", ok_settings).unwrap();
    let nobody = caller(None, 5);
    let r = api_admin_login(&mut state, &nobody, "wrong");
    assert_eq!(r.status, 401);
    assert!(r.set_cookie.is_none());
    let r = api_admin_login(&mut state, &nobody, "secret1");
    let cookie = r.set_cookie.unwrap().split(';').next().unwrap().to_string();
    let admin = caller(Some(&cookie), 6);
    same(&api_admin_session(&state, &admin).body, "{\"configured\":true,\"authenticated\":true}");
    same(&api_admin_session(&state, &nobody).body, "{\"configured\":true,\"authenticated\":false}");
    let r = api_admin_logout(&mut state, &admin);
    assert_eq!(
        r.set_cookie.as_deref(),
        Some("mdb_session=; Path=/; HttpOnly; SameSite=Lax; Max-Age=0")
    );
    assert!(!admin_ok(&state, &admin));
}

#[test]
fn admin_password_is_changed() {
    let mut state = fresh();
    state.storage.set_admin_password("secret1", ok_settings).unwrap();
    let token = issue_admin_session(&mut state, 10);
    let cookie = format!("mdb_session={token}");
    let admin = caller(Some(&cookie), 20);
    let r = api_admin_password(&mut state, &caller(None, 20), "secret1", "secret2", ok_settings);
    assert_eq!(message(&r), "admin session required");
    let r = api_admin_password(&mut state, &admin, "wrong", "secret2", ok_settings);
    assert_eq!(message(&r), "old password is incorrect");
    let r = api_admin_password(&mut state, &admin, "secret1", "\u{4e2d}\u{6587}", ok_settings);
    assert_eq!(message(&r), "new password must be at least 6 characters");
    let r = api_admin_password(&mut state, &admin, "secret1", "secret2", ok_settings);
    assert_eq!(r.status, 200);
    assert!(!admin_ok(&state, &admin));
    let fresh_cookie = r.set_cookie.unwrap().split(';').next().unwrap().to_string();
    assert!(admin_ok(&state, &caller(Some(&fresh_cookie), 20)));
    assert!(state.storage.verify_admin_password("secret2"));
    assert!(!state.storage.verify_admin_password("secret1"));
}

#[test]
fn keys_are_managed() {
    let mut state = fresh();
    let me = caller(None, 0);
    let r = api_keys_create(&mut state, &me, "laptop", ok_keys);
    let token = r.body.str_at("token").unwrap().to_string();
    let id = r.body.str_at("id").unwrap().to_string();
    assert!(state.storage.verify_api_key(&token));
    let list = api_keys_list(&state, &me);
    let keys = list.body.list_at("keys").unwrap();
    assert_eq!(keys.len(), 1);
    assert_eq!(keys[0].str_at("id"), Some(id.as_str()));
    assert_eq!(keys[0].str_at("label"), Some("laptop"));
    assert!(!list.body.to_text().contains(&token));
    let r = api_keys_create(&mut state, &me, "", |_k: &KeyStore| {
        Err(BridgeError::Io("full".to_string()))
    });
    assert_eq!((r.status, message(&r)), (500, "io: full".to_string()));
    same(&api_keys_delete(&mut state, &me, &id, ok_keys).body, "{\"ok\":true}");
    let r = api_keys_delete(&mut state, &me, &id, ok_keys);
    assert_eq!((r.status, message(&r)), (404, "key not found".to_string()));
}

#[test]
fn settings_are_managed() {
    let mut state = fresh();
    let me = caller(None, 0);
    let r = api_set_port(&mut state, &me, 80, ok_settings);
    assert_eq!((r.status, message(&r)), (400, "port must be >= 1024".to_string()));
    let r = api_set_port(&mut state, &me, 1024, ok_settings);
    same(
        &r.body,
        "{\"ok\":true,\"port\":1024,\"note\":\"restart the server to bind the new port\"}",
    );
    let r = api_set_port(&mut state, &me, 2000, bad_settings);
    assert_eq!(r.status, 500);
    assert_eq!(state.storage.settings().port, 1024);
    same(&api_key_required_get(&state, &me).body, "{\"required\":false}");
    same(
        &api_key_required_set(&mut state, &me, true, ok_settings).body,
        "{\"ok\":true,\"required\":true}",
    );
    same(&api_key_required_get(&state, &me).body, "{\"required\":true}");
    same(
        &api_tls_set(&mut state, &me, true, ok_settings).body,
        "{\"ok\":true,\"enabled\":true,\"note\":\"restart the server to bind TLS\"}",
    );
    same(
        &api_tls_get(&state, &me).body,
        "{\"enabled\":true,\"certPath\":null,\"keyPath\":null,\"note\":\"restart the server to apply TLS changes\"}",
    );
}

#[test]
fn strangers_manage_nothing() {
    let mut state = configured();
    let nobody = caller(None, 0);
    assert_eq!(api_keys_list(&state, &nobody).status, 401);
    assert_eq!(api_keys_create(&mut state, &nobody, "x", ok_keys).status, 401);
    assert_eq!(api_keys_delete(&mut state, &nobody, "x", ok_keys).status, 401);
    assert_eq!(api_key_required_get(&state, &nobody).status, 401);
    assert_eq!(api_key_required_set(&mut state, &nobody, true, ok_settings).status, 401);
    assert_eq!(api_set_port(&mut state, &nobody, 2000, ok_settings).status, 401);
    assert_eq!(api_tls_get(&state, &nobody).status, 401);
    assert_eq!(api_tls_set(&mut state, &nobody, true, ok_settings).status, 401);
    assert!(state.storage.list_keys().is_empty());
    assert_eq!(state.storage.settings().port, 8787);
}

fn outcome(outcome: LoginOutcome, flow: Option<TwoFactorFlow>, session: Option<Session>) -> LoginDone {
    LoginDone { outcome, flow, session }
}

fn second_factor() -> TwoFactorFlow {
    TwoFactorFlow {
        options: vec![4, 8],
        account: "me".to_string(),
        password_hash: "H".to_string(),
        cookie_header: "a=1".to_string(),
    }
}

#[test]
fn logins_are_settled() {
    let mut state = fresh();
    let good = LoginOutcome::Authenticated { nick: Some("N".to_string()), user_id: None };
    let mut s = Session::empty();
    s.pass_token = Some("p".to_string());
    match api_login(&mut state, Ok(outcome(good, None, Some(s)))) {
        LoginTurn::Mint { session, nick, user_id } => {
            let r = api_login_kept(&mut state, session, nick, user_id, ok_session);
            same(&r.body, "{\"outcome\":\"authenticated\",\"nick\":\"N\",\"userId\":null}");
        }
        _ => panic!("a token is to be minted"),
    }
    assert_eq!(state.storage.session().unwrap().pass_token.as_deref(), Some("p"));
    let good = LoginOutcome::Authenticated { nick: None, user_id: None };
    assert!(matches!(
        api_login(&mut state, Ok(outcome(good, None, Some(Session::empty())))),
        LoginTurn::Keep { .. }
    ));
    let good = LoginOutcome::Authenticated { nick: None, user_id: None };
    match api_login(&mut state, Ok(outcome(good, None, None))) {
        LoginTurn::Reply(r) => {
            assert_eq!(r.status, 401);
            assert_eq!(message(&r), "login succeeded but no session was returned");
        }
        _ => panic!("no session"),
    }
    let two = LoginOutcome::TwoFactorRequired { options: vec![4, 8] };
    match api_login(&mut state, Ok(outcome(two, Some(second_factor()), None))) {
        LoginTurn::Reply(r) => {
            same(&r.body, "{\"outcome\":\"two_factor_required\",\"options\":[4,8]}")
        }
        _ => panic!("a second factor is needed"),
    }
    assert!(state.two_factor.is_some());
    let captcha = LoginOutcome::CaptchaRequired { captcha_url: "/c".to_string() };
    match api_login(&mut state, Ok(outcome(captcha, None, None))) {
        LoginTurn::Reply(r) => {
            same(&r.body, "{\"outcome\":\"captcha_required\",\"captchaUrl\":\"/c\"}")
        }
        _ => panic!("a captcha is needed"),
    }
    let bad = LoginOutcome::Failed { code: 70016, description: "wrong".to_string() };
    match api_login(&mut state, Ok(outcome(bad, None, None))) {
        LoginTurn::Reply(r) => assert_eq!(message(&r), "wrong (code=70016)"),
        _ => panic!("the login failed"),
    }
    match api_login(&mut state, Err(BridgeError::Login("x".to_string()))) {
        LoginTurn::Reply(r) => {
            assert_eq!((r.status, message(&r)), (401, "login: x".to_string()));
            assert_eq!(r.body.get("error").unwrap().str_at("code"), Some("login_failed"));
        }
        _ => panic!("the login failed"),
    }
}

#[test]
fn second_factors_are_settled() {
    let mut state = fresh();
    match flow_in_flight(&state) {
        Err(r) => assert_eq!(r.status, 400),
        Ok(_) => panic!("no login before"),
    }
    state.two_factor = Some(second_factor());
    let r = api_send_ticket(&mut state, Ok((true, "a=1; b=2".to_string())));
    same(&r.body, "{\"ok\":true}");
    match flow_in_flight(&state) {
        Ok(f) => assert_eq!(f.cookie_header, "a=1; b=2"),
        Err(_) => panic!("a flow is in flight"),
    }
    let r = api_send_ticket(&mut state, Ok((false, "wait (code=9)".to_string())));
    assert_eq!((r.status, message(&r)), (502, "wait (code=9)".to_string()));
    let r = api_send_ticket(&mut state, Err(BridgeError::Http("down".to_string())));
    assert_eq!((r.status, message(&r)), (500, "http: down".to_string()));
    let mut s = Session::empty();
    s.pass_token = Some("p".to_string());
    assert!(matches!(api_verify_ticket(Ok(s.clone())), VerifyTurn::Mint(_)));
    s.service_token = Some("t".to_string());
    assert!(matches!(api_verify_ticket(Ok(s.clone())), VerifyTurn::Keep(_)));
    match api_verify_ticket(Err(BridgeError::VerificationCode)) {
        VerifyTurn::Reply(r) => assert_eq!(message(&r), "verification code invalid"),
        _ => panic!("a wrong code"),
    }
    let r = api_verify_kept(&mut state, s, ok_session);
    same(&r.body, "{\"outcome\":\"authenticated\",\"userId\":null,\"hasServiceToken\":true}");
    assert!(state.two_factor.is_none());
    assert!(state.storage.session().is_some());
}

#[test]
fn sessions_are_refreshed_and_forgotten() {
    let mut state = fresh();
    assert_eq!(refresh_denied(&state).unwrap().status, 401);
    state.storage.save_session(Session::empty(), ok_session).unwrap();
    assert!(refresh_denied(&state).is_none());
    assert_eq!(api_refresh(&Ok(Session::empty())).status, 200);
    let r = api_refresh(&Err(BridgeError::Proxy("x".to_string())));
    assert_eq!((r.status, message(&r)), (502, "proxy: x".to_string()));
    same(
        &api_auth_status(&state).body,
        "{\"loggedIn\":false,\"userId\":null,\"nick\":null,\"hasPassToken\":false,\"sid\":\"mimopc\"}",
    );
    state.two_factor = Some(second_factor());
    assert_eq!(api_logout(&mut state).status, 200);
    assert!(state.storage.session().is_none());
    assert!(state.two_factor.is_none());
}

#[test]
fn usage_and_logs_are_told() {
    let mut state = fresh();
    same(
        &api_usage(&state).body,
        "{\"models\":{},\"total\":{\"requests\":0,\"prompt_tokens\":0,\"completion_tokens\":0,\"total_tokens\":0,\"errors\":0,\"last_used_ms\":null}}",
    );
    state.usage.record("m", 1, 2, false);
    let r = api_usage(&state);
    let m = r.body.get("models").unwrap().get("m").unwrap();
    assert_eq!(m.u64_at("total_tokens"), Some(3));
    state.emit_log(Json::text("a"));
    state.emit_log(Json::text("b"));
    same(&api_logs(&state).body, "[\"b\",\"a\"]");
    assert_eq!(api_models().body.list_at("data").unwrap().len(), 5);
    same(&healthz().body, "{\"ok\":true}");
    let report = status_report("/tmp/x", &state.storage);
    same(
        &report,
        "{\"configDir\":\"/tmp/x\",\"adminConfigured\":false,\"apiKeyRequired\":false,\"port\":8787,\"tlsEnabled\":false,\"loggedIn\":false,\"userId\":null,\"hasPassToken\":false,\"hasServiceToken\":false,\"apiKeys\":0}",
    );
}

#[test]
fn pages_are_hidden_from_strangers() {
    let all = Assets { login: true, asked: true, index: true };
    let open = fresh();
    let locked = configured();
    let nobody = caller(None, 0);
    match static_asset(&open, &nobody, "//css/app.css", all) {
        PageReply::File { file, media_type } => {
            assert_eq!(file, "css/app.css");
            assert_eq!(media_type, "text/css");
        }
        _ => panic!("a file"),
    }
    match static_asset(&locked, &nobody, "/", all) {
        PageReply::File { file, .. } => assert_eq!(file, "login.html"),
        _ => panic!("the login page"),
    }
    let none = Assets { login: false, asked: false, index: false };
    match static_asset(&locked, &nobody, "/", none) {
        PageReply::Plain { status, text } => {
            assert_eq!((status, text.as_str()), (401, "admin session required"))
        }
        _ => panic!("a text"),
    }
    match static_asset(&open, &nobody, "/x", none) {
        PageReply::Json(r) => assert_eq!(r.status, 404),
        _ => panic!("not found"),
    }
    let fallback = Assets { login: true, asked: false, index: true };
    match static_asset(&open, &nobody, "/deep/link", fallback) {
        PageReply::File { file, media_type } => {
            assert_eq!((file.as_str(), media_type.as_str()), ("index.html", "text/html; charset=utf-8"))
        }
        _ => panic!("the start page"),
    }
    assert_eq!(asset_path("/"), "index.html");
    let typed = |path: &str| match static_asset(&open, &nobody, path, all) {
        PageReply::File { media_type, .. } => media_type,
        _ => panic!("a file"),
    };
    assert_eq!(typed("/a.b/logo.tar.PNG"), "image/png");
    assert_eq!(typed("/a.css/c"), "application/octet-stream");
    assert_eq!(typed("/.css"), "application/octet-stream");
    assert_eq!(typed("/x."), "application/octet-stream");
    match page(true, "/a.js", all, "text/x".to_string()) {
        PageReply::File { file, media_type } => {
            assert_eq!((file.as_str(), media_type.as_str()), ("a.js", "text/x"))
        }
        _ => panic!("a file"),
    }
}

#[test]
fn server_settings_are_decided() {
    let c = ServerConfig::default();
    assert_eq!((c.host.as_str(), c.port), ("127.0.0.1", 8787));
    assert_eq!(tls_flag(false, false, false), None);
    assert_eq!(tls_flag(false, true, false), Some(true));
    assert_eq!(webui_url(true, "[::1]:8787"), "https://[::1]:8787");
    assert_eq!(webui_url(false, "127.0.0.1:1"), "http://127.0.0.1:1");
    let mut storage = Storage::load_all(None, None, None);
    assert!(!persist_tls(&mut storage, &c, ok_settings));
    let mut with_tls = ServerConfig::default();
    with_tls.tls = Some(true);
    with_tls.tls_cert = Some("c.pem".to_string());
    assert!(!persist_tls(&mut storage, &with_tls, bad_settings));
    assert!(persist_tls(&mut storage, &with_tls, ok_settings));
    let s = storage.settings();
    assert_eq!(s.tls_cert_path.as_deref(), Some("c.pem"));
    assert_eq!(provided_tls(&s), None);
    let mut both = Settings::default();
    both.tls_cert_path = Some("c".to_string());
    both.tls_key_path = Some("k".to_string());
    assert_eq!(provided_tls(&both), Some(("c".to_string(), "k".to_string())));
    assert_eq!(self_signed_names()[3], "local.mimodesktopbridge.com");
    both.cors_origins = vec![
        " http://localhost:3000 ".to_string(),
        "bad\u{1}origin".to_string(),
        "https://b".to_string(),
    ];
    assert_eq!(cors_origins(&both), vec!["http://localhost:3000", "https://b"]);
    assert!(cors_origins(&Settings::default()).is_empty());
}

#[test]
fn errors_have_status_and_code() {
    let all = [
        (BridgeError::Login("m".to_string()), 401, "login_failed", "login: m"),
        (BridgeError::VerificationCode, 401, "verification_code", "verification code invalid"),
        (BridgeError::Proxy("m".to_string()), 502, "proxy_error", "proxy: m"),
        (BridgeError::Storage("m".to_string()), 500, "storage_error", "storage: m"),
        (BridgeError::Unauthorized, 401, "unauthorized", "unauthorized"),
        (BridgeError::Http("m".to_string()), 500, "internal", "http: m"),
        (BridgeError::Json("m".to_string()), 500, "internal", "json: m"),
        (BridgeError::Io("m".to_string()), 500, "internal", "io: m"),
    ];
    for (e, status, code, said) in all {
        assert_eq!(e.status(), status);
        assert_eq!(e.code(), code);
        assert_eq!(e.message(), said);
    }
}
