use mimo_desktop_bridge::auth::Session;
use mimo_desktop_bridge::error::BridgeError;
use mimo_desktop_bridge::exchange::Payload;
use mimo_desktop_bridge::json::Json;
use mimo_desktop_bridge::storage::Storage;
use mimo_desktop_bridge::upstream::{
    keep_minted, refresh_step, send_chat, stale, take_sse_line, RefreshStep, SendAction, SendError,
    SendEvent, SendFlow, SendNext,
};

#[test]
fn take_sse_line_waits_for_full_line() {
    let mut buf = Vec::new();
    assert_eq!(take_sse_line(&mut buf), None);
    buf.extend_from_slice(b"data: par");
    assert_eq!(take_sse_line(&mut buf), None);
    buf.extend_from_slice(b"tial");
    assert_eq!(take_sse_line(&mut buf), None);
    buf.extend_from_slice(b"\n");
    assert_eq!(take_sse_line(&mut buf).as_deref(), Some("data: partial"));
    assert!(buf.is_empty());
}

#[test]
fn take_sse_line_handles_crlf_and_multiple() {
    let mut buf = b"a\r\nb\n".to_vec();
    assert_eq!(take_sse_line(&mut buf).as_deref(), Some("a"));
    assert_eq!(take_sse_line(&mut buf).as_deref(), Some("b"));
    assert_eq!(take_sse_line(&mut buf), None);
}

#[test]
fn take_sse_line_decodes_split_multibyte_only_when_complete() {
    // "中" = E4 B8 AD; split across two chunks must not garble.
    let mut buf = vec![0xE4, 0xB8];
    assert_eq!(take_sse_line(&mut buf), None);
    buf.extend_from_slice(&[0xAD, b'\n']);
    assert_eq!(take_sse_line(&mut buf).as_deref(), Some("中"));
}

#[test]
fn take_sse_line_replaces_what_is_no_text() {
    let mut buf = b"a\xffb\nrest".to_vec();
    assert_eq!(take_sse_line(&mut buf).as_deref(), Some("a\u{fffd}b"));
    assert_eq!(buf, b"rest".to_vec());
}

fn session(token: &str, at: Option<i64>) -> Session {
    let mut s = Session::empty();
    s.service_token = Some(token.to_string());
    s.user_id = Some("7".to_string());
    s.refreshed_at = at;
    s
}

fn sent_cookie(flow: &SendFlow) -> String {
    match flow.action() {
        SendAction::Send(req) => {
            assert!(req.post);
            assert_eq!(
                req.url,
                "https://mimo-server-cn.xiaomimimo.com/api/route/chat/completions"
            );
            let find = |name: &str| {
                req.headers
                    .items
                    .iter()
                    .find(|(k, _)| k == name)
                    .map(|(_, v)| v.clone())
                    .unwrap_or_default()
            };
            assert_eq!(find("x-mimo-source"), "mimocode-cli-free");
            assert_eq!(find("accept"), "text/event-stream");
            match req.payload {
                Payload::Text(t) => assert_eq!(t, "{\"stream\":true}"),
                _ => panic!("payload"),
            }
            find("cookie")
        }
        SendAction::Refresh => panic!("nothing is sent"),
    }
}

#[test]
fn chat_needs_a_session() {
    let payload = Json::parse("{}").unwrap();
    assert!(matches!(send_chat(None, &payload), Err(SendError::NotLoggedIn)));
    assert!(matches!(
        send_chat(Some(Session::empty()), &payload),
        Err(SendError::NotLoggedIn)
    ));
    assert!(send_chat(Some(session("t", None)), &payload).is_ok());
}

#[test]
fn refused_token_is_refreshed_once() {
    let payload = Json::parse("{\"stream\":true}").unwrap();
    let flow = SendFlow::start_at(Some(session("old", Some(0))), &payload, 1000).unwrap();
    assert_eq!(sent_cookie(&flow), "serviceToken=old; mimopc_serviceToken=old; userId=7");
    let flow = match flow.after(SendEvent::Sent(Ok(401))) {
        SendNext::Continue(f) => f,
        _ => panic!("a refresh is due"),
    };
    assert!(matches!(flow.action(), SendAction::Refresh));
    let flow = match flow.after(SendEvent::Refreshed(Some(session("new", Some(1))))) {
        SendNext::Continue(f) => f,
        _ => panic!("a retry is due"),
    };
    assert_eq!(sent_cookie(&flow), "serviceToken=new; mimopc_serviceToken=new; userId=7");
    assert!(matches!(flow.after(SendEvent::Sent(Ok(401))), SendNext::UseSecond));
}

#[test]
fn failed_refresh_keeps_the_first_answer() {
    let payload = Json::parse("{\"stream\":true}").unwrap();
    let start = || SendFlow::start_at(Some(session("t", None)), &payload, 0).unwrap();
    assert!(matches!(start().after(SendEvent::Sent(Ok(500))), SendNext::UseFirst));
    match start().after(SendEvent::Sent(Err("reset".to_string()))) {
        SendNext::Failed(SendError::Upstream(e)) => assert_eq!(e, "reset"),
        _ => panic!("the call failed"),
    }
    let denied = match start().after(SendEvent::Sent(Ok(401))) {
        SendNext::Continue(f) => f,
        _ => panic!("a refresh is due"),
    };
    assert!(matches!(denied.after(SendEvent::Refreshed(None)), SendNext::UseFirst));
    let denied = match start().after(SendEvent::Sent(Ok(401))) {
        SendNext::Continue(f) => f,
        _ => panic!("a refresh is due"),
    };
    let second = match denied.after(SendEvent::Refreshed(Some(session("n", None)))) {
        SendNext::Continue(f) => f,
        _ => panic!("a retry is due"),
    };
    assert!(matches!(
        second.after(SendEvent::Sent(Err("reset".to_string()))),
        SendNext::UseFirst
    ));
}

#[test]
fn old_token_is_refreshed_first() {
    let day = 86_400_000;
    assert!(!stale(&session("t", Some(0)), day));
    assert!(stale(&session("t", Some(0)), day + 1));
    assert!(!stale(&session("t", None), day + 1));
    assert!(stale(&session("t", Some(i64::MIN)), i64::MAX));
    let payload = Json::parse("{\"stream\":true}").unwrap();
    let flow = SendFlow::start_at(Some(session("old", Some(0))), &payload, day + 1).unwrap();
    assert!(matches!(flow.action(), SendAction::Refresh));
    match flow.after(SendEvent::Refreshed(None)) {
        SendNext::Continue(f) => assert!(sent_cookie(&f).contains("serviceToken=old")),
        _ => panic!("the old token may still work"),
    }
}

#[test]
fn waiting_refresh_reuses_the_minted_token() {
    assert!(matches!(refresh_step(false, None, None), RefreshStep::NotLoggedIn));
    match refresh_step(false, Some(1), Some(session("n", Some(2)))) {
        RefreshStep::Reuse(s) => assert_eq!(s.service_token.as_deref(), Some("n")),
        _ => panic!("somebody else has minted"),
    }
    assert!(matches!(
        refresh_step(true, Some(1), Some(session("n", Some(2)))),
        RefreshStep::Mint(_)
    ));
    assert!(matches!(
        refresh_step(false, Some(2), Some(session("n", Some(2)))),
        RefreshStep::Mint(_)
    ));
}

#[test]
fn minted_session_is_kept() {
    let mut storage = Storage::load_all(None, None, None);
    let kept = keep_minted(&mut storage, session("m", Some(5)), Ok(()), |_s: &Session| Ok(()));
    assert_eq!(kept.unwrap().service_token.as_deref(), Some("m"));
    assert_eq!(storage.session().unwrap().service_token.as_deref(), Some("m"));
    let failed = keep_minted(
        &mut storage,
        session("x", None),
        Err(BridgeError::Login("no".to_string())),
        |_s: &Session| Ok(()),
    );
    assert_eq!(failed.unwrap_err().message(), "login: no");
    assert_eq!(storage.session().unwrap().service_token.as_deref(), Some("m"));
    let unwritten = keep_minted(&mut storage, session("y", None), Ok(()), |_s: &Session| {
        Err(BridgeError::Io("full".to_string()))
    });
    assert_eq!(unwritten.unwrap().service_token.as_deref(), Some("y"));
    assert_eq!(storage.session().unwrap().service_token.as_deref(), Some("m"));
}
