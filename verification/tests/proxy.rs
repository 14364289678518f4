use mimo_desktop_bridge::auth::Session;
use mimo_desktop_bridge::error::BridgeError;
use mimo_desktop_bridge::json::Json;
use mimo_desktop_bridge::proxy::{
    chat, chat_answered, chat_answered_at, chat_refused, chat_refused_at, chat_unsent, error_response,
    known_models, models, probes, proxy_status, shape_chat, ChatRelay,
};
use mimo_desktop_bridge::reply::{AnswerTurn, StreamStart};
use mimo_desktop_bridge::upstream::SendError;
use mimo_desktop_bridge::usage::{Usage, UsageNote};

fn same(j: &Json, expected: &str) {
    assert_eq!(j.to_text(), Json::parse(expected).unwrap().to_text());
}

#[test]
fn known_models_shape() {
    let models = known_models();
    assert!(models.len() >= 5);
    let ids: Vec<&str> = models.iter().filter_map(|m| m.str_at("id")).collect();
    assert!(ids.contains(&"mimo-x-pro-preview"));
    assert!(ids.contains(&"mimo-auto"));
    for m in &models {
        assert_eq!(m.str_at("object"), Some("model"));
        assert_eq!(m.str_at("owned_by"), Some("xiaomi"));
    }
}

#[test]
fn error_response_shape() {
    let resp = error_response(400, "boom", "bad");
    assert_eq!(resp.status, 400);
}

#[test]
fn errors_are_told_as_openai_does() {
    let resp = error_response(418, "boom", "bad");
    assert_eq!(resp.set_cookie, None);
    same(
        &resp.body,
        "{\"error\":{\"message\":\"boom\",\"type\":\"invalid_request_error\",\"code\":\"bad\"}}",
    );
}

#[test]
fn models_are_listed() {
    let list = models();
    assert_eq!(list.status, 200);
    assert_eq!(list.body.str_at("object"), Some("list"));
    let data = list.body.list_at("data").unwrap();
    assert_eq!(data.len(), 5);
    same(
        &data[3],
        "{\"id\":\"mimo-flash\",\"object\":\"model\",\"created\":0,\"owned_by\":\"xiaomi\",\"name\":\"MiMo Flash\"}",
    );
}

#[test]
fn chat_bodies_are_shaped() {
    let (call, row) = match chat("{\"model\":\"mimo-pro\",\"n\":3,\"stream\":true,\"x\":[1]}") {
        Ok(c) => c,
        Err(_) => panic!("a good body"),
    };
    assert!(call.stream);
    assert_eq!(call.model, "mimo-pro");
    same(&call.payload, "{\"model\":\"mimo-pro\",\"n\":1,\"stream\":true,\"x\":[1]}");
    assert_eq!(row.str_at("kind"), Some("request"));
    assert_eq!(row.str_at("path"), Some("/v1/chat/completions"));
    assert_eq!(row.str_at("model"), Some("mimo-pro"));
    assert_eq!(row.bool_at("stream"), Some(true));
    assert!(row.i64_at("ts").unwrap() > 1_600_000_000_000);
    let plain = match shape_chat(Json::parse("{\"n\":1}")) {
        Ok(c) => c,
        Err(_) => panic!("a good body"),
    };
    assert!(!plain.stream);
    assert_eq!(plain.model, "unknown");
    same(&plain.payload, "{\"n\":1}");
}

#[test]
fn bad_chat_bodies_are_refused() {
    match chat("[1]") {
        Err(r) => {
            assert_eq!(r.status, 400);
            assert_eq!(
                r.body.get("error").unwrap().str_at("message"),
                Some("body must be a JSON object")
            );
        }
        Ok(_) => panic!("no object"),
    }
    match chat("{") {
        Err(r) => assert_eq!(
            r.body.get("error").unwrap().str_at("message"),
            Some("invalid JSON: EOF while parsing an object at line 1 column 1")
        ),
        Ok(_) => panic!("no JSON"),
    }
}

#[test]
fn unsent_chats_are_told() {
    let r = chat_unsent(&SendError::NotLoggedIn);
    assert_eq!(r.status, 401);
    assert_eq!(r.body.get("error").unwrap().str_at("code"), Some("invalid_api_key"));
    let r = chat_unsent(&SendError::Upstream("reset".to_string()));
    assert_eq!(r.status, 502);
    assert_eq!(
        r.body.get("error").unwrap().str_at("message"),
        Some("upstream fetch failed: reset")
    );
}

fn passed(turn: AnswerTurn) -> StreamStart {
    match turn {
        AnswerTurn::Stream(start) => start,
        _ => panic!("it is passed on"),
    }
}

#[test]
fn refused_chats_are_noted() {
    assert!(matches!(chat_answered(500, None, false, 0), AnswerTurn::Refuse));
    assert!(matches!(chat_answered(302, None, false, 0), AnswerTurn::Refuse));
    assert!(matches!(chat_answered(204, None, false, 0), AnswerTurn::Stream(_)));
    assert_eq!(passed(chat_answered(500, None, true, 0)).status, 500);
    let long = "x".repeat(500);
    let s = chat_refused_at(429, &long, 5, 7);
    assert_eq!(s.reply.status, 429);
    let said = s.reply.body.get("error").unwrap().str_at("message").unwrap().to_string();
    assert_eq!(said, format!("upstream 429: {}", "x".repeat(400)));
    let row = s.row.unwrap();
    same(
        &row,
        &format!(
            "{{\"ts\":5,\"kind\":\"error\",\"path\":\"/v1/chat/completions\",\"status\":429,\"message\":\"{}\",\"elapsed_ms\":7}}",
            "x".repeat(200)
        ),
    );
    assert_eq!(
        s.note,
        Some(UsageNote::Request { prompt_tokens: 0, completion_tokens: 0, error: true })
    );
    assert_eq!(chat_refused(7, "", 0).reply.status, 502);
}

#[test]
fn passed_chats_are_noted() {
    let s = passed(chat_answered_at(200, None, false, 1, 2));
    assert_eq!(s.status, 200);
    assert_eq!(s.headers.items, vec![("content-type".to_string(), "application/json".to_string())]);
    same(
        &s.row.unwrap(),
        "{\"ts\":1,\"kind\":\"response\",\"path\":\"/v1/chat/completions\",\"status\":200,\"elapsed_ms\":2}",
    );
    let s = passed(chat_answered(200, Some("text/event-stream"), true, 2));
    assert_eq!(
        s.headers.items,
        vec![
            ("content-type".to_string(), "text/event-stream".to_string()),
            ("x-accel-buffering".to_string(), "no".to_string()),
        ]
    );
    assert_eq!(
        s.note,
        Some(UsageNote::Request { prompt_tokens: 0, completion_tokens: 0, error: false })
    );
}

fn relay_all(stream: bool, chunks: &[&[u8]]) -> (Vec<u8>, Vec<Option<UsageNote>>, ChatRelay) {
    let mut relay = ChatRelay::new(stream);
    let mut bytes = Vec::new();
    let mut notes = Vec::new();
    for c in chunks {
        relay.feed(c);
        while let Some(out) = relay.next() {
            bytes.extend(out.bytes);
            notes.push(out.note);
        }
    }
    (bytes, notes, relay)
}

#[test]
fn event_streams_pass_through() {
    let stream = "event: x\ndata: {\"a\":\"\u{4e2d}\"}\n\ndata:{\"usage\":{\"prompt_tokens\":3,\"completion_tokens\":5}}\r\n\r\ndata: [DONE]\n\n tail";
    let (bytes, notes, mut relay) = relay_all(true, &[stream.as_bytes()]);
    assert_eq!(
        String::from_utf8(bytes.clone()).unwrap(),
        "event: x\ndata: {\"a\":\"\u{4e2d}\"}\n\ndata: {\"usage\":{\"prompt_tokens\":3,\"completion_tokens\":5}}\n\ndata: [DONE]\n\n"
    );
    let tokens = Some(UsageNote::Tokens { prompt_tokens: 3, completion_tokens: 5 });
    assert_eq!(notes, vec![None, None, None, tokens]);
    // What follows the last line comes out as it is, and the tokens are not noted again.
    let rest = relay.end();
    assert_eq!(rest.bytes, b" tail");
    assert_eq!(rest.note, None);
    assert_eq!(
        relay.fail(),
        UsageNote::Request { prompt_tokens: 3, completion_tokens: 5, error: true }
    );
    let again = relay.end();
    assert!(again.bytes.is_empty());
    assert_eq!(again.note, None);
    // However it is cut, the same comes out.
    let all = stream.as_bytes();
    for at in 0..all.len() {
        let (cut, cut_notes, mut cut_relay) = relay_all(true, &[&all[..at], &all[at..]]);
        assert_eq!(cut, bytes);
        assert_eq!(cut_notes, notes);
        assert_eq!(cut_relay.end().bytes, b" tail");
    }
}

#[test]
fn stated_tokens_are_counted_once() {
    let stream: &[u8] =
        b"data: {\"usage\":{\"prompt_tokens\":3,\"completion_tokens\":2}}\n\ndata: [DONE]\n\n";
    let start = passed(chat_answered(200, Some("text/event-stream"), true, 0));
    let mut usage = Usage::load(None);
    assert!(usage.apply("m", start.note.unwrap()));
    let (_, notes, mut relay) = relay_all(true, &[stream]);
    for note in notes.into_iter().flatten() {
        assert!(usage.apply("m", note));
    }
    if let Some(note) = relay.end().note {
        assert!(usage.apply("m", note));
    }
    let counted = usage.snapshot().get("m");
    assert_eq!(
        (
            counted.requests,
            counted.prompt_tokens,
            counted.completion_tokens,
            counted.total_tokens,
            counted.errors
        ),
        (1, 3, 2, 5, 0)
    );
}

#[test]
fn tokens_of_an_unmarked_stream_are_noted_at_its_end() {
    let (bytes, notes, mut relay) =
        relay_all(true, &[b"data: {\"usage\":{\"prompt_tokens\":4,\"completion_tokens\":1}}"]);
    assert!(bytes.is_empty());
    assert!(notes.is_empty());
    let rest = relay.end();
    assert_eq!(rest.bytes, b"data: {\"usage\":{\"prompt_tokens\":4,\"completion_tokens\":1}}");
    assert_eq!(rest.note, Some(UsageNote::Tokens { prompt_tokens: 4, completion_tokens: 1 }));
}

#[test]
fn whole_bodies_pass_byte_for_byte() {
    let bodies: [&[u8]; 4] =
        [b"{\"id\":\"x\"}", b"{\r\n  \"id\": \"x\"\n}\n", b"", b"\n \xff\n\nlast"];
    for body in bodies {
        for at in 0..=body.len() {
            let (mut bytes, notes, mut relay) = relay_all(false, &[&body[..at], &body[at..]]);
            let rest = relay.end();
            bytes.extend(rest.bytes);
            assert_eq!(bytes, body);
            assert!(notes.iter().all(|n| n.is_none()));
            assert_eq!(rest.note, None);
        }
    }
}

#[test]
fn quiet_streams_count_nothing() {
    let (bytes, notes, mut relay) = relay_all(true, &[b"\n\ndata: no json\n\ndata: [DONE]\n"]);
    assert_eq!(bytes, b"data: no json\n\ndata: [DONE]\n\n");
    assert_eq!(notes, vec![None, None]);
    let rest = relay.end();
    assert!(rest.bytes.is_empty());
    assert_eq!(rest.note, None);
}

#[test]
fn account_status_is_told() {
    assert!(!probes(&None));
    assert!(!probes(&Some(Session::empty())));
    let mut s = Session::empty();
    s.pass_token = Some("p".to_string());
    s.user_id = Some("7".to_string());
    let session = Some(s);
    assert!(probes(&session));
    let r = proxy_status(&session, Some(Ok((200, true, "{}".to_string()))));
    same(
        &r.body,
        "{\"loggedIn\":false,\"userId\":\"7\",\"nick\":null,\"hasPassToken\":true,\"hasServiceToken\":false,\"apiBase\":\"https://mimo-server-cn.xiaomimimo.com/api\",\"sid\":\"mimopc\",\"meStatus\":200,\"meLoggedIn\":true,\"mePreview\":\"{}\"}",
    );
    let r = proxy_status(&session, Some(Err(BridgeError::Unauthorized)));
    assert!(matches!(r.body.get("meStatus"), Some(Json::Null)));
    assert_eq!(r.body.bool_at("meLoggedIn"), Some(false));
    let r = proxy_status(&None, None);
    assert_eq!(r.body.bool_at("loggedIn"), Some(false));
    assert!(matches!(r.body.get("userId"), Some(Json::Null)));
}
