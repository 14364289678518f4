use mimo_desktop_bridge::anthropic::{
    anth_err, anthropic_to_openai, message_id, messages, messages_answered, messages_broken, messages_gathered,
    messages_refused, messages_streamed, messages_unsent, preamble, AnthStream,
};
use mimo_desktop_bridge::json::Json;
use mimo_desktop_bridge::reply::AnswerTurn;
use mimo_desktop_bridge::upstream::SendError;
use mimo_desktop_bridge::usage::UsageNote;

fn json(text: &str) -> Json {
    Json::parse(text).unwrap()
}

fn same(j: &Json, expected: &str) {
    assert_eq!(j.to_text(), json(expected).to_text());
}

#[test]
fn messages_become_chats() {
    let body = json(
        "{\"model\":\"m\",\"max_tokens\":7,\"system\":[{\"text\":\"s1\"},{\"text\":\"s2\"}],\"messages\":[{\"role\":\"user\",\"content\":\"hi\"},{\"role\":\"assistant\",\"content\":[{\"type\":\"thinking\",\"thinking\":\"hm\"},{\"type\":\"text\",\"text\":\"yes\"},{\"type\":\"image\"}]},{\"content\":[{\"type\":\"tool_result\",\"content\":[{\"a\":1}]},{\"type\":\"tool_result\",\"content\":\"r\"},{\"type\":\"tool_result\"}]},{\"role\":\"tool\"}],\"temperature\":1,\"top_p\":0.5,\"stop_sequences\":[\"x\"]}",
    );
    let out = match anthropic_to_openai(&body) {
        Ok(o) => o,
        Err(e) => panic!("{}", e),
    };
    same(
        &out,
        "{\"model\":\"m\",\"messages\":[{\"role\":\"system\",\"content\":\"s1\\ns2\"},{\"role\":\"user\",\"content\":\"hi\"},{\"role\":\"assistant\",\"content\":\"hm\\nyes\"},{\"role\":\"user\",\"content\":\"[{\\\"a\\\":1}]\\nr\\n\"},{\"role\":\"tool\",\"content\":\"\"}],\"max_tokens\":7,\"stream\":true,\"stream_options\":{\"include_usage\":true},\"temperature\":1,\"top_p\":0.5,\"stop\":[\"x\"]}",
    );
    let short = match anthropic_to_openai(&json("{\"model\":\"m\",\"system\":\"\",\"messages\":[]}")) {
        Ok(o) => o,
        Err(e) => panic!("{}", e),
    };
    assert_eq!(short.u64_at("max_tokens"), Some(4096));
    assert!(short.list_at("messages").unwrap().is_empty());
}

#[test]
fn bad_messages_are_refused() {
    let said = |body: &str| match messages(body) {
        Err(r) => {
            assert_eq!(r.status, 400);
            assert_eq!(r.body.str_at("type"), Some("error"));
            assert_eq!(
                r.body.get("error").unwrap().str_at("type"),
                Some("invalid_request_error")
            );
            r.body.get("error").unwrap().str_at("message").unwrap().to_string()
        }
        Ok(_) => panic!("a bad body"),
    };
    assert_eq!(said("{}"), "model is required");
    assert_eq!(said("{\"model\":\"m\"}"), "messages is required");
    assert_eq!(said("x"), "invalid JSON: expected value at line 1 column 1");
}

#[test]
fn messages_requests_are_read() {
    let call = match messages(
        "{\"model\":\"m\",\"messages\":[],\"stream\":true,\"thinking\":{\"type\":\"enabled\"}}",
    ) {
        Ok(c) => c,
        Err(_) => panic!("a good body"),
    };
    assert!(call.stream);
    assert!(call.thinking);
    assert_eq!(call.model, "m");
    assert_eq!(call.payload.bool_at("stream"), Some(true));
    let call = match messages("{\"model\":\"m\",\"messages\":[]}") {
        Ok(c) => c,
        Err(_) => panic!("a good body"),
    };
    assert!(!call.stream);
    assert!(!call.thinking);
    assert_eq!(call.payload.bool_at("stream"), Some(true));
}

#[test]
fn messages_errors_are_told() {
    let r = anth_err(418, "m", "k");
    assert_eq!(r.status, 418);
    same(&r.body, "{\"type\":\"error\",\"error\":{\"type\":\"k\",\"message\":\"m\"}}");
    let r = messages_unsent(&SendError::NotLoggedIn);
    assert_eq!(r.status, 401);
    assert_eq!(r.body.get("error").unwrap().str_at("type"), Some("authentication_error"));
    let r = messages_unsent(&SendError::Upstream("reset".to_string()));
    assert_eq!(r.status, 502);
    let r = messages_refused(429, &"y".repeat(301));
    assert_eq!(r.status, 429);
    assert_eq!(
        r.body.get("error").unwrap().str_at("message").map(|m| m.to_string()),
        Some(format!("upstream 429: {}", "y".repeat(300)))
    );
    assert_eq!(messages_broken().status, 502);
    assert!(matches!(messages_answered(500, true), AnswerTurn::Refuse));
    assert!(matches!(messages_answered(200, true), AnswerTurn::Stream(_)));
    assert!(matches!(messages_answered(200, false), AnswerTurn::Whole));
    assert_eq!(
        messages_streamed().headers.items,
        vec![
            ("content-type".to_string(), "text/event-stream".to_string()),
            ("cache-control".to_string(), "no-cache".to_string()),
        ]
    );
}

fn translate(chunks: &[&[u8]], thinking: bool) -> (String, Vec<Option<UsageNote>>, AnthStream) {
    let mut stream = AnthStream::new(thinking);
    let mut text = String::new();
    let mut notes = Vec::new();
    for c in chunks {
        stream.feed(c);
        while let Some(out) = stream.next() {
            text.push_str(&out.text);
            notes.push(out.note);
        }
    }
    (text, notes, stream)
}

const STREAM: &str = "data: {\"choices\":[{\"delta\":{\"content\":\"Hel\",\"reasoning_content\":\"why\"}}]}\n\n: ping\ndata: junk\ndata: {\"choices\":[{\"delta\":{\"content\":\"lo\u{4e2d}\"}}],\"usage\":{\"prompt_tokens\":2,\"completion_tokens\":6}}\n\ndata: {\"choices\":[{\"delta\":{},\"finish_reason\":\"stop\"}]}\n\ndata: [DONE]\n\n";

#[test]
fn chunks_become_events() {
    let (text, notes, mut stream) = translate(&[STREAM.as_bytes()], false);
    assert_eq!(
        text,
        "event: content_block_delta\ndata: {\"delta\":{\"text\":\"Hel\",\"type\":\"text_delta\"},\"index\":0,\"type\":\"content_block_delta\"}\n\nevent: content_block_delta\ndata: {\"delta\":{\"text\":\"lo\u{4e2d}\",\"type\":\"text_delta\"},\"index\":0,\"type\":\"content_block_delta\"}\n\nevent: message_delta\ndata: {\"delta\":{\"stop_reason\":\"end_turn\",\"stop_sequence\":null},\"type\":\"message_delta\",\"usage\":{\"output_tokens\":6}}\n\nevent: message_stop\ndata: {\"type\":\"message_stop\"}\n\n"
    );
    assert_eq!(notes[0], None);
    assert_eq!(notes[1], None);
    assert_eq!(
        notes[2],
        Some(UsageNote::Request { prompt_tokens: 2, completion_tokens: 6, error: false })
    );
    // The message has ended: neither [DONE] nor the end of the stream ends it again.
    assert_eq!(notes.len(), 3);
    assert!(stream.done);
    assert!(stream.end().is_none());
    let bytes = STREAM.as_bytes();
    for at in 0..bytes.len() {
        let (cut, cut_notes, _) = translate(&[&bytes[..at], &bytes[at..]], false);
        assert_eq!(cut, text);
        assert_eq!(cut_notes, notes);
    }
}

#[test]
fn whole_message_tells_what_the_stream_tells() {
    let (events, _, _) = translate(&[STREAM.as_bytes()], true);
    let r = messages_gathered("msg_1", "m", true, &events);
    assert_eq!(r.status, 200);
    same(
        &r.body,
        "{\"id\":\"msg_1\",\"type\":\"message\",\"role\":\"assistant\",\"model\":\"m\",\"content\":[{\"type\":\"thinking\",\"thinking\":\"why\"},{\"type\":\"text\",\"text\":\"Hello\u{4e2d}\"}],\"stop_reason\":\"end_turn\",\"stop_sequence\":null,\"usage\":{\"input_tokens\":0,\"output_tokens\":6}}",
    );
    let (events, _, _) = translate(&[STREAM.as_bytes()], false);
    let r = messages_gathered("msg_1", "m", false, &events);
    same(
        r.body.get("content").unwrap(),
        "[{\"type\":\"text\",\"text\":\"Hello\u{4e2d}\"}]",
    );
}

#[test]
fn completion_tokens_are_a_quarter_at_least() {
    let line = format!(
        "data: {{\"choices\":[{{\"delta\":{{\"content\":\"{}\"}}}}]}}\ndata: [DONE]\n",
        "a".repeat(42)
    );
    let (_, notes, _) = translate(&[line.as_bytes()], false);
    assert_eq!(
        notes[1],
        Some(UsageNote::Request { prompt_tokens: 0, completion_tokens: 10, error: false })
    );
}

#[test]
fn broken_streams_are_ended() {
    let (text, _, mut stream) = translate(&[b"data: {\"choices\":[]}\n"], false);
    assert_eq!(text, "");
    let out = stream.end().unwrap();
    assert_eq!(out.text, "event: message_stop\ndata: {\"type\":\"message_stop\"}\n\n");
    assert_eq!(
        out.note,
        Some(UsageNote::Request { prompt_tokens: 0, completion_tokens: 0, error: false })
    );
    assert!(stream.end().is_none());
    let mut failed = AnthStream::new(false);
    assert_eq!(
        failed.fail(),
        UsageNote::Request { prompt_tokens: 0, completion_tokens: 0, error: true }
    );
    failed.feed(b"data: [DONE]\n");
    assert!(failed.next().is_none());
}

#[test]
fn preamble_starts_the_message() {
    assert_eq!(
        preamble("msg_1", "m"),
        "event: message_start\ndata: {\"message\":{\"content\":[],\"id\":\"msg_1\",\"model\":\"m\",\"role\":\"assistant\",\"stop_reason\":null,\"stop_sequence\":null,\"type\":\"message\",\"usage\":{\"input_tokens\":0,\"output_tokens\":0}},\"type\":\"message_start\"}\n\nevent: content_block_start\ndata: {\"content_block\":{\"text\":\"\",\"type\":\"text\"},\"index\":0,\"type\":\"content_block_start\"}\n\n"
    );
    let id = message_id();
    assert!(id.starts_with("msg_"));
    assert_eq!(id.len(), 36);
    assert_ne!(id, message_id());
}
