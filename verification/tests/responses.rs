use mimo_desktop_bridge::json::Json;
use mimo_desktop_bridge::reply::AnswerTurn;
use mimo_desktop_bridge::responses::{
    make_response, message_from_input_item, response_from_chat, responses, responses_answered,
    responses_completed, responses_refused, responses_streamed, responses_to_chat_body,
    responses_unsent, responses_unsent_at,
};
use mimo_desktop_bridge::upstream::SendError;
use mimo_desktop_bridge::usage::UsageNote;

fn json(text: &str) -> Json {
    Json::parse(text).unwrap()
}

fn same(j: &Json, expected: &str) {
    assert_eq!(j.to_text(), json(expected).to_text());
}

#[test]
fn responses_become_chats() {
    let body = json(
        "{\"model\":\"mimo-pro\",\"instructions\":\"be kind\",\"input\":\"hi\",\"max_output_tokens\":9,\"temperature\":0.5,\"top_p\":1,\"tools\":[],\"tool_choice\":\"auto\"}",
    );
    same(
        &responses_to_chat_body(&body, true),
        "{\"model\":\"mimo-pro\",\"stream\":true,\"stream_options\":{\"include_usage\":true},\"temperature\":0.5,\"top_p\":1,\"max_tokens\":9,\"tool_choice\":\"auto\",\"tools\":[],\"messages\":[{\"role\":\"system\",\"content\":\"be kind\"},{\"role\":\"user\",\"content\":\"hi\"}]}",
    );
    same(
        &responses_to_chat_body(&json("{}"), false),
        "{\"model\":\"mimo-flash\",\"stream\":false,\"messages\":[{\"role\":\"user\",\"content\":\"\"}]}",
    );
}

#[test]
fn input_items_become_messages() {
    let body = json(
        "{\"instructions\":{\"text\":\"sys\"},\"input\":[\"a\",{\"type\":\"input_text\",\"text\":\"b\"},{\"type\":\"input_text\"},{\"type\":\"message\",\"content\":[{\"text\":\"c\"},{\"x\":1},{\"text\":\"d\"}]},{\"role\":\"assistant\",\"content\":\"e\"},{\"type\":\"other\"},5]}",
    );
    let chat = responses_to_chat_body(&body, false);
    same(
        chat.get("messages").unwrap(),
        "[{\"role\":\"system\",\"content\":\"sys\"},{\"role\":\"user\",\"content\":\"a\"},{\"role\":\"user\",\"content\":\"b\"},{\"role\":\"user\",\"content\":\"c\\nd\"},{\"role\":\"assistant\",\"content\":\"e\"}]",
    );
    assert!(message_from_input_item(&json("null")).is_none());
    assert!(message_from_input_item(&json("{}")).is_none());
}

#[test]
fn responses_requests_are_read() {
    let (call, row) = match responses("{\"model\":\"m\",\"stream\":true,\"input\":\"x\"}") {
        Ok(c) => c,
        Err(_) => panic!("a good body"),
    };
    assert!(call.stream);
    assert_eq!(call.model, "m");
    assert_eq!(call.payload.bool_at("stream"), Some(true));
    assert_eq!(row.str_at("path"), Some("/v1/responses -> /v1/chat/completions"));
    match responses("") {
        Err(r) => assert_eq!(r.status, 400),
        Ok(_) => panic!("no JSON"),
    }
}

#[test]
fn completions_become_responses() {
    let request = json("{\"model\":\"asked\"}");
    let chat = json(
        "{\"id\":\"abc\",\"model\":\"m\",\"choices\":[{\"message\":{\"content\":\"hello\"},\"finish_reason\":\"length\"}],\"usage\":{\"prompt_tokens\":3,\"completion_tokens\":4}}",
    );
    same(
        &make_response(&request, &chat, "F", "M", 11),
        "{\"id\":\"resp_abc\",\"object\":\"response\",\"created_at\":11,\"status\":\"completed\",\"model\":\"asked\",\"output\":[{\"type\":\"message\",\"id\":\"msg_M\",\"status\":\"completed\",\"role\":\"assistant\",\"content\":[{\"type\":\"output_text\",\"text\":\"hello\",\"annotations\":[]}]}],\"output_text\":\"hello\",\"incomplete_details\":null,\"usage\":{\"input_tokens\":3,\"output_tokens\":4},\"metadata\":{\"finish_reason\":\"length\",\"via\":\"chat-completions-compat\"}}",
    );
    let bare = make_response(&json("{}"), &json("{}"), "F", "M", 0);
    assert_eq!(bare.str_at("id"), Some("resp_F"));
    assert_eq!(bare.str_at("model"), Some("unknown"));
    assert_eq!(bare.str_at("output_text"), Some(""));
    assert_eq!(bare.get("metadata").unwrap().str_at("finish_reason"), Some("stop"));
    let fresh = response_from_chat(&request, &json("{}"));
    assert_eq!(fresh.str_at("id").unwrap().len(), "resp_".len() + 32);
    assert!(fresh.i64_at("created_at").unwrap() > 1_600_000_000);
    assert!(fresh.i64_at("created_at").unwrap() < 10_000_000_000);
}

#[test]
fn responses_answers_are_settled() {
    let r = responses_unsent(&SendError::NotLoggedIn, 1);
    assert_eq!(r.reply.status, 401);
    assert!(r.row.is_none());
    let r = responses_unsent_at(&SendError::Upstream("reset".to_string()), 5, 6);
    assert_eq!(r.reply.status, 502);
    same(
        &r.row.unwrap(),
        "{\"ts\":5,\"kind\":\"error\",\"path\":\"/v1/responses\",\"message\":\"reset\",\"elapsed_ms\":6}",
    );
    let (turn, row) = responses_answered(200, false, 3);
    assert!(matches!(turn, AnswerTurn::Whole));
    assert!(matches!(responses_answered(404, true, 3).0, AnswerTurn::Refuse));
    assert!(matches!(responses_answered(200, true, 3).0, AnswerTurn::Stream(_)));
    assert_eq!(row.u64_at("status"), Some(200));
    assert_eq!(row.str_at("kind"), Some("response"));
    let r = responses_refused(503, "busy");
    assert_eq!(r.status, 503);
    assert_eq!(r.body.get("error").unwrap().str_at("message"), Some("upstream 503: busy"));
    let s = responses_streamed();
    assert_eq!(s.status, 200);
    assert_eq!(s.headers.items[0].1, "text/event-stream");
    assert_eq!(
        s.note,
        Some(UsageNote::Request { prompt_tokens: 0, completion_tokens: 0, error: false })
    );
}

#[test]
fn responses_completions_are_counted() {
    let request = json("{}");
    let body = "{\"usage\":{\"prompt_tokens\":3,\"completion_tokens\":4}}";
    let s = responses_completed(&request, Ok(body.to_string()));
    assert_eq!(s.reply.status, 200);
    assert_eq!(
        s.note,
        Some(UsageNote::Request { prompt_tokens: 3, completion_tokens: 4, error: false })
    );
    let s = responses_completed(&request, Ok("{\"usage\":{\"prompt_tokens\":3}}".to_string()));
    assert_eq!(
        s.note,
        Some(UsageNote::Request { prompt_tokens: 0, completion_tokens: 0, error: false })
    );
    let s = responses_completed(&request, Ok("oops".to_string()));
    assert_eq!(s.reply.status, 502);
    assert_eq!(
        s.reply.body.get("error").unwrap().str_at("message"),
        Some("upstream parse: error decoding response body")
    );
    assert_eq!(s.note, None);
    let s = responses_completed(&request, Err("cut".to_string()));
    assert_eq!(
        s.reply.body.get("error").unwrap().str_at("message"),
        Some("upstream parse: cut")
    );
}
