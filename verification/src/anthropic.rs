//! Anthropic Messages ↔ OpenAI Chat Completions (text subset).
//!
//! Good enough for Anthropic clients on the MiMo free channel.

use crate::exchange::Pairs;
use crate::json::{Json, JsonObject, JsonView};
use crate::reply::{
    AnswerTurn, AnswerTurnView, ApiReply, ApiReplyView, StreamStart, StreamStartView,
};
use crate::upstream::{SendError, SendErrorView};
use crate::usage::UsageNote;
use crate::json;
use crate::proxy;
use crate::reply;
use crate::responses;
use crate::text;
use crate::outside;
use crate::upstream;
use crate::exchange;
use vstd::prelude::*;

verus! {

// ── errors ──────────────────────────────────────────────────────────
/// The reply that tells of an error, as Anthropic clients expect it.
pub open spec fn anth_error(status: u16, message: Seq<char>, kind: Seq<char>) -> ApiReplyView {
    reply::reply_of(
        status,
        JsonView::Object(
            map![
                "type"@ => JsonView::Text("error"@),
                "error"@ => JsonView::Object(map![
                    "type"@ => JsonView::Text(kind),
                    "message"@ => JsonView::Text(message),
                ]),
            ],
        ),
    )
}

pub fn anth_err(status: u16, message: &str, kind: &str) -> (r: ApiReply)
    ensures
        r@ == anth_error(status, message@, kind@),
{
    let mut error = JsonObject::new();
    error.put("type", Json::text(kind));
    error.put("message", Json::text(message));
    let mut body = JsonObject::new();
    body.put("type", Json::text("error"));
    body.put("error", Json::Object(error));
    ApiReply { status, set_cookie: None, body: Json::Object(body) }
}

// ── the request ─────────────────────────────────────────────────────
/// The system prompt: a string, or the texts of its blocks.
pub open spec fn system_text(system: Option<JsonView>) -> Seq<char> {
    responses::content_text(system)
}

/// The text that a content block stands for, if it does for one.
pub open spec fn block_text(block: JsonView) -> Option<Seq<char>> {
    let kind = block.text_at("type"@);
    if kind == Some("text"@) {
        block.text_at("text"@)
    } else if kind == Some("thinking"@) {
        block.text_at("thinking"@)
    } else if kind == Some("tool_result"@) {
        match block.field("content"@) {
            Some(JsonView::Text(s)) => Some(s),
            Some(other) => Some(json::json_text(other)),
            None => Some(Seq::empty()),
        }
    } else {
        None
    }
}

/// The texts that content blocks stand for.
pub open spec fn block_texts(blocks: Seq<JsonView>) -> Seq<Seq<char>>
    decreases blocks.len(),
{
    if blocks.len() == 0 {
        Seq::empty()
    } else {
        let before = block_texts(blocks.drop_last());
        match block_text(blocks.last()) {
            Some(t) => before.push(t),
            None => before,
        }
    }
}

/// The chat message of an Anthropic message.
pub open spec fn chat_message(message: JsonView) -> JsonView {
    responses::message_of(
        match message.text_at("role"@) {
            Some(role) => role,
            None => "user"@,
        },
        match message.field("content"@) {
            Some(JsonView::Text(s)) => s,
            Some(JsonView::List(blocks)) => text::joined(block_texts(blocks), "\n"@),
            _ => Seq::empty(),
        },
    )
}

/// The chat messages of Anthropic messages, after the system prompt if there is one.
pub open spec fn chat_messages(system: Seq<char>, messages: Seq<JsonView>) -> Seq<JsonView> {
    (if system.len() > 0 {
        seq![responses::message_of("system"@, system)]
    } else {
        Seq::empty()
    }) + messages.map_values(|m: JsonView| chat_message(m))
}

/// The chat-completions body of an Anthropic request; it always asks for a stream.
pub open spec fn openai_body(body: JsonView) -> Result<JsonView, Seq<char>> {
    match (body.text_at("model"@), body.list_at("messages"@)) {
        (None, _) => Err("model is required"@),
        (Some(_), None) => Err("messages is required"@),
        (Some(model), Some(messages)) => {
            let start = map![
                "model"@ => JsonView::Text(model),
                "messages"@ => JsonView::List(
                    chat_messages(system_text(body.field("system"@)), messages),
                ),
                "max_tokens"@ => json::integer(proxy::count_at(body, "max_tokens"@, 4096) as int),
                "stream"@ => JsonView::Bool(true),
                "stream_options"@ => responses::usage_option(),
            ];
            let a = responses::with_field(start, "temperature"@, body.field("temperature"@));
            let b = responses::with_field(a, "top_p"@, body.field("top_p"@));
            let c = responses::with_field(b, "stop"@, body.field("stop_sequences"@));
            Ok(JsonView::Object(c))
        },
    }
}

/// What is sent on always asks for a stream with its usage, whatever the client asks for, and names
/// the client's model.
pub proof fn upstream_always_streams(body: JsonView)
    ensures
        openai_body(body) matches Ok(out) ==> out.truth_at("stream"@) == Some(true) && out.field(
            "stream_options"@,
        ) == Some(responses::usage_option()) && out.text_at("model"@) == body.text_at("model"@),
{
    reveal_strlit("model");
    reveal_strlit("messages");
    reveal_strlit("max_tokens");
    reveal_strlit("stream");
    reveal_strlit("stream_options");
    reveal_strlit("temperature");
    reveal_strlit("top_p");
    reveal_strlit("stop");
    assert("model"@.len() == 5 && "messages"@.len() == 8 && "max_tokens"@.len() == 10);
    assert("stream"@.len() == 6 && "stream_options"@.len() == 14 && "temperature"@.len() == 11);
    assert("top_p"@.len() == 5 && "stop"@.len() == 4);
    assert("model"@[0] == 'm' && "top_p"@[0] == 't');
}

/// What a client sets in a Messages request reaches the upstream: the model, the limit of tokens, the
/// temperature, the nucleus and the texts to stop at, each under the name that the chat endpoint
/// has for it. What the client does not set is not made up, but for the limit. Without a model or
/// without messages there is no request.
pub proof fn settings_reach_the_upstream(
    body: JsonView,
    model: Seq<char>,
    messages: Seq<JsonView>,
    n: u64,
    v: JsonView,
)
    ensures
        json::lacks(body, "model"@) || json::lacks(body, "messages"@) ==> openai_body(body) is Err,
        json::has(body, "model"@, JsonView::Text(model)) && json::has(
            body,
            "messages"@,
            JsonView::List(messages),
        ) ==> (openai_body(body) matches Ok(out) && {
            &&& json::has(out, "model"@, JsonView::Text(model))
            &&& json::counts(body, "max_tokens"@, n as int) ==> json::counts(
                out,
                "max_tokens"@,
                n as int,
            )
            &&& json::lacks(body, "max_tokens"@) ==> json::counts(out, "max_tokens"@, 4096)
            &&& json::has(body, "temperature"@, v) ==> json::has(out, "temperature"@, v)
            &&& json::lacks(body, "temperature"@) ==> json::lacks(out, "temperature"@)
            &&& json::has(body, "top_p"@, v) ==> json::has(out, "top_p"@, v)
            &&& json::lacks(body, "top_p"@) ==> json::lacks(out, "top_p"@)
            &&& json::has(body, "stop_sequences"@, v) ==> json::has(out, "stop"@, v)
            &&& json::lacks(body, "stop_sequences"@) ==> json::lacks(out, "stop"@)
            &&& json::has(out, "stream"@, JsonView::Bool(true))
        }),
{
    reveal_strlit("model");
    reveal_strlit("messages");
    reveal_strlit("max_tokens");
    reveal_strlit("stream");
    reveal_strlit("stream_options");
    reveal_strlit("temperature");
    reveal_strlit("top_p");
    reveal_strlit("stop");
    assert("model"@.len() == 5 && "messages"@.len() == 8 && "max_tokens"@.len() == 10);
    assert("stream"@.len() == 6 && "stream_options"@.len() == 14 && "temperature"@.len() == 11);
    assert("top_p"@.len() == 5 && "stop"@.len() == 4);
    assert("model"@[0] == 'm' && "top_p"@[0] == 't');
}

/// The conversation reaches the upstream: every message in its place, with its role and its text,
/// after the system prompt where there is one.
pub proof fn conversation_reaches_the_upstream(
    body: JsonView,
    model: Seq<char>,
    messages: Seq<JsonView>,
    system: Seq<char>,
    i: int,
    role: Seq<char>,
    said: Seq<char>,
)
    requires
        json::has(body, "model"@, JsonView::Text(model)),
        json::has(body, "messages"@, JsonView::List(messages)),
        0 <= i < messages.len(),
        json::has(messages[i], "content"@, JsonView::Text(said)),
        json::has(messages[i], "role"@, JsonView::Text(role)),
    ensures
        openai_body(body) matches Ok(out) && (out matches JsonView::Object(m) && (m["messages"@]
            matches JsonView::List(sent) && {
            &&& json::lacks(body, "system"@) ==> sent.len() == messages.len()
                && responses::is_message(sent[i], role, said)
            &&& json::says(body, "system"@, system) ==> sent.len() == messages.len() + 1
                && responses::is_message(sent[0], "system"@, system) && responses::is_message(
                sent[i + 1],
                role,
                said,
            )
        })),
{
    reveal_strlit("model");
    reveal_strlit("messages");
    reveal_strlit("max_tokens");
    reveal_strlit("stream");
    reveal_strlit("stream_options");
    reveal_strlit("temperature");
    reveal_strlit("top_p");
    reveal_strlit("stop");
    reveal_strlit("role");
    reveal_strlit("content");
    assert("model"@.len() == 5 && "messages"@.len() == 8 && "max_tokens"@.len() == 10);
    assert("stream"@.len() == 6 && "stream_options"@.len() == 14 && "temperature"@.len() == 11);
    assert("top_p"@.len() == 5 && "stop"@.len() == 4);
    assert("role"@.len() != "content"@.len());
    let sent = chat_messages(system_text(body.field("system"@)), messages);
    let mapped = messages.map_values(|m: JsonView| chat_message(m));
    assert(mapped[i] == chat_message(messages[i]));
    assert(responses::is_message(chat_message(messages[i]), role, said));
    if json::lacks(body, "system"@) {
        assert(sent =~= mapped);
    } else if json::says(body, "system"@, system) {
        assert(sent[0] == responses::message_of("system"@, system));
        assert(sent[i + 1] == mapped[i]);
    }
}

proof fn lemma_blocks_concat(a: Seq<JsonView>, b: Seq<JsonView>)
    ensures
        block_texts(a + b) == block_texts(a) + block_texts(b),
    decreases b.len(),
{
    if b.len() == 0 {
        assert(a + b =~= a);
        assert(block_texts(a) + Seq::<Seq<char>>::empty() =~= block_texts(a));
    } else {
        assert((a + b).drop_last() =~= a + b.drop_last());
        assert((a + b).last() == b.last());
        lemma_blocks_concat(a, b.drop_last());
        assert(block_texts(a + b) =~= block_texts(a) + block_texts(b));
    }
}

/// A message that is made of blocks says what its blocks say, in order: a block of text its text, a
/// block of thinking its thinking, and the result of a tool its content, as JSON where that is no
/// text. Other blocks say nothing.
pub proof fn blocks_are_read_in_order(
    a: Seq<JsonView>,
    b: Seq<JsonView>,
    block: JsonView,
    s: Seq<char>,
    message: JsonView,
    role: Seq<char>,
)
    ensures
        block_texts(a + b) == block_texts(a) + block_texts(b),
        json::has(block, "type"@, JsonView::Text("text"@)) && json::has(
            block,
            "text"@,
            JsonView::Text(s),
        ) ==> block_texts(seq![block]) == seq![s],
        json::has(block, "type"@, JsonView::Text("thinking"@)) && json::has(
            block,
            "thinking"@,
            JsonView::Text(s),
        ) ==> block_texts(seq![block]) == seq![s],
        json::has(block, "type"@, JsonView::Text("tool_result"@)) && json::has(
            block,
            "content"@,
            JsonView::Text(s),
        ) ==> block_texts(seq![block]) == seq![s],
        json::has(block, "type"@, JsonView::Text("tool_result"@)) && json::has(
            block,
            "content"@,
            message,
        ) && !(message is Text) ==> block_texts(seq![block]) == seq![json::json_text(message)],
        json::has(block, "type"@, JsonView::Text("tool_result"@)) && json::lacks(block, "content"@)
            ==> block_texts(seq![block]) == seq![Seq::<char>::empty()],
        json::has(block, "type"@, JsonView::Text(s)) && s != "text"@ && s != "thinking"@ && s
            != "tool_result"@ || json::lacks(block, "type"@) ==> block_texts(seq![block]) == Seq::<
            Seq<char>,
        >::empty(),
        json::has(message, "role"@, JsonView::Text(role)) && json::has(
            message,
            "content"@,
            JsonView::List(a),
        ) ==> responses::is_message(
            chat_message(message),
            role,
            text::joined(block_texts(a), "\n"@),
        ),
        json::lacks(message, "role"@) && json::has(message, "content"@, JsonView::Text(s))
            ==> responses::is_message(chat_message(message), "user"@, s),
{
    lemma_blocks_concat(a, b);
    reveal_strlit("text");
    reveal_strlit("thinking");
    reveal_strlit("tool_result");
    reveal_strlit("image");
    reveal_strlit("role");
    reveal_strlit("content");
    assert("text"@.len() == 4 && "thinking"@.len() == 8 && "tool_result"@.len() == 11
        && "image"@.len() == 5);
    assert("role"@.len() != "content"@.len());
    reveal_with_fuel(block_texts, 2);
    let one = seq![block];
    assert(one.drop_last() =~= Seq::<JsonView>::empty());
    assert(one.last() == block);
    assert(Seq::<Seq<char>>::empty().push(s) =~= seq![s]);
    assert(Seq::<Seq<char>>::empty().push(json::json_text(message)) =~= seq![
        json::json_text(message),
    ]);
    assert(Seq::<Seq<char>>::empty().push(Seq::empty()) =~= seq![Seq::<char>::empty()]);
}

/// The text that a content block stands for, if it does for one.
fn text_of_block(block: &Json) -> (r: Option<String>)
    ensures
        text::opt_view(r) == block_text(block@),
{
    let kind = block.str_at("type");
    if responses::is_text(kind, "text") {
        text::owned(block.str_at("text"))
    } else if responses::is_text(kind, "thinking") {
        text::owned(block.str_at("thinking"))
    } else if responses::is_text(kind, "tool_result") {
        match block.get("content") {
            Some(Json::Text(s)) => Some(s.clone()),
            Some(other) => Some(other.to_text()),
            None => Some(String::new()),
        }
    } else {
        None
    }
}

/// The texts that content blocks stand for, each on lines of its own.
fn join_block_texts(blocks: &Vec<Json>) -> (r: String)
    ensures
        r@ == text::joined(block_texts(json::trees_of(blocks@)), "\n"@),
{
    let ghost all = json::trees_of(blocks@);
    let mut texts: Vec<String> = Vec::new();
    let mut i: usize = 0;
    assert(all.take(0) =~= Seq::<JsonView>::empty());
    assert(text::views(texts@) =~= Seq::<Seq<char>>::empty());
    while i < blocks.len()
        invariant
            i <= blocks@.len(),
            all == json::trees_of(blocks@),
            text::views(texts@) == block_texts(all.take(i as int)),
        decreases blocks@.len() - i,
    {
        let ghost before = texts@;
        assert(all.take(i + 1).drop_last() =~= all.take(i as int));
        assert(all.take(i + 1).last() == blocks@[i as int]@);
        if let Some(t) = text_of_block(&blocks[i]) {
            texts.push(t);
            assert(text::views(texts@) =~= text::views(before).push(t@));
        }
        i += 1;
    }
    assert(all.take(i as int) =~= all);
    text::join(&texts, "\n")
}

/// The chat message of an Anthropic message.
fn make_chat_message(message: &Json) -> (r: Json)
    ensures
        r@ == chat_message(message@),
{
    let role = match message.str_at("role") {
        Some(role) => role,
        None => "user",
    };
    let text = match message.get("content") {
        Some(Json::Text(s)) => s.clone(),
        Some(Json::List(blocks)) => join_block_texts(blocks),
        _ => String::new(),
    };
    responses::make_message(role, text.as_str())
}

/// Anthropic Messages body → OpenAI chat.completions body (always stream upstream).
pub fn anthropic_to_openai(body: &Json) -> (r: Result<Json, String>)
    ensures
        match openai_body(body@) {
            Ok(out) => r matches Ok(j) && j@ == out,
            Err(m) => r matches Err(e) && e@ == m,
        },
{
    let model = match body.str_at("model") {
        Some(m) => m,
        None => return Err("model is required".to_string()),
    };
    let max_tokens = match body.u64_at("max_tokens") {
        Some(n) => n,
        None => 4096,
    };
    let mut messages: Vec<Json> = Vec::new();
    let system = match body.get("system") {
        Some(Json::Text(s)) => s.clone(),
        Some(Json::List(parts)) => responses::join_part_texts(parts),
        _ => String::new(),
    };
    assert(system@ == system_text(body@.field("system"@)));
    let ghost mut first = Seq::<JsonView>::empty();
    if text::chars_of(system.as_str()).len() > 0 {
        messages.push(responses::make_message("system", system.as_str()));
        proof {
            first = seq![responses::message_of("system"@, system@)];
        }
    }
    assert(json::trees_of(messages@) =~= first);
    let given = match body.list_at("messages") {
        Some(given) => given,
        None => return Err("messages is required".to_string()),
    };
    let ghost all = json::trees_of(given@);
    let ghost told = all.map_values(|m: JsonView| chat_message(m));
    let mut i: usize = 0;
    assert(first + told.take(0) =~= first);
    while i < given.len()
        invariant
            i <= given@.len(),
            all == json::trees_of(given@),
            told == all.map_values(|m: JsonView| chat_message(m)),
            json::trees_of(messages@) == first + told.take(i as int),
        decreases given@.len() - i,
    {
        let ghost before = messages@;
        messages.push(make_chat_message(&given[i]));
        assert(json::trees_of(messages@) =~= json::trees_of(before).push(told[i as int]));
        assert(first + told.take(i + 1) =~= (first + told.take(i as int)).push(told[i as int]));
        i += 1;
    }
    assert(told.take(i as int) =~= told);
    assert(json::trees_of(messages@) == chat_messages(system@, all));

    let mut out = JsonObject::new();
    out.put("model", Json::text(model));
    out.put("messages", Json::List(messages));
    out.put("max_tokens", Json::unsigned(max_tokens));
    out.put("stream", Json::Bool(true));
    out.put("stream_options", responses::make_usage_option());
    responses::put_copy(&mut out, "temperature", body.get("temperature"));
    responses::put_copy(&mut out, "top_p", body.get("top_p"));
    responses::put_copy(&mut out, "stop", body.get("stop_sequences"));
    Ok(Json::Object(out))
}

/// What a Messages request is: what is sent on, and what it asks for.
#[verifier::ext_equal]
pub struct MessagesCallView {
    pub payload: JsonView,
    pub stream: bool,
    pub thinking: bool,
    pub model: Seq<char>,
}

/// A Messages request.
#[derive(Debug)]
pub struct MessagesCall {
    /// What is sent on.
    pub payload: Json,
    /// Whether the client asks for a stream.
    pub stream: bool,
    /// Whether the client asks for the model's thinking.
    pub thinking: bool,
    pub model: String,
}

impl View for MessagesCall {
    type V = MessagesCallView;

    open spec fn view(&self) -> MessagesCallView {
        MessagesCallView {
            payload: self.payload@,
            stream: self.stream,
            thinking: self.thinking,
            model: self.model@,
        }
    }
}

/// Whether a request asks for the model's thinking.
pub open spec fn wants_thinking(body: JsonView) -> bool {
    match body.field("thinking"@) {
        Some(t) => t.text_at("type"@) == Some("enabled"@),
        None => false,
    }
}

/// What becomes of a Messages request's body.
pub open spec fn messages_call(parsed: Result<JsonView, Seq<char>>) -> Result<
    MessagesCallView,
    ApiReplyView,
> {
    match parsed {
        Err(e) => Err(anth_error(400, "invalid JSON: "@ + e, "invalid_request_error"@)),
        Ok(body) => match openai_body(body) {
            Err(e) => Err(anth_error(400, e, "invalid_request_error"@)),
            Ok(payload) => Ok(
                MessagesCallView {
                    payload,
                    stream: body.truth_at("stream"@) == Some(true),
                    thinking: wants_thinking(body),
                    model: proxy::named_model(payload),
                },
            ),
        },
    }
}

/// Shapes a Messages request whose body was read.
pub fn shape_messages(parsed: Result<Json, String>) -> (r: Result<MessagesCall, ApiReply>)
    ensures
        match messages_call(json::parse_view(parsed)) {
            Ok(call) => r matches Ok(c) && c@ == call,
            Err(reply) => r matches Err(e) && e@ == reply,
        },
{
    match parsed {
        Err(e) => Err(
            anth_err(400, text::cat2("invalid JSON: ", e.as_str()).as_str(), "invalid_request_error"),
        ),
        Ok(body) => {
            let stream = proxy::wants_stream(&body);
            let thinking = match body.get("thinking") {
                Some(t) => responses::is_text(t.str_at("type"), "enabled"),
                None => false,
            };
            match anthropic_to_openai(&body) {
                Err(e) => Err(anth_err(400, e.as_str(), "invalid_request_error")),
                Ok(payload) => {
                    let model = proxy::model_of(&payload);
                    Ok(MessagesCall { payload, stream, thinking, model })
                },
            }
        },
    }
}

/// POST /v1/messages: the request that a body describes.
pub fn messages(body: &str) -> (r: Result<MessagesCall, ApiReply>)
    ensures
        match messages_call(json::parsed_json(body@)) {
            Ok(call) => r matches Ok(c) && c@ == call,
            Err(reply) => r matches Err(e) && e@ == reply,
        },
{
    let parsed = Json::parse(body);
    assert(json::parse_view(parsed) == json::parsed_json(body@));
    shape_messages(parsed)
}

/// The reply to a Messages request that got no answer.
pub open spec fn unsent_messages(e: SendErrorView) -> ApiReplyView {
    match e {
        SendErrorView::NotLoggedIn => anth_error(
            401,
            "not logged in — open the WebUI and sign in"@,
            "authentication_error"@,
        ),
        SendErrorView::Upstream(m) => anth_error(
            502,
            "upstream fetch failed: "@ + m,
            "api_error"@,
        ),
    }
}

pub fn messages_unsent(e: &SendError) -> (r: ApiReply)
    ensures
        r@ == unsent_messages(e@),
{
    match e {
        SendError::NotLoggedIn => anth_err(
            401,
            "not logged in — open the WebUI and sign in",
            "authentication_error",
        ),
        SendError::Upstream(m) => anth_err(
            502,
            text::cat2("upstream fetch failed: ", m.as_str()).as_str(),
            "api_error",
        ),
    }
}

/// The reply to a Messages request that the upstream refused.
pub fn messages_refused(status: u16, text: &str) -> (r: ApiReply)
    ensures
        r@ == anth_error(
            reply::relayed_status(status),
            reply::upstream_message(status, text@, 300),
            "api_error"@,
        ),
{
    anth_err(
        reply::relay_status(status),
        reply::make_upstream_message(status, text, 300).as_str(),
        "api_error",
    )
}

// ── events ──────────────────────────────────────────────────────────
/// An event with its data.
pub open spec fn sse_event(name: Seq<char>, data: Seq<char>) -> Seq<char> {
    "event: "@ + name + "\ndata: "@ + data + "\n\n"@
}

/// The event data for a piece of text.
pub open spec fn text_delta(text: Seq<char>) -> JsonView {
    JsonView::Object(
        map![
            "type"@ => JsonView::Text("content_block_delta"@),
            "index"@ => json::integer(0),
            "delta"@ => JsonView::Object(map![
                "type"@ => JsonView::Text("text_delta"@),
                "text"@ => JsonView::Text(text),
            ]),
        ],
    )
}

/// The event data for a piece of thinking.
pub open spec fn thinking_delta(text: Seq<char>) -> JsonView {
    JsonView::Object(
        map![
            "type"@ => JsonView::Text("content_block_delta"@),
            "index"@ => json::integer(1),
            "delta"@ => JsonView::Object(map![
                "type"@ => JsonView::Text("thinking_delta"@),
                "thinking"@ => JsonView::Text(text),
            ]),
        ],
    )
}

/// The event data for the end of a turn.
pub open spec fn message_delta(output_tokens: u64) -> JsonView {
    JsonView::Object(
        map![
            "type"@ => JsonView::Text("message_delta"@),
            "delta"@ => JsonView::Object(map![
                "stop_reason"@ => JsonView::Text("end_turn"@),
                "stop_sequence"@ => JsonView::Null,
            ]),
            "usage"@ => JsonView::Object(map![
                "output_tokens"@ => json::integer(output_tokens as int),
            ]),
        ],
    )
}

/// The event data for the end of a message.
pub open spec fn message_stop() -> JsonView {
    JsonView::Object(map!["type"@ => JsonView::Text("message_stop"@)])
}

/// The events that end a message.
pub open spec fn stop_events(output_tokens: u64) -> Seq<char> {
    sse_event("message_delta"@, json::json_text(message_delta(output_tokens))) + sse_event(
        "message_stop"@,
        json::json_text(message_stop()),
    )
}

fn make_text_delta(text: &str) -> (r: Json)
    ensures
        r@ == text_delta(text@),
{
    let mut delta = JsonObject::new();
    delta.put("type", Json::text("text_delta"));
    delta.put("text", Json::text(text));
    let mut data = JsonObject::new();
    data.put("type", Json::text("content_block_delta"));
    data.put("index", Json::unsigned(0));
    data.put("delta", Json::Object(delta));
    Json::Object(data)
}

fn make_thinking_delta(text: &str) -> (r: Json)
    ensures
        r@ == thinking_delta(text@),
{
    let mut delta = JsonObject::new();
    delta.put("type", Json::text("thinking_delta"));
    delta.put("thinking", Json::text(text));
    let mut data = JsonObject::new();
    data.put("type", Json::text("content_block_delta"));
    data.put("index", Json::unsigned(1));
    data.put("delta", Json::Object(delta));
    Json::Object(data)
}

fn make_message_delta(output_tokens: u64) -> (r: Json)
    ensures
        r@ == message_delta(output_tokens),
{
    let mut delta = JsonObject::new();
    delta.put("stop_reason", Json::text("end_turn"));
    delta.put("stop_sequence", Json::Null);
    let mut usage = JsonObject::new();
    usage.put("output_tokens", Json::unsigned(output_tokens));
    let mut data = JsonObject::new();
    data.put("type", Json::text("message_delta"));
    data.put("delta", Json::Object(delta));
    data.put("usage", Json::Object(usage));
    Json::Object(data)
}

fn make_message_stop() -> (r: Json)
    ensures
        r@ == message_stop(),
{
    let mut data = JsonObject::new();
    data.put("type", Json::text("message_stop"));
    Json::Object(data)
}

// ── reading events back ─────────────────────────────────────────────
/// What events tell together: text, thinking, and the number of tokens.
#[verifier::ext_equal]
pub struct GatheredView {
    pub text: Seq<char>,
    pub thinking: Seq<char>,
    pub tokens: u64,
}

/// A text that may be there.
pub open spec fn or_none(text: Option<Seq<char>>) -> Seq<char> {
    match text {
        Some(t) => t,
        None => Seq::empty(),
    }
}

impl GatheredView {
    /// With what the data of one event tells.
    pub open spec fn with_value(self, v: JsonView) -> GatheredView {
        let kind = v.text_at("type"@);
        if kind == Some("content_block_delta"@) {
            match v.field("delta"@) {
                Some(delta) => GatheredView {
                    text: self.text + or_none(delta.text_at("text"@)),
                    thinking: self.thinking + or_none(delta.text_at("thinking"@)),
                    ..self
                },
                None => self,
            }
        } else if kind == Some("message_delta"@) {
            match v.field("usage"@) {
                Some(usage) => GatheredView {
                    tokens: proxy::count_at(usage, "output_tokens"@, self.tokens),
                    ..self
                },
                None => self,
            }
        } else {
            self
        }
    }

    /// With what one line tells.
    pub open spec fn with_line(self, line: Seq<char>) -> GatheredView {
        match text::after_prefix(line, "data:"@) {
            Some(data) => match json::parsed_json(text::trim_of(data)) {
                Ok(v) => self.with_value(v),
                Err(_) => self,
            },
            None => self,
        }
    }

    /// With what some lines tell.
    pub open spec fn with_lines(self, lines: Seq<Seq<char>>) -> GatheredView
        decreases lines.len(),
    {
        if lines.len() == 0 {
            self
        } else {
            self.with_line(lines[0]).with_lines(lines.skip(1))
        }
    }

    /// With what the events in a text tell.
    pub open spec fn with_events(self, text: Seq<char>) -> GatheredView {
        self.with_lines(text::lines_of(text))
    }
}

pub open spec fn nothing_gathered() -> GatheredView {
    GatheredView { text: Seq::empty(), thinking: Seq::empty(), tokens: 0 }
}

proof fn lemma_with_lines_concat(acc: GatheredView, a: Seq<Seq<char>>, b: Seq<Seq<char>>)
    ensures
        acc.with_lines(a + b) == acc.with_lines(a).with_lines(b),
    decreases a.len(),
{
    if a.len() == 0 {
        assert(a + b =~= b);
    } else {
        assert((a + b).skip(1) =~= a.skip(1) + b);
        lemma_with_lines_concat(acc.with_line(a[0]), a.skip(1), b);
    }
}

/// Events can be read piece by piece: what complete events and more events after them tell is
/// what the first tell, and then the others.
pub proof fn events_read_piecewise(acc: GatheredView, a: Seq<char>, b: Seq<char>)
    requires
        text::ends_line(a),
    ensures
        acc.with_events(a + b) == acc.with_events(a).with_events(b),
{
    text::lemma_lines_concat(a, b);
    lemma_with_lines_concat(acc, text::lines_of(a), text::lines_of(b));
}

/// Whether a text can stand on a line.
pub open spec fn is_one_line(s: Seq<char>) -> bool {
    !s.contains('\n') && !s.contains('\r')
}

proof fn lemma_event_lines(name: Seq<char>, data: Seq<char>)
    requires
        is_one_line(name),
        is_one_line(data),
    ensures
        text::lines_of(sse_event(name, data)) == seq!["event: "@ + name, "data: "@ + data, Seq::empty()],
        text::ends_line(sse_event(name, data)),
{
    reveal_strlit("event: ");
    reveal_strlit("data: ");
    reveal_strlit("\ndata: ");
    reveal_strlit("\n\n");
    let first = "event: "@ + name;
    let second = "data: "@ + data;
    let lf = seq!['\n'];
    assert forall|i: int| 0 <= i < first.len() implies first[i] != '\n' && first[i] != '\r' by {
        if i >= "event: "@.len() {
            assert(first[i] == name[i - "event: "@.len()]);
        }
    }
    assert forall|i: int| 0 <= i < second.len() implies second[i] != '\n' && second[i] != '\r' by {
        if i >= "data: "@.len() {
            assert(second[i] == data[i - "data: "@.len()]);
        }
    }
    let tail = Seq::<char>::empty() + lf + Seq::<char>::empty();
    let mid = second + lf + tail;
    assert(sse_event(name, data) =~= first + lf + mid);
    text::lemma_one_line(first, mid);
    text::lemma_one_line(second, tail);
    text::lemma_one_line(Seq::<char>::empty(), Seq::<char>::empty());
    assert(text::lines_of(Seq::<char>::empty()) =~= Seq::<Seq<char>>::empty());
    assert(text::lines_of(sse_event(name, data)) =~= seq![first, second, Seq::empty()]);
}

/// An event whose data can be read back tells what its data tells.
proof fn lemma_event_read(acc: GatheredView, name: Seq<char>, data: Seq<char>, v: JsonView)
    requires
        is_one_line(name),
        is_one_line(data),
        data.len() > 0,
        text::is_trimmed(data),
        json::parsed_json(data) == json::read_as(v),
    ensures
        acc.with_events(sse_event(name, data)) == acc.with_value(v),
{
    lemma_event_lines(name, data);
    reveal_strlit("event: ");
    reveal_strlit("data: ");
    reveal_strlit("data:");
    let first = "event: "@ + name;
    let second = "data: "@ + data;
    let lines = seq![first, second, Seq::<char>::empty()];
    assert(first.take(5)[0] == 'e');
    assert("data:"@[0] == 'd');
    assert(text::after_prefix(first, "data:"@) is None);
    assert(second.take(5) =~= "data:"@);
    let rest = second.skip(5);
    assert(text::after_prefix(second, "data:"@) == Some(rest));
    assert(rest =~= seq![' '] + data);
    assert(rest.skip(1) =~= data);
    text::lemma_trim(data);
    assert(text::trim_start_of(data) == data);
    assert(text::trim_of(rest) == data);
    assert(text::after_prefix(Seq::<char>::empty(), "data:"@) is None);
    assert(lines.skip(1) =~= seq![second, Seq::<char>::empty()]);
    assert(lines.skip(1).skip(1) =~= seq![Seq::<char>::empty()]);
    assert(lines.skip(1).skip(1).skip(1) =~= Seq::<Seq<char>>::empty());
    reveal_with_fuel(GatheredView::with_lines, 4);
}

/// An event whose data is plain, with what it tells.
fn make_event(name: &str, data: &Json) -> (r: String)
    requires
        is_one_line(name@),
        data@ is Object,
        json::plain(data@, 100),
    ensures
        r@ == sse_event(name@, json::json_text(data@)),
        text::ends_line(r@),
        forall|acc: GatheredView| #[trigger] acc.with_events(r@) == acc.with_value(data@),
{
    let text = data.to_text();
    proof {
        assert(text::is_trimmed(text@));
        lemma_event_lines(name@, text@);
        assert forall|acc: GatheredView| #[trigger]
            acc.with_events(sse_event(name@, text@)) == acc.with_value(data@) by {
            lemma_event_read(acc, name@, text@, data@);
        }
    }
    text::cat5("event: ", name, "\ndata: ", text.as_str(), "\n\n")
}

proof fn lemma_plain_events(text: Seq<char>, tokens: u64)
    ensures
        json::plain(text_delta(text), 100),
        json::plain(thinking_delta(text), 100),
        json::plain(message_delta(tokens), 100),
        json::plain(message_stop(), 100),
{
    reveal_with_fuel(json::plain, 4);
    reveal_strlit("$serde_json::private::RawValue");
    reveal_strlit("type");
    reveal_strlit("index");
    reveal_strlit("delta");
    reveal_strlit("usage");
    reveal_strlit("text");
    reveal_strlit("thinking");
    reveal_strlit("output_tokens");
    reveal_strlit("stop_reason");
    reveal_strlit("stop_sequence");
    let name = json::reserved_name();
    assert(name.len() == 30);
    assert("type"@ != name && "index"@ != name && "delta"@ != name && "usage"@ != name);
    assert("text"@ != name && "thinking"@ != name && "output_tokens"@ != name);
    assert("stop_reason"@ != name && "stop_sequence"@ != name);
}

proof fn lemma_event_values(acc: GatheredView, text: Seq<char>, tokens: u64)
    ensures
        acc.with_value(text_delta(text)) == (GatheredView { text: acc.text + text, ..acc }),
        acc.with_value(thinking_delta(text)) == (GatheredView {
            thinking: acc.thinking + text,
            ..acc
        }),
        acc.with_value(message_delta(tokens)) == (GatheredView { tokens, ..acc }),
        acc.with_value(message_stop()) == acc,
{
    reveal_strlit("type");
    reveal_strlit("index");
    reveal_strlit("delta");
    reveal_strlit("usage");
    reveal_strlit("text");
    reveal_strlit("thinking");
    reveal_strlit("output_tokens");
    reveal_strlit("content_block_delta");
    reveal_strlit("message_delta");
    reveal_strlit("message_stop");
    assert("delta"@.len() == 5 && "usage"@.len() == 5);
    assert("delta"@[0] != "usage"@[0]);
    assert("type"@[1] != "text"@[1]);
    let t = text_delta(text);
    let h = thinking_delta(text);
    let m = message_delta(tokens);
    assert(t.text_at("type"@) == Some("content_block_delta"@));
    assert(h.text_at("type"@) == Some("content_block_delta"@));
    assert(m.text_at("type"@) == Some("message_delta"@));
    assert(message_stop().text_at("type"@) == Some("message_stop"@));
    assert("content_block_delta"@.len() != "message_delta"@.len());
    assert("message_stop"@.len() != "message_delta"@.len());
    assert("message_stop"@.len() != "content_block_delta"@.len());
    assert(t.field("delta"@)->0.text_at("text"@) == Some(text));
    assert(t.field("delta"@)->0.text_at("thinking"@) is None);
    assert(h.field("delta"@)->0.text_at("thinking"@) == Some(text));
    assert(h.field("delta"@)->0.text_at("text"@) is None);
    assert(m.field("usage"@)->0.unsigned_at("output_tokens"@) == Some(tokens));
    assert(acc.text + Seq::<char>::empty() =~= acc.text);
    assert(acc.thinking + Seq::<char>::empty() =~= acc.thinking);
}

// ── a stream of events ──────────────────────────────────────────────
/// What one line of the upstream's stream brings.
#[verifier::ext_equal]
pub struct AnthStep {
    /// A piece of text.
    pub content: Seq<char>,
    /// A piece of thinking.
    pub reasoning: Seq<char>,
    /// Whether the message ends.
    pub stop: bool,
    /// The prompt tokens known then.
    pub prompt: u64,
    /// The completion tokens known then.
    pub completion: u64,
}

impl AnthStep {
    /// Whether a client is told nothing.
    pub open spec fn is_quiet(self) -> bool {
        self.content.len() == 0 && self.reasoning.len() == 0 && !self.stop
    }

    /// The events that a client is told.
    pub open spec fn events(self) -> Seq<char> {
        (if self.content.len() > 0 {
            sse_event("content_block_delta"@, json::json_text(text_delta(self.content)))
        } else {
            Seq::empty()
        }) + (if self.reasoning.len() > 0 {
            sse_event("content_block_delta"@, json::json_text(thinking_delta(self.reasoning)))
        } else {
            Seq::empty()
        }) + (if self.stop {
            stop_events(self.completion)
        } else {
            Seq::empty()
        })
    }

    /// What is counted with them.
    pub open spec fn note(self) -> Option<UsageNote> {
        if self.stop {
            Some(
                UsageNote::Request {
                    prompt_tokens: self.prompt,
                    completion_tokens: self.completion,
                    error: false,
                },
            )
        } else {
            None
        }
    }

    /// What has been told when these events are told too.
    pub open spec fn told_after(self, acc: GatheredView) -> GatheredView {
        GatheredView {
            text: acc.text + self.content,
            thinking: acc.thinking + self.reasoning,
            tokens: if self.stop {
                self.completion
            } else {
                acc.tokens
            },
        }
    }
}

/// Whether a piece of the event stream tells what a step brings, whatever was told before.
pub open spec fn tells(piece: Seq<char>, step: AnthStep) -> bool {
    text::ends_line(piece) && forall|acc: GatheredView| #[trigger]
        acc.with_events(piece) == step.told_after(acc)
}

/// Pieces of an event stream one after the other.
pub open spec fn in_a_row(pieces: Seq<Seq<char>>) -> Seq<char>
    decreases pieces.len(),
{
    if pieces.len() == 0 {
        Seq::empty()
    } else {
        in_a_row(pieces.drop_last()) + pieces.last()
    }
}

/// The text that some steps bring.
pub open spec fn all_content(steps: Seq<AnthStep>) -> Seq<char>
    decreases steps.len(),
{
    if steps.len() == 0 {
        Seq::empty()
    } else {
        all_content(steps.drop_last()) + steps.last().content
    }
}

/// The thinking that some steps bring.
pub open spec fn all_reasoning(steps: Seq<AnthStep>) -> Seq<char>
    decreases steps.len(),
{
    if steps.len() == 0 {
        Seq::empty()
    } else {
        all_reasoning(steps.drop_last()) + steps.last().reasoning
    }
}

/// A client that gets the message as a whole is told just what a client is told that follows the
/// stream: the texts of all steps one after the other, and so the thinking.
pub proof fn whole_message_tells_every_step(pieces: Seq<Seq<char>>, steps: Seq<AnthStep>)
    requires
        pieces.len() == steps.len(),
        forall|i: int| 0 <= i < steps.len() ==> tells(#[trigger] pieces[i], steps[i]),
    ensures
        nothing_gathered().with_events(in_a_row(pieces)).text == all_content(steps),
        nothing_gathered().with_events(in_a_row(pieces)).thinking == all_reasoning(steps),
        steps.len() > 0 && steps.last().stop ==> nothing_gathered().with_events(
            in_a_row(pieces),
        ).tokens == steps.last().completion,
        text::ends_line(in_a_row(pieces)),
    decreases steps.len(),
{
    if steps.len() == 0 {
        assert(text::lines_of(Seq::<char>::empty()) =~= Seq::<Seq<char>>::empty());
    } else {
        let before = pieces.drop_last();
        assert forall|i: int| 0 <= i < steps.drop_last().len() implies tells(
            #[trigger] before[i],
            steps.drop_last()[i],
        ) by {
            assert(before[i] == pieces[i]);
        }
        whole_message_tells_every_step(before, steps.drop_last());
        let last = pieces[pieces.len() - 1];
        assert(tells(last, steps.last()));
        events_read_piecewise(nothing_gathered(), in_a_row(before), last);
        if last.len() > 0 {
            assert((in_a_row(before) + last).last() == last.last());
        } else {
            assert(in_a_row(before) + last =~= in_a_row(before));
        }
    }
}

/// The string at a member of the first choice's delta.
pub open spec fn delta_text(v: JsonView, key: Seq<char>) -> Seq<char> {
    match responses::first_choice(v) {
        Some(choice) => match choice.field("delta"@) {
            Some(delta) => or_none(delta.text_at(key)),
            None => Seq::empty(),
        },
        None => Seq::empty(),
    }
}

/// Whether the first choice gives a reason why it ended.
pub open spec fn has_finished(v: JsonView) -> bool {
    match responses::first_choice(v) {
        Some(choice) => choice.text_at("finish_reason"@) is Some,
        None => false,
    }
}

/// The completion tokens known after a piece of text: a quarter of its characters at least.
pub open spec fn at_least_quarter(known: u64, text: Seq<char>) -> u64 {
    if text.len() / 4 > known {
        (text.len() / 4) as u64
    } else {
        known
    }
}

/// What a chunk of a chat completion brings.
pub open spec fn chunk_step(v: JsonView, thinking: bool, prompt: u64, completion: u64) -> AnthStep {
    let content = delta_text(v, "content"@);
    AnthStep {
        content,
        reasoning: if thinking {
            delta_text(v, "reasoning_content"@)
        } else {
            Seq::empty()
        },
        stop: has_finished(v),
        prompt: proxy::prompt_seen(v, prompt),
        completion: at_least_quarter(proxy::completion_seen(v, completion), content),
    }
}

/// What a line brings.
pub open spec fn line_step(line: Seq<char>, thinking: bool, prompt: u64, completion: u64) -> AnthStep {
    let nothing = AnthStep {
        content: Seq::empty(),
        reasoning: Seq::empty(),
        stop: false,
        prompt,
        completion,
    };
    match proxy::event_data(line) {
        Some(data) => if data == "[DONE]"@ {
            AnthStep { stop: true, ..nothing }
        } else {
            match json::parsed_json(data) {
                Ok(v) => chunk_step(v, thinking, prompt, completion),
                Err(_) => nothing,
            }
        },
        None => nothing,
    }
}

/// What the translation of a stream is.
#[verifier::ext_equal]
pub struct AnthView {
    pub buf: Seq<u8>,
    pub prompt: u64,
    pub completion: u64,
    pub done: bool,
    pub thinking: bool,
}

impl AnthView {
    /// The translation after more bytes came in.
    pub open spec fn fed(self, bytes: Seq<u8>) -> AnthView {
        AnthView { buf: self.buf + bytes, ..self }
    }

    /// Whether a complete line is to be read.
    pub open spec fn has_line(self) -> bool {
        !self.done && 0 <= upstream::line_end(self.buf) < self.buf.len()
    }

    /// What its first line brings.
    pub open spec fn first_step(self) -> AnthStep {
        line_step(
            text::without_cr(outside::lossy_text(self.buf.take(upstream::line_end(self.buf)))),
            self.thinking,
            self.prompt,
            self.completion,
        )
    }

    /// The translation after its first line.
    pub open spec fn after_line(self) -> AnthView {
        let step = self.first_step();
        AnthView {
            buf: self.buf.skip(upstream::line_end(self.buf) + 1),
            prompt: step.prompt,
            completion: step.completion,
            done: step.stop,
            thinking: self.thinking,
        }
    }

    /// The next step of which a client is told, if a complete line brings one.
    pub open spec fn next_step(self) -> Option<AnthStep>
        decreases self.buf.len(),
    {
        if self.has_line() {
            if self.first_step().is_quiet() {
                self.after_line().next_step()
            } else {
                Some(self.first_step())
            }
        } else {
            None
        }
    }

    /// The translation after that step, or after all complete lines.
    pub open spec fn after_next(self) -> AnthView
        decreases self.buf.len(),
    {
        if self.has_line() {
            if self.first_step().is_quiet() {
                self.after_line().after_next()
            } else {
                self.after_line()
            }
        } else {
            self
        }
    }

    /// All steps of which a client is told.
    pub open spec fn steps(self) -> Seq<AnthStep>
        decreases self.buf.len(),
    {
        if self.has_line() {
            (if self.first_step().is_quiet() {
                Seq::empty()
            } else {
                seq![self.first_step()]
            }) + self.after_line().steps()
        } else {
            Seq::empty()
        }
    }

    /// The translation after all of them.
    pub open spec fn drained(self) -> AnthView
        decreases self.buf.len(),
    {
        if self.has_line() {
            self.after_line().drained()
        } else {
            self
        }
    }
}

/// Asking for the next step again and again gives all steps, in order.
pub proof fn steps_come_in_order(stream: AnthView)
    ensures
        match stream.next_step() {
            Some(step) => stream.steps() == seq![step] + stream.after_next().steps()
                && stream.after_next().drained() == stream.drained() && !step.is_quiet(),
            None => stream.steps() == Seq::<AnthStep>::empty() && stream.after_next()
                == stream.drained(),
        },
        stream.next_step() is Some ==> stream.after_next().buf.len() < stream.buf.len(),
    decreases stream.buf.len(),
{
    upstream::lemma_line_end(stream.buf);
    if stream.has_line() {
        if stream.first_step().is_quiet() {
            steps_come_in_order(stream.after_line());
            assert(Seq::<AnthStep>::empty() + stream.after_line().steps()
                =~= stream.after_line().steps());
        }
    }
}

/// A message ends once: a step that ends it is the last, and nothing of the stream is read after
/// it.
pub proof fn message_stops_once(stream: AnthView)
    requires
        !stream.done,
    ensures
        forall|i: int| 0 <= i < stream.steps().len() - 1 ==> !(#[trigger] stream.steps()[i]).stop,
        stream.drained().done <==> stream.steps().len() > 0 && stream.steps().last().stop,
        stream.drained().next_step() is None,
    decreases stream.buf.len(),
{
    upstream::lemma_line_end(stream.buf);
    if stream.has_line() {
        let rest = stream.after_line();
        if rest.done {
            assert(rest.steps() =~= Seq::<AnthStep>::empty());
            assert(stream.steps() =~= seq![stream.first_step()]);
            assert(rest.drained() == rest);
        } else {
            message_stops_once(rest);
            if stream.first_step().is_quiet() {
                assert(stream.steps() =~= rest.steps());
            } else {
                assert(stream.steps() =~= seq![stream.first_step()] + rest.steps());
                assert(rest.steps().len() > 0 ==> stream.steps().last() == rest.steps().last());
                assert forall|i: int| 0 <= i < stream.steps().len() - 1 implies !(
                #[trigger] stream.steps()[i]).stop by {
                    if i > 0 {
                        assert(stream.steps()[i] == rest.steps()[i - 1]);
                    }
                }
            }
        }
    }
}

/// How a stream is cut into chunks does not matter: the steps of two chunks together are those
/// of the first, and then those of the second.
pub proof fn chunks_translate_alike(stream: AnthView, a: Seq<u8>, b: Seq<u8>)
    ensures
        stream.fed(a + b).steps() == stream.fed(a).steps() + stream.fed(a).drained().fed(
            b,
        ).steps(),
        stream.fed(a + b).drained() == stream.fed(a).drained().fed(b).drained(),
{
    assert(stream.fed(a + b) == stream.fed(a).fed(b)) by {
        assert(stream.buf + (a + b) =~= stream.buf + a + b);
    }
    lemma_chunk_steps(stream.fed(a), b);
}

proof fn lemma_chunk_steps(stream: AnthView, b: Seq<u8>)
    ensures
        stream.fed(b).steps() == stream.steps() + stream.drained().fed(b).steps(),
        stream.fed(b).drained() == stream.drained().fed(b).drained(),
    decreases stream.buf.len(),
{
    let a = stream.buf;
    upstream::lemma_line_end(a);
    let at = upstream::line_end(a);
    if stream.has_line() {
        upstream::lemma_line_end_is(a + b, at);
        assert((a + b).take(at) =~= a.take(at));
        assert((a + b).skip(at + 1) =~= a.skip(at + 1) + b);
        assert(stream.fed(b).after_line() == stream.after_line().fed(b));
        lemma_chunk_steps(stream.after_line(), b);
        let first = if stream.first_step().is_quiet() {
            Seq::empty()
        } else {
            seq![stream.first_step()]
        };
        assert(first + (stream.after_line().steps() + stream.drained().fed(b).steps()) =~= (first
            + stream.after_line().steps()) + stream.drained().fed(b).steps());
    } else {
        assert(Seq::<AnthStep>::empty() + stream.fed(b).steps() =~= stream.fed(b).steps());
    }
}

/// The translation of a stream.
#[derive(Debug)]
pub struct AnthStream {
    pub buf: Vec<u8>,
    pub prompt: u64,
    pub completion: u64,
    pub done: bool,
    pub thinking: bool,
}

impl View for AnthStream {
    type V = AnthView;

    open spec fn view(&self) -> AnthView {
        AnthView {
            buf: self.buf@,
            prompt: self.prompt,
            completion: self.completion,
            done: self.done,
            thinking: self.thinking,
        }
    }
}

/// Events for a client, and what is counted with them.
#[derive(Debug)]
pub struct AnthOut {
    pub text: String,
    pub note: Option<UsageNote>,
}

/// A string at a member of the first choice's delta.
fn text_in_delta(v: &Json, key: &str) -> (r: String)
    ensures
        r@ == delta_text(v@, key@),
{
    match responses::choice_of(v) {
        Some(choice) => match choice.get("delta") {
            Some(delta) => match delta.str_at(key) {
                Some(t) => t.to_string(),
                None => String::new(),
            },
            None => String::new(),
        },
        None => String::new(),
    }
}

/// The events that end a message, with what they tell.
fn make_stop_events(output_tokens: u64) -> (r: String)
    ensures
        r@ == stop_events(output_tokens),
        text::ends_line(r@),
        r@.len() > 0,
        forall|acc: GatheredView| #[trigger] acc.with_events(r@) == (GatheredView {
            tokens: output_tokens,
            ..acc
        }),
{
    proof {
        lemma_plain_events(Seq::empty(), output_tokens);
        reveal_strlit("message_delta");
        reveal_strlit("message_stop");
        reveal_strlit("event: ");
        reveal_strlit("\n\n");
    }
    let delta = make_event("message_delta", &make_message_delta(output_tokens));
    let stop = make_event("message_stop", &make_message_stop());
    let all = text::cat2(delta.as_str(), stop.as_str());
    proof {
        assert(all@.last() == stop@.last());
        assert forall|acc: GatheredView| #[trigger]
            acc.with_events(all@) == (GatheredView { tokens: output_tokens, ..acc }) by {
            events_read_piecewise(acc, delta@, stop@);
            lemma_event_values(acc, Seq::empty(), output_tokens);
            lemma_event_values(acc.with_value(message_delta(output_tokens)), Seq::empty(), 0);
        }
    }
    all
}

/// The event for a piece of text or thinking, with what it tells.
fn make_delta_event(text: &str, is_thinking: bool) -> (r: String)
    ensures
        r@ == sse_event(
            "content_block_delta"@,
            json::json_text(
                if is_thinking {
                    thinking_delta(text@)
                } else {
                    text_delta(text@)
                },
            ),
        ),
        text::ends_line(r@),
        r@.len() > 0,
        forall|acc: GatheredView| #[trigger] acc.with_events(r@) == (if is_thinking {
            GatheredView { thinking: acc.thinking + text@, ..acc }
        } else {
            GatheredView { text: acc.text + text@, ..acc }
        }),
{
    let data = if is_thinking {
        make_thinking_delta(text)
    } else {
        make_text_delta(text)
    };
    proof {
        lemma_plain_events(text@, 0);
        reveal_strlit("content_block_delta");
        reveal_strlit("event: ");
    }
    let event = make_event("content_block_delta", &data);
    proof {
        assert forall|acc: GatheredView| #[trigger] acc.with_events(event@) == (if is_thinking {
            GatheredView { thinking: acc.thinking + text@, ..acc }
        } else {
            GatheredView { text: acc.text + text@, ..acc }
        }) by {
            lemma_event_values(acc, text@, 0);
        }
    }
    event
}

/// What one line of the upstream's stream brings.
struct Step {
    content: String,
    reasoning: String,
    stop: bool,
    prompt: u64,
    completion: u64,
}

impl Step {
    spec fn view(&self) -> AnthStep {
        AnthStep {
            content: self.content@,
            reasoning: self.reasoning@,
            stop: self.stop,
            prompt: self.prompt,
            completion: self.completion,
        }
    }

    /// What a line brings.
    fn of_line(line: &str, thinking: bool, prompt: u64, completion: u64) -> (r: Step)
        ensures
            r@ == line_step(line@, thinking, prompt, completion),
    {
        let mut step = Step {
            content: String::new(),
            reasoning: String::new(),
            stop: false,
            prompt,
            completion,
        };
        if let Some(data) = proxy::data_of(line) {
            if text::same(data.as_str(), "[DONE]") {
                step.stop = true;
            } else if let Ok(v) = Json::parse(data.as_str()) {
                let (p, c) = proxy::tokens_seen(&v, prompt, completion);
                let content = text_in_delta(&v, "content");
                let quarter = text::chars_of(content.as_str()).len() as u64 / 4;
                step.prompt = p;
                step.completion = if quarter > c {
                    quarter
                } else {
                    c
                };
                step.content = content;
                if thinking {
                    step.reasoning = text_in_delta(&v, "reasoning_content");
                }
                step.stop = match responses::choice_of(&v) {
                    Some(choice) => choice.str_at("finish_reason").is_some(),
                    None => false,
                };
            }
        }
        step
    }

    /// The events that a client is told, with what they tell.
    fn events(&self) -> (r: String)
        ensures
            r@ == self@.events(),
            r@.len() == 0 <==> self@.is_quiet(),
            tells(r@, self@),
    {
        let a = if text::chars_of(self.content.as_str()).len() > 0 {
            make_delta_event(self.content.as_str(), false)
        } else {
            String::new()
        };
        let b = if text::chars_of(self.reasoning.as_str()).len() > 0 {
            make_delta_event(self.reasoning.as_str(), true)
        } else {
            String::new()
        };
        let c = if self.stop {
            make_stop_events(self.completion)
        } else {
            String::new()
        };
        let all = text::cat3(a.as_str(), b.as_str(), c.as_str());
        proof {
            let content = self.content@;
            let reasoning = self.reasoning@;
            let empty = Seq::<char>::empty();
            assert(all@ == a@ + b@ + c@);
            assert(text::ends_line(a@ + b@)) by {
                if b@.len() > 0 {
                    assert((a@ + b@).last() == b@.last());
                } else {
                    assert(a@ + b@ =~= a@);
                }
            }
            assert(text::ends_line(all@)) by {
                if c@.len() > 0 {
                    assert(all@.last() == c@.last());
                } else {
                    assert(all@ =~= a@ + b@);
                }
            }
            assert(text::lines_of(empty) =~= Seq::<Seq<char>>::empty());
            assert(content.len() == 0 ==> content =~= empty);
            assert(reasoning.len() == 0 ==> reasoning =~= empty);
            assert forall|acc: GatheredView| #[trigger]
                acc.with_events(all@) == self@.told_after(acc) by {
                events_read_piecewise(acc, a@ + b@, c@);
                events_read_piecewise(acc, a@, b@);
                let x = acc.with_events(a@);
                assert(x == (GatheredView { text: acc.text + content, ..acc })) by {
                    if content.len() == 0 {
                        assert(acc.text + content =~= acc.text);
                    }
                }
                let y = x.with_events(b@);
                assert(y == (GatheredView { thinking: x.thinking + reasoning, ..x })) by {
                    if reasoning.len() == 0 {
                        assert(x.thinking + reasoning =~= x.thinking);
                    }
                }
            }
        }
        all
    }
}

impl AnthStream {
    /// The start of a stream.
    pub fn new(thinking: bool) -> (r: AnthStream)
        ensures
            r@ == (AnthView {
                buf: Seq::empty(),
                prompt: 0,
                completion: 0,
                done: false,
                thinking,
            }),
    {
        AnthStream { buf: Vec::new(), prompt: 0, completion: 0, done: false, thinking }
    }

    /// Takes more bytes in.
    pub fn feed(&mut self, bytes: &[u8])
        ensures
            final(self)@ == old(self)@.fed(bytes@),
    {
        self.buf.extend_from_slice(bytes);
    }

    /// Takes the next events out, if a complete line brings some. They tell what the step
    /// brings, whatever has been told before.
    pub fn next(&mut self) -> (r: Option<AnthOut>)
        ensures
            final(self)@ == old(self)@.after_next(),
            match old(self)@.next_step() {
                Some(step) => r matches Some(out) && out.text@ == step.events() && out.note
                    == step.note() && tells(out.text@, step),
                None => r is None,
            },
    {
        let ghost start = self@;
        if self.done {
            return None;
        }
        loop
            invariant
                start == old(self)@,
                !self.done,
                start.next_step() == self@.next_step(),
                start.after_next() == self@.after_next(),
            decreases self.buf@.len(),
        {
            let ghost here = self@;
            proof {
                upstream::lemma_line_end(self.buf@);
            }
            let line = match upstream::take_sse_line(&mut self.buf) {
                Some(line) => line,
                None => return None,
            };
            let step = Step::of_line(line.as_str(), self.thinking, self.prompt, self.completion);
            assert(step@ == here.first_step());
            self.prompt = step.prompt;
            self.completion = step.completion;
            self.done = step.stop;
            assert(self@ == here.after_line());
            let text = step.events();
            if text::chars_of(text.as_str()).len() > 0 {
                let note = if step.stop {
                    Some(
                        UsageNote::Request {
                            prompt_tokens: step.prompt,
                            completion_tokens: step.completion,
                            error: false,
                        },
                    )
                } else {
                    None
                };
                return Some(AnthOut { text, note });
            }
        }
    }

    /// Ends the message where the stream ended without doing so. That tells nothing more.
    pub fn end(&mut self) -> (r: Option<AnthOut>)
        ensures
            final(self)@ == (AnthView { done: true, ..old(self)@ }),
            old(self)@.done ==> r is None,
            !old(self)@.done ==> r is Some,
            r matches Some(out) ==> out.text@ == sse_event(
                "message_stop"@,
                json::json_text(message_stop()),
            ) && out.note == Some(
                UsageNote::Request {
                    prompt_tokens: old(self)@.prompt,
                    completion_tokens: old(self)@.completion,
                    error: false,
                },
            ) && text::ends_line(out.text@) && forall|acc: GatheredView| #[trigger]
                acc.with_events(out.text@) == acc,
    {
        if self.done {
            return None;
        }
        self.done = true;
        proof {
            lemma_plain_events(Seq::empty(), 0);
            reveal_strlit("message_stop");
        }
        let text = make_event("message_stop", &make_message_stop());
        proof {
            assert forall|acc: GatheredView| #[trigger] acc.with_events(text@) == acc by {
                lemma_event_values(acc, Seq::empty(), 0);
            }
        }
        let note = UsageNote::Request {
            prompt_tokens: self.prompt,
            completion_tokens: self.completion,
            error: false,
        };
        Some(AnthOut { text, note: Some(note) })
    }

    /// Gives up where the stream broke off. Says what is counted.
    pub fn fail(&mut self) -> (r: UsageNote)
        ensures
            final(self)@ == (AnthView { done: true, ..old(self)@ }),
            r == (UsageNote::Request {
                prompt_tokens: old(self)@.prompt,
                completion_tokens: old(self)@.completion,
                error: true,
            }),
    {
        self.done = true;
        UsageNote::Request {
            prompt_tokens: self.prompt,
            completion_tokens: self.completion,
            error: true,
        }
    }
}

// ── the reply ───────────────────────────────────────────────────────
/// The events before the first piece of text.
pub open spec fn preamble_of(id: Seq<char>, model: Seq<char>) -> Seq<char> {
    sse_event(
        "message_start"@,
        json::json_text(
            JsonView::Object(
                map![
                    "type"@ => JsonView::Text("message_start"@),
                    "message"@ => JsonView::Object(map![
                        "id"@ => JsonView::Text(id),
                        "type"@ => JsonView::Text("message"@),
                        "role"@ => JsonView::Text("assistant"@),
                        "model"@ => JsonView::Text(model),
                        "content"@ => JsonView::List(Seq::empty()),
                        "stop_reason"@ => JsonView::Null,
                        "stop_sequence"@ => JsonView::Null,
                        "usage"@ => tokens_used(0),
                    ]),
                ],
            ),
        ),
    ) + sse_event(
        "content_block_start"@,
        json::json_text(
            JsonView::Object(
                map![
                    "type"@ => JsonView::Text("content_block_start"@),
                    "index"@ => json::integer(0),
                    "content_block"@ => text_block(""@),
                ],
            ),
        ),
    )
}

/// The usage of a message.
pub open spec fn tokens_used(output_tokens: u64) -> JsonView {
    JsonView::Object(
        map!["input_tokens"@ => json::integer(0), "output_tokens"@ => json::integer(output_tokens as int)],
    )
}

/// A block of text.
pub open spec fn text_block(text: Seq<char>) -> JsonView {
    JsonView::Object(map!["type"@ => JsonView::Text("text"@), "text"@ => JsonView::Text(text)])
}

/// A block of thinking.
pub open spec fn thinking_block(text: Seq<char>) -> JsonView {
    JsonView::Object(
        map!["type"@ => JsonView::Text("thinking"@), "thinking"@ => JsonView::Text(text)],
    )
}

fn make_tokens_used(output_tokens: u64) -> (r: Json)
    ensures
        r@ == tokens_used(output_tokens),
{
    let mut usage = JsonObject::new();
    usage.put("input_tokens", Json::unsigned(0));
    usage.put("output_tokens", Json::unsigned(output_tokens));
    Json::Object(usage)
}

fn make_text_block(text: &str) -> (r: Json)
    ensures
        r@ == text_block(text@),
{
    let mut block = JsonObject::new();
    block.put("type", Json::text("text"));
    block.put("text", Json::text(text));
    Json::Object(block)
}

fn make_thinking_block(text: &str) -> (r: Json)
    ensures
        r@ == thinking_block(text@),
{
    let mut block = JsonObject::new();
    block.put("type", Json::text("thinking"));
    block.put("thinking", Json::text(text));
    Json::Object(block)
}

/// A fresh identifier for a message.
pub fn message_id() -> (r: String)
    ensures
        exists|uuid: Seq<char>| #[trigger] outside::is_simple_uuid(uuid) && r@ == "msg_"@ + uuid,
{
    let uuid = outside::fresh_uuid();
    text::cat2("msg_", uuid.as_str())
}

/// The events before the first piece of text.
pub fn preamble(id: &str, model: &str) -> (r: String)
    ensures
        r@ == preamble_of(id@, model@),
{
    let none: Vec<Json> = Vec::new();
    assert(json::trees_of(none@) =~= Seq::<JsonView>::empty());
    let mut message = JsonObject::new();
    message.put("id", Json::text(id));
    message.put("type", Json::text("message"));
    message.put("role", Json::text("assistant"));
    message.put("model", Json::text(model));
    message.put("content", Json::List(none));
    message.put("stop_reason", Json::Null);
    message.put("stop_sequence", Json::Null);
    message.put("usage", make_tokens_used(0));
    let mut start = JsonObject::new();
    start.put("type", Json::text("message_start"));
    start.put("message", Json::Object(message));
    let mut block = JsonObject::new();
    block.put("type", Json::text("content_block_start"));
    block.put("index", Json::unsigned(0));
    block.put("content_block", make_text_block(""));
    let start = Json::Object(start).to_text();
    let block = Json::Object(block).to_text();
    let first = text::cat4("event: message_start\ndata: ", start.as_str(), "\n\n", "");
    let second = text::cat4("event: content_block_start\ndata: ", block.as_str(), "\n\n", "");
    proof {
        reveal_strlit("event: ");
        reveal_strlit("\ndata: ");
        reveal_strlit("");
        reveal_strlit("message_start");
        reveal_strlit("content_block_start");
        reveal_strlit("event: message_start\ndata: ");
        reveal_strlit("event: content_block_start\ndata: ");
        assert("event: message_start\ndata: "@ =~= "event: "@ + "message_start"@ + "\ndata: "@);
        assert("event: content_block_start\ndata: "@ =~= "event: "@ + "content_block_start"@
            + "\ndata: "@);
        assert(first@ =~= sse_event("message_start"@, start@));
        assert(second@ =~= sse_event("content_block_start"@, block@));
    }
    text::cat2(first.as_str(), second.as_str())
}

/// The start of a streamed reply.
pub open spec fn streamed_messages() -> StreamStartView {
    StreamStartView {
        status: 200,
        headers: seq![("content-type"@, "text/event-stream"@), ("cache-control"@, "no-cache"@)],
        row: None,
        note: None,
    }
}

pub fn messages_streamed() -> (r: StreamStart)
    ensures
        r@ == streamed_messages(),
{
    let mut headers = Pairs::new();
    headers.add("content-type", "text/event-stream");
    headers.add("cache-control", "no-cache");
    assert(headers@ =~= seq![
        ("content-type"@, "text/event-stream"@),
        ("cache-control"@, "no-cache"@),
    ]);
    StreamStart { status: 200, headers, row: None, note: None }
}

/// What is done with the upstream's answer to a Messages request.
pub open spec fn messages_turn(status: u16, stream: bool) -> AnswerTurnView {
    if !exchange::succeeded(status) {
        AnswerTurnView::Refuse
    } else if stream {
        AnswerTurnView::Stream(streamed_messages())
    } else {
        AnswerTurnView::Whole
    }
}

/// What is done with the upstream's answer to a Messages request.
pub fn messages_answered(status: u16, stream: bool) -> (r: AnswerTurn)
    ensures
        r@ == messages_turn(status, stream),
{
    if !exchange::is_success(status) {
        AnswerTurn::Refuse
    } else if stream {
        AnswerTurn::Stream(messages_streamed())
    } else {
        AnswerTurn::Whole
    }
}

/// The reply when the stream of a message that is told as a whole broke off.
pub fn messages_broken() -> (r: ApiReply)
    ensures
        r@ == anth_error(502, "upstream stream error"@, "api_error"@),
{
    anth_err(502, "upstream stream error", "api_error")
}

/// What events tell together.
struct Gathered {
    text: String,
    thinking: String,
    tokens: u64,
}

impl Gathered {
    spec fn view(&self) -> GatheredView {
        GatheredView { text: self.text@, thinking: self.thinking@, tokens: self.tokens }
    }

    fn add_value(&mut self, v: &Json)
        ensures
            final(self)@ == old(self)@.with_value(v@),
    {
        let kind = v.str_at("type");
        if responses::is_text(kind, "content_block_delta") {
            if let Some(delta) = v.get("delta") {
                let ghost before = self@;
                let ghost none = Seq::<char>::empty();
                if let Some(t) = delta.str_at("text") {
                    self.text = text::cat2(self.text.as_str(), t);
                }
                if let Some(t) = delta.str_at("thinking") {
                    self.thinking = text::cat2(self.thinking.as_str(), t);
                }
                assert(before.text + none =~= before.text);
                assert(before.thinking + none =~= before.thinking);
            }
        } else if responses::is_text(kind, "message_delta") {
            if let Some(usage) = v.get("usage") {
                if let Some(n) = usage.u64_at("output_tokens") {
                    self.tokens = n;
                }
            }
        }
    }

    fn of_events(events: &str) -> (r: Gathered)
        ensures
            r@ == nothing_gathered().with_events(events@),
    {
        let lines = text::lines(events);
        let ghost all = text::lines_of(events@);
        let mut gathered = Gathered { text: String::new(), thinking: String::new(), tokens: 0 };
        assert(gathered@ == nothing_gathered());
        let mut i: usize = 0;
        assert(all.skip(0) =~= all);
        while i < lines.len()
            invariant
                i <= lines@.len(),
                text::views(lines@) == all,
                nothing_gathered().with_lines(all) == gathered@.with_lines(all.skip(i as int)),
            decreases lines@.len() - i,
        {
            let ghost rest = all.skip(i as int);
            assert(rest[0] == lines@[i as int]@);
            assert(rest.skip(1) =~= all.skip(i + 1));
            if let Some(data) = text::strip(lines[i].as_str(), "data:") {
                if let Ok(v) = Json::parse(text::trim(data.as_str()).as_str()) {
                    gathered.add_value(&v);
                }
            }
            i += 1;
        }
        assert(all.skip(i as int).len() == 0);
        gathered
    }
}

/// The message that events tell together.
pub open spec fn whole_message(
    id: Seq<char>,
    model: Seq<char>,
    thinking: bool,
    told: GatheredView,
) -> JsonView {
    let text = text_block(told.text);
    JsonView::Object(
        map![
            "id"@ => JsonView::Text(id),
            "type"@ => JsonView::Text("message"@),
            "role"@ => JsonView::Text("assistant"@),
            "model"@ => JsonView::Text(model),
            "content"@ => JsonView::List(
                if thinking && told.thinking.len() > 0 {
                    seq![thinking_block(told.thinking), text]
                } else {
                    seq![text]
                },
            ),
            "stop_reason"@ => JsonView::Text("end_turn"@),
            "stop_sequence"@ => JsonView::Null,
            "usage"@ => tokens_used(told.tokens),
        ],
    )
}

/// The reply to a client that asks for no stream: the message that the events tell together.
pub fn messages_gathered(id: &str, model: &str, thinking: bool, events: &str) -> (r: ApiReply)
    ensures
        r@ == reply::ok_of(
            whole_message(id@, model@, thinking, nothing_gathered().with_events(events@)),
        ),
{
    let told = Gathered::of_events(events);
    let mut content: Vec<Json> = Vec::new();
    let ghost mut blocks = Seq::<JsonView>::empty();
    assert(json::trees_of(content@) =~= blocks);
    if thinking && text::chars_of(told.thinking.as_str()).len() > 0 {
        content.push(make_thinking_block(told.thinking.as_str()));
        proof {
            blocks = seq![thinking_block(told.thinking@)];
        }
        assert(json::trees_of(content@) =~= blocks);
    }
    let ghost before = content@;
    content.push(make_text_block(told.text.as_str()));
    assert(json::trees_of(content@) =~= json::trees_of(before).push(text_block(told.text@)));
    assert(json::trees_of(content@) =~= (if thinking && told.thinking@.len() > 0 {
        seq![thinking_block(told.thinking@), text_block(told.text@)]
    } else {
        seq![text_block(told.text@)]
    }));
    let mut body = JsonObject::new();
    body.put("id", Json::text(id));
    body.put("type", Json::text("message"));
    body.put("role", Json::text("assistant"));
    body.put("model", Json::text(model));
    body.put("content", Json::List(content));
    body.put("stop_reason", Json::text("end_turn"));
    body.put("stop_sequence", Json::Null);
    body.put("usage", make_tokens_used(told.tokens));
    reply::ok_reply(Json::Object(body))
}

/// A Messages request is told as a stream just if the client asked for one, and with its thinking
/// just if the client asked for that; it is counted for the model that the client named. What is no
/// request is refused with the status 400.
pub proof fn requests_are_taken_as_asked_for(
    body: JsonView,
    model: Seq<char>,
    messages: Seq<JsonView>,
    wish: JsonView,
    e: Seq<char>,
)
    ensures
        messages_call(Err(e)) matches Err(reply) && reply.status == 400,
        json::lacks(body, "model"@) || json::lacks(body, "messages"@) ==> (messages_call(Ok(body))
            matches Err(reply) && reply.status == 400),
        json::has(body, "model"@, JsonView::Text(model)) && json::has(
            body,
            "messages"@,
            JsonView::List(messages),
        ) ==> (messages_call(Ok(body)) matches Ok(call) && {
            &&& openai_body(body) == Ok::<_, Seq<char>>(call.payload)
            &&& call.model == model
            &&& json::has(body, "stream"@, JsonView::Bool(true)) ==> call.stream
            &&& json::lacks(body, "stream"@) || json::has(body, "stream"@, JsonView::Bool(false))
                ==> !call.stream
            &&& json::has(body, "thinking"@, wish) && json::has(
                wish,
                "type"@,
                JsonView::Text("enabled"@),
            ) ==> call.thinking
            &&& json::lacks(body, "thinking"@) ==> !call.thinking
            &&& json::has(body, "thinking"@, wish) && (json::lacks(wish, "type"@) || json::has(
                wish,
                "type"@,
                JsonView::Text(e),
            ) && e != "enabled"@) ==> !call.thinking
        }),
{
    upstream_always_streams(body);
}

/// What the upstream writes is what the client reads: the text of a chunk is told as it is, its
/// thinking too where it was asked for, a reason to finish or the end mark ends the message, and
/// the tokens that are stated are known then. Anything else says nothing.
pub proof fn chunks_are_told_as_they_are(
    data: Seq<char>,
    chunk: JsonView,
    choices: Seq<JsonView>,
    delta: JsonView,
    said: Seq<char>,
    thought: Seq<char>,
    reason: Seq<char>,
    usage: JsonView,
    p: u64,
    c: u64,
    thinking: bool,
    prompt: u64,
    completion: u64,
)
    requires
        json::parsed_json(data) == json::read_as(chunk),
        data.len() > 0,
        text::is_trimmed(data),
        data != "[DONE]"@,
        json::has(chunk, "choices"@, JsonView::List(choices)),
        choices.len() > 0,
        json::has(choices[0], "delta"@, delta),
    ensures
        ({
            let step = line_step("data: "@ + data, thinking, prompt, completion);
            &&& json::has(delta, "content"@, JsonView::Text(said)) ==> step.content == said
            &&& json::lacks(delta, "content"@) ==> step.content.len() == 0
            &&& thinking && json::has(delta, "reasoning_content"@, JsonView::Text(thought))
                ==> step.reasoning == thought
            &&& !thinking ==> step.reasoning.len() == 0
            &&& json::lacks(delta, "reasoning_content"@) ==> step.reasoning.len() == 0
            &&& json::has(choices[0], "finish_reason"@, JsonView::Text(reason)) ==> step.stop
            &&& json::lacks(choices[0], "finish_reason"@) || json::has(
                choices[0],
                "finish_reason"@,
                JsonView::Null,
            ) ==> !step.stop
            &&& json::has(chunk, "usage"@, usage) && json::counts(
                usage,
                "prompt_tokens"@,
                p as int,
            ) ==> step.prompt == p
            &&& json::has(chunk, "usage"@, usage) && json::counts(
                usage,
                "completion_tokens"@,
                c as int,
            ) && step.content.len() / 4 <= c ==> step.completion == c
            &&& json::lacks(chunk, "usage"@) ==> step.prompt == prompt && (step.content.len() / 4
                <= completion ==> step.completion == completion)
            &&& json::lacks(chunk, "usage"@) && completion < step.content.len() / 4 <= u64::MAX
                ==> step.completion == step.content.len() / 4
        }),
{
    proxy::lemma_data_line(data);
}

/// The end mark ends a message, with the tokens known by then; a line without data, or whose data
/// is no JSON, says nothing.
pub proof fn other_lines_say_little(
    line: Seq<char>,
    thinking: bool,
    prompt: u64,
    completion: u64,
    e: Seq<char>,
)
    ensures
        line_step("data: [DONE]"@, thinking, prompt, completion) == (AnthStep {
            content: Seq::empty(),
            reasoning: Seq::empty(),
            stop: true,
            prompt,
            completion,
        }),
        line.len() > 0 && text::is_trimmed(line) && !text::begins_with(line, "data:"@) ==> line_step(
            line,
            thinking,
            prompt,
            completion,
        ).is_quiet(),
        line.len() > 0 && text::is_trimmed(line) && line != "[DONE]"@ && json::parsed_json(line)
            == Err::<JsonView, Seq<char>>(e) ==> line_step(
            "data: "@ + line,
            thinking,
            prompt,
            completion,
        ).is_quiet(),
{
    reveal_strlit("[DONE]");
    reveal_strlit("data: ");
    reveal_strlit("data: [DONE]");
    proxy::lemma_data_line("[DONE]"@);
    assert("data: "@ + "[DONE]"@ =~= "data: [DONE]"@);
    if line.len() > 0 && text::is_trimmed(line) {
        proxy::lemma_data_line(line);
        text::lemma_trim(line);
    }
}

/// What a step brings is what its events say: its text in an event for text, its thinking in one
/// for thinking, and at the end the number of tokens. A message that ended counts as one request
/// with the tokens known then.
pub proof fn steps_are_told_in_events(step: AnthStep)
    ensures
        step.content.len() > 0 && step.reasoning.len() == 0 && !step.stop ==> exists|v: JsonView|
            step.events() == "event: content_block_delta\ndata: "@ + #[trigger] json::json_text(v)
                + "\n\n"@ && json::counts(v, "index"@, 0) && (v matches JsonView::Object(m)
                && json::has(m["delta"@], "text"@, JsonView::Text(step.content)) && json::has(
                m["delta"@],
                "type"@,
                JsonView::Text("text_delta"@),
            )),
        step.content.len() == 0 && step.reasoning.len() > 0 && !step.stop ==> exists|v: JsonView|
            step.events() == "event: content_block_delta\ndata: "@ + #[trigger] json::json_text(v)
                + "\n\n"@ && json::counts(v, "index"@, 1) && (v matches JsonView::Object(m)
                && json::has(m["delta"@], "thinking"@, JsonView::Text(step.reasoning)) && json::has(
                m["delta"@],
                "type"@,
                JsonView::Text("thinking_delta"@),
            )),
        step.stop ==> step.note() == Some(
            UsageNote::Request {
                prompt_tokens: step.prompt,
                completion_tokens: step.completion,
                error: false,
            },
        ),
        !step.stop ==> step.note() is None,
{
    reveal_strlit("event: ");
    reveal_strlit("content_block_delta");
    reveal_strlit("\ndata: ");
    reveal_strlit("event: content_block_delta\ndata: ");
    reveal_strlit("type");
    reveal_strlit("index");
    reveal_strlit("delta");
    reveal_strlit("text");
    reveal_strlit("thinking");
    assert("type"@.len() == 4 && "index"@.len() == 5 && "delta"@.len() == 5 && "text"@.len() == 4
        && "thinking"@.len() == 8);
    assert("index"@[0] == 'i' && "delta"@[0] == 'd' && "type"@[1] == 'y' && "text"@[1] == 'e');
    assert("event: content_block_delta\ndata: "@ =~= "event: "@ + "content_block_delta"@
        + "\ndata: "@);
    let t = text_delta(step.content);
    let h = thinking_delta(step.reasoning);
    assert(sse_event("content_block_delta"@, json::json_text(t))
        =~= "event: content_block_delta\ndata: "@ + json::json_text(t) + "\n\n"@);
    assert(sse_event("content_block_delta"@, json::json_text(h))
        =~= "event: content_block_delta\ndata: "@ + json::json_text(h) + "\n\n"@);
    if step.content.len() > 0 && step.reasoning.len() == 0 && !step.stop {
        assert(step.events() =~= sse_event("content_block_delta"@, json::json_text(t)));
    }
    if step.content.len() == 0 && step.reasoning.len() > 0 && !step.stop {
        assert(step.events() =~= sse_event("content_block_delta"@, json::json_text(h)));
    }
}

/// A client that asked for no stream gets the whole message: all text in one block, after all
/// thinking where it was asked for and there is some, with the model and the number of tokens.
pub proof fn whole_messages_say_it_all(
    id: Seq<char>,
    model: Seq<char>,
    thinking: bool,
    told: GatheredView,
)
    ensures
        whole_message(id, model, thinking, told) matches JsonView::Object(m) && {
            &&& m["id"@] == JsonView::Text(id)
            &&& m["role"@] == JsonView::Text("assistant"@)
            &&& m["model"@] == JsonView::Text(model)
            &&& json::counts(m["usage"@], "output_tokens"@, told.tokens as int)
            &&& m["content"@] matches JsonView::List(blocks) && blocks.len() > 0 && json::has(
                blocks.last(),
                "text"@,
                JsonView::Text(told.text),
            ) && json::has(blocks.last(), "type"@, JsonView::Text("text"@)) && (if thinking
                && told.thinking.len() > 0 {
                blocks.len() == 2 && json::has(
                    blocks[0],
                    "thinking"@,
                    JsonView::Text(told.thinking),
                ) && json::has(blocks[0], "type"@, JsonView::Text("thinking"@))
            } else {
                blocks.len() == 1
            })
        },
{
    reveal_strlit("id");
    reveal_strlit("type");
    reveal_strlit("role");
    reveal_strlit("model");
    reveal_strlit("content");
    reveal_strlit("stop_reason");
    reveal_strlit("stop_sequence");
    reveal_strlit("usage");
    reveal_strlit("text");
    reveal_strlit("thinking");
    reveal_strlit("input_tokens");
    reveal_strlit("output_tokens");
    assert("id"@.len() == 2 && "type"@.len() == 4 && "role"@.len() == 4 && "model"@.len() == 5
        && "content"@.len() == 7 && "stop_reason"@.len() == 11 && "stop_sequence"@.len() == 13
        && "usage"@.len() == 5 && "text"@.len() == 4 && "thinking"@.len() == 8);
    assert("type"@[1] == 'y' && "role"@[1] == 'o' && "text"@[1] == 'e' && "model"@[0] == 'm'
        && "usage"@[0] == 'u');
    assert("input_tokens"@.len() == 12 && "output_tokens"@.len() == 13);
}

/// A successful answer is told as a stream just if one was asked for; any other answer is a refusal.
pub proof fn answers_are_taken_as_asked_for(status: u16, stream: bool)
    ensures
        200 <= status < 300 && stream ==> (messages_turn(status, stream) matches AnswerTurnView::Stream(
            start,
        ) && start.status == 200 && start.headers.contains(
            ("content-type"@, "text/event-stream"@),
        )),
        200 <= status < 300 && !stream ==> messages_turn(status, stream) is Whole,
        status < 200 || status >= 300 ==> messages_turn(status, stream) is Refuse,
{
    assert(streamed_messages().headers[0] == ("content-type"@, "text/event-stream"@));
}

/// What a client is told of an error, in the form that Anthropic clients expect: its status, its kind
/// and its message. Who is not logged in is told so, and so is who cannot be served because the
/// upstream was not reached.
pub proof fn errors_say_what_they_are(status: u16, message: Seq<char>, kind: Seq<char>)
    ensures
        anth_error(status, message, kind).status == status,
        json::has(anth_error(status, message, kind).body, "type"@, JsonView::Text("error"@)),
        anth_error(status, message, kind).body matches JsonView::Object(m) && json::has(
            m["error"@],
            "message"@,
            JsonView::Text(message),
        ) && json::has(m["error"@], "type"@, JsonView::Text(kind)),
        unsent_messages(SendErrorView::NotLoggedIn).status == 401,
        unsent_messages(SendErrorView::Upstream(message)).status == 502,
        unsent_messages(SendErrorView::Upstream(message)).body matches JsonView::Object(m)
            && json::has(
            m["error"@],
            "message"@,
            JsonView::Text("upstream fetch failed: "@ + message),
        ),
{
    reveal_strlit("message");
    reveal_strlit("type");
    reveal_strlit("error");
    assert("message"@.len() == 7 && "type"@.len() == 4 && "error"@.len() == 5);
}

/// A step that brings several things tells them one after the other: its text, then its thinking,
/// then the end of the message with the tokens known then.
pub proof fn steps_are_told_in_order(step: AnthStep)
    ensures
        step.events() == (AnthStep { reasoning: Seq::empty(), stop: false, ..step }).events() + (
        AnthStep { content: Seq::empty(), stop: false, ..step }).events() + (AnthStep {
            content: Seq::empty(),
            reasoning: Seq::empty(),
            ..step
        }).events(),
        step.is_quiet() <==> step.content.len() == 0 && step.reasoning.len() == 0 && !step.stop,
        step.is_quiet() ==> step.events().len() == 0,
        step.stop && step.content.len() == 0 && step.reasoning.len() == 0 ==> exists|
            v: JsonView,
            w: JsonView,
        |
            step.events() == "event: message_delta\ndata: "@ + #[trigger] json::json_text(v)
                + "\n\nevent: message_stop\ndata: "@ + #[trigger] json::json_text(w) + "\n\n"@ && (v
                matches JsonView::Object(m) && json::counts(
                m["usage"@],
                "output_tokens"@,
                step.completion as int,
            )) && json::has(w, "type"@, JsonView::Text("message_stop"@)),
{
    let c = AnthStep { reasoning: Seq::empty(), stop: false, ..step };
    let r = AnthStep { content: Seq::empty(), stop: false, ..step };
    let s = AnthStep { content: Seq::empty(), reasoning: Seq::empty(), ..step };
    assert(step.events() =~= c.events() + r.events() + s.events());
    reveal_strlit("event: ");
    reveal_strlit("\ndata: ");
    reveal_strlit("\n\n");
    reveal_strlit("message_delta");
    reveal_strlit("message_stop");
    reveal_strlit("event: message_delta\ndata: ");
    reveal_strlit("\n\nevent: message_stop\ndata: ");
    reveal_strlit("type");
    reveal_strlit("delta");
    reveal_strlit("usage");
    assert("type"@.len() == 4 && "delta"@.len() == 5 && "usage"@.len() == 5);
    assert("delta"@[0] == 'd' && "usage"@[0] == 'u');
    let v = json::json_text(message_delta(step.completion));
    let w = json::json_text(message_stop());
    assert(stop_events(step.completion) =~= "event: message_delta\ndata: "@ + v
        + "\n\nevent: message_stop\ndata: "@ + w + "\n\n"@);
    if step.stop && step.content.len() == 0 && step.reasoning.len() == 0 {
        assert(step.events() =~= stop_events(step.completion));
    }
}

/// What events say is gathered piece by piece: text is added to the text, thinking to the thinking,
/// and the number of tokens is the last one that was said. Other lines, and other kinds of events,
/// add nothing.
pub proof fn events_are_gathered(
    acc: GatheredView,
    data: Seq<char>,
    v: JsonView,
    delta: JsonView,
    usage: JsonView,
    s: Seq<char>,
    n: u64,
    kind: Seq<char>,
)
    requires
        json::parsed_json(data) == json::read_as(v),
        text::is_trimmed(data),
        json::has(v, "type"@, JsonView::Text(kind)),
    ensures
        kind == "content_block_delta"@ && json::has(v, "delta"@, delta) && json::has(
            delta,
            "text"@,
            JsonView::Text(s),
        ) && json::lacks(delta, "thinking"@) ==> acc.with_line("data: "@ + data) == (GatheredView {
            text: acc.text + s,
            ..acc
        }),
        kind == "content_block_delta"@ && json::has(v, "delta"@, delta) && json::has(
            delta,
            "thinking"@,
            JsonView::Text(s),
        ) && json::lacks(delta, "text"@) ==> acc.with_line("data: "@ + data) == (GatheredView {
            thinking: acc.thinking + s,
            ..acc
        }),
        kind == "message_delta"@ && json::has(v, "usage"@, usage) && json::counts(
            usage,
            "output_tokens"@,
            n as int,
        ) ==> acc.with_line("data: "@ + data) == (GatheredView { tokens: n, ..acc }),
        kind != "content_block_delta"@ && kind != "message_delta"@ ==> acc.with_line(
            "data: "@ + data,
        ) == acc,
        !text::begins_with(s, "data:"@) ==> acc.with_line(s) == acc,
{
    reveal_strlit("data:");
    reveal_strlit("data: ");
    reveal_strlit("content_block_delta");
    reveal_strlit("message_delta");
    assert("content_block_delta"@.len() == 19 && "message_delta"@.len() == 13);
    let line = "data: "@ + data;
    assert(line.take(5) =~= "data:"@);
    assert(line.skip(5) =~= seq![' '] + data + Seq::empty());
    text::trimming_takes_only_what_surrounds(seq![' '], data, Seq::empty());
    assert(acc.text + Seq::<char>::empty() =~= acc.text);
    assert(acc.thinking + Seq::<char>::empty() =~= acc.thinking);
}

/// A stream begins with the message that it is going to tell, under its identifier and its model and
/// still empty, and with a block for its text.
pub proof fn streams_begin_with_their_message(id: Seq<char>, model: Seq<char>)
    ensures
        exists|v: JsonView, w: JsonView|
            preamble_of(id, model) == "event: message_start\ndata: "@ + #[trigger] json::json_text(v)
                + "\n\nevent: content_block_start\ndata: "@ + #[trigger] json::json_text(w)
                + "\n\n"@ && json::has(v, "type"@, JsonView::Text("message_start"@)) && (v
                matches JsonView::Object(m) && json::has(m["message"@], "id"@, JsonView::Text(id))
                && json::has(m["message"@], "model"@, JsonView::Text(model)) && json::has(
                m["message"@],
                "role"@,
                JsonView::Text("assistant"@),
            )) && json::counts(w, "index"@, 0),
{
    reveal_strlit("event: ");
    reveal_strlit("\ndata: ");
    reveal_strlit("\n\n");
    reveal_strlit("message_start");
    reveal_strlit("content_block_start");
    reveal_strlit("event: message_start\ndata: ");
    reveal_strlit("\n\nevent: content_block_start\ndata: ");
    reveal_strlit("type");
    reveal_strlit("message");
    reveal_strlit("index");
    reveal_strlit("content_block");
    reveal_strlit("id");
    reveal_strlit("role");
    reveal_strlit("model");
    reveal_strlit("content");
    reveal_strlit("stop_reason");
    reveal_strlit("stop_sequence");
    reveal_strlit("usage");
    assert("type"@.len() == 4 && "message"@.len() == 7 && "index"@.len() == 5
        && "content_block"@.len() == 13 && "id"@.len() == 2 && "role"@.len() == 4 && "model"@.len()
        == 5 && "content"@.len() == 7 && "stop_reason"@.len() == 11 && "stop_sequence"@.len() == 13
        && "usage"@.len() == 5);
    assert("type"@[0] == 't' && "role"@[0] == 'r' && "model"@[0] == 'm' && "usage"@[0] == 'u');
    let v = JsonView::Object(
        map![
            "type"@ => JsonView::Text("message_start"@),
            "message"@ => JsonView::Object(map![
                "id"@ => JsonView::Text(id),
                "type"@ => JsonView::Text("message"@),
                "role"@ => JsonView::Text("assistant"@),
                "model"@ => JsonView::Text(model),
                "content"@ => JsonView::List(Seq::empty()),
                "stop_reason"@ => JsonView::Null,
                "stop_sequence"@ => JsonView::Null,
                "usage"@ => tokens_used(0),
            ]),
        ],
    );
    let w = JsonView::Object(
        map![
            "type"@ => JsonView::Text("content_block_start"@),
            "index"@ => json::integer(0),
            "content_block"@ => text_block(""@),
        ],
    );
    assert(preamble_of(id, model) =~= "event: message_start\ndata: "@ + json::json_text(v)
        + "\n\nevent: content_block_start\ndata: "@ + json::json_text(w) + "\n\n"@);
}

} // verus!
