//! OpenAI-compatible proxy to the MiMo free channel.

use crate::auth::{Session, SessionView, API_BASE, SID};
use crate::error::BridgeError;
use crate::exchange::Pairs;
use crate::json::{Json, JsonObject, JsonView};
use crate::reply::{
    AnswerTurn, AnswerTurnView, ApiReply, ApiReplyView, Settled, SettledView, StreamStart,
    StreamStartView,
};
use crate::upstream::{SendError, SendErrorView};
use crate::usage::UsageNote;
use crate::exchange;
use crate::json;
use crate::outside;
use crate::reply;
use crate::text;
use crate::upstream;
use vstd::prelude::*;
use vstd::utf8::encode_utf8;

verus! {

// ── models ──────────────────────────────────────────────────────────
/// An entry of the model list.
pub open spec fn model_entry(id: Seq<char>, name: Seq<char>) -> JsonView {
    JsonView::Object(
        map![
            "id"@ => JsonView::Text(id),
            "object"@ => JsonView::Text("model"@),
            "created"@ => json::integer(0),
            "owned_by"@ => JsonView::Text("xiaomi"@),
            "name"@ => JsonView::Text(name),
        ],
    )
}

/// The free-channel models.
pub open spec fn model_list() -> Seq<JsonView> {
    seq![
        model_entry("mimo-x-pro-preview"@, "MiMo-X-Pro-Preview"@),
        model_entry("mimo-x-flash-preview"@, "MiMo-X-Flash-Preview"@),
        model_entry("mimo-pro"@, "MiMo Pro"@),
        model_entry("mimo-flash"@, "MiMo Flash"@),
        model_entry("mimo-auto"@, "MiMo Auto"@),
    ]
}

fn make_model_entry(id: &str, name: &str) -> (r: Json)
    ensures
        r@ == model_entry(id@, name@),
{
    let mut entry = JsonObject::new();
    entry.put("id", Json::text(id));
    entry.put("object", Json::text("model"));
    entry.put("created", Json::unsigned(0));
    entry.put("owned_by", Json::text("xiaomi"));
    entry.put("name", Json::text(name));
    Json::Object(entry)
}

/// Free-channel models observed from the desktop catalog + aliases.
pub fn known_models() -> (r: Vec<Json>)
    ensures
        json::trees_of(r@) == model_list(),
{
    let mut list: Vec<Json> = Vec::new();
    list.push(make_model_entry("mimo-x-pro-preview", "MiMo-X-Pro-Preview"));
    list.push(make_model_entry("mimo-x-flash-preview", "MiMo-X-Flash-Preview"));
    list.push(make_model_entry("mimo-pro", "MiMo Pro"));
    list.push(make_model_entry("mimo-flash", "MiMo Flash"));
    list.push(make_model_entry("mimo-auto", "MiMo Auto"));
    assert(json::trees_of(list@) =~= model_list());
    list
}

/// The reply that lists the models.
pub open spec fn models_reply() -> ApiReplyView {
    reply::ok_of(
        JsonView::Object(
            map!["object"@ => JsonView::Text("list"@), "data"@ => JsonView::List(model_list())],
        ),
    )
}

/// GET /v1/models
pub fn models() -> (r: ApiReply)
    ensures
        r@ == models_reply(),
{
    let mut body = JsonObject::new();
    body.put("object", Json::text("list"));
    body.put("data", Json::List(known_models()));
    reply::ok_reply(Json::Object(body))
}

/// The reply that tells of an error.
pub fn error_response(status: u16, message: &str, code: &str) -> (r: ApiReply)
    ensures
        r@ == reply::error_of(status, message@, code@),
{
    reply::error_reply(status, message, code)
}

// ── a chat request ──────────────────────────────────────────────────
/// What a chat request is: what is sent on, and what it asks for.
#[verifier::ext_equal]
pub struct ChatCallView {
    pub payload: JsonView,
    pub stream: bool,
    pub model: Seq<char>,
}

/// A payload that asks for one choice at most.
pub open spec fn single_choice(payload: JsonView) -> JsonView {
    match (payload, payload.signed_at("n"@)) {
        (JsonView::Object(m), Some(n)) if n > 1 => JsonView::Object(m.insert("n"@, json::integer(1))),
        _ => payload,
    }
}

/// The model that a request names.
pub open spec fn named_model(payload: JsonView) -> Seq<char> {
    match payload.text_at("model"@) {
        Some(m) => m,
        None => "unknown"@,
    }
}

/// The reply to a body that is no JSON.
pub open spec fn invalid_json(e: Seq<char>) -> ApiReplyView {
    reply::error_of(400, "invalid JSON: "@ + e, "invalid_request_error"@)
}

/// What becomes of a chat request's body.
pub open spec fn chat_call(parsed: Result<JsonView, Seq<char>>) -> Result<
    ChatCallView,
    ApiReplyView,
> {
    match parsed {
        Err(e) => Err(invalid_json(e)),
        Ok(payload) => if !(payload is Object) {
            Err(reply::error_of(400, "body must be a JSON object"@, "invalid_request_error"@))
        } else {
            Ok(
                ChatCallView {
                    payload: single_choice(payload),
                    stream: payload.truth_at("stream"@) == Some(true),
                    model: named_model(payload),
                },
            )
        },
    }
}

/// A chat request.
#[derive(Debug)]
pub struct ChatCall {
    /// What is sent on.
    pub payload: Json,
    pub stream: bool,
    pub model: String,
}

impl View for ChatCall {
    type V = ChatCallView;

    open spec fn view(&self) -> ChatCallView {
        ChatCallView { payload: self.payload@, stream: self.stream, model: self.model@ }
    }
}

pub const CHAT_ROUTE: &'static str = "/v1/chat/completions";

/// The model that a request names.
pub fn model_of(payload: &Json) -> (r: String)
    ensures
        r@ == named_model(payload@),
{
    match payload.str_at("model") {
        Some(m) => m.to_string(),
        None => "unknown".to_string(),
    }
}

/// Whether a request asks for a stream.
pub fn wants_stream(payload: &Json) -> (r: bool)
    ensures
        r == (payload@.truth_at("stream"@) == Some(true)),
{
    match payload.bool_at("stream") {
        Some(b) => b,
        None => false,
    }
}

/// Shapes a chat request whose body was read.
pub fn shape_chat(parsed: Result<Json, String>) -> (r: Result<ChatCall, ApiReply>)
    ensures
        match chat_call(json::parse_view(parsed)) {
            Ok(call) => r matches Ok(c) && c@ == call,
            Err(reply) => r matches Err(e) && e@ == reply,
        },
{
    match parsed {
        Err(e) => Err(
            error_response(
                400,
                text::cat2("invalid JSON: ", e.as_str()).as_str(),
                "invalid_request_error",
            ),
        ),
        Ok(payload) => {
            let stream = wants_stream(&payload);
            let model = model_of(&payload);
            let many = match payload.i64_at("n") {
                Some(n) => n > 1,
                None => false,
            };
            match payload {
                Json::Object(members) => {
                    let mut members = members;
                    if many {
                        members.put("n", Json::unsigned(1));
                    }
                    Ok(ChatCall { payload: Json::Object(members), stream, model })
                },
                _ => Err(
                    error_response(400, "body must be a JSON object", "invalid_request_error"),
                ),
            }
        },
    }
}

/// POST /v1/chat/completions: the request that a body describes, with its log row.
pub fn chat(body: &str) -> (r: Result<(ChatCall, Json), ApiReply>)
    ensures
        match chat_call(json::parsed_json(body@)) {
            Ok(call) => r matches Ok(c) && c.0@ == call && exists|ts: i64|
                c.1@ == #[trigger] reply::request_row(ts, CHAT_ROUTE@, call.model, call.stream),
            Err(reply) => r matches Err(e) && e@ == reply,
        },
{
    let parsed = Json::parse(body);
    assert(json::parse_view(parsed) == json::parsed_json(body@));
    match shape_chat(parsed) {
        Ok(call) => {
            let ts = outside::now_millis();
            let row = reply::make_request_row(ts, CHAT_ROUTE, call.model.as_str(), call.stream);
            assert(row@ == reply::request_row(ts, CHAT_ROUTE@, call@.model, call@.stream));
            Ok((call, row))
        },
        Err(e) => Err(e),
    }
}

/// What is sent on asks for one choice at most, and is otherwise what the client sent.
pub proof fn one_choice_at_most(payload: JsonView, key: Seq<char>)
    requires
        payload is Object,
    ensures
        chat_call(Ok(payload)) matches Ok(call) && call.payload is Object && (
        call.payload.signed_at("n"@) matches Some(n) ==> n <= 1) && (key != "n"@
            ==> call.payload.field(key) == payload.field(key)),
{
}

/// The reply to a chat request that got no answer.
pub open spec fn unsent_reply(e: SendErrorView) -> ApiReplyView {
    match e {
        SendErrorView::NotLoggedIn => reply::error_of(
            401,
            "not logged in — open the WebUI and sign in with a Xiaomi account"@,
            "invalid_api_key"@,
        ),
        SendErrorView::Upstream(m) => reply::error_of(
            502,
            "upstream fetch failed: "@ + m,
            "api_error"@,
        ),
    }
}

pub fn chat_unsent(e: &SendError) -> (r: ApiReply)
    ensures
        r@ == unsent_reply(e@),
{
    match e {
        SendError::NotLoggedIn => error_response(
            401,
            "not logged in — open the WebUI and sign in with a Xiaomi account",
            "invalid_api_key",
        ),
        SendError::Upstream(m) => error_response(
            502,
            text::cat2("upstream fetch failed: ", m.as_str()).as_str(),
            "api_error",
        ),
    }
}

/// Whether an answer is passed on as it is: any to a request for a stream, else a success.
pub open spec fn passes_on(status: u16, stream: bool) -> bool {
    stream || exchange::succeeded(status)
}

/// The reply to a chat request that the upstream refused, and what is noted of it.
pub open spec fn refused_chat(status: u16, text: Seq<char>, ts: i64, elapsed: u64) -> SettledView {
    let status = reply::relayed_status(status);
    SettledView {
        reply: reply::error_of(status, reply::upstream_message(status, text, 400), "api_error"@),
        row: Some(
            reply::failure_row(ts, CHAT_ROUTE@, Some(status), text::first_chars_of(text, 200), elapsed),
        ),
        note: Some(UsageNote::Request { prompt_tokens: 0, completion_tokens: 0, error: true }),
    }
}

pub fn chat_refused_at(status: u16, text: &str, ts: i64, elapsed: u64) -> (r: Settled)
    ensures
        r@ == refused_chat(status, text@, ts, elapsed),
{
    let status = reply::relay_status(status);
    let message = reply::make_upstream_message(status, text, 400);
    let shown = text::first_chars(text, 200);
    Settled {
        reply: error_response(status, message.as_str(), "api_error"),
        row: Some(reply::make_failure_row(ts, CHAT_ROUTE, Some(status), shown.as_str(), elapsed)),
        note: Some(UsageNote::Request { prompt_tokens: 0, completion_tokens: 0, error: true }),
    }
}

pub fn chat_refused(status: u16, text: &str, elapsed: u64) -> (r: Settled)
    ensures
        exists|ts: i64| r@ == #[trigger] refused_chat(status, text@, ts, elapsed),
{
    let ts = outside::now_millis();
    chat_refused_at(status, text, ts, elapsed)
}

/// The start of the reply that passes an answer on, and what is noted of it. Tokens are counted
/// as the body passes.
pub open spec fn passed_chat(
    status: u16,
    content_type: Option<Seq<char>>,
    stream: bool,
    ts: i64,
    elapsed: u64,
) -> StreamStartView {
    let status = reply::relayed_status(status);
    let kind = (
        "content-type"@,
        match content_type {
            Some(t) => t,
            None => "application/json"@,
        },
    );
    StreamStartView {
        status,
        headers: if stream {
            seq![kind, ("x-accel-buffering"@, "no"@)]
        } else {
            seq![kind]
        },
        row: Some(reply::response_row(ts, CHAT_ROUTE@, status, elapsed)),
        note: Some(UsageNote::Request { prompt_tokens: 0, completion_tokens: 0, error: false }),
    }
}

/// What is done with the upstream's answer to a chat request.
pub open spec fn chat_turn(
    status: u16,
    content_type: Option<Seq<char>>,
    stream: bool,
    ts: i64,
    elapsed: u64,
) -> AnswerTurnView {
    if passes_on(status, stream) {
        AnswerTurnView::Stream(passed_chat(status, content_type, stream, ts, elapsed))
    } else {
        AnswerTurnView::Refuse
    }
}

pub fn chat_answered_at(
    status: u16,
    content_type: Option<&str>,
    stream: bool,
    ts: i64,
    elapsed: u64,
) -> (r: AnswerTurn)
    ensures
        r@ == chat_turn(status, text::opt_str_view(content_type), stream, ts, elapsed),
{
    if !stream && !exchange::is_success(status) {
        return AnswerTurn::Refuse;
    }
    let status = reply::relay_status(status);
    let kind = match content_type {
        Some(t) => t,
        None => "application/json",
    };
    let mut headers = Pairs::new();
    headers.add("content-type", kind);
    assert(headers@ =~= seq![("content-type"@, kind@)]);
    if stream {
        headers.add("x-accel-buffering", "no");
        assert(headers@ =~= seq![("content-type"@, kind@), ("x-accel-buffering"@, "no"@)]);
    }
    AnswerTurn::Stream(
        StreamStart {
            status,
            headers,
            row: Some(reply::make_response_row(ts, CHAT_ROUTE, status, elapsed)),
            note: Some(
                UsageNote::Request { prompt_tokens: 0, completion_tokens: 0, error: false },
            ),
        },
    )
}

/// What is done with the upstream's answer to a chat request.
pub fn chat_answered(status: u16, content_type: Option<&str>, stream: bool, elapsed: u64) -> (r:
    AnswerTurn)
    ensures
        exists|ts: i64|
            r@ == #[trigger] chat_turn(
                status,
                text::opt_str_view(content_type),
                stream,
                ts,
                elapsed,
            ),
{
    let ts = outside::now_millis();
    chat_answered_at(status, content_type, stream, ts, elapsed)
}

/// A chat request is sent on as the client wrote it, asks for a stream just if the client did, and
/// is counted for the model that the client named. Only a JSON object is one: anything else is
/// refused with the status 400.
pub proof fn chat_requests_are_passed_on(
    payload: JsonView,
    e: Seq<char>,
    model: Seq<char>,
    n: int,
)
    ensures
        chat_call(Err(e)) matches Err(reply) && reply.status == 400,
        !(payload is Object) ==> (chat_call(Ok(payload)) matches Err(reply) && reply.status == 400),
        payload is Object ==> (chat_call(Ok(payload)) matches Ok(call) && {
            &&& json::has(payload, "stream"@, JsonView::Bool(true)) ==> call.stream
            &&& json::has(payload, "stream"@, JsonView::Bool(false)) || json::lacks(
                payload,
                "stream"@,
            ) ==> !call.stream
            &&& json::has(payload, "model"@, JsonView::Text(model)) ==> call.model == model
            &&& json::lacks(payload, "model"@) ==> call.model == "unknown"@
            &&& json::lacks(payload, "n"@) || (json::counts(payload, "n"@, n) && n <= 1)
                ==> call.payload == payload
            &&& json::counts(payload, "n"@, n) && 1 < n <= i64::MAX ==> json::counts(
                call.payload,
                "n"@,
                1,
            )
        }),
{
}

/// The upstream's answer to a chat request reaches the client with its status and its kind of
/// content, and counts as one request. Where it is an error and no stream was asked for, the
/// client is told of it with its status and how its text begins, and it counts as a failure.
pub proof fn answers_reach_the_client(
    status: u16,
    kind: Seq<char>,
    stream: bool,
    text: Seq<char>,
    ts: i64,
    elapsed: u64,
)
    requires
        100 <= status <= 999,
    ensures
        stream || 200 <= status < 300 ==> (chat_turn(status, Some(kind), stream, ts, elapsed)
            matches AnswerTurnView::Stream(start) && start.status == status
            && start.headers.contains(("content-type"@, kind)) && start.note == Some(
            UsageNote::Request { prompt_tokens: 0, completion_tokens: 0, error: false },
        ) && (start.row matches Some(row) && json::counts(row, "status"@, status as int)
            && json::counts(row, "elapsed_ms"@, elapsed as int))),
        stream ==> (chat_turn(status, Some(kind), stream, ts, elapsed) matches AnswerTurnView::Stream(
            start,
        ) && start.headers.contains(("x-accel-buffering"@, "no"@))),
        stream || 200 <= status < 300 ==> (chat_turn(status, None, stream, ts, elapsed)
            matches AnswerTurnView::Stream(start) && start.headers.contains(
            ("content-type"@, "application/json"@),
        )),
        refused_chat(status, text, ts, elapsed).row matches Some(row) && json::counts(
            row,
            "status"@,
            status as int,
        ) && json::counts(row, "elapsed_ms"@, elapsed as int) && (text.len() <= 200 ==> json::has(
            row,
            "message"@,
            JsonView::Text(text),
        )),
        !stream && (status < 200 || status >= 300) ==> chat_turn(
            status,
            Some(kind),
            stream,
            ts,
            elapsed,
        ) is Refuse,
        refused_chat(status, text, ts, elapsed).reply.status == status,
        refused_chat(status, text, ts, elapsed).reply.set_cookie is None,
        refused_chat(status, text, ts, elapsed).note == Some(
            UsageNote::Request { prompt_tokens: 0, completion_tokens: 0, error: true },
        ),
        text.len() <= 400 ==> (refused_chat(status, text, ts, elapsed).reply.body
            matches JsonView::Object(m) && m.contains_key("error"@) && json::has(
            m["error"@],
            "message"@,
            JsonView::Text("upstream "@ + text::nat_text(status as nat) + ": "@ + text),
        )),
{
    if stream || 200 <= status < 300 {
        let headers = passed_chat(status, Some(kind), stream, ts, elapsed).headers;
        assert(headers[0] == ("content-type"@, kind));
        if stream {
            assert(headers[1] == ("x-accel-buffering"@, "no"@));
        }
        let plain = passed_chat(status, None, stream, ts, elapsed).headers;
        assert(plain[0] == ("content-type"@, "application/json"@));
    }
    reply::rows_say_what_happened(ts, CHAT_ROUTE@, ""@, stream, status, text::first_chars_of(text, 200), elapsed);
    assert(text.take(text.len() as int) =~= text);
    reveal_strlit("message");
    reveal_strlit("type");
    reveal_strlit("code");
    assert("message"@.len() == 7 && "type"@.len() == 4 && "code"@.len() == 4);
}

// ── a body that passes ──────────────────────────────────────────────
/// What the pass of a body is: whether it passes as it is, the bytes of an unfinished line, the
/// tokens seen, and whether they were noted.
#[verifier::ext_equal]
pub struct RelayView {
    pub whole: bool,
    pub buf: Seq<u8>,
    pub prompt: u64,
    pub completion: u64,
    pub noted: bool,
}

/// A piece of the body that is passed on, and what is counted with it.
#[verifier::ext_equal]
pub struct RelayOutView {
    pub bytes: Seq<u8>,
    pub note: Option<UsageNote>,
}

/// The tokens to be counted, if there are any.
pub open spec fn tokens_note(prompt: u64, completion: u64) -> Option<UsageNote> {
    if prompt > 0 || completion > 0 {
        Some(UsageNote::Tokens { prompt_tokens: prompt, completion_tokens: completion })
    } else {
        None
    }
}

/// The number at the member `key`, or else the one known before.
pub open spec fn count_at(v: JsonView, key: Seq<char>, known: u64) -> u64 {
    match v.unsigned_at(key) {
        Some(n) => n,
        None => known,
    }
}

/// The prompt tokens known after a value that may report usage.
pub open spec fn prompt_seen(v: JsonView, known: u64) -> u64 {
    match v.field("usage"@) {
        Some(u) => count_at(u, "prompt_tokens"@, known),
        None => known,
    }
}

/// The completion tokens known after a value that may report usage.
pub open spec fn completion_seen(v: JsonView, known: u64) -> u64 {
    match v.field("usage"@) {
        Some(u) => count_at(u, "completion_tokens"@, known),
        None => known,
    }
}

/// The data of an event line, if it is one.
pub open spec fn event_data(line: Seq<char>) -> Option<Seq<char>> {
    match text::after_prefix(text::trim_of(line), "data:"@) {
        Some(rest) => Some(text::trim_of(rest)),
        None => None,
    }
}

/// What is passed on for a line of an event stream: an event's data with the empty line that ends
/// the event, any other line as it is, and nothing for an empty line.
pub open spec fn line_text(line: Seq<char>) -> Option<Seq<char>> {
    match event_data(line) {
        Some(data) => Some("data: "@ + data + "\n\n"@),
        None => if text::trim_of(line).len() == 0 {
            None
        } else {
            Some(text::trim_of(line) + "\n"@)
        },
    }
}

/// Whether a line is the mark that ends an event stream.
pub open spec fn ends_stream(line: Seq<char>) -> bool {
    event_data(line) == Some("[DONE]"@)
}

/// The prompt tokens known after a line.
pub open spec fn line_prompt(line: Seq<char>, known: u64) -> u64 {
    match event_data(line) {
        Some(data) if data != "[DONE]"@ => match json::parsed_json(data) {
            Ok(v) => prompt_seen(v, known),
            Err(_) => known,
        },
        _ => known,
    }
}

/// The completion tokens known after a line.
pub open spec fn line_completion(line: Seq<char>, known: u64) -> u64 {
    match event_data(line) {
        Some(data) if data != "[DONE]"@ => match json::parsed_json(data) {
            Ok(v) => completion_seen(v, known),
            Err(_) => known,
        },
        _ => known,
    }
}

impl RelayView {
    /// The pass after more bytes came in.
    pub open spec fn fed(self, bytes: Seq<u8>) -> RelayView {
        RelayView { buf: self.buf + bytes, ..self }
    }

    /// Its first line.
    pub open spec fn line(self) -> Seq<char> {
        text::without_cr(outside::lossy_text(self.buf.take(upstream::line_end(self.buf))))
    }

    /// The pass once a line was read for the tokens that it states.
    pub open spec fn seen(self, line: Seq<char>) -> RelayView {
        RelayView {
            prompt: line_prompt(line, self.prompt),
            completion: line_completion(line, self.completion),
            ..self
        }
    }

    /// The tokens seen, unless they were noted before.
    pub open spec fn totals(self) -> Option<UsageNote> {
        if self.noted {
            None
        } else {
            tokens_note(self.prompt, self.completion)
        }
    }

    /// What is counted with its first line.
    pub open spec fn first_note(self) -> Option<UsageNote> {
        if ends_stream(self.line()) {
            self.totals()
        } else {
            None
        }
    }

    /// The pass after its first line.
    pub open spec fn after_line(self) -> RelayView {
        RelayView {
            buf: self.buf.skip(upstream::line_end(self.buf) + 1),
            noted: self.noted || self.first_note() is Some,
            ..self.seen(self.line())
        }
    }

    /// What is passed on for its first line.
    pub open spec fn first_out(self) -> Option<RelayOutView> {
        if self.whole {
            Some(
                RelayOutView {
                    bytes: self.buf.take(upstream::line_end(self.buf) + 1),
                    note: self.first_note(),
                },
            )
        } else {
            match line_text(self.line()) {
                Some(t) => Some(RelayOutView { bytes: encode_utf8(t), note: self.first_note() }),
                None => None,
            }
        }
    }

    /// The pass once an unfinished last line was read for the tokens that it states.
    pub open spec fn at_rest(self) -> RelayView {
        if self.buf.len() == 0 {
            self
        } else {
            self.seen(text::without_cr(outside::lossy_text(self.buf)))
        }
    }

    /// What is passed on when the body has ended: the unfinished last line as it is, with the
    /// tokens seen unless they were noted before.
    pub open spec fn end_out(self) -> RelayOutView {
        RelayOutView { bytes: self.buf, note: self.at_rest().totals() }
    }

    /// The pass after that.
    pub open spec fn ended(self) -> RelayView {
        RelayView {
            buf: Seq::empty(),
            noted: self.noted || self.end_out().note is Some,
            ..self.at_rest()
        }
    }

    /// The next piece that can be passed on, if a complete line gives one.
    pub open spec fn next_out(self) -> Option<RelayOutView>
        decreases self.buf.len(),
    {
        if 0 <= upstream::line_end(self.buf) < self.buf.len() {
            match self.first_out() {
                Some(out) => Some(out),
                None => self.after_line().next_out(),
            }
        } else {
            None
        }
    }

    /// The pass after that piece, or after all complete lines.
    pub open spec fn after_next(self) -> RelayView
        decreases self.buf.len(),
    {
        if 0 <= upstream::line_end(self.buf) < self.buf.len() {
            match self.first_out() {
                Some(_) => self.after_line(),
                None => self.after_line().after_next(),
            }
        } else {
            self
        }
    }

    /// All pieces that can be passed on.
    pub open spec fn outs(self) -> Seq<RelayOutView>
        decreases self.buf.len(),
    {
        if 0 <= upstream::line_end(self.buf) < self.buf.len() {
            (match self.first_out() {
                Some(out) => seq![out],
                None => Seq::empty(),
            }) + self.after_line().outs()
        } else {
            Seq::empty()
        }
    }

    /// The pass after all of them.
    pub open spec fn drained(self) -> RelayView
        decreases self.buf.len(),
    {
        if 0 <= upstream::line_end(self.buf) < self.buf.len() {
            self.after_line().drained()
        } else {
            self
        }
    }
}

/// Asking for the next piece again and again gives all pieces, in order.
pub proof fn pieces_come_in_order(relay: RelayView)
    ensures
        match relay.next_out() {
            Some(out) => relay.outs() == seq![out] + relay.after_next().outs()
                && relay.after_next().drained() == relay.drained(),
            None => relay.outs() == Seq::<RelayOutView>::empty() && relay.after_next()
                == relay.drained(),
        },
        relay.next_out() is Some ==> relay.after_next().buf.len() < relay.buf.len(),
    decreases relay.buf.len(),
{
    upstream::lemma_line_end(relay.buf);
    if upstream::line_end(relay.buf) < relay.buf.len() {
        if relay.first_out() is None {
            pieces_come_in_order(relay.after_line());
            assert(Seq::<RelayOutView>::empty() + relay.after_line().outs()
                =~= relay.after_line().outs());
        }
    }
}

/// How a body is cut into chunks does not matter: what is passed on for two chunks together is
/// what is passed on for the first, and then for the second.
pub proof fn chunks_pass_alike(relay: RelayView, a: Seq<u8>, b: Seq<u8>)
    ensures
        relay.fed(a + b).outs() == relay.fed(a).outs() + relay.fed(a).drained().fed(b).outs(),
        relay.fed(a + b).drained() == relay.fed(a).drained().fed(b).drained(),
{
    assert(relay.fed(a + b) == relay.fed(a).fed(b)) by {
        assert(relay.buf + (a + b) =~= relay.buf + a + b);
    }
    lemma_chunk(relay.fed(a), b);
}

proof fn lemma_chunk(relay: RelayView, b: Seq<u8>)
    ensures
        relay.fed(b).outs() == relay.outs() + relay.drained().fed(b).outs(),
        relay.fed(b).drained() == relay.drained().fed(b).drained(),
    decreases relay.buf.len(),
{
    let a = relay.buf;
    upstream::lemma_line_end(a);
    let at = upstream::line_end(a);
    if at < a.len() {
        upstream::lemma_line_end_is(a + b, at);
        assert((a + b).take(at) =~= a.take(at));
        assert((a + b).take(at + 1) =~= a.take(at + 1));
        assert((a + b).skip(at + 1) =~= a.skip(at + 1) + b);
        assert(relay.fed(b).after_line() == relay.after_line().fed(b));
        lemma_chunk(relay.after_line(), b);
        let first = match relay.first_out() {
            Some(out) => seq![out],
            None => Seq::empty(),
        };
        assert(first + (relay.after_line().outs() + relay.drained().fed(b).outs()) =~= (first
            + relay.after_line().outs()) + relay.drained().fed(b).outs());
    } else {
        assert(Seq::<RelayOutView>::empty() + relay.fed(b).outs() =~= relay.fed(b).outs());
    }
}

/// The bytes of pieces, one after the other.
pub open spec fn passed_bytes(outs: Seq<RelayOutView>) -> Seq<u8>
    decreases outs.len(),
{
    if outs.len() == 0 {
        Seq::empty()
    } else {
        outs[0].bytes + passed_bytes(outs.skip(1))
    }
}

/// The bytes that are passed on for the lines of an event stream.
pub open spec fn stream_bytes(lines: Seq<Seq<char>>) -> Seq<u8>
    decreases lines.len(),
{
    if lines.len() == 0 {
        Seq::empty()
    } else {
        (match line_text(lines[0]) {
            Some(t) => encode_utf8(t),
            None => Seq::empty(),
        }) + stream_bytes(lines.skip(1))
    }
}

/// All that is taken in comes out. A body that passes as it is comes out byte for byte. Of an event
/// stream every complete line comes out, and what follows the last of them comes out as it is.
pub proof fn all_that_comes_in_goes_out(relay: RelayView)
    ensures
        relay.drained().end_out().bytes == upstream::unfinished(relay.buf),
        relay.whole ==> passed_bytes(relay.outs()) + relay.drained().end_out().bytes == relay.buf,
        !relay.whole ==> passed_bytes(relay.outs()) == stream_bytes(
            upstream::complete_lines(relay.buf),
        ),
        relay.drained().whole == relay.whole,
    decreases relay.buf.len(),
{
    upstream::lemma_line_end(relay.buf);
    let at = upstream::line_end(relay.buf);
    if at < relay.buf.len() {
        let next = relay.after_line();
        all_that_comes_in_goes_out(next);
        let lines = upstream::complete_lines(relay.buf);
        assert(lines[0] == relay.line());
        assert(lines.skip(1) =~= upstream::complete_lines(next.buf));
        match relay.first_out() {
            Some(out) => {
                let outs = relay.outs();
                assert(outs[0] == out);
                assert(outs.skip(1) =~= next.outs());
                if relay.whole {
                    assert(out.bytes + next.buf =~= relay.buf);
                    assert(out.bytes + passed_bytes(next.outs()) + next.drained().buf =~= out.bytes + (
                    passed_bytes(next.outs()) + next.drained().buf));
                }
            },
            None => {
                assert(relay.outs() =~= next.outs());
                assert(Seq::<u8>::empty() + stream_bytes(lines.skip(1)) =~= stream_bytes(
                    lines.skip(1),
                ));
            },
        }
    } else {
        assert(Seq::<u8>::empty() + relay.buf =~= relay.buf);
    }
}

/// How many of the pieces have something counted with them.
pub open spec fn notes_in(outs: Seq<RelayOutView>) -> nat
    decreases outs.len(),
{
    if outs.len() == 0 {
        0
    } else {
        (if outs[0].note is Some {
            1nat
        } else {
            0
        }) + notes_in(outs.skip(1))
    }
}

/// The tokens that a body states are noted once: at the mark that ends its events or, where none
/// came, at its end.
pub proof fn tokens_are_noted_once(relay: RelayView)
    ensures
        relay.noted ==> notes_in(relay.outs()) == 0 && relay.drained().end_out().note is None,
        !relay.noted ==> notes_in(relay.outs()) <= 1,
        notes_in(relay.outs()) == 1 ==> relay.drained().end_out().note is None,
        !relay.noted && notes_in(relay.outs()) == 0 ==> relay.drained().end_out().note == tokens_note(
            relay.drained().at_rest().prompt,
            relay.drained().at_rest().completion,
        ),
        relay.drained().noted == (relay.noted || notes_in(relay.outs()) == 1),
    decreases relay.buf.len(),
{
    upstream::lemma_line_end(relay.buf);
    if upstream::line_end(relay.buf) < relay.buf.len() {
        let next = relay.after_line();
        tokens_are_noted_once(next);
        match relay.first_out() {
            Some(out) => {
                assert(relay.outs()[0] == out);
                assert(relay.outs().skip(1) =~= next.outs());
            },
            None => {
                assert(relay.outs() =~= next.outs());
            },
        }
    }
}

/// An event stream passes unchanged: a data line comes out as it went in, with the empty line
/// that ends its event, and any other line comes out as it went in.
pub proof fn lines_pass_unchanged(text: Seq<char>)
    requires
        text.len() > 0,
        text::is_trimmed(text),
    ensures
        line_text("data: "@ + text) == Some("data: "@ + text + "\n\n"@),
        !text::begins_with(text, "data:"@) ==> line_text(text) == Some(text + "\n"@),
        line_text(Seq::empty()) is None,
{
    reveal_strlit("data: ");
    reveal_strlit("data:");
    reveal_strlit(" ");
    let line = "data: "@ + text;
    text::lemma_trim(line);
    text::lemma_trim(text);
    text::lemma_trim(Seq::<char>::empty());
    let rest = line.skip("data:"@.len() as int);
    assert(line.take("data:"@.len() as int) =~= "data:"@);
    assert(text::after_prefix(line, "data:"@) == Some(rest));
    assert(rest =~= seq![' '] + text);
    assert(rest.skip(1) =~= text);
    assert(text::trim_start_of(text) == text);
    assert(text::trim_of(rest) == text);
}

/// The tokens that a stream states are the tokens that are noted: a data line whose JSON reports
/// usage sets both numbers, one without leaves them, and what is noted at the end mark, or at the
/// end, is what was stated last.
pub proof fn stated_tokens_are_noted(
    relay: RelayView,
    data: Seq<char>,
    body: JsonView,
    usage: JsonView,
    p: u64,
    c: u64,
)
    requires
        data.len() > 0,
        text::is_trimmed(data),
        data != "[DONE]"@,
        json::parsed_json(data) == json::read_as(body),
    ensures
        json::has(body, "usage"@, usage) && json::counts(usage, "prompt_tokens"@, p as int)
            && json::counts(usage, "completion_tokens"@, c as int) ==> relay.seen(
            "data: "@ + data,
        ).prompt == p && relay.seen("data: "@ + data).completion == c,
        json::lacks(body, "usage"@) ==> relay.seen("data: "@ + data) == relay,
        relay.seen("data: [DONE]"@) == relay,
        !relay.noted && (relay.prompt > 0 || relay.completion > 0) ==> relay.totals() == Some(
            UsageNote::Tokens {
                prompt_tokens: relay.prompt,
                completion_tokens: relay.completion,
            },
        ),
        relay.prompt == 0 && relay.completion == 0 ==> relay.totals() is None,
        ends_stream("data: [DONE]"@),
        !ends_stream("data: "@ + data),
{
    reveal_strlit("data: ");
    reveal_strlit("data:");
    reveal_strlit("[DONE]");
    reveal_strlit("data: [DONE]");
    lemma_data_line(data);
    lemma_data_line("[DONE]"@);
    assert("data: "@ + "[DONE]"@ =~= "data: [DONE]"@);
}

pub proof fn lemma_data_line(data: Seq<char>)
    requires
        data.len() > 0,
        text::is_trimmed(data),
    ensures
        event_data("data: "@ + data) == Some(data),
{
    reveal_strlit("data: ");
    reveal_strlit("data:");
    let line = "data: "@ + data;
    text::lemma_trim(line);
    text::lemma_trim(data);
    let rest = line.skip("data:"@.len() as int);
    assert(line.take("data:"@.len() as int) =~= "data:"@);
    assert(text::after_prefix(line, "data:"@) == Some(rest));
    assert(rest =~= seq![' '] + data);
    assert(rest.skip(1) =~= data);
    assert(text::trim_start_of(data) == data);
    assert(text::trim_of(rest) == data);
}

/// The pass of a body.
#[derive(Debug)]
pub struct ChatRelay {
    /// Whether the body passes as it is, and not as an event stream.
    pub whole: bool,
    pub buf: Vec<u8>,
    pub prompt: u64,
    pub completion: u64,
    /// Whether the tokens were noted.
    pub noted: bool,
}

impl View for ChatRelay {
    type V = RelayView;

    open spec fn view(&self) -> RelayView {
        RelayView {
            whole: self.whole,
            buf: self.buf@,
            prompt: self.prompt,
            completion: self.completion,
            noted: self.noted,
        }
    }
}

/// A piece of the body that is passed on, and what is counted with it.
#[derive(Debug)]
pub struct RelayOut {
    pub bytes: Vec<u8>,
    pub note: Option<UsageNote>,
}

impl View for RelayOut {
    type V = RelayOutView;

    open spec fn view(&self) -> RelayOutView {
        RelayOutView { bytes: self.bytes@, note: self.note }
    }
}

/// The tokens to be counted, if there are any.
fn make_tokens_note(prompt: u64, completion: u64) -> (r: Option<UsageNote>)
    ensures
        r == tokens_note(prompt, completion),
{
    if prompt > 0 || completion > 0 {
        Some(UsageNote::Tokens { prompt_tokens: prompt, completion_tokens: completion })
    } else {
        None
    }
}

/// The token counts known after a value that may report usage.
pub fn tokens_seen(v: &Json, prompt: u64, completion: u64) -> (r: (u64, u64))
    ensures
        r.0 == prompt_seen(v@, prompt),
        r.1 == completion_seen(v@, completion),
{
    match v.get("usage") {
        Some(u) => {
            let p = match u.u64_at("prompt_tokens") {
                Some(n) => n,
                None => prompt,
            };
            let c = match u.u64_at("completion_tokens") {
                Some(n) => n,
                None => completion,
            };
            (p, c)
        },
        None => (prompt, completion),
    }
}

/// The data of an event line, if it is one.
pub fn data_of(line: &str) -> (r: Option<String>)
    ensures
        text::opt_view(r) == event_data(line@),
{
    let line = text::trim(line);
    match text::strip(line.as_str(), "data:") {
        Some(rest) => Some(text::trim(rest.as_str())),
        None => None,
    }
}

/// What is passed on for a line of an event stream.
fn relayed_line(line: &str) -> (r: Option<String>)
    ensures
        text::opt_view(r) == line_text(line@),
{
    match data_of(line) {
        Some(data) => Some(text::cat3("data: ", data.as_str(), "\n\n")),
        None => {
            let line = text::trim(line);
            if text::chars_of(line.as_str()).len() > 0 {
                Some(text::cat2(line.as_str(), "\n"))
            } else {
                None
            }
        },
    }
}

/// Takes the first complete line off a buffer: its bytes with the line feed, and its text.
fn take_raw_line(buf: &mut Vec<u8>) -> (r: Option<(Vec<u8>, String)>)
    ensures
        match upstream::first_line(old(buf)@) {
            Some(p) => r matches Some(l) && l.0@ == old(buf)@.take(
                upstream::line_end(old(buf)@) + 1,
            ) && l.1@ == p.0 && final(buf)@ == p.1,
            None => r is None && final(buf)@ == old(buf)@,
        },
{
    let ghost all = buf@;
    let at = upstream::line_length(buf);
    proof {
        upstream::lemma_line_end(all);
    }
    if at == buf.len() {
        return None;
    }
    let rest = buf.split_off(at + 1);
    assert(rest@ =~= all.skip(at + 1));
    assert(buf@ =~= all.take(at + 1));
    let mut raw: Vec<u8> = Vec::new();
    raw.extend_from_slice(buf.as_slice());
    assert(raw@ =~= all.take(at + 1));
    proof {
        upstream::lemma_line_end_is(buf@, at as int);
        assert(buf@.take(at as int) =~= all.take(at as int));
    }
    match upstream::take_sse_line(buf) {
        Some(line) => {
            *buf = rest;
            Some((raw, line))
        },
        None => None,
    }
}

impl ChatRelay {
    /// The start of a body: of an event stream, or of one that passes as it is.
    pub fn new(stream: bool) -> (r: ChatRelay)
        ensures
            r@ == (RelayView {
                whole: !stream,
                buf: Seq::empty(),
                prompt: 0,
                completion: 0,
                noted: false,
            }),
    {
        ChatRelay { whole: !stream, buf: Vec::new(), prompt: 0, completion: 0, noted: false }
    }

    /// Takes more bytes in.
    pub fn feed(&mut self, bytes: &[u8])
        ensures
            final(self)@ == old(self)@.fed(bytes@),
    {
        self.buf.extend_from_slice(bytes);
    }

    /// Reads a line for the tokens that it states.
    fn see(&mut self, line: &str)
        ensures
            final(self)@ == old(self)@.seen(line@),
    {
        if let Some(data) = data_of(line) {
            if !text::same(data.as_str(), "[DONE]") {
                if let Ok(v) = Json::parse(data.as_str()) {
                    let (p, c) = tokens_seen(&v, self.prompt, self.completion);
                    self.prompt = p;
                    self.completion = c;
                }
            }
        }
    }

    /// The tokens seen, unless they were noted before. They are noted then.
    fn note_totals(&mut self) -> (r: Option<UsageNote>)
        ensures
            r == old(self)@.totals(),
            final(self)@ == (RelayView { noted: old(self)@.noted || r is Some, ..old(self)@ }),
    {
        if self.noted {
            return None;
        }
        let note = make_tokens_note(self.prompt, self.completion);
        self.noted = note.is_some();
        note
    }

    /// Takes the next piece out that can be passed on, if a complete line gives one.
    pub fn next(&mut self) -> (r: Option<RelayOut>)
        ensures
            match old(self)@.next_out() {
                Some(out) => r matches Some(o) && o@ == out,
                None => r is None,
            },
            final(self)@ == old(self)@.after_next(),
    {
        let ghost start = self@;
        loop
            invariant
                start == old(self)@,
                start.next_out() == self@.next_out(),
                start.after_next() == self@.after_next(),
            decreases self.buf@.len(),
        {
            let ghost here = self@;
            proof {
                upstream::lemma_line_end(self.buf@);
            }
            let (raw, line) = match take_raw_line(&mut self.buf) {
                Some(l) => l,
                None => return None,
            };
            let last = match data_of(line.as_str()) {
                Some(data) => text::same(data.as_str(), "[DONE]"),
                None => false,
            };
            let note = if last {
                self.note_totals()
            } else {
                None
            };
            self.see(line.as_str());
            assert(self@ == here.after_line());
            if self.whole {
                return Some(RelayOut { bytes: raw, note });
            }
            if let Some(text) = relayed_line(line.as_str()) {
                let mut bytes: Vec<u8> = Vec::new();
                bytes.extend_from_slice(text.as_str().as_bytes());
                assert(bytes@ =~= encode_utf8(text@));
                return Some(RelayOut { bytes, note });
            }
        }
    }

    /// Takes out what is left when the body has ended, with what is counted then.
    pub fn end(&mut self) -> (r: RelayOut)
        ensures
            r@ == old(self)@.end_out(),
            final(self)@ == old(self)@.ended(),
    {
        let ghost start = self@;
        let mut bytes: Vec<u8> = Vec::new();
        if self.buf.len() > 0 {
            let line = text::drop_cr(outside::decode_lossy(self.buf.as_slice()));
            self.see(line.as_str());
            bytes.append(&mut self.buf);
        }
        assert(bytes@ =~= start.buf);
        assert(self.buf@ =~= Seq::<u8>::empty());
        let note = self.note_totals();
        RelayOut { bytes, note }
    }

    /// What is counted when the body breaks off.
    pub fn fail(&self) -> (r: UsageNote)
        ensures
            r == (UsageNote::Request {
                prompt_tokens: self@.prompt,
                completion_tokens: self@.completion,
                error: true,
            }),
    {
        UsageNote::Request {
            prompt_tokens: self.prompt,
            completion_tokens: self.completion,
            error: true,
        }
    }
}

// ── the status of the account ───────────────────────────────────────
/// Whether a session has something that its account can be asked with.
pub open spec fn can_probe(session: Option<SessionView>) -> bool {
    match session {
        Some(s) => s.pass_token is Some || s.service_token is Some,
        None => false,
    }
}

pub fn probes(session: &Option<Session>) -> (r: bool)
    ensures
        r == can_probe(upstream::opt_session(*session)),
{
    match session {
        Some(s) => s.pass_token.is_some() || s.service_token.is_some(),
        None => false,
    }
}

/// Whether there is a session that can be used.
pub open spec fn logged_in(session: Option<SessionView>) -> bool {
    session matches Some(s) && s.service_token is Some
}

/// Whether there is a session with a pass token.
pub open spec fn has_pass_token(session: Option<SessionView>) -> bool {
    session matches Some(s) && s.pass_token is Some
}

/// The user of a session.
pub open spec fn user_of(session: Option<SessionView>) -> JsonView {
    match session {
        Some(s) => json::text_or_null_view(s.user_id),
        None => JsonView::Null,
    }
}

/// The nickname of a session.
pub open spec fn nick_of(session: Option<SessionView>) -> JsonView {
    match session {
        Some(s) => json::text_or_null_view(s.nick),
        None => JsonView::Null,
    }
}

pub fn is_logged_in(session: &Option<Session>) -> (r: bool)
    ensures
        r == logged_in(upstream::opt_session(*session)),
{
    match session {
        Some(s) => s.is_authenticated(),
        None => false,
    }
}

pub fn holds_pass_token(session: &Option<Session>) -> (r: bool)
    ensures
        r == has_pass_token(upstream::opt_session(*session)),
{
    match session {
        Some(s) => s.pass_token.is_some(),
        None => false,
    }
}

pub fn user_json(session: &Option<Session>) -> (r: Json)
    ensures
        r@ == user_of(upstream::opt_session(*session)),
{
    match session {
        Some(s) => Json::text_or_null(&s.user_id),
        None => Json::Null,
    }
}

pub fn nick_json(session: &Option<Session>) -> (r: Json)
    ensures
        r@ == nick_of(upstream::opt_session(*session)),
{
    match session {
        Some(s) => Json::text_or_null(&s.nick),
        None => Json::Null,
    }
}

/// What asking for the profile told: the status, whether it shows an account, and how its text
/// begins.
pub open spec fn probe_view(probe: Option<Result<(u16, bool, String), BridgeError>>) -> Option<
    Option<(u16, bool, Seq<char>)>,
> {
    match probe {
        None => None,
        Some(Err(_)) => Some(None),
        Some(Ok(p)) => Some(Some((p.0, p.1, p.2@))),
    }
}

/// The body that tells of the account: the session, and the profile if it was asked for.
pub open spec fn proxy_status_body(
    session: Option<SessionView>,
    probe: Option<Option<(u16, bool, Seq<char>)>>,
) -> JsonView {
    JsonView::Object(
        map![
            "loggedIn"@ => JsonView::Bool(logged_in(session)),
            "userId"@ => user_of(session),
            "nick"@ => nick_of(session),
            "hasPassToken"@ => JsonView::Bool(has_pass_token(session)),
            "hasServiceToken"@ => JsonView::Bool(logged_in(session)),
            "apiBase"@ => JsonView::Text(API_BASE@),
            "sid"@ => JsonView::Text(SID@),
            "meStatus"@ => match probe {
                Some(Some(p)) => json::integer(p.0 as int),
                _ => JsonView::Null,
            },
            "meLoggedIn"@ => JsonView::Bool(
                match probe {
                    Some(Some(p)) => p.1,
                    Some(None) => logged_in(session),
                    None => false,
                },
            ),
            "mePreview"@ => match probe {
                Some(Some(p)) => JsonView::Text(p.2),
                _ => JsonView::Null,
            },
        ],
    )
}

/// GET /api/proxy/status: what is known of the account. The profile is asked for where `probes`
/// says so.
pub fn proxy_status(
    session: &Option<Session>,
    probe: Option<Result<(u16, bool, String), BridgeError>>,
) -> (r: ApiReply)
    ensures
        r@ == reply::ok_of(proxy_status_body(upstream::opt_session(*session), probe_view(probe))),
{
    let logged_in = is_logged_in(session);
    let (me_status, me_logged_in, preview) = match probe {
        Some(Ok(p)) => (Json::unsigned(p.0 as u64), p.1, Json::Text(p.2)),
        Some(Err(_)) => (Json::Null, logged_in, Json::Null),
        None => (Json::Null, false, Json::Null),
    };
    let mut body = JsonObject::new();
    body.put("loggedIn", Json::Bool(logged_in));
    body.put("userId", user_json(session));
    body.put("nick", nick_json(session));
    body.put("hasPassToken", Json::Bool(holds_pass_token(session)));
    body.put("hasServiceToken", Json::Bool(logged_in));
    body.put("apiBase", Json::text(API_BASE));
    body.put("sid", Json::text(SID));
    body.put("meStatus", me_status);
    body.put("meLoggedIn", Json::Bool(me_logged_in));
    body.put("mePreview", preview);
    reply::ok_reply(Json::Object(body))
}

/// A chat request that got no answer is answered with the reason: who is not logged in is told so,
/// and so is who cannot be served because the upstream was not reached.
pub proof fn unsent_chats_are_told(m: Seq<char>)
    ensures
        unsent_reply(SendErrorView::NotLoggedIn).status == 401,
        unsent_reply(SendErrorView::Upstream(m)).status == 502,
        unsent_reply(SendErrorView::Upstream(m)).body matches JsonView::Object(o) && json::has(
            o["error"@],
            "message"@,
            JsonView::Text("upstream fetch failed: "@ + m),
        ),
{
    reply::errors_say_what_they_are(502, "upstream fetch failed: "@ + m, "api_error"@);
}

/// The account is asked about just where there is a token to ask with, and what it says is told: the
/// status and whether it knows the user. Where nothing came of asking, what the session says is.
pub proof fn account_is_told(
    session: SessionView,
    status: u16,
    known: bool,
    shown: Seq<char>,
)
    ensures
        can_probe(Some(session)) <==> session.pass_token is Some || session.service_token is Some,
        !can_probe(None),
        json::counts(
            proxy_status_body(Some(session), Some(Some((status, known, shown)))),
            "meStatus"@,
            status as int,
        ),
        json::has(
            proxy_status_body(Some(session), Some(Some((status, known, shown)))),
            "meLoggedIn"@,
            JsonView::Bool(known),
        ),
        json::has(
            proxy_status_body(Some(session), Some(Some((status, known, shown)))),
            "mePreview"@,
            JsonView::Text(shown),
        ),
        json::has(
            proxy_status_body(Some(session), Some(None)),
            "meLoggedIn"@,
            JsonView::Bool(session.service_token is Some),
        ),
        json::has(proxy_status_body(None, None), "meLoggedIn"@, JsonView::Bool(false)),
        json::has(proxy_status_body(None, None), "loggedIn"@, JsonView::Bool(false)),
        forall|s: Option<SessionView>, probe: Option<Option<(u16, bool, Seq<char>)>>|
            !(probe matches Some(Some(_))) ==> json::has(
                #[trigger] proxy_status_body(s, probe),
                "meStatus"@,
                JsonView::Null,
            ) && json::has(proxy_status_body(s, probe), "mePreview"@, JsonView::Null),
        forall|probe: Option<Option<(u16, bool, Seq<char>)>>|
            json::has(
                #[trigger] proxy_status_body(Some(session), probe),
                "hasServiceToken"@,
                JsonView::Bool(session.service_token is Some),
            ) && (session.user_id == Some(shown) ==> json::has(
                proxy_status_body(Some(session), probe),
                "userId"@,
                JsonView::Text(shown),
            )) && (session.nick == Some(shown) ==> json::has(
                proxy_status_body(Some(session), probe),
                "nick"@,
                JsonView::Text(shown),
            )),
        forall|probe: Option<Option<(u16, bool, Seq<char>)>>|
            json::has(
                #[trigger] proxy_status_body(Some(session), probe),
                "loggedIn"@,
                JsonView::Bool(session.service_token is Some),
            ) && json::has(
                proxy_status_body(Some(session), probe),
                "hasPassToken"@,
                JsonView::Bool(session.pass_token is Some),
            ),
{
    reveal_strlit("loggedIn");
    reveal_strlit("userId");
    reveal_strlit("nick");
    reveal_strlit("hasPassToken");
    reveal_strlit("hasServiceToken");
    reveal_strlit("apiBase");
    reveal_strlit("sid");
    reveal_strlit("meStatus");
    reveal_strlit("meLoggedIn");
    reveal_strlit("mePreview");
    assert("loggedIn"@.len() == 8 && "userId"@.len() == 6 && "nick"@.len() == 4
        && "hasPassToken"@.len() == 12 && "hasServiceToken"@.len() == 15 && "apiBase"@.len() == 7
        && "sid"@.len() == 3 && "meStatus"@.len() == 8 && "meLoggedIn"@.len() == 10
        && "mePreview"@.len() == 9);
    assert("loggedIn"@[0] == 'l' && "meStatus"@[0] == 'm');
}

/// A last line that was never finished counts too: the usage that it states is noted when the body
/// ends, unless tokens were noted before.
pub proof fn unfinished_lines_count(
    relay: RelayView,
    data: Seq<char>,
    body: JsonView,
    usage: JsonView,
    p: u64,
    c: u64,
)
    requires
        data.len() > 0,
        text::is_trimmed(data),
        data != "[DONE]"@,
        json::parsed_json(data) == json::read_as(body),
        json::has(body, "usage"@, usage),
        json::counts(usage, "prompt_tokens"@, p as int),
        json::counts(usage, "completion_tokens"@, c as int),
        relay.buf.len() > 0,
        outside::lossy_text(relay.buf) == "data: "@ + data,
    ensures
        !relay.noted && (p > 0 || c > 0) ==> relay.end_out().note == Some(
            UsageNote::Tokens { prompt_tokens: p, completion_tokens: c },
        ),
        relay.noted ==> relay.end_out().note is None,
        relay.end_out().bytes == relay.buf,
{
    stated_tokens_are_noted(relay, data, body, usage, p, c);
    let line = "data: "@ + data;
    assert(line.last() == data.last());
    assert(text::without_cr(line) == line);
}

} // verus!
