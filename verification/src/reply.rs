//! What clients are answered, and what the log and the counters note of it.

use crate::exchange::Pairs;
use crate::json::{Json, JsonObject, JsonView};
use crate::usage::UsageNote;
use crate::json;
use crate::text;
use vstd::prelude::*;

verus! {

// ── replies ─────────────────────────────────────────────────────────
/// A JSON reply.
#[derive(Debug)]
pub struct ApiReply {
    pub status: u16,
    pub set_cookie: Option<String>,
    pub body: Json,
}

/// What a JSON reply is.
#[verifier::ext_equal]
pub struct ApiReplyView {
    pub status: u16,
    pub set_cookie: Option<Seq<char>>,
    pub body: JsonView,
}

impl View for ApiReply {
    type V = ApiReplyView;

    open spec fn view(&self) -> ApiReplyView {
        ApiReplyView { status: self.status, set_cookie: text::opt_view(self.set_cookie), body: self.body@ }
    }
}

/// A reply of some status without a cookie.
pub open spec fn reply_of(status: u16, body: JsonView) -> ApiReplyView {
    ApiReplyView { status, set_cookie: None, body }
}

/// A reply that all went well.
pub open spec fn ok_of(body: JsonView) -> ApiReplyView {
    reply_of(200, body)
}

pub fn ok_reply(body: Json) -> (r: ApiReply)
    ensures
        r@ == ok_of(body@),
{
    ApiReply { status: 200, set_cookie: None, body }
}

/// The body that tells of an error.
pub open spec fn error_body(message: Seq<char>, code: Seq<char>) -> JsonView {
    JsonView::Object(
        map![
            "error"@ => JsonView::Object(map![
                "message"@ => JsonView::Text(message),
                "type"@ => JsonView::Text("invalid_request_error"@),
                "code"@ => JsonView::Text(code),
            ]),
        ],
    )
}

/// The reply that tells of an error.
pub open spec fn error_of(status: u16, message: Seq<char>, code: Seq<char>) -> ApiReplyView {
    reply_of(status, error_body(message, code))
}

/// The reply that tells of an error.
pub fn error_reply(status: u16, message: &str, code: &str) -> (r: ApiReply)
    ensures
        r@ == error_of(status, message@, code@),
{
    let mut error = JsonObject::new();
    error.put("message", Json::text(message));
    error.put("type", Json::text("invalid_request_error"));
    error.put("code", Json::text(code));
    let mut body = JsonObject::new();
    body.put("error", Json::Object(error));
    ApiReply { status, set_cookie: None, body: Json::Object(body) }
}

/// The status that a client is sent for one of the upstream: the same, where it is one.
pub open spec fn relayed_status(status: u16) -> u16 {
    if 100 <= status <= 999 {
        status
    } else {
        502
    }
}

pub fn relay_status(status: u16) -> (r: u16)
    ensures
        r == relayed_status(status),
{
    if 100 <= status && status <= 999 {
        status
    } else {
        502
    }
}

/// What an error reply says of a refusal by the upstream: its status and how its text begins.
pub open spec fn upstream_message(status: u16, text: Seq<char>, n: nat) -> Seq<char> {
    "upstream "@ + text::nat_text(status as nat) + ": "@ + text::first_chars_of(text, n)
}

pub fn make_upstream_message(status: u16, text: &str, n: usize) -> (r: String)
    ensures
        r@ == upstream_message(status, text@, n as nat),
{
    text::cat4("upstream ", text::u64_text(status as u64).as_str(), ": ", text::first_chars(text, n).as_str())
}

// ── log rows ────────────────────────────────────────────────────────
/// The row for a request that came in.
pub open spec fn request_row(ts: i64, path: Seq<char>, model: Seq<char>, stream: bool) -> JsonView {
    JsonView::Object(
        map![
            "ts"@ => json::integer(ts as int),
            "kind"@ => JsonView::Text("request"@),
            "path"@ => JsonView::Text(path),
            "model"@ => JsonView::Text(model),
            "stream"@ => JsonView::Bool(stream),
        ],
    )
}

pub fn make_request_row(ts: i64, path: &str, model: &str, stream: bool) -> (r: Json)
    ensures
        r@ == request_row(ts, path@, model@, stream),
{
    let mut row = JsonObject::new();
    row.put("ts", Json::signed(ts));
    row.put("kind", Json::text("request"));
    row.put("path", Json::text(path));
    row.put("model", Json::text(model));
    row.put("stream", Json::Bool(stream));
    Json::Object(row)
}

/// The row for an answer of the upstream.
pub open spec fn response_row(ts: i64, path: Seq<char>, status: u16, elapsed: u64) -> JsonView {
    JsonView::Object(
        map![
            "ts"@ => json::integer(ts as int),
            "kind"@ => JsonView::Text("response"@),
            "path"@ => JsonView::Text(path),
            "status"@ => json::integer(status as int),
            "elapsed_ms"@ => json::integer(elapsed as int),
        ],
    )
}

pub fn make_response_row(ts: i64, path: &str, status: u16, elapsed: u64) -> (r: Json)
    ensures
        r@ == response_row(ts, path@, status, elapsed),
{
    let mut row = JsonObject::new();
    row.put("ts", Json::signed(ts));
    row.put("kind", Json::text("response"));
    row.put("path", Json::text(path));
    row.put("status", Json::unsigned(status as u64));
    row.put("elapsed_ms", Json::unsigned(elapsed));
    Json::Object(row)
}

/// The row for a failure, with the status of the upstream where it answered.
pub open spec fn failure_row(
    ts: i64,
    path: Seq<char>,
    status: Option<u16>,
    message: Seq<char>,
    elapsed: u64,
) -> JsonView {
    let row = map![
        "ts"@ => json::integer(ts as int),
        "kind"@ => JsonView::Text("error"@),
        "path"@ => JsonView::Text(path),
        "message"@ => JsonView::Text(message),
        "elapsed_ms"@ => json::integer(elapsed as int),
    ];
    JsonView::Object(
        match status {
            Some(s) => row.insert("status"@, json::integer(s as int)),
            None => row,
        },
    )
}

pub fn make_failure_row(ts: i64, path: &str, status: Option<u16>, message: &str, elapsed: u64) -> (r:
    Json)
    ensures
        r@ == failure_row(ts, path@, status, message@, elapsed),
{
    let mut row = JsonObject::new();
    row.put("ts", Json::signed(ts));
    row.put("kind", Json::text("error"));
    row.put("path", Json::text(path));
    row.put("message", Json::text(message));
    row.put("elapsed_ms", Json::unsigned(elapsed));
    if let Some(s) = status {
        row.put("status", Json::unsigned(s as u64));
    }
    Json::Object(row)
}

// ── what is noted ───────────────────────────────────────────────────
/// A reply, with what the log and the counters note of it.
#[derive(Debug)]
pub struct Settled {
    pub reply: ApiReply,
    pub row: Option<Json>,
    pub note: Option<UsageNote>,
}

/// What a reply is, with what the log and the counters note of it.
#[verifier::ext_equal]
pub struct SettledView {
    pub reply: ApiReplyView,
    pub row: Option<JsonView>,
    pub note: Option<UsageNote>,
}

/// What an optional value is.
pub open spec fn opt_json(j: Option<Json>) -> Option<JsonView> {
    match j {
        Some(v) => Some(v@),
        None => None,
    }
}

impl View for Settled {
    type V = SettledView;

    open spec fn view(&self) -> SettledView {
        SettledView { reply: self.reply@, row: opt_json(self.row), note: self.note }
    }
}

/// A reply of which nothing is noted.
pub open spec fn unnoted(reply: ApiReplyView) -> SettledView {
    SettledView { reply, row: None, note: None }
}

/// The start of a streamed reply, with what the log and the counters note of it.
#[derive(Debug)]
pub struct StreamStart {
    pub status: u16,
    pub headers: Pairs,
    pub row: Option<Json>,
    pub note: Option<UsageNote>,
}

/// What the start of a streamed reply is.
#[verifier::ext_equal]
pub struct StreamStartView {
    pub status: u16,
    pub headers: Seq<(Seq<char>, Seq<char>)>,
    pub row: Option<JsonView>,
    pub note: Option<UsageNote>,
}

impl View for StreamStart {
    type V = StreamStartView;

    open spec fn view(&self) -> StreamStartView {
        StreamStartView {
            status: self.status,
            headers: self.headers@,
            row: opt_json(self.row),
            note: self.note,
        }
    }
}

/// What is done with the upstream's answer.
#[derive(Debug)]
pub enum AnswerTurn {
    /// It is a refusal: its text is read, and the client told of it.
    Refuse,
    /// Its body is passed on as it comes.
    Stream(StreamStart),
    /// Its body is read whole before the client is answered.
    Whole,
}

/// What is done with the upstream's answer.
pub enum AnswerTurnView {
    Refuse,
    Stream(StreamStartView),
    Whole,
}

impl View for AnswerTurn {
    type V = AnswerTurnView;

    open spec fn view(&self) -> AnswerTurnView {
        match *self {
            AnswerTurn::Refuse => AnswerTurnView::Refuse,
            AnswerTurn::Stream(start) => AnswerTurnView::Stream(start@),
            AnswerTurn::Whole => AnswerTurnView::Whole,
        }
    }
}

/// What a client is told of an error: its status, its message and its code, and no cookie.
pub proof fn errors_say_what_they_are(status: u16, message: Seq<char>, code: Seq<char>)
    ensures
        error_of(status, message, code).status == status,
        error_of(status, message, code).set_cookie is None,
        error_of(status, message, code).body matches JsonView::Object(m) && m.contains_key("error"@)
            && json::has(m["error"@], "message"@, JsonView::Text(message)) && json::has(
            m["error"@],
            "code"@,
            JsonView::Text(code),
        ),
        100 <= status <= 999 ==> relayed_status(status) == status,
        ok_of(JsonView::Null).status == 200,
{
    reveal_strlit("message");
    reveal_strlit("type");
    reveal_strlit("code");
    assert("message"@.len() == 7 && "type"@.len() == 4 && "code"@.len() == 4);
    assert("type"@[0] == 't' && "code"@[0] == 'c');
}

/// A row of the log says when something happened, where, and what it was: what was asked for, what
/// the upstream answered and how long it took, or what went wrong. A failure has a status just if
/// the upstream answered.
pub proof fn rows_say_what_happened(
    ts: i64,
    path: Seq<char>,
    model: Seq<char>,
    stream: bool,
    status: u16,
    message: Seq<char>,
    elapsed: u64,
)
    ensures
        forall|row: JsonView|
            row == request_row(ts, path, model, stream) || row == response_row(
                ts,
                path,
                status,
                elapsed,
            ) || row == failure_row(ts, path, Some(status), message, elapsed) || row == failure_row(
                ts,
                path,
                None,
                message,
                elapsed,
            ) ==> #[trigger] json::counts(row, "ts"@, ts as int) && json::has(
                row,
                "path"@,
                JsonView::Text(path),
            ),
        json::has(request_row(ts, path, model, stream), "kind"@, JsonView::Text("request"@)),
        json::has(request_row(ts, path, model, stream), "model"@, JsonView::Text(model)),
        json::has(request_row(ts, path, model, stream), "stream"@, JsonView::Bool(stream)),
        json::has(response_row(ts, path, status, elapsed), "kind"@, JsonView::Text("response"@)),
        json::counts(response_row(ts, path, status, elapsed), "status"@, status as int),
        json::counts(response_row(ts, path, status, elapsed), "elapsed_ms"@, elapsed as int),
        forall|s: Option<u16>|
            json::has(
                #[trigger] failure_row(ts, path, s, message, elapsed),
                "kind"@,
                JsonView::Text("error"@),
            ) && json::has(
                failure_row(ts, path, s, message, elapsed),
                "message"@,
                JsonView::Text(message),
            ) && json::counts(
                failure_row(ts, path, s, message, elapsed),
                "elapsed_ms"@,
                elapsed as int,
            ),
        json::counts(failure_row(ts, path, Some(status), message, elapsed), "status"@, status as int),
        json::lacks(failure_row(ts, path, None, message, elapsed), "status"@),
{
    reveal_strlit("ts");
    reveal_strlit("kind");
    reveal_strlit("path");
    reveal_strlit("model");
    reveal_strlit("stream");
    reveal_strlit("status");
    reveal_strlit("message");
    reveal_strlit("elapsed_ms");
    assert("ts"@.len() == 2 && "kind"@.len() == 4 && "path"@.len() == 4 && "model"@.len() == 5
        && "stream"@.len() == 6 && "status"@.len() == 6 && "message"@.len() == 7
        && "elapsed_ms"@.len() == 10);
    assert("kind"@[0] == 'k' && "path"@[0] == 'p' && "stream"@[2] == 'r' && "status"@[2] == 'a');
}

/// What a client is told of a refusal names the status and shows how the upstream's text begins, the
/// whole text where it is short.
pub proof fn refusals_are_shown(status: u16, text: Seq<char>, n: nat)
    ensures
        text.len() <= n ==> upstream_message(status, text, n) == "upstream "@ + text::nat_text(
            status as nat,
        ) + ": "@ + text,
        text.len() > n ==> exists|start: Seq<char>|
            start.len() == n && #[trigger] text::begins_with(text, start) && upstream_message(
                status,
                text,
                n,
            ) == "upstream "@ + text::nat_text(status as nat) + ": "@ + start,
{
    if text.len() <= n {
        assert(text.take(text.len() as int) =~= text);
    } else {
        assert(text::begins_with(text, text.take(n as int)));
    }
}

} // verus!
