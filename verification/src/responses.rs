//! OpenAI Responses API — chat-completions compat for the MiMo free channel.

use crate::exchange::Pairs;
use crate::json::{Json, JsonObject, JsonView};
use crate::reply::{
    AnswerTurn, AnswerTurnView, ApiReply, ApiReplyView, Settled, SettledView, StreamStart,
    StreamStartView,
};
use crate::upstream::{SendError, SendErrorView};
use crate::usage::UsageNote;
use crate::json;
use crate::outside;
use crate::proxy;
use crate::reply;
use crate::text;
use crate::exchange;
use vstd::prelude::*;

verus! {

// ── messages ────────────────────────────────────────────────────────
/// A chat message.
pub open spec fn message_of(role: Seq<char>, content: Seq<char>) -> JsonView {
    JsonView::Object(map!["role"@ => JsonView::Text(role), "content"@ => JsonView::Text(content)])
}

/// A chat message.
pub fn make_message(role: &str, content: &str) -> (r: Json)
    ensures
        r@ == message_of(role@, content@),
{
    let mut m = JsonObject::new();
    m.put("role", Json::text(role));
    m.put("content", Json::text(content));
    Json::Object(m)
}

/// The texts of those parts that have one.
pub open spec fn part_texts(parts: Seq<JsonView>) -> Seq<Seq<char>>
    decreases parts.len(),
{
    if parts.len() == 0 {
        Seq::empty()
    } else {
        let before = part_texts(parts.drop_last());
        match parts.last().text_at("text"@) {
            Some(t) => before.push(t),
            None => before,
        }
    }
}

/// The texts of those parts that have one, each on lines of its own.
pub fn join_part_texts(parts: &Vec<Json>) -> (r: String)
    ensures
        r@ == text::joined(part_texts(json::trees_of(parts@)), "\n"@),
{
    let ghost all = json::trees_of(parts@);
    let mut texts: Vec<String> = Vec::new();
    let mut i: usize = 0;
    assert(all.take(0) =~= Seq::<JsonView>::empty());
    assert(text::views(texts@) =~= Seq::<Seq<char>>::empty());
    while i < parts.len()
        invariant
            i <= parts@.len(),
            all == json::trees_of(parts@),
            text::views(texts@) == part_texts(all.take(i as int)),
        decreases parts@.len() - i,
    {
        let ghost before = texts@;
        assert(all.take(i + 1).drop_last() =~= all.take(i as int));
        assert(all.take(i + 1).last() == parts@[i as int]@);
        if let Some(t) = parts[i].str_at("text") {
            texts.push(t.to_string());
            assert(text::views(texts@) =~= text::views(before).push(t@));
        }
        i += 1;
    }
    assert(all.take(i as int) =~= all);
    text::join(&texts, "\n")
}

/// The text of a message's content: a string, or the texts of its parts.
pub open spec fn content_text(content: Option<JsonView>) -> Seq<char> {
    match content {
        Some(JsonView::Text(s)) => s,
        Some(JsonView::List(parts)) => text::joined(part_texts(parts), "\n"@),
        _ => Seq::empty(),
    }
}

/// The chat message that an input item stands for, if it does for one.
pub open spec fn item_message(item: JsonView) -> Option<JsonView> {
    match item {
        JsonView::Text(text) => Some(message_of("user"@, text)),
        JsonView::Object(_) => {
            let kind = item.text_at("type"@);
            if kind == Some("input_text"@) {
                match item.text_at("text"@) {
                    Some(text) => Some(message_of("user"@, text)),
                    None => None,
                }
            } else if kind == Some("message"@) || item.field("role"@) is Some {
                Some(
                    message_of(
                        match item.text_at("role"@) {
                            Some(role) => role,
                            None => "user"@,
                        },
                        content_text(item.field("content"@)),
                    ),
                )
            } else {
                None
            }
        },
        _ => None,
    }
}

/// The chat messages that input items stand for.
pub open spec fn item_messages(items: Seq<JsonView>) -> Seq<JsonView>
    decreases items.len(),
{
    if items.len() == 0 {
        Seq::empty()
    } else {
        let before = item_messages(items.drop_last());
        match item_message(items.last()) {
            Some(m) => before.push(m),
            None => before,
        }
    }
}

/// The chat messages that an input stands for.
pub open spec fn input_messages(input: Option<JsonView>) -> Seq<JsonView> {
    match input {
        Some(JsonView::Text(s)) => seq![message_of("user"@, s)],
        Some(JsonView::List(items)) => item_messages(items),
        _ => Seq::empty(),
    }
}

/// Whether an optional text is a given one.
pub fn is_text(text: Option<&str>, other: &str) -> (r: bool)
    ensures
        r == (text::opt_str_view(text) == Some(other@)),
{
    match text {
        Some(t) => text::same(t, other),
        None => false,
    }
}

/// The chat message that an input item stands for, if it does for one.
pub fn message_from_input_item(item: &Json) -> (r: Option<Json>)
    ensures
        reply::opt_json(r) == item_message(item@),
{
    if let Some(text) = item.as_str() {
        return Some(make_message("user", text));
    }
    if !item.is_object() {
        return None;
    }
    let kind = item.str_at("type");
    if is_text(kind, "input_text") {
        return match item.str_at("text") {
            Some(text) => Some(make_message("user", text)),
            None => None,
        };
    }
    if is_text(kind, "message") || item.get("role").is_some() {
        let role = match item.str_at("role") {
            Some(role) => role,
            None => "user",
        };
        let content = match item.get("content") {
            Some(Json::Text(s)) => s.clone(),
            Some(Json::List(parts)) => join_part_texts(parts),
            _ => String::new(),
        };
        return Some(make_message(role, content.as_str()));
    }
    None
}

/// The chat messages that an input stands for.
pub fn messages_from_input(input: Option<&Json>) -> (r: Vec<Json>)
    ensures
        json::trees_of(r@) == input_messages(json::opt_tree(input)),
{
    let mut out: Vec<Json> = Vec::new();
    assert(json::trees_of(out@) =~= Seq::<JsonView>::empty());
    match input {
        Some(Json::Text(s)) => {
            out.push(make_message("user", s.as_str()));
            assert(json::trees_of(out@) =~= seq![message_of("user"@, s@)]);
        },
        Some(Json::List(items)) => {
            let ghost all = json::trees_of(items@);
            let mut i: usize = 0;
            assert(all.take(0) =~= Seq::<JsonView>::empty());
            while i < items.len()
                invariant
                    i <= items@.len(),
                    all == json::trees_of(items@),
                    json::trees_of(out@) == item_messages(all.take(i as int)),
                decreases items@.len() - i,
            {
                let ghost before = out@;
                assert(all.take(i + 1).drop_last() =~= all.take(i as int));
                assert(all.take(i + 1).last() == items@[i as int]@);
                if let Some(m) = message_from_input_item(&items[i]) {
                    out.push(m);
                    assert(json::trees_of(out@) =~= json::trees_of(before).push(m@));
                }
                i += 1;
            }
            assert(all.take(i as int) =~= all);
        },
        _ => {},
    }
    out
}

// ── the request ─────────────────────────────────────────────────────
/// Members with one more, if there is a value for it.
pub open spec fn with_field(
    m: Map<Seq<char>, JsonView>,
    key: Seq<char>,
    value: Option<JsonView>,
) -> Map<Seq<char>, JsonView> {
    match value {
        Some(v) => m.insert(key, v),
        None => m,
    }
}

/// Adds a member, if there is a value for it.
pub fn put_copy(m: &mut JsonObject, key: &str, value: Option<&Json>)
    ensures
        final(m)@ == with_field(old(m)@, key@, json::opt_tree(value)),
{
    if let Some(v) = value {
        m.put(key, v.copy());
    }
}

/// The option that asks a stream for its usage.
pub open spec fn usage_option() -> JsonView {
    JsonView::Object(map!["include_usage"@ => JsonView::Bool(true)])
}

pub fn make_usage_option() -> (r: Json)
    ensures
        r@ == usage_option(),
{
    let mut o = JsonObject::new();
    o.put("include_usage", Json::Bool(true));
    Json::Object(o)
}

/// The system message that instructions stand for, if they do for one.
pub open spec fn instructions_text(instructions: Option<JsonView>) -> Option<Seq<char>> {
    match instructions {
        Some(JsonView::Text(s)) => Some(s),
        Some(other) => other.text_at("text"@),
        None => None,
    }
}

/// The chat messages of a Responses request; never none.
pub open spec fn request_messages(body: JsonView) -> Seq<JsonView> {
    let system = match instructions_text(body.field("instructions"@)) {
        Some(text) => seq![message_of("system"@, text)],
        None => Seq::empty(),
    };
    let all = system + input_messages(body.field("input"@));
    if all.len() == 0 {
        seq![message_of("user"@, ""@)]
    } else {
        all
    }
}

/// The chat-completions body of a Responses request.
pub open spec fn chat_body(body: JsonView, stream: bool) -> JsonView {
    let start = map![
        "model"@ => match body.field("model"@) {
            Some(m) => m,
            None => JsonView::Text("mimo-flash"@),
        },
        "stream"@ => JsonView::Bool(stream),
    ];
    let start = if stream {
        start.insert("stream_options"@, usage_option())
    } else {
        start
    };
    let a = with_field(start, "temperature"@, body.field("temperature"@));
    let b = with_field(a, "top_p"@, body.field("top_p"@));
    let c = with_field(b, "max_tokens"@, body.field("max_output_tokens"@));
    let d = with_field(c, "tool_choice"@, body.field("tool_choice"@));
    let e = with_field(d, "tools"@, body.field("tools"@));
    JsonView::Object(e.insert("messages"@, JsonView::List(request_messages(body))))
}

/// Every request that is sent on holds a message, and asks for a stream just if it is to.
pub proof fn requests_hold_a_message(body: JsonView, stream: bool)
    ensures
        chat_body(body, stream).list_at("messages"@) matches Some(messages) && messages.len() > 0,
        chat_body(body, stream).truth_at("stream"@) == Some(stream),
{
    reveal_strlit("model");
    reveal_strlit("stream");
    reveal_strlit("stream_options");
    reveal_strlit("temperature");
    reveal_strlit("top_p");
    reveal_strlit("max_tokens");
    reveal_strlit("tool_choice");
    reveal_strlit("tools");
    reveal_strlit("messages");
    assert("stream"@.len() == 6);
    assert("model"@.len() == 5 && "stream_options"@.len() == 14 && "temperature"@.len() == 11);
    assert("top_p"@.len() == 5 && "max_tokens"@.len() == 10 && "tool_choice"@.len() == 11);
    assert("tools"@.len() == 5 && "messages"@.len() == 8);
}

/// What a client sets in a Responses request reaches the upstream: model, temperature, nucleus,
/// tools and the limit of tokens, each under the name that the chat endpoint has for it. What the
/// client does not set is not made up, but for a model. A stream is asked to report its usage.
pub proof fn settings_reach_the_upstream(body: JsonView, stream: bool, v: JsonView)
    ensures
        json::has(body, "model"@, v) ==> json::has(chat_body(body, stream), "model"@, v),
        json::lacks(body, "model"@) ==> json::has(
            chat_body(body, stream),
            "model"@,
            JsonView::Text("mimo-flash"@),
        ),
        json::has(body, "temperature"@, v) ==> json::has(chat_body(body, stream), "temperature"@, v),
        json::lacks(body, "temperature"@) ==> json::lacks(chat_body(body, stream), "temperature"@),
        json::has(body, "top_p"@, v) ==> json::has(chat_body(body, stream), "top_p"@, v),
        json::lacks(body, "top_p"@) ==> json::lacks(chat_body(body, stream), "top_p"@),
        json::has(body, "max_output_tokens"@, v) ==> json::has(
            chat_body(body, stream),
            "max_tokens"@,
            v,
        ),
        json::lacks(body, "max_output_tokens"@) ==> json::lacks(
            chat_body(body, stream),
            "max_tokens"@,
        ),
        json::has(body, "tool_choice"@, v) ==> json::has(chat_body(body, stream), "tool_choice"@, v),
        json::lacks(body, "tool_choice"@) ==> json::lacks(chat_body(body, stream), "tool_choice"@),
        json::has(body, "tools"@, v) ==> json::has(chat_body(body, stream), "tools"@, v),
        json::lacks(body, "tools"@) ==> json::lacks(chat_body(body, stream), "tools"@),
        json::has(chat_body(body, stream), "stream"@, JsonView::Bool(stream)),
        stream ==> (chat_body(body, stream) matches JsonView::Object(m) && m.contains_key(
            "stream_options"@,
        ) && json::has(m["stream_options"@], "include_usage"@, JsonView::Bool(true))),
        !stream ==> json::lacks(chat_body(body, stream), "stream_options"@),
{
    reveal_strlit("model");
    reveal_strlit("stream");
    reveal_strlit("stream_options");
    reveal_strlit("temperature");
    reveal_strlit("top_p");
    reveal_strlit("max_tokens");
    reveal_strlit("tool_choice");
    reveal_strlit("tools");
    reveal_strlit("messages");
    assert("stream"@.len() == 6);
    assert("model"@.len() == 5 && "stream_options"@.len() == 14 && "temperature"@.len() == 11);
    assert("top_p"@.len() == 5 && "max_tokens"@.len() == 10 && "tool_choice"@.len() == 11);
    assert("tools"@.len() == 5 && "messages"@.len() == 8);
    assert("model"@[0] == 'm' && "top_p"@[2] == 'p' && "tools"@[2] == 'o' && "tools"@[0] == 't'
        && "top_p"@[0] == 't');
    assert("temperature"@[1] == 'e' && "tool_choice"@[1] == 'o');
}

/// Whether a value is a chat message of a role with a text.
pub open spec fn is_message(v: JsonView, role: Seq<char>, content: Seq<char>) -> bool {
    json::has(v, "role"@, JsonView::Text(role)) && json::has(v, "content"@, JsonView::Text(content))
}

proof fn lemma_message(role: Seq<char>, content: Seq<char>)
    ensures
        is_message(message_of(role, content), role, content),
{
    reveal_strlit("role");
    reveal_strlit("content");
    assert("role"@.len() != "content"@.len());
}

proof fn lemma_items_concat(a: Seq<JsonView>, b: Seq<JsonView>)
    ensures
        item_messages(a + b) == item_messages(a) + item_messages(b),
    decreases b.len(),
{
    if b.len() == 0 {
        assert(a + b =~= a);
        assert(item_messages(a) + Seq::<JsonView>::empty() =~= item_messages(a));
    } else {
        assert((a + b).drop_last() =~= a + b.drop_last());
        assert((a + b).last() == b.last());
        lemma_items_concat(a, b.drop_last());
        assert(item_messages(a + b) =~= item_messages(a) + item_messages(b));
    }
}

/// The input of a Responses request reaches the upstream as chat messages. A text is one message of
/// the user. The items of a list keep their order: messages of a list are those of its first part,
/// then those of the rest; a text or an input text is a message of the user, and a message keeps
/// its role and its text. Instructions come first, as a message of the system.
pub proof fn input_reaches_the_upstream(
    a: Seq<JsonView>,
    b: Seq<JsonView>,
    item: JsonView,
    role: Seq<char>,
    said: Seq<char>,
    body: JsonView,
    instructions: Seq<char>,
)
    ensures
        item_messages(a + b) == item_messages(a) + item_messages(b),
        item_messages(seq![JsonView::Text(said)]).len() == 1 && is_message(
            item_messages(seq![JsonView::Text(said)])[0],
            "user"@,
            said,
        ),
        json::has(item, "type"@, JsonView::Text("input_text"@)) && json::has(
            item,
            "text"@,
            JsonView::Text(said),
        ) ==> item_messages(seq![item]).len() == 1 && is_message(
            item_messages(seq![item])[0],
            "user"@,
            said,
        ),
        (json::lacks(item, "type"@) || json::has(item, "type"@, JsonView::Text("message"@)))
            && json::has(item, "role"@, JsonView::Text(role)) && json::has(
            item,
            "content"@,
            JsonView::Text(said),
        ) ==> item_messages(seq![item]).len() == 1 && is_message(
            item_messages(seq![item])[0],
            role,
            said,
        ),
        json::has(item, "type"@, JsonView::Text("message"@)) && json::lacks(item, "role"@)
            && json::has(item, "content"@, JsonView::Text(said)) ==> item_messages(seq![item]).len()
            == 1 && is_message(item_messages(seq![item])[0], "user"@, said),
        json::lacks(item, "type"@) && json::lacks(item, "role"@) ==> item_messages(seq![item]).len()
            == 0,
        json::has(body, "input"@, JsonView::Text(said)) && json::lacks(body, "instructions"@)
            ==> request_messages(body).len() == 1 && is_message(
            request_messages(body)[0],
            "user"@,
            said,
        ),
        json::has(body, "input"@, JsonView::List(a)) && json::lacks(body, "instructions"@)
            && item_messages(a).len() > 0 ==> request_messages(body) == item_messages(a),
        json::has(body, "input"@, JsonView::List(a)) && json::has(
            body,
            "instructions"@,
            JsonView::Text(instructions),
        ) ==> request_messages(body).len() == 1 + item_messages(a).len() && is_message(
            request_messages(body)[0],
            "system"@,
            instructions,
        ) && request_messages(body).skip(1) == item_messages(a),
        json::has(body, "input"@, JsonView::Text(said)) && json::has(
            body,
            "instructions"@,
            JsonView::Text(instructions),
        ) ==> request_messages(body).len() == 2 && is_message(
            request_messages(body)[0],
            "system"@,
            instructions,
        ) && is_message(request_messages(body)[1], "user"@, said),
        forall|stream: bool|
            json::has(
                #[trigger] chat_body(body, stream),
                "messages"@,
                JsonView::List(request_messages(body)),
            ),
{
    reveal_strlit("input_text");
    reveal_strlit("message");
    assert("input_text"@.len() != "message"@.len());
    reveal_with_fuel(item_messages, 2);
    lemma_items_concat(a, b);
    lemma_message("user"@, said);
    lemma_message(role, said);
    lemma_message("system"@, instructions);
    let one = seq![item];
    assert(one.drop_last() =~= Seq::<JsonView>::empty());
    assert(one.last() == item);
    let text = seq![JsonView::Text(said)];
    assert(text.drop_last() =~= Seq::<JsonView>::empty());
    assert(text.last() == JsonView::Text(said));
    let system = seq![message_of("system"@, instructions)];
    assert((system + item_messages(a)).skip(1) =~= item_messages(a));
    assert(Seq::<JsonView>::empty() + item_messages(a) =~= item_messages(a));
}

proof fn lemma_parts_concat(a: Seq<JsonView>, b: Seq<JsonView>)
    ensures
        part_texts(a + b) == part_texts(a) + part_texts(b),
    decreases b.len(),
{
    if b.len() == 0 {
        assert(a + b =~= a);
        assert(part_texts(a) + Seq::<Seq<char>>::empty() =~= part_texts(a));
    } else {
        assert((a + b).drop_last() =~= a + b.drop_last());
        assert((a + b).last() == b.last());
        lemma_parts_concat(a, b.drop_last());
        assert(part_texts(a + b) =~= part_texts(a) + part_texts(b));
    }
}

/// The content of a message that is made of parts is the text of its parts, in order and each on
/// lines of its own; a part without text says nothing.
pub proof fn parts_are_read_in_order(
    a: Seq<JsonView>,
    b: Seq<JsonView>,
    part: JsonView,
    other: JsonView,
    s: Seq<char>,
    t: Seq<char>,
)
    ensures
        part_texts(a + b) == part_texts(a) + part_texts(b),
        json::has(part, "text"@, JsonView::Text(s)) ==> part_texts(seq![part]) == seq![s],
        json::lacks(part, "text"@) ==> part_texts(seq![part]) == Seq::<Seq<char>>::empty(),
        json::has(part, "text"@, JsonView::Text(s)) && json::has(other, "text"@, JsonView::Text(t))
            ==> content_text(Some(JsonView::List(seq![part, other]))) == s + "\n"@ + t,
        content_text(Some(JsonView::Text(s))) == s,
{
    lemma_parts_concat(a, b);
    reveal_with_fuel(part_texts, 2);
    reveal_with_fuel(text::joined, 3);
    let one = seq![part];
    assert(one.drop_last() =~= Seq::<JsonView>::empty());
    assert(one.last() == part);
    assert(Seq::<Seq<char>>::empty().push(s) =~= seq![s]);
    assert(Seq::<Seq<char>>::empty().push(t) =~= seq![t]);
    let second = seq![other];
    assert(second.drop_last() =~= Seq::<JsonView>::empty());
    assert(second.last() == other);
    assert(seq![part, other] =~= one + second);
    lemma_parts_concat(one, second);
    assert(seq![s] + seq![t] =~= seq![s, t]);
    assert(seq![s, t].drop_last() =~= seq![s]);
    assert(seq![s, t].last() == t);
}

/// Responses request body → OpenAI chat.completions body.
pub fn responses_to_chat_body(body: &Json, stream: bool) -> (r: Json)
    ensures
        r@ == chat_body(body@, stream),
{
    let mut out = JsonObject::new();
    let model = match body.get("model") {
        Some(m) => m.copy(),
        None => Json::text("mimo-flash"),
    };
    out.put("model", model);
    out.put("stream", Json::Bool(stream));
    if stream {
        out.put("stream_options", make_usage_option());
    }
    put_copy(&mut out, "temperature", body.get("temperature"));
    put_copy(&mut out, "top_p", body.get("top_p"));
    put_copy(&mut out, "max_tokens", body.get("max_output_tokens"));
    put_copy(&mut out, "tool_choice", body.get("tool_choice"));
    put_copy(&mut out, "tools", body.get("tools"));

    let mut messages: Vec<Json> = Vec::new();
    let instructions = match body.get("instructions") {
        Some(Json::Text(s)) => Some(s.clone()),
        Some(other) => text::owned(other.str_at("text")),
        None => None,
    };
    assert(text::opt_view(instructions) == instructions_text(body@.field("instructions"@)));
    let ghost mut system = Seq::<JsonView>::empty();
    if let Some(text) = &instructions {
        messages.push(make_message("system", text.as_str()));
        proof {
            system = seq![message_of("system"@, text@)];
        }
    }
    assert(json::trees_of(messages@) =~= system);
    let mut more = messages_from_input(body.get("input"));
    let ghost first = messages@;
    let ghost second = more@;
    messages.append(&mut more);
    assert(json::trees_of(messages@) =~= json::trees_of(first) + json::trees_of(second));
    if messages.len() == 0 {
        messages.push(make_message("user", ""));
        assert(json::trees_of(messages@) =~= seq![message_of("user"@, ""@)]);
    }
    out.put("messages", Json::List(messages));
    Json::Object(out)
}

/// What a Responses request is.
#[verifier::ext_equal]
pub struct ResponsesCallView {
    pub request: JsonView,
    pub payload: JsonView,
    pub stream: bool,
    pub model: Seq<char>,
}

/// A Responses request.
#[derive(Debug)]
pub struct ResponsesCall {
    pub request: Json,
    /// What is sent on.
    pub payload: Json,
    pub stream: bool,
    pub model: String,
}

impl View for ResponsesCall {
    type V = ResponsesCallView;

    open spec fn view(&self) -> ResponsesCallView {
        ResponsesCallView {
            request: self.request@,
            payload: self.payload@,
            stream: self.stream,
            model: self.model@,
        }
    }
}

/// What becomes of a Responses request's body.
pub open spec fn responses_call(parsed: Result<JsonView, Seq<char>>) -> Result<
    ResponsesCallView,
    ApiReplyView,
> {
    match parsed {
        Err(e) => Err(proxy::invalid_json(e)),
        Ok(request) => {
            let stream = request.truth_at("stream"@) == Some(true);
            Ok(
                ResponsesCallView {
                    request,
                    payload: chat_body(request, stream),
                    stream,
                    model: proxy::named_model(request),
                },
            )
        },
    }
}

pub const RESPONSES_ROUTE: &'static str = "/v1/responses";

pub const RESPONSES_VIA_CHAT: &'static str = "/v1/responses -> /v1/chat/completions";

/// Shapes a Responses request whose body was read.
pub fn shape_responses(parsed: Result<Json, String>) -> (r: Result<ResponsesCall, ApiReply>)
    ensures
        match responses_call(json::parse_view(parsed)) {
            Ok(call) => r matches Ok(c) && c@ == call,
            Err(reply) => r matches Err(e) && e@ == reply,
        },
{
    match parsed {
        Err(e) => Err(
            proxy::error_response(
                400,
                text::cat2("invalid JSON: ", e.as_str()).as_str(),
                "invalid_request_error",
            ),
        ),
        Ok(request) => {
            let stream = proxy::wants_stream(&request);
            let model = proxy::model_of(&request);
            let payload = responses_to_chat_body(&request, stream);
            Ok(ResponsesCall { request, payload, stream, model })
        },
    }
}

/// `/v1/responses`: the request that a body describes, with its log row. The free channel has no
/// native Responses endpoint, so it goes to chat completions and back.
pub fn responses(body: &str) -> (r: Result<(ResponsesCall, Json), ApiReply>)
    ensures
        match responses_call(json::parsed_json(body@)) {
            Ok(call) => r matches Ok(c) && c.0@ == call && exists|ts: i64|
                c.1@ == #[trigger] reply::request_row(ts, RESPONSES_VIA_CHAT@, call.model, call.stream),
            Err(reply) => r matches Err(e) && e@ == reply,
        },
{
    let parsed = Json::parse(body);
    assert(json::parse_view(parsed) == json::parsed_json(body@));
    match shape_responses(parsed) {
        Ok(call) => {
            let ts = outside::now_millis();
            let row = reply::make_request_row(ts, RESPONSES_VIA_CHAT, call.model.as_str(), call.stream);
            assert(row@ == reply::request_row(ts, RESPONSES_VIA_CHAT@, call@.model, call@.stream));
            Ok((call, row))
        },
        Err(e) => Err(e),
    }
}

// ── the answer ──────────────────────────────────────────────────────
/// The reply to a Responses request that got no answer, and what is noted of it.
pub open spec fn unsent_responses(e: SendErrorView, ts: i64, elapsed: u64) -> SettledView {
    match e {
        SendErrorView::NotLoggedIn => reply::unnoted(
            reply::error_of(
                401,
                "not logged in — open the WebUI and sign in"@,
                "invalid_api_key"@,
            ),
        ),
        SendErrorView::Upstream(m) => SettledView {
            reply: reply::error_of(502, "upstream fetch failed: "@ + m, "api_error"@),
            row: Some(reply::failure_row(ts, RESPONSES_ROUTE@, None, m, elapsed)),
            note: None,
        },
    }
}

pub fn responses_unsent_at(e: &SendError, ts: i64, elapsed: u64) -> (r: Settled)
    ensures
        r@ == unsent_responses(e@, ts, elapsed),
{
    match e {
        SendError::NotLoggedIn => Settled {
            reply: proxy::error_response(
                401,
                "not logged in — open the WebUI and sign in",
                "invalid_api_key",
            ),
            row: None,
            note: None,
        },
        SendError::Upstream(m) => Settled {
            reply: proxy::error_response(
                502,
                text::cat2("upstream fetch failed: ", m.as_str()).as_str(),
                "api_error",
            ),
            row: Some(reply::make_failure_row(ts, RESPONSES_ROUTE, None, m.as_str(), elapsed)),
            note: None,
        },
    }
}

pub fn responses_unsent(e: &SendError, elapsed: u64) -> (r: Settled)
    ensures
        exists|ts: i64| r@ == #[trigger] unsent_responses(e@, ts, elapsed),
{
    let ts = outside::now_millis();
    responses_unsent_at(e, ts, elapsed)
}

/// The reply to a Responses request that the upstream refused.
pub fn responses_refused(status: u16, text: &str) -> (r: ApiReply)
    ensures
        r@ == reply::error_of(
            reply::relayed_status(status),
            reply::upstream_message(status, text@, 300),
            "api_error"@,
        ),
{
    proxy::error_response(
        reply::relay_status(status),
        reply::make_upstream_message(status, text, 300).as_str(),
        "api_error",
    )
}

/// The start of a streamed reply: the chat events pass unchanged.
pub open spec fn streamed_responses() -> StreamStartView {
    StreamStartView {
        status: 200,
        headers: seq![("content-type"@, "text/event-stream"@), ("x-accel-buffering"@, "no"@)],
        row: None,
        note: Some(UsageNote::Request { prompt_tokens: 0, completion_tokens: 0, error: false }),
    }
}

pub fn responses_streamed() -> (r: StreamStart)
    ensures
        r@ == streamed_responses(),
{
    let mut headers = Pairs::new();
    headers.add("content-type", "text/event-stream");
    headers.add("x-accel-buffering", "no");
    assert(headers@ =~= seq![
        ("content-type"@, "text/event-stream"@),
        ("x-accel-buffering"@, "no"@),
    ]);
    StreamStart {
        status: 200,
        headers,
        row: None,
        note: Some(UsageNote::Request { prompt_tokens: 0, completion_tokens: 0, error: false }),
    }
}

/// What is done with the upstream's answer to a Responses request.
pub open spec fn responses_turn(status: u16, stream: bool) -> AnswerTurnView {
    if !exchange::succeeded(status) {
        AnswerTurnView::Refuse
    } else if stream {
        AnswerTurnView::Stream(streamed_responses())
    } else {
        AnswerTurnView::Whole
    }
}

/// What is done with the upstream's answer to a Responses request, with its log row.
pub fn responses_answered(status: u16, stream: bool, elapsed: u64) -> (r: (AnswerTurn, Json))
    ensures
        r.0@ == responses_turn(status, stream),
        exists|ts: i64| r.1@ == #[trigger] reply::response_row(ts, RESPONSES_VIA_CHAT@, status, elapsed),
{
    let ts = outside::now_millis();
    let row = reply::make_response_row(ts, RESPONSES_VIA_CHAT, status, elapsed);
    let turn = if !exchange::is_success(status) {
        AnswerTurn::Refuse
    } else if stream {
        AnswerTurn::Stream(responses_streamed())
    } else {
        AnswerTurn::Whole
    };
    (turn, row)
}

/// The first choice of a chat completion.
pub open spec fn first_choice(chat: JsonView) -> Option<JsonView> {
    match chat.field("choices"@) {
        Some(choices) => choices.zeroth(),
        None => None,
    }
}

pub fn choice_of(chat: &Json) -> (r: Option<&Json>)
    ensures
        json::opt_tree(r) == first_choice(chat@),
{
    match chat.get("choices") {
        Some(choices) => choices.zeroth(),
        None => None,
    }
}

/// The text of a chat completion.
pub open spec fn completion_text(chat: JsonView) -> Seq<char> {
    match first_choice(chat) {
        Some(choice) => match choice.field("message"@) {
            Some(message) => match message.text_at("content"@) {
                Some(text) => text,
                None => ""@,
            },
            None => ""@,
        },
        None => ""@,
    }
}

/// Why a chat completion ended.
pub open spec fn stop_reason(chat: JsonView) -> Seq<char> {
    match first_choice(chat) {
        Some(choice) => match choice.text_at("finish_reason"@) {
            Some(reason) => reason,
            None => "stop"@,
        },
        None => "stop"@,
    }
}

/// The model that answered: the one that was asked for, if it was named.
pub open spec fn answering_model(request: JsonView, chat: JsonView) -> Seq<char> {
    match request.text_at("model"@) {
        Some(m) => m,
        None => match chat.text_at("model"@) {
            Some(m) => m,
            None => "unknown"@,
        },
    }
}

/// How many tokens a completion reports.
pub open spec fn reported_tokens(chat: JsonView, key: Seq<char>) -> u64 {
    match chat.field("usage"@) {
        Some(usage) => proxy::count_at(usage, key, 0),
        None => 0,
    }
}

/// The Responses object of a chat completion. `fresh` and `message` are identifiers to be used
/// for it.
pub open spec fn response_object(
    request: JsonView,
    chat: JsonView,
    fresh: Seq<char>,
    message: Seq<char>,
    created: i64,
) -> JsonView {
    let text = JsonView::Text(completion_text(chat));
    JsonView::Object(
        map![
            "id"@ => JsonView::Text("resp_"@ + match chat.text_at("id"@) {
                Some(id) => id,
                None => fresh,
            }),
            "object"@ => JsonView::Text("response"@),
            "created_at"@ => json::integer(created as int),
            "status"@ => JsonView::Text("completed"@),
            "model"@ => JsonView::Text(answering_model(request, chat)),
            "output"@ => JsonView::List(seq![JsonView::Object(map![
                "type"@ => JsonView::Text("message"@),
                "id"@ => JsonView::Text("msg_"@ + message),
                "status"@ => JsonView::Text("completed"@),
                "role"@ => JsonView::Text("assistant"@),
                "content"@ => JsonView::List(seq![JsonView::Object(map![
                    "type"@ => JsonView::Text("output_text"@),
                    "text"@ => text,
                    "annotations"@ => JsonView::List(Seq::empty()),
                ])]),
            ])]),
            "output_text"@ => text,
            "incomplete_details"@ => JsonView::Null,
            "usage"@ => JsonView::Object(map![
                "input_tokens"@ => json::integer(reported_tokens(chat, "prompt_tokens"@) as int),
                "output_tokens"@ => json::integer(reported_tokens(chat, "completion_tokens"@) as int),
            ]),
            "metadata"@ => JsonView::Object(map![
                "finish_reason"@ => JsonView::Text(stop_reason(chat)),
                "via"@ => JsonView::Text("chat-completions-compat"@),
            ]),
        ],
    )
}

/// A list of one value.
fn list_of_one(j: Json) -> (r: Json)
    ensures
        r@ == JsonView::List(seq![j@]),
{
    let mut items: Vec<Json> = Vec::new();
    items.push(j);
    assert(json::trees_of(items@) =~= seq![j@]);
    Json::List(items)
}

/// The number of tokens that a completion reports.
fn tokens_reported(chat: &Json, key: &str) -> (r: u64)
    ensures
        r == reported_tokens(chat@, key@),
{
    match chat.get("usage") {
        Some(usage) => match usage.u64_at(key) {
            Some(n) => n,
            None => 0,
        },
        None => 0,
    }
}

/// The text of a chat completion.
fn text_of_completion(chat: &Json) -> (r: String)
    ensures
        r@ == completion_text(chat@),
{
    match choice_of(chat) {
        Some(choice) => match choice.get("message") {
            Some(message) => match message.str_at("content") {
                Some(text) => text.to_string(),
                None => "".to_string(),
            },
            None => "".to_string(),
        },
        None => "".to_string(),
    }
}

/// Chat completion JSON → Responses object (text subset), with given identifiers and time.
pub fn make_response(request: &Json, chat: &Json, fresh: &str, message: &str, created: i64) -> (r:
    Json)
    ensures
        r@ == response_object(request@, chat@, fresh@, message@, created),
{
    let model = match request.str_at("model") {
        Some(m) => m,
        None => match chat.str_at("model") {
            Some(m) => m,
            None => "unknown",
        },
    };
    let text = text_of_completion(chat);
    let stop = match choice_of(chat) {
        Some(choice) => match choice.str_at("finish_reason") {
            Some(reason) => reason,
            None => "stop",
        },
        None => "stop",
    };
    let id = match chat.str_at("id") {
        Some(id) => id,
        None => fresh,
    };

    let mut part = JsonObject::new();
    part.put("type", Json::text("output_text"));
    part.put("text", Json::text(text.as_str()));
    let none: Vec<Json> = Vec::new();
    assert(json::trees_of(none@) =~= Seq::<JsonView>::empty());
    part.put("annotations", Json::List(none));

    let mut output = JsonObject::new();
    output.put("type", Json::text("message"));
    output.put("id", Json::Text(text::cat2("msg_", message)));
    output.put("status", Json::text("completed"));
    output.put("role", Json::text("assistant"));
    output.put("content", list_of_one(Json::Object(part)));

    let mut usage = JsonObject::new();
    usage.put("input_tokens", Json::unsigned(tokens_reported(chat, "prompt_tokens")));
    usage.put("output_tokens", Json::unsigned(tokens_reported(chat, "completion_tokens")));

    let mut metadata = JsonObject::new();
    metadata.put("finish_reason", Json::text(stop));
    metadata.put("via", Json::text("chat-completions-compat"));

    let mut out = JsonObject::new();
    out.put("id", Json::Text(text::cat2("resp_", id)));
    out.put("object", Json::text("response"));
    out.put("created_at", Json::signed(created));
    out.put("status", Json::text("completed"));
    out.put("model", Json::text(model));
    out.put("output", list_of_one(Json::Object(output)));
    out.put("output_text", Json::Text(text));
    out.put("incomplete_details", Json::Null);
    out.put("usage", Json::Object(usage));
    out.put("metadata", Json::Object(metadata));
    Json::Object(out)
}

/// Chat completion JSON → Responses object (text subset).
pub fn response_from_chat(request: &Json, chat: &Json) -> (r: Json)
    ensures
        exists|fresh: Seq<char>, message: Seq<char>, created: i64|
            outside::is_simple_uuid(fresh) && outside::is_simple_uuid(message) && r@
                == #[trigger] response_object(request@, chat@, fresh, message, created),
{
    let fresh = outside::fresh_uuid();
    let message = outside::fresh_uuid();
    let created = outside::now_seconds();
    make_response(request, chat, fresh.as_str(), message.as_str(), created)
}

/// What is counted for a chat completion: its tokens, if it reports both numbers.
pub open spec fn completion_note(chat: JsonView) -> UsageNote {
    match chat.field("usage"@) {
        Some(usage) => match (
            usage.unsigned_at("prompt_tokens"@),
            usage.unsigned_at("completion_tokens"@),
        ) {
            (Some(p), Some(c)) => UsageNote::Request {
                prompt_tokens: p,
                completion_tokens: c,
                error: false,
            },
            _ => UsageNote::Request { prompt_tokens: 0, completion_tokens: 0, error: false },
        },
        None => UsageNote::Request { prompt_tokens: 0, completion_tokens: 0, error: false },
    }
}

/// What is counted for a chat completion.
pub fn note_of_completion(chat: &Json) -> (r: UsageNote)
    ensures
        r == completion_note(chat@),
{
    let mut prompt_tokens: u64 = 0;
    let mut completion_tokens: u64 = 0;
    if let Some(usage) = chat.get("usage") {
        if let (Some(p), Some(c)) = (
            usage.u64_at("prompt_tokens"),
            usage.u64_at("completion_tokens"),
        ) {
            prompt_tokens = p;
            completion_tokens = c;
        }
    }
    UsageNote::Request { prompt_tokens, completion_tokens, error: false }
}

/// The reply to a Responses request whose answer cannot be read.
pub open spec fn unreadable(e: Seq<char>) -> ApiReplyView {
    reply::error_of(502, "upstream parse: "@ + e, "api_error"@)
}

/// The reply for the whole body of a successful answer, or for the error that reading it gave.
pub fn responses_completed(request: &Json, body: Result<String, String>) -> (r: Settled)
    ensures
        match body {
            Err(e) => r@ == reply::unnoted(unreadable(e@)),
            Ok(text) => match json::parsed_json(text@) {
                Err(_) => r@ == reply::unnoted(unreadable("error decoding response body"@)),
                Ok(chat) => r@.row is None && r@.note == Some(completion_note(chat)) && exists|
                    fresh: Seq<char>,
                    message: Seq<char>,
                    created: i64,
                |
                    outside::is_simple_uuid(fresh) && outside::is_simple_uuid(message) && r@.reply
                        == reply::ok_of(
                        #[trigger] response_object(request@, chat, fresh, message, created),
                    ),
            },
        },
{
    let text = match body {
        Ok(text) => text,
        Err(e) => {
            let reply = proxy::error_response(
                502,
                text::cat2("upstream parse: ", e.as_str()).as_str(),
                "api_error",
            );
            return Settled { reply, row: None, note: None };
        },
    };
    match Json::parse(text.as_str()) {
        Err(_) => {
            let message = text::cat2("upstream parse: ", "error decoding response body");
            Settled {
                reply: proxy::error_response(502, message.as_str(), "api_error"),
                row: None,
                note: None,
            }
        },
        Ok(chat) => {
            let note = note_of_completion(&chat);
            Settled {
                reply: reply::ok_reply(response_from_chat(request, &chat)),
                row: None,
                note: Some(note),
            }
        },
    }
}

/// The completion reaches the client: its text is the text of the Responses object, in the output
/// and beside it, and its tokens, its identifier and its reason to stop are told with it. The
/// model is the one that was asked for.
pub proof fn completions_reach_the_client(
    request: JsonView,
    chat: JsonView,
    choices: Seq<JsonView>,
    message: JsonView,
    said: Seq<char>,
    usage: JsonView,
    p: u64,
    c: u64,
    id: Seq<char>,
    fresh: Seq<char>,
    named: Seq<char>,
    created: i64,
)
    requires
        json::has(chat, "choices"@, JsonView::List(choices)),
        choices.len() > 0,
        json::has(choices[0], "message"@, message),
        json::has(message, "content"@, JsonView::Text(said)),
    ensures
        ({
            let r = response_object(request, chat, fresh, named, created);
            &&& json::has(r, "output_text"@, JsonView::Text(said))
            &&& r matches JsonView::Object(m) && (m["output"@] matches JsonView::List(output)
                && output.len() == 1 && json::has(output[0], "role"@, JsonView::Text("assistant"@))
                && (output[0] matches JsonView::Object(o) && (o["content"@] matches JsonView::List(
                parts,
            ) && parts.len() == 1 && json::has(parts[0], "text"@, JsonView::Text(said)))))
            &&& r matches JsonView::Object(m) && json::has(
                m["metadata"@],
                "via"@,
                JsonView::Text("chat-completions-compat"@),
            ) && (json::has(choices[0], "finish_reason"@, JsonView::Text(id)) ==> json::has(
                m["metadata"@],
                "finish_reason"@,
                JsonView::Text(id),
            )) && (json::lacks(choices[0], "finish_reason"@) ==> json::has(
                m["metadata"@],
                "finish_reason"@,
                JsonView::Text("stop"@),
            ))
            &&& json::lacks(chat, "id"@) ==> json::has(r, "id"@, JsonView::Text("resp_"@ + fresh))
            &&& json::counts(r, "created_at"@, created as int)
            &&& json::lacks(request, "model"@) && json::lacks(chat, "model"@) ==> json::has(
                r,
                "model"@,
                JsonView::Text("unknown"@),
            )
            &&& json::lacks(chat, "usage"@) ==> (r matches JsonView::Object(m) && json::counts(
                m["usage"@],
                "input_tokens"@,
                0,
            ) && json::counts(m["usage"@], "output_tokens"@, 0))
            &&& json::has(r, "object"@, JsonView::Text("response"@))
            &&& json::has(r, "status"@, JsonView::Text("completed"@))
            &&& json::has(chat, "id"@, JsonView::Text(id)) ==> json::has(
                r,
                "id"@,
                JsonView::Text("resp_"@ + id),
            )
            &&& json::has(request, "model"@, JsonView::Text(id)) ==> json::has(
                r,
                "model"@,
                JsonView::Text(id),
            )
            &&& json::lacks(request, "model"@) && json::has(chat, "model"@, JsonView::Text(id))
                ==> json::has(r, "model"@, JsonView::Text(id))
            &&& json::has(chat, "usage"@, usage) && json::counts(usage, "prompt_tokens"@, p as int)
                && json::counts(usage, "completion_tokens"@, c as int) ==> (r matches JsonView::Object(
                m,
            ) && json::counts(m["usage"@], "input_tokens"@, p as int) && json::counts(
                m["usage"@],
                "output_tokens"@,
                c as int,
            ))
        }),
        json::has(chat, "usage"@, usage) && json::counts(usage, "prompt_tokens"@, p as int)
            && json::counts(usage, "completion_tokens"@, c as int) ==> completion_note(chat)
            == (UsageNote::Request { prompt_tokens: p, completion_tokens: c, error: false }),
        json::lacks(chat, "usage"@) || json::has(chat, "usage"@, usage) && (json::lacks(
            usage,
            "prompt_tokens"@,
        ) || json::lacks(usage, "completion_tokens"@)) ==> completion_note(chat) == (UsageNote::Request {
            prompt_tokens: 0,
            completion_tokens: 0,
            error: false,
        }),
{
    reveal_strlit("id");
    reveal_strlit("object");
    reveal_strlit("created_at");
    reveal_strlit("status");
    reveal_strlit("model");
    reveal_strlit("output");
    reveal_strlit("output_text");
    reveal_strlit("incomplete_details");
    reveal_strlit("usage");
    reveal_strlit("metadata");
    reveal_strlit("type");
    reveal_strlit("role");
    reveal_strlit("content");
    reveal_strlit("text");
    reveal_strlit("annotations");
    reveal_strlit("input_tokens");
    reveal_strlit("output_tokens");
    assert("id"@.len() == 2 && "object"@.len() == 6 && "created_at"@.len() == 10 && "status"@.len()
        == 6 && "model"@.len() == 5 && "output"@.len() == 6 && "output_text"@.len() == 11
        && "incomplete_details"@.len() == 18 && "usage"@.len() == 5 && "metadata"@.len() == 8);
    assert("object"@[1] == 'b' && "output"@[1] == 'u' && "status"@[1] == 't' && "model"@[0] == 'm'
        && "usage"@[0] == 'u');
    assert("type"@[1] == 'y' && "role"@[1] == 'o' && "text"@[1] == 'e' && "content"@.len() == 7
        && "annotations"@.len() == 11 && "type"@.len() == 4 && "role"@.len() == 4 && "text"@.len()
        == 4);
    assert("input_tokens"@.len() == 12 && "output_tokens"@.len() == 13);
    reveal_strlit("finish_reason");
    reveal_strlit("via");
    assert("finish_reason"@.len() == 13 && "via"@.len() == 3);
}

/// A successful answer is passed on as a stream just if one was asked for; any other answer is a
/// refusal.
pub proof fn answers_are_taken_as_asked_for(status: u16, stream: bool)
    ensures
        200 <= status < 300 && stream ==> (responses_turn(status, stream) matches AnswerTurnView::Stream(
            start,
        ) && start.status == 200),
        200 <= status < 300 && !stream ==> responses_turn(status, stream) is Whole,
        status < 200 || status >= 300 ==> responses_turn(status, stream) is Refuse,
{
}

/// A Responses request that got no answer is answered with the reason: who is not logged in is told
/// so, and so is who cannot be served because the upstream was not reached, which the log notes.
pub proof fn unsent_responses_are_told(m: Seq<char>, ts: i64, elapsed: u64)
    ensures
        unsent_responses(SendErrorView::NotLoggedIn, ts, elapsed).reply.status == 401,
        unsent_responses(SendErrorView::NotLoggedIn, ts, elapsed).row is None,
        unsent_responses(SendErrorView::Upstream(m), ts, elapsed).reply.status == 502,
        unsent_responses(SendErrorView::Upstream(m), ts, elapsed).reply.body matches JsonView::Object(
            o,
        ) && json::has(
            o["error"@],
            "message"@,
            JsonView::Text("upstream fetch failed: "@ + m),
        ),
        unsent_responses(SendErrorView::Upstream(m), ts, elapsed).row matches Some(row) && json::has(
            row,
            "message"@,
            JsonView::Text(m),
        ) && json::counts(row, "elapsed_ms"@, elapsed as int) && json::lacks(row, "status"@),
        forall|e: SendErrorView|
            (#[trigger] unsent_responses(e, ts, elapsed)).note is None,
{
    reply::errors_say_what_they_are(502, "upstream fetch failed: "@ + m, "api_error"@);
    reply::rows_say_what_happened(ts, RESPONSES_ROUTE@, ""@, false, 0, m, elapsed);
}

/// Instructions that are an object count by their text, and come before the input; a request without
/// any message stands for an empty one of the user.
pub proof fn instructions_come_first(
    body: JsonView,
    wish: JsonView,
    said: Seq<char>,
    asked: Seq<char>,
)
    ensures
        json::has(body, "instructions"@, wish) && json::has(wish, "text"@, JsonView::Text(said))
            && json::has(body, "input"@, JsonView::Text(asked)) ==> request_messages(body).len() == 2
            && is_message(request_messages(body)[0], "system"@, said) && is_message(
            request_messages(body)[1],
            "user"@,
            asked,
        ),
        json::lacks(body, "instructions"@) && json::lacks(body, "input"@) ==> request_messages(
            body,
        ).len() == 1 && is_message(request_messages(body)[0], "user"@, Seq::empty()),
{
    reveal_strlit("role");
    reveal_strlit("content");
    reveal_strlit("");
    assert("role"@.len() == 4 && "content"@.len() == 7);
    assert(""@ =~= Seq::<char>::empty());
}

} // verus!
