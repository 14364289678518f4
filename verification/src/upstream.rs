//! Shared upstream call path used by /v1/chat/completions, /v1/messages and
//! /v1/responses: session lookup, request build, single-flight 401 retry,
//! and byte-safe SSE line extraction.

use crate::error::BridgeError;
use crate::storage::Storage;
use crate::auth::{Session, SessionView, API_BASE, CHAT_PATH, PC_UA, SOURCE};
use crate::exchange::{HttpRequest, Pairs, Payload, PayloadView, RequestView};
use crate::json::{Json, JsonView};
use crate::auth;
use crate::exchange;
use crate::json;
use crate::outside;
use crate::text;
use crate::storage;
use crate::cookies;
use vstd::prelude::*;

verus! {

#[derive(Debug)]
pub enum SendError {
    /// No (or not-yet-authenticated) account session.
    NotLoggedIn,
    /// The request to the upstream never completed.
    Upstream(String),
}

/// What a failed call is.
pub enum SendErrorView {
    NotLoggedIn,
    Upstream(Seq<char>),
}

impl View for SendError {
    type V = SendErrorView;

    open spec fn view(&self) -> SendErrorView {
        match *self {
            SendError::NotLoggedIn => SendErrorView::NotLoggedIn,
            SendError::Upstream(e) => SendErrorView::Upstream(e@),
        }
    }
}

/// Refresh tokens older than this proactively so an idle bridge does not
/// pay a 401 round-trip on the first request after a long pause.
pub const PROACTIVE_REFRESH_AGE_MS: i64 = 86_400_000;

// ── the call: models ────────────────────────────────────────────────
/// The request that carries a payload to the chat endpoint.
pub open spec fn chat_request(payload: Seq<char>, stream: bool, cookie: Seq<char>) -> RequestView {
    RequestView {
        post: true,
        url: API_BASE@ + CHAT_PATH@,
        headers: exchange::with_cookie(
            seq![
                ("user-agent"@, PC_UA@),
                ("content-type"@, "application/json"@),
                ("x-mimo-source"@, SOURCE@),
                (
                    "accept"@,
                    if stream {
                        "text/event-stream"@
                    } else {
                        "application/json"@
                    },
                ),
            ],
            cookie,
        ),
        payload: PayloadView::Text(payload),
    }
}

/// How far a call is.
pub enum SendStageView {
    /// The token is old: a new one is to be had first, if possible.
    Stale(SessionView),
    /// The payload is to be sent.
    First { cookie: Seq<char> },
    /// The token was refused: a new one is to be had.
    Denied,
    /// The payload is to be sent once more, with the new token.
    Second { cookie: Seq<char> },
}

/// What a call under way is.
pub struct SendView {
    pub payload: Seq<char>,
    pub stream: bool,
    pub stage: SendStageView,
}

/// What a call asks for next.
pub enum SendActionView {
    Refresh,
    Send(RequestView),
}

/// What happened: a token refresh ended, or a request did.
pub enum SendEventView {
    Refreshed(Option<SessionView>),
    Sent(Result<u16, Seq<char>>),
}

/// How a call goes on. When it is done, the reply to the first or to the second sending counts.
pub enum SendNextView {
    Continue(SendView),
    UseFirst,
    UseSecond,
    Failed(SendErrorView),
}

/// Whether a session's token is so old that a new one is worth asking for.
pub open spec fn is_stale(session: SessionView, now: i64) -> bool {
    match session.refreshed_at {
        Some(at) => now - at > PROACTIVE_REFRESH_AGE_MS,
        None => false,
    }
}

/// The start of a call, which needs a session with a service token.
pub open spec fn send_from(
    session: Option<SessionView>,
    payload: JsonView,
    now: i64,
) -> Result<SendView, SendErrorView> {
    match session {
        Some(s) if s.service_token is Some => Ok(
            SendView {
                payload: json::json_text(payload),
                stream: payload.truth_at("stream"@) == Some(true),
                stage: if is_stale(s, now) {
                    SendStageView::Stale(s)
                } else {
                    SendStageView::First { cookie: s.business_cookie() }
                },
            },
        ),
        _ => Err(SendErrorView::NotLoggedIn),
    }
}

impl SendView {
    /// The same call at another stage.
    pub open spec fn at(self, stage: SendStageView) -> SendNextView {
        SendNextView::Continue(SendView { payload: self.payload, stream: self.stream, stage })
    }

    /// What the call asks for next.
    pub open spec fn action(self) -> SendActionView {
        match self.stage {
            SendStageView::Stale(_) => SendActionView::Refresh,
            SendStageView::First { cookie } => SendActionView::Send(
                chat_request(self.payload, self.stream, cookie),
            ),
            SendStageView::Denied => SendActionView::Refresh,
            SendStageView::Second { cookie } => SendActionView::Send(
                chat_request(self.payload, self.stream, cookie),
            ),
        }
    }

    /// How the call goes on when that has happened. What it did not ask for changes nothing.
    pub open spec fn after(self, event: SendEventView) -> SendNextView {
        match (self.stage, event) {
            // A refresh that failed is fine: the old token may still work.
            (SendStageView::Stale(old), SendEventView::Refreshed(new)) => self.at(
                SendStageView::First {
                    cookie: match new {
                        Some(s) => s.business_cookie(),
                        None => old.business_cookie(),
                    },
                },
            ),
            (SendStageView::First { cookie }, SendEventView::Sent(sent)) => match sent {
                Err(e) => SendNextView::Failed(SendErrorView::Upstream(e)),
                Ok(status) => if status == 401 {
                    self.at(SendStageView::Denied)
                } else {
                    SendNextView::UseFirst
                },
            },
            (SendStageView::Denied, SendEventView::Refreshed(new)) => match new {
                Some(s) => self.at(SendStageView::Second { cookie: s.business_cookie() }),
                None => SendNextView::UseFirst,
            },
            (SendStageView::Second { cookie }, SendEventView::Sent(sent)) => match sent {
                Ok(_) => SendNextView::UseSecond,
                Err(_) => SendNextView::UseFirst,
            },
            _ => SendNextView::Continue(self),
        }
    }

    /// Whether an event is what the call asked for.
    pub open spec fn awaits(self, event: SendEventView) -> bool {
        self.action() is Refresh <==> event is Refreshed
    }

    /// How many steps the call may still take.
    pub open spec fn steps_left(self) -> nat {
        match self.stage {
            SendStageView::Stale(_) => 4,
            SendStageView::First { .. } => 3,
            SendStageView::Denied => 2,
            SendStageView::Second { .. } => 1,
        }
    }
}

/// Every request to the chat endpoint carries the client marker, and the session's cookies where
/// something legal is left of them.
pub proof fn chat_requests_are_marked(payload: Seq<char>, stream: bool, session: SessionView)
    ensures
        chat_request(payload, stream, session.business_cookie()).headers.contains(
            ("x-mimo-source"@, SOURCE@),
        ),
        cookies::sendable_cookie(session.business_cookie()) matches Some(cookie) ==> chat_request(
            payload,
            stream,
            session.business_cookie(),
        ).headers.contains(("cookie"@, cookie)),
{
    let headers = chat_request(payload, stream, session.business_cookie()).headers;
    assert(headers[2] == ("x-mimo-source"@, SOURCE@));
    if let Some(cookie) = cookies::sendable_cookie(session.business_cookie()) {
        assert(headers[4] == ("cookie"@, cookie));
    }
}

/// Each answer to what a call asked for brings it nearer to its end: at most two refreshes and
/// two sendings happen, whatever the answers are.
pub proof fn send_ends(call: SendView, event: SendEventView)
    requires
        call.awaits(event),
    ensures
        call.after(event) matches SendNextView::Continue(next) ==> next.steps_left()
            < call.steps_left() && next.payload == call.payload && next.stream == call.stream,
        call.steps_left() <= 4,
{
}

/// After a refused token there is one refresh, and the payload is sent once more only if that
/// gave a session; a second refusal is final.
pub proof fn one_retry(call: SendView, new: Option<SessionView>, sent: Result<u16, Seq<char>>)
    requires
        call.stage is First,
    ensures
        call.after(SendEventView::Sent(Ok(401))) == call.at(SendStageView::Denied),
        call.after(SendEventView::Sent(Ok(401))) matches SendNextView::Continue(denied) && (
        match new {
            None => denied.after(SendEventView::Refreshed(new)) is UseFirst,
            Some(s) => denied.after(SendEventView::Refreshed(new)) matches SendNextView::Continue(
                second,
            ) && second.action() == SendActionView::Send(
                chat_request(call.payload, call.stream, s.business_cookie()),
            ) && !(second.after(SendEventView::Sent(sent)) is Continue),
        }),
{
}

/// Whether a request carries a payload to the chat endpoint, in the name of a session.
pub open spec fn sends_chat(
    request: RequestView,
    payload: Seq<char>,
    stream: bool,
    session: SessionView,
) -> bool {
    &&& request.post
    &&& request.url == "https://mimo-server-cn.xiaomimimo.com/api/route/chat/completions"@
    &&& request.payload == PayloadView::Text(payload)
    &&& request.headers.contains(("content-type"@, "application/json"@))
    &&& request.headers.contains(("x-mimo-source"@, "mimocode-cli-free"@))
    &&& request.headers.contains(
        (
            "accept"@,
            if stream {
                "text/event-stream"@
            } else {
                "application/json"@
            },
        ),
    )
    &&& exchange::carries(request, session.business_cookie())
}

proof fn lemma_sends_chat(payload: Seq<char>, stream: bool, session: SessionView)
    ensures
        sends_chat(
            chat_request(payload, stream, session.business_cookie()),
            payload,
            stream,
            session,
        ),
{
    reveal_strlit("cookie");
    reveal_strlit("user-agent");
    reveal_strlit("content-type");
    reveal_strlit("x-mimo-source");
    reveal_strlit("accept");
    reveal_strlit("https://mimo-server-cn.xiaomimimo.com/api");
    reveal_strlit("/route/chat/completions");
    reveal_strlit("https://mimo-server-cn.xiaomimimo.com/api/route/chat/completions");
    assert("cookie"@.len() == 6 && "user-agent"@.len() == 10 && "content-type"@.len() == 12
        && "x-mimo-source"@.len() == 13);
    assert("accept"@[0] == 'a' && "cookie"@[0] == 'c');
    let request = chat_request(payload, stream, session.business_cookie());
    assert(request.url =~= "https://mimo-server-cn.xiaomimimo.com/api/route/chat/completions"@);
    let headers = request.headers;
    assert(headers.contains(headers[1]) && headers.contains(headers[2]) && headers.contains(
        headers[3],
    ));
    let kept = cookies::header_chars(session.business_cookie());
    if text::trim_of(kept).len() > 0 {
        assert(headers[4] == ("cookie"@, kept));
    }
}

/// A call is made only for a session with a service token. What is sent is the payload as it was
/// given, to the chat endpoint, in the session's name; a token of more than a day is renewed
/// first, and no other is.
pub proof fn calls_begin_with_a_session(
    session: Option<SessionView>,
    payload: JsonView,
    now: i64,
)
    ensures
        session is None ==> send_from(session, payload, now) == Err::<SendView, _>(
            SendErrorView::NotLoggedIn,
        ),
        session matches Some(s) ==> s.service_token is None ==> send_from(session, payload, now)
            == Err::<SendView, _>(SendErrorView::NotLoggedIn),
        session matches Some(s) ==> s.service_token is Some ==> (send_from(session, payload, now)
            matches Ok(call) && call.payload == json::json_text(payload) && (json::has(
            payload,
            "stream"@,
            JsonView::Bool(true),
        ) ==> call.stream) && (json::has(payload, "stream"@, JsonView::Bool(false)) || json::lacks(
            payload,
            "stream"@,
        ) ==> !call.stream) && (if s.refreshed_at is Some && now - s.refreshed_at->Some_0
            > 86_400_000 {
            call.action() is Refresh
        } else {
            call.action() matches SendActionView::Send(request) && sends_chat(
                request,
                json::json_text(payload),
                call.stream,
                s,
            )
        })),
{
    if let Some(s) = session {
        if let Ok(call) = send_from(session, payload, now) {
            lemma_sends_chat(call.payload, call.stream, s);
        }
    }
}

/// After a token was renewed the payload goes out in the name of the session that came of it; where
/// that failed before anything was sent, the old session still serves.
pub proof fn renewed_sessions_are_used(
    call: SendView,
    old_session: SessionView,
    new: SessionView,
)
    ensures
        call.stage == SendStageView::Stale(old_session) ==> (call.after(
            SendEventView::Refreshed(Some(new)),
        ) matches SendNextView::Continue(next) && (next.action() matches SendActionView::Send(
            request,
        ) && sends_chat(request, call.payload, call.stream, new))),
        call.stage == SendStageView::Stale(old_session) ==> (call.after(
            SendEventView::Refreshed(None),
        ) matches SendNextView::Continue(next) && (next.action() matches SendActionView::Send(
            request,
        ) && sends_chat(request, call.payload, call.stream, old_session))),
        call.stage is Denied ==> call.action() is Refresh && (call.after(
            SendEventView::Refreshed(Some(new)),
        ) matches SendNextView::Continue(next) && (next.action() matches SendActionView::Send(
            request,
        ) && sends_chat(request, call.payload, call.stream, new))),
        call.stage is Denied ==> call.after(SendEventView::Refreshed(None)) is UseFirst,
{
    lemma_sends_chat(call.payload, call.stream, old_session);
    lemma_sends_chat(call.payload, call.stream, new);
}

/// The reply that counts is the first unless its token was refused; after a retry it is the second,
/// unless that never came. A request that never completed is told as such.
pub proof fn last_reply_counts(call: SendView, status: u16, e: Seq<char>)
    ensures
        call.stage is First && status != 401 ==> call.after(SendEventView::Sent(Ok(status))) is UseFirst,
        call.stage is First && status == 401 ==> (call.after(SendEventView::Sent(Ok(status)))
            matches SendNextView::Continue(next) && next.action() is Refresh),
        call.stage is First ==> call.after(SendEventView::Sent(Err(e))) == SendNextView::Failed(
            SendErrorView::Upstream(e),
        ),
        call.stage is Second ==> call.after(SendEventView::Sent(Ok(status))) is UseSecond,
        call.stage is Second ==> call.after(SendEventView::Sent(Err(e))) is UseFirst,
{
}

/// The cookies of a business request, as they are written.
pub proof fn business_cookies_are_written_out(
    session: SessionView,
    t: Seq<char>,
    u: Seq<char>,
    c: Seq<char>,
)
    requires
        session.service_token == Some(t),
        session.user_id == Some(u),
        session.c_user_id == Some(c),
    ensures
        session.business_cookie() == "serviceToken="@ + t + "; mimopc_serviceToken="@ + t
            + "; userId="@ + u + "; cUserId="@ + c,
{
    reveal_strlit("serviceToken=");
    reveal_strlit("mimopc");
    reveal_strlit("_serviceToken=");
    reveal_strlit("; mimopc_serviceToken=");
    reveal_strlit("; userId=");
    reveal_strlit("userId=");
    reveal_strlit("; cUserId=");
    reveal_strlit("cUserId=");
    reveal_strlit("; ");
    let parts = session.business_parts();
    let p3 = parts.drop_last();
    let p2 = p3.drop_last();
    let p1 = p2.drop_last();
    assert(parts.len() == 4);
    reveal_with_fuel(text::joined, 5);
    assert(parts.last() == "cUserId="@ + c);
    assert(p3.last() == "userId="@ + u);
    assert(p2.last() == auth::SID@ + "_serviceToken="@ + t);
    assert(p1.last() == "serviceToken="@ + t);
    assert(session.business_cookie() =~= "serviceToken="@ + t + "; mimopc_serviceToken="@ + t
        + "; userId="@ + u + "; cUserId="@ + c);
}

// ── the call ────────────────────────────────────────────────────────
/// How far a call is.
#[derive(Debug)]
pub enum SendStage {
    Stale(Session),
    First { cookie: String },
    Denied,
    Second { cookie: String },
}

/// A call to the chat endpoint under way.
#[derive(Debug)]
pub struct SendFlow {
    pub payload: String,
    pub stream: bool,
    pub stage: SendStage,
}

/// What a call asks for next.
#[derive(Debug)]
pub enum SendAction {
    Refresh,
    Send(HttpRequest),
}

/// What happened: a token refresh ended, with a session where it went well, or a request did,
/// with its status or the text of the error.
#[derive(Debug)]
pub enum SendEvent {
    Refreshed(Option<Session>),
    Sent(Result<u16, String>),
}

/// How a call goes on.
#[derive(Debug)]
pub enum SendNext {
    Continue(SendFlow),
    UseFirst,
    UseSecond,
    Failed(SendError),
}

impl View for SendStage {
    type V = SendStageView;

    open spec fn view(&self) -> SendStageView {
        match *self {
            SendStage::Stale(s) => SendStageView::Stale(s@),
            SendStage::First { cookie } => SendStageView::First { cookie: cookie@ },
            SendStage::Denied => SendStageView::Denied,
            SendStage::Second { cookie } => SendStageView::Second { cookie: cookie@ },
        }
    }
}

impl View for SendFlow {
    type V = SendView;

    open spec fn view(&self) -> SendView {
        SendView { payload: self.payload@, stream: self.stream, stage: self.stage@ }
    }
}

impl View for SendAction {
    type V = SendActionView;

    open spec fn view(&self) -> SendActionView {
        match *self {
            SendAction::Refresh => SendActionView::Refresh,
            SendAction::Send(req) => SendActionView::Send(req@),
        }
    }
}

/// What an optional session is.
pub open spec fn opt_session(s: Option<Session>) -> Option<SessionView> {
    match s {
        Some(session) => Some(session@),
        None => None,
    }
}

impl View for SendEvent {
    type V = SendEventView;

    open spec fn view(&self) -> SendEventView {
        match *self {
            SendEvent::Refreshed(s) => SendEventView::Refreshed(opt_session(s)),
            SendEvent::Sent(Ok(status)) => SendEventView::Sent(Ok(status)),
            SendEvent::Sent(Err(e)) => SendEventView::Sent(Err(e@)),
        }
    }
}

impl View for SendNext {
    type V = SendNextView;

    open spec fn view(&self) -> SendNextView {
        match *self {
            SendNext::Continue(flow) => SendNextView::Continue(flow@),
            SendNext::UseFirst => SendNextView::UseFirst,
            SendNext::UseSecond => SendNextView::UseSecond,
            SendNext::Failed(e) => SendNextView::Failed(e@),
        }
    }
}

/// The request that carries a payload to the chat endpoint.
pub fn make_chat_request(payload: &str, stream: bool, cookie: &str) -> (r: HttpRequest)
    ensures
        r@ == chat_request(payload@, stream, cookie@),
{
    let accept = if stream {
        "text/event-stream"
    } else {
        "application/json"
    };
    let mut headers = Pairs::new();
    headers.add("user-agent", PC_UA);
    headers.add("content-type", "application/json");
    headers.add("x-mimo-source", SOURCE);
    headers.add("accept", accept);
    assert(headers@ =~= seq![
        ("user-agent"@, PC_UA@),
        ("content-type"@, "application/json"@),
        ("x-mimo-source"@, SOURCE@),
        ("accept"@, accept@),
    ]);
    headers.add_cookie(cookie);
    HttpRequest {
        post: true,
        url: text::cat2(API_BASE, CHAT_PATH),
        headers,
        payload: Payload::Text(payload.to_string()),
    }
}

/// Whether a session's token is so old that a new one is worth asking for.
pub fn stale(session: &Session, now: i64) -> (r: bool)
    ensures
        r == is_stale(session@, now),
{
    match session.refreshed_at {
        Some(at) => (now as i128) - (at as i128) > PROACTIVE_REFRESH_AGE_MS as i128,
        None => false,
    }
}

impl SendFlow {
    /// Begins a call, at a given time.
    pub fn start_at(session: Option<Session>, payload: &Json, now: i64) -> (r: Result<
        SendFlow,
        SendError,
    >)
        ensures
            match send_from(opt_session(session), payload@, now) {
                Ok(v) => r matches Ok(flow) && flow@ == v,
                Err(e) => r matches Err(error) && error@ == e,
            },
    {
        match session {
            Some(s) => {
                if !s.is_authenticated() {
                    return Err(SendError::NotLoggedIn);
                }
                let stream = match payload.bool_at("stream") {
                    Some(b) => b,
                    None => false,
                };
                let stage = if stale(&s, now) {
                    SendStage::Stale(s)
                } else {
                    SendStage::First { cookie: s.business_cookie() }
                };
                Ok(SendFlow { payload: payload.to_text(), stream, stage })
            },
            None => Err(SendError::NotLoggedIn),
        }
    }

    /// What the call asks for next.
    pub fn action(&self) -> (r: SendAction)
        ensures
            r@ == self@.action(),
    {
        match &self.stage {
            SendStage::Stale(_) => SendAction::Refresh,
            SendStage::First { cookie } => SendAction::Send(
                make_chat_request(self.payload.as_str(), self.stream, cookie.as_str()),
            ),
            SendStage::Denied => SendAction::Refresh,
            SendStage::Second { cookie } => SendAction::Send(
                make_chat_request(self.payload.as_str(), self.stream, cookie.as_str()),
            ),
        }
    }

    /// How the call goes on when that has happened.
    pub fn after(self, event: SendEvent) -> (r: SendNext)
        ensures
            r@ == self@.after(event@),
    {
        let payload = self.payload;
        let stream = self.stream;
        match (self.stage, event) {
            (SendStage::Stale(old), SendEvent::Refreshed(new)) => {
                let cookie = match new {
                    Some(s) => s.business_cookie(),
                    None => old.business_cookie(),
                };
                SendNext::Continue(SendFlow { payload, stream, stage: SendStage::First { cookie } })
            },
            (SendStage::First { cookie: _ }, SendEvent::Sent(sent)) => match sent {
                Err(e) => SendNext::Failed(SendError::Upstream(e)),
                Ok(status) => if status == 401 {
                    SendNext::Continue(SendFlow { payload, stream, stage: SendStage::Denied })
                } else {
                    SendNext::UseFirst
                },
            },
            (SendStage::Denied, SendEvent::Refreshed(new)) => match new {
                Some(s) => SendNext::Continue(
                    SendFlow {
                        payload,
                        stream,
                        stage: SendStage::Second { cookie: s.business_cookie() },
                    },
                ),
                None => SendNext::UseFirst,
            },
            (SendStage::Second { cookie: _ }, SendEvent::Sent(sent)) => match sent {
                Ok(_) => SendNext::UseSecond,
                Err(_) => SendNext::UseFirst,
            },
            (stage, _) => SendNext::Continue(SendFlow { payload, stream, stage }),
        }
    }
}

/// POST a chat-completions payload to the MiMo free channel.
///
/// On 401, performs one single-flight token refresh and retries once.
pub fn send_chat(session: Option<Session>, payload: &Json) -> (r: Result<SendFlow, SendError>)
    ensures
        exists|now: i64|
            match #[trigger] send_from(opt_session(session), payload@, now) {
                Ok(v) => r matches Ok(flow) && flow@ == v,
                Err(e) => r matches Err(error) && error@ == e,
            },
{
    let now = outside::now_millis();
    SendFlow::start_at(session, payload, now)
}

// ── refreshing a token ──────────────────────────────────────────────
/// What a refresh does when its turn has come.
#[derive(Debug)]
pub enum RefreshStep {
    /// There is no session to refresh.
    NotLoggedIn,
    /// Another refresh has just given this session.
    Reuse(Session),
    /// A token is to be minted for this session.
    Mint(Session),
}

/// What a refresh does when its turn has come.
pub enum RefreshStepView {
    NotLoggedIn,
    Reuse(SessionView),
    Mint(SessionView),
}

impl View for RefreshStep {
    type V = RefreshStepView;

    open spec fn view(&self) -> RefreshStepView {
        match *self {
            RefreshStep::NotLoggedIn => RefreshStepView::NotLoggedIn,
            RefreshStep::Reuse(s) => RefreshStepView::Reuse(s@),
            RefreshStep::Mint(s) => RefreshStepView::Mint(s@),
        }
    }
}

/// Refreshes take turns. One that waited for another reuses what that one minted, unless it was
/// told to mint in any case.
pub open spec fn refresh_turn(
    force: bool,
    seen: Option<i64>,
    current: Option<SessionView>,
) -> RefreshStepView {
    match current {
        None => RefreshStepView::NotLoggedIn,
        Some(s) => if !force && s.service_token is Some && s.refreshed_at is Some && s.refreshed_at
            != seen {
            RefreshStepView::Reuse(s)
        } else {
            RefreshStepView::Mint(s)
        },
    }
}

/// Decides what a refresh does when its turn has come: `seen` is when the token was refreshed
/// that its caller knew.
pub fn refresh_step(force: bool, seen: Option<i64>, current: Option<Session>) -> (r: RefreshStep)
    ensures
        r@ == refresh_turn(force, seen, opt_session(current)),
{
    match current {
        None => RefreshStep::NotLoggedIn,
        Some(s) => {
            let fresher = match (s.refreshed_at, seen) {
                (Some(a), Some(b)) => a != b,
                (Some(_), None) => true,
                _ => false,
            };
            if !force && s.is_authenticated() && fresher {
                RefreshStep::Reuse(s)
            } else {
                RefreshStep::Mint(s)
            }
        },
    }
}

/// Of several calls whose token is refused at once, one mints a new token and the others use it: a
/// refresh that was waiting while the session got a newer token takes that one, unless it has to
/// mint in any case.
pub proof fn waiting_refreshes_reuse(seen: Option<i64>, current: SessionView)
    requires
        current.service_token is Some,
        current.refreshed_at is Some,
        current.refreshed_at != seen,
    ensures
        refresh_turn(false, seen, Some(current)) == RefreshStepView::Reuse(current),
        refresh_turn(true, seen, Some(current)) == RefreshStepView::Mint(current),
{
}

/// A refresh mints a token for the session that is there, unless another one has just done so;
/// without a session there is nothing to refresh.
pub proof fn refreshes_mint(force: bool, seen: Option<i64>, current: SessionView)
    ensures
        refresh_turn(force, seen, None) is NotLoggedIn,
        force || current.service_token is None || current.refreshed_at is None
            || current.refreshed_at == seen ==> refresh_turn(force, seen, Some(current))
            == RefreshStepView::Mint(current),
{
}

/// Keeps a session whose token was minted. A session that cannot be written is good for this call
/// all the same.
pub fn keep_minted<W: FnOnce(&Session) -> Result<(), BridgeError>>(
    storage: &mut Storage,
    session: Session,
    outcome: Result<(), BridgeError>,
    write: W,
) -> (r: Result<Session, BridgeError>)
    requires
        forall|s: &Session| call_requires(write, (s,)),
    ensures
        match outcome {
            Err(e) => r == Err::<Session, BridgeError>(e) && final(storage)@ == old(storage)@,
            Ok(_) => r matches Ok(s) && s@ == session@ && storage::session_kept(
                write,
                old(storage)@,
                session@,
                final(storage)@,
            ),
        },
{
    match outcome {
        Err(e) => Err(e),
        Ok(_) => {
            let _ = storage.save_session(session.clone(), write);
            Ok(session)
        },
    }
}

// ── lines of an event stream ────────────────────────────────────────
/// Where the first line feed stands, or the length.
pub open spec fn line_end(buf: Seq<u8>) -> int
    decreases buf.len(),
{
    if buf.len() == 0 || buf[0] == 10 {
        0
    } else {
        1 + line_end(buf.skip(1))
    }
}

/// The first complete line of a buffer and what follows it.
pub open spec fn first_line(buf: Seq<u8>) -> Option<(Seq<char>, Seq<u8>)> {
    let at = line_end(buf);
    if at < buf.len() {
        Some((text::without_cr(outside::lossy_text(buf.take(at))), buf.skip(at + 1)))
    } else {
        None
    }
}

pub proof fn lemma_line_end(buf: Seq<u8>)
    ensures
        0 <= line_end(buf) <= buf.len(),
        line_end(buf) < buf.len() ==> buf[line_end(buf)] == 10,
        forall|i: int| 0 <= i < line_end(buf) ==> buf[i] != 10,
    decreases buf.len(),
{
    if buf.len() != 0 && buf[0] != 10 {
        let rest = buf.skip(1);
        lemma_line_end(rest);
        assert forall|i: int| 0 <= i < line_end(buf) implies buf[i] != 10 by {
            if i > 0 {
                assert(buf[i] == rest[i - 1]);
            }
        }
    }
}

pub proof fn lemma_line_end_is(buf: Seq<u8>, at: int)
    requires
        0 <= at <= buf.len(),
        forall|i: int| 0 <= i < at ==> buf[i] != 10,
        at < buf.len() ==> buf[at] == 10,
    ensures
        line_end(buf) == at,
{
    lemma_line_end(buf);
    let f = line_end(buf);
    if f < at {
        assert(buf[f] == 10);
    }
}

/// The complete lines of a buffer.
pub open spec fn complete_lines(buf: Seq<u8>) -> Seq<Seq<char>>
    decreases buf.len(),
{
    let at = line_end(buf);
    if 0 <= at < buf.len() {
        seq![text::without_cr(outside::lossy_text(buf.take(at)))] + complete_lines(buf.skip(at + 1))
    } else {
        Seq::empty()
    }
}

/// What follows the last complete line of a buffer.
pub open spec fn unfinished(buf: Seq<u8>) -> Seq<u8>
    decreases buf.len(),
{
    let at = line_end(buf);
    if 0 <= at < buf.len() {
        unfinished(buf.skip(at + 1))
    } else {
        buf
    }
}

/// How a stream is cut into chunks does not matter: the lines of two chunks together are those of
/// the first, and then those of the second read on from where the first broke off. A character
/// that is split between them is decoded once its line is complete.
pub proof fn chunking_is_invisible(a: Seq<u8>, b: Seq<u8>)
    ensures
        complete_lines(a + b) == complete_lines(a) + complete_lines(unfinished(a) + b),
        unfinished(a + b) == unfinished(unfinished(a) + b),
    decreases a.len(),
{
    lemma_line_end(a);
    let at = line_end(a);
    if at < a.len() {
        lemma_line_end_is(a + b, at);
        assert((a + b).take(at) =~= a.take(at));
        assert((a + b).skip(at + 1) =~= a.skip(at + 1) + b);
        chunking_is_invisible(a.skip(at + 1), b);
        let line = seq![text::without_cr(outside::lossy_text(a.take(at)))];
        assert(line + (complete_lines(a.skip(at + 1)) + complete_lines(
            unfinished(a.skip(at + 1)) + b,
        )) =~= (line + complete_lines(a.skip(at + 1))) + complete_lines(
            unfinished(a.skip(at + 1)) + b,
        ));
    } else {
        assert(complete_lines(a) + complete_lines(a + b) =~= complete_lines(a + b));
    }
}

/// Where the first line feed of a buffer stands, or the buffer's length.
pub(crate) fn line_length(buf: &Vec<u8>) -> (r: usize)
    ensures
        r == line_end(buf@),
{
    let mut pos: usize = 0;
    while pos < buf.len() && buf[pos] != 10
        invariant
            pos <= buf@.len(),
            forall|i: int| 0 <= i < pos ==> buf@[i] != 10,
        decreases buf@.len() - pos,
    {
        pos += 1;
    }
    proof {
        lemma_line_end_is(buf@, pos as int);
    }
    pos
}

/// Pull one complete line (sans terminator) from a raw byte buffer.
///
/// The buffer stays bytes so a multi-byte UTF-8 character split across TCP
/// chunks is only decoded once the full line has arrived. Returns `None`
/// while no full line is buffered.
pub fn take_sse_line(buf: &mut Vec<u8>) -> (r: Option<String>)
    ensures
        match first_line(old(buf)@) {
            Some(p) => r matches Some(line) && line@ == p.0 && final(buf)@ == p.1,
            None => r is None && final(buf)@ == old(buf)@,
        },
        r matches Some(line) ==> {
            let bytes = old(buf)@.take(line_end(old(buf)@));
            vstd::utf8::valid_utf8(bytes) ==> line@ == text::without_cr(vstd::utf8::decode_utf8(bytes))
        },
{
    let ghost all = buf@;
    let pos = line_length(buf);
    proof {
        lemma_line_end(all);
    }
    if pos == buf.len() {
        return None;
    }
    let rest = buf.split_off(pos + 1);
    let _ = buf.pop();
    assert(buf@ =~= all.take(pos as int));
    assert(rest@ =~= all.skip(pos + 1));
    let line = outside::decode_lossy(buf.as_slice());
    *buf = rest;
    Some(text::drop_cr(line))
}

} // verus!
