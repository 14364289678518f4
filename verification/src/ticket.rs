//! The second factor: asking for a ticket, handing it in, and signing in again with it.

use crate::auth::{
    Session, SessionView, TwoFactorFlow, TwoFactorView, ACCOUNT, AUTH2, LOGIN_UA, SID,
};
use crate::error::{BridgeError, ErrorView};
use crate::exchange::{
    HttpReply, HttpRequest, Pairs, PayloadView, RedirectWalk, ReplyView, RequestView, WalkStep, WalkStepView,
    WalkView,
};
use crate::json::{Json, JsonView};
use crate::auth;
use crate::cookies;
use crate::exchange;
use crate::json;
use crate::keys;
use crate::login;
use crate::outside;
use crate::text;
use vstd::prelude::*;

verus! {

// ── asking for a ticket ─────────────────────────────────────────────
/// A page of the identity server, with a time stamp against caches.
pub open spec fn stamped(path: Seq<char>, stamp: i64) -> Seq<char> {
    ACCOUNT@ + path + "?_dc="@ + text::int_text(stamp as int)
}

/// The request for a ticket.
pub open spec fn send_request(flow: TwoFactorView, flag: i32, stamp: i64) -> RequestView {
    exchange::form_request(
        stamped(auth::ticket_paths(flag).0, stamp),
        LOGIN_UA@,
        seq![("_json"@, "true"@), ("retry"@, "0"@), ("icode"@, ""@)],
        flow.cookie_header,
    )
}

/// The request for a ticket, at a given time.
pub fn send_ticket_at(flow: &TwoFactorFlow, flag: i32, stamp: i64) -> (r: HttpRequest)
    ensures
        r@ == send_request(flow@, flag, stamp),
{
    let (path, _) = auth::two_factor_paths(flag);
    let url = text::cat4(ACCOUNT, path, "?_dc=", text::i64_text(stamp).as_str());
    let mut form = Pairs::new();
    form.add("_json", "true");
    form.add("retry", "0");
    form.add("icode", "");
    assert(form@ =~= seq![("_json"@, "true"@), ("retry"@, "0"@), ("icode"@, ""@)]);
    exchange::make_form_post(url.as_str(), LOGIN_UA, form, flow.cookie_header.as_str())
}

/// Send 2FA ticket (SMS/email). Reuses the cookies of the sign-in.
pub fn send_ticket(flow: &TwoFactorFlow, flag: i32) -> (r: HttpRequest)
    ensures
        exists|stamp: i64| r@ == #[trigger] send_request(flow@, flag, stamp),
{
    let stamp = outside::now_millis();
    send_ticket_at(flow, flag, stamp)
}

/// The first of some members that is there, as text.
pub open spec fn text_of_first(a: Option<JsonView>, b: Option<JsonView>) -> Option<Seq<char>> {
    match auth::either(a, b) {
        Some(v) => v.text(),
        None => None,
    }
}

/// What the reply to the request for a ticket means: that it was sent, with the cookies from then
/// on, or why not.
pub open spec fn judged_sent(body: JsonView, next_cookie: Seq<char>) -> (bool, Seq<char>) {
    if login::code_of(body) == 0 {
        (true, next_cookie)
    } else {
        (
            false,
            login::or_else(
                text_of_first(
                    body.field("tips"@),
                    auth::either(body.field("desc"@), body.field("description"@)),
                ),
                "send failed"@,
            ) + " (code="@ + text::int_text(login::code_of(body) as int) + ")"@,
        )
    }
}

/// What comes of asking for a ticket.
pub open spec fn ticket_sent(
    cookie: Seq<char>,
    event: Result<ReplyView, Seq<char>>,
) -> Result<(bool, Seq<char>), ErrorView> {
    match event {
        Err(e) => Err(ErrorView::Login("sendTicket: "@ + e)),
        Ok(reply) => match reply.body {
            Err(e) => Err(ErrorView::Http(e)),
            Ok(text) => match json::parsed_json(auth::unmarked(text)) {
                Err(e) => Err(ErrorView::Login("sendTicket parse: "@ + e)),
                Ok(body) => Ok(judged_sent(body, cookies::merged_header(cookie, reply.set_cookies))),
            },
        },
    }
}

fn first_member<'a>(a: Option<&'a Json>, b: Option<&'a Json>) -> (r: Option<&'a Json>)
    ensures
        json::opt_tree(r) == auth::either(json::opt_tree(a), json::opt_tree(b)),
{
    match a {
        Some(v) => Some(v),
        None => b,
    }
}

fn member_text(v: Option<&Json>, other: &str) -> (r: String)
    ensures
        r@ == login::or_else(
            (match json::opt_tree(v) {
                Some(t) => t.text(),
                None => None,
            }),
            other@,
        ),
{
    match v {
        Some(j) => match j.as_str() {
            Some(s) => s.to_string(),
            None => other.to_string(),
        },
        None => other.to_string(),
    }
}

/// What the reply to the request for a ticket means.
pub fn judge_sent(body: &Json, next_cookie: String) -> (r: (bool, String))
    ensures
        (r.0, r.1@) == judged_sent(body@, next_cookie@),
{
    let code = login::reply_code(body);
    if code == 0 {
        return (true, next_cookie);
    }
    let tips = first_member(
        body.get("tips"),
        first_member(body.get("desc"), body.get("description")),
    );
    let tips = member_text(tips, "send failed");
    (false, text::cat4(tips.as_str(), " (code=", text::i64_text(code).as_str(), ")"))
}

/// What comes of asking for a ticket.
pub fn after_send_ticket(flow: &TwoFactorFlow, event: Result<HttpReply, String>) -> (r: Result<
    (bool, String),
    BridgeError,
>)
    ensures
        match ticket_sent(flow@.cookie_header, exchange::event_view(event)) {
            Ok(p) => r matches Ok(q) && (q.0, q.1@) == p,
            Err(e) => r matches Err(error) && error@ == e,
        },
{
    match event {
        Err(e) => Err(BridgeError::Login(text::cat2("sendTicket: ", e.as_str()))),
        Ok(reply) => {
            let next_cookie = cookies::merge_set_cookie(flow.cookie_header.as_str(), &reply.set_cookies);
            match reply.body {
                Err(e) => Err(BridgeError::Http(e)),
                Ok(text) => match Json::parse(auth::strip_prefix(text.as_str())) {
                    Err(e) => Err(BridgeError::Login(text::cat2("sendTicket parse: ", e.as_str()))),
                    Ok(body) => Ok(judge_sent(&body, next_cookie)),
                },
            }
        },
    }
}

// ── handing a ticket in: models ─────────────────────────────────────
/// How far the handing in of a ticket is.
pub enum VerifyStageView {
    /// The ticket is to be sent.
    Verify { flag: i32, ticket: Seq<char>, cookie: Seq<char>, stamp: i64 },
    /// The reply to the ticket led elsewhere.
    VerifyWalk(WalkView),
    /// The ticket was taken, and its reply names a page to visit.
    LocationWalk(WalkView),
    /// The credentials are to be sent again.
    Auth2 { cookie: Seq<char> },
    /// The reply to the credentials led elsewhere.
    Auth2Walk(WalkView),
    /// The reply to the credentials was no JSON, but names a page that may be.
    ParseWalk { walk: WalkView, text: Seq<char>, location: Seq<char> },
    /// The credentials were taken, and a page is to be visited for its cookies.
    FinalWalk { walk: WalkView, body: JsonView, text: Seq<char>, session: SessionView },
}

/// What the handing in of a ticket is.
pub struct VerifyView {
    pub account: Seq<char>,
    pub hash: Seq<char>,
    pub stage: VerifyStageView,
}

/// How the handing in of a ticket goes on.
pub enum VerifyNextView {
    Continue(VerifyView),
    Done(SessionView),
    Failed(ErrorView),
}

/// The names of the cookies in a `Cookie` header.
pub open spec fn cookie_names_of(parts: Seq<Seq<char>>) -> Seq<Seq<char>>
    decreases parts.len(),
{
    if parts.len() == 0 {
        Seq::empty()
    } else {
        let names = cookie_names_of(parts.drop_last());
        match text::split_once_of(parts.last(), '=') {
            Some(p) if text::trim_of(p.0).len() > 0 => names.push(text::trim_of(p.0)),
            _ => names,
        }
    }
}

/// The member names of a reply, for an error message.
pub open spec fn names_in(body: JsonView) -> Seq<Seq<char>> {
    match body {
        JsonView::Object(m) => keys::key_list(m),
        _ => seq!["<non-object>"@],
    }
}

/// The end of a sign-in with a second factor: it has to have given a long-lived token.
pub open spec fn finished_verify(
    session: SessionView,
    body: JsonView,
    text: Seq<char>,
    cookie: Seq<char>,
) -> VerifyNextView {
    if session.pass_token is None {
        VerifyNextView::Failed(
            ErrorView::Login(
                "auth2 ok but no passToken (keys=["@ + text::joined(names_in(body), ","@)
                    + "] cookies=["@ + text::joined(cookie_names_of(text::split_on(cookie, ';')), ","@)
                    + "] body="@ + text::first_chars_of(text, 180) + ")"@,
            ),
        )
    } else {
        VerifyNextView::Done(session)
    }
}

impl VerifyView {
    /// The same at another stage.
    pub open spec fn at(self, stage: VerifyStageView) -> VerifyNextView {
        VerifyNextView::Continue(VerifyView { account: self.account, hash: self.hash, stage })
    }

    /// What the reply to the ticket means.
    pub open spec fn judged_ticket(self, body: JsonView, cookie: Seq<char>) -> VerifyNextView {
        let code = login::code_of(body);
        if code == 70014 || code == 7014 {
            VerifyNextView::Failed(ErrorView::VerificationCode)
        } else if code != 0 {
            VerifyNextView::Failed(
                ErrorView::Login(
                    "verify code="@ + text::int_text(code as int) + " desc="@ + login::or_else(
                        text_of_first(body.field("description"@), body.field("tips"@)),
                        "verify failed"@,
                    ),
                ),
            )
        } else {
            match auth::location_of(body.text_at("location"@)) {
                Some(loc) => match exchange::walk_from(loc, cookie, LOGIN_UA@) {
                    Ok(walk) => self.at(VerifyStageView::LocationWalk(walk)),
                    Err(e) => VerifyNextView::Failed(e),
                },
                None => self.at(VerifyStageView::Auth2 { cookie }),
            }
        }
    }

    /// How it goes on once the last reply to the ticket is there.
    pub open spec fn settled_ticket(self, cookie: Seq<char>, reply: ReplyView) -> VerifyNextView {
        match reply.body {
            Err(e) => VerifyNextView::Failed(ErrorView::Http(e)),
            Ok(text) => match json::parsed_json(auth::unmarked(text)) {
                Err(e) => VerifyNextView::Failed(ErrorView::Login("verifyTicket parse: "@ + e)),
                Ok(body) => self.judged_ticket(body, cookie),
            },
        }
    }

    /// What the reply to the repeated credentials means. A page that the reply names is visited
    /// first: it is often the one that sets the long-lived token.
    pub open spec fn judged_replay(
        self,
        body: JsonView,
        text: Seq<char>,
        cookie: Seq<char>,
        location: Option<Seq<char>>,
    ) -> VerifyNextView {
        let session = auth::merged_session(auth::session_of_body(body), cookie);
        if login::code_of(body) != 0 && session.pass_token is None {
            VerifyNextView::Failed(
                ErrorView::Login(
                    "post-2fa auth2 code="@ + text::int_text(login::code_of(body) as int)
                        + " desc="@ + login::or_else(
                        body.text_at("description"@),
                        "post-2fa auth2 failed"@,
                    ),
                ),
            )
        } else {
            match auth::either(location, auth::location_of(body.text_at("location"@))) {
                Some(loc) => match exchange::walk_from(loc, cookie, LOGIN_UA@) {
                    Ok(walk) => self.at(VerifyStageView::FinalWalk { walk, body, text, session }),
                    Err(e) => VerifyNextView::Failed(e),
                },
                None => finished_verify(session, body, text, cookie),
            }
        }
    }

    /// How it goes on once the last reply to the repeated credentials is there.
    pub open spec fn settled_replay(self, cookie: Seq<char>, reply: ReplyView) -> VerifyNextView {
        let merged = cookies::merged_header(cookie, reply.set_cookies);
        let location = auth::location_of(reply.location);
        match reply.body {
            Err(e) => VerifyNextView::Failed(ErrorView::Http(e)),
            Ok(text) => match json::parsed_json(auth::unmarked(text)) {
                Ok(body) => self.judged_replay(body, text, merged, location),
                Err(_) => match location {
                    Some(loc) => match exchange::walk_from(loc, merged, LOGIN_UA@) {
                        Ok(walk) => self.at(
                            VerifyStageView::ParseWalk { walk, text, location: loc },
                        ),
                        Err(e) => VerifyNextView::Failed(e),
                    },
                    None => VerifyNextView::Failed(
                        ErrorView::Login("post-2fa auth2 parse fail"@),
                    ),
                },
            },
        }
    }

    /// The next request.
    pub open spec fn request(self) -> RequestView {
        match self.stage {
            VerifyStageView::Verify { flag, ticket, cookie, stamp } => exchange::form_request(
                stamped(auth::ticket_paths(flag).1, stamp),
                LOGIN_UA@,
                seq![
                    ("_flag"@, text::int_text(flag as int)),
                    ("ticket"@, ticket),
                    ("trust"@, "true"@),
                    ("_json"@, "true"@),
                ],
                cookie,
            ),
            VerifyStageView::VerifyWalk(walk) => walk.request(),
            VerifyStageView::LocationWalk(walk) => walk.request(),
            VerifyStageView::Auth2 { cookie } => exchange::form_request(
                AUTH2@,
                LOGIN_UA@,
                login::auth2_fields(self.account, self.hash),
                cookie,
            ),
            VerifyStageView::Auth2Walk(walk) => walk.request(),
            VerifyStageView::ParseWalk { walk, text, location } => walk.request(),
            VerifyStageView::FinalWalk { walk, body, text, session } => walk.request(),
        }
    }

    /// How it goes on when the request has ended.
    pub open spec fn after(self, event: Result<ReplyView, Seq<char>>) -> VerifyNextView {
        match self.stage {
            VerifyStageView::Verify { flag, ticket, cookie, stamp } => match event {
                Err(e) => VerifyNextView::Failed(ErrorView::Login("verifyTicket: "@ + e)),
                Ok(reply) => {
                    let merged = cookies::merged_header(cookie, reply.set_cookies);
                    match reply.target() {
                        Some(loc) => match exchange::walk_from(loc, merged, LOGIN_UA@) {
                            Ok(walk) => self.at(VerifyStageView::VerifyWalk(walk)),
                            Err(e) => VerifyNextView::Failed(e),
                        },
                        None => self.settled_ticket(merged, reply),
                    }
                },
            },
            VerifyStageView::VerifyWalk(walk) => match walk.after(event) {
                WalkStepView::Next(walk) => self.at(VerifyStageView::VerifyWalk(walk)),
                WalkStepView::Failed(e) => VerifyNextView::Failed(e),
                WalkStepView::Done(cookie, reply) => self.settled_ticket(cookie, reply),
            },
            VerifyStageView::LocationWalk(walk) => match walk.after(event) {
                WalkStepView::Next(walk) => self.at(VerifyStageView::LocationWalk(walk)),
                WalkStepView::Failed(e) => VerifyNextView::Failed(e),
                WalkStepView::Done(cookie, reply) => self.at(VerifyStageView::Auth2 { cookie }),
            },
            VerifyStageView::Auth2 { cookie } => match event {
                Err(e) => VerifyNextView::Failed(ErrorView::Login("post-2fa auth2: "@ + e)),
                Ok(reply) => match reply.target() {
                    Some(loc) => match exchange::walk_from(
                        loc,
                        cookies::merged_header(cookie, reply.set_cookies),
                        LOGIN_UA@,
                    ) {
                        Ok(walk) => self.at(VerifyStageView::Auth2Walk(walk)),
                        Err(e) => VerifyNextView::Failed(e),
                    },
                    None => self.settled_replay(
                        if exchange::redirects(reply.status) {
                            cookies::merged_header(cookie, reply.set_cookies)
                        } else {
                            cookie
                        },
                        reply,
                    ),
                },
            },
            VerifyStageView::Auth2Walk(walk) => match walk.after(event) {
                WalkStepView::Next(walk) => self.at(VerifyStageView::Auth2Walk(walk)),
                WalkStepView::Failed(e) => VerifyNextView::Failed(e),
                WalkStepView::Done(cookie, reply) => self.settled_replay(cookie, reply),
            },
            VerifyStageView::ParseWalk { walk, text, location } => match walk.after(event) {
                WalkStepView::Next(walk) => self.at(
                    VerifyStageView::ParseWalk { walk, text, location },
                ),
                WalkStepView::Failed(e) => VerifyNextView::Failed(e),
                WalkStepView::Done(cookie, reply) => match reply.body {
                    Err(e) => VerifyNextView::Failed(ErrorView::Http(e)),
                    Ok(found) => match json::parsed_json(auth::unmarked(found)) {
                        Err(e) => VerifyNextView::Failed(
                            ErrorView::Login("post-2fa auth2 parse: "@ + e),
                        ),
                        Ok(body) => self.judged_replay(body, text, cookie, Some(location)),
                    },
                },
            },
            VerifyStageView::FinalWalk { walk, body, text, session } => match walk.after(event) {
                WalkStepView::Next(walk) => self.at(
                    VerifyStageView::FinalWalk { walk, body, text, session },
                ),
                WalkStepView::Failed(e) => VerifyNextView::Failed(e),
                WalkStepView::Done(cookie, reply) => finished_verify(
                    auth::merged_session(session, cookie),
                    body,
                    text,
                    cookie,
                ),
            },
        }
    }
}

/// Whether a session's long-lived token, if it has one, is not empty.
pub open spec fn token_holds(session: SessionView) -> bool {
    session.pass_token matches Some(t) ==> t.len() > 0
}

impl VerifyView {
    /// Whether a session that waits for the last walk has no empty long-lived token.
    pub open spec fn sound(self) -> bool {
        self.stage matches VerifyStageView::FinalWalk { session, .. } ==> token_holds(session)
    }

    /// How many requests it may still take.
    pub open spec fn requests_left(self) -> nat {
        match self.stage {
            VerifyStageView::Verify { .. } => 42,
            VerifyStageView::VerifyWalk(walk) => walk.requests_left() + 33,
            VerifyStageView::LocationWalk(walk) => walk.requests_left() + 25,
            VerifyStageView::Auth2 { .. } => 25,
            VerifyStageView::Auth2Walk(walk) => walk.requests_left() + 16,
            VerifyStageView::ParseWalk { walk, .. } => walk.requests_left() + 8,
            VerifyStageView::FinalWalk { walk, .. } => walk.requests_left(),
        }
    }
}

/// The handing in of a ticket ends, whatever the replies are: each reply brings it nearer to its
/// end, and it begins at most forty-two requests away from it. A session that comes of it has a
/// long-lived token, which is not empty.
pub proof fn ticket_ends(flow: VerifyView, event: Result<ReplyView, Seq<char>>)
    ensures
        flow.after(event) matches VerifyNextView::Continue(next) ==> next.requests_left()
            < flow.requests_left(),
        flow.stage is Verify ==> flow.requests_left() == 42,
        flow.after(event) matches VerifyNextView::Done(session) ==> session.pass_token is Some,
        flow.stage is Verify ==> flow.sound(),
        flow.sound() ==> (flow.after(event) matches VerifyNextView::Continue(next)
            ==> next.sound()),
        flow.sound() ==> (flow.after(event) matches VerifyNextView::Done(session) ==> token_holds(
            session,
        )),
{
}

/// Whether it waits for the page that the reply to the repeated credentials named, with a session
/// that has all that the reply told.
pub open spec fn keeps_told(flow: VerifyView, body: JsonView) -> bool {
    flow.stage matches VerifyStageView::FinalWalk { session, .. } && auth::holds_told(session, body)
}

/// The reply to the repeated credentials counts for what it tells. With a long-lived token in it
/// the sign-in goes well: at once where it names no page, else once the page that it names was
/// visited. The session has every field that the reply told, with the value that it told.
pub proof fn replayed_reply_counts(
    flow: VerifyView,
    cookie: Seq<char>,
    reply: ReplyView,
    body: JsonView,
    token: Seq<char>,
    page: Seq<char>,
)
    requires
        flow.stage == (VerifyStageView::Auth2 { cookie }),
        login::answers(reply, body),
        json::says(body, "passToken"@, token),
    ensures
        reply.location is None && json::lacks(body, "location"@) ==> (flow.after(Ok(reply))
            matches VerifyNextView::Done(session) && session.pass_token == Some(token)
            && auth::made_of(
            session,
            body,
            cookies::jar_of(cookies::merged_header(cookie, reply.set_cookies)),
        )),
        reply.location is None && json::says(body, "location"@, page) && text::is_trimmed(page)
            && page != "null"@ ==> (flow.after(Ok(reply)) matches VerifyNextView::Continue(next)
            && keeps_told(next, body) && (next.stage matches VerifyStageView::FinalWalk {
            session,
            ..
        } && auth::made_of(
            session,
            body,
            cookies::jar_of(cookies::merged_header(cookie, reply.set_cookies)),
        )) && next.request().url == page && !next.request().post
            && exchange::carries(
            next.request(),
            cookies::merged_header(cookie, reply.set_cookies),
        )),
        reply.location == Some(page) && page.len() > 0 && text::is_trimmed(page) && page != "null"@
            ==> (flow.after(Ok(reply)) matches VerifyNextView::Continue(next) && keeps_told(
            next,
            body,
        ) && next.request().url == page),
{
    let merged = cookies::merged_header(cookie, reply.set_cookies);
    auth::told_fields_count(body, merged);
    text::lemma_trim(page);
    exchange::requests_carry_what_they_should(page, LOGIN_UA@, Seq::empty(), merged);
}

/// A long-lived token that only the cookies bring is as good as one that the reply tells, whatever
/// code the reply has: the sign-in goes well, or goes on to the page that the reply names with a
/// session that has the token.
pub proof fn cookies_can_bring_the_token(
    flow: VerifyView,
    cookie: Seq<char>,
    reply: ReplyView,
    body: JsonView,
    token: Seq<char>,
    page: Seq<char>,
)
    requires
        flow.stage == (VerifyStageView::Auth2 { cookie }),
        login::answers(reply, body),
        json::lacks(body, "passToken"@),
        auth::jar_says(
            cookies::jar_of(cookies::merged_header(cookie, reply.set_cookies)),
            "passToken"@,
            token,
        ),
    ensures
        reply.location is None && json::lacks(body, "location"@) ==> (flow.after(Ok(reply))
            matches VerifyNextView::Done(session) && session.pass_token == Some(token)
            && auth::made_of(
            session,
            body,
            cookies::jar_of(cookies::merged_header(cookie, reply.set_cookies)),
        )),
        reply.location is None && json::says(body, "location"@, page) && text::is_trimmed(page)
            && page != "null"@ ==> (flow.after(Ok(reply)) matches VerifyNextView::Continue(next)
            && keeps_told(next, body) && next.request().url == page && (next.stage
            matches VerifyStageView::FinalWalk { session, .. } && session.pass_token == Some(token))),
{
    auth::told_fields_count(body, cookies::merged_header(cookie, reply.set_cookies));
    text::lemma_trim(page);
}

/// A reply to the repeated credentials that cannot be read is looked up at the page that it names,
/// with the cookies that it set; where it names none, the sign-in fails.
pub proof fn unreadable_replies_are_looked_up(
    flow: VerifyView,
    cookie: Seq<char>,
    reply: ReplyView,
    text: Seq<char>,
    e: Seq<char>,
    page: Seq<char>,
)
    requires
        flow.stage == (VerifyStageView::Auth2 { cookie }),
        reply.status < 300 || reply.status >= 400,
        reply.body == Ok::<_, Seq<char>>(text),
        json::parsed_json(auth::unmarked(text)) == Err::<JsonView, Seq<char>>(e),
    ensures
        reply.location == Some(page) && page.len() > 0 && text::is_trimmed(page) && page != "null"@
            ==> (flow.after(Ok(reply)) matches VerifyNextView::Continue(next)
            && next.stage is ParseWalk && next.request().url == page && exchange::carries(
            next.request(),
            cookies::merged_header(cookie, reply.set_cookies),
        )),
        reply.location is None ==> flow.after(Ok(reply)) is Failed,
{
    text::lemma_trim(page);
    exchange::requests_carry_what_they_should(
        page,
        LOGIN_UA@,
        Seq::empty(),
        cookies::merged_header(cookie, reply.set_cookies),
    );
}

/// Without a long-lived token nobody is signed in: neither the reply to the repeated credentials nor
/// its cookies have one, so the sign-in fails, or goes on only to visit the page that the reply
/// names. A code other than zero fails at once then.
pub proof fn no_token_means_no_session(
    flow: VerifyView,
    cookie: Seq<char>,
    reply: ReplyView,
    body: JsonView,
    code: i64,
)
    requires
        flow.stage == (VerifyStageView::Auth2 { cookie }),
        login::answers(reply, body),
        json::lacks(body, "passToken"@),
        auth::no_cookie(
            cookies::jar_of(cookies::merged_header(cookie, reply.set_cookies)),
            "passToken"@,
        ),
    ensures
        !(flow.after(Ok(reply)) is Done),
        reply.location is None && json::lacks(body, "location"@) ==> flow.after(Ok(reply)) is Failed,
        (json::counts(body, "code"@, code as int) && code != 0) || json::lacks(body, "code"@)
            ==> flow.after(Ok(reply)) is Failed,
{
    let merged = cookies::merged_header(cookie, reply.set_cookies);
    auth::told_fields_count(body, merged);
    auth::cookies_fill_in_what_is_missing(auth::session_of_body(body), merged);
}

/// A reply that leads elsewhere is followed there, with the cookies that it set, before anything is
/// made of it.
pub proof fn redirects_are_followed(
    flow: VerifyView,
    flag: i32,
    ticket: Seq<char>,
    cookie: Seq<char>,
    stamp: i64,
    reply: ReplyView,
    page: Seq<char>,
)
    requires
        300 <= reply.status < 400,
        reply.location == Some(page),
        page.len() > 0,
        text::is_trimmed(page),
        page != "null"@,
    ensures
        flow.stage == (VerifyStageView::Verify { flag, ticket, cookie, stamp }) || flow.stage == (
        VerifyStageView::Auth2 { cookie }) ==> (flow.after(Ok(reply)) matches VerifyNextView::Continue(
            next,
        ) && next.request().url == page && exchange::carries(
            next.request(),
            cookies::merged_header(cookie, reply.set_cookies),
        ) && (flow.stage is Verify ==> next.stage is VerifyWalk) && (flow.stage is Auth2
            ==> next.stage is Auth2Walk)),
{
    text::lemma_trim(page);
    exchange::requests_carry_what_they_should(
        page,
        LOGIN_UA@,
        Seq::empty(),
        cookies::merged_header(cookie, reply.set_cookies),
    );
}

/// The reply to the repeated credentials counts just so where redirects led to it, or where only
/// the page that it named is JSON.
pub proof fn walked_replies_count(
    flow: VerifyView,
    walk: WalkView,
    shown: Seq<char>,
    reply: ReplyView,
    body: JsonView,
    token: Seq<char>,
    page: Seq<char>,
)
    requires
        login::answers(reply, body),
        json::says(body, "passToken"@, token),
        page.len() > 0,
        text::is_trimmed(page),
    ensures
        flow.stage == VerifyStageView::Auth2Walk(walk) && reply.location is None && json::lacks(
            body,
            "location"@,
        ) ==> (flow.after(Ok(reply)) matches VerifyNextView::Done(session) && session.pass_token
            == Some(token) && auth::made_of(
            session,
            body,
            cookies::jar_of(
                cookies::merged_header(
                    cookies::merged_header(walk.cookie, reply.set_cookies),
                    reply.set_cookies,
                ),
            ),
        )),
        flow.stage == VerifyStageView::Auth2Walk(walk) && reply.location is None && json::says(
            body,
            "location"@,
            page,
        ) && page != "null"@ ==> (flow.after(Ok(reply)) matches VerifyNextView::Continue(next)
            && keeps_told(next, body) && next.request().url == page),
        flow.stage == (VerifyStageView::ParseWalk { walk, text: shown, location: page }) ==> (
        flow.after(Ok(reply)) matches VerifyNextView::Continue(next) && keeps_told(next, body)
            && next.request().url == page),
{
    let once = cookies::merged_header(walk.cookie, reply.set_cookies);
    let twice = cookies::merged_header(once, reply.set_cookies);
    auth::told_fields_count(body, once);
    auth::told_fields_count(body, twice);
    text::lemma_trim(page);
}

/// The visit of the page that the reply to the repeated credentials named takes nothing of the
/// session away: on every hop the session keeps what was told, and when the visit ends with a
/// reply that leads nowhere else, the sign-in has gone well if a long-lived token was told. What
/// was not told is filled in from the cookies that the visit gathered.
pub proof fn final_page_only_adds(
    flow: VerifyView,
    body: JsonView,
    event: Result<ReplyView, Seq<char>>,
    token: Seq<char>,
)
    requires
        keeps_told(flow, body),
    ensures
        flow.after(event) matches VerifyNextView::Continue(next) ==> keeps_told(next, body),
        flow.after(event) matches VerifyNextView::Done(session) ==> auth::holds_told(session, body),
        json::says(body, "passToken"@, token) ==> (event matches Ok(reply) ==> reply.status < 300
            || reply.status >= 400 ==> (flow.after(event) matches VerifyNextView::Done(session)
            && session.pass_token == Some(token) && auth::holds_told(session, body))),
        (flow.stage matches VerifyStageView::FinalWalk { walk, session, .. } ==> session.pass_token is None
            ==> (event matches Ok(reply) ==> (reply.status < 300 || reply.status >= 400)
            && auth::jar_says(
            cookies::jar_of(cookies::merged_header(walk.cookie, reply.set_cookies)),
            "passToken"@,
            token,
        ) ==> (flow.after(event) matches VerifyNextView::Done(s) && s.pass_token == Some(token)))),
        (flow.stage matches VerifyStageView::FinalWalk { walk, session, .. } ==> session.pass_token is None
            ==> (event matches Ok(reply) ==> (reply.status < 300 || reply.status >= 400)
            && auth::no_cookie(
            cookies::jar_of(cookies::merged_header(walk.cookie, reply.set_cookies)),
            "passToken"@,
        ) ==> flow.after(event) is Failed)),
        (flow.stage matches VerifyStageView::FinalWalk { walk, session, .. } ==> (event matches Ok(
            reply,
        ) ==> reply.status < 300 || reply.status >= 400 ==> (flow.after(event)
            matches VerifyNextView::Done(s) ==> auth::filled_in(
            s,
            session,
            cookies::jar_of(cookies::merged_header(walk.cookie, reply.set_cookies)),
        )))),
{
    if let VerifyStageView::FinalWalk { walk, session, .. } = flow.stage {
        if let Ok(reply) = event {
            let cookie = cookies::merged_header(walk.cookie, reply.set_cookies);
            auth::cookies_fill_in_what_is_missing(session, cookie);
            assert forall|s: Seq<char>| json::says(body, "passToken"@, s) implies session.pass_token
                == Some(s) by {}
            if json::says(body, "passToken"@, token) {
                assert(session.pass_token == Some(token));
            }
            let merged = auth::merged_session(session, cookie);
            assert(auth::holds_told(merged, body)) by {
                assert forall|s: Seq<char>|
                    json::says(body, "userId"@, s) implies merged.user_id == Some(s) by {
                    assert(session.user_id == Some(s));
                }
                assert forall|s: Seq<char>|
                    json::says(body, "cUserId"@, s) implies merged.c_user_id == Some(s) by {
                    assert(session.c_user_id == Some(s));
                }
                assert forall|s: Seq<char>|
                    json::says(body, "passToken"@, s) implies merged.pass_token == Some(s) by {
                    assert(session.pass_token == Some(s));
                }
                assert forall|s: Seq<char>|
                    json::says(body, "ssecurity"@, s) implies merged.ssecurity == Some(s) by {
                    assert(session.ssecurity == Some(s));
                }
                assert forall|n: int|
                    json::counts(body, "userId"@, n) implies merged.user_id == Some(
                    text::int_text(n),
                ) by {
                    assert(session.user_id == Some(text::int_text(n)));
                }
            }
        }
    }
}

/// The ticket is handed in as it was typed, with its kind, where its kind is checked; the
/// credentials that follow it are those of the sign-in. Every request carries the cookies that were
/// gathered.
pub proof fn tickets_are_handed_in_as_typed(
    flow: VerifyView,
    flag: i32,
    ticket: Seq<char>,
    cookie: Seq<char>,
    stamp: i64,
)
    ensures
        flow.stage == (VerifyStageView::Verify { flag, ticket, cookie, stamp }) ==> {
            &&& flow.request().post
            &&& text::begins_with(
                flow.request().url,
                ACCOUNT@ + if flag == 4 {
                    "/identity/auth/verifyPhone"@
                } else {
                    "/identity/auth/verifyEmail"@
                },
            )
            &&& flow.request().payload matches PayloadView::Form(form) && form.contains(
                ("ticket"@, ticket),
            ) && form.contains(("_flag"@, text::int_text(flag as int))) && form.contains(
                ("trust"@, "true"@),
            )
            &&& exchange::carries(flow.request(), cookie)
        },
        flow.stage == (VerifyStageView::Auth2 { cookie }) ==> {
            &&& flow.request().post
            &&& flow.request().url == AUTH2@
            &&& flow.request().payload matches PayloadView::Form(form) && form.contains(
                ("user"@, flow.account),
            ) && form.contains(("hash"@, flow.hash)) && form.contains(("sid"@, SID@))
            &&& exchange::carries(flow.request(), cookie)
        },
{
    let url = stamped(auth::ticket_paths(flag).1, stamp);
    let path = ACCOUNT@ + auth::ticket_paths(flag).1;
    assert(url.take(path.len() as int) =~= path);
    let form = seq![
        ("_flag"@, text::int_text(flag as int)),
        ("ticket"@, ticket),
        ("trust"@, "true"@),
        ("_json"@, "true"@),
    ];
    exchange::requests_carry_what_they_should(url, LOGIN_UA@, form, cookie);
    assert(form[0].0 == "_flag"@ && form[1].0 == "ticket"@ && form[2].0 == "trust"@);
    assert(form.contains(form[0]) && form.contains(form[1]) && form.contains(form[2]));
    let again = login::auth2_fields(flow.account, flow.hash);
    exchange::requests_carry_what_they_should(AUTH2@, LOGIN_UA@, again, cookie);
    assert(again[0] == ("user"@, flow.account) && again[1] == ("hash"@, flow.hash) && again[2] == (
        "sid"@,
        SID@,
    ));
    assert(again.contains(again[0]) && again.contains(again[1]) && again.contains(again[2]));
}

/// A ticket is taken where its reply has the code zero, and only then: the credentials are sent
/// again, after the page that the reply names where it names one, with the cookies that the reply
/// set. A wrong ticket is told as such, and any other code ends the sign-in.
pub proof fn only_right_tickets_are_taken(
    flow: VerifyView,
    flag: i32,
    ticket: Seq<char>,
    cookie: Seq<char>,
    stamp: i64,
    reply: ReplyView,
    body: JsonView,
    code: i64,
    page: Seq<char>,
)
    requires
        flow.stage == (VerifyStageView::Verify { flag, ticket, cookie, stamp }),
        login::answers(reply, body),
    ensures
        json::counts(body, "code"@, 0) && json::lacks(body, "location"@) ==> (flow.after(Ok(reply))
            matches VerifyNextView::Continue(next) && next.stage == (VerifyStageView::Auth2 {
            cookie: cookies::merged_header(cookie, reply.set_cookies),
        })),
        json::counts(body, "code"@, 0) && json::says(body, "location"@, page) && text::is_trimmed(
            page,
        ) && page != "null"@ ==> (flow.after(Ok(reply)) matches VerifyNextView::Continue(next)
            && next.stage is LocationWalk && next.request().url == page && exchange::carries(
            next.request(),
            cookies::merged_header(cookie, reply.set_cookies),
        )),
        json::counts(body, "code"@, 70014) || json::counts(body, "code"@, 7014) ==> flow.after(
            Ok(reply),
        ) == VerifyNextView::Failed(ErrorView::VerificationCode),
        json::counts(body, "code"@, code as int) && code != 0 ==> flow.after(Ok(reply)) is Failed,
        json::lacks(body, "code"@) ==> flow.after(Ok(reply)) is Failed,
{
    text::lemma_trim(page);
    exchange::requests_carry_what_they_should(
        page,
        LOGIN_UA@,
        Seq::empty(),
        cookies::merged_header(cookie, reply.set_cookies),
    );
}

/// The credentials that are sent again stay those of the sign-in, on every step; they are sent
/// with the cookies of the page that was visited before. Without a reply there is no session.
pub proof fn credentials_stay_the_same(flow: VerifyView, event: Result<ReplyView, Seq<char>>)
    ensures
        flow.after(event) matches VerifyNextView::Continue(next) ==> next.account == flow.account
            && next.hash == flow.hash,
        event is Err ==> flow.after(event) is Failed,
        flow.stage matches VerifyStageView::LocationWalk(walk) ==> (event matches Ok(reply)
            ==> reply.status < 300 || reply.status >= 400 ==> (flow.after(event)
            matches VerifyNextView::Continue(next) && next.stage == (VerifyStageView::Auth2 {
            cookie: cookies::merged_header(walk.cookie, reply.set_cookies),
        }))),
{
}

/// A ticket was sent where the reply has the code zero, and only then; the cookies that the reply
/// set are kept for the next request. It is asked for where its kind is sent, with the cookies of
/// the sign-in.
pub proof fn sent_tickets_are_told(
    flow: TwoFactorView,
    flag: i32,
    stamp: i64,
    reply: ReplyView,
    body: JsonView,
    code: i64,
)
    requires
        reply.body matches Ok(text) && json::parsed_json(auth::unmarked(text)) == json::read_as(
            body,
        ),
    ensures
        json::counts(body, "code"@, 0) ==> ticket_sent(flow.cookie_header, Ok(reply)) == Ok::<
            _,
            ErrorView,
        >((true, cookies::merged_header(flow.cookie_header, reply.set_cookies))),
        json::counts(body, "code"@, code as int) && code != 0 || json::lacks(body, "code"@) ==> (
        ticket_sent(flow.cookie_header, Ok(reply)) matches Ok(p) && !p.0),
        send_request(flow, flag, stamp).post,
        text::begins_with(
            send_request(flow, flag, stamp).url,
            ACCOUNT@ + if flag == 4 {
                "/identity/auth/sendPhoneTicket"@
            } else {
                "/identity/auth/sendEmailTicket"@
            },
        ),
        exchange::carries(send_request(flow, flag, stamp), flow.cookie_header),
{
    let url = stamped(auth::ticket_paths(flag).0, stamp);
    let path = ACCOUNT@ + auth::ticket_paths(flag).0;
    assert(url.take(path.len() as int) =~= path);
    exchange::requests_carry_what_they_should(
        url,
        LOGIN_UA@,
        seq![("_json"@, "true"@), ("retry"@, "0"@), ("icode"@, ""@)],
        flow.cookie_header,
    );
}

/// A ticket that is not sent is told with the reason that the reply gives, its tips before anything
/// else, and with the code; so is a ticket that is not taken, its description before its tips.
pub proof fn refused_tickets_are_told_why(
    cookie: Seq<char>,
    flow: VerifyView,
    flag: i32,
    ticket: Seq<char>,
    stamp: i64,
    reply: ReplyView,
    body: JsonView,
    code: i64,
    why: Seq<char>,
)
    requires
        login::answers(reply, body),
        json::counts(body, "code"@, code as int),
        code != 0,
    ensures
        json::has(body, "tips"@, JsonView::Text(why)) || json::lacks(body, "tips"@) && json::has(
            body,
            "desc"@,
            JsonView::Text(why),
        ) || json::lacks(body, "tips"@) && json::lacks(body, "desc"@) && json::has(
            body,
            "description"@,
            JsonView::Text(why),
        ) ==> ticket_sent(cookie, Ok(reply)) == Ok::<(bool, Seq<char>), ErrorView>(
            (false, why + " (code="@ + text::int_text(code as int) + ")"@),
        ),
        flow.stage == (VerifyStageView::Verify { flag, ticket, cookie, stamp }) && code != 70014
            && code != 7014 && (json::has(body, "description"@, JsonView::Text(why)) || json::lacks(
            body,
            "description"@,
        ) && json::has(body, "tips"@, JsonView::Text(why))) ==> flow.after(Ok(reply))
            == VerifyNextView::Failed(
            ErrorView::Login("verify code="@ + text::int_text(code as int) + " desc="@ + why),
        ),
{
}

/// A ticket is judged by the reply that it ends at, however many pages lead there: the last page
/// means what the same reply means where it comes at once, with the cookies of the pages before.
pub proof fn redirected_tickets_are_judged_alike(
    flow: VerifyView,
    walk: exchange::WalkView,
    direct: VerifyView,
    flag: i32,
    ticket: Seq<char>,
    stamp: i64,
    reply: ReplyView,
)
    requires
        flow.stage == VerifyStageView::VerifyWalk(walk),
        direct == (VerifyView {
            stage: VerifyStageView::Verify { flag, ticket, cookie: walk.cookie, stamp },
            ..flow
        }),
        reply.status < 300 || reply.status >= 400,
    ensures
        flow.after(Ok(reply)) == direct.after(Ok(reply)),
{
}

// ── handing a ticket in ─────────────────────────────────────────────
/// How far the handing in of a ticket is.
#[derive(Debug)]
pub enum VerifyStage {
    Verify { flag: i32, ticket: String, cookie: String, stamp: i64 },
    VerifyWalk(RedirectWalk),
    LocationWalk(RedirectWalk),
    Auth2 { cookie: String },
    Auth2Walk(RedirectWalk),
    ParseWalk { walk: RedirectWalk, text: String, location: String },
    FinalWalk { walk: RedirectWalk, body: Json, text: String, session: Session },
}

/// The handing in of a ticket, and the sign-in that follows it.
#[derive(Debug)]
pub struct VerifyFlow {
    pub account: String,
    pub hash: String,
    pub stage: VerifyStage,
}

/// How the handing in of a ticket goes on.
#[derive(Debug)]
pub enum VerifyNext {
    Continue(VerifyFlow),
    Done(Session),
    Failed(BridgeError),
}

impl View for VerifyStage {
    type V = VerifyStageView;

    open spec fn view(&self) -> VerifyStageView {
        match *self {
            VerifyStage::Verify { flag, ticket, cookie, stamp } => VerifyStageView::Verify {
                flag,
                ticket: ticket@,
                cookie: cookie@,
                stamp,
            },
            VerifyStage::VerifyWalk(walk) => VerifyStageView::VerifyWalk(walk@),
            VerifyStage::LocationWalk(walk) => VerifyStageView::LocationWalk(walk@),
            VerifyStage::Auth2 { cookie } => VerifyStageView::Auth2 { cookie: cookie@ },
            VerifyStage::Auth2Walk(walk) => VerifyStageView::Auth2Walk(walk@),
            VerifyStage::ParseWalk { walk, text, location } => VerifyStageView::ParseWalk {
                walk: walk@,
                text: text@,
                location: location@,
            },
            VerifyStage::FinalWalk { walk, body, text, session } => VerifyStageView::FinalWalk {
                walk: walk@,
                body: body@,
                text: text@,
                session: session@,
            },
        }
    }
}

impl View for VerifyFlow {
    type V = VerifyView;

    open spec fn view(&self) -> VerifyView {
        VerifyView { account: self.account@, hash: self.hash@, stage: self.stage@ }
    }
}

impl View for VerifyNext {
    type V = VerifyNextView;

    open spec fn view(&self) -> VerifyNextView {
        match *self {
            VerifyNext::Continue(flow) => VerifyNextView::Continue(flow@),
            VerifyNext::Done(session) => VerifyNextView::Done(session@),
            VerifyNext::Failed(e) => VerifyNextView::Failed(e@),
        }
    }
}

/// The names of the cookies in a `Cookie` header.
pub fn cookie_names(cookie: &str) -> (r: Vec<String>)
    ensures
        text::views(r@) == cookie_names_of(text::split_on(cookie@, ';')),
{
    let parts = text::split(cookie, ';');
    let mut names: Vec<String> = Vec::new();
    let mut i: usize = 0;
    assert(text::views(names@) =~= cookie_names_of(text::views(parts@).take(0)));
    while i < parts.len()
        invariant
            i <= parts@.len(),
            text::views(names@) == cookie_names_of(text::views(parts@).take(i as int)),
        decreases parts@.len() - i,
    {
        let ghost all = text::views(parts@);
        let ghost before = text::views(names@);
        assert(all.take(i + 1).drop_last() =~= all.take(i as int));
        assert(all.take(i + 1).last() == parts@[i as int]@);
        if let Some((k, _)) = text::split_once(parts[i].as_str(), '=') {
            let name = text::trim(k.as_str());
            if !name.as_str().is_empty() {
                names.push(name);
                assert(text::views(names@) =~= before.push(name@));
            }
        }
        i += 1;
    }
    assert(text::views(parts@).take(i as int) =~= text::views(parts@));
    names
}

/// The end of a sign-in with a second factor.
pub fn finish_verify(session: Session, body: &Json, text: &str, cookie: &str) -> (r: VerifyNext)
    ensures
        r@ == finished_verify(session@, body@, text@, cookie@),
{
    if session.pass_token.is_some() {
        return VerifyNext::Done(session);
    }
    let keys = match body {
        Json::Object(object) => keys::sorted_keys(object),
        _ => {
            let mut other: Vec<String> = Vec::new();
            other.push("<non-object>".to_string());
            assert(text::views(other@) =~= seq!["<non-object>"@]);
            other
        },
    };
    let names = cookie_names(cookie);
    VerifyNext::Failed(
        BridgeError::Login(
            text::cat7(
                "auth2 ok but no passToken (keys=[",
                text::join(&keys, ",").as_str(),
                "] cookies=[",
                text::join(&names, ",").as_str(),
                "] body=",
                text::first_chars(text, 180).as_str(),
                ")",
            ),
        ),
    )
}

/// Begins to hand a ticket in.
pub fn verify_ticket(flow: &TwoFactorFlow, flag: i32, ticket: &str, cookie_header: &str) -> (r:
    VerifyFlow)
    ensures
        r@.account == flow@.account,
        r@.hash == flow@.password_hash,
        r@.stage matches VerifyStageView::Verify { flag: f, ticket: t, cookie: c, stamp: s } && f
            == flag && t == ticket@ && c == cookie_header@,
{
    let stamp = outside::now_millis();
    VerifyFlow::start_at(flow, flag, ticket, cookie_header, stamp)
}

impl VerifyFlow {
    /// Begins to hand a ticket in, at a given time.
    pub fn start_at(
        flow: &TwoFactorFlow,
        flag: i32,
        ticket: &str,
        cookie_header: &str,
        stamp: i64,
    ) -> (r: VerifyFlow)
        ensures
            r@ == (VerifyView {
                account: flow@.account,
                hash: flow@.password_hash,
                stage: VerifyStageView::Verify { flag, ticket: ticket@, cookie: cookie_header@, stamp },
            }),
    {
        VerifyFlow {
            account: flow.account.clone(),
            hash: flow.password_hash.clone(),
            stage: VerifyStage::Verify {
                flag,
                ticket: ticket.to_string(),
                cookie: cookie_header.to_string(),
                stamp,
            },
        }
    }

    /// What the reply to the ticket means.
    pub fn judge_ticket(account: String, hash: String, body: &Json, cookie: String) -> (r:
        VerifyNext)
        ensures
            forall|v: VerifyView|
                v.account == account@ && v.hash == hash@ ==> r@ == #[trigger] v.judged_ticket(
                    body@,
                    cookie@,
                ),
    {
        let code = login::reply_code(body);
        if code == 70014 || code == 7014 {
            return VerifyNext::Failed(BridgeError::VerificationCode);
        }
        if code != 0 {
            let description = member_text(
                first_member(body.get("description"), body.get("tips")),
                "verify failed",
            );
            return VerifyNext::Failed(
                BridgeError::Login(
                    text::cat4("verify code=", text::i64_text(code).as_str(), " desc=", description.as_str()),
                ),
            );
        }
        match auth::nonempty_loc(body.str_at("location")) {
            Some(loc) => match RedirectWalk::start(loc.as_str(), cookie.as_str(), LOGIN_UA) {
                Ok(walk) => VerifyNext::Continue(
                    VerifyFlow { account, hash, stage: VerifyStage::LocationWalk(walk) },
                ),
                Err(e) => VerifyNext::Failed(e),
            },
            None => VerifyNext::Continue(
                VerifyFlow { account, hash, stage: VerifyStage::Auth2 { cookie } },
            ),
        }
    }

    /// How it goes on once the last reply to the ticket is there.
    pub fn settle_ticket(account: String, hash: String, cookie: String, reply: HttpReply) -> (r:
        VerifyNext)
        ensures
            forall|v: VerifyView|
                v.account == account@ && v.hash == hash@ ==> r@ == #[trigger] v.settled_ticket(
                    cookie@,
                    reply@,
                ),
    {
        match reply.body {
            Err(e) => VerifyNext::Failed(BridgeError::Http(e)),
            Ok(text) => match Json::parse(auth::strip_prefix(text.as_str())) {
                Err(e) => VerifyNext::Failed(
                    BridgeError::Login(text::cat2("verifyTicket parse: ", e.as_str())),
                ),
                Ok(body) => VerifyFlow::judge_ticket(account, hash, &body, cookie),
            },
        }
    }

    /// What the reply to the repeated credentials means.
    pub fn judge_replay(
        account: String,
        hash: String,
        body: Json,
        text: String,
        cookie: String,
        location: Option<String>,
    ) -> (r: VerifyNext)
        ensures
            forall|v: VerifyView|
                v.account == account@ && v.hash == hash@ ==> r@ == #[trigger] v.judged_replay(
                    body@,
                    text@,
                    cookie@,
                    text::opt_view(location),
                ),
    {
        let code = login::reply_code(&body);
        let session = auth::merge_session(auth::parse_session_fields(&body), cookie.as_str());
        if code != 0 && session.pass_token.is_none() {
            let description = login::str_or(&body, "description", "post-2fa auth2 failed");
            return VerifyNext::Failed(
                BridgeError::Login(
                    text::cat4(
                        "post-2fa auth2 code=",
                        text::i64_text(code).as_str(),
                        " desc=",
                        description.as_str(),
                    ),
                ),
            );
        }
        let target = match location {
            Some(loc) => Some(loc),
            None => auth::nonempty_loc(body.str_at("location")),
        };
        match target {
            Some(loc) => match RedirectWalk::start(loc.as_str(), cookie.as_str(), LOGIN_UA) {
                Ok(walk) => VerifyNext::Continue(
                    VerifyFlow {
                        account,
                        hash,
                        stage: VerifyStage::FinalWalk { walk, body, text, session },
                    },
                ),
                Err(e) => VerifyNext::Failed(e),
            },
            None => finish_verify(session, &body, text.as_str(), cookie.as_str()),
        }
    }

    /// How it goes on once the last reply to the repeated credentials is there.
    pub fn settle_replay(account: String, hash: String, cookie: &str, reply: HttpReply) -> (r:
        VerifyNext)
        ensures
            forall|v: VerifyView|
                v.account == account@ && v.hash == hash@ ==> r@ == #[trigger] v.settled_replay(
                    cookie@,
                    reply@,
                ),
    {
        let merged = cookies::merge_set_cookie(cookie, &reply.set_cookies);
        let location = match &reply.location {
            Some(l) => auth::nonempty_loc(Some(l.as_str())),
            None => None,
        };
        match reply.body {
            Err(e) => VerifyNext::Failed(BridgeError::Http(e)),
            Ok(text) => match Json::parse(auth::strip_prefix(text.as_str())) {
                Ok(body) => VerifyFlow::judge_replay(account, hash, body, text, merged, location),
                Err(_) => match location {
                    Some(loc) => match RedirectWalk::start(
                        loc.as_str(),
                        merged.as_str(),
                        LOGIN_UA,
                    ) {
                        Ok(walk) => VerifyNext::Continue(
                            VerifyFlow {
                                account,
                                hash,
                                stage: VerifyStage::ParseWalk { walk, text, location: loc },
                            },
                        ),
                        Err(e) => VerifyNext::Failed(e),
                    },
                    None => VerifyNext::Failed(
                        BridgeError::Login("post-2fa auth2 parse fail".to_string()),
                    ),
                },
            },
        }
    }

    /// The next request.
    pub fn request(&self) -> (r: HttpRequest)
        ensures
            r@ == self@.request(),
    {
        match &self.stage {
            VerifyStage::Verify { flag, ticket, cookie, stamp } => {
                let (_, path) = auth::two_factor_paths(*flag);
                let url = text::cat4(ACCOUNT, path, "?_dc=", text::i64_text(*stamp).as_str());
                let mut form = Pairs::new();
                form.add("_flag", text::i64_text(*flag as i64).as_str());
                form.add("ticket", ticket.as_str());
                form.add("trust", "true");
                form.add("_json", "true");
                assert(form@ =~= seq![
                    ("_flag"@, text::int_text(*flag as int)),
                    ("ticket"@, ticket@),
                    ("trust"@, "true"@),
                    ("_json"@, "true"@),
                ]);
                exchange::make_form_post(url.as_str(), LOGIN_UA, form, cookie.as_str())
            },
            VerifyStage::VerifyWalk(walk) => walk.request(),
            VerifyStage::LocationWalk(walk) => walk.request(),
            VerifyStage::Auth2 { cookie } => {
                let form = login::auth2_form(self.account.as_str(), self.hash.as_str());
                exchange::make_form_post(AUTH2, LOGIN_UA, form, cookie.as_str())
            },
            VerifyStage::Auth2Walk(walk) => walk.request(),
            VerifyStage::ParseWalk { walk, text: _, location: _ } => walk.request(),
            VerifyStage::FinalWalk { walk, body: _, text: _, session: _ } => walk.request(),
        }
    }

    /// How it goes on when the request has ended.
    pub fn after(self, event: Result<HttpReply, String>) -> (r: VerifyNext)
        ensures
            r@ == self@.after(exchange::event_view(event)),
    {
        let account = self.account;
        let hash = self.hash;
        match self.stage {
            VerifyStage::Verify { flag: _, ticket: _, cookie, stamp: _ } => match event {
                Err(e) => VerifyNext::Failed(
                    BridgeError::Login(text::cat2("verifyTicket: ", e.as_str())),
                ),
                Ok(reply) => {
                    let merged = cookies::merge_set_cookie(cookie.as_str(), &reply.set_cookies);
                    match reply.target() {
                        Some(loc) => match RedirectWalk::start(
                            loc.as_str(),
                            merged.as_str(),
                            LOGIN_UA,
                        ) {
                            Ok(walk) => VerifyNext::Continue(
                                VerifyFlow { account, hash, stage: VerifyStage::VerifyWalk(walk) },
                            ),
                            Err(e) => VerifyNext::Failed(e),
                        },
                        None => VerifyFlow::settle_ticket(account, hash, merged, reply),
                    }
                },
            },
            VerifyStage::VerifyWalk(walk) => match walk.after(event) {
                WalkStep::Next(walk) => VerifyNext::Continue(
                    VerifyFlow { account, hash, stage: VerifyStage::VerifyWalk(walk) },
                ),
                WalkStep::Failed(e) => VerifyNext::Failed(e),
                WalkStep::Done(cookie, reply) => VerifyFlow::settle_ticket(
                    account,
                    hash,
                    cookie,
                    reply,
                ),
            },
            VerifyStage::LocationWalk(walk) => match walk.after(event) {
                WalkStep::Next(walk) => VerifyNext::Continue(
                    VerifyFlow { account, hash, stage: VerifyStage::LocationWalk(walk) },
                ),
                WalkStep::Failed(e) => VerifyNext::Failed(e),
                WalkStep::Done(cookie, _) => VerifyNext::Continue(
                    VerifyFlow { account, hash, stage: VerifyStage::Auth2 { cookie } },
                ),
            },
            VerifyStage::Auth2 { cookie } => match event {
                Err(e) => VerifyNext::Failed(
                    BridgeError::Login(text::cat2("post-2fa auth2: ", e.as_str())),
                ),
                Ok(reply) => {
                    let redirected = 300 <= reply.status && reply.status < 400;
                    let cookie = if redirected {
                        cookies::merge_set_cookie(cookie.as_str(), &reply.set_cookies)
                    } else {
                        cookie
                    };
                    match reply.target() {
                        Some(loc) => match RedirectWalk::start(
                            loc.as_str(),
                            cookie.as_str(),
                            LOGIN_UA,
                        ) {
                            Ok(walk) => VerifyNext::Continue(
                                VerifyFlow { account, hash, stage: VerifyStage::Auth2Walk(walk) },
                            ),
                            Err(e) => VerifyNext::Failed(e),
                        },
                        None => VerifyFlow::settle_replay(account, hash, cookie.as_str(), reply),
                    }
                },
            },
            VerifyStage::Auth2Walk(walk) => match walk.after(event) {
                WalkStep::Next(walk) => VerifyNext::Continue(
                    VerifyFlow { account, hash, stage: VerifyStage::Auth2Walk(walk) },
                ),
                WalkStep::Failed(e) => VerifyNext::Failed(e),
                WalkStep::Done(cookie, reply) => VerifyFlow::settle_replay(
                    account,
                    hash,
                    cookie.as_str(),
                    reply,
                ),
            },
            VerifyStage::ParseWalk { walk, text, location } => match walk.after(event) {
                WalkStep::Next(walk) => VerifyNext::Continue(
                    VerifyFlow {
                        account,
                        hash,
                        stage: VerifyStage::ParseWalk { walk, text, location },
                    },
                ),
                WalkStep::Failed(e) => VerifyNext::Failed(e),
                WalkStep::Done(cookie, reply) => match reply.body {
                    Err(e) => VerifyNext::Failed(BridgeError::Http(e)),
                    Ok(found) => match Json::parse(auth::strip_prefix(found.as_str())) {
                        Err(e) => VerifyNext::Failed(
                            BridgeError::Login(text::cat2("post-2fa auth2 parse: ", e.as_str())),
                        ),
                        Ok(body) => VerifyFlow::judge_replay(
                            account,
                            hash,
                            body,
                            text,
                            cookie,
                            Some(location),
                        ),
                    },
                },
            },
            VerifyStage::FinalWalk { walk, body, text, session } => match walk.after(event) {
                WalkStep::Next(walk) => VerifyNext::Continue(
                    VerifyFlow {
                        account,
                        hash,
                        stage: VerifyStage::FinalWalk { walk, body, text, session },
                    },
                ),
                WalkStep::Failed(e) => VerifyNext::Failed(e),
                WalkStep::Done(cookie, _) => finish_verify(
                    auth::merge_session(session, cookie.as_str()),
                    &body,
                    text.as_str(),
                    cookie.as_str(),
                ),
            },
        }
    }
}

} // verus!
