//! Turning the long-lived token of a session into a service token, and asking whom it belongs to.

use crate::auth::{Session, SessionView, API_BASE, ME_PATH, PC_UA, SERVICE_LOGIN, SID, SOURCE};
use crate::error::{BridgeError, ErrorView};
use crate::exchange::{
    HttpReply, HttpRequest, Pairs, Payload, PayloadView, RedirectWalk, ReplyView, RequestView,
    WalkStep, WalkStepView, WalkView,
};
use crate::json::{Json, JsonView};
use crate::auth;
use crate::cookies;
use crate::exchange;
use crate::json;
use crate::login;
use crate::outside;
use crate::text;
use vstd::prelude::*;

verus! {

// ── models ──────────────────────────────────────────────────────────
/// How far the minting of a token is.
pub enum MintStageView {
    /// The account page is to be asked where to go.
    Phase1,
    /// The signed address is to be visited, without cookies.
    Phase2 { url: Seq<char> },
    /// The signed address led elsewhere; one more step may follow if `again`.
    Hop { url: Seq<char>, again: bool },
    /// None of these set a token: the profile page may lead to one.
    Fallback(WalkView),
}

/// What the minting of a token is.
pub struct MintView {
    pub session: SessionView,
    pub cookie: Seq<char>,
    pub stage: MintStageView,
}

/// How the minting of a token goes on. The session is kept whatever happens: what was learned on
/// the way stays in it.
pub enum MintNextView {
    Continue(MintView),
    Done(SessionView, Result<(), ErrorView>),
}

/// The cookie of the account page.
pub open spec fn mint_cookie(session: SessionView, pass_token: Seq<char>) -> Seq<char> {
    "passToken="@ + pass_token + (match session.user_id {
        Some(u) => "; userId="@ + u,
        None => ""@,
    }) + (match session.c_user_id {
        Some(c) => "; cUserId="@ + c,
        None => ""@,
    }) + "; deviceId="@ + auth::device_id_of(session.user_id) + "; uLocale=zh_CN; pass_ua=pc"@
}

/// The start of a minting, which needs the long-lived token.
pub open spec fn mint_from(session: SessionView) -> Result<MintView, ErrorView> {
    match session.pass_token {
        Some(t) => Ok(
            MintView { session, cookie: mint_cookie(session, t), stage: MintStageView::Phase1 },
        ),
        None => Err(ErrorView::Login("missing passToken"@)),
    }
}

/// Where the account page is.
pub open spec fn phase1_url() -> Seq<char> {
    SERVICE_LOGIN@ + "?_locale=zh_CN&_snsNone=true&sid="@ + SID@ + "&_json=true"@
}

/// What is signed: the nonce, and the secret where there is one.
pub open spec fn signed_text(nonce: Seq<char>, ssecurity: Seq<char>) -> Seq<char> {
    if text::trim_of(ssecurity).len() == 0 {
        "nonce="@ + nonce
    } else {
        "nonce="@ + nonce + "&"@ + ssecurity
    }
}

/// A location with its signature.
pub open spec fn phase2_url(location: Seq<char>, nonce: Seq<char>, ssecurity: Seq<char>) -> Seq<
    char,
> {
    location + (if location.contains('?') {
        "&"@
    } else {
        "?"@
    }) + "clientSign="@ + auth::form_text(
        vstd::utf8::encode_utf8(auth::sha1_base64_of(signed_text(nonce, ssecurity))),
    )
}

/// A member that is a string or a number, as text.
pub open spec fn worded(body: JsonView, key: Seq<char>) -> Option<Seq<char>> {
    match body.field(key) {
        Some(JsonView::Text(s)) => Some(s),
        Some(JsonView::Number(n)) => Some(json::number_chars(n)),
        _ => None,
    }
}

/// A session with what the account page tells of it.
pub open spec fn session_told(session: SessionView, body: JsonView, ssecurity: Seq<char>) -> SessionView {
    SessionView {
        user_id: auth::either(session.user_id, worded(body, "userId"@)),
        c_user_id: auth::either(session.c_user_id, body.text_at("cUserId"@)),
        ssecurity: if ssecurity.len() > 0 {
            Some(ssecurity)
        } else {
            session.ssecurity
        },
        pass_token: session.pass_token,
        service_token: session.service_token,
        nick: session.nick,
        refreshed_at: session.refreshed_at,
    }
}

/// What the reply of the account page means. The nonce is read from the text, digit by digit.
pub open spec fn judged_phase1(
    session: SessionView,
    cookie: Seq<char>,
    body: JsonView,
    text: Seq<char>,
) -> MintNextView {
    if login::code_of(body) != 0 {
        MintNextView::Done(
            session,
            Err(
                ErrorView::Login(
                    "phase1 code="@ + text::int_text(login::code_of(body) as int) + " desc="@
                        + login::or_else(body.text_at("description"@), ""@),
                ),
            ),
        )
    } else {
        match (body.text_at("location"@), auth::raw_number_of(text, "nonce"@)) {
            (None, _) => MintNextView::Done(
                session,
                Err(ErrorView::Login("phase1 missing location"@)),
            ),
            (Some(_), None) => MintNextView::Done(
                session,
                Err(ErrorView::Login("phase1 missing nonce"@)),
            ),
            (Some(location), Some(nonce)) => {
                let ssecurity = login::or_else(body.text_at("ssecurity"@), ""@);
                MintNextView::Continue(
                    MintView {
                        session: session_told(session, body, ssecurity),
                        cookie,
                        stage: MintStageView::Phase2 {
                            url: phase2_url(location, nonce, ssecurity),
                        },
                    },
                )
            },
        }
    }
}

/// The end of a minting.
pub open spec fn minted(session: SessionView, token: Option<Seq<char>>, now: i64) -> MintNextView {
    match token {
        Some(t) => MintNextView::Done(
            SessionView {
                service_token: Some(t),
                refreshed_at: Some(now),
                user_id: session.user_id,
                c_user_id: session.c_user_id,
                pass_token: session.pass_token,
                ssecurity: session.ssecurity,
                nick: session.nick,
            },
            Ok(()),
        ),
        None => MintNextView::Done(
            session,
            Err(ErrorView::Login("phase2 returned no serviceToken"@)),
        ),
    }
}

impl MintView {
    /// The same at another stage.
    pub open spec fn at(self, stage: MintStageView) -> MintNextView {
        MintNextView::Continue(MintView { session: self.session, cookie: self.cookie, stage })
    }

    /// The profile page, as a last resort.
    pub open spec fn fall_back(self) -> MintNextView {
        match exchange::walk_from(API_BASE@ + ME_PATH@, self.cookie, PC_UA@) {
            Ok(walk) => self.at(MintStageView::Fallback(walk)),
            Err(e) => MintNextView::Done(self.session, Err(e)),
        }
    }

    /// What a reply means whose `Set-Cookie` headers may hold the token.
    pub open spec fn harvested(
        self,
        url: Seq<char>,
        reply: ReplyView,
        more: bool,
        again: bool,
        now: i64,
    ) -> MintNextView {
        match auth::token_set_by_first(reply.set_cookies) {
            Some(t) => minted(self.session, Some(t), now),
            None => match reply.location {
                Some(loc) if more && exchange::redirects(reply.status) => self.at(
                    MintStageView::Hop { url: exchange::seen_from(url, loc), again },
                ),
                _ => self.fall_back(),
            },
        }
    }

    /// The next request.
    pub open spec fn request(self) -> RequestView {
        match self.stage {
            MintStageView::Phase1 => exchange::get_request(phase1_url(), PC_UA@, self.cookie),
            MintStageView::Phase2 { url } => exchange::get_request(url, PC_UA@, ""@),
            MintStageView::Hop { url, again } => exchange::get_request(url, PC_UA@, ""@),
            MintStageView::Fallback(walk) => walk.request(),
        }
    }

    /// How it goes on when the request has ended.
    pub open spec fn after(self, event: Result<ReplyView, Seq<char>>, now: i64) -> MintNextView {
        match self.stage {
            MintStageView::Phase1 => match event {
                Err(e) => MintNextView::Done(self.session, Err(ErrorView::Login("phase1: "@ + e))),
                Ok(reply) => match reply.body {
                    Err(e) => MintNextView::Done(self.session, Err(ErrorView::Http(e))),
                    Ok(text) => match json::parsed_json(auth::unmarked(text)) {
                        Err(e) => MintNextView::Done(
                            self.session,
                            Err(ErrorView::Login("phase1 parse: "@ + e)),
                        ),
                        Ok(body) => judged_phase1(
                            self.session,
                            self.cookie,
                            body,
                            auth::unmarked(text),
                        ),
                    },
                },
            },
            MintStageView::Phase2 { url } => match event {
                Err(e) => MintNextView::Done(self.session, Err(ErrorView::Http(e))),
                Ok(reply) => self.harvested(url, reply, true, true, now),
            },
            MintStageView::Hop { url, again } => match event {
                Err(e) => MintNextView::Done(self.session, Err(ErrorView::Http(e))),
                Ok(reply) => self.harvested(url, reply, again, false, now),
            },
            MintStageView::Fallback(walk) => match walk.after(event) {
                WalkStepView::Next(walk) => self.at(MintStageView::Fallback(walk)),
                WalkStepView::Failed(e) => MintNextView::Done(self.session, Err(e)),
                WalkStepView::Done(cookie, reply) => minted(
                    self.session,
                    auth::live_token(
                        auth::either(
                            cookies::jar_get(cookies::jar_of(cookie), "serviceToken"@),
                            cookies::jar_get(cookies::jar_of(cookie), SID@ + "_serviceToken"@),
                        ),
                    ),
                    now,
                ),
            },
        }
    }
}

impl MintView {
    /// How many requests it may still take.
    pub open spec fn requests_left(self) -> nat {
        match self.stage {
            MintStageView::Phase1 => 12,
            MintStageView::Phase2 { .. } => 11,
            MintStageView::Hop { again, .. } => if again {
                10
            } else {
                9
            },
            MintStageView::Fallback(walk) => walk.requests_left(),
        }
    }
}

/// A minting ends, whatever the replies are: each reply brings it nearer to its end, and it begins
/// at most twelve requests away from it. Where it goes well, the session has a token that is as
/// old as the last reply.
pub proof fn minting_ends(flow: MintView, event: Result<ReplyView, Seq<char>>, now: i64)
    ensures
        flow.after(event, now) matches MintNextView::Continue(next) ==> next.requests_left()
            < flow.requests_left(),
        flow.stage is Phase1 ==> flow.requests_left() == 12,
        flow.after(event, now) matches MintNextView::Done(session, outcome) ==> outcome is Ok
            ==> session.service_token is Some && session.refreshed_at == Some(now),
{
}

/// The signed address is visited without cookies.
pub proof fn signed_requests_carry_no_cookie(flow: MintView)
    requires
        flow.stage is Phase2 || flow.stage is Hop,
    ensures
        forall|i: int|
            0 <= i < flow.request().headers.len() ==> (#[trigger] flow.request().headers[i]).0
                != "cookie"@,
{
    exchange::lemma_no_cookie();
    reveal_strlit("cookie");
    reveal_strlit("user-agent");
    assert("cookie"@.len() != "user-agent"@.len());
}

/// Whether a session is another with a new service token, minted at a given time.
pub open spec fn is_minted(session: SessionView, before: SessionView, t: Seq<char>, now: i64) -> bool {
    &&& session.service_token == Some(t)
    &&& session.refreshed_at == Some(now)
    &&& session.pass_token == before.pass_token
    &&& session.user_id == before.user_id
    &&& session.c_user_id == before.c_user_id
    &&& session.ssecurity == before.ssecurity
    &&& session.nick == before.nick
}

/// A reply of the signed address, or of where that leads, that sets a service token ends the
/// minting well: the session has that very token, whichever it had before, and is otherwise as it
/// was.
pub proof fn new_tokens_replace_old_ones(
    flow: MintView,
    reply: ReplyView,
    k: int,
    t: Seq<char>,
    now: i64,
)
    requires
        flow.stage is Phase2 || flow.stage is Hop,
        0 <= k < reply.set_cookies.len(),
        forall|i: int| 0 <= i < k ==> auth::spares_token(#[trigger] reply.set_cookies[i]),
        auth::sets_token(reply.set_cookies[k], t),
    ensures
        flow.after(Ok(reply), now) matches MintNextView::Done(session, outcome) && outcome is Ok
            && is_minted(session, flow.session, t, now),
{
    auth::set_tokens_are_found(reply.set_cookies, k, t);
}

/// The profile page, visited as a last resort, gives a token just so: the one that its cookies
/// hold when the visit ends replaces the one that the session had.
pub proof fn fallback_tokens_replace_old_ones(
    flow: MintView,
    walk: WalkView,
    reply: ReplyView,
    t: Seq<char>,
    now: i64,
)
    requires
        flow.stage == MintStageView::Fallback(walk),
        reply.status < 300 || reply.status >= 400,
        t != "EXPIRED"@,
    ensures
        auth::jar_says(
            cookies::jar_of(cookies::merged_header(walk.cookie, reply.set_cookies)),
            "serviceToken"@,
            t,
        ) ==> (flow.after(Ok(reply), now) matches MintNextView::Done(session, outcome)
            && outcome is Ok && is_minted(session, flow.session, t, now)),
        auth::no_cookie(
            cookies::jar_of(cookies::merged_header(walk.cookie, reply.set_cookies)),
            "serviceToken"@,
        ) && auth::jar_says(
            cookies::jar_of(cookies::merged_header(walk.cookie, reply.set_cookies)),
            "mimopc_serviceToken"@,
            t,
        ) ==> (flow.after(Ok(reply), now) matches MintNextView::Done(session, outcome)
            && outcome is Ok && is_minted(session, flow.session, t, now)),
        auth::no_cookie(
            cookies::jar_of(cookies::merged_header(walk.cookie, reply.set_cookies)),
            "serviceToken"@,
        ) && auth::no_cookie(
            cookies::jar_of(cookies::merged_header(walk.cookie, reply.set_cookies)),
            "mimopc_serviceToken"@,
        ) ==> (flow.after(Ok(reply), now) matches MintNextView::Done(session, outcome)
            && outcome is Err && session == flow.session),
        auth::jar_says(
            cookies::jar_of(cookies::merged_header(walk.cookie, reply.set_cookies)),
            "serviceToken"@,
            "EXPIRED"@,
        ) ==> (flow.after(Ok(reply), now) matches MintNextView::Done(session, outcome)
            && outcome is Err && session == flow.session),
{
    reveal_strlit("mimopc");
    reveal_strlit("_serviceToken");
    reveal_strlit("mimopc_serviceToken");
    let jar = cookies::jar_of(cookies::merged_header(walk.cookie, reply.set_cookies));
    let long = SID@ + "_serviceToken"@;
    assert(long =~= "mimopc_serviceToken"@);
    cookies::lemma_jar_find(jar, "serviceToken"@);
    cookies::lemma_jar_find(jar, long);
    assert forall|name: Seq<char>, s: Seq<char>| #[trigger]
        auth::jar_says(jar, name, s) implies cookies::jar_get(jar, name) == Some(s) by {
        let i = choose|i: int|
            0 <= i < jar.len() && #[trigger] jar[i] == (name, s) && forall|j: int|
                0 <= j < i ==> (#[trigger] jar[j]).0 != name;
        cookies::lemma_jar_find_is(jar, name, i);
    }
}

/// A reply of the signed address that sets no token is followed where it leads, at most twice; else
/// the profile page is asked. The session stays as it was meanwhile.
pub proof fn tokens_are_looked_for(
    flow: MintView,
    url: Seq<char>,
    reply: ReplyView,
    loc: Seq<char>,
    now: i64,
)
    requires
        forall|i: int|
            0 <= i < reply.set_cookies.len() ==> auth::spares_token(
                #[trigger] reply.set_cookies[i],
            ),
    ensures
        (flow.stage == (MintStageView::Phase2 { url }) || flow.stage == (MintStageView::Hop {
            url,
            again: true,
        })) && 300 <= reply.status < 400 && reply.location == Some(loc) ==> (flow.after(
            Ok(reply),
            now,
        ) matches MintNextView::Continue(next) && next.session == flow.session && next.cookie
            == flow.cookie && (next.stage matches MintStageView::Hop { again, .. } && again
            == flow.stage is Phase2) && next.request().url == (
        match outside::resolved_url(url, loc) {
            Some(u) => u,
            None => loc,
        })),
        (flow.stage == (MintStageView::Phase2 { url }) || flow.stage is Hop) && (reply.status < 300
            || reply.status >= 400 || reply.location is None) ==> (flow.after(Ok(reply), now)
            matches MintNextView::Continue(next) && next.session == flow.session && next.stage is Fallback
            && next.request().url == API_BASE@ + ME_PATH@ && exchange::carries(
            next.request(),
            flow.cookie,
        )),
        flow.stage == (MintStageView::Hop { url, again: false }) ==> (flow.after(Ok(reply), now)
            matches MintNextView::Continue(next) && next.session == flow.session && next.stage is Fallback),
{
    auth::set_tokens_are_found(reply.set_cookies, reply.set_cookies.len() as int, Seq::empty());
    reveal_strlit("https://mimo-server-cn.xiaomimimo.com/api");
    reveal_strlit("/user/xiaomi/me");
    let url = API_BASE@ + ME_PATH@;
    assert(url[0] == 'h' && url.last() == 'e');
    assert(text::is_trimmed(url));
    text::lemma_trim(url);
    exchange::requests_carry_what_they_should(url, PC_UA@, Seq::empty(), flow.cookie);
}

/// A minting needs the long-lived token and begins with it: the account page is asked with it, the
/// user and the client user in its cookies.
pub proof fn minting_begins_with_the_long_lived_token(session: SessionView)
    ensures
        session.pass_token is None ==> mint_from(session) is Err,
        session.pass_token is Some ==> (mint_from(session) matches Ok(flow) && flow.session
            == session && flow.stage is Phase1 && exchange::carries(flow.request(), flow.cookie)
            && !flow.request().post && text::begins_with(
            flow.request().url,
            SERVICE_LOGIN@ + "?"@,
        )),
        session.pass_token is Some && auth::fits_cookie(session.pass_token) && auth::fits_cookie(
            session.user_id,
        ) && auth::fits_cookie(session.c_user_id) && auth::fits_cookie(
            Some(auth::device_id_of(session.user_id)),
        ) ==> (mint_from(session) matches Ok(flow)
            && auth::session_of_cookies(flow.cookie).pass_token == session.pass_token
            && auth::session_of_cookies(flow.cookie).user_id == session.user_id
            && auth::session_of_cookies(flow.cookie).c_user_id == session.c_user_id
            && cookies::jar_get(cookies::jar_of(flow.cookie), "deviceId"@) == Some(
            auth::device_id_of(session.user_id),
        )),
{
    if let Some(t) = session.pass_token {
        let flow = mint_from(session)->Ok_0;
        exchange::requests_carry_what_they_should(
            phase1_url(),
            PC_UA@,
            Seq::empty(),
            flow.cookie,
        );
        reveal_strlit("?_locale=zh_CN&_snsNone=true&sid=");
        reveal_strlit("?");
        let start = SERVICE_LOGIN@ + "?"@;
        assert(phase1_url().take(start.len() as int) =~= start);
        if auth::fits_cookie(session.pass_token) && auth::fits_cookie(session.user_id)
            && auth::fits_cookie(session.c_user_id) && auth::fits_cookie(
            Some(auth::device_id_of(session.user_id)),
        ) {
            lemma_mint_cookie(session, t);
        }
    }
}

proof fn lemma_mint_cookie(session: SessionView, t: Seq<char>)
    requires
        session.pass_token == Some(t),
        auth::fits_cookie(session.pass_token),
        auth::fits_cookie(session.user_id),
        auth::fits_cookie(session.c_user_id),
        auth::fits_cookie(Some(auth::device_id_of(session.user_id))),
    ensures
        auth::session_of_cookies(mint_cookie(session, t)).pass_token == session.pass_token,
        auth::session_of_cookies(mint_cookie(session, t)).user_id == session.user_id,
        auth::session_of_cookies(mint_cookie(session, t)).c_user_id == session.c_user_id,
        cookies::jar_get(cookies::jar_of(mint_cookie(session, t)), "deviceId"@) == Some(
            auth::device_id_of(session.user_id),
        ),
{
    reveal_strlit("passToken=");
    reveal_strlit("; userId=");
    reveal_strlit("; cUserId=");
    reveal_strlit("; deviceId=");
    reveal_strlit("; uLocale=zh_CN; pass_ua=pc");
    reveal_strlit("");
    reveal_strlit("passToken");
    reveal_strlit("userId");
    reveal_strlit("cUserId");
    reveal_strlit("deviceId");
    reveal_strlit("uLocale");
    reveal_strlit("zh_CN");
    reveal_strlit("pass_ua");
    reveal_strlit("pc");
    reveal_strlit("pc_");
    reveal_strlit("; ");
    reveal_strlit("=");
    assert("passToken"@.len() == 9 && "userId"@.len() == 6 && "cUserId"@.len() == 7
        && "deviceId"@.len() == 8 && "uLocale"@.len() == 7 && "pass_ua"@.len() == 7);
    assert("cUserId"@[0] == 'c' && "uLocale"@[0] == 'u' && "pass_ua"@[0] == 'p');
    auth::lemma_cookie_readable("passToken"@, t);
    let h0 = cookies::pair_text(("passToken"@, t));
    let h1 = match session.user_id {
        Some(u) => h0 + "; "@ + cookies::pair_text(("userId"@, u)),
        None => h0,
    };
    let h2 = match session.c_user_id {
        Some(c) => h1 + "; "@ + cookies::pair_text(("cUserId"@, c)),
        None => h1,
    };
    let device = auth::device_id_of(session.user_id);
    let h3 = h2 + "; "@ + cookies::pair_text(("deviceId"@, device));
    let h4 = h3 + "; "@ + cookies::pair_text(("uLocale"@, "zh_CN"@));
    let h5 = h4 + "; "@ + cookies::pair_text(("pass_ua"@, "pc"@));
    assert(h5 =~= mint_cookie(session, t));
    auth::lemma_cookie_readable("deviceId"@, device);
    auth::lemma_cookie_readable("uLocale"@, "zh_CN"@);
    auth::lemma_cookie_readable("pass_ua"@, "pc"@);
    if let Some(u) = session.user_id {
        auth::lemma_cookie_readable("userId"@, u);
    }
    if let Some(c) = session.c_user_id {
        auth::lemma_cookie_readable("cUserId"@, c);
    }
    lemma_first_cookie("passToken"@, t, "userId"@);
    lemma_first_cookie("passToken"@, t, "cUserId"@);
    let wanted = seq!["passToken"@, "userId"@, "cUserId"@];
    assert forall|w: int| 0 <= w < 3 implies {
        let n = #[trigger] wanted[w];
        cookies::jar_get(cookies::jar_of(h5), n) == cookies::jar_get(cookies::jar_of(h2), n)
    } by {
        let n = wanted[w];
        cookies::last_cookie_counts(h2, "deviceId"@, device, n);
        cookies::last_cookie_counts(h3, "uLocale"@, "zh_CN"@, n);
        cookies::last_cookie_counts(h4, "pass_ua"@, "pc"@, n);
    }
    cookies::last_cookie_counts(h2, "deviceId"@, device, "passToken"@);
    cookies::last_cookie_counts(h3, "uLocale"@, "zh_CN"@, "deviceId"@);
    cookies::last_cookie_counts(h4, "pass_ua"@, "pc"@, "deviceId"@);
    assert(wanted[0] == "passToken"@ && wanted[1] == "userId"@ && wanted[2] == "cUserId"@);
    cookies::last_cookie_counts(Seq::empty(), "passToken"@, t, "userId"@);
    if let Some(u) = session.user_id {
        cookies::last_cookie_counts(h0, "userId"@, u, "passToken"@);
        cookies::last_cookie_counts(h0, "userId"@, u, "cUserId"@);
    }
    if let Some(c) = session.c_user_id {
        cookies::last_cookie_counts(h1, "cUserId"@, c, "passToken"@);
        cookies::last_cookie_counts(h1, "cUserId"@, c, "userId"@);
    }
}

proof fn lemma_first_cookie(name: Seq<char>, value: Seq<char>, other: Seq<char>)
    requires
        cookies::is_readable((name, value)),
        other != name,
    ensures
        cookies::jar_get(cookies::jar_of(cookies::pair_text((name, value))), other) is None,
{
    let jar = seq![(name, value)];
    assert(cookies::readable(jar));
    cookies::headers_read_back(jar);
    let all = Seq::new(jar.len(), |i: int| cookies::pair_text(jar[i]));
    assert(all.drop_last() =~= Seq::<Seq<char>>::empty());
    assert(cookies::jar_text(jar) =~= cookies::pair_text((name, value)));
    cookies::lemma_jar_find_is(jar, other, 1);
}

/// The account page leads to the signed address: where its reply has the code zero, a location and
/// a nonce, that location is visited next, signed with every digit of the nonce and with the
/// secret. The session keeps the user and the client user that it knows, and learns those that it
/// does not; it takes the new secret.
pub proof fn account_page_leads_on(
    flow: MintView,
    reply: ReplyView,
    text: Seq<char>,
    body: JsonView,
    loc: Seq<char>,
    nonce: Seq<char>,
    secret: Seq<char>,
    user: Seq<char>,
    n: int,
    now: i64,
)
    requires
        flow.stage is Phase1,
        reply.body == Ok::<_, Seq<char>>(text),
        json::parsed_json(auth::unmarked(text)) == json::read_as(body),
        json::counts(body, "code"@, 0),
        json::has(body, "location"@, JsonView::Text(loc)),
        auth::raw_number_of(auth::unmarked(text), "nonce"@) == Some(nonce),
        json::says(body, "ssecurity"@, secret),
        text::is_trimmed(secret),
    ensures
        flow.after(Ok(reply), now) matches MintNextView::Continue(next) && {
            &&& next.stage is Phase2
            &&& next.request().url == loc + (if loc.contains('?') {
                "&"@
            } else {
                "?"@
            }) + "clientSign="@ + auth::form_text(
                vstd::utf8::encode_utf8(
                    outside::base64_text(
                        outside::sha1_of(
                            vstd::utf8::encode_utf8("nonce="@ + nonce + "&"@ + secret),
                        ),
                    ),
                ),
            )
            &&& next.session.ssecurity == Some(secret)
            &&& flow.session.user_id is Some ==> next.session.user_id == flow.session.user_id
            &&& flow.session.user_id is None && json::says(body, "userId"@, user)
                ==> next.session.user_id == Some(user)
            &&& flow.session.user_id is None && json::counts(body, "userId"@, n)
                ==> next.session.user_id == Some(text::int_text(n))
            &&& flow.session.c_user_id is Some ==> next.session.c_user_id == flow.session.c_user_id
            &&& flow.session.c_user_id is None && json::says(body, "cUserId"@, user)
                ==> next.session.c_user_id == Some(user)
            &&& next.session.pass_token == flow.session.pass_token
            &&& next.session.service_token == flow.session.service_token
            &&& next.session.nick == flow.session.nick
            &&& next.session.refreshed_at == flow.session.refreshed_at
            &&& next.cookie == flow.cookie
        },
{
    text::lemma_trim(secret);
}

/// Without a secret only the nonce is signed, and the session keeps the secret that it had.
pub proof fn nonces_are_signed_alone(
    flow: MintView,
    reply: ReplyView,
    text: Seq<char>,
    body: JsonView,
    loc: Seq<char>,
    nonce: Seq<char>,
    now: i64,
)
    requires
        flow.stage is Phase1,
        reply.body == Ok::<_, Seq<char>>(text),
        json::parsed_json(auth::unmarked(text)) == json::read_as(body),
        json::counts(body, "code"@, 0),
        json::has(body, "location"@, JsonView::Text(loc)),
        auth::raw_number_of(auth::unmarked(text), "nonce"@) == Some(nonce),
        json::lacks(body, "ssecurity"@),
    ensures
        flow.after(Ok(reply), now) matches MintNextView::Continue(next) && next.stage is Phase2
            && next.request().url == loc + (if loc.contains('?') {
            "&"@
        } else {
            "?"@
        }) + "clientSign="@ + auth::form_text(
            vstd::utf8::encode_utf8(
                outside::base64_text(
                    outside::sha1_of(vstd::utf8::encode_utf8("nonce="@ + nonce)),
                ),
            ),
        ) && next.session.ssecurity == flow.session.ssecurity && next.session.pass_token
            == flow.session.pass_token,
{
    reveal_strlit("");
    text::lemma_trim(""@);
    assert(""@ =~= Seq::<char>::empty());
    assert(text::trim_of(""@).len() == 0);
}

/// A minting that fails leaves the session with the token that it had, and on no step does it lose
/// its long-lived token, its user or its name. Without a code of zero nothing is minted.
pub proof fn failed_mintings_change_no_token(
    flow: MintView,
    event: Result<ReplyView, Seq<char>>,
    now: i64,
    body: JsonView,
    code: i64,
)
    ensures
        flow.after(event, now) matches MintNextView::Continue(next) ==> next.session.pass_token
            == flow.session.pass_token && next.session.service_token == flow.session.service_token
            && next.session.nick == flow.session.nick && (flow.session.user_id is Some
            ==> next.session.user_id == flow.session.user_id),
        flow.after(event, now) matches MintNextView::Done(session, outcome) ==> outcome is Err
            ==> session == flow.session,
        flow.after(event, now) matches MintNextView::Done(session, outcome) ==> session.pass_token
            == flow.session.pass_token && session.user_id == flow.session.user_id && session.nick
            == flow.session.nick,
        event is Err ==> (flow.after(event, now) matches MintNextView::Done(session, outcome)
            && outcome is Err),
        flow.stage is Phase1 ==> (event matches Ok(reply) ==> (reply.body matches Ok(text)
            ==> json::parsed_json(auth::unmarked(text)) == json::read_as(body) && (json::lacks(
            body,
            "code"@,
        ) || (json::counts(body, "code"@, code as int) && code != 0) || json::lacks(body, "location"@)) ==> (flow.after(
            event,
            now,
        ) matches MintNextView::Done(session, outcome) && outcome is Err))),
{
}

// ── the minting ─────────────────────────────────────────────────────
/// How far the minting of a token is.
#[derive(Debug)]
pub enum MintStage {
    Phase1,
    Phase2 { url: String },
    Hop { url: String, again: bool },
    Fallback(RedirectWalk),
}

/// The minting of a service token.
#[derive(Debug)]
pub struct MintFlow {
    pub session: Session,
    pub cookie: String,
    pub stage: MintStage,
}

/// How the minting of a token goes on.
#[derive(Debug)]
pub enum MintNext {
    Continue(MintFlow),
    Done(Session, Result<(), BridgeError>),
}

impl View for MintStage {
    type V = MintStageView;

    open spec fn view(&self) -> MintStageView {
        match *self {
            MintStage::Phase1 => MintStageView::Phase1,
            MintStage::Phase2 { url } => MintStageView::Phase2 { url: url@ },
            MintStage::Hop { url, again } => MintStageView::Hop { url: url@, again },
            MintStage::Fallback(walk) => MintStageView::Fallback(walk@),
        }
    }
}

impl View for MintFlow {
    type V = MintView;

    open spec fn view(&self) -> MintView {
        MintView { session: self.session@, cookie: self.cookie@, stage: self.stage@ }
    }
}

/// What an outcome without a value is.
pub open spec fn outcome_view(r: Result<(), BridgeError>) -> Result<(), ErrorView> {
    match r {
        Ok(_) => Ok(()),
        Err(e) => Err(e@),
    }
}

impl View for MintNext {
    type V = MintNextView;

    open spec fn view(&self) -> MintNextView {
        match *self {
            MintNext::Continue(flow) => MintNextView::Continue(flow@),
            MintNext::Done(session, r) => MintNextView::Done(session@, outcome_view(r)),
        }
    }
}

fn failed(session: Session, message: String) -> (r: MintNext)
    ensures
        r@ == MintNextView::Done(session@, Err(ErrorView::Login(message@))),
{
    MintNext::Done(session, Err(BridgeError::Login(message)))
}

fn worded_member(body: &Json, key: &str) -> (r: Option<String>)
    ensures
        text::opt_view(r) == worded(body@, key@),
{
    match body.get(key) {
        Some(v) => match v.as_str() {
            Some(s) => Some(s.to_string()),
            None => v.number_text(),
        },
        None => None,
    }
}

/// A location with its signature.
pub fn sign_location(location: &str, nonce: &str, ssecurity: &str) -> (r: String)
    ensures
        r@ == phase2_url(location@, nonce@, ssecurity@),
{
    let sig_input = if text::trim(ssecurity).as_str().is_empty() {
        text::cat2("nonce=", nonce)
    } else {
        text::cat4("nonce=", nonce, "&", ssecurity)
    };
    let signature = auth::url_form_encode(auth::sha1_base64(sig_input.as_str()).as_str());
    let sep = if text::has_char(location, '?') {
        "&"
    } else {
        "?"
    };
    text::cat4(location, sep, "clientSign=", signature.as_str())
}

/// What the reply of the account page means.
pub fn judge_phase1(session: Session, cookie: String, body: &Json, text: &str) -> (r: MintNext)
    ensures
        r@ == judged_phase1(session@, cookie@, body@, text@),
{
    let code = login::reply_code(body);
    if code != 0 {
        let desc = login::str_or(body, "description", "");
        return failed(
            session,
            text::cat4("phase1 code=", text::i64_text(code).as_str(), " desc=", desc.as_str()),
        );
    }
    let location = match body.str_at("location") {
        Some(l) => l,
        None => {
            return failed(session, "phase1 missing location".to_string());
        },
    };
    let nonce = match auth::extract_raw_number(text, "nonce") {
        Some(n) => n,
        None => {
            return failed(session, "phase1 missing nonce".to_string());
        },
    };
    let ssecurity = login::str_or(body, "ssecurity", "");
    let url = sign_location(location, nonce.as_str(), ssecurity.as_str());
    let user_id = match session.user_id {
        Some(u) => Some(u),
        None => worded_member(body, "userId"),
    };
    let c_user_id = match session.c_user_id {
        Some(c) => Some(c),
        None => text::owned(body.str_at("cUserId")),
    };
    let secret = if ssecurity.as_str().is_empty() {
        session.ssecurity
    } else {
        Some(ssecurity)
    };
    MintNext::Continue(
        MintFlow {
            session: Session {
                user_id,
                c_user_id,
                pass_token: session.pass_token,
                ssecurity: secret,
                service_token: session.service_token,
                nick: session.nick,
                refreshed_at: session.refreshed_at,
            },
            cookie,
            stage: MintStage::Phase2 { url },
        },
    )
}

/// The end of a minting.
pub fn finish_mint(session: Session, token: Option<String>, now: i64) -> (r: MintNext)
    ensures
        r@ == minted(session@, text::opt_view(token), now),
{
    match token {
        Some(t) => {
            let mut session = session;
            session.service_token = Some(t);
            session.refreshed_at = Some(now);
            MintNext::Done(session, Ok(()))
        },
        None => failed(session, "phase2 returned no serviceToken".to_string()),
    }
}

/// Begins a minting; without the long-lived token there is none.
pub fn mint_service_token(session: Session) -> (r: Result<MintFlow, (Session, BridgeError)>)
    ensures
        match mint_from(session@) {
            Ok(v) => r matches Ok(flow) && flow@ == v,
            Err(e) => r matches Err(p) && p.0 == session && p.1@ == e,
        },
{
    let pass_token = match &session.pass_token {
        Some(t) => t.clone(),
        None => {
            return Err((session, BridgeError::Login("missing passToken".to_string())));
        },
    };
    let device_id = match &session.user_id {
        Some(u) => auth::stable_device_id(Some(u.as_str())),
        None => auth::stable_device_id(None),
    };
    let user = match &session.user_id {
        Some(u) => text::cat2("; userId=", u.as_str()),
        None => "".to_string(),
    };
    let c_user = match &session.c_user_id {
        Some(c) => text::cat2("; cUserId=", c.as_str()),
        None => "".to_string(),
    };
    let cookie = text::cat7(
        "passToken=",
        pass_token.as_str(),
        user.as_str(),
        c_user.as_str(),
        "; deviceId=",
        device_id.as_str(),
        "; uLocale=zh_CN; pass_ua=pc",
    );
    Ok(MintFlow { session, cookie, stage: MintStage::Phase1 })
}

impl MintFlow {
    /// The next request.
    pub fn request(&self) -> (r: HttpRequest)
        ensures
            r@ == self@.request(),
    {
        match &self.stage {
            MintStage::Phase1 => {
                let url = text::cat4(
                    SERVICE_LOGIN,
                    "?_locale=zh_CN&_snsNone=true&sid=",
                    SID,
                    "&_json=true",
                );
                exchange::make_get(url.as_str(), PC_UA, self.cookie.as_str())
            },
            MintStage::Phase2 { url } => exchange::make_get(url.as_str(), PC_UA, ""),
            MintStage::Hop { url, again: _ } => exchange::make_get(url.as_str(), PC_UA, ""),
            MintStage::Fallback(walk) => walk.request(),
        }
    }

    fn fall_back(session: Session, cookie: String) -> (r: MintNext)
        ensures
            forall|v: MintView|
                v.session == session@ && v.cookie == cookie@ ==> r@ == #[trigger] v.fall_back(),
    {
        match RedirectWalk::start(text::cat2(API_BASE, ME_PATH).as_str(), cookie.as_str(), PC_UA) {
            Ok(walk) => MintNext::Continue(
                MintFlow { session, cookie, stage: MintStage::Fallback(walk) },
            ),
            Err(e) => MintNext::Done(session, Err(e)),
        }
    }

    fn harvest(
        session: Session,
        cookie: String,
        url: &str,
        reply: &HttpReply,
        more: bool,
        again: bool,
        now: i64,
    ) -> (r: MintNext)
        ensures
            forall|v: MintView|
                v.session == session@ && v.cookie == cookie@ ==> r@ == #[trigger] v.harvested(
                    url@,
                    reply@,
                    more,
                    again,
                    now,
                ),
    {
        match auth::pick_service_token(&reply.set_cookies) {
            Some(t) => finish_mint(session, Some(t), now),
            None => {
                if more && 300 <= reply.status && reply.status < 400 {
                    if let Some(loc) = &reply.location {
                        let next = exchange::absolute_url(url, loc.as_str());
                        return MintNext::Continue(
                            MintFlow { session, cookie, stage: MintStage::Hop { url: next, again } },
                        );
                    }
                }
                MintFlow::fall_back(session, cookie)
            },
        }
    }

    /// How it goes on when the request has ended, at a given time.
    pub fn after_at(self, event: Result<HttpReply, String>, now: i64) -> (r: MintNext)
        ensures
            r@ == self@.after(exchange::event_view(event), now),
    {
        let session = self.session;
        let cookie = self.cookie;
        match self.stage {
            MintStage::Phase1 => match event {
                Err(e) => failed(session, text::cat2("phase1: ", e.as_str())),
                Ok(reply) => match reply.body {
                    Err(e) => MintNext::Done(session, Err(BridgeError::Http(e))),
                    Ok(text) => {
                        let shown = auth::strip_prefix(text.as_str());
                        match Json::parse(shown) {
                            Err(e) => failed(session, text::cat2("phase1 parse: ", e.as_str())),
                            Ok(body) => judge_phase1(session, cookie, &body, shown),
                        }
                    },
                },
            },
            MintStage::Phase2 { url } => match event {
                Err(e) => MintNext::Done(session, Err(BridgeError::Http(e))),
                Ok(reply) => MintFlow::harvest(
                    session,
                    cookie,
                    url.as_str(),
                    &reply,
                    true,
                    true,
                    now,
                ),
            },
            MintStage::Hop { url, again } => match event {
                Err(e) => MintNext::Done(session, Err(BridgeError::Http(e))),
                Ok(reply) => MintFlow::harvest(
                    session,
                    cookie,
                    url.as_str(),
                    &reply,
                    again,
                    false,
                    now,
                ),
            },
            MintStage::Fallback(walk) => match walk.after(event) {
                WalkStep::Next(walk) => MintNext::Continue(
                    MintFlow { session, cookie, stage: MintStage::Fallback(walk) },
                ),
                WalkStep::Failed(e) => MintNext::Done(session, Err(e)),
                WalkStep::Done(c, _) => {
                    let map = cookies::parse_cookie_header(c.as_str());
                    let token = match map.get("serviceToken") {
                        Some(t) => Some(t),
                        None => map.get(text::cat2(SID, "_serviceToken").as_str()),
                    };
                    finish_mint(session, auth::unless_expired(token), now)
                },
            },
        }
    }

    /// How it goes on when the request has ended.
    pub fn after(self, event: Result<HttpReply, String>) -> (r: MintNext)
        ensures
            exists|now: i64| r@ == #[trigger] self@.after(exchange::event_view(event), now),
    {
        let now = outside::now_millis();
        self.after_at(event, now)
    }
}

// ── the profile ─────────────────────────────────────────────────────
/// The request for the profile of a session's account.
pub open spec fn me_request(session: SessionView) -> RequestView {
    RequestView {
        post: false,
        url: API_BASE@ + ME_PATH@,
        headers: exchange::with_cookie(
            seq![("user-agent"@, PC_UA@), ("x-mimo-source"@, SOURCE@)],
            session.business_cookie(),
        ),
        payload: PayloadView::Empty,
    }
}

/// Whether a profile reply shows an account: its code is zero and it names a user.
pub open spec fn shows_account(body: JsonView) -> bool {
    &&& body.signed_at("code"@) == Some(0i64)
    &&& body.field("data"@) matches Some(data) && data.field("userId"@) is Some
}

/// What the text of a profile reply tells: whether it shows an account, and its beginning.
pub open spec fn me_told(text: Seq<char>) -> (bool, Seq<char>) {
    (
        match json::parsed_json(auth::unmarked(text)) {
            Ok(body) => shows_account(body),
            Err(_) => false,
        },
        text::first_chars_of(text, 200),
    )
}

/// GET /user/xiaomi/me with session cookies.
pub fn probe_request(session: &Session) -> (r: HttpRequest)
    ensures
        r@ == me_request(session@),
{
    let mut headers = Pairs::new();
    headers.add("user-agent", PC_UA);
    headers.add("x-mimo-source", SOURCE);
    assert(headers@ =~= seq![("user-agent"@, PC_UA@), ("x-mimo-source"@, SOURCE@)]);
    headers.add_cookie(session.business_cookie().as_str());
    HttpRequest { post: false, url: text::cat2(API_BASE, ME_PATH), headers, payload: Payload::Empty }
}

/// Whether a profile reply shows an account.
pub fn profile_found(body: &Json) -> (r: bool)
    ensures
        r == shows_account(body@),
{
    let code_ok = match body.i64_at("code") {
        Some(c) => c == 0,
        None => false,
    };
    let named = match body.get("data") {
        Some(data) => data.get("userId").is_some(),
        None => false,
    };
    code_ok && named
}

/// What comes of asking for the profile: the status, whether it shows an account, and the
/// beginning of its text. A text that cannot be read counts as empty.
pub fn probe_me(event: Result<HttpReply, String>) -> (r: Result<(u16, bool, String), BridgeError>)
    ensures
        match exchange::event_view(event) {
            Err(e) => r matches Err(error) && error@ == ErrorView::Login("probe_me: "@ + e),
            Ok(reply) => {
                let text = match reply.body {
                    Ok(t) => t,
                    Err(_) => ""@,
                };
                r matches Ok(p) && p.0 == reply.status && p.1 == me_told(text).0 && p.2@ == me_told(
                    text,
                ).1
            },
        },
{
    match event {
        Err(e) => Err(BridgeError::Login(text::cat2("probe_me: ", e.as_str()))),
        Ok(reply) => {
            let text = match reply.body {
                Ok(t) => t,
                Err(_) => "".to_string(),
            };
            let logged_in = match Json::parse(auth::strip_prefix(text.as_str())) {
                Ok(body) => profile_found(&body),
                Err(_) => false,
            };
            Ok((reply.status, logged_in, text::first_chars(text.as_str(), 200)))
        },
    }
}

/// A profile shows an account just if its code is zero and it names a user; the session's cookies
/// and the client marker go with the question.
pub proof fn profiles_are_judged(
    session: SessionView,
    text: Seq<char>,
    body: JsonView,
    data: JsonView,
    user: JsonView,
    code: i64,
)
    ensures
        json::counts(body, "code"@, 0) && json::has(body, "data"@, data) && json::has(
            data,
            "userId"@,
            user,
        ) ==> shows_account(body),
        json::counts(body, "code"@, code as int) && code != 0 || json::lacks(body, "code"@)
            || json::lacks(body, "data"@) || (json::has(body, "data"@, data) && json::lacks(
            data,
            "userId"@,
        )) ==> !shows_account(body),
        json::parsed_json(auth::unmarked(text)) == json::read_as(body) ==> me_told(text).0
            == shows_account(body),
        text.len() <= 200 ==> me_told(text).1 == text,
        !me_request(session).post && me_request(session).url == API_BASE@ + ME_PATH@,
        me_request(session).headers.contains(("x-mimo-source"@, SOURCE@)),
        exchange::carries(me_request(session), session.business_cookie()),
{
    assert(text.take(text.len() as int) =~= text);
    reveal_strlit("cookie");
    reveal_strlit("user-agent");
    reveal_strlit("x-mimo-source");
    assert("cookie"@.len() == 6 && "user-agent"@.len() == 10 && "x-mimo-source"@.len() == 13);
    let headers = me_request(session).headers;
    assert(headers[1] == ("x-mimo-source"@, SOURCE@));
    let kept = cookies::header_chars(session.business_cookie());
    if text::trim_of(kept).len() > 0 {
        assert(headers[2] == ("cookie"@, kept));
    }
}

} // verus!
