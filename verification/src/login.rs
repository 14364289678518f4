//! Signing in with an account and a password: which request comes next, and what each reply
//! means.

use crate::auth::{
    LoginOutcome, LoginRequest, OutcomeView, Session, SessionView, TwoFactorFlow, TwoFactorView,
    AUTH2, LOGIN_UA, SID,
};
use crate::error::{BridgeError, ErrorView};
use crate::exchange::{
    HttpReply, HttpRequest, Pairs, PayloadView, RedirectWalk, ReplyView, RequestView, WalkStep, WalkStepView,
    WalkView,
};
use crate::json::{Json, JsonView};
use crate::auth;
use crate::cookies;
use crate::exchange;
use crate::json;
use crate::outside;
use crate::text;
use vstd::prelude::*;

verus! {

// ── models ──────────────────────────────────────────────────────────
/// How far a sign-in is.
pub enum LoginStageView {
    /// The credentials are to be sent.
    Auth2 { captcha: Option<Seq<char>> },
    /// The reply to the credentials led elsewhere.
    Auth2Walk(WalkView),
    /// The second factors on offer are to be asked for.
    List { url: Seq<char>, cookie: Seq<char> },
    /// The reply with the second factors led elsewhere.
    ListWalk(WalkView),
}

/// What a sign-in under way is.
pub struct LoginView {
    pub account: Seq<char>,
    pub hash: Seq<char>,
    pub stage: LoginStageView,
}

/// What a sign-in ended with.
pub struct LoginDoneView {
    pub outcome: OutcomeView,
    pub flow: Option<TwoFactorView>,
    pub session: Option<SessionView>,
}

/// How a sign-in goes on.
pub enum LoginNextView {
    Continue(LoginView),
    Done(LoginDoneView),
    Failed(ErrorView),
}

/// The fields of a sign-in request.
pub open spec fn auth2_fields(account: Seq<char>, hash: Seq<char>) -> Seq<(Seq<char>, Seq<char>)> {
    seq![
        ("user"@, account),
        ("hash"@, hash),
        ("sid"@, SID@),
        ("_json"@, "true"@),
        ("_locale"@, "zh_CN"@),
    ]
}

/// The fields of the first sign-in request, with the captcha where there is one.
pub open spec fn login_fields(
    account: Seq<char>,
    hash: Seq<char>,
    captcha: Option<Seq<char>>,
) -> Seq<(Seq<char>, Seq<char>)> {
    match auth::nonempty(captcha) {
        Some(c) => auth2_fields(account, hash).push(("captCode"@, c)),
        None => auth2_fields(account, hash),
    }
}

/// The start of a sign-in, which needs an account and a password.
pub open spec fn login_from(
    account: Seq<char>,
    password: Seq<char>,
    captcha: Option<Seq<char>>,
) -> Result<LoginView, ErrorView> {
    if account.len() == 0 || password.len() == 0 {
        Err(ErrorView::Login("empty credentials"@))
    } else {
        Ok(
            LoginView {
                account,
                hash: auth::md5_upper_of(password),
                stage: LoginStageView::Auth2 { captcha },
            },
        )
    }
}

/// Where the second factors on offer are listed.
pub open spec fn list_url_of(notification: Seq<char>) -> Seq<char> {
    text::replaced(
        text::replaced(notification, "fe/service/identity/authStart"@, "identity/list"@),
        "fe/service/identityauthStart"@,
        "identity/list"@,
    )
}

/// The second factors that a list of numbers names.
pub open spec fn options_of(items: Seq<JsonView>) -> Seq<i32>
    decreases items.len(),
{
    if items.len() == 0 {
        Seq::empty()
    } else {
        match items.last().signed() {
            Some(n) => options_of(items.drop_last()).push(n as i32),
            None => options_of(items.drop_last()),
        }
    }
}

/// The second factors that a reply offers.
pub open spec fn offered(body: JsonView) -> Seq<i32> {
    match body.list_at("options"@) {
        Some(items) => options_of(items),
        None => Seq::empty(),
    }
}

/// A text that is there and does not only say `null`.
pub open spec fn told(s: Option<Seq<char>>) -> Option<Seq<char>> {
    match s {
        Some(v) if v.len() > 0 && v != "null"@ => Some(v),
        _ => None,
    }
}

/// The code of a reply, minus one where there is none.
pub open spec fn code_of(body: JsonView) -> i64 {
    match body.signed_at("code"@) {
        Some(c) => c,
        None => (-1) as i64,
    }
}

/// A text, or another in its place.
pub open spec fn or_else(s: Option<Seq<char>>, other: Seq<char>) -> Seq<char> {
    match s {
        Some(v) => v,
        None => other,
    }
}

/// What the reply to the credentials means: a captcha is asked for before anything else, then a
/// second factor, and only then its code counts.
pub open spec fn judged_auth2(
    account: Seq<char>,
    hash: Seq<char>,
    body: JsonView,
    cookie: Seq<char>,
) -> LoginNextView {
    match auth::nonempty(body.text_at("captchaUrl"@)) {
        Some(captcha_url) => LoginNextView::Done(
            LoginDoneView {
                outcome: OutcomeView::CaptchaRequired { captcha_url },
                flow: None,
                session: None,
            },
        ),
        None => match told(body.text_at("notificationUrl"@)) {
            Some(url) => LoginNextView::Continue(
                LoginView {
                    account,
                    hash,
                    stage: LoginStageView::List { url: list_url_of(url), cookie },
                },
            ),
            None => if code_of(body) != 0 {
                LoginNextView::Done(
                    LoginDoneView {
                        outcome: OutcomeView::Failed {
                            code: code_of(body),
                            description: or_else(body.text_at("description"@), ""@),
                        },
                        flow: None,
                        session: None,
                    },
                )
            } else {
                let session = auth::merged_session(auth::session_of_body(body), cookie);
                LoginNextView::Done(
                    LoginDoneView {
                        outcome: OutcomeView::Authenticated {
                            nick: session.nick,
                            user_id: session.user_id,
                        },
                        flow: None,
                        session: Some(session),
                    },
                )
            },
        },
    }
}

/// What the list of second factors means.
pub open spec fn judged_list(
    account: Seq<char>,
    hash: Seq<char>,
    body: JsonView,
    cookie: Seq<char>,
) -> LoginNextView {
    if body.truth_at("twoFactorAuth"@) == Some(true) {
        LoginNextView::Failed(ErrorView::Login("hardware 2FA is not supported"@))
    } else if offered(body).len() == 0 {
        LoginNextView::Failed(ErrorView::Login("identity/list returned no options"@))
    } else {
        LoginNextView::Done(
            LoginDoneView {
                outcome: OutcomeView::TwoFactorRequired { options: offered(body) },
                flow: Some(
                    TwoFactorView {
                        options: offered(body),
                        account,
                        password_hash: hash,
                        cookie_header: cookie,
                    },
                ),
                session: None,
            },
        )
    }
}

/// How a sign-in goes on once the last reply to the credentials is there.
pub open spec fn settled_auth2(
    account: Seq<char>,
    hash: Seq<char>,
    cookie: Seq<char>,
    reply: ReplyView,
) -> LoginNextView {
    match reply.body {
        Err(e) => LoginNextView::Failed(ErrorView::Http(e)),
        Ok(text) => match json::parsed_json(auth::unmarked(text)) {
            Err(e) => LoginNextView::Failed(
                ErrorView::Login(
                    "auth2 parse: "@ + e + " body[..200]="@ + text::first_chars_of(text, 200),
                ),
            ),
            Ok(body) => judged_auth2(
                account,
                hash,
                body,
                cookies::merged_header(cookie, reply.set_cookies),
            ),
        },
    }
}

/// How a sign-in goes on once the last reply with the second factors is there.
pub open spec fn settled_list(
    account: Seq<char>,
    hash: Seq<char>,
    cookie: Seq<char>,
    reply: ReplyView,
) -> LoginNextView {
    match reply.body {
        Err(e) => LoginNextView::Failed(ErrorView::Http(e)),
        Ok(text) => match json::parsed_json(auth::unmarked(text)) {
            Err(e) => LoginNextView::Failed(ErrorView::Login("identity/list parse: "@ + e)),
            Ok(body) => judged_list(
                account,
                hash,
                body,
                cookies::merged_header(cookie, reply.set_cookies),
            ),
        },
    }
}

impl LoginView {
    /// The same sign-in at another stage.
    pub open spec fn at(self, stage: LoginStageView) -> LoginNextView {
        LoginNextView::Continue(LoginView { account: self.account, hash: self.hash, stage })
    }

    /// The next request of the sign-in.
    pub open spec fn request(self) -> RequestView {
        match self.stage {
            LoginStageView::Auth2 { captcha } => exchange::form_request(
                AUTH2@,
                LOGIN_UA@,
                login_fields(self.account, self.hash, captcha),
                ""@,
            ),
            LoginStageView::Auth2Walk(walk) => walk.request(),
            LoginStageView::List { url, cookie } => exchange::get_request(url, LOGIN_UA@, cookie),
            LoginStageView::ListWalk(walk) => walk.request(),
        }
    }

    /// How the sign-in goes on when its request has ended. A reply that leads elsewhere is
    /// followed, with the cookies that it set.
    pub open spec fn after(self, event: Result<ReplyView, Seq<char>>) -> LoginNextView {
        match self.stage {
            LoginStageView::Auth2 { captcha } => match event {
                Err(e) => LoginNextView::Failed(ErrorView::Login("auth2: "@ + e)),
                Ok(reply) => match reply.target() {
                    Some(loc) => match exchange::walk_from(
                        loc,
                        cookies::merged_header(""@, reply.set_cookies),
                        LOGIN_UA@,
                    ) {
                        Ok(walk) => self.at(LoginStageView::Auth2Walk(walk)),
                        Err(e) => LoginNextView::Failed(e),
                    },
                    None => settled_auth2(
                        self.account,
                        self.hash,
                        if exchange::redirects(reply.status) {
                            cookies::merged_header(""@, reply.set_cookies)
                        } else {
                            ""@
                        },
                        reply,
                    ),
                },
            },
            LoginStageView::Auth2Walk(walk) => match walk.after(event) {
                WalkStepView::Next(walk) => self.at(LoginStageView::Auth2Walk(walk)),
                WalkStepView::Failed(e) => LoginNextView::Failed(e),
                WalkStepView::Done(cookie, reply) => settled_auth2(
                    self.account,
                    self.hash,
                    cookie,
                    reply,
                ),
            },
            LoginStageView::List { url, cookie } => match event {
                Err(e) => LoginNextView::Failed(ErrorView::Login("identity/list: "@ + e)),
                Ok(reply) => match reply.target() {
                    Some(loc) => match exchange::walk_from(
                        loc,
                        cookies::merged_header(cookie, reply.set_cookies),
                        LOGIN_UA@,
                    ) {
                        Ok(walk) => self.at(LoginStageView::ListWalk(walk)),
                        Err(e) => LoginNextView::Failed(e),
                    },
                    None => settled_list(
                        self.account,
                        self.hash,
                        if exchange::redirects(reply.status) {
                            cookies::merged_header(cookie, reply.set_cookies)
                        } else {
                            cookie
                        },
                        reply,
                    ),
                },
            },
            LoginStageView::ListWalk(walk) => match walk.after(event) {
                WalkStepView::Next(walk) => self.at(LoginStageView::ListWalk(walk)),
                WalkStepView::Failed(e) => LoginNextView::Failed(e),
                WalkStepView::Done(cookie, reply) => settled_list(
                    self.account,
                    self.hash,
                    cookie,
                    reply,
                ),
            },
        }
    }
}

impl LoginView {
    /// How many requests the sign-in may still take.
    pub open spec fn requests_left(self) -> nat {
        match self.stage {
            LoginStageView::Auth2 { .. } => 18,
            LoginStageView::Auth2Walk(walk) => walk.requests_left() + 9,
            LoginStageView::List { .. } => 9,
            LoginStageView::ListWalk(walk) => walk.requests_left(),
        }
    }
}

/// A sign-in ends, whatever the replies are: each reply brings it nearer to its end, and it begins
/// at most eighteen requests away from it.
pub proof fn sign_in_ends(flow: LoginView, event: Result<ReplyView, Seq<char>>)
    ensures
        flow.after(event) matches LoginNextView::Continue(next) ==> next.requests_left()
            < flow.requests_left(),
        flow.stage is Auth2 ==> flow.requests_left() == 18,
{
}

/// Whether a reply is a JSON value and leads nowhere else.
pub open spec fn answers(reply: ReplyView, body: JsonView) -> bool {
    &&& reply.status < 300 || reply.status >= 400
    &&& reply.body matches Ok(text) && json::parsed_json(auth::unmarked(text)) == json::read_as(body)
}

/// Whether a sign-in waits for the reply to the credentials.
pub open spec fn awaits_reply(flow: LoginView) -> bool {
    flow.stage is Auth2 || flow.stage is Auth2Walk
}

/// Right credentials sign in: a reply with the code zero that asks for nothing more ends the
/// sign-in with a session that has every field that the reply told, and the rest from the cookies,
/// also where redirects led to that reply. What is told to the user is what the session says.
pub proof fn right_credentials_sign_in(
    flow: LoginView,
    reply: ReplyView,
    body: JsonView,
    token: Seq<char>,
)
    requires
        awaits_reply(flow),
        answers(reply, body),
        json::lacks(body, "captchaUrl"@),
        json::lacks(body, "notificationUrl"@),
        json::counts(body, "code"@, 0),
    ensures
        flow.after(Ok(reply)) matches LoginNextView::Done(done) && {
            &&& done.flow is None
            &&& done.session matches Some(session) && auth::holds_told(session, body)
                && done.outcome == (OutcomeView::Authenticated {
                nick: session.nick,
                user_id: session.user_id,
            }) && (json::says(body, "passToken"@, token) ==> session.pass_token == Some(token)) && (
            flow.stage is Auth2 ==> auth::made_of(
                session,
                body,
                cookies::jar_of(cookies::merged_header(""@, reply.set_cookies)),
            )) && (flow.stage matches LoginStageView::Auth2Walk(walk) ==> auth::made_of(
                session,
                body,
                cookies::jar_of(
                    cookies::merged_header(
                        cookies::merged_header(walk.cookie, reply.set_cookies),
                        reply.set_cookies,
                    ),
                ),
            ))
        },
{
    match flow.stage {
        LoginStageView::Auth2Walk(walk) => {
            let once = cookies::merged_header(walk.cookie, reply.set_cookies);
            auth::told_fields_count(body, cookies::merged_header(once, reply.set_cookies));
        },
        _ => {
            auth::told_fields_count(body, cookies::merged_header(""@, reply.set_cookies));
        },
    }
}

/// Nobody is signed in without right credentials: a reply with another code, or with none, gives
/// no session and tells the code and the reason. A captcha is asked for before anything else, and
/// a second factor before the code counts.
pub proof fn wrong_credentials_do_not_sign_in(
    flow: LoginView,
    reply: ReplyView,
    body: JsonView,
    code: i64,
    reason: Seq<char>,
    captcha: Seq<char>,
    notice: Seq<char>,
)
    requires
        awaits_reply(flow),
        answers(reply, body),
    ensures
        json::says(body, "captchaUrl"@, captcha) ==> (flow.after(Ok(reply)) matches LoginNextView::Done(
            done,
        ) && done.outcome == (OutcomeView::CaptchaRequired { captcha_url: captcha })
            && done.session is None && done.flow is None),
        json::lacks(body, "captchaUrl"@) && json::says(body, "notificationUrl"@, notice) && notice
            != "null"@ ==> (flow.after(Ok(reply)) matches LoginNextView::Continue(next)
            && next.stage is List && next.account == flow.account && next.hash == flow.hash),
        json::lacks(body, "captchaUrl"@) && json::lacks(body, "notificationUrl"@) && json::counts(
            body,
            "code"@,
            code as int,
        ) && code != 0 && json::has(body, "description"@, JsonView::Text(reason)) ==> (flow.after(
            Ok(reply),
        ) matches LoginNextView::Done(done) && done.outcome == (OutcomeView::Failed {
            code,
            description: reason,
        }) && done.session is None && done.flow is None),
        json::lacks(body, "captchaUrl"@) && json::lacks(body, "notificationUrl"@) && json::lacks(
            body,
            "code"@,
        ) ==> (flow.after(Ok(reply)) matches LoginNextView::Done(done)
            && done.outcome is Failed && done.session is None && done.flow is None),
{
}

/// A reply that cannot be read, or is no JSON, ends the sign-in without a session, on every step.
pub proof fn unreadable_replies_sign_nobody_in(
    flow: LoginView,
    reply: ReplyView,
    text: Seq<char>,
    e: Seq<char>,
)
    requires
        reply.status < 300 || reply.status >= 400,
        reply.body == Err::<Seq<char>, Seq<char>>(e) || (reply.body == Ok::<_, Seq<char>>(text)
            && json::parsed_json(auth::unmarked(text)) == Err::<JsonView, Seq<char>>(e)),
    ensures
        flow.after(Ok(reply)) is Failed,
{
}

/// A reply that leads elsewhere is followed there, with the cookies that it set. The second factors
/// are asked for with the cookies of the reply that named them.
pub proof fn redirects_are_followed(
    flow: LoginView,
    captcha: Option<Seq<char>>,
    url: Seq<char>,
    cookie: Seq<char>,
    reply: ReplyView,
    page: Seq<char>,
    body: JsonView,
    notice: Seq<char>,
)
    requires
        reply.location == Some(page),
        page.len() > 0,
        text::is_trimmed(page),
        page != "null"@,
    ensures
        300 <= reply.status < 400 && flow.stage == (LoginStageView::Auth2 { captcha }) ==> (flow.after(
            Ok(reply),
        ) matches LoginNextView::Continue(next) && next.stage is Auth2Walk && next.request().url
            == page && exchange::carries(
            next.request(),
            cookies::merged_header(""@, reply.set_cookies),
        )),
        300 <= reply.status < 400 && flow.stage == (LoginStageView::List { url, cookie }) ==> (
        flow.after(Ok(reply)) matches LoginNextView::Continue(next) && next.stage is ListWalk
            && next.request().url == page && exchange::carries(
            next.request(),
            cookies::merged_header(cookie, reply.set_cookies),
        )),
        flow.stage == (LoginStageView::Auth2 { captcha }) && answers(reply, body) && json::lacks(
            body,
            "captchaUrl"@,
        ) && json::says(body, "notificationUrl"@, notice) && notice != "null"@ ==> (flow.after(
            Ok(reply),
        ) matches LoginNextView::Continue(next) && exchange::carries(
            next.request(),
            cookies::merged_header(""@, reply.set_cookies),
        ) && !next.request().post && next.request().url == list_url_of(notice)),
{
    text::lemma_trim(page);
    let first = cookies::merged_header(""@, reply.set_cookies);
    exchange::requests_carry_what_they_should(page, LOGIN_UA@, Seq::empty(), first);
    exchange::requests_carry_what_they_should(list_url_of(notice), LOGIN_UA@, Seq::empty(), first);
    exchange::requests_carry_what_they_should(
        page,
        LOGIN_UA@,
        Seq::empty(),
        cookies::merged_header(cookie, reply.set_cookies),
    );
}

/// Whether a list of numbers is what a JSON array says.
pub open spec fn lists(items: Seq<JsonView>, options: Seq<i32>) -> bool {
    &&& items.len() == options.len()
    &&& forall|i: int|
        0 <= i < items.len() ==> #[trigger] items[i] == JsonView::Number(
            json::NumberView::Integer(options[i] as int),
        )
}

proof fn lemma_options(items: Seq<JsonView>, options: Seq<i32>)
    requires
        lists(items, options),
    ensures
        options_of(items) == options,
    decreases items.len(),
{
    if items.len() > 0 {
        let last = items.len() - 1;
        assert(items[last] == JsonView::Number(json::NumberView::Integer(options[last] as int)));
        assert forall|i: int| 0 <= i < items.drop_last().len() implies #[trigger] items.drop_last()[i]
            == JsonView::Number(json::NumberView::Integer(options.drop_last()[i] as int)) by {
            assert(items.drop_last()[i] == items[i]);
        }
        lemma_options(items.drop_last(), options.drop_last());
        assert(options.drop_last().push(options.last()) =~= options);
    } else {
        assert(options =~= Seq::empty());
    }
}

/// The second factors on offer are told just as they are listed, and what the sign-in was begun
/// with is kept for the ticket: the account, the hash of the password, and all cookies. An account
/// that needs a hardware key, or has nothing on offer, cannot go on.
pub proof fn second_factors_are_offered(
    flow: LoginView,
    url: Seq<char>,
    cookie: Seq<char>,
    reply: ReplyView,
    body: JsonView,
    items: Seq<JsonView>,
    options: Seq<i32>,
)
    requires
        flow.stage == (LoginStageView::List { url, cookie }),
        answers(reply, body),
        json::has(body, "options"@, JsonView::List(items)),
        lists(items, options),
    ensures
        flow.request().url == url && !flow.request().post && exchange::carries(
            flow.request(),
            cookie,
        ),
        json::lacks(body, "twoFactorAuth"@) && options.len() > 0 ==> (flow.after(Ok(reply))
            matches LoginNextView::Done(done) && done.outcome == (OutcomeView::TwoFactorRequired {
            options,
        }) && done.session is None && done.flow == Some(
            TwoFactorView {
                options,
                account: flow.account,
                password_hash: flow.hash,
                cookie_header: cookies::merged_header(cookie, reply.set_cookies),
            },
        )),
        json::has(body, "twoFactorAuth"@, JsonView::Bool(true)) || options.len() == 0 ==> flow.after(
            Ok(reply),
        ) is Failed,
{
    lemma_options(items, options);
    exchange::requests_carry_what_they_should(url, LOGIN_UA@, Seq::empty(), cookie);
}

/// A list that pages lead to is read like one that comes at once: the second factors are told as
/// they are listed, with the account, the hash of the password, and the cookies of every page.
pub proof fn redirected_lists_are_read_alike(
    flow: LoginView,
    walk: exchange::WalkView,
    direct: LoginView,
    url: Seq<char>,
    reply: ReplyView,
)
    requires
        flow.stage == LoginStageView::ListWalk(walk),
        direct == (LoginView {
            stage: LoginStageView::List {
                url,
                cookie: cookies::merged_header(walk.cookie, reply.set_cookies),
            },
            ..flow
        }),
        reply.status < 300 || reply.status >= 400,
    ensures
        flow.after(Ok(reply)) == direct.after(Ok(reply)),
{
}

/// Second factors come in the order in which they are listed, and what is no whole number on the
/// list is passed over.
pub proof fn lists_are_read_in_order(a: Seq<JsonView>, b: Seq<JsonView>, item: JsonView)
    ensures
        options_of(a + b) == options_of(a) + options_of(b),
        !(item is Number) ==> options_of(seq![item]) == Seq::<i32>::empty(),
    decreases b.len(),
{
    reveal_with_fuel(options_of, 2);
    assert(seq![item].drop_last() =~= Seq::empty());
    if b.len() == 0 {
        assert(a + b =~= a);
    } else {
        lists_are_read_in_order(a, b.drop_last(), item);
        assert((a + b).drop_last() =~= a + b.drop_last());
    }
}

/// The password goes out only as its digest, with the account, and with the captcha where one was
/// solved; both are needed. Account and digest stay the same on every step, and an error ends the
/// sign-in.
pub proof fn credentials_go_out_hashed(
    account: Seq<char>,
    password: Seq<char>,
    captcha: Option<Seq<char>>,
    solved: Seq<char>,
    flow: LoginView,
    event: Result<ReplyView, Seq<char>>,
)
    ensures
        account.len() == 0 || password.len() == 0 ==> login_from(account, password, captcha) is Err,
        account.len() > 0 && password.len() > 0 ==> (login_from(account, password, captcha)
            matches Ok(start) && start.account == account && start.hash
            == outside::hex_upper_text(outside::md5_of(vstd::utf8::encode_utf8(password)))
            && start.request().post && start.request().url == AUTH2@ && (
        start.request().payload matches PayloadView::Form(form) && form.contains(("user"@, account))
            && form.contains(("hash"@, start.hash)) && form.contains(("sid"@, SID@)) && (captcha
            == Some(solved) && solved.len() > 0 ==> form.contains(("captCode"@, solved))))),
        flow.after(event) matches LoginNextView::Continue(next) ==> next.account == flow.account
            && next.hash == flow.hash,
        event is Err ==> flow.after(event) is Failed,
{
    if account.len() > 0 && password.len() > 0 {
        let start = login_from(account, password, captcha)->Ok_0;
        let form = login_fields(account, start.hash, captcha);
        assert(form[0] == ("user"@, account) && form[1] == ("hash"@, start.hash) && form[2] == (
            "sid"@,
            SID@,
        ));
        assert(form.contains(form[0]) && form.contains(form[1]) && form.contains(form[2]));
        if captcha == Some(solved) && solved.len() > 0 {
            assert(form[5] == ("captCode"@, solved));
        }
    }
}

// ── the sign-in ─────────────────────────────────────────────────────
/// How far a sign-in is.
#[derive(Debug)]
pub enum LoginStage {
    Auth2 { captcha: Option<String> },
    Auth2Walk(RedirectWalk),
    List { url: String, cookie: String },
    ListWalk(RedirectWalk),
}

/// A sign-in under way.
#[derive(Debug)]
pub struct LoginFlow {
    pub account: String,
    pub hash: String,
    pub stage: LoginStage,
}

/// What a sign-in ended with.
#[derive(Debug)]
pub struct LoginDone {
    pub outcome: LoginOutcome,
    pub flow: Option<TwoFactorFlow>,
    pub session: Option<Session>,
}

/// How a sign-in goes on.
#[derive(Debug)]
pub enum LoginNext {
    Continue(LoginFlow),
    Done(LoginDone),
    Failed(BridgeError),
}

impl View for LoginStage {
    type V = LoginStageView;

    open spec fn view(&self) -> LoginStageView {
        match *self {
            LoginStage::Auth2 { captcha } => LoginStageView::Auth2 { captcha: text::opt_view(captcha) },
            LoginStage::Auth2Walk(walk) => LoginStageView::Auth2Walk(walk@),
            LoginStage::List { url, cookie } => LoginStageView::List { url: url@, cookie: cookie@ },
            LoginStage::ListWalk(walk) => LoginStageView::ListWalk(walk@),
        }
    }
}

impl View for LoginFlow {
    type V = LoginView;

    open spec fn view(&self) -> LoginView {
        LoginView { account: self.account@, hash: self.hash@, stage: self.stage@ }
    }
}

impl View for LoginDone {
    type V = LoginDoneView;

    open spec fn view(&self) -> LoginDoneView {
        LoginDoneView {
            outcome: self.outcome@,
            flow: match self.flow {
                Some(f) => Some(f@),
                None => None,
            },
            session: match self.session {
                Some(s) => Some(s@),
                None => None,
            },
        }
    }
}

impl View for LoginNext {
    type V = LoginNextView;

    open spec fn view(&self) -> LoginNextView {
        match *self {
            LoginNext::Continue(flow) => LoginNextView::Continue(flow@),
            LoginNext::Done(done) => LoginNextView::Done(done@),
            LoginNext::Failed(e) => LoginNextView::Failed(e@),
        }
    }
}

/// The fields of a sign-in request.
pub fn auth2_form(account: &str, hash: &str) -> (r: Pairs)
    ensures
        r@ == auth2_fields(account@, hash@),
{
    let mut form = Pairs::new();
    form.add("user", account);
    form.add("hash", hash);
    form.add("sid", SID);
    form.add("_json", "true");
    form.add("_locale", "zh_CN");
    form
}

/// The code of a reply, minus one where there is none.
pub fn reply_code(body: &Json) -> (r: i64)
    ensures
        r == code_of(body@),
{
    match body.i64_at("code") {
        Some(c) => c,
        None => -1,
    }
}

/// The string at the member `key`, or another in its place.
pub fn str_or(body: &Json, key: &str, other: &str) -> (r: String)
    ensures
        r@ == or_else(body@.text_at(key@), other@),
{
    match body.str_at(key) {
        Some(s) => s.to_string(),
        None => other.to_string(),
    }
}

/// The second factors that a list of numbers names.
pub fn option_numbers(items: &Vec<Json>) -> (r: Vec<i32>)
    ensures
        r@ == options_of(json::trees_of(items@)),
{
    let mut out: Vec<i32> = Vec::new();
    let mut i: usize = 0;
    while i < items.len()
        invariant
            i <= items@.len(),
            out@ == options_of(json::trees_of(items@).take(i as int)),
        decreases items@.len() - i,
    {
        let ghost all = json::trees_of(items@);
        assert(all.take(i + 1).drop_last() =~= all.take(i as int));
        assert(all.take(i + 1).last() == items@[i as int]@);
        if let Some(n) = items[i].as_i64() {
            out.push(n as i32);
        }
        i += 1;
    }
    assert(json::trees_of(items@).take(i as int) =~= json::trees_of(items@));
    out
}

/// What the reply to the credentials means.
pub fn judge_auth2(account: String, hash: String, body: &Json, cookie: String) -> (r: LoginNext)
    ensures
        r@ == judged_auth2(account@, hash@, body@, cookie@),
{
    if let Some(captcha_url) = body.str_at("captchaUrl") {
        if !captcha_url.is_empty() {
            return LoginNext::Done(
                LoginDone {
                    outcome: LoginOutcome::CaptchaRequired { captcha_url: captcha_url.to_string() },
                    flow: None,
                    session: None,
                },
            );
        }
    }
    if let Some(url) = body.str_at("notificationUrl") {
        if !url.is_empty() && !text::same(url, "null") {
            proof {
                reveal_strlit("fe/service/identity/authStart");
                reveal_strlit("fe/service/identityauthStart");
            }
            let once = text::replace(url, "fe/service/identity/authStart", "identity/list");
            let list_url = text::replace(
                once.as_str(),
                "fe/service/identityauthStart",
                "identity/list",
            );
            return LoginNext::Continue(
                LoginFlow { account, hash, stage: LoginStage::List { url: list_url, cookie } },
            );
        }
    }
    let code = reply_code(body);
    if code != 0 {
        return LoginNext::Done(
            LoginDone {
                outcome: LoginOutcome::Failed { code, description: str_or(body, "description", "") },
                flow: None,
                session: None,
            },
        );
    }
    let session = auth::merge_session(auth::parse_session_fields(body), cookie.as_str());
    LoginNext::Done(
        LoginDone {
            outcome: LoginOutcome::Authenticated {
                nick: session.nick.clone(),
                user_id: session.user_id.clone(),
            },
            flow: None,
            session: Some(session),
        },
    )
}

/// What the list of second factors means.
pub fn judge_list(account: String, hash: String, body: &Json, cookie: String) -> (r: LoginNext)
    ensures
        r@ == judged_list(account@, hash@, body@, cookie@),
{
    if let Some(hardware) = body.bool_at("twoFactorAuth") {
        if hardware {
            return LoginNext::Failed(
                BridgeError::Login("hardware 2FA is not supported".to_string()),
            );
        }
    }
    let options: Vec<i32> = match body.list_at("options") {
        Some(items) => option_numbers(items),
        None => Vec::new(),
    };
    if options.len() == 0 {
        return LoginNext::Failed(BridgeError::Login("identity/list returned no options".to_string()));
    }
    let flow = TwoFactorFlow {
        options: auth::copy_options(&options),
        account,
        password_hash: hash,
        cookie_header: cookie,
    };
    LoginNext::Done(
        LoginDone {
            outcome: LoginOutcome::TwoFactorRequired { options },
            flow: Some(flow),
            session: None,
        },
    )
}

/// How a sign-in goes on once the last reply to the credentials is there.
pub fn settle_auth2(account: String, hash: String, cookie: &str, reply: HttpReply) -> (r: LoginNext)
    ensures
        r@ == settled_auth2(account@, hash@, cookie@, reply@),
{
    let cookie = cookies::merge_set_cookie(cookie, &reply.set_cookies);
    match reply.body {
        Err(e) => LoginNext::Failed(BridgeError::Http(e)),
        Ok(text) => match Json::parse(auth::strip_prefix(text.as_str())) {
            Err(e) => LoginNext::Failed(
                BridgeError::Login(
                    text::cat4(
                        "auth2 parse: ",
                        e.as_str(),
                        " body[..200]=",
                        text::first_chars(text.as_str(), 200).as_str(),
                    ),
                ),
            ),
            Ok(body) => judge_auth2(account, hash, &body, cookie),
        },
    }
}

/// How a sign-in goes on once the last reply with the second factors is there.
pub fn settle_list(account: String, hash: String, cookie: &str, reply: HttpReply) -> (r: LoginNext)
    ensures
        r@ == settled_list(account@, hash@, cookie@, reply@),
{
    let cookie = cookies::merge_set_cookie(cookie, &reply.set_cookies);
    match reply.body {
        Err(e) => LoginNext::Failed(BridgeError::Http(e)),
        Ok(text) => match Json::parse(auth::strip_prefix(text.as_str())) {
            Err(e) => LoginNext::Failed(
                BridgeError::Login(text::cat2("identity/list parse: ", e.as_str())),
            ),
            Ok(body) => judge_list(account, hash, &body, cookie),
        },
    }
}

/// Begins a sign-in.
pub fn login_auth2(req: &LoginRequest) -> (r: Result<LoginFlow, BridgeError>)
    ensures
        match login_from(req.account@, req.password@, text::opt_view(req.captcha)) {
            Ok(v) => r matches Ok(flow) && flow@ == v,
            Err(e) => r matches Err(error) && error@ == e,
        },
{
    if req.account.as_str().is_empty() || req.password.as_str().is_empty() {
        return Err(BridgeError::Login("empty credentials".to_string()));
    }
    Ok(
        LoginFlow {
            account: req.account.clone(),
            hash: auth::md5_upper(req.password.as_str()),
            stage: LoginStage::Auth2 { captcha: req.captcha.clone() },
        },
    )
}

impl LoginFlow {
    /// The next request of the sign-in.
    pub fn request(&self) -> (r: HttpRequest)
        ensures
            r@ == self@.request(),
    {
        match &self.stage {
            LoginStage::Auth2 { captcha } => {
                let mut form = auth2_form(self.account.as_str(), self.hash.as_str());
                if let Some(c) = captcha {
                    if !c.as_str().is_empty() {
                        form.add("captCode", c.as_str());
                    }
                }
                exchange::make_form_post(AUTH2, LOGIN_UA, form, "")
            },
            LoginStage::Auth2Walk(walk) => walk.request(),
            LoginStage::List { url, cookie } => exchange::make_get(url.as_str(), LOGIN_UA, cookie.as_str()),
            LoginStage::ListWalk(walk) => walk.request(),
        }
    }

    /// How the sign-in goes on when its request has ended.
    pub fn after(self, event: Result<HttpReply, String>) -> (r: LoginNext)
        ensures
            r@ == self@.after(exchange::event_view(event)),
    {
        let account = self.account;
        let hash = self.hash;
        match self.stage {
            LoginStage::Auth2 { captcha: _ } => match event {
                Err(e) => LoginNext::Failed(BridgeError::Login(text::cat2("auth2: ", e.as_str()))),
                Ok(reply) => {
                    let redirected = 300 <= reply.status && reply.status < 400;
                    let cookie = if redirected {
                        cookies::merge_set_cookie("", &reply.set_cookies)
                    } else {
                        "".to_string()
                    };
                    match reply.target() {
                        Some(loc) => match RedirectWalk::start(
                            loc.as_str(),
                            cookie.as_str(),
                            LOGIN_UA,
                        ) {
                            Ok(walk) => LoginNext::Continue(
                                LoginFlow { account, hash, stage: LoginStage::Auth2Walk(walk) },
                            ),
                            Err(e) => LoginNext::Failed(e),
                        },
                        None => settle_auth2(account, hash, cookie.as_str(), reply),
                    }
                },
            },
            LoginStage::Auth2Walk(walk) => match walk.after(event) {
                WalkStep::Next(walk) => LoginNext::Continue(
                    LoginFlow { account, hash, stage: LoginStage::Auth2Walk(walk) },
                ),
                WalkStep::Failed(e) => LoginNext::Failed(e),
                WalkStep::Done(cookie, reply) => settle_auth2(
                    account,
                    hash,
                    cookie.as_str(),
                    reply,
                ),
            },
            LoginStage::List { url: _, cookie } => match event {
                Err(e) => LoginNext::Failed(
                    BridgeError::Login(text::cat2("identity/list: ", e.as_str())),
                ),
                Ok(reply) => {
                    let redirected = 300 <= reply.status && reply.status < 400;
                    let cookie = if redirected {
                        cookies::merge_set_cookie(cookie.as_str(), &reply.set_cookies)
                    } else {
                        cookie
                    };
                    match reply.target() {
                        Some(loc) => match RedirectWalk::start(
                            loc.as_str(),
                            cookie.as_str(),
                            LOGIN_UA,
                        ) {
                            Ok(walk) => LoginNext::Continue(
                                LoginFlow { account, hash, stage: LoginStage::ListWalk(walk) },
                            ),
                            Err(e) => LoginNext::Failed(e),
                        },
                        None => settle_list(account, hash, cookie.as_str(), reply),
                    }
                },
            },
            LoginStage::ListWalk(walk) => match walk.after(event) {
                WalkStep::Next(walk) => LoginNext::Continue(
                    LoginFlow { account, hash, stage: LoginStage::ListWalk(walk) },
                ),
                WalkStep::Failed(e) => LoginNext::Failed(e),
                WalkStep::Done(cookie, reply) => settle_list(
                    account,
                    hash,
                    cookie.as_str(),
                    reply,
                ),
            },
        }
    }
}

/// The second factors are listed beside the page that announces them: its path is exchanged for that
/// of the list, and the rest of the address stays.
pub proof fn lists_are_beside_their_notice(notice: Seq<char>, i: int)
    requires
        text::find_of(notice, "fe/service/identity/authStart"@) == Some(i),
        text::find_of(notice.skip(i + 29), "fe/service/identity/authStart"@) is None,
        text::find_of(
            notice.take(i) + "identity/list"@ + notice.skip(i + 29),
            "fe/service/identityauthStart"@,
        ) is None,
    ensures
        list_url_of(notice) == notice.take(i) + "identity/list"@ + notice.skip(i + 29),
{
    let first = "fe/service/identity/authStart"@;
    let second = "fe/service/identityauthStart"@;
    reveal_strlit("fe/service/identity/authStart");
    reveal_strlit("fe/service/identityauthStart");
    assert(first.len() == 29);
    text::only_occurrences_are_replaced(notice, first, "identity/list"@);
    text::only_occurrences_are_replaced(notice.skip(i + 29), first, "identity/list"@);
    text::only_occurrences_are_replaced(
        notice.take(i) + "identity/list"@ + notice.skip(i + 29),
        second,
        "identity/list"@,
    );
}

} // verus!
