//! HTTP requests and replies as plain data, and the walk along a chain of redirects.

use crate::error::{BridgeError, ErrorView};
use crate::auth;
use crate::cookies;
use crate::outside;
use crate::text;
use vstd::prelude::*;

verus! {

// ── requests ────────────────────────────────────────────────────────
/// Names with values, in order.
#[derive(Debug)]
pub struct Pairs {
    pub items: Vec<(String, String)>,
}

impl View for Pairs {
    type V = Seq<(Seq<char>, Seq<char>)>;

    open spec fn view(&self) -> Seq<(Seq<char>, Seq<char>)> {
        Seq::new(self.items@.len(), |i: int| (self.items@[i].0@, self.items@[i].1@))
    }
}

impl Pairs {
    pub fn new() -> (r: Pairs)
        ensures
            r@ == Seq::<(Seq<char>, Seq<char>)>::empty(),
    {
        let r = Pairs { items: Vec::new() };
        assert(r@ =~= Seq::<(Seq<char>, Seq<char>)>::empty());
        r
    }

    /// Adds a name with its value.
    pub fn add(&mut self, name: &str, value: &str)
        ensures
            final(self)@ == old(self)@.push((name@, value@)),
    {
        let ghost before = self@;
        self.items.push((name.to_string(), value.to_string()));
        assert(self@ =~= before.push((name@, value@)));
    }

    /// Adds the `Cookie` header, unless nothing legal is left of the cookie.
    pub fn add_cookie(&mut self, cookie: &str)
        ensures
            final(self)@ == with_cookie(old(self)@, cookie@),
    {
        if let Some(c) = cookies::safe_cookie_header(cookie) {
            self.add("cookie", c.as_str());
        }
    }
}

/// Headers, with the `Cookie` header where something legal is left of the cookie.
pub open spec fn with_cookie(headers: Seq<(Seq<char>, Seq<char>)>, cookie: Seq<char>) -> Seq<
    (Seq<char>, Seq<char>),
> {
    match cookies::sendable_cookie(cookie) {
        Some(c) => headers.push(("cookie"@, c)),
        None => headers,
    }
}

/// What a request carries.
#[derive(Debug)]
pub enum Payload {
    Empty,
    /// Fields, to be sent form-encoded.
    Form(Pairs),
    Text(String),
}

/// An HTTP request to be sent.
#[derive(Debug)]
pub struct HttpRequest {
    /// `POST` if set, `GET` if not.
    pub post: bool,
    pub url: String,
    pub headers: Pairs,
    pub payload: Payload,
}

/// What a request carries.
pub enum PayloadView {
    Empty,
    Form(Seq<(Seq<char>, Seq<char>)>),
    Text(Seq<char>),
}

/// What a request is.
pub struct RequestView {
    pub post: bool,
    pub url: Seq<char>,
    pub headers: Seq<(Seq<char>, Seq<char>)>,
    pub payload: PayloadView,
}

impl View for Payload {
    type V = PayloadView;

    open spec fn view(&self) -> PayloadView {
        match *self {
            Payload::Empty => PayloadView::Empty,
            Payload::Form(fields) => PayloadView::Form(fields@),
            Payload::Text(s) => PayloadView::Text(s@),
        }
    }
}

impl View for HttpRequest {
    type V = RequestView;

    open spec fn view(&self) -> RequestView {
        RequestView {
            post: self.post,
            url: self.url@,
            headers: self.headers@,
            payload: self.payload@,
        }
    }
}

/// A `GET` request of a user agent, with a cookie.
pub open spec fn get_request(url: Seq<char>, ua: Seq<char>, cookie: Seq<char>) -> RequestView {
    RequestView {
        post: false,
        url,
        headers: with_cookie(seq![("user-agent"@, ua)], cookie),
        payload: PayloadView::Empty,
    }
}

/// A `POST` request of a user agent, with a form and a cookie.
pub open spec fn form_request(
    url: Seq<char>,
    ua: Seq<char>,
    form: Seq<(Seq<char>, Seq<char>)>,
    cookie: Seq<char>,
) -> RequestView {
    RequestView {
        post: true,
        url,
        headers: with_cookie(seq![("user-agent"@, ua)], cookie),
        payload: PayloadView::Form(form),
    }
}

pub fn make_get(url: &str, ua: &str, cookie: &str) -> (r: HttpRequest)
    ensures
        r@ == get_request(url@, ua@, cookie@),
{
    let mut headers = Pairs::new();
    headers.add("user-agent", ua);
    headers.add_cookie(cookie);
    HttpRequest { post: false, url: url.to_string(), headers, payload: Payload::Empty }
}

pub fn make_form_post(url: &str, ua: &str, form: Pairs, cookie: &str) -> (r: HttpRequest)
    ensures
        r@ == form_request(url@, ua@, form@, cookie@),
{
    let mut headers = Pairs::new();
    headers.add("user-agent", ua);
    headers.add_cookie(cookie);
    HttpRequest { post: true, url: url.to_string(), headers, payload: Payload::Form(form) }
}

/// No cookie leads to no header.
pub proof fn lemma_no_cookie()
    ensures
        cookies::sendable_cookie(""@) is None,
{
    reveal_strlit("");
    assert(""@ =~= Seq::<char>::empty());
    assert(text::trim_start_of(Seq::<char>::empty()) == Seq::<char>::empty());
}

// ── replies ─────────────────────────────────────────────────────────
/// An HTTP reply: its status, the headers that matter here, and its text, or the text of the
/// error that reading it gave.
#[derive(Debug)]
pub struct HttpReply {
    pub status: u16,
    pub set_cookies: Vec<String>,
    pub location: Option<String>,
    pub body: Result<String, String>,
}

/// What a reply is.
pub struct ReplyView {
    pub status: u16,
    pub set_cookies: Seq<Seq<char>>,
    pub location: Option<Seq<char>>,
    pub body: Result<Seq<char>, Seq<char>>,
}

/// What reading a text gave.
pub open spec fn read_view(body: Result<String, String>) -> Result<Seq<char>, Seq<char>> {
    match body {
        Ok(s) => Ok(s@),
        Err(e) => Err(e@),
    }
}

impl View for HttpReply {
    type V = ReplyView;

    open spec fn view(&self) -> ReplyView {
        ReplyView {
            status: self.status,
            set_cookies: text::views(self.set_cookies@),
            location: text::opt_view(self.location),
            body: read_view(self.body),
        }
    }
}

/// What came of sending a request: a reply, or the text of the error.
pub open spec fn event_view(event: Result<HttpReply, String>) -> Result<ReplyView, Seq<char>> {
    match event {
        Ok(reply) => Ok(reply@),
        Err(e) => Err(e@),
    }
}

/// Whether a status asks to go elsewhere.
pub open spec fn redirects(status: u16) -> bool {
    300 <= status < 400
}

/// Whether a status says that all went well.
pub open spec fn succeeded(status: u16) -> bool {
    200 <= status < 300
}

pub fn is_success(status: u16) -> (r: bool)
    ensures
        r == succeeded(status),
{
    200 <= status && status < 300
}

impl ReplyView {
    /// Where the reply sends its reader, if it does.
    pub open spec fn target(self) -> Option<Seq<char>> {
        if redirects(self.status) {
            auth::location_of(self.location)
        } else {
            None
        }
    }
}

impl HttpReply {
    /// Where the reply sends its reader, if it does.
    pub fn target(&self) -> (r: Option<String>)
        ensures
            text::opt_view(r) == self@.target(),
    {
        if 300 <= self.status && self.status < 400 {
            match &self.location {
                Some(l) => auth::nonempty_loc(Some(l.as_str())),
                None => None,
            }
        } else {
            None
        }
    }
}

// ── redirects ───────────────────────────────────────────────────────
/// How many requests a walk along redirects may take.
pub const MAX_HOPS: u8 = 8;

/// A walk along a chain of redirects: cookies are gathered on every hop.
#[derive(Debug)]
pub struct RedirectWalk {
    pub url: String,
    pub cookie: String,
    pub ua: String,
    /// Requests that were answered.
    pub hops: u8,
}

/// What a walk is.
pub struct WalkView {
    pub url: Seq<char>,
    pub cookie: Seq<char>,
    pub ua: Seq<char>,
    pub hops: u8,
}

impl View for RedirectWalk {
    type V = WalkView;

    open spec fn view(&self) -> WalkView {
        WalkView { url: self.url@, cookie: self.cookie@, ua: self.ua@, hops: self.hops }
    }
}

/// How a walk goes on.
#[derive(Debug)]
pub enum WalkStep {
    Next(RedirectWalk),
    Done(String, HttpReply),
    Failed(BridgeError),
}

/// How a walk goes on.
pub enum WalkStepView {
    Next(WalkView),
    Done(Seq<char>, ReplyView),
    Failed(ErrorView),
}

impl View for WalkStep {
    type V = WalkStepView;

    open spec fn view(&self) -> WalkStepView {
        match *self {
            WalkStep::Next(w) => WalkStepView::Next(w@),
            WalkStep::Done(cookie, reply) => WalkStepView::Done(cookie@, reply@),
            WalkStep::Failed(e) => WalkStepView::Failed(e@),
        }
    }
}

/// A reference as seen from the document that holds it, or as it stands where it cannot be read.
pub open spec fn seen_from(base: Seq<char>, reference: Seq<char>) -> Seq<char> {
    match outside::resolved_url(base, reference) {
        Some(u) => u,
        None => reference,
    }
}

pub fn absolute_url(base: &str, reference: &str) -> (r: String)
    ensures
        r@ == seen_from(base@, reference@),
{
    match outside::resolve_url(base, reference) {
        Some(u) => u,
        None => reference.to_string(),
    }
}

/// The start of a walk, which needs somewhere to go.
pub open spec fn walk_from(url: Seq<char>, cookie: Seq<char>, ua: Seq<char>) -> Result<
    WalkView,
    ErrorView,
> {
    if text::trim_of(url).len() == 0 {
        Err(ErrorView::Login("follow_redirs: empty url"@))
    } else {
        Ok(WalkView { url: text::trim_of(url), cookie, ua, hops: 0 })
    }
}

impl WalkView {
    /// The next request of the walk.
    pub open spec fn request(self) -> RequestView {
        get_request(self.url, self.ua, self.cookie)
    }

    /// How the walk goes on when its request has ended.
    pub open spec fn after(self, event: Result<ReplyView, Seq<char>>) -> WalkStepView {
        match event {
            Err(e) => WalkStepView::Failed(
                ErrorView::Login("follow_redirs GET "@ + self.url + ": "@ + e),
            ),
            Ok(reply) => {
                let cookie = cookies::merged_header(self.cookie, reply.set_cookies);
                match reply.target() {
                    Some(loc) => if self.hops + 1 >= MAX_HOPS {
                        WalkStepView::Failed(ErrorView::Login("too many redirects"@))
                    } else {
                        WalkStepView::Next(
                            WalkView {
                                url: seen_from(self.url, loc),
                                cookie,
                                ua: self.ua,
                                hops: (self.hops + 1) as u8,
                            },
                        )
                    },
                    None => WalkStepView::Done(cookie, reply),
                }
            },
        }
    }
}

impl WalkView {
    /// How many requests the walk may still take.
    pub open spec fn requests_left(self) -> nat {
        if self.hops < MAX_HOPS {
            (MAX_HOPS - self.hops) as nat
        } else {
            1
        }
    }
}

impl RedirectWalk {
    pub fn start(url: &str, cookie: &str, ua: &str) -> (r: Result<RedirectWalk, BridgeError>)
        ensures
            match walk_from(url@, cookie@, ua@) {
                Ok(w) => r matches Ok(walk) && walk@ == w,
                Err(e) => r matches Err(error) && error@ == e,
            },
    {
        let url = text::trim(url);
        if url.as_str().is_empty() {
            return Err(BridgeError::Login("follow_redirs: empty url".to_string()));
        }
        Ok(RedirectWalk { url, cookie: cookie.to_string(), ua: ua.to_string(), hops: 0 })
    }

    /// The next request of the walk.
    pub fn request(&self) -> (r: HttpRequest)
        ensures
            r@ == self@.request(),
    {
        make_get(self.url.as_str(), self.ua.as_str(), self.cookie.as_str())
    }

    /// How the walk goes on when its request has ended.
    pub fn after(self, event: Result<HttpReply, String>) -> (r: WalkStep)
        ensures
            r@ == self@.after(event_view(event)),
    {
        match event {
            Err(e) => WalkStep::Failed(
                BridgeError::Login(
                    text::cat4("follow_redirs GET ", self.url.as_str(), ": ", e.as_str()),
                ),
            ),
            Ok(reply) => {
                let cookie = cookies::merge_set_cookie(self.cookie.as_str(), &reply.set_cookies);
                match reply.target() {
                    Some(loc) => if self.hops >= MAX_HOPS - 1 {
                        WalkStep::Failed(BridgeError::Login("too many redirects".to_string()))
                    } else {
                        WalkStep::Next(
                            RedirectWalk {
                                url: absolute_url(self.url.as_str(), loc.as_str()),
                                cookie,
                                ua: self.ua,
                                hops: self.hops + 1,
                            },
                        )
                    },
                    None => WalkStep::Done(cookie, reply),
                }
            },
        }
    }
}

/// The walk that is left after some replies, if it has not ended by then.
pub open spec fn walk_after(walk: WalkView, events: Seq<Result<ReplyView, Seq<char>>>) -> Option<
    WalkView,
>
    decreases events.len(),
{
    if events.len() == 0 {
        Some(walk)
    } else {
        match walk_after(walk, events.drop_last()) {
            Some(w) => match w.after(events.last()) {
                WalkStepView::Next(next) => Some(next),
                _ => None,
            },
            None => None,
        }
    }
}

/// A walk that has just begun ends with its eighth reply at the latest, whatever the replies are.
pub proof fn walk_is_bounded(walk: WalkView, events: Seq<Result<ReplyView, Seq<char>>>)
    requires
        walk.hops == 0,
        events.len() >= MAX_HOPS,
    ensures
        walk_after(walk, events) is None,
{
    walk_counts(walk, events);
}

proof fn walk_counts(walk: WalkView, events: Seq<Result<ReplyView, Seq<char>>>)
    requires
        walk.hops == 0,
    ensures
        walk_after(walk, events) matches Some(w) ==> w.hops == events.len() && w.hops < MAX_HOPS,
    decreases events.len(),
{
    if events.len() > 0 {
        walk_counts(walk, events.drop_last());
    }
}

/// Whether a request carries a `Cookie` header made of a cookie: what is legal of it, unless that
/// is nothing but white space.
pub open spec fn carries(request: RequestView, cookie: Seq<char>) -> bool {
    let kept = cookies::header_chars(cookie);
    if text::trim_of(kept).len() > 0 {
        request.headers.contains(("cookie"@, kept))
    } else {
        forall|i: int|
            0 <= i < request.headers.len() ==> (#[trigger] request.headers[i]).0 != "cookie"@
    }
}

/// Requests go where they are meant to go, say who sends them, and carry the cookie.
pub proof fn requests_carry_what_they_should(
    url: Seq<char>,
    ua: Seq<char>,
    form: Seq<(Seq<char>, Seq<char>)>,
    cookie: Seq<char>,
)
    ensures
        get_request(url, ua, cookie).url == url && !get_request(url, ua, cookie).post,
        get_request(url, ua, cookie).payload is Empty,
        get_request(url, ua, cookie).headers.contains(("user-agent"@, ua)),
        carries(get_request(url, ua, cookie), cookie),
        form_request(url, ua, form, cookie).url == url && form_request(url, ua, form, cookie).post,
        form_request(url, ua, form, cookie).payload == PayloadView::Form(form),
        form_request(url, ua, form, cookie).headers.contains(("user-agent"@, ua)),
        carries(form_request(url, ua, form, cookie), cookie),
{
    reveal_strlit("cookie");
    reveal_strlit("user-agent");
    assert("cookie"@.len() != "user-agent"@.len());
    let headers = with_cookie(seq![("user-agent"@, ua)], cookie);
    assert(headers[0] == ("user-agent"@, ua));
    if text::trim_of(cookies::header_chars(cookie)).len() > 0 {
        assert(headers[1] == ("cookie"@, cookies::header_chars(cookie)));
    }
}

/// A walk follows a reply that leads elsewhere, with all the cookies that were set on the way, and
/// ends with the first reply that does not.
pub proof fn walks_go_where_they_are_sent(walk: WalkView, reply: ReplyView, loc: Seq<char>)
    ensures
        walk.request().url == walk.url && !walk.request().post && carries(
            walk.request(),
            walk.cookie,
        ),
        reply.status < 300 || reply.status >= 400 || reply.location is None ==> walk.after(Ok(reply))
            == WalkStepView::Done(cookies::merged_header(walk.cookie, reply.set_cookies), reply),
        300 <= reply.status < 400 && reply.location == Some(loc) && loc.len() > 0
            && text::is_trimmed(loc) && loc != "null"@ && walk.hops < 7 ==> (walk.after(Ok(reply))
            matches WalkStepView::Next(next) && next.request().url == (match outside::resolved_url(
            walk.url,
            loc,
        ) {
            Some(u) => u,
            None => loc,
        }) && carries(next.request(), cookies::merged_header(walk.cookie, reply.set_cookies))
            && next.cookie == cookies::merged_header(walk.cookie, reply.set_cookies) && next.hops
            == walk.hops + 1 && next.ua == walk.ua),
        300 <= reply.status < 400 && reply.location == Some(loc) && loc.len() > 0
            && text::is_trimmed(loc) && loc != "null"@ && walk.hops >= 7 ==> walk.after(
            Ok(reply),
        ) is Failed,
        walk.after(Err(loc)) is Failed,
{
    text::lemma_trim(loc);
    requests_carry_what_they_should(walk.url, walk.ua, Seq::empty(), walk.cookie);
    if let WalkStepView::Next(next) = walk.after(Ok(reply)) {
        requests_carry_what_they_should(next.url, next.ua, Seq::empty(), next.cookie);
    }
}

/// A walk begins at the address that it is given, with the cookies and the name that it is given,
/// and with all its hops before it; without an address there is none.
pub proof fn walks_begin_where_they_are_told(
    before: Seq<char>,
    url: Seq<char>,
    after: Seq<char>,
    cookie: Seq<char>,
    ua: Seq<char>,
)
    requires
        text::is_trimmed(url),
        forall|i: int| 0 <= i < before.len() ==> text::is_white(#[trigger] before[i]),
        forall|i: int| 0 <= i < after.len() ==> text::is_white(#[trigger] after[i]),
    ensures
        url.len() > 0 ==> (walk_from(before + url + after, cookie, ua) matches Ok(walk) && walk.url
            == url && walk.cookie == cookie && walk.ua == ua && walk.hops == 0
            && walk.requests_left() == 8),
        url.len() == 0 ==> walk_from(before + url + after, cookie, ua) is Err,
{
    text::trimming_takes_only_what_surrounds(before, url, after);
}

} // verus!
