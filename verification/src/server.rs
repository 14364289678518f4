//! The control plane: settings of the server, and what each of its paths answers.

use crate::admin::Caller;
use crate::auth::{LoginOutcome, OutcomeView, Session, SessionView, TwoFactorFlow, TwoFactorView, SID};
use crate::error::{BridgeError, ErrorView};
use crate::json::{Json, JsonObject, JsonView};
use crate::login::{LoginDone, LoginDoneView};
use crate::reply::{ApiReply, ApiReplyView};
use crate::state::{BridgeState, StateView};
use crate::storage::{ApiKeyRecord, KeyStore, KeyView, Settings, SettingsView, Storage, StorageView};
use crate::usage::{ModelUsage, Table, UsageStore, UsageView};
use crate::admin;
use crate::json;
use crate::outside;
use crate::proxy;
use crate::reply;
use crate::storage;
use crate::text;
use crate::usage;
use vstd::prelude::*;
use vstd::utf8::encode_utf8;

verus! {

// ── the server ──────────────────────────────────────────────────────
/// Where and how to serve.
#[derive(Debug)]
pub struct ServerConfig {
    /// An IP address.
    pub host: String,
    pub port: u16,
    /// Force-enable TLS regardless of settings (CLI --tls).
    pub tls: Option<bool>,
    pub tls_cert: Option<String>,
    pub tls_key: Option<String>,
}

/// What is known of where and how to serve.
pub struct ServerConfigView {
    pub host: Seq<char>,
    pub port: u16,
    pub tls: Option<bool>,
    pub tls_cert: Option<Seq<char>>,
    pub tls_key: Option<Seq<char>>,
}

impl View for ServerConfig {
    type V = ServerConfigView;

    open spec fn view(&self) -> ServerConfigView {
        ServerConfigView {
            host: self.host@,
            port: self.port,
            tls: self.tls,
            tls_cert: text::opt_view(self.tls_cert),
            tls_key: text::opt_view(self.tls_key),
        }
    }
}

impl Default for ServerConfig {
    fn default() -> (r: ServerConfig)
        ensures
            r@ == (ServerConfigView {
                host: "127.0.0.1"@,
                port: 8787,
                tls: None,
                tls_cert: None,
                tls_key: None,
            }),
    {
        ServerConfig {
            host: "127.0.0.1".to_string(),
            port: 8787,
            tls: None,
            tls_cert: None,
            tls_key: None,
        }
    }
}

impl Clone for ServerConfig {
    fn clone(&self) -> (r: ServerConfig)
        ensures
            r == *self,
    {
        ServerConfig {
            host: self.host.clone(),
            port: self.port,
            tls: self.tls,
            tls_cert: self.tls_cert.clone(),
            tls_key: self.tls_key.clone(),
        }
    }
}

/// What command-line flags say of TLS: a certificate or a key asks for it too.
pub fn tls_flag(tls: bool, has_cert: bool, has_key: bool) -> (r: Option<bool>)
    ensures
        r == (if tls || has_cert || has_key {
            Some(true)
        } else {
            None
        }),
{
    if tls || has_cert || has_key {
        Some(true)
    } else {
        None
    }
}

/// The address of the WebUI.
pub fn webui_url(tls: bool, addr: &str) -> (r: String)
    ensures
        r@ == (if tls {
            "https"@
        } else {
            "http"@
        }) + "://"@ + addr@,
{
    let scheme = if tls {
        "https"
    } else {
        "http"
    };
    text::cat3(scheme, "://", addr)
}

/// Settings with what a configuration says of TLS, if it says anything.
pub open spec fn tls_override(settings: SettingsView, config: ServerConfigView) -> Option<
    SettingsView,
> {
    if config.tls is Some || config.tls_cert is Some || config.tls_key is Some {
        Some(
            SettingsView {
                tls_enabled: match config.tls {
                    Some(t) => t,
                    None => settings.tls_enabled,
                },
                tls_cert_path: match config.tls_cert {
                    Some(c) => Some(c),
                    None => settings.tls_cert_path,
                },
                tls_key_path: match config.tls_key {
                    Some(k) => Some(k),
                    None => settings.tls_key_path,
                },
                ..settings
            },
        )
    } else {
        None
    }
}

/// Persist CLI TLS overrides so status/WebUI see the effective mode. Settings that cannot be
/// written stay as they are. Says whether TLS is on then.
pub fn persist_tls<W: FnOnce(&Settings) -> Result<(), BridgeError>>(
    storage: &mut Storage,
    config: &ServerConfig,
    write: W,
) -> (r: bool)
    requires
        forall|s: &Settings| call_requires(write, (s,)),
    ensures
        match tls_override(old(storage)@.settings, config@) {
            None => final(storage)@ == old(storage)@,
            Some(settings) => exists|w: Result<(), BridgeError>| #[trigger]
                storage::settings_written(write, settings, w) && final(storage)@ == (if w is Ok {
                    StorageView { settings, ..old(storage)@ }
                } else {
                    old(storage)@
                }),
        },
        r == final(storage)@.settings.tls_enabled,
{
    if config.tls.is_some() || config.tls_cert.is_some() || config.tls_key.is_some() {
        let mut s = storage.settings();
        if let Some(t) = config.tls {
            s.tls_enabled = t;
        }
        if let Some(c) = &config.tls_cert {
            s.tls_cert_path = Some(c.clone());
        }
        if let Some(k) = &config.tls_key {
            s.tls_key_path = Some(k.clone());
        }
        let _ = storage.save_settings(s, write);
    }
    storage.settings().tls_enabled
}

/// The certificate and key that a user provided, if both are there; else a self-signed pair is
/// used.
pub fn provided_tls(settings: &Settings) -> (r: Option<(String, String)>)
    ensures
        match (settings@.tls_cert_path, settings@.tls_key_path) {
            (Some(cert), Some(key)) => r matches Some(p) && p.0@ == cert && p.1@ == key,
            _ => r is None,
        },
{
    match (&settings.tls_cert_path, &settings.tls_key_path) {
        (Some(cert), Some(key)) => Some((cert.clone(), key.clone())),
        _ => None,
    }
}

/// The names that a self-signed certificate is for. The last is a stable one that users can map
/// in a hosts file (router / NAS).
pub fn self_signed_names() -> (r: Vec<String>)
    ensures
        text::views(r@) == seq!["localhost"@, "127.0.0.1"@, "::1"@, "local.mimodesktopbridge.com"@],
{
    let mut names: Vec<String> = Vec::new();
    names.push("localhost".to_string());
    names.push("127.0.0.1".to_string());
    names.push("::1".to_string());
    names.push("local.mimodesktopbridge.com".to_string());
    assert(text::views(names@) =~= seq![
        "localhost"@,
        "127.0.0.1"@,
        "::1"@,
        "local.mimodesktopbridge.com"@,
    ]);
    names
}

/// The origins that get CORS headers: those listed that can stand in a header.
pub open spec fn allowed_origins(listed: Seq<Seq<char>>) -> Seq<Seq<char>>
    decreases listed.len(),
{
    if listed.len() == 0 {
        Seq::empty()
    } else {
        let before = allowed_origins(listed.drop_last());
        let origin = text::trim_of(listed.last());
        if forall|i: int| 0 <= i < origin.len() ==> outside::fits_header_char(#[trigger] origin[i]) {
            before.push(origin)
        } else {
            before
        }
    }
}

/// No origin gets CORS headers that is not listed; without a list none does.
pub proof fn only_listed_origins_are_allowed(listed: Seq<Seq<char>>, origin: Seq<char>)
    ensures
        allowed_origins(listed).contains(origin) ==> exists|i: int|
            0 <= i < listed.len() && text::trim_of(#[trigger] listed[i]) == origin,
        listed.len() == 0 ==> allowed_origins(listed).len() == 0,
    decreases listed.len(),
{
    if listed.len() > 0 && allowed_origins(listed).contains(origin) {
        let head = listed.drop_last();
        only_listed_origins_are_allowed(head, origin);
        let before = allowed_origins(head);
        let all = allowed_origins(listed);
        let k = choose|k: int| 0 <= k < all.len() && all[k] == origin;
        if k < before.len() {
            assert(before[k] == origin);
            let i = choose|i: int| 0 <= i < head.len() && text::trim_of(#[trigger] head[i]) == origin;
            assert(text::trim_of(listed[i]) == origin);
        } else {
            assert(text::trim_of(listed[listed.len() - 1]) == origin);
        }
    }
}

/// Same-origin by default. Only origins explicitly listed in settings get
/// CORS headers — a permissive default would let any website drive the
/// local /v1 bridge from the browser.
pub fn cors_origins(settings: &Settings) -> (r: Vec<String>)
    ensures
        text::views(r@) == allowed_origins(settings@.cors_origins),
{
    let listed = &settings.cors_origins;
    let ghost all = text::views(listed@);
    let mut out: Vec<String> = Vec::new();
    let mut i: usize = 0;
    assert(all.take(0) =~= Seq::<Seq<char>>::empty());
    assert(text::views(out@) =~= Seq::<Seq<char>>::empty());
    while i < listed.len()
        invariant
            i <= listed@.len(),
            all == text::views(listed@),
            text::views(out@) == allowed_origins(all.take(i as int)),
        decreases listed@.len() - i,
    {
        let ghost was = out@;
        assert(all.take(i + 1).drop_last() =~= all.take(i as int));
        assert(all.take(i + 1).last() == listed@[i as int]@);
        let origin = text::trim(listed[i].as_str());
        if outside::fits_header(origin.as_str()) {
            out.push(origin);
            assert(text::views(out@) =~= text::views(was).push(origin@));
        }
        i += 1;
    }
    assert(all.take(i as int) =~= all);
    out
}

// ── pages ───────────────────────────────────────────────────────────
/// A path without the slashes at its start.
pub open spec fn without_slashes(path: Seq<char>) -> Seq<char>
    decreases path.len(),
{
    if path.len() > 0 && path[0] == '/' {
        without_slashes(path.skip(1))
    } else {
        path
    }
}

/// The file that a path asks for.
pub open spec fn asset_of(path: Seq<char>) -> Seq<char> {
    if without_slashes(path).len() == 0 {
        "index.html"@
    } else {
        without_slashes(path)
    }
}

/// The file that a path asks for.
pub fn asset_path(path: &str) -> (r: String)
    ensures
        r@ == asset_of(path@),
{
    let chars = text::chars_of(path);
    let mut from: usize = 0;
    assert(chars@.skip(0) =~= chars@);
    while from < chars.len() && chars[from] == '/'
        invariant
            from <= chars@.len(),
            chars@ == path@,
            without_slashes(path@) == without_slashes(chars@.skip(from as int)),
        decreases chars@.len() - from,
    {
        assert(chars@.skip(from as int).skip(1) =~= chars@.skip(from + 1));
        from += 1;
    }
    assert(chars@.skip(from as int) =~= chars@.subrange(from as int, chars@.len() as int));
    if from == chars.len() {
        "index.html".to_string()
    } else {
        text::string_of(&chars, from, chars.len())
    }
}

/// What answers a request for a page.
#[derive(Debug)]
pub enum PageReply {
    /// The content of a file, under a media type.
    File { file: String, media_type: String },
    /// A plain text.
    Plain { status: u16, text: String },
    /// A JSON reply.
    Json(ApiReply),
}

/// What answers a request for a page.
pub enum PageReplyView {
    File { file: Seq<char>, media_type: Seq<char> },
    Plain { status: u16, text: Seq<char> },
    Json(ApiReplyView),
}

impl View for PageReply {
    type V = PageReplyView;

    open spec fn view(&self) -> PageReplyView {
        match *self {
            PageReply::File { file, media_type } => PageReplyView::File {
                file: file@,
                media_type: media_type@,
            },
            PageReply::Plain { status, text } => PageReplyView::Plain { status, text: text@ },
            PageReply::Json(reply) => PageReplyView::Json(reply@),
        }
    }
}

/// Which of the files are there that can answer a request for a page.
#[derive(Clone, Copy)]
pub struct Assets {
    /// The page that asks for the admin password.
    pub login: bool,
    /// The file that was asked for.
    pub asked: bool,
    /// The start page.
    pub index: bool,
}

/// What answers a request for a page: the admin gets the file under its media type, or the start
/// page where there is none; to anybody else the full WebUI and its assets stay hidden.
pub open spec fn page_for(
    admin: bool,
    path: Seq<char>,
    assets: Assets,
    media_type: Seq<char>,
) -> PageReplyView {
    if !admin {
        if assets.login {
            PageReplyView::File { file: "login.html"@, media_type: "text/html; charset=utf-8"@ }
        } else {
            PageReplyView::Plain { status: 401, text: "admin session required"@ }
        }
    } else if assets.asked {
        PageReplyView::File { file: asset_of(path), media_type }
    } else if assets.index {
        PageReplyView::File { file: "index.html"@, media_type: "text/html; charset=utf-8"@ }
    } else {
        PageReplyView::Json(reply::error_of(404, "not found"@, "not_found"@))
    }
}

/// What answers a request for a page, given the media type of the file that it asks for.
pub fn page(admin: bool, path: &str, assets: Assets, media_type: String) -> (r: PageReply)
    ensures
        r@ == page_for(admin, path@, assets, media_type@),
{
    if !admin {
        if assets.login {
            PageReply::File {
                file: "login.html".to_string(),
                media_type: "text/html; charset=utf-8".to_string(),
            }
        } else {
            PageReply::Plain { status: 401, text: "admin session required".to_string() }
        }
    } else if assets.asked {
        PageReply::File { file: asset_path(path), media_type }
    } else if assets.index {
        PageReply::File {
            file: "index.html".to_string(),
            media_type: "text/html; charset=utf-8".to_string(),
        }
    } else {
        PageReply::Json(reply::error_reply(404, "not found", "not_found"))
    }
}

/// What answers a request for a page. The media type of a file is guessed by its path; of a path
/// that machines part differently, which type that is is not stated.
pub fn static_asset(state: &BridgeState, caller: &Caller, path: &str, assets: Assets) -> (r:
    PageReply)
    ensures
        exists|media_type: Seq<char>|
            r@ == #[trigger] page_for(
                admin::is_admin(state@, caller@),
                path@,
                assets,
                media_type,
            ) && (outside::parts_alike(asset_of(path@)) ==> media_type == outside::media_type_of(
                asset_of(path@),
            )),
{
    let media_type = outside::media_type(asset_path(path).as_str());
    let ghost kind = media_type@;
    let r = page(admin::admin_ok(state, caller), path, assets, media_type);
    assert(r@ == page_for(admin::is_admin(state@, caller@), path@, assets, kind));
    r
}

// ── small replies ───────────────────────────────────────────────────
/// The body that only says that all went well.
pub open spec fn ok_body() -> JsonView {
    JsonView::Object(map!["ok"@ => JsonView::Bool(true)])
}

pub fn make_ok_body() -> (r: Json)
    ensures
        r@ == ok_body(),
{
    let mut body = JsonObject::new();
    body.put("ok", Json::Bool(true));
    Json::Object(body)
}

/// Unauthenticated liveness probe (orchestrators, Docker HEALTHCHECK).
pub fn healthz() -> (r: ApiReply)
    ensures
        r@ == reply::ok_of(ok_body()),
{
    reply::ok_reply(make_ok_body())
}

/// The reply that tells of an error of this library.
pub open spec fn failure_of(e: ErrorView) -> ApiReplyView {
    reply::error_of(e.status(), e.message(), e.code())
}

fn failure(e: &BridgeError) -> (r: ApiReply)
    ensures
        r@ == failure_of(e@),
{
    reply::error_reply(e.status(), e.message().as_str(), e.code())
}

/// The reply where something could not be stored.
pub open spec fn not_stored(e: ErrorView) -> ApiReplyView {
    reply::error_of(500, e.message(), "storage"@)
}

fn unstored(e: &BridgeError) -> (r: ApiReply)
    ensures
        r@ == not_stored(e@),
{
    reply::error_reply(500, e.message().as_str(), "storage")
}

/// The reply to a caller who is not the admin.
pub open spec fn admin_denied() -> ApiReplyView {
    reply::error_of(401, "admin session required"@, "unauthorized"@)
}

fn denied() -> (r: ApiReply)
    ensures
        r@ == admin_denied(),
{
    reply::error_reply(401, "admin session required", "unauthorized")
}

// ── the account ─────────────────────────────────────────────────────
/// The body that tells of the session.
pub open spec fn auth_status_body(session: Option<SessionView>) -> JsonView {
    JsonView::Object(
        map![
            "loggedIn"@ => JsonView::Bool(proxy::logged_in(session)),
            "userId"@ => proxy::user_of(session),
            "nick"@ => proxy::nick_of(session),
            "hasPassToken"@ => JsonView::Bool(proxy::has_pass_token(session)),
            "sid"@ => JsonView::Text(SID@),
        ],
    )
}

/// GET /api/auth/status
pub fn api_auth_status(state: &BridgeState) -> (r: ApiReply)
    ensures
        r@ == reply::ok_of(auth_status_body(state@.storage.session)),
{
    let session = state.storage.session();
    let mut body = JsonObject::new();
    body.put("loggedIn", Json::Bool(proxy::is_logged_in(&session)));
    body.put("userId", proxy::user_json(&session));
    body.put("nick", proxy::nick_json(&session));
    body.put("hasPassToken", Json::Bool(proxy::holds_pass_token(&session)));
    body.put("sid", Json::text(SID));
    reply::ok_reply(Json::Object(body))
}

/// What a login does next.
#[derive(Debug)]
pub enum LoginTurn {
    /// A token is to be minted for the session, which is then kept.
    Mint { session: Session, nick: Option<String>, user_id: Option<String> },
    /// The session is to be kept.
    Keep { session: Session, nick: Option<String>, user_id: Option<String> },
    /// The login has ended.
    Reply(ApiReply),
}

/// What a login does next.
pub enum LoginTurnView {
    Mint { session: SessionView, nick: Option<Seq<char>>, user_id: Option<Seq<char>> },
    Keep { session: SessionView, nick: Option<Seq<char>>, user_id: Option<Seq<char>> },
    Reply(ApiReplyView),
}

impl View for LoginTurn {
    type V = LoginTurnView;

    open spec fn view(&self) -> LoginTurnView {
        match *self {
            LoginTurn::Mint { session, nick, user_id } => LoginTurnView::Mint {
                session: session@,
                nick: text::opt_view(nick),
                user_id: text::opt_view(user_id),
            },
            LoginTurn::Keep { session, nick, user_id } => LoginTurnView::Keep {
                session: session@,
                nick: text::opt_view(nick),
                user_id: text::opt_view(user_id),
            },
            LoginTurn::Reply(reply) => LoginTurnView::Reply(reply@),
        }
    }
}

/// Numbers as a JSON array.
pub open spec fn numbers_json(numbers: Seq<i32>) -> JsonView {
    JsonView::List(numbers.map_values(|n: i32| json::integer(n as int)))
}

fn make_numbers_json(numbers: &Vec<i32>) -> (r: Json)
    ensures
        r@ == numbers_json(numbers@),
{
    let mut out: Vec<Json> = Vec::new();
    let mut i: usize = 0;
    while i < numbers.len()
        invariant
            i <= numbers@.len(),
            out@.len() == i,
            forall|k: int| 0 <= k < i ==> (#[trigger] out@[k])@ == json::integer(numbers@[k] as int),
        decreases numbers@.len() - i,
    {
        out.push(Json::signed(numbers[i] as i64));
        i += 1;
    }
    assert(json::trees_of(out@) =~= numbers@.map_values(|n: i32| json::integer(n as int)));
    Json::List(out)
}

/// What follows from how a login ended.
pub open spec fn login_turn(done: Result<LoginDoneView, ErrorView>) -> LoginTurnView {
    match done {
        Err(e) => LoginTurnView::Reply(failure_of(e)),
        Ok(done) => match done.outcome {
            OutcomeView::Authenticated { nick, user_id } => match done.session {
                Some(session) => if session.pass_token is Some {
                    LoginTurnView::Mint { session, nick, user_id }
                } else {
                    LoginTurnView::Keep { session, nick, user_id }
                },
                None => LoginTurnView::Reply(
                    reply::error_of(
                        401,
                        "login succeeded but no session was returned"@,
                        "login_failed"@,
                    ),
                ),
            },
            OutcomeView::TwoFactorRequired { options } => LoginTurnView::Reply(
                reply::ok_of(
                    JsonView::Object(
                        map![
                            "outcome"@ => JsonView::Text("two_factor_required"@),
                            "options"@ => numbers_json(options),
                        ],
                    ),
                ),
            ),
            OutcomeView::CaptchaRequired { captcha_url } => LoginTurnView::Reply(
                reply::ok_of(
                    JsonView::Object(
                        map![
                            "outcome"@ => JsonView::Text("captcha_required"@),
                            "captchaUrl"@ => JsonView::Text(captcha_url),
                        ],
                    ),
                ),
            ),
            OutcomeView::Failed { code, description } => LoginTurnView::Reply(
                reply::error_of(
                    401,
                    description + " (code="@ + text::int_text(code as int) + ")"@,
                    "login_failed"@,
                ),
            ),
        },
    }
}

/// The second-factor flow in flight after a login ended.
pub open spec fn flow_after(
    done: Result<LoginDoneView, ErrorView>,
    before: Option<TwoFactorView>,
) -> Option<TwoFactorView> {
    match done {
        Ok(done) => match (done.outcome, done.flow) {
            (OutcomeView::TwoFactorRequired { .. }, Some(flow)) => Some(flow),
            _ => before,
        },
        Err(_) => before,
    }
}

/// What a login's ending is.
pub open spec fn done_view(done: Result<LoginDone, BridgeError>) -> Result<
    LoginDoneView,
    ErrorView,
> {
    match done {
        Ok(d) => Ok(d@),
        Err(e) => Err(e@),
    }
}

/// POST /api/auth/login: what follows from how the login ended.
pub fn api_login(state: &mut BridgeState, done: Result<LoginDone, BridgeError>) -> (r: LoginTurn)
    ensures
        r@ == login_turn(done_view(done)),
        final(state)@ == (StateView {
            two_factor: flow_after(done_view(done), old(state)@.two_factor),
            ..old(state)@
        }),
{
    let done = match done {
        Ok(done) => done,
        Err(e) => return LoginTurn::Reply(failure(&e)),
    };
    match done.outcome {
        LoginOutcome::Authenticated { nick, user_id } => match done.session {
            Some(session) => if session.pass_token.is_some() {
                LoginTurn::Mint { session, nick, user_id }
            } else {
                LoginTurn::Keep { session, nick, user_id }
            },
            None => LoginTurn::Reply(
                reply::error_reply(401, "login succeeded but no session was returned", "login_failed"),
            ),
        },
        LoginOutcome::TwoFactorRequired { options } => {
            if done.flow.is_some() {
                state.two_factor = done.flow;
            }
            let mut body = JsonObject::new();
            body.put("outcome", Json::text("two_factor_required"));
            body.put("options", make_numbers_json(&options));
            LoginTurn::Reply(reply::ok_reply(Json::Object(body)))
        },
        LoginOutcome::CaptchaRequired { captcha_url } => {
            let mut body = JsonObject::new();
            body.put("outcome", Json::text("captcha_required"));
            body.put("captchaUrl", Json::Text(captcha_url));
            LoginTurn::Reply(reply::ok_reply(Json::Object(body)))
        },
        LoginOutcome::Failed { code, description } => {
            let code = text::i64_text(code);
            let message = text::cat4(description.as_str(), " (code=", code.as_str(), ")");
            LoginTurn::Reply(reply::error_reply(401, message.as_str(), "login_failed"))
        },
    }
}

/// The body that tells of a login that went well.
pub open spec fn authenticated_body(nick: Option<Seq<char>>, user_id: Option<Seq<char>>) -> JsonView {
    JsonView::Object(
        map![
            "outcome"@ => JsonView::Text("authenticated"@),
            "nick"@ => json::text_or_null_view(nick),
            "userId"@ => json::text_or_null_view(user_id),
        ],
    )
}

/// Keeps the session of a login that went well, if it can be written, and replies.
pub fn api_login_kept<W: FnOnce(&Session) -> Result<(), BridgeError>>(
    state: &mut BridgeState,
    session: Session,
    nick: Option<String>,
    user_id: Option<String>,
    write: W,
) -> (r: ApiReply)
    requires
        forall|s: &Session| call_requires(write, (s,)),
    ensures
        r@ == reply::ok_of(authenticated_body(text::opt_view(nick), text::opt_view(user_id))),
        storage::session_kept(write, old(state)@.storage, session@, final(state)@.storage),
        final(state)@ == (StateView { storage: final(state)@.storage, ..old(state)@ }),
{
    let _ = state.storage.save_session(session, write);
    let mut body = JsonObject::new();
    body.put("outcome", Json::text("authenticated"));
    body.put("nick", Json::text_or_null(&nick));
    body.put("userId", Json::text_or_null(&user_id));
    reply::ok_reply(Json::Object(body))
}

/// The reply where no second-factor flow is in flight.
pub open spec fn no_flow() -> ApiReplyView {
    reply::error_of(400, "no in-flight 2FA — login first"@, "bad_request"@)
}

/// The second-factor flow in flight, or the reply where there is none.
pub fn flow_in_flight(state: &BridgeState) -> (r: Result<TwoFactorFlow, ApiReply>)
    ensures
        match state@.two_factor {
            Some(flow) => r matches Ok(f) && f@ == flow,
            None => r matches Err(reply) && reply@ == no_flow(),
        },
{
    match &state.two_factor {
        Some(flow) => Ok(flow.clone()),
        None => Err(reply::error_reply(400, "no in-flight 2FA — login first", "bad_request")),
    }
}

/// What a request for a ticket ended with.
pub open spec fn sent_view(sent: Result<(bool, String), BridgeError>) -> Result<
    (bool, Seq<char>),
    ErrorView,
> {
    match sent {
        Ok(p) => Ok((p.0, p.1@)),
        Err(e) => Err(e@),
    }
}

/// POST /api/auth/two-factor/send: the reply to how the request for a ticket ended. The flow in
/// flight goes on with the new cookies.
pub fn api_send_ticket(state: &mut BridgeState, sent: Result<(bool, String), BridgeError>) -> (r:
    ApiReply)
    ensures
        match sent_view(sent) {
            Ok((true, cookie)) => r@ == reply::ok_of(ok_body()) && final(state)@ == (StateView {
                two_factor: match old(state)@.two_factor {
                    Some(flow) => Some(TwoFactorView { cookie_header: cookie, ..flow }),
                    None => None,
                },
                ..old(state)@
            }),
            Ok((false, message)) => r@ == reply::error_of(502, message, "send_ticket_failed"@)
                && final(state)@ == old(state)@,
            Err(e) => r@ == failure_of(e) && final(state)@ == old(state)@,
        },
{
    match sent {
        Ok((true, cookie)) => {
            if let Some(flow) = &state.two_factor {
                let mut flow = flow.clone();
                flow.cookie_header = cookie;
                state.two_factor = Some(flow);
            }
            reply::ok_reply(make_ok_body())
        },
        Ok((false, message)) => reply::error_reply(502, message.as_str(), "send_ticket_failed"),
        Err(e) => failure(&e),
    }
}

/// What the verification of a ticket does next.
#[derive(Debug)]
pub enum VerifyTurn {
    /// A token is to be minted for the session, which is then kept.
    Mint(Session),
    /// The session is to be kept.
    Keep(Session),
    /// The verification has ended.
    Reply(ApiReply),
}

/// POST /api/auth/two-factor/verify: what follows from how the verification ended.
pub fn api_verify_ticket(verified: Result<Session, BridgeError>) -> (r: VerifyTurn)
    ensures
        match verified {
            Ok(s) => if s@.pass_token is Some && s@.service_token is None {
                r == VerifyTurn::Mint(s)
            } else {
                r == VerifyTurn::Keep(s)
            },
            Err(e) => r matches VerifyTurn::Reply(reply) && reply@ == failure_of(e@),
        },
{
    match verified {
        Ok(session) => if session.pass_token.is_some() && session.service_token.is_none() {
            VerifyTurn::Mint(session)
        } else {
            VerifyTurn::Keep(session)
        },
        Err(e) => VerifyTurn::Reply(failure(&e)),
    }
}

/// Keeps the session of a verification that went well, if it can be written, ends the flow in
/// flight, and replies.
pub fn api_verify_kept<W: FnOnce(&Session) -> Result<(), BridgeError>>(
    state: &mut BridgeState,
    session: Session,
    write: W,
) -> (r: ApiReply)
    requires
        forall|s: &Session| call_requires(write, (s,)),
    ensures
        r@ == reply::ok_of(
            JsonView::Object(
                map![
                    "outcome"@ => JsonView::Text("authenticated"@),
                    "userId"@ => json::text_or_null_view(session@.user_id),
                    "hasServiceToken"@ => JsonView::Bool(session@.service_token is Some),
                ],
            ),
        ),
        storage::session_kept(write, old(state)@.storage, session@, final(state)@.storage),
        final(state)@ == (StateView {
            storage: final(state)@.storage,
            two_factor: None,
            ..old(state)@
        }),
{
    let mut body = JsonObject::new();
    body.put("outcome", Json::text("authenticated"));
    body.put("userId", Json::text_or_null(&session.user_id));
    body.put("hasServiceToken", Json::Bool(session.service_token.is_some()));
    let _ = state.storage.save_session(session, write);
    state.two_factor = None;
    reply::ok_reply(Json::Object(body))
}

/// The reply to a request for a new token where nobody is logged in.
pub fn refresh_denied(state: &BridgeState) -> (r: Option<ApiReply>)
    ensures
        admin::opt_reply(r) == (if state@.storage.session is None {
            Some(reply::error_of(401, "not logged in"@, "unauthorized"@))
        } else {
            None
        }),
{
    if state.storage.session().is_none() {
        Some(reply::error_reply(401, "not logged in", "unauthorized"))
    } else {
        None
    }
}

/// POST /api/auth/refresh: the reply to how the refresh ended.
pub fn api_refresh(refreshed: &Result<Session, BridgeError>) -> (r: ApiReply)
    ensures
        r@ == (match *refreshed {
            Ok(_) => reply::ok_of(ok_body()),
            Err(e) => failure_of(e@),
        }),
{
    match refreshed {
        Ok(_) => reply::ok_reply(make_ok_body()),
        Err(e) => failure(e),
    }
}

/// POST /api/auth/logout: forgets the session and the flow in flight.
pub fn api_logout(state: &mut BridgeState) -> (r: ApiReply)
    ensures
        r@ == reply::ok_of(ok_body()),
        final(state)@ == (StateView {
            storage: StorageView { session: None, ..old(state)@.storage },
            two_factor: None,
            ..old(state)@
        }),
{
    state.storage.clear_session();
    state.two_factor = None;
    reply::ok_reply(make_ok_body())
}

/// GET /api/models
pub fn api_models() -> (r: ApiReply)
    ensures
        r@ == proxy::models_reply(),
{
    proxy::models()
}

// ── the admin ───────────────────────────────────────────────────────
/// GET /api/admin/session
pub fn api_admin_session(state: &BridgeState, caller: &Caller) -> (r: ApiReply)
    ensures
        r@ == reply::ok_of(
            JsonView::Object(
                map![
                    "configured"@ => JsonView::Bool(
                        state@.storage.settings.admin_password_hash is Some,
                    ),
                    "authenticated"@ => JsonView::Bool(admin::is_admin(state@, caller@)),
                ],
            ),
        ),
{
    let mut body = JsonObject::new();
    body.put("configured", Json::Bool(state.storage.admin_configured()));
    body.put("authenticated", Json::Bool(admin::admin_ok(state, caller)));
    reply::ok_reply(Json::Object(body))
}

/// The reply that hands out an admin session.
pub open spec fn session_reply(token: Seq<char>) -> ApiReplyView {
    ApiReplyView {
        status: 200,
        set_cookie: Some(admin::cookie_back(token) + "; Path=/; HttpOnly; SameSite=Lax"@),
        body: ok_body(),
    }
}

/// Issues an admin session and hands it out.
fn hand_out_session(state: &mut BridgeState, now: i64) -> (r: ApiReply)
    ensures
        exists|token: Seq<char>|
            outside::is_simple_uuid(token) && r@ == #[trigger] session_reply(token) && final(state)@
                == admin::with_session(old(state)@, token, now),
{
    let token = admin::issue_admin_session(state, now);
    let cookie = text::cat3("mdb_session=", token.as_str(), "; Path=/; HttpOnly; SameSite=Lax");
    let r = ApiReply { status: 200, set_cookie: Some(cookie), body: make_ok_body() };
    assert(r@ == session_reply(token@));
    r
}

/// The state with other settings.
pub open spec fn with_settings(state: StateView, settings: SettingsView) -> StateView {
    StateView { storage: StorageView { settings, ..state.storage }, ..state }
}

/// The state once a session was revoked, if there is one to revoke.
pub open spec fn revoked(state: StateView, token: Option<Seq<char>>) -> StateView {
    match token {
        Some(t) => admin::without_session(state, t),
        None => state,
    }
}

/// How an attempt to set the admin password ends: with an error that leaves all as it was, which
/// only a password too long to be hashed or a write that fails brings about, or with the password
/// set, `old_token` revoked and a new session handed out.
pub open spec fn password_changed<W: FnOnce(&Settings) -> Result<(), BridgeError>>(
    write: W,
    before: StateView,
    password: Seq<char>,
    old_token: Option<Seq<char>>,
    now: i64,
    after: StateView,
    r: ApiReplyView,
) -> bool {
    exists|salt: Seq<char>|
        outside::is_salt(salt) && match #[trigger] outside::argon2_of(encode_utf8(password), salt) {
            Err(m) => !outside::can_be_hashed(encode_utf8(password)) && r == not_stored(
                ErrorView::Storage("argon2: "@ + m),
            ) && after == before,
            Ok(hash) => hash_kept(write, before, hash, old_token, now, after, r),
        }
}

/// How an attempt to keep the hash of a new admin password ends.
pub open spec fn hash_kept<W: FnOnce(&Settings) -> Result<(), BridgeError>>(
    write: W,
    before: StateView,
    hash: Seq<char>,
    old_token: Option<Seq<char>>,
    now: i64,
    after: StateView,
    r: ApiReplyView,
) -> bool {
    let settings = SettingsView { admin_password_hash: Some(hash), ..before.storage.settings };
    exists|w: Result<(), BridgeError>| #[trigger]
        storage::settings_written(write, settings, w) && match w {
            Err(e) => r == not_stored(e@) && after == before,
            Ok(_) => exists|token: Seq<char>|
                outside::is_simple_uuid(token) && r == #[trigger] session_reply(token) && after
                    == admin::with_session(
                    revoked(with_settings(before, settings), old_token),
                    token,
                    now,
                ),
        }
}

/// Sets the admin password; where that goes well, revokes a session and hands out a new one.
fn change_password<W: FnOnce(&Settings) -> Result<(), BridgeError>>(
    state: &mut BridgeState,
    password: &str,
    old_token: Option<String>,
    now: i64,
    write: W,
) -> (r: ApiReply)
    requires
        forall|s: &Settings| call_requires(write, (s,)),
    ensures
        password_changed(
            write,
            old(state)@,
            password@,
            text::opt_view(old_token),
            now,
            final(state)@,
            r@,
        ),
        r@.set_cookie is Some ==> storage::accepts_password(final(state)@.storage.settings, password@),
{
    let ghost before = state@;
    let set = state.storage.set_admin_password(password, write);
    let ghost salt = choose|salt: Seq<char>|
        outside::is_salt(salt) && match #[trigger] outside::argon2_of(
            encode_utf8(password@),
            salt,
        ) {
            Ok(h) => storage::settings_saved(
                write,
                set,
                before.storage,
                SettingsView { admin_password_hash: Some(h), ..before.storage.settings },
                state@.storage,
            ),
            Err(m) => !outside::can_be_hashed(encode_utf8(password@)) && (set matches Err(e) && e@
                == ErrorView::Storage("argon2: "@ + m)) && state@.storage == before.storage,
        };
    if let Err(e) = set {
        let r = unstored(&e);
        proof {
            assert(state@ == before);
            match outside::argon2_of(encode_utf8(password@), salt) {
                Ok(h) => {
                    let settings = SettingsView {
                        admin_password_hash: Some(h),
                        ..before.storage.settings
                    };
                    let w = choose|w: Result<(), BridgeError>| #[trigger]
                        storage::settings_written(write, settings, w) && storage::saved(
                            w,
                            set,
                            before.storage,
                            StorageView { settings, ..before.storage },
                            state@.storage,
                        );
                    assert(storage::settings_written(write, settings, w));
                    assert(hash_kept(write, before, h, text::opt_view(old_token), now, state@, r@));
                },
                Err(_) => {},
            }
        }
        return r;
    }
    if let Some(token) = &old_token {
        admin::revoke_admin_session(state, token.as_str());
    }
    let r = hand_out_session(state, now);
    proof {
        let h = outside::argon2_of(encode_utf8(password@), salt)->Ok_0;
        let settings = SettingsView { admin_password_hash: Some(h), ..before.storage.settings };
        let w = choose|w: Result<(), BridgeError>| #[trigger]
            storage::settings_written(write, settings, w) && w is Ok;
        assert(storage::settings_written(write, settings, w));
        assert(hash_kept(write, before, h, text::opt_view(old_token), now, state@, r@));
    }
    r
}

/// The reply to a first password where there is one already.
pub open spec fn already_configured() -> ApiReplyView {
    reply::error_of(409, "admin password already configured"@, "conflict"@)
}

/// POST /api/admin/setup: the first admin password.
pub fn api_admin_setup<W: FnOnce(&Settings) -> Result<(), BridgeError>>(
    state: &mut BridgeState,
    caller: &Caller,
    password: &str,
    write: W,
) -> (r: ApiReply)
    requires
        forall|s: &Settings| call_requires(write, (s,)),
    ensures
        if old(state)@.storage.settings.admin_password_hash is Some {
            r@ == already_configured() && final(state)@ == old(state)@
        } else if password@.len() < 6 {
            r@ == reply::error_of(400, "password must be at least 6 characters"@, "bad_request"@)
                && final(state)@ == old(state)@
        } else {
            password_changed(write, old(state)@, password@, None, caller@.now, final(state)@, r@)
        },
        r@.set_cookie is Some ==> storage::accepts_password(final(state)@.storage.settings, password@),
{
    if state.storage.admin_configured() {
        return reply::error_reply(409, "admin password already configured", "conflict");
    }
    if text::chars_of(password).len() < 6 {
        return reply::error_reply(400, "password must be at least 6 characters", "bad_request");
    }
    change_password(state, password, None, caller.now, write)
}

/// POST /api/admin/login
pub fn api_admin_login(state: &mut BridgeState, caller: &Caller, password: &str) -> (r: ApiReply)
    ensures
        if storage::accepts_password(old(state)@.storage.settings, password@) {
            exists|token: Seq<char>|
                outside::is_simple_uuid(token) && r@ == #[trigger] session_reply(token) && final(state)@
                    == admin::with_session(old(state)@, token, caller@.now)
        } else {
            r@ == reply::error_of(401, "invalid password"@, "unauthorized"@) && final(state)@
                == old(state)@
        },
{
    if !state.storage.verify_admin_password(password) {
        return reply::error_reply(401, "invalid password", "unauthorized");
    }
    hand_out_session(state, caller.now)
}

/// The cookie that takes an admin session away from a client.
pub fn clear_cookie_header() -> (r: String)
    ensures
        r@ == "mdb_session=; Path=/; HttpOnly; SameSite=Lax; Max-Age=0"@,
{
    "mdb_session=; Path=/; HttpOnly; SameSite=Lax; Max-Age=0".to_string()
}

/// POST /api/admin/logout
pub fn api_admin_logout(state: &mut BridgeState, caller: &Caller) -> (r: ApiReply)
    ensures
        r@ == (ApiReplyView {
            status: 200,
            set_cookie: Some("mdb_session=; Path=/; HttpOnly; SameSite=Lax; Max-Age=0"@),
            body: ok_body(),
        }),
        final(state)@ == revoked(old(state)@, admin::admin_token(caller@.cookie)),
{
    if let Some(token) = admin::session_cookie(caller) {
        admin::revoke_admin_session(state, token.as_str());
    }
    ApiReply { status: 200, set_cookie: Some(clear_cookie_header()), body: make_ok_body() }
}

/// POST /api/admin/password: another admin password. The caller's session is revoked and a fresh
/// one handed out.
pub fn api_admin_password<W: FnOnce(&Settings) -> Result<(), BridgeError>>(
    state: &mut BridgeState,
    caller: &Caller,
    old_password: &str,
    new_password: &str,
    write: W,
) -> (r: ApiReply)
    requires
        forall|s: &Settings| call_requires(write, (s,)),
    ensures
        if !admin::is_admin(old(state)@, caller@) {
            r@ == admin_denied() && final(state)@ == old(state)@
        } else if !storage::accepts_password(old(state)@.storage.settings, old_password@) {
            r@ == reply::error_of(401, "old password is incorrect"@, "unauthorized"@) && final(state)@
                == old(state)@
        } else if new_password@.len() < 6 {
            r@ == reply::error_of(400, "new password must be at least 6 characters"@, "bad_request"@)
                && final(state)@ == old(state)@
        } else {
            password_changed(
                write,
                old(state)@,
                new_password@,
                admin::admin_token(caller@.cookie),
                caller@.now,
                final(state)@,
                r@,
            )
        },
        r@.set_cookie is Some ==> storage::accepts_password(final(state)@.storage.settings, new_password@),
{
    if !admin::admin_ok(state, caller) {
        return denied();
    }
    if !state.storage.verify_admin_password(old_password) {
        return reply::error_reply(401, "old password is incorrect", "unauthorized");
    }
    if text::chars_of(new_password).len() < 6 {
        return reply::error_reply(400, "new password must be at least 6 characters", "bad_request");
    }
    let token = admin::session_cookie(caller);
    change_password(state, new_password, token, caller.now, write)
}

// ── keys and settings ───────────────────────────────────────────────
/// The record of a key as JSON.
pub open spec fn key_json(key: KeyView) -> JsonView {
    JsonView::Object(
        map![
            "id"@ => JsonView::Text(key.id),
            "hash"@ => JsonView::Text(key.hash),
            "prefix"@ => JsonView::Text(key.prefix),
            "label"@ => JsonView::Text(key.label),
            "created"@ => json::integer(key.created as int),
        ],
    )
}

fn make_key_json(key: &ApiKeyRecord) -> (r: Json)
    ensures
        r@ == key_json(key@),
{
    let mut o = JsonObject::new();
    o.put("id", Json::text(key.id.as_str()));
    o.put("hash", Json::text(key.hash.as_str()));
    o.put("prefix", Json::text(key.prefix.as_str()));
    o.put("label", Json::text(key.label.as_str()));
    o.put("created", Json::signed(key.created));
    Json::Object(o)
}

/// The reply that lists the keys on record.
pub open spec fn keys_reply(keys: Seq<KeyView>) -> ApiReplyView {
    reply::ok_of(
        JsonView::Object(
            map!["keys"@ => JsonView::List(keys.map_values(|k: KeyView| key_json(k)))],
        ),
    )
}

/// GET /api/keys
pub fn api_keys_list(state: &BridgeState, caller: &Caller) -> (r: ApiReply)
    ensures
        r@ == (if admin::is_admin(state@, caller@) {
            keys_reply(state@.storage.keys)
        } else {
            admin_denied()
        }),
{
    if !admin::admin_ok(state, caller) {
        return denied();
    }
    let keys = state.storage.list_keys();
    let mut list: Vec<Json> = Vec::new();
    let mut i: usize = 0;
    while i < keys.len()
        invariant
            i <= keys@.len(),
            list@.len() == i,
            forall|k: int| 0 <= k < i ==> (#[trigger] list@[k])@ == key_json(keys@[k]@),
        decreases keys@.len() - i,
    {
        list.push(make_key_json(&keys[i]));
        i += 1;
    }
    assert(json::trees_of(list@) =~= state@.storage.keys.map_values(|k: KeyView| key_json(k)));
    let mut body = JsonObject::new();
    body.put("keys", Json::List(list));
    reply::ok_reply(Json::Object(body))
}

/// The reply that shows a new key, which is not shown again.
pub open spec fn key_reply(id: Seq<char>, token: Seq<char>) -> ApiReplyView {
    reply::ok_of(
        JsonView::Object(
            map![
                "id"@ => JsonView::Text(id),
                "token"@ => JsonView::Text(token),
                "note"@ => JsonView::Text("store this token now — it is not shown again"@),
            ],
        ),
    )
}

/// How the making of a key ends: it is put on record, and shown if the records could be written.
pub open spec fn key_made<W: FnOnce(&KeyStore) -> Result<(), BridgeError>>(
    write: W,
    before: StateView,
    label: Seq<char>,
    after: StateView,
    r: ApiReplyView,
) -> bool {
    exists|raw: Seq<u8>, uuid: Seq<char>, created: i64, w: Result<(), BridgeError>|
        {
            &&& raw.len() == 32
            &&& outside::is_simple_uuid(uuid)
            &&& after == with_keys(
                before,
                before.storage.keys.push(
                    #[trigger] storage::key_record("key_"@ + uuid, storage::token_of(raw), label, created),
                ),
            )
            &&& #[trigger] storage::keys_written(write, after.storage.keys, w)
            &&& match w {
                Ok(_) => r == key_reply("key_"@ + uuid, storage::token_of(raw)),
                Err(e) => r == not_stored(e@),
            }
        }
}

/// The state with other key records.
pub open spec fn with_keys(state: StateView, keys: Seq<KeyView>) -> StateView {
    StateView { storage: StorageView { keys, ..state.storage }, ..state }
}

/// POST /api/keys
pub fn api_keys_create<W: FnOnce(&KeyStore) -> Result<(), BridgeError>>(
    state: &mut BridgeState,
    caller: &Caller,
    label: &str,
    write: W,
) -> (r: ApiReply)
    requires
        forall|k: &KeyStore| call_requires(write, (k,)),
    ensures
        if admin::is_admin(old(state)@, caller@) {
            key_made(write, old(state)@, label@, final(state)@, r@)
        } else {
            r@ == admin_denied() && final(state)@ == old(state)@
        },
{
    if !admin::admin_ok(state, caller) {
        return denied();
    }
    match state.storage.create_api_key(label, write) {
        Ok((id, token)) => {
            let mut body = JsonObject::new();
            body.put("id", Json::Text(id));
            body.put("token", Json::Text(token));
            body.put("note", Json::text("store this token now — it is not shown again"));
            reply::ok_reply(Json::Object(body))
        },
        Err(e) => unstored(&e),
    }
}

/// How the deletion of a key ends.
pub open spec fn key_deleted<W: FnOnce(&KeyStore) -> Result<(), BridgeError>>(
    write: W,
    before: StateView,
    id: Seq<char>,
    after: StateView,
    r: ApiReplyView,
) -> bool {
    let keys = before.storage.keys;
    &&& after == with_keys(before, storage::without_id(keys, id))
    &&& if exists|i: int| 0 <= i < keys.len() && (#[trigger] keys[i]).id == id {
        exists|w: Result<(), BridgeError>| #[trigger]
            storage::keys_written(write, after.storage.keys, w) && r == (match w {
                Ok(_) => reply::ok_of(ok_body()),
                Err(e) => not_stored(e@),
            })
    } else {
        r == reply::error_of(404, "key not found"@, "not_found"@)
    }
}

/// DELETE /api/keys/:id
pub fn api_keys_delete<W: FnOnce(&KeyStore) -> Result<(), BridgeError>>(
    state: &mut BridgeState,
    caller: &Caller,
    id: &str,
    write: W,
) -> (r: ApiReply)
    requires
        forall|k: &KeyStore| call_requires(write, (k,)),
    ensures
        if admin::is_admin(old(state)@, caller@) {
            key_deleted(write, old(state)@, id@, final(state)@, r@)
        } else {
            r@ == admin_denied() && final(state)@ == old(state)@
        },
{
    if !admin::admin_ok(state, caller) {
        return denied();
    }
    match state.storage.delete_api_key(id, write) {
        Ok(true) => reply::ok_reply(make_ok_body()),
        Ok(false) => reply::error_reply(404, "key not found", "not_found"),
        Err(e) => unstored(&e),
    }
}

/// GET /api/settings/api-key-required
pub fn api_key_required_get(state: &BridgeState, caller: &Caller) -> (r: ApiReply)
    ensures
        r@ == (if admin::is_admin(state@, caller@) {
            reply::ok_of(
                JsonView::Object(
                    map!["required"@ => JsonView::Bool(state@.storage.settings.api_key_required)],
                ),
            )
        } else {
            admin_denied()
        }),
{
    if !admin::admin_ok(state, caller) {
        return denied();
    }
    let mut body = JsonObject::new();
    body.put("required", Json::Bool(state.storage.settings().api_key_required));
    reply::ok_reply(Json::Object(body))
}

/// How a change of the settings ends: it is kept where it could be written.
pub open spec fn setting_changed<W: FnOnce(&Settings) -> Result<(), BridgeError>>(
    write: W,
    before: StateView,
    settings: SettingsView,
    body: JsonView,
    after: StateView,
    r: ApiReplyView,
) -> bool {
    exists|w: Result<(), BridgeError>| #[trigger]
        storage::settings_written(write, settings, w) && match w {
            Ok(_) => r == reply::ok_of(body) && after == with_settings(before, settings),
            Err(e) => r == not_stored(e@) && after == before,
        }
}

/// POST /api/settings/api-key-required
pub fn api_key_required_set<W: FnOnce(&Settings) -> Result<(), BridgeError>>(
    state: &mut BridgeState,
    caller: &Caller,
    required: bool,
    write: W,
) -> (r: ApiReply)
    requires
        forall|s: &Settings| call_requires(write, (s,)),
    ensures
        if admin::is_admin(old(state)@, caller@) {
            setting_changed(
                write,
                old(state)@,
                SettingsView { api_key_required: required, ..old(state)@.storage.settings },
                JsonView::Object(
                    map![
                        "ok"@ => JsonView::Bool(true),
                        "required"@ => JsonView::Bool(required),
                    ],
                ),
                final(state)@,
                r@,
            )
        } else {
            r@ == admin_denied() && final(state)@ == old(state)@
        },
{
    if !admin::admin_ok(state, caller) {
        return denied();
    }
    match state.storage.set_api_key_required(required, write) {
        Ok(_) => {
            let mut body = JsonObject::new();
            body.put("ok", Json::Bool(true));
            body.put("required", Json::Bool(required));
            reply::ok_reply(Json::Object(body))
        },
        Err(e) => unstored(&e),
    }
}

/// POST /api/settings/port
pub fn api_set_port<W: FnOnce(&Settings) -> Result<(), BridgeError>>(
    state: &mut BridgeState,
    caller: &Caller,
    port: u16,
    write: W,
) -> (r: ApiReply)
    requires
        forall|s: &Settings| call_requires(write, (s,)),
    ensures
        if !admin::is_admin(old(state)@, caller@) {
            r@ == admin_denied() && final(state)@ == old(state)@
        } else if port < 1024 {
            r@ == reply::error_of(400, "port must be >= 1024"@, "bad_request"@) && final(state)@
                == old(state)@
        } else {
            setting_changed(
                write,
                old(state)@,
                SettingsView { port, ..old(state)@.storage.settings },
                JsonView::Object(
                    map![
                        "ok"@ => JsonView::Bool(true),
                        "port"@ => json::integer(port as int),
                        "note"@ => JsonView::Text("restart the server to bind the new port"@),
                    ],
                ),
                final(state)@,
                r@,
            )
        },
{
    if !admin::admin_ok(state, caller) {
        return denied();
    }
    if port < 1024 {
        return reply::error_reply(400, "port must be >= 1024", "bad_request");
    }
    match state.storage.set_port(port, write) {
        Ok(_) => {
            let mut body = JsonObject::new();
            body.put("ok", Json::Bool(true));
            body.put("port", Json::unsigned(port as u64));
            body.put("note", Json::text("restart the server to bind the new port"));
            reply::ok_reply(Json::Object(body))
        },
        Err(e) => unstored(&e),
    }
}

/// GET /api/settings/tls
pub fn api_tls_get(state: &BridgeState, caller: &Caller) -> (r: ApiReply)
    ensures
        r@ == (if admin::is_admin(state@, caller@) {
            reply::ok_of(
                JsonView::Object(
                    map![
                        "enabled"@ => JsonView::Bool(state@.storage.settings.tls_enabled),
                        "certPath"@ => json::text_or_null_view(state@.storage.settings.tls_cert_path),
                        "keyPath"@ => json::text_or_null_view(state@.storage.settings.tls_key_path),
                        "note"@ => JsonView::Text("restart the server to apply TLS changes"@),
                    ],
                ),
            )
        } else {
            admin_denied()
        }),
{
    if !admin::admin_ok(state, caller) {
        return denied();
    }
    let s = state.storage.settings();
    let mut body = JsonObject::new();
    body.put("enabled", Json::Bool(s.tls_enabled));
    body.put("certPath", Json::text_or_null(&s.tls_cert_path));
    body.put("keyPath", Json::text_or_null(&s.tls_key_path));
    body.put("note", Json::text("restart the server to apply TLS changes"));
    reply::ok_reply(Json::Object(body))
}

/// POST /api/settings/tls
pub fn api_tls_set<W: FnOnce(&Settings) -> Result<(), BridgeError>>(
    state: &mut BridgeState,
    caller: &Caller,
    enabled: bool,
    write: W,
) -> (r: ApiReply)
    requires
        forall|s: &Settings| call_requires(write, (s,)),
    ensures
        if admin::is_admin(old(state)@, caller@) {
            setting_changed(
                write,
                old(state)@,
                SettingsView { tls_enabled: enabled, ..old(state)@.storage.settings },
                JsonView::Object(
                    map![
                        "ok"@ => JsonView::Bool(true),
                        "enabled"@ => JsonView::Bool(enabled),
                        "note"@ => JsonView::Text("restart the server to bind TLS"@),
                    ],
                ),
                final(state)@,
                r@,
            )
        } else {
            r@ == admin_denied() && final(state)@ == old(state)@
        },
{
    if !admin::admin_ok(state, caller) {
        return denied();
    }
    match state.storage.set_tls_enabled(enabled, write) {
        Ok(_) => {
            let mut body = JsonObject::new();
            body.put("ok", Json::Bool(true));
            body.put("enabled", Json::Bool(enabled));
            body.put("note", Json::text("restart the server to bind TLS"));
            reply::ok_reply(Json::Object(body))
        },
        Err(e) => unstored(&e),
    }
}

// ── usage, logs and status ──────────────────────────────────────────
/// Counters as JSON.
pub open spec fn counters_json(u: ModelUsage) -> JsonView {
    JsonView::Object(
        map![
            "requests"@ => json::integer(u.requests as int),
            "prompt_tokens"@ => json::integer(u.prompt_tokens as int),
            "completion_tokens"@ => json::integer(u.completion_tokens as int),
            "total_tokens"@ => json::integer(u.total_tokens as int),
            "errors"@ => json::integer(u.errors as int),
            "last_used_ms"@ => match u.last_used_ms {
                Some(at) => json::integer(at as int),
                None => JsonView::Null,
            },
        ],
    )
}

fn make_counters_json(u: &ModelUsage) -> (r: Json)
    ensures
        r@ == counters_json(*u),
{
    let last = match u.last_used_ms {
        Some(at) => Json::signed(at),
        None => Json::Null,
    };
    let mut o = JsonObject::new();
    o.put("requests", Json::unsigned(u.requests));
    o.put("prompt_tokens", Json::unsigned(u.prompt_tokens));
    o.put("completion_tokens", Json::unsigned(u.completion_tokens));
    o.put("total_tokens", Json::unsigned(u.total_tokens));
    o.put("errors", Json::unsigned(u.errors));
    o.put("last_used_ms", last);
    Json::Object(o)
}

/// The counters of models as the members of an object.
pub open spec fn table_fields(table: Table) -> Map<Seq<char>, JsonView>
    decreases table.len(),
{
    if table.len() == 0 {
        Map::empty()
    } else {
        table_fields(table.drop_last()).insert(table.last().0, counters_json(table.last().1))
    }
}

/// The usage that is told has every model that was used, with its counters, and no other.
pub proof fn every_model_is_told(table: Table, model: Seq<char>)
    requires
        usage::no_repeats(table),
    ensures
        json::lookup(table_fields(table), model) == (if usage::model_at(table, model) < table.len() {
            Some(counters_json(usage::usage_of(table, model)))
        } else {
            None
        }),
    decreases table.len(),
{
    usage::lemma_model_at(table, model);
    if table.len() > 0 {
        let head = table.drop_last();
        let last = table.len() - 1;
        assert forall|i: int, j: int| 0 <= i < j < head.len() implies (#[trigger] head[i]).0 != (
        #[trigger] head[j]).0 by {
            assert(table[i].0 != table[j].0);
        }
        every_model_is_told(head, model);
        usage::lemma_model_at(head, model);
        let at = usage::model_at(head, model);
        if at < last {
            assert(table[at].0 == model);
            usage::lemma_model_at_is(table, model, at);
        } else if table[last].0 == model {
            usage::lemma_model_at_is(table, model, last);
        } else {
            assert forall|i: int| 0 <= i < table.len() implies (#[trigger] table[i]).0 != model by {
                if i < last {
                    assert(head[i].0 != model);
                }
            }
            usage::lemma_model_at_is(table, model, table.len() as int);
        }
    }
}

/// The body that tells of the usage.
pub open spec fn usage_body(usage: UsageView) -> JsonView {
    JsonView::Object(
        map![
            "models"@ => JsonView::Object(table_fields(usage.models)),
            "total"@ => counters_json(usage.total),
        ],
    )
}

/// GET /api/usage
pub fn api_usage(state: &BridgeState) -> (r: ApiReply)
    ensures
        r@ == reply::ok_of(usage_body(state@.usage)),
{
    let snap: UsageStore = state.usage.snapshot();
    let ghost table = snap@.models;
    let entries = snap.entries();
    let mut models = JsonObject::new();
    let mut i: usize = 0;
    assert(table.take(0) =~= Seq::<(Seq<char>, ModelUsage)>::empty());
    while i < entries.len()
        invariant
            i <= entries@.len(),
            table == usage::table_of(entries@),
            models@ == table_fields(table.take(i as int)),
        decreases entries@.len() - i,
    {
        assert(table.take(i + 1).drop_last() =~= table.take(i as int));
        assert(table.take(i + 1).last() == table[i as int]);
        models.put(entries[i].0.as_str(), make_counters_json(&entries[i].1));
        i += 1;
    }
    assert(table.take(i as int) =~= table);
    let mut body = JsonObject::new();
    body.put("models", Json::Object(models));
    body.put("total", make_counters_json(&snap.total()));
    reply::ok_reply(Json::Object(body))
}

/// GET /api/logs
pub fn api_logs(state: &BridgeState) -> (r: ApiReply)
    ensures
        r@ == reply::ok_of(JsonView::List(state@.logs.rows)),
{
    reply::ok_reply(Json::List(state.logs.snapshot()))
}

/// What the command line tells of a bridge.
pub open spec fn status_body(config_dir: Seq<char>, stored: StorageView) -> JsonView {
    JsonView::Object(
        map![
            "configDir"@ => JsonView::Text(config_dir),
            "adminConfigured"@ => JsonView::Bool(stored.settings.admin_password_hash is Some),
            "apiKeyRequired"@ => JsonView::Bool(stored.settings.api_key_required),
            "port"@ => json::integer(stored.settings.port as int),
            "tlsEnabled"@ => JsonView::Bool(stored.settings.tls_enabled),
            "loggedIn"@ => JsonView::Bool(proxy::logged_in(stored.session)),
            "userId"@ => proxy::user_of(stored.session),
            "hasPassToken"@ => JsonView::Bool(proxy::has_pass_token(stored.session)),
            "hasServiceToken"@ => JsonView::Bool(proxy::logged_in(stored.session)),
            "apiKeys"@ => json::integer(stored.keys.len() as int),
        ],
    )
}

/// What the command line tells of a bridge.
pub fn status_report(config_dir: &str, storage: &Storage) -> (r: Json)
    ensures
        r@ == status_body(config_dir@, storage@),
{
    let session = storage.session();
    let settings = storage.settings();
    let mut body = JsonObject::new();
    body.put("configDir", Json::text(config_dir));
    body.put("adminConfigured", Json::Bool(storage.admin_configured()));
    body.put("apiKeyRequired", Json::Bool(settings.api_key_required));
    body.put("port", Json::unsigned(settings.port as u64));
    body.put("tlsEnabled", Json::Bool(settings.tls_enabled));
    body.put("loggedIn", Json::Bool(proxy::is_logged_in(&session)));
    body.put("userId", proxy::user_json(&session));
    body.put("hasPassToken", Json::Bool(proxy::holds_pass_token(&session)));
    body.put("hasServiceToken", Json::Bool(proxy::is_logged_in(&session)));
    body.put("apiKeys", Json::unsigned(storage.list_keys().len() as u64));
    Json::Object(body)
}

// ── laws ────────────────────────────────────────────────────────────
/// A login that went well leads to a session: with a long-lived token a service token is minted for
/// it, else it is kept as it is. What the login gave is handed on unchanged. A login that asks for
/// more says what it asks for, and one that failed tells the reason with its code.
pub proof fn logins_lead_to_sessions(
    done: LoginDoneView,
    session: SessionView,
    nick: Option<Seq<char>>,
    user_id: Option<Seq<char>>,
    options: Seq<i32>,
    url: Seq<char>,
    code: i64,
    reason: Seq<char>,
    e: ErrorView,
)
    ensures
        done.outcome == (OutcomeView::Authenticated { nick, user_id }) && done.session == Some(session)
            && session.pass_token is Some ==> login_turn(Ok(done)) == (LoginTurnView::Mint {
            session,
            nick,
            user_id,
        }),
        done.outcome == (OutcomeView::Authenticated { nick, user_id }) && done.session == Some(session)
            && session.pass_token is None ==> login_turn(Ok(done)) == (LoginTurnView::Keep {
            session,
            nick,
            user_id,
        }),
        done.outcome == (OutcomeView::CaptchaRequired { captcha_url: url }) ==> (login_turn(Ok(done))
            matches LoginTurnView::Reply(reply) && reply.status == 200 && json::has(
            reply.body,
            "captchaUrl"@,
            JsonView::Text(url),
        )),
        done.outcome == (OutcomeView::TwoFactorRequired { options }) ==> (login_turn(Ok(done))
            matches LoginTurnView::Reply(reply) && reply.status == 200 && (reply.body
            matches JsonView::Object(m) && (m["options"@] matches JsonView::List(items)
            && crate::login::lists(items, options)))),
        done.outcome == (OutcomeView::Failed { code, description: reason }) ==> (login_turn(Ok(done))
            matches LoginTurnView::Reply(reply) && reply.status == 401 && (reply.body
            matches JsonView::Object(m) && json::has(
            m["error"@],
            "message"@,
            JsonView::Text(reason + " (code="@ + text::int_text(code as int) + ")"@),
        ))),
        login_turn(Err(e)) matches LoginTurnView::Reply(reply) && reply.status == e.status(),
{
    reveal_strlit("outcome");
    reveal_strlit("options");
    reveal_strlit("captchaUrl");
    assert("captchaUrl"@.len() == 10 && "outcome"@.len() == 7 && "options"@.len() == 7);
    assert("outcome"@[1] == 'u' && "options"@[1] == 'p');
    let items = options.map_values(|n: i32| json::integer(n as int));
    assert(crate::login::lists(items, options));
    reply::errors_say_what_they_are(
        401,
        reason + " (code="@ + text::int_text(code as int) + ")"@,
        "login_failed"@,
    );
}

/// The second-factor flow of the last login that asked for one is the one in flight; any other
/// ending leaves it alone.
pub proof fn last_flow_is_in_flight(
    done: LoginDoneView,
    options: Seq<i32>,
    flow: TwoFactorView,
    before: Option<TwoFactorView>,
    e: ErrorView,
)
    ensures
        done.outcome == (OutcomeView::TwoFactorRequired { options }) && done.flow == Some(flow)
            ==> flow_after(Ok(done), before) == Some(flow),
        !(done.outcome is TwoFactorRequired) ==> flow_after(Ok(done), before) == before,
        flow_after(Err(e), before) == before,
{
}

/// Who sees what: a caller who is not the admin never gets a file but the login page, and no file
/// at all where there is none. The admin gets the file that was asked for, under its media type,
/// or the start page in its place.
pub proof fn pages_are_hidden_from_strangers(
    path: Seq<char>,
    assets: Assets,
    media_type: Seq<char>,
)
    ensures
        page_for(false, path, assets, media_type) matches PageReplyView::File { file, .. } ==> file
            == "login.html"@,
        !assets.login ==> (page_for(false, path, assets, media_type) matches PageReplyView::Plain {
            status,
            ..
        } && status == 401),
        !(page_for(false, path, assets, media_type) is Json),
        assets.asked ==> page_for(true, path, assets, media_type) == (PageReplyView::File {
            file: asset_of(path),
            media_type,
        }),
        !assets.asked && assets.index ==> (page_for(true, path, assets, media_type)
            matches PageReplyView::File { file, .. } && file == "index.html"@),
        !assets.asked && !assets.index ==> (page_for(true, path, assets, media_type)
            matches PageReplyView::Json(reply) && reply.status == 404),
{
}

/// A path asks for the file that it names, however many slashes it begins with; a path that names
/// none asks for the start page.
pub proof fn paths_name_files(path: Seq<char>)
    ensures
        asset_of(Seq::empty()) == "index.html"@,
        asset_of(seq!['/'] + path) == asset_of(path),
        path.len() > 0 && path[0] != '/' ==> asset_of(path) == path,
{
    let slashed = seq!['/'] + path;
    assert(slashed.skip(1) =~= path);
}

/// Every origin that is listed and can stand in a header is allowed.
pub proof fn listed_origins_are_allowed(listed: Seq<Seq<char>>, i: int)
    requires
        0 <= i < listed.len(),
        text::is_trimmed(listed[i]),
        forall|k: int|
            0 <= k < listed[i].len() ==> 0x20 <= (#[trigger] listed[i][k]) as u32 && listed[i][k] as u32
                != 127,
    ensures
        allowed_origins(listed).contains(listed[i]),
    decreases listed.len(),
{
    let origin = listed[i];
    text::lemma_trim(origin);
    let before = allowed_origins(listed.drop_last());
    let all = allowed_origins(listed);
    if i == listed.len() - 1 {
        assert(forall|k: int|
            0 <= k < origin.len() ==> outside::fits_header_char(#[trigger] origin[k]));
        assert(all.last() == origin);
        assert(all.contains(all[all.len() - 1]));
    } else {
        assert(listed.drop_last()[i] == origin);
        listed_origins_are_allowed(listed.drop_last(), i);
        let k = choose|k: int| 0 <= k < before.len() && before[k] == origin;
        assert(all[k] == origin);
    }
}

/// What the command line says of TLS is kept, and nothing else of the settings changes; what it
/// does not say stays as it was.
pub proof fn flags_change_only_tls(settings: SettingsView, config: ServerConfigView)
    ensures
        config.tls is None && config.tls_cert is None && config.tls_key is None ==> tls_override(
            settings,
            config,
        ) is None,
        config.tls is Some || config.tls_cert is Some || config.tls_key is Some ==> (tls_override(
            settings,
            config,
        ) matches Some(s) && {
            &&& config.tls is Some ==> s.tls_enabled == config.tls->Some_0
            &&& config.tls is None ==> s.tls_enabled == settings.tls_enabled
            &&& config.tls_cert is Some ==> s.tls_cert_path == config.tls_cert
            &&& config.tls_cert is None ==> s.tls_cert_path == settings.tls_cert_path
            &&& config.tls_key is Some ==> s.tls_key_path == config.tls_key
            &&& config.tls_key is None ==> s.tls_key_path == settings.tls_key_path
            &&& s.port == settings.port
            &&& s.api_key_required == settings.api_key_required
            &&& s.admin_password_hash == settings.admin_password_hash
            &&& s.cors_origins == settings.cors_origins
        }),
{
}

/// Setting the admin password does what it says. Where the settings can be written and the password
/// is not too long to be hashed, the admin is handed a session that opens the control plane, a hash
/// of the new password is kept, the session from before opens nothing any more, and everything else
/// stays as it was.
pub proof fn new_passwords_take_effect<W: FnOnce(&Settings) -> Result<(), BridgeError>>(
    write: W,
    before: StateView,
    password: Seq<char>,
    old_token: Option<Seq<char>>,
    now: i64,
    after: StateView,
    r: ApiReplyView,
)
    requires
        password_changed(write, before, password, old_token, now, after, r),
        forall|s: &Settings, w: Result<(), BridgeError>| #[trigger]
            call_ensures(write, (s,), w) ==> w is Ok,
        encode_utf8(password).len() <= 0xffff_ffff,
    ensures
        r.status == 200,
        exists|token: Seq<char>|
            {
                &&& #[trigger] outside::is_simple_uuid(token)
                &&& r.set_cookie == Some(
                    "mdb_session="@ + token + "; Path=/; HttpOnly; SameSite=Lax"@,
                )
                &&& admin::opens(after.admin_sessions, token, now)
                &&& forall|caller: admin::CallerView|
                    caller.cookie == Some("mdb_session="@ + token) && caller.now == now
                        ==> #[trigger] admin::is_admin(after, caller)
                &&& old_token matches Some(t) ==> t != token ==> !admin::opens(
                    after.admin_sessions,
                    t,
                    now,
                )
            },
        exists|salt: Seq<char>|
            outside::is_salt(salt) && match #[trigger] outside::argon2_of(
                encode_utf8(password),
                salt,
            ) {
                Ok(hash) => after.storage.settings.admin_password_hash == Some(hash),
                Err(_) => false,
            },
        after.storage.session == before.storage.session && after.storage.keys == before.storage.keys,
        after.storage.settings.port == before.storage.settings.port
            && after.storage.settings.api_key_required == before.storage.settings.api_key_required,
        after.usage == before.usage && after.logs == before.logs && after.two_factor
            == before.two_factor,
{
    let salt = choose|salt: Seq<char>|
        outside::is_salt(salt) && match #[trigger] outside::argon2_of(encode_utf8(password), salt) {
            Err(m) => !outside::can_be_hashed(encode_utf8(password)) && r == not_stored(
                ErrorView::Storage("argon2: "@ + m),
            ) && after == before,
            Ok(hash) => hash_kept(write, before, hash, old_token, now, after, r),
        };
    let hash = outside::argon2_of(encode_utf8(password), salt)->Ok_0;
    assert(hash_kept(write, before, hash, old_token, now, after, r));
    let settings = SettingsView { admin_password_hash: Some(hash), ..before.storage.settings };
    let w = choose|w: Result<(), BridgeError>| #[trigger]
        storage::settings_written(write, settings, w) && match w {
            Err(e) => r == not_stored(e@) && after == before,
            Ok(_) => exists|token: Seq<char>|
                outside::is_simple_uuid(token) && r == #[trigger] session_reply(token) && after
                    == admin::with_session(
                    revoked(with_settings(before, settings), old_token),
                    token,
                    now,
                ),
        };
    let s = choose|s: &Settings| #[trigger] call_ensures(write, (s,), w) && s@ == settings;
    assert(call_ensures(write, (s,), w));
    let token = choose|token: Seq<char>|
        outside::is_simple_uuid(token) && r == #[trigger] session_reply(token) && after
            == admin::with_session(
            revoked(with_settings(before, settings), old_token),
            token,
            now,
        );
    let middle = revoked(with_settings(before, settings), old_token);
    let at = after.admin_sessions.len() - 1;
    assert(after.admin_sessions[at] == (token, now));
    admin::tokens_come_back(token);
    assert forall|caller: admin::CallerView|
        caller.cookie == Some("mdb_session="@ + token) && caller.now == now implies #[trigger]
        admin::is_admin(after, caller) by {
        admin::admins_are_known(after, caller, token, at);
    }
    if let Some(t) = old_token {
        admin::revoked_sessions_do_not_open(with_settings(before, settings), t, t, now);
        if t != token {
            admin::lemma_issued_others(middle, token, t, now);
        }
    }
}

/// Making a key does what it says. Where the records can be written, the caller is shown a key that
/// the API accepts from then on, and every key that it accepted before still is.
pub proof fn made_keys_are_accepted<W: FnOnce(&KeyStore) -> Result<(), BridgeError>>(
    write: W,
    before: StateView,
    label: Seq<char>,
    after: StateView,
    r: ApiReplyView,
    other: Seq<char>,
)
    requires
        key_made(write, before, label, after, r),
    ensures
        (forall|k: &KeyStore, w: Result<(), BridgeError>| #[trigger]
            call_ensures(write, (k,), w) ==> w is Ok) ==> r.status == 200 && exists|token: Seq<char>|
            json::has(r.body, "token"@, JsonView::Text(token)) && #[trigger] storage::accepts_key(
                after.storage.keys,
                token,
            ),
        storage::accepts_key(before.storage.keys, other) ==> storage::accepts_key(
            after.storage.keys,
            other,
        ),
        after.storage.keys.len() == before.storage.keys.len() + 1,
        after.storage.keys.drop_last() == before.storage.keys,
        label.len() > 0 ==> after.storage.keys.last().label == label,
        after.storage.settings == before.storage.settings && after.storage.session
            == before.storage.session && after.admin_sessions == before.admin_sessions,
{
    reveal_strlit("id");
    reveal_strlit("token");
    reveal_strlit("note");
    assert("id"@.len() == 2 && "token"@.len() == 5 && "note"@.len() == 4);
    let (raw, uuid, created, w) = choose|
        raw: Seq<u8>,
        uuid: Seq<char>,
        created: i64,
        w: Result<(), BridgeError>,
    |
        {
            &&& raw.len() == 32
            &&& outside::is_simple_uuid(uuid)
            &&& after == with_keys(
                before,
                before.storage.keys.push(
                    #[trigger] storage::key_record("key_"@ + uuid, storage::token_of(raw), label, created),
                ),
            )
            &&& #[trigger] storage::keys_written(write, after.storage.keys, w)
            &&& match w {
                Ok(_) => r == key_reply("key_"@ + uuid, storage::token_of(raw)),
                Err(e) => r == not_stored(e@),
            }
        };
    let token = storage::token_of(raw);
    storage::new_keys_are_accepted(
        before.storage.keys,
        "key_"@ + uuid,
        token,
        label,
        created,
        token,
    );
    storage::new_keys_are_accepted(
        before.storage.keys,
        "key_"@ + uuid,
        token,
        label,
        created,
        other,
    );
    assert(after.storage.keys.drop_last() =~= before.storage.keys);
    let k = choose|k: &KeyStore| #[trigger] call_ensures(write, (k,), w) && k@ == after.storage.keys;
    assert(call_ensures(write, (k,), w));
}

/// Deleting a key does what it says: no record of its identifier is left, every other record is,
/// and an identifier that is not on record is told as such.
pub proof fn deleted_keys_are_gone<W: FnOnce(&KeyStore) -> Result<(), BridgeError>>(
    write: W,
    before: StateView,
    id: Seq<char>,
    after: StateView,
    r: ApiReplyView,
    other: KeyView,
)
    requires
        key_deleted(write, before, id, after, r),
    ensures
        forall|i: int|
            0 <= i < after.storage.keys.len() ==> (#[trigger] after.storage.keys[i]).id != id,
        before.storage.keys.contains(other) && other.id != id ==> after.storage.keys.contains(other),
        after.storage.keys.contains(other) ==> before.storage.keys.contains(other),
        (forall|i: int|
            0 <= i < before.storage.keys.len() ==> (#[trigger] before.storage.keys[i]).id != id)
            ==> r.status == 404,
        (forall|k: &KeyStore, w: Result<(), BridgeError>| #[trigger]
            call_ensures(write, (k,), w) ==> w is Ok) && (exists|i: int|
            0 <= i < before.storage.keys.len() && (#[trigger] before.storage.keys[i]).id == id)
            ==> r.status == 200,
        after.storage.settings == before.storage.settings && after.storage.session
            == before.storage.session && after.admin_sessions == before.admin_sessions,
{
    let keys = before.storage.keys;
    storage::deleted_keys_are_refused(keys, id, Seq::empty());
    storage::others_stay_on_record(keys, id, other);
    if exists|i: int| 0 <= i < keys.len() && (#[trigger] keys[i]).id == id {
        let w = choose|w: Result<(), BridgeError>| #[trigger]
            storage::keys_written(write, after.storage.keys, w) && r == (match w {
                Ok(_) => reply::ok_of(ok_body()),
                Err(e) => not_stored(e@),
            });
        let k = choose|k: &KeyStore| #[trigger] call_ensures(write, (k,), w) && k@
            == after.storage.keys;
        assert(call_ensures(write, (k,), w));
    }
}

/// A setting that could be written is in force, and nothing else of the state changes; one that
/// could not be written leaves everything as it was, and the caller is told.
pub proof fn written_settings_take_effect<W: FnOnce(&Settings) -> Result<(), BridgeError>>(
    write: W,
    before: StateView,
    settings: SettingsView,
    body: JsonView,
    after: StateView,
    r: ApiReplyView,
)
    requires
        setting_changed(write, before, settings, body, after, r),
    ensures
        (forall|s: &Settings, w: Result<(), BridgeError>| #[trigger]
            call_ensures(write, (s,), w) ==> w is Ok) ==> r.status == 200 && r.body == body
            && after.storage.settings == settings,
        (forall|s: &Settings, w: Result<(), BridgeError>| #[trigger]
            call_ensures(write, (s,), w) ==> w is Err) ==> r.status == 500 && after == before,
        after.storage.session == before.storage.session && after.storage.keys == before.storage.keys
            && after.admin_sessions == before.admin_sessions && after.usage == before.usage,
{
    let w = choose|w: Result<(), BridgeError>| #[trigger]
        storage::settings_written(write, settings, w) && match w {
            Ok(_) => r == reply::ok_of(body) && after == with_settings(before, settings),
            Err(e) => r == not_stored(e@) && after == before,
        };
    let s = choose|s: &Settings| #[trigger] call_ensures(write, (s,), w) && s@ == settings;
    assert(call_ensures(write, (s,), w));
}

/// What is told of the account is what the session says: somebody is logged in just with a service
/// token, and the user and the name are those of the session.
pub proof fn account_is_told(
    session: SessionView,
    s: Seq<char>,
)
    ensures
        json::has(
            auth_status_body(Some(session)),
            "loggedIn"@,
            JsonView::Bool(session.service_token is Some),
        ),
        json::has(
            auth_status_body(Some(session)),
            "hasPassToken"@,
            JsonView::Bool(session.pass_token is Some),
        ),
        session.user_id == Some(s) ==> json::has(
            auth_status_body(Some(session)),
            "userId"@,
            JsonView::Text(s),
        ),
        session.nick == Some(s) ==> json::has(
            auth_status_body(Some(session)),
            "nick"@,
            JsonView::Text(s),
        ),
        json::has(auth_status_body(None), "loggedIn"@, JsonView::Bool(false)),
        json::has(auth_status_body(None), "userId"@, JsonView::Null),
        json::has(auth_status_body(None), "nick"@, JsonView::Null),
        json::has(auth_status_body(None), "hasPassToken"@, JsonView::Bool(false)),
{
    reveal_strlit("loggedIn");
    reveal_strlit("userId");
    reveal_strlit("nick");
    reveal_strlit("hasPassToken");
    reveal_strlit("sid");
    assert("loggedIn"@.len() == 8 && "userId"@.len() == 6 && "nick"@.len() == 4
        && "hasPassToken"@.len() == 12 && "sid"@.len() == 3);
}

/// What is told of a model's usage are its counters.
pub proof fn counters_are_told(u: ModelUsage)
    ensures
        json::counts(counters_json(u), "requests"@, u.requests as int),
        json::counts(counters_json(u), "prompt_tokens"@, u.prompt_tokens as int),
        json::counts(counters_json(u), "completion_tokens"@, u.completion_tokens as int),
        json::counts(counters_json(u), "total_tokens"@, u.total_tokens as int),
        json::counts(counters_json(u), "errors"@, u.errors as int),
        u.last_used_ms is None ==> json::has(counters_json(u), "last_used_ms"@, JsonView::Null),
        u.last_used_ms matches Some(at) ==> json::counts(
            counters_json(u),
            "last_used_ms"@,
            at as int,
        ),
{
    reveal_strlit("requests");
    reveal_strlit("prompt_tokens");
    reveal_strlit("completion_tokens");
    reveal_strlit("total_tokens");
    reveal_strlit("errors");
    reveal_strlit("last_used_ms");
    assert("requests"@.len() == 8 && "prompt_tokens"@.len() == 13 && "completion_tokens"@.len() == 17
        && "total_tokens"@.len() == 12 && "errors"@.len() == 6 && "last_used_ms"@.len() == 12);
    assert("total_tokens"@[0] == 't' && "last_used_ms"@[0] == 'l');
}

/// Where the new password cannot be written, nothing changes and nobody is handed a session: the old
/// password and the old sessions stay.
pub proof fn unwritten_passwords_change_nothing<W: FnOnce(&Settings) -> Result<(), BridgeError>>(
    write: W,
    before: StateView,
    password: Seq<char>,
    old_token: Option<Seq<char>>,
    now: i64,
    after: StateView,
    r: ApiReplyView,
)
    requires
        password_changed(write, before, password, old_token, now, after, r),
        forall|s: &Settings, w: Result<(), BridgeError>| #[trigger]
            call_ensures(write, (s,), w) ==> w is Err,
    ensures
        after == before,
        r.status == 500,
        r.set_cookie is None,
{
}

/// The keys are listed in their order, each with all that is on record of it.
pub proof fn keys_are_listed(keys: Seq<KeyView>, i: int)
    requires
        0 <= i < keys.len(),
    ensures
        keys_reply(keys).status == 200,
        keys_reply(keys).body matches JsonView::Object(m) && m.contains_key("keys"@) && (
        m["keys"@] matches JsonView::List(list) && list.len() == keys.len() && json::has(
            list[i],
            "id"@,
            JsonView::Text(keys[i].id),
        ) && json::has(list[i], "hash"@, JsonView::Text(keys[i].hash)) && json::has(
            list[i],
            "prefix"@,
            JsonView::Text(keys[i].prefix),
        ) && json::has(list[i], "label"@, JsonView::Text(keys[i].label)) && json::counts(
            list[i],
            "created"@,
            keys[i].created as int,
        )),
{
    reveal_strlit("id");
    reveal_strlit("hash");
    reveal_strlit("prefix");
    reveal_strlit("label");
    reveal_strlit("created");
    assert("id"@.len() == 2 && "hash"@.len() == 4 && "prefix"@.len() == 6 && "label"@.len() == 5
        && "created"@.len() == 7);
}

/// The command line tells what the settings say, who is logged in, and how many keys there are.
pub proof fn status_is_told(config_dir: Seq<char>, stored: StorageView, session: SessionView)
    ensures
        json::has(status_body(config_dir, stored), "configDir"@, JsonView::Text(config_dir)),
        json::has(
            status_body(config_dir, stored),
            "adminConfigured"@,
            JsonView::Bool(stored.settings.admin_password_hash is Some),
        ),
        json::has(
            status_body(config_dir, stored),
            "apiKeyRequired"@,
            JsonView::Bool(stored.settings.api_key_required),
        ),
        json::counts(status_body(config_dir, stored), "port"@, stored.settings.port as int),
        json::has(
            status_body(config_dir, stored),
            "tlsEnabled"@,
            JsonView::Bool(stored.settings.tls_enabled),
        ),
        json::counts(status_body(config_dir, stored), "apiKeys"@, stored.keys.len() as int),
        stored.session is None ==> json::has(
            status_body(config_dir, stored),
            "loggedIn"@,
            JsonView::Bool(false),
        ) && json::has(status_body(config_dir, stored), "userId"@, JsonView::Null),
        stored.session == Some(session) ==> json::has(
            status_body(config_dir, stored),
            "loggedIn"@,
            JsonView::Bool(session.service_token is Some),
        ) && json::has(
            status_body(config_dir, stored),
            "hasServiceToken"@,
            JsonView::Bool(session.service_token is Some),
        ) && json::has(
            status_body(config_dir, stored),
            "hasPassToken"@,
            JsonView::Bool(session.pass_token is Some),
        ) && (session.user_id matches Some(u) ==> json::has(
            status_body(config_dir, stored),
            "userId"@,
            JsonView::Text(u),
        )),
{
    reveal_strlit("configDir");
    reveal_strlit("adminConfigured");
    reveal_strlit("apiKeyRequired");
    reveal_strlit("port");
    reveal_strlit("tlsEnabled");
    reveal_strlit("loggedIn");
    reveal_strlit("userId");
    reveal_strlit("hasPassToken");
    reveal_strlit("hasServiceToken");
    reveal_strlit("apiKeys");
    assert("configDir"@.len() == 9 && "adminConfigured"@.len() == 15 && "apiKeyRequired"@.len() == 14
        && "port"@.len() == 4 && "tlsEnabled"@.len() == 10 && "loggedIn"@.len() == 8
        && "userId"@.len() == 6 && "hasPassToken"@.len() == 12 && "hasServiceToken"@.len() == 15
        && "apiKeys"@.len() == 7);
    assert("adminConfigured"@[0] == 'a' && "hasServiceToken"@[0] == 'h');
}

/// Who has signed in is told their name and their user, each or none as the login gave them; who
/// asks for a ticket without a login is told to log in first.
pub proof fn logged_in_users_are_told_who_they_are(
    nick: Option<Seq<char>>,
    user_id: Option<Seq<char>>,
    s: Seq<char>,
)
    ensures
        json::has(authenticated_body(nick, user_id), "outcome"@, JsonView::Text("authenticated"@)),
        nick == Some(s) ==> json::has(authenticated_body(nick, user_id), "nick"@, JsonView::Text(s)),
        nick is None ==> json::has(authenticated_body(nick, user_id), "nick"@, JsonView::Null),
        user_id == Some(s) ==> json::has(
            authenticated_body(nick, user_id),
            "userId"@,
            JsonView::Text(s),
        ),
        user_id is None ==> json::has(authenticated_body(nick, user_id), "userId"@, JsonView::Null),
        no_flow().status == 400 && no_flow().set_cookie is None,
{
    reveal_strlit("outcome");
    reveal_strlit("nick");
    reveal_strlit("userId");
    assert("outcome"@.len() == 7 && "nick"@.len() == 4 && "userId"@.len() == 6);
}

/// The usage that is told has the counters of every model under its name, and the totals beside them.
pub proof fn usage_is_told(usage: UsageView, model: Seq<char>)
    requires
        usage::no_repeats(usage.models),
    ensures
        usage_body(usage) matches JsonView::Object(m) && {
            &&& m.contains_key("total"@) && json::counts(
                m["total"@],
                "requests"@,
                usage.total.requests as int,
            )
            &&& json::counts(m["total"@], "prompt_tokens"@, usage.total.prompt_tokens as int)
            &&& json::counts(m["total"@], "completion_tokens"@, usage.total.completion_tokens as int)
            &&& json::counts(m["total"@], "total_tokens"@, usage.total.total_tokens as int)
            &&& json::counts(m["total"@], "errors"@, usage.total.errors as int)
            &&& m.contains_key("models"@) && forall|i: int|
                0 <= i < usage.models.len() && (#[trigger] usage.models[i]).0 == model ==> json::has(
                    m["models"@],
                    model,
                    counters_json(usage.models[i].1),
                )
            &&& (forall|i: int| 0 <= i < usage.models.len() ==> (#[trigger] usage.models[i]).0 != model)
                ==> json::lacks(m["models"@], model)
        },
{
    reveal_strlit("models");
    reveal_strlit("total");
    assert("models"@.len() == 6 && "total"@.len() == 5);
    counters_are_told(usage.total);
    every_model_is_told(usage.models, model);
    usage::lemma_model_at(usage.models, model);
    assert forall|i: int|
        0 <= i < usage.models.len() && (#[trigger] usage.models[i]).0 == model implies json::has(
        JsonView::Object(table_fields(usage.models)),
        model,
        counters_json(usage.models[i].1),
    ) by {
        let at = usage::model_at(usage.models, model);
        if at != i {
            assert(usage.models[at].0 == model);
        }
    }
}

} // verus!
