//! Who may use the control plane and the API: admin sessions and API keys.

use crate::reply::{ApiReply, ApiReplyView};
use crate::state::{BridgeState, StateView};
use crate::outside;
use crate::reply;
use crate::state;
use crate::storage;
use crate::text;
use vstd::prelude::*;

verus! {

// ── callers ─────────────────────────────────────────────────────────
/// Who makes a request: what its headers say, and when it came.
#[derive(Debug)]
pub struct Caller {
    /// The `Cookie` header.
    pub cookie: Option<String>,
    /// The `Authorization` header.
    pub authorization: Option<String>,
    /// The `X-Api-Key` header.
    pub api_key: Option<String>,
    /// Milliseconds since 1970.
    pub now: i64,
}

/// What is known of who makes a request.
#[verifier::ext_equal]
pub struct CallerView {
    pub cookie: Option<Seq<char>>,
    pub authorization: Option<Seq<char>>,
    pub api_key: Option<Seq<char>>,
    pub now: i64,
}

impl View for Caller {
    type V = CallerView;

    open spec fn view(&self) -> CallerView {
        CallerView {
            cookie: text::opt_view(self.cookie),
            authorization: text::opt_view(self.authorization),
            api_key: text::opt_view(self.api_key),
            now: self.now,
        }
    }
}

impl Caller {
    /// Who makes a request that comes in now.
    pub fn arriving(
        cookie: Option<String>,
        authorization: Option<String>,
        api_key: Option<String>,
    ) -> (r: Caller)
        ensures
            r@ == (CallerView {
                cookie: text::opt_view(cookie),
                authorization: text::opt_view(authorization),
                api_key: text::opt_view(api_key),
                now: r@.now,
            }),
    {
        Caller { cookie, authorization, api_key, now: outside::now_millis() }
    }
}

// ── admin sessions: models ──────────────────────────────────────────
/// How long an admin session lasts, in milliseconds.
pub const ADMIN_SESSION_MS: i64 = 43_200_000;

/// Admin sessions: the token, and when it was issued.
pub type Sessions = Seq<(Seq<char>, i64)>;

/// Whether a session issued at some time still lasts.
pub open spec fn is_live(issued: i64, now: i64) -> bool {
    now - issued < ADMIN_SESSION_MS
}

/// The first admin cookie among the parts of a header.
pub open spec fn admin_cookie_in(parts: Seq<Seq<char>>) -> Option<Seq<char>>
    decreases parts.len(),
{
    if parts.len() == 0 {
        None
    } else {
        match text::split_once_of(text::trim_of(parts[0]), '=') {
            Some((name, value)) if name == "mdb_session"@ => Some(value),
            _ => admin_cookie_in(parts.skip(1)),
        }
    }
}

/// The admin token that a `Cookie` header carries.
pub open spec fn admin_token(cookie: Option<Seq<char>>) -> Option<Seq<char>> {
    match cookie {
        Some(raw) => admin_cookie_in(text::split_on(raw, ';')),
        None => None,
    }
}

/// Whether a token is that of a session that lasts.
pub open spec fn opens(sessions: Sessions, token: Seq<char>, now: i64) -> bool {
    exists|i: int|
        0 <= i < sessions.len() && (#[trigger] sessions[i]).0 == token && is_live(
            sessions[i].1,
            now,
        )
}

/// Whether the server can be reached from beyond this machine.
pub open spec fn is_exposed(state: StateView) -> bool {
    state.bound_addr matches Some(addr) && !addr.loopback
}

/// Whether a caller is the admin.
///
/// First run: open only on loopback binds. On exposed binds the setup/login gate stays
/// reachable, everything else is locked until an admin password is created — otherwise anyone on
/// the LAN could claim admin (or drive the account login) first.
pub open spec fn is_admin(state: StateView, caller: CallerView) -> bool {
    if state.storage.settings.admin_password_hash is None {
        !is_exposed(state)
    } else {
        match admin_token(caller.cookie) {
            Some(token) => opens(state.admin_sessions, token, caller.now),
            None => false,
        }
    }
}

/// The sessions that last.
pub open spec fn live_sessions(sessions: Sessions, now: i64) -> Sessions {
    sessions.filter(|s: (Seq<char>, i64)| is_live(s.1, now))
}

/// The sessions of other tokens.
pub open spec fn other_sessions(sessions: Sessions, token: Seq<char>) -> Sessions {
    sessions.filter(|s: (Seq<char>, i64)| s.0 != token)
}

/// The state after a session was issued. Sessions that are over go.
pub open spec fn with_session(state: StateView, token: Seq<char>, now: i64) -> StateView {
    StateView {
        admin_sessions: live_sessions(state.admin_sessions, now).push((token, now)),
        ..state
    }
}

/// The state after a session was revoked.
pub open spec fn without_session(state: StateView, token: Seq<char>) -> StateView {
    StateView { admin_sessions: other_sessions(state.admin_sessions, token), ..state }
}

// ── laws ────────────────────────────────────────────────────────────
proof fn lemma_filter_live(sessions: Sessions, at: i64, token: Seq<char>, now: i64)
    requires
        at <= now,
    ensures
        opens(live_sessions(sessions, at), token, now) == opens(sessions, token, now),
    decreases sessions.len(),
{
    reveal(Seq::filter);
    if sessions.len() > 0 {
        let head = sessions.drop_last();
        let last = sessions.last();
        lemma_filter_live(head, at, token, now);
        lemma_opens_last(sessions, token, now);
        if is_live(last.1, at) {
            let kept = live_sessions(sessions, at);
            assert(kept.drop_last() =~= live_sessions(head, at));
            lemma_opens_last(kept, token, now);
        }
    }
}

proof fn lemma_opens_last(sessions: Sessions, token: Seq<char>, now: i64)
    requires
        sessions.len() > 0,
    ensures
        opens(sessions, token, now) == (opens(sessions.drop_last(), token, now) || (
        sessions.last().0 == token && is_live(sessions.last().1, now))),
{
    let head = sessions.drop_last();
    if opens(sessions, token, now) {
        let i = choose|i: int|
            0 <= i < sessions.len() && (#[trigger] sessions[i]).0 == token && is_live(
                sessions[i].1,
                now,
            );
        if i < head.len() {
            assert(head[i].0 == token && is_live(head[i].1, now));
        }
    }
    if opens(head, token, now) {
        let i = choose|i: int|
            0 <= i < head.len() && (#[trigger] head[i]).0 == token && is_live(head[i].1, now);
        assert(sessions[i].0 == token && is_live(sessions[i].1, now));
    }
    if sessions.last().0 == token && is_live(sessions.last().1, now) {
        assert(sessions[sessions.len() - 1].0 == token);
    }
}

/// The cookie that a client sends back.
pub open spec fn cookie_back(token: Seq<char>) -> Seq<char> {
    "mdb_session="@ + token
}

/// A client that sends an admin token back as its only cookie is known by that token.
pub proof fn tokens_come_back(token: Seq<char>)
    requires
        outside::is_simple_uuid(token),
    ensures
        admin_token(Some(cookie_back(token))) == Some(token),
{
    reveal_strlit("mdb_session=");
    reveal_strlit("mdb_session");
    let raw = cookie_back(token);
    let name = "mdb_session"@;
    assert forall|i: int| 0 <= i < raw.len() implies raw[i] != ';' && !text::is_white(raw[i]) by {
        if i >= "mdb_session="@.len() {
            assert(raw[i] == token[i - "mdb_session="@.len()]);
        }
    }
    text::lemma_find_char_is(raw, ';', raw.len() as int);
    let parts = text::split_on(raw, ';');
    assert(parts =~= seq![raw]);
    assert(parts[0] == raw);
    text::lemma_trim(raw);
    assert(text::is_trimmed(raw));
    assert(raw["mdb_session"@.len() as int] == '=');
    assert forall|i: int| 0 <= i < name.len() implies raw[i] != '=' by {
        assert(raw[i] == name[i]);
    }
    text::lemma_find_char_is(raw, '=', name.len() as int);
    assert(raw.take(name.len() as int) =~= name);
    assert(raw.skip(name.len() as int + 1) =~= token);
}

/// An issued session opens the control plane until it is twelve hours old, and issuing it takes
/// no session away that lasts.
pub proof fn issued_sessions_open(
    state: StateView,
    token: Seq<char>,
    issued: i64,
    other: Seq<char>,
    caller: CallerView,
)
    requires
        outside::is_simple_uuid(token),
        caller.cookie == Some(cookie_back(token)),
        state.storage.settings.admin_password_hash is Some,
    ensures
        caller.now - issued < ADMIN_SESSION_MS ==> is_admin(
            with_session(state, token, issued),
            caller,
        ),
        caller.now - issued >= ADMIN_SESSION_MS && !opens(state.admin_sessions, token, caller.now)
            ==> !is_admin(with_session(state, token, issued), caller),
        issued <= caller.now && opens(state.admin_sessions, other, caller.now) ==> opens(
            with_session(state, token, issued).admin_sessions,
            other,
            caller.now,
        ),
{
    tokens_come_back(token);
    let after = with_session(state, token, issued).admin_sessions;
    assert(after.drop_last() =~= live_sessions(state.admin_sessions, issued));
    lemma_opens_last(after, token, caller.now);
    lemma_opens_last(after, other, caller.now);
    if issued <= caller.now {
        lemma_filter_live(state.admin_sessions, issued, token, caller.now);
        lemma_filter_live(state.admin_sessions, issued, other, caller.now);
    }
}

proof fn lemma_live_sessions(sessions: Sessions, now: i64)
    ensures
        forall|i: int|
            0 <= i < live_sessions(sessions, now).len() ==> is_live(
                (#[trigger] live_sessions(sessions, now)[i]).1,
                now,
            ),
    decreases sessions.len(),
{
    reveal(Seq::filter);
    if sessions.len() > 0 {
        let head = sessions.drop_last();
        lemma_live_sessions(head, now);
        let kept = live_sessions(head, now);
        assert forall|i: int| 0 <= i < live_sessions(sessions, now).len() implies is_live(
            (#[trigger] live_sessions(sessions, now)[i]).1,
            now,
        ) by {
            if i < kept.len() {
                assert(live_sessions(sessions, now)[i] == kept[i]);
            }
        }
    }
}

/// Sessions cannot pile up: right after one was issued, all that are kept still last.
pub proof fn kept_sessions_last(state: StateView, token: Seq<char>, now: i64)
    ensures
        forall|i: int|
            0 <= i < with_session(state, token, now).admin_sessions.len() ==> is_live(
                (#[trigger] with_session(state, token, now).admin_sessions[i]).1,
                now,
            ),
{
    lemma_live_sessions(state.admin_sessions, now);
    let kept = live_sessions(state.admin_sessions, now);
    let after = with_session(state, token, now).admin_sessions;
    assert forall|i: int| 0 <= i < after.len() implies is_live((#[trigger] after[i]).1, now) by {
        if i < kept.len() {
            assert(after[i] == kept[i]);
        }
    }
}

proof fn lemma_filter_other(sessions: Sessions, token: Seq<char>, other: Seq<char>, now: i64)
    ensures
        opens(other_sessions(sessions, token), other, now) == (other != token && opens(
            sessions,
            other,
            now,
        )),
    decreases sessions.len(),
{
    reveal(Seq::filter);
    if sessions.len() > 0 {
        let head = sessions.drop_last();
        lemma_filter_other(head, token, other, now);
        lemma_opens_last(sessions, other, now);
        if sessions.last().0 != token {
            let kept = other_sessions(sessions, token);
            assert(kept.drop_last() =~= other_sessions(head, token));
            lemma_opens_last(kept, other, now);
        }
    }
}

/// A revoked session opens nothing any more; the others go on as before.
pub proof fn revoked_sessions_do_not_open(
    state: StateView,
    token: Seq<char>,
    other: Seq<char>,
    now: i64,
)
    ensures
        !opens(without_session(state, token).admin_sessions, token, now),
        other != token ==> opens(without_session(state, token).admin_sessions, other, now) == opens(
            state.admin_sessions,
            other,
            now,
        ),
{
    lemma_filter_other(state.admin_sessions, token, token, now);
    lemma_filter_other(state.admin_sessions, token, other, now);
}

/// Once an admin password is set, or where the server can be reached from beyond this machine, a
/// caller without a session gets nothing but the login and setup gate.
pub proof fn control_plane_is_locked(state: StateView, path: Seq<char>, caller: CallerView)
    requires
        state.storage.settings.admin_password_hash is Some || is_exposed(state),
        admin_token(caller.cookie) matches Some(token) ==> !opens(
            state.admin_sessions,
            token,
            caller.now,
        ),
    ensures
        guarded(state, path, caller) is None <==> is_open_path(path),
        !is_open_path(path) ==> guarded(state, path, caller) == Some(admin_locked()),
{
}

/// Where API keys are required, a caller gets through just with a key on record.
pub proof fn api_is_locked(state: StateView, caller: CallerView)
    requires
        state.storage.settings.api_key_required,
    ensures
        key_guarded(state, caller) is None <==> (presented(caller) matches Some(key)
            && storage::accepts_key(state.storage.keys, key)),
        presented(caller) is None ==> key_guarded(state, caller) == Some(key_refused()),
{
}

// ── admin sessions ──────────────────────────────────────────────────
/// True when the server is reachable beyond loopback (LAN / 0.0.0.0 bind).
pub fn exposed_non_loopback(state: &BridgeState) -> (r: bool)
    ensures
        r == is_exposed(state@),
{
    match &state.bound_addr {
        Some(addr) => !addr.loopback,
        None => false,
    }
}

/// The admin token that a caller's cookies carry.
pub fn session_cookie(caller: &Caller) -> (r: Option<String>)
    ensures
        text::opt_view(r) == admin_token(caller@.cookie),
{
    let raw = match &caller.cookie {
        Some(raw) => raw,
        None => return None,
    };
    let parts = text::split(raw.as_str(), ';');
    let ghost all = text::split_on(raw@, ';');
    let mut i: usize = 0;
    assert(all.skip(0) =~= all);
    while i < parts.len()
        invariant
            i <= parts@.len(),
            text::views(parts@) == all,
            admin_cookie_in(all) == admin_cookie_in(all.skip(i as int)),
            admin_token(caller@.cookie) == admin_cookie_in(all),
        decreases parts@.len() - i,
    {
        let ghost rest = all.skip(i as int);
        assert(rest[0] == parts@[i as int]@);
        assert(rest.skip(1) =~= all.skip(i + 1));
        let part = text::trim(parts[i].as_str());
        if let Some((name, value)) = text::split_once(part.as_str(), '=') {
            if text::same(name.as_str(), "mdb_session") {
                return Some(value);
            }
        }
        i += 1;
    }
    None
}

/// Whether a session issued at some time still lasts.
fn live(issued: i64, now: i64) -> (r: bool)
    ensures
        r == is_live(issued, now),
{
    (now as i128) - (issued as i128) < ADMIN_SESSION_MS as i128
}

/// Whether a caller is the admin.
pub fn admin_ok(state: &BridgeState, caller: &Caller) -> (r: bool)
    ensures
        r == is_admin(state@, caller@),
{
    if !state.storage.admin_configured() {
        return !exposed_non_loopback(state);
    }
    let token = match session_cookie(caller) {
        Some(token) => token,
        None => return false,
    };
    let ghost sessions = state::admin_views(state.admin_sessions@);
    let mut i: usize = 0;
    while i < state.admin_sessions.len()
        invariant
            i <= state.admin_sessions@.len(),
            sessions == state::admin_views(state.admin_sessions@),
            sessions == state@.admin_sessions,
            is_admin(state@, caller@) == opens(sessions, token@, caller@.now),
            forall|k: int|
                0 <= k < i ==> !((#[trigger] sessions[k]).0 == token@ && is_live(
                    sessions[k].1,
                    caller@.now,
                )),
        decreases state.admin_sessions@.len() - i,
    {
        let known = &state.admin_sessions[i];
        assert(sessions[i as int] == (known.0@, known.1));
        if text::same(known.0.as_str(), token.as_str()) && live(known.1, caller.now) {
            return true;
        }
        i += 1;
    }
    false
}

/// Issues an admin session. Sessions that are over are dropped while at it, so that they cannot
/// pile up.
pub fn issue_admin_session(state: &mut BridgeState, now: i64) -> (r: String)
    ensures
        outside::is_simple_uuid(r@),
        final(state)@ == with_session(old(state)@, r@, now),
{
    let ghost sessions = state::admin_views(state.admin_sessions@);
    let mut kept: Vec<(String, i64)> = Vec::new();
    let mut i: usize = 0;
    proof {
        reveal(Seq::filter);
    }
    assert(sessions.take(0) =~= Seq::<(Seq<char>, i64)>::empty());
    assert(state::admin_views(kept@) =~= live_sessions(sessions.take(0), now));
    while i < state.admin_sessions.len()
        invariant
            i <= state.admin_sessions@.len(),
            sessions == state::admin_views(state.admin_sessions@),
            state::admin_views(kept@) == live_sessions(sessions.take(i as int), now),
        decreases state.admin_sessions@.len() - i,
    {
        let ghost head = sessions.take(i + 1);
        let ghost was = kept@;
        proof {
            reveal(Seq::filter);
            assert(head.drop_last() =~= sessions.take(i as int));
            assert(head.last() == sessions[i as int]);
        }
        let known = &state.admin_sessions[i];
        assert(sessions[i as int] == (known.0@, known.1));
        if live(known.1, now) {
            kept.push((known.0.clone(), known.1));
            assert(state::admin_views(kept@) =~= state::admin_views(was).push(sessions[i as int]));
        }
        i += 1;
    }
    assert(sessions.take(i as int) =~= sessions);
    let token = outside::fresh_uuid();
    let ghost was = kept@;
    kept.push((token.clone(), now));
    assert(state::admin_views(kept@) =~= state::admin_views(was).push((token@, now)));
    state.admin_sessions = kept;
    token
}

/// Revokes the admin sessions of a token.
pub fn revoke_admin_session(state: &mut BridgeState, token: &str)
    ensures
        final(state)@ == without_session(old(state)@, token@),
{
    let ghost sessions = state::admin_views(state.admin_sessions@);
    let mut kept: Vec<(String, i64)> = Vec::new();
    let mut i: usize = 0;
    proof {
        reveal(Seq::filter);
    }
    assert(sessions.take(0) =~= Seq::<(Seq<char>, i64)>::empty());
    assert(state::admin_views(kept@) =~= other_sessions(sessions.take(0), token@));
    while i < state.admin_sessions.len()
        invariant
            i <= state.admin_sessions@.len(),
            sessions == state::admin_views(state.admin_sessions@),
            state::admin_views(kept@) == other_sessions(sessions.take(i as int), token@),
        decreases state.admin_sessions@.len() - i,
    {
        let ghost head = sessions.take(i + 1);
        let ghost was = kept@;
        proof {
            reveal(Seq::filter);
            assert(head.drop_last() =~= sessions.take(i as int));
            assert(head.last() == sessions[i as int]);
        }
        let known = &state.admin_sessions[i];
        assert(sessions[i as int] == (known.0@, known.1));
        if !text::same(known.0.as_str(), token) {
            kept.push((known.0.clone(), known.1));
            assert(state::admin_views(kept@) =~= state::admin_views(was).push(sessions[i as int]));
        }
        i += 1;
    }
    assert(sessions.take(i as int) =~= sessions);
    state.admin_sessions = kept;
}

// ── guards ──────────────────────────────────────────────────────────
/// Whether a path must stay reachable without an admin session.
pub open spec fn is_open_path(path: Seq<char>) -> bool {
    ||| path == "/api/admin/session"@
    ||| path == "/api/admin/setup"@
    ||| path == "/api/admin/login"@
}

/// Paths that must stay reachable without an admin session.
pub fn admin_open_path(path: &str) -> (r: bool)
    ensures
        r == is_open_path(path@),
{
    text::same(path, "/api/admin/session") || text::same(path, "/api/admin/setup") || text::same(
        path,
        "/api/admin/login",
    )
}

/// The reply to a caller who is not the admin.
pub open spec fn admin_locked() -> ApiReplyView {
    reply::error_of(401, "admin session required — unlock the WebUI first"@, "unauthorized"@)
}

/// The reply that keeps a caller out of the control plane, if one does.
pub open spec fn guarded(state: StateView, path: Seq<char>, caller: CallerView) -> Option<
    ApiReplyView,
> {
    if is_open_path(path) || is_admin(state, caller) {
        None
    } else {
        Some(admin_locked())
    }
}

/// What an optional reply is.
pub open spec fn opt_reply(r: Option<ApiReply>) -> Option<ApiReplyView> {
    match r {
        Some(reply) => Some(reply@),
        None => None,
    }
}

/// Once an admin password is set (or the bind is exposed beyond loopback),
/// everything under /api (except the login/setup gate itself) requires a
/// valid mdb_session cookie. Nothing means that the caller may go on.
pub fn admin_guard(state: &BridgeState, path: &str, caller: &Caller) -> (r: Option<ApiReply>)
    ensures
        opt_reply(r) == guarded(state@, path@, caller@),
{
    if admin_open_path(path) || admin_ok(state, caller) {
        return None;
    }
    Some(
        reply::error_reply(401, "admin session required — unlock the WebUI first", "unauthorized"),
    )
}

/// The API key that a caller presents: a bearer token, or else the key header.
pub open spec fn presented(caller: CallerView) -> Option<Seq<char>> {
    let bearer = match caller.authorization {
        Some(a) => text::after_prefix(a, "Bearer "@),
        None => None,
    };
    match bearer {
        Some(b) => Some(text::trim_of(b)),
        None => caller.api_key,
    }
}

/// The reply to a caller without a good API key.
pub open spec fn key_refused() -> ApiReplyView {
    reply::error_of(401, "missing or invalid API key"@, "invalid_api_key"@)
}

/// The reply that keeps a caller out of the API, if one does.
pub open spec fn key_guarded(state: StateView, caller: CallerView) -> Option<ApiReplyView> {
    if !state.storage.settings.api_key_required {
        None
    } else {
        match presented(caller) {
            Some(key) if storage::accepts_key(state.storage.keys, key) => None,
            _ => Some(key_refused()),
        }
    }
}

/// The API key that a caller presents.
pub fn presented_key(caller: &Caller) -> (r: Option<String>)
    ensures
        text::opt_view(r) == presented(caller@),
{
    if let Some(a) = &caller.authorization {
        if let Some(b) = text::strip(a.as_str(), "Bearer ") {
            return Some(text::trim(b.as_str()));
        }
    }
    caller.api_key.clone()
}

/// Where API keys are required, the API asks for one that is on record. Nothing means that the
/// caller may go on.
pub fn api_key_guard(state: &BridgeState, caller: &Caller) -> (r: Option<ApiReply>)
    ensures
        opt_reply(r) == key_guarded(state@, caller@),
{
    if !state.storage.settings().api_key_required {
        return None;
    }
    if let Some(key) = presented_key(caller) {
        if state.storage.verify_api_key(key.as_str()) {
            return None;
        }
    }
    Some(reply::error_reply(401, "missing or invalid API key", "invalid_api_key"))
}

proof fn lemma_admin_cookie_concat(a: Seq<Seq<char>>, b: Seq<Seq<char>>)
    ensures
        admin_cookie_in(a + b) == (match admin_cookie_in(a) {
            Some(t) => Some(t),
            None => admin_cookie_in(b),
        }),
    decreases a.len(),
{
    if a.len() == 0 {
        assert(a + b =~= b);
    } else {
        assert((a + b).skip(1) =~= a.skip(1) + b);
        lemma_admin_cookie_concat(a.skip(1), b);
    }
}

/// A client is known by its admin token whatever other cookies it sends, before it or after it.
pub proof fn tokens_come_back_among_others(before: Seq<char>, token: Seq<char>, rest: Seq<char>)
    requires
        outside::is_simple_uuid(token),
        admin_token(Some(before)) is None,
        rest.len() > 0 ==> rest[0] == ';',
    ensures
        admin_token(Some(before + "; mdb_session="@ + token + rest)) == Some(token),
        admin_token(Some("mdb_session="@ + token + rest)) == Some(token),
        admin_token(None) is None,
{
    reveal_strlit("; mdb_session=");
    reveal_strlit("mdb_session=");
    reveal_strlit("mdb_session");
    tokens_come_back(token);
    let head = cookie_back(token);
    let name = "mdb_session"@;
    assert forall|i: int| 0 <= i < head.len() implies head[i] != ';' && !text::is_white(head[i]) by {
        if i >= "mdb_session="@.len() {
            assert(head[i] == token[i - "mdb_session="@.len()]);
        }
    }
    let padded = seq![' '] + head;
    assert forall|i: int| 0 <= i < padded.len() implies padded[i] != ';' by {
        if i > 0 {
            assert(padded[i] == head[i - 1]);
        }
    }
    lemma_own_part(head, rest);
    lemma_own_part(padded, rest);
    assert(padded.skip(1) =~= head);
    text::lemma_trim(head);
    assert(text::trim_start_of(head) == head);
    assert(text::trim_of(padded) == head);
    assert(text::trim_of(head) == head);
    assert(head[name.len() as int] == '=');
    assert forall|i: int| 0 <= i < name.len() implies head[i] != '=' by {
        assert(head[i] == name[i]);
    }
    text::lemma_find_char_is(head, '=', name.len() as int);
    assert(head.take(name.len() as int) =~= name);
    assert(head.skip(name.len() as int + 1) =~= token);
    let all = before + "; mdb_session="@ + token + rest;
    assert(all =~= before + seq![';'] + (padded + rest));
    text::lemma_split_concat(before, padded + rest, ';');
    lemma_admin_cookie_concat(text::split_on(before, ';'), text::split_on(padded + rest, ';'));
    assert("mdb_session="@ + token + rest =~= head + rest);
}

/// A part of a cookie header stands on its own.
proof fn lemma_own_part(head: Seq<char>, rest: Seq<char>)
    requires
        forall|i: int| 0 <= i < head.len() ==> head[i] != ';',
        rest.len() > 0 ==> rest[0] == ';',
    ensures
        text::split_on(head + rest, ';').len() > 0,
        text::split_on(head + rest, ';')[0] == head,
{
    assert(!head.contains(';'));
    crate::cookies::lemma_first_piece(head, rest);
}

/// Issuing a session opens nothing for other tokens.
pub proof fn lemma_issued_others(state: StateView, token: Seq<char>, other: Seq<char>, now: i64)
    requires
        other != token,
    ensures
        opens(with_session(state, token, now).admin_sessions, other, now) == opens(
            state.admin_sessions,
            other,
            now,
        ),
{
    let after = with_session(state, token, now).admin_sessions;
    assert(after.drop_last() =~= live_sessions(state.admin_sessions, now));
    lemma_opens_last(after, other, now);
    lemma_filter_live(state.admin_sessions, now, other, now);
}

/// Who the admin is. With a password set it is whoever carries the token of a session that is less
/// than twelve hours old, and nobody else. Before that it is whoever reaches a server that only
/// this machine can reach; on one that others can reach it is nobody.
pub proof fn admins_are_known(
    state: StateView,
    caller: CallerView,
    token: Seq<char>,
    i: int,
)
    ensures
        state.storage.settings.admin_password_hash is Some && admin_token(caller.cookie) == Some(token)
            && 0 <= i < state.admin_sessions.len() && state.admin_sessions[i].0 == token && caller.now
            - state.admin_sessions[i].1 < 43_200_000 ==> is_admin(state, caller),
        state.storage.settings.admin_password_hash is Some && admin_token(caller.cookie) is None
            ==> !is_admin(state, caller),
        state.storage.settings.admin_password_hash is Some && admin_token(caller.cookie) == Some(token)
            && (forall|k: int|
            0 <= k < state.admin_sessions.len() ==> (#[trigger] state.admin_sessions[k]).0 != token
                || caller.now - state.admin_sessions[k].1 >= 43_200_000) ==> !is_admin(state, caller),
        state.storage.settings.admin_password_hash is None && state.bound_addr is None ==> is_admin(
            state,
            caller,
        ),
        state.storage.settings.admin_password_hash is None && (state.bound_addr matches Some(addr)
            && addr.loopback) ==> is_admin(state, caller),
        state.storage.settings.admin_password_hash is None && (state.bound_addr matches Some(addr)
            && !addr.loopback) ==> !is_admin(state, caller),
{
}

/// Asking how things stand, setting the first password and signing in are open to everybody, and
/// everything else is open to the admin alone.
pub proof fn only_signing_in_is_open(state: StateView, path: Seq<char>, caller: CallerView)
    ensures
        path == "/api/admin/session"@ || path == "/api/admin/setup"@ || path == "/api/admin/login"@
            ==> guarded(state, path, caller) is None,
        is_admin(state, caller) ==> guarded(state, path, caller) is None,
        !is_admin(state, caller) && path != "/api/admin/session"@ && path != "/api/admin/setup"@
            && path != "/api/admin/login"@ ==> (guarded(state, path, caller) matches Some(reply)
            && reply.status == 401 && reply.set_cookie is None),
{
}

/// The API asks for a key just where keys are required: a bearer token counts, without the white
/// space around it, and else the key header. A key that is on record lets its caller through,
/// and no other does.
pub proof fn keys_let_callers_through(state: StateView, caller: CallerView, key: Seq<char>)
    ensures
        !state.storage.settings.api_key_required ==> key_guarded(state, caller) is None,
        caller.authorization == Some("Bearer "@ + key) && text::is_trimmed(key) ==> presented(caller)
            == Some(key),
        caller.authorization is None ==> presented(caller) == caller.api_key,
        state.storage.settings.api_key_required && caller.authorization is None && caller.api_key
            == Some(key) ==> (key_guarded(state, caller) is None <==> storage::accepts_key(
            state.storage.keys,
            key,
        )),
        state.storage.settings.api_key_required && caller.authorization == Some("Bearer "@ + key)
            && text::is_trimmed(key) ==> (key_guarded(state, caller) is None
            <==> storage::accepts_key(state.storage.keys, key)),
        state.storage.settings.api_key_required && caller.authorization is None && caller.api_key is None
            ==> key_guarded(state, caller) is Some,
        key_guarded(state, caller) matches Some(reply) ==> reply.status == 401,
{
    let header = "Bearer "@ + key;
    assert(header.take("Bearer "@.len() as int) =~= "Bearer "@);
    assert(header.skip("Bearer "@.len() as int) =~= key);
    text::lemma_trim(key);
}

} // verus!
