//! Account sessions: what they hold, and how they are read from what the identity server sends.

use crate::cookies::Jar;
use crate::json::{Json, JsonView};
use crate::cookies;
use crate::json;
use crate::outside;
use crate::text;
use vstd::prelude::*;

verus! {

pub const SID: &'static str = "mimopc";

pub const API_BASE: &'static str = "https://mimo-server-cn.xiaomimimo.com/api";

pub const CHAT_PATH: &'static str = "/route/chat/completions";

pub const ME_PATH: &'static str = "/user/xiaomi/me";

pub const SOURCE: &'static str = "mimocode-cli-free";

pub const ACCOUNT: &'static str = "https://account.xiaomi.com";

pub const AUTH2: &'static str = "https://account.xiaomi.com/pass/serviceLoginAuth2";

pub const SERVICE_LOGIN: &'static str = "https://account.xiaomi.com/pass/serviceLogin";

/// Dalvik UA: works for password and second-factor requests.
pub const LOGIN_UA: &'static str =
    "Dalvik/2.1.0 (Linux; U; Android 16; 2509FPN0BC Build/BP2A.250605.031.A3)";

/// PC-like UA for token and business requests.
pub const PC_UA: &'static str =
    "Mozilla/5.0 (Windows NT 10.0; Win64; x64) AppleWebKit/537.36 (KHTML, like Gecko) XiaomiMiMo/1.0 Chrome/144.0.0.0 Safari/537.36";

/// What the identity server puts before its JSON.
pub const START_MARK: &'static str = "&&&START&&&";

// ── sessions ────────────────────────────────────────────────────────
/// An account session.
#[derive(Debug)]
pub struct Session {
    pub user_id: Option<String>,
    pub c_user_id: Option<String>,
    pub pass_token: Option<String>,
    pub ssecurity: Option<String>,
    pub service_token: Option<String>,
    pub nick: Option<String>,
    pub refreshed_at: Option<i64>,
}

/// What a session is.
#[verifier::ext_equal]
pub struct SessionView {
    pub user_id: Option<Seq<char>>,
    pub c_user_id: Option<Seq<char>>,
    pub pass_token: Option<Seq<char>>,
    pub ssecurity: Option<Seq<char>>,
    pub service_token: Option<Seq<char>>,
    pub nick: Option<Seq<char>>,
    pub refreshed_at: Option<i64>,
}

impl View for Session {
    type V = SessionView;

    open spec fn view(&self) -> SessionView {
        SessionView {
            user_id: text::opt_view(self.user_id),
            c_user_id: text::opt_view(self.c_user_id),
            pass_token: text::opt_view(self.pass_token),
            ssecurity: text::opt_view(self.ssecurity),
            service_token: text::opt_view(self.service_token),
            nick: text::opt_view(self.nick),
            refreshed_at: self.refreshed_at,
        }
    }
}

impl SessionView {
    /// The cookies that a business request carries.
    pub open spec fn business_parts(self) -> Seq<Seq<char>> {
        (match self.service_token {
            Some(t) => seq!["serviceToken="@ + t, SID@ + "_serviceToken="@ + t],
            None => Seq::empty(),
        }) + (match self.user_id {
            Some(u) => seq!["userId="@ + u],
            None => Seq::empty(),
        }) + (match self.c_user_id {
            Some(c) => seq!["cUserId="@ + c],
            None => Seq::empty(),
        })
    }

    /// The `Cookie` header of a business request.
    pub open spec fn business_cookie(self) -> Seq<char> {
        text::joined(self.business_parts(), "; "@)
    }
}

impl Clone for Session {
    fn clone(&self) -> (r: Session)
        ensures
            r == *self,
    {
        Session {
            user_id: self.user_id.clone(),
            c_user_id: self.c_user_id.clone(),
            pass_token: self.pass_token.clone(),
            ssecurity: self.ssecurity.clone(),
            service_token: self.service_token.clone(),
            nick: self.nick.clone(),
            refreshed_at: self.refreshed_at,
        }
    }
}

impl Default for Session {
    fn default() -> (r: Session)
        ensures
            r@ == empty_session(),
    {
        Session::empty()
    }
}

impl Session {
    /// A session that holds nothing.
    pub fn empty() -> (r: Session)
        ensures
            r@ == empty_session(),
    {
        Session {
            user_id: None,
            c_user_id: None,
            pass_token: None,
            ssecurity: None,
            service_token: None,
            nick: None,
            refreshed_at: None,
        }
    }

    pub fn is_authenticated(&self) -> (r: bool)
        ensures
            r == self@.service_token is Some,
    {
        self.service_token.is_some()
    }

    pub fn business_cookie(&self) -> (r: String)
        ensures
            r@ == self@.business_cookie(),
    {
        let mut parts: Vec<String> = Vec::new();
        if let Some(t) = &self.service_token {
            parts.push(text::cat2("serviceToken=", t.as_str()));
            parts.push(text::cat3(SID, "_serviceToken=", t.as_str()));
        }
        if let Some(u) = &self.user_id {
            parts.push(text::cat2("userId=", u.as_str()));
        }
        if let Some(c) = &self.c_user_id {
            parts.push(text::cat2("cUserId=", c.as_str()));
        }
        assert(text::views(parts@) =~= self@.business_parts());
        text::join(&parts, "; ")
    }
}

pub open spec fn empty_session() -> SessionView {
    SessionView {
        user_id: None,
        c_user_id: None,
        pass_token: None,
        ssecurity: None,
        service_token: None,
        nick: None,
        refreshed_at: None,
    }
}

/// What a user signs in with.
#[derive(Debug)]
pub struct LoginRequest {
    pub account: String,
    pub password: String,
    pub captcha: Option<String>,
}

impl Clone for LoginRequest {
    fn clone(&self) -> (r: LoginRequest)
        ensures
            r == *self,
    {
        LoginRequest {
            account: self.account.clone(),
            password: self.password.clone(),
            captcha: self.captcha.clone(),
        }
    }
}

/// How a sign-in ended.
#[derive(Debug)]
pub enum LoginOutcome {
    Authenticated { nick: Option<String>, user_id: Option<String> },
    TwoFactorRequired { options: Vec<i32> },
    CaptchaRequired { captcha_url: String },
    Failed { code: i64, description: String },
}

/// What the ending of a sign-in is.
pub enum OutcomeView {
    Authenticated { nick: Option<Seq<char>>, user_id: Option<Seq<char>> },
    TwoFactorRequired { options: Seq<i32> },
    CaptchaRequired { captcha_url: Seq<char> },
    Failed { code: i64, description: Seq<char> },
}

impl View for LoginOutcome {
    type V = OutcomeView;

    open spec fn view(&self) -> OutcomeView {
        match *self {
            LoginOutcome::Authenticated { nick, user_id } => OutcomeView::Authenticated {
                nick: text::opt_view(nick),
                user_id: text::opt_view(user_id),
            },
            LoginOutcome::TwoFactorRequired { options } => OutcomeView::TwoFactorRequired {
                options: options@,
            },
            LoginOutcome::CaptchaRequired { captcha_url } => OutcomeView::CaptchaRequired {
                captcha_url: captcha_url@,
            },
            LoginOutcome::Failed { code, description } => OutcomeView::Failed {
                code,
                description: description@,
            },
        }
    }
}

impl Clone for LoginOutcome {
    fn clone(&self) -> (r: LoginOutcome)
        ensures
            r@ == self@,
    {
        match self {
            LoginOutcome::Authenticated { nick, user_id } => LoginOutcome::Authenticated {
                nick: nick.clone(),
                user_id: user_id.clone(),
            },
            LoginOutcome::TwoFactorRequired { options } => LoginOutcome::TwoFactorRequired {
                options: copy_options(options),
            },
            LoginOutcome::CaptchaRequired { captcha_url } => LoginOutcome::CaptchaRequired {
                captcha_url: captcha_url.clone(),
            },
            LoginOutcome::Failed { code, description } => LoginOutcome::Failed {
                code: *code,
                description: description.clone(),
            },
        }
    }
}

/// In-flight second-factor context shared across send and verify.
#[derive(Debug)]
pub struct TwoFactorFlow {
    pub options: Vec<i32>,
    pub account: String,
    pub password_hash: String,
    /// Cookie header accumulated from the sign-in requests.
    pub cookie_header: String,
}

/// What a second-factor context is.
pub struct TwoFactorView {
    pub options: Seq<i32>,
    pub account: Seq<char>,
    pub password_hash: Seq<char>,
    pub cookie_header: Seq<char>,
}

impl View for TwoFactorFlow {
    type V = TwoFactorView;

    open spec fn view(&self) -> TwoFactorView {
        TwoFactorView {
            options: self.options@,
            account: self.account@,
            password_hash: self.password_hash@,
            cookie_header: self.cookie_header@,
        }
    }
}

impl Clone for TwoFactorFlow {
    fn clone(&self) -> (r: TwoFactorFlow)
        ensures
            r@ == self@,
    {
        TwoFactorFlow {
            options: copy_options(&self.options),
            account: self.account.clone(),
            password_hash: self.password_hash.clone(),
            cookie_header: self.cookie_header.clone(),
        }
    }
}

/// The same second-factor options once more.
pub fn copy_options(options: &Vec<i32>) -> (r: Vec<i32>)
    ensures
        r@ == options@,
{
    let r = options.clone();
    assert(r@ =~= options@);
    r
}

// ── digests and signatures ──────────────────────────────────────────
/// The upper-case hexadecimal MD5 digest of a text.
pub open spec fn md5_upper_of(s: Seq<char>) -> Seq<char> {
    outside::hex_upper_text(outside::md5_of(vstd::utf8::encode_utf8(s)))
}

pub fn md5_upper(input: &str) -> (r: String)
    ensures
        r@ == md5_upper_of(input@),
{
    outside::hex_encode_upper(outside::md5_digest(input.as_bytes()).as_slice())
}

/// The identifier that a device of this user always presents.
pub open spec fn device_id_of(user_id: Option<Seq<char>>) -> Seq<char> {
    let seed = match user_id {
        Some(u) => u,
        None => "anonymous"@,
    };
    let digest = outside::md5_of(vstd::utf8::encode_utf8("mimo-desktop-bridge:"@ + seed));
    "pc_"@ + outside::hex_text(digest).take(16)
}

pub fn stable_device_id(user_id: Option<&str>) -> (r: String)
    ensures
        r@ == device_id_of(text::opt_str_view(user_id)),
{
    let seed = match user_id {
        Some(u) => u,
        None => "anonymous",
    };
    let digest = outside::md5_digest(text::cat2("mimo-desktop-bridge:", seed).as_str().as_bytes());
    let digits = outside::hex_encode(digest.as_slice());
    text::cat2("pc_", text::first_chars(digits.as_str(), 16).as_str())
}

/// The base64 text of the SHA-1 digest of a text.
pub open spec fn sha1_base64_of(s: Seq<char>) -> Seq<char> {
    outside::base64_text(outside::sha1_of(vstd::utf8::encode_utf8(s)))
}

pub fn sha1_base64(s: &str) -> (r: String)
    ensures
        r@ == sha1_base64_of(s@),
{
    outside::base64_encode(outside::sha1_digest(s.as_bytes()).as_slice())
}

/// Whether a byte stands for itself in an encoded form value.
pub open spec fn unreserved(b: u8) -> bool {
    ||| 48 <= b <= 57
    ||| 65 <= b <= 90
    ||| 97 <= b <= 122
    ||| b == 45
    ||| b == 95
    ||| b == 46
    ||| b == 126
}

/// A byte in an encoded form value.
pub open spec fn form_byte(b: u8) -> Seq<char> {
    if unreserved(b) {
        seq![b as char]
    } else {
        seq!['%', outside::hex_upper(b as int / 16), outside::hex_upper(b as int % 16)]
    }
}

/// Bytes as an encoded form value.
pub open spec fn form_text(bytes: Seq<u8>) -> Seq<char>
    decreases bytes.len(),
{
    if bytes.len() == 0 {
        Seq::empty()
    } else {
        form_text(bytes.drop_last()) + form_byte(bytes.last())
    }
}

fn upper_digit(d: u8) -> (r: char)
    requires
        d < 16,
    ensures
        r == outside::hex_upper(d as int),
{
    if d < 10 {
        (48 + d) as char
    } else {
        (55 + d) as char
    }
}

pub fn url_form_encode(s: &str) -> (r: String)
    ensures
        r@ == form_text(vstd::utf8::encode_utf8(s@)),
{
    let bytes = s.as_bytes();
    let mut out = String::new();
    let mut i: usize = 0;
    while i < bytes.len()
        invariant
            i <= bytes@.len(),
            bytes@ == vstd::utf8::encode_utf8(s@),
            out@ == form_text(bytes@.take(i as int)),
        decreases bytes@.len() - i,
    {
        let b: u8 = bytes[i];
        let ghost before = out@;
        assert(bytes@.take(i + 1).drop_last() =~= bytes@.take(i as int));
        if (48 <= b && b <= 57) || (65 <= b && b <= 90) || (97 <= b && b <= 122) || b == 45 || b
            == 95 || b == 46 || b == 126 {
            out.push(b as char);
        } else {
            out.push('%');
            out.push(upper_digit(b / 16));
            out.push(upper_digit(b % 16));
        }
        assert(out@ =~= before + form_byte(b));
        i += 1;
    }
    assert(bytes@.take(i as int) =~= bytes@);
    out
}

// ── reading replies ─────────────────────────────────────────────────
/// A reply without the marks that the identity server puts before its JSON.
pub open spec fn unmarked(s: Seq<char>) -> Seq<char>
    decreases s.len(),
{
    if START_MARK@.len() > 0 && text::begins_with(s, START_MARK@) {
        unmarked(s.skip(START_MARK@.len() as int))
    } else {
        s
    }
}

pub fn strip_prefix(body: &str) -> (r: &str)
    ensures
        r@ == unmarked(body@),
{
    proof {
        reveal_strlit("&&&START&&&");
    }
    let chars = text::chars_of(body);
    let mark = text::chars_of(START_MARK);
    let mut from: usize = 0;
    assert(body@.skip(0) =~= body@);
    while text::stands_at(&chars, from, &mark)
        invariant
            chars@ == body@,
            mark@ == START_MARK@,
            mark@.len() > 0,
            from <= chars.len(),
            unmarked(body@) == unmarked(body@.skip(from as int)),
        decreases chars@.len() - from,
    {
        assert(body@.skip(from as int).skip(mark@.len() as int) =~= body@.skip(from + mark@.len()));
        from += mark.len();
    }
    assert(body@.skip(from as int) =~= body@.subrange(from as int, body@.len() as int));
    body.substring_char(from, chars.len())
}

/// Whether a character is a decimal digit.
pub open spec fn is_digit(c: char) -> bool {
    '0' <= c <= '9'
}

/// How many decimal digits a text begins with.
pub open spec fn digits_at_start(s: Seq<char>) -> int
    decreases s.len(),
{
    if s.len() > 0 && is_digit(s[0]) {
        1 + digits_at_start(s.skip(1))
    } else {
        0
    }
}

/// The decimal number, with or without a minus sign, that a text begins with.
pub open spec fn leading_number(s: Seq<char>) -> Option<Seq<char>> {
    if s.len() > 0 && s[0] == '-' {
        let n = digits_at_start(s.skip(1));
        if n == 0 {
            None
        } else {
            Some(s.take(1 + n))
        }
    } else {
        let n = digits_at_start(s);
        if n == 0 {
            None
        } else {
            Some(s.take(n))
        }
    }
}

/// The number that follows the first `"key"` and the colon after it.
pub open spec fn raw_number_of(s: Seq<char>, key: Seq<char>) -> Option<Seq<char>> {
    let quoted = "\""@ + key + "\""@;
    match text::find_of(s, quoted) {
        Some(at) => match text::split_once_of(s.skip(at + quoted.len()), ':') {
            Some(p) => leading_number(text::trim_start_of(p.1)),
            None => None,
        },
        None => None,
    }
}

/// Extract a large integer (nonce) from raw JSON text: a JSON number may lose precision.
pub fn extract_raw_number(json_str: &str, key: &str) -> (r: Option<String>)
    ensures
        text::opt_view(r) == raw_number_of(json_str@, key@),
{
    let quoted = text::cat3("\"", key, "\"");
    let at = match text::find(json_str, quoted.as_str()) {
        Some(at) => at,
        None => {
            return None;
        },
    };
    let after = text::from_char(json_str, at + text::chars_of(quoted.as_str()).len());
    let tail = match text::split_once(after.as_str(), ':') {
        Some(p) => text::trim_start(p.1.as_str()),
        None => {
            return None;
        },
    };
    let chars = text::chars_of(tail.as_str());
    let sign: usize = if chars.len() > 0 && chars[0] == '-' {
        1
    } else {
        0
    };
    let ghost rest = tail@.skip(sign as int);
    let mut end: usize = sign;
    assert(rest.skip(0) =~= rest);
    assert(tail@.skip(0) =~= tail@);
    while end < chars.len() && '0' <= chars[end] && chars[end] <= '9'
        invariant
            chars@ == tail@,
            sign <= end <= chars@.len(),
            rest == tail@.skip(sign as int),
            digits_at_start(rest) == end - sign + digits_at_start(rest.skip(end - sign)),
        decreases chars@.len() - end,
    {
        assert(rest.skip(end - sign)[0] == chars@[end as int]);
        assert(rest.skip(end - sign).skip(1) =~= rest.skip(end - sign + 1));
        end += 1;
    }
    if end < chars.len() {
        assert(rest.skip(end - sign)[0] == chars@[end as int]);
    }
    if end == sign {
        return None;
    }
    assert(tail@.take(end as int) =~= chars@.subrange(0, end as int));
    Some(text::string_of(&chars, 0, end))
}

/// A member of a reply as text: a string that is not empty, or the digits of a number.
pub open spec fn plucked(body: JsonView, key: Seq<char>) -> Option<Seq<char>> {
    match body.field(key) {
        Some(JsonView::Text(s)) => if s.len() > 0 {
            Some(s)
        } else {
            None
        },
        Some(JsonView::Number(n)) => Some(json::number_chars(n)),
        _ => None,
    }
}

fn pluck(body: &Json, key: &str) -> (r: Option<String>)
    ensures
        text::opt_view(r) == plucked(body@, key@),
{
    match body.get(key) {
        Some(v) => match v.as_str() {
            Some(s) => if s.is_empty() {
                None
            } else {
                Some(s.to_string())
            },
            None => v.number_text(),
        },
        None => None,
    }
}

/// The session that a sign-in reply describes.
pub open spec fn session_of_body(body: JsonView) -> SessionView {
    SessionView {
        user_id: plucked(body, "userId"@),
        c_user_id: plucked(body, "cUserId"@),
        pass_token: plucked(body, "passToken"@),
        ssecurity: plucked(body, "ssecurity"@),
        service_token: None,
        nick: match plucked(body, "nick"@) {
            Some(n) if n.len() > 0 => Some(n),
            _ => plucked(body, "nickName"@),
        },
        refreshed_at: None,
    }
}

pub fn parse_session_fields(body: &Json) -> (r: Session)
    ensures
        r@ == session_of_body(body@),
{
    let nick = match pluck(body, "nick") {
        Some(n) => if n.as_str().is_empty() {
            pluck(body, "nickName")
        } else {
            Some(n)
        },
        None => pluck(body, "nickName"),
    };
    Session {
        user_id: pluck(body, "userId"),
        c_user_id: pluck(body, "cUserId"),
        pass_token: pluck(body, "passToken"),
        ssecurity: pluck(body, "ssecurity"),
        nick,
        service_token: None,
        refreshed_at: None,
    }
}

/// A text, unless it is empty.
pub open spec fn nonempty(s: Option<Seq<char>>) -> Option<Seq<char>> {
    match s {
        Some(v) if v.len() > 0 => Some(v),
        _ => None,
    }
}

/// The first cookie of two names that is there, unless its value is empty.
pub open spec fn first_cookie(jar: crate::cookies::Jar, name: Seq<char>, other: Seq<char>) -> Option<
    Seq<char>,
> {
    match cookies::jar_get(jar, name) {
        Some(v) => nonempty(Some(v)),
        None => nonempty(cookies::jar_get(jar, other)),
    }
}

/// The session that a `Cookie` header describes.
pub open spec fn session_of_cookies(header: Seq<char>) -> SessionView {
    let jar = cookies::jar_of(header);
    SessionView {
        user_id: nonempty(cookies::jar_get(jar, "userId"@)),
        c_user_id: nonempty(cookies::jar_get(jar, "cUserId"@)),
        pass_token: nonempty(cookies::jar_get(jar, "passToken"@)),
        ssecurity: first_cookie(jar, "ssecurity"@, "sSecurity"@),
        service_token: first_cookie(jar, "serviceToken"@, SID@ + "_serviceToken"@),
        nick: None,
        refreshed_at: None,
    }
}

fn unless_empty(s: Option<String>) -> (r: Option<String>)
    ensures
        text::opt_view(r) == nonempty(text::opt_view(s)),
{
    match s {
        Some(v) => if v.as_str().is_empty() {
            None
        } else {
            Some(v)
        },
        None => None,
    }
}

fn pick_cookie(map: &crate::cookies::CookieMap, name: &str, other: &str) -> (r: Option<String>)
    ensures
        text::opt_view(r) == first_cookie(map@, name@, other@),
{
    match map.get(name) {
        Some(v) => unless_empty(Some(v)),
        None => unless_empty(map.get(other)),
    }
}

pub fn session_from_cookies(cookie_header: &str) -> (r: Session)
    ensures
        r@ == session_of_cookies(cookie_header@),
{
    let map = cookies::parse_cookie_header(cookie_header);
    Session {
        pass_token: unless_empty(map.get("passToken")),
        user_id: unless_empty(map.get("userId")),
        c_user_id: unless_empty(map.get("cUserId")),
        ssecurity: pick_cookie(&map, "ssecurity", "sSecurity"),
        service_token: pick_cookie(&map, "serviceToken", text::cat2(SID, "_serviceToken").as_str()),
        nick: None,
        refreshed_at: None,
    }
}

/// The first of two that is there.
pub open spec fn either<T>(a: Option<T>, b: Option<T>) -> Option<T> {
    match a {
        Some(v) => Some(v),
        None => b,
    }
}

/// A session, with what it lacks taken from a `Cookie` header.
pub open spec fn merged_session(json: SessionView, header: Seq<char>) -> SessionView {
    let from_cookie = session_of_cookies(header);
    SessionView {
        user_id: either(json.user_id, from_cookie.user_id),
        c_user_id: either(json.c_user_id, from_cookie.c_user_id),
        pass_token: either(json.pass_token, from_cookie.pass_token),
        ssecurity: either(json.ssecurity, from_cookie.ssecurity),
        service_token: either(json.service_token, from_cookie.service_token),
        nick: json.nick,
        refreshed_at: None,
    }
}

fn or(a: Option<String>, b: Option<String>) -> (r: Option<String>)
    ensures
        r == either(a, b),
{
    match a {
        Some(v) => Some(v),
        None => b,
    }
}

pub fn merge_session(json: Session, cookie_header: &str) -> (r: Session)
    ensures
        r@ == merged_session(json@, cookie_header@),
{
    let from_cookie = session_from_cookies(cookie_header);
    Session {
        user_id: or(json.user_id, from_cookie.user_id),
        c_user_id: or(json.c_user_id, from_cookie.c_user_id),
        pass_token: or(json.pass_token, from_cookie.pass_token),
        ssecurity: or(json.ssecurity, from_cookie.ssecurity),
        service_token: or(json.service_token, from_cookie.service_token),
        nick: json.nick,
        refreshed_at: None,
    }
}

/// A location to go to: white space around it dropped, and neither empty nor `null`.
pub open spec fn location_of(s: Option<Seq<char>>) -> Option<Seq<char>> {
    match s {
        Some(l) => if text::trim_of(l).len() > 0 && text::trim_of(l) != "null"@ {
            Some(text::trim_of(l))
        } else {
            None
        },
        None => None,
    }
}

/// Non-empty location string, or None.
pub fn nonempty_loc(s: Option<&str>) -> (r: Option<String>)
    ensures
        text::opt_view(r) == location_of(text::opt_str_view(s)),
{
    match s {
        Some(l) => {
            let l = text::trim(l);
            if l.as_str().is_empty() || text::same(l.as_str(), "null") {
                None
            } else {
                Some(l)
            }
        },
        None => None,
    }
}

/// A token that is neither empty nor marked as expired.
pub open spec fn live_token(s: Option<Seq<char>>) -> Option<Seq<char>> {
    match s {
        Some(t) if t.len() > 0 && t != "EXPIRED"@ => Some(t),
        _ => None,
    }
}

pub fn unless_expired(s: Option<String>) -> (r: Option<String>)
    ensures
        text::opt_view(r) == live_token(text::opt_view(s)),
{
    match s {
        Some(t) => if t.as_str().is_empty() || text::same(t.as_str(), "EXPIRED") {
            None
        } else {
            Some(t)
        },
        None => None,
    }
}

/// The service token that one `Set-Cookie` header sets.
pub open spec fn token_set_by(raw: Seq<char>) -> Option<Seq<char>> {
    let head = text::trim_of(text::split_on(raw, ';')[0]);
    either(
        live_token(text::after_prefix(head, "serviceToken="@)),
        live_token(text::after_prefix(head, SID@ + "_serviceToken="@)),
    )
}

/// The service token that the first of some `Set-Cookie` headers to do so sets.
pub open spec fn token_set_by_first(raws: Seq<Seq<char>>) -> Option<Seq<char>>
    decreases raws.len(),
{
    if raws.len() == 0 {
        None
    } else {
        either(token_set_by(raws[0]), token_set_by_first(raws.skip(1)))
    }
}

pub fn pick_service_token(set_cookies: &Vec<String>) -> (r: Option<String>)
    ensures
        text::opt_view(r) == token_set_by_first(text::views(set_cookies@)),
{
    let mut i: usize = 0;
    let ghost raws = text::views(set_cookies@);
    assert(raws.skip(0) =~= raws);
    while i < set_cookies.len()
        invariant
            i <= set_cookies@.len(),
            raws == text::views(set_cookies@),
            token_set_by_first(raws) == token_set_by_first(raws.skip(i as int)),
        decreases set_cookies@.len() - i,
    {
        let parts = text::split(set_cookies[i].as_str(), ';');
        assert(text::views(parts@)[0] == parts@[0]@);
        assert(raws.skip(i as int)[0] == set_cookies@[i as int]@);
        assert(raws.skip(i as int).skip(1) =~= raws.skip(i + 1));
        let head = text::trim(parts[0].as_str());
        let plain = unless_expired(text::strip(head.as_str(), "serviceToken="));
        if plain.is_some() {
            return plain;
        }
        let named = unless_expired(text::strip(head.as_str(), text::cat2(SID, "_serviceToken=").as_str()));
        if named.is_some() {
            return named;
        }
        i += 1;
    }
    None
}

/// Where tickets of a kind are asked for, and where they are handed in.
pub open spec fn ticket_paths(flag: i32) -> (Seq<char>, Seq<char>) {
    if flag == 4 {
        ("/identity/auth/sendPhoneTicket"@, "/identity/auth/verifyPhone"@)
    } else {
        ("/identity/auth/sendEmailTicket"@, "/identity/auth/verifyEmail"@)
    }
}

pub fn two_factor_paths(flag: i32) -> (r: (&'static str, &'static str))
    ensures
        r.0@ == ticket_paths(flag).0,
        r.1@ == ticket_paths(flag).1,
{
    if flag == 4 {
        ("/identity/auth/sendPhoneTicket", "/identity/auth/verifyPhone")
    } else {
        ("/identity/auth/sendEmailTicket", "/identity/auth/verifyEmail")
    }
}

// ── laws ────────────────────────────────────────────────────────────
/// Whether a text can stand as the value of a cookie.
pub open spec fn fits_cookie(v: Option<Seq<char>>) -> bool {
    v matches Some(s) ==> s.len() > 0 && !s.contains(';') && !text::is_white(s.last())
}

/// The cookies that a business request carries.
pub open spec fn business_jar(session: SessionView) -> Jar {
    (match session.service_token {
        Some(t) => seq![("serviceToken"@, t), (SID@ + "_serviceToken"@, t)],
        None => Seq::empty(),
    }) + (match session.user_id {
        Some(u) => seq![("userId"@, u)],
        None => Seq::empty(),
    }) + (match session.c_user_id {
        Some(c) => seq![("cUserId"@, c)],
        None => Seq::empty(),
    })
}

/// A business request carries the session's token, user and client user, just as they are.
pub proof fn business_cookies_read_back(session: SessionView)
    requires
        fits_cookie(session.service_token),
        fits_cookie(session.user_id),
        fits_cookie(session.c_user_id),
    ensures
        session_of_cookies(session.business_cookie()).service_token == session.service_token,
        cookies::jar_get(cookies::jar_of(session.business_cookie()), "serviceToken"@)
            == session.service_token,
        cookies::jar_get(cookies::jar_of(session.business_cookie()), "mimopc_serviceToken"@)
            == session.service_token,
        session_of_cookies(session.business_cookie()).user_id == session.user_id,
        session_of_cookies(session.business_cookie()).c_user_id == session.c_user_id,
{
    reveal_strlit("serviceToken");
    reveal_strlit("serviceToken=");
    reveal_strlit("mimopc");
    reveal_strlit("_serviceToken");
    reveal_strlit("_serviceToken=");
    reveal_strlit("userId");
    reveal_strlit("userId=");
    reveal_strlit("cUserId");
    reveal_strlit("cUserId=");
    reveal_strlit("=");
    let jar = business_jar(session);
    let parts = session.business_parts();
    let texts = Seq::new(jar.len(), |i: int| cookies::pair_text(jar[i]));
    let long = SID@ + "_serviceToken"@;
    reveal_strlit("mimopc_serviceToken");
    assert("mimopc_serviceToken"@ =~= long);
    assert("serviceToken"@.len() == 12 && long.len() == 19 && "userId"@.len() == 6 && "cUserId"@.len()
        == 7);
    if let Some(t) = session.service_token {
        assert(cookies::pair_text(("serviceToken"@, t)) =~= "serviceToken="@ + t);
        assert(cookies::pair_text((long, t)) =~= SID@ + "_serviceToken="@ + t);
        lemma_cookie_readable("serviceToken"@, t);
        lemma_cookie_readable(long, t);
    }
    if let Some(u) = session.user_id {
        assert(cookies::pair_text(("userId"@, u)) =~= "userId="@ + u);
        lemma_cookie_readable("userId"@, u);
    }
    if let Some(c) = session.c_user_id {
        assert(cookies::pair_text(("cUserId"@, c)) =~= "cUserId="@ + c);
        lemma_cookie_readable("cUserId"@, c);
    }
    assert(texts =~= parts);
    assert(cookies::readable(jar));
    cookies::headers_read_back(jar);
    cookies::lemma_jar_find(jar, "serviceToken"@);
    cookies::lemma_jar_find(jar, long);
    cookies::lemma_jar_find(jar, "userId"@);
    cookies::lemma_jar_find(jar, "cUserId"@);
    let tokens: int = if session.service_token is Some {
        2
    } else {
        0
    };
    if session.service_token is Some {
        assert(jar[0].0 == "serviceToken"@);
        cookies::lemma_jar_find_is(jar, "serviceToken"@, 0);
        assert(jar[1].0 == long);
        cookies::lemma_jar_find_is(jar, long, 1);
    }
    if session.user_id is Some {
        assert(jar[tokens].0 == "userId"@);
        cookies::lemma_jar_find_is(jar, "userId"@, tokens);
    }
    if session.c_user_id is Some {
        assert(jar[jar.len() - 1].0 == "cUserId"@);
        cookies::lemma_jar_find_is(jar, "cUserId"@, jar.len() - 1);
    }
}

pub proof fn lemma_cookie_readable(name: Seq<char>, value: Seq<char>)
    requires
        name.len() > 0,
        !text::is_white(name[0]),
        !name.contains('='),
        !name.contains(';'),
        fits_cookie(Some(value)),
    ensures
        cookies::is_readable((name, value)),
{
    reveal_strlit("=");
    let text = cookies::pair_text((name, value));
    assert(text[0] == name[0]);
    assert(text.last() == value.last());
}

/// No mark is left before the JSON of a reply, however many there were, and nothing else is taken
/// away.
pub proof fn marks_are_stripped(s: Seq<char>)
    ensures
        !text::begins_with(unmarked(s), START_MARK@),
        unmarked(unmarked(s)) == unmarked(s),
        unmarked(START_MARK@ + s) == unmarked(s),
        !text::begins_with(s, START_MARK@) ==> unmarked(s) == s,
    decreases s.len(),
{
    reveal_strlit("&&&START&&&");
    let marked = START_MARK@ + s;
    assert(marked.take(START_MARK@.len() as int) =~= START_MARK@);
    assert(marked.skip(START_MARK@.len() as int) =~= s);
    if text::begins_with(s, START_MARK@) {
        marks_are_stripped(s.skip(START_MARK@.len() as int));
    }
}

/// What stands between a key and its number: a colon, and white space after it.
pub open spec fn keyed(key: Seq<char>, space: Seq<char>) -> Seq<char> {
    "\""@ + key + "\""@ + ":"@ + space
}

/// A number of any length is read with all its digits, where JSON's numbers would lose some.
pub proof fn numbers_keep_every_digit(
    before: Seq<char>,
    key: Seq<char>,
    space: Seq<char>,
    negative: bool,
    digits: Seq<char>,
    after: Seq<char>,
)
    requires
        text::find_of(
            before + keyed(key, space) + signed(negative, digits) + after,
            "\""@ + key + "\""@,
        ) == Some(before.len() as int),
        forall|i: int| 0 <= i < space.len() ==> text::is_white(#[trigger] space[i]),
        digits.len() > 0,
        forall|i: int| 0 <= i < digits.len() ==> is_digit(#[trigger] digits[i]),
        after.len() > 0 ==> !is_digit(after[0]),
    ensures
        raw_number_of(before + keyed(key, space) + signed(negative, digits) + after, key) == Some(
            signed(negative, digits),
        ),
{
    let quoted = "\""@ + key + "\""@;
    let number = signed(negative, digits);
    let s = before + keyed(key, space) + number + after;
    reveal_strlit("\"");
    reveal_strlit(":");
    let rest = s.skip(before.len() as int + quoted.len());
    assert(rest =~= ":"@ + space + number + after);
    text::lemma_find_char_is(rest, ':', 0);
    let tail = number + after;
    assert(rest.skip(1) =~= space + tail);
    assert(is_digit(digits[0]));
    assert(tail[0] == number[0]);
    lemma_skip_space(space, tail);
    lemma_digits(digits, after);
    if negative {
        assert(tail.skip(1) =~= digits + after);
    } else {
        assert(tail =~= digits + after);
    }
    assert(tail.take(number.len() as int) =~= number);
}

/// Digits, with a minus sign before them where the number is negative.
pub open spec fn signed(negative: bool, digits: Seq<char>) -> Seq<char> {
    if negative {
        seq!['-'] + digits
    } else {
        digits
    }
}

proof fn lemma_skip_space(space: Seq<char>, tail: Seq<char>)
    requires
        forall|i: int| 0 <= i < space.len() ==> text::is_white(#[trigger] space[i]),
        tail.len() > 0,
        !text::is_white(tail[0]),
    ensures
        text::trim_start_of(space + tail) == tail,
    decreases space.len(),
{
    let s = space + tail;
    if space.len() == 0 {
        assert(s =~= tail);
    } else {
        assert(s[0] == space[0]);
        assert(text::is_white(space[0]));
        let rest = space.skip(1);
        assert forall|i: int| 0 <= i < rest.len() implies text::is_white(#[trigger] rest[i]) by {
            assert(rest[i] == space[i + 1]);
        }
        lemma_skip_space(rest, tail);
        assert(s.skip(1) =~= rest + tail);
    }
}

proof fn lemma_digits(digits: Seq<char>, after: Seq<char>)
    requires
        forall|i: int| 0 <= i < digits.len() ==> is_digit(#[trigger] digits[i]),
        after.len() > 0 ==> !is_digit(after[0]),
    ensures
        digits_at_start(digits + after) == digits.len(),
    decreases digits.len(),
{
    let s = digits + after;
    if digits.len() == 0 {
        assert(s =~= after);
    } else {
        assert(s[0] == digits[0]);
        assert(is_digit(digits[0]));
        let rest = digits.skip(1);
        assert forall|i: int| 0 <= i < rest.len() implies is_digit(#[trigger] rest[i]) by {
            assert(rest[i] == digits[i + 1]);
        }
        lemma_digits(rest, after);
        assert(s.skip(1) =~= rest + after);
    }
}

/// The value of a hexadecimal digit.
pub open spec fn hex_value(c: char) -> int {
    if '0' <= c <= '9' {
        c as int - 48
    } else {
        c as int - 55
    }
}

/// The bytes that an encoded form value stands for.
pub open spec fn form_bytes(s: Seq<char>) -> Seq<u8>
    decreases s.len(),
{
    if s.len() == 0 {
        Seq::empty()
    } else if s[0] == '%' && s.len() >= 3 {
        seq![(16 * hex_value(s[1]) + hex_value(s[2])) as u8] + form_bytes(s.skip(3))
    } else {
        seq![s[0] as u8] + form_bytes(s.skip(1))
    }
}

proof fn lemma_form_front(b: u8, bytes: Seq<u8>)
    ensures
        form_text(seq![b] + bytes) == form_byte(b) + form_text(bytes),
    decreases bytes.len(),
{
    let all = seq![b] + bytes;
    if bytes.len() == 0 {
        assert(all.drop_last() =~= Seq::<u8>::empty());
        assert(form_text(all.drop_last()) =~= Seq::<char>::empty());
        assert(form_text(all) =~= form_byte(b) + form_text(bytes));
    } else {
        assert(all.drop_last() =~= seq![b] + bytes.drop_last());
        lemma_form_front(b, bytes.drop_last());
        assert(form_text(all) =~= form_byte(b) + form_text(bytes));
    }
}

proof fn lemma_hex_value(d: int)
    requires
        0 <= d < 16,
    ensures
        hex_value(outside::hex_upper(d)) == d,
        outside::hex_upper(d) as u32 <= 255,
        unreserved(outside::hex_upper(d) as u8),
{
}

/// An encoded form value is made of characters that stand for themselves in a URL, and stands for
/// the bytes that were encoded.
pub proof fn form_values_decode(bytes: Seq<u8>)
    ensures
        form_bytes(form_text(bytes)) == bytes,
        forall|i: int|
            0 <= i < form_text(bytes).len() ==> {
                let c = #[trigger] form_text(bytes)[i];
                c == '%' || (c as u32 <= 255 && unreserved(c as u8))
            },
    decreases bytes.len(),
{
    if bytes.len() > 0 {
        let b = bytes[0];
        let rest = bytes.skip(1);
        assert(seq![b] + rest =~= bytes);
        lemma_form_front(b, rest);
        form_values_decode(rest);
        let text = form_text(bytes);
        let first = form_byte(b);
        assert(text.skip(first.len() as int) =~= form_text(rest));
        if unreserved(b) {
            assert(text[0] == b as char);
            assert(text[0] != '%');
            assert(text[0] as u8 == b);
        } else {
            let hi = b as int / 16;
            let lo = b as int % 16;
            assert(text[0] == '%' && text[1] == outside::hex_upper(hi) && text[2] == outside::hex_upper(lo));
            lemma_hex_value(hi);
            lemma_hex_value(lo);
            assert(16 * hi + lo == b);
            assert(unreserved(text[1] as u8) && unreserved(text[2] as u8));
        }
        assert(form_bytes(text) =~= bytes);
        assert forall|i: int| 0 <= i < text.len() implies {
            let c = #[trigger] text[i];
            c == '%' || (c as u32 <= 255 && unreserved(c as u8))
        } by {
            if i >= first.len() {
                assert(text[i] == form_text(rest)[i - first.len()]);
            } else if unreserved(b) {
                assert(text[i] == b as char);
            } else {
                assert(i == 0 || i == 1 || i == 2);
            }
        }
    }
}

/// Whether a session has each field that a sign-in reply tells, with the value that it tells.
pub open spec fn holds_told(session: SessionView, body: JsonView) -> bool {
    &&& forall|s: Seq<char>|
        json::says(body, "userId"@, s) ==> session.user_id == Some(s)
    &&& forall|s: Seq<char>|
        json::says(body, "cUserId"@, s) ==> session.c_user_id == Some(s)
    &&& forall|s: Seq<char>|
        json::says(body, "passToken"@, s) ==> session.pass_token == Some(s)
    &&& forall|s: Seq<char>|
        json::says(body, "ssecurity"@, s) ==> session.ssecurity == Some(s)
    &&& forall|s: Seq<char>|
        json::says(body, "nick"@, s) ==> session.nick == Some(s)
    &&& forall|s: Seq<char>|
        json::says(body, "nickName"@, s) && json::lacks(body, "nick"@) ==> session.nick == Some(s)
    &&& forall|n: int|
        json::counts(body, "userId"@, n) ==> session.user_id == Some(text::int_text(n))
}

/// Whether a cookie of a jar has a value that is not empty.
pub open spec fn jar_says(jar: Jar, name: Seq<char>, value: Seq<char>) -> bool {
    value.len() > 0 && exists|i: int|
        0 <= i < jar.len() && #[trigger] jar[i] == (name, value) && forall|k: int|
            0 <= k < i ==> (#[trigger] jar[k]).0 != name
}

/// Whether a jar has no cookie of a name.
pub open spec fn no_cookie(jar: Jar, name: Seq<char>) -> bool {
    forall|i: int| 0 <= i < jar.len() ==> (#[trigger] jar[i]).0 != name
}

/// Whether a field is what it was before, or else what a cookie says, or nothing where there is none.
pub open spec fn fills(
    field: Option<Seq<char>>,
    before: Option<Seq<char>>,
    jar: Jar,
    name: Seq<char>,
) -> bool {
    &&& before is Some ==> field == before
    &&& forall|s: Seq<char>| before is None && #[trigger] jar_says(jar, name, s) ==> field == Some(s)
    &&& before is None && no_cookie(jar, name) ==> field is None
}

/// The same where a cookie may have another name.
pub open spec fn fills_by_either(
    field: Option<Seq<char>>,
    before: Option<Seq<char>>,
    jar: Jar,
    name: Seq<char>,
    other: Seq<char>,
) -> bool {
    &&& before is Some ==> field == before
    &&& forall|s: Seq<char>| before is None && #[trigger] jar_says(jar, name, s) ==> field == Some(s)
    &&& before is None && no_cookie(jar, name) ==> fills(field, before, jar, other)
}

/// Whether a session is one from before, with what that one lacked taken from cookies.
pub open spec fn filled_in(session: SessionView, before: SessionView, jar: Jar) -> bool {
    &&& fills(session.user_id, before.user_id, jar, "userId"@)
    &&& fills(session.c_user_id, before.c_user_id, jar, "cUserId"@)
    &&& fills(session.pass_token, before.pass_token, jar, "passToken"@)
    &&& fills_by_either(session.ssecurity, before.ssecurity, jar, "ssecurity"@, "sSecurity"@)
    &&& fills_by_either(
        session.service_token,
        before.service_token,
        jar,
        "serviceToken"@,
        "mimopc_serviceToken"@,
    )
    &&& session.nick == before.nick
}

/// Whether a session has what a sign-in reply tells, and of what the reply does not tell what the
/// cookies say.
pub open spec fn made_of(session: SessionView, body: JsonView, jar: Jar) -> bool {
    &&& holds_told(session, body)
    &&& json::lacks(body, "userId"@) ==> fills(session.user_id, None, jar, "userId"@)
    &&& json::lacks(body, "cUserId"@) ==> fills(session.c_user_id, None, jar, "cUserId"@)
    &&& json::lacks(body, "passToken"@) ==> fills(session.pass_token, None, jar, "passToken"@)
    &&& json::lacks(body, "ssecurity"@) ==> fills_by_either(
        session.ssecurity,
        None,
        jar,
        "ssecurity"@,
        "sSecurity"@,
    )
    &&& fills_by_either(
        session.service_token,
        None,
        jar,
        "serviceToken"@,
        "mimopc_serviceToken"@,
    )
    &&& json::lacks(body, "nick"@) && json::lacks(body, "nickName"@) ==> session.nick is None
}

/// A session keeps what it has, and takes only what it lacks from cookies: a cookie never stands
/// for a field that was told, and one that is there fills a field that was not.
pub proof fn cookies_fill_in_what_is_missing(session: SessionView, header: Seq<char>)
    ensures
        session.user_id is Some ==> merged_session(session, header).user_id == session.user_id,
        session.c_user_id is Some ==> merged_session(session, header).c_user_id
            == session.c_user_id,
        session.pass_token is Some ==> merged_session(session, header).pass_token
            == session.pass_token,
        session.ssecurity is Some ==> merged_session(session, header).ssecurity
            == session.ssecurity,
        session.service_token is Some ==> merged_session(session, header).service_token
            == session.service_token,
        merged_session(session, header).nick == session.nick,
        forall|s: Seq<char>|
            session.user_id is None && jar_says(cookies::jar_of(header), "userId"@, s)
                ==> merged_session(session, header).user_id == Some(s),
        forall|s: Seq<char>|
            session.c_user_id is None && jar_says(cookies::jar_of(header), "cUserId"@, s)
                ==> merged_session(session, header).c_user_id == Some(s),
        forall|s: Seq<char>|
            session.pass_token is None && jar_says(cookies::jar_of(header), "passToken"@, s)
                ==> merged_session(session, header).pass_token == Some(s),
        forall|s: Seq<char>|
            session.ssecurity is None && jar_says(cookies::jar_of(header), "ssecurity"@, s)
                ==> merged_session(session, header).ssecurity == Some(s),
        forall|s: Seq<char>|
            session.service_token is None && jar_says(cookies::jar_of(header), "serviceToken"@, s)
                ==> merged_session(session, header).service_token == Some(s),
        session.pass_token is None && no_cookie(cookies::jar_of(header), "passToken"@)
            ==> merged_session(session, header).pass_token is None,
        session.service_token is None && no_cookie(cookies::jar_of(header), "serviceToken"@)
            && no_cookie(cookies::jar_of(header), "mimopc_serviceToken"@) ==> merged_session(
            session,
            header,
        ).service_token is None,
        session.user_id is None && no_cookie(cookies::jar_of(header), "userId"@) ==> merged_session(
            session,
            header,
        ).user_id is None,
        merged_session(session, header).refreshed_at is None,
        filled_in(merged_session(session, header), session, cookies::jar_of(header)),
{
    let jar = cookies::jar_of(header);
    cookies::lemma_jar_find(jar, "passToken"@);
    cookies::lemma_jar_find(jar, "serviceToken"@);
    cookies::lemma_jar_find(jar, "userId"@);
    cookies::lemma_jar_find(jar, "cUserId"@);
    cookies::lemma_jar_find(jar, "ssecurity"@);
    cookies::lemma_jar_find(jar, "sSecurity"@);
    cookies::lemma_jar_find(jar, SID@ + "_serviceToken"@);
    reveal_strlit("mimopc");
    reveal_strlit("_serviceToken");
    reveal_strlit("mimopc_serviceToken");
    assert(SID@ + "_serviceToken"@ =~= "mimopc_serviceToken"@);
    assert forall|name: Seq<char>, s: Seq<char>| #[trigger]
        jar_says(jar, name, s) implies cookies::jar_get(jar, name) == Some(s) by {
        let i = choose|i: int|
            0 <= i < jar.len() && #[trigger] jar[i] == (name, s) && forall|k: int|
                0 <= k < i ==> (#[trigger] jar[k]).0 != name;
        cookies::lemma_jar_find_is(jar, name, i);
    }
}

/// A sign-in reply counts for what it tells: the session that is made of it has every field with
/// the value that it tells, whatever the cookies are.
pub proof fn told_fields_count(body: JsonView, header: Seq<char>)
    ensures
        holds_told(session_of_body(body), body),
        holds_told(merged_session(session_of_body(body), header), body),
        json::lacks(body, "passToken"@) ==> session_of_body(body).pass_token is None,
        json::lacks(body, "userId"@) ==> session_of_body(body).user_id is None,
        json::lacks(body, "cUserId"@) ==> session_of_body(body).c_user_id is None,
        json::lacks(body, "ssecurity"@) ==> session_of_body(body).ssecurity is None,
        session_of_body(body).service_token is None,
        made_of(merged_session(session_of_body(body), header), body, cookies::jar_of(header)),
{
    cookies_fill_in_what_is_missing(session_of_body(body), header);
}

/// Whether a `Set-Cookie` header sets the service token `t`, whatever attributes follow.
pub open spec fn sets_token(raw: Seq<char>, t: Seq<char>) -> bool {
    &&& t.len() > 0 && t != "EXPIRED"@ && !t.contains(';') && !text::is_white(t.last())
    &&& exists|rest: Seq<char>|
        (rest.len() > 0 ==> rest[0] == ';') && (raw == #[trigger] ("serviceToken="@ + t + rest)
            || raw == "mimopc_serviceToken="@ + t + rest)
}

/// Whether a `Set-Cookie` header is about another cookie than the service token, or takes the token
/// away.
pub open spec fn spares_token(raw: Seq<char>) -> bool {
    let head = text::trim_of(text::split_on(raw, ';')[0]);
    ||| !text::begins_with(head, "serviceToken="@) && !text::begins_with(
        head,
        "mimopc_serviceToken="@,
    )
    ||| head == "serviceToken="@ || head == "serviceToken=EXPIRED"@
    ||| head == "mimopc_serviceToken="@ || head == "mimopc_serviceToken=EXPIRED"@
}

proof fn lemma_token_set(raw: Seq<char>, t: Seq<char>)
    ensures
        sets_token(raw, t) ==> token_set_by(raw) == Some(t),
        spares_token(raw) ==> token_set_by(raw) is None,
{
    reveal_strlit("mimopc");
    reveal_strlit("_serviceToken=");
    reveal_strlit("mimopc_serviceToken=");
    reveal_strlit("serviceToken=");
    let long = SID@ + "_serviceToken="@;
    assert(long =~= "mimopc_serviceToken="@);
    if spares_token(raw) {
        reveal_strlit("EXPIRED");
        reveal_strlit("serviceToken=EXPIRED");
        reveal_strlit("mimopc_serviceToken=EXPIRED");
        let head = text::trim_of(text::split_on(raw, ';')[0]);
        if text::begins_with(head, "serviceToken="@) {
            let short = "serviceToken="@;
            assert(short.len() == 13 && short[0] == 's');
            assert(head.take(13) == short);
            assert(head[0] == head.take(13)[0]);
            if text::begins_with(head, long) {
                assert(head.take(20)[0] == long[0]);
            }
            assert(head.skip(13) =~= Seq::empty() || head.skip(13) =~= "EXPIRED"@);
        } else if text::begins_with(head, long) {
            assert(head.skip(20) =~= Seq::empty() || head.skip(20) =~= "EXPIRED"@);
        }
    }
    if sets_token(raw, t) {
        let rest = choose|rest: Seq<char>|
            (rest.len() > 0 ==> rest[0] == ';') && (raw == #[trigger] ("serviceToken="@ + t + rest)
                || raw == "mimopc_serviceToken="@ + t + rest);
        let short = "serviceToken="@;
        let name = if raw == short + t + rest {
            short
        } else {
            long
        };
        let head = name + t;
        assert forall|i: int| 0 <= i < head.len() implies head[i] != ';' by {
            if i >= name.len() {
                assert(t.contains(t[i - name.len()]));
            }
        }
        assert(raw =~= head + rest);
        cookies::lemma_first_piece(head, rest);
        assert(head.last() == t.last());
        assert(head[0] == name[0]);
        assert(text::is_trimmed(head));
        text::lemma_trim(head);
        assert(head.take(name.len() as int) =~= name);
        assert(head.skip(name.len() as int) =~= t);
        if name == long {
            assert(head.take(short.len() as int)[0] == 'm');
            assert(short[0] == 's');
        }
    }
}

/// The service token that a reply sets is found: the first `Set-Cookie` header that is about it
/// counts, whatever stands before and after it. A reply that sets none gives none.
pub proof fn set_tokens_are_found(raws: Seq<Seq<char>>, k: int, t: Seq<char>)
    requires
        0 <= k <= raws.len(),
        forall|i: int| 0 <= i < k ==> spares_token(#[trigger] raws[i]),
        k < raws.len() ==> sets_token(raws[k], t),
    ensures
        k < raws.len() ==> token_set_by_first(raws) == Some(t),
        k == raws.len() ==> token_set_by_first(raws) is None,
    decreases raws.len(),
{
    if raws.len() > 0 {
        lemma_token_set(raws[0], t);
        if k > 0 {
            assert(spares_token(raws[0]));
            let rest = raws.skip(1);
            assert forall|i: int| 0 <= i < k - 1 implies spares_token(#[trigger] rest[i]) by {
                assert(rest[i] == raws[i + 1]);
            }
            set_tokens_are_found(rest, k - 1, t);
        }
    }
}

/// A location is read without the white space around it; a blank one, and the word `null`, name no
/// place.
pub proof fn locations_are_read_bare(before: Seq<char>, loc: Seq<char>, after: Seq<char>)
    requires
        text::is_trimmed(loc),
        forall|i: int| 0 <= i < before.len() ==> text::is_white(#[trigger] before[i]),
        forall|i: int| 0 <= i < after.len() ==> text::is_white(#[trigger] after[i]),
    ensures
        loc.len() > 0 && loc != "null"@ ==> location_of(Some(before + loc + after)) == Some(loc),
        loc.len() == 0 || loc == "null"@ ==> location_of(Some(before + loc + after)) is None,
        location_of(None) is None,
{
    text::trimming_takes_only_what_surrounds(before, loc, after);
}

} // verus!
