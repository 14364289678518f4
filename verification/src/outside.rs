//! Calls into outside crates: digests, encodings, password hashes, randomness and the clock.

use argon2::password_hash::{PasswordHash, PasswordHasher, PasswordVerifier, SaltString};
use base64::Engine;
use md5::Digest;
use rand::RngCore;
use vstd::prelude::*;
use vstd::utf8::{decode_utf8, valid_utf8};

verus! {

// ── digests ─────────────────────────────────────────────────────────
/// The MD5 digest of some bytes.
pub uninterp spec fn md5_of(bytes: Seq<u8>) -> Seq<u8>;

/// The SHA-1 digest of some bytes.
pub uninterp spec fn sha1_of(bytes: Seq<u8>) -> Seq<u8>;

/// The SHA-256 digest of some bytes.
pub uninterp spec fn sha256_of(bytes: Seq<u8>) -> Seq<u8>;

/// `md5::Md5::digest`: the sixteen bytes of the MD5 digest.
#[verifier::external_body]
pub(crate) fn md5_digest(bytes: &[u8]) -> (r: Vec<u8>)
    ensures
        r@ == md5_of(bytes@),
        r@.len() == 16,
{
    md5::Md5::digest(bytes).to_vec()
}

/// `sha1::Sha1::digest`: the twenty bytes of the SHA-1 digest.
#[verifier::external_body]
pub(crate) fn sha1_digest(bytes: &[u8]) -> (r: Vec<u8>)
    ensures
        r@ == sha1_of(bytes@),
        r@.len() == 20,
{
    sha1::Sha1::digest(bytes).to_vec()
}

/// `sha2::Sha256::digest`: the thirty-two bytes of the SHA-256 digest.
#[verifier::external_body]
pub(crate) fn sha256_digest(bytes: &[u8]) -> (r: Vec<u8>)
    ensures
        r@ == sha256_of(bytes@),
        r@.len() == 32,
{
    sha2::Sha256::digest(bytes).to_vec()
}

// ── encodings ───────────────────────────────────────────────────────
/// The hexadecimal digit `d`, a letter in lower case.
pub open spec fn hex_lower(d: int) -> char {
    if d < 10 {
        (48 + d) as char
    } else {
        (87 + d) as char
    }
}

/// The hexadecimal digit `d`, a letter in upper case.
pub open spec fn hex_upper(d: int) -> char {
    if d < 10 {
        (48 + d) as char
    } else {
        (55 + d) as char
    }
}

/// Two lower-case hexadecimal digits for each byte.
pub open spec fn hex_text(bytes: Seq<u8>) -> Seq<char> {
    Seq::new(
        2 * bytes.len(),
        |i: int|
            if i % 2 == 0 {
                hex_lower(bytes[i / 2] as int / 16)
            } else {
                hex_lower(bytes[i / 2] as int % 16)
            },
    )
}

/// Two upper-case hexadecimal digits for each byte.
pub open spec fn hex_upper_text(bytes: Seq<u8>) -> Seq<char> {
    Seq::new(
        2 * bytes.len(),
        |i: int|
            if i % 2 == 0 {
                hex_upper(bytes[i / 2] as int / 16)
            } else {
                hex_upper(bytes[i / 2] as int % 16)
            },
    )
}

/// `hex::encode`: two lower-case hexadecimal digits for each byte.
#[verifier::external_body]
pub(crate) fn hex_encode(bytes: &[u8]) -> (r: String)
    ensures
        r@ == hex_text(bytes@),
{
    hex::encode(bytes)
}

/// `hex::encode_upper`: two upper-case hexadecimal digits for each byte.
#[verifier::external_body]
pub(crate) fn hex_encode_upper(bytes: &[u8]) -> (r: String)
    ensures
        r@ == hex_upper_text(bytes@),
{
    hex::encode_upper(bytes)
}

/// The character for six bits in the standard base64 alphabet.
pub open spec fn base64_char(n: int) -> char {
    if n < 26 {
        (65 + n) as char
    } else if n < 52 {
        (71 + n) as char
    } else if n < 62 {
        (n - 4) as char
    } else if n == 62 {
        '+'
    } else {
        '/'
    }
}

/// Standard base64 with padding: four characters for every three bytes.
pub open spec fn base64_text(bytes: Seq<u8>) -> Seq<char>
    decreases bytes.len(),
{
    if bytes.len() == 0 {
        Seq::empty()
    } else {
        let a = bytes[0] as int;
        let b = if bytes.len() > 1 {
            bytes[1] as int
        } else {
            0
        };
        let c = if bytes.len() > 2 {
            bytes[2] as int
        } else {
            0
        };
        let head = seq![
            base64_char(a / 4),
            base64_char((a % 4) * 16 + b / 16),
            if bytes.len() > 1 {
                base64_char((b % 16) * 4 + c / 64)
            } else {
                '='
            },
            if bytes.len() > 2 {
                base64_char(c % 64)
            } else {
                '='
            },
        ];
        if bytes.len() <= 3 {
            head
        } else {
            head + base64_text(bytes.skip(3))
        }
    }
}

/// `base64::engine::general_purpose::STANDARD.encode`: standard base64 with padding.
#[verifier::external_body]
pub(crate) fn base64_encode(bytes: &[u8]) -> (r: String)
    ensures
        r@ == base64_text(bytes@),
{
    base64::engine::general_purpose::STANDARD.encode(bytes)
}

/// The text that `String::from_utf8_lossy` makes of some bytes.
pub uninterp spec fn lossy_text(bytes: Seq<u8>) -> Seq<char>;

/// `String::from_utf8_lossy`: the characters that the bytes encode. Which replacement characters
/// stand for bytes that encode none is not stated.
#[verifier::external_body]
pub(crate) fn decode_lossy(bytes: &[u8]) -> (r: String)
    ensures
        r@ == lossy_text(bytes@),
        valid_utf8(bytes@) ==> r@ == decode_utf8(bytes@),
{
    String::from_utf8_lossy(bytes).into_owned()
}

// ── passwords ───────────────────────────────────────────────────────
/// What hashing a password with a salt gives: the hash in PHC string format, or the text of the
/// error.
pub uninterp spec fn argon2_of(password: Seq<u8>, salt: Seq<char>) -> Result<Seq<char>, Seq<char>>;

/// Whether a PHC string is an Argon2 hash of a password.
pub uninterp spec fn argon2_accepts(hash: Seq<char>, password: Seq<u8>) -> bool;

/// Whether a text is a salt: sixteen bytes in base64, without padding.
pub open spec fn is_salt(s: Seq<char>) -> bool {
    exists|raw: Seq<u8>| raw.len() == 16 && s == (#[trigger] base64_text(raw)).take(22)
}

/// Whether a password is short enough for `Argon2::hash_password`.
pub open spec fn can_be_hashed(password: Seq<u8>) -> bool {
    password.len() <= 0xffff_ffff
}

/// `SaltString::generate` with the system's random numbers: sixteen bytes in base64, without
/// padding. Which bytes is not stated.
#[verifier::external_body]
pub(crate) fn fresh_salt() -> (r: String)
    ensures
        is_salt(r@),
{
    SaltString::generate(&mut rand::rngs::OsRng).as_str().to_string()
}

/// `Argon2::hash_password` with the default parameters: the hash in PHC string format, which
/// `Argon2::verify_password` accepts for the same password, or the text of the error. A salt of
/// sixteen bytes and a password that is not too long always give a hash.
#[verifier::external_body]
pub(crate) fn argon2_hash(password: &[u8], salt: &str) -> (r: Result<String, String>)
    ensures
        match argon2_of(password@, salt@) {
            Ok(h) => r matches Ok(hash) && hash@ == h,
            Err(m) => r matches Err(e) && e@ == m,
        },
        r matches Ok(hash) ==> argon2_accepts(hash@, password@),
        is_salt(salt@) && can_be_hashed(password@) ==> r is Ok,
{
    let salt = SaltString::from_b64(salt).map_err(|e| e.to_string())?;
    let hash = argon2::Argon2::default().hash_password(password, &salt);
    hash.map(|h| h.to_string()).map_err(|e| e.to_string())
}

/// `Argon2::verify_password` with the default parameters: whether the hash, read as a PHC
/// string, is one of the password. A text that is no PHC string is a hash of none.
#[verifier::external_body]
pub(crate) fn argon2_verify(hash: &str, password: &[u8]) -> (r: bool)
    ensures
        r == argon2_accepts(hash@, password@),
{
    PasswordHash::new(hash).is_ok_and(
        |parsed| argon2::Argon2::default().verify_password(password, &parsed).is_ok(),
    )
}

// ── randomness and the clock ────────────────────────────────────────
/// `OsRng::fill_bytes`: thirty-two random bytes.
#[verifier::external_body]
pub(crate) fn random_bytes() -> (r: [u8; 32]) {
    let mut raw = [0u8; 32];
    rand::rngs::OsRng.fill_bytes(&mut raw);
    raw
}

/// Whether a text is thirty-two lower-case hexadecimal digits.
pub open spec fn is_simple_uuid(s: Seq<char>) -> bool {
    s.len() == 32 && forall|i: int|
        0 <= i < s.len() ==> ('0' <= #[trigger] s[i] <= '9' || 'a' <= s[i] <= 'f')
}

/// `Uuid::new_v4().simple()`: a fresh random identifier of thirty-two lower-case hexadecimal
/// digits.
#[verifier::external_body]
pub(crate) fn fresh_uuid() -> (r: String)
    ensures
        is_simple_uuid(r@),
{
    uuid::Uuid::new_v4().simple().to_string()
}

/// `chrono::Utc::now().timestamp_millis()`: the milliseconds since 1970. Nothing is said of the
/// clock.
#[verifier::external_body]
pub(crate) fn now_millis() -> (r: i64) {
    chrono::Utc::now().timestamp_millis()
}

/// `chrono::Utc::now().timestamp()`: the seconds since 1970. Nothing is said of the clock.
#[verifier::external_body]
pub(crate) fn now_seconds() -> (r: i64) {
    chrono::Utc::now().timestamp()
}

/// Whether a character can stand in a header's value: no control character can, but for a tab.
pub open spec fn fits_header_char(c: char) -> bool {
    c == '\t' || (c as u32 >= 32 && c as u32 != 127)
}

/// `axum::http::HeaderValue::from_str`: whether a text can be a header's value, which it cannot if
/// it holds a control character other than a tab.
#[verifier::external_body]
pub(crate) fn fits_header(text: &str) -> (r: bool)
    ensures
        r == forall|i: int| 0 <= i < text@.len() ==> fits_header_char(#[trigger] text@[i]),
{
    axum::http::HeaderValue::from_str(text).is_ok()
}

// ── links and media types ───────────────────────────────────────────
/// The absolute form of a reference found in the document at `base`, where both can be read as
/// URLs.
pub uninterp spec fn resolved_url(base: Seq<char>, reference: Seq<char>) -> Option<Seq<char>>;

/// `url::Url::join`: the reference as seen from `base`, if both can be read as URLs.
#[verifier::external_body]
pub(crate) fn resolve_url(base: &str, reference: &str) -> (r: Option<String>)
    ensures
        crate::text::opt_view(r) == resolved_url(base@, reference@),
{
    url::Url::parse(base).and_then(|b| b.join(reference)).ok().map(|u| u.to_string())
}

/// Whether every machine parts a path alike: some take a backslash or a colon for a separator.
pub open spec fn parts_alike(path: Seq<char>) -> bool {
    !path.contains('\\') && !path.contains(':')
}

/// The media type that belongs to the file name extension of a path, `application/octet-stream`
/// if none is known.
pub uninterp spec fn media_type_of(path: Seq<char>) -> Seq<char>;

/// `mime_guess::from_path`, then `first_or_octet_stream`: the media type of a file by its path.
/// Nothing is said of a path that machines part differently.
#[verifier::external_body]
pub(crate) fn media_type(path: &str) -> (r: String)
    ensures
        parts_alike(path@) ==> r@ == media_type_of(path@),
{
    mime_guess::from_path(path).first_or_octet_stream().to_string()
}

} // verus!
