//! What can go wrong, and what a client is told of it.

use vstd::prelude::*;

verus! {

#[derive(Debug)]
pub enum BridgeError {
    Login(String),
    VerificationCode,
    Proxy(String),
    Storage(String),
    Unauthorized,
    Http(String),
    Json(String),
    Io(String),
}

/// What an error is.
pub enum ErrorView {
    Login(Seq<char>),
    VerificationCode,
    Proxy(Seq<char>),
    Storage(Seq<char>),
    Unauthorized,
    Http(Seq<char>),
    Json(Seq<char>),
    Io(Seq<char>),
}

impl View for BridgeError {
    type V = ErrorView;

    open spec fn view(&self) -> ErrorView {
        match *self {
            BridgeError::Login(m) => ErrorView::Login(m@),
            BridgeError::VerificationCode => ErrorView::VerificationCode,
            BridgeError::Proxy(m) => ErrorView::Proxy(m@),
            BridgeError::Storage(m) => ErrorView::Storage(m@),
            BridgeError::Unauthorized => ErrorView::Unauthorized,
            BridgeError::Http(m) => ErrorView::Http(m@),
            BridgeError::Json(m) => ErrorView::Json(m@),
            BridgeError::Io(m) => ErrorView::Io(m@),
        }
    }
}

impl ErrorView {
    /// The HTTP status that tells a client of the error.
    pub open spec fn status(self) -> u16 {
        match self {
            ErrorView::Unauthorized => 401,
            ErrorView::Login(_) => 401,
            ErrorView::VerificationCode => 401,
            ErrorView::Proxy(_) => 502,
            _ => 500,
        }
    }

    /// The short code of the error.
    pub open spec fn code(self) -> Seq<char> {
        match self {
            ErrorView::Unauthorized => "unauthorized"@,
            ErrorView::Login(_) => "login_failed"@,
            ErrorView::VerificationCode => "verification_code"@,
            ErrorView::Proxy(_) => "proxy_error"@,
            ErrorView::Storage(_) => "storage_error"@,
            _ => "internal"@,
        }
    }

    /// The error in words.
    pub open spec fn message(self) -> Seq<char> {
        match self {
            ErrorView::Login(m) => "login: "@ + m,
            ErrorView::VerificationCode => "verification code invalid"@,
            ErrorView::Proxy(m) => "proxy: "@ + m,
            ErrorView::Storage(m) => "storage: "@ + m,
            ErrorView::Unauthorized => "unauthorized"@,
            ErrorView::Http(m) => "http: "@ + m,
            ErrorView::Json(m) => "json: "@ + m,
            ErrorView::Io(m) => "io: "@ + m,
        }
    }
}

impl BridgeError {
    /// The HTTP status that tells a client of the error.
    pub fn status(&self) -> (r: u16)
        ensures
            r == self@.status(),
    {
        match self {
            BridgeError::Unauthorized => 401,
            BridgeError::Login(_) => 401,
            BridgeError::VerificationCode => 401,
            BridgeError::Proxy(_) => 502,
            _ => 500,
        }
    }

    /// The short code of the error.
    pub fn code(&self) -> (r: &'static str)
        ensures
            r@ == self@.code(),
    {
        match self {
            BridgeError::Unauthorized => "unauthorized",
            BridgeError::Login(_) => "login_failed",
            BridgeError::VerificationCode => "verification_code",
            BridgeError::Proxy(_) => "proxy_error",
            BridgeError::Storage(_) => "storage_error",
            _ => "internal",
        }
    }

    /// The error in words.
    pub fn message(&self) -> (r: String)
        ensures
            r@ == self@.message(),
    {
        match self {
            BridgeError::Login(m) => "login: ".to_string().concat(m.as_str()),
            BridgeError::VerificationCode => "verification code invalid".to_string(),
            BridgeError::Proxy(m) => "proxy: ".to_string().concat(m.as_str()),
            BridgeError::Storage(m) => "storage: ".to_string().concat(m.as_str()),
            BridgeError::Unauthorized => "unauthorized".to_string(),
            BridgeError::Http(m) => "http: ".to_string().concat(m.as_str()),
            BridgeError::Json(m) => "json: ".to_string().concat(m.as_str()),
            BridgeError::Io(m) => "io: ".to_string().concat(m.as_str()),
        }
    }
}

/// What clients are told of an error: a sign-in that failed, a wrong ticket and a missing session
/// are refusals, a failure of the upstream is that of a gateway, and anything else is an error of
/// the bridge. What went wrong is told in full.
pub proof fn errors_are_told(m: Seq<char>)
    ensures
        ErrorView::Unauthorized.status() == 401 && ErrorView::Unauthorized.code()
            == "unauthorized"@,
        ErrorView::Login(m).status() == 401 && ErrorView::Login(m).code() == "login_failed"@
            && ErrorView::Login(m).message() == "login: "@ + m,
        ErrorView::VerificationCode.status() == 401 && ErrorView::VerificationCode.code()
            == "verification_code"@,
        ErrorView::Proxy(m).status() == 502 && ErrorView::Proxy(m).message() == "proxy: "@ + m,
        ErrorView::Storage(m).status() == 500 && ErrorView::Storage(m).message() == "storage: "@ + m,
        ErrorView::Http(m).status() == 500 && ErrorView::Http(m).message() == "http: "@ + m,
        ErrorView::Json(m).status() == 500 && ErrorView::Json(m).message() == "json: "@ + m,
        ErrorView::Io(m).status() == 500 && ErrorView::Io(m).message() == "io: "@ + m,
{
}

} // verus!
