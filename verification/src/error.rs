//! The library's error type.
use vstd::prelude::*;

verus! {

/// Everything that can go wrong while reading an archive.
#[derive(Debug)]
pub enum Error {
    NoSession,
    InvalidSession,
    NoListAccess(String),
    EmailNotFound(String),
    ParentNotFound { in_reply_to: String },
    InvalidListAddress(String),
    InvalidCookie(String),
    ConfigDirUnavailable,
    ApiShapeChanged { endpoint: &'static str, reason: String },
    Http(String),
    Url(String),
    Keyring(String),
    Io(String),
    Json(String),
}

/// The message of an error, as the error reads to a user.
pub open spec fn error_message(e: Error) -> Seq<char> {
    match e {
        Error::NoSession => "no session found"@,
        Error::InvalidSession => "session expired or invalid"@,
        Error::NoListAccess(l) => "logged in, but "@ + l@ + " is not visible to this session"@,
        Error::EmailNotFound(m) => "email not found: "@ + m@,
        Error::ParentNotFound { .. } => "parent not found in archive"@,
        Error::InvalidListAddress(a) => "invalid mailing list address: "@ + a@,
        Error::InvalidCookie(r) => "invalid cookie input: "@ + r@,
        Error::ConfigDirUnavailable => "could not determine a configuration directory"@,
        Error::ApiShapeChanged { endpoint, reason } => "Pony Mail API response changed while reading "@ + endpoint@
            + ": "@ + reason@,
        Error::Http(m) => "HTTP request failed: "@ + m@,
        Error::Url(m) => "URL construction failed: "@ + m@,
        Error::Keyring(m) => "keyring operation failed: "@ + m@,
        Error::Io(m) => "I/O failed: "@ + m@,
        Error::Json(m) => "JSON operation failed: "@ + m@,
    }
}

impl Error {
    /// The message of the error.
    pub fn message(&self) -> (r: String)
        ensures
            r@ == error_message(*self),
    {
        match self {
            Error::NoSession => String::from_str("no session found"),
            Error::InvalidSession => String::from_str("session expired or invalid"),
            Error::NoListAccess(l) => {
                let mut r = String::from_str("logged in, but ");
                r.append(l.as_str());
                r.append(" is not visible to this session");
                r
            },
            Error::EmailNotFound(m) => String::from_str("email not found: ").concat(m.as_str()),
            Error::ParentNotFound { .. } => String::from_str("parent not found in archive"),
            Error::InvalidListAddress(a) => String::from_str("invalid mailing list address: ").concat(a.as_str()),
            Error::InvalidCookie(m) => String::from_str("invalid cookie input: ").concat(m.as_str()),
            Error::ConfigDirUnavailable => String::from_str("could not determine a configuration directory"),
            Error::ApiShapeChanged { endpoint, reason } => {
                let mut r = String::from_str("Pony Mail API response changed while reading ");
                r.append(endpoint);
                r.append(": ");
                r.append(reason.as_str());
                r
            },
            Error::Http(m) => String::from_str("HTTP request failed: ").concat(m.as_str()),
            Error::Url(m) => String::from_str("URL construction failed: ").concat(m.as_str()),
            Error::Keyring(m) => String::from_str("keyring operation failed: ").concat(m.as_str()),
            Error::Io(m) => String::from_str("I/O failed: ").concat(m.as_str()),
            Error::Json(m) => String::from_str("JSON operation failed: ").concat(m.as_str()),
        }
    }
}

/// The library's `Result`.
pub type Result<T> = core::result::Result<T, Error>;

} // verus!
