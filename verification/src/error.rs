//! The error type of the library's operations.
use vstd::prelude::*;

use crate::text::push_str;

verus! {

/// Errors reported by the library, each one carrying a human-readable detail message.
#[derive(Clone, Debug, PartialEq)]
pub enum Error {
    AuthError(String),
    AuthdClientError(String),
    AuthdError(String),
    AuthdAlreadyStarted(String),
    AuthenticatorError(String),
    ConnectionError(String),
    NetDataError(String),
    ContentNotFound(String),
    ContentError(String),
    EmptyContent(String),
    AccessDenied(String),
    VersionNotFound(String),
    EntryNotFound(String),
    EntryExists(String),
    InvalidInput(String),
    InvalidAmount(String),
    InvalidXorUrl(String),
    InvalidMediaType(String),
    NotEnoughBalance(String),
    FileSystemError(String),
    Unexpected(String),
    Unknown(String),
}

/// The result type of the library's fallible operations.
pub type Result<T> = core::result::Result<T, Error>;

impl Error {
    /// The name of the error's variant.
    pub open spec fn kind_name(&self) -> Seq<char> {
        match self {
            Error::AuthError(_) => "AuthError"@,
            Error::AuthdClientError(_) => "AuthdClientError"@,
            Error::AuthdError(_) => "AuthdError"@,
            Error::AuthdAlreadyStarted(_) => "AuthdAlreadyStarted"@,
            Error::AuthenticatorError(_) => "AuthenticatorError"@,
            Error::ConnectionError(_) => "ConnectionError"@,
            Error::NetDataError(_) => "NetDataError"@,
            Error::ContentNotFound(_) => "ContentNotFound"@,
            Error::ContentError(_) => "ContentError"@,
            Error::EmptyContent(_) => "EmptyContent"@,
            Error::AccessDenied(_) => "AccessDenied"@,
            Error::VersionNotFound(_) => "VersionNotFound"@,
            Error::EntryNotFound(_) => "EntryNotFound"@,
            Error::EntryExists(_) => "EntryExists"@,
            Error::InvalidInput(_) => "InvalidInput"@,
            Error::InvalidAmount(_) => "InvalidAmount"@,
            Error::InvalidXorUrl(_) => "InvalidXorUrl"@,
            Error::InvalidMediaType(_) => "InvalidMediaType"@,
            Error::NotEnoughBalance(_) => "NotEnoughBalance"@,
            Error::FileSystemError(_) => "FileSystemError"@,
            Error::Unexpected(_) => "Unexpected"@,
            Error::Unknown(_) => "Unknown"@,
        }
    }

    /// The detail message carried by the error.
    pub open spec fn message(&self) -> Seq<char> {
        match self {
            Error::AuthError(m) => m@,
            Error::AuthdClientError(m) => m@,
            Error::AuthdError(m) => m@,
            Error::AuthdAlreadyStarted(m) => m@,
            Error::AuthenticatorError(m) => m@,
            Error::ConnectionError(m) => m@,
            Error::NetDataError(m) => m@,
            Error::ContentNotFound(m) => m@,
            Error::ContentError(m) => m@,
            Error::EmptyContent(m) => m@,
            Error::AccessDenied(m) => m@,
            Error::VersionNotFound(m) => m@,
            Error::EntryNotFound(m) => m@,
            Error::EntryExists(m) => m@,
            Error::InvalidInput(m) => m@,
            Error::InvalidAmount(m) => m@,
            Error::InvalidXorUrl(m) => m@,
            Error::InvalidMediaType(m) => m@,
            Error::NotEnoughBalance(m) => m@,
            Error::FileSystemError(m) => m@,
            Error::Unexpected(m) => m@,
            Error::Unknown(m) => m@,
        }
    }

    /// The user-facing rendering of an error: `[Error] <kind> - <message>`.
    pub open spec fn rendered(&self) -> Seq<char> {
        "[Error] "@ + self.kind_name() + " - "@ + self.message()
    }

    /// Renders the error as `[Error] <kind> - <message>`.
    pub fn to_display_string(&self) -> (res: String)
        ensures
            res@ == self.rendered(),
    {
        let (kind, msg): (&str, &String) = match self {
            Error::AuthError(m) => ("AuthError", m),
            Error::AuthdClientError(m) => ("AuthdClientError", m),
            Error::AuthdError(m) => ("AuthdError", m),
            Error::AuthdAlreadyStarted(m) => ("AuthdAlreadyStarted", m),
            Error::AuthenticatorError(m) => ("AuthenticatorError", m),
            Error::ConnectionError(m) => ("ConnectionError", m),
            Error::NetDataError(m) => ("NetDataError", m),
            Error::ContentNotFound(m) => ("ContentNotFound", m),
            Error::ContentError(m) => ("ContentError", m),
            Error::EmptyContent(m) => ("EmptyContent", m),
            Error::AccessDenied(m) => ("AccessDenied", m),
            Error::VersionNotFound(m) => ("VersionNotFound", m),
            Error::EntryNotFound(m) => ("EntryNotFound", m),
            Error::EntryExists(m) => ("EntryExists", m),
            Error::InvalidInput(m) => ("InvalidInput", m),
            Error::InvalidAmount(m) => ("InvalidAmount", m),
            Error::InvalidXorUrl(m) => ("InvalidXorUrl", m),
            Error::InvalidMediaType(m) => ("InvalidMediaType", m),
            Error::NotEnoughBalance(m) => ("NotEnoughBalance", m),
            Error::FileSystemError(m) => ("FileSystemError", m),
            Error::Unexpected(m) => ("Unexpected", m),
            Error::Unknown(m) => ("Unknown", m),
        };
        proof {
            reveal_strlit("AuthError");
            reveal_strlit("AuthdClientError");
            reveal_strlit("AuthdError");
            reveal_strlit("AuthdAlreadyStarted");
            reveal_strlit("AuthenticatorError");
            reveal_strlit("ConnectionError");
            reveal_strlit("NetDataError");
            reveal_strlit("ContentNotFound");
            reveal_strlit("ContentError");
            reveal_strlit("EmptyContent");
            reveal_strlit("AccessDenied");
            reveal_strlit("VersionNotFound");
            reveal_strlit("EntryNotFound");
            reveal_strlit("EntryExists");
            reveal_strlit("InvalidInput");
            reveal_strlit("InvalidAmount");
            reveal_strlit("InvalidXorUrl");
            reveal_strlit("InvalidMediaType");
            reveal_strlit("NotEnoughBalance");
            reveal_strlit("FileSystemError");
            reveal_strlit("Unexpected");
            reveal_strlit("Unknown");
        }
        let mut res = String::new();
        push_str(&mut res, "[Error] ");
        push_str(&mut res, kind);
        push_str(&mut res, " - ");
        push_str(&mut res, msg.as_str());
        res
    }
}

impl core::convert::From<Error> for String {
    /// The rendered text of the error (see `Error::rendered`).
    fn from(error: Error) -> (res: String)
        ensures
            res@ == error.rendered(),
    {
        error.to_display_string()
    }
}

impl vstd::std_specs::convert::FromSpecImpl<Error> for String {
    /// The conversion's result is stated by the `ensures` of `from` itself (the
    /// rendered text); no `String` value is named here.
    open spec fn obeys_from_spec() -> bool {
        false
    }

    open spec fn from_spec(error: Error) -> String {
        vstd::pervasive::arbitrary()
    }
}

} // verus!
