//! The error type shared by every fallible operation of the library.

use vstd::prelude::*;

verus! {

/// Every failure the backend reports. Each variant carries the detail text
/// that the renderer shows after the variant's stable `kind()` tag.
#[derive(Debug, Clone)]
pub enum AppError {
    NotFound(String),
    InvalidInput(String),
    VaultLocked,
    VaultAlreadyInitialized,
    BadMasterPassword,
    Crypto(String),
    Io(String),
    Storage(String),
    Keychain(String),
    Session(String),
    Protocol(String),
    Internal(String),
}

/// The contents of an error, as contracts speak of it.
pub enum ErrorView {
    NotFound(Seq<char>),
    InvalidInput(Seq<char>),
    VaultLocked,
    VaultAlreadyInitialized,
    BadMasterPassword,
    Crypto(Seq<char>),
    Io(Seq<char>),
    Storage(Seq<char>),
    Keychain(Seq<char>),
    Session(Seq<char>),
    Protocol(Seq<char>),
    Internal(Seq<char>),
}

impl View for AppError {
    type V = ErrorView;

    open spec fn view(&self) -> ErrorView {
        match self {
            AppError::NotFound(s) => ErrorView::NotFound(s@),
            AppError::InvalidInput(s) => ErrorView::InvalidInput(s@),
            AppError::VaultLocked => ErrorView::VaultLocked,
            AppError::VaultAlreadyInitialized => ErrorView::VaultAlreadyInitialized,
            AppError::BadMasterPassword => ErrorView::BadMasterPassword,
            AppError::Crypto(s) => ErrorView::Crypto(s@),
            AppError::Io(s) => ErrorView::Io(s@),
            AppError::Storage(s) => ErrorView::Storage(s@),
            AppError::Keychain(s) => ErrorView::Keychain(s@),
            AppError::Session(s) => ErrorView::Session(s@),
            AppError::Protocol(s) => ErrorView::Protocol(s@),
            AppError::Internal(s) => ErrorView::Internal(s@),
        }
    }
}

/// The error of an outcome, if it failed.
pub open spec fn err_of<T>(r: Result<T, AppError>) -> Option<ErrorView> {
    match r {
        Ok(_) => None,
        Err(e) => Some(e@),
    }
}

/// Builds an error whose detail is `prefix` followed by `detail`.
pub fn text_error(prefix: &str, detail: &String) -> (res: String)
    ensures
        res@ == prefix@ + detail@,
{
    prefixed(prefix, detail)
}

/// Result type of every fallible operation.
pub type AppResult<T> = Result<T, AppError>;

/// The stable tag of each variant, as the renderer switches on it.
pub open spec fn kind_text(e: AppError) -> Seq<char> {
    match e {
        AppError::NotFound(_) => "NotFound"@,
        AppError::InvalidInput(_) => "InvalidInput"@,
        AppError::VaultLocked => "VaultLocked"@,
        AppError::VaultAlreadyInitialized => "VaultAlreadyInitialized"@,
        AppError::BadMasterPassword => "BadMasterPassword"@,
        AppError::Crypto(_) => "Crypto"@,
        AppError::Io(_) => "Io"@,
        AppError::Storage(_) => "Storage"@,
        AppError::Keychain(_) => "Keychain"@,
        AppError::Session(_) => "Session"@,
        AppError::Protocol(_) => "Protocol"@,
        AppError::Internal(_) => "Internal"@,
    }
}

/// The human-readable message of each variant.
pub open spec fn message_text(e: AppError) -> Seq<char> {
    match e {
        AppError::NotFound(s) => "not found: "@ + s@,
        AppError::InvalidInput(s) => "invalid input: "@ + s@,
        AppError::VaultLocked => "vault is locked"@,
        AppError::VaultAlreadyInitialized => "vault is already initialized"@,
        AppError::BadMasterPassword => "incorrect master password"@,
        AppError::Crypto(s) => "crypto error: "@ + s@,
        AppError::Io(s) => "io error: "@ + s@,
        AppError::Storage(s) => "storage error: "@ + s@,
        AppError::Keychain(s) => "keychain error: "@ + s@,
        AppError::Session(s) => "session error: "@ + s@,
        AppError::Protocol(s) => "protocol error: "@ + s@,
        AppError::Internal(s) => "internal: "@ + s@,
    }
}

fn prefixed(prefix: &str, detail: &String) -> (res: String)
    ensures
        res@ == prefix@ + detail@,
{
    let mut res = String::from_str(prefix);
    res.append(detail.as_str());
    res
}

impl AppError {
    /// Stable kind string used by the renderer to switch on.
    pub fn kind(&self) -> (res: &'static str)
        ensures
            res@ == kind_text(*self),
    {
        match self {
            AppError::NotFound(_) => "NotFound",
            AppError::InvalidInput(_) => "InvalidInput",
            AppError::VaultLocked => "VaultLocked",
            AppError::VaultAlreadyInitialized => "VaultAlreadyInitialized",
            AppError::BadMasterPassword => "BadMasterPassword",
            AppError::Crypto(_) => "Crypto",
            AppError::Io(_) => "Io",
            AppError::Storage(_) => "Storage",
            AppError::Keychain(_) => "Keychain",
            AppError::Session(_) => "Session",
            AppError::Protocol(_) => "Protocol",
            AppError::Internal(_) => "Internal",
        }
    }

    /// The message shown to the user (what the error displays as).
    pub fn message(&self) -> (res: String)
        ensures
            res@ == message_text(*self),
    {
        match self {
            AppError::NotFound(s) => prefixed("not found: ", s),
            AppError::InvalidInput(s) => prefixed("invalid input: ", s),
            AppError::VaultLocked => String::from_str("vault is locked"),
            AppError::VaultAlreadyInitialized => String::from_str("vault is already initialized"),
            AppError::BadMasterPassword => String::from_str("incorrect master password"),
            AppError::Crypto(s) => prefixed("crypto error: ", s),
            AppError::Io(s) => prefixed("io error: ", s),
            AppError::Storage(s) => prefixed("storage error: ", s),
            AppError::Keychain(s) => prefixed("keychain error: ", s),
            AppError::Session(s) => prefixed("session error: ", s),
            AppError::Protocol(s) => prefixed("protocol error: ", s),
            AppError::Internal(s) => prefixed("internal: ", s),
        }
    }
}

} // verus!
