//! The OS keychain entry that holds an optional wrapping key for the vault
//! DEK, so that users in "convenience" unlock mode need not type the master
//! password at every launch. No user secret is stored there.
//!
//! The keychain itself is reached by the caller; the library decides what
//! is written (the key in Base64) and what a reply means.

use vstd::prelude::*;
use crate::encoding::{base64_decode, base64_decoded, base64_encode, base64_text};
use crate::errors::{err_of, AppError, AppResult, ErrorView};
use crate::vault::has_prefix;

verus! {

/// The keychain entry: service and user name.
pub struct SystemKeychain {
    service: String,
    user: String,
}

impl SystemKeychain {
    /// The service name.
    pub closed spec fn service_view(&self) -> Seq<char> {
        self.service@
    }

    /// The user name.
    pub closed spec fn user_view(&self) -> Seq<char> {
        self.user@
    }

    /// The entry for `service` and `user`.
    pub fn new(service: String, user: String) -> (res: Self)
        ensures
            res.service_view() == service@,
            res.user_view() == user@,
    {
        SystemKeychain { service, user }
    }

    /// The service name.
    pub fn service(&self) -> (res: &String)
        ensures
            res@ == self.service_view(),
    {
        &self.service
    }

    /// The user name.
    pub fn user(&self) -> (res: &String)
        ensures
            res@ == self.user_view(),
    {
        &self.user
    }
}

/// What reading the entry gave.
#[derive(Debug)]
pub enum KeychainRead {
    /// The stored text.
    Found(String),
    /// There is no entry.
    NoEntry,
    /// The keychain failed, with its message.
    Failed(String),
}

/// What deleting the entry gave.
#[derive(Debug)]
pub enum KeychainDelete {
    Deleted,
    NoEntry,
    Failed(String),
}

/// The text stored for a wrapping key: its standard Base64.
pub fn encode_wrap_key(key: &[u8]) -> (res: String)
    requires
        key@.len() == 32,
    ensures
        res@ == base64_text(key@),
        base64_decoded(res@) == Some(key@),
{
    base64_encode(key)
}

/// What a keychain read means for the wrapping key: the key when the entry
/// decodes to 32 bytes, nothing without an entry, else a keychain error.
pub fn wrap_key_from(read: KeychainRead) -> (res: AppResult<Option<Vec<u8>>>)
    ensures
        match read {
            KeychainRead::Found(t) => match base64_decoded(t@) {
                Some(raw) => if raw.len() == 32 {
                    res matches Ok(Some(k)) && k@ == raw
                } else {
                    err_of(res) == Some(ErrorView::Keychain("wrap key wrong length"@))
                },
                None => res matches Err(AppError::Keychain(m)) && has_prefix(m@, "decode: "@),
            },
            KeychainRead::NoEntry => res matches Ok(None),
            KeychainRead::Failed(m) => err_of(res) == Some(ErrorView::Keychain(m@)),
        },
{
    match read {
        KeychainRead::Found(t) => match base64_decode(t.as_str()) {
            Err(e) => {
                let m = crate::errors::text_error("decode: ", &e);
                proof { crate::vault::lemma_has_prefix("decode: "@, e@); }
                Err(AppError::Keychain(m))
            },
            Ok(raw) => {
                if raw.len() != 32 {
                    return Err(AppError::Keychain(String::from_str("wrap key wrong length")));
                }
                Ok(Some(raw))
            },
        },
        KeychainRead::NoEntry => Ok(None),
        KeychainRead::Failed(m) => Err(AppError::Keychain(m)),
    }
}

/// What a keychain write means: done, or a keychain error.
pub fn stored_outcome(failure: Option<String>) -> (res: AppResult<()>)
    ensures
        match failure {
            None => res is Ok,
            Some(m) => err_of(res) == Some(ErrorView::Keychain(m@)),
        },
{
    match failure {
        None => Ok(()),
        Some(m) => Err(AppError::Keychain(m)),
    }
}

/// What deleting the entry means: a missing entry is already cleared.
pub fn cleared_outcome(reply: KeychainDelete) -> (res: AppResult<()>)
    ensures
        match reply {
            KeychainDelete::Deleted | KeychainDelete::NoEntry => res is Ok,
            KeychainDelete::Failed(m) => err_of(res) == Some(ErrorView::Keychain(m@)),
        },
{
    match reply {
        KeychainDelete::Deleted => Ok(()),
        KeychainDelete::NoEntry => Ok(()),
        KeychainDelete::Failed(m) => Err(AppError::Keychain(m)),
    }
}

/// The wrapping key stored by `encode_wrap_key` reads back unchanged.
pub proof fn law_wrap_key_roundtrip(stored: Seq<char>, key: Seq<u8>)
    requires
        key.len() == 32,
        base64_decoded(stored) == Some(key),
    ensures
        base64_decoded(stored) matches Some(raw) && raw.len() == 32 && raw == key,
{
}

} // verus!
