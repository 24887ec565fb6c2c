//! Strongly typed identifiers. Each wraps the 128-bit value of a UUID so
//! that connection ids cannot be confused with folder or credential ids.

use vstd::prelude::*;
use crate::encoding::{uuid_new_v4, uuid_text, uuid_to_string};

verus! {

/// The identifiers of the library: each is the value of a UUID.
pub trait Identifier: Sized {
    /// The UUID value of the identifier.
    spec fn uuid_value(&self) -> u128;

    /// The UUID value of the identifier.
    fn uuid(&self) -> (r: u128)
        ensures
            r == self.uuid_value(),
    ;
}

/// Convenience: render the storage form of an id (its UUID text).
pub fn to_db_string<I: Identifier>(id: &I) -> (res: String)
    ensures
        res@ == uuid_text(id.uuid_value()),
{
    uuid_to_string(id.uuid())
}

/// Identifier of a folder.
#[derive(Debug, Clone, Copy, PartialEq, Eq, Structural, Hash, PartialOrd, Ord)]
pub struct FolderId(pub u128);

impl FolderId {
    /// A fresh random identifier.
    pub fn new() -> (res: Self)
        ensures
            (res.0 >> 76u128) & 0xfu128 == 4,
            (res.0 >> 62u128) & 0x3u128 == 2,
    {
        FolderId(uuid_new_v4())
    }

    /// The identifier with the given UUID value.
    pub fn from_uuid(id: u128) -> (res: Self)
        ensures
            res.0 == id,
    {
        FolderId(id)
    }

    /// The UUID value of the identifier.
    pub fn as_uuid(&self) -> (res: u128)
        ensures
            res == self.0,
    {
        self.0
    }

    /// The text form of the identifier (the hyphenated UUID).
    pub fn to_string(&self) -> (res: String)
        ensures
            res@ == uuid_text(self.0),
    {
        uuid_to_string(self.0)
    }

    /// The tag naming this kind of identifier.
    pub fn tag() -> (res: &'static str)
        ensures
            res@ == "folder"@,
    {
        "folder"
    }
}

impl Identifier for FolderId {
    open spec fn uuid_value(&self) -> u128 {
        self.0
    }

    fn uuid(&self) -> (r: u128) {
        self.0
    }
}

/// Identifier of a connection.
#[derive(Debug, Clone, Copy, PartialEq, Eq, Structural, Hash, PartialOrd, Ord)]
pub struct ConnectionId(pub u128);

impl ConnectionId {
    /// A fresh random identifier.
    pub fn new() -> (res: Self)
        ensures
            (res.0 >> 76u128) & 0xfu128 == 4,
            (res.0 >> 62u128) & 0x3u128 == 2,
    {
        ConnectionId(uuid_new_v4())
    }

    /// The identifier with the given UUID value.
    pub fn from_uuid(id: u128) -> (res: Self)
        ensures
            res.0 == id,
    {
        ConnectionId(id)
    }

    /// The UUID value of the identifier.
    pub fn as_uuid(&self) -> (res: u128)
        ensures
            res == self.0,
    {
        self.0
    }

    /// The text form of the identifier (the hyphenated UUID).
    pub fn to_string(&self) -> (res: String)
        ensures
            res@ == uuid_text(self.0),
    {
        uuid_to_string(self.0)
    }

    /// The tag naming this kind of identifier.
    pub fn tag() -> (res: &'static str)
        ensures
            res@ == "connection"@,
    {
        "connection"
    }
}

impl Identifier for ConnectionId {
    open spec fn uuid_value(&self) -> u128 {
        self.0
    }

    fn uuid(&self) -> (r: u128) {
        self.0
    }
}

/// Identifier of a credential profile.
#[derive(Debug, Clone, Copy, PartialEq, Eq, Structural, Hash, PartialOrd, Ord)]
pub struct CredentialId(pub u128);

impl CredentialId {
    /// A fresh random identifier.
    pub fn new() -> (res: Self)
        ensures
            (res.0 >> 76u128) & 0xfu128 == 4,
            (res.0 >> 62u128) & 0x3u128 == 2,
    {
        CredentialId(uuid_new_v4())
    }

    /// The identifier with the given UUID value.
    pub fn from_uuid(id: u128) -> (res: Self)
        ensures
            res.0 == id,
    {
        CredentialId(id)
    }

    /// The UUID value of the identifier.
    pub fn as_uuid(&self) -> (res: u128)
        ensures
            res == self.0,
    {
        self.0
    }

    /// The text form of the identifier (the hyphenated UUID).
    pub fn to_string(&self) -> (res: String)
        ensures
            res@ == uuid_text(self.0),
    {
        uuid_to_string(self.0)
    }

    /// The tag naming this kind of identifier.
    pub fn tag() -> (res: &'static str)
        ensures
            res@ == "credential"@,
    {
        "credential"
    }
}

impl Identifier for CredentialId {
    open spec fn uuid_value(&self) -> u128 {
        self.0
    }

    fn uuid(&self) -> (r: u128) {
        self.0
    }
}

/// Identifier of a vault entry.
#[derive(Debug, Clone, Copy, PartialEq, Eq, Structural, Hash, PartialOrd, Ord)]
pub struct VaultRef(pub u128);

impl VaultRef {
    /// A fresh random identifier.
    pub fn new() -> (res: Self)
        ensures
            (res.0 >> 76u128) & 0xfu128 == 4,
            (res.0 >> 62u128) & 0x3u128 == 2,
    {
        VaultRef(uuid_new_v4())
    }

    /// The identifier with the given UUID value.
    pub fn from_uuid(id: u128) -> (res: Self)
        ensures
            res.0 == id,
    {
        VaultRef(id)
    }

    /// The UUID value of the identifier.
    pub fn as_uuid(&self) -> (res: u128)
        ensures
            res == self.0,
    {
        self.0
    }

    /// The text form of the identifier (the hyphenated UUID).
    pub fn to_string(&self) -> (res: String)
        ensures
            res@ == uuid_text(self.0),
    {
        uuid_to_string(self.0)
    }

    /// The tag naming this kind of identifier.
    pub fn tag() -> (res: &'static str)
        ensures
            res@ == "vault"@,
    {
        "vault"
    }
}

impl Identifier for VaultRef {
    open spec fn uuid_value(&self) -> u128 {
        self.0
    }

    fn uuid(&self) -> (r: u128) {
        self.0
    }
}

/// Identifier of a live session.
#[derive(Debug, Clone, Copy, PartialEq, Eq, Structural, Hash, PartialOrd, Ord)]
pub struct SessionId(pub u128);

impl SessionId {
    /// A fresh random identifier.
    pub fn new() -> (res: Self)
        ensures
            (res.0 >> 76u128) & 0xfu128 == 4,
            (res.0 >> 62u128) & 0x3u128 == 2,
    {
        SessionId(uuid_new_v4())
    }

    /// The identifier with the given UUID value.
    pub fn from_uuid(id: u128) -> (res: Self)
        ensures
            res.0 == id,
    {
        SessionId(id)
    }

    /// The UUID value of the identifier.
    pub fn as_uuid(&self) -> (res: u128)
        ensures
            res == self.0,
    {
        self.0
    }

    /// The text form of the identifier (the hyphenated UUID).
    pub fn to_string(&self) -> (res: String)
        ensures
            res@ == uuid_text(self.0),
    {
        uuid_to_string(self.0)
    }

    /// The tag naming this kind of identifier.
    pub fn tag() -> (res: &'static str)
        ensures
            res@ == "session"@,
    {
        "session"
    }
}

impl Identifier for SessionId {
    open spec fn uuid_value(&self) -> u128 {
        self.0
    }

    fn uuid(&self) -> (r: u128) {
        self.0
    }
}

} // verus!
