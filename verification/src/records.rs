//! Rows as the SQLite store holds them (ids and timestamps as text) and
//! their conversion to and from the registry's typed rows. Reading a row
//! back checks every id and timestamp and names the first one that does
//! not read.

use vstd::prelude::*;
use crate::clock::{parse_rfc3339, rfc3339_instant, Timestamp};
use crate::encoding::{uuid_parse, uuid_parsed, uuid_text, uuid_to_string};
use crate::errors::{AppError, AppResult};
use crate::ids::{ConnectionId, CredentialId, FolderId, VaultRef};
use crate::registry::{protocol_name, Connection, CredentialProfile, Folder, Protocol};
use crate::vault::{has_prefix, kind_name, lemma_has_prefix, SecretKind};

verus! {

/// A folder row as stored.
#[derive(Debug, Clone)]
pub struct FolderRecord {
    pub id: String,
    pub parent_id: Option<String>,
    pub name: String,
    pub default_credential_id: Option<String>,
    pub sort_order: i64,
    pub created_at: String,
    pub updated_at: String,
}

/// A connection row as stored.
#[derive(Debug, Clone)]
pub struct ConnectionRecord {
    pub id: String,
    pub folder_id: Option<String>,
    pub name: String,
    pub protocol: String,
    pub host: String,
    pub port: i64,
    pub username: Option<String>,
    pub credential_id: Option<String>,
    pub options_json: String,
    pub created_at: String,
    pub updated_at: String,
}

/// A credential-profile row as stored.
#[derive(Debug, Clone)]
pub struct CredentialRecord {
    pub id: String,
    pub name: String,
    pub kind: String,
    pub username: Option<String>,
    pub vault_ref: String,
    pub created_at: String,
    pub updated_at: String,
}

/// The RFC 3339 text in UTC of an instant, when chrono can represent it
/// (named: the formatting is left to the crate).
pub uninterp spec fn rfc3339_text(t: Timestamp) -> Option<Seq<char>>;

/// Renders an instant as RFC 3339 text in UTC. Calls
/// `chrono::DateTime::<Utc>::from_timestamp` and `to_rfc3339`; the contract
/// claims only that the outcome is the named rendering.
#[verifier::external_body]
pub fn format_rfc3339(t: Timestamp) -> (res: Option<String>)
    ensures
        match res {
            Some(s) => rfc3339_text(t) == Some(s@),
            None => rfc3339_text(t) is None,
        },
{
    match chrono::DateTime::<chrono::Utc>::from_timestamp(t.secs, t.nanos) {
        Some(dt) => Some(dt.to_rfc3339()),
        None => None,
    }
}

/// The JSON text that a valid JSON document normalises to (named: parsing
/// and printing are left to the crate).
pub uninterp spec fn json_normalized(s: Seq<char>) -> Option<Seq<char>>;

/// Parses JSON text and prints it back compactly. Calls
/// `serde_json::from_str::<serde_json::Value>` and `Value::to_string`; the
/// contract claims the named outcome.
#[verifier::external_body]
pub fn normalize_json(s: &str) -> (res: Option<String>)
    ensures
        match res {
            Some(t) => json_normalized(s@) == Some(t@),
            None => json_normalized(s@) is None,
        },
{
    match serde_json::from_str::<serde_json::Value>(s) {
        Ok(v) => Some(v.to_string()),
        Err(_) => None,
    }
}

/// Whether text reads as a UUID.
pub open spec fn uuid_ok(s: Seq<char>) -> bool {
    uuid_parsed(s) is Some
}

/// Whether an optional text, when given, reads as a UUID.
pub open spec fn opt_uuid_ok(o: Option<String>) -> bool {
    o matches Some(s) ==> uuid_ok(s@)
}

/// The value of an optional UUID text.
pub open spec fn opt_uuid(o: Option<String>) -> Option<u128> {
    match o {
        Some(s) => Some(uuid_parsed(s@)->0),
        None => None,
    }
}

/// The error prefix for an id text that does not read.
pub open spec fn bad_uuid(s: Seq<char>) -> Seq<char> {
    "bad uuid "@ + s + ": "@
}

/// The error prefix for a timestamp text that does not read.
pub open spec fn bad_time(s: Seq<char>) -> Seq<char> {
    "bad timestamp "@ + s + ": "@
}

/// The first id or timestamp of a folder row that does not read, as the
/// prefix of the storage error.
pub open spec fn folder_record_error(r: FolderRecord) -> Option<Seq<char>> {
    if !uuid_ok(r.id@) {
        Some(bad_uuid(r.id@))
    } else if !opt_uuid_ok(r.parent_id) {
        Some(bad_uuid(r.parent_id->0@))
    } else if !opt_uuid_ok(r.default_credential_id) {
        Some(bad_uuid(r.default_credential_id->0@))
    } else if rfc3339_instant(r.created_at@) is None {
        Some(bad_time(r.created_at@))
    } else if rfc3339_instant(r.updated_at@) is None {
        Some(bad_time(r.updated_at@))
    } else {
        None
    }
}

/// Reads an id.
pub fn parse_uuid(s: &String) -> (res: AppResult<u128>)
    ensures
        match res {
            Ok(u) => uuid_parsed(s@) == Some(u),
            Err(AppError::Storage(m)) => !uuid_ok(s@) && has_prefix(m@, bad_uuid(s@)),
            Err(_) => false,
        },
{
    match uuid_parse(s.as_str()) {
        Ok(u) => Ok(u),
        Err(e) => {
            let mut m = String::from_str("bad uuid ");
            m.append(s.as_str());
            m.append(": ");
            proof { lemma_has_prefix(bad_uuid(s@), e@); }
            m.append(e.as_str());
            Err(AppError::Storage(m))
        },
    }
}

fn parse_opt_uuid(o: &Option<String>) -> (res: AppResult<Option<u128>>)
    ensures
        match res {
            Ok(v) => opt_uuid_ok(*o) && v == opt_uuid(*o),
            Err(AppError::Storage(m)) => !opt_uuid_ok(*o) && has_prefix(m@, bad_uuid(o->0@)),
            Err(_) => false,
        },
{
    match o {
        None => Ok(None),
        Some(s) => {
            let u = parse_uuid(s)?;
            Ok(Some(u))
        },
    }
}

/// Reads a timestamp (converted to UTC).
pub fn parse_dt(s: &String) -> (res: AppResult<Timestamp>)
    ensures
        match res {
            Ok(t) => rfc3339_instant(s@) == Some(t),
            Err(AppError::Storage(m)) => rfc3339_instant(s@) is None && has_prefix(m@, bad_time(s@)),
            Err(_) => false,
        },
{
    match parse_rfc3339(s.as_str()) {
        Ok(t) => Ok(t),
        Err(e) => {
            let mut m = String::from_str("bad timestamp ");
            m.append(s.as_str());
            m.append(": ");
            proof { lemma_has_prefix(bad_time(s@), e@); }
            m.append(e.as_str());
            Err(AppError::Storage(m))
        },
    }
}

fn opt_folder(v: Option<u128>) -> (r: Option<FolderId>)
    ensures
        r == match v {
            Some(u) => Some(FolderId(u)),
            None => None::<FolderId>,
        },
{
    match v {
        Some(u) => Some(FolderId(u)),
        None => None,
    }
}

fn opt_credential(v: Option<u128>) -> (r: Option<CredentialId>)
    ensures
        r == match v {
            Some(u) => Some(CredentialId(u)),
            None => None::<CredentialId>,
        },
{
    match v {
        Some(u) => Some(CredentialId(u)),
        None => None,
    }
}

/// The folder a row stands for.
pub open spec fn folder_of(r: FolderRecord) -> Folder {
    Folder {
        id: FolderId(uuid_parsed(r.id@)->0),
        parent_id: match opt_uuid(r.parent_id) {
            Some(u) => Some(FolderId(u)),
            None => None,
        },
        name: r.name,
        default_credential_id: match opt_uuid(r.default_credential_id) {
            Some(u) => Some(CredentialId(u)),
            None => None,
        },
        sort_order: r.sort_order,
        created_at: rfc3339_instant(r.created_at@)->0,
        updated_at: rfc3339_instant(r.updated_at@)->0,
    }
}

/// Reads a folder row.
pub fn folder_from_record(r: &FolderRecord) -> (res: AppResult<Folder>)
    ensures
        match folder_record_error(*r) {
            Some(p) => res matches Err(AppError::Storage(m)) && has_prefix(m@, p),
            None => res == Ok::<Folder, AppError>(folder_of(*r)),
        },
{
    let id = parse_uuid(&r.id)?;
    let parent = parse_opt_uuid(&r.parent_id)?;
    let dcid = parse_opt_uuid(&r.default_credential_id)?;
    let created = parse_dt(&r.created_at)?;
    let updated = parse_dt(&r.updated_at)?;
    Ok(Folder {
        id: FolderId(id),
        parent_id: opt_folder(parent),
        name: r.name.clone(),
        default_credential_id: opt_credential(dcid),
        sort_order: r.sort_order,
        created_at: created,
        updated_at: updated,
    })
}

/// The first part of a connection row that does not read, as the error it
/// gives: an id or timestamp (storage error, by prefix) or the protocol.
pub enum RecordError {
    Storage(Seq<char>),
    Protocol(Seq<char>),
}

/// Whether text names a protocol.
pub open spec fn protocol_ok(s: Seq<char>) -> bool {
    s == "ssh"@ || s == "sftp"@ || s == "rdp"@
}

/// The first field of a connection row that does not read.
pub open spec fn connection_record_error(r: ConnectionRecord) -> Option<RecordError> {
    if !uuid_ok(r.id@) {
        Some(RecordError::Storage(bad_uuid(r.id@)))
    } else if !opt_uuid_ok(r.folder_id) {
        Some(RecordError::Storage(bad_uuid(r.folder_id->0@)))
    } else if !protocol_ok(r.protocol@) {
        Some(RecordError::Protocol(r.protocol@))
    } else if !opt_uuid_ok(r.credential_id) {
        Some(RecordError::Storage(bad_uuid(r.credential_id->0@)))
    } else if rfc3339_instant(r.created_at@) is None {
        Some(RecordError::Storage(bad_time(r.created_at@)))
    } else if rfc3339_instant(r.updated_at@) is None {
        Some(RecordError::Storage(bad_time(r.updated_at@)))
    } else {
        None
    }
}

/// A stored port, clamped into the range of ports.
pub open spec fn clamp_port(p: i64) -> u16 {
    if p < 0 {
        0
    } else if p > 65535 {
        65535
    } else {
        p as u16
    }
}

/// Reads a connection row. Options that are not valid JSON read as `{}`.
pub fn connection_from_record(r: &ConnectionRecord) -> (res: AppResult<Connection>)
    ensures
        match connection_record_error(*r) {
            Some(RecordError::Storage(p)) => res matches Err(AppError::Storage(m)) && has_prefix(m@, p),
            Some(RecordError::Protocol(s)) => res matches Err(AppError::InvalidInput(m)) && m@ == "unknown protocol: "@ + s,
            None => res matches Ok(c) && {
                &&& c.id == ConnectionId(uuid_parsed(r.id@)->0)
                &&& c.folder_id == match opt_uuid(r.folder_id) {
                    Some(u) => Some(FolderId(u)),
                    None => None::<FolderId>,
                }
                &&& c.name == r.name
                &&& protocol_name(c.protocol) == r.protocol@
                &&& c.host == r.host
                &&& c.port == clamp_port(r.port)
                &&& c.username == r.username
                &&& c.credential_id == match opt_uuid(r.credential_id) {
                    Some(u) => Some(CredentialId(u)),
                    None => None::<CredentialId>,
                }
                &&& c.options@ == match json_normalized(r.options_json@) {
                    Some(t) => t,
                    None => "{}"@,
                }
                &&& c.created_at == rfc3339_instant(r.created_at@)->0
                &&& c.updated_at == rfc3339_instant(r.updated_at@)->0
            },
        },
{
    let id = parse_uuid(&r.id)?;
    let folder = parse_opt_uuid(&r.folder_id)?;
    let protocol = Protocol::parse(r.protocol.as_str())?;
    let port: u16 = if r.port < 0 {
        0
    } else if r.port > 65535 {
        65535
    } else {
        r.port as u16
    };
    let cred = parse_opt_uuid(&r.credential_id)?;
    let options = match normalize_json(r.options_json.as_str()) {
        Some(t) => t,
        None => String::from_str("{}"),
    };
    let created = parse_dt(&r.created_at)?;
    let updated = parse_dt(&r.updated_at)?;
    Ok(Connection {
        id: ConnectionId(id),
        folder_id: opt_folder(folder),
        name: r.name.clone(),
        protocol,
        host: r.host.clone(),
        port,
        username: match &r.username {
            Some(u) => Some(u.clone()),
            None => None,
        },
        credential_id: opt_credential(cred),
        options,
        created_at: created,
        updated_at: updated,
    })
}

/// The kind with the given stored name, if any.
pub fn kind_from_name(s: &str) -> (res: Option<SecretKind>)
    ensures
        match res {
            Some(k) => kind_name(k) == s@,
            None => forall|k: SecretKind| kind_name(k) != s@,
        },
{
    let t = String::from_str(s);
    if t == String::from_str("password") {
        Some(SecretKind::Password)
    } else if t == String::from_str("ssh_private_key") {
        Some(SecretKind::SshPrivateKey)
    } else if t == String::from_str("ssh_key_passphrase") {
        Some(SecretKind::SshKeyPassphrase)
    } else if t == String::from_str("rdp_password") {
        Some(SecretKind::RdpPassword)
    } else if t == String::from_str("certificate") {
        Some(SecretKind::Certificate)
    } else if t == String::from_str("generic") {
        Some(SecretKind::Generic)
    } else {
        None
    }
}

/// Whether text names a secret kind.
pub open spec fn kind_ok(s: Seq<char>) -> bool {
    exists|k: SecretKind| kind_name(k) == s
}

/// The error prefix for a kind text that names no kind.
pub open spec fn bad_kind(s: Seq<char>) -> Seq<char> {
    "bad credential kind "@ + s + ": "@
}

/// The first field of a credential row that does not read (the kind is
/// read first), as the prefix of the storage error.
pub open spec fn credential_record_error(r: CredentialRecord) -> Option<Seq<char>> {
    if !kind_ok(r.kind@) {
        Some(bad_kind(r.kind@))
    } else if !uuid_ok(r.id@) {
        Some(bad_uuid(r.id@))
    } else if !uuid_ok(r.vault_ref@) {
        Some(bad_uuid(r.vault_ref@))
    } else if rfc3339_instant(r.created_at@) is None {
        Some(bad_time(r.created_at@))
    } else if rfc3339_instant(r.updated_at@) is None {
        Some(bad_time(r.updated_at@))
    } else {
        None
    }
}

/// Reads a credential-profile row.
pub fn credential_from_record(r: &CredentialRecord) -> (res: AppResult<CredentialProfile>)
    ensures
        match credential_record_error(*r) {
            Some(p) => res matches Err(AppError::Storage(m)) && has_prefix(m@, p),
            None => res matches Ok(c) && {
                &&& c.id == CredentialId(uuid_parsed(r.id@)->0)
                &&& c.name == r.name
                &&& kind_name(c.kind) == r.kind@
                &&& c.username == r.username
                &&& c.vault_ref == VaultRef(uuid_parsed(r.vault_ref@)->0)
                &&& c.created_at == rfc3339_instant(r.created_at@)->0
                &&& c.updated_at == rfc3339_instant(r.updated_at@)->0
            },
        },
{
    let kind = match kind_from_name(r.kind.as_str()) {
        Some(k) => k,
        None => {
            let mut m = String::from_str("bad credential kind ");
            m.append(r.kind.as_str());
            m.append(": ");
            proof { lemma_has_prefix(bad_kind(r.kind@), "unknown variant"@); }
            m.append("unknown variant");
            return Err(AppError::Storage(m));
        },
    };
    let id = parse_uuid(&r.id)?;
    let vref = parse_uuid(&r.vault_ref)?;
    let created = parse_dt(&r.created_at)?;
    let updated = parse_dt(&r.updated_at)?;
    Ok(CredentialProfile {
        id: CredentialId(id),
        name: r.name.clone(),
        kind,
        username: match &r.username {
            Some(u) => Some(u.clone()),
            None => None,
        },
        vault_ref: VaultRef(vref),
        created_at: created,
        updated_at: updated,
    })
}

/// The stored form of an optional id.
fn opt_text(v: Option<u128>) -> (r: Option<String>)
    ensures
        match v {
            Some(u) => r matches Some(s) && s@ == uuid_text(u),
            None => r is None,
        },
{
    match v {
        Some(u) => Some(uuid_to_string(u)),
        None => None,
    }
}

/// The row stored for a folder (`None` when a timestamp cannot be
/// rendered).
pub fn folder_record(f: &Folder) -> (res: Option<FolderRecord>)
    ensures
        match res {
            None => rfc3339_text(f.created_at) is None || rfc3339_text(f.updated_at) is None,
            Some(r) => {
                &&& r.id@ == uuid_text(f.id.0)
                &&& match f.parent_id {
                    Some(p) => r.parent_id matches Some(s) && s@ == uuid_text(p.0),
                    None => r.parent_id is None,
                }
                &&& r.name == f.name
                &&& match f.default_credential_id {
                    Some(c) => r.default_credential_id matches Some(s) && s@ == uuid_text(c.0),
                    None => r.default_credential_id is None,
                }
                &&& r.sort_order == f.sort_order
                &&& rfc3339_text(f.created_at) == Some(r.created_at@)
                &&& rfc3339_text(f.updated_at) == Some(r.updated_at@)
            },
        },
{
    let created = format_rfc3339(f.created_at)?;
    let updated = format_rfc3339(f.updated_at)?;
    Some(FolderRecord {
        id: uuid_to_string(f.id.0),
        parent_id: opt_text(match f.parent_id { Some(p) => Some(p.0), None => None }),
        name: f.name.clone(),
        default_credential_id: opt_text(match f.default_credential_id { Some(c) => Some(c.0), None => None }),
        sort_order: f.sort_order,
        created_at: created,
        updated_at: updated,
    })
}

/// The row stored for a connection (`None` when a timestamp cannot be
/// rendered).
pub fn connection_record(c: &Connection) -> (res: Option<ConnectionRecord>)
    ensures
        match res {
            None => rfc3339_text(c.created_at) is None || rfc3339_text(c.updated_at) is None,
            Some(r) => {
                &&& r.id@ == uuid_text(c.id.0)
                &&& match c.folder_id {
                    Some(p) => r.folder_id matches Some(s) && s@ == uuid_text(p.0),
                    None => r.folder_id is None,
                }
                &&& r.name == c.name
                &&& r.protocol@ == protocol_name(c.protocol)
                &&& r.host == c.host
                &&& r.port == c.port as i64
                &&& r.username == c.username
                &&& match c.credential_id {
                    Some(p) => r.credential_id matches Some(s) && s@ == uuid_text(p.0),
                    None => r.credential_id is None,
                }
                &&& r.options_json == c.options
                &&& rfc3339_text(c.created_at) == Some(r.created_at@)
                &&& rfc3339_text(c.updated_at) == Some(r.updated_at@)
            },
        },
{
    let created = format_rfc3339(c.created_at)?;
    let updated = format_rfc3339(c.updated_at)?;
    Some(ConnectionRecord {
        id: uuid_to_string(c.id.0),
        folder_id: opt_text(match c.folder_id { Some(p) => Some(p.0), None => None }),
        name: c.name.clone(),
        protocol: String::from_str(c.protocol.as_str()),
        host: c.host.clone(),
        port: c.port as i64,
        username: match &c.username {
            Some(u) => Some(u.clone()),
            None => None,
        },
        credential_id: opt_text(match c.credential_id { Some(p) => Some(p.0), None => None }),
        options_json: c.options.clone(),
        created_at: created,
        updated_at: updated,
    })
}

/// The row stored for a credential profile (`None` when a timestamp cannot
/// be rendered).
pub fn credential_record(p: &CredentialProfile) -> (res: Option<CredentialRecord>)
    ensures
        match res {
            None => rfc3339_text(p.created_at) is None || rfc3339_text(p.updated_at) is None,
            Some(r) => {
                &&& r.id@ == uuid_text(p.id.0)
                &&& r.name == p.name
                &&& r.kind@ == kind_name(p.kind)
                &&& r.username == p.username
                &&& r.vault_ref@ == uuid_text(p.vault_ref.0)
                &&& rfc3339_text(p.created_at) == Some(r.created_at@)
                &&& rfc3339_text(p.updated_at) == Some(r.updated_at@)
            },
        },
{
    let created = format_rfc3339(p.created_at)?;
    let updated = format_rfc3339(p.updated_at)?;
    Some(CredentialRecord {
        id: uuid_to_string(p.id.0),
        name: p.name.clone(),
        kind: String::from_str(p.kind.name()),
        username: match &p.username {
            Some(u) => Some(u.clone()),
            None => None,
        },
        vault_ref: uuid_to_string(p.vault_ref.0),
        created_at: created,
        updated_at: updated,
    })
}

} // verus!
