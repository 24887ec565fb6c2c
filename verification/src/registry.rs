//! Metadata store for folders, connections and credential profiles.
//!
//! No secret material lives here: credential profiles only hold a
//! `vault_ref` pointing into the encrypted vault. The store keeps the rules
//! of its relational schema: ids are unique, references must name existing
//! rows when written, deleting a folder deletes its sub-folders, and
//! deleting a referenced row clears the references to it.

use vstd::prelude::*;
use crate::clock::{now, Timestamp};
use crate::encoding::uuid_text;
use crate::errors::{err_of, AppError, AppResult, ErrorView};
use crate::ids::{ConnectionId, CredentialId, FolderId, VaultRef};
use crate::table::{copy_rows, find_row, without_key, has_key, keys_unique, ordered, row_with, sorted_rows, Row, lemma_row_with};
use crate::text::{chars_of, contains_chars, lemma_text_lt_asymmetric, lemma_text_lt_transitive, string_of, text_lt, chars_lt, trim, trim_chars, utf8_len, utf8_len_exceeds};
use crate::vault::SecretKind;

verus! {

broadcast use vstd::seq_lib::group_to_multiset_ensures;

/// Remote-access protocol of a connection.
#[derive(Debug, Clone, Copy, PartialEq, Eq, Structural)]
pub enum Protocol {
    Ssh,
    Sftp,
    Rdp,
}

/// The stored name of each protocol.
pub open spec fn protocol_name(p: Protocol) -> Seq<char> {
    match p {
        Protocol::Ssh => "ssh"@,
        Protocol::Sftp => "sftp"@,
        Protocol::Rdp => "rdp"@,
    }
}

/// The port a connection uses when none is given.
pub open spec fn default_port_of(p: Protocol) -> u16 {
    match p {
        Protocol::Ssh | Protocol::Sftp => 22,
        Protocol::Rdp => 3389,
    }
}

impl Protocol {
    /// The stored name of the protocol.
    pub fn as_str(&self) -> (res: &'static str)
        ensures
            res@ == protocol_name(*self),
    {
        match self {
            Protocol::Ssh => "ssh",
            Protocol::Sftp => "sftp",
            Protocol::Rdp => "rdp",
        }
    }

    /// The protocol with the given stored name.
    pub fn parse(s: &str) -> (res: AppResult<Protocol>)
        ensures
            match res {
                Ok(p) => protocol_name(p) == s@,
                Err(e) => e@ == ErrorView::InvalidInput("unknown protocol: "@ + s@)
                    && s@ != "ssh"@ && s@ != "sftp"@ && s@ != "rdp"@,
            },
    {
        let t = String::from_str(s);
        if t == String::from_str("ssh") {
            Ok(Protocol::Ssh)
        } else if t == String::from_str("sftp") {
            Ok(Protocol::Sftp)
        } else if t == String::from_str("rdp") {
            Ok(Protocol::Rdp)
        } else {
            Err(AppError::InvalidInput(crate::errors::text_error("unknown protocol: ", &t)))
        }
    }

    /// The port a connection uses when none is given.
    pub fn default_port(&self) -> (res: u16)
        ensures
            res == default_port_of(*self),
    {
        match self {
            Protocol::Ssh | Protocol::Sftp => 22,
            Protocol::Rdp => 3389,
        }
    }
}

fn clone_opt_string(s: &Option<String>) -> (res: Option<String>)
    ensures
        res == *s,
{
    match s {
        Some(x) => Some(x.clone()),
        None => None,
    }
}

/// A folder of the connection tree.
#[derive(Debug, PartialEq, Eq)]
pub struct Folder {
    pub id: FolderId,
    pub parent_id: Option<FolderId>,
    pub name: String,
    pub default_credential_id: Option<CredentialId>,
    pub sort_order: i64,
    pub created_at: Timestamp,
    pub updated_at: Timestamp,
}

/// A saved connection.
#[derive(Debug)]
pub struct Connection {
    pub id: ConnectionId,
    pub folder_id: Option<FolderId>,
    pub name: String,
    pub protocol: Protocol,
    pub host: String,
    pub port: u16,
    pub username: Option<String>,
    pub credential_id: Option<CredentialId>,
    /// Protocol options, as JSON text.
    pub options: String,
    pub created_at: Timestamp,
    pub updated_at: Timestamp,
}

/// A reusable credential: a name, a kind and a reference into the vault.
#[derive(Debug)]
pub struct CredentialProfile {
    pub id: CredentialId,
    pub name: String,
    pub kind: SecretKind,
    pub username: Option<String>,
    pub vault_ref: VaultRef,
    pub created_at: Timestamp,
    pub updated_at: Timestamp,
}

impl Clone for Folder {
    fn clone(&self) -> (r: Self)
        ensures
            r == *self,
    {
        Folder {
            id: self.id,
            parent_id: self.parent_id,
            name: self.name.clone(),
            default_credential_id: self.default_credential_id,
            sort_order: self.sort_order,
            created_at: self.created_at,
            updated_at: self.updated_at,
        }
    }
}

impl Clone for Connection {
    fn clone(&self) -> (r: Self)
        ensures
            r == *self,
    {
        Connection {
            id: self.id,
            folder_id: self.folder_id,
            name: self.name.clone(),
            protocol: self.protocol,
            host: self.host.clone(),
            port: self.port,
            username: clone_opt_string(&self.username),
            credential_id: self.credential_id,
            options: self.options.clone(),
            created_at: self.created_at,
            updated_at: self.updated_at,
        }
    }
}

impl Clone for CredentialProfile {
    fn clone(&self) -> (r: Self)
        ensures
            r == *self,
    {
        CredentialProfile {
            id: self.id,
            name: self.name.clone(),
            kind: self.kind,
            username: clone_opt_string(&self.username),
            vault_ref: self.vault_ref,
            created_at: self.created_at,
            updated_at: self.updated_at,
        }
    }
}

impl Row for Folder {
    open spec fn key(&self) -> u128 {
        self.id.0
    }

    /// Folders list by `sort_order`, then by name.
    open spec fn precedes(&self, other: &Self) -> bool {
        self.sort_order < other.sort_order || (self.sort_order == other.sort_order && text_lt(
            self.name@,
            other.name@,
        ))
    }

    proof fn lemma_precedes_transitive(a: &Self, b: &Self, c: &Self) {
        if a.sort_order == b.sort_order && b.sort_order == c.sort_order {
            lemma_text_lt_transitive(a.name@, b.name@, c.name@);
        }
    }

    proof fn lemma_precedes_asymmetric(a: &Self, b: &Self) {
        if a.sort_order == b.sort_order {
            lemma_text_lt_asymmetric(a.name@, b.name@);
        }
    }

    fn row_key(&self) -> (k: u128) {
        self.id.0
    }

    fn row_precedes(&self, other: &Self) -> (b: bool) {
        if self.sort_order != other.sort_order {
            self.sort_order < other.sort_order
        } else {
            chars_lt(&chars_of(self.name.as_str()), &chars_of(other.name.as_str()))
        }
    }

    fn duplicate(&self) -> (r: Self) {
        self.clone()
    }
}

impl Row for Connection {
    open spec fn key(&self) -> u128 {
        self.id.0
    }

    /// Connections list by name.
    open spec fn precedes(&self, other: &Self) -> bool {
        text_lt(self.name@, other.name@)
    }

    proof fn lemma_precedes_transitive(a: &Self, b: &Self, c: &Self) {
        lemma_text_lt_transitive(a.name@, b.name@, c.name@);
    }

    proof fn lemma_precedes_asymmetric(a: &Self, b: &Self) {
        lemma_text_lt_asymmetric(a.name@, b.name@);
    }

    fn row_key(&self) -> (k: u128) {
        self.id.0
    }

    fn row_precedes(&self, other: &Self) -> (b: bool) {
        chars_lt(&chars_of(self.name.as_str()), &chars_of(other.name.as_str()))
    }

    fn duplicate(&self) -> (r: Self) {
        self.clone()
    }
}

impl Row for CredentialProfile {
    open spec fn key(&self) -> u128 {
        self.id.0
    }

    /// Credential profiles list by name.
    open spec fn precedes(&self, other: &Self) -> bool {
        text_lt(self.name@, other.name@)
    }

    proof fn lemma_precedes_transitive(a: &Self, b: &Self, c: &Self) {
        lemma_text_lt_transitive(a.name@, b.name@, c.name@);
    }

    proof fn lemma_precedes_asymmetric(a: &Self, b: &Self) {
        lemma_text_lt_asymmetric(a.name@, b.name@);
    }

    fn row_key(&self) -> (k: u128) {
        self.id.0
    }

    fn row_precedes(&self, other: &Self) -> (b: bool) {
        chars_lt(&chars_of(self.name.as_str()), &chars_of(other.name.as_str()))
    }

    fn duplicate(&self) -> (r: Self) {
        self.clone()
    }
}

/// What the renderer supplies to create or update a folder.
#[derive(Debug, Clone)]
pub struct FolderInput {
    pub parent_id: Option<FolderId>,
    pub name: String,
    pub default_credential_id: Option<CredentialId>,
    pub sort_order: Option<i64>,
}

/// What the renderer supplies to create or update a connection.
#[derive(Debug, Clone)]
pub struct ConnectionInput {
    pub folder_id: Option<FolderId>,
    pub name: String,
    pub protocol: Protocol,
    pub host: String,
    pub port: Option<u16>,
    pub username: Option<String>,
    pub credential_id: Option<CredentialId>,
    /// Protocol options as JSON text; `{}` when absent.
    pub options: Option<String>,
}

/// What the renderer supplies to create or update a credential profile.
#[derive(Debug, Clone)]
pub struct CredentialProfileInput {
    pub name: String,
    pub kind: SecretKind,
    pub username: Option<String>,
    pub vault_ref: VaultRef,
}

/// Everything the registry holds, for export and import.
#[derive(Debug, Clone)]
pub struct ExportBundle {
    pub version: u32,
    pub folders: Vec<Folder>,
    pub connections: Vec<Connection>,
    pub credentials: Vec<CredentialProfile>,
}

/// How many rows an import added, per table.
#[derive(Debug, Clone, Copy, Default)]
pub struct ImportSummary {
    pub folders_added: usize,
    pub connections_added: usize,
    pub credentials_added: usize,
}

/// Why a name is refused, if it is: empty once trimmed, or longer than
/// 256 bytes once trimmed.
pub open spec fn name_error(name: Seq<char>) -> Option<Seq<char>> {
    if trim(name).len() == 0 {
        Some("name cannot be empty"@)
    } else if utf8_len(trim(name)) > 256 {
        Some("name too long"@)
    } else {
        None
    }
}

/// Whether `c` may not appear in a host name: an ASCII control character or
/// a space (a tab is a control character).
pub open spec fn bad_host_char(c: char) -> bool {
    (c as u32) < 32 || (c as u32) == 127 || c == ' '
}

/// Why a host is refused, if it is: empty once trimmed, longer than 256
/// bytes once trimmed, or holding a control character or a space.
pub open spec fn host_error(host: Seq<char>) -> Option<Seq<char>> {
    if trim(host).len() == 0 {
        Some("host cannot be empty"@)
    } else if utf8_len(trim(host)) > 256 {
        Some("host too long"@)
    } else if exists|i: int| 0 <= i < trim(host).len() && bad_host_char(#[trigger] trim(host)[i]) {
        Some("host contains invalid characters"@)
    } else {
        None
    }
}

/// The refusal as an error of kind `InvalidInput`.
pub open spec fn invalid(msg: Option<Seq<char>>) -> Option<ErrorView> {
    match msg {
        Some(m) => Some(ErrorView::InvalidInput(m)),
        None => None,
    }
}

fn invalid_input(msg: &str) -> (e: AppError)
    ensures
        e@ == ErrorView::InvalidInput(msg@),
{
    AppError::InvalidInput(String::from_str(msg))
}

/// Checks a folder, connection or credential name.
pub fn validate_name(name: &str) -> (res: AppResult<()>)
    ensures
        err_of(res) == invalid(name_error(name@)),
{
    let trimmed = trim_chars(&chars_of(name));
    if trimmed.len() == 0 {
        return Err(invalid_input("name cannot be empty"));
    }
    if utf8_len_exceeds(&trimmed, 256) {
        return Err(invalid_input("name too long"));
    }
    Ok(())
}

/// Checks a connection's host.
pub fn validate_host(host: &str) -> (res: AppResult<()>)
    ensures
        err_of(res) == invalid(host_error(host@)),
{
    let trimmed = trim_chars(&chars_of(host));
    if trimmed.len() == 0 {
        return Err(invalid_input("host cannot be empty"));
    }
    if utf8_len_exceeds(&trimmed, 256) {
        return Err(invalid_input("host too long"));
    }
    let mut i: usize = 0;
    while i < trimmed.len()
        invariant
            i <= trimmed.len(),
            trimmed@ == trim(host@),
            trimmed@.len() > 0,
            utf8_len(trimmed@) <= 256,
            forall|j: int| 0 <= j < i ==> !bad_host_char(#[trigger] trimmed@[j]),
        decreases trimmed.len() - i,
    {
        let c = trimmed[i];
        if (c as u32) < 32 || (c as u32) == 127 || c == ' ' {
            assert(bad_host_char(trimmed@[i as int]));
            return Err(invalid_input("host contains invalid characters"));
        }
        i += 1;
    }
    Ok(())
}


/// The error for a missing row of some table, named by its id text.
pub open spec fn missing(what: Seq<char>, id: u128) -> ErrorView {
    ErrorView::NotFound(what + uuid_text(id))
}

/// The error a write reports when it would store a second row with an id
/// (SQLite's primary-key constraint, as sqlx words it).
pub open spec fn duplicate_id(table: Seq<char>) -> ErrorView {
    ErrorView::Storage("error returned from database: (code: 1555) UNIQUE constraint failed: "@ + table + ".id"@)
}

/// The error a write reports when a reference names no row (SQLite's
/// foreign-key constraint, as sqlx words it).
pub open spec fn dangling_reference() -> ErrorView {
    ErrorView::Storage("error returned from database: (code: 787) FOREIGN KEY constraint failed"@)
}

fn not_found(what: &str, id: u128) -> (e: AppError)
    ensures
        e@ == missing(what@, id),
{
    let mut m = String::from_str(what);
    let t = crate::encoding::uuid_to_string(id);
    m.append(t.as_str());
    AppError::NotFound(m)
}

fn duplicate_id_error(table: &str) -> (e: AppError)
    ensures
        e@ == duplicate_id(table@),
{
    let mut m = String::from_str("error returned from database: (code: 1555) UNIQUE constraint failed: ");
    m.append(table);
    m.append(".id");
    AppError::Storage(m)
}

fn dangling_reference_error() -> (e: AppError)
    ensures
        e@ == dangling_reference(),
{
    AppError::Storage(String::from_str("error returned from database: (code: 787) FOREIGN KEY constraint failed"))
}

/// The folder a folder input describes.
pub open spec fn folder_from_input(input: FolderInput, id: FolderId, created: Timestamp, updated: Timestamp) -> Folder {
    Folder {
        id,
        parent_id: input.parent_id,
        name: input.name,
        default_credential_id: input.default_credential_id,
        sort_order: match input.sort_order {
            Some(s) => s,
            None => 0,
        },
        created_at: created,
        updated_at: updated,
    }
}

/// The options text stored when none are given.
pub open spec fn options_or_empty(o: Option<String>) -> Seq<char> {
    match o {
        Some(t) => t@,
        None => "{}"@,
    }
}

/// Whether `c` is the connection a connection input describes: the
/// protocol's default port when none is given, and `{}` options when none
/// are given.
pub open spec fn connection_matches_input(c: Connection, input: ConnectionInput, id: ConnectionId, created: Timestamp, updated: Timestamp) -> bool {
    &&& c.id == id
    &&& c.folder_id == input.folder_id
    &&& c.name == input.name
    &&& c.protocol == input.protocol
    &&& c.host == input.host
    &&& c.port == match input.port {
        Some(p) => p,
        None => default_port_of(input.protocol),
    }
    &&& c.username == input.username
    &&& c.credential_id == input.credential_id
    &&& c.options@ == options_or_empty(input.options)
    &&& c.created_at == created
    &&& c.updated_at == updated
}

/// The credential profile a credential input describes.
pub open spec fn credential_from_input(input: CredentialProfileInput, id: CredentialId, created: Timestamp, updated: Timestamp) -> CredentialProfile {
    CredentialProfile {
        id,
        name: input.name,
        kind: input.kind,
        username: input.username,
        vault_ref: input.vault_ref,
        created_at: created,
        updated_at: updated,
    }
}

/// The parent of the folder with key `k`, if that folder exists and has one.
pub open spec fn parent_of(folders: Seq<Folder>, k: u128) -> Option<FolderId> {
    if has_key(folders, k) {
        row_with(folders, k).parent_id
    } else {
        None
    }
}

/// Following parent links `n` times from key `k`.
pub open spec fn ancestor(folders: Seq<Folder>, k: u128, n: nat) -> Option<u128>
    decreases n,
{
    if n == 0 {
        Some(k)
    } else {
        match parent_of(folders, k) {
            Some(p) => ancestor(folders, p.0, (n - 1) as nat),
            None => None,
        }
    }
}

/// Whether the folder with key `k` is `root` or lies (at any depth) below it.
pub open spec fn within(folders: Seq<Folder>, k: u128, root: u128) -> bool {
    exists|n: nat| ancestor(folders, k, n) == Some(root)
}

fn contains_u128(v: &Vec<u128>, k: u128) -> (b: bool)
    ensures
        b == v@.contains(k),
{
    let mut i: usize = 0;
    while i < v.len()
        invariant
            i <= v.len(),
            forall|j: int| 0 <= j < i ==> v@[j] != k,
        decreases v.len() - i,
    {
        if v[i] == k {
            return true;
        }
        i += 1;
    }
    false
}

proof fn lemma_within_step(folders: Seq<Folder>, i: int, root: u128)
    requires
        keys_unique(folders),
        0 <= i < folders.len(),
        folders[i].parent_id is Some,
        within(folders, folders[i].parent_id.unwrap().0, root),
    ensures
        within(folders, folders[i].id.0, root),
{
    lemma_row_with(folders, i);
    let p = folders[i].parent_id.unwrap().0;
    let n = choose|n: nat| ancestor(folders, p, n) == Some(root);
    assert(parent_of(folders, folders[i].key()) == Some(folders[i].parent_id.unwrap()));
    assert(ancestor(folders, folders[i].id.0, n + 1) == ancestor(folders, p, n));
}

proof fn lemma_closed_contains_within(folders: Seq<Folder>, del: Seq<u128>, root: u128, k: u128, n: nat)
    requires
        keys_unique(folders),
        del.contains(root),
        has_key(folders, k),
        forall|i: int|
            0 <= i < folders.len() && (#[trigger] folders[i]).parent_id is Some && del.contains(
                folders[i].parent_id.unwrap().0,
            ) ==> del.contains(folders[i].id.0),
        ancestor(folders, k, n) == Some(root),
    ensures
        del.contains(k),
    decreases n,
{
    if n > 0 {
        let i = choose|i: int| 0 <= i < folders.len() && #[trigger] folders[i].key() == k;
        lemma_row_with(folders, i);
        assert(parent_of(folders, k) == folders[i].parent_id);
        assert(folders[i].parent_id is Some);
        let p = folders[i].parent_id.unwrap().0;
        assert(ancestor(folders, k, n) == ancestor(folders, p, (n - 1) as nat));
        if n == 1 {
            assert(ancestor(folders, p, 0) == Some(p));
        } else {
            assert(has_key(folders, p)) by {
                if !has_key(folders, p) {
                    assert(parent_of(folders, p) is None);
                }
            }
            lemma_closed_contains_within(folders, del, root, p, (n - 1) as nat);
        }
        assert(del.contains(p));
    }
}

/// The keys of the folders within `root` (the folder and everything below it).
fn subtree_keys(folders: &Vec<Folder>, root: u128) -> (del: Vec<u128>)
    requires
        keys_unique(folders@),
        has_key(folders@, root),
    ensures
        forall|k: u128| #[trigger] del@.contains(k) <==> (has_key(folders@, k) && within(folders@, k, root)),
{
    let mut del: Vec<u128> = Vec::new();
    del.push(root);
    assert(ancestor(folders@, root, 0) == Some(root));
    assert(del@[0] == root);
    let mut changed = true;
    while changed
        invariant
            keys_unique(folders@),
            del@.no_duplicates(),
            del@.contains(root),
            forall|j: int|
                0 <= j < del@.len() ==> has_key(folders@, #[trigger] del@[j]) && within(
                    folders@,
                    del@[j],
                    root,
                ),
            !changed ==> forall|i: int|
                0 <= i < folders@.len() && (#[trigger] folders@[i]).parent_id is Some
                    && del@.contains(folders@[i].parent_id.unwrap().0) ==> del@.contains(
                    folders@[i].id.0,
                ),
        decreases folders@.len() - del@.len(), if changed { 1int } else { 0int },
    {
        proof { crate::table::lemma_distinct_keys_bounded(del@, folders@); }
        let ghost start_len = del@.len();
        changed = false;
        let mut i: usize = 0;
        while i < folders.len()
            invariant
                keys_unique(folders@),
                i <= folders.len(),
                del@.no_duplicates(),
                del@.contains(root),
                del@.len() >= start_len,
                start_len <= folders@.len(),
                changed ==> del@.len() > start_len,
                !changed ==> del@.len() == start_len,
                forall|j: int|
                    0 <= j < del@.len() ==> has_key(folders@, #[trigger] del@[j]) && within(
                        folders@,
                        del@[j],
                        root,
                    ),
                !changed ==> forall|q: int|
                    0 <= q < i && (#[trigger] folders@[q]).parent_id is Some && del@.contains(
                        folders@[q].parent_id.unwrap().0,
                    ) ==> del@.contains(folders@[q].id.0),
            decreases folders.len() - i,
        {
            if let Some(p) = folders[i].parent_id {
                let k = folders[i].id.0;
                if contains_u128(&del, p.0) && !contains_u128(&del, k) {
                    proof {
                        let jp = choose|j: int| 0 <= j < del@.len() && del@[j] == p.0;
                        assert(within(folders@, del@[jp], root));
                        lemma_within_step(folders@, i as int, root);
                        assert(folders@[i as int].key() == k);
                    }
                    let ghost before = del@;
                    del.push(k);
                    proof {
                        assert(del@[before.len() as int] == k);
                        let jr = choose|j: int| 0 <= j < before.len() && before[j] == root;
                        assert(del@[jr] == root);
                    }
                    changed = true;
                }
            }
            i += 1;
        }
        proof {
            if changed {
                crate::table::lemma_distinct_keys_bounded(del@, folders@);
            }
        }
    }
    proof {
        assert forall|k: u128| has_key(folders@, k) && within(folders@, k, root) implies del@.contains(k) by {
            let n = choose|n: nat| ancestor(folders@, k, n) == Some(root);
            lemma_closed_contains_within(folders@, del@, root, k, n);
        }
        assert forall|k: u128| del@.contains(k) implies has_key(folders@, k) && within(folders@, k, root) by {
            let j = choose|j: int| 0 <= j < del@.len() && del@[j] == k;
            assert(has_key(folders@, del@[j]));
        }
    }
    del
}

/// A connection after the folders within `root` were deleted: its folder
/// reference is cleared if it named one of them.
pub open spec fn clear_folder_ref(c: Connection, folders: Seq<Folder>, root: u128) -> Connection {
    if c.folder_id is Some && within(folders, c.folder_id.unwrap().0, root) {
        Connection { folder_id: None, ..c }
    } else {
        c
    }
}

proof fn lemma_within_has_key(folders: Seq<Folder>, k: u128, root: u128)
    requires
        has_key(folders, root),
        within(folders, k, root),
    ensures
        has_key(folders, k),
{
    let n = choose|n: nat| ancestor(folders, k, n) == Some(root);
    if n > 0 && !has_key(folders, k) {
        assert(parent_of(folders, k) is None);
    }
}

/// Whether the references of an imported folder name stored rows (a folder
/// may name itself as parent).
pub open spec fn folder_refs_ok(fs: Seq<Folder>, cs: Seq<CredentialProfile>, f: Folder) -> bool {
    &&& (f.parent_id is None || f.parent_id == Some(f.id) || has_key(fs, f.parent_id.unwrap().0))
    &&& (f.default_credential_id is None || has_key(cs, f.default_credential_id.unwrap().0))
}

/// Whether the references of an imported connection name stored rows.
pub open spec fn connection_refs_ok(fs: Seq<Folder>, cs: Seq<CredentialProfile>, c: Connection) -> bool {
    &&& (c.folder_id is None || has_key(fs, c.folder_id.unwrap().0))
    &&& (c.credential_id is None || has_key(cs, c.credential_id.unwrap().0))
}

/// Importing folders one by one: rows whose id is stored are skipped, the
/// others are added; a row with a dangling reference stops the import.
/// Gives the folders afterwards, the count added, and whether it completed.
pub open spec fn import_folders(fs: Seq<Folder>, cs: Seq<CredentialProfile>, b: Seq<Folder>, n: nat) -> (Seq<Folder>, nat, bool)
    decreases b.len(),
{
    if b.len() == 0 {
        (fs, n, true)
    } else if has_key(fs, b[0].id.0) {
        import_folders(fs, cs, b.drop_first(), n)
    } else if !folder_refs_ok(fs, cs, b[0]) {
        (fs, n, false)
    } else {
        import_folders(fs.push(b[0]), cs, b.drop_first(), n + 1)
    }
}

/// Importing credential profiles one by one, skipping stored ids.
pub open spec fn import_credentials(cs: Seq<CredentialProfile>, b: Seq<CredentialProfile>, n: nat) -> (Seq<CredentialProfile>, nat)
    decreases b.len(),
{
    if b.len() == 0 {
        (cs, n)
    } else if has_key(cs, b[0].id.0) {
        import_credentials(cs, b.drop_first(), n)
    } else {
        import_credentials(cs.push(b[0]), b.drop_first(), n + 1)
    }
}

/// Importing connections one by one, like folders.
pub open spec fn import_connections(ns: Seq<Connection>, fs: Seq<Folder>, cs: Seq<CredentialProfile>, b: Seq<Connection>, n: nat) -> (Seq<Connection>, nat, bool)
    decreases b.len(),
{
    if b.len() == 0 {
        (ns, n, true)
    } else if has_key(ns, b[0].id.0) {
        import_connections(ns, fs, cs, b.drop_first(), n)
    } else if !connection_refs_ok(fs, cs, b[0]) {
        (ns, n, false)
    } else {
        import_connections(ns.push(b[0]), fs, cs, b.drop_first(), n + 1)
    }
}

/// A folder after credential `id` was deleted.
pub open spec fn clear_folder_credential(f: Folder, id: CredentialId) -> Folder {
    if f.default_credential_id == Some(id) {
        Folder { default_credential_id: None, ..f }
    } else {
        f
    }
}

/// A connection after credential `id` was deleted.
pub open spec fn clear_connection_credential(c: Connection, id: CredentialId) -> Connection {
    if c.credential_id == Some(id) {
        Connection { credential_id: None, ..c }
    } else {
        c
    }
}

proof fn lemma_push_unique<R: Row>(s: Seq<R>, r: R)
    requires
        keys_unique(s),
        !has_key(s, r.key()),
    ensures
        keys_unique(s.push(r)),
        forall|k: u128| has_key(s, k) ==> has_key(s.push(r), k),
{
    let t = s.push(r);
    assert forall|i: int, j: int| 0 <= i < j < t.len() implies t[i].key() != t[j].key() by {
        if j == t.len() - 1 {
            assert(t[i] == s[i]);
        } else {
            assert(t[i] == s[i] && t[j] == s[j]);
        }
    }
    assert forall|k: u128| has_key(s, k) implies has_key(t, k) by {
        let i = choose|i: int| 0 <= i < s.len() && #[trigger] s[i].key() == k;
        assert(t[i] == s[i]);
    }
}

/// The registry: three tables with unique ids.
pub struct Registry {
    folders: Vec<Folder>,
    connections: Vec<Connection>,
    credentials: Vec<CredentialProfile>,
}

impl Registry {
    /// The folders, in storage order.
    pub closed spec fn folders_view(&self) -> Seq<Folder> {
        self.folders@
    }

    /// The connections, in storage order.
    pub closed spec fn connections_view(&self) -> Seq<Connection> {
        self.connections@
    }

    /// The credential profiles, in storage order.
    pub closed spec fn credentials_view(&self) -> Seq<CredentialProfile> {
        self.credentials@
    }

    /// Ids are unique in every table.
    pub open spec fn wf(&self) -> bool {
        &&& keys_unique(self.folders_view())
        &&& keys_unique(self.connections_view())
        &&& keys_unique(self.credentials_view())
    }

    /// An empty registry.
    pub fn new() -> (r: Registry)
        ensures
            r.wf(),
            r.folders_view().len() == 0,
            r.connections_view().len() == 0,
            r.credentials_view().len() == 0,
    {
        Registry { folders: Vec::new(), connections: Vec::new(), credentials: Vec::new() }
    }

    /// A registry holding the given tables (as read back from storage,
    /// where ids are primary keys).
    pub fn from_tables(folders: Vec<Folder>, connections: Vec<Connection>, credentials: Vec<CredentialProfile>) -> (r: Registry)
        requires
            keys_unique(folders@),
            keys_unique(connections@),
            keys_unique(credentials@),
        ensures
            r.wf(),
            r.folders_view() == folders@,
            r.connections_view() == connections@,
            r.credentials_view() == credentials@,
    {
        Registry { folders, connections, credentials }
    }

    /// An empty registry held in memory only.
    pub fn open_memory() -> (r: Registry)
        ensures
            r.wf(),
            r.folders_view().len() == 0,
            r.connections_view().len() == 0,
            r.credentials_view().len() == 0,
    {
        Registry::new()
    }

    // ---- folders ----

    /// All folders, by `sort_order` then name.
    pub fn list_folders(&self) -> (res: AppResult<Vec<Folder>>)
        ensures
            res matches Ok(v) && v@.to_multiset() == self.folders_view().to_multiset() && ordered(
                v@,
            ),
    {
        Ok(sorted_rows(&self.folders))
    }

    /// The folder with the given id.
    pub fn get_folder(&self, id: &FolderId) -> (res: AppResult<Folder>)
        requires
            self.wf(),
        ensures
            has_key(self.folders_view(), id.0) ==> res == Ok::<Folder, AppError>(
                row_with(self.folders_view(), id.0),
            ),
            !has_key(self.folders_view(), id.0) ==> err_of(res) == Some(
                missing("folder "@, id.0),
            ),
    {
        match find_row(&self.folders, id.0) {
            Some(i) => {
                proof { lemma_row_with(self.folders@, i as int); }
                Ok(self.folders[i].clone())
            },
            None => Err(not_found("folder ", id.0)),
        }
    }

    /// Why a folder input is refused, if it is: a bad name, or a reference
    /// to a missing parent folder or credential.
    pub open spec fn folder_input_error(&self, input: FolderInput) -> Option<ErrorView> {
        if name_error(input.name@) is Some {
            invalid(name_error(input.name@))
        } else if input.parent_id is Some && !has_key(
            self.folders_view(),
            input.parent_id.unwrap().0,
        ) {
            Some(missing("folder "@, input.parent_id.unwrap().0))
        } else if input.default_credential_id is Some && !has_key(
            self.credentials_view(),
            input.default_credential_id.unwrap().0,
        ) {
            Some(missing("credential "@, input.default_credential_id.unwrap().0))
        } else {
            None
        }
    }

    /// Why creating a folder with this input and id is refused, if it is.
    pub open spec fn create_folder_error(&self, input: FolderInput, id: u128) -> Option<ErrorView> {
        if self.folder_input_error(input) is Some {
            self.folder_input_error(input)
        } else if has_key(self.folders_view(), id) {
            Some(duplicate_id("folders"@))
        } else {
            None
        }
    }

    /// Creates a folder with the given id and creation time.
    pub fn create_folder_with(&mut self, input: FolderInput, id: FolderId, at: Timestamp) -> (res:
        AppResult<Folder>)
        requires
            old(self).wf(),
        ensures
            final(self).wf(),
            err_of(res) == old(self).create_folder_error(input, id.0),
            res is Err ==> *final(self) == *old(self),
            res matches Ok(f) ==> {
                &&& f == folder_from_input(input, id, at, at)
                &&& final(self).folders_view() == old(self).folders_view().push(f)
                &&& final(self).connections_view() == old(self).connections_view()
                &&& final(self).credentials_view() == old(self).credentials_view()
            },
    {
        validate_name(input.name.as_str())?;
        if let Some(parent) = input.parent_id {
            if find_row(&self.folders, parent.0).is_none() {
                return Err(not_found("folder ", parent.0));
            }
        }
        if let Some(cid) = input.default_credential_id {
            if find_row(&self.credentials, cid.0).is_none() {
                return Err(not_found("credential ", cid.0));
            }
        }
        if find_row(&self.folders, id.0).is_some() {
            return Err(duplicate_id_error("folders"));
        }
        let sort = match input.sort_order {
            Some(s) => s,
            None => 0,
        };
        let folder = Folder {
            id,
            parent_id: input.parent_id,
            name: input.name,
            default_credential_id: input.default_credential_id,
            sort_order: sort,
            created_at: at,
            updated_at: at,
        };
        let stored = folder.clone();
        self.folders.push(stored);
        proof {
            let s = self.folders@;
            assert forall|i: int, j: int| 0 <= i < j < s.len() implies s[i].key() != s[j].key() by {
                if j == s.len() - 1 {
                    assert(s[i] == old(self).folders@[i]);
                }
            }
        }
        Ok(folder)
    }

    /// Creates a folder with a fresh id, stamped with the current time.
    pub fn create_folder(&mut self, input: FolderInput) -> (res: AppResult<Folder>)
        requires
            old(self).wf(),
        ensures
            final(self).wf(),
            res is Err ==> *final(self) == *old(self),
            old(self).folder_input_error(input) is Some ==> err_of(res) == old(
                self,
            ).folder_input_error(input),
            old(self).folder_input_error(input) is None ==> res is Ok || err_of(res) == Some(
                duplicate_id("folders"@),
            ),
            old(self).folder_input_error(input) is None && old(self).folders_view().len() == 0 ==> res is Ok,
            res matches Ok(f) ==> {
                &&& !has_key(old(self).folders_view(), f.id.0)
                &&& f == folder_from_input(input, f.id, f.created_at, f.created_at)
                &&& final(self).folders_view() == old(self).folders_view().push(f)
                &&& final(self).connections_view() == old(self).connections_view()
                &&& final(self).credentials_view() == old(self).credentials_view()
            },
    {
        let id = FolderId::new();
        let at = now();
        self.create_folder_with(input, id, at)
    }

    /// Why updating folder `id` with this input is refused, if it is.
    pub open spec fn update_folder_error(&self, id: FolderId, input: FolderInput) -> Option<ErrorView> {
        if name_error(input.name@) is Some {
            invalid(name_error(input.name@))
        } else if input.parent_id == Some(id) {
            Some(ErrorView::InvalidInput("folder cannot be its own parent"@))
        } else if input.parent_id is Some && !has_key(
            self.folders_view(),
            input.parent_id.unwrap().0,
        ) {
            Some(missing("folder "@, input.parent_id.unwrap().0))
        } else if input.default_credential_id is Some && !has_key(
            self.credentials_view(),
            input.default_credential_id.unwrap().0,
        ) {
            Some(missing("credential "@, input.default_credential_id.unwrap().0))
        } else if !has_key(self.folders_view(), id.0) {
            Some(missing("folder "@, id.0))
        } else {
            None
        }
    }

    /// Updates folder `id` from the input, stamping it with time `at`.
    pub fn update_folder_with(&mut self, id: FolderId, input: FolderInput, at: Timestamp) -> (res:
        AppResult<Folder>)
        requires
            old(self).wf(),
        ensures
            final(self).wf(),
            err_of(res) == old(self).update_folder_error(id, input),
            res is Err ==> *final(self) == *old(self),
            res matches Ok(f) ==> {
                &&& f == folder_from_input(
                    input,
                    id,
                    row_with(old(self).folders_view(), id.0).created_at,
                    at,
                )
                &&& final(self).folders_view() == old(self).folders_view().map_values(
                    |g: Folder| if g.id == id { f } else { g },
                )
                &&& final(self).connections_view() == old(self).connections_view()
                &&& final(self).credentials_view() == old(self).credentials_view()
            },
    {
        validate_name(input.name.as_str())?;
        if let Some(parent) = input.parent_id {
            if parent == id {
                return Err(invalid_input("folder cannot be its own parent"));
            }
            if find_row(&self.folders, parent.0).is_none() {
                return Err(not_found("folder ", parent.0));
            }
        }
        if let Some(cid) = input.default_credential_id {
            if find_row(&self.credentials, cid.0).is_none() {
                return Err(not_found("credential ", cid.0));
            }
        }
        let i = match find_row(&self.folders, id.0) {
            Some(i) => i,
            None => {
                return Err(not_found("folder ", id.0));
            },
        };
        proof { lemma_row_with(self.folders@, i as int); }
        let sort = match input.sort_order {
            Some(s) => s,
            None => 0,
        };
        let folder = Folder {
            id,
            parent_id: input.parent_id,
            name: input.name,
            default_credential_id: input.default_credential_id,
            sort_order: sort,
            created_at: self.folders[i].created_at,
            updated_at: at,
        };
        let ghost old_folders = self.folders@;
        self.folders.set(i, folder.clone());
        proof {
            assert forall|j: int| 0 <= j < old_folders.len() implies (old_folders[j].id == id) == (
            j == i) by {
                if j != i && old_folders[j].id == id {
                    if j < i {
                        assert(old_folders[j].key() != old_folders[i as int].key());
                    } else {
                        assert(old_folders[i as int].key() != old_folders[j].key());
                    }
                }
            }
            assert(self.folders@ =~= old_folders.map_values(
                |g: Folder| if g.id == id { folder } else { g },
            ));
            let s = self.folders@;
            assert forall|a: int, b: int| 0 <= a < b < s.len() implies s[a].key() != s[b].key() by {
                assert(s[a].key() == old_folders[a].key());
                assert(s[b].key() == old_folders[b].key());
            }
        }
        Ok(folder)
    }

    /// Updates folder `id` from the input, stamped with the current time.
    pub fn update_folder(&mut self, id: FolderId, input: FolderInput) -> (res: AppResult<Folder>)
        requires
            old(self).wf(),
        ensures
            final(self).wf(),
            err_of(res) == old(self).update_folder_error(id, input),
            res is Err ==> *final(self) == *old(self),
            res matches Ok(f) ==> {
                &&& f == folder_from_input(
                    input,
                    id,
                    row_with(old(self).folders_view(), id.0).created_at,
                    f.updated_at,
                )
                &&& final(self).folders_view() == old(self).folders_view().map_values(
                    |g: Folder| if g.id == id { f } else { g },
                )
                &&& final(self).connections_view() == old(self).connections_view()
                &&& final(self).credentials_view() == old(self).credentials_view()
            },
    {
        let at = now();
        self.update_folder_with(id, input, at)
    }

    /// Deletes folder `id` together with every folder below it; connections
    /// that were in a deleted folder are kept, with no folder.
    pub fn delete_folder(&mut self, id: FolderId) -> (res: AppResult<()>)
        requires
            old(self).wf(),
        ensures
            final(self).wf(),
            !has_key(old(self).folders_view(), id.0) ==> err_of(res) == Some(
                missing("folder "@, id.0),
            ) && *final(self) == *old(self),
            has_key(old(self).folders_view(), id.0) ==> {
                &&& res is Ok
                &&& final(self).folders_view() == old(self).folders_view().filter(
                    |g: Folder| !within(old(self).folders_view(), g.id.0, id.0),
                )
                &&& final(self).connections_view() == old(self).connections_view().map_values(
                    |c: Connection| clear_folder_ref(c, old(self).folders_view(), id.0),
                )
                &&& final(self).credentials_view() == old(self).credentials_view()
            },
    {
        if find_row(&self.folders, id.0).is_none() {
            return Err(not_found("folder ", id.0));
        }
        let del = subtree_keys(&self.folders, id.0);
        let ghost folders0 = self.folders@;
        let mut kept: Vec<Folder> = Vec::new();
        let mut i: usize = 0;
        while i < self.folders.len()
            invariant
                self.folders@ == folders0,
                keys_unique(folders0),
                has_key(folders0, id.0),
                i <= folders0.len(),
                forall|k: u128| #[trigger] del@.contains(k) <==> (has_key(folders0, k) && within(folders0, k, id.0)),
                kept@ == folders0.take(i as int).filter(|g: Folder| !within(folders0, g.id.0, id.0)),
                keys_unique(kept@),
                forall|a: int| #![trigger kept@[a]] 0 <= a < kept@.len() ==> exists|j: int| 0 <= j < i && #[trigger] folders0[j].key() == kept@[a].key(),
            decreases folders0.len() - i,
        {
            let k = self.folders[i].id.0;
            proof {
                folders0.take(i as int).lemma_filter_push(folders0[i as int], |g: Folder| !within(folders0, g.id.0, id.0));
                assert(folders0.take(i + 1) == folders0.take(i as int).push(folders0[i as int]));
                assert(has_key(folders0, k)) by { assert(folders0[i as int].key() == k); }
            }
            if !contains_u128(&del, k) {
                let ghost before = kept@;
                kept.push(self.folders[i].clone());
                proof {
                    assert forall|a: int, b: int| 0 <= a < b < kept@.len() implies kept@[a].key() != kept@[b].key() by {
                        if b == kept@.len() - 1 {
                            assert(kept@[a] == before[a]);
                            let j = choose|j: int| 0 <= j < i && #[trigger] folders0[j].key() == before[a].key();
                            assert(folders0[j].key() != folders0[i as int].key());
                        }
                    }
                    assert forall|a: int| #![trigger kept@[a]] 0 <= a < kept@.len() implies exists|j: int| 0 <= j < i + 1 && #[trigger] folders0[j].key() == kept@[a].key() by {
                        if a == kept@.len() - 1 {
                            assert(folders0[i as int].key() == kept@[a].key());
                        } else {
                            assert(kept@[a] == before[a]);
                            let j = choose|j: int| 0 <= j < i && #[trigger] folders0[j].key() == before[a].key();
                            assert(folders0[j].key() == kept@[a].key());
                        }
                    }
                }
            } else {
                proof {
                    assert forall|a: int| #![trigger kept@[a]] 0 <= a < kept@.len() implies exists|j: int| 0 <= j < i + 1 && #[trigger] folders0[j].key() == kept@[a].key() by {
                        let j = choose|j: int| 0 <= j < i && #[trigger] folders0[j].key() == kept@[a].key();
                        assert(folders0[j].key() == kept@[a].key());
                    }
                }
            }
            i += 1;
        }
        proof {
            assert(folders0.take(folders0.len() as int) == folders0);
        }
        self.folders = kept;
        let ghost conns0 = self.connections@;
        let ghost folders1 = self.folders@;
        let ghost creds0 = self.credentials@;
        let mut c: usize = 0;
        while c < self.connections.len()
            invariant
                keys_unique(folders0),
                has_key(folders0, id.0),
                forall|k: u128| #[trigger] del@.contains(k) <==> (has_key(folders0, k) && within(folders0, k, id.0)),
                self.connections@.len() == conns0.len(),
                self.folders@ == folders1,
                self.credentials@ == creds0,
                keys_unique(folders1),
                keys_unique(creds0),
                keys_unique(conns0),
                c <= conns0.len(),
                forall|j: int| 0 <= j < c ==> self.connections@[j] == clear_folder_ref(conns0[j], folders0, id.0),
                forall|j: int| c <= j < conns0.len() ==> self.connections@[j] == conns0[j],
            decreases conns0.len() - c,
        {
            if let Some(f) = self.connections[c].folder_id {
                if contains_u128(&del, f.0) {
                    let mut updated = self.connections[c].clone();
                    updated.folder_id = None;
                    assert(within(folders0, f.0, id.0));
                    assert(updated == clear_folder_ref(conns0[c as int], folders0, id.0));
                    self.connections.set(c, updated);
                } else {
                    proof {
                        if within(folders0, f.0, id.0) {
                            lemma_within_has_key(folders0, f.0, id.0);
                        }
                    }
                }
            }
            c += 1;
        }
        proof {
            assert(self.connections@ =~= conns0.map_values(|x: Connection| clear_folder_ref(x, folders0, id.0)));
            let s = self.connections@;
            assert forall|a: int, b: int| 0 <= a < b < s.len() implies s[a].key() != s[b].key() by {
                assert(s[a].key() == conns0[a].key());
                assert(s[b].key() == conns0[b].key());
            }
        }
        Ok(())
    }

    // ---- connections ----

    /// All connections, by name.
    pub fn list_connections(&self) -> (res: AppResult<Vec<Connection>>)
        ensures
            res matches Ok(v) && v@.to_multiset() == self.connections_view().to_multiset()
                && ordered(v@),
    {
        Ok(sorted_rows(&self.connections))
    }

    /// The connection with the given id.
    pub fn get_connection(&self, id: &ConnectionId) -> (res: AppResult<Connection>)
        requires
            self.wf(),
        ensures
            has_key(self.connections_view(), id.0) ==> res == Ok::<Connection, AppError>(
                row_with(self.connections_view(), id.0),
            ),
            !has_key(self.connections_view(), id.0) ==> err_of(res) == Some(
                missing("connection "@, id.0),
            ),
    {
        match find_row(&self.connections, id.0) {
            Some(i) => {
                proof { lemma_row_with(self.connections@, i as int); }
                Ok(self.connections[i].clone())
            },
            None => Err(not_found("connection ", id.0)),
        }
    }

    /// Why a connection input is refused, if it is: a bad name or host, or a
    /// reference to a missing folder or credential.
    pub open spec fn connection_input_error(&self, input: ConnectionInput) -> Option<ErrorView> {
        if name_error(input.name@) is Some {
            invalid(name_error(input.name@))
        } else if host_error(input.host@) is Some {
            invalid(host_error(input.host@))
        } else if input.folder_id is Some && !has_key(
            self.folders_view(),
            input.folder_id.unwrap().0,
        ) {
            Some(missing("folder "@, input.folder_id.unwrap().0))
        } else if input.credential_id is Some && !has_key(
            self.credentials_view(),
            input.credential_id.unwrap().0,
        ) {
            Some(missing("credential "@, input.credential_id.unwrap().0))
        } else {
            None
        }
    }

    fn check_connection_input(&self, input: &ConnectionInput) -> (res: AppResult<()>)
        ensures
            err_of(res) == self.connection_input_error(*input),
    {
        validate_name(input.name.as_str())?;
        validate_host(input.host.as_str())?;
        if let Some(folder) = input.folder_id {
            if find_row(&self.folders, folder.0).is_none() {
                return Err(not_found("folder ", folder.0));
            }
        }
        if let Some(cid) = input.credential_id {
            if find_row(&self.credentials, cid.0).is_none() {
                return Err(not_found("credential ", cid.0));
            }
        }
        Ok(())
    }

    fn connection_row(input: ConnectionInput, id: ConnectionId, created: Timestamp, updated: Timestamp) -> (c: Connection)
        ensures
            connection_matches_input(c, input, id, created, updated),
    {
        let port = match input.port {
            Some(p) => p,
            None => input.protocol.default_port(),
        };
        let options = match input.options {
            Some(o) => o,
            None => String::from_str("{}"),
        };
        Connection {
            id,
            folder_id: input.folder_id,
            name: input.name,
            protocol: input.protocol,
            host: input.host,
            port,
            username: input.username,
            credential_id: input.credential_id,
            options,
            created_at: created,
            updated_at: updated,
        }
    }

    /// Creates a connection with the given id and creation time.
    pub fn create_connection_with(&mut self, input: ConnectionInput, id: ConnectionId, at: Timestamp) -> (res: AppResult<Connection>)
        requires
            old(self).wf(),
        ensures
            final(self).wf(),
            old(self).connection_input_error(input) is Some ==> err_of(res) == old(
                self,
            ).connection_input_error(input),
            old(self).connection_input_error(input) is None ==> err_of(res) == (if has_key(
                old(self).connections_view(),
                id.0,
            ) {
                Some(duplicate_id("connections"@))
            } else {
                None
            }),
            res is Err ==> *final(self) == *old(self),
            res matches Ok(c) ==> {
                &&& connection_matches_input(c, input, id, at, at)
                &&& final(self).connections_view() == old(self).connections_view().push(c)
                &&& final(self).folders_view() == old(self).folders_view()
                &&& final(self).credentials_view() == old(self).credentials_view()
            },
    {
        self.check_connection_input(&input)?;
        if find_row(&self.connections, id.0).is_some() {
            return Err(duplicate_id_error("connections"));
        }
        let conn = Self::connection_row(input, id, at, at);
        let ghost before = self.connections@;
        self.connections.push(conn.clone());
        proof {
            let s = self.connections@;
            assert forall|i: int, j: int| 0 <= i < j < s.len() implies s[i].key() != s[j].key() by {
                if j == s.len() - 1 {
                    assert(s[i] == before[i]);
                }
            }
        }
        Ok(conn)
    }

    /// Creates a connection with a fresh id, stamped with the current time.
    pub fn create_connection(&mut self, input: ConnectionInput) -> (res: AppResult<Connection>)
        requires
            old(self).wf(),
        ensures
            final(self).wf(),
            res is Err ==> *final(self) == *old(self),
            old(self).connection_input_error(input) is Some ==> err_of(res) == old(
                self,
            ).connection_input_error(input),
            old(self).connection_input_error(input) is None ==> res is Ok || err_of(res) == Some(
                duplicate_id("connections"@),
            ),
            old(self).connection_input_error(input) is None && old(self).connections_view().len() == 0 ==> res is Ok,
            res matches Ok(c) ==> {
                &&& !has_key(old(self).connections_view(), c.id.0)
                &&& connection_matches_input(c, input, c.id, c.created_at, c.created_at)
                &&& final(self).connections_view() == old(self).connections_view().push(c)
                &&& final(self).folders_view() == old(self).folders_view()
                &&& final(self).credentials_view() == old(self).credentials_view()
            },
    {
        let id = ConnectionId::new();
        let at = now();
        self.create_connection_with(input, id, at)
    }

    /// Updates connection `id` from the input, stamping it with time `at`.
    pub fn update_connection_with(&mut self, id: ConnectionId, input: ConnectionInput, at: Timestamp) -> (res: AppResult<Connection>)
        requires
            old(self).wf(),
        ensures
            final(self).wf(),
            old(self).connection_input_error(input) is Some ==> err_of(res) == old(
                self,
            ).connection_input_error(input),
            old(self).connection_input_error(input) is None ==> err_of(res) == (if has_key(
                old(self).connections_view(),
                id.0,
            ) {
                None
            } else {
                Some(missing("connection "@, id.0))
            }),
            res is Err ==> *final(self) == *old(self),
            res matches Ok(c) ==> {
                &&& connection_matches_input(
                    c,
                    input,
                    id,
                    row_with(old(self).connections_view(), id.0).created_at,
                    at,
                )
                &&& final(self).connections_view() == old(self).connections_view().map_values(
                    |x: Connection| if x.id == id { c } else { x },
                )
                &&& final(self).folders_view() == old(self).folders_view()
                &&& final(self).credentials_view() == old(self).credentials_view()
            },
    {
        self.check_connection_input(&input)?;
        let i = match find_row(&self.connections, id.0) {
            Some(i) => i,
            None => {
                return Err(not_found("connection ", id.0));
            },
        };
        proof { lemma_row_with(self.connections@, i as int); }
        let created = self.connections[i].created_at;
        let conn = Self::connection_row(input, id, created, at);
        let ghost old_rows = self.connections@;
        self.connections.set(i, conn.clone());
        proof {
            assert forall|j: int| 0 <= j < old_rows.len() implies (old_rows[j].id == id) == (j == i) by {
                if j != i && old_rows[j].id == id {
                    if j < i {
                        assert(old_rows[j].key() != old_rows[i as int].key());
                    } else {
                        assert(old_rows[i as int].key() != old_rows[j].key());
                    }
                }
            }
            assert(self.connections@ =~= old_rows.map_values(
                |x: Connection| if x.id == id { conn } else { x },
            ));
            let s = self.connections@;
            assert forall|a: int, b: int| 0 <= a < b < s.len() implies s[a].key() != s[b].key() by {
                assert(s[a].key() == old_rows[a].key());
                assert(s[b].key() == old_rows[b].key());
            }
        }
        Ok(conn)
    }

    /// Updates connection `id` from the input, stamped with the current time.
    pub fn update_connection(&mut self, id: ConnectionId, input: ConnectionInput) -> (res: AppResult<Connection>)
        requires
            old(self).wf(),
        ensures
            final(self).wf(),
            old(self).connection_input_error(input) is Some ==> err_of(res) == old(
                self,
            ).connection_input_error(input),
            old(self).connection_input_error(input) is None ==> err_of(res) == (if has_key(
                old(self).connections_view(),
                id.0,
            ) {
                None
            } else {
                Some(missing("connection "@, id.0))
            }),
            res is Err ==> *final(self) == *old(self),
            res matches Ok(c) ==> {
                &&& connection_matches_input(
                    c,
                    input,
                    id,
                    row_with(old(self).connections_view(), id.0).created_at,
                    c.updated_at,
                )
                &&& final(self).connections_view() == old(self).connections_view().map_values(
                    |x: Connection| if x.id == id { c } else { x },
                )
                &&& final(self).folders_view() == old(self).folders_view()
                &&& final(self).credentials_view() == old(self).credentials_view()
            },
    {
        let at = now();
        self.update_connection_with(id, input, at)
    }

    /// Deletes connection `id`.
    pub fn delete_connection(&mut self, id: ConnectionId) -> (res: AppResult<()>)
        requires
            old(self).wf(),
        ensures
            final(self).wf(),
            !has_key(old(self).connections_view(), id.0) ==> err_of(res) == Some(
                missing("connection "@, id.0),
            ) && *final(self) == *old(self),
            has_key(old(self).connections_view(), id.0) ==> {
                &&& res is Ok
                &&& final(self).connections_view() == old(self).connections_view().filter(
                    |c: Connection| c.key() != id.0,
                )
                &&& final(self).folders_view() == old(self).folders_view()
                &&& final(self).credentials_view() == old(self).credentials_view()
            },
    {
        if find_row(&self.connections, id.0).is_none() {
            return Err(not_found("connection ", id.0));
        }
        self.connections = without_key(&self.connections, id.0);
        Ok(())
    }

    // ---- credentials ----

    /// All credential profiles, by name.
    pub fn list_credentials(&self) -> (res: AppResult<Vec<CredentialProfile>>)
        ensures
            res matches Ok(v) && v@.to_multiset() == self.credentials_view().to_multiset()
                && ordered(v@),
    {
        Ok(sorted_rows(&self.credentials))
    }

    /// The credential profile with the given id.
    pub fn get_credential(&self, id: &CredentialId) -> (res: AppResult<CredentialProfile>)
        requires
            self.wf(),
        ensures
            has_key(self.credentials_view(), id.0) ==> res == Ok::<CredentialProfile, AppError>(
                row_with(self.credentials_view(), id.0),
            ),
            !has_key(self.credentials_view(), id.0) ==> err_of(res) == Some(
                missing("credential "@, id.0),
            ),
    {
        match find_row(&self.credentials, id.0) {
            Some(i) => {
                proof { lemma_row_with(self.credentials@, i as int); }
                Ok(self.credentials[i].clone())
            },
            None => Err(not_found("credential ", id.0)),
        }
    }

    /// Creates a credential profile with the given id and creation time.
    pub fn create_credential_with(&mut self, input: CredentialProfileInput, id: CredentialId, at: Timestamp) -> (res: AppResult<CredentialProfile>)
        requires
            old(self).wf(),
        ensures
            final(self).wf(),
            name_error(input.name@) is Some ==> err_of(res) == invalid(name_error(input.name@)),
            name_error(input.name@) is None ==> err_of(res) == (if has_key(
                old(self).credentials_view(),
                id.0,
            ) {
                Some(duplicate_id("credential_profiles"@))
            } else {
                None
            }),
            res is Err ==> *final(self) == *old(self),
            res matches Ok(c) ==> {
                &&& c == credential_from_input(input, id, at, at)
                &&& final(self).credentials_view() == old(self).credentials_view().push(c)
                &&& final(self).folders_view() == old(self).folders_view()
                &&& final(self).connections_view() == old(self).connections_view()
            },
    {
        validate_name(input.name.as_str())?;
        if find_row(&self.credentials, id.0).is_some() {
            return Err(duplicate_id_error("credential_profiles"));
        }
        let cred = CredentialProfile {
            id,
            name: input.name,
            kind: input.kind,
            username: input.username,
            vault_ref: input.vault_ref,
            created_at: at,
            updated_at: at,
        };
        let ghost before = self.credentials@;
        self.credentials.push(cred.clone());
        proof {
            let s = self.credentials@;
            assert forall|i: int, j: int| 0 <= i < j < s.len() implies s[i].key() != s[j].key() by {
                if j == s.len() - 1 {
                    assert(s[i] == before[i]);
                }
            }
        }
        Ok(cred)
    }

    /// Creates a credential profile with a fresh id, stamped with the current time.
    pub fn create_credential(&mut self, input: CredentialProfileInput) -> (res: AppResult<CredentialProfile>)
        requires
            old(self).wf(),
        ensures
            final(self).wf(),
            res is Err ==> *final(self) == *old(self),
            name_error(input.name@) is Some ==> err_of(res) == invalid(name_error(input.name@)),
            name_error(input.name@) is None ==> res is Ok || err_of(res) == Some(
                duplicate_id("credential_profiles"@),
            ),
            name_error(input.name@) is None && old(self).credentials_view().len() == 0 ==> res is Ok,
            res matches Ok(c) ==> {
                &&& !has_key(old(self).credentials_view(), c.id.0)
                &&& c == credential_from_input(input, c.id, c.created_at, c.created_at)
                &&& final(self).credentials_view() == old(self).credentials_view().push(c)
                &&& final(self).folders_view() == old(self).folders_view()
                &&& final(self).connections_view() == old(self).connections_view()
            },
    {
        let id = CredentialId::new();
        let at = now();
        self.create_credential_with(input, id, at)
    }

    /// Updates credential profile `id` from the input, stamping it with time `at`.
    pub fn update_credential_with(&mut self, id: CredentialId, input: CredentialProfileInput, at: Timestamp) -> (res: AppResult<CredentialProfile>)
        requires
            old(self).wf(),
        ensures
            final(self).wf(),
            name_error(input.name@) is Some ==> err_of(res) == invalid(name_error(input.name@)),
            name_error(input.name@) is None ==> err_of(res) == (if has_key(
                old(self).credentials_view(),
                id.0,
            ) {
                None
            } else {
                Some(missing("credential "@, id.0))
            }),
            res is Err ==> *final(self) == *old(self),
            res matches Ok(c) ==> {
                &&& c == credential_from_input(
                    input,
                    id,
                    row_with(old(self).credentials_view(), id.0).created_at,
                    at,
                )
                &&& final(self).credentials_view() == old(self).credentials_view().map_values(
                    |x: CredentialProfile| if x.id == id { c } else { x },
                )
                &&& final(self).folders_view() == old(self).folders_view()
                &&& final(self).connections_view() == old(self).connections_view()
            },
    {
        validate_name(input.name.as_str())?;
        let i = match find_row(&self.credentials, id.0) {
            Some(i) => i,
            None => {
                return Err(not_found("credential ", id.0));
            },
        };
        proof { lemma_row_with(self.credentials@, i as int); }
        let cred = CredentialProfile {
            id,
            name: input.name,
            kind: input.kind,
            username: input.username,
            vault_ref: input.vault_ref,
            created_at: self.credentials[i].created_at,
            updated_at: at,
        };
        let ghost old_rows = self.credentials@;
        self.credentials.set(i, cred.clone());
        proof {
            assert forall|j: int| 0 <= j < old_rows.len() implies (old_rows[j].id == id) == (j == i) by {
                if j != i && old_rows[j].id == id {
                    if j < i {
                        assert(old_rows[j].key() != old_rows[i as int].key());
                    } else {
                        assert(old_rows[i as int].key() != old_rows[j].key());
                    }
                }
            }
            assert(self.credentials@ =~= old_rows.map_values(
                |x: CredentialProfile| if x.id == id { cred } else { x },
            ));
            let s = self.credentials@;
            assert forall|a: int, b: int| 0 <= a < b < s.len() implies s[a].key() != s[b].key() by {
                assert(s[a].key() == old_rows[a].key());
                assert(s[b].key() == old_rows[b].key());
            }
        }
        Ok(cred)
    }

    /// Updates credential profile `id` from the input, stamped with the current time.
    pub fn update_credential(&mut self, id: CredentialId, input: CredentialProfileInput) -> (res: AppResult<CredentialProfile>)
        requires
            old(self).wf(),
        ensures
            final(self).wf(),
            name_error(input.name@) is Some ==> err_of(res) == invalid(name_error(input.name@)),
            name_error(input.name@) is None ==> err_of(res) == (if has_key(
                old(self).credentials_view(),
                id.0,
            ) {
                None
            } else {
                Some(missing("credential "@, id.0))
            }),
            res is Err ==> *final(self) == *old(self),
            res matches Ok(c) ==> {
                &&& c == credential_from_input(
                    input,
                    id,
                    row_with(old(self).credentials_view(), id.0).created_at,
                    c.updated_at,
                )
                &&& final(self).credentials_view() == old(self).credentials_view().map_values(
                    |x: CredentialProfile| if x.id == id { c } else { x },
                )
                &&& final(self).folders_view() == old(self).folders_view()
                &&& final(self).connections_view() == old(self).connections_view()
            },
    {
        let at = now();
        self.update_credential_with(id, input, at)
    }

    /// Deletes credential profile `id`; folders and connections that named it
    /// keep no credential.
    pub fn delete_credential(&mut self, id: CredentialId) -> (res: AppResult<()>)
        requires
            old(self).wf(),
        ensures
            final(self).wf(),
            !has_key(old(self).credentials_view(), id.0) ==> err_of(res) == Some(
                missing("credential "@, id.0),
            ) && *final(self) == *old(self),
            has_key(old(self).credentials_view(), id.0) ==> {
                &&& res is Ok
                &&& final(self).credentials_view() == old(self).credentials_view().filter(
                    |c: CredentialProfile| c.key() != id.0,
                )
                &&& final(self).folders_view() == old(self).folders_view().map_values(
                    |f: Folder| clear_folder_credential(f, id),
                )
                &&& final(self).connections_view() == old(self).connections_view().map_values(
                    |c: Connection| clear_connection_credential(c, id),
                )
            },
    {
        if find_row(&self.credentials, id.0).is_none() {
            return Err(not_found("credential ", id.0));
        }
        self.credentials = without_key(&self.credentials, id.0);
        let ghost folders0 = self.folders@;
        let ghost conns0 = self.connections@;
        let ghost creds1 = self.credentials@;
        let mut i: usize = 0;
        while i < self.folders.len()
            invariant
                self.folders@.len() == folders0.len(),
                self.connections@ == conns0,
                self.credentials@ == creds1,
                keys_unique(creds1),
                keys_unique(conns0),
                keys_unique(folders0),
                i <= folders0.len(),
                forall|j: int| 0 <= j < i ==> self.folders@[j] == clear_folder_credential(folders0[j], id),
                forall|j: int| i <= j < folders0.len() ==> self.folders@[j] == folders0[j],
            decreases folders0.len() - i,
        {
            if self.folders[i].default_credential_id == Some(id) {
                let mut f = self.folders[i].clone();
                f.default_credential_id = None;
                self.folders.set(i, f);
            }
            i += 1;
        }
        proof {
            assert(self.folders@ =~= folders0.map_values(|f: Folder| clear_folder_credential(f, id)));
            let s = self.folders@;
            assert forall|a: int, b: int| 0 <= a < b < s.len() implies s[a].key() != s[b].key() by {
                assert(s[a].key() == folders0[a].key());
                assert(s[b].key() == folders0[b].key());
            }
        }
        let ghost folders1 = self.folders@;
        let mut c: usize = 0;
        while c < self.connections.len()
            invariant
                self.connections@.len() == conns0.len(),
                self.folders@ == folders1,
                self.credentials@ == creds1,
                keys_unique(creds1),
                keys_unique(conns0),
                keys_unique(folders1),
                c <= conns0.len(),
                forall|j: int| 0 <= j < c ==> self.connections@[j] == clear_connection_credential(conns0[j], id),
                forall|j: int| c <= j < conns0.len() ==> self.connections@[j] == conns0[j],
            decreases conns0.len() - c,
        {
            if self.connections[c].credential_id == Some(id) {
                let mut x = self.connections[c].clone();
                x.credential_id = None;
                self.connections.set(c, x);
            }
            c += 1;
        }
        proof {
            assert(self.connections@ =~= conns0.map_values(|x: Connection| clear_connection_credential(x, id)));
            let s = self.connections@;
            assert forall|a: int, b: int| 0 <= a < b < s.len() implies s[a].key() != s[b].key() by {
                assert(s[a].key() == conns0[a].key());
                assert(s[b].key() == conns0[b].key());
            }
        }
        Ok(())
    }

    // ---- export / import ----

    /// Everything the registry holds, listed as `list_*` lists it.
    pub fn export_all(&self) -> (res: AppResult<ExportBundle>)
        ensures
            res matches Ok(b) && {
                &&& b.version == 1
                &&& b.folders@.to_multiset() == self.folders_view().to_multiset()
                &&& ordered(b.folders@)
                &&& b.connections@.to_multiset() == self.connections_view().to_multiset()
                &&& ordered(b.connections@)
                &&& b.credentials@.to_multiset() == self.credentials_view().to_multiset()
                &&& ordered(b.credentials@)
            },
    {
        let folders = sorted_rows(&self.folders);
        let connections = sorted_rows(&self.connections);
        let credentials = sorted_rows(&self.credentials);
        Ok(ExportBundle { version: 1, folders, connections, credentials })
    }

    /// Imports a bundle, skipping any rows whose ids already exist locally:
    /// folders first, then credential profiles, then connections. A row
    /// whose references name no stored row stops the import with a storage
    /// error; rows added before it stay. Vault entries are not part of a
    /// bundle.
    pub fn import_bundle(&mut self, bundle: ExportBundle) -> (res: AppResult<ImportSummary>)
        requires
            old(self).wf(),
        ensures
            final(self).wf(),
            bundle.version != 1 ==> err_of(res) == Some(
                ErrorView::InvalidInput(
                    "unsupported bundle version "@ + crate::text::decimal(bundle.version as nat),
                ),
            ) && *final(self) == *old(self),
            bundle.version == 1 ==> {
                let fr = import_folders(
                    old(self).folders_view(),
                    old(self).credentials_view(),
                    bundle.folders@,
                    0,
                );
                let cr = import_credentials(old(self).credentials_view(), bundle.credentials@, 0);
                let nr = import_connections(
                    old(self).connections_view(),
                    fr.0,
                    cr.0,
                    bundle.connections@,
                    0,
                );
                &&& final(self).folders_view() == fr.0
                &&& !fr.2 ==> err_of(res) == Some(dangling_reference())
                    && final(self).credentials_view() == old(self).credentials_view()
                    && final(self).connections_view() == old(self).connections_view()
                &&& fr.2 ==> {
                    &&& final(self).credentials_view() == cr.0
                    &&& final(self).connections_view() == nr.0
                    &&& !nr.2 ==> err_of(res) == Some(dangling_reference())
                    &&& nr.2 ==> (res matches Ok(s) && s.folders_added == fr.1
                        && s.credentials_added == cr.1 && s.connections_added == nr.1)
                }
            },
    {
        if bundle.version != 1 {
            let mut m = String::from_str("unsupported bundle version ");
            let digits = crate::text::string_of(&crate::text::decimal_chars(bundle.version as u64));
            m.append(digits.as_str());
            return Err(AppError::InvalidInput(m));
        }
        let ghost creds0 = self.credentials@;
        let ghost b = bundle.folders@;
        let mut summary = ImportSummary { folders_added: 0, connections_added: 0, credentials_added: 0 };
        let mut i: usize = 0;
        proof { assert(b.skip(0) == b); }
        while i < bundle.folders.len()
            invariant
                bundle.folders@ == b,
                bundle.version == 1,
                creds0 == old(self).credentials@,
                self.credentials@ == creds0,
                self.connections@ == old(self).connections@,
                keys_unique(self.folders@),
                keys_unique(creds0),
                keys_unique(self.connections@),
                i <= b.len(),
                summary.folders_added <= i,
                summary.connections_added == 0,
                summary.credentials_added == 0,
                import_folders(old(self).folders@, creds0, b, 0) == import_folders(
                    self.folders@,
                    creds0,
                    b.skip(i as int),
                    summary.folders_added as nat,
                ),
            decreases b.len() - i,
        {
            let f = &bundle.folders[i];
            proof {
                assert(b.skip(i as int)[0] == b[i as int]);
                assert(b.skip(i as int).drop_first() == b.skip(i + 1));
            }
            if find_row(&self.folders, f.id.0).is_none() {
                let parent_ok = match f.parent_id {
                    None => true,
                    Some(p) => p == f.id || find_row(&self.folders, p.0).is_some(),
                };
                let cred_ok = match f.default_credential_id {
                    None => true,
                    Some(c) => find_row(&self.credentials, c.0).is_some(),
                };
                if !(parent_ok && cred_ok) {
                    assert(!folder_refs_ok(self.folders@, creds0, b.skip(i as int)[0]));
                    assert(import_folders(self.folders@, creds0, b.skip(i as int), summary.folders_added as nat)
                        == (self.folders@, summary.folders_added as nat, false));
                    return Err(dangling_reference_error());
                }
                proof { lemma_push_unique(self.folders@, *f); }
                self.folders.push(f.clone());
                summary.folders_added = summary.folders_added + 1;
            }
            i += 1;
        }
        let ghost fs1 = self.folders@;
        let ghost cb = bundle.credentials@;
        let mut j: usize = 0;
        proof { assert(cb.skip(0) == cb); }
        while j < bundle.credentials.len()
            invariant
                bundle.credentials@ == cb,
                bundle.folders@ == b,
                bundle.version == 1,
                creds0 == old(self).credentials@,
                self.folders@ == fs1,
                self.connections@ == old(self).connections@,
                keys_unique(self.credentials@),
                keys_unique(fs1),
                keys_unique(self.connections@),
                j <= cb.len(),
                summary.credentials_added <= j,
                summary.connections_added == 0,
                import_folders(old(self).folders@, creds0, b, 0) == (fs1, summary.folders_added as nat, true),
                import_credentials(creds0, cb, 0) == import_credentials(
                    self.credentials@,
                    cb.skip(j as int),
                    summary.credentials_added as nat,
                ),
            decreases cb.len() - j,
        {
            let c = &bundle.credentials[j];
            proof {
                assert(cb.skip(j as int)[0] == cb[j as int]);
                assert(cb.skip(j as int).drop_first() == cb.skip(j + 1));
            }
            if find_row(&self.credentials, c.id.0).is_none() {
                proof { lemma_push_unique(self.credentials@, *c); }
                self.credentials.push(c.clone());
                summary.credentials_added = summary.credentials_added + 1;
            }
            j += 1;
        }
        let ghost cs1 = self.credentials@;
        let ghost nb = bundle.connections@;
        let mut k: usize = 0;
        proof { assert(nb.skip(0) == nb); }
        while k < bundle.connections.len()
            invariant
                bundle.connections@ == nb,
                bundle.folders@ == b,
                bundle.credentials@ == cb,
                bundle.version == 1,
                creds0 == old(self).credentials@,
                self.folders@ == fs1,
                self.credentials@ == cs1,
                keys_unique(self.connections@),
                keys_unique(fs1),
                keys_unique(cs1),
                k <= nb.len(),
                summary.connections_added <= k,
                import_folders(old(self).folders@, creds0, b, 0) == (fs1, summary.folders_added as nat, true),
                import_credentials(creds0, cb, 0) == (cs1, summary.credentials_added as nat),
                import_connections(old(self).connections@, fs1, cs1, nb, 0) == import_connections(
                    self.connections@,
                    fs1,
                    cs1,
                    nb.skip(k as int),
                    summary.connections_added as nat,
                ),
            decreases nb.len() - k,
        {
            let c = &bundle.connections[k];
            proof {
                assert(nb.skip(k as int)[0] == nb[k as int]);
                assert(nb.skip(k as int).drop_first() == nb.skip(k + 1));
            }
            if find_row(&self.connections, c.id.0).is_none() {
                let folder_ok = match c.folder_id {
                    None => true,
                    Some(f) => find_row(&self.folders, f.0).is_some(),
                };
                let cred_ok = match c.credential_id {
                    None => true,
                    Some(x) => find_row(&self.credentials, x.0).is_some(),
                };
                if !(folder_ok && cred_ok) {
                    assert(!connection_refs_ok(fs1, cs1, nb.skip(k as int)[0]));
                    assert(import_connections(self.connections@, fs1, cs1, nb.skip(k as int), summary.connections_added as nat)
                        == (self.connections@, summary.connections_added as nat, false));
                    return Err(dangling_reference_error());
                }
                proof { lemma_push_unique(self.connections@, *c); }
                self.connections.push(c.clone());
                summary.connections_added = summary.connections_added + 1;
            }
            k += 1;
        }
        Ok(summary)
    }
}


/// Whether every row of `b` has a key stored in `s`.
pub open spec fn all_stored<R: Row>(s: Seq<R>, b: Seq<R>) -> bool {
    forall|i: int| 0 <= i < b.len() ==> has_key(s, #[trigger] b[i].key())
}

/// Whether no row of `b` has a key stored in `s`.
pub open spec fn none_stored<R: Row>(s: Seq<R>, b: Seq<R>) -> bool {
    forall|i: int| 0 <= i < b.len() ==> !has_key(s, #[trigger] b[i].key())
}

proof fn lemma_has_key_push<R: Row>(s: Seq<R>, r: R, k: u128)
    ensures
        has_key(s.push(r), k) == (has_key(s, k) || r.key() == k),
{
    let t = s.push(r);
    if has_key(s, k) {
        let i = choose|i: int| 0 <= i < s.len() && #[trigger] s[i].key() == k;
        assert(t[i] == s[i]);
    }
    if r.key() == k {
        assert(t[s.len() as int] == r);
    }
    if has_key(t, k) {
        let i = choose|i: int| 0 <= i < t.len() && #[trigger] t[i].key() == k;
        if i < s.len() {
            assert(t[i] == s[i]);
        }
    }
}

proof fn lemma_none_stored_step<R: Row>(acc: Seq<R>, b: Seq<R>)
    requires
        b.len() > 0,
        keys_unique(b),
        none_stored(acc, b),
    ensures
        none_stored(acc.push(b[0]), b.drop_first()),
        keys_unique(b.drop_first()),
{
    let rest = b.drop_first();
    assert forall|i: int| 0 <= i < rest.len() implies !has_key(acc.push(b[0]), #[trigger] rest[i].key()) by {
        assert(rest[i] == b[i + 1]);
        lemma_has_key_push(acc, b[0], rest[i].key());
    }
    assert forall|i: int, j: int| 0 <= i < j < rest.len() implies rest[i].key() != rest[j].key() by {
        assert(rest[i] == b[i + 1] && rest[j] == b[j + 1]);
    }
}

proof fn lemma_reimport_folders(fs: Seq<Folder>, cs: Seq<CredentialProfile>, b: Seq<Folder>, n: nat)
    requires
        all_stored(fs, b),
    ensures
        import_folders(fs, cs, b, n) == (fs, n, true),
    decreases b.len(),
{
    if b.len() > 0 {
        assert(has_key(fs, b[0].key()));
        assert forall|i: int| 0 <= i < b.drop_first().len() implies has_key(fs, #[trigger] b.drop_first()[i].key()) by {
            assert(b.drop_first()[i] == b[i + 1]);
        }
        lemma_reimport_folders(fs, cs, b.drop_first(), n);
    }
}

proof fn lemma_reimport_credentials(cs: Seq<CredentialProfile>, b: Seq<CredentialProfile>, n: nat)
    requires
        all_stored(cs, b),
    ensures
        import_credentials(cs, b, n) == (cs, n),
    decreases b.len(),
{
    if b.len() > 0 {
        assert(has_key(cs, b[0].key()));
        assert forall|i: int| 0 <= i < b.drop_first().len() implies has_key(cs, #[trigger] b.drop_first()[i].key()) by {
            assert(b.drop_first()[i] == b[i + 1]);
        }
        lemma_reimport_credentials(cs, b.drop_first(), n);
    }
}

proof fn lemma_reimport_connections(ns: Seq<Connection>, fs: Seq<Folder>, cs: Seq<CredentialProfile>, b: Seq<Connection>, n: nat)
    requires
        all_stored(ns, b),
    ensures
        import_connections(ns, fs, cs, b, n) == (ns, n, true),
    decreases b.len(),
{
    if b.len() > 0 {
        assert(has_key(ns, b[0].key()));
        assert forall|i: int| 0 <= i < b.drop_first().len() implies has_key(ns, #[trigger] b.drop_first()[i].key()) by {
            assert(b.drop_first()[i] == b[i + 1]);
        }
        lemma_reimport_connections(ns, fs, cs, b.drop_first(), n);
    }
}

/// Whether `r` is a row of `b` with no row of the same key before it.
pub open spec fn first_of_key<R: Row>(b: Seq<R>, r: R) -> bool {
    exists|j: int| 0 <= j < b.len() && b[j] == r && forall|i: int| 0 <= i < j ==> (#[trigger] b[i]).key() != r.key()
}

/// Whether `after` is `stored`, unchanged, followed by exactly one row for
/// each key of `b` that `stored` lacks: the first row of `b` with that key.
pub open spec fn adds_new_rows<R: Row>(stored: Seq<R>, b: Seq<R>, after: Seq<R>) -> bool {
    &&& stored.len() <= after.len()
    &&& after.take(stored.len() as int) == stored
    &&& forall|i: int| stored.len() <= i < after.len() ==> !has_key(stored, (#[trigger] after[i]).key()) && first_of_key(b, after[i])
    &&& forall|j: int| 0 <= j < b.len() ==> has_key(after, (#[trigger] b[j]).key())
    &&& keys_unique(after)
}

proof fn lemma_has_key_prefix<R: Row>(s: Seq<R>, t: Seq<R>, k: u128)
    requires
        s.len() <= t.len(),
        t.take(s.len() as int) == s,
        has_key(s, k),
    ensures
        has_key(t, k),
{
    let i = choose|i: int| 0 <= i < s.len() && #[trigger] s[i].key() == k;
    assert(t.take(s.len() as int)[i] == t[i]);
}

proof fn lemma_first_of_key_shift<R: Row>(b: Seq<R>, r: R)
    requires
        b.len() > 0,
        first_of_key(b.drop_first(), r),
        b[0].key() != r.key(),
    ensures
        first_of_key(b, r),
{
    let c = b.drop_first();
    let j = choose|j: int| 0 <= j < c.len() && c[j] == r && forall|i: int| 0 <= i < j ==> (#[trigger] c[i]).key() != r.key();
    assert(b[j + 1] == r);
    assert forall|i: int| 0 <= i < j + 1 implies (#[trigger] b[i]).key() != r.key() by {
        if i > 0 {
            assert(b[i] == c[i - 1]);
        }
    }
}

proof fn lemma_adds_skip<R: Row>(acc: Seq<R>, b: Seq<R>, after: Seq<R>)
    requires
        b.len() > 0,
        has_key(acc, b[0].key()),
        adds_new_rows(acc, b.drop_first(), after),
    ensures
        adds_new_rows(acc, b, after),
{
    let c = b.drop_first();
    assert forall|i: int| acc.len() <= i < after.len() implies !has_key(acc, (#[trigger] after[i]).key()) && first_of_key(b, after[i]) by {
        lemma_first_of_key_shift(b, after[i]);
    }
    assert forall|j: int| 0 <= j < b.len() implies has_key(after, (#[trigger] b[j]).key()) by {
        if j == 0 {
            lemma_has_key_prefix(acc, after, b[0].key());
        } else {
            assert(b[j] == c[j - 1]);
        }
    }
}

proof fn lemma_adds_push<R: Row>(acc: Seq<R>, b: Seq<R>, after: Seq<R>)
    requires
        b.len() > 0,
        !has_key(acc, b[0].key()),
        adds_new_rows(acc.push(b[0]), b.drop_first(), after),
    ensures
        adds_new_rows(acc, b, after),
{
    let c = b.drop_first();
    let acc2 = acc.push(b[0]);
    assert(after.take(acc.len() as int) =~= acc) by {
        assert forall|i: int| 0 <= i < acc.len() implies after.take(acc.len() as int)[i] == acc[i] by {
            assert(after.take(acc2.len() as int)[i] == acc2[i]);
        }
    }
    assert(after[acc.len() as int] == b[0]) by {
        assert(after.take(acc2.len() as int)[acc.len() as int] == acc2[acc.len() as int]);
    }
    assert forall|i: int| acc.len() <= i < after.len() implies !has_key(acc, (#[trigger] after[i]).key()) && first_of_key(b, after[i]) by {
        if i == acc.len() {
            assert(b[0] == after[i]);
        } else {
            assert(!has_key(acc2, after[i].key()));
            if has_key(acc, after[i].key()) {
                lemma_has_key_push(acc, b[0], after[i].key());
            }
            if b[0].key() == after[i].key() {
                lemma_has_key_push(acc, b[0], after[i].key());
            }
            lemma_first_of_key_shift(b, after[i]);
        }
    }
    assert forall|j: int| 0 <= j < b.len() implies has_key(after, (#[trigger] b[j]).key()) by {
        if j == 0 {
            assert(after[acc.len() as int].key() == b[0].key());
        } else {
            assert(b[j] == c[j - 1]);
        }
    }
}

proof fn lemma_import_credentials_adds(acc: Seq<CredentialProfile>, b: Seq<CredentialProfile>, n: nat)
    requires
        keys_unique(acc),
    ensures
        adds_new_rows(acc, b, import_credentials(acc, b, n).0),
        import_credentials(acc, b, n).1 == n + import_credentials(acc, b, n).0.len() - acc.len(),
    decreases b.len(),
{
    if b.len() == 0 {
        assert(acc.take(acc.len() as int) =~= acc);
    } else if has_key(acc, b[0].id.0) {
        lemma_import_credentials_adds(acc, b.drop_first(), n);
        lemma_adds_skip(acc, b, import_credentials(acc, b, n).0);
    } else {
        lemma_push_unique(acc, b[0]);
        lemma_import_credentials_adds(acc.push(b[0]), b.drop_first(), n + 1);
        lemma_adds_push(acc, b, import_credentials(acc, b, n).0);
    }
}

proof fn lemma_import_folders_adds(acc: Seq<Folder>, cs: Seq<CredentialProfile>, b: Seq<Folder>, n: nat)
    requires
        keys_unique(acc),
    ensures
        import_folders(acc, cs, b, n).2 ==> adds_new_rows(acc, b, import_folders(acc, cs, b, n).0)
            && import_folders(acc, cs, b, n).1 == n + import_folders(acc, cs, b, n).0.len() - acc.len(),
    decreases b.len(),
{
    if b.len() == 0 {
        assert(acc.take(acc.len() as int) =~= acc);
    } else if has_key(acc, b[0].id.0) {
        lemma_import_folders_adds(acc, cs, b.drop_first(), n);
        if import_folders(acc, cs, b, n).2 {
            lemma_adds_skip(acc, b, import_folders(acc, cs, b, n).0);
        }
    } else if folder_refs_ok(acc, cs, b[0]) {
        lemma_push_unique(acc, b[0]);
        lemma_import_folders_adds(acc.push(b[0]), cs, b.drop_first(), n + 1);
        if import_folders(acc, cs, b, n).2 {
            lemma_adds_push(acc, b, import_folders(acc, cs, b, n).0);
        }
    }
}

proof fn lemma_import_connections_adds(acc: Seq<Connection>, fs: Seq<Folder>, cs: Seq<CredentialProfile>, b: Seq<Connection>, n: nat)
    requires
        keys_unique(acc),
    ensures
        import_connections(acc, fs, cs, b, n).2 ==> adds_new_rows(acc, b, import_connections(acc, fs, cs, b, n).0)
            && import_connections(acc, fs, cs, b, n).1 == n + import_connections(acc, fs, cs, b, n).0.len() - acc.len(),
    decreases b.len(),
{
    if b.len() == 0 {
        assert(acc.take(acc.len() as int) =~= acc);
    } else if has_key(acc, b[0].id.0) {
        lemma_import_connections_adds(acc, fs, cs, b.drop_first(), n);
        if import_connections(acc, fs, cs, b, n).2 {
            lemma_adds_skip(acc, b, import_connections(acc, fs, cs, b, n).0);
        }
    } else if connection_refs_ok(fs, cs, b[0]) {
        lemma_push_unique(acc, b[0]);
        lemma_import_connections_adds(acc.push(b[0]), fs, cs, b.drop_first(), n + 1);
        if import_connections(acc, fs, cs, b, n).2 {
            lemma_adds_push(acc, b, import_connections(acc, fs, cs, b, n).0);
        }
    }
}

/// An import that completes keeps every stored row as it was and adds,
/// after them, exactly one row for each bundle id that was not stored (the
/// first bundle row with that id); each count is the number of rows added
/// to its table. Folders come first, then credential profiles, then
/// connections, which are checked against the tables as imported.
pub proof fn law_import_adds_only_new_rows(
    fs: Seq<Folder>,
    cs: Seq<CredentialProfile>,
    ns: Seq<Connection>,
    bf: Seq<Folder>,
    bc: Seq<CredentialProfile>,
    bn: Seq<Connection>,
)
    requires
        keys_unique(fs),
        keys_unique(cs),
        keys_unique(ns),
    ensures
        import_folders(fs, cs, bf, 0).2 ==> adds_new_rows(fs, bf, import_folders(fs, cs, bf, 0).0)
            && import_folders(fs, cs, bf, 0).1 == import_folders(fs, cs, bf, 0).0.len() - fs.len(),
        adds_new_rows(cs, bc, import_credentials(cs, bc, 0).0),
        import_credentials(cs, bc, 0).1 == import_credentials(cs, bc, 0).0.len() - cs.len(),
        ({
            let fs2 = import_folders(fs, cs, bf, 0).0;
            let cs2 = import_credentials(cs, bc, 0).0;
            import_connections(ns, fs2, cs2, bn, 0).2 ==> adds_new_rows(ns, bn, import_connections(ns, fs2, cs2, bn, 0).0)
                && import_connections(ns, fs2, cs2, bn, 0).1 == import_connections(ns, fs2, cs2, bn, 0).0.len() - ns.len()
        }),
{
    lemma_import_folders_adds(fs, cs, bf, 0);
    lemma_import_credentials_adds(cs, bc, 0);
    lemma_import_connections_adds(ns, import_folders(fs, cs, bf, 0).0, import_credentials(cs, bc, 0).0, bn, 0);
}

/// Importing a bundle whose rows are all stored already adds nothing and
/// changes nothing (importing is idempotent).
pub proof fn law_reimport_adds_nothing(
    fs: Seq<Folder>,
    cs: Seq<CredentialProfile>,
    ns: Seq<Connection>,
    bf: Seq<Folder>,
    bc: Seq<CredentialProfile>,
    bn: Seq<Connection>,
)
    requires
        all_stored(fs, bf),
        all_stored(cs, bc),
        all_stored(ns, bn),
    ensures
        import_folders(fs, cs, bf, 0) == (fs, 0nat, true),
        import_credentials(cs, bc, 0) == (cs, 0nat),
        import_connections(ns, fs, cs, bn, 0) == (ns, 0nat, true),
{
    lemma_reimport_folders(fs, cs, bf, 0);
    lemma_reimport_credentials(cs, bc, 0);
    lemma_reimport_connections(ns, fs, cs, bn, 0);
}

/// Whether a folder of a bundle can be imported once the folders `fs` are
/// stored: it names no default credential (credential profiles come after
/// folders) and no parent but itself or a stored folder.
pub open spec fn importable_folder(fs: Seq<Folder>, f: Folder) -> bool {
    &&& f.default_credential_id is None
    &&& (f.parent_id is None || f.parent_id == Some(f.id) || has_key(fs, f.parent_id.unwrap().0))
}

/// Whether every folder of a bundle names no default credential and no
/// parent but itself or a folder listed before it.
pub open spec fn parents_first(b: Seq<Folder>) -> bool {
    forall|i: int| 0 <= i < b.len() ==> importable_folder(b.take(i), #[trigger] b[i])
}

proof fn lemma_import_folders_all(acc: Seq<Folder>, cs: Seq<CredentialProfile>, b: Seq<Folder>, n: nat)
    requires
        keys_unique(b),
        none_stored(acc, b),
        forall|i: int| 0 <= i < b.len() ==> importable_folder(acc + b.take(i), #[trigger] b[i]),
    ensures
        import_folders(acc, cs, b, n) == (acc + b, n + b.len(), true),
    decreases b.len(),
{
    if b.len() == 0 {
        assert(acc + b =~= acc);
    } else {
        assert(!has_key(acc, b[0].key()));
        assert(importable_folder(acc + b.take(0), b[0]));
        assert(acc + b.take(0) =~= acc);
        assert(folder_refs_ok(acc, cs, b[0]));
        lemma_none_stored_step(acc, b);
        let acc2 = acc.push(b[0]);
        let rest = b.drop_first();
        assert forall|i: int| 0 <= i < rest.len() implies importable_folder(acc2 + rest.take(i), #[trigger] rest[i]) by {
            assert(rest[i] == b[i + 1]);
            assert(importable_folder(acc + b.take(i + 1), b[i + 1]));
            assert(acc2 + rest.take(i) =~= acc + b.take(i + 1));
        }
        lemma_import_folders_all(acc2, cs, rest, n + 1);
        assert(acc2 + rest =~= acc + b);
    }
}

proof fn lemma_import_credentials_all(acc: Seq<CredentialProfile>, b: Seq<CredentialProfile>, n: nat)
    requires
        keys_unique(b),
        none_stored(acc, b),
    ensures
        import_credentials(acc, b, n) == (acc + b, n + b.len()),
    decreases b.len(),
{
    if b.len() == 0 {
        assert(acc + b =~= acc);
    } else {
        assert(!has_key(acc, b[0].key()));
        lemma_none_stored_step(acc, b);
        lemma_import_credentials_all(acc.push(b[0]), b.drop_first(), n + 1);
        assert(acc.push(b[0]) + b.drop_first() =~= acc + b);
    }
}

proof fn lemma_import_connections_all(acc: Seq<Connection>, fs: Seq<Folder>, cs: Seq<CredentialProfile>, b: Seq<Connection>, n: nat)
    requires
        keys_unique(b),
        none_stored(acc, b),
        forall|i: int| 0 <= i < b.len() ==> connection_refs_ok(fs, cs, #[trigger] b[i]),
    ensures
        import_connections(acc, fs, cs, b, n) == (acc + b, n + b.len(), true),
    decreases b.len(),
{
    if b.len() == 0 {
        assert(acc + b =~= acc);
    } else {
        assert(!has_key(acc, b[0].key()));
        assert(connection_refs_ok(fs, cs, b[0]));
        lemma_none_stored_step(acc, b);
        assert forall|i: int| 0 <= i < b.drop_first().len() implies connection_refs_ok(fs, cs, #[trigger] b.drop_first()[i]) by {
            assert(b.drop_first()[i] == b[i + 1]);
        }
        lemma_import_connections_all(acc.push(b[0]), fs, cs, b.drop_first(), n + 1);
        assert(acc.push(b[0]) + b.drop_first() =~= acc + b);
    }
}

/// Importing a bundle into an empty registry stores exactly its rows and
/// counts them all, provided its ids are distinct per table and each row
/// refers only to rows imported before it: a folder to no default
/// credential and to no parent but itself or an earlier folder, a
/// connection to the bundle's own folders and credential profiles.
pub proof fn law_import_into_empty_restores(bf: Seq<Folder>, bc: Seq<CredentialProfile>, bn: Seq<Connection>)
    requires
        keys_unique(bf),
        keys_unique(bc),
        keys_unique(bn),
        parents_first(bf),
        forall|i: int| 0 <= i < bn.len() ==> connection_refs_ok(bf, bc, #[trigger] bn[i]),
    ensures
        import_folders(Seq::empty(), Seq::empty(), bf, 0) == (bf, bf.len(), true),
        import_credentials(Seq::empty(), bc, 0) == (bc, bc.len()),
        import_connections(Seq::empty(), bf, bc, bn, 0) == (bn, bn.len(), true),
{
    let ef = Seq::<Folder>::empty();
    let ec = Seq::<CredentialProfile>::empty();
    let en = Seq::<Connection>::empty();
    assert(ef + bf =~= bf);
    assert(ec + bc =~= bc);
    assert(en + bn =~= bn);
    assert forall|i: int| 0 <= i < bf.len() implies importable_folder(ef + bf.take(i), #[trigger] bf[i]) by {
        assert(ef + bf.take(i) =~= bf.take(i));
    }
    lemma_import_folders_all(ef, ec, bf, 0);
    lemma_import_credentials_all(ec, bc, 0);
    lemma_import_connections_all(en, bf, bc, bn, 0);
}

/// After a row is stored under a fresh id, reading that id gives it back
/// (what `get_*` returns after `create_*`).
pub proof fn law_get_after_create<R: Row>(rows: Seq<R>, r: R)
    requires
        keys_unique(rows),
        !has_key(rows, r.key()),
    ensures
        has_key(rows.push(r), r.key()),
        row_with(rows.push(r), r.key()) == r,
{
    lemma_push_unique(rows, r);
    let t = rows.push(r);
    assert(t[rows.len() as int] == r);
    lemma_row_with(t, rows.len() as int);
}


/// Deleting a folder leaves no folder of its subtree, keeps every other
/// folder, and keeps every connection (with its id), taking the folder
/// away from those that were in the subtree.
pub proof fn law_delete_folder_keeps_connections(fs: Seq<Folder>, ns: Seq<Connection>, root: u128, x: u128)
    ensures
        within(fs, x, root) ==> !has_key(fs.filter(|g: Folder| !within(fs, g.id.0, root)), x),
        !within(fs, x, root) && has_key(fs, x) ==> has_key(fs.filter(|g: Folder| !within(fs, g.id.0, root)), x),
        ns.map_values(|c: Connection| clear_folder_ref(c, fs, root)).len() == ns.len(),
        forall|i: int| 0 <= i < ns.len() ==> {
            let c = ns.map_values(|c: Connection| clear_folder_ref(c, fs, root))[i];
            &&& c.id == (#[trigger] ns[i]).id
            &&& (ns[i].folder_id matches Some(f) && within(fs, f.0, root) ==> c == (Connection { folder_id: None, ..ns[i] }))
            &&& (!(ns[i].folder_id matches Some(f) && within(fs, f.0, root)) ==> c == ns[i])
        },
{
    let pred = |g: Folder| !within(fs, g.id.0, root);
    let kept = fs.filter(pred);
    broadcast use vstd::seq_lib::group_filter_ensures;
    if within(fs, x, root) && has_key(kept, x) {
        let i = choose|i: int| 0 <= i < kept.len() && #[trigger] kept[i].key() == x;
        fs.lemma_filter_pred(pred, i);
        assert(pred(kept[i]));
    }
    if !within(fs, x, root) && has_key(fs, x) {
        let i = choose|i: int| 0 <= i < fs.len() && #[trigger] fs[i].key() == x;
        assert(pred(fs[i]));
        fs.lemma_filter_contains(pred, i);
        assert(kept.contains(fs[i]));
        let j = choose|j: int| 0 <= j < kept.len() && kept[j] == fs[i];
        assert(kept[j].key() == x);
    }
}

/// Folders as listed come by `sort_order`, then by name: a folder never
/// comes after one with a greater `sort_order`, nor after one with the same
/// `sort_order` and a name that comes later.
pub proof fn law_folders_listed_by_sort_order_then_name(s: Seq<Folder>)
    requires
        ordered(s),
    ensures
        forall|i: int, j: int|
            0 <= i < j < s.len() ==> (#[trigger] s[i]).sort_order <= (#[trigger] s[j]).sort_order && (s[i].sort_order
                == s[j].sort_order ==> !text_lt(s[j].name@, s[i].name@)),
{
    assert forall|i: int, j: int| 0 <= i < j < s.len() implies (#[trigger] s[i]).sort_order <= (#[trigger] s[j]).sort_order
        && (s[i].sort_order == s[j].sort_order ==> !text_lt(s[j].name@, s[i].name@)) by {
        assert(!s[j].precedes(&s[i]));
    }
}

/// Connections as listed come by name: none comes after one whose name
/// comes later.
pub proof fn law_connections_listed_by_name(s: Seq<Connection>)
    requires
        ordered(s),
    ensures
        forall|i: int, j: int| 0 <= i < j < s.len() ==> !text_lt((#[trigger] s[j]).name@, (#[trigger] s[i]).name@),
{
    assert forall|i: int, j: int| 0 <= i < j < s.len() implies !text_lt((#[trigger] s[j]).name@, (#[trigger] s[i]).name@) by {
        assert(!s[j].precedes(&s[i]));
    }
}

/// Credential profiles as listed come by name.
pub proof fn law_credentials_listed_by_name(s: Seq<CredentialProfile>)
    requires
        ordered(s),
    ensures
        forall|i: int, j: int| 0 <= i < j < s.len() ==> !text_lt((#[trigger] s[j]).name@, (#[trigger] s[i]).name@),
{
    assert forall|i: int, j: int| 0 <= i < j < s.len() implies !text_lt((#[trigger] s[j]).name@, (#[trigger] s[i]).name@) by {
        assert(!s[j].precedes(&s[i]));
    }
}

/// After a row is deleted, no row with its id is left (what `get_*`
/// reports as not found after `delete_*`).
pub proof fn law_get_after_delete<R: Row>(rows: Seq<R>, k: u128)
    ensures
        !has_key(rows.filter(|r: R| r.key() != k), k),
{
    let f = rows.filter(|r: R| r.key() != k);
    if has_key(f, k) {
        let i = choose|i: int| 0 <= i < f.len() && #[trigger] f[i].key() == k;
        rows.lemma_filter_pred(|r: R| r.key() != k, i);
        assert((|r: R| r.key() != k)(f[i]));
    }
}

} // verus!
