//! Encrypted credential vault.
//!
//! Design:
//! - The master password is stretched with Argon2id into a 256-bit *KEK*.
//! - A 256-bit *DEK* is generated when the vault is created and wrapped with
//!   the KEK using AES-256-GCM, with the vault magic as associated data.
//! - Each secret entry is encrypted with the DEK using AES-256-GCM with a
//!   random 96-bit nonce and AAD = `magic | vault_ref | kind`.
//! - The wrapped DEK, its parameters and all entries form one record, which
//!   the caller persists as the vault file.
//! - The DEK is held only while the vault is unlocked, and is wiped on lock.
//!
//! The AAD prevents an attacker who can swap ciphertexts from substituting an
//! entry of one kind (e.g. an SSH password) for another.

use vstd::prelude::*;
use crate::crypto::{aes_gcm_open, aes_gcm_opened, aes_gcm_random_nonce, aes_gcm_seal, argon2_params_ok, argon2id_derive, argon2id_key, os_random_bytes, wipe};
use crate::encoding::{base64_decode, base64_decoded, base64_encode, base64_pad, is_base64_char, lemma_uuid_text_shape, uuid_parse, uuid_parsed, uuid_text, uuid_to_string};
use crate::errors::{err_of, AppError, AppResult, ErrorView};
use crate::ids::VaultRef;
use crate::keyed::{entries_map, entries_sorted, entry_find, entry_insert, entry_remove, lookup, map_get};
use crate::text::chars_of;

verus! {

/// What kind of secret an entry holds. Used as part of the AAD so an entry
/// can never be reinterpreted as a different kind.
#[derive(Debug, Clone, Copy, PartialEq, Eq, Structural)]
pub enum SecretKind {
    Password,
    SshPrivateKey,
    SshKeyPassphrase,
    RdpPassword,
    Certificate,
    Generic,
}

/// The stored name of each kind (also the text of its AAD label).
pub open spec fn kind_name(k: SecretKind) -> Seq<char> {
    match k {
        SecretKind::Password => "password"@,
        SecretKind::SshPrivateKey => "ssh_private_key"@,
        SecretKind::SshKeyPassphrase => "ssh_key_passphrase"@,
        SecretKind::RdpPassword => "rdp_password"@,
        SecretKind::Certificate => "certificate"@,
        SecretKind::Generic => "generic"@,
    }
}

/// The bytes of an ASCII text.
pub open spec fn ascii_bytes(s: Seq<char>) -> Seq<u8> {
    Seq::new(s.len(), |i: int| s[i] as u8)
}

fn ascii_literal_bytes(s: &'static str) -> (res: &'static [u8])
    requires
        vstd::string::is_ascii(s),
    ensures
        res@ == ascii_bytes(s@),
{
    broadcast use vstd::string::is_ascii_spec_bytes;
    s.as_bytes()
}

impl SecretKind {
    /// The stored name of the kind.
    pub fn name(&self) -> (res: &'static str)
        ensures
            res@ == kind_name(*self),
    {
        match self {
            SecretKind::Password => "password",
            SecretKind::SshPrivateKey => "ssh_private_key",
            SecretKind::SshKeyPassphrase => "ssh_key_passphrase",
            SecretKind::RdpPassword => "rdp_password",
            SecretKind::Certificate => "certificate",
            SecretKind::Generic => "generic",
        }
    }

    /// The AAD label of the kind.
    pub fn as_aad(&self) -> (res: &'static [u8])
        ensures
            res@ == ascii_bytes(kind_name(*self)),
    {
        match self {
            SecretKind::Password => {
                proof { reveal_strlit("password"); }
                ascii_literal_bytes("password")
            },
            SecretKind::SshPrivateKey => {
                proof { reveal_strlit("ssh_private_key"); }
                ascii_literal_bytes("ssh_private_key")
            },
            SecretKind::SshKeyPassphrase => {
                proof { reveal_strlit("ssh_key_passphrase"); }
                ascii_literal_bytes("ssh_key_passphrase")
            },
            SecretKind::RdpPassword => {
                proof { reveal_strlit("rdp_password"); }
                ascii_literal_bytes("rdp_password")
            },
            SecretKind::Certificate => {
                proof { reveal_strlit("certificate"); }
                ascii_literal_bytes("certificate")
            },
            SecretKind::Generic => {
                proof { reveal_strlit("generic"); }
                ascii_literal_bytes("generic")
            },
        }
    }
}

/// The magic text that identifies a vault record.
pub open spec fn vault_magic() -> Seq<char> {
    "navis-vault-v1"@
}

/// Memory cost of the key stretching, in KiB (64 MiB).
pub const ARGON2_M_COST_KIB: u32 = 65536;
/// Time cost (passes) of the key stretching.
pub const ARGON2_T_COST: u32 = 3;
/// Parallelism of the key stretching.
pub const ARGON2_PARALLELISM: u32 = 1;

fn magic_bytes() -> (res: &'static [u8])
    ensures
        res@ == ascii_bytes(vault_magic()),
{
    proof { reveal_strlit("navis-vault-v1"); }
    ascii_literal_bytes("navis-vault-v1")
}

fn magic_string() -> (res: String)
    ensures
        res@ == vault_magic(),
{
    String::from_str("navis-vault-v1")
}

/// The associated data of an entry: `magic | vault_ref | kind`, with the
/// reference in its hyphenated text form.
pub open spec fn aad_bytes(vref: u128, kind: SecretKind) -> Seq<u8> {
    ascii_bytes(vault_magic()) + seq![124u8] + ascii_bytes(uuid_text(vref)) + seq![124u8]
        + ascii_bytes(kind_name(kind))
}

/// The associated data binding an entry to its reference and kind.
pub fn aad_for(vref: &VaultRef, kind: SecretKind) -> (res: Vec<u8>)
    ensures
        res@ == aad_bytes(vref.0, kind),
{
    let mut aad: Vec<u8> = Vec::new();
    append_bytes(&mut aad, magic_bytes());
    aad.push(124u8);
    let text = uuid_to_string(vref.0);
    let t = text.as_str();
    proof {
        lemma_uuid_text_shape(vref.0);
        assert forall|i: int| 0 <= i < t@.len() implies '\0' <= #[trigger] t@[i] <= '\u{7f}' by {
            assert(crate::encoding::is_hex_char(t@[i]) || t@[i] == '-');
        }
        assert(vstd::string::is_ascii(t));
    }
    let text_bytes = ascii_str_bytes(t);
    append_bytes(&mut aad, text_bytes);
    aad.push(124u8);
    append_bytes(&mut aad, kind.as_aad());
    aad
}

fn ascii_str_bytes(s: &str) -> (res: &[u8])
    requires
        vstd::string::is_ascii(s),
    ensures
        res@ == ascii_bytes(s@),
{
    broadcast use vstd::string::is_ascii_spec_bytes;
    s.as_bytes()
}

fn append_bytes(v: &mut Vec<u8>, b: &[u8])
    ensures
        final(v)@ == old(v)@ + b@,
{
    let mut i: usize = 0;
    let ghost start = v@;
    while i < b.len()
        invariant
            i <= b@.len(),
            v@ == start + b@.take(i as int),
        decreases b@.len() - i,
    {
        v.push(b[i]);
        i += 1;
        assert(v@ =~= start + b@.take(i as int));
    }
    assert(b@.take(b@.len() as int) =~= b@);
}

/// The number of `=` characters that end a text.
pub open spec fn trailing_pads(s: Seq<char>) -> nat
    decreases s.len(),
{
    if s.len() > 0 && s.last() == '=' {
        trailing_pads(s.drop_last()) + 1
    } else {
        0
    }
}

/// The byte length that decoding a Base64 text gives, estimated from its
/// length in bytes and its padding (three bytes per four, less the padding).
pub open spec fn decoded_len(s: Seq<char>) -> int {
    (vstd::utf8::encode_utf8(s).len() / 4) * 3 - trailing_pads(s)
}

proof fn lemma_trailing_pads_le(s: Seq<char>)
    ensures
        trailing_pads(s) <= s.len(),
    decreases s.len(),
{
    if s.len() > 0 && s.last() == '=' {
        lemma_trailing_pads_le(s.drop_last());
    }
}

proof fn lemma_ascii_encoded_len(s: Seq<char>)
    requires
        forall|i: int| 0 <= i < s.len() ==> is_base64_char(#[trigger] s[i]),
    ensures
        vstd::utf8::encode_utf8(s).len() == s.len(),
{
    assert(vstd::utf8::is_ascii_chars(s)) by {
        assert forall|i: int| 0 <= i < s.len() implies '\0' <= #[trigger] s[i] <= '\u{7f}' by {
            assert(is_base64_char(s[i]));
        }
    }
    vstd::utf8::is_ascii_chars_encode_utf8(s);
}

proof fn lemma_trailing_pads_exact(s: Seq<char>, p: nat)
    requires
        p <= s.len(),
        forall|i: int| 0 <= i < s.len() ==> (#[trigger] s[i] == '=' <==> i >= s.len() - p),
    ensures
        trailing_pads(s) == p,
    decreases s.len(),
{
    if s.len() > 0 {
        assert(s[s.len() - 1] == s.last());
        if p > 0 {
            let t = s.drop_last();
            assert forall|i: int| 0 <= i < t.len() implies (#[trigger] t[i] == '=' <==> i >= t.len() - (p - 1)) by {
                assert(t[i] == s[i]);
            }
            lemma_trailing_pads_exact(t, (p - 1) as nat);
        }
    }
}

/// The estimated decoded length of the standard Base64 text of `n` bytes
/// is `n`.
proof fn lemma_base64_decoded_len(s: Seq<char>, n: nat)
    requires
        s.len() == 4 * ((n + 2) / 3),
        forall|i: int| 0 <= i < s.len() ==> is_base64_char(#[trigger] s[i]),
        forall|i: int| 0 <= i < s.len() ==> (#[trigger] s[i] == '=' <==> i >= s.len() - base64_pad(n)),
    ensures
        decoded_len(s) == n,
{
    lemma_ascii_encoded_len(s);
    let q = (n + 2) / 3;
    assert(n % 3 == 0 ==> n == 3 * q) by (nonlinear_arith)
        requires q == (n + 2) / 3;
    assert(n % 3 == 1 ==> n == 3 * q - 2) by (nonlinear_arith)
        requires q == (n + 2) / 3;
    assert(n % 3 == 2 ==> n == 3 * q - 1) by (nonlinear_arith)
        requires q == (n + 2) / 3;
    assert(base64_pad(n) <= s.len());
    lemma_trailing_pads_exact(s, base64_pad(n));
    assert((4 * q) / 4 == q) by (nonlinear_arith);
}

/// Estimates the decoded length of a Base64 text: three bytes per four
/// bytes of text, less the padding, and never below zero.
pub fn base64_decoded_len(s: &str) -> (res: usize)
    ensures
        res == (if decoded_len(s@) >= 0 { decoded_len(s@) } else { 0 }),
{
    let bytes: usize = s.as_bytes().len();
    let cs = chars_of(s);
    let mut pad: usize = 0;
    let mut j: usize = cs.len();
    proof { lemma_trailing_pads_le(s@); }
    assert(cs@.take(cs@.len() as int) == cs@);
    while j > 0 && cs[j - 1] == '='
        invariant
            j <= cs@.len(),
            cs@.len() == cs.len(),
            cs@ == s@,
            pad + trailing_pads(cs@.take(j as int)) == trailing_pads(s@),
            pad == cs@.len() - j,
        decreases j,
    {
        assert(cs@.take(j as int).drop_last() == cs@.take(j - 1));
        pad += 1;
        j -= 1;
    }
    assert(trailing_pads(cs@.take(j as int)) == 0);
    let whole = bytes / 4 * 3;
    if whole >= pad {
        whole - pad
    } else {
        0
    }
}

/// Parameters of the key stretching, as recorded in the vault file.
#[derive(Debug, Clone)]
pub struct KdfParamsOnDisk {
    pub algorithm: String,
    pub m_cost_kib: u32,
    pub t_cost: u32,
    pub parallelism: u32,
}

/// One encrypted entry, as recorded in the vault file.
#[derive(Debug)]
pub struct EncryptedEntry {
    pub kind: SecretKind,
    pub nonce_b64: String,
    pub ciphertext_b64: String,
}

impl Clone for EncryptedEntry {
    fn clone(&self) -> (r: Self)
        ensures
            r == *self,
    {
        EncryptedEntry {
            kind: self.kind,
            nonce_b64: self.nonce_b64.clone(),
            ciphertext_b64: self.ciphertext_b64.clone(),
        }
    }
}

/// The vault file's content: magic, version, KDF parameters, the salt, the
/// wrapped DEK and its nonce (all Base64), and the entries keyed by the text
/// of their reference, in key order.
#[derive(Debug)]
pub struct OnDiskVault {
    pub magic: String,
    pub version: u32,
    pub kdf: KdfParamsOnDisk,
    pub salt_b64: String,
    pub wrapped_dek_b64: String,
    pub dek_nonce_b64: String,
    pub entries: Vec<(String, EncryptedEntry)>,
}

/// Public, redacted summary of a vault entry.
#[derive(Debug, Clone, Copy)]
pub struct EntrySummary {
    pub vault_ref: VaultRef,
    pub kind: SecretKind,
    pub size_bytes: usize,
}




/// Whether `s` begins with `p`.
pub open spec fn has_prefix(s: Seq<char>, p: Seq<char>) -> bool {
    p.len() <= s.len() && s.subrange(0, p.len() as int) == p
}

/// How unlocking a record with a password ends.
pub enum UnlockStep {
    /// The salt, wrapped DEK or its nonce is not valid Base64.
    Undecodable,
    /// The DEK nonce does not have 12 bytes.
    NonceLength,
    /// Key stretching refuses the salt or password.
    KdfRefused,
    /// The wrapped DEK does not authenticate under the derived key.
    WrongPassword,
    /// The unwrapped DEK does not have 32 bytes.
    KeyLength,
    /// The DEK.
    Opened(Seq<u8>),
}

/// The KEK that a password and salt stretch into under the vault's
/// Argon2id costs.
pub open spec fn kek_of(pwd: Seq<u8>, salt: Seq<u8>) -> Seq<u8> {
    argon2id_key(ARGON2_M_COST_KIB, ARGON2_T_COST, ARGON2_PARALLELISM, pwd, salt)
}

/// What unlocking `rec` with the password bytes `pwd` gives.
pub open spec fn unlock_step(rec: OnDiskVault, pwd: Seq<u8>) -> UnlockStep {
    match (
        base64_decoded(rec.salt_b64@),
        base64_decoded(rec.wrapped_dek_b64@),
        base64_decoded(rec.dek_nonce_b64@),
    ) {
        (Some(salt), Some(wrapped), Some(nonce)) => {
            if nonce.len() != 12 {
                UnlockStep::NonceLength
            } else if !(8 <= salt.len() <= 0xFFFF_FFFF && pwd.len() <= 0xFFFF_FFFF) {
                UnlockStep::KdfRefused
            } else {
                match aes_gcm_opened(kek_of(pwd, salt), nonce, wrapped, ascii_bytes(vault_magic())) {
                    None => UnlockStep::WrongPassword,
                    Some(d) => if d.len() != 32 {
                        UnlockStep::KeyLength
                    } else {
                        UnlockStep::Opened(d)
                    },
                }
            }
        },
        _ => UnlockStep::Undecodable,
    }
}

/// How reading a reference ends.
pub enum ReadOutcome {
    /// The vault is locked.
    Locked,
    /// No record is loaded.
    NotLoaded,
    /// No entry has that reference.
    Missing,
    /// The entry's nonce or ciphertext is not valid Base64.
    Undecodable,
    /// The entry does not authenticate under the DEK.
    Rejected,
    /// The plaintext.
    Plain(Seq<u8>),
}

/// What `Vault::get` gives for a reference, given the DEK (if unlocked) and
/// the entries (if loaded).
pub open spec fn read_outcome(
    dek: Option<Seq<u8>>,
    entries: Option<Seq<(String, EncryptedEntry)>>,
    vref: u128,
) -> ReadOutcome {
    match dek {
        None => ReadOutcome::Locked,
        Some(d) => match entries {
            None => ReadOutcome::NotLoaded,
            Some(es) => match lookup(es, uuid_text(vref)) {
                None => ReadOutcome::Missing,
                Some(e) => match (base64_decoded(e.nonce_b64@), base64_decoded(e.ciphertext_b64@)) {
                    (Some(n), Some(c)) => match aes_gcm_opened(d, n, c, aad_bytes(vref, e.kind)) {
                        None => ReadOutcome::Rejected,
                        Some(p) => ReadOutcome::Plain(p),
                    },
                    _ => ReadOutcome::Undecodable,
                },
            },
        },
    }
}

/// Whether `res` is what a read of `vref` with outcome `o` answers.
pub open spec fn read_answer(o: ReadOutcome, vref: u128, res: AppResult<Vec<u8>>) -> bool {
    match o {
        ReadOutcome::Locked => err_of(res) == Some(ErrorView::VaultLocked),
        ReadOutcome::NotLoaded => err_of(res) == Some(ErrorView::Internal("vault not loaded"@)),
        ReadOutcome::Missing => err_of(res) == Some(ErrorView::NotFound("vault entry "@ + uuid_text(vref))),
        ReadOutcome::Undecodable => res matches Err(AppError::Crypto(m)) && has_prefix(m@, "base64: "@),
        ReadOutcome::Rejected => err_of(res) == Some(ErrorView::Crypto("decrypt entry: aead::Error"@)),
        ReadOutcome::Plain(p) => res matches Ok(v) && v@ == p,
    }
}

/// An entry's nonce, where it decodes, has the 12 bytes that AES-GCM takes.
pub open spec fn nonce_fits(e: EncryptedEntry) -> bool {
    base64_decoded(e.nonce_b64@) matches Some(n) ==> n.len() == 12
}

/// The vault: where its file lives, the record read from it (if any) and
/// the DEK while unlocked.
pub struct Vault {
    path: String,
    record: Option<OnDiskVault>,
    dek: Option<Vec<u8>>,
}

impl Vault {
    /// The vault file's path.
    pub closed spec fn path_view(&self) -> Seq<char> {
        self.path@
    }

    /// The record in memory, if loaded.
    pub closed spec fn record_view(&self) -> Option<OnDiskVault> {
        self.record
    }

    /// The entries of the record in memory, if loaded.
    pub open spec fn entries_view(&self) -> Option<Seq<(String, EncryptedEntry)>> {
        match self.record_view() {
            Some(r) => Some(r.entries@),
            None => None,
        }
    }

    /// The DEK, while unlocked.
    pub closed spec fn dek_view(&self) -> Option<Seq<u8>> {
        match self.dek {
            Some(d) => Some(d@),
            None => None,
        }
    }

    /// The DEK has 32 bytes and the entries are in key order.
    pub open spec fn wf(&self) -> bool {
        &&& (self.dek_view() matches Some(d) ==> d.len() == 32)
        &&& (self.record_view() matches Some(r) ==> entries_sorted(r.entries@))
    }

    /// A vault whose file lives at `path`; nothing loaded, locked.
    pub fn new(path: String) -> (res: Self)
        ensures
            res.wf(),
            res.path_view() == path@,
            res.record_view() is None,
            res.dek_view() is None,
    {
        Vault { path, record: None, dek: None }
    }

    /// The vault file's path.
    pub fn path(&self) -> (res: &String)
        ensures
            res@ == self.path_view(),
    {
        &self.path
    }

    /// Whether the vault is unlocked.
    pub fn is_unlocked(&self) -> (res: bool)
        ensures
            res == (self.dek_view() is Some),
    {
        self.dek.is_some()
    }

    /// The record in memory, for persisting.
    pub fn record(&self) -> (res: Option<&OnDiskVault>)
        ensures
            match res {
                Some(r) => self.record_view() == Some(*r),
                None => self.record_view() is None,
            },
    {
        match &self.record {
            Some(r) => Some(r),
            None => None,
        }
    }
}


/// The entries in key order, one per key, the later of two entries with
/// the same key winning (as reading them into a sorted map does).
fn sorted_entries(es: &Vec<(String, EncryptedEntry)>) -> (res: Vec<(String, EncryptedEntry)>)
    ensures
        entries_sorted(res@),
        forall|k: Seq<char>| lookup(res@, k) == map_get(entries_map(es@), k),
{
    let mut out: Vec<(String, EncryptedEntry)> = Vec::new();
    let mut i: usize = 0;
    while i < es.len()
        invariant
            i <= es@.len(),
            entries_sorted(out@),
            forall|k: Seq<char>| lookup(out@, k) == map_get(entries_map(es@.take(i as int)), k),
        decreases es@.len() - i,
    {
        let key = es[i].0.clone();
        let e = es[i].1.clone();
        let ghost before = out@;
        entry_insert(&mut out, key, e);
        proof {
            let t = es@.take(i + 1);
            assert(t.drop_last() == es@.take(i as int));
            assert(t.last() == es@[i as int]);
        }
        i += 1;
    }
    assert(es@.take(es@.len() as int) == es@);
    out
}

impl Vault {
    /// Takes the record read from the vault file (it stays locked). A record
    /// whose magic is not the vault's is refused and nothing changes.
    pub fn load(&mut self, rec: OnDiskVault) -> (res: AppResult<()>)
        requires
            old(self).wf(),
        ensures
            final(self).wf(),
            final(self).path_view() == old(self).path_view(),
            final(self).dek_view() == old(self).dek_view(),
            rec.magic@ != vault_magic() ==> err_of(res) == Some(ErrorView::Storage("vault magic mismatch"@))
                && final(self).record_view() == old(self).record_view(),
            rec.magic@ == vault_magic() ==> res is Ok && (final(self).record_view() matches Some(r) && {
                &&& r.magic == rec.magic
                &&& r.version == rec.version
                &&& r.kdf == rec.kdf
                &&& r.salt_b64 == rec.salt_b64
                &&& r.wrapped_dek_b64 == rec.wrapped_dek_b64
                &&& r.dek_nonce_b64 == rec.dek_nonce_b64
                &&& forall|k: Seq<char>| lookup(r.entries@, k) == map_get(entries_map(rec.entries@), k)
            }),
    {
        let magic = magic_string();
        if rec.magic != magic {
            return Err(AppError::Storage(String::from_str("vault magic mismatch")));
        }
        let entries = sorted_entries(&rec.entries);
        let OnDiskVault { magic, version, kdf, salt_b64, wrapped_dek_b64, dek_nonce_b64, entries: _ } = rec;
        self.record = Some(OnDiskVault { magic, version, kdf, salt_b64, wrapped_dek_b64, dek_nonce_b64, entries });
        Ok(())
    }
}


/// A text joined after a prefix begins with that prefix.
pub proof fn lemma_has_prefix(p: Seq<char>, rest: Seq<char>)
    ensures
        has_prefix(p + rest, p),
{
    assert((p + rest).subrange(0, p.len() as int) =~= p);
}

/// Decodes one Base64 field of the vault file.
fn unb64(s: &String) -> (res: AppResult<Vec<u8>>)
    ensures
        match res {
            Ok(v) => base64_decoded(s@) == Some(v@),
            Err(AppError::Crypto(m)) => base64_decoded(s@) is None && has_prefix(m@, "base64: "@),
            Err(_) => false,
        },
{
    match base64_decode(s.as_str()) {
        Ok(v) => Ok(v),
        Err(e) => {
            let m = crate::errors::text_error("base64: ", &e);
            proof { lemma_has_prefix("base64: "@, e@); }
            Err(AppError::Crypto(m))
        },
    }
}

/// Stretches the password with the vault's Argon2id costs.
fn derive_kek(pwd: &[u8], salt: &[u8]) -> (res: AppResult<Vec<u8>>)
    ensures
        res is Ok <==> (8 <= salt@.len() <= 0xFFFF_FFFF && pwd@.len() <= 0xFFFF_FFFF),
        match res {
            Ok(k) => k@ == kek_of(pwd@, salt@) && k@.len() == 32,
            Err(AppError::Crypto(m)) => has_prefix(m@, "argon2: "@),
            Err(_) => false,
        },
{
    match argon2id_derive(ARGON2_M_COST_KIB, ARGON2_T_COST, ARGON2_PARALLELISM, pwd, salt) {
        Ok(k) => Ok(k),
        Err(e) => {
            let m = crate::errors::text_error("argon2: ", &e);
            proof { lemma_has_prefix("argon2: "@, e@); }
            Err(AppError::Crypto(m))
        },
    }
}


impl Vault {
    /// Creates a brand-new vault encrypted with `master_password` and leaves
    /// it unlocked. Refuses when the vault file already exists.
    pub fn initialize(&mut self, file_exists: bool, master_password: &str) -> (res: AppResult<()>)
        requires
            old(self).wf(),
        ensures
            final(self).wf(),
            final(self).path_view() == old(self).path_view(),
            file_exists ==> err_of(res) == Some(ErrorView::VaultAlreadyInitialized),
            !file_exists ==> (res is Ok <==> vstd::utf8::encode_utf8(master_password@).len() <= 0xFFFF_FFFF),
            res matches Err(e) ==> final(self).record_view() == old(self).record_view()
                && final(self).dek_view() == old(self).dek_view()
                && (!file_exists ==> (e matches AppError::Crypto(m) && has_prefix(m@, "argon2: "@))),
            res is Ok ==> (final(self).record_view() matches Some(r) && {
                &&& r.magic@ == vault_magic()
                &&& r.version == 1
                &&& r.kdf.algorithm@ == "argon2id"@
                &&& r.kdf.m_cost_kib == ARGON2_M_COST_KIB
                &&& r.kdf.t_cost == ARGON2_T_COST
                &&& r.kdf.parallelism == ARGON2_PARALLELISM
                &&& r.entries@.len() == 0
                &&& final(self).dek_view() matches Some(d)
                    && unlock_step(r, vstd::utf8::encode_utf8(master_password@)) == UnlockStep::Opened(d)
            }),
    {
        if file_exists {
            return Err(AppError::VaultAlreadyInitialized);
        }
        let salt = os_random_bytes(16);
        let pwd = master_password.as_bytes();
        let mut kek = derive_kek(pwd, salt.as_slice())?;
        let dek = os_random_bytes(32);
        let nonce = aes_gcm_random_nonce();
        let magic = magic_bytes();
        proof {
            reveal_strlit("navis-vault-v1");
        }
        let wrapped = match aes_gcm_seal(kek.as_slice(), nonce.as_slice(), dek.as_slice(), magic) {
            Ok(w) => w,
            Err(e) => {
                wipe(&mut kek);
                return Err(AppError::Crypto(crate::errors::text_error("wrap dek: ", &e)));
            },
        };
        wipe(&mut kek);
        let salt_b64 = base64_encode(salt.as_slice());
        let wrapped_dek_b64 = base64_encode(wrapped.as_slice());
        let dek_nonce_b64 = base64_encode(nonce.as_slice());
        let rec = OnDiskVault {
            magic: magic_string(),
            version: 1,
            kdf: KdfParamsOnDisk {
                algorithm: String::from_str("argon2id"),
                m_cost_kib: ARGON2_M_COST_KIB,
                t_cost: ARGON2_T_COST,
                parallelism: ARGON2_PARALLELISM,
            },
            salt_b64,
            wrapped_dek_b64,
            dek_nonce_b64,
            entries: Vec::new(),
        };
        proof {
            reveal_strlit("argon2id");
        }
        self.record = Some(rec);
        self.dek = Some(dek);
        Ok(())
    }

    /// Unlocks the loaded record with `master_password`. Without a record the
    /// vault is not found (no file) or not loaded yet.
    pub fn unlock(&mut self, file_exists: bool, master_password: &str) -> (res: AppResult<()>)
        requires
            old(self).wf(),
        ensures
            final(self).wf(),
            final(self).path_view() == old(self).path_view(),
            final(self).record_view() == old(self).record_view(),
            res is Err ==> final(self).dek_view() == old(self).dek_view(),
            old(self).record_view() is None ==> err_of(res) == Some(
                if file_exists {
                    ErrorView::Internal("vault not loaded"@)
                } else {
                    ErrorView::NotFound("vault"@)
                },
            ),
            old(self).record_view() matches Some(r) ==> match unlock_step(r, vstd::utf8::encode_utf8(master_password@)) {
                UnlockStep::Opened(d) => res is Ok && final(self).dek_view() == Some(d),
                UnlockStep::NonceLength => err_of(res) == Some(ErrorView::Crypto("dek nonce length"@)),
                UnlockStep::WrongPassword => err_of(res) == Some(ErrorView::BadMasterPassword),
                UnlockStep::KeyLength => err_of(res) == Some(ErrorView::Crypto("dek length"@)),
                UnlockStep::Undecodable => res matches Err(AppError::Crypto(m)) && has_prefix(m@, "base64: "@),
                UnlockStep::KdfRefused => res matches Err(AppError::Crypto(m)) && has_prefix(m@, "argon2: "@),
            },
    {
        let rec = match &self.record {
            Some(r) => r,
            None => {
                if !file_exists {
                    return Err(AppError::NotFound(String::from_str("vault")));
                }
                return Err(AppError::Internal(String::from_str("vault not loaded")));
            },
        };
        let salt = unb64(&rec.salt_b64)?;
        let wrapped = unb64(&rec.wrapped_dek_b64)?;
        let nonce = unb64(&rec.dek_nonce_b64)?;
        if nonce.len() != 12 {
            return Err(AppError::Crypto(String::from_str("dek nonce length")));
        }
        let mut kek = derive_kek(master_password.as_bytes(), salt.as_slice())?;
        let opened = aes_gcm_open(kek.as_slice(), nonce.as_slice(), wrapped.as_slice(), magic_bytes());
        wipe(&mut kek);
        let mut dek = match opened {
            Some(d) => d,
            None => return Err(AppError::BadMasterPassword),
        };
        if dek.len() != 32 {
            wipe(&mut dek);
            return Err(AppError::Crypto(String::from_str("dek length")));
        }
        self.dek = Some(dek);
        Ok(())
    }
}


/// Two records agree on everything but their entries.
pub open spec fn same_header(a: OnDiskVault, b: OnDiskVault) -> bool {
    &&& a.magic == b.magic
    &&& a.version == b.version
    &&& a.kdf == b.kdf
    &&& a.salt_b64 == b.salt_b64
    &&& a.wrapped_dek_b64 == b.wrapped_dek_b64
    &&& a.dek_nonce_b64 == b.dek_nonce_b64
}

/// The associated data of an entry is short: magic, two separators, the
/// 36-character reference and the kind's name.
proof fn lemma_aad_len(vref: u128, kind: SecretKind)
    ensures
        aad_bytes(vref, kind).len() <= 100,
{
    lemma_uuid_text_shape(vref);
    reveal_strlit("navis-vault-v1");
    reveal_strlit("password");
    reveal_strlit("ssh_private_key");
    reveal_strlit("ssh_key_passphrase");
    reveal_strlit("rdp_password");
    reveal_strlit("certificate");
    reveal_strlit("generic");
}

impl Vault {
    /// Forgets the DEK (wiping it); the record stays loaded.
    pub fn lock(&mut self)
        requires
            old(self).wf(),
        ensures
            final(self).wf(),
            final(self).path_view() == old(self).path_view(),
            final(self).record_view() == old(self).record_view(),
            final(self).dek_view() is None,
    {
        if let Some(mut d) = self.dek.take() {
            wipe(&mut d);
        }
    }

    /// Encrypts and stores a new secret under a fresh reference, which it
    /// returns. Needs the vault unlocked.
    pub fn put(&mut self, kind: SecretKind, plaintext: &[u8]) -> (res: AppResult<VaultRef>)
        requires
            old(self).wf(),
        ensures
            final(self).wf(),
            final(self).path_view() == old(self).path_view(),
            final(self).dek_view() == old(self).dek_view(),
            res is Err ==> final(self).record_view() == old(self).record_view(),
            old(self).dek_view() is None ==> err_of(res) == Some(ErrorView::VaultLocked),
            old(self).dek_view() is Some && plaintext@.len() > 0x10_0000_0000 ==> err_of(res) == Some(
                ErrorView::Crypto("encrypt entry: aead::Error"@),
            ),
            old(self).dek_view() is Some && plaintext@.len() <= 0x10_0000_0000 && old(self).record_view() is None
                ==> err_of(res) == Some(ErrorView::Internal("vault not loaded"@)),
            old(self).dek_view() is Some && plaintext@.len() <= 0x10_0000_0000 && old(self).record_view() is Some
                ==> (res matches Ok(v) && {
                &&& final(self).record_view() matches Some(r) && same_header(r, old(self).record_view()->0)
                &&& read_outcome(final(self).dek_view(), final(self).entries_view(), v.0) == ReadOutcome::Plain(plaintext@)
                &&& lookup(final(self).entries_view()->0, uuid_text(v.0)) matches Some(e) && {
                    &&& e.kind == kind
                    &&& base64_decoded(e.nonce_b64@) matches Some(n) && n.len() == 12
                    &&& base64_decoded(e.ciphertext_b64@) matches Some(c) && c.len() == plaintext@.len() + 16
                    &&& summary_of(uuid_text(v.0), e).size_bytes == plaintext@.len()
                }
                &&& forall|k: Seq<char>| k != uuid_text(v.0) ==> lookup(final(self).entries_view()->0, k)
                    == lookup(old(self).entries_view()->0, k)
            }),
    {
        let dek = match &self.dek {
            Some(d) => d,
            None => return Err(AppError::VaultLocked),
        };
        let nonce = aes_gcm_random_nonce();
        let vref = VaultRef::new();
        let aad = aad_for(&vref, kind);
        proof { lemma_aad_len(vref.0, kind); }
        let ct = match aes_gcm_seal(dek.as_slice(), nonce.as_slice(), plaintext, aad.as_slice()) {
            Ok(c) => c,
            Err(e) => {
                proof {
                    reveal_strlit("encrypt entry: ");
                    reveal_strlit("aead::Error");
                    reveal_strlit("encrypt entry: aead::Error");
                    assert("encrypt entry: "@ + "aead::Error"@ =~= "encrypt entry: aead::Error"@);
                }
                return Err(AppError::Crypto(crate::errors::text_error("encrypt entry: ", &e)));
            },
        };
        let entry = EncryptedEntry {
            kind,
            nonce_b64: base64_encode(nonce.as_slice()),
            ciphertext_b64: base64_encode(ct.as_slice()),
        };
        proof {
            crate::encoding::lemma_base64_text_shape(ct@);
            lemma_base64_decoded_len(entry.ciphertext_b64@, ct@.len());
        }
        if self.record.is_none() {
            return Err(AppError::Internal(String::from_str("vault not loaded")));
        }
        let key = vref.to_string();
        let mut rec = self.record.take().unwrap();
        // The plaintext's length fits a `usize`, as its size estimate does.
        let plain_len: usize = plaintext.len();
        entry_insert(&mut rec.entries, key, entry);
        self.record = Some(rec);
        assert(plain_len == plaintext@.len());
        Ok(vref)
    }

    /// Whether the entry under `vref`, if there is one, has a nonce that
    /// decodes to something other than 12 bytes (which `get` cannot take).
    pub fn entry_nonce_fits(&self, vref: &VaultRef) -> (res: bool)
        requires
            self.wf(),
        ensures
            res == (self.entries_view() matches Some(es) ==> (lookup(es, uuid_text(vref.0)) matches Some(e)
                ==> nonce_fits(e))),
    {
        let rec = match &self.record {
            Some(r) => r,
            None => return true,
        };
        let key = vref.to_string();
        match entry_find(&rec.entries, &key) {
            None => true,
            Some(i) => match base64_decode(rec.entries[i].1.nonce_b64.as_str()) {
                Ok(n) => n.len() == 12,
                Err(_) => true,
            },
        }
    }

    /// Whether `get` can take `vref`: while unlocked, the nonce of its entry,
    /// where it decodes, has the 12 bytes that AES-GCM takes.
    pub open spec fn readable(&self, vref: u128) -> bool {
        self.dek_view() is Some ==> (self.entries_view() matches Some(es) ==> (lookup(es, uuid_text(vref)) matches Some(
            e,
        ) ==> nonce_fits(e)))
    }

    /// Decrypts the secret stored under `vref`, or gives `None` when `get`
    /// cannot take it (its entry's nonce has the wrong length).
    pub fn get_checked(&self, vref: &VaultRef) -> (res: Option<AppResult<Vec<u8>>>)
        requires
            self.wf(),
        ensures
            res is None <==> !self.readable(vref.0),
            res matches Some(r) ==> read_answer(read_outcome(self.dek_view(), self.entries_view(), vref.0), vref.0, r),
    {
        if self.is_unlocked() && !self.entry_nonce_fits(vref) {
            return None;
        }
        Some(self.get(vref))
    }

    /// Decrypts the secret stored under `vref`. Needs the vault unlocked.
    pub fn get(&self, vref: &VaultRef) -> (res: AppResult<Vec<u8>>)
        requires
            self.wf(),
            self.readable(vref.0),
        ensures
            read_answer(read_outcome(self.dek_view(), self.entries_view(), vref.0), vref.0, res),
    {
        let dek = match &self.dek {
            Some(d) => d,
            None => return Err(AppError::VaultLocked),
        };
        let rec = match &self.record {
            Some(r) => r,
            None => return Err(AppError::Internal(String::from_str("vault not loaded"))),
        };
        let key = vref.to_string();
        let i = match entry_find(&rec.entries, &key) {
            Some(i) => i,
            None => return Err(AppError::NotFound(crate::errors::text_error("vault entry ", &key))),
        };
        let e = &rec.entries[i].1;
        let nonce = unb64(&e.nonce_b64)?;
        let ct = unb64(&e.ciphertext_b64)?;
        let aad = aad_for(vref, e.kind);
        match aes_gcm_open(dek.as_slice(), nonce.as_slice(), ct.as_slice(), aad.as_slice()) {
            Some(p) => Ok(p),
            None => Err(AppError::Crypto(String::from_str("decrypt entry: aead::Error"))),
        }
    }

    /// Removes the entry under `vref` (locked or not).
    pub fn delete(&mut self, vref: &VaultRef) -> (res: AppResult<()>)
        requires
            old(self).wf(),
        ensures
            final(self).wf(),
            final(self).path_view() == old(self).path_view(),
            final(self).dek_view() == old(self).dek_view(),
            res is Err ==> final(self).record_view() == old(self).record_view(),
            old(self).record_view() is None ==> err_of(res) == Some(ErrorView::Internal("vault not loaded"@)),
            old(self).record_view() matches Some(r) ==> {
                &&& lookup(r.entries@, uuid_text(vref.0)) is None ==> err_of(res) == Some(
                    ErrorView::NotFound("vault entry "@ + uuid_text(vref.0)),
                )
                &&& lookup(r.entries@, uuid_text(vref.0)) is Some ==> (res is Ok && (final(self).record_view() matches Some(r2) && {
                    &&& same_header(r2, r)
                    &&& lookup(r2.entries@, uuid_text(vref.0)) is None
                    &&& forall|k: Seq<char>| k != uuid_text(vref.0) ==> lookup(r2.entries@, k) == lookup(r.entries@, k)
                }))
            },
    {
        if self.record.is_none() {
            return Err(AppError::Internal(String::from_str("vault not loaded")));
        }
        let key = vref.to_string();
        match &self.record {
            Some(r) => {
                if entry_find(&r.entries, &key).is_none() {
                    return Err(AppError::NotFound(crate::errors::text_error("vault entry ", &key)));
                }
            },
            None => {},
        }
        let mut rec = self.record.take().unwrap();
        entry_remove(&mut rec.entries, &key);
        self.record = Some(rec);
        Ok(())
    }
}


/// The redacted summary of an entry whose key reads as a UUID: the
/// reference, the kind and the plaintext size estimated from the Base64
/// length less the 16-byte tag (never below zero).
pub open spec fn summary_of(key: Seq<char>, e: EncryptedEntry) -> EntrySummary {
    EntrySummary {
        vault_ref: VaultRef(uuid_parsed(key)->0),
        kind: e.kind,
        size_bytes: if decoded_len(e.ciphertext_b64@) >= 16 {
            (decoded_len(e.ciphertext_b64@) - 16) as usize
        } else {
            0
        },
    }
}

/// Whether every key of the entries reads as a UUID.
pub open spec fn keys_parse(es: Seq<(String, EncryptedEntry)>) -> bool {
    forall|i: int| 0 <= i < es.len() ==> uuid_parsed((#[trigger] es[i]).0@) is Some
}

impl Vault {
    /// Whether `res` is what listing answers: without a record, that none
    /// is loaded; else one summary per entry in key order, or the error of
    /// the first key that is not a UUID.
    pub open spec fn list_answer(&self, res: AppResult<Vec<EntrySummary>>) -> bool {
        &&& self.record_view() is None ==> err_of(res) == Some(ErrorView::Internal("vault not loaded"@))
        &&& self.entries_view() matches Some(es) ==> {
            &&& keys_parse(es) ==> (res matches Ok(out) && out@.len() == es.len() && forall|i: int|
                0 <= i < es.len() ==> out@[i] == summary_of(#[trigger] es[i].0@, es[i].1))
            &&& !keys_parse(es) ==> (res matches Err(AppError::Storage(m)) && exists|j: int|
                0 <= j < es.len() && uuid_parsed((#[trigger] es[j]).0@) is None && (forall|i: int|
                    0 <= i < j ==> uuid_parsed((#[trigger] es[i]).0@) is Some) && has_prefix(
                    m@,
                    "bad vault id "@ + es[j].0@ + ": "@,
                ))
        }
    }

    /// Redacted summaries of all entries, in key order.
    pub fn list(&self) -> (res: AppResult<Vec<EntrySummary>>)
        requires
            self.wf(),
        ensures
            self.list_answer(res),
    {
        let rec = match &self.record {
            Some(r) => r,
            None => return Err(AppError::Internal(String::from_str("vault not loaded"))),
        };
        let mut out: Vec<EntrySummary> = Vec::new();
        let mut i: usize = 0;
        while i < rec.entries.len()
            invariant
                i <= rec.entries@.len(),
                self.record_view() == Some(*rec),
                out@.len() == i,
                forall|q: int| 0 <= q < i ==> uuid_parsed((#[trigger] rec.entries@[q]).0@) is Some,
                forall|q: int| 0 <= q < i ==> out@[q] == summary_of(#[trigger] rec.entries@[q].0@, rec.entries@[q].1),
            decreases rec.entries@.len() - i,
        {
            let k = &rec.entries[i].0;
            let v = &rec.entries[i].1;
            let id = match uuid_parse(k.as_str()) {
                Ok(u) => u,
                Err(e) => {
                    let mut m = crate::errors::text_error("bad vault id ", k);
                    m.append(": ");
                    proof {
                        lemma_has_prefix("bad vault id "@ + k@ + ": "@, e@);
                        assert(uuid_parsed((rec.entries@[i as int]).0@) is None);
                    }
                    m.append(e.as_str());
                    return Err(AppError::Storage(m));
                },
            };
            let approx = base64_decoded_len(v.ciphertext_b64.as_str());
            let size = if approx >= 16 { approx - 16 } else { 0 };
            out.push(EntrySummary { vault_ref: VaultRef(id), kind: v.kind, size_bytes: size });
            i += 1;
        }
        Ok(out)
    }
}

/// Writing an entry makes its reference read back the plaintext; writing
/// or removing other references leaves that read unchanged.
pub proof fn law_read_depends_only_on_own_entry(
    dek: Seq<u8>,
    before: Seq<(String, EncryptedEntry)>,
    after: Seq<(String, EncryptedEntry)>,
    v: u128,
)
    requires
        lookup(after, uuid_text(v)) == lookup(before, uuid_text(v)),
    ensures
        read_outcome(Some(dek), Some(after), v) == read_outcome(Some(dek), Some(before), v),
{
}

/// Once an entry is deleted, reading its reference (unlocked) reports it
/// missing.
pub proof fn law_read_after_delete(dek: Seq<u8>, es: Seq<(String, EncryptedEntry)>, v: u128)
    requires
        lookup(es, uuid_text(v)) is None,
    ensures
        read_outcome(Some(dek), Some(es), v) == ReadOutcome::Missing,
{
}

/// A locked vault answers every read with `VaultLocked`, whatever it holds.
pub proof fn law_locked_refuses_reads(entries: Option<Seq<(String, EncryptedEntry)>>, v: u128)
    ensures
        read_outcome(None, entries, v) == ReadOutcome::Locked,
{
}

/// Unlocking with the password a record opens under gives the same DEK
/// every time, so what was readable before locking is readable after.
pub proof fn law_unlock_restores_reads(r: OnDiskVault, pwd: Seq<u8>, dek: Seq<u8>, v: u128, pt: Seq<u8>)
    requires
        unlock_step(r, pwd) == UnlockStep::Opened(dek),
        read_outcome(Some(dek), Some(r.entries@), v) == ReadOutcome::Plain(pt),
    ensures
        unlock_step(r, pwd) matches UnlockStep::Opened(d2) && read_outcome(Some(d2), Some(r.entries@), v)
            == ReadOutcome::Plain(pt),
{
}

/// Listing depends on the record alone: locking or unlocking, which keep
/// the record, never change what listing answers.
pub proof fn law_listing_ignores_lock(a: Vault, b: Vault, res: AppResult<Vec<EntrySummary>>)
    requires
        a.record_view() == b.record_view(),
    ensures
        a.list_answer(res) == b.list_answer(res),
{
}

/// Unlocking depends on a record's header alone: writing or removing
/// entries never changes what a password unlocks.
pub proof fn law_unlock_ignores_entries(a: OnDiskVault, b: OnDiskVault, pwd: Seq<u8>)
    requires
        same_header(a, b),
    ensures
        unlock_step(a, pwd) == unlock_step(b, pwd),
{
}

proof fn lemma_ascii_bytes_injective(a: Seq<char>, b: Seq<char>)
    requires
        ascii_bytes(a) == ascii_bytes(b),
        forall|i: int| 0 <= i < a.len() ==> '\0' <= #[trigger] a[i] <= '\u{7f}',
        forall|i: int| 0 <= i < b.len() ==> '\0' <= #[trigger] b[i] <= '\u{7f}',
    ensures
        a == b,
{
    assert(a.len() == ascii_bytes(a).len());
    assert(b.len() == ascii_bytes(b).len());
    assert forall|i: int| 0 <= i < a.len() implies a[i] == b[i] by {
        assert(ascii_bytes(a)[i] == ascii_bytes(b)[i]);
        assert('\0' <= a[i] <= '\u{7f}' && '\0' <= b[i] <= '\u{7f}');
        assert(ascii_bytes(a)[i] == a[i] as u8);
        assert(ascii_bytes(b)[i] == b[i] as u8);
        assert(0 <= (a[i] as int) < 128);
        assert(0 <= (b[i] as int) < 128);
        assert((a[i] as u8) as int == a[i] as int);
        assert((b[i] as u8) as int == b[i] as int);
        assert(a[i] as int == b[i] as int);
    }
    assert(a =~= b);
}

/// The associated data binds an entry to its reference and its kind: two
/// entries with the same associated data have the same reference and the
/// same kind.
pub proof fn law_aad_binds_reference_and_kind(v1: u128, k1: SecretKind, v2: u128, k2: SecretKind)
    requires
        aad_bytes(v1, k1) == aad_bytes(v2, k2),
    ensures
        v1 == v2,
        k1 == k2,
{
    lemma_uuid_text_shape(v1);
    lemma_uuid_text_shape(v2);
    reveal_strlit("navis-vault-v1");
    reveal_strlit("password");
    reveal_strlit("ssh_private_key");
    reveal_strlit("ssh_key_passphrase");
    reveal_strlit("rdp_password");
    reveal_strlit("certificate");
    reveal_strlit("generic");
    let a1 = aad_bytes(v1, k1);
    let a2 = aad_bytes(v2, k2);
    assert(a1.len() == 52 + kind_name(k1).len());
    assert(a2.len() == 52 + kind_name(k2).len());
    assert(kind_name(k1).len() == kind_name(k2).len());
    assert(k1 == k2) by {
        match k1 {
            SecretKind::Password => {},
            SecretKind::SshPrivateKey => {},
            SecretKind::SshKeyPassphrase => {},
            SecretKind::RdpPassword => {},
            SecretKind::Certificate => {},
            SecretKind::Generic => {},
        }
        match k2 {
            SecretKind::Password => {},
            SecretKind::SshPrivateKey => {},
            SecretKind::SshKeyPassphrase => {},
            SecretKind::RdpPassword => {},
            SecretKind::Certificate => {},
            SecretKind::Generic => {},
        }
    }
    let t1 = ascii_bytes(uuid_text(v1));
    let t2 = ascii_bytes(uuid_text(v2));
    assert(a1.subrange(15, 51) =~= t1);
    assert(a2.subrange(15, 51) =~= t2);
    assert forall|i: int| 0 <= i < uuid_text(v1).len() implies '\0' <= #[trigger] uuid_text(v1)[i] <= '\u{7f}' by {
        assert(crate::encoding::is_hex_char(uuid_text(v1)[i]) || uuid_text(v1)[i] == '-');
    }
    assert forall|i: int| 0 <= i < uuid_text(v2).len() implies '\0' <= #[trigger] uuid_text(v2)[i] <= '\u{7f}' by {
        assert(crate::encoding::is_hex_char(uuid_text(v2)[i]) || uuid_text(v2)[i] == '-');
    }
    lemma_ascii_bytes_injective(uuid_text(v1), uuid_text(v2));
    crate::encoding::lemma_uuid_text_injective(v1, v2);
}


} // verus!
