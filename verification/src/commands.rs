//! The operations the renderer invokes, as the library decides them. The
//! renderer never sees a secret in plaintext, only opaque vault references;
//! it can write secrets but not read them back. Files, sockets and the UI
//! bridge are reached by the caller, which hands in what it read and
//! writes what these functions return.

use vstd::prelude::*;
use crate::encoding::{base64_decode, base64_decoded, base64_text, uuid_text, uuid_to_string};
use crate::errors::{err_of, AppError, AppResult, ErrorView};
use crate::hostkeys::{file_hosts, file_text, has_host_algo, pin_key_spec, render_spec, thumbprint, without_host, RdpPinStore, SshKnownHosts};
use crate::ids::{ConnectionId, CredentialId, SessionId, VaultRef};
use crate::keyed::lookup;
use crate::rdp::ExternalLaunched;
use crate::registry::{dangling_reference, import_connections, import_credentials, import_folders, missing, Connection, ExportBundle, Protocol, Registry};
use crate::session::{SessionInfo, SessionKind, SessionState};
use crate::sftp::{path_error, validate_relative_path};
use crate::ssh::{SshAuth, SshConnectParams, SshOptions};
use crate::table::{has_key, row_with};
use crate::text::{parse_u16, parse_u16_spec, split_last, split_last_chars, string_of, chars_of};
use crate::vault::{has_prefix, lemma_has_prefix, nonce_fits, read_outcome, same_header, ReadOutcome, SecretKind, Vault};

verus! {

/// Whether a vault file exists and whether the vault is unlocked.
#[derive(Debug, Clone, Copy)]
pub struct VaultStatus {
    pub initialized: bool,
    pub unlocked: bool,
}

/// The vault's status (`file_exists`: whether its file exists).
pub fn vault_status(file_exists: bool, vault: &Vault) -> (res: VaultStatus)
    ensures
        res.initialized == file_exists,
        res.unlocked == (vault.dek_view() is Some),
{
    VaultStatus { initialized: file_exists, unlocked: vault.is_unlocked() }
}

/// A secret the renderer hands in once, to be encrypted into the vault.
#[derive(Debug)]
pub struct PutSecretInput {
    pub kind: SecretKind,
    pub plaintext: String,
}

/// Stores a new secret and returns its reference.
pub fn vault_put_secret(vault: &mut Vault, input: &PutSecretInput) -> (res: AppResult<VaultRef>)
    requires
        old(vault).wf(),
    ensures
        final(vault).wf(),
        final(vault).path_view() == old(vault).path_view(),
        final(vault).dek_view() == old(vault).dek_view(),
        res is Err ==> final(vault).record_view() == old(vault).record_view(),
        old(vault).dek_view() is None ==> err_of(res) == Some(ErrorView::VaultLocked),
        old(vault).dek_view() is Some && vstd::utf8::encode_utf8(input.plaintext@).len() > 0x10_0000_0000 ==> err_of(res)
            == Some(ErrorView::Crypto("encrypt entry: aead::Error"@)),
        old(vault).dek_view() is Some && vstd::utf8::encode_utf8(input.plaintext@).len() <= 0x10_0000_0000
            && old(vault).record_view() is None ==> err_of(res) == Some(ErrorView::Internal("vault not loaded"@)),
        old(vault).dek_view() is Some && vstd::utf8::encode_utf8(input.plaintext@).len() <= 0x10_0000_0000
            && old(vault).record_view() is Some ==> (res matches Ok(v) && {
            &&& final(vault).record_view() matches Some(r) && same_header(r, old(vault).record_view()->0)
            &&& read_outcome(final(vault).dek_view(), final(vault).entries_view(), v.0) == ReadOutcome::Plain(
                vstd::utf8::encode_utf8(input.plaintext@),
            )
            &&& lookup(final(vault).entries_view()->0, uuid_text(v.0)) matches Some(e) && e.kind == input.kind
            &&& forall|k: Seq<char>| k != uuid_text(v.0) ==> lookup(final(vault).entries_view()->0, k) == lookup(
                old(vault).entries_view()->0,
                k,
            )
        }),
{
    vault.put(input.kind, input.plaintext.as_str().as_bytes())
}

/// Decodes a Base64 field of a request.
pub fn decode_b64_input(s: &String) -> (res: AppResult<Vec<u8>>)
    ensures
        match res {
            Ok(v) => base64_decoded(s@) == Some(v@),
            Err(AppError::InvalidInput(m)) => base64_decoded(s@) is None && has_prefix(m@, "base64: "@),
            Err(_) => false,
        },
{
    match base64_decode(s.as_str()) {
        Ok(v) => Ok(v),
        Err(e) => {
            let m = crate::errors::text_error("base64: ", &e);
            proof { lemma_has_prefix("base64: "@, e@); }
            Err(AppError::InvalidInput(m))
        },
    }
}

/// A request to trust an SSH host key.
#[derive(Debug)]
pub struct SshTrustInput {
    pub host: String,
    pub port: u16,
    pub algo: String,
    pub key_b64: String,
}

/// Trusts an SSH host key sent in Base64; gives the new store text.
pub fn ssh_trust_host(store: &SshKnownHosts, file: Option<&str>, input: &SshTrustInput) -> (res: AppResult<String>)
    ensures
        match base64_decoded(input.key_b64@) {
            None => res matches Err(AppError::InvalidInput(m)) && has_prefix(m@, "base64: "@),
            Some(key) => match file_hosts(file_text(file)) {
                Err(m) => err_of(res) == Some(ErrorView::Storage(m)),
                Ok(hs) => if has_host_algo(hs, input.host@, input.port, input.algo@) {
                    err_of(res) == Some(ErrorView::InvalidInput("host already has a key recorded; use update"@))
                } else {
                    res matches Ok(t) && t@ == render_spec(hs.push((input.host@, input.port, input.algo@, base64_text(key))))
                },
            },
        },
{
    let key = decode_b64_input(&input.key_b64)?;
    store.trust_on_first_use(file, input.host.as_str(), input.port, input.algo.as_str(), key.as_slice())
}

/// A request to forget an SSH host.
#[derive(Debug)]
pub struct SshForgetInput {
    pub host: String,
    pub port: u16,
}

/// Forgets every key of an SSH host; gives the new store text.
pub fn ssh_forget_host(store: &SshKnownHosts, file: Option<&str>, input: &SshForgetInput) -> (res: AppResult<String>)
    ensures
        match file_hosts(file_text(file)) {
            Err(m) => err_of(res) == Some(ErrorView::Storage(m)),
            Ok(hs) => res matches Ok(t) && t@ == render_spec(without_host(hs, input.host@, input.port)),
        },
{
    store.forget(file, input.host.as_str(), input.port)
}

/// A pinned RDP host, as the renderer lists it.
#[derive(Debug, Clone)]
pub struct RdpPin {
    pub host: String,
    pub port: u16,
    pub thumbprint_sha256: String,
}

/// The pins as listed: every pin whose key splits at its last `:` into a
/// host and a port number, in key order; other keys are left out.
pub open spec fn pin_list(pins: Seq<(String, String)>) -> Seq<(Seq<char>, u16, Seq<char>)>
    decreases pins.len(),
{
    if pins.len() == 0 {
        Seq::empty()
    } else {
        let rest = pin_list(pins.drop_last());
        match split_last(pins.last().0@, ':') {
            Some((h, p)) => match parse_u16_spec(p) {
                Ok(n) => rest.push((h, n, pins.last().1@)),
                Err(_) => rest,
            },
            None => rest,
        }
    }
}

/// The views of listed pins.
pub open spec fn pins_listed(v: Seq<RdpPin>) -> Seq<(Seq<char>, u16, Seq<char>)> {
    Seq::new(v.len(), |i: int| (v[i].host@, v[i].port, v[i].thumbprint_sha256@))
}

/// Lists the pinned RDP hosts.
pub fn rdp_pinned_hosts(store: &RdpPinStore) -> (res: Vec<RdpPin>)
    ensures
        pins_listed(res@) == pin_list(store.pins_view()),
{
    let pins = store.pins();
    let mut out: Vec<RdpPin> = Vec::new();
    let mut i: usize = 0;
    assert(pins@.take(0) =~= Seq::<(String, String)>::empty());
    assert(pins_listed(out@) =~= Seq::<(Seq<char>, u16, Seq<char>)>::empty());
    while i < pins.len()
        invariant
            i <= pins@.len(),
            pins@ == store.pins_view(),
            pins_listed(out@) == pin_list(pins@.take(i as int)),
        decreases pins@.len() - i,
    {
        let (k, v) = (&pins[i].0, &pins[i].1);
        assert(pins@.take(i + 1).drop_last() =~= pins@.take(i as int));
        assert(pins@.take(i + 1).last() == pins@[i as int]);
        let ks = chars_of(k.as_str());
        match split_last_chars(&ks, ':') {
            Some((h, p)) => match parse_u16(&p) {
                Ok(n) => {
                    let ghost before = out@;
                    out.push(RdpPin { host: string_of(&h), port: n, thumbprint_sha256: v.clone() });
                    assert(pins_listed(out@) =~= pins_listed(before).push((h@, n, v@)));
                },
                Err(_) => {},
            },
            None => {},
        }
        i += 1;
    }
    assert(pins@.take(pins@.len() as int) =~= pins@);
    out
}

/// A request to pin an RDP certificate (DER, in Base64).
#[derive(Debug)]
pub struct RdpPinInput {
    pub host: String,
    pub port: u16,
    pub cert_der_b64: String,
}

/// Pins an RDP certificate sent in Base64.
pub fn rdp_pin_host(store: &mut RdpPinStore, input: &RdpPinInput) -> (res: AppResult<()>)
    requires
        old(store).wf(),
    ensures
        final(store).wf(),
        match base64_decoded(input.cert_der_b64@) {
            None => res matches Err(AppError::InvalidInput(m)) && has_prefix(m@, "base64: "@) && final(store).pins_view()
                == old(store).pins_view(),
            Some(cert) => res is Ok && (lookup(final(store).pins_view(), pin_key_spec(input.host@, input.port)) matches Some(t)
                && t@ == thumbprint(cert)) && forall|k: Seq<char>| k != pin_key_spec(input.host@, input.port) ==> lookup(
                final(store).pins_view(),
                k,
            ) == lookup(old(store).pins_view(), k),
        },
{
    let cert = decode_b64_input(&input.cert_der_b64)?;
    store.pin(input.host.as_str(), input.port, cert.as_slice());
    Ok(())
}

/// A request to forget an RDP host's pin.
#[derive(Debug)]
pub struct RdpForgetInput {
    pub host: String,
    pub port: u16,
}

/// Forgets an RDP host's pin.
pub fn rdp_forget_host(store: &mut RdpPinStore, input: &RdpForgetInput)
    requires
        old(store).wf(),
    ensures
        final(store).wf(),
        lookup(final(store).pins_view(), pin_key_spec(input.host@, input.port)) is None,
        forall|k: Seq<char>| k != pin_key_spec(input.host@, input.port) ==> lookup(final(store).pins_view(), k) == lookup(
            old(store).pins_view(),
            k,
        ),
{
    store.forget(input.host.as_str(), input.port)
}

/// What a start request did: a session held in the app, or the platform's
/// own client launched for the connection.
#[derive(Debug, Clone)]
pub enum StartedSession {
    /// A session of the app (SSH), listed among the live sessions.
    InApp { session_id: SessionId },
    /// A session opened in the platform's client (RDP), which the app does
    /// not hold.
    External { client: String, credentials_prefilled: bool },
}

/// The answer to a start request that launched the platform's client.
pub fn external_started(done: ExternalLaunched) -> (res: StartedSession)
    ensures
        res matches StartedSession::External { client, credentials_prefilled } && client@ == done.client@
            && credentials_prefilled == done.credentials_prefilled,
{
    StartedSession::External { client: done.client, credentials_prefilled: done.credentials_prefilled }
}

/// A live session, as the renderer lists it.
#[derive(Debug, Clone, Copy)]
pub struct SessionListItem {
    pub id: SessionId,
    pub connection_id: ConnectionId,
    pub kind: SessionKind,
    pub state: SessionState,
}

/// The list item of a session in its current state.
pub fn session_list_item(info: &SessionInfo, current: SessionState) -> (res: SessionListItem)
    ensures
        res == (SessionListItem { id: info.id, connection_id: info.connection_id, kind: info.kind, state: current }),
{
    SessionListItem { id: info.id, connection_id: info.connection_id, kind: info.kind, state: current }
}

/// The size of a finished transfer.
#[derive(Debug, Clone, Copy)]
pub struct TransferResult {
    pub bytes: u64,
}

/// The error for a request naming no live session.
pub fn session_not_found(id: SessionId) -> (e: AppError)
    ensures
        e@ == ErrorView::NotFound("session "@ + uuid_text(id.0)),
{
    let mut m = String::from_str("session ");
    m.append(uuid_to_string(id.0).as_str());
    AppError::NotFound(m)
}

/// The error for a request naming no live SFTP session.
pub fn sftp_session_not_found(id: SessionId) -> (e: AppError)
    ensures
        e@ == ErrorView::NotFound("sftp session "@ + uuid_text(id.0)),
{
    let mut m = String::from_str("sftp session ");
    m.append(uuid_to_string(id.0).as_str());
    AppError::NotFound(m)
}

/// The error for input that could not reach a session.
pub fn session_error(what: &str, detail: &String) -> (e: AppError)
    ensures
        e@ == ErrorView::Session(what@ + ": "@ + detail@),
{
    let mut m = String::from_str(what);
    m.append(": ");
    m.append(detail.as_str());
    AppError::Session(m)
}

/// How a session for a connection is brought up.
#[derive(Debug, Clone, Copy, PartialEq, Eq, Structural)]
pub enum SessionRoute {
    /// In the app, over the SSH engine.
    InApp,
    /// In the platform's own RDP client.
    External,
}

/// How a session for each protocol is started: SSH in the app, RDP in the
/// platform's client; SFTP sessions are not brought up.
pub open spec fn route_of(p: Protocol) -> Result<SessionRoute, Seq<char>> {
    match p {
        Protocol::Ssh => Ok(SessionRoute::InApp),
        Protocol::Sftp => Err("SFTP session bring-up is implemented in Phase 4"@),
        Protocol::Rdp => Ok(SessionRoute::External),
    }
}

/// How a session can be started for the protocol.
pub fn session_route(p: Protocol) -> (res: AppResult<SessionRoute>)
    ensures
        match route_of(p) {
            Ok(r) => res == Ok::<SessionRoute, AppError>(r),
            Err(m) => err_of(res) == Some(ErrorView::Protocol(m)),
        },
{
    match p {
        Protocol::Ssh => Ok(SessionRoute::InApp),
        Protocol::Sftp => Err(AppError::Protocol(String::from_str("SFTP session bring-up is implemented in Phase 4"))),
        Protocol::Rdp => Ok(SessionRoute::External),
    }
}

/// The SSH connection parameters for a saved connection; it needs a user.
pub fn ssh_params(conn: &Connection, session_id: SessionId, options: SshOptions) -> (res: AppResult<SshConnectParams>)
    ensures
        match conn.username {
            None => err_of(res) == Some(ErrorView::InvalidInput("connection has no username"@)),
            Some(u) => res matches Ok(p) && p.session_id == session_id && p.connection_id == conn.id && p.host
                == conn.host && p.port == conn.port && p.user == u && p.options == options,
        },
{
    let user = match &conn.username {
        Some(u) => u.clone(),
        None => return Err(AppError::InvalidInput(String::from_str("connection has no username"))),
    };
    Ok(SshConnectParams {
        session_id,
        connection_id: conn.id,
        host: conn.host.clone(),
        port: conn.port,
        user,
        options,
    })
}

/// Whether `e` is the error `Vault::get` gives for a failed read of
/// `vref` with that outcome.
pub open spec fn read_failure(o: ReadOutcome, vref: u128, e: Option<ErrorView>) -> bool {
    match o {
        ReadOutcome::Locked => e == Some(ErrorView::VaultLocked),
        ReadOutcome::NotLoaded => e == Some(ErrorView::Internal("vault not loaded"@)),
        ReadOutcome::Missing => e == Some(ErrorView::NotFound("vault entry "@ + uuid_text(vref))),
        ReadOutcome::Undecodable => e matches Some(ErrorView::Crypto(m)) && has_prefix(m, "base64: "@),
        ReadOutcome::Rejected => e == Some(ErrorView::Crypto("decrypt entry: aead::Error"@)),
        ReadOutcome::Plain(_) => false,
    }
}

/// How a secret kind prints in messages.
pub open spec fn kind_debug_name(k: SecretKind) -> Seq<char> {
    match k {
        SecretKind::Password => "Password"@,
        SecretKind::SshPrivateKey => "SshPrivateKey"@,
        SecretKind::SshKeyPassphrase => "SshKeyPassphrase"@,
        SecretKind::RdpPassword => "RdpPassword"@,
        SecretKind::Certificate => "Certificate"@,
        SecretKind::Generic => "Generic"@,
    }
}

fn kind_debug(k: SecretKind) -> (res: &'static str)
    ensures
        res@ == kind_debug_name(k),
{
    match k {
        SecretKind::Password => "Password",
        SecretKind::SshPrivateKey => "SshPrivateKey",
        SecretKind::SshKeyPassphrase => "SshKeyPassphrase",
        SecretKind::RdpPassword => "RdpPassword",
        SecretKind::Certificate => "Certificate",
        SecretKind::Generic => "Generic",
    }
}

/// Whether `Vault::get` can take the vault entry of credential profile `id`.
pub open spec fn credential_entry_fits(registry: &Registry, vault: &Vault, id: CredentialId) -> bool {
    has_key(registry.credentials_view(), id.0) ==> vault.readable(row_with(registry.credentials_view(), id.0).vault_ref.0)
}

/// The kind of credential profile `id`.
pub open spec fn credential_kind(registry: &Registry, id: CredentialId) -> SecretKind {
    row_with(registry.credentials_view(), id.0).kind
}

/// Whether the vault entry of `cred`, when its kind is `k1` or `k2`, can be
/// read by `Vault::get`.
pub open spec fn kind_entry_fits(registry: &Registry, vault: &Vault, cred: Option<CredentialId>, k1: SecretKind, k2: SecretKind) -> bool {
    match cred {
        None => true,
        Some(id) => (credential_kind(registry, id) == k1 || credential_kind(registry, id) == k2) ==> credential_entry_fits(
            registry,
            vault,
            id,
        ),
    }
}

/// Tests `kind_entry_fits`.
fn entry_fits_for(registry: &Registry, vault: &Vault, cred: Option<CredentialId>, k1: SecretKind, k2: SecretKind) -> (res: bool)
    requires
        registry.wf(),
        vault.wf(),
    ensures
        res == kind_entry_fits(registry, vault, cred, k1, k2),
{
    let id = match cred {
        None => return true,
        Some(id) => id,
    };
    let profile = match registry.get_credential(&id) {
        Ok(p) => p,
        Err(_) => return true,
    };
    if profile.kind == k1 || profile.kind == k2 {
        !vault.is_unlocked() || vault.entry_nonce_fits(&profile.vault_ref)
    } else {
        true
    }
}

/// Whether the vault entry that the SSH authentication for `cred` reads, if
/// it reads one, has a nonce that `Vault::get` takes.
pub open spec fn auth_entry_fits(registry: &Registry, vault: &Vault, cred: Option<CredentialId>) -> bool {
    kind_entry_fits(registry, vault, cred, SecretKind::Password, SecretKind::SshPrivateKey)
}

/// Whether `res` is the SSH authentication for `cred`: its secret read
/// from the vault, as a password or a private key, or the error met first.
pub open spec fn ssh_auth_answer(registry: &Registry, vault: &Vault, cred: Option<CredentialId>, res: AppResult<SshAuth>) -> bool {
    match cred {
        None => err_of(res) == Some(ErrorView::InvalidInput("no credential resolved for this connection"@)),
        Some(id) => if !has_key(registry.credentials_view(), id.0) {
            err_of(res) == Some(missing("credential "@, id.0))
        } else {
            let p = row_with(registry.credentials_view(), id.0);
            match p.kind {
                SecretKind::Password => match read_outcome(vault.dek_view(), vault.entries_view(), p.vault_ref.0) {
                    ReadOutcome::Plain(s) => res matches Ok(SshAuth::Password(b)) && b@ == s,
                    o => read_failure(o, p.vault_ref.0, err_of(res)),
                },
                SecretKind::SshPrivateKey => match read_outcome(vault.dek_view(), vault.entries_view(), p.vault_ref.0) {
                    ReadOutcome::Plain(s) => res matches Ok(SshAuth::PrivateKey { pem, passphrase }) && pem@ == s && passphrase is None,
                    o => read_failure(o, p.vault_ref.0, err_of(res)),
                },
                other => err_of(res) == Some(ErrorView::InvalidInput("credential kind "@ + kind_debug_name(other) + " not usable for SSH"@)),
            }
        },
    }
}

/// The SSH authentication for `cred`, or `None` when the vault entry it
/// reads has a nonce of the wrong length.
pub fn build_ssh_auth_checked(registry: &Registry, vault: &Vault, cred: Option<CredentialId>) -> (res: Option<AppResult<SshAuth>>)
    requires
        registry.wf(),
        vault.wf(),
    ensures
        res is None <==> !auth_entry_fits(registry, vault, cred),
        res matches Some(r) ==> ssh_auth_answer(registry, vault, cred, r),
{
    if !entry_fits_for(registry, vault, cred, SecretKind::Password, SecretKind::SshPrivateKey) {
        return None;
    }
    Some(build_ssh_auth(registry, vault, cred))
}

/// The SSH authentication for the credential a connection resolved to:
/// its secret read from the vault, as a password or a private key.
pub fn build_ssh_auth(registry: &Registry, vault: &Vault, cred: Option<CredentialId>) -> (res: AppResult<SshAuth>)
    requires
        registry.wf(),
        vault.wf(),
        auth_entry_fits(registry, vault, cred),
    ensures
        ssh_auth_answer(registry, vault, cred, res),
{
    let id = match cred {
        Some(id) => id,
        None => return Err(AppError::InvalidInput(String::from_str("no credential resolved for this connection"))),
    };
    let profile = registry.get_credential(&id)?;
    match profile.kind {
        SecretKind::Password => {
            let bytes = vault.get(&profile.vault_ref)?;
            Ok(SshAuth::Password(bytes))
        },
        SecretKind::SshPrivateKey => {
            let pem = vault.get(&profile.vault_ref)?;
            Ok(SshAuth::PrivateKey { pem, passphrase: None })
        },
        other => {
            let mut m = String::from_str("credential kind ");
            m.append(kind_debug(other));
            m.append(" not usable for SSH");
            Err(AppError::InvalidInput(m))
        },
    }
}

/// Who logs in to an RDP host, and the password handed to the platform's
/// client, if one is stored.
#[derive(Debug)]
pub struct RdpLogin {
    pub user: String,
    pub password: Option<Vec<u8>>,
}

/// Whether the vault entry that the RDP login for `cred` reads, if it reads
/// one, has a nonce that `Vault::get` takes.
pub open spec fn rdp_entry_fits(registry: &Registry, vault: &Vault, cred: Option<CredentialId>) -> bool {
    kind_entry_fits(registry, vault, cred, SecretKind::Password, SecretKind::RdpPassword)
}

/// Whether `res` is the RDP login for `conn` with credential `cred`: the
/// connection's user and the credential's password read from the vault
/// (none without a credential), or the error met first.
pub open spec fn rdp_login_answer(registry: &Registry, vault: &Vault, conn: &Connection, cred: Option<CredentialId>, res: AppResult<RdpLogin>) -> bool {
    match conn.username {
        None => err_of(res) == Some(ErrorView::InvalidInput("connection has no username"@)),
        Some(u) => match cred {
            None => res matches Ok(l) && l.user@ == u@ && l.password is None,
            Some(id) => if !has_key(registry.credentials_view(), id.0) {
                err_of(res) == Some(missing("credential "@, id.0))
            } else {
                let p = row_with(registry.credentials_view(), id.0);
                match p.kind {
                    SecretKind::Password | SecretKind::RdpPassword => match read_outcome(
                        vault.dek_view(),
                        vault.entries_view(),
                        p.vault_ref.0,
                    ) {
                        ReadOutcome::Plain(s) => res matches Ok(l) && l.user@ == u@ && (l.password matches Some(
                            b,
                        ) && b@ == s),
                        o => read_failure(o, p.vault_ref.0, err_of(res)),
                    },
                    other => err_of(res) == Some(
                        ErrorView::InvalidInput("credential kind "@ + kind_debug_name(other) + " not usable for RDP"@),
                    ),
                }
            },
        },
    }
}

/// The RDP login for `conn`, or `None` when the vault entry it reads has a
/// nonce of the wrong length.
pub fn rdp_login_checked(registry: &Registry, vault: &Vault, conn: &Connection, cred: Option<CredentialId>) -> (res: Option<AppResult<RdpLogin>>)
    requires
        registry.wf(),
        vault.wf(),
    ensures
        res is None <==> (conn.username is Some && !rdp_entry_fits(registry, vault, cred)),
        res matches Some(r) ==> rdp_login_answer(registry, vault, conn, cred, r),
{
    if conn.username.is_some() && !entry_fits_for(registry, vault, cred, SecretKind::Password, SecretKind::RdpPassword) {
        return None;
    }
    Some(rdp_login(registry, vault, conn, cred))
}

/// The login for opening a saved connection in the platform's RDP client:
/// the connection's user, and the password of the credential it resolved
/// to, read from the vault. With no credential the client asks for one.
pub fn rdp_login(registry: &Registry, vault: &Vault, conn: &Connection, cred: Option<CredentialId>) -> (res: AppResult<RdpLogin>)
    requires
        registry.wf(),
        vault.wf(),
        conn.username is Some ==> rdp_entry_fits(registry, vault, cred),
    ensures
        rdp_login_answer(registry, vault, conn, cred, res),
{
    let user = match &conn.username {
        Some(u) => u.clone(),
        None => return Err(AppError::InvalidInput(String::from_str("connection has no username"))),
    };
    let id = match cred {
        Some(id) => id,
        None => return Ok(RdpLogin { user, password: None }),
    };
    let profile = registry.get_credential(&id)?;
    match profile.kind {
        SecretKind::Password | SecretKind::RdpPassword => {
            let pw = vault.get(&profile.vault_ref)?;
            Ok(RdpLogin { user, password: Some(pw) })
        },
        other => {
            let mut m = String::from_str("credential kind ");
            m.append(kind_debug(other));
            m.append(" not usable for RDP");
            Err(AppError::InvalidInput(m))
        },
    }
}

/// The import request of the UI: imports the bundle's rows into the
/// registry, skipping ids that are stored already.
pub fn import_bundle(registry: &mut Registry, bundle: ExportBundle) -> (res: AppResult<()>)
    requires
        old(registry).wf(),
    ensures
        final(registry).wf(),
        bundle.version != 1 ==> err_of(res) == Some(
            ErrorView::InvalidInput("unsupported bundle version "@ + crate::text::decimal(bundle.version as nat)),
        ) && *final(registry) == *old(registry),
        bundle.version == 1 ==> {
            let fr = import_folders(old(registry).folders_view(), old(registry).credentials_view(), bundle.folders@, 0);
            let cr = import_credentials(old(registry).credentials_view(), bundle.credentials@, 0);
            let nr = import_connections(old(registry).connections_view(), fr.0, cr.0, bundle.connections@, 0);
            &&& final(registry).folders_view() == fr.0
            &&& !fr.2 ==> err_of(res) == Some(dangling_reference()) && final(registry).credentials_view()
                == old(registry).credentials_view() && final(registry).connections_view()
                == old(registry).connections_view()
            &&& fr.2 ==> {
                &&& final(registry).credentials_view() == cr.0
                &&& final(registry).connections_view() == nr.0
                &&& !nr.2 ==> err_of(res) == Some(dangling_reference())
                &&& nr.2 ==> res is Ok
            }
        },
{
    match registry.import_bundle(bundle) {
        Ok(_) => Ok(()),
        Err(e) => Err(e),
    }
}

/// The UI's check of a relative path.
pub fn sftp_validate_relative_path(path: &String) -> (res: AppResult<()>)
    ensures
        match path_error(path@) {
            None => res is Ok,
            Some(m) => err_of(res) == Some(ErrorView::InvalidInput(m)),
        },
{
    validate_relative_path(path.as_str())
}

} // verus!
