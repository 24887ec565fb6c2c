//! SSH: connection parameters and the decisions of a session's life —
//! which secret to fetch, which host keys to accept, how to authenticate,
//! which PTY to request, and how channel traffic and renderer input map to
//! events and actions. The transport itself (sockets, the SSH library, the
//! task that pumps the channel) runs outside the library and follows these
//! decisions.
//!
//! The renderer never sees credentials: they come from the vault and are
//! dropped once authentication is done.

use vstd::prelude::*;
use crate::errors::{err_of, AppError, AppResult, ErrorView};
use crate::hostkeys::{file_hosts, file_text, ssh_check_spec, SshKnownHosts, TrustOutcome};
use crate::encoding::base64_text;
use crate::ids::{ConnectionId, SessionId};
use crate::session::{SessionEvent, SessionInfo, SessionInput, SessionKind, SessionState};
use crate::vault::{has_prefix, lemma_has_prefix, SecretKind};

verus! {

/// SSH-specific options stored in a connection's options.
#[derive(Debug, Clone)]
pub struct SshOptions {
    /// Override TERM (default `xterm-256color`).
    pub term: Option<String>,
    /// Initial PTY size.
    pub cols: Option<u16>,
    pub rows: Option<u16>,
}

impl Default for SshOptions {
    fn default() -> (r: Self)
        ensures
            r.term is None,
            r.cols is None,
            r.rows is None,
    {
        SshOptions { term: None, cols: None, rows: None }
    }
}

/// The user's answer when asked to trust an unknown host key.
#[derive(Debug, Clone, Copy, PartialEq, Eq, Structural)]
pub enum HostKeyDecision {
    Accept,
    Reject,
}

/// Authentication input, decrypted by the caller from the vault.
pub enum SshAuth {
    Password(Vec<u8>),
    PrivateKey { pem: Vec<u8>, passphrase: Option<Vec<u8>> },
    /// The running ssh-agent.
    Agent,
}

/// Where and as whom to connect.
#[derive(Debug, Clone)]
pub struct SshConnectParams {
    pub session_id: SessionId,
    pub connection_id: ConnectionId,
    pub host: String,
    pub port: u16,
    pub user: String,
    pub options: SshOptions,
}

/// The kind of secret an authentication mode reads from the vault.
pub open spec fn secret_kind_spec(auth_kind: Seq<char>) -> SecretKind {
    if auth_kind == "ssh_key"@ || auth_kind == "ssh_private_key"@ {
        SecretKind::SshPrivateKey
    } else if auth_kind == "ssh_key_passphrase"@ {
        SecretKind::SshKeyPassphrase
    } else {
        SecretKind::Password
    }
}

/// Picks the kind of secret to read from the vault for an authentication
/// mode.
pub fn secret_kind_for(auth_kind: &str) -> (res: SecretKind)
    ensures
        res == secret_kind_spec(auth_kind@),
{
    let k = String::from_str(auth_kind);
    if k == String::from_str("ssh_key") || k == String::from_str("ssh_private_key") {
        SecretKind::SshPrivateKey
    } else if k == String::from_str("ssh_key_passphrase") {
        SecretKind::SshKeyPassphrase
    } else {
        SecretKind::Password
    }
}

/// The PTY to request: the configured terminal type (default
/// `xterm-256color`) and size (default 120 columns by 30 rows).
pub fn pty_request(options: &SshOptions) -> (res: (String, u32, u32))
    ensures
        res.0@ == match options.term {
            Some(t) => t@,
            None => "xterm-256color"@,
        },
        res.1 == match options.cols {
            Some(c) => c as u32,
            None => 120u32,
        },
        res.2 == match options.rows {
            Some(r) => r as u32,
            None => 30u32,
        },
{
    let term = match &options.term {
        Some(t) => t.clone(),
        None => String::from_str("xterm-256color"),
    };
    let cols: u32 = match options.cols {
        Some(c) => c as u32,
        None => 120,
    };
    let rows: u32 = match options.rows {
        Some(r) => r as u32,
        None => 30,
    };
    (term, cols, rows)
}

/// Whether to go on with a server whose key the store judged: only a
/// trusted key is accepted (an unknown key waits for the user, a mismatch
/// is refused).
pub fn accepts_server_key(outcome: TrustOutcome) -> (res: bool)
    ensures
        res == (outcome == TrustOutcome::Trusted),
{
    match outcome {
        TrustOutcome::Trusted => true,
        TrustOutcome::Unknown => false,
        TrustOutcome::Mismatch => false,
    }
}

/// Checks a server's host key against the store (`file` is the store's
/// text, `None` without a file) and decides whether to go on.
pub fn check_server_key(known: &SshKnownHosts, file: Option<&str>, host: &str, port: u16, algo: &str, key: &[u8]) -> (res: AppResult<bool>)
    ensures
        match file_hosts(file_text(file)) {
            Ok(hs) => res == Ok::<bool, AppError>(
                ssh_check_spec(hs, host@, port, algo@, base64_text(key@)) == TrustOutcome::Trusted,
            ),
            Err(m) => err_of(res) == Some(ErrorView::Storage(m)),
        },
{
    let outcome = known.check(file, host, port, algo, key)?;
    Ok(accepts_server_key(outcome))
}

/// The credentials to present, as text.
#[derive(Debug)]
pub enum AuthPlan {
    Password(String),
    PrivateKey { pem: String, passphrase: Option<String> },
}


/// Turns the decrypted secrets into the credentials to present: the
/// password and the private key must be UTF-8; a passphrase that is not
/// reads as empty; agent authentication is not available yet.
pub fn plan_auth(auth: &SshAuth) -> (res: AppResult<AuthPlan>)
    ensures
        match auth {
            SshAuth::Password(pw) => if vstd::utf8::valid_utf8(pw@) {
                res matches Ok(AuthPlan::Password(s)) && s@ == vstd::utf8::decode_utf8(pw@)
            } else {
                err_of(res) == Some(ErrorView::InvalidInput("password is not valid UTF-8"@))
            },
            SshAuth::PrivateKey { pem, passphrase } => if vstd::utf8::valid_utf8(pem@) {
                res matches Ok(AuthPlan::PrivateKey { pem: p, passphrase: pp }) && p@ == vstd::utf8::decode_utf8(pem@)
                    && match passphrase {
                    None => pp is None,
                    Some(b) => pp matches Some(t) && t@ == if vstd::utf8::valid_utf8(b@) {
                        vstd::utf8::decode_utf8(b@)
                    } else {
                        Seq::empty()
                    },
                }
            } else {
                err_of(res) == Some(ErrorView::InvalidInput("private key not utf-8"@))
            },
            SshAuth::Agent => err_of(res) == Some(
                ErrorView::Protocol("ssh-agent auth wiring is deferred to a follow-up; use password or key for now"@),
            ),
        },
{
    match auth {
        SshAuth::Password(pw) => match crate::text::utf8_text(pw.as_slice()) {
            Some(s) => Ok(AuthPlan::Password(s)),
            None => Err(AppError::InvalidInput(String::from_str("password is not valid UTF-8"))),
        },
        SshAuth::PrivateKey { pem, passphrase } => {
            let pp = match passphrase {
                None => None,
                Some(b) => match crate::text::utf8_text(b.as_slice()) {
                    Some(t) => Some(t),
                    None => Some(String::new()),
                },
            };
            match crate::text::utf8_text(pem.as_slice()) {
                Some(p) => Ok(AuthPlan::PrivateKey { pem: p, passphrase: pp }),
                None => Err(AppError::InvalidInput(String::from_str("private key not utf-8"))),
            }
        },
        SshAuth::Agent => Err(AppError::Protocol(
            String::from_str("ssh-agent auth wiring is deferred to a follow-up; use password or key for now"),
        )),
    }
}

/// The private key type of the SSH library.
#[verifier::external_type_specification]
#[verifier::external_body]
pub struct ExSshPrivateKey(russh::keys::PrivateKey);

/// Whether a private key text decodes with the passphrase given (named:
/// the key formats and their ciphers are left to the SSH library).
pub uninterp spec fn secret_key_decodes(pem: Seq<char>, passphrase: Option<Seq<char>>) -> bool;

/// Parses a private key from its text (OpenSSH, PKCS#1, PKCS#8 or PuTTY),
/// deciphering it with the passphrase when one is given. Calls
/// `russh::keys::decode_secret_key`, whose outcome depends on the text and
/// the passphrase alone; the contract claims that it succeeds exactly when
/// the named outcome says so, and on failure gives the error's display
/// text. Nothing is claimed of the key itself.
#[verifier::external_body]
fn decode_secret_key(pem: &str, passphrase: Option<&str>) -> (res: Result<russh::keys::PrivateKey, String>)
    ensures
        res is Ok <==> secret_key_decodes(pem@, crate::rdp::opt_view(passphrase)),
{
    match russh::keys::decode_secret_key(pem, passphrase) {
        Ok(k) => Ok(k),
        Err(e) => Err(e.to_string()),
    }
}

/// The private key a key-based plan presents, read from its text; a key
/// that does not parse is a protocol error.
pub fn private_key(pem: &String, passphrase: &Option<String>) -> (res: AppResult<russh::keys::PrivateKey>)
    ensures
        res is Ok <==> secret_key_decodes(
            pem@,
            match passphrase {
                Some(p) => Some(p@),
                None => None,
            },
        ),
        match res {
            Ok(_) => true,
            Err(AppError::Protocol(m)) => has_prefix(m@, "decode key: "@),
            Err(_) => false,
        },
{
    let pp = match passphrase {
        Some(p) => Some(p.as_str()),
        None => None,
    };
    match decode_secret_key(pem.as_str(), pp) {
        Ok(k) => Ok(k),
        Err(e) => {
            let m = crate::errors::text_error("decode key: ", &e);
            proof { lemma_has_prefix("decode key: "@, e@); }
            Err(AppError::Protocol(m))
        },
    }
}

/// The outcome of authentication once the server answered.
pub fn auth_outcome(accepted: bool) -> (res: AppResult<()>)
    ensures
        accepted ==> res is Ok,
        !accepted ==> err_of(res) == Some(ErrorView::Protocol("ssh authentication failed"@)),
{
    if !accepted {
        return Err(AppError::Protocol(String::from_str("ssh authentication failed")));
    }
    Ok(())
}

/// A session's record while it connects, and the event announcing it.
pub fn connecting(params: &SshConnectParams) -> (res: (SessionInfo, SessionEvent))
    ensures
        res.0.id == params.session_id,
        res.0.connection_id == params.connection_id,
        res.0.kind == SessionKind::Ssh,
        res.0.state == SessionState::Connecting,
        res.1 matches SessionEvent::State { session_id, state, message } && session_id == params.session_id
            && state == SessionState::Connecting && message is None,
{
    let info = SessionInfo {
        id: params.session_id,
        connection_id: params.connection_id,
        kind: SessionKind::Ssh,
        state: SessionState::Connecting,
    };
    (info, SessionEvent::State { session_id: params.session_id, state: SessionState::Connecting, message: None })
}

/// The record once the shell is open, and the event announcing it.
pub fn connected(info: SessionInfo) -> (res: (SessionInfo, SessionEvent))
    ensures
        res.0 == (SessionInfo { state: SessionState::Connected, ..info }),
        res.1 matches SessionEvent::State { session_id, state, message } && session_id == info.id
            && state == SessionState::Connected && message is None,
{
    (SessionInfo { state: SessionState::Connected, ..info }, SessionEvent::State {
        session_id: info.id,
        state: SessionState::Connected,
        message: None,
    })
}

/// What the channel delivered.
#[derive(Debug)]
pub enum ChannelTraffic {
    /// Output on stdout.
    Data(Vec<u8>),
    /// Output on another stream (stderr).
    ExtendedData(Vec<u8>),
    /// End of file, close, or the remote command's exit status.
    Finished,
    /// Anything else (logged only).
    Other,
}

/// What the pump does with channel traffic: output goes to the renderer;
/// the end of the channel marks the session disconnected, tells the
/// renderer, and stops the pump.
pub fn on_channel(session_id: SessionId, msg: ChannelTraffic) -> (res: (Option<SessionEvent>, bool))
    ensures
        match msg {
            ChannelTraffic::Data(d) | ChannelTraffic::ExtendedData(d) => res.1 == false && (res.0 matches Some(
                SessionEvent::Output { session_id: sid, data },
            ) && sid == session_id && data == d),
            ChannelTraffic::Finished => res.1 == true && (res.0 matches Some(
                SessionEvent::State { session_id: sid, state, message },
            ) && sid == session_id && state == SessionState::Disconnected && message is None),
            ChannelTraffic::Other => res.1 == false && res.0 is None,
        },
{
    match msg {
        ChannelTraffic::Data(d) => (Some(SessionEvent::Output { session_id, data: d }), false),
        ChannelTraffic::ExtendedData(d) => (Some(SessionEvent::Output { session_id, data: d }), false),
        ChannelTraffic::Finished => (
            Some(SessionEvent::State { session_id, state: SessionState::Disconnected, message: None }),
            true,
        ),
        ChannelTraffic::Other => (None, false),
    }
}

/// What to do on the channel for renderer input.
#[derive(Debug)]
pub enum ChannelAction {
    /// Send the bytes to the remote stdin.
    Write(Vec<u8>),
    /// Change the window size.
    WindowChange { cols: u32, rows: u32 },
    /// Send EOF, disconnect, and stop the pump.
    CloseAndDisconnect,
}

/// Maps renderer input to a channel action.
pub fn on_input(input: SessionInput) -> (res: ChannelAction)
    ensures
        match input {
            SessionInput::Stdin(b) => res == ChannelAction::Write(b),
            SessionInput::Resize { cols, rows } => res == (ChannelAction::WindowChange {
                cols: cols as u32,
                rows: rows as u32,
            }),
            SessionInput::Close => res == ChannelAction::CloseAndDisconnect,
        },
{
    match input {
        SessionInput::Stdin(b) => ChannelAction::Write(b),
        SessionInput::Resize { cols, rows } => ChannelAction::WindowChange { cols: cols as u32, rows: rows as u32 },
        SessionInput::Close => ChannelAction::CloseAndDisconnect,
    }
}

} // verus!
