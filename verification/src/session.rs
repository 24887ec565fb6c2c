//! Session records shared by the protocols. The renderer never sees a
//! transport; it talks to commands keyed by `SessionId`.

use vstd::prelude::*;
use crate::ids::{ConnectionId, SessionId};
use crate::registry::Protocol;

verus! {

/// What kind of session runs.
#[derive(Debug, Clone, Copy, PartialEq, Eq, Structural)]
pub enum SessionKind {
    Ssh,
    Sftp,
    Rdp,
}

impl From<Protocol> for SessionKind {
    fn from(p: Protocol) -> (r: Self) {
        match p {
            Protocol::Ssh => SessionKind::Ssh,
            Protocol::Sftp => SessionKind::Sftp,
            Protocol::Rdp => SessionKind::Rdp,
        }
    }
}

impl vstd::std_specs::convert::FromSpecImpl<Protocol> for SessionKind {
    open spec fn obeys_from_spec() -> bool {
        true
    }

    open spec fn from_spec(p: Protocol) -> SessionKind {
        match p {
            Protocol::Ssh => SessionKind::Ssh,
            Protocol::Sftp => SessionKind::Sftp,
            Protocol::Rdp => SessionKind::Rdp,
        }
    }
}

/// Where a session stands.
#[derive(Debug, Clone, Copy, PartialEq, Eq, Structural)]
pub enum SessionState {
    Connecting,
    Connected,
    Disconnected,
    Failed,
}

/// What the UI knows of a session.
#[derive(Debug, Clone, Copy)]
pub struct SessionInfo {
    pub id: SessionId,
    pub connection_id: ConnectionId,
    pub kind: SessionKind,
    pub state: SessionState,
}

/// Payloads emitted to the renderer.
#[derive(Debug, Clone)]
pub enum SessionEvent {
    /// Terminal output (SSH).
    Output { session_id: SessionId, data: Vec<u8> },
    /// Connection state changed.
    State { session_id: SessionId, state: SessionState, message: Option<String> },
    /// SFTP transfer progress update.
    TransferProgress { session_id: SessionId, transfer_id: String, bytes: u64, total: Option<u64> },
}

/// Commands from the renderer to a session.
#[derive(Debug)]
pub enum SessionInput {
    Stdin(Vec<u8>),
    Resize { cols: u16, rows: u16 },
    Close,
}

} // verus!
