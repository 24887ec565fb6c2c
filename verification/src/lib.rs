//! Navis: the verified core of a cross-platform connection manager.
//!
//! The library holds the rules that decide what the backend stores and
//! accepts: the connection registry and its credential inheritance, the
//! encrypted credential vault, the SSH/RDP trust stores, path and option
//! validation, and the decisions that drive sessions. Input/output (files,
//! the OS keychain, SQLite, sockets, the UI bridge) lives outside the library.

pub mod errors;
pub mod text;
pub mod encoding;
pub mod ids;
pub mod paths;
pub mod table;
pub mod keyed;
pub mod vault;
pub mod clock;
pub mod registry;
pub mod policy;
pub mod crypto;
pub mod hostkeys;
pub mod rdp;
pub mod sftp;
pub mod session;
pub mod ssh;
pub mod keychain;
pub mod autolock;
pub mod records;
pub mod commands;
