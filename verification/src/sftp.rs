//! SFTP: the records the file browser shows and the path-safety check
//! shared by uploads and downloads. SFTP runs over the same SSH session, so
//! the host-key story is the one of plain SSH.

use vstd::prelude::*;
use crate::errors::{err_of, AppError, AppResult, ErrorView};
use crate::text::{chars_of, contains_chars, contains_seq};

verus! {

/// One entry of a remote directory listing.
#[derive(Debug, Clone)]
pub struct RemoteEntry {
    pub name: String,
    pub path: String,
    pub kind: EntryKind,
    pub size: u64,
    pub modified_unix: Option<i64>,
    pub mode: u32,
}

/// What a remote entry is.
#[derive(Debug, Clone, Copy, PartialEq, Eq, Structural)]
pub enum EntryKind {
    File,
    Directory,
    Symlink,
    Other,
}

/// Which way a transfer goes.
#[derive(Debug, Clone, Copy, PartialEq, Eq, Structural)]
pub enum TransferDirection {
    Upload,
    Download,
}

/// Where a transfer stands.
#[derive(Debug, Clone, Copy, PartialEq, Eq, Structural)]
pub enum TransferState {
    Queued,
    Running,
    Paused,
    Completed,
    Failed,
}

/// Progress of one transfer, as the UI shows it.
#[derive(Debug, Clone)]
pub struct TransferStatus {
    pub id: String,
    pub direction: TransferDirection,
    pub state: TransferState,
    pub local_path: String,
    pub remote_path: String,
    pub bytes_transferred: u64,
    pub total_bytes: Option<u64>,
    pub error: Option<String>,
}

/// Why a relative path is refused, if it is: empty, holding a NUL, or
/// holding `..` (checked in that order).
pub open spec fn path_error(p: Seq<char>) -> Option<Seq<char>> {
    if p.len() == 0 {
        Some("empty path"@)
    } else if exists|i: int| 0 <= i < p.len() && p[i] == '\0' {
        Some("path contains NUL"@)
    } else if contains_seq(p, ".."@) {
        Some("path traversal not allowed"@)
    } else {
        None
    }
}

/// Path-safety check shared by upload and download paths: refuses empty
/// paths, embedded NULs and `..` anywhere. The caller joins the path with a
/// known-safe base.
pub fn validate_relative_path(p: &str) -> (res: AppResult<()>)
    ensures
        match path_error(p@) {
            None => res is Ok,
            Some(m) => err_of(res) == Some(ErrorView::InvalidInput(m)),
        },
{
    let cs = chars_of(p);
    if cs.len() == 0 {
        return Err(AppError::InvalidInput(String::from_str("empty path")));
    }
    let mut i: usize = 0;
    while i < cs.len()
        invariant
            i <= cs@.len(),
            cs@ == p@,
            forall|q: int| 0 <= q < i ==> cs@[q] != '\0',
        decreases cs@.len() - i,
    {
        if cs[i] == '\0' {
            return Err(AppError::InvalidInput(String::from_str("path contains NUL")));
        }
        i += 1;
    }
    let dots = chars_of("..");
    if contains_chars(&cs, &dots) {
        return Err(AppError::InvalidInput(String::from_str("path traversal not allowed")));
    }
    Ok(())
}

} // verus!
