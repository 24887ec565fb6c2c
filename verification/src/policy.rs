//! Effective credential resolution.
//!
//! For a given connection, the connection's own credential always wins;
//! otherwise the folder chain is walked upwards and the first folder with a
//! default credential provides it.

use vstd::prelude::*;
use crate::encoding::uuid_text;
use crate::errors::{AppError, AppResult, ErrorView};
use crate::ids::{ConnectionId, CredentialId, FolderId};
use crate::registry::{missing, Folder, Registry};
use crate::table::{has_key, keys_unique, row_with, Row};

verus! {

/// The error reported when the folder chain comes back to a folder it
/// already passed.
pub open spec fn cycle_at(id: u128) -> ErrorView {
    ErrorView::Storage("folder cycle detected at "@ + uuid_text(id))
}

/// Walking up from folder `cursor`, having passed the folders in `visited`:
/// the first default credential found, none when the chain ends, or an
/// error for a repeated or missing folder. `fuel` bounds the walk (the
/// number of folders is always enough).
pub open spec fn walk_folders(folders: Seq<Folder>, cursor: Option<FolderId>, visited: Seq<u128>, fuel: nat) -> Result<Option<CredentialId>, ErrorView>
    decreases fuel,
{
    match cursor {
        None => Ok(None),
        Some(f) => if visited.contains(f.0) {
            Err(cycle_at(f.0))
        } else if !has_key(folders, f.0) {
            Err(missing("folder "@, f.0))
        } else if row_with(folders, f.0).default_credential_id is Some {
            Ok(row_with(folders, f.0).default_credential_id)
        } else if fuel == 0 {
            Ok(None)
        } else {
            walk_folders(
                folders,
                row_with(folders, f.0).parent_id,
                visited.push(f.0),
                (fuel - 1) as nat,
            )
        },
    }
}

/// The effective credential of connection `id` in a registry.
pub open spec fn effective_credential(reg: Registry, id: u128) -> Result<Option<CredentialId>, ErrorView> {
    if !has_key(reg.connections_view(), id) {
        Err(missing("connection "@, id))
    } else if row_with(reg.connections_view(), id).credential_id is Some {
        Ok(row_with(reg.connections_view(), id).credential_id)
    } else {
        walk_folders(
            reg.folders_view(),
            row_with(reg.connections_view(), id).folder_id,
            Seq::empty(),
            reg.folders_view().len(),
        )
    }
}

/// An outcome with its error taken by view.
pub open spec fn outcome<T>(r: AppResult<T>) -> Result<T, ErrorView> {
    match r {
        Ok(v) => Ok(v),
        Err(e) => Err(e@),
    }
}

fn contains_key(v: &Vec<u128>, k: u128) -> (b: bool)
    ensures
        b == v@.contains(k),
{
    let mut i: usize = 0;
    while i < v.len()
        invariant
            i <= v.len(),
            forall|j: int| 0 <= j < i ==> v@[j] != k,
        decreases v.len() - i,
    {
        if v[i] == k {
            return true;
        }
        i += 1;
    }
    false
}

/// Resolves the credential a connection uses: its own, or else the default
/// of the nearest folder above it that has one.
pub fn resolve_credential(registry: &Registry, connection_id: &ConnectionId) -> (res: AppResult<Option<CredentialId>>)
    requires
        registry.wf(),
    ensures
        outcome(res) == effective_credential(*registry, connection_id.0),
{
    let conn = registry.get_connection(connection_id)?;
    if let Some(c) = conn.credential_id {
        return Ok(Some(c));
    }
    let ghost folders = registry.folders_view();
    let ghost n = folders.len();
    let mut cursor = conn.folder_id;
    let mut visited: Vec<u128> = Vec::new();
    loop
        invariant
            registry.wf(),
            folders == registry.folders_view(),
            n == folders.len(),
            keys_unique(folders),
            visited@.no_duplicates(),
            forall|j: int| 0 <= j < visited@.len() ==> has_key(folders, #[trigger] visited@[j]),
            visited@.len() <= n,
            effective_credential(*registry, connection_id.0) == walk_folders(
                folders,
                cursor,
                visited@,
                (n - visited@.len()) as nat,
            ),
        decreases n - visited@.len(),
    {
        match cursor {
            None => {
                return Ok(None);
            },
            Some(fid) => {
                if contains_key(&visited, fid.0) {
                    let mut m = String::from_str("folder cycle detected at ");
                    let t = crate::encoding::uuid_to_string(fid.0);
                    m.append(t.as_str());
                    return Err(AppError::Storage(m));
                }
                let folder = registry.get_folder(&fid)?;
                if let Some(c) = folder.default_credential_id {
                    return Ok(Some(c));
                }
                let ghost before = visited@;
                visited.push(fid.0);
                proof {
                    assert forall|a: int, b: int| 0 <= a < b < visited@.len() implies visited@[a] != visited@[b] by {
                        if b == visited@.len() - 1 {
                            assert(visited@[a] == before[a]);
                        }
                    }
                    assert forall|j: int| 0 <= j < visited@.len() implies has_key(folders, #[trigger] visited@[j]) by {
                        if j < before.len() {
                            assert(visited@[j] == before[j]);
                        }
                    }
                    crate::table::lemma_distinct_keys_bounded(visited@, folders);
                    assert(before.len() < n);
                }
                cursor = folder.parent_id;
            },
        }
    }
}


/// With distinct folder ids, fuel of one step per folder not yet passed is
/// never what ends the walk: any more fuel gives the same answer. The walk
/// so ends at a default credential, at the top of the chain, at a missing
/// folder, or at the first folder met twice.
pub proof fn law_walk_never_runs_out(folders: Seq<Folder>, cursor: Option<FolderId>, visited: Seq<u128>, fuel: nat, extra: nat)
    requires
        keys_unique(folders),
        visited.no_duplicates(),
        forall|j: int| 0 <= j < visited.len() ==> has_key(folders, #[trigger] visited[j]),
        visited.len() + fuel >= folders.len(),
    ensures
        walk_folders(folders, cursor, visited, fuel) == walk_folders(folders, cursor, visited, fuel + extra),
    decreases fuel,
{
    if let Some(f) = cursor {
        if !visited.contains(f.0) && has_key(folders, f.0) && row_with(folders, f.0).default_credential_id is None {
            let v2 = visited.push(f.0);
            assert(v2.no_duplicates()) by {
                assert forall|a: int, b: int| 0 <= a < b < v2.len() implies v2[a] != v2[b] by {
                    if b == v2.len() - 1 {
                        assert(v2[a] == visited[a]);
                    }
                }
            }
            assert forall|j: int| 0 <= j < v2.len() implies has_key(folders, #[trigger] v2[j]) by {
                if j < visited.len() {
                    assert(v2[j] == visited[j]);
                }
            }
            crate::table::lemma_distinct_keys_bounded(v2, folders);
            assert(fuel > 0);
            law_walk_never_runs_out(folders, row_with(folders, f.0).parent_id, v2, (fuel - 1) as nat, extra);
            assert((fuel + extra - 1) as nat == (fuel - 1) as nat + extra);
        }
    }
}

/// The effective credential does not depend on how much the walk may do
/// beyond one step per folder.
pub proof fn law_effective_credential_total(reg: Registry, id: u128, extra: nat)
    requires
        reg.wf(),
        has_key(reg.connections_view(), id),
        row_with(reg.connections_view(), id).credential_id is None,
    ensures
        effective_credential(reg, id) == walk_folders(
            reg.folders_view(),
            row_with(reg.connections_view(), id).folder_id,
            Seq::empty(),
            reg.folders_view().len() + extra,
        ),
{
    law_walk_never_runs_out(
        reg.folders_view(),
        row_with(reg.connections_view(), id).folder_id,
        Seq::empty(),
        reg.folders_view().len(),
        extra,
    );
}

proof fn lemma_walk_chain(folders: Seq<Folder>, chain: Seq<u128>, d: CredentialId, i: int, fuel: nat)
    requires
        0 <= i < chain.len(),
        chain.no_duplicates(),
        fuel + i >= chain.len(),
        forall|j: int| 0 <= j < chain.len() ==> has_key(folders, #[trigger] chain[j]),
        forall|j: int|
            0 <= j < chain.len() - 1 ==> (#[trigger] row_with(folders, chain[j])).default_credential_id is None
                && row_with(folders, chain[j]).parent_id == Some(FolderId(chain[j + 1])),
        row_with(folders, chain.last()).default_credential_id == Some(d),
    ensures
        walk_folders(folders, Some(FolderId(chain[i])), chain.take(i), fuel) == Ok::<Option<CredentialId>, ErrorView>(
            Some(d),
        ),
    decreases chain.len() - i,
{
    let v = chain.take(i);
    assert(!v.contains(chain[i])) by {
        if v.contains(chain[i]) {
            let q = choose|q: int| 0 <= q < v.len() && v[q] == chain[i];
            assert(chain[q] == chain[i]);
        }
    }
    assert(has_key(folders, chain[i]));
    if i < chain.len() - 1 {
        assert(row_with(folders, chain[i]).default_credential_id is None);
        assert(chain.take(i + 1) =~= v.push(chain[i]));
        lemma_walk_chain(folders, chain, d, i + 1, (fuel - 1) as nat);
    }
}

/// A connection without a credential of its own, in a folder whose chain of
/// parents runs through distinct existing folders `chain[0]`, `chain[1]`,
/// ... (each the parent of the one before) of which only the last has a
/// default credential, resolves to that default, however long the chain.
pub proof fn law_inherits_along_any_chain(reg: Registry, id: u128, chain: Seq<u128>, d: CredentialId)
    requires
        reg.wf(),
        has_key(reg.connections_view(), id),
        row_with(reg.connections_view(), id).credential_id is None,
        chain.len() >= 1,
        row_with(reg.connections_view(), id).folder_id == Some(FolderId(chain[0])),
        chain.no_duplicates(),
        forall|j: int| 0 <= j < chain.len() ==> has_key(reg.folders_view(), #[trigger] chain[j]),
        forall|j: int|
            0 <= j < chain.len() - 1 ==> (#[trigger] row_with(reg.folders_view(), chain[j])).default_credential_id is None
                && row_with(reg.folders_view(), chain[j]).parent_id == Some(FolderId(chain[j + 1])),
        row_with(reg.folders_view(), chain.last()).default_credential_id == Some(d),
    ensures
        effective_credential(reg, id) == Ok::<Option<CredentialId>, ErrorView>(Some(d)),
{
    crate::table::lemma_distinct_keys_bounded(chain, reg.folders_view());
    assert(chain.take(0) =~= Seq::<u128>::empty());
    lemma_walk_chain(reg.folders_view(), chain, d, 0, reg.folders_view().len());
}

/// The connection's own credential always wins over any folder default.
pub proof fn law_connection_override_wins(reg: Registry, id: u128)
    requires
        has_key(reg.connections_view(), id),
        row_with(reg.connections_view(), id).credential_id is Some,
    ensures
        effective_credential(reg, id) == Ok::<Option<CredentialId>, ErrorView>(
            row_with(reg.connections_view(), id).credential_id,
        ),
{
}

/// Without its own credential, a connection takes the default of its
/// folder when that folder has one.
pub proof fn law_folder_default_applies(reg: Registry, id: u128, f: FolderId)
    requires
        has_key(reg.connections_view(), id),
        row_with(reg.connections_view(), id).credential_id is None,
        row_with(reg.connections_view(), id).folder_id == Some(f),
        has_key(reg.folders_view(), f.0),
        row_with(reg.folders_view(), f.0).default_credential_id is Some,
    ensures
        effective_credential(reg, id) == Ok::<Option<CredentialId>, ErrorView>(
            row_with(reg.folders_view(), f.0).default_credential_id,
        ),
{
    let fs = reg.folders_view();
    assert(fs.len() >= 1) by {
        let i = choose|i: int| 0 <= i < fs.len() && #[trigger] fs[i].key() == f.0;
    }
    assert(!Seq::<u128>::empty().contains(f.0));
}

/// When the connection's folder has no default, the default of the folder
/// above it applies.
pub proof fn law_inherits_from_parent_folder(reg: Registry, id: u128, f: FolderId, p: FolderId)
    requires
        has_key(reg.connections_view(), id),
        row_with(reg.connections_view(), id).credential_id is None,
        row_with(reg.connections_view(), id).folder_id == Some(f),
        has_key(reg.folders_view(), f.0),
        row_with(reg.folders_view(), f.0).default_credential_id is None,
        row_with(reg.folders_view(), f.0).parent_id == Some(p),
        p != f,
        has_key(reg.folders_view(), p.0),
        row_with(reg.folders_view(), p.0).default_credential_id is Some,
    ensures
        effective_credential(reg, id) == Ok::<Option<CredentialId>, ErrorView>(
            row_with(reg.folders_view(), p.0).default_credential_id,
        ),
{
    let fs = reg.folders_view();
    assert(fs.len() >= 2) by {
        let i = choose|i: int| 0 <= i < fs.len() && #[trigger] fs[i].key() == f.0;
        let j = choose|j: int| 0 <= j < fs.len() && #[trigger] fs[j].key() == p.0;
        assert(i != j);
    }
    assert(!Seq::<u128>::empty().contains(f.0));
    let v = Seq::<u128>::empty().push(f.0);
    assert(!v.contains(p.0)) by {
        if v.contains(p.0) {
            assert(v[0] == f.0);
        }
    }
    reveal_with_fuel(walk_folders, 2);
}

/// A connection without a credential, in a top-level folder (or in none)
/// without a default, resolves to no credential.
pub proof fn law_no_credential_resolves_to_none(reg: Registry, id: u128)
    requires
        has_key(reg.connections_view(), id),
        row_with(reg.connections_view(), id).credential_id is None,
        match row_with(reg.connections_view(), id).folder_id {
            None => true,
            Some(f) => has_key(reg.folders_view(), f.0) && row_with(reg.folders_view(), f.0).default_credential_id is None
                && row_with(reg.folders_view(), f.0).parent_id is None,
        },
    ensures
        effective_credential(reg, id) == Ok::<Option<CredentialId>, ErrorView>(None),
{
    let fs = reg.folders_view();
    if let Some(f) = row_with(reg.connections_view(), id).folder_id {
        assert(fs.len() >= 1) by {
            let i = choose|i: int| 0 <= i < fs.len() && #[trigger] fs[i].key() == f.0;
        }
        assert(!Seq::<u128>::empty().contains(f.0));
        reveal_with_fuel(walk_folders, 2);
    }
}

} // verus!
