use navis::errors::AppError;
use navis::ids::{FolderId, VaultRef};
use navis::policy::resolve_credential;
use navis::registry::{ConnectionInput, CredentialProfileInput, ExportBundle, FolderInput, Protocol, Registry};
use navis::vault::SecretKind;

fn folder(name: &str, parent: Option<FolderId>) -> FolderInput {
    FolderInput { parent_id: parent, name: name.into(), default_credential_id: None, sort_order: None }
}

#[test]
fn folder_and_connection_crud_roundtrip() {
    let mut r = Registry::open_memory();
    let f = r.create_folder(folder("Production", None)).unwrap();
    assert_eq!(f.name, "Production");

    let c = r
        .create_connection(ConnectionInput {
            folder_id: Some(f.id),
            name: "web-1".into(),
            protocol: Protocol::Ssh,
            host: "10.0.0.1".into(),
            port: None,
            username: Some("ops".into()),
            credential_id: None,
            options: None,
        })
        .unwrap();
    assert_eq!(c.port, 22);
    assert_eq!(c.protocol, Protocol::Ssh);

    let c2 = r
        .update_connection(
            c.id,
            ConnectionInput {
                folder_id: Some(f.id),
                name: "web-1".into(),
                protocol: Protocol::Rdp,
                host: "10.0.0.1".into(),
                port: None,
                username: Some("ops".into()),
                credential_id: None,
                options: None,
            },
        )
        .unwrap();
    assert_eq!(c2.protocol, Protocol::Rdp);
    assert_eq!(c2.port, 3389);

    r.delete_connection(c.id).unwrap();
    assert!(matches!(r.get_connection(&c.id), Err(AppError::NotFound(_))));
}

#[test]
fn rejects_invalid_input() {
    let mut r = Registry::open_memory();
    assert!(matches!(r.create_folder(folder("   ", None)), Err(AppError::InvalidInput(_))));
    assert!(matches!(
        r.create_connection(ConnectionInput {
            folder_id: None,
            name: "n".into(),
            protocol: Protocol::Ssh,
            host: "bad host".into(),
            port: None,
            username: None,
            credential_id: None,
            options: None,
        }),
        Err(AppError::InvalidInput(_))
    ));
}

#[test]
fn export_import_roundtrip() {
    let mut src = Registry::open_memory();
    let f = src.create_folder(folder("Prod", None)).unwrap();
    let cred = src
        .create_credential(CredentialProfileInput {
            name: "shared".into(),
            kind: SecretKind::Password,
            username: Some("ops".into()),
            vault_ref: VaultRef::new(),
        })
        .unwrap();
    let conn = src
        .create_connection(ConnectionInput {
            folder_id: Some(f.id),
            name: "host".into(),
            protocol: Protocol::Ssh,
            host: "h".into(),
            port: None,
            username: Some("ops".into()),
            credential_id: Some(cred.id),
            options: None,
        })
        .unwrap();

    let bundle = src.export_all().unwrap();
    let mut dst = Registry::open_memory();
    let summary = dst.import_bundle(bundle.clone()).unwrap();
    assert_eq!(summary.folders_added, 1);
    assert_eq!(summary.connections_added, 1);
    assert_eq!(summary.credentials_added, 1);

    let again = dst.import_bundle(bundle).unwrap();
    assert_eq!(again.folders_added, 0);
    assert_eq!(again.connections_added, 0);
    assert_eq!(again.credentials_added, 0);

    let folders = dst.list_folders().unwrap();
    let connections = dst.list_connections().unwrap();
    let credentials = dst.list_credentials().unwrap();
    assert_eq!(folders.len(), 1);
    assert_eq!(connections.len(), 1);
    assert_eq!(credentials.len(), 1);
    assert_eq!(connections[0].id, conn.id);
    assert_eq!(connections[0].folder_id, Some(f.id));
    assert_eq!(connections[0].credential_id, Some(cred.id));
}

#[test]
fn import_rejects_bad_version() {
    let mut r = Registry::open_memory();
    let bundle = ExportBundle { version: 999, folders: vec![], connections: vec![], credentials: vec![] };
    match r.import_bundle(bundle) {
        Err(AppError::InvalidInput(m)) => assert_eq!(m, "unsupported bundle version 999"),
        other => panic!("unexpected {other:?}"),
    }
}

#[test]
fn folder_self_parent_rejected() {
    let mut r = Registry::open_memory();
    let f = r.create_folder(folder("x", None)).unwrap();
    assert!(matches!(r.update_folder(f.id, folder("x", Some(f.id))), Err(AppError::InvalidInput(_))));
}

#[test]
fn deleting_a_folder_removes_its_subtree_and_clears_references() {
    let mut r = Registry::open_memory();
    let top = r.create_folder(folder("top", None)).unwrap();
    let mid = r.create_folder(folder("mid", Some(top.id))).unwrap();
    let _leaf = r.create_folder(folder("leaf", Some(mid.id))).unwrap();
    let other = r.create_folder(folder("other", None)).unwrap();
    let c = r
        .create_connection(ConnectionInput {
            folder_id: Some(mid.id),
            name: "c".into(),
            protocol: Protocol::Ssh,
            host: "h".into(),
            port: Some(2222),
            username: None,
            credential_id: None,
            options: None,
        })
        .unwrap();
    assert_eq!(c.port, 2222);
    r.delete_folder(top.id).unwrap();
    let folders = r.list_folders().unwrap();
    assert_eq!(folders.len(), 1);
    assert_eq!(folders[0].id, other.id);
    let conn = r.get_connection(&c.id).unwrap();
    assert_eq!(conn.folder_id, None);
}

#[test]
fn deleting_a_credential_clears_references() {
    let mut r = Registry::open_memory();
    let cred = r
        .create_credential(CredentialProfileInput {
            name: "k".into(),
            kind: SecretKind::SshPrivateKey,
            username: None,
            vault_ref: VaultRef::new(),
        })
        .unwrap();
    let f = r
        .create_folder(FolderInput { parent_id: None, name: "f".into(), default_credential_id: Some(cred.id), sort_order: Some(3) })
        .unwrap();
    assert_eq!(f.sort_order, 3);
    r.delete_credential(cred.id).unwrap();
    assert_eq!(r.get_folder(&f.id).unwrap().default_credential_id, None);
    assert!(matches!(r.delete_credential(cred.id), Err(AppError::NotFound(_))));
}

#[test]
fn inherits_from_parent_folder() {
    let mut r = Registry::open_memory();
    let cred = r
        .create_credential(CredentialProfileInput {
            name: "shared".into(),
            kind: SecretKind::Password,
            username: Some("ops".into()),
            vault_ref: VaultRef::new(),
        })
        .unwrap();
    let parent = r
        .create_folder(FolderInput { parent_id: None, name: "prod".into(), default_credential_id: Some(cred.id), sort_order: None })
        .unwrap();
    let child = r.create_folder(folder("web", Some(parent.id))).unwrap();
    let conn = r
        .create_connection(ConnectionInput {
            folder_id: Some(child.id),
            name: "host".into(),
            protocol: Protocol::Ssh,
            host: "h".into(),
            port: None,
            username: None,
            credential_id: None,
            options: None,
        })
        .unwrap();
    let resolved = resolve_credential(&r, &conn.id).unwrap();
    assert_eq!(resolved, Some(cred.id));
}

#[test]
fn connection_override_wins() {
    let mut r = Registry::open_memory();
    let parent_cred = r
        .create_credential(CredentialProfileInput { name: "parent".into(), kind: SecretKind::Password, username: None, vault_ref: VaultRef::new() })
        .unwrap();
    let conn_cred = r
        .create_credential(CredentialProfileInput { name: "conn".into(), kind: SecretKind::Password, username: None, vault_ref: VaultRef::new() })
        .unwrap();
    let f = r
        .create_folder(FolderInput { parent_id: None, name: "f".into(), default_credential_id: Some(parent_cred.id), sort_order: None })
        .unwrap();
    let conn = r
        .create_connection(ConnectionInput {
            folder_id: Some(f.id),
            name: "c".into(),
            protocol: Protocol::Ssh,
            host: "h".into(),
            port: None,
            username: None,
            credential_id: Some(conn_cred.id),
            options: None,
        })
        .unwrap();
    assert_eq!(resolve_credential(&r, &conn.id).unwrap(), Some(conn_cred.id));
}

#[test]
fn no_credential_returns_none() {
    let mut r = Registry::open_memory();
    let f = r.create_folder(folder("f", None)).unwrap();
    let conn = r
        .create_connection(ConnectionInput {
            folder_id: Some(f.id),
            name: "c".into(),
            protocol: Protocol::Ssh,
            host: "h".into(),
            port: None,
            username: None,
            credential_id: None,
            options: None,
        })
        .unwrap();
    assert_eq!(resolve_credential(&r, &conn.id).unwrap(), None);
}

#[test]
fn protocol_names_and_ports() {
    assert_eq!(Protocol::parse("sftp").unwrap(), Protocol::Sftp);
    match Protocol::parse("telnet") {
        Err(AppError::InvalidInput(m)) => assert_eq!(m, "unknown protocol: telnet"),
        other => panic!("unexpected {other:?}"),
    }
    assert_eq!(Protocol::Rdp.as_str(), "rdp");
    assert_eq!(Protocol::Sftp.default_port(), 22);
    assert_eq!(Protocol::Rdp.default_port(), 3389);
}

#[test]
fn storage_constraints_are_reported_as_sqlite_words_them() {
    let mut r = Registry::open_memory();
    let f = r.create_folder(folder("a", None)).unwrap();
    match r.create_folder_with(folder("b", None), f.id, f.created_at) {
        Err(AppError::Storage(m)) => {
            assert_eq!(m, "error returned from database: (code: 1555) UNIQUE constraint failed: folders.id")
        },
        other => panic!("unexpected {other:?}"),
    }
    // A folder whose parent is missing stops an import.
    let mut orphan = r.export_all().unwrap();
    orphan.folders[0].parent_id = Some(FolderId::from_uuid(77));
    let mut dst = Registry::open_memory();
    match dst.import_bundle(orphan) {
        Err(AppError::Storage(m)) => {
            assert_eq!(m, "error returned from database: (code: 787) FOREIGN KEY constraint failed")
        },
        other => panic!("unexpected {other:?}"),
    }
    assert!(dst.list_folders().unwrap().is_empty());
}

#[test]
fn import_into_empty_restores_nested_folders() {
    let mut src = Registry::open_memory();
    let parent = src.create_folder(folder("parent", None)).unwrap();
    let child = src.create_folder(folder("child", Some(parent.id))).unwrap();
    let mut bundle = src.export_all().unwrap();
    // Parents first, as each folder names only earlier ones.
    bundle.folders.sort_by_key(|f| if f.id == parent.id { 0 } else { 1 });
    let mut dst = Registry::open_memory();
    let summary = dst.import_bundle(bundle).unwrap();
    assert_eq!(summary.folders_added, 2);
    assert_eq!(dst.get_folder(&child.id).unwrap().parent_id, Some(parent.id));
    assert_eq!(dst.get_folder(&parent.id).unwrap().parent_id, None);
}

#[test]
fn credential_walk_stops_at_a_folder_cycle() {
    let mut r = Registry::open_memory();
    let a = r.create_folder(folder("a", None)).unwrap();
    let b = r.create_folder(folder("b", Some(a.id))).unwrap();
    r.update_folder(a.id, folder("a", Some(b.id))).unwrap();
    let conn = r
        .create_connection(ConnectionInput {
            folder_id: Some(b.id),
            name: "loop".into(),
            protocol: Protocol::Ssh,
            host: "h".into(),
            port: None,
            username: None,
            credential_id: None,
            options: None,
        })
        .unwrap();
    match resolve_credential(&r, &conn.id) {
        Err(AppError::Storage(m)) => assert_eq!(m, format!("folder cycle detected at {}", b.id.to_string())),
        other => panic!("unexpected {other:?}"),
    }
}
