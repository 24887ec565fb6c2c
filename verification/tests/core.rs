use navis::autolock::{AutoLocker, DEFAULT_IDLE_SECS};
use navis::clock::Timestamp;
use navis::commands::{
    build_ssh_auth, build_ssh_auth_checked, decode_b64_input, external_started, import_bundle, rdp_forget_host, rdp_login, rdp_login_checked, rdp_pin_host,
    rdp_pinned_hosts, session_error, session_list_item, session_not_found, session_route, sftp_session_not_found,
    sftp_validate_relative_path, ssh_forget_host, ssh_params, ssh_trust_host, vault_put_secret, vault_status,
    PutSecretInput, RdpForgetInput, RdpPinInput, SessionRoute, SshForgetInput, SshTrustInput, StartedSession,
};
use navis::encoding::{base64_encode, hex_encode, uuid_parse, uuid_to_string};
use navis::errors::AppError;
use navis::hostkeys::{RdpPinStore, SshKnownHosts, TrustOutcome};
use navis::ids::{ConnectionId, CredentialId, FolderId, SessionId, VaultRef};
use navis::keychain::{cleared_outcome, encode_wrap_key, stored_outcome, wrap_key_from, KeychainDelete, KeychainRead, SystemKeychain};
use navis::paths::AppPaths;
use navis::records::{connection_from_record, credential_from_record, folder_from_record, folder_record, ConnectionRecord, CredentialRecord, FolderRecord};
use navis::rdp::ExternalLaunched;
use navis::registry::{Connection, ConnectionInput, CredentialProfileInput, ExportBundle, FolderInput, Protocol, Registry};
use navis::session::{SessionInfo, SessionKind, SessionState};
use navis::ssh::SshOptions;
use navis::vault::{SecretKind, Vault};

#[test]
fn error_kinds_and_messages() {
    let e = AppError::NotFound("x".into());
    assert_eq!(e.kind(), "NotFound");
    assert_eq!(e.message(), "not found: x");
    assert_eq!(AppError::VaultLocked.message(), "vault is locked");
    assert_eq!(AppError::BadMasterPassword.kind(), "BadMasterPassword");
    assert_eq!(AppError::Crypto("c".into()).message(), "crypto error: c");
    assert_eq!(AppError::Internal("i".into()).message(), "internal: i");
}

#[test]
fn layout_paths() {
    let p = AppPaths::from_root("/data".to_string());
    let sep = std::path::MAIN_SEPARATOR;
    assert_eq!(p.root(), "/data");
    assert_eq!(p.database_path(), format!("/data{sep}navis.db"));
    assert_eq!(p.vault_path(), format!("/data{sep}vault.bin"));
    assert_eq!(p.known_hosts_path(), format!("/data{sep}keys{sep}known_hosts"));
    assert_eq!(p.rdp_pins_path(), format!("/data{sep}keys{sep}rdp_pins.json"));
    assert_eq!(p.logs_dir(), format!("/data{sep}logs"));
    let q = AppPaths::from_root("/data/".to_string());
    assert_eq!(q.vault_path(), "/data/vault.bin");
}

#[test]
fn wrap_key_roundtrip_and_replies() {
    let k = SystemKeychain::new("com.navis.app".into(), "default-vault".into());
    assert_eq!(k.service(), "com.navis.app");
    assert_eq!(k.user(), "default-vault");
    let key = [7u8; 32];
    let stored = encode_wrap_key(&key);
    assert_eq!(wrap_key_from(KeychainRead::Found(stored)).unwrap().unwrap(), key.to_vec());
    assert!(wrap_key_from(KeychainRead::NoEntry).unwrap().is_none());
    match wrap_key_from(KeychainRead::Found(base64_encode(&[1u8; 16]))) {
        Err(AppError::Keychain(m)) => assert_eq!(m, "wrap key wrong length"),
        other => panic!("unexpected {other:?}"),
    }
    match wrap_key_from(KeychainRead::Found("%%".into())) {
        Err(AppError::Keychain(m)) => assert!(m.starts_with("decode: ")),
        other => panic!("unexpected {other:?}"),
    }
    assert!(matches!(wrap_key_from(KeychainRead::Failed("boom".into())), Err(AppError::Keychain(m)) if m == "boom"));
    assert!(stored_outcome(None).is_ok());
    assert!(matches!(stored_outcome(Some("no".into())), Err(AppError::Keychain(_))));
    assert!(cleared_outcome(KeychainDelete::NoEntry).is_ok());
    assert!(cleared_outcome(KeychainDelete::Deleted).is_ok());
    assert!(matches!(cleared_outcome(KeychainDelete::Failed("x".into())), Err(AppError::Keychain(_))));
}

#[test]
fn autolock_timing() {
    let sec: u128 = 1_000_000_000;
    let mut a = AutoLocker::new(0);
    assert_eq!(a.idle_secs(), DEFAULT_IDLE_SECS);
    assert_eq!(DEFAULT_IDLE_SECS, 900);
    assert!(!a.should_lock(899 * sec, true));
    assert!(a.should_lock(900 * sec, true));
    assert!(!a.should_lock(900 * sec, false));
    a.touch(800 * sec);
    assert!(!a.should_lock(1000 * sec, true));
    assert!(a.should_lock(1700 * sec, true));
    assert!(!a.should_lock(10, true));
    a.set_idle_secs(0);
    assert!(!a.should_lock(100_000 * sec, true));
    let mut v = Vault::new("v".into());
    a.maybe_lock(&mut v, 100_000 * sec);
    assert!(!v.is_unlocked());
}

#[test]
fn records_read_back() {
    let f = FolderRecord {
        id: "67e55044-10b1-426f-9247-bb680e5fe0c8".into(),
        parent_id: None,
        name: "Prod".into(),
        default_credential_id: Some("not-a-uuid".into()),
        sort_order: 2,
        created_at: "2024-01-02T03:04:05Z".into(),
        updated_at: "2024-01-02T03:04:05+01:00".into(),
    };
    match folder_from_record(&f) {
        Err(AppError::Storage(m)) => assert!(m.starts_with("bad uuid not-a-uuid: ")),
        other => panic!("unexpected {other:?}"),
    }
    let good = FolderRecord { default_credential_id: None, ..f.clone() };
    let folder = folder_from_record(&good).unwrap();
    assert_eq!(folder.name, "Prod");
    assert_eq!(folder.created_at, Timestamp { secs: 1704164645, nanos: 0 });
    assert_eq!(folder.updated_at, Timestamp { secs: 1704164645 - 3600, nanos: 0 });
    let back = folder_record(&folder).unwrap();
    assert_eq!(back.id, good.id);
    assert_eq!(folder_from_record(&back).unwrap(), folder);
    let bad_time = FolderRecord { created_at: "yesterday".into(), ..good.clone() };
    assert!(matches!(folder_from_record(&bad_time), Err(AppError::Storage(m)) if m.starts_with("bad timestamp yesterday: ")));

    let c = ConnectionRecord {
        id: "67e55044-10b1-426f-9247-bb680e5fe0c8".into(),
        folder_id: None,
        name: "web".into(),
        protocol: "ssh".into(),
        host: "h".into(),
        port: 70000,
        username: Some("ops".into()),
        credential_id: None,
        options_json: "{ \"a\" : 1 }".into(),
        created_at: "2024-01-02T03:04:05Z".into(),
        updated_at: "2024-01-02T03:04:05Z".into(),
    };
    let conn = connection_from_record(&c).unwrap();
    assert_eq!(conn.port, 65535);
    assert_eq!(conn.options, "{\"a\":1}");
    let junk = ConnectionRecord { options_json: "not json".into(), port: -3, ..c.clone() };
    let conn = connection_from_record(&junk).unwrap();
    assert_eq!(conn.options, "{}");
    assert_eq!(conn.port, 0);
    let telnet = ConnectionRecord { protocol: "telnet".into(), ..c.clone() };
    assert!(matches!(connection_from_record(&telnet), Err(AppError::InvalidInput(_))));

    let p = CredentialRecord {
        id: "67e55044-10b1-426f-9247-bb680e5fe0c8".into(),
        name: "k".into(),
        kind: "rdp_password".into(),
        username: None,
        vault_ref: "67e55044-10b1-426f-9247-bb680e5fe0c9".into(),
        created_at: "2024-01-02T03:04:05Z".into(),
        updated_at: "2024-01-02T03:04:05Z".into(),
    };
    assert_eq!(credential_from_record(&p).unwrap().kind, SecretKind::RdpPassword);
    let odd = CredentialRecord { kind: "otp".into(), id: "bad".into(), ..p.clone() };
    assert!(matches!(credential_from_record(&odd), Err(AppError::Storage(m)) if m.starts_with("bad credential kind otp: ")));
}

#[test]
fn encodings() {
    let t = uuid_to_string(0x67e5504410b1426f9247bb680e5fe0c8);
    assert_eq!(t, "67e55044-10b1-426f-9247-bb680e5fe0c8");
    assert_eq!(uuid_parse(&t).unwrap(), 0x67e5504410b1426f9247bb680e5fe0c8);
    assert!(uuid_parse("nope").is_err());
    assert_eq!(base64_encode(b"hi"), "aGk=");
    assert_eq!(hex_encode(&[0x0f, 0xa0]), "0fa0");
    assert_eq!(FolderId::from_uuid(1).to_string(), "00000000-0000-0000-0000-000000000001");
    assert_eq!(VaultRef::tag(), "vault");
    assert_eq!(navis::ids::to_db_string(&CredentialId::from_uuid(2)), "00000000-0000-0000-0000-000000000002");
    assert_ne!(uuid_to_string(1), uuid_to_string(2));
    let v = VaultRef::new().as_uuid();
    assert_eq!((v >> 76) & 0xf, 4);
}

#[test]
fn command_decisions() {
    let mut vault = Vault::new("v".into());
    let st = vault_status(true, &vault);
    assert!(st.initialized && !st.unlocked);
    let input = PutSecretInput { kind: SecretKind::Password, plaintext: "p".into() };
    assert!(matches!(vault_put_secret(&mut vault, &input), Err(AppError::VaultLocked)));
    assert!(matches!(decode_b64_input(&"***".to_string()), Err(AppError::InvalidInput(m)) if m.starts_with("base64: ")));

    let kh = SshKnownHosts::new("kh".into());
    let trust = SshTrustInput { host: "h".into(), port: 22, algo: "ssh-ed25519".into(), key_b64: base64_encode(b"key") };
    let text = ssh_trust_host(&kh, None, &trust).unwrap();
    assert_eq!(kh.check(Some(&text), "h", 22, "ssh-ed25519", b"key").unwrap(), TrustOutcome::Trusted);
    let text = ssh_forget_host(&kh, Some(&text), &SshForgetInput { host: "h".into(), port: 22 }).unwrap();
    assert!(kh.list(Some(&text)).unwrap().is_empty());

    let mut store = RdpPinStore::default();
    rdp_pin_host(&mut store, &RdpPinInput { host: "srv".into(), port: 3389, cert_der_b64: base64_encode(b"cert") }).unwrap();
    let listed = rdp_pinned_hosts(&store);
    assert_eq!(listed.len(), 1);
    assert_eq!(listed[0].host, "srv");
    assert_eq!(listed[0].port, 3389);
    assert_eq!(listed[0].thumbprint_sha256.len(), 64);
    rdp_forget_host(&mut store, &RdpForgetInput { host: "srv".into(), port: 3389 });
    assert!(rdp_pinned_hosts(&store).is_empty());

    let sid = SessionId::from_uuid(1);
    assert!(matches!(session_not_found(sid), AppError::NotFound(m) if m == "session 00000000-0000-0000-0000-000000000001"));
    assert!(matches!(sftp_session_not_found(sid), AppError::NotFound(m) if m.starts_with("sftp session ")));
    assert!(matches!(session_error("resize", &"closed".to_string()), AppError::Session(m) if m == "resize: closed"));
    let info = SessionInfo { id: sid, connection_id: ConnectionId::from_uuid(2), kind: SessionKind::Ssh, state: SessionState::Connecting };
    assert_eq!(session_list_item(&info, SessionState::Connected).state, SessionState::Connected);
    assert!(matches!(session_route(Protocol::Ssh), Ok(SessionRoute::InApp)));
    assert!(matches!(session_route(Protocol::Rdp), Ok(SessionRoute::External)));
    assert!(matches!(session_route(Protocol::Sftp), Err(AppError::Protocol(m)) if m == "SFTP session bring-up is implemented in Phase 4"));
    let mut empty = Registry::open_memory();
    assert!(matches!(import_bundle(&mut empty, ExportBundle { version: 2, folders: vec![], connections: vec![], credentials: vec![] }), Err(AppError::InvalidInput(m)) if m == "unsupported bundle version 2"));
    assert!(sftp_validate_relative_path(&"a/b".to_string()).is_ok());

    let conn = Connection {
        id: ConnectionId::from_uuid(3),
        folder_id: None,
        name: "c".into(),
        protocol: Protocol::Ssh,
        host: "h".into(),
        port: 22,
        username: None,
        credential_id: None,
        options: "{}".into(),
        created_at: Timestamp { secs: 0, nanos: 0 },
        updated_at: Timestamp { secs: 0, nanos: 0 },
    };
    assert!(matches!(ssh_params(&conn, sid, SshOptions::default()), Err(AppError::InvalidInput(m)) if m == "connection has no username"));

    let mut reg = Registry::open_memory();
    assert!(matches!(build_ssh_auth(&reg, &vault, None), Err(AppError::InvalidInput(_))));
    assert!(matches!(build_ssh_auth(&reg, &vault, Some(CredentialId::from_uuid(9))), Err(AppError::NotFound(_))));
    let cred = reg
        .create_credential(CredentialProfileInput { name: "c".into(), kind: SecretKind::Generic, username: None, vault_ref: VaultRef::from_uuid(4) })
        .unwrap();
    match build_ssh_auth(&reg, &vault, Some(cred.id)) {
        Err(AppError::InvalidInput(m)) => assert_eq!(m, "credential kind Generic not usable for SSH"),
        Ok(_) => panic!("unexpected success"),
        Err(e) => panic!("unexpected {e:?}"),
    }
}

#[test]
fn import_command_inserts_missing_rows() {
    let mut src = Registry::open_memory();
    let cred = src
        .create_credential(CredentialProfileInput { name: "ops".into(), kind: SecretKind::Password, username: Some("ops".into()), vault_ref: VaultRef::from_uuid(5) })
        .unwrap();
    let f = src
        .create_folder(FolderInput { parent_id: None, name: "Production".into(), default_credential_id: None, sort_order: None })
        .unwrap();
    let conn = src
        .create_connection(ConnectionInput {
            folder_id: Some(f.id),
            name: "web-1".into(),
            protocol: Protocol::Ssh,
            host: "10.0.0.1".into(),
            port: None,
            username: Some("ops".into()),
            credential_id: Some(cred.id),
            options: None,
        })
        .unwrap();
    let bundle = src.export_all().unwrap();

    let mut dst = Registry::open_memory();
    import_bundle(&mut dst, bundle.clone()).unwrap();
    assert_eq!(dst.list_folders().unwrap().len(), 1);
    assert_eq!(dst.list_credentials().unwrap().len(), 1);
    let conns = dst.list_connections().unwrap();
    assert_eq!(conns.len(), 1);
    assert_eq!(conns[0].id, conn.id);
    assert_eq!(conns[0].folder_id, Some(f.id));
    assert_eq!(conns[0].credential_id, Some(cred.id));

    // Importing again skips every row.
    import_bundle(&mut dst, bundle).unwrap();
    assert_eq!(dst.list_folders().unwrap().len(), 1);
    assert_eq!(dst.list_connections().unwrap().len(), 1);
    assert_eq!(dst.list_credentials().unwrap().len(), 1);
}

#[test]
fn rdp_login_reads_the_resolved_password() {
    let mut vault = Vault::new("vault.bin".to_string());
    vault.initialize(false, "pw").unwrap();
    let vref = vault.put(SecretKind::RdpPassword, b"s3cret").unwrap();
    let mut reg = Registry::open_memory();
    let cred = reg
        .create_credential(CredentialProfileInput { name: "rdp".into(), kind: SecretKind::RdpPassword, username: None, vault_ref: vref })
        .unwrap();
    let generic = reg
        .create_credential(CredentialProfileInput { name: "g".into(), kind: SecretKind::Generic, username: None, vault_ref: vref })
        .unwrap();
    let mut conn = Connection {
        id: ConnectionId::from_uuid(3),
        folder_id: None,
        name: "desk".into(),
        protocol: Protocol::Rdp,
        host: "desk.local".into(),
        port: 3389,
        username: None,
        credential_id: Some(cred.id),
        options: "{}".into(),
        created_at: Timestamp { secs: 0, nanos: 0 },
        updated_at: Timestamp { secs: 0, nanos: 0 },
    };
    assert!(matches!(rdp_login(&reg, &vault, &conn, Some(cred.id)), Err(AppError::InvalidInput(m)) if m == "connection has no username"));
    conn.username = Some("alice".into());
    let login = rdp_login(&reg, &vault, &conn, Some(cred.id)).unwrap();
    assert_eq!(login.user, "alice");
    assert_eq!(login.password.unwrap(), b"s3cret".to_vec());
    let login = rdp_login(&reg, &vault, &conn, None).unwrap();
    assert!(login.password.is_none());
    assert!(matches!(rdp_login(&reg, &vault, &conn, Some(generic.id)), Err(AppError::InvalidInput(m)) if m == "credential kind Generic not usable for RDP"));
    assert!(matches!(rdp_login(&reg, &vault, &conn, Some(CredentialId::from_uuid(9))), Err(AppError::NotFound(_))));
    vault.lock();
    assert!(matches!(rdp_login(&reg, &vault, &conn, Some(cred.id)), Err(AppError::VaultLocked)));

    let started = external_started(ExternalLaunched { client: "mstsc.exe".into(), credentials_prefilled: true });
    match started {
        StartedSession::External { client, credentials_prefilled } => {
            assert_eq!(client, "mstsc.exe");
            assert!(credentials_prefilled);
        },
        StartedSession::InApp { .. } => panic!("unexpected in-app session"),
    }
}

#[test]
fn checked_credential_reads_answer_like_the_plain_ones() {
    let mut vault = Vault::new("vault.bin".to_string());
    vault.initialize(false, "pw").unwrap();
    let vref = vault.put(SecretKind::Password, b"pw1").unwrap();
    let mut reg = Registry::open_memory();
    let cred = reg
        .create_credential(CredentialProfileInput { name: "c".into(), kind: SecretKind::Password, username: None, vault_ref: vref })
        .unwrap();
    match build_ssh_auth_checked(&reg, &vault, Some(cred.id)) {
        Some(Ok(navis::ssh::SshAuth::Password(b))) => assert_eq!(b, b"pw1".to_vec()),
        _ => panic!("unexpected answer"),
    }
    assert!(matches!(build_ssh_auth_checked(&reg, &vault, None), Some(Err(AppError::InvalidInput(_)))));
    let conn = Connection {
        id: ConnectionId::from_uuid(3),
        folder_id: None,
        name: "desk".into(),
        protocol: Protocol::Rdp,
        host: "desk".into(),
        port: 3389,
        username: Some("u".into()),
        credential_id: Some(cred.id),
        options: "{}".into(),
        created_at: Timestamp { secs: 0, nanos: 0 },
        updated_at: Timestamp { secs: 0, nanos: 0 },
    };
    match rdp_login_checked(&reg, &vault, &conn, Some(cred.id)) {
        Some(Ok(login)) => assert_eq!(login.password.unwrap(), b"pw1".to_vec()),
        _ => panic!("unexpected answer"),
    }
}

#[test]
fn base64_text_follows_rfc4648() {
    assert_eq!(base64_encode(b""), "");
    assert_eq!(base64_encode(b"f"), "Zg==");
    assert_eq!(base64_encode(b"fo"), "Zm8=");
    assert_eq!(base64_encode(b"foo"), "Zm9v");
    assert_eq!(base64_encode(b"foobar"), "Zm9vYmFy");
    assert_eq!(base64_encode(&[0xfb, 0xff]), "+/8=");
}
