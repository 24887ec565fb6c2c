use base64::Engine as _;
use navis::errors::AppError;
use navis::ids::VaultRef;
use navis::vault::{aad_for, base64_decoded_len, EncryptedEntry, KdfParamsOnDisk, OnDiskVault, SecretKind, Vault};

fn temp_vault() -> Vault {
    Vault::new("vault.bin".to_string())
}

fn copy_record(r: &OnDiskVault) -> OnDiskVault {
    OnDiskVault {
        magic: r.magic.clone(),
        version: r.version,
        kdf: r.kdf.clone(),
        salt_b64: r.salt_b64.clone(),
        wrapped_dek_b64: r.wrapped_dek_b64.clone(),
        dek_nonce_b64: r.dek_nonce_b64.clone(),
        entries: r.entries.iter().map(|(k, e)| (k.clone(), e.clone())).collect(),
    }
}

#[test]
fn initialize_unlock_put_get_delete_roundtrip() {
    let mut vault = temp_vault();
    vault.initialize(false, "correct horse battery staple").unwrap();
    assert!(vault.is_unlocked());

    let vref = vault.put(SecretKind::Password, b"hunter2").expect("put password");
    let got = vault.get(&vref).expect("get");
    assert_eq!(got.as_slice(), b"hunter2");

    vault.delete(&vref).expect("delete");
    assert!(matches!(vault.get(&vref), Err(AppError::NotFound(_))));
}

#[test]
fn lock_then_unlock_with_wrong_password_fails() {
    let mut vault = temp_vault();
    vault.initialize(false, "right").unwrap();
    let v = vault.put(SecretKind::Password, b"x").unwrap();
    vault.lock();
    assert!(!vault.is_unlocked());
    assert!(matches!(vault.get(&v), Err(AppError::VaultLocked)));
    assert!(matches!(vault.unlock(true, "wrong"), Err(AppError::BadMasterPassword)));
    vault.unlock(true, "right").unwrap();
    let got = vault.get(&v).unwrap();
    assert_eq!(got.as_slice(), b"x");
}

#[test]
fn aad_binds_kind_to_entry() {
    // Tampering with the stored kind label invalidates decryption.
    let mut vault = temp_vault();
    vault.initialize(false, "pw").unwrap();
    let vref = vault.put(SecretKind::Password, b"shh").unwrap();

    let mut on_disk = copy_record(vault.record().unwrap());
    let key = vref.to_string();
    for (k, e) in on_disk.entries.iter_mut() {
        if *k == key {
            e.kind = SecretKind::Certificate;
        }
    }

    let mut v2 = Vault::new(vault.path().clone());
    v2.load(on_disk).unwrap();
    v2.unlock(true, "pw").unwrap();
    assert!(matches!(v2.get(&vref), Err(AppError::Crypto(_))));
}

#[test]
fn reinit_existing_vault_fails() {
    let mut vault = temp_vault();
    vault.initialize(false, "pw").unwrap();
    assert!(matches!(vault.initialize(true, "pw"), Err(AppError::VaultAlreadyInitialized)));
}

#[test]
fn malformed_records_never_unlock() {
    // Records that are not what the vault wrote never unlock, and leave the
    // vault locked.
    let base = OnDiskVault {
        magic: "navis-vault-v1".to_string(),
        version: 1,
        kdf: navis::vault::KdfParamsOnDisk {
            algorithm: "argon2id".to_string(),
            m_cost_kib: 1,
            t_cost: 1,
            parallelism: 1,
        },
        salt_b64: String::new(),
        wrapped_dek_b64: String::new(),
        dek_nonce_b64: String::new(),
        entries: vec![],
    };
    let mut wrong_magic = copy_record(&base);
    wrong_magic.magic = "not-a-vault".to_string();
    let mut v = temp_vault();
    match v.load(wrong_magic) {
        Err(AppError::Storage(m)) => assert_eq!(m, "vault magic mismatch"),
        other => panic!("unexpected {other:?}"),
    }
    assert!(matches!(v.unlock(true, "any"), Err(AppError::Internal(_))));
    assert!(matches!(v.unlock(false, "any"), Err(AppError::NotFound(_))));

    let mut v = temp_vault();
    v.load(copy_record(&base)).unwrap();
    match v.unlock(true, "any") {
        Err(AppError::Crypto(m)) => assert_eq!(m, "dek nonce length"),
        other => panic!("unexpected {other:?}"),
    }
    assert!(!v.is_unlocked());

    let mut bad_b64 = copy_record(&base);
    bad_b64.salt_b64 = "***".to_string();
    let mut v = temp_vault();
    v.load(bad_b64).unwrap();
    match v.unlock(true, "any") {
        Err(AppError::Crypto(m)) => assert!(m.starts_with("base64: ")),
        other => panic!("unexpected {other:?}"),
    }
    assert!(!v.is_unlocked());

    let mut short_salt = copy_record(&base);
    short_salt.dek_nonce_b64 = base64::engine::general_purpose::STANDARD.encode([0u8; 12]);
    let mut v = temp_vault();
    v.load(short_salt).unwrap();
    match v.unlock(true, "any") {
        Err(AppError::Crypto(m)) => assert!(m.starts_with("argon2: ")),
        other => panic!("unexpected {other:?}"),
    }
    assert!(!v.is_unlocked());
}

#[test]
fn truncated_ciphertext_fails_aead() {
    let mut vault = temp_vault();
    vault.initialize(false, "pw").unwrap();
    let v = vault.put(SecretKind::Password, b"sensitive").unwrap();

    let mut on_disk = copy_record(vault.record().unwrap());
    let key = v.to_string();
    for (k, e) in on_disk.entries.iter_mut() {
        if *k == key {
            let mut bytes = base64::engine::general_purpose::STANDARD.decode(&e.ciphertext_b64).unwrap();
            bytes.pop();
            e.ciphertext_b64 = base64::engine::general_purpose::STANDARD.encode(&bytes);
        }
    }

    let mut v2 = Vault::new(vault.path().clone());
    v2.load(on_disk).unwrap();
    v2.unlock(true, "pw").unwrap();
    match v2.get(&v) {
        Err(AppError::Crypto(m)) => assert_eq!(m, "decrypt entry: aead::Error"),
        other => panic!("unexpected {other:?}"),
    }
}

#[test]
fn locked_vault_refuses_put_and_keeps_entries() {
    let mut vault = temp_vault();
    assert!(matches!(vault.put(SecretKind::Generic, b"x"), Err(AppError::VaultLocked)));
    assert!(matches!(vault.get(&VaultRef::from_uuid(7)), Err(AppError::VaultLocked)));
    assert!(matches!(vault.delete(&VaultRef::from_uuid(7)), Err(AppError::Internal(_))));
    assert!(matches!(vault.list(), Err(AppError::Internal(_))));
}

#[test]
fn list_and_delete_follow_entries() {
    let mut vault = temp_vault();
    vault.initialize(false, "pw").unwrap();
    let a = vault.put(SecretKind::SshPrivateKey, b"0123456789").unwrap();
    let b = vault.put(SecretKind::RdpPassword, b"").unwrap();
    let list = vault.list().unwrap();
    assert_eq!(list.len(), 2);
    let sa = list.iter().find(|s| s.vault_ref == a).unwrap();
    assert_eq!(sa.kind, SecretKind::SshPrivateKey);
    // 10 bytes + 16-byte tag = 26 bytes: 36 Base64 characters with one pad,
    // estimated at 27 - 1 = 26 bytes, less the tag.
    assert_eq!(sa.size_bytes, 10);
    let sb = list.iter().find(|s| s.vault_ref == b).unwrap();
    assert_eq!(sb.size_bytes, 0);
    vault.lock();
    vault.delete(&a).unwrap();
    match vault.delete(&a) {
        Err(AppError::NotFound(m)) => assert_eq!(m, format!("vault entry {}", a.to_string())),
        other => panic!("unexpected {other:?}"),
    }
    assert_eq!(vault.list().unwrap().len(), 1);
}

#[test]
fn aad_layout_and_size_estimate() {
    let v = VaultRef::from_uuid(0x0123456789abcdef0123456789abcdef);
    let aad = aad_for(&v, SecretKind::Password);
    assert_eq!(aad, b"navis-vault-v1|01234567-89ab-cdef-0123-456789abcdef|password".to_vec());
    let aad2 = aad_for(&v, SecretKind::Certificate);
    assert_ne!(aad, aad2);
    assert_eq!(SecretKind::SshKeyPassphrase.as_aad(), b"ssh_key_passphrase");
    assert_eq!(base64_decoded_len(""), 0);
    assert_eq!(base64_decoded_len("AAAA"), 3);
    assert_eq!(base64_decoded_len("AAA="), 2);
    assert_eq!(base64_decoded_len("AA=="), 1);
    assert_eq!(base64_decoded_len("=="), 0);
    assert_eq!(base64_decoded_len("===="), 0);
}

#[test]
fn entry_clone_is_equal() {
    let e = EncryptedEntry { kind: SecretKind::Generic, nonce_b64: "n".into(), ciphertext_b64: "c".into() };
    let c = e.clone();
    assert_eq!(c.kind, e.kind);
    assert_eq!(c.nonce_b64, e.nonce_b64);
}

fn kind_named(name: &str) -> Option<SecretKind> {
    match name {
        "password" => Some(SecretKind::Password),
        "ssh_private_key" => Some(SecretKind::SshPrivateKey),
        "ssh_key_passphrase" => Some(SecretKind::SshKeyPassphrase),
        "rdp_password" => Some(SecretKind::RdpPassword),
        "certificate" => Some(SecretKind::Certificate),
        "generic" => Some(SecretKind::Generic),
        _ => None,
    }
}

/// Reads a vault file's bytes into a record, as the file loader does.
fn record_from_file(bytes: &[u8]) -> Result<OnDiskVault, AppError> {
    let bad = || AppError::Storage("vault parse: missing or mistyped field".to_string());
    let v: serde_json::Value = serde_json::from_slice(bytes).map_err(|e| AppError::Storage(format!("vault parse: {e}")))?;
    let text = |key: &str| v.get(key).and_then(|x| x.as_str()).map(|x| x.to_string()).ok_or_else(bad);
    let kdf = v.get("kdf").ok_or_else(bad)?;
    let num = |key: &str| kdf.get(key).and_then(|x| x.as_u64()).map(|x| x as u32).ok_or_else(bad);
    let mut entries = Vec::new();
    for (k, e) in v.get("entries").and_then(|x| x.as_object()).ok_or_else(bad)? {
        let field = |key: &str| e.get(key).and_then(|x| x.as_str()).map(|x| x.to_string()).ok_or_else(bad);
        let kind = kind_named(&field("kind")?).ok_or_else(bad)?;
        entries.push((k.clone(), EncryptedEntry { kind, nonce_b64: field("nonce_b64")?, ciphertext_b64: field("ciphertext_b64")? }));
    }
    Ok(OnDiskVault {
        magic: text("magic")?,
        version: v.get("version").and_then(|x| x.as_u64()).map(|x| x as u32).ok_or_else(bad)?,
        kdf: KdfParamsOnDisk {
            algorithm: kdf.get("algorithm").and_then(|x| x.as_str()).map(|x| x.to_string()).ok_or_else(bad)?,
            m_cost_kib: num("m_cost_kib")?,
            t_cost: num("t_cost")?,
            parallelism: num("parallelism")?,
        },
        salt_b64: text("salt_b64")?,
        wrapped_dek_b64: text("wrapped_dek_b64")?,
        dek_nonce_b64: text("dek_nonce_b64")?,
        entries,
    })
}

#[test]
fn malformed_inputs_never_panic() {
    // Feed garbage as the vault file and confirm it never panics and never
    // claims a successful unlock.
    let zeros = [0u8; 4096];
    let cases: &[&[u8]] = &[
        b"",
        b"{}",
        b"not json at all",
        b"{\"magic\": \"navis-vault-v1\"}",
        b"{\"magic\":\"navis-vault-v1\",\"version\":1,\"kdf\":{\"algorithm\":\"argon2id\",\"m_cost_kib\":1,\"t_cost\":1,\"parallelism\":1},\"salt_b64\":\"\",\"wrapped_dek_b64\":\"\",\"dek_nonce_b64\":\"\",\"entries\":{}}",
        b"\xFF\xFE\xFD\xFC",
        &zeros,
    ];
    for (i, bytes) in cases.iter().enumerate() {
        let mut v = temp_vault();
        let r = match record_from_file(bytes) {
            Ok(record) => v.load(record).and_then(|_| v.unlock(true, "any")),
            Err(e) => Err(e),
        };
        assert!(r.is_err(), "case {i} should error");
        assert!(!v.is_unlocked());
    }
}

#[test]
fn put_entry_reads_back_after_relock() {
    let mut vault = temp_vault();
    vault.initialize(false, "right").unwrap();
    let v = vault.put(SecretKind::RdpPassword, b"abcdefgh").unwrap();
    assert!(vault.entry_nonce_fits(&v));
    vault.lock();
    assert!(matches!(vault.get(&VaultRef::from_uuid(1)), Err(AppError::VaultLocked)));
    assert!(matches!(vault.unlock(true, "wrong"), Err(AppError::BadMasterPassword)));
    vault.unlock(true, "right").unwrap();
    assert_eq!(vault.get(&v).unwrap(), b"abcdefgh".to_vec());
    let list = vault.list().unwrap();
    assert_eq!(list.len(), 1);
    assert_eq!(list[0].vault_ref, v);
    assert_eq!(list[0].size_bytes, 8);
}

#[test]
fn checked_reads_refuse_what_would_not_decrypt() {
    let mut vault = temp_vault();
    vault.initialize(false, "pw").unwrap();
    let good = vault.put(SecretKind::Password, b"ok").unwrap();
    let bad = vault.put(SecretKind::Password, b"short nonce").unwrap();
    assert_eq!(vault.get_checked(&good).unwrap().unwrap(), b"ok".to_vec());

    let mut on_disk = copy_record(vault.record().unwrap());
    for (k, e) in on_disk.entries.iter_mut() {
        if *k == bad.to_string() {
            e.nonce_b64 = base64::engine::general_purpose::STANDARD.encode([0u8; 8]);
        }
    }
    let mut v2 = Vault::new(vault.path().clone());
    v2.load(on_disk).unwrap();
    // Locked, every read is refused as locked.
    assert!(matches!(v2.get_checked(&bad), Some(Err(AppError::VaultLocked))));
    v2.unlock(true, "pw").unwrap();
    assert!(v2.get_checked(&bad).is_none());
    assert!(!v2.entry_nonce_fits(&bad));
    assert_eq!(v2.get_checked(&good).unwrap().unwrap(), b"ok".to_vec());
    assert_eq!(v2.list().unwrap().len(), 2);
}

#[test]
fn listing_never_panics_on_malformed_ciphertext_text() {
    let mut vault = temp_vault();
    vault.initialize(false, "pw").unwrap();
    let v = vault.put(SecretKind::Generic, b"x").unwrap();
    for bad in ["==", "=", "====", "", "A"] {
        let mut on_disk = copy_record(vault.record().unwrap());
        for (k, e) in on_disk.entries.iter_mut() {
            if *k == v.to_string() {
                e.ciphertext_b64 = bad.to_string();
            }
        }
        let mut v2 = Vault::new(vault.path().clone());
        v2.load(on_disk).unwrap();
        let list = v2.list().unwrap();
        assert_eq!(list.len(), 1);
        assert_eq!(list[0].size_bytes, 0);
    }

    // Listing stops at a key that is no UUID.
    let mut on_disk = copy_record(vault.record().unwrap());
    on_disk.entries.insert(0, ("0-not-a-uuid".to_string(), on_disk.entries[0].1.clone()));
    let mut v3 = Vault::new(vault.path().clone());
    v3.load(on_disk).unwrap();
    match v3.list() {
        Err(AppError::Storage(m)) => assert!(m.starts_with("bad vault id 0-not-a-uuid: ")),
        other => panic!("unexpected {other:?}"),
    }
}
