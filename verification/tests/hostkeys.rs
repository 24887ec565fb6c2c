use navis::errors::AppError;
use navis::hostkeys::{parse_host_port, parse_known_hosts, pin_key, render_known_hosts, sha256_hex, KnownSshHost, RdpPinStore, SshKnownHosts, TrustOutcome};
use navis::rdp::{check_certificate, CertCheck};

fn storage_message<T: std::fmt::Debug>(r: Result<T, AppError>) -> String {
    match r {
        Err(AppError::Storage(m)) => m,
        other => panic!("expected a storage error, got {other:?}"),
    }
}

#[test]
fn ssh_tofu_then_match_then_mismatch() {
    let kh = SshKnownHosts::new("known_hosts".to_string());
    let host = "h.example";
    let key = b"\x01\x02\x03";
    let key2 = b"\x99\x98";
    let mut file: Option<String> = None;
    assert_eq!(kh.check(file.as_deref(), host, 22, "ssh-ed25519", key).unwrap(), TrustOutcome::Unknown);
    file = Some(kh.trust_on_first_use(file.as_deref(), host, 22, "ssh-ed25519", key).unwrap());
    assert_eq!(kh.check(file.as_deref(), host, 22, "ssh-ed25519", key).unwrap(), TrustOutcome::Trusted);
    assert_eq!(kh.check(file.as_deref(), host, 22, "ssh-ed25519", key2).unwrap(), TrustOutcome::Mismatch);
}

#[test]
fn ssh_known_hosts_parser_rejects_garbage() {
    let text = "# comment\n\nincomplete-line\nhost-without-port ssh-rsa key=\nbad:port_str algo k\n";
    let kh = SshKnownHosts::new("known_hosts".to_string());
    assert!(kh.list(Some(text)).is_err());
}

/// Parses a pin file's bytes as the loader does: a JSON object of
/// `host:port` to thumbprint, or nothing when it is not one.
fn parse_pin_file(bytes: &[u8]) -> Option<Vec<(String, String)>> {
    let v: serde_json::Value = serde_json::from_slice(bytes).ok()?;
    let pins = v.get("pins")?.as_object()?;
    pins.iter().map(|(k, t)| t.as_str().map(|t| (k.clone(), t.to_string()))).collect()
}

#[test]
fn rdp_pin_store_handles_corrupt_file() {
    // A corrupt file falls back to an empty store rather than an error, so
    // users are not locked out.
    let store = RdpPinStore::from_file(parse_pin_file(b"this is not json"));
    assert_eq!(store.len(), 0);

    let store = RdpPinStore::from_file(parse_pin_file(b"{\"pins\":{\"h:3389\":\"ab\",\"a:1\":\"cd\"}}"));
    assert_eq!(store.len(), 2);
    assert_eq!(store.pins()[0], ("a:1".to_string(), "cd".to_string()));
}

#[test]
fn rdp_pin_then_check() {
    let mut store = RdpPinStore::default();
    let cert = b"cert-bytes";
    assert_eq!(store.check("h", 3389, cert), TrustOutcome::Unknown);
    store.pin("h", 3389, cert);
    let saved = store.pins().clone();

    let store2 = RdpPinStore::from_pins(saved);
    assert_eq!(store2.check("h", 3389, cert), TrustOutcome::Trusted);
    assert_eq!(store2.check("h", 3389, b"different"), TrustOutcome::Mismatch);
}

#[test]
fn parser_reports_the_first_bad_line() {
    assert_eq!(
        storage_message(parse_known_hosts("# c\n\nincomplete-line\nx y\n")),
        "known_hosts:3: no algo"
    );
    assert_eq!(storage_message(parse_known_hosts("a b\n")), "known_hosts:1: no key");
    assert_eq!(
        storage_message(parse_known_hosts("host-without-port ssh-rsa key=\n")),
        "bad host:port host-without-port"
    );
    assert_eq!(
        storage_message(parse_known_hosts("bad:port_str algo k\n")),
        "bad port port_str: invalid digit found in string"
    );
    assert_eq!(
        storage_message(parse_known_hosts("h:99999 algo k")),
        "bad port 99999: number too large to fit in target type"
    );
    assert_eq!(
        storage_message(parse_known_hosts("h: algo k")),
        "bad port : cannot parse integer from empty string"
    );
}

#[test]
fn parser_reads_records_and_skips_comments() {
    let text = "# header\r\n  [::1]:2222 ssh-ed25519 AAAA key with spaces  \r\n\n#x\nh:+22 a k";
    let hs = parse_known_hosts(text).unwrap();
    assert_eq!(hs.len(), 2);
    assert_eq!(hs[0].host, "[::1]");
    assert_eq!(hs[0].port, 2222);
    assert_eq!(hs[0].algo, "ssh-ed25519");
    assert_eq!(hs[0].key_b64, "AAAA key with spaces");
    assert_eq!(hs[1].host, "h");
    assert_eq!(hs[1].port, 22);
    assert!(parse_known_hosts("").unwrap().is_empty());
}

#[test]
fn render_then_parse_roundtrip() {
    let hs = vec![
        KnownSshHost { host: "a.example".into(), port: 22, algo: "ssh-rsa".into(), key_b64: "AAAA".into() },
        KnownSshHost { host: "b".into(), port: 65535, algo: "ssh-ed25519".into(), key_b64: "QkJC".into() },
    ];
    let text = render_known_hosts(&hs);
    assert_eq!(
        text,
        "# Navis known_hosts (one entry per host:port)\na.example:22 ssh-rsa AAAA\nb:65535 ssh-ed25519 QkJC\n"
    );
    assert_eq!(parse_known_hosts(&text).unwrap(), hs);
}

#[test]
fn tofu_refuses_a_second_key_and_forget_removes_host() {
    let kh = SshKnownHosts::new("known_hosts".to_string());
    let t1 = kh.trust_on_first_use(None, "h", 22, "ssh-ed25519", b"k1").unwrap();
    match kh.trust_on_first_use(Some(&t1), "h", 22, "ssh-ed25519", b"k2") {
        Err(AppError::InvalidInput(m)) => assert_eq!(m, "host already has a key recorded; use update"),
        other => panic!("unexpected {other:?}"),
    }
    let t2 = kh.trust_on_first_use(Some(&t1), "h", 22, "ssh-rsa", b"k3").unwrap();
    let t3 = kh.trust_on_first_use(Some(&t2), "other", 22, "ssh-rsa", b"k4").unwrap();
    assert_eq!(kh.list(Some(&t3)).unwrap().len(), 3);
    let t4 = kh.forget(Some(&t3), "h", 22).unwrap();
    let left = kh.list(Some(&t4)).unwrap();
    assert_eq!(left.len(), 1);
    assert_eq!(left[0].host, "other");
    assert_eq!(kh.check(Some(&t4), "h", 22, "ssh-ed25519", b"k1").unwrap(), TrustOutcome::Unknown);
    assert!(kh.list(None).unwrap().is_empty());
}

#[test]
fn host_port_and_pin_helpers() {
    assert_eq!(parse_host_port("a:b:7").unwrap(), ("a:b".to_string(), 7));
    assert!(matches!(parse_host_port("nocolon"), Err(AppError::Storage(_))));
    assert_eq!(pin_key("h", 3389), "h:3389");
    assert_eq!(sha256_hex(b"abc"), "ba7816bf8f01cfea414140de5dae2223b00361a396177a9cb410ff61f20015ad");
}

#[test]
fn pins_forget_and_certificate_decisions() {
    let mut store = RdpPinStore::default();
    store.pin("h", 1, b"c1");
    store.pin("g", 2, b"c2");
    store.pin("h", 1, b"c3");
    assert_eq!(store.len(), 2);
    assert!(matches!(check_certificate(&store, "h", 1, b"c3"), CertCheck::Trusted));
    assert!(matches!(check_certificate(&store, "h", 1, b"c1"), CertCheck::Mismatch));
    assert!(matches!(check_certificate(&store, "z", 1, b"c1"), CertCheck::NeedsConfirmation));
    store.forget("h", 1);
    assert_eq!(store.check("h", 1, b"c3"), TrustOutcome::Unknown);
    assert_eq!(store.check("g", 2, b"c2"), TrustOutcome::Trusted);
    let keys: Vec<String> = store.pins().iter().map(|(k, _)| k.clone()).collect();
    assert_eq!(keys, vec!["g:2".to_string()]);
}
