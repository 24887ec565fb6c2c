use navis::rdp::{validate_options, RdpOptions};
use navis::sftp::validate_relative_path;

#[test]
fn validate_rejects_bad_options() {
    let opts = RdpOptions {
        width: 100,
        ..Default::default()
    };
    assert!(validate_options(&opts).is_err());

    let opts = RdpOptions {
        color_depth: 8,
        ..Default::default()
    };
    assert!(validate_options(&opts).is_err());

    let opts = RdpOptions {
        require_nla: false,
        ..Default::default()
    };
    assert!(validate_options(&opts).is_err());

    let ok = RdpOptions::default();
    assert!(validate_options(&ok).is_ok());
}

#[test]
fn rejects_traversal_and_nul() {
    assert!(validate_relative_path("a/b").is_ok());
    assert!(validate_relative_path("../etc/passwd").is_err());
    assert!(validate_relative_path("a/\0b").is_err());
    assert!(validate_relative_path("").is_err());
}

use navis::errors::AppError;
use navis::ids::{ConnectionId, SessionId};
use navis::rdp::{file_stem, plan_external_launch, qualified_user, ExternalLaunch, LaunchPlan, Platform};
use navis::registry::Protocol;
use navis::session::{SessionEvent, SessionInput, SessionKind, SessionState};
use navis::ssh::{accepts_server_key, auth_outcome, on_channel, on_input, plan_auth, pty_request, secret_kind_for, AuthPlan, ChannelAction, ChannelTraffic, SshAuth, SshOptions};
use navis::hostkeys::TrustOutcome;
use navis::vault::SecretKind;

fn invalid_message(r: Result<(), AppError>) -> String {
    match r {
        Err(AppError::InvalidInput(m)) => m,
        other => panic!("expected invalid input, got {other:?}"),
    }
}

#[test]
fn option_errors_name_the_first_problem() {
    let opts = RdpOptions { width: 100, color_depth: 8, ..Default::default() };
    assert_eq!(invalid_message(validate_options(&opts)), "rdp resolution out of range");
    let opts = RdpOptions { height: 4321, ..Default::default() };
    assert_eq!(invalid_message(validate_options(&opts)), "rdp resolution out of range");
    let opts = RdpOptions { color_depth: 8, require_nla: false, ..Default::default() };
    assert_eq!(invalid_message(validate_options(&opts)), "rdp color depth must be 16/24/32");
    let opts = RdpOptions { require_nla: false, ..Default::default() };
    assert_eq!(invalid_message(validate_options(&opts)), "NLA must remain enabled (security policy)");
    let edge = RdpOptions { width: 7680, height: 480, color_depth: 16, ..Default::default() };
    assert!(validate_options(&edge).is_ok());
    let d = RdpOptions::default();
    assert_eq!((d.width, d.height, d.color_depth, d.require_nla, d.clipboard), (1280, 800, 24, true, true));
}

#[test]
fn path_errors_name_the_first_problem() {
    assert_eq!(invalid_message(validate_relative_path("")), "empty path");
    assert_eq!(invalid_message(validate_relative_path("..\0")), "path contains NUL");
    assert_eq!(invalid_message(validate_relative_path("a/../b")), "path traversal not allowed");
    assert!(validate_relative_path("a/.b/c.").is_ok());
}

#[test]
fn launch_plans_per_platform() {
    let opts = RdpOptions { domain: None, ..Default::default() };
    let launch = ExternalLaunch {
        host: "srv",
        port: 3389,
        user: "bob",
        domain: Some("CORP"),
        password: Some(b"pw".to_vec()),
        options: &opts,
    };
    match plan_external_launch(&launch, Platform::Linux, Some("xfreerdp3")).unwrap() {
        (LaunchPlan::Xfreerdp { args, prefilled }, Some(done)) => {
            assert_eq!(
                args,
                vec![
                    "/v:srv:3389", "/u:CORP\\bob", "/d:CORP", "/size:1280x800", "/bpp:24", "/cert:tofu",
                    "+clipboard", "/p:pw",
                ]
            );
            assert!(prefilled);
            assert_eq!(done.client, "xfreerdp3");
            assert!(done.credentials_prefilled);
        },
        other => panic!("unexpected {other:?}"),
    }
    assert!(matches!(plan_external_launch(&launch, Platform::Linux, None), Err(AppError::Protocol(_))));
    match plan_external_launch(&launch, Platform::Windows, None).unwrap() {
        (LaunchPlan::Mstsc { target, seed_args, delete_arg }, None) => {
            assert_eq!(target, "srv:3389");
            assert_eq!(seed_args.unwrap(), vec!["/generic:TERMSRV/srv", "/user:CORP\\bob", "/pass:pw"]);
            assert_eq!(delete_arg, "/delete:TERMSRV/srv");
        },
        other => panic!("unexpected {other:?}"),
    }
    match plan_external_launch(&launch, Platform::MacOs, None).unwrap() {
        (LaunchPlan::RdpFile { file_stem, body }, Some(done)) => {
            assert_eq!(file_stem, "srv");
            assert_eq!(
                body,
                "full address:s:srv:3389\nusername:s:CORP\\bob\nprompt for credentials:i:1\nauthentication level:i:2\n"
            );
            assert!(!done.credentials_prefilled);
        },
        other => panic!("unexpected {other:?}"),
    }
    assert!(matches!(plan_external_launch(&launch, Platform::Other, None), Err(AppError::Protocol(_))));

    let bad = ExternalLaunch { password: Some(vec![0xff]), ..launch };
    assert!(matches!(plan_external_launch(&bad, Platform::Windows, None), Err(AppError::InvalidInput(_))));
    let off = RdpOptions { require_nla: false, ..Default::default() };
    let refused = ExternalLaunch { host: "h", port: 1, user: "u", domain: None, password: None, options: &off };
    assert!(matches!(plan_external_launch(&refused, Platform::Linux, Some("x")), Err(AppError::InvalidInput(_))));
}

#[test]
fn users_and_file_names() {
    assert_eq!(qualified_user("bob", Some("CORP")), "CORP\\bob");
    assert_eq!(qualified_user("bob", Some("")), "bob");
    assert_eq!(qualified_user("bob", None), "bob");
    assert_eq!(file_stem("a:b/c"), "a_b_c");
}

#[test]
fn ssh_decisions() {
    assert_eq!(secret_kind_for("ssh_key"), SecretKind::SshPrivateKey);
    assert_eq!(secret_kind_for("ssh_private_key"), SecretKind::SshPrivateKey);
    assert_eq!(secret_kind_for("ssh_key_passphrase"), SecretKind::SshKeyPassphrase);
    assert_eq!(secret_kind_for("anything"), SecretKind::Password);
    let (term, cols, rows) = pty_request(&SshOptions::default());
    assert_eq!((term.as_str(), cols, rows), ("xterm-256color", 120, 30));
    let (term, cols, rows) = pty_request(&SshOptions { term: Some("vt100".into()), cols: Some(80), rows: Some(24) });
    assert_eq!((term.as_str(), cols, rows), ("vt100", 80, 24));
    assert!(accepts_server_key(TrustOutcome::Trusted));
    assert!(!accepts_server_key(TrustOutcome::Unknown));
    assert!(!accepts_server_key(TrustOutcome::Mismatch));
    assert!(auth_outcome(true).is_ok());
    assert!(matches!(auth_outcome(false), Err(AppError::Protocol(m)) if m == "ssh authentication failed"));
    match plan_auth(&SshAuth::Password(b"pw".to_vec())).unwrap() {
        AuthPlan::Password(p) => assert_eq!(p, "pw"),
        other => panic!("unexpected {other:?}"),
    }
    match plan_auth(&SshAuth::PrivateKey { pem: b"PEM".to_vec(), passphrase: Some(vec![0xff]) }).unwrap() {
        AuthPlan::PrivateKey { pem, passphrase } => {
            assert_eq!(pem, "PEM");
            assert_eq!(passphrase, Some(String::new()));
        },
        other => panic!("unexpected {other:?}"),
    }
    assert!(matches!(plan_auth(&SshAuth::Password(vec![0xff])), Err(AppError::InvalidInput(_))));
    assert!(matches!(plan_auth(&SshAuth::Agent), Err(AppError::Protocol(_))));
}

#[test]
fn channel_traffic_and_input() {
    let sid = SessionId::from_uuid(5);
    match on_channel(sid, ChannelTraffic::Data(vec![1, 2])) {
        (Some(SessionEvent::Output { session_id, data }), false) => {
            assert_eq!(session_id, sid);
            assert_eq!(data, vec![1, 2]);
        },
        other => panic!("unexpected {other:?}"),
    }
    assert!(matches!(
        on_channel(sid, ChannelTraffic::Finished),
        (Some(SessionEvent::State { state: SessionState::Disconnected, message: None, .. }), true)
    ));
    assert!(matches!(on_channel(sid, ChannelTraffic::Other), (None, false)));
    assert!(matches!(on_input(SessionInput::Resize { cols: 100, rows: 40 }), ChannelAction::WindowChange { cols: 100, rows: 40 }));
    assert!(matches!(on_input(SessionInput::Close), ChannelAction::CloseAndDisconnect));
    assert_eq!(SessionKind::from(Protocol::Sftp), SessionKind::Sftp);
    let _ = ConnectionId::from_uuid(1);
}

#[test]
fn unreadable_private_key_is_a_protocol_error() {
    match navis::ssh::private_key(&"not a key".to_string(), &None) {
        Err(navis::errors::AppError::Protocol(m)) => assert!(m.starts_with("decode key: ")),
        Err(e) => panic!("unexpected {e:?}"),
        Ok(_) => panic!("unexpected key"),
    }
}
