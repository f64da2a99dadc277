use ssh_sync::known_hosts::{KeyCheck, KnownHosts};
use ssh_sync::ssh::{
    check_server_key, events_of, react, Decision, Incoming, Outcome, Reaction, SessionEvent,
    SessionPlan, SessionStep,
};
use ssh_sync::types::{AuthMethod, HostConfig};

#[test]
fn keys_are_trusted_on_first_use() {
    let mut k = KnownHosts::empty();
    assert!(matches!(k.check("h", 22, "fp1"), KeyCheck::New));
    k.add("h", 22, "fp1");
    assert!(matches!(k.check("h", 22, "fp1"), KeyCheck::Trusted));
    assert!(matches!(k.check("h", 23, "fp1"), KeyCheck::New));
    match k.check("h", 22, "fp2") {
        KeyCheck::Mismatch { expected, received } => {
            assert_eq!((expected.as_str(), received.as_str()), ("fp1", "fp2"))
        }
        _ => panic!("no mismatch"),
    }
    k.add("h", 22, "fp2");
    assert!(matches!(k.check("h", 22, "fp2"), KeyCheck::Trusted));
}

#[test]
fn known_hosts_have_a_text() {
    let mut k = KnownHosts::empty();
    k.add("a.example.com", 22, "AAA");
    k.add("b", 2222, "B/B+");
    k.add("a.example.com", 22, "CCC");
    assert_eq!(k.to_text(), "a.example.com:22 CCC\nb:2222 B/B+\n");
    let again = KnownHosts::parse(&k.to_text());
    assert_eq!(again.to_text(), k.to_text());
    assert!(matches!(again.check("b", 2222, "B/B+"), KeyCheck::Trusted));
    assert_eq!(KnownHosts::empty().to_text(), "");
}

#[test]
fn known_hosts_are_read_leniently() {
    let k = KnownHosts::parse("# comment\r\n\n  a:22 \t x y \nlonely\nb:1\u{3000}z\na:22 w");
    assert_eq!(k.to_text(), "a:22 w\nb:1 z\n");
}

#[test]
fn server_keys_are_decided_about() {
    let mut k = KnownHosts::empty();
    assert!(matches!(check_server_key(&mut k, "h", 22, "fp"), Decision::Trust));
    assert!(matches!(check_server_key(&mut k, "h", 22, "fp"), Decision::Accept));
    match check_server_key(&mut k, "h", 22, "other") {
        Decision::Reject(reason) => assert_eq!(
            reason,
            "host key mismatch for h:22\n  expected: fp\n  received: other\n\
             refusing to connect (delete the known_hosts entry to forget the old key)"
        ),
        _ => panic!("not refused"),
    }
    assert_eq!(k.to_text(), "h:22 fp\n");
}

fn plan(auth_method: AuthMethod, key_path: Option<&str>) -> SessionPlan {
    SessionPlan {
        host: HostConfig {
            id: "i".into(),
            name: "n".into(),
            host: "example.com".into(),
            port: 2200,
            username: "root".into(),
            auth_method,
            password: Some("pw".into()),
            key_path: key_path.map(|s| s.to_string()),
            key_password_id: None,
            group: String::new(),
            updated_at: 0,
        },
        passphrase: Some("pp".into()),
        cols: 80,
        rows: 24,
    }
}

fn failure(step: SessionStep) -> String {
    match step {
        SessionStep::Fail(m) => m,
        other => panic!("{other:?}"),
    }
}

#[test]
fn a_session_with_a_password() {
    let p = plan(AuthMethod::Password, None);
    let s = p.start();
    assert!(matches!(events_of(&s)[..], [SessionEvent::Connecting]));
    match &s {
        SessionStep::Connect { addr } => assert_eq!(addr, "example.com:2200"),
        other => panic!("{other:?}"),
    }
    let s = p.next(&s, &Outcome::Done, None);
    match &s {
        SessionStep::AuthenticatePassword { username, password } => {
            assert_eq!((username.as_str(), password.as_str()), ("root", "pw"))
        }
        other => panic!("{other:?}"),
    }
    let s = p.next(&s, &Outcome::Done, None);
    assert!(matches!(s, SessionStep::OpenChannel));
    let s = p.next(&s, &Outcome::Done, None);
    assert!(matches!(s, SessionStep::RequestPty { cols: 80, rows: 24 }));
    let s = p.next(&s, &Outcome::Done, None);
    assert!(matches!(s, SessionStep::RequestShell));
    let s = p.next(&s, &Outcome::Done, None);
    assert!(matches!(s, SessionStep::Run));
    assert!(matches!(events_of(&s)[..], [SessionEvent::Connected]));
    let s = p.next(&s, &Outcome::Done, None);
    assert!(matches!(s, SessionStep::End));
    assert!(matches!(events_of(&s)[..], [SessionEvent::Ended]));
}

#[test]
fn a_session_with_a_key() {
    let p = plan(AuthMethod::Key, Some("/id"));
    let s = p.next(&p.start(), &Outcome::Done, None);
    match &s {
        SessionStep::LoadKey { path, passphrase } => {
            assert_eq!((path.as_str(), passphrase.as_deref()), ("/id", Some("pp")))
        }
        other => panic!("{other:?}"),
    }
    let bad = p.next(&s, &Outcome::Failed("x".into()), None);
    assert_eq!(failure(bad), "load key /id");
    let s = p.next(&s, &Outcome::Done, None);
    assert!(matches!(s, SessionStep::AuthenticateKey { .. }));
    assert_eq!(
        failure(p.next(&s, &Outcome::Failed("x".into()), None)),
        "publickey auth failed: x"
    );
    assert_eq!(
        failure(p.next(&s, &Outcome::Refused, None)),
        "authentication rejected by server"
    );
    assert!(matches!(
        p.next(&s, &Outcome::Done, None),
        SessionStep::OpenChannel
    ));
    let p = plan(AuthMethod::Key, None);
    assert_eq!(
        failure(p.next(&p.start(), &Outcome::Done, None)),
        "key auth selected but no key_path set"
    );
}

#[test]
fn failing_sessions() {
    let p = plan(AuthMethod::Password, None);
    let e = Outcome::Failed("boom".into());
    let start = p.start();
    assert_eq!(
        failure(p.next(&start, &e, None)),
        "connect to example.com:2200 failed: boom"
    );
    let rejected = p.next(&start, &e, Some("why".into()));
    match &events_of(&rejected)[..] {
        [SessionEvent::Error(m), SessionEvent::Ended] => assert_eq!(m, "why"),
        other => panic!("{other:?}"),
    }
    let auth = p.next(&start, &Outcome::Done, None);
    assert_eq!(failure(p.next(&auth, &e, None)), "password auth failed: boom");
    assert_eq!(
        failure(p.next(&auth, &Outcome::Refused, None)),
        "authentication rejected by server"
    );
    assert_eq!(
        failure(p.next(&SessionStep::OpenChannel, &e, None)),
        "channel_open_session: boom"
    );
    assert_eq!(
        failure(p.next(&SessionStep::RequestPty { cols: 1, rows: 1 }, &e, None)),
        "request_pty: boom"
    );
    assert_eq!(
        failure(p.next(&SessionStep::RequestShell, &e, None)),
        "request_shell: boom"
    );
}

#[test]
fn reactions() {
    assert_eq!(react(Incoming::Output), Reaction::Forward);
    assert_eq!(react(Incoming::Ended), Reaction::Stop);
    assert_eq!(react(Incoming::Other), Reaction::Wait(None));
    assert_eq!(react(Incoming::NoResize), Reaction::Wait(None));
    assert_eq!(
        react(Incoming::Resize(100, 30)),
        Reaction::Wait(Some((100, 30)))
    );
}
