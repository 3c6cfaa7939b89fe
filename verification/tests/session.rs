//! The per-user session.

use mint::caveat::{name, Caveat};
use mint::macaroon::{mint_under_key, KeyRef};
use mint::session::{
    dir, load_attest_transport, load_session, load_transport, login_body, read_login, save,
    save_attest_transport, FileText, SessionError,
};

fn sample_session() -> String {
    mint_under_key(
        &[1u8; 32],
        KeyRef::Session,
        vec![Caveat::scalar(name::SUB, "alice")],
    )
    .encode()
}

#[test]
fn save_load_clear_round_trip_leaves_transport() {
    let s = sample_session();
    let (session, transport) = save(&s, "unix:/run/auth.sock").unwrap();
    let session = FileText::Text(session);
    let transport = FileText::Text(transport);
    assert_eq!(load_session(&session).unwrap(), s);
    assert_eq!(load_transport(&transport).unwrap(), "unix:/run/auth.sock");
    // A cleared session is missing; the transport stays.
    assert!(matches!(
        load_session(&FileText::Missing),
        Err(SessionError::NotLoggedIn)
    ));
    assert_eq!(load_transport(&transport).unwrap(), "unix:/run/auth.sock");
}

#[test]
fn absent_session_and_transport_report_distinctly() {
    assert!(matches!(
        load_session(&FileText::Missing),
        Err(SessionError::NotLoggedIn)
    ));
    assert!(matches!(
        load_transport(&FileText::Missing),
        Err(SessionError::NoTransport)
    ));
    assert!(matches!(
        load_attest_transport(&FileText::Missing),
        Err(SessionError::NoAttestTransport)
    ));
}

#[test]
fn dir_prefers_xdg_then_home() {
    assert_eq!(dir(Some("/x/cfg"), Some("/home/bob")).unwrap(), "/x/cfg/mint");
    assert_eq!(
        dir(None, Some("/home/bob")).unwrap(),
        "/home/bob/.config/mint"
    );
    assert_eq!(dir(None, None), Err(SessionError::NoHome));
}

#[test]
fn what_is_no_session_is_not_saved() {
    assert!(matches!(
        save("garbage", "unix:/x"),
        Err(SessionError::Malformed("session"))
    ));
    assert!(matches!(
        load_session(&FileText::Text("garbage".into())),
        Err(SessionError::Malformed("session"))
    ));
    assert!(matches!(
        load_session(&FileText::Failed("denied".into())),
        Err(SessionError::Io(_))
    ));
}

#[test]
fn saved_attest_transport_loads() {
    let t = save_attest_transport(" unix:/run/attest.sock\n");
    assert_eq!(t, "unix:/run/attest.sock");
    assert_eq!(load_attest_transport(&FileText::Text(t)).unwrap(), "unix:/run/attest.sock");
}

#[test]
fn login_exchanges_a_subject_for_a_session() {
    assert_eq!(login_body("alice"), "{\"subject\":\"alice\"}");
    assert_eq!(read_login(200, "{\"session\":\"tok\"}").unwrap(), "tok");
    assert!(matches!(
        read_login(200, "{}"),
        Err(SessionError::Malformed("login response"))
    ));
    assert!(matches!(
        read_login(401, "no"),
        Err(SessionError::Login { status: 401, .. })
    ));
}
