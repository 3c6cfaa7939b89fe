//! Sessions and the discharges of the auth role.

use base64::Engine as _;
use mint::auth::{
    issue_discharge, issue_session, mint_session, verify_session, DischargeRequest, GrantedScopes,
    DISCHARGE_EXP_SECONDS, SESSION_EXP_SECONDS,
};
use mint::caveat::{name, op, scope, Caveat, EffectiveCaveats, Resolved};
use mint::macaroon::{mint_under_key, KeyRef, Macaroon};
use mint::tpc;

fn bearer(session: &Macaroon) -> String {
    format!("Bearer {}", session.encode())
}

fn field(body: &str, key: &str) -> String {
    let v: serde_json::Value = serde_json::from_str(body).unwrap();
    v[key].as_str().unwrap().to_string()
}

#[test]
fn session_round_trips_and_returns_subject_and_scopes() {
    let k = [21u8; 32];
    let s = mint_session(&k, "operator-alice", 1_000);
    let claims = verify_session(&k, Some(&bearer(&s)), 1_000).expect("valid session");
    assert_eq!(claims.subject, "operator-alice");
    // The demo grants every scope.
    assert!(claims.scopes.grants(scope::MINT_ENROLL));
    assert!(claims.scopes.grants(scope::MINT_EXCHANGE));
    assert!(claims.scopes.grants(scope::MINT_ADMIN));
}

#[test]
fn session_under_wrong_key_rejected() {
    let s = mint_session(&[21u8; 32], "alice", 1_000);
    assert!(verify_session(&[22u8; 32], Some(&bearer(&s)), 1_000).is_err());
}

/// A holder cannot widen the grant by appending a `scope` caveat: two
/// disagreeing copies collapse it.
#[test]
fn appended_scope_caveat_cannot_widen_the_grant() {
    let k = [21u8; 32];
    let narrow = mint_under_key(
        &k,
        KeyRef::Session,
        vec![
            Caveat::scalar(name::OP, op::SESSION),
            Caveat::scalar(name::SUB, "alice"),
            Caveat::scalar(name::SCOPE, &GrantedScopes::canonical(&[scope::MINT_ENROLL])),
            Caveat::scalar(name::EXP, "2000"),
        ],
    );
    let claims = verify_session(&k, Some(&bearer(&narrow)), 1_000).expect("valid");
    assert!(claims.scopes.grants(scope::MINT_ENROLL));
    assert!(!claims.scopes.grants(scope::MINT_ADMIN));

    let tampered = narrow.attenuate(Caveat::scalar(name::SCOPE, scope::MINT_ADMIN));
    let claims = verify_session(&k, Some(&bearer(&tampered)), 1_000).expect("mac still valid");
    assert!(
        !claims.scopes.grants(scope::MINT_ADMIN),
        "must not gain admin"
    );
    assert!(
        !claims.scopes.grants(scope::MINT_ENROLL),
        "the grant collapses entirely"
    );
}

#[test]
fn expired_session_rejected() {
    let s = mint_session(&[21u8; 32], "alice", 1_000);
    let later = 1_000 + SESSION_EXP_SECONDS + 1;
    assert!(verify_session(&[21u8; 32], Some(&bearer(&s)), later).is_err());
}

#[test]
fn missing_bearer_rejected() {
    assert!(verify_session(&[21u8; 32], None, 1_000).is_err());
}

#[test]
fn non_session_op_rejected() {
    let m = mint_under_key(
        &[21u8; 32],
        KeyRef::Session,
        vec![
            Caveat::scalar(name::OP, "not-session"),
            Caveat::scalar(name::SUB, "alice"),
        ],
    );
    assert!(verify_session(&[21u8; 32], Some(&bearer(&m)), 1_000).is_err());
}

#[test]
fn session_is_live_up_to_its_deadline() {
    let k = [21u8; 32];
    let s = mint_session(&k, "alice", 1_000);
    let deadline = 1_000 + SESSION_EXP_SECONDS;
    assert!(verify_session(&k, Some(&bearer(&s)), deadline - 1).is_ok());
    assert!(verify_session(&k, Some(&bearer(&s)), deadline).is_err());
}

#[test]
fn canonical_scopes_are_sorted_and_read_back() {
    let canonical = GrantedScopes::canonical(&[scope::MINT_EXCHANGE, scope::MINT_ADMIN]);
    assert_eq!(canonical, "mint:admin mint:exchange");
    let parsed = GrantedScopes::parse(&canonical);
    assert!(parsed.grants(scope::MINT_ADMIN));
    assert!(parsed.grants(scope::MINT_EXCHANGE));
    assert!(!parsed.grants(scope::MINT_ENROLL));
    assert!(!GrantedScopes::none().grants(scope::MINT_ENROLL));
}

#[test]
fn issued_session_verifies() {
    let k = [21u8; 32];
    let reply = issue_session(Some(&k), Some("operator-bob"), 1_000);
    assert_eq!(reply.status, 200);
    let token = field(&reply.body, "session");
    let claims = verify_session(&k, Some(&format!("Bearer {token}")), 1_000).expect("valid");
    assert_eq!(claims.subject, "operator-bob");
}

#[test]
fn session_needs_a_key() {
    let reply = issue_session(None, Some("operator-bob"), 1_000);
    assert_ne!(reply.status, 200);
    assert!(reply.body.contains("error"));
}

fn sealed_cid(k_m_a: &[u8; 32], r: &[u8; 32], org: &str) -> String {
    let cid = tpc::encrypt_cid(k_m_a, r, "invite", org);
    base64::engine::general_purpose::URL_SAFE_NO_PAD.encode(cid)
}

/// The discharge of a caveat verifies under the key that the caveat binds,
/// has the caveat's ticket as its nonce, and carries who asked for what.
#[test]
fn discharge_answers_its_caveat() {
    let k_m_a = [1u8; 32];
    let k_session = [2u8; 32];
    let r = [3u8; 32];
    let session = mint_session(&k_session, "alice", 1_000);
    let cid = sealed_cid(&k_m_a, &r, "demo");
    let request = Some(DischargeRequest {
        cid: cid.clone(),
        scope: scope::MINT_ENROLL.to_string(),
    });
    let reply = issue_discharge(
        Some(&k_m_a),
        Some(&k_session),
        Some(&bearer(&session)),
        &request,
        Some("demo"),
        "mint",
        1_000,
    );
    assert_eq!(reply.status, 200, "{}", reply.body);
    let m = Macaroon::decode(&field(&reply.body, "discharge")).unwrap();
    assert!(m.verify_under_key(&r));
    let raw = base64::engine::general_purpose::URL_SAFE_NO_PAD.decode(&cid).unwrap();
    assert_eq!(m.nonce(), &tpc::ticket_id(&raw));
    let eff = EffectiveCaveats::new(m.caveats());
    assert_eq!(eff.resolve(name::SUB), Resolved::Value("alice".into()));
    assert_eq!(
        eff.resolve(name::SCOPE),
        Resolved::Value(scope::MINT_ENROLL.into())
    );
    assert_eq!(
        eff.min_bound(name::EXP),
        Some(1_000 + DISCHARGE_EXP_SECONDS)
    );
}

#[test]
fn discharge_is_refused_without_a_session_or_for_another_org() {
    let k_m_a = [1u8; 32];
    let k_session = [2u8; 32];
    let session = mint_session(&k_session, "alice", 1_000);
    let request = Some(DischargeRequest {
        cid: sealed_cid(&k_m_a, &[3u8; 32], "other"),
        scope: scope::MINT_ENROLL.to_string(),
    });
    let anonymous = issue_discharge(
        Some(&k_m_a),
        Some(&k_session),
        None,
        &request,
        Some("demo"),
        "mint",
        1_000,
    );
    assert_eq!(anonymous.status, 401);
    let elsewhere = issue_discharge(
        Some(&k_m_a),
        Some(&k_session),
        Some(&bearer(&session)),
        &request,
        Some("demo"),
        "mint",
        1_000,
    );
    assert_ne!(elsewhere.status, 200);
    let unreadable = issue_discharge(
        Some(&[9u8; 32]),
        Some(&k_session),
        Some(&bearer(&session)),
        &request,
        Some("other"),
        "mint",
        1_000,
    );
    assert_ne!(unreadable.status, 200);
}

/// A session without a `scope` caveat grants nothing as it stands; the login
/// issues none such.
#[test]
fn a_session_without_a_scope_grants_nothing() {
    let k = [21u8; 32];
    let bare = mint_under_key(
        &k,
        KeyRef::Session,
        vec![
            Caveat::scalar(name::OP, op::SESSION),
            Caveat::scalar(name::SUB, "alice"),
        ],
    );
    let claims = verify_session(&k, Some(&bearer(&bare)), 1_000).expect("valid");
    assert!(!claims.scopes.grants(scope::MINT_ENROLL));
    let opened = bare.attenuate(Caveat::scalar(name::SCOPE, scope::MINT_ENROLL));
    let claims = verify_session(&k, Some(&bearer(&opened)), 1_000).expect("valid");
    assert_eq!(claims.subject, "alice");
    assert!(claims.scopes.grants(scope::MINT_ENROLL));
    assert!(!claims.scopes.grants(scope::MINT_ADMIN));
}

#[test]
fn an_issued_session_cannot_be_widened() {
    let k = [21u8; 32];
    let s = mint_session(&k, "alice", 1_000).attenuate(Caveat::scalar(name::SCOPE, "mint:other"));
    let claims = verify_session(&k, Some(&bearer(&s)), 1_000).expect("valid");
    assert_eq!(claims.subject, "alice");
    for x in [scope::MINT_ENROLL, scope::MINT_EXCHANGE, scope::MINT_ADMIN, "mint:other"] {
        assert!(!claims.scopes.grants(x), "{x}");
    }
}
