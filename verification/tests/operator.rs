//! The operator's admin-plane authority.

use base64::Engine as _;
use mint::caveat::{name, scope, Caveat};
use mint::issuance::mint_admin_service_token;
use mint::keyring::Keyring;
use mint::macaroon::{mint, mint_under_key, KeyRef, Macaroon};
use mint::operator::{find_site, json_field, read_discharge, unhex32, Operator, OperatorError};
use mint::pop;

const ROOT: [u8; 32] = [42u8; 32];
const K_M_A: [u8; 32] = [13u8; 32];
const MACHINE_SEED: [u8; 32] = [55u8; 32];

/// The two files of the operator, as the server writes them.
fn seed_operator_files() -> (Macaroon, String, String) {
    let kr = Keyring::single(ROOT);
    let cnf = pop::cnf_value(&MACHINE_SEED);
    let token = mint_admin_service_token(
        &kr,
        &K_M_A,
        "mint",
        &cnf,
        "demo",
        "https://auth.example/v1/discharge",
    );
    let text = token.encode();
    let hex: String = MACHINE_SEED.iter().map(|b| format!("{b:02x}")).collect();
    (token, text, hex)
}

fn operator() -> Operator {
    let (_, text, hex) = seed_operator_files();
    match Operator::load(&text, &hex) {
        Ok(o) => o,
        Err(e) => panic!("{}", e.message()),
    }
}

#[test]
fn load_round_trips_identity_and_extracts_cid() {
    let (token, text, hex) = seed_operator_files();
    let op = Operator::load(&text, &hex).ok().expect("load");
    let expected = match token.caveats().iter().find_map(|c| match c {
        Caveat::ThirdParty { cid, .. } => Some(cid.clone()),
        _ => None,
    }) {
        Some(cid) => base64::engine::general_purpose::URL_SAFE_NO_PAD.encode(cid),
        None => panic!("token has no TPC"),
    };
    assert_eq!(op.cid_b64().unwrap(), expected);
}

#[test]
fn discharge_path_derives_from_admin_service_tpc() {
    assert_eq!(operator().discharge_path().unwrap(), "/v1/discharge");
}

#[test]
fn discharge_request_body_carries_cid_and_admin_scope() {
    let op = operator();
    let body = op.discharge_request_body().expect("body");
    let req: serde_json::Value = serde_json::from_str(&body).expect("deserialise");
    assert_eq!(req["cid"], op.cid_b64().unwrap());
    assert_eq!(req["scope"], scope::MINT_ADMIN);
}

#[test]
fn authorize_signs_attenuated_tail_under_machine_key() {
    let op = operator();
    let discharge = mint_under_key(
        &[7u8; 32],
        KeyRef::Discharge,
        vec![Caveat::scalar(name::SUB, "alice")],
    );
    let body = br#"{"ts":1700000000}"#;
    let (auth, sig) = op.authorize(&discharge, "admin:invite-read", body);
    assert!(auth.starts_with("MintV1 "));
    assert!(auth.contains(','), "bundle must carry the discharge too");
    let primary = auth
        .strip_prefix("MintV1 ")
        .and_then(|p| p.split(',').next())
        .and_then(|m| Macaroon::decode(m).ok())
        .expect("primary decodes");
    let proof = pop::Proof::from_b64(&sig).ok().expect("proof");
    let cnf = vec![Caveat::scalar(name::CNF, &pop::cnf_value(&MACHINE_SEED))];
    assert!(pop::check(&cnf, primary.tail(), body, Some(proof), 1700000000).is_ok());
    // The attenuated token is still authentic, and names the verb.
    assert!(primary.verify(&Keyring::single(ROOT)));
    assert_eq!(
        primary.caveats().last().unwrap().first_party_value(),
        Some("admin:invite-read")
    );
}

#[test]
fn unhex32_rejects_bad_input() {
    assert!(unhex32("xy").is_none());
    assert!(unhex32(&"0".repeat(63)).is_none());
    assert_eq!(unhex32(&"00".repeat(32)), Some([0u8; 32]));
}

#[test]
fn unhex32_takes_digits_only() {
    assert!(unhex32(&"+f".repeat(32)).is_none());
    assert_eq!(unhex32(&"Ff".repeat(32)), Some([255u8; 32]));
}

#[test]
fn malformed_operator_files_are_told_apart() {
    let (_, text, hex) = seed_operator_files();
    assert!(matches!(
        Operator::load("garbage", &hex),
        Err(OperatorError::Malformed(_))
    ));
    assert!(matches!(
        Operator::load(&text, "garbage"),
        Err(OperatorError::Malformed(_))
    ));
    let plain = mint(&Keyring::single(ROOT), vec![Caveat::scalar("a", "b")]);
    let op = Operator::load(&plain.encode(), &hex).ok().expect("load");
    assert_eq!(op.cid_b64(), Err(OperatorError::NoTpc));
    assert!(find_site(plain.caveats()).is_none());
}

#[test]
fn discharge_replies_are_read() {
    let d = mint_under_key(&[7u8; 32], KeyRef::Discharge, vec![]);
    let body = format!("{{\"discharge\":\"{}\"}}", d.encode());
    let read = read_discharge(200, &body).ok().expect("reads");
    assert_eq!(read.encode(), d.encode());
    assert!(matches!(
        read_discharge(403, "no"),
        Err(OperatorError::Status { status: 403, .. })
    ));
    assert!(json_field("{}", "discharge").is_err());
}
