//! The holder-of-key gate.

use mint::caveat::Caveat;
use mint::pop::{
    check, client_signature, cnf_value, key_from, proof_from, validate_cnf, PopReject, Proof,
    CNF_CAVEAT, SKEW_SECONDS,
};

const SEED: [u8; 32] = [7u8; 32];
const TAIL: [u8; 32] = [9u8; 32];

fn signer() -> ([u8; 32], String) {
    (SEED, cnf_value(&SEED))
}

fn body(ts: u64, extra: &str) -> Vec<u8> {
    format!("{{\"ts\":{ts}{extra}}}").into_bytes()
}

fn proof_for(seed: &[u8; 32], tail: &[u8; 32], body: &[u8]) -> Proof {
    match Proof::from_b64(&client_signature(seed, tail, body)) {
        Ok(p) => p,
        Err(_) => panic!("well-formed proof"),
    }
}

#[test]
fn absent_cnf_is_rejected() {
    let cv = vec![Caveat::scalar("Audience", "mint")];
    assert_eq!(
        check(&cv, &TAIL, &body(1000, ""), None, 1000),
        Err(PopReject::NoCnf)
    );
}

#[test]
fn valid_proof_verifies() {
    let (sk, key) = signer();
    let cv = vec![Caveat::scalar(CNF_CAVEAT, &key)];
    let b = body(1000, ",\"role\":\"x\"");
    let p = proof_for(&sk, &TAIL, &b);
    assert_eq!(check(&cv, &TAIL, &b, Some(p), 1000), Ok(()));
}

#[test]
fn key_bound_without_proof_is_rejected() {
    let (_, key) = signer();
    let cv = vec![Caveat::scalar(CNF_CAVEAT, &key)];
    assert_eq!(
        check(&cv, &TAIL, &body(1000, ""), None, 1000),
        Err(PopReject::MissingProof)
    );
}

#[test]
fn tampered_body_fails() {
    let (sk, key) = signer();
    let cv = vec![Caveat::scalar(CNF_CAVEAT, &key)];
    let p = proof_for(&sk, &TAIL, &body(1000, ",\"ancestors\":[\"A\"]"));
    assert_eq!(
        check(
            &cv,
            &TAIL,
            &body(1000, ",\"ancestors\":[\"EVIL\"]"),
            Some(p),
            1000
        ),
        Err(PopReject::BadSignature)
    );
}

#[test]
fn proof_bound_to_the_macaroon_tail() {
    let (sk, key) = signer();
    let cv = vec![Caveat::scalar(CNF_CAVEAT, &key)];
    let b = body(1000, "");
    let p = proof_for(&sk, &TAIL, &b);
    assert_eq!(
        check(&cv, &[1u8; 32], &b, Some(p), 1000),
        Err(PopReject::BadSignature)
    );
}

#[test]
fn stale_timestamp_rejected() {
    let (sk, key) = signer();
    let cv = vec![Caveat::scalar(CNF_CAVEAT, &key)];
    let b = body(1000, "");
    let p = proof_for(&sk, &TAIL, &b);
    assert_eq!(
        check(&cv, &TAIL, &b, Some(p), 1000 + SKEW_SECONDS + 1),
        Err(PopReject::Stale)
    );
}

#[test]
fn missing_ts_in_body_rejected_after_verify() {
    let (sk, key) = signer();
    let cv = vec![Caveat::scalar(CNF_CAVEAT, &key)];
    let b = br#"{"role":"x"}"#;
    let p = proof_for(&sk, &TAIL, b);
    assert_eq!(
        check(&cv, &TAIL, b, Some(p), 1000),
        Err(PopReject::BadProof)
    );
}

#[test]
fn wrong_key_fails() {
    let (_, key) = signer();
    let cv = vec![Caveat::scalar(CNF_CAVEAT, &key)];
    let b = body(1000, "");
    let p = proof_for(&[3u8; 32], &TAIL, &b);
    assert_eq!(
        check(&cv, &TAIL, &b, Some(p), 1000),
        Err(PopReject::BadSignature)
    );
}

#[test]
fn contradictory_cnf_fails_closed() {
    let (_, key) = signer();
    let cv = vec![
        Caveat::scalar(CNF_CAVEAT, &key),
        Caveat::scalar(CNF_CAVEAT, "ed25519:AAAA"),
    ];
    assert_eq!(
        check(&cv, &TAIL, &body(1000, ""), None, 1000),
        Err(PopReject::Unsatisfiable)
    );
}

#[test]
fn contradictory_cnf_fails_closed_even_with_a_valid_proof() {
    let (sk, key) = signer();
    let b = body(1000, "");
    let cv = vec![
        Caveat::scalar(CNF_CAVEAT, &key),
        Caveat::scalar(CNF_CAVEAT, &cnf_value(&[8u8; 32])),
        Caveat::scalar("sub", "x"),
    ];
    let p = proof_for(&sk, &TAIL, &b);
    assert_eq!(
        check(&cv, &TAIL, &b, Some(p), 1000),
        Err(PopReject::Unsatisfiable)
    );
}

#[test]
fn cnf_value_is_always_valid() {
    for i in 0..32u8 {
        assert_eq!(validate_cnf(&cnf_value(&[i; 32])), Ok(()));
    }
    assert_eq!(validate_cnf("ed25519:AAAA"), Err(PopReject::BadKey));
    assert_eq!(validate_cnf("rsa:AAAA"), Err(PopReject::BadKey));
}

#[test]
fn fresh_proof_within_skew_verifies() {
    for i in 0..16u8 {
        let seed = [i; 32];
        let tail = [i.wrapping_mul(7); 32];
        let cv = vec![Caveat::scalar(CNF_CAVEAT, &cnf_value(&seed))];
        let b = body(1000, &format!(",\"tag\":\"{i}\""));
        for now in [1000 - SKEW_SECONDS, 1000, 1000 + SKEW_SECONDS] {
            let p = proof_for(&seed, &tail, &b);
            assert_eq!(check(&cv, &tail, &b, Some(p), now), Ok(()));
        }
        for now in [1000 - SKEW_SECONDS - 1, 1000 + SKEW_SECONDS + 1] {
            let p = proof_for(&seed, &tail, &b);
            assert_eq!(check(&cv, &tail, &b, Some(p), now), Err(PopReject::Stale));
        }
    }
}

#[test]
fn any_body_tamper_fails() {
    let (sk, key) = signer();
    let cv = vec![Caveat::scalar(CNF_CAVEAT, &key)];
    let b = body(1000, ",\"tag\":\"x\"");
    for i in 0..b.len() {
        let mut t = b.clone();
        t[i] ^= 1;
        let p = proof_for(&sk, &TAIL, &b);
        assert_eq!(
            check(&cv, &TAIL, &t, Some(p), 1000),
            Err(PopReject::BadSignature)
        );
    }
}

#[test]
fn malformed_cnf_and_proof_are_refused() {
    let cv = vec![Caveat::scalar(CNF_CAVEAT, "ed25519:AAAA")];
    assert_eq!(
        check(&cv, &TAIL, &body(1000, ""), None, 1000),
        Err(PopReject::BadKey)
    );
    assert!(matches!(Proof::from_b64("AAAA"), Err(PopReject::BadProof)));
    assert!(matches!(Proof::from_b64("!"), Err(PopReject::BadProof)));
    assert!(matches!(proof_from(None), Err(PopReject::BadProof)));
    assert!(proof_from(Some(vec![1; 64])).is_ok());
    assert_eq!(key_from(Some(vec![1; 31])), Err(PopReject::BadKey));
    assert_eq!(key_from(Some(vec![1; 32])), Ok([1u8; 32]));
}

#[test]
fn proof_header_may_have_white_space_around_it() {
    let (sk, key) = signer();
    let cv = vec![Caveat::scalar(CNF_CAVEAT, &key)];
    let b = body(1000, "");
    let header = format!(" {}\n", client_signature(&sk, &TAIL, &b));
    let p = Proof::from_b64(&header).ok();
    assert_eq!(check(&cv, &TAIL, &b, p, 1000), Ok(()));
}
