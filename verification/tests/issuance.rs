//! The tokens of the enrollment flow.

use mint::caveat::{name, op, Caveat, EffectiveCaveats, Resolved};
use mint::issuance::{
    bound_identity, mint_admin_service_token, mint_credential, mint_credential_ticket, mint_invite,
    AttestedTpc, EnrollError,
};
use mint::keyring::Keyring;
use mint::macaroon;
use mint::macaroon::Macaroon;
use mint::pop;
use mint::tpc;

const SUB: &str = "01ARZ3NDEKTSV4RRFFQ69G5FAV";

fn ring() -> Keyring {
    Keyring::single([7u8; 32])
}

fn cnf() -> String {
    pop::cnf_value(&[3u8; 32])
}

const K_M_A: [u8; 32] = [42u8; 32];
const LOCATION: &str = "https://auth.example/v1/discharge";

/// Count the third-party caveats on a macaroon — the enroll/exchange
/// gate lands as exactly one.
fn tpc_count(m: &Macaroon) -> usize {
    m.caveats()
        .iter()
        .filter(|c| matches!(c, Caveat::ThirdParty { .. }))
        .count()
}

#[test]
fn invite_is_enroll_op_no_identity_with_gate_tpc() {
    let kr = ring();
    let b = mint_invite(&kr, &K_M_A, "mint", "nonceXYZ", "org_demo", LOCATION);
    assert!(b.verify(&kr));
    let eff = EffectiveCaveats::new(b.caveats());
    assert_eq!(eff.resolve(name::OP), Resolved::Value(op::ENROLL.into()));
    assert_eq!(eff.resolve(name::AUD), Resolved::Value("mint".into()));
    assert_eq!(
        eff.resolve(name::INVITE),
        Resolved::Value("nonceXYZ".into())
    );
    assert_eq!(eff.resolve(name::SUB), Resolved::Absent);
    assert_eq!(eff.resolve(name::CNF), Resolved::Absent);
    // The enroll gate: exactly one third-party caveat.
    assert_eq!(tpc_count(&b), 1);
}

#[test]
fn ticket_then_credential_carry_identity_with_distinct_ops() {
    let kr = ring();
    let ticket = mint_credential_ticket(
        &kr,
        &K_M_A,
        "mint",
        SUB,
        &cnf(),
        1_700_000_000,
        "org_demo",
        LOCATION,
    );
    assert!(ticket.verify(&kr));
    let ie = EffectiveCaveats::new(ticket.caveats());
    assert_eq!(
        ie.resolve(name::OP),
        Resolved::Value(op::ENROLL_EXCHANGE.into())
    );
    assert_eq!(ie.min_bound(name::EXP), Some(1_700_000_000));
    // The exchange gate: the ticket carries its own TPC.
    assert_eq!(tpc_count(&ticket), 1);

    let cred = mint_credential(&kr, "mint", SUB, &cnf(), "volume-ro", 7, None);
    assert!(cred.verify(&kr));
    let pe = EffectiveCaveats::new(cred.caveats());
    assert_eq!(
        pe.resolve(name::OP),
        Resolved::Value(op::ASSUME_ROLE.into())
    );
    assert_eq!(pe.resolve(name::SUB), Resolved::Value(SUB.into()));
    assert_eq!(pe.resolve(name::CNF), Resolved::Value(cnf()));
    assert_eq!(pe.resolve(name::ROLE), Resolved::Value("volume-ro".into()));
    // The credential carries the revocation epoch it was minted at.
    assert_eq!(pe.resolve(name::EPOCH), Resolved::Value("7".into()));
    // The credential does not expire.
    assert_eq!(pe.min_bound(name::EXP), None);
    // A credential carries no third-party caveat — operator authority
    // lives entirely at the enroll/exchange gates, not at assume-role.
    assert_eq!(tpc_count(&cred), 0);
    // Fresh chain, not an attenuation of the credential ticket.
    assert_ne!(cred.nonce(), ticket.nonce());
}

#[test]
fn attested_role_credential_carries_a_discharging_tpc() {
    const K_M_B: [u8; 32] = [9u8; 32];
    const ATT_LOCATION: &str = "https://coord-b.example/v1/discharge";
    let kr = ring();
    let cred = mint_credential(
        &kr,
        "mint",
        SUB,
        &cnf(),
        "volume-ro",
        7,
        Some(AttestedTpc {
            k_m_b: &K_M_B,
            org_id: "org_demo",
            mode: "volume-ro",
            location: ATT_LOCATION,
        }),
    );
    assert!(cred.verify(&kr));
    // Identity caveats are exactly the plain credential's.
    let pe = EffectiveCaveats::new(cred.caveats());
    assert_eq!(pe.resolve(name::ROLE), Resolved::Value("volume-ro".into()));
    assert_eq!(pe.resolve(name::SUB), Resolved::Value(SUB.into()));
    // Plus exactly one third-party caveat, naming the authority.
    assert_eq!(tpc_count(&cred), 1);
    let (location, cid) = cred
        .caveats()
        .iter()
        .find_map(|c| match c {
            Caveat::ThirdParty { location, cid, .. } => {
                Some((location.as_str(), cid.as_slice()))
            }
            _ => None,
        })
        .expect("a third-party caveat");
    assert_eq!(location, ATT_LOCATION);
    // The CID seals (sub, org, mode) under K_M-B. `mode` round-trips
    // verbatim — mint transported it without interpretation.
    let pt = tpc::decrypt_cid_attested(&K_M_B, cid).expect("decrypt cid");
    assert_eq!(pt.client_id, SUB);
    assert_eq!(pt.org_id, "org_demo");
    assert_eq!(pt.mode, "volume-ro");
}

#[test]
fn attested_tpcs_draw_fresh_r_per_credential() {
    // Two credentials for the same sub — even the same role — seal
    // distinct `r` values, so a discharge minted for one cannot
    // satisfy the other's TPC.
    const K_M_B: [u8; 32] = [9u8; 32];
    const ATT_LOCATION: &str = "https://coord-b.example/v1/discharge";
    let kr = ring();
    let attested = || AttestedTpc {
        k_m_b: &K_M_B,
        org_id: "org_demo",
        mode: "volume-ro",
        location: ATT_LOCATION,
    };
    let mint_one =
        || mint_credential(&kr, "mint", SUB, &cnf(), "volume-ro", 7, Some(attested()));
    let r_of = |cred: &Macaroon| {
        let cid = cred
            .caveats()
            .iter()
            .find_map(|c| match c {
                Caveat::ThirdParty { cid, .. } => Some(cid.clone()),
                _ => None,
            })
            .expect("a third-party caveat");
        tpc::decrypt_cid_attested(&K_M_B, &cid)
            .expect("decrypt cid")
            .r
    };
    assert_ne!(r_of(&mint_one()), r_of(&mint_one()));
}

#[test]
fn bound_identity_extracts_sub_and_cnf() {
    let m = macaroon::mint(
        &ring(),
        vec![
            Caveat::scalar(name::SUB, SUB),
            Caveat::scalar(name::CNF, &cnf()),
        ],
    );
    assert_eq!(bound_identity(&m), Ok((SUB.to_string(), cnf())));
}

#[test]
fn missing_or_bad_identity_refused() {
    let kr = ring();
    let no_cnf = macaroon::mint(&kr, vec![Caveat::scalar(name::SUB, SUB)]);
    assert_eq!(bound_identity(&no_cnf), Err(EnrollError::MissingCnf));

    let no_sub = macaroon::mint(&kr, vec![Caveat::scalar(name::CNF, &cnf())]);
    assert_eq!(bound_identity(&no_sub), Err(EnrollError::MissingSub));

    let bad_cnf = macaroon::mint(
        &kr,
        vec![
            Caveat::scalar(name::SUB, SUB),
            Caveat::scalar(name::CNF, "ed25519:not-base64!!"),
        ],
    );
    assert_eq!(bound_identity(&bad_cnf), Err(EnrollError::BadCnf));
}

#[test]
fn contradictory_binding_fails_closed() {
    // Appended second, disagreeing sub (only the trailing MAC is
    // needed to append). Must be Unsatisfiable, never the first value.
    let m = macaroon::mint(
        &ring(),
        vec![
            Caveat::scalar(name::SUB, SUB),
            Caveat::scalar(name::CNF, &cnf()),
        ],
    )
    .attenuate(Caveat::scalar(name::SUB, "01EVIL"));
    assert_eq!(bound_identity(&m), Err(EnrollError::Unsatisfiable));
}


#[test]
fn admin_service_token_is_gated_and_key_bound() {
    let kr = ring();
    let m = mint_admin_service_token(&kr, &K_M_A, "mint", &cnf(), "org_demo", LOCATION);
    assert!(m.verify(&kr));
    assert_eq!(tpc_count(&m), 1);
    let eff = EffectiveCaveats::new(m.caveats());
    assert_eq!(eff.resolve(name::CNF), Resolved::Value(cnf()));
    assert_eq!(eff.resolve(name::AUD), Resolved::Value("mint".into()));
}

#[test]
fn enroll_errors_have_their_messages() {
    assert_eq!(EnrollError::BadCnf.message(), "malformed cnf");
    assert_eq!(EnrollError::MissingSub.message(), "missing sub");
    assert_eq!(EnrollError::MissingCnf.message(), "missing cnf");
    assert_eq!(
        EnrollError::Unsatisfiable.message(),
        "contradictory binding caveat"
    );
}
