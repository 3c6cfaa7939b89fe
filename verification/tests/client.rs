//! The client's half of the flow.

use mint::caveat::{name, op, scope, Caveat};
use mint::client::narrate::{
    abbrev, can_abbreviate, can_describe, caveat_gloss, caveat_value, credential_inspect,
    credential_list, describe, load_credential,
};
use mint::client::{
    attest_orders, bound_credential, build_request_body, client_dir, credential_path,
    exchange_body, fingerprint, gate_orders, identity, key_text, load_key, narrow_credential,
    parse_caveats, parse_invite, present_invite, pub_text, read_discharge, read_exchange, read_ticket,
    values_by_name, CaveatArg, ClientError, Exchanged,
};
use mint::issuance::{mint_credential, mint_credential_ticket, mint_invite};
use mint::keyring::Keyring;
use mint::macaroon::{mint, Macaroon};
use mint::map::NameMap;
use mint::pop::validate_cnf;
use mint::session::FileText;

fn invite() -> Macaroon {
    mint_invite(
        &Keyring::single([1u8; 32]),
        &[9u8; 32],
        "mint",
        "nonce",
        "org_demo",
        "https://auth.example/v1/discharge",
    )
}

fn credential(role: &str) -> Macaroon {
    mint_credential(
        &Keyring::single([7u8; 32]),
        "mint",
        "coord-1",
        "ed25519:k",
        role,
        0,
        None,
    )
}

#[test]
fn first_use_mints_and_persists_a_stable_identity() {
    // No key on disk yet: the first read draws one.
    let key = load_key(&FileText::Missing).unwrap();
    assert!(key.fresh);
    let (cnf, fp) = identity(&key.seed);
    assert!(cnf.starts_with("ed25519:"));
    assert_eq!(fp.len(), 16); // 8 bytes hex
    // The identity is stable: a later read reuses the same key.
    let again = load_key(&FileText::Text(key_text(&key.seed))).unwrap();
    assert!(!again.fresh);
    assert_eq!(identity(&again.seed).0, cnf);
    assert_eq!(pub_text(&key.seed).trim().len(), 64);
}

#[test]
fn key_file_is_0600_hex_with_newline() {
    let raw = key_text(&load_key(&FileText::Missing).unwrap().seed);
    assert!(raw.ends_with('\n'));
    assert_eq!(raw.trim().len(), 64);
}

#[test]
fn bad_key_file_is_reported() {
    assert!(matches!(
        load_key(&FileText::Text("not-hex".into())),
        Err(ClientError::BadFile(_))
    ));
    assert!(matches!(
        load_key(&FileText::Failed("denied".into())),
        Err(ClientError::Io(_))
    ));
}

#[test]
fn invite_arg_accepts_inline_and_rejects_non_macaroon() {
    let wire = invite().encode();
    assert!(parse_invite(&wire).is_ok());
    assert!(parse_invite(&format!("  {wire}\n")).is_ok());
    assert!(matches!(
        parse_invite("not-a-macaroon"),
        Err(ClientError::BadFile(_))
    ));
}

#[test]
fn request_body_carries_only_client_owned_fields() {
    let b = build_request_body("read", 900, 1000);
    let v: serde_json::Value = serde_json::from_str(&b).unwrap();
    assert_eq!(v["ts"], 1000);
    assert_eq!(v["role"], "read");
    assert_eq!(v["ttl_seconds"], 900);
    assert_eq!(
        v.as_object().unwrap().len(),
        3,
        "only ts/role/ttl_seconds are sent"
    );
}

#[test]
fn caveat_parsing_is_vocabulary_agnostic() {
    let ok = parse_caveats(&[
        "elide:Volume=01VOL".into(),
        "Region=eu=west".into(), // only the first '=' splits
    ])
    .unwrap();
    assert_eq!(ok[0], CaveatArg::new("elide:Volume", "01VOL"));
    assert_eq!(ok[1], CaveatArg::new("Region", "eu=west"));
    for bad in ["novalue", "=novalue"] {
        assert!(matches!(
            parse_caveats(&[bad.to_string()]),
            Err(ClientError::BadCaveat(_))
        ));
    }
}

#[test]
fn attest_discharges_skips_when_no_tpc() {
    let no_tpc = mint(
        &Keyring::single([7u8; 32]),
        vec![Caveat::scalar(name::OP, "assume-role")],
    );
    assert!(attest_orders(&no_tpc, &NameMap::new()).unwrap().is_empty());
}

#[test]
fn credential_list_and_inspect_are_local_and_fail_actionably() {
    let dir = "d";
    let mut files = NameMap::new();
    // No credential yet: the list is a clean no-op, and an absent role
    // points at the prerequisite command.
    assert!(credential_list(&files).unwrap().is_empty());
    assert!(matches!(
        load_credential(&FileText::Missing, dir, "write"),
        Err(ClientError::Missing { .. })
    ));

    let cred = credential("write");
    files.insert("write".into(), cred.encode());
    let lines = credential_list(&files).unwrap();
    assert_eq!(lines.len(), 2);
    assert_eq!(
        lines[0],
        "ROLE             ROLE-CAVEAT                  CAVEATS  SUB"
    );
    assert_eq!(
        lines[1],
        "write            write                              6  coord-1"
    );
    let loaded = load_credential(&FileText::Text(cred.encode()), dir, "write").unwrap();
    assert!(can_describe(&loaded));
    let shown = credential_inspect(&loaded, dir, "write");
    assert_eq!(shown[0], "credential for role `write` (d/credentials/write):");
    assert_eq!(shown[1], "  credential (what you hold) — 6 caveat(s):");

    // A corrupt credential file is reported by both.
    files.insert("read".into(), "not-a-macaroon".into());
    assert!(matches!(
        credential_list(&files),
        Err(ClientError::BadFile("credential"))
    ));
    assert!(matches!(
        load_credential(&FileText::Text("not-a-macaroon".into()), dir, "read"),
        Err(ClientError::BadFile("credential"))
    ));
}

#[test]
fn presented_invite_still_verifies() {
    let kr = Keyring::single([1u8; 32]);
    let m = present_invite(invite(), "coord-1", "ed25519:k");
    assert!(m.verify(&kr));
    assert_eq!(caveat_value(&m, name::SUB).as_deref(), Some("coord-1"));
    assert_eq!(caveat_value(&m, name::CNF).as_deref(), Some("ed25519:k"));
    assert!(!m.verify(&Keyring::single([2u8; 32])));
}

#[test]
fn bound_credential_expires() {
    let m = bound_credential(credential("write"), 1_000, 900);
    assert_eq!(caveat_value(&m, name::EXP).as_deref(), Some("1900"));
    assert!(m.verify(&Keyring::single([7u8; 32])));
}

#[test]
fn gate_orders_name_the_scope_and_the_site() {
    let orders = gate_orders(&invite(), scope::MINT_ENROLL).unwrap();
    assert_eq!(orders.len(), 1);
    assert_eq!(orders[0].location, "https://auth.example/v1/discharge");
    assert_eq!(orders[0].path, "/v1/discharge");
    let v: serde_json::Value = serde_json::from_str(&orders[0].body).unwrap();
    assert_eq!(v["scope"], "mint:enroll");
    assert!(v["cid"].as_str().is_some());
}

#[test]
fn attest_orders_carry_the_values() {
    let attested = mint_credential(
        &Keyring::single([7u8; 32]),
        "mint",
        "coord-1",
        "ed25519:k",
        "read",
        0,
        Some(mint::issuance::AttestedTpc {
            k_m_b: &[4u8; 32],
            org_id: "demo",
            mode: "values",
            location: "https://attest.example/v1/attest",
        }),
    );
    let values = values_by_name(&[CaveatArg::new("volume", "01VOL")]);
    let orders = attest_orders(&attested, &values).unwrap();
    assert_eq!(orders.len(), 1);
    assert_eq!(orders[0].path, "/v1/attest");
    let v: serde_json::Value = serde_json::from_str(&orders[0].body).unwrap();
    assert_eq!(v["attested"]["volume"], "01VOL");
}

#[test]
fn replies_are_read_by_status_and_field() {
    let kr = Keyring::single([1u8; 32]);
    let ticket = mint_credential_ticket(
        &kr,
        &[9u8; 32],
        "mint",
        "coord-1",
        "ed25519:k",
        2_000,
        "demo",
        "https://auth.example/v1/discharge",
    );
    let body = format!("{{\"credential.ticket\":\"{}\"}}", ticket.encode());
    assert_eq!(read_ticket(200, &body).unwrap(), ticket.encode());
    assert!(matches!(
        read_ticket(500, "down"),
        Err(ClientError::Server { status: 500, .. })
    ));
    assert!(matches!(
        read_ticket(200, "{}"),
        Err(ClientError::MissingField(_))
    ));
    let cred = credential("read").encode();
    match read_exchange(200, &format!("{{\"credential\":\"{cred}\"}}")).unwrap() {
        Exchanged::Credential(t) => assert_eq!(t, cred),
        _ => panic!("a credential"),
    }
    assert!(matches!(read_exchange(403, "{}"), Ok(Exchanged::Awaiting)));
    assert!(matches!(
        read_exchange(401, "{}"),
        Err(ClientError::TicketRejected)
    ));
    assert!(matches!(
        read_discharge(403, "no"),
        Err(ClientError::Server { status: 403, .. })
    ));
}

#[test]
fn exchange_body_names_the_role() {
    let v: serde_json::Value = serde_json::from_str(&exchange_body("read", 7)).unwrap();
    assert_eq!(v["role"], "read");
    assert_eq!(v["ts"], 7);
}

#[test]
fn paths_have_their_defaults() {
    assert_eq!(credential_path("read"), "credentials/read");
    assert_eq!(client_dir(None), "mint_client");
    assert_eq!(client_dir(Some("x".into())), "x");
}

#[test]
fn long_values_are_shown_by_their_ends() {
    assert_eq!(abbrev("short"), "short");
    assert_eq!(abbrev("abcdefghijklmnopqrstuvwxyz01"), "abcdefghijklmnopqrstuvwxyz01");
    assert_eq!(
        abbrev("abcdefghijklmnopqrstuvwxyz012"),
        "abcdefghijklmn…vwxyz012"
    );
    // A cut inside a character cannot be shown.
    assert!(!can_abbreviate("abcdefghijklmé0123456789abcdefghi"));
}

#[test]
fn narration_explains_the_standard_caveats() {
    assert_eq!(
        caveat_gloss(name::OP, op::ENROLL),
        "participation gate — enroll only"
    );
    assert_eq!(caveat_gloss("volume", "x"), "");
    let m = mint(
        &Keyring::single([7u8; 32]),
        vec![
            Caveat::scalar(name::EXP, "0"),
            Caveat::scalar("volume", "01VOL"),
        ],
    )
    .attenuate(Caveat::third_party("https://a.example/x", vec![1], vec![2]));
    assert!(can_describe(&m));
    let lines = describe("token", &m);
    assert_eq!(lines[0], "  token — 3 caveat(s):");
    assert_eq!(
        lines[1],
        "    exp        0 (1970-01-01T00:00:00Z)  — expiry, unix seconds"
    );
    assert_eq!(lines[2], "    volume     01VOL");
    assert_eq!(
        lines[3],
        "    tpc        https://a.example/x  — discharge required from this authority"
    );
}

#[test]
fn fingerprints_tell_keys_apart() {
    let (a, _) = identity(&[1u8; 32]);
    let (b, _) = identity(&[2u8; 32]);
    assert_ne!(fingerprint(&a), fingerprint(&b));
    assert_eq!(fingerprint(&a), identity(&[1u8; 32]).1);
}

#[test]
fn an_identity_is_a_key_that_proofs_bind_to() {
    assert!(validate_cnf(&identity(&[1u8; 32]).0).is_ok());
}

#[test]
fn client_errors_read_as_the_user_sees_them() {
    assert_eq!(
        ClientError::BadCaveat("x".into()).message(),
        "--caveat must be NAME=VALUE (got \"x\")"
    );
}

/// The first and the last instant that have a date; those beyond are shown
/// as they are.
#[test]
fn deadlines_outside_the_calendar_have_no_date() {
    for (exp, dated) in [
        ("-8334601228800", true),
        ("-8334601228801", false),
        ("-8334601300000", false),
        ("-8334601315200", false),
        ("8210266876799", true),
        ("8210266876800", false),
    ] {
        let m = mint(
            &Keyring::single([7u8; 32]),
            vec![Caveat::scalar(name::EXP, exp)],
        );
        let lines = describe("token", &m);
        assert!(lines[1].contains(exp), "{}", lines[1]);
        assert_eq!(lines[1].contains(" ("), dated, "{}", lines[1]);
    }
}

#[test]
fn a_credential_is_narrowed_in_order() {
    let kr = Keyring::single([7u8; 32]);
    let held = mint(&kr, vec![Caveat::scalar(name::OP, op::ASSUME_ROLE)]);
    let own = parse_caveats(&["exp=5000".to_string(), "volume=v1".to_string()]).unwrap();
    let m = narrow_credential(held, &own);
    assert!(m.verify_under_key(&[7u8; 32]));
    let shown: Vec<(Option<&str>, Option<&str>)> = m
        .caveats()
        .iter()
        .map(|c| (c.first_party_name(), c.first_party_value()))
        .collect();
    assert_eq!(
        shown,
        vec![
            (Some("op"), Some("assume-role")),
            (Some("exp"), Some("5000")),
            (Some("volume"), Some("v1")),
        ]
    );
}
