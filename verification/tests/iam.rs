//! Keypair minting.

use mint::iam::{policy_name, policy_name_of, FakeMinter, MintError};
use mint::time::UtcTime;

fn at(text: &str) -> UtcTime {
    let t = text.parse::<chrono::DateTime<chrono::Utc>>().unwrap();
    UtcTime {
        seconds: t.timestamp(),
        nanos: t.timestamp_subsec_nanos(),
    }
}

#[test]
fn fake_minter_records_and_is_deterministic() {
    let now = at("2026-05-20T23:59:00Z");
    let mut m = FakeMinter::new();
    let k0 = m
        .mint_keypair("mint_test_global_20260521T000000Z_00000000", "{}", 60, now)
        .unwrap();
    let k1 = m
        .mint_keypair("mint_test_global_20260521T000000Z_00000001", "{}", 60, now)
        .unwrap();
    assert_eq!(k0.access_key_id, "tid_fake_00000000");
    assert_eq!(k1.access_key_id, "tid_fake_00000001");
    assert_eq!(m.calls().len(), 2);
    assert_eq!(k0.expiration, at("2026-05-21T00:00:00Z"));
    assert_eq!(m.calls()[1].issued_key_id, "tid_fake_00000001");
}

#[test]
fn policy_name_shape() {
    let expiry = at("2026-05-21T14:30:00Z");
    let scoped = policy_name("volume-rw", Some("01JD8K3FQ9R0YHGWZV5XPMNTAB"), expiry);
    assert!(
        scoped.starts_with("mint_volume-rw_01JD8K3FQ9R0YHGWZV5XPMNTAB_20260521T143000Z_"),
        "got {scoped}"
    );
    // 4 (mint) + 1 + 9 (volume-rw) + 1 + 26 + 1 + 16 + 1 + 8 = 67
    assert_eq!(scoped.len(), 67);
    assert!(scoped.len() <= 128);

    let global = policy_name("coord-ro", None, expiry);
    assert!(global.starts_with("mint_coord-ro_global_20260521T143000Z_"));
}

#[test]
fn policy_names_are_assembled_from_their_parts() {
    assert_eq!(
        policy_name_of("r", Some("s"), "20260521T143000Z", 0xabc),
        "mint_r_s_20260521T143000Z_00000abc"
    );
}

#[test]
fn mint_errors_name_the_backend() {
    assert!(MintError::Backend("down".into()).message().contains("down"));
}

const STAMP: &str = "20260521T143000Z";

#[test]
fn policy_names_hold_only_their_characters() {
    assert_eq!(
        policy_name_of("r", Some("a/b"), STAMP, 1),
        "mint_r_a-b_20260521T143000Z_00000001"
    );
    assert_eq!(
        policy_name_of("r w", Some("x:\u{e9}*"), STAMP, 1),
        "mint_r-w_x---_20260521T143000Z_00000001"
    );
    // What a name may hold stays as it is.
    assert_eq!(
        policy_name_of("A_z+9", Some("=,.@-"), STAMP, 1),
        "mint_A_z+9_=,.@-_20260521T143000Z_00000001"
    );
}

#[test]
fn policy_names_fit_their_room() {
    let long = "r".repeat(200);
    let wide = "s".repeat(200);
    let name = |role: &str, scope: Option<&str>| policy_name_of(role, scope, STAMP, 0);
    // Both too long: each has its share.
    assert_eq!(
        name(&long, Some(&wide)),
        format!("mint_{}_{}_{STAMP}_00000000", "r".repeat(48), "s".repeat(48))
    );
    // One short: the other has what it leaves.
    assert_eq!(
        name(&long, Some("s")),
        format!("mint_{}_s_{STAMP}_00000000", "r".repeat(95))
    );
    assert_eq!(
        name("r", Some(&wide)),
        format!("mint_r_{}_{STAMP}_00000000", "s".repeat(95))
    );
    assert_eq!(
        name(&long, None),
        format!("mint_{}_global_{STAMP}_00000000", "r".repeat(90))
    );
    // Within the room both stay whole.
    assert_eq!(
        name(&"r".repeat(60), Some(&"s".repeat(36))),
        format!("mint_{}_{}_{STAMP}_00000000", "r".repeat(60), "s".repeat(36))
    );
    assert_eq!(name(&long, Some(&wide)).len(), 128);
    assert!(policy_name(&long, Some(&wide), at("2026-05-21T14:30:00Z")).len() <= 128);
}
