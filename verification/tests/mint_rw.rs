//! The self-vended keypair of the service's own data plane.

use mint::iam::FakeMinter;
use mint::mint_rw::{
    mint_rw_policy_json, refresh_delay, retry_backoff, vend_request, MINT_RW_TTL_SECONDS,
};
use mint::time::UtcTime;

#[test]
fn policy_json_scopes_to_mint_prefix_and_carries_expiry() {
    let p = mint_rw_policy_json("demo-bucket", "2026-12-31T23:59:59Z");
    assert!(p.contains(r#""arn:aws:s3:::demo-bucket/_mint/*""#));
    assert!(p.contains(r#""arn:aws:s3:::demo-bucket""#));
    assert!(p.contains("2026-12-31T23:59:59Z"));
    assert!(!p.contains("StringLike"));
    assert!(!p.contains("StringEquals"));
    assert!(!p.contains(r#""s3:prefix""#));
    assert!(!p.contains(r#""arn:aws:s3:::demo-bucket/by_id/*""#));
}

#[test]
fn vend_calls_minter_with_mint_rw_policy_name_and_ttl() {
    let now = UtcTime {
        seconds: 1_779_321_600,
        nanos: 0,
    };
    let request = vend_request("demo-bucket", now);
    assert_eq!(request.ttl_seconds, MINT_RW_TTL_SECONDS);
    assert!(request.policy_name.starts_with("mint_mint-rw_"));
    let mut minter = FakeMinter::new();
    let kp = minter
        .mint_keypair(
            &request.policy_name,
            &request.policy_json,
            request.ttl_seconds,
            now,
        )
        .unwrap();
    assert_eq!(kp.access_key_id, "tid_fake_00000000");
}

#[test]
fn refresh_delay_picks_half_remaining_lifetime() {
    assert_eq!(refresh_delay(600), 300);
    assert_eq!(refresh_delay(601), 300);
}

#[test]
fn refresh_delay_short_circuits_when_lapsed() {
    assert_eq!(refresh_delay(-60), 1);
    assert_eq!(refresh_delay(0), 1);
    assert_eq!(refresh_delay(1), 1);
}

#[test]
fn retries_back_off_within_the_lifetime() {
    assert!(retry_backoff(-5) >= 1);
    assert!(retry_backoff(i64::MAX) >= 1);
}

#[test]
fn retry_backoff_is_half_of_what_is_left_within_bounds() {
    assert_eq!(retry_backoff(-5), 5);
    assert_eq!(retry_backoff(40), 20);
    assert_eq!(retry_backoff(1000), 60);
}
