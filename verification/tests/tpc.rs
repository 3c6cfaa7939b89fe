//! Third-party caveats: the sealed discharge key and its binding.

use mint::caveat::Caveat;
use mint::tpc::{
    attested_cid_plaintext, build_caveat, build_caveat_attested, cid_plaintext, decrypt_cid,
    decrypt_cid_attested, decrypt_vid, encrypt_cid, encrypt_cid_attested,
    encrypt_cid_attested_with_nonce, encrypt_vid, is_sealable, location_path, ticket_id,
    usable_path, TpcError, AEAD_NONCE_LEN,
};

fn fresh_r() -> [u8; 32] {
    [0x5au8; 32]
}

/// `(vid, cid)` of a built caveat, for comparing two builds.
fn caveat_payload(c: Caveat) -> (Vec<u8>, Vec<u8>) {
    match c {
        Caveat::ThirdParty { vid, cid, .. } => (vid, cid),
        other => panic!("expected a third-party caveat, got {other:?}"),
    }
}

#[test]
fn built_caveats_draw_fresh_r() {
    // Identical inputs, two builds: every encrypted field differs,
    // because each build seals its own ephemeral `r`. A discharge
    // minted for one caveat is therefore inert against the other.
    let tail = [11u8; 32];
    let k = [3u8; 32];
    let (vid1, cid1) =
        caveat_payload(build_caveat(&tail, &k, "01ARZ", "org_demo", "https://a"));
    let (vid2, cid2) =
        caveat_payload(build_caveat(&tail, &k, "01ARZ", "org_demo", "https://a"));
    assert_ne!(vid1, vid2);
    assert_ne!(cid1, cid2);
}

#[test]
fn built_attested_caveats_draw_fresh_r() {
    let tail = [11u8; 32];
    let k = [3u8; 32];
    let (vid1, cid1) = caveat_payload(build_caveat_attested(
        &tail,
        &k,
        "01ARZ",
        "org_demo",
        "volume-rw",
        "https://a",
    ));
    let (vid2, cid2) = caveat_payload(build_caveat_attested(
        &tail,
        &k,
        "01ARZ",
        "org_demo",
        "volume-rw",
        "https://a",
    ));
    assert_ne!(vid1, vid2);
    assert_ne!(cid1, cid2);
}

#[test]
fn cid_seals_differ_per_call_but_agree_on_plaintext() {
    let k_m_a = [3u8; 32];
    let r = [7u8; 32];
    let a = encrypt_cid(&k_m_a, &r, "01ARZ", "org_demo");
    let b = encrypt_cid(&k_m_a, &r, "01ARZ", "org_demo");
    assert_ne!(a, b, "each seal draws its own nonce");
    assert_eq!(decrypt_cid(&k_m_a, &a), decrypt_cid(&k_m_a, &b));
}

#[test]
fn cid_plaintext_changes_per_client_org_and_r() {
    let r0 = [7u8; 32];
    let r1 = [8u8; 32];
    let base = cid_plaintext(&r0, "01ARZ", "org_demo");
    assert_ne!(base, cid_plaintext(&r0, "01BXY", "org_demo"));
    assert_ne!(base, cid_plaintext(&r0, "01ARZ", "org_other"));
    assert_ne!(base, cid_plaintext(&r1, "01ARZ", "org_demo"));
}

#[test]
fn cid_plaintext_lengths_prevent_boundary_collision() {
    // (client="ab", org="cd") vs (client="abcd", org="") must not
    // collide. Without length prefixing the two concatenations
    // would be identical (both end up `..abcd..`).
    let r = [7u8; 32];
    let a = cid_plaintext(&r, "ab", "cd");
    let b = cid_plaintext(&r, "abcd", "");
    assert_ne!(a, b);
}

#[test]
fn vid_seals_differ_per_call_but_agree_on_r() {
    let t = [4u8; 32];
    let r = [5u8; 32];
    let a = encrypt_vid(&t, &r);
    let b = encrypt_vid(&t, &r);
    assert_ne!(a, b, "each seal draws its own nonce");
    assert_eq!(decrypt_vid(&t, &a), Ok(r));
    assert_eq!(decrypt_vid(&t, &b), Ok(r));
}

#[test]
fn vid_round_trips_under_correct_tag() {
    let t = [4u8; 32];
    let r = [5u8; 32];
    let vid = encrypt_vid(&t, &r);
    assert_eq!(decrypt_vid(&t, &vid).expect("decrypt"), r);
}

#[test]
fn vid_decrypt_fails_under_wrong_tag() {
    let t = [4u8; 32];
    let r = [5u8; 32];
    let vid = encrypt_vid(&t, &r);
    let mut wrong = t;
    wrong[0] ^= 0x80;
    assert_eq!(decrypt_vid(&wrong, &vid), Err(TpcError::Aead));
}

#[test]
fn vid_decrypt_fails_on_tampered_ciphertext() {
    // The Poly1305 tag detects a single bit-flip anywhere in the
    // sealed bytes, nonce prefix included.
    let t = [4u8; 32];
    let r = [5u8; 32];
    let mut vid = encrypt_vid(&t, &r);
    vid[0] ^= 0x01;
    assert_eq!(decrypt_vid(&t, &vid), Err(TpcError::Aead));
}

#[test]
fn cid_round_trips_to_bound_identity() {
    let k_m_a = [3u8; 32];
    let r = [7u8; 32];
    let cid = encrypt_cid(&k_m_a, &r, "01ARZ", "org_demo");
    let pt = decrypt_cid(&k_m_a, &cid).expect("decrypt");
    assert_eq!(pt.r, r);
    assert_eq!(pt.client_id, "01ARZ");
    assert_eq!(pt.org_id, "org_demo");
}

#[test]
fn cid_decrypt_fails_under_wrong_k_m_a() {
    let k_m_a = [3u8; 32];
    let r = [7u8; 32];
    let cid = encrypt_cid(&k_m_a, &r, "01ARZ", "org_demo");
    let mut wrong = k_m_a;
    wrong[31] ^= 0x40;
    assert_eq!(decrypt_cid(&wrong, &cid), Err(TpcError::Aead));
}

#[test]
fn cid_decrypt_recovers_exact_field_bytes() {
    // Empty `org_id` and unicode `client_id` exercise the
    // length-prefix parser at its boundaries.
    let k_m_a = [3u8; 32];
    let r = [9u8; 32];
    let cid = encrypt_cid(&k_m_a, &r, "01ÆØÅ", "");
    let pt = decrypt_cid(&k_m_a, &cid).expect("decrypt");
    assert_eq!(pt.client_id, "01ÆØÅ");
    assert_eq!(pt.org_id, "");
}

#[test]
fn location_path_takes_only_the_path() {
    assert_eq!(
        location_path("https://auth.example/v1/discharge").as_deref(),
        Some("/v1/discharge")
    );
    assert_eq!(
        location_path("http://localhost/v1/login").as_deref(),
        Some("/v1/login")
    );
    // No path to dial: bare authority or root.
    assert_eq!(location_path("https://auth.example/"), None);
    assert_eq!(location_path("https://auth.example"), None);
    // Not a URI.
    assert_eq!(location_path(""), None);
}

#[test]
fn attested_cid_round_trips_to_bound_identity_and_mode() {
    let k_m_b = [2u8; 32];
    let r = [7u8; 32];
    // mint treats `mode` as opaque; exercise arbitrary strings.
    for mode in ["volume-rw", "volume-ro", ""] {
        let cid = encrypt_cid_attested(&k_m_b, &r, "01ARZ", "org_demo", mode);
        let pt = decrypt_cid_attested(&k_m_b, &cid).expect("decrypt");
        assert_eq!(pt.r, r);
        assert_eq!(pt.client_id, "01ARZ");
        assert_eq!(pt.org_id, "org_demo");
        assert_eq!(pt.mode, mode);
    }
}

#[test]
fn attested_cid_plaintext_changes_with_mode() {
    let r = [7u8; 32];
    let rw = attested_cid_plaintext(&r, "01ARZ", "org_demo", "volume-rw");
    let ro = attested_cid_plaintext(&r, "01ARZ", "org_demo", "volume-ro");
    assert_ne!(rw, ro, "mode must affect the plaintext");
}

#[test]
fn attested_cid_seals_differ_per_call_but_agree_on_plaintext() {
    let k_m_b = [2u8; 32];
    let r = [7u8; 32];
    let a = encrypt_cid_attested(&k_m_b, &r, "01ARZ", "org_demo", "volume-ro");
    let b = encrypt_cid_attested(&k_m_b, &r, "01ARZ", "org_demo", "volume-ro");
    assert_ne!(a, b, "each seal draws its own nonce");
    assert_eq!(
        decrypt_cid_attested(&k_m_b, &a),
        decrypt_cid_attested(&k_m_b, &b)
    );
}

#[test]
fn attested_cid_with_nonce_is_deterministic_and_nonce_prefixed() {
    let k_m_b = [2u8; 32];
    let r = [7u8; 32];
    let n = [0xa0u8; AEAD_NONCE_LEN];
    let a = encrypt_cid_attested_with_nonce(&k_m_b, &n, &r, "01ARZ", "org_demo", "volume-ro");
    let b = encrypt_cid_attested_with_nonce(&k_m_b, &n, &r, "01ARZ", "org_demo", "volume-ro");
    assert_eq!(a, b, "caller-supplied nonce pins the sealed bytes");
    assert_eq!(&a[..AEAD_NONCE_LEN], &n);
    let pt = decrypt_cid_attested(&k_m_b, &a).expect("decrypt");
    assert_eq!(pt.r, r);
    assert_eq!(pt.mode, "volume-ro");
}

#[test]
fn attested_cid_mode_length_prevents_boundary_collision() {
    // (org="cd", mode="ef") vs (org="cdef", mode="") must not collide —
    // the mode's length prefix is what separates them.
    let r = [7u8; 32];
    let a = attested_cid_plaintext(&r, "01ARZ", "cd", "ef");
    let b = attested_cid_plaintext(&r, "01ARZ", "cdef", "");
    assert_ne!(a, b);
}

#[test]
fn decrypt_rejects_sealed_bytes_shorter_than_a_nonce() {
    let k = [3u8; 32];
    assert_eq!(
        decrypt_cid(&k, &[0u8; AEAD_NONCE_LEN - 1]),
        Err(TpcError::Aead)
    );
    assert_eq!(decrypt_vid(&k, b""), Err(TpcError::Aead));
}

#[test]
fn attested_cid_decrypt_fails_under_wrong_k_m_b() {
    let k_m_b = [2u8; 32];
    let r = [7u8; 32];
    let cid = encrypt_cid_attested(&k_m_b, &r, "01ARZ", "org_demo", "volume-rw");
    let mut wrong = k_m_b;
    wrong[0] ^= 0x40;
    assert_eq!(decrypt_cid_attested(&wrong, &cid), Err(TpcError::Aead));
}

#[test]
fn auth_cid_does_not_parse_as_an_attested_cid() {
    // Layout separation: an auth CID (no trailing mode field) decrypted
    // with the attested parser under the same key is truncated — there
    // is no length-prefixed mode to read. The two CID layouts do not
    // alias.
    let key = [3u8; 32];
    let r = [7u8; 32];
    let auth = encrypt_cid(&key, &r, "01ARZ", "org_demo");
    assert_eq!(decrypt_cid_attested(&key, &auth), Err(TpcError::Truncated));
}

#[test]
fn attested_cid_does_not_parse_as_an_auth_cid() {
    // The reverse: an attested CID carries a trailing mode field the
    // auth parser reads as trailing bytes, never silently dropped.
    let key = [3u8; 32];
    let r = [7u8; 32];
    let attested = encrypt_cid_attested(&key, &r, "01ARZ", "org_demo", "volume-rw");
    assert_eq!(decrypt_cid(&key, &attested), Err(TpcError::Trailing));
}

#[test]
fn attested_cid_and_vid_agree_on_r() {
    let k_m_b = [2u8; 32];
    let r = fresh_r();
    let tail = [11u8; 32];
    let vid = encrypt_vid(&tail, &r);
    let cid = encrypt_cid_attested(&k_m_b, &r, "01ARZ", "org_demo", "volume-ro");
    let via_vid = decrypt_vid(&tail, &vid).expect("vid");
    let via_cid = decrypt_cid_attested(&k_m_b, &cid).expect("cid").r;
    assert_eq!(via_vid, via_cid);
}

#[test]
fn cid_and_vid_agree_on_r() {
    // The whole point of the dual-path construction: mint can
    // recover `r` either by walking the chain (VID) or by
    // decrypting CID under K_M-A — both yield the same key.
    let k_m_a = [3u8; 32];
    let r = fresh_r();
    let tail = [11u8; 32];
    let vid = encrypt_vid(&tail, &r);
    let cid = encrypt_cid(&k_m_a, &r, "01ARZ", "org_demo");
    let via_vid = decrypt_vid(&tail, &vid).expect("vid");
    let via_cid = decrypt_cid(&k_m_a, &cid).expect("cid").r;
    assert_eq!(via_vid, via_cid);
}

#[test]
fn cid_is_injective_in_its_fields() {
    let k = [3u8; 32];
    let n = [1u8; AEAD_NONCE_LEN];
    let r = [7u8; 32];
    let fields = ["", "a", "ab", "é", "{{x}}"];
    let mut seen: Vec<Vec<u8>> = Vec::new();
    for c in fields {
        for o in fields {
            for m in fields {
                let cid = encrypt_cid_attested_with_nonce(&k, &n, &r, c, o, m);
                assert!(!seen.contains(&cid));
                seen.push(cid);
            }
        }
    }
}

#[test]
fn any_tamper_of_a_vid_fails() {
    let t = [4u8; 32];
    let vid = encrypt_vid(&t, &[5u8; 32]);
    for i in 0..vid.len() {
        let mut bad = vid.clone();
        bad[i] ^= 0x10;
        assert_eq!(decrypt_vid(&t, &bad), Err(TpcError::Aead));
    }
}

#[test]
fn a_sealed_value_of_another_length_is_no_key() {
    // A cid opened as a vid has more than the key's bytes.
    let k = [3u8; 32];
    let cid = encrypt_cid(&k, &[7u8; 32], "a", "b");
    assert_eq!(decrypt_vid(&k, &cid), Err(TpcError::Truncated));
    // A vid opened as a cid ends before its first length.
    let vid = encrypt_vid(&k, &[7u8; 32]);
    assert_eq!(decrypt_cid(&k, &vid), Err(TpcError::Truncated));
}

#[test]
fn tickets_tell_cids_apart() {
    assert_eq!(ticket_id(b"x"), ticket_id(b"x"));
    assert_ne!(ticket_id(b"x"), ticket_id(b"y"));
    assert_eq!(ticket_id(b"x")[..], blake3::hash(b"x").as_bytes()[..16]);
}

#[test]
fn only_a_path_below_the_root_is_usable() {
    assert_eq!(usable_path(None), None);
    assert_eq!(usable_path(Some("".into())), None);
    assert_eq!(usable_path(Some("/".into())), None);
    assert_eq!(usable_path(Some("/v1".into())), Some("/v1".into()));
}

#[test]
fn short_fields_are_sealable() {
    assert!(is_sealable("client", "org", "mode"));
}

#[test]
fn tpc_errors_have_their_messages() {
    assert_eq!(TpcError::Aead.message(), "AEAD authentication failed");
    assert_eq!(TpcError::Truncated.message(), "plaintext truncated");
    assert_eq!(TpcError::Overrun.message(), "length-prefix overrun");
    assert_eq!(TpcError::BadUtf8.message(), "non-utf-8 field");
    assert_eq!(TpcError::Trailing.message(), "trailing bytes");
}
