//! The token chain and its wire form.

use mint::caveat::Caveat;
use mint::json::{parse_json, read_str_field, Json};
use mint::keyring::Keyring;
use mint::macaroon::{
    mint as mint_macaroon, mint_under_key, mint_under_key_with_nonce, KeyRef, Macaroon,
    MacaroonError, TOKEN_PREFIX,
};
use mint::map::NameMap;
use mint::text;
use mint::time::UtcTime;
use mint::tpc;

const KEY: [u8; 32] = [7u8; 32];

fn sample() -> Macaroon {
    mint_macaroon(
        &Keyring::single(KEY),
        vec![Caveat::scalar("aud", "mint"), Caveat::scalar("sub", "é\u{1f980}")],
    )
}

#[test]
fn minted_tokens_verify_under_their_key_only() {
    let m = sample();
    assert!(m.verify(&Keyring::single(KEY)));
    assert!(m.verify_under_key(&KEY));
    assert!(!m.verify(&Keyring::single([8u8; 32])));
    assert_eq!(m.key_ref(), KeyRef::Keyring(0));
}

#[test]
fn attenuation_needs_no_key_and_stays_authentic() {
    let m = sample().attenuate(Caveat::scalar("exp", "5"));
    assert!(m.verify_under_key(&KEY));
    assert_eq!(m.caveats().len(), 3);
    assert_ne!(m.tail(), sample().tail());
}

#[test]
fn a_retired_generation_no_longer_verifies() {
    let mut kr = Keyring::single(KEY);
    let m = mint_macaroon(&kr, vec![]);
    kr.add_and_promote(Some([9u8; 32]), None).unwrap();
    assert!(m.verify(&kr));
    let fresh = mint_macaroon(&kr, vec![]);
    assert_eq!(fresh.key_ref(), KeyRef::Keyring(1));
    kr.retire(0).unwrap();
    assert!(!m.verify(&kr));
    assert!(fresh.verify(&kr));
}

#[test]
fn tokens_read_back() {
    let r = [3u8; 32];
    let tail = *sample().tail();
    let m = sample()
        .attenuate(tpc::build_caveat(&tail, &r, "client", "org", "https://a/x"))
        .attenuate(Caveat::scalar("", ""));
    let token = m.encode();
    assert!(token.starts_with(TOKEN_PREFIX));
    let back = Macaroon::decode(&token).unwrap();
    assert_eq!(back.encode(), token);
    assert_eq!(back.caveats(), m.caveats());
    assert_eq!(back.tail(), m.tail());
    assert_eq!(back.nonce(), m.nonce());
    assert!(back.verify_under_key(&KEY));
    assert_eq!(back.clone().encode(), token);
}

#[test]
fn every_kind_of_key_reads_back() {
    for key_ref in [KeyRef::Session, KeyRef::Discharge, KeyRef::Keyring(65535)] {
        let m = mint_under_key(&KEY, key_ref, vec![Caveat::scalar("a", "b")]);
        assert_eq!(Macaroon::decode(&m.encode()).unwrap().key_ref(), key_ref);
    }
}

#[test]
fn tampered_tokens_fail() {
    let token = sample().encode();
    assert_eq!(Macaroon::decode("").err(), Some(MacaroonError::Malformed));
    assert_eq!(Macaroon::decode("mnt2_").err(), Some(MacaroonError::Malformed));
    assert_eq!(
        Macaroon::decode(&token[1..]).err(),
        Some(MacaroonError::Malformed)
    );
    assert!(Macaroon::decode(&token[..token.len() - 4]).is_err());
    // Another character somewhere in the token: it no longer decodes, or
    // no longer verifies.
    let chars: Vec<char> = token.chars().collect();
    for i in (TOKEN_PREFIX.len() + 8..chars.len() - 1).step_by(5) {
        let mut t = chars.clone();
        t[i] = if t[i] == 'A' { 'B' } else { 'A' };
        let s: String = t.into_iter().collect();
        match Macaroon::decode(&s) {
            Ok(m) => assert!(!m.verify(&Keyring::single(KEY)), "{i}"),
            Err(e) => assert_eq!(e, MacaroonError::Malformed),
        }
    }
}

#[test]
fn a_fixed_nonce_makes_a_token_deterministic() {
    let a = mint_under_key_with_nonce(&KEY, KeyRef::Discharge, [1u8; 16], vec![]);
    let b = mint_under_key_with_nonce(&KEY, KeyRef::Discharge, [1u8; 16], vec![]);
    assert_eq!(a.encode(), b.encode());
    assert_eq!(a.nonce_hex(), "01".repeat(16));
    assert_ne!(sample().nonce(), sample().nonce());
}

#[test]
fn the_sites_of_third_party_caveats_are_collected() {
    let r_key = [3u8; 32];
    let m = sample();
    let tail = *m.tail();
    let m = m.attenuate(tpc::build_caveat(&tail, &r_key, "c", "o", "https://a/x"));
    let sites = m.verify_collecting_tpcs(&KEY).unwrap();
    assert_eq!(sites.len(), 1);
    assert_eq!(sites[0].tag, tail);
    let via_vid = tpc::decrypt_vid(&sites[0].tag, &sites[0].vid).unwrap();
    assert_eq!(tpc::decrypt_cid(&r_key, &sites[0].cid).unwrap().r, via_vid);
    assert!(m.verify_collecting_tpcs(&[1u8; 32]).is_none());
}

#[test]
fn documents_are_parsed() {
    let doc = parse_json(br#"{"a":"x","n":3,"neg":-2,"f":1.5,"l":[null,true]}"#).unwrap();
    assert_eq!(doc.get("a").unwrap().as_str(), Some("x"));
    assert_eq!(doc.get("n").unwrap().as_u64(), Some(3));
    assert_eq!(doc.get("neg").unwrap().as_u64(), None);
    assert!(doc.get("zzz").is_none());
    assert!(matches!(doc.get("l"), Some(Json::Array(v)) if v.len() == 2));
    assert!(parse_json(b"{").is_none());
    assert_eq!(read_str_field(&Some(doc), "a").as_deref(), Some("x"));
    assert_eq!(read_str_field(&None, "a"), None);
}

#[test]
fn maps_are_ordered_by_name() {
    let mut m = NameMap::new();
    for (k, v) in [("b", 1), ("a", 2), ("c", 3)] {
        assert!(m.insert(k.to_string(), v).is_none());
    }
    assert_eq!(m.insert("b".to_string(), 9), Some(1));
    assert_eq!(m.len(), 3);
    let names: Vec<&str> = (0..3).map(|i| m.name_at(i)).collect();
    assert_eq!(names, ["a", "b", "c"]);
    assert_eq!(m.get("b"), Some(&9));
    assert!(!m.contains_key("d"));
}

#[test]
fn text_helpers_agree_with_std() {
    for s in ["", " a ", "\u{a0}x\u{2003}", "a b", "\n"] {
        assert_eq!(text::trim(s), s.trim());
        assert_eq!(text::split_words(s), s.split_whitespace().collect::<Vec<_>>());
    }
    for s in ["0", "+5", "18446744073709551615", "18446744073709551616", "-1", "", "+"] {
        assert_eq!(text::parse_u64(s), s.parse::<u64>().ok());
    }
    for s in ["0", "-5", "+5", "-9223372036854775808", "9223372036854775808", "-", "--1"] {
        assert_eq!(text::parse_i64(s), s.parse::<i64>().ok());
    }
    assert_eq!(text::print_u64(u64::MAX), u64::MAX.to_string());
    assert_eq!(text::pad_right("é", 3), format!("{:<3}", "é"));
    assert_eq!(text::pad_left("12", 5), format!("{:>5}", "12"));
    assert_eq!(text::strip_prefix("unix:x", "unix:").as_deref(), Some("x"));
    assert_eq!(text::encode_hex(&[0, 255, 16]), "00ff10");
}

#[test]
fn instants_move_forward() {
    let t = UtcTime {
        seconds: 10,
        nanos: 5,
    };
    assert!(t.is_valid());
    assert_eq!(
        t.plus(5),
        UtcTime {
            seconds: 15,
            nanos: 5
        }
    );
    assert_eq!(t.unix_seconds(), 10);
    let before = UtcTime {
        seconds: -3,
        nanos: 0,
    };
    assert_eq!(before.unix_seconds(), 0);
}
