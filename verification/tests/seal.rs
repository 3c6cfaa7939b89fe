//! Template seals and their local cache.

use mint::config::{
    bind_text, policy_file_name, Config, ConfigError, EnvValue, PolicyRead, RawAttestation,
    RawAuth, RawConfig, RawDemoAttestation, RawDemoAuth, RawRole, RawRoleAttestation, RawTemplate,
    Store, TcpAddr,
};
use mint::map::NameMap;
use mint::inventory::{role_heading, role_inspect, role_list};
use mint::keyring::Keyring;
use mint::seal::{
    canonical_env_text, hash_hex, resolve_startup, Seal, SealError, SealedRole, StartupNote,
};
use mint::sealed_cache::{
    load, plan_write, serving_from_config, stale_policies, BytesRead, CachePlan, CacheState,
    SealRead, SealState, ServedSurface, TemplateSet,
};

fn text(t: &toml::Table, key: &str) -> Option<String> {
    t.get(key).and_then(|v| v.as_str()).map(str::to_string)
}

fn number(t: &toml::Table, key: &str) -> u64 {
    u64::try_from(t[key].as_integer().unwrap()).unwrap()
}

fn list(t: &toml::Table, key: &str) -> Vec<String> {
    match t.get(key).and_then(|v| v.as_array()) {
        Some(a) => a.iter().map(|v| v.as_str().unwrap().to_string()).collect(),
        None => Vec::new(),
    }
}

fn table<'a>(t: &'a toml::Table, key: &str) -> Option<&'a toml::Table> {
    t.get(key).and_then(|v| v.as_table())
}

fn enabled(t: &toml::Table) -> bool {
    t.get("enabled").and_then(|v| v.as_bool()).unwrap_or(false)
}

fn env_value(v: &toml::Value) -> EnvValue {
    match v {
        toml::Value::String(s) => EnvValue::Text(s.clone()),
        toml::Value::Integer(i) => EnvValue::Integer(*i),
        toml::Value::Float(f) => EnvValue::Float(f.to_string()),
        toml::Value::Boolean(b) => EnvValue::Boolean(*b),
        _ => EnvValue::NonScalar,
    }
}

fn raw_role(r: &toml::Table) -> RawRole {
    let template = table(r, "template");
    RawRole {
        name: text(r, "name").unwrap(),
        min_ttl_seconds: number(r, "min_ttl_seconds"),
        max_ttl_seconds: number(r, "max_ttl_seconds"),
        default_ttl_seconds: number(r, "default_ttl_seconds"),
        policy_file: text(r, "policy_file"),
        template: RawTemplate {
            attested: template.map(|t| list(t, "attested")).unwrap_or_default(),
            caveat: template.map(|t| list(t, "caveat")).unwrap_or_default(),
        },
        attestation: table(r, "attestation").map(|a| RawRoleAttestation {
            mode: text(a, "mode"),
        }),
    }
}

/// The raw form of a configuration text.
fn raw(source: &str) -> RawConfig {
    let t: toml::Table = toml::from_str(source).unwrap();
    let store = table(&t, "store").unwrap();
    let mut env = NameMap::new();
    if let Some(e) = table(&t, "env") {
        for (k, v) in e {
            env.insert(k.clone(), env_value(v));
        }
    }
    RawConfig {
        audience: text(&t, "audience").unwrap(),
        data_dir: text(&t, "data_dir"),
        roles_dir: text(&t, "roles_dir"),
        bind: text(&t, "bind"),
        socket: text(&t, "socket"),
        store: Store {
            bucket: text(store, "bucket").unwrap(),
            endpoint: text(store, "endpoint"),
            region: text(store, "region"),
        },
        env,
        auth: table(&t, "auth").map(|a| RawAuth {
            location: text(a, "location"),
            demo: table(a, "demo").map(|d| RawDemoAuth {
                enabled: enabled(d),
                socket: text(d, "socket"),
            }),
        }),
        attestation: table(&t, "attestation").map(|a| RawAttestation {
            location: text(a, "location"),
            demo: table(a, "demo").map(|d| RawDemoAttestation {
                enabled: enabled(d),
                socket: text(d, "socket"),
            }),
        }),
        roles: match t.get("role").and_then(|v| v.as_array()) {
            Some(a) => a.iter().map(|r| raw_role(r.as_table().unwrap())).collect(),
            None => Vec::new(),
        },
    }
}

/// A socket address as plain values.
fn addr(s: &str) -> Result<TcpAddr, String> {
    let invalid = || "invalid socket address syntax".to_string();
    let (host, port) = s.rsplit_once(':').ok_or_else(invalid)?;
    Ok(TcpAddr {
        text: s.to_string(),
        ipv4: !host.starts_with('['),
        unspecified: host == "0.0.0.0" || host == "[::]",
        port: port.parse().map_err(|_| invalid())?,
    })
}

/// The configuration of a text, with the policy files that its directory
/// holds.
fn parse_for_test(source: &str, files: &[(&str, &str)]) -> Result<Config, ConfigError> {
    let raw = raw(source);
    let reads: Vec<PolicyRead> = raw
        .roles
        .iter()
        .map(|r| {
            let wanted = policy_file_name(r).unwrap_or_default();
            match files.iter().find(|(n, _)| *n == wanted) {
                Some((_, body)) => PolicyRead::Text(body.to_string()),
                None => PolicyRead::Failed("No such file or directory".to_string()),
            }
        })
        .collect();
    let at = addr(&bind_text(&raw.bind));
    Config::from_raw(&raw, &reads, at, None)
}

/// What a cache plan leaves on disk.
struct Disk {
    seal: Option<Seal>,
    env: String,
    policies: Vec<(String, String)>,
}

impl Disk {
    fn new() -> Disk {
        Disk {
            seal: None,
            env: String::new(),
            policies: Vec::new(),
        }
    }

    fn write(&mut self, seal: &Seal, plan: &CachePlan) {
        let existing: Vec<String> = self.policies.iter().map(|(n, _)| n.clone()).collect();
        let stale = stale_policies(&existing, plan);
        for p in &plan.policies {
            self.policies.retain(|(n, _)| *n != p.name);
            self.policies.push((p.name.clone(), p.contents.clone()));
        }
        self.policies.retain(|(n, _)| !stale.contains(n));
        self.env = plan.env.clone();
        self.seal = Some(seal.copy());
    }

    fn load(&self) -> Result<CacheState, SealError> {
        let seal = match &self.seal {
            Some(s) => s,
            None => return load(SealRead::Absent, &[], &BytesRead::Missing),
        };
        let reads: Vec<BytesRead> = (0..seal.roles.len())
            .map(|i| {
                let hash = &seal.roles.value_at(i).policy_blake3;
                match self.policies.iter().find(|(n, _)| n == hash) {
                    Some((_, c)) => BytesRead::Bytes(c.as_bytes().to_vec()),
                    None => BytesRead::Missing,
                }
            })
            .collect();
        load(
            SealRead::Parsed(seal.copy()),
            &reads,
            &BytesRead::Bytes(self.env.as_bytes().to_vec()),
        )
    }
}

const SAMPLE_TOML: &str = r#"
audience = "mint"

[store]
bucket = "demo-bucket"

[[role]]
name = "volume-ro"
min_ttl_seconds = 60
max_ttl_seconds = 2592000
default_ttl_seconds = 2592000
policy_file = "volume-ro.json"
"#;

fn config() -> Config {
    parse_for_test(SAMPLE_TOML, &[("volume-ro.json", "{\"Statement\":[]}")])
        .ok()
        .expect("parse")
}

fn role_of(seal: &Seal, name: &str) -> SealedRole {
    seal.roles.get(name).unwrap().copy()
}

#[test]
fn dormant_until_sealed_then_adopts_then_serves_cache() {
    let cfg = config();
    let keyring = Keyring::single([9u8; 32]);
    let mut disk = Disk::new();

    // First start: no published seal.
    let first = resolve_startup(&cfg, &keyring, None, disk.load()).unwrap();
    assert!(matches!(first.state, SealState::Dormant));
    assert!(matches!(first.note, StartupNote::NoSeal));
    assert!(first.plan.is_none());

    // After a seal is published: adopt the templates on disk and cache.
    let seal = Seal::build_from_config(&cfg, &keyring, "2026-05-31T00:00:00Z");
    let adopted = resolve_startup(&cfg, &keyring, Some(seal.copy()), disk.load()).unwrap();
    match &adopted.state {
        SealState::Serving(surface) => {
            assert_eq!(surface.seal.roles.len(), cfg.roles.len());
            assert_eq!(surface.policy("volume-ro").unwrap(), "{\"Statement\":[]}");
        }
        SealState::Dormant => panic!("should adopt + serve once a seal exists"),
    }
    disk.write(&seal, &adopted.plan.expect("a cache to write"));

    // Restart: served from the cache, even when the local templates moved.
    let drifted = parse_for_test(SAMPLE_TOML, &[("volume-ro.json", "{\"Statement\":[1]}")])
        .ok()
        .expect("parse");
    let again = resolve_startup(&drifted, &keyring, Some(seal.copy()), disk.load()).unwrap();
    match &again.state {
        SealState::Serving(s) => assert_eq!(s.policy("volume-ro").unwrap(), "{\"Statement\":[]}"),
        SealState::Dormant => panic!("serves from the cache"),
    }
    assert!(matches!(again.note, StartupNote::Drifted(_)));
    assert!(again.plan.is_none());
}

#[test]
fn unverifiable_bucket_seal_runs_dormant() {
    let cfg = config();
    let keyring = Keyring::single([9u8; 32]);
    let foreign = Seal::build_from_config(&cfg, &Keyring::single([0xAB; 32]), "t");
    let r = resolve_startup(&cfg, &keyring, Some(foreign), Ok(CacheState::Absent)).unwrap();
    assert!(matches!(r.state, SealState::Dormant));
    assert!(matches!(
        r.note,
        StartupNote::Unverified(SealError::BadMac)
    ));
}

#[test]
fn build_and_verify_roundtrip() {
    let kr = Keyring::single([7u8; 32]);
    let seal = Seal::build_from_config(&config(), &kr, "2026-05-24T12:00:00Z");
    assert_eq!(seal.audience, "mint");
    assert_eq!(seal.kid, 0);
    assert_eq!(seal.mac.len(), 64);
    assert_eq!(seal.roles.len(), 1);
    let role = role_of(&seal, "volume-ro");
    assert_eq!(role.policy_blake3.len(), 64);
    seal.verify(&kr)
        .expect("MAC verifies under issuing keyring");
}

#[test]
fn verify_fails_under_different_key() {
    let kr_a = Keyring::single([7u8; 32]);
    let kr_b = Keyring::single([9u8; 32]);
    let seal = Seal::build_from_config(&config(), &kr_a, "t");
    assert!(matches!(seal.verify(&kr_b), Err(SealError::BadMac)));
}

#[test]
fn verify_fails_with_tampered_role() {
    let kr = Keyring::single([7u8; 32]);
    let mut seal = Seal::build_from_config(&config(), &kr, "t");
    let mut role = role_of(&seal, "volume-ro");
    role.max_ttl_seconds += 1;
    seal.roles.insert("volume-ro".into(), role);
    assert!(matches!(seal.verify(&kr), Err(SealError::BadMac)));
}

#[test]
fn verify_fails_with_unknown_kid() {
    let kr = Keyring::single([7u8; 32]);
    let mut seal = Seal::build_from_config(&config(), &kr, "t");
    seal.kid = 99;
    // MACed under the key that is still in the ring, so that the kid is
    // what fails.
    let mac = seal.compute_mac(kr.current_key());
    seal.mac = mac.iter().map(|b| format!("{b:02x}")).collect();
    assert!(matches!(seal.verify(&kr), Err(SealError::UnknownKid(99))));
}

#[test]
fn semantic_equality_ignores_sealed_at_kid_mac() {
    let kr = Keyring::single([7u8; 32]);
    let a = Seal::build_from_config(&config(), &kr, "2026-05-24T12:00:00Z");
    let b = Seal::build_from_config(&config(), &kr, "2026-05-24T13:00:00Z");
    assert_ne!(a.sealed_at, b.sealed_at);
    assert_ne!(a.mac, b.mac); // sealed_at is in the MAC body
    assert!(a.semantically_equal(&b));
}

#[test]
fn semantic_equality_diverges_on_intent() {
    let kr = Keyring::single([7u8; 32]);
    let a = Seal::build_from_config(&config(), &kr, "t1");
    let mut b = a.copy();
    let mut role = role_of(&b, "volume-ro");
    role.max_ttl_seconds += 1;
    b.roles.insert("volume-ro".into(), role);
    assert!(!a.semantically_equal(&b));
}

#[test]
fn diff_against_config_empty_when_match() {
    let kr = Keyring::single([7u8; 32]);
    let cfg = config();
    let seal = Seal::build_from_config(&cfg, &kr, "t");
    assert!(seal.diff_against_config(&cfg).is_empty());
}

#[test]
fn diff_reports_template_hash_mismatch() {
    let kr = Keyring::single([7u8; 32]);
    let seal = Seal::build_from_config(&config(), &kr, "t");
    let cfg2 = parse_for_test(
        SAMPLE_TOML,
        &[("volume-ro.json", "{\"Statement\":[\"DIFFERENT\"]}")],
    )
    .ok()
    .expect("parse");
    let diffs = seal.diff_against_config(&cfg2);
    assert_eq!(diffs.len(), 1);
    assert!(diffs[0].contains("policy_blake3"), "diff: {:?}", diffs);
}

const CONTRACT_TOML: &str = r#"
audience = "mint"
[store]
bucket = "demo-bucket"
[[role]]
name = "coord-rw"
min_ttl_seconds = 60
max_ttl_seconds = 3600
default_ttl_seconds = 3600
policy_file = "coord-rw.json"
[role.template]
caveat = ["sub"]
"#;

#[test]
fn req_caveat_contract_is_sealed_and_drift_is_diffed() {
    let kr = Keyring::single([7u8; 32]);
    let cfg = parse_for_test(
        CONTRACT_TOML,
        &[("coord-rw.json", r#"{"r":"c/{{caveat.sub}}/*"}"#)],
    )
    .ok()
    .expect("parse");
    let seal = Seal::build_from_config(&cfg, &kr, "t");
    assert_eq!(role_of(&seal, "coord-rw").caveat, vec!["sub".to_string()]);
    assert!(role_of(&seal, "coord-rw").attested.is_empty());
    assert!(seal.diff_against_config(&cfg).is_empty());

    let drifted = parse_for_test(
        &CONTRACT_TOML.replace("caveat = [\"sub\"]\n", ""),
        &[("coord-rw.json", r#"{"r":"c/{{caveat.sub}}/*"}"#)],
    )
    .ok()
    .expect("parse");
    let diffs = seal.diff_against_config(&drifted);
    assert_eq!(diffs.len(), 1, "diffs: {diffs:?}");
    assert!(diffs[0].contains("caveat contract"), "diff: {:?}", diffs);
}

#[test]
fn diff_reports_role_present_only_in_seal() {
    let kr = Keyring::single([7u8; 32]);
    let mut seal = Seal::build_from_config(&config(), &kr, "t");
    let role = role_of(&seal, "volume-ro");
    seal.roles.insert("ghost-role".into(), role);
    let diffs = seal.diff_against_config(&config());
    assert_eq!(diffs.len(), 1);
    assert!(diffs[0].contains("ghost-role"));
    assert!(diffs[0].contains("absent from local config"));
}

#[test]
fn diff_reports_role_present_only_locally() {
    let kr = Keyring::single([7u8; 32]);
    let mut seal = Seal::build_from_config(&config(), &kr, "t");
    seal.roles = NameMap::new();
    let diffs = seal.diff_against_config(&config());
    assert_eq!(diffs.len(), 1);
    assert!(diffs[0].contains("volume-ro"));
    assert!(diffs[0].contains("not in seal"));
}

#[test]
fn forged_bucket_put_cannot_be_verified() {
    let kr = Keyring::single([7u8; 32]);
    let forged = Seal {
        audience: "mint".into(),
        roles: NameMap::new(),
        env_blake3: "00".repeat(32),
        sealed_at: "t".into(),
        kid: 0,
        mac: "00".repeat(32),
    };
    assert!(matches!(forged.verify(&kr), Err(SealError::BadMac)));
}

const ROOT: [u8; 32] = [42u8; 32];

const TWO_ROLES: &str = r#"
audience = "mint"
[store]
bucket = "demo-bucket"
[env]
bucket = "demo-bucket"
[[role]]
name = "volume-ro"
min_ttl_seconds = 60
max_ttl_seconds = 3600
default_ttl_seconds = 3600
policy_file = "volume-ro.json"
[[role]]
name = "volume-rw"
min_ttl_seconds = 60
max_ttl_seconds = 3600
default_ttl_seconds = 3600
policy_file = "volume-rw.json"
"#;

/// Two roles whose policies differ.
fn two_roles() -> Config {
    parse_for_test(
        TWO_ROLES,
        &[
            ("volume-ro.json", r#"{"ro":"{{env.bucket}}"}"#),
            ("volume-rw.json", r#"{"rw":"{{env.bucket}}"}"#),
        ],
    )
    .ok()
    .expect("parse")
}

fn seal_and_templates(config: &Config) -> (Seal, TemplateSet) {
    let seal = Seal::build_from_config(config, &Keyring::single(ROOT), "2026-05-31T00:00:00Z");
    let mut policies = NameMap::new();
    for i in 0..config.roles.len() {
        policies.insert(
            config.roles.name_at(i).to_string(),
            config.roles.value_at(i).policy.clone(),
        );
    }
    (seal, TemplateSet::from_policies(policies))
}

fn written() -> (Disk, Seal) {
    let cfg = two_roles();
    let (seal, templates) = seal_and_templates(&cfg);
    let plan = plan_write(&seal, &templates, &cfg.env).expect("write");
    let mut disk = Disk::new();
    disk.write(&seal, &plan);
    (disk, seal)
}

#[test]
fn load_absent_when_no_cache() {
    assert!(matches!(Disk::new().load().unwrap(), CacheState::Absent));
}

#[test]
fn write_then_load_round_trips_every_policy() {
    let (disk, seal) = written();
    match disk.load().expect("load") {
        CacheState::Loaded {
            seal: got_seal,
            templates: got,
            env: got_env,
        } => {
            assert!(got_seal.semantically_equal(&seal));
            assert_eq!(got.get("volume-ro").unwrap(), r#"{"ro":"{{env.bucket}}"}"#);
            assert_eq!(got.get("volume-rw").unwrap(), r#"{"rw":"{{env.bucket}}"}"#);
            assert_eq!(got_env.text("bucket"), Some("demo-bucket"));
            assert_eq!(got.roles(), ["volume-ro", "volume-rw"]);
        }
        other => panic!("expected Loaded, got {other:?}"),
    }
}

#[test]
fn policies_are_content_addressed_and_pruned() {
    let (mut disk, seal) = written();
    assert_eq!(disk.policies.len(), 2);
    for i in 0..seal.roles.len() {
        let hash = &seal.roles.value_at(i).policy_blake3;
        let (_, contents) = disk.policies.iter().find(|(n, _)| n == hash).unwrap();
        assert_eq!(&hash_hex(contents.as_bytes()), hash);
    }
    disk.policies.push(("deadbeef".into(), "orphan".into()));
    let cfg = two_roles();
    let (seal, templates) = seal_and_templates(&cfg);
    let plan = plan_write(&seal, &templates, &cfg.env).expect("rewrite");
    disk.write(&seal, &plan);
    assert!(
        !disk.policies.iter().any(|(n, _)| n == "deadbeef"),
        "stale blob not pruned"
    );
    assert_eq!(disk.policies.len(), 2);
}

#[test]
fn tampered_policy_bytes_are_corrupt_not_loaded() {
    let (mut disk, seal) = written();
    let ro_hash = role_of(&seal, "volume-ro").policy_blake3;
    for p in &mut disk.policies {
        if p.0 == ro_hash {
            p.1 = "{\"ro\":\"tampered\"}".into();
        }
    }
    match disk.load().expect("load") {
        CacheState::Corrupt { reason } => assert!(reason.contains("do not match")),
        other => panic!("expected Corrupt, got {other:?}"),
    }
}

#[test]
fn missing_policy_file_is_corrupt() {
    let (mut disk, seal) = written();
    let ro_hash = role_of(&seal, "volume-ro").policy_blake3;
    disk.policies.retain(|(n, _)| *n != ro_hash);
    match disk.load().expect("load") {
        CacheState::Corrupt { reason } => assert!(reason.contains("missing")),
        other => panic!("expected Corrupt, got {other:?}"),
    }
}

#[test]
fn unparseable_seal_json_is_corrupt() {
    match load(
        SealRead::Unparseable("expected ident".into()),
        &[],
        &BytesRead::Missing,
    )
    .expect("load")
    {
        CacheState::Corrupt { reason } => assert!(reason.contains("unparseable")),
        other => panic!("expected Corrupt, got {other:?}"),
    }
}

#[test]
fn write_rejects_templates_that_disagree_with_seal() {
    let cfg = two_roles();
    let (seal, _) = seal_and_templates(&cfg);
    let mut policies = NameMap::new();
    policies.insert(
        "volume-ro".to_string(),
        "{\"ro\":\"different\"}".to_string(),
    );
    policies.insert(
        "volume-rw".to_string(),
        r#"{"rw":"{{env.bucket}}"}"#.to_string(),
    );
    let wrong = TemplateSet::from_policies(policies);
    assert!(matches!(
        plan_write(&seal, &wrong, &cfg.env),
        Err(SealError::Encode(_))
    ));
}

#[test]
fn tampered_env_bytes_are_corrupt() {
    let (mut disk, _) = written();
    disk.env = r#"{"bucket":"attacker"}"#.into();
    match disk.load().expect("load") {
        CacheState::Corrupt { reason } => assert!(reason.contains("env_blake3")),
        other => panic!("expected Corrupt, got {other:?}"),
    }
}

#[test]
fn a_failed_read_is_an_error_not_a_corrupt_cache() {
    let (disk, seal) = written();
    let reads = vec![
        BytesRead::Failed("denied".into()),
        BytesRead::Failed("denied".into()),
    ];
    assert!(matches!(
        load(
            SealRead::Parsed(seal),
            &reads,
            &BytesRead::Bytes(disk.env.as_bytes().to_vec())
        ),
        Err(SealError::Io(_))
    ));
}

#[test]
fn env_is_hashed_in_canonical_form() {
    let mut env = NameMap::new();
    env.insert("b".to_string(), "2".to_string());
    env.insert("a".to_string(), "1".to_string());
    assert_eq!(
        canonical_env_text(&env),
        "{\n  \"a\": \"1\",\n  \"b\": \"2\"\n}"
    );
    let seal = Seal::build_from_config(&two_roles(), &Keyring::single(ROOT), "t");
    assert_eq!(
        seal.env_blake3,
        hash_hex(b"{\n  \"bucket\": \"demo-bucket\"\n}")
    );
    assert!(seal.env_matches(&two_roles().env));
    assert!(!seal.env_matches(&env));
}

#[test]
fn hashes_are_blake3_in_hexadecimal() {
    assert_eq!(hash_hex(b"x"), blake3::hash(b"x").to_hex().to_string());
}

/// The MAC covers the seal's fields in their declared order.
#[test]
fn the_mac_is_keyed_over_the_body() {
    let kr = Keyring::single([7u8; 32]);
    let a = Seal::build_from_config(&config(), &kr, "t");
    let mut b = a.copy();
    b.audience = "other".into();
    assert_ne!(a.compute_mac(&[7u8; 32]), b.compute_mac(&[7u8; 32]));
    assert_ne!(a.compute_mac(&[7u8; 32]), a.compute_mac(&[8u8; 32]));
}

#[test]
fn a_surface_serves_what_its_config_holds() {
    let cfg = two_roles();
    let surface = ServedSurface::from_config(&cfg, &Keyring::single(ROOT), "t");
    assert_eq!(surface.audience(), "mint");
    assert_eq!(surface.policy("volume-rw"), Some(r#"{"rw":"{{env.bucket}}"}"#));
    assert!(surface.role("nope").is_none());
    assert_eq!(surface.env().text("bucket"), Some("demo-bucket"));
    assert!(matches!(serving_from_config(&cfg), SealState::Serving(_)));
}

fn served(cfg: &Config) -> CacheState {
    let (seal, templates) = seal_and_templates(cfg);
    CacheState::Loaded {
        seal,
        templates,
        env: cfg.env.copy(),
    }
}

#[test]
fn role_states_follow_the_served_seal() {
    let cfg = two_roles();
    let lines: Vec<String> = role_list(&cfg, &served(&cfg)).iter().map(|r| r.line()).collect();
    assert_eq!(
        role_heading(),
        "NAME                         MIN     DEF     MAX  STATE"
    );
    assert_eq!(
        lines[0],
        "volume-ro                     60    3600    3600  served"
    );
    let absent = role_list(&cfg, &CacheState::Absent);
    assert!(absent.iter().all(|r| r.state == "unsealed"));
    let drifted = parse_for_test(
        TWO_ROLES,
        &[
            ("volume-ro.json", r#"{"ro":"{{env.bucket}}"}"#),
            ("volume-rw.json", "{}"),
        ],
    )
    .ok()
    .unwrap();
    let rows = role_list(&drifted, &served(&cfg));
    assert_eq!(rows[0].state, "served");
    assert_eq!(rows[1].state, "drifted");
}

#[test]
fn inspection_shows_the_served_surface_and_the_drift() {
    let cfg = two_roles();
    let i = role_inspect(&cfg, "volume-rw", &served(&cfg)).unwrap();
    assert_eq!(i.notes[0], "role: volume-rw");
    assert_eq!(
        i.notes[3],
        "  surface:          served (sealed at 2026-05-31T00:00:00Z)"
    );
    assert!(i.notes.contains(&"    env (config): env.bucket".to_string()));
    assert_eq!(i.notes.last().unwrap(), "  policy template (served):");
    assert_eq!(i.template, r#"{"rw":"{{env.bucket}}"}"#);

    let drifted = parse_for_test(
        &TWO_ROLES.replace("audience = \"mint\"", "audience = \"other\""),
        &[("volume-ro.json", "{}"), ("volume-rw.json", "{}")],
    )
    .ok()
    .unwrap();
    let i = role_inspect(&drifted, "volume-rw", &served(&cfg)).unwrap();
    assert!(i
        .notes
        .contains(&"  audience:         mint (local=other)".to_string()));
    assert!(i
        .notes
        .contains(&"  \u{26a0} local roles_dir/ has drifted from the seal:".to_string()));
    assert_eq!(i.template, r#"{"rw":"{{env.bucket}}"}"#);

    let unsealed = role_inspect(&cfg, "volume-ro", &CacheState::Absent).unwrap();
    assert!(unsealed.notes[3].contains("NOT SEALED"));
    let corrupt = role_inspect(
        &cfg,
        "volume-ro",
        &CacheState::Corrupt {
            reason: "bad".into(),
        },
    )
    .unwrap();
    assert!(corrupt.notes[3].ends_with("will not be served: bad"));
    assert_eq!(
        role_inspect(&cfg, "nope", &CacheState::Absent).unwrap_err(),
        "no role nope in config (see `mint role list`)"
    );
}

#[test]
fn seal_errors_have_their_messages() {
    assert!(SealError::UnknownKid(7).message().contains('7'));
    assert!(!SealError::BadMac.message().is_empty());
}

#[test]
fn a_seal_answers_to_one_mac() {
    let kr = Keyring::single([7u8; 32]);
    let good = Seal::build_from_config(&config(), &kr, "t");
    for mac in ["", "zz", &"0".repeat(64), &good.mac[..62], &format!("{}00", good.mac)] {
        let mut seal = good.copy();
        seal.mac = mac.to_string();
        assert!(matches!(seal.verify(&kr), Err(SealError::BadMac)), "{mac}");
    }
    let mut seal = good.copy();
    seal.audience.push('x');
    assert!(matches!(seal.verify(&kr), Err(SealError::BadMac)));
    let mut seal = good.copy();
    seal.env_blake3 = "0".repeat(64);
    assert!(matches!(seal.verify(&kr), Err(SealError::BadMac)));
    let mut seal = good.copy();
    seal.sealed_at.push('x');
    assert!(matches!(seal.verify(&kr), Err(SealError::BadMac)));
    assert!(good.verify(&kr).is_ok());
}

/// Each field that a seal holds is in what its MAC is over.
#[test]
fn every_sealed_field_is_pinned() {
    let kr = Keyring::single([7u8; 32]);
    let good = Seal::build_from_config(&config(), &kr, "t");
    let key = [7u8; 32];
    let with_role = |change: fn(&mut SealedRole)| {
        let mut seal = good.copy();
        let mut role = role_of(&seal, "volume-ro");
        change(&mut role);
        seal.roles.insert("volume-ro".into(), role);
        seal.compute_mac(&key)
    };
    let mut macs = vec![
        good.compute_mac(&key),
        with_role(|r| r.default_ttl_seconds += 1),
        with_role(|r| r.max_ttl_seconds += 1),
        with_role(|r| r.min_ttl_seconds += 1),
        with_role(|r| r.policy_blake3.push('0')),
        with_role(|r| r.caveat.push("x".into())),
        with_role(|r| r.attested.push("x".into())),
    ];
    let mut seal = good.copy();
    seal.kid += 1;
    macs.push(seal.compute_mac(&key));
    let mut seal = good.copy();
    seal.audience.push('x');
    macs.push(seal.compute_mac(&key));
    let mut seal = good.copy();
    seal.env_blake3.push('0');
    macs.push(seal.compute_mac(&key));
    let mut seal = good.copy();
    seal.sealed_at.push('x');
    macs.push(seal.compute_mac(&key));
    for i in 0..macs.len() {
        for j in 0..i {
            assert_ne!(macs[i], macs[j], "{i} and {j}");
        }
    }
    // The MAC itself is not under the MAC.
    let mut seal = good.copy();
    seal.mac = String::new();
    assert_eq!(seal.compute_mac(&key), macs[0]);
}
