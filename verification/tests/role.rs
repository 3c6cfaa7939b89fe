//! Role authorization against the served surface.

use mint::caveat::{name, Caveat};
use mint::config::{
    bind_text, policy_file_name, Config, ConfigError, EnvValue, PolicyRead, RawAttestation,
    RawAuth, RawConfig, RawDemoAttestation, RawDemoAuth, RawRole, RawRoleAttestation, RawTemplate,
    Store, TcpAddr,
};
use mint::map::NameMap;
use mint::keyring::Keyring;
use mint::role::{authorize, Denied, Granted};
use mint::sealed_cache::ServedSurface;

fn text(t: &toml::Table, key: &str) -> Option<String> {
    t.get(key).and_then(|v| v.as_str()).map(str::to_string)
}

fn number(t: &toml::Table, key: &str) -> u64 {
    u64::try_from(t[key].as_integer().unwrap()).unwrap()
}

fn list(t: &toml::Table, key: &str) -> Vec<String> {
    match t.get(key).and_then(|v| v.as_array()) {
        Some(a) => a.iter().map(|v| v.as_str().unwrap().to_string()).collect(),
        None => Vec::new(),
    }
}

fn table<'a>(t: &'a toml::Table, key: &str) -> Option<&'a toml::Table> {
    t.get(key).and_then(|v| v.as_table())
}

fn enabled(t: &toml::Table) -> bool {
    t.get("enabled").and_then(|v| v.as_bool()).unwrap_or(false)
}

fn env_value(v: &toml::Value) -> EnvValue {
    match v {
        toml::Value::String(s) => EnvValue::Text(s.clone()),
        toml::Value::Integer(i) => EnvValue::Integer(*i),
        toml::Value::Float(f) => EnvValue::Float(f.to_string()),
        toml::Value::Boolean(b) => EnvValue::Boolean(*b),
        _ => EnvValue::NonScalar,
    }
}

fn raw_role(r: &toml::Table) -> RawRole {
    let template = table(r, "template");
    RawRole {
        name: text(r, "name").unwrap(),
        min_ttl_seconds: number(r, "min_ttl_seconds"),
        max_ttl_seconds: number(r, "max_ttl_seconds"),
        default_ttl_seconds: number(r, "default_ttl_seconds"),
        policy_file: text(r, "policy_file"),
        template: RawTemplate {
            attested: template.map(|t| list(t, "attested")).unwrap_or_default(),
            caveat: template.map(|t| list(t, "caveat")).unwrap_or_default(),
        },
        attestation: table(r, "attestation").map(|a| RawRoleAttestation {
            mode: text(a, "mode"),
        }),
    }
}

/// The raw form of a configuration text.
fn raw(source: &str) -> RawConfig {
    let t: toml::Table = toml::from_str(source).unwrap();
    let store = table(&t, "store").unwrap();
    let mut env = NameMap::new();
    if let Some(e) = table(&t, "env") {
        for (k, v) in e {
            env.insert(k.clone(), env_value(v));
        }
    }
    RawConfig {
        audience: text(&t, "audience").unwrap(),
        data_dir: text(&t, "data_dir"),
        roles_dir: text(&t, "roles_dir"),
        bind: text(&t, "bind"),
        socket: text(&t, "socket"),
        store: Store {
            bucket: text(store, "bucket").unwrap(),
            endpoint: text(store, "endpoint"),
            region: text(store, "region"),
        },
        env,
        auth: table(&t, "auth").map(|a| RawAuth {
            location: text(a, "location"),
            demo: table(a, "demo").map(|d| RawDemoAuth {
                enabled: enabled(d),
                socket: text(d, "socket"),
            }),
        }),
        attestation: table(&t, "attestation").map(|a| RawAttestation {
            location: text(a, "location"),
            demo: table(a, "demo").map(|d| RawDemoAttestation {
                enabled: enabled(d),
                socket: text(d, "socket"),
            }),
        }),
        roles: match t.get("role").and_then(|v| v.as_array()) {
            Some(a) => a.iter().map(|r| raw_role(r.as_table().unwrap())).collect(),
            None => Vec::new(),
        },
    }
}

/// A socket address as plain values.
fn addr(s: &str) -> Result<TcpAddr, String> {
    let invalid = || "invalid socket address syntax".to_string();
    let (host, port) = s.rsplit_once(':').ok_or_else(invalid)?;
    Ok(TcpAddr {
        text: s.to_string(),
        ipv4: !host.starts_with('['),
        unspecified: host == "0.0.0.0" || host == "[::]",
        port: port.parse().map_err(|_| invalid())?,
    })
}

/// The configuration of a text, with the policy files that its directory
/// holds.
fn parse_for_test(source: &str, files: &[(&str, &str)]) -> Result<Config, ConfigError> {
    let raw = raw(source);
    let reads: Vec<PolicyRead> = raw
        .roles
        .iter()
        .map(|r| {
            let wanted = policy_file_name(r).unwrap_or_default();
            match files.iter().find(|(n, _)| *n == wanted) {
                Some((_, body)) => PolicyRead::Text(body.to_string()),
                None => PolicyRead::Failed("No such file or directory".to_string()),
            }
        })
        .collect();
    let at = addr(&bind_text(&raw.bind));
    Config::from_raw(&raw, &reads, at, None)
}

fn surface_with(ttl: u64) -> ServedSurface {
    let cfg = parse_for_test(
        &format!(
            r#"
audience = "mint"
[store]
bucket = "b"
[[role]]
name = "volume-ro"
min_ttl_seconds = 1
max_ttl_seconds = {ttl}
default_ttl_seconds = {ttl}
policy_file = "volume-ro.json"
"#
        ),
        &[("volume-ro.json", "{}")],
    )
    .ok()
    .expect("cfg");
    ServedSurface::from_config(&cfg, &Keyring::single([7u8; 32]), "t")
}

/// The sealed surface that a request is evaluated against.
fn surface() -> ServedSurface {
    surface_with(1000)
}

fn good_caveats(exp: u64) -> Vec<Caveat> {
    // `aud` and `role` stay at indices 0 and 1 — some tests mutate
    // them positionally.
    vec![
        Caveat::scalar(name::AUD, "mint"),
        Caveat::scalar(name::ROLE, "volume-ro"),
        Caveat::scalar("elide:Volume", "01ARZ"),
        Caveat::scalar(name::EXP, &exp.to_string()),
        Caveat::scalar(name::SUB, "alice"),
    ]
}

#[test]
fn clamps_to_role_ttl() {
    // exp far in the future, so the role's sealed ttl_seconds is the
    // tighter bound.
    let g = authorize(&surface(), &good_caveats(1_000_000), "volume-ro", 1000).unwrap();
    assert_eq!(g.ttl_seconds, 1000); // role ttl_seconds
}

#[test]
fn ttl_capped_by_exp() {
    let g = authorize(&surface(), &good_caveats(1300), "volume-ro", 1000).unwrap();
    assert_eq!(g.ttl_seconds, 300); // exp - now
}

#[test]
fn wrong_audience_denied() {
    let mut cv = good_caveats(1_000_000);
    cv[0] = Caveat::scalar(name::AUD, "other");
    assert_eq!(
        authorize(&surface(), &cv, "volume-ro", 1000),
        Err(Denied::WrongAudience)
    );
}

#[test]
fn missing_required_caveat_denied() {
    // `sub` is universally required (presence-only); a credential
    // lacking it is denied before any role-specific check.
    let cv = vec![
        Caveat::scalar(name::AUD, "mint"),
        Caveat::scalar(name::ROLE, "volume-ro"),
        Caveat::scalar("elide:Volume", "01ARZ"),
        Caveat::scalar(name::EXP, "1000000"),
    ];
    assert_eq!(
        authorize(&surface(), &cv, "volume-ro", 1000),
        Err(Denied::MissingRequiredCaveat("sub".into()))
    );
}

#[test]
fn expired_macaroon_denied() {
    assert_eq!(
        authorize(&surface(), &good_caveats(500), "volume-ro", 1000),
        Err(Denied::Expired)
    );
}

#[test]
fn unknown_role_denied() {
    assert_eq!(
        authorize(&surface(), &good_caveats(1_000_000), "nope", 1000),
        Err(Denied::UnknownRole)
    );
}

#[test]
fn role_caveat_must_equal_requested() {
    // Credential carries role=volume-ro; caller asserts a different
    // role (wrong per-role credential loaded) → fail closed.
    let cv = good_caveats(1_000_000);
    assert_eq!(
        authorize(&surface(), &cv, "coord-names", 1000),
        Err(Denied::UnknownRole),
        "coord-names isn't configured here, so UnknownRole comes first"
    );
    // With the role configured, the role-caveat mismatch is what
    // denies. Re-point the caveat, keep the request at volume-ro.
    let mut cv = good_caveats(1_000_000);
    cv[1] = Caveat::scalar(name::ROLE, "coord-names");
    assert_eq!(
        authorize(&surface(), &cv, "volume-ro", 1000),
        Err(Denied::RoleNotPermitted)
    );
}

#[test]
fn absent_role_caveat_denied_no_omnibus() {
    let cv = vec![
        Caveat::scalar(name::SUB, "alice"),
        Caveat::scalar(name::AUD, "mint"),
        Caveat::scalar("elide:Volume", "01ARZ"),
        Caveat::scalar(name::EXP, "1000000"),
    ];
    assert_eq!(
        authorize(&surface(), &cv, "volume-ro", 1000),
        Err(Denied::RoleNotPermitted),
        "a credential with no role caveat is not an omnibus pass"
    );
}

/// Expired at or past the deadline; else exactly the tighter bound.
#[test]
fn ttl_outcome_dichotomy() {
    for ttl in [1u64, 10, 1000, 1999] {
        for exp in [0u64, 999, 1000, 1001, 1010, 5000] {
            let result = authorize(&surface_with(ttl), &good_caveats(exp), "volume-ro", 1000);
            if exp <= 1000 {
                assert_eq!(result, Err(Denied::Expired));
            } else {
                assert_eq!(
                    result,
                    Ok(Granted {
                        role_name: "volume-ro".to_string(),
                        ttl_seconds: ttl.min(exp - 1000)
                    })
                );
            }
        }
    }
}

#[test]
fn granted_monotonic_in_role_ttl() {
    let cv = good_caveats(1500);
    let mut last = 0;
    for ttl in [1u64, 2, 100, 499, 500, 501, 2000] {
        let g = authorize(&surface_with(ttl), &cv, "volume-ro", 1000).unwrap();
        assert!(g.ttl_seconds >= last);
        assert!(g.ttl_seconds <= ttl && g.ttl_seconds <= 500 && g.ttl_seconds >= 1);
        last = g.ttl_seconds;
    }
}

#[test]
fn contradictory_required_caveat_denied() {
    let mut cv = good_caveats(1_000_000);
    cv.push(Caveat::scalar(name::SUB, "mallory"));
    assert_eq!(
        authorize(&surface(), &cv, "volume-ro", 1000),
        Err(Denied::UnsatisfiableCaveat("sub".into()))
    );
}

/// A holder's own deadline tightens the grant, and never widens it.
#[test]
fn attenuated_deadline_tightens() {
    let mut cv = good_caveats(1300);
    cv.push(Caveat::scalar(name::EXP, "1200"));
    let g = authorize(&surface(), &cv, "volume-ro", 1000).unwrap();
    assert_eq!(g.ttl_seconds, 200);
    cv.push(Caveat::scalar(name::EXP, "9000"));
    let g = authorize(&surface(), &cv, "volume-ro", 1000).unwrap();
    assert_eq!(g.ttl_seconds, 200);
}

#[test]
fn several_deadlines_narrow_to_the_minimum() {
    for (first, second) in [("5000", "1300"), ("1300", "5000")] {
        let cv = vec![
            Caveat::scalar(name::AUD, "mint"),
            Caveat::scalar(name::ROLE, "volume-ro"),
            Caveat::scalar(name::EXP, first),
            Caveat::scalar(name::EXP, second),
            Caveat::scalar(name::SUB, "alice"),
        ];
        let g = authorize(&surface(), &cv, "volume-ro", 1000).unwrap();
        assert_eq!(g.role_name, "volume-ro");
        assert_eq!(g.ttl_seconds, 300);
    }
    let mut cv = good_caveats(1_000_000);
    cv.push(Caveat::scalar(name::EXP, "1000"));
    assert_eq!(
        authorize(&surface(), &cv, "volume-ro", 1000),
        Err(Denied::Expired)
    );
}

#[test]
fn a_deadline_has_to_be_there_and_readable() {
    let mut cv = good_caveats(1_000_000);
    cv.remove(3);
    assert_eq!(
        authorize(&surface(), &cv, "volume-ro", 1000),
        Err(Denied::MissingRequiredCaveat("exp".into()))
    );
    cv.push(Caveat::scalar(name::EXP, "soon"));
    assert_eq!(
        authorize(&surface(), &cv, "volume-ro", 1000),
        Err(Denied::Expired)
    );
    cv.push(Caveat::scalar(name::EXP, "1001"));
    assert_eq!(authorize(&surface(), &cv, "volume-ro", 1000).unwrap().ttl_seconds, 1);
}

/// At a later time nothing widens: the grant shrinks to what is left, and
/// then there is none.
#[test]
fn a_later_clock_never_widens() {
    let cv = good_caveats(1300);
    let mut held = good_caveats(1300);
    held.push(Caveat::scalar(name::EXP, "1250"));
    let first = authorize(&surface(), &cv, "volume-ro", 1000).unwrap().ttl_seconds;
    let later = authorize(&surface(), &held, "volume-ro", 1100).unwrap().ttl_seconds;
    assert_eq!(later, 150);
    assert!(later <= first);
    assert_eq!(
        authorize(&surface(), &held, "volume-ro", 1250),
        Err(Denied::Expired)
    );
}
