//! Configuration loading and the seal-time surface check.

use mint::caveat::name;
use mint::config::{
    bind_text, default_mint_socket, is_single_filename, join_path, policy_file_name,
    AdminCredential, Config, ConfigError, EnvValue, Listener, PolicyRead, RawAttestation, RawAuth,
    RawConfig, RawDemoAttestation, RawDemoAuth, RawRole, RawRoleAttestation, RawTemplate, Store,
    TcpAddr,
};
use mint::map::NameMap;

/// The caveat names that no attested name may take.
const RESERVED: [&str; 9] = [
    name::AUD,
    name::EXP,
    name::SUB,
    name::CNF,
    name::OP,
    name::ROLE,
    name::EPOCH,
    name::INVITE,
    name::SCOPE,
];

fn text(t: &toml::Table, key: &str) -> Option<String> {
    t.get(key).and_then(|v| v.as_str()).map(str::to_string)
}

fn number(t: &toml::Table, key: &str) -> u64 {
    u64::try_from(t[key].as_integer().unwrap()).unwrap()
}

fn list(t: &toml::Table, key: &str) -> Vec<String> {
    match t.get(key).and_then(|v| v.as_array()) {
        Some(a) => a.iter().map(|v| v.as_str().unwrap().to_string()).collect(),
        None => Vec::new(),
    }
}

fn table<'a>(t: &'a toml::Table, key: &str) -> Option<&'a toml::Table> {
    t.get(key).and_then(|v| v.as_table())
}

fn enabled(t: &toml::Table) -> bool {
    t.get("enabled").and_then(|v| v.as_bool()).unwrap_or(false)
}

fn env_value(v: &toml::Value) -> EnvValue {
    match v {
        toml::Value::String(s) => EnvValue::Text(s.clone()),
        toml::Value::Integer(i) => EnvValue::Integer(*i),
        toml::Value::Float(f) => EnvValue::Float(f.to_string()),
        toml::Value::Boolean(b) => EnvValue::Boolean(*b),
        _ => EnvValue::NonScalar,
    }
}

fn raw_role(r: &toml::Table) -> RawRole {
    let template = table(r, "template");
    RawRole {
        name: text(r, "name").unwrap(),
        min_ttl_seconds: number(r, "min_ttl_seconds"),
        max_ttl_seconds: number(r, "max_ttl_seconds"),
        default_ttl_seconds: number(r, "default_ttl_seconds"),
        policy_file: text(r, "policy_file"),
        template: RawTemplate {
            attested: template.map(|t| list(t, "attested")).unwrap_or_default(),
            caveat: template.map(|t| list(t, "caveat")).unwrap_or_default(),
        },
        attestation: table(r, "attestation").map(|a| RawRoleAttestation {
            mode: text(a, "mode"),
        }),
    }
}

/// The raw form of a configuration text.
fn raw(source: &str) -> RawConfig {
    let t: toml::Table = toml::from_str(source).unwrap();
    let store = table(&t, "store").unwrap();
    let mut env = NameMap::new();
    if let Some(e) = table(&t, "env") {
        for (k, v) in e {
            env.insert(k.clone(), env_value(v));
        }
    }
    RawConfig {
        audience: text(&t, "audience").unwrap(),
        data_dir: text(&t, "data_dir"),
        roles_dir: text(&t, "roles_dir"),
        bind: text(&t, "bind"),
        socket: text(&t, "socket"),
        store: Store {
            bucket: text(store, "bucket").unwrap(),
            endpoint: text(store, "endpoint"),
            region: text(store, "region"),
        },
        env,
        auth: table(&t, "auth").map(|a| RawAuth {
            location: text(a, "location"),
            demo: table(a, "demo").map(|d| RawDemoAuth {
                enabled: enabled(d),
                socket: text(d, "socket"),
            }),
        }),
        attestation: table(&t, "attestation").map(|a| RawAttestation {
            location: text(a, "location"),
            demo: table(a, "demo").map(|d| RawDemoAttestation {
                enabled: enabled(d),
                socket: text(d, "socket"),
            }),
        }),
        roles: match t.get("role").and_then(|v| v.as_array()) {
            Some(a) => a.iter().map(|r| raw_role(r.as_table().unwrap())).collect(),
            None => Vec::new(),
        },
    }
}

/// A socket address as plain values.
fn addr(s: &str) -> Result<TcpAddr, String> {
    let invalid = || "invalid socket address syntax".to_string();
    let (host, port) = s.rsplit_once(':').ok_or_else(invalid)?;
    Ok(TcpAddr {
        text: s.to_string(),
        ipv4: !host.starts_with('['),
        unspecified: host == "0.0.0.0" || host == "[::]",
        port: port.parse().map_err(|_| invalid())?,
    })
}

/// The configuration of a text, with the policy files that its directory
/// holds.
fn parse_for_test(source: &str, files: &[(&str, &str)]) -> Result<Config, ConfigError> {
    let raw = raw(source);
    let reads: Vec<PolicyRead> = raw
        .roles
        .iter()
        .map(|r| {
            let wanted = policy_file_name(r).unwrap_or_default();
            match files.iter().find(|(n, _)| *n == wanted) {
                Some((_, body)) => PolicyRead::Text(body.to_string()),
                None => PolicyRead::Failed("No such file or directory".to_string()),
            }
        })
        .collect();
    let at = addr(&bind_text(&raw.bind));
    Config::from_raw(&raw, &reads, at, None)
}

const SAMPLE: &str = r#"
audience = "mint"

[store]
bucket = "demo-bucket"

[[role]]
name = "volume-ro"
min_ttl_seconds = 60
max_ttl_seconds = 2592000
default_ttl_seconds = 2592000
policy_file = "volume-ro.json"
"#;

#[test]
fn parses_sample() {
    let c = parse_for_test(SAMPLE, &[("volume-ro.json", "{}")]).expect("parse");
    assert_eq!(c.audience, "mint");
    assert_eq!(c.store.bucket, "demo-bucket");
    assert_eq!(c.roles.get("volume-ro").unwrap().policy, "{}");
}

const ATTESTATION_SAMPLE: &str = r#"
audience = "mint"
[store]
bucket = "demo-bucket"
[attestation]
location = "https://coord-b.example/v1/discharge"
[[role]]
name = "volume-rw"
min_ttl_seconds = 60
max_ttl_seconds = 100
default_ttl_seconds = 100
policy_file = "volume-rw.json"
[role.attestation]
[[role]]
name = "volume-ro"
min_ttl_seconds = 60
max_ttl_seconds = 100
default_ttl_seconds = 100
policy_file = "volume-ro.json"
[role.attestation]
mode = "custom-ancestor"
[[role]]
name = "coord-base"
min_ttl_seconds = 60
max_ttl_seconds = 100
default_ttl_seconds = 100
policy_file = "coord-base.json"
"#;

#[test]
fn attestation_mode_and_location_resolve_per_role() {
    let c = parse_for_test(
        ATTESTATION_SAMPLE,
        &[
            ("volume-rw.json", "{}"),
            ("volume-ro.json", "{}"),
            ("coord-base.json", "{}"),
        ],
    )
    .expect("parse");
    assert_eq!(
        c.attestation_location.as_deref(),
        Some("https://coord-b.example/v1/discharge")
    );
    // A bare [role.attestation] defaults the mode to the role name;
    // an explicit mode is carried verbatim; a role with no
    // [role.attestation] carries none.
    assert_eq!(
        c.roles.get("volume-rw").unwrap().attestation_mode.as_deref(),
        Some("volume-rw")
    );
    assert_eq!(
        c.roles.get("volume-ro").unwrap().attestation_mode.as_deref(),
        Some("custom-ancestor")
    );
    assert_eq!(c.roles.get("coord-base").unwrap().attestation_mode, None);
}

#[test]
fn attestation_role_without_location_is_rejected_at_load() {
    // A role asking for a discharge mint cannot stamp (no authority
    // location) would mint a dead credential; load fails closed.
    let toml = ATTESTATION_SAMPLE.replace(
        "[attestation]\nlocation = \"https://coord-b.example/v1/discharge\"\n",
        "",
    );
    assert!(matches!(
        parse_for_test(
            &toml,
            &[
                ("volume-rw.json", "{}"),
                ("volume-ro.json", "{}"),
                ("coord-base.json", "{}"),
            ]
        ),
        Err(ConfigError::AttestationWithoutLocation { role }) if role == "volume-rw"
    ));
}

/// `[env]` block — env-table parsing, the scalar guard (load-time),
/// and the env-key surface check (seal-authoring gate).
const ENV_SAMPLE: &str = r#"
audience = "mint"
[store]
bucket = "state-bucket"
[env]
bucket = "data-bucket"
[[role]]
name = "r"
min_ttl_seconds = 60
max_ttl_seconds = 100
default_ttl_seconds = 100
policy_file = "r.json"
"#;

#[test]
fn env_values_are_parsed_and_separate_from_store() {
    let c =
        parse_for_test(ENV_SAMPLE, &[("r.json", r#"{"b":"{{env.bucket}}"}"#)]).expect("parse");
    // The store bucket and the template-facing env bucket are
    // independent values, even when set to the same string elsewhere.
    assert_eq!(c.store.bucket, "state-bucket");
    assert_eq!(c.env.text("bucket"), Some("data-bucket"));
    // A template referencing a defined key satisfies the seal gate.
    assert!(c.validate_policy_surface().is_ok());
}

#[test]
fn undefined_env_key_passes_load_but_fails_seal_validation() {
    // Config load tolerates a template referencing an undefined env
    // key — serving renders the sealed surface, decoupled from the
    // live config, so this must not block startup. The surface check
    // that gates seal authoring is what rejects it.
    let cfg = parse_for_test(ENV_SAMPLE, &[("r.json", r#"{"r":"{{env.region}}"}"#)])
        .expect("load tolerates an undefined env-key reference");
    assert!(matches!(
        cfg.validate_policy_surface(),
        Err(ConfigError::UndefinedEnvKey { key, .. }) if key == "region"
    ));
}

#[test]
fn malformed_token_passes_load_but_fails_seal_validation() {
    // An engine-ism the renderer would fail closed on is caught at
    // seal authoring, not deferred to first render. Like the env-key
    // check, config load tolerates it (serving is decoupled).
    let cfg = parse_for_test(ENV_SAMPLE, &[("r.json", r#"{"r":"{{#each items}}"}"#)])
        .expect("load tolerates a malformed token");
    assert!(matches!(
        cfg.validate_policy_surface(),
        Err(ConfigError::MalformedPolicyToken { token, .. }) if token == "{{#each items}}"
    ));
}

#[test]
fn non_json_template_passes_load_but_fails_seal_validation() {
    // A token that escaped its string slot makes the template invalid
    // JSON; the seal gate rejects it before it can ever be rendered.
    let cfg = parse_for_test(ENV_SAMPLE, &[("r.json", r#"{"r":[{{attested.volume}}]}"#)])
        .expect("load tolerates a non-JSON template");
    assert!(matches!(
        cfg.validate_policy_surface(),
        Err(ConfigError::PolicyNotJson { role, .. }) if role == "r"
    ));
}

/// A single-role config whose `[role.template]` contract lines (and
/// policy template body) the test supplies, for the contract-surface
/// checks. An empty `contract` omits the subtable entirely.
fn contract_toml(contract: &str) -> String {
    let block = if contract.is_empty() {
        String::new()
    } else {
        format!("[role.template]\n{contract}\n")
    };
    format!(
        r#"
audience = "mint"
[store]
bucket = "state-bucket"
[env]
bucket = "data-bucket"
[[role]]
name = "r"
min_ttl_seconds = 60
max_ttl_seconds = 100
default_ttl_seconds = 100
policy_file = "r.json"
{block}"#
    )
}

#[test]
fn declared_contract_matching_template_passes_seal() {
    let cfg = parse_for_test(
        &contract_toml(
            r#"attested = ["volume"]
caveat = ["sub"]"#,
        ),
        &[("r.json", r#"{"r":"{{attested.volume}}/{{caveat.sub}}"}"#)],
    )
    .expect("parse");
    assert!(cfg.validate_policy_surface().is_ok());
    // The declaration is canonicalised (sorted+deduped) at load.
    assert_eq!(cfg.roles.get("r").unwrap().attested, vec!["volume".to_string()]);
    assert_eq!(cfg.roles.get("r").unwrap().caveat, vec!["sub".to_string()]);
}

#[test]
fn attested_token_typo_fails_seal_against_declaration() {
    // The declared name is `volume`; the template typos it as `volm`.
    // Caught at publish, not at the first request's render-time 500.
    let cfg = parse_for_test(
        &contract_toml(r#"attested = ["volume"]"#),
        &[("r.json", r#"{"r":"{{attested.volm}}"}"#)],
    )
    .expect("load tolerates a contract mismatch");
    assert!(matches!(
        cfg.validate_policy_surface(),
        Err(ConfigError::AttestedContractMismatch { declared, used, .. })
            if declared == ["volume"] && used == ["volm"]
    ));
}

#[test]
fn undeclared_attested_token_fails_seal() {
    // A template that substitutes an `attested` name the role never
    // declared is rejected — the declaration is the authoritative set.
    let cfg = parse_for_test(
        &contract_toml(""),
        &[("r.json", r#"{"r":"{{attested.volume}}"}"#)],
    )
    .expect("load tolerates a contract mismatch");
    assert!(matches!(
        cfg.validate_policy_surface(),
        Err(ConfigError::AttestedContractMismatch { declared, used, .. })
            if declared.is_empty() && used == ["volume"]
    ));
}

#[test]
fn reserved_attested_name_fails_seal() {
    // The fencing invariant: a declared attested name that collides
    // with a reserved control-caveat name is rejected at publish, so
    // `attested.X` can never shadow a primary's MAC-bound control
    // caveat. Every reserved name is rejected, not just `sub`.
    for reserved in RESERVED {
        let policy = format!(r#"{{"r":"{{{{attested.{reserved}}}}}"}}"#);
        let cfg = parse_for_test(
            &contract_toml(&format!(r#"attested = ["{reserved}"]"#)),
            &[("r.json", policy.as_str())],
        )
        .expect("load tolerates a contract that fails the surface check");
        assert!(
            matches!(
                cfg.validate_policy_surface(),
                Err(ConfigError::ReservedAttestedKey { key, .. }) if key == reserved
            ),
            "reserved name {reserved:?} must be rejected"
        );
    }
}

#[test]
fn declared_attested_names_are_the_registry() {
    // The declared set is itself the authority: a non-reserved name
    // unknown to any global registry seals fine when declaration and
    // template agree.
    let cfg = parse_for_test(
        &contract_toml(r#"attested = ["region"]"#),
        &[("r.json", r#"{"r":"{{attested.region}}"}"#)],
    )
    .expect("cfg");
    cfg.validate_policy_surface()
        .expect("a declared, non-reserved attested name is valid");
}

#[test]
fn dropped_caveat_binding_fails_seal() {
    // The security-relevant omission: a role declares it must scope by
    // the MAC-verified `sub`, but the template forgets `{{caveat.sub}}`.
    // The seal refuses to pin a template that drops the binding.
    let cfg = parse_for_test(
        &contract_toml(r#"caveat = ["sub"]"#),
        &[("r.json", r#"{"r":"{{env.bucket}}/*"}"#)],
    )
    .expect("load tolerates a contract mismatch");
    assert!(matches!(
        cfg.validate_policy_surface(),
        Err(ConfigError::CaveatContractMismatch { declared, used, .. })
            if declared == ["sub"] && used.is_empty()
    ));
}

#[test]
fn unknown_mint_key_fails_seal() {
    // `mint.*` is closed to the server-computed set; an unknown key
    // fails at publish rather than at render.
    let cfg = parse_for_test(
        &contract_toml(""),
        &[("r.json", r#"{"r":"{{mint.bogus}}"}"#)],
    )
    .expect("load tolerates an unknown mint key");
    assert!(matches!(
        cfg.validate_policy_surface(),
        Err(ConfigError::UnknownMintKey { key, .. }) if key == "bogus"
    ));
}

#[test]
fn non_scalar_env_value_is_rejected() {
    let bad = ENV_SAMPLE.replace(r#"bucket = "data-bucket""#, r#"bucket = ["a", "b"]"#);
    let err = parse_for_test(&bad, &[("r.json", "{}")]);
    assert!(matches!(
        err,
        Err(ConfigError::NonScalarEnv { key }) if key == "bucket"
    ));
}

#[test]
fn rejects_inverted_ttl_bounds() {
    let bad = SAMPLE.replace("max_ttl_seconds = 2592000", "max_ttl_seconds = 10");
    assert!(matches!(
        parse_for_test(&bad, &[("volume-ro.json", "{}")]),
        Err(ConfigError::BadTtlBounds { .. })
    ));
}

#[test]
fn rejects_policy_file_traversal() {
    // Name validation fires before any read, so roles_dir is never
    // touched — no file is written.
    for evil in ["../escape.json", "/etc/passwd", "a/b.json", "..", "."] {
        let toml = SAMPLE
            .replace("[store]", "roles_dir = \"mint_roles\"\n[store]")
            .replace("volume-ro.json", evil);
        assert!(
            matches!(
                parse_for_test(&toml, &[]),
                Err(ConfigError::BadPolicyFileName { .. })
            ),
            "expected BadPolicyFileName for {evil:?}"
        );
    }
}

#[test]
fn rejects_missing_policy_file() {
    assert!(matches!(
        parse_for_test(SAMPLE, &[]),
        Err(ConfigError::ReadPolicyFile { .. })
    ));
}

/// Inject a config block (e.g. `[auth.demo]`) before the first
/// `[[role]]` in SAMPLE. Injecting at `[store]` would land
/// `parse_for_test`'s `roles_dir = ...` line inside the injected
/// table; injecting at `[[role]]` keeps every key in the right table.
fn with_block(s: &str, block: &str) -> String {
    s.replacen("[[role]]", &format!("{block}\n\n[[role]]"), 1)
}

#[test]
fn auth_block_with_location_and_demo_is_parsed() {
    // The whole `[auth]` plane is one table tree: `location` plus the
    // `[auth.demo]` colocation subtable, injected before `[[role]]`.
    let toml = with_block(
        SAMPLE,
        "[auth]\nlocation = \"https://auth.example/v1/discharge\"\n\n[auth.demo]\nenabled = true",
    );
    let c = parse_for_test(&toml, &[("volume-ro.json", "{}")]).expect("parse");
    let demo = c.demo_auth.expect("demo_auth present");
    assert!(demo.enabled);
    assert!(demo.socket.is_some(), "socket resolves when enabled");
    assert_eq!(
        c.auth_location.expect("auth_location present"),
        "https://auth.example/v1/discharge"
    );
}

#[test]
fn demo_auth_enabled_defaults_to_false() {
    // `[auth.demo]` alone implicitly creates the `[auth]` table with
    // no location — demo colocation present, enabled defaulting false.
    let toml = with_block(SAMPLE, "[auth.demo]\nsocket = \"x.sock\"");
    let c = parse_for_test(&toml, &[("volume-ro.json", "{}")]).expect("parse");
    let demo = c.demo_auth.expect("demo_auth present");
    assert!(!demo.enabled);
    assert!(demo.socket.is_none(), "socket ignored when disabled");
}

#[test]
fn policy_file_defaults_to_name_json() {
    // Drop the explicit policy_file: it must derive `<name>.json`.
    let toml = SAMPLE.replace("policy_file = \"volume-ro.json\"\n", "");
    let c = parse_for_test(&toml, &[("volume-ro.json", "{}")]).expect("parse");
    assert_eq!(c.roles.get("volume-ro").unwrap().policy, "{}");
}

#[test]
fn listener_defaults_to_tcp_8085() {
    let c = parse_for_test(SAMPLE, &[("volume-ro.json", "{}")]).expect("parse");
    assert_eq!(c.listener, Listener::Tcp(addr("127.0.0.1:8085").unwrap()));
}

#[test]
fn explicit_bind_is_parsed() {
    let toml = SAMPLE.replace(
        "audience = \"mint\"",
        "audience = \"mint\"\nbind = \"0.0.0.0:9000\"",
    );
    let c = parse_for_test(&toml, &[("volume-ro.json", "{}")]).expect("parse");
    assert_eq!(c.listener, Listener::Tcp(addr("0.0.0.0:9000").unwrap()));
}

#[test]
fn bad_bind_is_rejected() {
    let toml = SAMPLE.replace(
        "audience = \"mint\"",
        "audience = \"mint\"\nbind = \"not-an-addr\"",
    );
    assert!(matches!(
        parse_for_test(&toml, &[("volume-ro.json", "{}")]),
        Err(ConfigError::BadBindAddr { .. })
    ));
}

#[test]
fn socket_path_selects_uds_verbatim() {
    let toml = SAMPLE.replace(
        "audience = \"mint\"",
        "audience = \"mint\"\nsocket = \"/run/mint.sock\"",
    );
    let c = parse_for_test(&toml, &[("volume-ro.json", "{}")]).expect("parse");
    assert_eq!(c.listener, Listener::Uds("/run/mint.sock".to_string()));
}

#[test]
fn dial_url_maps_each_listener_shape() {
    assert_eq!(
        Listener::Uds("/run/mint.sock".to_string()).dial_url(),
        "unix:/run/mint.sock"
    );
    // An explicit address dials verbatim.
    assert_eq!(
        Listener::Tcp(addr("10.0.0.5:9000").unwrap()).dial_url(),
        "http://10.0.0.5:9000"
    );
    // A wildcard bind is rewritten to loopback — it is not dialable.
    assert_eq!(
        Listener::Tcp(addr("0.0.0.0:9000").unwrap()).dial_url(),
        "http://127.0.0.1:9000"
    );
    assert_eq!(
        Listener::Tcp(addr("[::]:9000").unwrap()).dial_url(),
        "http://[::1]:9000"
    );
}

#[test]
fn default_mint_socket_is_under_default_data_dir() {
    assert_eq!(default_mint_socket(), "mint_data/mint.sock");
}

#[test]
fn empty_socket_selects_uds_at_default_under_data_dir() {
    let toml = SAMPLE.replace(
        "audience = \"mint\"",
        "audience = \"mint\"\ndata_dir = \"/var/lib/mint\"\nsocket = \"\"",
    );
    let c = parse_for_test(&toml, &[("volume-ro.json", "{}")]).expect("parse");
    assert_eq!(
        c.listener,
        Listener::Uds("/var/lib/mint/mint.sock".to_string())
    );
}

#[test]
fn bind_and_socket_together_are_rejected() {
    let toml = SAMPLE.replace(
        "audience = \"mint\"",
        "audience = \"mint\"\nbind = \"127.0.0.1:8085\"\nsocket = \"/run/mint.sock\"",
    );
    assert!(matches!(
        parse_for_test(&toml, &[("volume-ro.json", "{}")]),
        Err(ConfigError::ConflictingListener)
    ));
}

#[test]
fn unsafe_role_name_rejected_when_derived() {
    // No explicit policy_file, so the unsafe name flows into the
    // derived filename and must be caught — distinctly from an
    // explicit bad policy_file.
    let toml = SAMPLE
        .replace("policy_file = \"volume-ro.json\"\n", "")
        .replace("[store]", "roles_dir = \"mint_roles\"\n[store]")
        .replace("name = \"volume-ro\"", "name = \"../escape\"");
    assert!(matches!(
        parse_for_test(&toml, &[]),
        Err(ConfigError::BadDerivedPolicyName { .. })
    ));
}

#[test]
fn duplicate_roles_are_rejected() {
    let twice = format!("{SAMPLE}{}", &SAMPLE[SAMPLE.find("[[role]]").unwrap()..]);
    assert!(matches!(
        parse_for_test(&twice, &[("volume-ro.json", "{}")]),
        Err(ConfigError::DuplicateRole(r)) if r == "volume-ro"
    ));
}

#[test]
fn demo_attestation_needs_the_demo_auth_role() {
    let toml = with_block(SAMPLE, "[attestation.demo]\nenabled = true");
    assert!(matches!(
        parse_for_test(&toml, &[("volume-ro.json", "{}")]),
        Err(ConfigError::DemoAttestationWithoutDemoAuth)
    ));
    let both = with_block(
        SAMPLE,
        "[auth.demo]\nenabled = true\n\n[attestation.demo]\nenabled = true\nsocket = \"/a.sock\"",
    );
    let c = parse_for_test(&both, &[("volume-ro.json", "{}")]).ok().unwrap();
    assert_eq!(
        c.demo_auth.unwrap().socket.as_deref(),
        Some("mint_data/auth.sock")
    );
    assert_eq!(
        c.demo_attestation.unwrap().socket.as_deref(),
        Some("/a.sock")
    );
}

#[test]
fn env_scalars_become_text() {
    let toml = ENV_SAMPLE.replace(
        r#"bucket = "data-bucket""#,
        "bucket = \"b\"\nn = -5\nf = 1.5\nt = true",
    );
    let c = parse_for_test(&toml, &[("r.json", "{}")]).ok().unwrap();
    assert_eq!(c.env.text("n"), Some("-5"));
    assert_eq!(c.env.text("f"), Some("1.5"));
    assert_eq!(c.env.text("t"), Some("true"));
}

#[test]
fn only_the_listener_is_resolved_for_a_client() {
    let toml = SAMPLE.replace(
        "audience = \"mint\"",
        "audience = \"mint\"\nsocket = \"/run/mint.sock\"",
    );
    let r = raw(&toml);
    assert_eq!(
        Config::load_listener(&r, addr(&bind_text(&r.bind))).unwrap(),
        Listener::Uds("/run/mint.sock".to_string())
    );
}

#[test]
fn a_single_filename_stays_in_its_directory() {
    assert!(is_single_filename("a.json"));
    for bad in ["", ".", "..", "a/b", "/a"] {
        assert!(!is_single_filename(bad), "{bad:?}");
    }
    assert_eq!(join_path("d", "f"), "d/f");
    assert_eq!(join_path("d/", "f"), "d/f");
    assert_eq!(join_path("d", "/f"), "/f");
}

#[test]
fn admin_credential_needs_both_halves_and_hides_them() {
    assert!(AdminCredential::from_env(None, Some("s".into()), None).is_none());
    assert!(AdminCredential::from_env(Some("".into()), Some("s".into()), None).is_none());
    let c = AdminCredential::from_env(Some("AKIA".into()), Some("s3cret".into()), Some("".into()))
        .unwrap();
    assert_eq!(c.session_token, None);
    let shown = c.shown();
    assert!(shown.contains("AKIA"));
    assert!(!shown.contains("s3cret"));
    assert_eq!(
        shown,
        "AdminCredential { access_key_id: \"AKIA\", secret_access_key: \"<redacted>\", session_token: None }"
    );
}

#[test]
fn config_errors_read_as_the_operator_sees_them() {
    let toml = SAMPLE.replace(
        "audience = \"mint\"",
        "audience = \"mint\"\nbind = \"not-an-addr\"",
    );
    match parse_for_test(&toml, &[("volume-ro.json", "{}")]) {
        Err(e) => assert!(e.message().contains("\"not-an-addr\"")),
        Ok(_) => panic!("a bad address"),
    }
    assert!(ConfigError::DuplicateRole("r".into()).message().contains("r"));
}
