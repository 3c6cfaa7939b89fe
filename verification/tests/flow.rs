//! The planes of the service end to end: enrollment, exchange, assuming a
//! role, and the operator's verbs, each from the bytes that a client sends.

use base64::Engine as _;
use mint::admin::{
    accept_reply, approve_body, author_seal, build_invite, revoke_body, ts_body, verify_discharge,
    AdminClientError, AdminTarget, ApproveRequest, EnrollmentRow, EnrollmentState, EnrollmentView,
    RevokeRequest, RevokeResponse, SealResponse, ADMIN_ENROLL_LIST, ADMIN_INVITE_READ, ADMIN_SEAL,
};
use mint::attest;
use mint::attest::AttestRequest;
use mint::auth;
use mint::auth::{mint_session, DischargeRequest};
use mint::caveat::{name, op, scope, Caveat};
use mint::cli::{
    admin_target, approved_note, attest_transport, client_transport, config_auth_transport,
    describe_pending, enrollment_heading, enrollment_line, find_pending, is_yes,
    resolve_login_transport, revoked_note, seal_summary, version, NO_DEMO_AUTH,
};
use mint::client::{
    bound_credential, build_request_body, check_received, exchange_body, narrow_credential,
    parse_caveats, present_invite, ClientError,
};
use mint::config::{
    bind_text, policy_file_name, Config, ConfigError, EnvValue, Listener, PolicyRead,
    RawAttestation, RawAuth, RawConfig, RawDemoAttestation, RawDemoAuth, RawRole,
    RawRoleAttestation, RawTemplate, Store, TcpAddr,
};
use mint::http::assume_role;
use mint::http::enroll;
use mint::http::enroll::{GateConfig, PendingWrite};
use mint::http::exchange;
use mint::http::exchange::AttestationConfig;
use mint::http::gate::{authenticate, EnrolledRead, Presented, Refused};
use mint::http::verify::verdict;
use mint::http::{
    extract_bundle, format_bundle, peer_ip, pop_proof, readyz, verify_and_clear, Bundle, ClearedBundle,
    VerifyClearError,
};
use mint::iam::{FakeMinter, MintError};
use mint::keyring::Keyring;
use mint::macaroon::{
    mint as mint_macaroon, mint_under_key, mint_under_key_with_nonce, KeyRef, Macaroon,
};
use mint::map::NameMap;
use mint::operator::Operator;
use mint::pop;
use mint::role::authorize;
use mint::sealed_cache::{serving_from_config, SealState, ServedSurface};
use mint::serve::{admin_service, choose_listener, key_plan, needs_admin_service};
use mint::session::FileText;
use mint::time::{UtcTime, MAX_SECONDS};
use mint::tpc;
use mint::transport::Target;

fn text(t: &toml::Table, key: &str) -> Option<String> {
    t.get(key).and_then(|v| v.as_str()).map(str::to_string)
}

fn number(t: &toml::Table, key: &str) -> u64 {
    u64::try_from(t[key].as_integer().unwrap()).unwrap()
}

fn list(t: &toml::Table, key: &str) -> Vec<String> {
    match t.get(key).and_then(|v| v.as_array()) {
        Some(a) => a.iter().map(|v| v.as_str().unwrap().to_string()).collect(),
        None => Vec::new(),
    }
}

fn table<'a>(t: &'a toml::Table, key: &str) -> Option<&'a toml::Table> {
    t.get(key).and_then(|v| v.as_table())
}

fn enabled(t: &toml::Table) -> bool {
    t.get("enabled").and_then(|v| v.as_bool()).unwrap_or(false)
}

fn env_value(v: &toml::Value) -> EnvValue {
    match v {
        toml::Value::String(s) => EnvValue::Text(s.clone()),
        toml::Value::Integer(i) => EnvValue::Integer(*i),
        toml::Value::Float(f) => EnvValue::Float(f.to_string()),
        toml::Value::Boolean(b) => EnvValue::Boolean(*b),
        _ => EnvValue::NonScalar,
    }
}

fn raw_role(r: &toml::Table) -> RawRole {
    let template = table(r, "template");
    RawRole {
        name: text(r, "name").unwrap(),
        min_ttl_seconds: number(r, "min_ttl_seconds"),
        max_ttl_seconds: number(r, "max_ttl_seconds"),
        default_ttl_seconds: number(r, "default_ttl_seconds"),
        policy_file: text(r, "policy_file"),
        template: RawTemplate {
            attested: template.map(|t| list(t, "attested")).unwrap_or_default(),
            caveat: template.map(|t| list(t, "caveat")).unwrap_or_default(),
        },
        attestation: table(r, "attestation").map(|a| RawRoleAttestation {
            mode: text(a, "mode"),
        }),
    }
}

/// The raw form of a configuration text.
fn raw(source: &str) -> RawConfig {
    let t: toml::Table = toml::from_str(source).unwrap();
    let store = table(&t, "store").unwrap();
    let mut env = NameMap::new();
    if let Some(e) = table(&t, "env") {
        for (k, v) in e {
            env.insert(k.clone(), env_value(v));
        }
    }
    RawConfig {
        audience: text(&t, "audience").unwrap(),
        data_dir: text(&t, "data_dir"),
        roles_dir: text(&t, "roles_dir"),
        bind: text(&t, "bind"),
        socket: text(&t, "socket"),
        store: Store {
            bucket: text(store, "bucket").unwrap(),
            endpoint: text(store, "endpoint"),
            region: text(store, "region"),
        },
        env,
        auth: table(&t, "auth").map(|a| RawAuth {
            location: text(a, "location"),
            demo: table(a, "demo").map(|d| RawDemoAuth {
                enabled: enabled(d),
                socket: text(d, "socket"),
            }),
        }),
        attestation: table(&t, "attestation").map(|a| RawAttestation {
            location: text(a, "location"),
            demo: table(a, "demo").map(|d| RawDemoAttestation {
                enabled: enabled(d),
                socket: text(d, "socket"),
            }),
        }),
        roles: match t.get("role").and_then(|v| v.as_array()) {
            Some(a) => a.iter().map(|r| raw_role(r.as_table().unwrap())).collect(),
            None => Vec::new(),
        },
    }
}

/// A socket address as plain values.
fn addr(s: &str) -> Result<TcpAddr, String> {
    let invalid = || "invalid socket address syntax".to_string();
    let (host, port) = s.rsplit_once(':').ok_or_else(invalid)?;
    Ok(TcpAddr {
        text: s.to_string(),
        ipv4: !host.starts_with('['),
        unspecified: host == "0.0.0.0" || host == "[::]",
        port: port.parse().map_err(|_| invalid())?,
    })
}

/// The configuration of a text, with the policy files that its directory
/// holds.
fn parse_for_test(source: &str, files: &[(&str, &str)]) -> Result<Config, ConfigError> {
    let raw = raw(source);
    let reads: Vec<PolicyRead> = raw
        .roles
        .iter()
        .map(|r| {
            let wanted = policy_file_name(r).unwrap_or_default();
            match files.iter().find(|(n, _)| *n == wanted) {
                Some((_, body)) => PolicyRead::Text(body.to_string()),
                None => PolicyRead::Failed("No such file or directory".to_string()),
            }
        })
        .collect();
    let at = addr(&bind_text(&raw.bind));
    Config::from_raw(&raw, &reads, at, None)
}

const NOW: u64 = 1_700_000_000;
const ROOT: [u8; 32] = [42u8; 32];
const K_M_A: [u8; 32] = [13u8; 32];
const K_M_B: [u8; 32] = [14u8; 32];
const K_SESSION: [u8; 32] = [15u8; 32];
const CLIENT_SEED: [u8; 32] = [55u8; 32];
const LOCATION: &str = "https://auth.example/v1/discharge";
const ATTEST_LOCATION: &str = "https://attest.example/v1/attest";

const CONFIG: &str = r#"
audience = "mint"
socket = "/run/mint.sock"
[store]
bucket = "demo-bucket"
[env]
bucket = "data-bucket"
[auth]
location = "https://auth.example/v1/discharge"
[auth.demo]
enabled = true
[attestation]
location = "https://attest.example/v1/attest"
[attestation.demo]
enabled = true
[[role]]
name = "coord-rw"
min_ttl_seconds = 60
max_ttl_seconds = 3600
default_ttl_seconds = 900
policy_file = "coord-rw.json"
[role.template]
caveat = ["sub"]
[[role]]
name = "volume-ro"
min_ttl_seconds = 60
max_ttl_seconds = 3600
default_ttl_seconds = 900
policy_file = "volume-ro.json"
[role.template]
attested = ["volume"]
[role.attestation]
"#;

fn config() -> Config {
    parse_for_test(
        CONFIG,
        &[
            (
                "coord-rw.json",
                r#"{"r":"arn:{{env.bucket}}/{{caveat.sub}}/*","e":"{{mint.expiry}}"}"#,
            ),
            (
                "volume-ro.json",
                r#"{"r":"arn:{{env.bucket}}/{{attested.volume}}"}"#,
            ),
        ],
    )
    .ok()
    .expect("config")
}

fn keyring() -> Keyring {
    Keyring::single(ROOT)
}

fn serving() -> (SealState, ServedSurface) {
    let cfg = config();
    (
        SealState::Serving(ServedSurface::from_config(&cfg, &keyring(), "t")),
        ServedSurface::from_config(&cfg, &keyring(), "t"),
    )
}

fn gates() -> GateConfig<'static> {
    GateConfig {
        k_m_a: Some(&K_M_A),
        location: Some(LOCATION),
        org_id: Some("demo"),
    }
}

fn now() -> UtcTime {
    UtcTime {
        seconds: i64::try_from(NOW).unwrap(),
        nanos: 0,
    }
}

fn field(body: &str, key: &str) -> String {
    let v: serde_json::Value = serde_json::from_str(body).unwrap();
    v[key].as_str().unwrap().to_string()
}

fn site(m: &Macaroon) -> String {
    let cid = m
        .caveats()
        .iter()
        .find_map(|c| match c {
            Caveat::ThirdParty { cid, .. } => Some(cid.clone()),
            _ => None,
        })
        .expect("a third-party caveat");
    base64::engine::general_purpose::URL_SAFE_NO_PAD.encode(cid)
}

fn session() -> String {
    format!("Bearer {}", mint_session(&K_SESSION, "operator", NOW).encode())
}

/// The operator's discharge of a token's gate.
fn discharge(m: &Macaroon, scope: &str) -> Macaroon {
    let reply = auth::issue_discharge(
        Some(&K_M_A),
        Some(&K_SESSION),
        Some(&session()),
        &Some(DischargeRequest {
            cid: site(m),
            scope: scope.to_string(),
        }),
        Some("demo"),
        "mint",
        NOW,
    );
    assert_eq!(reply.status, 200, "{}", reply.body);
    Macaroon::decode(&field(&reply.body, "discharge")).unwrap()
}

/// The authority's discharge of an attested caveat.
fn attestation(m: &Macaroon, volume: &str) -> Macaroon {
    let mut attested = NameMap::new();
    attested.insert("volume".to_string(), volume.to_string());
    let reply = attest::issue_discharge(
        Some(&K_M_B),
        Some(&K_SESSION),
        Some(&session()),
        &Some(AttestRequest {
            cid: site(m),
            attested,
        }),
        Some("demo"),
        NOW,
    );
    assert_eq!(reply.status, 200, "{}", reply.body);
    Macaroon::decode(&field(&reply.body, "discharge")).unwrap()
}

/// The headers of a request under the client's key.
fn headers(seed: &[u8; 32], primary: &Macaroon, discharges: &[Macaroon], body: &[u8]) -> (String, String) {
    (
        format_bundle(primary, discharges),
        pop::client_signature(seed, primary.tail(), body),
    )
}

fn cnf() -> String {
    pop::cnf_value(&CLIENT_SEED)
}

fn invite() -> Macaroon {
    let r = build_invite(Ok("nonce-1".to_string()), &gates(), &keyring(), "mint").unwrap();
    assert_eq!(r.nonce, "nonce-1");
    Macaroon::decode(&r.macaroon).unwrap()
}

fn enroll_request(scope_value: &str) -> Result<enroll::EnrollRequest, (Refused, String)> {
    let presented = present_invite(invite(), "coord-1", &cnf());
    let d = discharge(&presented, scope_value);
    let body = ts_body(NOW);
    let (authorization, proof) = headers(&CLIENT_SEED, &presented, &[d], body.as_bytes());
    let q = Presented {
        authorization: Some(&authorization),
        proof_header: Some(&proof),
        body: body.as_bytes(),
    };
    let cleared = match enroll::admit_request(&q, &keyring(), NOW, "mint") {
        Ok(c) => c,
        Err(d) => return Err((d.kind, d.outcome.unwrap_or_default())),
    };
    match enroll::identify(&cleared, Some("nonce-1")) {
        Ok(r) => Ok(r),
        Err(d) => Err((d.kind, d.outcome.unwrap_or_default())),
    }
}

fn ticket() -> Macaroon {
    let request = enroll_request(scope::MINT_ENROLL).unwrap();
    let grant = enroll::issue_ticket(
        PendingWrite::Created,
        &gates(),
        &keyring(),
        "mint",
        &request,
        NOW,
    )
    .unwrap();
    assert_eq!(grant.outcome, "enroll:pending");
    assert!(!grant.migrate);
    Macaroon::decode(&field(&grant.reply.body, "credential.ticket")).unwrap()
}

fn found() -> EnrolledRead {
    EnrolledRead::Found {
        pubkey: cnf(),
        rev_epoch: 3,
    }
}

fn exchange_for(role: &str, enrolled: &EnrolledRead) -> Result<Macaroon, (Refused, String)> {
    let (state, surface) = serving();
    let t = ticket();
    let d = discharge(&t, scope::MINT_EXCHANGE);
    let body = exchange_body(role, NOW);
    let (authorization, proof) = headers(&CLIENT_SEED, &t, &[d], body.as_bytes());
    let q = Presented {
        authorization: Some(&authorization),
        proof_header: Some(&proof),
        body: body.as_bytes(),
    };
    let admitted = match exchange::admit_request(&state, &q, &keyring(), NOW, "mint") {
        Ok(t) => t,
        Err(d) => return Err((d.kind, d.outcome.unwrap_or_default())),
    };
    assert_eq!(admitted.sub, "coord-1");
    let attested = AttestationConfig {
        mode: if role == "volume-ro" { Some("volume-ro") } else { None },
        k_m_b: Some(&K_M_B),
        location: Some(ATTEST_LOCATION),
        org_id: Some("demo"),
    };
    match exchange::decide(
        &surface,
        &admitted,
        enrolled,
        Some(role),
        &attested,
        &keyring(),
        "mint",
    ) {
        Ok(r) => Ok(Macaroon::decode(&field(&r.body, "credential")).unwrap()),
        Err(d) => Err((d.kind, d.outcome.unwrap_or_default())),
    }
}

fn take_role(
    credential: &Macaroon,
    discharges: &[Macaroon],
    role: &str,
    enrolled: &EnrolledRead,
) -> Result<assume_role::MintOrder, (Refused, String)> {
    let (state, surface) = serving();
    let body = build_request_body(role, 600, NOW);
    let (authorization, proof) = headers(&CLIENT_SEED, credential, discharges, body.as_bytes());
    let q = Presented {
        authorization: Some(&authorization),
        proof_header: Some(&proof),
        body: body.as_bytes(),
    };
    let admitted = match assume_role::admit_request(&state, &q, &keyring(), NOW) {
        Ok(a) => a,
        Err(d) => return Err((d.kind, d.outcome.unwrap_or_default())),
    };
    assert!(assume_role::check_lifetime(&surface, &admitted, enrolled, Some(role), now()));
    assume_role::decide(&surface, &admitted, enrolled, Some(role), now())
        .map_err(|d| (d.kind, d.outcome.unwrap_or_default()))
}

#[test]
fn enrollment_identifies_the_client_and_its_operator() {
    let r = enroll_request(scope::MINT_ENROLL).unwrap();
    assert_eq!(r.sub, "coord-1");
    assert_eq!(r.cnf, cnf());
    assert_eq!(r.requested_by, "operator");
}

#[test]
fn enrollment_needs_the_enroll_scope_and_the_current_invite() {
    assert_eq!(
        enroll_request(scope::MINT_EXCHANGE).unwrap_err(),
        (Refused::Unauthorized, "enroll:denied:scope".to_string())
    );
    let presented = present_invite(invite(), "coord-1", &cnf());
    let d = discharge(&presented, scope::MINT_ENROLL);
    let body = ts_body(NOW);
    let (authorization, proof) = headers(&CLIENT_SEED, &presented, &[d], body.as_bytes());
    let q = Presented {
        authorization: Some(&authorization),
        proof_header: Some(&proof),
        body: body.as_bytes(),
    };
    let cleared = enroll::admit_request(&q, &keyring(), NOW, "mint").ok().unwrap();
    let stale = enroll::identify(&cleared, Some("nonce-2")).unwrap_err();
    assert_eq!(stale.outcome.as_deref(), Some("enroll:denied:stale_invite"));
    let unread = enroll::identify(&cleared, None).unwrap_err();
    assert_eq!(unread.kind, Refused::Unavailable);
    // Without the discharge the invite is inert.
    let (authorization, proof) = headers(&CLIENT_SEED, &presented, &[], body.as_bytes());
    let q = Presented {
        authorization: Some(&authorization),
        proof_header: Some(&proof),
        body: body.as_bytes(),
    };
    assert!(enroll::admit_request(&q, &keyring(), NOW, "mint").is_err());
}

#[test]
fn recording_decides_what_a_client_is_told() {
    let request = enroll_request(scope::MINT_ENROLL).unwrap();
    let ask = |w: PendingWrite| {
        enroll::issue_ticket(w, &gates(), &keyring(), "mint", &request, NOW)
            .map(|g| (g.outcome, g.migrate))
            .map_err(|d| (d.kind, d.outcome))
    };
    assert_eq!(
        ask(PendingWrite::AlreadyEnrolled),
        Ok(("enroll:fast_path".to_string(), true))
    );
    assert_eq!(
        ask(PendingWrite::Idempotent),
        Ok(("enroll:pending".to_string(), false))
    );
    assert_eq!(
        ask(PendingWrite::Conflict),
        Err((
            Refused::Unauthorized,
            Some("enroll:denied:conflict".to_string())
        ))
    );
    assert_eq!(ask(PendingWrite::Failed), Err((Refused::Unavailable, None)));
    assert_eq!(
        ask(PendingWrite::BadSub),
        Err((
            Refused::Unauthorized,
            Some("enroll:denied:bad_sub".to_string())
        ))
    );
}

#[test]
fn exchange_mints_the_credential_of_an_approved_client() {
    let cred = exchange_for("coord-rw", &found()).unwrap();
    assert!(cred.verify(&keyring()));
    let of = |n: &str| {
        cred.caveats()
            .iter()
            .find(|c| c.first_party_name() == Some(n))
            .and_then(|c| c.first_party_value())
            .map(str::to_string)
    };
    assert_eq!(of(name::OP).as_deref(), Some(op::ASSUME_ROLE));
    assert_eq!(of(name::ROLE).as_deref(), Some("coord-rw"));
    assert_eq!(of(name::EPOCH).as_deref(), Some("3"));
    assert_eq!(
        exchange_for("coord-rw", &EnrolledRead::Absent).unwrap_err().0,
        Refused::Awaiting
    );
    assert_eq!(
        exchange_for("coord-rw", &EnrolledRead::Forged).unwrap_err().0,
        Refused::Awaiting
    );
    assert_eq!(
        exchange_for("nope", &found()).unwrap_err().1,
        "exchange:denied:unknown_role"
    );
    assert_eq!(
        exchange_for("coord-rw", &EnrolledRead::Failed).unwrap_err().0,
        Refused::Unavailable
    );
}

#[test]
fn a_grant_renders_the_sealed_policy() {
    let cred = bound_credential(exchange_for("coord-rw", &found()).unwrap(), NOW, 600);
    let order = take_role(&cred, &[], "coord-rw", &found()).unwrap();
    assert_eq!(order.ttl_seconds, 600);
    let v: serde_json::Value = serde_json::from_str(&order.policy).unwrap();
    assert_eq!(v["r"], "arn:data-bucket/coord-1/*");
    assert_eq!(v["e"], "2023-11-14T22:23:20+00:00");
    assert!(order.policy_name.starts_with("mint_coord-rw_global_20231114T222320Z_"));
    let mut minter = FakeMinter::new();
    let minted = minter.mint_keypair(&order.policy_name, &order.policy, order.ttl_seconds, now());
    let answer = assume_role::answer(&minted);
    assert_eq!(answer.reply.status, 200);
    assert_eq!(answer.outcome, "granted");
    assert_eq!(field(&answer.reply.body, "access_key_id"), "tid_fake_00000000");
    let failed = assume_role::answer(&Err(MintError::Backend("down".into())));
    assert_eq!(failed.reply.status, 503);
    assert_eq!(failed.retry_after, Some(5));
}

#[test]
fn a_grant_is_refused_to_the_revoked_and_to_another_key() {
    let cred = bound_credential(exchange_for("coord-rw", &found()).unwrap(), NOW, 600);
    let later = EnrolledRead::Found {
        pubkey: cnf(),
        rev_epoch: 4,
    };
    assert_eq!(
        take_role(&cred, &[], "coord-rw", &later).unwrap_err().1,
        "denied:revoked"
    );
    assert_eq!(
        take_role(&cred, &[], "coord-rw", &EnrolledRead::Absent).unwrap_err().1,
        "denied:revoked"
    );
    // A role that the credential does not carry.
    assert_eq!(
        take_role(&cred, &[], "volume-ro", &found()).unwrap_err().1,
        "denied:role_not_permitted"
    );
    // A credential without a deadline.
    let unbound = exchange_for("coord-rw", &found()).unwrap();
    assert_eq!(
        take_role(&unbound, &[], "coord-rw", &found()).unwrap_err().1,
        "denied:missing_required_caveat"
    );
}

#[test]
fn an_attested_role_needs_its_discharge() {
    let cred = bound_credential(exchange_for("volume-ro", &found()).unwrap(), NOW, 600);
    assert!(take_role(&cred, &[], "volume-ro", &found()).is_err());
    let d = attestation(&cred, "01VOL");
    let order = take_role(&cred, &[d], "volume-ro", &found()).unwrap();
    let v: serde_json::Value = serde_json::from_str(&order.policy).unwrap();
    assert_eq!(v["r"], "arn:data-bucket/01VOL");
    assert!(order.policy_name.starts_with("mint_volume-ro_01VOL_"));
    // The discharge of another credential's caveat does not answer.
    let other = bound_credential(exchange_for("volume-ro", &found()).unwrap(), NOW, 600);
    let foreign = attestation(&other, "01VOL");
    assert!(take_role(&cred, &[foreign], "volume-ro", &found()).is_err());
}

#[test]
fn a_dormant_server_refuses_every_role() {
    let q = Presented {
        authorization: None,
        proof_header: None,
        body: b"{}",
    };
    let d = assume_role::admit_request(&SealState::Dormant, &q, &keyring(), NOW)
        .err()
        .unwrap();
    assert_eq!(d.kind, Refused::NotSealed);
    assert_eq!(d.kind.reply().status, 503);
    assert_eq!(readyz(&SealState::Dormant), (503, "not sealed"));
    assert_eq!(readyz(&serving_from_config(&config())), (200, "ready"));
}

#[test]
fn verification_answers_with_a_verdict() {
    let cred = bound_credential(exchange_for("coord-rw", &found()).unwrap(), NOW, 600);
    let body = ts_body(NOW);
    let (authorization, proof) = headers(&CLIENT_SEED, &cred, &[], body.as_bytes());
    let q = Presented {
        authorization: Some(&authorization),
        proof_header: Some(&proof),
        body: body.as_bytes(),
    };
    let reply = verdict(&q, &keyring(), NOW, "mint");
    assert_eq!(reply.status, 200);
    let v: serde_json::Value = serde_json::from_str(&reply.body).unwrap();
    assert_eq!(v["valid"], true);
    assert_eq!(v["expires_at"], NOW + 600);
    assert_eq!(v["caveats"].as_array().unwrap().len(), 7);
    for (q, reason) in [
        (
            Presented {
                authorization: None,
                proof_header: None,
                body: b"",
            },
            "bundle_decode",
        ),
        (
            Presented {
                authorization: Some(&authorization),
                proof_header: Some("!"),
                body: body.as_bytes(),
            },
            "pop_header",
        ),
    ] {
        let v: serde_json::Value =
            serde_json::from_str(&verdict(&q, &keyring(), NOW, "mint").body).unwrap();
        assert_eq!(v["valid"], false);
        assert_eq!(v["reason"], reason);
    }
    let late: serde_json::Value =
        serde_json::from_str(&verdict(&q, &keyring(), NOW, "other").body).unwrap();
    assert_eq!(late["valid"], false);
}

fn operator() -> Operator {
    let files = admin_service(&gates(), &keyring(), "mint").unwrap().unwrap();
    Operator::load(&files.token, &files.key_hex).ok().expect("operator")
}

#[test]
fn an_admin_call_exercises_one_verb() {
    let o = operator();
    let reply = auth::issue_discharge(
        Some(&K_M_A),
        Some(&K_SESSION),
        Some(&session()),
        &Some(DischargeRequest {
            cid: o.cid_b64().unwrap(),
            scope: scope::MINT_ADMIN.to_string(),
        }),
        Some("demo"),
        "mint",
        NOW,
    );
    let d = Macaroon::decode(&field(&reply.body, "discharge")).unwrap();
    let body = ts_body(NOW);
    let (authorization, proof) = o.authorize(&d, ADMIN_INVITE_READ, body.as_bytes());
    let q = Presented {
        authorization: Some(&authorization),
        proof_header: Some(&proof),
        body: body.as_bytes(),
    };
    assert_eq!(
        verify_discharge(&q, &keyring(), NOW, "mint", ADMIN_INVITE_READ),
        Ok("operator".to_string())
    );
    assert!(verify_discharge(&q, &keyring(), NOW, "mint", ADMIN_SEAL).is_err());
    assert!(verify_discharge(&q, &keyring(), NOW, "mint", ADMIN_ENROLL_LIST).is_err());
    assert!(verify_discharge(&q, &keyring(), NOW, "other", ADMIN_INVITE_READ).is_err());
    // The discharge of another scope does not drive the admin plane.
    let reply = auth::issue_discharge(
        Some(&K_M_A),
        Some(&K_SESSION),
        Some(&session()),
        &Some(DischargeRequest {
            cid: o.cid_b64().unwrap(),
            scope: scope::MINT_ENROLL.to_string(),
        }),
        Some("demo"),
        "mint",
        NOW,
    );
    let d = Macaroon::decode(&field(&reply.body, "discharge")).unwrap();
    let (authorization, proof) = o.authorize(&d, ADMIN_INVITE_READ, body.as_bytes());
    let q = Presented {
        authorization: Some(&authorization),
        proof_header: Some(&proof),
        body: body.as_bytes(),
    };
    assert!(verify_discharge(&q, &keyring(), NOW, "mint", ADMIN_INVITE_READ).is_err());
}

#[test]
fn an_invite_needs_its_gate() {
    let bare = GateConfig {
        k_m_a: None,
        location: Some(LOCATION),
        org_id: None,
    };
    assert!(build_invite(Ok("n".to_string()), &bare, &keyring(), "mint").is_err());
    assert!(build_invite(Err("down".to_string()), &gates(), &keyring(), "mint").is_err());
}

#[test]
fn a_seal_is_authored_from_the_config() {
    let cfg = config();
    let a = author_seal(&cfg, &keyring(), "2026-01-01T00:00:00Z").ok().unwrap();
    assert!(a.seal.verify(&keyring()).is_ok());
    assert!(a.seal.diff_against_config(&cfg).is_empty());
    assert_eq!(a.response.roles.len(), 2);
    let summary = seal_summary(&a.response).unwrap();
    assert!(summary.starts_with("published seal: kid=0 sealed_at=2026-01-01T00:00:00Z roles=[coord-rw:"));
    let broken = parse_for_test(
        CONFIG,
        &[("coord-rw.json", "not json"), ("volume-ro.json", "{}")],
    )
    .ok()
    .unwrap();
    assert!(matches!(
        author_seal(&broken, &keyring(), "t"),
        Err(ConfigError::PolicyNotJson { .. })
    ));
}

#[test]
fn summaries_show_the_first_bytes_of_a_hash() {
    let mut roles = NameMap::new();
    roles.insert("b".to_string(), "0123456789abcdef".to_string());
    roles.insert("a".to_string(), "ff".to_string());
    let resp = SealResponse {
        kid: 2,
        sealed_at: "T".to_string(),
        roles,
    };
    assert_eq!(
        seal_summary(&resp).unwrap(),
        "published seal: kid=2 sealed_at=T roles=[a:ff, b:0123456789ab]"
    );
}

#[test]
fn bundles_read_back() {
    let kr = keyring();
    let a = mint_macaroon(&kr, vec![Caveat::scalar("a", "b")]);
    let d = mint_under_key(&[1u8; 32], KeyRef::Discharge, vec![]);
    let text = format_bundle(&a, &[d.clone()]);
    let b = extract_bundle(Some(&text)).unwrap();
    assert_eq!(b.primary.encode(), a.encode());
    assert_eq!(b.discharges.len(), 1);
    assert_eq!(b.discharges[0].encode(), d.encode());
    assert!(extract_bundle(None).is_none());
    assert!(extract_bundle(Some("Bearer x")).is_none());
    assert!(matches!(pop_proof(None), Ok(None)));
    assert!(pop_proof(Some("!")).is_err());
    assert_eq!(peer_ip(Some("10.0.0.1")), "10.0.0.1");
    assert_eq!(peer_ip(None), "unknown");
}

#[test]
fn admin_bodies_carry_their_timestamp() {
    assert_eq!(ts_body(7), "{\"ts\":7}");
    let v: serde_json::Value = serde_json::from_str(&approve_body(
        &ApproveRequest {
            sub: "s".into(),
            pubkey: "p".into(),
        },
        7,
    ))
    .unwrap();
    assert_eq!((&v["sub"], &v["pubkey"], &v["ts"]), (&"s".into(), &"p".into(), &7.into()));
    let v: serde_json::Value =
        serde_json::from_str(&revoke_body(&RevokeRequest { sub: "s".into() }, 7)).unwrap();
    assert_eq!((&v["sub"], &v["ts"]), (&"s".into(), &7.into()));
    assert!(accept_reply(200, "{}").is_ok());
    assert_eq!(
        accept_reply(404, "x"),
        Err(AdminClientError::Status {
            status: 404,
            body: "x".into()
        })
    );
}

fn row(sub: &str, state: EnrollmentState) -> EnrollmentRow {
    EnrollmentRow::from(EnrollmentView {
        sub: sub.to_string(),
        state,
        pubkey: "ed25519:k".to_string(),
        fingerprint: "0123456789abcdef".to_string(),
        peer_ip: None,
        age_seconds: 42,
        anomalous_pub: true,
    })
}

#[test]
fn enrollments_are_listed_and_found() {
    assert_eq!(
        enrollment_heading(),
        "SUB                          STATE     FINGERPRINT        PEER              AGE(s) FLAGS"
    );
    assert_eq!(
        enrollment_line(&row("coord-1", EnrollmentState::Pending)),
        "coord-1                      pending   0123456789abcdef   -                     42 ANOMALOUS-PUB"
    );
    let rows = vec![
        row("coord-1", EnrollmentState::Enrolled),
        row("coord-2", EnrollmentState::Pending),
        row("coord-3", EnrollmentState::Revoked),
    ];
    assert_eq!(find_pending(&rows, "coord-2").unwrap().sub, "coord-2");
    assert_eq!(
        find_pending(&rows, "coord-1").unwrap_err(),
        "no pending enrollment for sub coord-1"
    );
    let notes = describe_pending(&rows[1]);
    assert_eq!(notes[0], "pending enrollment:");
    assert_eq!(notes[4], "  age:         42s");
    for yes in ["y\n", " Y", "yes", "YES\r\n"] {
        assert!(is_yes(yes));
    }
    for no in ["", "n", "Yes", "yy"] {
        assert!(!is_yes(no));
    }
}

#[test]
fn outcomes_are_told_to_the_operator() {
    assert_eq!(
        approved_note("s", "T"),
        "approved s (registry entry written at T; pending record deleted)"
    );
    let resp = RevokeResponse {
        revoked_at: "T".into(),
        rev_epoch: 2,
        was_enrolled: true,
    };
    assert_eq!(
        revoked_note("s", &resp),
        "revoked s at T (epoch 2; enrolled record deleted, tombstone written)"
    );
}

#[test]
fn transports_are_chosen_in_order() {
    let cfg = config();
    assert_eq!(
        client_transport(Some("/x.sock"), None),
        Ok("unix:/x.sock".to_string())
    );
    assert_eq!(
        client_transport(None, Some(("mint.toml", &cfg.listener))),
        Ok("unix:/run/mint.sock".to_string())
    );
    assert_eq!(
        client_transport(None, None),
        Ok("unix:mint_data/mint.sock".to_string())
    );
    let tcp = Listener::Tcp(addr("127.0.0.1:1").unwrap());
    assert!(client_transport(None, Some(("mint.toml", &tcp))).is_err());
    assert_eq!(
        config_auth_transport(&cfg),
        Ok("unix:mint_data/auth.sock".to_string())
    );
    assert_eq!(
        attest_transport(&cfg),
        Some("unix:mint_data/attest.sock".to_string())
    );
    assert_eq!(
        resolve_login_transport(Some("http://a"), Some(&cfg), &FileText::Missing),
        Ok("http://a".to_string())
    );
    assert_eq!(
        resolve_login_transport(None, Some(&cfg), &FileText::Missing),
        Ok("unix:mint_data/auth.sock".to_string())
    );
    assert_eq!(
        resolve_login_transport(None, None, &FileText::Text("unix:/r\n".into())),
        Ok("unix:/r".to_string())
    );
    assert!(resolve_login_transport(None, None, &FileText::Missing).is_err());
    assert_eq!(admin_target(&cfg), Target::Uds("/run/mint.sock".into()));
    let plain = parse_for_test(
        "audience = \"m\"\n[store]\nbucket = \"b\"\n",
        &[],
    )
    .ok()
    .unwrap();
    assert_eq!(config_auth_transport(&plain), Err(NO_DEMO_AUTH.to_string()));
    assert_eq!(
        admin_target(&plain),
        Target::Tcp("http://127.0.0.1:8085".into())
    );
}

#[test]
fn secrets_follow_the_configuration() {
    let p = key_plan(&config());
    assert!(p.k_m_a && p.k_session && p.k_m_b && p.generate);
    let plain = parse_for_test(
        "audience = \"m\"\n[store]\nbucket = \"b\"\n[auth]\nlocation = \"https://a/x\"\n",
        &[],
    )
    .ok()
    .unwrap();
    let p = key_plan(&plain);
    assert!(p.k_m_a && !p.k_session && !p.k_m_b && !p.generate);
}

#[test]
fn the_admin_service_is_written_once() {
    assert!(needs_admin_service(false, false));
    assert!(!needs_admin_service(true, true));
    let files = admin_service(&gates(), &keyring(), "mint").unwrap().unwrap();
    assert!(Macaroon::decode(files.token.trim()).unwrap().verify(&keyring()));
    assert_eq!(files.key_hex.trim().len(), 64);
    let bare = GateConfig {
        k_m_a: None,
        location: None,
        org_id: None,
    };
    assert!(matches!(
        admin_service(&bare, &keyring(), "mint"),
        Ok(None) | Err(_)
    ));
}

#[test]
fn an_address_on_the_command_line_wins() {
    let a = addr("127.0.0.1:9").unwrap();
    assert_eq!(
        choose_listener(Some(addr("127.0.0.1:9").unwrap()), Listener::Uds("/x".into())),
        Listener::Tcp(a)
    );
    assert_eq!(
        choose_listener(None, Listener::Uds("/x".into())),
        Listener::Uds("/x".into())
    );
}

#[test]
fn versions_drop_the_tag_letter() {
    assert_eq!(version(Some(" v0.1.1\n"), "0.0.0"), "0.1.1");
    assert_eq!(version(Some("vv1"), "0.0.0"), "1");
    assert_eq!(version(Some(" "), "0.0.0"), "0.0.0-dev");
    assert_eq!(version(None, "0.0.0"), "0.0.0-dev");
}

#[test]
fn attestation_is_for_enrolled_authority_only() {
    let cred = exchange_for("volume-ro", &found()).unwrap();
    let request = Some(AttestRequest {
        cid: site(&cred),
        attested: NameMap::new(),
    });
    let anonymous =
        attest::issue_discharge(Some(&K_M_B), Some(&K_SESSION), None, &request, Some("demo"), NOW);
    assert_eq!(anonymous.status, 401);
    let keyless = attest::issue_discharge(
        None,
        Some(&K_SESSION),
        Some(&session()),
        &request,
        Some("demo"),
        NOW,
    );
    assert_ne!(keyless.status, 200);
    let wrong_key = attest::issue_discharge(
        Some(&K_M_A),
        Some(&K_SESSION),
        Some(&session()),
        &request,
        Some("demo"),
        NOW,
    );
    assert_ne!(wrong_key.status, 200);
}

#[test]
fn subs_are_path_safe() {
    assert!(enroll::is_valid_sub("coord-1.A_b"));
    assert!(enroll::is_valid_sub(&"a".repeat(256)));
    assert!(!enroll::is_valid_sub(&"a".repeat(257)));
    assert!(!enroll::is_valid_sub(""));
    assert!(!enroll::is_valid_sub("."));
    assert!(!enroll::is_valid_sub(".."));
    assert!(!enroll::is_valid_sub("a/b"));
    assert!(!enroll::is_valid_sub("caf\u{e9}"));
}

#[test]
fn a_recording_is_decided_from_the_registry_and_the_pending_record() {
    let found = |k: &str| EnrolledRead::Found {
        pubkey: k.to_string(),
        rev_epoch: 3,
    };
    let decide = enroll::decide_recording;
    assert_eq!(decide("a/b", "k", &EnrolledRead::Absent, None), PendingWrite::BadSub);
    assert_eq!(decide("c", "k", &found("k"), Some("z")), PendingWrite::AlreadyEnrolled);
    assert_eq!(decide("c", "k", &EnrolledRead::Failed, None), PendingWrite::Failed);
    assert_eq!(decide("c", "k", &found("z"), None), PendingWrite::Created);
    assert_eq!(decide("c", "k", &EnrolledRead::Forged, None), PendingWrite::Created);
    assert_eq!(decide("c", "k", &EnrolledRead::Absent, Some("k")), PendingWrite::Idempotent);
    assert_eq!(decide("c", "k", &EnrolledRead::Corrupt, Some("z")), PendingWrite::Conflict);
}

#[test]
fn a_pending_record_lapses_after_an_hour() {
    assert!(!enroll::has_lapsed(1000, 1000));
    assert!(!enroll::has_lapsed(1000, 4600));
    assert!(enroll::has_lapsed(1000, 4601));
    assert!(!enroll::has_lapsed(9000, 10));
}

#[test]
fn a_session_is_no_primary() {
    let session = mint_session(&K_SESSION, "operator", NOW)
        .attenuate(Caveat::scalar(name::CNF, &cnf()))
        .attenuate(Caveat::scalar(name::AUD, "mint"));
    let body = ts_body(NOW);
    let (authorization, proof) = headers(&CLIENT_SEED, &session, &[], body.as_bytes());
    let q = Presented {
        authorization: Some(&authorization),
        proof_header: Some(&proof),
        body: body.as_bytes(),
    };
    let d = enroll::admit_request(&q, &keyring(), NOW, "mint").err().unwrap();
    assert_eq!(d.kind, Refused::Unauthorized);
    assert_eq!(
        d.outcome.as_deref(),
        Some("enroll:denied:primary_not_credential")
    );
    assert!(!session.verify(&keyring()));
}

#[test]
fn a_gated_token_is_inert_without_its_discharge() {
    let presented = present_invite(invite(), "coord-1", &cnf());
    let body = ts_body(NOW);
    let (authorization, proof) = headers(&CLIENT_SEED, &presented, &[], body.as_bytes());
    let q = Presented {
        authorization: Some(&authorization),
        proof_header: Some(&proof),
        body: body.as_bytes(),
    };
    let d = enroll::admit_request(&q, &keyring(), NOW, "mint").err().unwrap();
    assert_eq!(d.outcome.as_deref(), Some("enroll:denied:tpc_undischarged"));
}

#[test]
fn a_credential_authenticates_for_its_own_operation() {
    let cred = bound_credential(exchange_for("coord-rw", &found()).unwrap(), NOW, 600);
    let body = build_request_body("coord-rw", 600, NOW);
    let (authorization, proof) = headers(&CLIENT_SEED, &cred, &[], body.as_bytes());
    let q = Presented {
        authorization: Some(&authorization),
        proof_header: Some(&proof),
        body: body.as_bytes(),
    };
    assert!(authenticate(&q, &keyring(), NOW, "mint", op::ASSUME_ROLE).is_ok());
    for other in [op::ENROLL, op::ENROLL_EXCHANGE, ADMIN_SEAL] {
        assert!(authenticate(&q, &keyring(), NOW, "mint", other).is_err());
    }
}

#[test]
fn every_failure_is_answered_alike() {
    let cred = bound_credential(exchange_for("coord-rw", &found()).unwrap(), NOW, 600);
    let body = build_request_body("coord-rw", 600, NOW);
    let (authorization, proof) = headers(&CLIENT_SEED, &cred, &[], body.as_bytes());
    let (state, _) = serving();
    let attempts: [(Option<&str>, Option<&str>, u64); 5] = [
        (None, Some(proof.as_str()), NOW),
        (Some(authorization.as_str()), None, NOW),
        (Some(authorization.as_str()), Some("!"), NOW),
        (Some(authorization.as_str()), Some(proof.as_str()), NOW + 61),
        (Some(authorization.as_str()), Some(proof.as_str()), NOW + 10_000),
    ];
    for (auth, proof_header, at) in attempts {
        let q = Presented {
            authorization: auth,
            proof_header,
            body: body.as_bytes(),
        };
        let d = assume_role::admit_request(&state, &q, &keyring(), at).err().unwrap();
        let reply = d.kind.reply();
        assert_eq!(reply.status, 401);
        assert_eq!(field(&reply.body, "error"), "unauthorized");
    }
}

#[test]
fn a_lifetime_beyond_the_last_instant_does_not_fit() {
    let cred = bound_credential(exchange_for("coord-rw", &found()).unwrap(), u64::MAX, 1);
    let body = build_request_body("coord-rw", 600, NOW);
    let (authorization, proof) = headers(&CLIENT_SEED, &cred, &[], body.as_bytes());
    let (state, surface) = serving();
    let q = Presented {
        authorization: Some(&authorization),
        proof_header: Some(&proof),
        body: body.as_bytes(),
    };
    let admitted = assume_role::admit_request(&state, &q, &keyring(), NOW).unwrap();
    let last = UtcTime {
        seconds: MAX_SECONDS,
        nanos: 0,
    };
    assert!(!assume_role::check_lifetime(&surface, &admitted, &found(), Some("coord-rw"), last));
    assert!(assume_role::check_lifetime(&surface, &admitted, &found(), Some("nope"), last));
    assert!(assume_role::check_lifetime(&surface, &admitted, &found(), None, last));
    assert!(assume_role::check_lifetime(&surface, &admitted, &found(), Some("coord-rw"), now()));
    // A revoked credential is refused, whatever its lifetime would be.
    let revoked = EnrolledRead::Absent;
    assert!(assume_role::check_lifetime(&surface, &admitted, &revoked, Some("coord-rw"), last));
    let d = assume_role::decide(&surface, &admitted, &revoked, Some("coord-rw"), last).unwrap_err();
    assert_eq!(d.kind, Refused::Unauthorized);
}

#[test]
fn admin_targets_name_their_transport() {
    assert_eq!(AdminTarget::Uds("/run/mint.sock").transport(), "unix:/run/mint.sock");
    assert_eq!(AdminTarget::Tcp("http://h:1").transport(), "http://h:1");
}

#[test]
fn the_attestation_of_a_role_is_configured() {
    let cfg = config();
    let a = exchange::attestation_config(&cfg, Some("volume-ro"), Some(&K_M_B), Some("demo"));
    assert_eq!(a.mode, Some("volume-ro"));
    assert_eq!(a.location, Some(ATTEST_LOCATION));
    assert_eq!(a.k_m_b, Some(&K_M_B));
    assert_eq!(a.org_id, Some("demo"));
    assert!(exchange::attestation_config(&cfg, Some("coord-rw"), None, None).mode.is_none());
    assert!(exchange::attestation_config(&cfg, Some("nope"), None, None).mode.is_none());
    assert!(exchange::attestation_config(&cfg, None, None, None).mode.is_none());
}

#[test]
fn only_a_token_is_kept() {
    assert!(check_received(&invite().encode()).is_ok());
    assert!(matches!(
        check_received("nonsense"),
        Err(ClientError::BadFile("server macaroon"))
    ));
}

/// A discharge of the last third-party caveat of a chain, sealed under
/// `K_M_A`.
fn answer(m: &Macaroon, note: &str) -> Macaroon {
    let cid = m
        .caveats()
        .iter()
        .rev()
        .find_map(|c| match c {
            Caveat::ThirdParty { cid, .. } => Some(cid.clone()),
            _ => None,
        })
        .expect("a third-party caveat");
    let p = tpc::decrypt_cid(&K_M_A, &cid).ok().expect("cid");
    mint_under_key_with_nonce(
        &p.r,
        KeyRef::Discharge,
        tpc::ticket_id(&cid),
        vec![Caveat::scalar("note", note)],
    )
}

fn gated(m: Macaroon) -> Macaroon {
    let c = tpc::build_caveat(m.tail(), &K_M_A, "c", "demo", LOCATION);
    m.attenuate(c)
}

/// A credential with two third-party caveats, and the discharges of both,
/// the first of which has a third-party caveat of its own, discharged too.
fn nested_bundle() -> (Macaroon, Vec<Macaroon>) {
    let base = bound_credential(exchange_for("coord-rw", &found()).unwrap(), NOW, 600);
    let one = gated(base);
    let first = gated(answer(&one, "first"));
    let inner = answer(&first, "inner");
    let two = gated(one);
    let second = answer(&two, "second");
    (two, vec![first, second, inner])
}

fn clear(primary: &Macaroon, discharges: Vec<Macaroon>) -> Result<ClearedBundle, VerifyClearError> {
    let body = ts_body(NOW);
    let proof = pop::client_signature(&CLIENT_SEED, primary.tail(), body.as_bytes());
    verify_and_clear(
        &Bundle {
            primary: primary.clone(),
            discharges,
        },
        &keyring(),
        pop_proof(Some(&proof)).unwrap(),
        body.as_bytes(),
        NOW,
        "mint",
        op::ASSUME_ROLE,
    )
}

fn notes(c: &ClearedBundle) -> Vec<String> {
    c.discharge_caveats
        .iter()
        .filter(|c| c.first_party_name() == Some("note"))
        .map(|c| c.first_party_value().unwrap().to_string())
        .collect()
}

#[test]
fn discharges_clear_in_any_order() {
    let (primary, ds) = nested_bundle();
    for order in [[0, 1, 2], [0, 2, 1], [1, 0, 2], [1, 2, 0], [2, 0, 1], [2, 1, 0]] {
        let bundle: Vec<Macaroon> = order.iter().map(|i: &usize| ds[*i].clone()).collect();
        let c = clear(&primary, bundle).ok().expect("cleared");
        assert_eq!(notes(&c), vec!["first", "second", "inner"], "{order:?}");
        assert_eq!(c.expires_at, Some(NOW + 600));
    }
}

#[test]
fn every_third_party_caveat_needs_a_discharge_of_its_own() {
    let (primary, ds) = nested_bundle();
    for missing in 0..ds.len() {
        let mut some = ds.clone();
        some.remove(missing);
        assert_eq!(
            clear(&primary, some).err(),
            Some(VerifyClearError::Auth("tpc_undischarged")),
            "{missing}"
        );
    }
    let mut more = ds.clone();
    more.push(mint_under_key(&[1u8; 32], KeyRef::Discharge, vec![]));
    assert_eq!(
        clear(&primary, more).err(),
        Some(VerifyClearError::Auth("unmatched_discharge"))
    );
    let mut twice = ds.clone();
    twice.push(ds[0].clone());
    assert_eq!(
        clear(&primary, twice).err(),
        Some(VerifyClearError::Auth("ambiguous_discharge"))
    );
}

#[test]
fn only_first_party_caveats_are_echoed() {
    let (primary, ds) = nested_bundle();
    let c = clear(&primary, ds).ok().expect("cleared");
    assert_eq!(c.primary.caveats().len(), 9);
    assert_eq!(c.discharge_caveats.len(), 4);
    let all = c.all_caveats();
    let names: Vec<&str> = all.iter().map(|c| c.first_party_name().unwrap()).collect();
    assert_eq!(
        names,
        vec!["op", "aud", "sub", "cnf", "role", "epoch", "exp", "note", "note", "note"]
    );
    assert_eq!(all[8].first_party_value(), Some("second"));
}

#[test]
fn an_own_deadline_tightens_the_granted_lifetime() {
    let (_, surface) = serving();
    let held = exchange_for("coord-rw", &found()).unwrap();
    let own = parse_caveats(&[format!("exp={}", NOW + 120)]).unwrap();
    let m = bound_credential(narrow_credential(held, &own), NOW, 600);
    let g = authorize(&surface, m.caveats(), "coord-rw", NOW).unwrap();
    assert_eq!(g.ttl_seconds, 120);
}
