//! Configuration: from the raw values of a configuration file to a
//! validated one, and the checks that gate seal authoring.
//!
//! Reading files, the environment and socket addresses is the caller's
//! part; the functions here take what was read.

pub mod message;
pub mod surface;

use crate::map::NameMap;
use crate::template;
use crate::text;
use vstd::prelude::*;

verus! {

/// Why a configuration was refused.
#[derive(Debug, PartialEq, Eq)]
pub enum ConfigError {
    /// The configuration file could not be read.
    Io(String),
    /// The configuration file could not be parsed.
    Toml(String),
    /// Two roles have this name.
    DuplicateRole(String),
    /// The bounds must be above zero, with min at most default and
    /// default at most max.
    BadTtlBounds { role: String, field: String },
    /// An explicit policy file must be a single filename.
    BadPolicyFileName { role: String, value: String },
    /// The filename derived from the role's name is no single filename.
    BadDerivedPolicyName { role: String, value: String },
    /// The policy file could not be read.
    ReadPolicyFile { role: String, path: String, source: String },
    /// `bind` and `socket` are mutually exclusive.
    ConflictingListener,
    /// `bind` is no valid `host:port`.
    BadBindAddr { value: String, source: String },
    /// An environment value is not a scalar.
    NonScalarEnv { key: String },
    /// The demo attestation authority needs the demo auth role.
    DemoAttestationWithoutDemoAuth,
    /// A role declares an attestation, but there is no authority for it.
    AttestationWithoutLocation { role: String },
    /// A template references an environment key that is not defined.
    UndefinedEnvKey { role: String, key: String },
    /// A template is not valid JSON.
    PolicyNotJson { role: String, source: String },
    /// A template has a malformed token.
    MalformedPolicyToken { role: String, token: String },
    /// A template references a value that is not computed here.
    UnknownMintKey { role: String, key: String },
    /// The declared attested names are not those of the template.
    AttestedContractMismatch { role: String, declared: Vec<String>, used: Vec<String> },
    /// A declared attested name is a reserved control-caveat name.
    ReservedAttestedKey { role: String, key: String },
    /// The declared caveat names are not those of the template.
    CaveatContractMismatch { role: String, declared: Vec<String>, used: Vec<String> },
}

/// A raw `[env]` value. A float is held as it prints.
#[derive(Debug)]
pub enum EnvValue {
    Text(String),
    Integer(i64),
    Float(String),
    Boolean(bool),
    /// An array, a table or a date.
    NonScalar,
}

/// The `[auth]` table.
#[derive(Debug)]
pub struct RawAuth {
    pub location: Option<String>,
    pub demo: Option<RawDemoAuth>,
}

/// The `[attestation]` table.
#[derive(Debug)]
pub struct RawAttestation {
    pub location: Option<String>,
    pub demo: Option<RawDemoAttestation>,
}

/// The `[auth.demo]` table.
#[derive(Debug)]
pub struct RawDemoAuth {
    pub enabled: bool,
    pub socket: Option<String>,
}

/// The `[attestation.demo]` table.
#[derive(Debug)]
pub struct RawDemoAttestation {
    pub enabled: bool,
    pub socket: Option<String>,
}

/// The `[store]` table.
#[derive(Debug)]
pub struct Store {
    /// Bucket holding the service's own state.
    pub bucket: String,
    /// S3 endpoint URL; the default endpoint where it is absent.
    pub endpoint: Option<String>,
    /// S3 region.
    pub region: Option<String>,
}

/// A `[[role]]` block.
#[derive(Debug)]
pub struct RawRole {
    pub name: String,
    pub min_ttl_seconds: u64,
    pub max_ttl_seconds: u64,
    pub default_ttl_seconds: u64,
    /// Filename of the policy template; `<name>.json` where it is absent.
    pub policy_file: Option<String>,
    pub template: RawTemplate,
    pub attestation: Option<RawRoleAttestation>,
}

/// The `[role.attestation]` table.
#[derive(Debug)]
pub struct RawRoleAttestation {
    /// Opaque context for the authority; the role's name where it is
    /// absent.
    pub mode: Option<String>,
}

/// The `[role.template]` table: the names that the template substitutes.
#[derive(Debug)]
pub struct RawTemplate {
    pub attested: Vec<String>,
    pub caveat: Vec<String>,
}

/// A configuration file's values.
#[derive(Debug)]
pub struct RawConfig {
    pub audience: String,
    pub data_dir: Option<String>,
    pub roles_dir: Option<String>,
    pub bind: Option<String>,
    pub socket: Option<String>,
    pub store: Store,
    pub env: NameMap<EnvValue>,
    pub auth: Option<RawAuth>,
    pub attestation: Option<RawAttestation>,
    pub roles: Vec<RawRole>,
}

/// A socket address that parsed: how it prints, and what the dialling
/// rules ask of it.
#[derive(Debug, Clone, PartialEq, Eq)]
pub struct TcpAddr {
    pub text: String,
    pub ipv4: bool,
    pub unspecified: bool,
    pub port: u16,
}

/// Resolved listener transport.
#[derive(Debug, Clone, PartialEq, Eq)]
pub enum Listener {
    /// The network shapes.
    Tcp(TcpAddr),
    /// The single-host shape: a socket path.
    Uds(String),
}

/// The dialable form of a listener.
pub open spec fn dial_text(l: Listener) -> Seq<char> {
    match l {
        Listener::Uds(path) => "unix:"@ + path@,
        Listener::Tcp(a) => if !a.unspecified {
            "http://"@ + a.text@
        } else if a.ipv4 {
            "http://127.0.0.1:"@ + text::digits(a.port as nat)
        } else {
            "http://[::1]:"@ + text::digits(a.port as nat)
        },
    }
}

impl Listener {
    /// The transport string that a same-host client dials: `unix:<path>`,
    /// or `http://<host>:<port>`. A wildcard bind is rewritten to
    /// loopback.
    pub fn dial_url(&self) -> (r: String)
        ensures
            r@ == dial_text(*self),
    {
        match self {
            Listener::Uds(path) => text::concat("unix:", path.as_str()),
            Listener::Tcp(a) => if !a.unspecified {
                text::concat("http://", a.text.as_str())
            } else if a.ipv4 {
                text::concat("http://127.0.0.1:", text::print_u64(a.port as u64).as_str())
            } else {
                text::concat("http://[::1]:", text::print_u64(a.port as u64).as_str())
            },
        }
    }
}

/// Default TCP listener.
pub const DEFAULT_BIND: &'static str = "127.0.0.1:8085";

/// Socket filename where `socket` is selected without a path.
pub const DEFAULT_SOCKET_NAME: &'static str = "mint.sock";

/// Persisted-state directory where the configuration names none.
pub const DEFAULT_DATA_DIR: &'static str = "mint_data";

/// Policy-template directory where the configuration names none.
pub const DEFAULT_ROLES_DIR: &'static str = "mint_roles";

/// `file` in `dir`, or `file` itself where it is absolute.
pub open spec fn joined_path(dir: Seq<char>, file: Seq<char>) -> Seq<char> {
    if file.len() > 0 && file[0] == '/' {
        file
    } else if dir.len() == 0 || dir.last() == '/' {
        dir + file
    } else {
        dir + "/"@ + file
    }
}

/// The path of `file` in `dir`; an absolute `file` stands alone.
pub fn join_path(dir: &str, file: &str) -> (r: String)
    ensures
        r@ == joined_path(dir@, file@),
{
    let f = text::chars_of(file);
    if f.len() > 0 && f[0] == '/' {
        return text::owned(file);
    }
    let v = text::chars_of(dir);
    let n: usize = v.len();
    let mut r = text::owned(dir);
    if n > 0 && v[n - 1] != '/' {
        r.push_str("/");
    }
    r.push_str(file);
    r
}

/// The default socket path that the server binds and a client dials.
pub fn default_mint_socket() -> (r: String)
    ensures
        r@ == joined_path(DEFAULT_DATA_DIR@, DEFAULT_SOCKET_NAME@),
{
    join_path(DEFAULT_DATA_DIR, DEFAULT_SOCKET_NAME)
}

/// Colocated demo auth role.
#[derive(Debug, PartialEq, Eq)]
pub struct DemoAuth {
    pub enabled: bool,
    /// The socket it binds; none where it is not enabled.
    pub socket: Option<String>,
}

/// Colocated demo attestation authority.
#[derive(Debug, PartialEq, Eq)]
pub struct DemoAttestation {
    pub enabled: bool,
    /// The socket it binds; none where it is not enabled.
    pub socket: Option<String>,
}

/// Admin credential, from the environment and never from the
/// configuration file.
pub struct AdminCredential {
    pub access_key_id: String,
    pub secret_access_key: String,
    pub session_token: Option<String>,
}

/// A value of the environment that is there and not empty.
pub open spec fn present(v: Option<String>) -> Option<Seq<char>> {
    match v {
        Some(s) if s@.len() > 0 => Some(s@),
        _ => None,
    }
}

/// A string value, where there is one.
pub open spec fn opt_text(v: Option<String>) -> Option<Seq<char>> {
    match v {
        Some(s) => Some(s@),
        None => None,
    }
}

/// A variable of the environment that is there and not empty.
fn non_empty_env(v: Option<String>) -> (r: Option<String>)
    ensures
        opt_text(r) == present(v),
{
    match v {
        Some(s) => if s.as_str().is_empty() {
            None
        } else {
            Some(s)
        },
        None => None,
    }
}

/// A credential as it may be shown: never its secrets, only that they are
/// there.
pub open spec fn redacted(c: AdminCredential) -> Seq<char> {
    "AdminCredential { access_key_id: "@ + template::quoted(c.access_key_id@)
        + ", secret_access_key: \"<redacted>\", session_token: "@ + (if c.session_token is Some {
        "Some(\"<redacted>\")"@
    } else {
        "None"@
    }) + " }"@
}

impl AdminCredential {
    /// The credential as it may be shown.
    pub fn shown(&self) -> (r: String)
        ensures
            r@ == redacted(*self),
    {
        let mut m = text::owned("AdminCredential { access_key_id: ");
        m.push_str(template::quote(self.access_key_id.as_str()).as_str());
        m.push_str(", secret_access_key: \"<redacted>\", session_token: ");
        if self.session_token.is_some() {
            m.push_str("Some(\"<redacted>\")");
        } else {
            m.push_str("None");
        }
        m.push_str(" }");
        m
    }

    /// The credential that the three variables of the environment give:
    /// none where either of the first two is unset or empty. An empty
    /// session token is no token.
    pub fn from_env(
        access_key_id: Option<String>,
        secret_access_key: Option<String>,
        session_token: Option<String>,
    ) -> (r: Option<AdminCredential>)
        ensures
            r is Some <==> present(access_key_id) is Some && present(secret_access_key) is Some,
            r matches Some(c) ==> Some(c.access_key_id@) == present(access_key_id) && Some(
                c.secret_access_key@,
            ) == present(secret_access_key) && opt_text(c.session_token) == present(session_token),
    {
        match (non_empty_env(access_key_id), non_empty_env(secret_access_key)) {
            (Some(a), Some(s)) => Some(
                AdminCredential {
                    access_key_id: a,
                    secret_access_key: s,
                    session_token: non_empty_env(session_token),
                },
            ),
            _ => None,
        }
    }
}

/// A validated role.
#[derive(Debug)]
pub struct Role {
    pub name: String,
    pub min_ttl_seconds: u64,
    pub max_ttl_seconds: u64,
    pub default_ttl_seconds: u64,
    /// Where the template was read from.
    pub policy_path: String,
    /// The policy template.
    pub policy: String,
    /// The `attested.*` names that the template substitutes, sorted.
    pub attested: Vec<String>,
    /// The `caveat.*` names that the template substitutes, sorted.
    pub caveat: Vec<String>,
    /// The opaque attestation mode; none for a role without attestation.
    pub attestation_mode: Option<String>,
}

/// Validated configuration.
pub struct Config {
    pub audience: String,
    pub data_dir: String,
    pub roles_dir: String,
    pub listener: Listener,
    pub store: Store,
    pub env: NameMap<String>,
    pub admin: Option<AdminCredential>,
    pub demo_auth: Option<DemoAuth>,
    pub demo_attestation: Option<DemoAttestation>,
    pub auth_location: Option<String>,
    pub attestation_location: Option<String>,
    pub roles: NameMap<Role>,
}

/// What an `[env]` value prints as, where it is a scalar.
pub open spec fn scalar_text(v: EnvValue) -> Option<Seq<char>> {
    match v {
        EnvValue::Text(s) => Some(s@),
        EnvValue::Integer(n) => Some(
            if n < 0 {
                "-"@ + text::digits((-n) as nat)
            } else {
                text::digits(n as nat)
            },
        ),
        EnvValue::Float(s) => Some(s@),
        EnvValue::Boolean(b) => Some(
            if b {
                "true"@
            } else {
                "false"@
            },
        ),
        EnvValue::NonScalar => None,
    }
}

/// The template string form of an `[env]` value.
fn env_scalar_to_string(key: &str, value: &EnvValue) -> (r: Result<String, ConfigError>)
    ensures
        match scalar_text(*value) {
            Some(t) => r is Ok && r->Ok_0@ == t,
            None => r matches Err(ConfigError::NonScalarEnv { key: k }) && k@ == key@,
        },
{
    match value {
        EnvValue::Text(s) => Ok(s.clone()),
        EnvValue::Integer(n) => {
            if *n < 0 {
                let magnitude: u64 = (-(*n as i128)) as u64;
                Ok(text::concat("-", text::print_u64(magnitude).as_str()))
            } else {
                Ok(text::print_u64(*n as u64))
            }
        },
        EnvValue::Float(s) => Ok(s.clone()),
        EnvValue::Boolean(b) => Ok(
            text::owned(
                if *b {
                    "true"
                } else {
                    "false"
                },
            ),
        ),
        EnvValue::NonScalar => Err(ConfigError::NonScalarEnv { key: text::owned(key) }),
    }
}

/// A policy template as it was read.
#[derive(Debug)]
pub enum PolicyRead {
    Text(String),
    Failed(String),
}

/// A single filename: not empty, without separators, and neither `.` nor
/// `..`.
pub open spec fn single_filename(f: Seq<char>) -> bool {
    f.len() > 0 && text::find_char(f, '/') is None && f != "."@ && f != ".."@
}

/// Whether `f` is a single filename.
pub fn is_single_filename(f: &str) -> (r: bool)
    ensures
        r == single_filename(f@),
{
    let v = text::chars_of(f);
    v.len() > 0 && text::find_char_in(&v, '/').is_none() && !text::same(f, ".") && !text::same(
        f,
        "..",
    )
}

/// The filename of a role's policy template.
pub open spec fn policy_file_of(r: RawRole) -> Seq<char> {
    match r.policy_file {
        Some(f) => f@,
        None => r.name@ + ".json"@,
    }
}

/// The filename of a role's policy template: the explicit one, or the one
/// derived from its name. It must be a single filename, so that a role
/// cannot reach outside the roles directory.
pub fn policy_file_name(r: &RawRole) -> (f: Result<String, ConfigError>)
    ensures
        match f {
            Ok(f) => f@ == policy_file_of(*r) && single_filename(f@),
            Err(e) => !single_filename(policy_file_of(*r)) && match r.policy_file {
                Some(_) => e matches ConfigError::BadPolicyFileName { role, value } && role@
                    == r.name@ && value@ == policy_file_of(*r),
                None => e matches ConfigError::BadDerivedPolicyName { role, value } && role@
                    == r.name@ && value@ == policy_file_of(*r),
            },
        },
{
    match &r.policy_file {
        Some(f) => if is_single_filename(f.as_str()) {
            Ok(f.clone())
        } else {
            Err(ConfigError::BadPolicyFileName { role: r.name.clone(), value: f.clone() })
        },
        None => {
            let f = text::concat(r.name.as_str(), ".json");
            if is_single_filename(f.as_str()) {
                Ok(f)
            } else {
                Err(ConfigError::BadDerivedPolicyName { role: r.name.clone(), value: f })
            }
        },
    }
}

/// Why a role is refused.
pub enum RoleFault {
    BadTtl,
    BadName,
    ReadFailed(Seq<char>),
    NoLocation,
    Duplicate,
}

/// The bounds of a role: above zero, and in order.
pub open spec fn ttl_ok(r: RawRole) -> bool {
    0 < r.min_ttl_seconds <= r.default_ttl_seconds <= r.max_ttl_seconds
}

/// Why a role is refused, given the names before it.
pub open spec fn role_fault(
    r: RawRole,
    read: PolicyRead,
    located: bool,
    seen: Set<Seq<char>>,
) -> Option<RoleFault> {
    if !ttl_ok(r) {
        Some(RoleFault::BadTtl)
    } else if !single_filename(policy_file_of(r)) {
        Some(RoleFault::BadName)
    } else {
        match read {
            PolicyRead::Failed(m) => Some(RoleFault::ReadFailed(m@)),
            PolicyRead::Text(_) => if r.attestation is Some && !located {
                Some(RoleFault::NoLocation)
            } else if seen.contains(r.name@) {
                Some(RoleFault::Duplicate)
            } else {
                None
            },
        }
    }
}

/// The names of the first `n` roles.
pub open spec fn names_before(roles: Seq<RawRole>, n: int) -> Set<Seq<char>> {
    Set::new(|x: Seq<char>| exists|j: int| 0 <= j < n && (#[trigger] roles[j]).name@ == x)
}

/// Role `i` is the first that is refused, and this is why.
pub open spec fn first_fault(
    roles: Seq<RawRole>,
    reads: Seq<PolicyRead>,
    located: bool,
    i: int,
    f: RoleFault,
) -> bool {
    &&& 0 <= i < roles.len()
    &&& role_fault(roles[i], reads[i], located, names_before(roles, i)) == Some(f)
    &&& roles_ok(roles, reads, located, i)
}

/// None of the first `n` roles is refused.
pub open spec fn roles_ok(
    roles: Seq<RawRole>,
    reads: Seq<PolicyRead>,
    located: bool,
    n: int,
) -> bool {
    forall|j: int|
        0 <= j < n ==> role_fault(
            #[trigger] roles[j],
            reads[j],
            located,
            names_before(roles, j),
        ) is None
}

/// The error of a refused role.
pub open spec fn role_error(
    e: ConfigError,
    r: RawRole,
    roles_dir: Seq<char>,
    f: RoleFault,
) -> bool {
    match f {
        RoleFault::BadTtl => e matches ConfigError::BadTtlBounds { role, field } && role@ == r.name@
            && field@ == "ttl_seconds"@,
        RoleFault::BadName => match r.policy_file {
            Some(_) => e matches ConfigError::BadPolicyFileName { role, value } && role@ == r.name@
                && value@ == policy_file_of(r),
            None => e matches ConfigError::BadDerivedPolicyName { role, value } && role@ == r.name@
                && value@ == policy_file_of(r),
        },
        RoleFault::ReadFailed(m) => e matches ConfigError::ReadPolicyFile { role, path, source }
            && role@ == r.name@ && path@ == joined_path(roles_dir, policy_file_of(r)) && source@
            == m,
        RoleFault::NoLocation => e matches ConfigError::AttestationWithoutLocation { role } && role@
            == r.name@,
        RoleFault::Duplicate => e matches ConfigError::DuplicateRole(role) && role@ == r.name@,
    }
}

/// `list` is the strings of `declared`, each once, in ascending order.
pub open spec fn canonical(list: Seq<String>, declared: Seq<String>) -> bool {
    &&& text::ascending(text::texts(list))
    &&& forall|x: Seq<char>| #[trigger]
        text::texts(list).contains(x) <==> text::texts(declared).contains(x)
}

/// The validated role of a raw one.
pub open spec fn role_of(role: Role, r: RawRole, read: PolicyRead, roles_dir: Seq<char>) -> bool {
    &&& role.name@ == r.name@
    &&& role.min_ttl_seconds == r.min_ttl_seconds
    &&& role.max_ttl_seconds == r.max_ttl_seconds
    &&& role.default_ttl_seconds == r.default_ttl_seconds
    &&& role.policy_path@ == joined_path(roles_dir, policy_file_of(r))
    &&& read matches PolicyRead::Text(t)
    &&& role.policy@ == t@
    &&& canonical(role.attested@, r.template.attested@)
    &&& canonical(role.caveat@, r.template.caveat@)
    &&& opt_text(role.attestation_mode) == (match r.attestation {
        None => None::<Seq<char>>,
        Some(a) => match a.mode {
            Some(m) => Some(m@),
            None => Some(r.name@),
        },
    })
}

/// Normalises a declared set of names: sorted, each once, so that a
/// sealed contract does not depend on authoring order.
fn canonical_field_set(fields: &[String]) -> (r: Vec<String>)
    ensures
        canonical(r@, fields@),
{
    text::sorted_set(fields)
}

/// A copy of an optional string.
pub fn copy_opt(v: &Option<String>) -> (r: Option<String>)
    ensures
        opt_text(r) == opt_text(*v),
{
    match v {
        Some(s) => Some(s.clone()),
        None => None,
    }
}

/// Validates one raw role.
fn build_role(r: &RawRole, read: &PolicyRead, roles_dir: &str, located: bool) -> (b: Result<
    Role,
    ConfigError,
>)
    ensures
        match role_fault(*r, *read, located, Set::empty()) {
            None => b is Ok && role_of(b->Ok_0, *r, *read, roles_dir@),
            Some(f) => b is Err && role_error(b->Err_0, *r, roles_dir@, f),
        },
{
    if r.min_ttl_seconds == 0 || r.min_ttl_seconds > r.default_ttl_seconds || r.default_ttl_seconds
        > r.max_ttl_seconds {
        return Err(
            ConfigError::BadTtlBounds { role: r.name.clone(), field: text::owned("ttl_seconds") },
        );
    }
    let file = match policy_file_name(r) {
        Ok(f) => f,
        Err(e) => {
            return Err(e);
        },
    };
    let path = join_path(roles_dir, file.as_str());
    let policy = match read {
        PolicyRead::Text(t) => t.clone(),
        PolicyRead::Failed(m) => {
            return Err(
                ConfigError::ReadPolicyFile { role: r.name.clone(), path, source: m.clone() },
            );
        },
    };
    if r.attestation.is_some() && !located {
        return Err(ConfigError::AttestationWithoutLocation { role: r.name.clone() });
    }
    let mode = match &r.attestation {
        None => None,
        Some(a) => match &a.mode {
            Some(m) => Some(m.clone()),
            None => Some(r.name.clone()),
        },
    };
    Ok(
        Role {
            name: r.name.clone(),
            min_ttl_seconds: r.min_ttl_seconds,
            max_ttl_seconds: r.max_ttl_seconds,
            default_ttl_seconds: r.default_ttl_seconds,
            policy_path: path,
            policy,
            attested: canonical_field_set(&r.template.attested),
            caveat: canonical_field_set(&r.template.caveat),
            attestation_mode: mode,
        },
    )
}

/// The roles of a validated configuration: one per raw role, under its
/// name.
pub open spec fn roles_of(
    built: Map<Seq<char>, Role>,
    roles: Seq<RawRole>,
    reads: Seq<PolicyRead>,
    roles_dir: Seq<char>,
    n: int,
) -> bool {
    &&& forall|x: Seq<char>| #[trigger]
        built.contains_key(x) <==> names_before(roles, n).contains(x)
    &&& forall|j: int|
        0 <= j < n ==> role_of(
            built[(#[trigger] roles[j]).name@],
            roles[j],
            reads[j],
            roles_dir,
        )
}

/// Validates the raw roles in order.
fn build_roles(
    roles: &[RawRole],
    reads: &[PolicyRead],
    roles_dir: &str,
    located: bool,
) -> (b: Result<NameMap<Role>, ConfigError>)
    requires
        reads@.len() == roles@.len(),
    ensures
        match b {
            Ok(m) => roles_ok(roles@, reads@, located, roles@.len() as int) && roles_of(
                m.map(),
                roles@,
                reads@,
                roles_dir@,
                roles@.len() as int,
            ),
            Err(e) => exists|i: int, f: RoleFault| #[trigger]
                first_fault(roles@, reads@, located, i, f) && role_error(
                    e,
                    roles@[i],
                    roles_dir@,
                    f,
                ),
        },
{
    let mut built: NameMap<Role> = NameMap::new();
    let mut i: usize = 0;
    while i < roles.len()
        invariant
            i <= roles@.len() == reads@.len(),
            roles_ok(roles@, reads@, located, i as int),
            roles_of(built.map(), roles@, reads@, roles_dir@, i as int),
        decreases roles@.len() - i,
    {
        let ghost seen = names_before(roles@, i as int);
        let ghost r = roles@[i as int];
        let ghost before = built.map();
        match build_role(&roles[i], &reads[i], roles_dir, located) {
            Err(e) => {
                proof {
                    let f = role_fault(r, reads@[i as int], located, Set::empty())->0;
                    assert(role_fault(r, reads@[i as int], located, seen) == Some(f));
                    assert(first_fault(roles@, reads@, located, i as int, f));
                }
                return Err(e);
            },
            Ok(role) => {
                if built.contains_key(roles[i].name.as_str()) {
                    proof {
                        assert(first_fault(
                            roles@,
                            reads@,
                            located,
                            i as int,
                            RoleFault::Duplicate,
                        ));
                    }
                    return Err(ConfigError::DuplicateRole(roles[i].name.clone()));
                }
                built.insert(roles[i].name.clone(), role);
                proof {
                    assert(!seen.contains(r.name@));
                    assert forall|x: Seq<char>| #[trigger]
                        built.map().contains_key(x) <==> names_before(
                            roles@,
                            i + 1,
                        ).contains(x) by {
                        if names_before(roles@, i + 1).contains(x) {
                            let j = choose|j: int|
                                0 <= j < i + 1 && (#[trigger] roles@[j]).name@ == x;
                            if j < i {
                                assert(seen.contains(x));
                            }
                        }
                        if seen.contains(x) {
                            let j = choose|j: int|
                                0 <= j < i && (#[trigger] roles@[j]).name@ == x;
                            assert(roles@[j].name@ == x);
                        }
                        if x == r.name@ {
                            assert(roles@[i as int].name@ == x);
                        }
                    }
                    assert forall|j: int| 0 <= j < i + 1 implies role_of(
                        built.map()[(#[trigger] roles@[j]).name@],
                        roles@[j],
                        reads@[j],
                        roles_dir@,
                    ) by {
                        if j < i {
                            assert(seen.contains(roles@[j].name@));
                            assert(built.map()[roles@[j].name@] == before[roles@[j].name@]);
                        }
                    }
                }
            },
        }
        i = i + 1;
    }
    Ok(built)
}

/// How the listener keys resolve.
pub enum ListenerView {
    Conflict,
    Uds(Seq<char>),
    Tcp(Seq<char>),
}

/// The listener transport of the mutually exclusive `bind` and `socket`
/// keys: an empty socket is at its default place under the data
/// directory, and with neither key set the default address is bound.
pub open spec fn listener_of(
    bind: Option<Seq<char>>,
    socket: Option<Seq<char>>,
    data_dir: Seq<char>,
) -> ListenerView {
    match (bind, socket) {
        (Some(_), Some(_)) => ListenerView::Conflict,
        (None, Some(s)) => ListenerView::Uds(
            if s.len() == 0 {
                joined_path(data_dir, DEFAULT_SOCKET_NAME@)
            } else {
                s
            },
        ),
        (Some(b), None) => ListenerView::Tcp(b),
        (None, None) => ListenerView::Tcp(DEFAULT_BIND@),
    }
}

/// The address text to parse for a configuration's listener: what `bind`
/// holds, or the default.
pub fn bind_text(bind: &Option<String>) -> (r: String)
    ensures
        r@ == (match opt_text(*bind) {
            Some(b) => b,
            None => DEFAULT_BIND@,
        }),
{
    match bind {
        Some(b) => b.clone(),
        None => text::owned(DEFAULT_BIND),
    }
}

/// `r` is the listener, or the error, that the keys resolve to, where
/// `addr` is what the address text parsed to.
pub open spec fn listener_result(
    r: Result<Listener, ConfigError>,
    l: ListenerView,
    addr: Result<TcpAddr, String>,
) -> bool {
    match l {
        ListenerView::Conflict => r == Err::<Listener, ConfigError>(
            ConfigError::ConflictingListener,
        ),
        ListenerView::Uds(p) => r matches Ok(Listener::Uds(q)) && q@ == p,
        ListenerView::Tcp(t) => match addr {
            Ok(a) => r == Ok::<Listener, ConfigError>(Listener::Tcp(a)),
            Err(m) => r matches Err(ConfigError::BadBindAddr { value, source }) && value@ == t
                && source@ == m@,
        },
    }
}

/// Resolves the listener transport. `addr` is what the text of
/// [`bind_text`] parsed to as a socket address.
pub fn resolve_listener(
    bind: &Option<String>,
    socket: &Option<String>,
    data_dir: &str,
    addr: Result<TcpAddr, String>,
) -> (r: Result<Listener, ConfigError>)
    ensures
        listener_result(r, listener_of(opt_text(*bind), opt_text(*socket), data_dir@), addr),
{
    match (bind, socket) {
        (Some(_), Some(_)) => Err(ConfigError::ConflictingListener),
        (None, Some(s)) => Ok(
            Listener::Uds(
                if s.as_str().is_empty() {
                    join_path(data_dir, DEFAULT_SOCKET_NAME)
                } else {
                    s.clone()
                },
            ),
        ),
        _ => match addr {
            Ok(a) => Ok(Listener::Tcp(a)),
            Err(m) => Err(ConfigError::BadBindAddr { value: bind_text(bind), source: m }),
        },
    }
}

/// A directory, or its default.
pub open spec fn dir_of(dir: Option<String>, default: Seq<char>) -> Seq<char> {
    match dir {
        Some(d) => d@,
        None => default,
    }
}

/// A directory, or its default.
pub fn dir_or(dir: &Option<String>, default: &str) -> (r: String)
    ensures
        r@ == dir_of(*dir, default@),
{
    match dir {
        Some(d) => d.clone(),
        None => text::owned(default),
    }
}

/// The socket of an enabled demo role: the explicit one, or its default
/// place under the data directory; none where it is not enabled.
pub open spec fn demo_socket(
    enabled: bool,
    socket: Option<String>,
    data_dir: Seq<char>,
    file: Seq<char>,
) -> Option<Seq<char>> {
    if !enabled {
        None
    } else {
        match socket {
            Some(s) => Some(s@),
            None => Some(joined_path(data_dir, file)),
        }
    }
}

fn demo_socket_path(enabled: bool, socket: &Option<String>, data_dir: &str, file: &str) -> (r: Option<
    String,
>)
    ensures
        opt_text(r) == demo_socket(enabled, *socket, data_dir@, file@),
{
    if !enabled {
        None
    } else {
        match socket {
            Some(s) => Some(s.clone()),
            None => Some(join_path(data_dir, file)),
        }
    }
}

/// The demo auth role is enabled.
pub open spec fn demo_auth_enabled(raw: RawConfig) -> bool {
    raw.auth matches Some(a) && a.demo matches Some(d) && d.enabled
}

/// The demo attestation authority is enabled.
pub open spec fn demo_attestation_enabled(raw: RawConfig) -> bool {
    raw.attestation matches Some(a) && a.demo matches Some(d) && d.enabled
}

/// An attestation authority is configured.
pub open spec fn located(raw: RawConfig) -> bool {
    raw.attestation matches Some(a) && a.location is Some
}

/// `key` is the first environment key, in ascending order, whose value is
/// not a scalar.
pub open spec fn first_non_scalar(env: Map<Seq<char>, EnvValue>, key: Seq<char>) -> bool {
    &&& env.contains_key(key)
    &&& scalar_text(env[key]) is None
    &&& forall|k: Seq<char>| #[trigger]
        env.contains_key(k) && text::precedes(k, key) ==> scalar_text(env[k]) is Some
}

/// Every environment value is a scalar.
pub open spec fn all_scalar(env: Map<Seq<char>, EnvValue>) -> bool {
    forall|k: Seq<char>| #[trigger] env.contains_key(k) ==> scalar_text(env[k]) is Some
}

/// Coerces the environment values to strings, in ascending order of key.
fn build_env(env: &NameMap<EnvValue>) -> (r: Result<NameMap<String>, ConfigError>)
    ensures
        match r {
            Ok(m) => all_scalar(env.map()) && m.texts().dom() == env.map().dom() && forall|
                k: Seq<char>,
            | #[trigger]
                m.texts().contains_key(k) ==> Some(m.texts()[k]) == scalar_text(env.map()[k]),
            Err(e) => e matches ConfigError::NonScalarEnv { key } && first_non_scalar(
                env.map(),
                key@,
            ),
        },
{
    let n: usize = env.len();
    let ghost names = env.names();
    let mut m: NameMap<String> = NameMap::new();
    let mut i: usize = 0;
    while i < n
        invariant
            n == names.len(),
            names == env.names(),
            env.lists(),
            i <= n,
            forall|j: int|
                0 <= j < i ==> scalar_text(env.map()[#[trigger] names[j]]) is Some,
            forall|k: Seq<char>| #[trigger]
                m.texts().contains_key(k) <==> names.take(i as int).contains(k),
            forall|k: Seq<char>| #[trigger]
                m.texts().contains_key(k) ==> Some(m.texts()[k]) == scalar_text(env.map()[k]),
        decreases n - i,
    {
        let ghost y = names[i as int];
        match env_scalar_to_string(env.name_at(i), env.value_at(i)) {
            Ok(s) => {
                let ghost before = m.texts();
                let ghost t = s@;
                m.insert(text::owned(env.name_at(i)), s);
                proof {
                    assert(m.texts() =~= before.insert(y, t));
                    assert(names.take(i + 1) =~= names.take(i as int).push(y));
                    assert forall|k: Seq<char>| #[trigger]
                        m.texts().contains_key(k) <==> names.take(i + 1).contains(k) by {
                        template::lemma_push_contains(names.take(i as int), y, k);
                        assert(before.contains_key(k) <==> names.take(i as int).contains(k));
                    }
                }
            },
            Err(e) => {
                proof {
                    assert(env.map().contains_key(y));
                    assert forall|k: Seq<char>| #[trigger]
                        env.map().contains_key(k) && text::precedes(k, y) implies scalar_text(
                        env.map()[k],
                    ) is Some by {
                        assert(names.contains(k));
                        let j = choose|j: int| 0 <= j < names.len() && names[j] == k;
                        if j > i {
                            assert(text::precedes(names[i as int], names[j]));
                            text::lemma_precedes_transitive(k, y, k);
                            text::lemma_precedes_irreflexive(k);
                        } else if j == i {
                            text::lemma_precedes_irreflexive(k);
                        }
                    }
                }
                return Err(e);
            },
        }
        i = i + 1;
    }
    proof {
        assert(names.take(n as int) =~= names);
        assert forall|k: Seq<char>| #[trigger] env.map().contains_key(k) implies scalar_text(
            env.map()[k],
        ) is Some by {
            assert(names.contains(k));
            let j = choose|j: int| 0 <= j < names.len() && names[j] == k;
            assert(scalar_text(env.map()[names[j]]) is Some);
        }
        assert(m.texts().dom() =~= env.map().dom()) by {
            assert forall|k: Seq<char>| m.texts().dom().contains(k) <==> env.map().dom().contains(
                k,
            ) by {
                assert(m.texts().contains_key(k) <==> names.contains(k));
                assert(names.contains(k) <==> env.map().contains_key(k));
            }
        }
    }
    Ok(m)
}

/// A copy of the store table.
fn copy_store(s: &Store) -> (r: Store)
    ensures
        r.bucket@ == s.bucket@,
        opt_text(r.endpoint) == opt_text(s.endpoint),
        opt_text(r.region) == opt_text(s.region),
{
    Store {
        bucket: s.bucket.clone(),
        endpoint: copy_opt(&s.endpoint),
        region: copy_opt(&s.region),
    }
}

/// The configuration that raw values give.
pub open spec fn config_of(
    c: Config,
    raw: RawConfig,
    reads: Seq<PolicyRead>,
    addr: Result<TcpAddr, String>,
) -> bool {
    let data_dir = dir_of(raw.data_dir, DEFAULT_DATA_DIR@);
    let roles_dir = dir_of(raw.roles_dir, DEFAULT_ROLES_DIR@);
    &&& c.audience@ == raw.audience@
    &&& c.data_dir@ == data_dir
    &&& c.roles_dir@ == roles_dir
    &&& listener_result(
        Ok(c.listener),
        listener_of(opt_text(raw.bind), opt_text(raw.socket), data_dir),
        addr,
    )
    &&& c.store.bucket@ == raw.store.bucket@
    &&& opt_text(c.store.endpoint) == opt_text(raw.store.endpoint)
    &&& opt_text(c.store.region) == opt_text(raw.store.region)
    &&& all_scalar(raw.env.map())
    &&& c.env.texts().dom() == raw.env.map().dom()
    &&& forall|k: Seq<char>| #[trigger]
        c.env.texts().contains_key(k) ==> Some(c.env.texts()[k]) == scalar_text(raw.env.map()[k])
    &&& c.demo_auth is Some == (raw.auth is Some && raw.auth->0.demo is Some)
    &&& c.demo_auth matches Some(d) ==> {
        let raw_demo = raw.auth->0.demo->0;
        d.enabled == raw_demo.enabled && opt_text(d.socket) == demo_socket(
            raw_demo.enabled,
            raw_demo.socket,
            data_dir,
            "auth.sock"@,
        )
    }
    &&& c.demo_attestation is Some == (raw.attestation is Some && raw.attestation->0.demo is Some)
    &&& c.demo_attestation matches Some(d) ==> {
        let raw_demo = raw.attestation->0.demo->0;
        d.enabled == raw_demo.enabled && opt_text(d.socket) == demo_socket(
            raw_demo.enabled,
            raw_demo.socket,
            data_dir,
            "attest.sock"@,
        )
    }
    &&& opt_text(c.auth_location) == (match raw.auth {
        Some(a) => opt_text(a.location),
        None => None,
    })
    &&& opt_text(c.attestation_location) == (match raw.attestation {
        Some(a) => opt_text(a.location),
        None => None,
    })
    &&& roles_of(c.roles.map(), raw.roles@, reads, roles_dir, raw.roles@.len() as int)
}

impl Config {
    /// Validates raw configuration values. `reads` holds what reading
    /// each role's policy file gave, in the order of the roles, and
    /// `addr` what the text of [`bind_text`] parsed to.
    ///
    /// Roles are checked in order, then the listener, then that the demo
    /// attestation authority has the demo auth role, then the environment
    /// values.
    pub fn from_raw(
        raw: &RawConfig,
        reads: &[PolicyRead],
        addr: Result<TcpAddr, String>,
        admin: Option<AdminCredential>,
    ) -> (r: Result<Config, ConfigError>)
        requires
            reads@.len() == raw.roles@.len(),
        ensures
            ({
                let data_dir = dir_of(raw.data_dir, DEFAULT_DATA_DIR@);
                let roles_dir = dir_of(raw.roles_dir, DEFAULT_ROLES_DIR@);
                let n = raw.roles@.len() as int;
                let roles_fine = roles_ok(raw.roles@, reads@, located(*raw), n);
                let listener = listener_of(opt_text(raw.bind), opt_text(raw.socket), data_dir);
                match r {
                    Ok(c) => roles_fine && config_of(c, *raw, reads@, addr) && c.admin == admin
                        && (demo_attestation_enabled(*raw) ==> demo_auth_enabled(*raw)),
                    Err(e) => {
                        ||| exists|i: int, f: RoleFault| #[trigger]
                            first_fault(raw.roles@, reads@, located(*raw), i, f) && role_error(
                                e,
                                raw.roles@[i],
                                roles_dir,
                                f,
                            )
                        ||| roles_fine && listener_result(Err(e), listener, addr)
                        ||| roles_fine && (listener is Uds || listener is Tcp && addr is Ok) && (e
                            == ConfigError::DemoAttestationWithoutDemoAuth
                            && demo_attestation_enabled(*raw) && !demo_auth_enabled(*raw))
                        ||| roles_fine && (listener is Uds || listener is Tcp && addr is Ok) && (
                        demo_attestation_enabled(*raw) ==> demo_auth_enabled(*raw)) && (
                        e matches ConfigError::NonScalarEnv { key } && first_non_scalar(
                            raw.env.map(),
                            key@,
                        ))
                    },
                }
            }),
    {
        let roles_dir = dir_or(&raw.roles_dir, DEFAULT_ROLES_DIR);
        let (auth_location, demo_auth_raw) = match &raw.auth {
            Some(a) => (copy_opt(&a.location), a.demo.as_ref()),
            None => (None, None),
        };
        let (attestation_location, demo_attestation_raw) = match &raw.attestation {
            Some(a) => (copy_opt(&a.location), a.demo.as_ref()),
            None => (None, None),
        };
        let roles = match build_roles(
            &raw.roles,
            reads,
            roles_dir.as_str(),
            attestation_location.is_some(),
        ) {
            Ok(m) => m,
            Err(e) => {
                return Err(e);
            },
        };
        let data_dir = dir_or(&raw.data_dir, DEFAULT_DATA_DIR);
        let listener = match resolve_listener(&raw.bind, &raw.socket, data_dir.as_str(), addr) {
            Ok(l) => l,
            Err(e) => {
                return Err(e);
            },
        };
        let demo_auth = match demo_auth_raw {
            Some(d) => Some(
                DemoAuth {
                    enabled: d.enabled,
                    socket: demo_socket_path(d.enabled, &d.socket, data_dir.as_str(), "auth.sock"),
                },
            ),
            None => None,
        };
        let demo_attestation = match demo_attestation_raw {
            Some(d) => Some(
                DemoAttestation {
                    enabled: d.enabled,
                    socket: demo_socket_path(
                        d.enabled,
                        &d.socket,
                        data_dir.as_str(),
                        "attest.sock",
                    ),
                },
            ),
            None => None,
        };
        let attestation_on = match &demo_attestation {
            Some(d) => d.enabled,
            None => false,
        };
        let auth_on = match &demo_auth {
            Some(d) => d.enabled,
            None => false,
        };
        if attestation_on && !auth_on {
            return Err(ConfigError::DemoAttestationWithoutDemoAuth);
        }
        let env = match build_env(&raw.env) {
            Ok(m) => m,
            Err(e) => {
                return Err(e);
            },
        };
        Ok(
            Config {
                audience: raw.audience.clone(),
                data_dir,
                roles_dir,
                listener,
                store: copy_store(&raw.store),
                env,
                admin,
                demo_auth,
                demo_attestation,
                auth_location,
                attestation_location,
                roles,
            },
        )
    }

    /// Resolves only the listener of a configuration, so that a client can
    /// find the local server without its roles at hand. `addr` is what the
    /// text of [`bind_text`] parsed to as a socket address.
    pub fn load_listener(raw: &RawConfig, addr: Result<TcpAddr, String>) -> (r: Result<
        Listener,
        ConfigError,
    >)
        ensures
            listener_result(
                r,
                listener_of(
                    opt_text(raw.bind),
                    opt_text(raw.socket),
                    dir_of(raw.data_dir, DEFAULT_DATA_DIR@),
                ),
                addr,
            ),
    {
        let data_dir = dir_or(&raw.data_dir, DEFAULT_DATA_DIR);
        resolve_listener(&raw.bind, &raw.socket, data_dir.as_str(), addr)
    }
}

} // verus!
