//! What a starting server provisions and listens on.

use crate::config::{Config, Listener, TcpAddr};
use crate::crypto;
use crate::http::enroll;
use crate::issuance;
use crate::keyring::{Keyring, KeyringView};
use crate::macaroon;
use crate::macaroon::MacaroonView;
use crate::pop;
use crate::text;
use crate::tpc;
use vstd::prelude::*;

verus! {

/// The admin service token and its machine key, as they are written.
#[derive(Debug)]
pub struct AdminServiceFiles {
    /// The token's text.
    pub token: String,
    /// The key's seed in hexadecimal.
    pub key_hex: String,
}

/// Whether the admin service token is to be minted: either of its files is
/// missing. A partial pair is repaired with a fresh key.
pub fn needs_admin_service(token_exists: bool, key_exists: bool) -> (r: bool)
    ensures
        r == !(token_exists && key_exists),
{
    !(token_exists && key_exists)
}

/// The files are those of a token under the current generation whose key
/// has this seed.
pub open spec fn is_admin_pair(
    f: AdminServiceFiles,
    ring: KeyringView,
    k_m_a: Seq<u8>,
    audience: Seq<char>,
    org_id: Seq<char>,
    location: Seq<char>,
    seed: Seq<u8>,
    token: MacaroonView,
) -> bool {
    &&& seed.len() == 32
    &&& f.key_hex@ == text::hex_of(seed)
    &&& f.token@ == macaroon::token_of(token)
    &&& exists|r: Seq<u8>| #[trigger]
        issuance::minted_gated(
            token,
            ring,
            issuance::admin_caveats(audience, pop::cnf_of(crypto::ed25519_public(seed))),
            r,
            k_m_a,
            tpc::cid_layout(r, issuance::ADMIN_SERVICE_CLIENT_ID@, org_id),
            location,
        )
}

/// The files are those of some key and its token.
pub open spec fn are_admin_files(
    f: AdminServiceFiles,
    ring: KeyringView,
    k_m_a: Seq<u8>,
    audience: Seq<char>,
    org_id: Seq<char>,
    location: Seq<char>,
) -> bool {
    exists|seed: Seq<u8>, token: MacaroonView| #[trigger]
        is_admin_pair(f, ring, k_m_a, audience, org_id, location, seed, token)
}

/// Mints the admin service token and its machine key. Without an auth
/// integration there is no admin plane, and nothing to write.
pub fn admin_service(
    gates: &enroll::GateConfig<'_>,
    keyring: &Keyring,
    audience: &str,
) -> (r: Result<Option<AdminServiceFiles>, String>)
    requires
        tpc::sealable(
            issuance::ADMIN_SERVICE_CLIENT_ID@,
            enroll::org_of(gates.org_id),
            Seq::empty(),
        ),
    ensures
        match (gates.k_m_a, gates.location) {
            (None, _) => r matches Ok(None),
            (Some(_), None) => r is Err && r->Err_0@
                == "admin-service: K_M-A present without auth_location"@,
            (Some(key), Some(location)) => {
                &&& r matches Ok(Some(f))
                &&& are_admin_files(
                    f,
                    keyring@,
                    key@,
                    audience@,
                    enroll::org_of(gates.org_id),
                    location@,
                )
            },
        },
{
    let key = match gates.k_m_a {
        Some(k) => k,
        None => {
            return Ok(None);
        },
    };
    let location = match gates.location {
        Some(l) => l,
        None => {
            return Err(text::owned("admin-service: K_M-A present without auth_location"));
        },
    };
    let org = match gates.org_id {
        Some(o) => o,
        None => enroll::DEFAULT_ORG,
    };
    assert(org@ == enroll::org_of(gates.org_id));
    let seed = crypto::random32();
    let cnf = pop::cnf_value(&seed);
    let token = issuance::mint_admin_service_token(
        keyring,
        key,
        audience,
        cnf.as_str(),
        org,
        location,
    );
    let files = AdminServiceFiles { token: token.encode(), key_hex: text::encode_hex(&seed) };
    assert(is_admin_pair(
        files,
        keyring@,
        key@,
        audience@,
        enroll::org_of(gates.org_id),
        location@,
        seed@,
        token@,
    ));
    assert(are_admin_files(
        files,
        keyring@,
        key@,
        audience@,
        enroll::org_of(gates.org_id),
        location@,
    ));
    Ok(Some(files))
}

/// The listener to bind: an address given on the command line overrides
/// the configured one.
pub fn choose_listener(bind_override: Option<TcpAddr>, configured: Listener) -> (r: Listener)
    ensures
        r == (match bind_override {
            Some(a) => Listener::Tcp(a),
            None => configured,
        }),
{
    match bind_override {
        Some(a) => Listener::Tcp(a),
        None => configured,
    }
}

/// Which secrets a server loads, and whether it may make them itself.
#[derive(Debug, Clone, Copy, PartialEq, Eq, Structural)]
pub struct KeyPlan {
    /// The key shared with the auth role.
    pub k_m_a: bool,
    /// The session key of the demo auth role.
    pub k_session: bool,
    /// The key shared with the attestation authority.
    pub k_m_b: bool,
    /// Secrets that are missing are generated. Only a demo does so; a
    /// production server fails closed.
    pub generate: bool,
}

/// Some role is attested.
pub open spec fn has_attested_role(c: Config) -> bool {
    exists|x: Seq<char>| #[trigger]
        c.roles.map().contains_key(x) && c.roles.map()[x].attestation_mode is Some
}

fn any_attested(config: &Config) -> (r: bool)
    ensures
        r == has_attested_role(*config),
{
    let n: usize = config.roles.len();
    let ghost names = config.roles.names();
    let mut i: usize = 0;
    while i < n
        invariant
            n == names.len(),
            names == config.roles.names(),
            config.roles.lists(),
            i <= n,
            forall|j: int|
                0 <= j < i ==> config.roles.map()[#[trigger] names[j]].attestation_mode is None,
        decreases n - i,
    {
        if config.roles.value_at(i).attestation_mode.is_some() {
            assert(config.roles.map().contains_key(names[i as int]));
            return true;
        }
        i = i + 1;
    }
    proof {
        assert forall|x: Seq<char>| #[trigger]
            config.roles.map().contains_key(x) implies config.roles.map()[x].attestation_mode
            is None by {
            assert(names.contains(x) <==> config.roles.map().contains_key(x));
            let j = choose|j: int| 0 <= j < names.len() && names[j] == x;
            assert(config.roles.map()[names[j]].attestation_mode is None);
        }
    }
    false
}

/// The demo auth role is enabled.
pub open spec fn demo_on(c: Config) -> bool {
    c.demo_auth matches Some(d) && d.enabled
}

/// The demo attestation authority is enabled.
pub open spec fn attest_demo_on(c: Config) -> bool {
    c.demo_attestation matches Some(d) && d.enabled
}

/// The secrets that a configuration needs: those of the auth role where
/// one is configured, the session key only for the demo, those of the
/// attestation authority where a role is attested or the demo runs one.
pub fn key_plan(config: &Config) -> (r: KeyPlan)
    ensures
        r.generate == demo_on(*config),
        r.k_m_a == (demo_on(*config) || config.auth_location is Some),
        r.k_session == demo_on(*config),
        r.k_m_b == (has_attested_role(*config) || attest_demo_on(*config)),
{
    let demo = match &config.demo_auth {
        Some(d) => d.enabled,
        None => false,
    };
    let attest = match &config.demo_attestation {
        Some(d) => d.enabled,
        None => false,
    };
    KeyPlan {
        k_m_a: demo || config.auth_location.is_some(),
        k_session: demo,
        k_m_b: any_attested(config) || attest,
        generate: demo,
    }
}

} // verus!
