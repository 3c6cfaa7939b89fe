//! What calls on keys, seals, tokens and files return.

use crate::admin;
use crate::admin::{Authored, EnrollmentRow, EnrollmentState, EnrollmentView};
use crate::caveat;
use crate::caveat::{name, Caveat, CaveatView, ResolvedView};
use crate::client;
use crate::client::ClientError;
use crate::config;
use crate::config::{AdminCredential, Config, ConfigError, PolicyRead, RawConfig, TcpAddr};
use crate::config::surface;
use crate::crypto;
use crate::http;
use crate::http::exchange;
use crate::http::exchange::AttestationConfig;
use crate::http::{Bundle, ClearedBundle, VerifyClearError};
use crate::iam;
use crate::iam::{FakeMinter, MintError, MintedKeypair};
use crate::issuance;
use crate::issuance::{AttestedTpc, EnrollError};
use crate::json;
use crate::keyring;
use crate::keyring::{KeyFile, Keyring, KeyringError, Kid};
use crate::macaroon;
use crate::macaroon::Macaroon;
use crate::map::NameMap;
use crate::operator::{Operator, OperatorError};
use crate::pop;
use crate::pop::Proof;
use crate::seal;
use crate::seal::{Seal, SealError, Startup};
use crate::sealed_cache;
use crate::sealed_cache::{CachePlan, CacheState, SealState, ServedSurface};
use crate::serve;
use crate::session;
use crate::session::{FileText, SessionError};
use crate::template;
use crate::template::TemplateSurface;
use crate::text;
use crate::time;
use crate::time::UtcTime;
use crate::tpc;
use vstd::prelude::*;
use vstd::utf8::*;

verus! {

/// An opened keyring has the generations of its files; a fresh one has the
/// first generation alone, under the key that was supplied.
pub proof fn law_opened_keyring_has_its_generations(
    files: &[KeyFile],
    pointer: Option<&str>,
    initial_key: Option<[u8; 32]>,
    r: Result<(Keyring, bool), KeyringError>,
)
    requires
        call_ensures(Keyring::open, (files, pointer, initial_key), r),
    ensures
        r is Ok <==> keyring::first_malformed(files@) is None,
        r matches Ok((k, fresh)) ==> {
            &&& fresh <==> forall|kid: Kid| !(#[trigger] keyring::keys_in(files@).contains_key(kid))
            &&& fresh ==> k@.current == 0
            &&& fresh && initial_key is Some ==> k@.keys.contains_key(0) && k@.keys[0]
                == initial_key->0@
            &&& fresh ==> forall|kid: Kid| #[trigger] k@.keys.contains_key(kid) ==> kid == 0
            &&& !fresh ==> k@.keys == keyring::keys_in(files@)
            &&& !fresh && pointer is None ==> forall|kid: Kid| #[trigger]
                k@.keys.contains_key(kid) ==> kid <= k@.current
            &&& !fresh ==> k@.keys.contains_key(k@.current)
        },
{
    if let Ok((k, fresh)) = r {
        let keys = keyring::keys_in(files@);
        assert forall|kid: Kid| fresh implies !(#[trigger] keys.contains_key(kid)) by {
            assert(!keys.dom().contains(kid));
        }
        if forall|kid: Kid| !(#[trigger] keys.contains_key(kid)) {
            assert(keys.dom() =~= Set::<Kid>::empty());
        }
        if fresh {
            assert(k@.keys.dom().contains(0));
            assert forall|kid: Kid| #[trigger] k@.keys.contains_key(kid) implies kid == 0 by {
                assert(k@.keys.dom().contains(kid));
            }
        } else {
            assert(k@.keys.dom() == keys.dom());
            assert forall|kid: Kid| pointer is None && #[trigger]
                k@.keys.contains_key(kid) implies kid <= k@.current by {
                assert(keys.dom().contains(kid));
            }
            assert(keys.dom().contains(k@.current));
        }
    }
}

/// A generation's key is found under its own number, and the numbers are
/// told in order.
pub proof fn law_generations_are_found(ring: &Keyring, kid: Kid, r: Option<&[u8; 32]>, all: Vec<Kid>)
    requires
        call_ensures(Keyring::get, (ring, kid), r),
        call_ensures(Keyring::kids, (ring,), all),
    ensures
        r is Some <==> ring@.keys.contains_key(kid),
        r matches Some(k) ==> k@ == ring@.keys[kid],
        all@.contains(kid) <==> ring@.keys.contains_key(kid),
        forall|i: int, j: int| 0 <= i < j < all@.len() ==> all@[i] < all@[j],
{
}

/// A keyring of one key has it as its first and current generation.
pub proof fn law_single_key_is_current(key: [u8; 32], r: Keyring)
    requires
        call_ensures(Keyring::single, (key,), r),
    ensures
        r@.current == 0,
        r@.keys.contains_key(0),
        r@.keys[0] == key@,
        forall|kid: Kid| #[trigger] r@.keys.contains_key(kid) ==> kid == 0,
{
}

/// At startup nothing is served but what the bucket's seal pins, and that
/// only where the seal verifies; a host without one is dormant.
pub proof fn law_startup_serves_what_is_verified(
    config: &Config,
    ring: &Keyring,
    bucket: Option<Seal>,
    cache: Result<CacheState, SealError>,
    r: Result<Startup, String>,
)
    requires
        call_ensures(seal::resolve_startup, (config, ring, bucket, cache), r),
    ensures
        r matches Ok(s) ==> (s.state matches SealState::Serving(f) ==> {
            &&& bucket matches Some(b)
            &&& f.seal@ == b@
            &&& seal::verifies(b@, ring@)
        }),
        bucket is None ==> (r matches Ok(s) && s.state is Dormant && s.plan is None),
        bucket matches Some(b) ==> {
            &&& !seal::verifies(b@, ring@) ==> (r matches Ok(s) && s.state is Dormant
                && s.plan is None)
            &&& seal::verifies(b@, ring@) && cache is Ok && seal::intent_of(*config) == b@.intent
                ==> (r matches Ok(s) && s.state is Serving)
        },
        r is Err ==> cache is Err,
{
}

/// A seal that is authored is of the configuration, under the current
/// generation, and is told as it is: with its time, its generation and the
/// hash of every role's template.
pub proof fn law_authored_seal_is_told(
    config: &Config,
    ring: &Keyring,
    sealed_at: &str,
    r: Result<Authored, ConfigError>,
    x: Seq<char>,
)
    requires
        call_ensures(admin::author_seal, (config, ring, sealed_at), r),
    ensures
        r is Ok <==> surface::sealable_config(*config),
        r matches Ok(a) ==> {
            &&& a.seal@.intent.audience == config.audience@
            &&& a.seal@.kid == ring@.current
            &&& a.seal@.sealed_at == sealed_at@
            &&& seal::verifies(a.seal@, ring@)
            &&& a.surface.seal@ == a.seal@
            &&& a.response.kid == ring@.current
            &&& a.response.sealed_at@ == sealed_at@
            &&& a.response.roles.texts().contains_key(x) <==> config.roles.map().contains_key(x)
            &&& config.roles.map().contains_key(x) ==> a.response.roles.texts()[x] == text::hex_of(
                crypto::blake3_hash(encode_utf8(config.roles.map()[x].policy@)),
            )
            &&& config.roles.map().contains_key(x) ==> a.surface.templates@.contains_key(x)
                && a.surface.templates@[x] == config.roles.map()[x].policy@
            &&& a.surface.env.texts() == config.env.texts()
        },
{
    if let Ok(a) = r {
        let sealed = a.seal@.intent.roles;
        super::operating::law_told_hashes_are_the_sealed_ones(a.seal.roles, x);
        assert(sealed.dom() == seal::intent_of(*config).roles.dom());
        assert(sealed.contains_key(x) <==> a.seal.roles.map().contains_key(x));
        if config.roles.map().contains_key(x) {
            assert(sealed[x] == seal::sealed_of(config.roles.map()[x]));
            assert(a.seal.roles.map()[x]@ == sealed[x]);
        }
    }
}

/// What an exchange is stamped with is the role's own mode, and the key, the
/// location and the organisation that are configured.
pub proof fn law_exchange_is_stamped_with_the_roles_mode(
    config: &Config,
    role: Option<&str>,
    k_m_b: Option<&[u8; 32]>,
    org_id: Option<&str>,
    r: AttestationConfig<'_>,
)
    requires
        call_ensures(exchange::attestation_config, (config, role, k_m_b, org_id), r),
    ensures
        role is None ==> r.mode is None,
        role matches Some(q) ==> {
            &&& !config.roles.map().contains_key(q@) ==> r.mode is None
            &&& config.roles.map().contains_key(q@) ==> match config.roles.map()[q@].attestation_mode {
                Some(m) => r.mode is Some && r.mode->0@ == m@,
                None => r.mode is None,
            }
        },
        match config.attestation_location {
            Some(l) => r.location is Some && r.location->0@ == l@,
            None => r.location is None,
        },
        r.k_m_b == k_m_b,
        r.org_id == org_id,
{
}

/// An invite that is minted is for enrolling with this audience under this
/// nonce, and is gated by the authority at this location.
pub proof fn law_minted_invite_opens_enrollment(
    ring: &Keyring,
    k_m_a: &[u8; 32],
    audience: &str,
    invite_nonce: &str,
    org_id: &str,
    location: &str,
    m: Macaroon,
)
    requires
        call_ensures(
            issuance::mint_invite,
            (ring, k_m_a, audience, invite_nonce, org_id, location),
            m,
        ),
    ensures
        super::issuing::current_of(m@, ring@),
        caveat::resolved(m@.caveats, name::OP@) == ResolvedView::Value("enroll"@),
        caveat::resolved(m@.caveats, name::AUD@) == ResolvedView::Value(audience@),
        caveat::resolved(m@.caveats, name::INVITE@) == ResolvedView::Value(invite_nonce@),
        m@.caveats.last() matches caveat::CaveatView::ThirdParty { location: l, .. } && l
            == location@,
{
    let r = choose|r: Seq<u8>| #[trigger]
        issuance::minted_gated(
            m@,
            ring@,
            issuance::invite_caveats(audience@, invite_nonce@),
            r,
            k_m_a@,
            tpc::cid_layout(r, issuance::INVITE_CLIENT_ID@, org_id@),
            location@,
        );
    super::issuing::law_invite_opens_enrollment(
        m@,
        ring@,
        audience@,
        invite_nonce@,
        r,
        k_m_a@,
        tpc::cid_layout(r, issuance::INVITE_CLIENT_ID@, org_id@),
        location@,
        name::SUB@,
    );
}

/// A token of the admin service that is minted is for this audience and this
/// key, and is gated by the authority at this location.
pub proof fn law_minted_admin_token_names_no_verb(
    ring: &Keyring,
    k_m_a: &[u8; 32],
    audience: &str,
    cnf: &str,
    org_id: &str,
    location: &str,
    m: Macaroon,
)
    requires
        call_ensures(
            issuance::mint_admin_service_token,
            (ring, k_m_a, audience, cnf, org_id, location),
            m,
        ),
    ensures
        super::issuing::current_of(m@, ring@),
        caveat::resolved(m@.caveats, name::AUD@) == ResolvedView::Value(audience@),
        caveat::resolved(m@.caveats, name::CNF@) == ResolvedView::Value(cnf@),
        caveat::resolved(m@.caveats, name::OP@) is Absent,
        m@.caveats.last() matches caveat::CaveatView::ThirdParty { location: l, .. } && l
            == location@,
{
    let r = choose|r: Seq<u8>| #[trigger]
        issuance::minted_gated(
            m@,
            ring@,
            issuance::admin_caveats(audience@, cnf@),
            r,
            k_m_a@,
            tpc::cid_layout(r, issuance::ADMIN_SERVICE_CLIENT_ID@, org_id@),
            location@,
        );
    super::issuing::law_admin_token_names_no_verb(
        m@,
        ring@,
        audience@,
        cnf@,
        r,
        k_m_a@,
        tpc::cid_layout(r, issuance::ADMIN_SERVICE_CLIENT_ID@, org_id@),
        location@,
    );
}

/// A credential that is minted without attestation names its subject, its
/// key, its role and its epoch, and needs no discharge.
pub proof fn law_minted_credential_is_for_one_role(
    ring: &Keyring,
    audience: &str,
    sub: &str,
    cnf: &str,
    role: &str,
    rev_epoch: u64,
    m: Macaroon,
)
    requires
        call_ensures(
            issuance::mint_credential,
            (ring, audience, sub, cnf, role, rev_epoch, None::<AttestedTpc<'_>>),
            m,
        ),
    ensures
        super::issuing::current_of(m@, ring@),
        caveat::resolved(m@.caveats, name::OP@) == ResolvedView::Value("assume-role"@),
        caveat::resolved(m@.caveats, name::AUD@) == ResolvedView::Value(audience@),
        caveat::resolved(m@.caveats, name::SUB@) == ResolvedView::Value(sub@),
        caveat::resolved(m@.caveats, name::CNF@) == ResolvedView::Value(cnf@),
        caveat::resolved(m@.caveats, name::ROLE@) == ResolvedView::Value(role@),
        caveat::resolved(m@.caveats, name::EPOCH@) matches ResolvedView::Value(e)
            && text::read_u64(e) == Some(rev_epoch),
        forall|i: int| 0 <= i < m@.caveats.len() ==> (#[trigger] m@.caveats[i]) is FirstParty,
{
    let plain = AttestationConfig { mode: None, k_m_b: None, location: None, org_id: None };
    super::issuing::law_credential_is_for_one_role(
        m@,
        ring@,
        audience@,
        sub@,
        cnf@,
        role@,
        rev_epoch,
        plain,
    );
}

/// A bound identity is the subject and the key that the token names.
pub proof fn law_bound_identity_is_the_tokens(
    token: &Macaroon,
    r: Result<(String, String), EnrollError>,
)
    requires
        call_ensures(issuance::bound_identity, (token,), r),
    ensures
        r matches Ok((sub, cnf)) ==> {
            &&& caveat::resolved(token@.caveats, "sub"@) == ResolvedView::Value(sub@)
            &&& caveat::resolved(token@.caveats, "cnf"@) == ResolvedView::Value(cnf@)
            &&& pop::valid_cnf(cnf@)
        },
        r is Ok <==> caveat::resolved(token@.caveats, "sub"@) is Value && (caveat::resolved(
            token@.caveats,
            "cnf"@,
        ) matches ResolvedView::Value(k) && pop::valid_cnf(k)),
{
    super::issuing::law_identity_is_the_bound_one(token@.caveats);
}

/// A cleared bundle is the one that was presented, and a clearing that is
/// refused is refused for that bundle.
pub proof fn law_clearing_keeps_the_primary(
    bundle: &Bundle,
    ring: &Keyring,
    proof_of: Option<Proof>,
    body: &[u8],
    now_unix: u64,
    aud: &str,
    operation: &str,
    r: Result<ClearedBundle, VerifyClearError>,
)
    requires
        call_ensures(
            http::verify_and_clear,
            (bundle, ring, proof_of, body, now_unix, aud, operation),
            r,
        ),
    ensures
        r matches Ok(c) ==> {
            &&& c.primary@ == bundle.primary@
            &&& caveat::resolved(c.primary@.caveats, "aud"@) == ResolvedView::Value(aud@)
            &&& caveat::resolved(c.primary@.caveats, "op"@) == ResolvedView::Value(operation@)
            &&& bundle.primary@.key_ref matches macaroon::KeyRef::Keyring(kid)
            &&& ring@.keys.contains_key(kid)
            &&& macaroon::authentic(bundle.primary@, ring@.keys[kid])
            &&& c.expires_at matches Some(e) ==> now_unix < e
            &&& c.expires_at is None ==> caveat::bound_of(bundle.primary@.caveats, "exp"@) is None
            &&& caveat::bound_of(bundle.primary@.caveats, "exp"@) matches Some(e) ==> (
            c.expires_at matches Some(t) && t <= e)
        },
{
    if r is Ok {
        let ds = http::views(bundle.discharges@);
        http::law_cleared_bundle_is_authentic(bundle.primary@, ds, ring@, aud@, operation@);
        let q = http::walked(bundle.primary@, ds, ring@, aud@, operation@)->Ok_0;
        lemma_deadline_of_the_primary(bundle.primary@, ds, q);
    }
}

proof fn lemma_deadline_of_the_primary(
    primary: macaroon::MacaroonView,
    ds: Seq<macaroon::MacaroonView>,
    q: http::Taken,
)
    ensures
        caveat::bound_of(primary.caveats, "exp"@) matches Some(e) ==> (http::bundle_exp(
            primary,
            ds,
            q,
        ) matches Some(t) && t <= e),
    decreases q.len(),
{
    if q.len() > 0 {
        lemma_deadline_of_the_primary(primary, ds, q.drop_last());
    }
}

/// The cached files to remove are those that are there and not planned.
pub proof fn law_only_unplanned_files_are_stale(
    existing: &[String],
    plan: &CachePlan,
    r: Vec<String>,
    x: Seq<char>,
)
    requires
        call_ensures(sealed_cache::stale_policies, (existing, plan), r),
    ensures
        text::texts(r@).contains(x) <==> text::texts(existing@).contains(x) && forall|i: int|
            0 <= i < plan.policies@.len() ==> (#[trigger] plan.policies@[i]).name@ != x,
{
    let keep = |x: Seq<char>|
        !exists|i: int|
            0 <= i < plan.policies@.len() && (#[trigger] plan.policies@[i]).name@ == x;
    lemma_kept(text::texts(existing@), keep, x);
}

proof fn lemma_kept(all: Seq<Seq<char>>, keep: spec_fn(Seq<char>) -> bool, x: Seq<char>)
    ensures
        all.filter(keep).contains(x) <==> all.contains(x) && keep(x),
    decreases all.len(),
{
    reveal(Seq::filter);
    if all.len() > 0 {
        let h = all.drop_last();
        lemma_kept(h, keep, x);
        let before = h.filter(keep);
        assert(all =~= h.push(all.last()));
        if h.contains(x) {
            let i = choose|i: int| 0 <= i < h.len() && h[i] == x;
            assert(all[i] == x);
        }
        if all.contains(x) && x != all.last() {
            let i = choose|i: int| 0 <= i < all.len() && all[i] == x;
            assert(h[i] == x);
        }
        let kept = before.push(all.last());
        assert(kept.last() == all.last());
        if before.contains(x) {
            let i = choose|i: int| 0 <= i < before.len() && before[i] == x;
            assert(kept[i] == x);
        }
        if kept.contains(x) && x != all.last() {
            let i = choose|i: int| 0 <= i < kept.len() && kept[i] == x;
            assert(before[i] == x);
        }
        assert(all[all.len() - 1] == all.last());
        assert(kept[kept.len() - 1] == all.last());
    }
}

/// The credential of the administrator is read from the environment where
/// both of its parts are there and not empty.
pub proof fn law_credential_needs_both_parts(
    id: Option<String>,
    secret: Option<String>,
    token: Option<String>,
    r: Option<AdminCredential>,
)
    requires
        call_ensures(AdminCredential::from_env, (id, secret, token), r),
    ensures
        r is Some <==> (id matches Some(a) && a@.len() > 0) && (secret matches Some(b) && b@.len()
            > 0),
        r matches Some(c) ==> {
            &&& c.access_key_id@ == id->0@
            &&& c.secret_access_key@ == secret->0@
            &&& c.session_token is Some <==> (token matches Some(t) && t@.len() > 0)
            &&& c.session_token matches Some(t) ==> t@ == token->0@
        },
{
}

/// A configuration is refused only for a fault that it has, and one that is
/// taken has none.
pub proof fn law_configuration_is_refused_for_its_fault(
    raw: &RawConfig,
    reads: &[PolicyRead],
    addr: Result<TcpAddr, String>,
    admin_key: Option<AdminCredential>,
    r: Result<Config, ConfigError>,
)
    requires
        call_ensures(Config::from_raw, (raw, reads, addr, admin_key), r),
    ensures
        r matches Ok(c) ==> {
            &&& c.audience@ == raw.audience@
            &&& c.store.bucket@ == raw.store.bucket@
            &&& c.admin == admin_key
            &&& c.demo_attestation matches Some(b) ==> (b.enabled ==> (c.demo_auth matches Some(a)
                && a.enabled))
        },
        r matches Err(ConfigError::DemoAttestationWithoutDemoAuth) ==> (
        raw.attestation matches Some(a) && a.demo matches Some(d) && d.enabled) && !(
        raw.auth matches Some(a) && a.demo matches Some(d) && d.enabled),
        r matches Err(ConfigError::NonScalarEnv { key }) ==> raw.env.map().contains_key(key@)
            && config::scalar_text(raw.env.map()[key@]) is None,
{
}

/// A login is kept as it was received, and is read back only where it is a
/// token.
pub proof fn law_login_is_kept(
    s: &str,
    transport: &str,
    kept: Result<(String, String), SessionError>,
    read: &FileText,
    back: Result<String, SessionError>,
)
    requires
        call_ensures(session::save, (s, transport), kept),
        call_ensures(session::load_session, (read,), back),
    ensures
        kept is Ok <==> macaroon::read_token(text::trimmed(s@)) is Some,
        kept matches Ok((a, b)) ==> a@ == text::trimmed(s@) && b@ == text::trimmed(transport@),
        read is Missing ==> back == Err::<String, SessionError>(SessionError::NotLoggedIn),
        read matches FileText::Text(t) ==> {
            &&& back is Ok <==> macaroon::read_token(text::trimmed(t@)) is Some
            &&& back is Ok ==> back->Ok_0@ == text::trimmed(t@)
        },
{
}

/// A login that the authority answers is the session of the answer; one that
/// it refuses is told with the status and the answer.
pub proof fn law_login_is_the_answers_session(
    status: u16,
    body: &str,
    r: Result<String, SessionError>,
)
    requires
        call_ensures(session::read_login, (status, body), r),
    ensures
        r is Ok <==> status == 200 && json::str_field(
            json::json_of(encode_utf8(body@)),
            "session"@,
        ) is Some,
        r matches Ok(t) ==> json::str_field(json::json_of(encode_utf8(body@)), "session"@) == Some(
            t@,
        ),
        status != 200 ==> (r matches Err(SessionError::Login { status: s, body: b }) && s == status
            && b@ == body@),
{
}

/// A discharge is read from a successful answer, whole.
pub proof fn law_discharge_is_the_answers(status: u16, body: &str, r: Result<Macaroon, ClientError>)
    requires
        call_ensures(client::read_discharge, (status, body), r),
    ensures
        r is Ok ==> status == 200,
        status != 200 ==> (r matches Err(ClientError::Server { status: s, body: b }) && s == status
            && b@ == body@),
        r matches Ok(m) ==> (crate::operator::reply_field(body@, "discharge"@) matches Some(t)
            && macaroon::read_token(t) == Some(m@)),
{
}

/// A client's key is kept in hexadecimal and read back, its identity is the
/// public half, and its fingerprint is that of the identity.
pub proof fn law_client_keys_read_back(
    seed: &[u8; 32],
    kept: String,
    public: String,
    who: (String, String),
    raw: &str,
    back: Result<[u8; 32], ClientError>,
)
    requires
        call_ensures(client::key_text, (seed,), kept),
        call_ensures(client::pub_text, (seed,), public),
        call_ensures(client::identity, (seed,), who),
        call_ensures(client::decode_key, (raw,), back),
    ensures
        kept@ == text::hex_of(seed@) + "\n"@,
        public@ == text::hex_of(crypto::ed25519_public(seed@)) + "\n"@,
        who.0@ == "ed25519:"@ + crypto::base64(crypto::ed25519_public(seed@)),
        who.1@ == client::fingerprint_of(who.0@),
        raw@ == kept@ ==> back is Ok && back->Ok_0@ == seed@,
        back matches Ok(k) ==> text::read_hex32(text::trimmed(raw@)) == Some(k@),
{
}

/// A client's proof is its signature over the token and the body, in the
/// form in which it is presented.
pub proof fn law_client_signs_token_and_body(
    seed: &[u8; 32],
    tail: &[u8; 32],
    body: &[u8],
    r: String,
)
    requires
        call_ensures(pop::client_signature, (seed, tail, body), r),
    ensures
        r@ == crypto::base64(
            crypto::ed25519_signature(seed@, pop::signed_digest(tail@, body@)),
        ),
{
}

/// The operator's token and key are read from their own files.
pub proof fn law_operator_has_its_own_files(
    token_text: &str,
    key_hex: &str,
    r: Result<Operator, OperatorError>,
)
    requires
        call_ensures(Operator::load, (token_text, key_hex), r),
    ensures
        r matches Ok(o) ==> macaroon::read_token(text::trimmed(token_text@)) == Some(o@.token)
            && text::read_hex32(text::trimmed(key_hex@)) == Some(o@.seed),
        r is Ok <==> macaroon::read_token(text::trimmed(token_text@)) is Some && text::read_hex32(
            text::trimmed(key_hex@),
        ) is Some,
{
}

/// A generation is retired where it is there and not the current one; then
/// it alone is gone, and the current one stays. A ring that refuses stays as
/// it is.
pub proof fn law_retiring_takes_one_generation(
    ring: &mut Keyring,
    kid: Kid,
    r: Result<(), KeyringError>,
    other: Kid,
)
    requires
        call_ensures(Keyring::retire, (ring, kid), r),
    ensures
        r is Ok <==> kid != old(ring)@.current && old(ring)@.keys.contains_key(kid),
        r is Ok ==> !final(ring)@.keys.contains_key(kid),
        final(ring)@.current == old(ring)@.current,
        other != kid ==> (final(ring)@.keys.contains_key(other) <==> old(ring)@.keys.contains_key(
            other,
        )),
        other != kid && old(ring)@.keys.contains_key(other) ==> final(ring)@.keys[other]
            == old(ring)@.keys[other],
        r is Err ==> final(ring)@ == old(ring)@,
        kid == old(ring)@.current ==> r == Err::<(), KeyringError>(
            KeyringError::WouldRetireCurrent,
        ),
        kid != old(ring)@.current && !old(ring)@.keys.contains_key(kid) ==> r == Err::<
            (),
            KeyringError,
        >(KeyringError::UnknownKid(kid)),
{
}

/// A generation that is added becomes the current one, behind all others;
/// it has the key that was supplied, and all others keep theirs.
pub proof fn law_added_generation_is_current(
    ring: &mut Keyring,
    key: Option<[u8; 32]>,
    on_disk: Option<&str>,
    r: Result<Kid, KeyringError>,
    other: Kid,
)
    requires
        call_ensures(Keyring::add_and_promote, (ring, key, on_disk), r),
    ensures
        r matches Ok(n) ==> {
            &&& final(ring)@.current == n
            &&& final(ring)@.keys.contains_key(n)
            &&& !old(ring)@.keys.contains_key(n)
            &&& old(ring)@.keys.contains_key(other) ==> other < n
            &&& n > 0 && old(ring)@.keys.contains_key((n - 1) as Kid)
            &&& key matches Some(k) ==> final(ring)@.keys[n] == k@
            &&& other != n ==> (final(ring)@.keys.contains_key(other)
                <==> old(ring)@.keys.contains_key(other))
            &&& other != n && old(ring)@.keys.contains_key(other) ==> final(ring)@.keys[other]
                == old(ring)@.keys[other]
        },
        r is Err ==> final(ring)@ == old(ring)@,
{
    if let Ok(n) = r {
        let dom = old(ring)@.keys.dom();
        assert(dom.contains(other) ==> other <= n - 1);
        assert(dom.contains(n) ==> n <= n - 1);
        assert(dom.contains((n - 1) as Kid));
    }
}

/// A name that is inserted has its value, every other keeps its own, and
/// what the name had before is told.
pub proof fn law_inserting_binds_one_name(
    m: &mut NameMap<String>,
    k: String,
    v: String,
    r: Option<String>,
    other: Seq<char>,
)
    requires
        call_ensures(NameMap::<String>::insert, (m, k, v), r),
    ensures
        final(m).map().contains_key(k@),
        final(m).map()[k@] == v,
        other != k@ ==> (final(m).map().contains_key(other) <==> old(m).map().contains_key(other)),
        other != k@ && old(m).map().contains_key(other) ==> final(m).map()[other]
            == old(m).map()[other],
        r is Some <==> old(m).map().contains_key(k@),
        r matches Some(w) ==> old(m).map()[k@] == w,
{
}

/// A name is found with the value that it is bound to.
pub proof fn law_names_are_found(m: &NameMap<String>, k: &str, r: Option<&String>)
    requires
        call_ensures(NameMap::<String>::get, (m, k), r),
    ensures
        r is Some <==> m.map().contains_key(k@),
        r matches Some(v) ==> m.map()[k@] == *v,
{
}

/// A row of the enrollment list is the enrollment, column for column.
pub proof fn law_rows_are_their_enrollments(v: EnrollmentView, r: EnrollmentRow)
    requires
        call_ensures(EnrollmentRow::from, (v,), r),
    ensures
        r.sub@ == v.sub@,
        r.state@ == (match v.state {
            EnrollmentState::Pending => "pending"@,
            EnrollmentState::Enrolled => "enrolled"@,
            EnrollmentState::Revoked => "revoked"@,
        }),
        r.pubkey == v.pubkey,
        r.fingerprint@ == v.fingerprint@,
        r.peer_ip == v.peer_ip,
        r.age_seconds == v.age_seconds,
        r.anomalous_pub == v.anomalous_pub,
{
}

/// A field is read from a successful answer, by its key.
pub proof fn law_field_is_the_answers(
    status: u16,
    body: &str,
    key: &'static str,
    r: Result<String, ClientError>,
)
    requires
        call_ensures(client::read_reply, (status, body, key), r),
    ensures
        r is Ok <==> status == 200 && crate::operator::reply_field(body@, key@) is Some,
        r matches Ok(v) ==> crate::operator::reply_field(body@, key@) == Some(v@),
        status != 200 ==> (r matches Err(ClientError::Server { status: s, body: b }) && s == status
            && b@ == body@),
{
}

/// What a client holds under a name is the one value that the chain gives
/// it; a chain that contradicts itself gives none.
pub proof fn law_held_value_is_the_one_value(m: &Macaroon, n: &str, r: Option<String>)
    requires
        call_ensures(client::scalar_value, (m, n), r),
    ensures
        r matches Some(v) ==> caveat::resolved(m@.caveats, n@) == ResolvedView::Value(v@),
        r is Some <==> caveat::resolved(m@.caveats, n@) is Value,
{
}

/// A chain has a value under a name where it gives that value and no other.
pub proof fn law_value_is_matched_exactly(
    c: &[Caveat],
    n: &str,
    expected: &str,
    r: bool,
    i: int,
    v: Seq<char>,
)
    requires
        call_ensures(http::scalar_is, (c, n, expected), r),
        0 <= i < c@.len(),
        c@[i]@ == (CaveatView::FirstParty { name: n@, value: v }),
    ensures
        r ==> v == expected@,
{
    let chain = caveat::chain(c@);
    assert(chain[i] == c@[i]@);
    super::chains::law_a_name_resolves_to_what_is_held(chain, n@);
    assert(super::chains::holds(chain, n@, v));
}

/// The admin service is set up where either of its files is missing.
pub proof fn law_missing_file_needs_the_admin_service(token: bool, key: bool, r: bool)
    requires
        call_ensures(serve::needs_admin_service, (token, key), r),
    ensures
        !token ==> r,
        !key ==> r,
        token && key ==> !r,
{
}

/// A peer is the one that is forwarded, and else is not known.
pub proof fn law_peer_is_the_forwarded_one(forwarded: Option<&str>, r: String)
    requires
        call_ensures(http::peer_ip, (forwarded,), r),
    ensures
        forwarded matches Some(ip) ==> r@ == ip@,
        forwarded is None ==> r@ == "unknown"@,
{
}

/// What a surface serves for a role is what is sealed for that role.
pub proof fn law_surface_serves_the_role(
    s: &ServedSurface,
    n: &str,
    sealed: Option<&seal::SealedRole>,
    policy: Option<&str>,
    aud: &str,
)
    requires
        call_ensures(ServedSurface::role, (s, n), sealed),
        call_ensures(ServedSurface::policy, (s, n), policy),
        call_ensures(ServedSurface::audience, (s,), aud),
    ensures
        sealed is Some <==> s.seal@.intent.roles.contains_key(n@),
        sealed matches Some(x) ==> x@ == s.seal@.intent.roles[n@],
        policy is Some <==> s.templates@.contains_key(n@),
        policy matches Some(p) ==> p@ == s.templates@[n@],
        aud@ == s.seal@.intent.audience,
{
}

/// The pointer and the key of a generation are written so that they read
/// back.
pub proof fn law_key_files_are_written_to_read_back(
    kid: Kid,
    key: &[u8; 32],
    pointer: String,
    contents: String,
    back: Option<Kid>,
    written: &str,
)
    requires
        call_ensures(keyring::pointer_text, (kid,), pointer),
        call_ensures(keyring::key_file_text, (key,), contents),
        call_ensures(keyring::read_pointer, (written,), back),
        written@ == pointer@,
    ensures
        back == Some(kid),
        keyring::key_in(contents@) == Some(key@),
{
    keyring::law_pointer_reads_back(kid);
    keyring::law_key_file_reads_back(key@);
}

/// The current key is that of the current generation, and a copy of a ring
/// is that ring.
pub proof fn law_current_key_is_the_current_generations(
    ring: &Keyring,
    kid: Kid,
    key: &[u8; 32],
    other: Keyring,
)
    requires
        call_ensures(Keyring::current_kid, (ring,), kid),
        call_ensures(Keyring::current_key, (ring,), key),
        call_ensures(Keyring::copy, (ring,), other),
    ensures
        kid == ring@.current,
        ring@.keys.contains_key(kid),
        key@ == ring@.keys[kid],
        other@ == ring@,
{
}

/// A keypair is recorded with the policy it was minted under, and is handed
/// out with the deadline that was asked for; a lifetime beyond the limit is
/// refused.
pub proof fn law_minted_keypair_is_recorded(
    minter: &mut FakeMinter,
    policy_name: &str,
    policy_json: &str,
    ttl_seconds: u64,
    now: UtcTime,
    r: Result<MintedKeypair, MintError>,
)
    requires
        call_ensures(
            FakeMinter::mint_keypair,
            (minter, policy_name, policy_json, ttl_seconds, now),
            r,
        ),
        now.seconds + ttl_seconds <= time::MAX_SECONDS,
    ensures
        final(minter)@.len() == old(minter)@.len() + 1,
        forall|i: int| 0 <= i < old(minter)@.len() ==> final(minter)@[i] == old(minter)@[i],
        final(minter)@.last().policy_name == policy_name@,
        final(minter)@.last().policy_json == policy_json@,
        final(minter)@.last().ttl_seconds == ttl_seconds,
        r matches Ok(k) ==> {
            &&& k.access_key_id@ == final(minter)@.last().issued_key_id
            &&& k.expiration.seconds == now.seconds + ttl_seconds
            &&& k.expiration.nanos == now.nanos
        },
        r is Ok <==> ttl_seconds <= iam::MAX_TTL_SECONDS,
{
}

/// A ticket that is minted names the subject, the key and the deadline, and
/// is gated by the authority at this location.
pub proof fn law_minted_ticket_names_the_enrolled(
    ring: &Keyring,
    k_m_a: &[u8; 32],
    audience: &str,
    sub: &str,
    cnf: &str,
    exp_unix: u64,
    org_id: &str,
    location: &str,
    m: Macaroon,
)
    requires
        call_ensures(
            issuance::mint_credential_ticket,
            (ring, k_m_a, audience, sub, cnf, exp_unix, org_id, location),
            m,
        ),
    ensures
        super::issuing::current_of(m@, ring@),
        m@.caveats.len() == 6,
        m@.caveats[0] == (CaveatView::FirstParty { name: "op"@, value: "enroll-exchange"@ }),
        m@.caveats[1] == (CaveatView::FirstParty { name: "aud"@, value: audience@ }),
        m@.caveats[2] == (CaveatView::FirstParty { name: "sub"@, value: sub@ }),
        m@.caveats[3] == (CaveatView::FirstParty { name: "cnf"@, value: cnf@ }),
        m@.caveats[4] == (CaveatView::FirstParty {
            name: "exp"@,
            value: text::digits(exp_unix as nat),
        }),
        m@.caveats[5] matches CaveatView::ThirdParty { location: l, .. } && l == location@,
{
    let c = issuance::ticket_caveats(audience@, sub@, cnf@, exp_unix);
    let r = choose|r: Seq<u8>| #[trigger]
        issuance::minted_gated(
            m@,
            ring@,
            c,
            r,
            k_m_a@,
            tpc::cid_layout(r, issuance::TICKET_CLIENT_ID@, org_id@),
            location@,
        );
    assert(issuance::minted_gated(
        m@,
        ring@,
        c,
        r,
        k_m_a@,
        tpc::cid_layout(r, issuance::TICKET_CLIENT_ID@, org_id@),
        location@,
    ));
    assert(m@.caveats.drop_last() == c);
    assert forall|i: int| 0 <= i < 5 implies #[trigger] m@.caveats[i] == c[i] by {
        assert(m@.caveats.drop_last()[i] == m@.caveats[i]);
    }
}

/// The references of a template are listed by namespace.
pub proof fn law_references_are_listed_by_namespace(
    t: &str,
    s: TemplateSurface,
    key: Seq<char>,
)
    requires
        call_ensures(template::template_surface, (t,), s),
    ensures
        text::texts(s.env@).contains("env"@ + "."@ + key) <==> super::configuring::refers_to(
            t@,
            "env"@,
            key,
        ),
        text::texts(s.mint@).contains("mint"@ + "."@ + key) <==> super::configuring::refers_to(
            t@,
            "mint"@,
            key,
        ),
        text::texts(s.attested@).contains("attested"@ + "."@ + key)
            <==> super::configuring::refers_to(t@, "attested"@, key),
        text::texts(s.caveat@).contains("caveat"@ + "."@ + key) <==> super::configuring::refers_to(
            t@,
            "caveat"@,
            key,
        ),
{
}

} // verus!
