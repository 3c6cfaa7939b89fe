//! The admin plane: what its verbs are gated by, and what they answer.
//!
//! Every request carries the admin service token, attenuated to the verb,
//! and a fresh discharge of its third-party caveat. There is no bearer
//! path: the human's authority is the discharge, the machine's identity is
//! the token's key.

use crate::caveat;
use crate::caveat::{name, scope, EffectiveCaveats, Resolved, ResolvedView};
use crate::config;
use crate::config::surface;
use crate::config::{Config, ConfigError};
use crate::http;
use crate::http::enroll;
use crate::http::gate;
use crate::http::gate::{Presented, PresentedView};
use crate::issuance;
use crate::json;
use crate::json::{Json, JsonView};
use crate::keyring::{Keyring, KeyringView, Kid};
use crate::macaroon;
use crate::macaroon::MacaroonView;
use crate::map::NameMap;
use crate::pop;
use crate::pop::PopReject;
use crate::seal;
use crate::seal::{Seal, SealedRole};
use crate::sealed_cache;
use crate::sealed_cache::{CachePlan, ServedSurface};
use crate::template;
use crate::text;
use crate::transport::UNIX_PREFIX;
use crate::tpc;
use vstd::prelude::*;
use vstd::utf8::*;

verus! {

/// Reading the current invite.
pub const ADMIN_INVITE_READ: &'static str = "admin:invite-read";

/// Rotating the invite.
pub const ADMIN_INVITE_ROTATE: &'static str = "admin:invite-rotate";

/// Listing the enrollments.
pub const ADMIN_ENROLL_LIST: &'static str = "admin:enroll-list";

/// Approving an enrollment.
pub const ADMIN_ENROLL_APPROVE: &'static str = "admin:enroll-approve";

/// Revoking an enrollment.
pub const ADMIN_ENROLL_REVOKE: &'static str = "admin:enroll-revoke";

/// Publishing a seal.
pub const ADMIN_SEAL: &'static str = "admin:seal";

/// The operator that a request of this verb is from: the bundle
/// authenticates for the verb, and its discharge carries the admin scope
/// and one subject.
pub open spec fn operator_of(
    q: PresentedView,
    ring: KeyringView,
    now_unix: u64,
    audience: Seq<char>,
    verb: Seq<char>,
) -> Option<Seq<char>> {
    match gate::authenticated(q, ring, now_unix, audience, verb) {
        Err(_) => None,
        Ok(c) => if caveat::resolved(c.discharge_caveats, name::SCOPE@) != ResolvedView::Value(
            scope::MINT_ADMIN@,
        ) {
            None
        } else {
            match caveat::resolved(c.discharge_caveats, name::SUB@) {
                ResolvedView::Value(s) => Some(s),
                _ => None,
            }
        },
    }
}

/// Verifies the bundle of an admin request, and names the operator, whom
/// the verb records. Every failure is the same.
pub fn verify_discharge(
    q: &Presented<'_>,
    keyring: &Keyring,
    now_unix: u64,
    audience: &str,
    expected_op: &str,
) -> (r: Result<String, ()>)
    ensures
        match operator_of(q@, keyring@, now_unix, audience@, expected_op@) {
            Some(s) => r is Ok && r->Ok_0@ == s,
            None => r is Err,
        },
{
    let cleared = match gate::authenticate(q, keyring, now_unix, audience, expected_op) {
        Ok(c) => c,
        Err(_) => {
            return Err(());
        },
    };
    if !http::scalar_is(&cleared.discharge_caveats, name::SCOPE, scope::MINT_ADMIN) {
        return Err(());
    }
    match EffectiveCaveats::new(&cleared.discharge_caveats).resolve(name::SUB) {
        Resolved::Value(s) => Ok(s),
        _ => Err(()),
    }
}

/// A request that is attenuated to one verb cannot exercise another.
pub proof fn law_one_verb_per_request(
    q: PresentedView,
    ring: KeyringView,
    now_unix: u64,
    audience: Seq<char>,
    verb: Seq<char>,
    other: Seq<char>,
)
    requires
        verb != other,
        operator_of(q, ring, now_unix, audience, verb) is Some,
    ensures
        operator_of(q, ring, now_unix, audience, other) is None,
{
    if gate::authenticated(q, ring, now_unix, audience, other) is Ok {
        let ms = http::read_bundle(q.authorization)->0;
        let sig = gate::read_proof(q.proof_header)->Ok_0;
        http::lemma_cleared_carries(
            ms[0],
            ms.skip(1),
            ring,
            sig,
            q.body,
            now_unix,
            audience,
            verb,
        );
        http::lemma_cleared_carries(
            ms[0],
            ms.skip(1),
            ring,
            sig,
            q.body,
            now_unix,
            audience,
            other,
        );
    }
}

/// The current invite.
#[derive(Debug, PartialEq, Eq)]
pub struct InviteResponse {
    /// The invite macaroon's token.
    pub macaroon: String,
    /// Its nonce, for people to read.
    pub nonce: String,
}

/// `m` is the invite of this nonce.
pub open spec fn is_invite(
    m: MacaroonView,
    ring: KeyringView,
    k_m_a: Seq<u8>,
    audience: Seq<char>,
    nonce: Seq<char>,
    org_id: Seq<char>,
    location: Seq<char>,
) -> bool {
    exists|r: Seq<u8>| #[trigger]
        issuance::minted_gated(
            m,
            ring,
            issuance::invite_caveats(audience, nonce),
            r,
            k_m_a,
            tpc::cid_layout(r, issuance::INVITE_CLIENT_ID@, org_id),
            location,
        )
}

/// Builds the invite of the current nonce. It carries the enroll gate, so
/// it needs the auth integration: without one there is no enrollment
/// plane. The error is for the log; the client is told only that the
/// service is unavailable.
pub fn build_invite(
    nonce: Result<String, String>,
    gates: &enroll::GateConfig<'_>,
    keyring: &Keyring,
    audience: &str,
) -> (r: Result<InviteResponse, String>)
    requires
        tpc::sealable(issuance::INVITE_CLIENT_ID@, enroll::org_of(gates.org_id), Seq::empty()),
    ensures
        match (nonce, gates.k_m_a, gates.location) {
            (Err(e), _, _) => r is Err && r->Err_0@ == "read invite: "@ + e@,
            (Ok(_), None, _) => r is Err && r->Err_0@
                == "invite requires an auth integration (K_M-A) for its enroll gate"@,
            (Ok(_), Some(_), None) => r is Err && r->Err_0@
                == "invite requires auth_location for its discharge location"@,
            (Ok(n), Some(key), Some(location)) => {
                &&& r matches Ok(v)
                &&& v.nonce@ == n@
                &&& exists|m: MacaroonView|
                    #[trigger] is_invite(
                        m,
                        keyring@,
                        key@,
                        audience@,
                        n@,
                        enroll::org_of(gates.org_id),
                        location@,
                    ) && v.macaroon@ == macaroon::token_of(m)
            },
        },
{
    let nonce = match nonce {
        Ok(n) => n,
        Err(e) => {
            return Err(text::concat("read invite: ", e.as_str()));
        },
    };
    let key = match gates.k_m_a {
        Some(k) => k,
        None => {
            return Err(
                text::owned("invite requires an auth integration (K_M-A) for its enroll gate"),
            );
        },
    };
    let location = match gates.location {
        Some(l) => l,
        None => {
            return Err(text::owned("invite requires auth_location for its discharge location"));
        },
    };
    let org = match gates.org_id {
        Some(o) => o,
        None => enroll::DEFAULT_ORG,
    };
    assert(org@ == enroll::org_of(gates.org_id));
    let m = issuance::mint_invite(keyring, key, audience, nonce.as_str(), org, location);
    assert(is_invite(
        m@,
        keyring@,
        key@,
        audience@,
        nonce@,
        enroll::org_of(gates.org_id),
        location@,
    ));
    Ok(InviteResponse { macaroon: m.encode(), nonce })
}

/// The state of an enrollment.
#[derive(Debug, Clone, Copy, PartialEq, Eq, Structural)]
pub enum EnrollmentState {
    Pending,
    Enrolled,
    Revoked,
}

/// The name of a state.
pub open spec fn state_text(s: EnrollmentState) -> Seq<char> {
    match s {
        EnrollmentState::Pending => "pending"@,
        EnrollmentState::Enrolled => "enrolled"@,
        EnrollmentState::Revoked => "revoked"@,
    }
}

impl EnrollmentState {
    /// The name of the state.
    pub fn name(&self) -> (r: &'static str)
        ensures
            r@ == state_text(*self),
    {
        match self {
            EnrollmentState::Pending => "pending",
            EnrollmentState::Enrolled => "enrolled",
            EnrollmentState::Revoked => "revoked",
        }
    }
}

/// An enrollment, as it is listed.
#[derive(Debug, PartialEq, Eq)]
pub struct EnrollmentRow {
    pub sub: String,
    /// The name of its state.
    pub state: String,
    pub pubkey: String,
    pub fingerprint: String,
    pub peer_ip: Option<String>,
    pub age_seconds: u64,
    pub anomalous_pub: bool,
}

/// An enrollment, as the store holds it.
#[derive(Debug, PartialEq, Eq)]
pub struct EnrollmentView {
    pub sub: String,
    pub state: EnrollmentState,
    pub pubkey: String,
    pub fingerprint: String,
    pub peer_ip: Option<String>,
    pub age_seconds: u64,
    pub anomalous_pub: bool,
}

impl EnrollmentRow {
    /// The row of an enrollment.
    pub fn from(v: EnrollmentView) -> (r: EnrollmentRow)
        ensures
            r.sub == v.sub,
            r.state@ == state_text(v.state),
            r.pubkey == v.pubkey,
            r.fingerprint == v.fingerprint,
            r.peer_ip == v.peer_ip,
            r.age_seconds == v.age_seconds,
            r.anomalous_pub == v.anomalous_pub,
    {
        EnrollmentRow {
            sub: v.sub,
            state: text::owned(v.state.name()),
            pubkey: v.pubkey,
            fingerprint: v.fingerprint,
            peer_ip: v.peer_ip,
            age_seconds: v.age_seconds,
            anomalous_pub: v.anomalous_pub,
        }
    }
}

/// A request to approve an enrollment.
#[derive(Debug, PartialEq, Eq)]
pub struct ApproveRequest {
    pub sub: String,
    pub pubkey: String,
}

/// The answer to an approval.
#[derive(Debug, PartialEq, Eq)]
pub struct ApproveResponse {
    pub approved_at: String,
}

/// A request to revoke an enrollment.
#[derive(Debug, PartialEq, Eq)]
pub struct RevokeRequest {
    pub sub: String,
}

/// The answer to a revocation.
#[derive(Debug, PartialEq, Eq)]
pub struct RevokeResponse {
    pub revoked_at: String,
    /// The epoch that the tombstone holds.
    pub rev_epoch: u64,
    /// Whether there was a live record.
    pub was_enrolled: bool,
}

/// The answer to a seal.
#[derive(Debug)]
pub struct SealResponse {
    /// The generation that the seal is MACed under.
    pub kid: Kid,
    /// When it was authored.
    pub sealed_at: String,
    /// The template hash of each role.
    pub roles: NameMap<String>,
}

/// The template hashes of sealed roles.
pub open spec fn role_hashes(roles: NameMap<SealedRole>) -> Map<Seq<char>, Seq<char>> {
    roles.map().map_values(|r: SealedRole| r.policy_blake3@)
}

fn hashes(roles: &NameMap<SealedRole>) -> (m: NameMap<String>)
    ensures
        m.texts() == role_hashes(*roles),
{
    let n: usize = roles.len();
    let ghost names = roles.names();
    let ghost want = role_hashes(*roles);
    let mut m: NameMap<String> = NameMap::new();
    let mut i: usize = 0;
    while i < n
        invariant
            n == names.len(),
            names == roles.names(),
            roles.lists(),
            want == role_hashes(*roles),
            i <= n,
            forall|k: Seq<char>| #[trigger]
                m.map().contains_key(k) <==> names.take(i as int).contains(k),
            forall|k: Seq<char>| #[trigger] m.map().contains_key(k) ==> m.map()[k]@ == want[k],
        decreases n - i,
    {
        let ghost before = m.map();
        let ghost y = names[i as int];
        m.insert(text::owned(roles.name_at(i)), roles.value_at(i).policy_blake3.clone());
        proof {
            assert(names.take(i + 1) =~= names.take(i as int).push(y));
            assert forall|k: Seq<char>| #[trigger]
                m.map().contains_key(k) <==> names.take(i + 1).contains(k) by {
                template::lemma_push_contains(names.take(i as int), y, k);
                assert(before.contains_key(k) <==> names.take(i as int).contains(k));
            }
            assert forall|k: Seq<char>| #[trigger] m.map().contains_key(k) implies m.map()[k]@
                == want[k] by {
                if k != y {
                    assert(before.contains_key(k));
                }
            }
        }
        i = i + 1;
    }
    proof {
        assert(names.take(n as int) =~= names);
        let a = m.texts();
        assert forall|k: Seq<char>| a.contains_key(k) <==> want.contains_key(k) by {
            assert(m.map().contains_key(k) <==> names.contains(k));
        }
        assert(a =~= want);
    }
    m
}

/// A seal that was authored: what to publish, what to write into the
/// cache, what to serve then, and what to answer.
#[derive(Debug)]
pub struct Authored {
    pub seal: Seal,
    pub surface: ServedSurface,
    pub plan: CachePlan,
    pub response: SealResponse,
}

/// Authors the seal of a configuration. A configuration whose templates
/// could not be rendered or enforced is refused, and whatever is served
/// stays. What is served afterwards is pinned by the seal, which verifies
/// under the keyring.
pub fn author_seal(config: &Config, keyring: &Keyring, sealed_at: &str) -> (r: Result<
    Authored,
    ConfigError,
>)
    ensures
        r is Ok <==> surface::sealable_config(*config),
        match r {
            Ok(a) => {
                &&& a.seal@.intent == seal::intent_of(*config)
                &&& a.seal@.sealed_at == sealed_at@
                &&& a.seal@.kid == keyring@.current
                &&& seal::verifies(a.seal@, keyring@)
                &&& a.surface.seal@ == a.seal@
                &&& a.surface.templates@ == sealed_cache::policies_of(*config)
                &&& a.surface.env.texts() == config.env.texts()
                &&& a.surface.holds()
                &&& sealed_cache::plan_of(a.plan, a.surface.templates@, a.surface.env.texts())
                &&& a.response.kid == a.seal@.kid
                &&& a.response.sealed_at@ == sealed_at@
                &&& a.response.roles.texts() == role_hashes(a.seal.roles)
            },
            Err(e) => surface::config_fault(e, *config),
        },
{
    match config.validate_policy_surface() {
        Err(e) => {
            proof {
                let x = choose|x: Seq<char>| #[trigger] surface::first_fault(e, *config, x);
                surface::lemma_fault_is_not_sealable(
                    e,
                    config.roles.map()[x],
                    config.env.texts().dom(),
                );
            }
            return Err(e);
        },
        Ok(_) => {},
    }
    let sealed = Seal::build_from_config(config, keyring, sealed_at);
    match ServedSurface::materialize(config, &sealed) {
        Ok((surface, plan)) => {
            let response = SealResponse {
                kid: sealed.kid,
                sealed_at: text::owned(sealed_at),
                roles: hashes(&sealed.roles),
            };
            Ok(Authored { seal: sealed, surface, plan, response })
        },
        Err(_) => vstd::pervasive::unreached(),
    }
}

/// The freshness body of a read.
pub open spec fn ts_text(now_unix: u64) -> Seq<char> {
    "{\"ts\":"@ + text::digits(now_unix as nat) + "}"@
}

/// The freshness body of a read. It reads back as the timestamp.
pub fn ts_body(now_unix: u64) -> (r: String)
    ensures
        r@ == ts_text(now_unix),
        pop::ts_of(json::json_of(encode_utf8(r@))) == Ok::<u64, PopReject>(now_unix),
{
    let mut v: Vec<(String, Json)> = Vec::new();
    v.push((text::owned("ts"), Json::PosInt(now_unix)));
    let ghost entries = v;
    let doc = Json::Object(v);
    proof {
        json::lemma_object_view(doc, entries);
        reveal_strlit("ts");
        reveal_strlit("{\"");
        reveal_strlit("\":");
        reveal_strlit("{\"ts\":");
        assert(json::plain("ts"@));
        assert("{\""@ + "ts"@ + "\":"@ =~= "{\"ts\":"@);
        json::lemma_entries_within(doc@->Object_0, 0);
    }
    let r = json::write_json(&doc);
    proof {
        let all = doc@->Object_0;
        json::lemma_flat(all);
        json::lemma_entry(all, "ts"@, 0);
        json::lemma_agreed_field(doc@, json::json_of(encode_utf8(r@))->0, "ts"@);
    }
    r
}

/// The body of an approval, with the timestamp that its proof covers.
pub open spec fn approve_doc(sub: Seq<char>, pubkey: Seq<char>, now_unix: u64) -> JsonView {
    JsonView::Object(
        seq![
            ("pubkey"@, JsonView::Str(pubkey)),
            ("sub"@, JsonView::Str(sub)),
            ("ts"@, JsonView::PosInt(now_unix)),
        ],
    )
}

/// The body of an approval.
pub fn approve_body(req: &ApproveRequest, now_unix: u64) -> (r: String)
    ensures
        r@ == json::json_text(approve_doc(req.sub@, req.pubkey@, now_unix)),
        pop::ts_of(json::json_of(encode_utf8(r@))) == Ok::<u64, PopReject>(now_unix),
        json::str_field(json::json_of(encode_utf8(r@)), "sub"@) == Some(req.sub@),
        json::str_field(json::json_of(encode_utf8(r@)), "pubkey"@) == Some(req.pubkey@),
{
    let mut v: Vec<(String, Json)> = Vec::new();
    v.push((text::owned("pubkey"), Json::Str(req.pubkey.clone())));
    v.push((text::owned("sub"), Json::Str(req.sub.clone())));
    v.push((text::owned("ts"), Json::PosInt(now_unix)));
    let ghost entries = v;
    let doc = Json::Object(v);
    proof {
        json::lemma_object_view(doc, entries);
        assert(doc@->Object_0 =~= approve_doc(req.sub@, req.pubkey@, now_unix)->Object_0);
        json::lemma_entries_within(doc@->Object_0, 0);
    }
    let r = json::write_json(&doc);
    proof {
        let entries = approve_doc(req.sub@, req.pubkey@, now_unix)->Object_0;
        pop::lemma_body_keys();
        json::lemma_flat(entries);
        json::lemma_entry(entries, "pubkey"@, 0);
        json::lemma_entry(entries, "sub"@, 1);
        json::lemma_entry(entries, "ts"@, 2);
        let out = json::json_of(encode_utf8(r@))->0;
        json::lemma_agreed_field(doc@, out, "pubkey"@);
        json::lemma_agreed_field(doc@, out, "sub"@);
        json::lemma_agreed_field(doc@, out, "ts"@);
    }
    r
}

/// The body of a revocation, with the timestamp that its proof covers.
pub open spec fn revoke_doc(sub: Seq<char>, now_unix: u64) -> JsonView {
    JsonView::Object(
        seq![("sub"@, JsonView::Str(sub)), ("ts"@, JsonView::PosInt(now_unix))],
    )
}

/// The body of a revocation.
pub fn revoke_body(req: &RevokeRequest, now_unix: u64) -> (r: String)
    ensures
        r@ == json::json_text(revoke_doc(req.sub@, now_unix)),
        pop::ts_of(json::json_of(encode_utf8(r@))) == Ok::<u64, PopReject>(now_unix),
        json::str_field(json::json_of(encode_utf8(r@)), "sub"@) == Some(req.sub@),
{
    let mut v: Vec<(String, Json)> = Vec::new();
    v.push((text::owned("sub"), Json::Str(req.sub.clone())));
    v.push((text::owned("ts"), Json::PosInt(now_unix)));
    let ghost entries = v;
    let doc = Json::Object(v);
    proof {
        json::lemma_object_view(doc, entries);
        assert(doc@->Object_0 =~= revoke_doc(req.sub@, now_unix)->Object_0);
        json::lemma_entries_within(doc@->Object_0, 0);
    }
    let r = json::write_json(&doc);
    proof {
        let entries = revoke_doc(req.sub@, now_unix)->Object_0;
        pop::lemma_body_keys();
        json::lemma_flat(entries);
        json::lemma_entry(entries, "sub"@, 0);
        json::lemma_entry(entries, "ts"@, 1);
        let out = json::json_of(encode_utf8(r@))->0;
        json::lemma_agreed_field(doc@, out, "sub"@);
        json::lemma_agreed_field(doc@, out, "ts"@);
    }
    r
}

/// Why an admin call failed.
#[derive(Debug, PartialEq, Eq)]
pub enum AdminClientError {
    Transport(String),
    Status { status: u16, body: String },
    Malformed(String),
}

impl AdminClientError {
    /// The message for the operator.
    pub fn message(&self) -> (r: String)
        ensures
            r@ == match self {
                AdminClientError::Transport(m) => "transport: "@ + m@,
                AdminClientError::Status { status, body } => "server returned "@ + text::digits(
                    *status as nat,
                ) + ": "@ + body@,
                AdminClientError::Malformed(m) => "malformed response: "@ + m@,
            },
    {
        match self {
            AdminClientError::Transport(m) => text::concat("transport: ", m.as_str()),
            AdminClientError::Status { status, body } => {
                let mut m = text::owned("server returned ");
                m.push_str(text::print_u64(*status as u64).as_str());
                m.push_str(": ");
                m.push_str(body.as_str());
                m
            },
            AdminClientError::Malformed(m) => text::concat("malformed response: ", m.as_str()),
        }
    }
}

/// Where the running server is reached. The authority is in the bundle,
/// not in the target.
#[derive(Debug)]
pub enum AdminTarget<'a> {
    /// A socket path.
    Uds(&'a str),
    /// A base URL.
    Tcp(&'a str),
}

impl<'a> AdminTarget<'a> {
    /// The transport that a call to the target dials.
    pub fn transport(&self) -> (r: String)
        ensures
            r@ == match self {
                AdminTarget::Uds(path) => UNIX_PREFIX@ + path@,
                AdminTarget::Tcp(url) => url@,
            },
    {
        match self {
            AdminTarget::Uds(path) => text::concat(UNIX_PREFIX, path),
            AdminTarget::Tcp(url) => text::owned(url),
        }
    }
}

/// Accepts the body of a reply, where its status is success.
pub fn accept_reply(status: u16, body: &str) -> (r: Result<(), AdminClientError>)
    ensures
        status == 200 ==> r is Ok,
        status != 200 ==> (r matches Err(AdminClientError::Status { status: s, body: b }) && s
            == status && b@ == body@),
{
    if status != 200 {
        return Err(AdminClientError::Status { status, body: text::owned(body) });
    }
    Ok(())
}

} // verus!
