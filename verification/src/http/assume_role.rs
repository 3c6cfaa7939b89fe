//! Assuming a role: the gates, the rendered policy, and what is asked of
//! the identity service.

use crate::caveat;
use crate::caveat::{name, op, Caveat, CaveatView, EffectiveCaveats, Resolved, ResolvedView};
use crate::http;
use crate::http::gate;
use crate::http::gate::{DenyView, Deny, EnrolledRead, Presented, PresentedView, Refused};
use crate::http::{ClearedBundle, ClearedView};
use crate::iam;
use crate::iam::{MintError, MintedKeypair};
use crate::json;
use crate::json::{Json, JsonView};
use crate::keyring::{Keyring, KeyringView};
use crate::reply;
use crate::reply::Reply;
use crate::role;
use crate::role::{Denied, DeniedView};
use crate::seal::Intent;
use crate::sealed_cache::{SealState, ServedSurface};
use crate::template;
use crate::template::{DataView, RenderData};
use crate::text;
use crate::time;
use crate::time::UtcTime;
use vstd::prelude::*;
use vstd::utf8::*;

verus! {

/// An authenticated credential and the identity that the revocation gate
/// looks up.
pub struct Admitted {
    pub cleared: ClearedBundle,
    pub sub: String,
    pub cnf: String,
    pub epoch: u64,
}

/// The identity of a credential: one subject, one key, and one readable
/// revocation epoch.
pub open spec fn credential_identity(c: Seq<CaveatView>) -> Option<(Seq<char>, Seq<char>, u64)> {
    match (
        caveat::resolved(c, name::SUB@),
        caveat::resolved(c, name::CNF@),
        caveat::resolved(c, name::EPOCH@),
    ) {
        (
            ResolvedView::Value(s),
            ResolvedView::Value(k),
            ResolvedView::Value(e),
        ) => match text::read_u64(e) {
            Some(n) => Some((s, k, n)),
            None => None,
        },
        _ => None,
    }
}

/// The admission of a request: what is cleared and the identity, or the
/// refusal.
pub open spec fn admission(
    seal: SealState,
    q: PresentedView,
    ring: KeyringView,
    now_unix: u64,
) -> Result<(ClearedView, (Seq<char>, Seq<char>, u64)), DenyView> {
    match seal {
        SealState::Dormant => Err(gate::denied(Refused::NotSealed, "denied:not_sealed"@)),
        SealState::Serving(s) => match gate::authenticated(
            q,
            ring,
            now_unix,
            s.seal@.intent.audience,
            op::ASSUME_ROLE@,
        ) {
            Err(f) => Err(gate::denied(Refused::Unauthorized, gate::fault_outcome(f))),
            Ok(c) => match credential_identity(c.primary.caveats) {
                None => Err(gate::denied(Refused::Unauthorized, "denied:revoked"@)),
                Some(id) => Ok((c, id)),
            },
        },
    }
}

/// The admitted request is this one.
pub open spec fn admitted_as(
    a: Admitted,
    cleared: ClearedView,
    id: (Seq<char>, Seq<char>, u64),
) -> bool {
    http::cleared_view(a.cleared) == cleared && (a.sub@, a.cnf@, a.epoch) == id
}

/// Admits a request. The plane is closed while no seal is served; the
/// audience is the sealed one.
pub fn admit_request(seal: &SealState, q: &Presented<'_>, keyring: &Keyring, now_unix: u64) -> (r: Result<
    Admitted,
    Deny,
>)
    ensures
        match admission(*seal, q@, keyring@, now_unix) {
            Ok((c, id)) => r is Ok && admitted_as(r->Ok_0, c, id),
            Err(d) => r is Err && r->Err_0@ == d,
        },
{
    let surface = match seal {
        SealState::Serving(s) => s,
        SealState::Dormant => {
            return Err(gate::deny(Refused::NotSealed, "denied:not_sealed"));
        },
    };
    let cleared = match gate::authenticate(
        q,
        keyring,
        now_unix,
        surface.audience(),
        op::ASSUME_ROLE,
    ) {
        Ok(c) => c,
        Err(f) => {
            return Err(gate::deny(Refused::Unauthorized, f.outcome().as_str()));
        },
    };
    let eff = EffectiveCaveats::new(cleared.primary.caveats());
    match (eff.resolve(name::SUB), eff.resolve(name::CNF), eff.resolve(name::EPOCH)) {
        (Resolved::Value(sub), Resolved::Value(cnf), Resolved::Value(e)) => match text::parse_u64(
            e.as_str(),
        ) {
            Some(epoch) => Ok(Admitted { cleared, sub, cnf, epoch }),
            None => Err(gate::deny(Refused::Unauthorized, "denied:revoked")),
        },
        _ => Err(gate::deny(Refused::Unauthorized, "denied:revoked")),
    }
}

/// The revocation gate: the credential's key and epoch are those of a
/// present, valid record of its subject.
pub open spec fn revocation(e: EnrolledRead, cnf: Seq<char>, epoch: u64) -> Option<DenyView> {
    match e {
        EnrolledRead::Found { pubkey, rev_epoch } => if pubkey@ == cnf && rev_epoch == epoch {
            None
        } else {
            Some(gate::denied(Refused::Unauthorized, "denied:revoked"@))
        },
        EnrolledRead::Failed => Some(gate::denied(Refused::Unavailable, "denied:state_error"@)),
        _ => Some(gate::denied(Refused::Unauthorized, "denied:revoked"@)),
    }
}

/// The identifier of a denial, for the audit log.
pub open spec fn tag_of(d: DeniedView) -> Seq<char> {
    match d {
        DeniedView::UnknownRole => "unknown_role"@,
        DeniedView::WrongAudience => "wrong_audience"@,
        DeniedView::RoleNotPermitted => "role_not_permitted"@,
        DeniedView::MissingRequiredCaveat(_) => "missing_required_caveat"@,
        DeniedView::UnsatisfiableCaveat(_) => "unsatisfiable_caveat"@,
        DeniedView::Expired => "expired"@,
    }
}

/// The identifier of a denial, for the audit log.
pub fn denied_tag(d: &Denied) -> (r: &'static str)
    ensures
        r@ == tag_of(d@),
{
    match d {
        Denied::UnknownRole => "unknown_role",
        Denied::WrongAudience => "wrong_audience",
        Denied::RoleNotPermitted => "role_not_permitted",
        Denied::MissingRequiredCaveat(_) => "missing_required_caveat",
        Denied::UnsatisfiableCaveat(_) => "unsatisfiable_caveat",
        Denied::Expired => "expired",
    }
}

/// Every name resolves to a single value.
pub open spec fn all_valued(names: Seq<Seq<char>>, c: Seq<CaveatView>) -> bool {
    forall|i: int| 0 <= i < names.len() ==> template::single(c, #[trigger] names[i]) is Some
}

fn every_value(names: &[String], caveats: &[Caveat]) -> (r: bool)
    ensures
        r == all_valued(text::texts(names@), caveat::chain(caveats@)),
{
    let ghost all = text::texts(names@);
    let mut i: usize = 0;
    while i < names.len()
        invariant
            i <= names@.len(),
            all == text::texts(names@),
            forall|j: int|
                0 <= j < i ==> template::single(
                    caveat::chain(caveats@),
                    #[trigger] all[j],
                ) is Some,
        decreases names@.len() - i,
    {
        assert(all[i as int] == names@[i as int]@);
        if template::single_value(caveats, names[i].as_str()).is_none() {
            return false;
        }
        i = i + 1;
    }
    true
}

/// The scope part of a policy name: the attested values, with hyphens
/// between; none for a role that attests none.
pub open spec fn scope_of(names: Seq<Seq<char>>, c: Seq<CaveatView>) -> Option<Seq<char>> {
    if names.len() == 0 {
        None
    } else {
        Some(
            text::joined(names.map_values(|n: Seq<char>| template::single(c, n)->0), "-"@),
        )
    }
}

fn scope_text(names: &[String], caveats: &[Caveat]) -> (r: Option<String>)
    requires
        all_valued(text::texts(names@), caveat::chain(caveats@)),
    ensures
        match r {
            Some(s) => scope_of(text::texts(names@), caveat::chain(caveats@)) == Some(s@),
            None => scope_of(text::texts(names@), caveat::chain(caveats@)) is None,
        },
{
    if names.len() == 0 {
        return None;
    }
    let ghost all = text::texts(names@);
    let ghost c = caveat::chain(caveats@);
    let mut v: Vec<String> = Vec::new();
    let mut i: usize = 0;
    while i < names.len()
        invariant
            i <= names@.len(),
            all == text::texts(names@),
            c == caveat::chain(caveats@),
            all_valued(all, c),
            v@.len() == i,
            forall|j: int| 0 <= j < i ==> Some((#[trigger] v@[j])@) == template::single(c, all[j]),
        decreases names@.len() - i,
    {
        assert(all[i as int] == names@[i as int]@);
        assert(template::single(c, all[i as int]) is Some);
        match template::single_value(caveats, names[i].as_str()) {
            Some(s) => v.push(s),
            None => v.push(String::new()),
        }
        i = i + 1;
    }
    assert(text::texts(v@) =~= all.map_values(|n: Seq<char>| template::single(c, n)->0));
    Some(text::join(&v, "-"))
}

/// The rendered policy, where the template renders.
pub open spec fn rendered(policy: Seq<char>, data: DataView) -> Option<Seq<char>> {
    match json::json_of(encode_utf8(policy)) {
        None => None,
        Some(doc) => match template::fill_doc(data, doc) {
            Ok(out) => Some(json::json_text(out)),
            Err(_) => None,
        },
    }
}

/// What is asked of the identity service.
#[derive(Debug)]
pub struct MintOrder {
    pub role: String,
    pub ttl_seconds: u64,
    pub policy_name: String,
    pub policy: String,
}

/// An order, but for the nonce in its name.
pub struct OrderView {
    pub role: Seq<char>,
    pub ttl_seconds: u64,
    pub scope: Option<Seq<char>>,
    pub expiry: UtcTime,
    pub policy: Seq<char>,
}

/// The served surface, mathematically.
pub struct SurfaceView {
    pub intent: Intent,
    pub templates: Map<Seq<char>, Seq<char>>,
    pub env: Map<Seq<char>, Seq<char>>,
}

/// The mathematical value of a surface.
pub open spec fn surface_view(s: ServedSurface) -> SurfaceView {
    SurfaceView { intent: s.seal@.intent, templates: s.templates@, env: s.env.texts() }
}

/// What the tokens of the granted role's template are resolved against.
pub open spec fn render_data(
    s: SurfaceView,
    cleared: ClearedView,
    role: Seq<char>,
    expiry: UtcTime,
) -> DataView {
    DataView {
        env: s.env,
        attested_names: s.intent.roles[role].attested,
        discharge_caveats: cleared.discharge_caveats,
        caveats: cleared.primary.caveats,
        expiry: time::rfc3339_text(expiry.seconds, expiry.nanos),
    }
}

/// What is ordered for a granted role, or the refusal: the sealed contract
/// is enforced before the policy is rendered.
pub open spec fn order_outcome(
    s: SurfaceView,
    cleared: ClearedView,
    role: Seq<char>,
    ttl: u64,
    now: UtcTime,
) -> Result<OrderView, DenyView> {
    let sealed = s.intent.roles[role];
    let expiry = now.later(ttl as int);
    if !s.templates.contains_key(role) {
        Err(gate::denied(Refused::Unavailable, "denied:policy_render"@))
    } else if !all_valued(sealed.attested, cleared.discharge_caveats) {
        Err(gate::denied(Refused::BadRequest, "denied:missing_attested"@))
    } else if !all_valued(sealed.caveat, cleared.primary.caveats) {
        Err(gate::denied(Refused::BadRequest, "denied:missing_caveat"@))
    } else {
        match rendered(s.templates[role], render_data(s, cleared, role, expiry)) {
            None => Err(gate::denied(Refused::BadRequest, "denied:policy_render"@)),
            Some(policy) => Ok(
                OrderView {
                    role,
                    ttl_seconds: ttl,
                    scope: scope_of(sealed.attested, cleared.discharge_caveats),
                    expiry,
                    policy,
                },
            ),
        }
    }
}

/// What is ordered for an admitted request, or the refusal: the revocation
/// gate, the body, the role, then the order.
pub open spec fn assume_outcome(
    s: SurfaceView,
    cleared: ClearedView,
    id: (Seq<char>, Seq<char>, u64),
    enrolled: EnrolledRead,
    role: Option<Seq<char>>,
    now: UtcTime,
) -> Result<OrderView, DenyView> {
    match revocation(enrolled, id.1, id.2) {
        Some(d) => Err(d),
        None => match role {
            None => Err(gate::denied(Refused::BadRequest, "denied:bad_request"@)),
            Some(r) => match role::decision(s.intent, cleared.primary.caveats, r, now.unix()) {
                Err(d) => Err(gate::denied(Refused::BadRequest, "denied:"@ + tag_of(d))),
                Ok(ttl) => order_outcome(s, cleared, r, ttl, now),
            },
        },
    }
}

/// The credential that is granted, if one is, expires at an instant that can
/// be written. A credential that is revoked is granted nothing.
pub open spec fn grant_fits(
    intent: Intent,
    c: Seq<CaveatView>,
    id: (Seq<char>, Seq<char>, u64),
    enrolled: EnrolledRead,
    role: Option<Seq<char>>,
    now: UtcTime,
) -> bool {
    revocation(enrolled, id.1, id.2) is None ==> {
        &&& now.valid()
        &&& role matches Some(r) ==> (role::decision(intent, c, r, now.unix()) matches Ok(ttl)
            ==> now.seconds + ttl <= time::MAX_SECONDS)
    }
}

/// Whether the credential that is granted, if one is, expires at an instant
/// that can be written.
pub fn check_lifetime(
    surface: &ServedSurface,
    admitted: &Admitted,
    enrolled: &EnrolledRead,
    role: Option<&str>,
    now: UtcTime,
) -> (r: bool)
    ensures
        r == grant_fits(
            surface.seal@.intent,
            admitted.cleared.primary@.caveats,
            (admitted.sub@, admitted.cnf@, admitted.epoch),
            *enrolled,
            crate::auth::header_view(role),
            now,
        ),
{
    match enrolled {
        EnrolledRead::Found { pubkey, rev_epoch } => {
            if !text::same(pubkey.as_str(), admitted.cnf.as_str()) || *rev_epoch
                != admitted.epoch {
                return true;
            }
        },
        _ => {
            return true;
        },
    }
    if !now.is_valid() {
        return false;
    }
    match role {
        None => true,
        Some(q) => match role::authorize(
            surface,
            admitted.cleared.primary.caveats(),
            q,
            now.unix_seconds(),
        ) {
            Ok(g) => now.seconds as i128 + g.ttl_seconds as i128 <= time::MAX_SECONDS as i128,
            Err(_) => true,
        },
    }
}

/// The order is this one, with some nonce in its name, which the identity
/// service takes.
pub open spec fn ordered_as(o: MintOrder, v: OrderView) -> bool {
    &&& o.role@ == v.role
    &&& o.ttl_seconds == v.ttl_seconds
    &&& o.policy@ == v.policy
    &&& exists|nonce: u32|
        o.policy_name@ == #[trigger] iam::name_text(
            iam::fit_role(v.role, v.scope),
            iam::fit_scope(v.role, v.scope),
            time::compact_text(v.expiry.seconds),
            nonce,
        )
    &&& iam::name_chars(o.policy_name@)
    &&& 0 <= v.expiry.seconds <= time::LAST_FOUR_DIGIT_YEAR ==> 1 <= o.policy_name@.len() <= 128
}

/// Decides an admitted request. `enrolled` is the record of the
/// credential's subject, and `role` that of the parsed body. The policy,
/// the contract and the lifetime are the sealed ones.
pub fn decide(
    surface: &ServedSurface,
    admitted: &Admitted,
    enrolled: &EnrolledRead,
    role: Option<&str>,
    now: UtcTime,
) -> (r: Result<MintOrder, Deny>)
    requires
        grant_fits(
            surface.seal@.intent,
            admitted.cleared.primary@.caveats,
            (admitted.sub@, admitted.cnf@, admitted.epoch),
            *enrolled,
            crate::auth::header_view(role),
            now,
        ),
    ensures
        match assume_outcome(
            surface_view(*surface),
            http::cleared_view(admitted.cleared),
            (admitted.sub@, admitted.cnf@, admitted.epoch),
            *enrolled,
            crate::auth::header_view(role),
            now,
        ) {
            Ok(v) => r is Ok && ordered_as(r->Ok_0, v),
            Err(d) => r is Err && r->Err_0@ == d,
        },
{
    match enrolled {
        EnrolledRead::Found { pubkey, rev_epoch } => {
            if !text::same(pubkey.as_str(), admitted.cnf.as_str()) || *rev_epoch
                != admitted.epoch {
                return Err(gate::deny(Refused::Unauthorized, "denied:revoked"));
            }
        },
        EnrolledRead::Failed => {
            return Err(gate::deny(Refused::Unavailable, "denied:state_error"));
        },
        _ => {
            return Err(gate::deny(Refused::Unauthorized, "denied:revoked"));
        },
    }
    let requested = match role {
        Some(q) => q,
        None => {
            return Err(gate::deny(Refused::BadRequest, "denied:bad_request"));
        },
    };
    let caveats = admitted.cleared.primary.caveats();
    let granted = match role::authorize(surface, caveats, requested, now.unix_seconds()) {
        Ok(g) => g,
        Err(d) => {
            return Err(
                gate::deny(
                    Refused::BadRequest,
                    text::concat("denied:", denied_tag(&d)).as_str(),
                ),
            );
        },
    };
    let sealed = match surface.role(requested) {
        Some(s) => s,
        None => {
            return Err(gate::deny(Refused::Unavailable, "denied:policy_render"));
        },
    };
    let policy_template = match surface.policy(requested) {
        Some(p) => p,
        None => {
            return Err(gate::deny(Refused::Unavailable, "denied:policy_render"));
        },
    };
    if !every_value(&sealed.attested, &admitted.cleared.discharge_caveats) {
        return Err(gate::deny(Refused::BadRequest, "denied:missing_attested"));
    }
    if !every_value(&sealed.caveat, caveats) {
        return Err(gate::deny(Refused::BadRequest, "denied:missing_caveat"));
    }
    proof {
        assert(surface.seal@.intent.roles.contains_key(requested@));
    }
    let expiry = now.plus(granted.ttl_seconds);
    let expiry_iso = time::rfc3339(expiry);
    let env = surface.env();
    let attested_names = sealed.attested.as_slice();
    let discharge_caveats = admitted.cleared.discharge_caveats.as_slice();
    let iso = expiry_iso.as_str();
    let policy = match template::render_policy(
        policy_template,
        env,
        attested_names,
        discharge_caveats,
        caveats,
        iso,
        requested,
    ) {
        Ok(p) => p,
        Err(_) => {
            return Err(gate::deny(Refused::BadRequest, "denied:policy_render"));
        },
    };
    let scope = scope_text(&sealed.attested, &admitted.cleared.discharge_caveats);
    proof {
        let s = surface_view(*surface);
        let cleared = http::cleared_view(admitted.cleared);
        let want = render_data(s, cleared, requested@, expiry);
        let data = RenderData { env, attested_names, discharge_caveats, caveats, expiry: iso }@;
        assert(data == want);
        assert(rendered(s.templates[requested@], want) == Some(policy@));
    }
    let scope_part: Option<&str> = match &scope {
        Some(s) => Some(s.as_str()),
        None => None,
    };
    assert(iam::scope_view(scope_part) == scope_of(
        text::texts(sealed.attested@),
        caveat::chain(discharge_caveats@),
    ));
    let policy_name = iam::policy_name(requested, scope_part, expiry);
    proof {
        let v = order_outcome(
            surface_view(*surface),
            http::cleared_view(admitted.cleared),
            requested@,
            granted.ttl_seconds,
            now,
        )->Ok_0;
        let nonce = choose|n: u32|
            policy_name@ == #[trigger] iam::name_text(
                iam::fit_role(requested@, iam::scope_view(scope_part)),
                iam::fit_scope(requested@, iam::scope_view(scope_part)),
                time::compact_text(expiry.seconds),
                n,
            );
        assert(v.scope == iam::scope_view(scope_part));
        assert(policy_name@ == iam::name_text(
            iam::fit_role(v.role, v.scope),
            iam::fit_scope(v.role, v.scope),
            time::compact_text(v.expiry.seconds),
            nonce,
        ));
    }
    Ok(
        MintOrder {
            role: text::owned(requested),
            ttl_seconds: granted.ttl_seconds,
            policy_name,
            policy,
        },
    )
}

/// A grant is gated: the credential authenticates for this audience and
/// operation, its subject is enrolled under its key at its epoch, the role
/// is the one that it carries, the lifetime ends by its own deadline and
/// the sealed one, and the policy is rendered from the sealed template.
pub proof fn law_grant_is_gated(
    seal: SealState,
    q: PresentedView,
    ring: KeyringView,
    enrolled: EnrolledRead,
    role: Option<Seq<char>>,
    now: UtcTime,
)
    requires
        seal is Serving,
        admission(seal, q, ring, now.unix()) is Ok,
    ensures
        ({
            let s = surface_view(seal->Serving_0);
            let (cleared, id) = admission(seal, q, ring, now.unix())->Ok_0;
            assume_outcome(s, cleared, id, enrolled, role, now) matches Ok(o) ==> {
                &&& gate::authenticated(
                    q,
                    ring,
                    now.unix(),
                    s.intent.audience,
                    op::ASSUME_ROLE@,
                ) == Ok::<ClearedView, gate::AuthFault>(cleared)
                &&& enrolled matches EnrolledRead::Found { pubkey, rev_epoch }
                &&& caveat::resolved(cleared.primary.caveats, name::CNF@) == ResolvedView::Value(
                    pubkey@,
                )
                &&& caveat::resolved(cleared.primary.caveats, name::EPOCH@) matches
                    ResolvedView::Value(e)
                &&& text::read_u64(e) == Some(rev_epoch)
                &&& role == Some(o.role)
                &&& caveat::resolved(cleared.primary.caveats, name::ROLE@) == ResolvedView::Value(
                    o.role,
                )
                &&& s.intent.roles.contains_key(o.role)
                &&& o.ttl_seconds <= s.intent.roles[o.role].default_ttl_seconds
                &&& caveat::bound_of(cleared.primary.caveats, name::EXP@) matches Some(exp)
                &&& now.unix() + o.ttl_seconds <= exp
                &&& s.templates.contains_key(o.role)
                &&& rendered(
                    s.templates[o.role],
                    render_data(s, cleared, o.role, o.expiry),
                ) == Some(o.policy)
            }
        }),
{
}

/// The final reply of a request, with what the audit log records, and
/// after how many seconds to try again.
#[derive(Debug)]
pub struct Answer {
    pub reply: Reply,
    pub outcome: String,
    pub retry_after: Option<u64>,
}

/// A keypair as a document.
pub open spec fn keypair_doc(id: Seq<char>, secret: Seq<char>) -> JsonView {
    JsonView::Object(
        seq![
            ("access_key_id"@, JsonView::Str(id)),
            ("secret_access_key"@, JsonView::Str(secret)),
        ],
    )
}

/// Answers a request whose order the identity service has taken.
pub fn answer(minted: &Result<MintedKeypair, MintError>) -> (r: Answer)
    ensures
        match minted {
            Ok(k) => r.reply.status == 200 && r.reply.body@ == json::json_text(
                keypair_doc(k.access_key_id@, k.secret_access_key@),
            ) && r.outcome@ == "granted"@ && r.retry_after is None,
            Err(_) => reply::refuses(r.reply, 503, "service unavailable"@) && r.outcome@
                == "tigris_error"@ && r.retry_after == Some(5u64),
        },
{
    match minted {
        Ok(k) => {
            let mut v: Vec<(String, Json)> = Vec::new();
            v.push((text::owned("access_key_id"), Json::Str(k.access_key_id.clone())));
            v.push((text::owned("secret_access_key"), Json::Str(k.secret_access_key.clone())));
            let ghost entries = v;
            let doc = Json::Object(v);
            proof {
                json::lemma_object_view(doc, entries);
                assert(doc@->Object_0 =~= keypair_doc(
                    k.access_key_id@,
                    k.secret_access_key@,
                )->Object_0);
                json::lemma_entries_within(doc@->Object_0, 0);
            }
            Answer {
                reply: Reply { status: 200, body: json::write_json(&doc) },
                outcome: text::owned("granted"),
                retry_after: None,
            }
        },
        Err(_) => Answer {
            reply: Refused::Unavailable.reply(),
            outcome: text::owned("tigris_error"),
            retry_after: Some(5),
        },
    }
}

} // verus!
