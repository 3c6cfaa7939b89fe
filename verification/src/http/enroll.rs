//! Enrollment: an invited client asks to be enrolled, and gets a ticket.

use crate::caveat;
use crate::caveat::{name, op, scope, EffectiveCaveats, Resolved, ResolvedView};
use crate::http;
use crate::http::gate;
use crate::http::gate::{EnrolledRead, Deny, DenyView, Presented, PresentedView, Refused};
use crate::http::{ClearedBundle, ClearedView};
use crate::issuance;
use crate::keyring::{Keyring, KeyringView};
use crate::macaroon;
use crate::macaroon::MacaroonView;
use crate::reply;
use crate::reply::Reply;
use crate::text;
use crate::tpc;
use vstd::prelude::*;

verus! {

/// Lifetime of a credential ticket.
pub const CREDENTIAL_TICKET_TTL_SECONDS: u64 = 600;

/// Unapproved requests age out past this.
pub const PENDING_MAX_AGE_SECONDS: u64 = 3600;

/// The organisation where none is configured.
pub const DEFAULT_ORG: &'static str = "demo";

/// What is cleared of a request to enrol, or the refusal: the bundle
/// authenticates for enrolling, and the operator's discharge carries the
/// enroll scope.
pub open spec fn admission(
    q: PresentedView,
    ring: KeyringView,
    now_unix: u64,
    audience: Seq<char>,
) -> Result<ClearedView, DenyView> {
    match gate::authenticated(q, ring, now_unix, audience, op::ENROLL@) {
        Err(f) => Err(gate::denied(Refused::Unauthorized, "enroll:"@ + gate::fault_outcome(f))),
        Ok(c) => if caveat::resolved(c.discharge_caveats, name::SCOPE@) != ResolvedView::Value(
            scope::MINT_ENROLL@,
        ) {
            Err(gate::denied(Refused::Unauthorized, "enroll:denied:scope"@))
        } else {
            Ok(c)
        },
    }
}

/// Admits a request to enrol.
pub fn admit_request(q: &Presented<'_>, keyring: &Keyring, now_unix: u64, audience: &str) -> (r: Result<
    ClearedBundle,
    Deny,
>)
    ensures
        match admission(q@, keyring@, now_unix, audience@) {
            Ok(c) => r is Ok && http::cleared_view(r->Ok_0) == c,
            Err(d) => r is Err && r->Err_0@ == d,
        },
{
    let cleared = match gate::authenticate(q, keyring, now_unix, audience, op::ENROLL) {
        Ok(c) => c,
        Err(f) => {
            return Err(
                gate::deny(
                    Refused::Unauthorized,
                    text::concat("enroll:", f.outcome().as_str()).as_str(),
                ),
            );
        },
    };
    if !http::scalar_is(&cleared.discharge_caveats, name::SCOPE, scope::MINT_ENROLL) {
        return Err(gate::deny(Refused::Unauthorized, "enroll:denied:scope"));
    }
    Ok(cleared)
}

/// Who asks to be enrolled, and which operator let them.
#[derive(Debug)]
pub struct EnrollRequest {
    pub sub: String,
    pub cnf: String,
    /// The operator, from the discharge; distinct from the client's own
    /// self-asserted subject.
    pub requested_by: String,
}

/// A request, mathematically.
pub struct RequestView {
    pub sub: Seq<char>,
    pub cnf: Seq<char>,
    pub requested_by: Seq<char>,
}

/// Who asks to be enrolled, or the refusal. `current` is the current
/// invite nonce, where it could be read.
pub open spec fn identified(cleared: ClearedView, current: Option<Seq<char>>) -> Result<
    RequestView,
    DenyView,
> {
    match current {
        None => Err(gate::unrecorded(Refused::Unavailable)),
        Some(nonce) => if caveat::resolved(cleared.primary.caveats, name::INVITE@)
            != ResolvedView::Value(nonce) {
            Err(gate::denied(Refused::Unauthorized, "enroll:denied:stale_invite"@))
        } else {
            match (
                issuance::identity_of(cleared.primary.caveats),
                caveat::resolved(cleared.discharge_caveats, name::SUB@),
            ) {
                (Ok((sub, cnf)), ResolvedView::Value(by)) => Ok(
                    RequestView { sub, cnf, requested_by: by },
                ),
                _ => Err(gate::denied(Refused::Unauthorized, "enroll:denied:identity"@)),
            }
        },
    }
}

/// Identifies an admitted request.
pub fn identify(cleared: &ClearedBundle, current: Option<&str>) -> (r: Result<EnrollRequest, Deny>)
    ensures
        match identified(http::cleared_view(*cleared), crate::auth::header_view(current)) {
            Ok(v) => r matches Ok(q) && q.sub@ == v.sub && q.cnf@ == v.cnf && q.requested_by@
                == v.requested_by,
            Err(d) => r is Err && r->Err_0@ == d,
        },
{
    let nonce = match current {
        Some(n) => n,
        None => {
            return Err(gate::silent(Refused::Unavailable));
        },
    };
    if !http::scalar_is(cleared.primary.caveats(), name::INVITE, nonce) {
        return Err(gate::deny(Refused::Unauthorized, "enroll:denied:stale_invite"));
    }
    let (sub, cnf) = match issuance::bound_identity(&cleared.primary) {
        Ok(v) => v,
        Err(_) => {
            return Err(gate::deny(Refused::Unauthorized, "enroll:denied:identity"));
        },
    };
    match EffectiveCaveats::new(&cleared.discharge_caveats).resolve(name::SUB) {
        Resolved::Value(by) => Ok(EnrollRequest { sub, cnf, requested_by: by }),
        _ => Err(gate::deny(Refused::Unauthorized, "enroll:denied:identity")),
    }
}

/// What recording a pending request gave.
#[derive(Debug, Clone, Copy, PartialEq, Eq, Structural)]
pub enum PendingWrite {
    /// A new record.
    Created,
    /// The same request was there.
    Idempotent,
    /// The client is enrolled under this key already.
    AlreadyEnrolled,
    /// Another key is pending for this subject.
    Conflict,
    /// The subject is not a valid name of a record.
    BadSub,
    /// The store failed.
    Failed,
    /// Any other error.
    Other,
}

/// A character that a subject may hold.
pub open spec fn sub_char(c: char) -> bool {
    'A' <= c <= 'Z' || 'a' <= c <= 'z' || '0' <= c <= '9' || c == '.' || c == '_' || c == '-'
}

/// A subject names a record: a path-safe string of at most 256 characters.
pub open spec fn valid_sub(sub: Seq<char>) -> bool {
    &&& 0 < sub.len() <= 256
    &&& sub != "."@
    &&& sub != ".."@
    &&& forall|i: int| 0 <= i < sub.len() ==> sub_char(#[trigger] sub[i])
}

/// Whether a subject names a record.
pub fn is_valid_sub(sub: &str) -> (r: bool)
    ensures
        r == valid_sub(sub@),
{
    let v = text::chars_of(sub);
    if v.len() == 0 || v.len() > 256 || text::same(sub, ".") || text::same(sub, "..") {
        return false;
    }
    let mut i: usize = 0;
    while i < v.len()
        invariant
            i <= v@.len(),
            v@ == sub@,
            forall|j: int| 0 <= j < i ==> sub_char(#[trigger] v@[j]),
        decreases v@.len() - i,
    {
        let c = v[i];
        if !('A' <= c && c <= 'Z' || 'a' <= c && c <= 'z' || '0' <= c && c <= '9' || c == '.' || c
            == '_' || c == '-') {
            assert(!sub_char(sub@[i as int]));
            return false;
        }
        i = i + 1;
    }
    true
}

/// What recording a request comes to, from the records that are there: an
/// enrolled client under its key needs no new one, and a pending request is
/// the same one, or another key's. A record that cannot be trusted is not
/// there.
pub open spec fn recording(
    sub: Seq<char>,
    cnf: Seq<char>,
    enrolled: EnrolledRead,
    pending: Option<Seq<char>>,
) -> PendingWrite {
    if !valid_sub(sub) {
        PendingWrite::BadSub
    } else {
        match enrolled {
            EnrolledRead::Found { pubkey, .. } if pubkey@ == cnf => PendingWrite::AlreadyEnrolled,
            EnrolledRead::Failed => PendingWrite::Failed,
            _ => match pending {
                None => PendingWrite::Created,
                Some(p) => if p == cnf {
                    PendingWrite::Idempotent
                } else {
                    PendingWrite::Conflict
                },
            },
        }
    }
}

/// Decides what recording a request comes to; only a created one is
/// written. `pending` is the key of the pending request of its subject.
pub fn decide_recording(
    sub: &str,
    cnf: &str,
    enrolled: &EnrolledRead,
    pending: Option<&str>,
) -> (r: PendingWrite)
    ensures
        r == recording(sub@, cnf@, *enrolled, crate::auth::header_view(pending)),
{
    if !is_valid_sub(sub) {
        return PendingWrite::BadSub;
    }
    match enrolled {
        EnrolledRead::Found { pubkey, .. } => {
            if text::same(pubkey.as_str(), cnf) {
                return PendingWrite::AlreadyEnrolled;
            }
        },
        EnrolledRead::Failed => {
            return PendingWrite::Failed;
        },
        _ => {},
    }
    match pending {
        None => PendingWrite::Created,
        Some(p) => if text::same(p, cnf) {
            PendingWrite::Idempotent
        } else {
            PendingWrite::Conflict
        },
    }
}

/// Whether a pending record has aged out.
pub fn has_lapsed(created_at: u64, now_unix: u64) -> (r: bool)
    ensures
        r == (now_unix - created_at > PENDING_MAX_AGE_SECONDS),
        r <==> now_unix > created_at + 3600,
{
    now_unix > created_at && now_unix - created_at > PENDING_MAX_AGE_SECONDS
}

/// Why no ticket is issued, after recording.
pub open spec fn record_fault(w: PendingWrite) -> Option<DenyView> {
    match w {
        PendingWrite::Created => None,
        PendingWrite::Idempotent => None,
        PendingWrite::AlreadyEnrolled => None,
        PendingWrite::Failed => Some(gate::unrecorded(Refused::Unavailable)),
        PendingWrite::Conflict => Some(
            gate::denied(Refused::Unauthorized, "enroll:denied:conflict"@),
        ),
        PendingWrite::BadSub => Some(gate::denied(Refused::Unauthorized, "enroll:denied:bad_sub"@)),
        PendingWrite::Other => Some(
            gate::denied(Refused::Unauthorized, "enroll:denied:state_error"@),
        ),
    }
}

/// `a + b`, or the greatest number where that is too much.
pub open spec fn capped(a: u64, b: u64) -> u64 {
    if a + b > u64::MAX {
        u64::MAX
    } else {
        (a + b) as u64
    }
}

/// `t` is a ticket for this identity: minted under the current generation,
/// for the exchange, with the exchange gate.
pub open spec fn is_ticket(
    t: MacaroonView,
    ring: KeyringView,
    k_m_a: Seq<u8>,
    audience: Seq<char>,
    sub: Seq<char>,
    cnf: Seq<char>,
    now_unix: u64,
    org_id: Seq<char>,
    location: Seq<char>,
) -> bool {
    exists|r: Seq<u8>| #[trigger]
        issuance::minted_gated(
            t,
            ring,
            issuance::ticket_caveats(
                audience,
                sub,
                cnf,
                capped(now_unix, CREDENTIAL_TICKET_TTL_SECONDS),
            ),
            r,
            k_m_a,
            tpc::cid_layout(r, issuance::TICKET_CLIENT_ID@, org_id),
            location,
        )
}

/// What is granted to a client.
#[derive(Debug)]
pub struct EnrollGrant {
    pub reply: Reply,
    /// What the audit log records.
    pub outcome: String,
    /// The enrolled record is to be carried to the current generation.
    pub migrate: bool,
}

/// What the exchange gate of a ticket is stamped with.
pub struct GateConfig<'a> {
    /// The key shared with the auth role.
    pub k_m_a: Option<&'a [u8; 32]>,
    /// Where its discharges are obtained.
    pub location: Option<&'a str>,
    /// The organisation that is served.
    pub org_id: Option<&'a str>,
}

/// The organisation to bind.
pub open spec fn org_of(org_id: Option<&str>) -> Seq<char> {
    match org_id {
        Some(o) => o@,
        None => DEFAULT_ORG@,
    }
}

/// Issues the ticket of a recorded request. The client always gets one,
/// whether it is pending or enrolled already; what differs is recorded.
pub fn issue_ticket(
    written: PendingWrite,
    gates: &GateConfig<'_>,
    keyring: &Keyring,
    audience: &str,
    request: &EnrollRequest,
    now_unix: u64,
) -> (r: Result<EnrollGrant, Deny>)
    requires
        tpc::sealable(issuance::TICKET_CLIENT_ID@, org_of(gates.org_id), Seq::empty()),
    ensures
        match record_fault(written) {
            Some(d) => r is Err && r->Err_0@ == d,
            None => match (gates.k_m_a, gates.location) {
                (Some(key), Some(location)) => {
                    &&& r matches Ok(g)
                    &&& exists|t: MacaroonView|
                        {
                            &&& #[trigger] is_ticket(
                                t,
                                keyring@,
                                key@,
                                audience@,
                                request.sub@,
                                request.cnf@,
                                now_unix,
                                org_of(gates.org_id),
                                location@,
                            )
                            &&& reply::replies(
                                g.reply,
                                200,
                                "credential.ticket"@,
                                macaroon::token_of(t),
                            )
                        }
                    &&& g.migrate == (written == PendingWrite::AlreadyEnrolled)
                    &&& g.outcome@ == (if written == PendingWrite::AlreadyEnrolled {
                        "enroll:fast_path"@
                    } else {
                        "enroll:pending"@
                    })
                },
                _ => r is Err && r->Err_0@ == gate::unrecorded(Refused::Unavailable),
            },
        },
{
    match written {
        PendingWrite::Failed => {
            return Err(gate::silent(Refused::Unavailable));
        },
        PendingWrite::Conflict => {
            return Err(gate::deny(Refused::Unauthorized, "enroll:denied:conflict"));
        },
        PendingWrite::BadSub => {
            return Err(gate::deny(Refused::Unauthorized, "enroll:denied:bad_sub"));
        },
        PendingWrite::Other => {
            return Err(gate::deny(Refused::Unauthorized, "enroll:denied:state_error"));
        },
        _ => {},
    }
    let key = match gates.k_m_a {
        Some(k) => k,
        None => {
            return Err(gate::silent(Refused::Unavailable));
        },
    };
    let location = match gates.location {
        Some(l) => l,
        None => {
            return Err(gate::silent(Refused::Unavailable));
        },
    };
    let org = match gates.org_id {
        Some(o) => o,
        None => DEFAULT_ORG,
    };
    let exp: u64 = if now_unix > u64::MAX - CREDENTIAL_TICKET_TTL_SECONDS {
        u64::MAX
    } else {
        now_unix + CREDENTIAL_TICKET_TTL_SECONDS
    };
    let ticket = issuance::mint_credential_ticket(
        keyring,
        key,
        audience,
        request.sub.as_str(),
        request.cnf.as_str(),
        exp,
        org,
        location,
    );
    assert(exp == capped(now_unix, CREDENTIAL_TICKET_TTL_SECONDS));
    assert(org@ == org_of(gates.org_id));
    assert(is_ticket(
        ticket@,
        keyring@,
        key@,
        audience@,
        request.sub@,
        request.cnf@,
        now_unix,
        org_of(gates.org_id),
        location@,
    ));
    let already = written == PendingWrite::AlreadyEnrolled;
    Ok(
        EnrollGrant {
            reply: reply::field_reply(200, "credential.ticket", ticket.encode().as_str()),
            outcome: text::owned(
                if already {
                    "enroll:fast_path"
                } else {
                    "enroll:pending"
                },
            ),
            migrate: already,
        },
    )
}

} // verus!
