//! Enrolling, and exchanging a ticket for a credential.

use crate::caveat;
use crate::caveat::{name, ResolvedView};
use crate::http::enroll;
use crate::http::enroll::PendingWrite;
use crate::http::exchange;
use crate::http::exchange::AttestationConfig;
use crate::http::gate;
use crate::http::gate::{EnrolledRead, PresentedView, Refused};
use crate::http::ClearedView;
use crate::issuance;
use crate::keyring::KeyringView;
use crate::sealed_cache::{SealState, ServedSurface};
use vstd::prelude::*;

verus! {

/// The registry holds this key for the subject.
pub open spec fn enrolled_under(e: EnrolledRead, cnf: Seq<char>) -> bool {
    e matches EnrolledRead::Found { pubkey, .. } && pubkey@ == cnf
}

/// A first enrollment is recorded: a valid subject that waits under no key,
/// and is not enrolled under this one, where the registry could be read.
pub proof fn law_first_enrollment_is_recorded(
    sub: Seq<char>,
    cnf: Seq<char>,
    enrolled: EnrolledRead,
    pending: Option<Seq<char>>,
)
    ensures
        enroll::recording(sub, cnf, enrolled, pending) == PendingWrite::Created <==> {
            &&& enroll::valid_sub(sub)
            &&& pending is None
            &&& !(enrolled is Failed)
            &&& !enrolled_under(enrolled, cnf)
        },
{
}

/// A conflict is told only where another key waits for the subject, and
/// repeating a request that waits is no conflict.
pub proof fn law_only_another_key_conflicts(
    sub: Seq<char>,
    cnf: Seq<char>,
    enrolled: EnrolledRead,
    pending: Option<Seq<char>>,
)
    ensures
        enroll::recording(sub, cnf, enrolled, pending) == PendingWrite::Conflict <==> {
            &&& enroll::valid_sub(sub)
            &&& pending matches Some(p)
            &&& p != cnf
            &&& !(enrolled is Failed)
            &&& !enrolled_under(enrolled, cnf)
        },
        enroll::recording(sub, cnf, enrolled, pending) == PendingWrite::Idempotent <==> {
            &&& enroll::valid_sub(sub)
            &&& pending == Some(cnf)
            &&& !(enrolled is Failed)
            &&& !enrolled_under(enrolled, cnf)
        },
{
}

/// Who is enrolled under this key is told so, whatever waits; a registry
/// that cannot be read is told as that; and a subject that is no subject is
/// refused before either.
pub proof fn law_an_enrolled_key_is_known(
    sub: Seq<char>,
    cnf: Seq<char>,
    enrolled: EnrolledRead,
    pending: Option<Seq<char>>,
)
    ensures
        enroll::recording(sub, cnf, enrolled, pending) == PendingWrite::AlreadyEnrolled
            <==> enroll::valid_sub(sub) && enrolled_under(enrolled, cnf),
        enroll::recording(sub, cnf, enrolled, pending) == PendingWrite::Failed
            <==> enroll::valid_sub(sub) && enrolled is Failed,
        enroll::recording(sub, cnf, enrolled, pending) == PendingWrite::BadSub
            <==> !enroll::valid_sub(sub),
        enroll::recording(sub, cnf, enrolled, pending) != PendingWrite::Other,
{
}

/// A subject names one record and no path: letters, digits, dots, hyphens
/// and underscores, at most 256 of them, and neither dot name. Every such
/// text is a subject.
pub proof fn law_subjects_are_plain_names(sub: Seq<char>)
    ensures
        enroll::valid_sub(sub) <==> {
            &&& 0 < sub.len() <= 256
            &&& forall|i: int|
                0 <= i < sub.len() ==> ('a' <= #[trigger] sub[i] <= 'z' || 'A' <= sub[i] <= 'Z'
                    || '0' <= sub[i] <= '9' || sub[i] == '.' || sub[i] == '-' || sub[i] == '_')
            &&& sub != seq!['.']
            &&& sub != seq!['.', '.']
        },
        enroll::valid_sub(sub) ==> !sub.contains('/') && !sub.contains(' ') && !sub.contains('\0'),
{
    reveal_strlit(".");
    reveal_strlit("..");
    assert("."@ =~= seq!['.']);
    assert(".."@ =~= seq!['.', '.']);
    if forall|i: int|
        0 <= i < sub.len() ==> ('a' <= #[trigger] sub[i] <= 'z' || 'A' <= sub[i] <= 'Z' || '0'
            <= sub[i] <= '9' || sub[i] == '.' || sub[i] == '-' || sub[i] == '_') {
        assert forall|i: int| 0 <= i < sub.len() implies enroll::sub_char(#[trigger] sub[i]) by {}
    }
    if enroll::valid_sub(sub) {
        assert forall|i: int| 0 <= i < sub.len() implies ('a' <= #[trigger] sub[i] <= 'z' || 'A'
            <= sub[i] <= 'Z' || '0' <= sub[i] <= '9' || sub[i] == '.' || sub[i] == '-' || sub[i]
            == '_') by {
            assert(enroll::sub_char(sub[i]));
        }
    }
}

/// A ticket is issued to whoever is recorded, waits already or is enrolled
/// already, and to nobody else; a store that failed is the service's fault,
/// and all else is refused as unauthorised.
pub proof fn law_ticket_follows_the_record(w: PendingWrite)
    ensures
        enroll::record_fault(w) is None <==> w == PendingWrite::Created || w
            == PendingWrite::Idempotent || w == PendingWrite::AlreadyEnrolled,
        enroll::record_fault(w) matches Some(d) ==> d.kind == (if w == PendingWrite::Failed {
            Refused::Unavailable
        } else {
            Refused::Unauthorized
        }),
{
}

/// Enrolling takes a bundle for the enroll operation whose discharge is of
/// the enroll scope, and nothing else.
pub proof fn law_enrollment_takes_the_enroll_scope(
    q: PresentedView,
    ring: KeyringView,
    now_unix: u64,
    audience: Seq<char>,
)
    ensures
        enroll::admission(q, ring, now_unix, audience) is Ok <==> {
            &&& gate::authenticated(q, ring, now_unix, audience, "enroll"@) matches Ok(c)
            &&& caveat::resolved(c.discharge_caveats, name::SCOPE@) == ResolvedView::Value(
                "mint:enroll"@,
            )
        },
        enroll::admission(q, ring, now_unix, audience) matches Ok(c) ==> gate::authenticated(
            q,
            ring,
            now_unix,
            audience,
            "enroll"@,
        ) == Ok::<ClearedView, gate::AuthFault>(c),
{
}

/// Who enrolls is who the invite's holder named: the current invite, with
/// one subject and one usable key, asked for by the session that discharged
/// it.
pub proof fn law_enrollee_is_named_by_the_holder(cleared: ClearedView, current: Option<Seq<char>>)
    ensures
        enroll::identified(cleared, current) is Ok <==> {
            let c = cleared.primary.caveats;
            &&& current is Some
            &&& caveat::resolved(c, name::INVITE@) == ResolvedView::Value(current->0)
            &&& caveat::resolved(c, name::SUB@) is Value
            &&& caveat::resolved(c, name::CNF@) matches ResolvedView::Value(k)
            &&& crate::pop::valid_cnf(k)
            &&& caveat::resolved(cleared.discharge_caveats, name::SUB@) is Value
        },
        enroll::identified(cleared, current) matches Ok(v) ==> {
            let c = cleared.primary.caveats;
            &&& caveat::resolved(c, name::SUB@) == ResolvedView::Value(v.sub)
            &&& caveat::resolved(c, name::CNF@) == ResolvedView::Value(v.cnf)
            &&& caveat::resolved(cleared.discharge_caveats, name::SUB@) == ResolvedView::Value(
                v.requested_by,
            )
        },
        enroll::identified(cleared, current) matches Err(d) ==> d.kind == (if current is None {
            Refused::Unavailable
        } else {
            Refused::Unauthorized
        }),
{
}

/// Exchanging takes a bundle for the exchange operation whose discharge is
/// of the exchange scope, while a seal is served, and is the ticket's
/// subject under the ticket's key.
pub proof fn law_exchange_takes_the_exchange_scope(
    seal: SealState,
    q: PresentedView,
    ring: KeyringView,
    now_unix: u64,
    audience: Seq<char>,
)
    ensures
        exchange::admission(seal, q, ring, now_unix, audience) is Ok <==> {
            &&& seal is Serving
            &&& gate::authenticated(q, ring, now_unix, audience, "enroll-exchange"@) matches Ok(c)
            &&& caveat::resolved(c.discharge_caveats, name::SCOPE@) == ResolvedView::Value(
                "mint:exchange"@,
            )
            &&& issuance::identity_of(c.primary.caveats) is Ok
        },
        exchange::admission(seal, q, ring, now_unix, audience) matches Ok((c, (sub, cnf))) ==> {
            &&& caveat::resolved(c.primary.caveats, name::SUB@) == ResolvedView::Value(sub)
            &&& caveat::resolved(c.primary.caveats, name::CNF@) == ResolvedView::Value(cnf)
        },
{
}

/// A credential is issued exactly to a subject that is enrolled under the
/// ticket's key, for a role that is sealed, at the epoch of its record. An
/// attested role takes the authority's key and location too.
pub proof fn law_credential_is_owed(
    surface: ServedSurface,
    cnf: Seq<char>,
    enrolled: EnrolledRead,
    role: Option<Seq<char>>,
    attested: AttestationConfig<'_>,
)
    ensures
        exchange::exchange_fault(surface, cnf, enrolled, role, attested) is None <==> {
            &&& enrolled_under(enrolled, cnf)
            &&& role matches Some(r)
            &&& surface.seal@.intent.roles.contains_key(r)
            &&& attested.mode is Some ==> attested.k_m_b is Some && attested.location is Some
        },
        exchange::approval(enrolled, cnf) matches Ok(epoch) ==> (enrolled matches
            EnrolledRead::Found { pubkey, rev_epoch } && pubkey@ == cnf && rev_epoch == epoch),
        enrolled_under(enrolled, cnf) ==> exchange::approval(enrolled, cnf) is Ok,
        enrolled is Failed ==> (exchange::exchange_fault(
            surface,
            cnf,
            enrolled,
            role,
            attested,
        ) matches Some(d) && d.kind == Refused::Unavailable),
{
}

} // verus!
