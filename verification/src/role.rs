//! Role gating and lifetime: given a verified macaroon's caveats and a
//! requested role, whether the role may be assumed, and for how long.
//! The MAC was verified before; only the caveats' values are judged here.

use crate::caveat;
use crate::caveat::{name, Caveat, CaveatView, EffectiveCaveats, Resolved, ResolvedView};
use crate::seal::Intent;
use crate::sealed_cache::ServedSurface;
use crate::text;
use vstd::prelude::*;

verus! {

/// Why a role may not be assumed. Never shown to the client as it is.
#[derive(Debug, PartialEq, Eq)]
pub enum Denied {
    /// The role is not in the sealed surface.
    UnknownRole,
    /// The `aud` caveat is not the sealed audience.
    WrongAudience,
    /// The `role` caveat does not permit this role.
    RoleNotPermitted,
    /// A universally required caveat is absent.
    MissingRequiredCaveat(String),
    /// The occurrences of `sub` or of `aud` contradict each other.
    UnsatisfiableCaveat(String),
    /// There is no usable `exp`, or it is past.
    Expired,
}

/// A denial as a mathematical value.
pub enum DeniedView {
    UnknownRole,
    WrongAudience,
    RoleNotPermitted,
    MissingRequiredCaveat(Seq<char>),
    UnsatisfiableCaveat(Seq<char>),
    Expired,
}

impl View for Denied {
    type V = DeniedView;

    open spec fn view(&self) -> DeniedView {
        match self {
            Denied::UnknownRole => DeniedView::UnknownRole,
            Denied::WrongAudience => DeniedView::WrongAudience,
            Denied::RoleNotPermitted => DeniedView::RoleNotPermitted,
            Denied::MissingRequiredCaveat(s) => DeniedView::MissingRequiredCaveat(s@),
            Denied::UnsatisfiableCaveat(s) => DeniedView::UnsatisfiableCaveat(s@),
            Denied::Expired => DeniedView::Expired,
        }
    }
}

/// What was granted.
#[derive(Debug, PartialEq, Eq)]
pub struct Granted {
    /// The role; its policy is looked up in the served surface by name.
    pub role_name: String,
    /// The lifetime in seconds, after clamping.
    pub ttl_seconds: u64,
}

/// Why a required caveat is not met, where it is not.
pub open spec fn lacking(c: Seq<CaveatView>, n: Seq<char>) -> Option<DeniedView> {
    match caveat::resolved(c, n) {
        ResolvedView::Value(_) => None,
        ResolvedView::Absent => Some(DeniedView::MissingRequiredCaveat(n)),
        ResolvedView::Unsatisfiable => Some(DeniedView::UnsatisfiableCaveat(n)),
    }
}

/// Why the caveats that every credential carries are not met: `sub`, then
/// `aud`, each present and free of contradiction, then `exp`, which has to
/// be present. Several deadlines are no contradiction: the tightest binds.
pub open spec fn lacks_required(c: Seq<CaveatView>) -> Option<DeniedView> {
    if lacking(c, name::SUB@) is Some {
        lacking(c, name::SUB@)
    } else if lacking(c, name::AUD@) is Some {
        lacking(c, name::AUD@)
    } else if caveat::resolved(c, name::EXP@) is Absent {
        Some(DeniedView::MissingRequiredCaveat(name::EXP@))
    } else {
        None
    }
}

/// The lesser of two lifetimes.
pub open spec fn lesser(a: int, b: int) -> int {
    if a <= b {
        a
    } else {
        b
    }
}

/// The lifetime granted for a role: its sealed lifetime, never longer
/// than what is left of the macaroon.
pub open spec fn lifetime(ttl: u64, exp: Option<u64>, now_unix: u64) -> Result<u64, DeniedView> {
    match exp {
        Some(e) if e > now_unix => Ok(lesser(ttl as int, e - now_unix) as u64),
        _ => Err(DeniedView::Expired),
    }
}

/// Whether the role may be assumed, and for how many seconds.
pub open spec fn decision(
    sealed: Intent,
    c: Seq<CaveatView>,
    role: Seq<char>,
    now_unix: u64,
) -> Result<u64, DeniedView> {
    if !sealed.roles.contains_key(role) {
        Err(DeniedView::UnknownRole)
    } else if lacks_required(c) is Some {
        Err(lacks_required(c)->0)
    } else if caveat::resolved(c, name::AUD@) != ResolvedView::Value(sealed.audience) {
        Err(DeniedView::WrongAudience)
    } else if caveat::resolved(c, name::ROLE@) != ResolvedView::Value(role) {
        Err(DeniedView::RoleNotPermitted)
    } else {
        lifetime(
            sealed.roles[role].default_ttl_seconds,
            caveat::bound_of(c, name::EXP@),
            now_unix,
        )
    }
}

fn required(eff: &EffectiveCaveats<'_>, n: &str) -> (r: Result<(), Denied>)
    ensures
        match lacking(caveat::chain(eff.caveats@), n@) {
            None => r is Ok,
            Some(d) => r is Err && r->Err_0@ == d,
        },
{
    match eff.resolve(n) {
        Resolved::Value(_) => Ok(()),
        Resolved::Absent => Err(Denied::MissingRequiredCaveat(text::owned(n))),
        Resolved::Unsatisfiable => Err(Denied::UnsatisfiableCaveat(text::owned(n))),
    }
}

fn resolves_to(eff: &EffectiveCaveats<'_>, n: &str, value: &str) -> (r: bool)
    ensures
        r == (caveat::resolved(caveat::chain(eff.caveats@), n@) == ResolvedView::Value(value@)),
{
    match eff.resolve(n) {
        Resolved::Value(v) => text::same(v.as_str(), value),
        _ => false,
    }
}

/// Evaluates a request against the sealed surface, not the live
/// configuration: the lifetime and the audience are those that the
/// operator sealed. The `role` caveat is the single role that the
/// credential carries; a credential without one is no pass for all roles.
/// A holder who wants a shorter lifetime attenuates `exp` first.
pub fn authorize(
    surface: &ServedSurface,
    caveats: &[Caveat],
    requested_role: &str,
    now_unix: u64,
) -> (r: Result<Granted, Denied>)
    ensures
        match decision(surface.seal@.intent, caveat::chain(caveats@), requested_role@, now_unix) {
            Ok(t) => r matches Ok(g) && g.role_name@ == requested_role@ && g.ttl_seconds == t,
            Err(d) => r is Err && r->Err_0@ == d,
        },
{
    let role = match surface.role(requested_role) {
        Some(s) => s,
        None => {
            return Err(Denied::UnknownRole);
        },
    };
    let eff = EffectiveCaveats::new(caveats);
    match required(&eff, name::SUB) {
        Err(e) => {
            return Err(e);
        },
        Ok(_) => {},
    }
    match required(&eff, name::AUD) {
        Err(e) => {
            return Err(e);
        },
        Ok(_) => {},
    }
    match eff.resolve(name::EXP) {
        Resolved::Absent => {
            return Err(Denied::MissingRequiredCaveat(text::owned(name::EXP)));
        },
        _ => {},
    }
    if !resolves_to(&eff, name::AUD, surface.audience()) {
        return Err(Denied::WrongAudience);
    }
    if !resolves_to(&eff, name::ROLE, requested_role) {
        return Err(Denied::RoleNotPermitted);
    }
    let exp = match eff.min_bound(name::EXP) {
        Some(e) => e,
        None => {
            return Err(Denied::Expired);
        },
    };
    if exp <= now_unix {
        return Err(Denied::Expired);
    }
    let remaining: u64 = exp - now_unix;
    let ttl_seconds: u64 = if role.default_ttl_seconds <= remaining {
        role.default_ttl_seconds
    } else {
        remaining
    };
    Ok(Granted { role_name: text::owned(requested_role), ttl_seconds })
}

/// Once every gate before it is passed, a request is expired exactly where
/// the deadline is not after now, and else granted exactly the tighter of
/// the sealed lifetime and what is left of the macaroon.
pub proof fn law_ttl_outcome_dichotomy(
    sealed: Intent,
    c: Seq<CaveatView>,
    role: Seq<char>,
    exp: u64,
    now_unix: u64,
)
    requires
        sealed.roles.contains_key(role),
        lacks_required(c) is None,
        caveat::resolved(c, name::AUD@) == ResolvedView::Value(sealed.audience),
        caveat::resolved(c, name::ROLE@) == ResolvedView::Value(role),
        caveat::bound_of(c, name::EXP@) == Some(exp),
    ensures
        decision(sealed, c, role, now_unix) == (if exp <= now_unix {
            Err::<u64, DeniedView>(DeniedView::Expired)
        } else {
            Ok::<u64, DeniedView>(
                lesser(sealed.roles[role].default_ttl_seconds as int, exp - now_unix) as u64,
            )
        }),
{
}

/// A grant never exceeds the sealed lifetime, nor what is left of the
/// macaroon, and is at least one second where the sealed lifetime is.
pub proof fn law_granted_never_exceeds_any_bound(
    sealed: Intent,
    c: Seq<CaveatView>,
    role: Seq<char>,
    now_unix: u64,
)
    ensures
        decision(sealed, c, role, now_unix) matches Ok(t) ==> {
            &&& t <= sealed.roles[role].default_ttl_seconds
            &&& caveat::bound_of(c, name::EXP@) matches Some(e)
            &&& now_unix + t <= e
            &&& sealed.roles[role].default_ttl_seconds >= 1 ==> t >= 1
        },
{
}

/// A longer sealed lifetime never grants less.
pub proof fn law_granted_monotonic_in_role_ttl(
    lo: Intent,
    hi: Intent,
    c: Seq<CaveatView>,
    role: Seq<char>,
    now_unix: u64,
)
    requires
        lo.audience == hi.audience,
        lo.roles.contains_key(role),
        hi.roles.contains_key(role),
        lo.roles[role].default_ttl_seconds <= hi.roles[role].default_ttl_seconds,
    ensures
        decision(lo, c, role, now_unix) is Ok <==> decision(hi, c, role, now_unix) is Ok,
        decision(lo, c, role, now_unix) is Ok ==> decision(lo, c, role, now_unix)->Ok_0
            <= decision(hi, c, role, now_unix)->Ok_0,
{
}

/// Several deadlines narrow to the minimum: one that is appended to a chain
/// that is granted leaves the lesser of what was granted and what is left
/// until it, or ends the grant where it is not after now.
pub proof fn law_tightest_deadline_wins(
    sealed: Intent,
    c: Seq<CaveatView>,
    role: Seq<char>,
    exp_unix: u64,
    now_unix: u64,
)
    requires
        decision(sealed, c, role, now_unix) is Ok,
    ensures
        decision(
            sealed,
            c.push(caveat::scalar(name::EXP@, text::digits(exp_unix as nat))),
            role,
            now_unix,
        ) == (if exp_unix <= now_unix {
            Err::<u64, DeniedView>(DeniedView::Expired)
        } else {
            Ok::<u64, DeniedView>(
                lesser(
                    decision(sealed, c, role, now_unix)->Ok_0 as int,
                    exp_unix - now_unix,
                ) as u64,
            )
        }),
{
    let e = caveat::scalar(name::EXP@, text::digits(exp_unix as nat));
    let d = c.push(e);
    assert(d.drop_last() =~= c);
    text::lemma_read_digits(exp_unix);
    name::lemma_control_names();
    assert(caveat::values_of(d, name::SUB@) == caveat::values_of(c, name::SUB@));
    assert(caveat::values_of(d, name::AUD@) == caveat::values_of(c, name::AUD@));
    assert(caveat::values_of(d, name::ROLE@) == caveat::values_of(c, name::ROLE@));
    assert(caveat::values_of(d, name::EXP@).len() > 0);
    assert(caveat::bound_for(e, name::EXP@) == Some(exp_unix));
}

/// Attenuation never widens: what a longer chain is granted, now or later, a
/// prefix of it that is granted at all is granted at least; and it never
/// ends later.
pub proof fn law_attenuation_never_widens(
    sealed: Intent,
    c: Seq<CaveatView>,
    d: Seq<CaveatView>,
    role: Seq<char>,
    now_unix: u64,
    later_unix: u64,
)
    requires
        now_unix <= later_unix,
    ensures
        decision(sealed, c, role, now_unix) is Ok && decision(sealed, c + d, role, later_unix) is Ok
            ==> decision(sealed, c + d, role, later_unix)->Ok_0 <= decision(
            sealed,
            c,
            role,
            now_unix,
        )->Ok_0,
        decision(sealed, c + d, role, later_unix) matches Ok(t) ==> (caveat::bound_of(
            c,
            name::EXP@,
        ) matches Some(e) ==> later_unix + t <= e),
        caveat::resolved(c, name::ROLE@) is Unsatisfiable || caveat::resolved(
            c,
            name::AUD@,
        ) is Unsatisfiable || caveat::resolved(c, name::SUB@) is Unsatisfiable ==> decision(
            sealed,
            c + d,
            role,
            later_unix,
        ) is Err,
{
    caveat::law_appending_tightens_bound(c, d, name::EXP@);
    caveat::law_appending_narrows(c, d, name::ROLE@);
    caveat::law_appending_narrows(c, d, name::AUD@);
    caveat::law_appending_narrows(c, d, name::SUB@);
}

} // verus!
