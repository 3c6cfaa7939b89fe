//! The exchange of a ticket for a credential: the point where a role is
//! authorised for an enrolled client.

use crate::caveat;
use crate::caveat::{name, op, scope, ResolvedView};
use crate::config;
use crate::config::Config;
use crate::http;
use crate::http::enroll;
use crate::http::gate;
use crate::http::gate::{Deny, DenyView, EnrolledRead, Presented, PresentedView, Refused};
use crate::http::{ClearedBundle, ClearedView};
use crate::issuance;
use crate::issuance::AttestedTpc;
use crate::keyring::{Keyring, KeyringView};
use crate::macaroon;
use crate::macaroon::MacaroonView;
use crate::reply;
use crate::reply::Reply;
use crate::sealed_cache::{SealState, ServedSurface};
use crate::text;
use crate::tpc;
use vstd::prelude::*;

verus! {

/// An authenticated ticket and the identity bound into it.
pub struct Ticket {
    pub cleared: ClearedBundle,
    pub sub: String,
    pub cnf: String,
}

/// The admission of an exchange, or the refusal: a seal is served, the
/// bundle authenticates for the exchange, and the operator's discharge
/// carries the exchange scope.
pub open spec fn admission(
    seal: SealState,
    q: PresentedView,
    ring: KeyringView,
    now_unix: u64,
    audience: Seq<char>,
) -> Result<(ClearedView, (Seq<char>, Seq<char>)), DenyView> {
    match seal {
        SealState::Dormant => Err(
            gate::denied(Refused::NotSealed, "exchange:denied:not_sealed"@),
        ),
        SealState::Serving(_) => match gate::authenticated(
            q,
            ring,
            now_unix,
            audience,
            op::ENROLL_EXCHANGE@,
        ) {
            Err(f) => Err(
                gate::denied(Refused::Unauthorized, "exchange:"@ + gate::fault_outcome(f)),
            ),
            Ok(c) => if caveat::resolved(c.discharge_caveats, name::SCOPE@)
                != ResolvedView::Value(scope::MINT_EXCHANGE@) {
                Err(gate::denied(Refused::Unauthorized, "exchange:denied:scope"@))
            } else {
                match issuance::identity_of(c.primary.caveats) {
                    Err(_) => Err(
                        gate::denied(Refused::Unauthorized, "exchange:denied:identity"@),
                    ),
                    Ok(id) => Ok((c, id)),
                }
            },
        },
    }
}

/// Admits an exchange.
pub fn admit_request(
    seal: &SealState,
    q: &Presented<'_>,
    keyring: &Keyring,
    now_unix: u64,
    audience: &str,
) -> (r: Result<Ticket, Deny>)
    ensures
        match admission(*seal, q@, keyring@, now_unix, audience@) {
            Ok((c, id)) => r matches Ok(t) && http::cleared_view(t.cleared) == c && (
            t.sub@,
            t.cnf@,
            ) == id,
            Err(d) => r is Err && r->Err_0@ == d,
        },
{
    match seal {
        SealState::Dormant => {
            return Err(gate::deny(Refused::NotSealed, "exchange:denied:not_sealed"));
        },
        SealState::Serving(_) => {},
    }
    let cleared = match gate::authenticate(q, keyring, now_unix, audience, op::ENROLL_EXCHANGE) {
        Ok(c) => c,
        Err(f) => {
            return Err(
                gate::deny(
                    Refused::Unauthorized,
                    text::concat("exchange:", f.outcome().as_str()).as_str(),
                ),
            );
        },
    };
    if !http::scalar_is(&cleared.discharge_caveats, name::SCOPE, scope::MINT_EXCHANGE) {
        return Err(gate::deny(Refused::Unauthorized, "exchange:denied:scope"));
    }
    match issuance::bound_identity(&cleared.primary) {
        Ok((sub, cnf)) => Ok(Ticket { cleared, sub, cnf }),
        Err(_) => Err(gate::deny(Refused::Unauthorized, "exchange:denied:identity")),
    }
}

/// The revocation epoch of an approved client, or the refusal. A client
/// that is not approved, or not under this key, is told to wait: the one
/// outcome that is awaited. A record that cannot be trusted is not told
/// apart from a missing one.
pub open spec fn approval(e: EnrolledRead, cnf: Seq<char>) -> Result<u64, DenyView> {
    match e {
        EnrolledRead::Found { pubkey, rev_epoch } => if pubkey@ == cnf {
            Ok(rev_epoch)
        } else {
            Err(gate::denied(Refused::Awaiting, "exchange:awaiting_approval"@))
        },
        EnrolledRead::Absent => Err(
            gate::denied(Refused::Awaiting, "exchange:awaiting_approval"@),
        ),
        EnrolledRead::Forged => Err(
            gate::denied(Refused::Awaiting, "exchange:awaiting_approval"@),
        ),
        EnrolledRead::Corrupt => Err(
            gate::denied(Refused::Awaiting, "exchange:awaiting_approval"@),
        ),
        EnrolledRead::Failed => Err(gate::unrecorded(Refused::Unavailable)),
        EnrolledRead::BadSub => Err(gate::denied(Refused::Unauthorized, "exchange:denied:bad_sub"@)),
        EnrolledRead::Other => Err(
            gate::denied(Refused::Unauthorized, "exchange:denied:state_error"@),
        ),
    }
}

fn approved(e: &EnrolledRead, cnf: &str) -> (r: Result<u64, Deny>)
    ensures
        match approval(*e, cnf@) {
            Ok(n) => r == Ok::<u64, Deny>(n),
            Err(d) => r is Err && r->Err_0@ == d,
        },
{
    match e {
        EnrolledRead::Found { pubkey, rev_epoch } => if text::same(pubkey.as_str(), cnf) {
            Ok(*rev_epoch)
        } else {
            Err(gate::deny(Refused::Awaiting, "exchange:awaiting_approval"))
        },
        EnrolledRead::Absent | EnrolledRead::Forged | EnrolledRead::Corrupt => Err(
            gate::deny(Refused::Awaiting, "exchange:awaiting_approval"),
        ),
        EnrolledRead::Failed => Err(gate::silent(Refused::Unavailable)),
        EnrolledRead::BadSub => Err(gate::deny(Refused::Unauthorized, "exchange:denied:bad_sub")),
        EnrolledRead::Other => Err(
            gate::deny(Refused::Unauthorized, "exchange:denied:state_error"),
        ),
    }
}

/// What a role's attested caveat is stamped with.
pub struct AttestationConfig<'a> {
    /// The role's attestation mode; none for a role without attestation.
    pub mode: Option<&'a str>,
    /// The key shared with the attestation authority.
    pub k_m_b: Option<&'a [u8; 32]>,
    /// Where its discharges are obtained.
    pub location: Option<&'a str>,
    /// The organisation that is served.
    pub org_id: Option<&'a str>,
}

/// The attestation mode that a configuration gives a role, where it has the
/// role and the role has one.
pub open spec fn mode_of(config: Config, role: Option<Seq<char>>) -> Option<Seq<char>> {
    match role {
        Some(r) if config.roles.map().contains_key(r) => config::opt_text(
            config.roles.map()[r].attestation_mode,
        ),
        _ => None,
    }
}

/// What an exchange for a role is stamped with under a configuration.
pub fn attestation_config<'a>(
    config: &'a Config,
    role: Option<&str>,
    k_m_b: Option<&'a [u8; 32]>,
    org_id: Option<&'a str>,
) -> (r: AttestationConfig<'a>)
    ensures
        crate::auth::header_view(r.mode) == mode_of(*config, crate::auth::header_view(role)),
        crate::auth::header_view(r.location) == config::opt_text(config.attestation_location),
        r.k_m_b == k_m_b,
        r.org_id == org_id,
{
    let mode: Option<&'a str> = match role {
        Some(q) => match config.roles.get(q) {
            Some(found) => match &found.attestation_mode {
                Some(m) => Some(m.as_str()),
                None => None,
            },
            None => None,
        },
        None => None,
    };
    let location: Option<&'a str> = match &config.attestation_location {
        Some(l) => Some(l.as_str()),
        None => None,
    };
    AttestationConfig { mode, k_m_b, location, org_id }
}

/// `m` is the credential of this identity for this role, with the attested
/// caveat of a role that has one.
pub open spec fn is_credential(
    m: MacaroonView,
    ring: KeyringView,
    audience: Seq<char>,
    sub: Seq<char>,
    cnf: Seq<char>,
    role: Seq<char>,
    rev_epoch: u64,
    attested: AttestationConfig<'_>,
) -> bool {
    let caveats = issuance::credential_caveats(audience, sub, cnf, role, rev_epoch);
    match attested.mode {
        None => issuance::minted_plain(m, ring, caveats),
        Some(mode) => exists|r: Seq<u8>| #[trigger]
            issuance::minted_gated(
                m,
                ring,
                caveats,
                r,
                attested.k_m_b->0@,
                tpc::attested_layout(r, sub, enroll::org_of(attested.org_id), mode@),
                attested.location->0@,
            ),
    }
}

/// Why no credential is minted for an admitted exchange: the client is not
/// approved, the role is not a sealed one, or its attestation cannot be
/// stamped.
pub open spec fn exchange_fault(
    surface: ServedSurface,
    cnf: Seq<char>,
    enrolled: EnrolledRead,
    role: Option<Seq<char>>,
    attested: AttestationConfig<'_>,
) -> Option<DenyView> {
    match approval(enrolled, cnf) {
        Err(d) => Some(d),
        Ok(_) => if !(role is Some && surface.seal@.intent.roles.contains_key(role->0)) {
            Some(gate::denied(Refused::Unauthorized, "exchange:denied:unknown_role"@))
        } else if attested.mode is Some && !(attested.k_m_b is Some && attested.location is Some) {
            Some(gate::denied(Refused::Unavailable, "exchange:denied:state_error"@))
        } else {
            None
        },
    }
}

/// Decides an admitted exchange. `enrolled` is the record of the ticket's
/// subject, `role` that of the parsed body, and `attested` what is
/// configured for that role. The record is not consumed: a ticket serves
/// every role until it expires.
pub fn decide(
    surface: &ServedSurface,
    ticket: &Ticket,
    enrolled: &EnrolledRead,
    role: Option<&str>,
    attested: &AttestationConfig<'_>,
    keyring: &Keyring,
    audience: &str,
) -> (r: Result<Reply, Deny>)
    requires
        attested.mode matches Some(mode) ==> tpc::sealable(
            ticket.sub@,
            enroll::org_of(attested.org_id),
            mode@,
        ),
    ensures
        match exchange_fault(
            *surface,
            ticket.cnf@,
            *enrolled,
            crate::auth::header_view(role),
            *attested,
        ) {
            Some(d) => r is Err && r->Err_0@ == d,
            None => {
                &&& r matches Ok(reply)
                &&& exists|m: MacaroonView|
                    {
                        &&& #[trigger] is_credential(
                            m,
                            keyring@,
                            audience@,
                            ticket.sub@,
                            ticket.cnf@,
                            role->0@,
                            enrolled->rev_epoch,
                            *attested,
                        )
                        &&& reply::replies(reply, 200, "credential"@, macaroon::token_of(m))
                    }
            },
        },
{
    let rev_epoch = match approved(enrolled, ticket.cnf.as_str()) {
        Ok(n) => n,
        Err(d) => {
            return Err(d);
        },
    };
    let role = match role {
        Some(q) => q,
        None => {
            return Err(gate::deny(Refused::Unauthorized, "exchange:denied:unknown_role"));
        },
    };
    if surface.role(role).is_none() {
        return Err(gate::deny(Refused::Unauthorized, "exchange:denied:unknown_role"));
    }
    let gate_config = match attested.mode {
        None => None,
        Some(mode) => match (attested.k_m_b, attested.location) {
            (Some(k_m_b), Some(location)) => Some(
                AttestedTpc {
                    k_m_b,
                    org_id: match attested.org_id {
                        Some(o) => o,
                        None => enroll::DEFAULT_ORG,
                    },
                    mode,
                    location,
                },
            ),
            _ => {
                return Err(gate::deny(Refused::Unavailable, "exchange:denied:state_error"));
            },
        },
    };
    let m = issuance::mint_credential(
        keyring,
        audience,
        ticket.sub.as_str(),
        ticket.cnf.as_str(),
        role,
        rev_epoch,
        gate_config,
    );
    assert(is_credential(
        m@,
        keyring@,
        audience@,
        ticket.sub@,
        ticket.cnf@,
        role@,
        rev_epoch,
        *attested,
    ));
    Ok(reply::field_reply(200, "credential", m.encode().as_str()))
}

} // verus!
