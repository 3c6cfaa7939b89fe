//! What calls come to: from the arguments of a call to what it returns.

use crate::admin;
use crate::admin::{AdminClientError, EnrollmentRow, InviteResponse};
use crate::attest;
use crate::attest::AttestRequest;
use crate::auth;
use crate::auth::{DischargeRequest, SessionClaims};
use crate::caveat;
use crate::caveat::{name, Caveat, CaveatView, ResolvedView};
use crate::cli;
use crate::client;
use crate::client::{CaveatArg, ClientError, ClientKey, Exchanged};
use crate::config::{Config, Listener, TcpAddr};
use crate::crypto;
use crate::http;
use crate::http::assume_role;
use crate::http::assume_role::{Admitted, Answer, MintOrder};
use crate::http::enroll;
use crate::http::enroll::{EnrollGrant, EnrollRequest, GateConfig, PendingWrite};
use crate::http::exchange;
use crate::http::exchange::{AttestationConfig, Ticket};
use crate::http::gate;
use crate::http::gate::{Deny, EnrolledRead, Presented, Refused};
use crate::http::verify;
use crate::http::ClearedBundle;
use crate::iam::{MintError, MintedKeypair};
use crate::json;
use crate::keyring::Keyring;
use crate::macaroon;
use crate::macaroon::{KeyRef, Macaroon, MacaroonView};
use crate::mint_rw;
use crate::mint_rw::VendRequest;
use crate::operator;
use crate::pop;
use crate::pop::{PopReject, Proof};
use crate::reply;
use crate::reply::Reply;
use crate::seal;
use crate::seal::Seal;
use crate::sealed_cache::{SealState, ServedSurface};
use crate::serve;
use crate::serve::KeyPlan;
use crate::session::FileText;
use crate::template;
use crate::template::TemplateError;
use crate::text;
use crate::time;
use crate::time::UtcTime;
use crate::transport;
use crate::transport::Target;
use vstd::prelude::*;
use vstd::utf8::*;

verus! {

/// Deciding a request comes to an order exactly where the role is granted,
/// and the order is what is granted.
pub proof fn law_deciding_orders_the_grant(
    surface: &ServedSurface,
    admitted: &Admitted,
    enrolled: &EnrolledRead,
    role: Option<&str>,
    now: UtcTime,
    r: Result<MintOrder, Deny>,
)
    requires
        assume_role::grant_fits(
            surface.seal@.intent,
            admitted.cleared.primary@.caveats,
            (admitted.sub@, admitted.cnf@, admitted.epoch),
            *enrolled,
            auth::header_view(role),
            now,
        ),
        call_ensures(assume_role::decide, (surface, admitted, enrolled, role, now), r),
    ensures
        r is Ok <==> super::assuming::outcome(
            *surface,
            *admitted,
            *enrolled,
            auth::header_view(role),
            now,
        ) is Ok,
        r matches Ok(o) ==> {
            &&& super::assuming::grants(
                *surface,
                *admitted,
                *enrolled,
                auth::header_view(role),
                now,
                o,
            )
            &&& role matches Some(q) && o.role@ == q@
            &&& o.ttl_seconds <= surface.seal@.intent.roles[o.role@].default_ttl_seconds
        },
        r matches Err(d) ==> (enrolled matches EnrolledRead::Found { pubkey, rev_epoch } ==> (
        pubkey@ == admitted.cnf@ && rev_epoch == admitted.epoch ==> d.kind == Refused::BadRequest
            || d.kind == Refused::Unavailable)),
        !(enrolled matches EnrolledRead::Found { pubkey, rev_epoch } && pubkey@ == admitted.cnf@
            && rev_epoch == admitted.epoch) ==> (r matches Err(d) && d.kind == (
        if enrolled is Failed {
            Refused::Unavailable
        } else {
            Refused::Unauthorized
        })),
{
}

/// A keypair that was minted is handed out, with status 200; and where none
/// was, the client is told to try again.
pub proof fn law_answer_hands_out_the_keypair(
    minted: &Result<MintedKeypair, MintError>,
    r: Answer,
)
    requires
        call_ensures(assume_role::answer, (minted,), r),
    ensures
        minted is Ok ==> r.reply.status == 200 && r.retry_after is None,
        minted matches Ok(k) ==> r.reply.body@ == json::json_text(
            assume_role::keypair_doc(k.access_key_id@, k.secret_access_key@),
        ),
        minted is Err ==> r.reply.status == 503 && r.retry_after is Some,
{
}

/// A request to take a role is admitted exactly where it authenticates for
/// it under the sealed audience and has one identity, which is then the
/// credential's.
pub proof fn law_admission_is_for_the_bearer(
    seal: &SealState,
    q: &Presented<'_>,
    keyring: &Keyring,
    now_unix: u64,
    r: Result<Admitted, Deny>,
)
    requires
        call_ensures(assume_role::admit_request, (seal, q, keyring, now_unix), r),
    ensures
        seal is Dormant ==> (r matches Err(d) && d.kind == Refused::NotSealed),
        r matches Ok(a) ==> {
            let c = a.cleared.primary@.caveats;
            &&& seal matches SealState::Serving(s)
            &&& gate::authenticated(
                q@,
                keyring@,
                now_unix,
                s.seal@.intent.audience,
                "assume-role"@,
            ) == Ok::<http::ClearedView, gate::AuthFault>(http::cleared_view(a.cleared))
            &&& caveat::resolved(c, name::SUB@) == ResolvedView::Value(a.sub@)
            &&& caveat::resolved(c, name::CNF@) == ResolvedView::Value(a.cnf@)
            &&& caveat::resolved(c, name::EPOCH@) matches ResolvedView::Value(e)
            &&& text::read_u64(e) == Some(a.epoch)
        },
        seal matches SealState::Serving(s) ==> (gate::authenticated(
            q@,
            keyring@,
            now_unix,
            s.seal@.intent.audience,
            "assume-role"@,
        ) matches Ok(c) ==> (caveat::resolved(c.primary.caveats, name::SUB@) is Value
            && caveat::resolved(c.primary.caveats, name::CNF@) is Value ==> (caveat::resolved(
            c.primary.caveats,
            name::EPOCH@,
        ) matches ResolvedView::Value(e) ==> (text::read_u64(e) is Some ==> r is Ok)))),
{
}

/// A verdict is always a reply of status 200, and it is positive exactly
/// where the bundle authenticates for taking a role.
pub proof fn law_verdict_is_of_the_bundle(
    q: &Presented<'_>,
    keyring: &Keyring,
    now_unix: u64,
    audience: &str,
    r: Reply,
)
    requires
        call_ensures(verify::verdict, (q, keyring, now_unix, audience), r),
    ensures
        r.status == 200,
        gate::authenticated(q@, keyring@, now_unix, audience@, "assume-role"@) matches Ok(c)
            ==> r.body@ == json::json_text(verify::valid_doc(c)),
        gate::authenticated(q@, keyring@, now_unix, audience@, "assume-role"@) is Err ==> exists|
            reason: Seq<char>,
        |
            r.body@ == json::json_text(#[trigger] verify::invalid_doc(reason)),
{
    if gate::authenticated(q@, keyring@, now_unix, audience@, "assume-role"@) is Err {
        let f = gate::authenticated(q@, keyring@, now_unix, audience@, "assume-role"@)->Err_0;
        assert(r.body@ == json::json_text(verify::invalid_doc(verify::fault_reason(f))));
    }
}

/// A policy is rendered from the template with these values, or the render
/// says what is wrong with it.
pub proof fn law_rendering_fills_the_template(
    policy_template: &str,
    env: &crate::map::NameMap<String>,
    attested_names: &[String],
    discharge_caveats: &[Caveat],
    caveats: &[Caveat],
    expiry: &str,
    role: &str,
    r: Result<String, TemplateError>,
)
    requires
        call_ensures(
            template::render_policy,
            (
                policy_template,
                env,
                attested_names,
                discharge_caveats,
                caveats,
                expiry,
                role,
            ),
            r,
        ),
    ensures
        ({
            let data = template::DataView {
                env: env.texts(),
                attested_names: text::texts(attested_names@),
                discharge_caveats: caveat::chain(discharge_caveats@),
                caveats: caveat::chain(caveats@),
                expiry: expiry@,
            };
            match json::json_of(encode_utf8(policy_template@)) {
                None => r matches Err(TemplateError::NotJson { .. }),
                Some(doc) => match template::fill_doc(data, doc) {
                    Ok(out) => r matches Ok(t) && t@ == json::json_text(out) && json::json_of(
                        encode_utf8(t@),
                    ) is Some && json::agree(out, json::json_of(encode_utf8(t@))->0),
                    Err(template::TokenFault::Unknown(s)) => r matches Err(
                        TemplateError::UnknownField { role: n, field },
                    ) && n@ == role@ && field@ == s,
                    Err(template::TokenFault::Malformed(s)) => r matches Err(
                        TemplateError::MalformedToken { role: n, token },
                    ) && n@ == role@ && token@ == s,
                },
            }
        }),
{
}

/// Asking for an attestation comes to a discharge of what was asked for, or
/// to a refusal; and to neither where the authority has no keys.
pub proof fn law_attesting_replies_with_the_discharge(
    k_m_b: Option<&[u8; 32]>,
    k_session: Option<&[u8; 32]>,
    authorization: Option<&str>,
    request: &Option<AttestRequest>,
    org_id: Option<&str>,
    now_unix: u64,
    r: Reply,
)
    requires
        now_unix + 300 <= u64::MAX,
        call_ensures(
            attest::issue_discharge,
            (k_m_b, k_session, authorization, request, org_id, now_unix),
            r,
        ),
    ensures
        k_m_b is None || k_session is None ==> r.status == 503,
        k_m_b is Some && k_session is Some ==> match attest::attest_outcome(
            k_m_b->0@,
            auth::presented_claims(auth::header_view(authorization), k_session->0@, now_unix),
            match request {
                Some(q) => Some((q.cid@, q.attested.texts())),
                None => None,
            },
            auth::header_view(org_id),
            now_unix,
        ) {
            Ok(d) => r.status == 200 && json::str_field(
                json::json_of(encode_utf8(r.body@)),
                "discharge"@,
            ) == Some(macaroon::token_of(d)),
            Err(f) => r.status == f.status && json::str_field(
                json::json_of(encode_utf8(r.body@)),
                "error"@,
            ) == Some(f.message),
        },
{
}

/// Asking for a discharge comes to one for the session that asks, or to a
/// refusal.
pub proof fn law_discharging_replies_with_the_discharge(
    k_m_a: Option<&[u8; 32]>,
    k_session: Option<&[u8; 32]>,
    authorization: Option<&str>,
    request: &Option<DischargeRequest>,
    org_id: Option<&str>,
    audience: &str,
    now_unix: u64,
    r: Reply,
)
    requires
        now_unix + 300 <= u64::MAX,
        call_ensures(
            auth::issue_discharge,
            (k_m_a, k_session, authorization, request, org_id, audience, now_unix),
            r,
        ),
    ensures
        k_m_a is None || k_session is None ==> r.status == 503,
        k_m_a is Some && k_session is Some ==> match auth::discharge_outcome(
            k_m_a->0@,
            auth::presented_claims(auth::header_view(authorization), k_session->0@, now_unix),
            match request {
                Some(q) => Some((q.cid@, q.scope@)),
                None => None,
            },
            auth::header_view(org_id),
            audience@,
            now_unix,
        ) {
            Ok(d) => r.status == 200 && json::str_field(
                json::json_of(encode_utf8(r.body@)),
                "discharge"@,
            ) == Some(macaroon::token_of(d)),
            Err(f) => r.status == f.status,
        },
{
}

/// Logging in comes to a session of the subject that logs in; no subject is
/// refused, and so is an empty one.
pub proof fn law_logging_in_replies_with_the_session(
    k_session: Option<&[u8; 32]>,
    subject: Option<&str>,
    now_unix: u64,
    r: Reply,
)
    requires
        now_unix + 604800 <= u64::MAX,
        call_ensures(auth::issue_session, (k_session, subject, now_unix), r),
    ensures
        k_session is None ==> r.status == 503,
        k_session is Some && (subject is None || subject->0@.len() == 0) ==> r.status == 400,
        k_session is Some && subject is Some && subject->0@.len() > 0 ==> r.status == 200
            && exists|nonce: Seq<u8>|
            json::str_field(json::json_of(encode_utf8(r.body@)), "session"@) == Some(
                macaroon::token_of(
                    #[trigger] auth::session_of(k_session->0@, subject->0@, now_unix, nonce),
                ),
            ),
{
}

/// A session is verified as what its bearer presents.
pub proof fn law_verified_session_is_the_bearers(
    k_session: &[u8; 32],
    authorization: Option<&str>,
    now_unix: u64,
    r: Result<SessionClaims, ()>,
)
    requires
        call_ensures(auth::verify_session, (k_session, authorization, now_unix), r),
    ensures
        match auth::presented_claims(auth::header_view(authorization), k_session@, now_unix) {
            Some(c) => r matches Ok(s) && s.subject@ == c.subject && s.scopes@ == c.scopes,
            None => r is Err,
        },
        authorization is None ==> r is Err,
{
}

/// What is recorded of an enrollment is decided from the subject, the key,
/// the registry and what waits, and from nothing else.
pub proof fn law_recording_is_decided(
    sub: &str,
    cnf: &str,
    enrolled: &EnrolledRead,
    pending: Option<&str>,
    r: PendingWrite,
)
    requires
        call_ensures(enroll::decide_recording, (sub, cnf, enrolled, pending), r),
    ensures
        r == PendingWrite::Created <==> enroll::valid_sub(sub@) && pending is None && !(enrolled
            is Failed) && !super::enrolling::enrolled_under(*enrolled, cnf@),
        r == PendingWrite::Conflict ==> (pending matches Some(p) && p@ != cnf@),
        r == PendingWrite::AlreadyEnrolled <==> enroll::valid_sub(sub@)
            && super::enrolling::enrolled_under(*enrolled, cnf@),
{
}

/// The organisation that is served, or the demo one.
pub open spec fn organisation(org_id: Option<&str>) -> Seq<char> {
    match org_id {
        Some(o) => o@,
        None => "demo"@,
    }
}

/// Whoever enrolls gets a ticket for the subject and the key that they
/// named, wherever the request was recorded and an authority is configured.
pub proof fn law_enrolling_replies_with_the_ticket(
    written: PendingWrite,
    gates: &GateConfig<'_>,
    keyring: &Keyring,
    audience: &str,
    request: &EnrollRequest,
    now_unix: u64,
    r: Result<EnrollGrant, Deny>,
)
    requires
        call_ensures(
            enroll::issue_ticket,
            (written, gates, keyring, audience, request, now_unix),
            r,
        ),
    ensures
        r is Ok <==> (written == PendingWrite::Created || written == PendingWrite::Idempotent
            || written == PendingWrite::AlreadyEnrolled) && gates.k_m_a is Some && gates.location
            is Some,
        r matches Ok(g) ==> {
            &&& g.reply.status == 200
            &&& g.migrate <==> written == PendingWrite::AlreadyEnrolled
            &&& exists|t: MacaroonView|
                {
                    &&& #[trigger] enroll::is_ticket(
                        t,
                        keyring@,
                        gates.k_m_a->0@,
                        audience@,
                        request.sub@,
                        request.cnf@,
                        now_unix,
                        organisation(gates.org_id),
                        gates.location->0@,
                    )
                    &&& json::str_field(
                        json::json_of(encode_utf8(g.reply.body@)),
                        "credential.ticket"@,
                    ) == Some(macaroon::token_of(t))
                }
        },
{
    if r is Ok {
        let g = r->Ok_0;
        let t = choose|t: MacaroonView|
            {
                &&& #[trigger] enroll::is_ticket(
                    t,
                    keyring@,
                    gates.k_m_a->0@,
                    audience@,
                    request.sub@,
                    request.cnf@,
                    now_unix,
                    enroll::org_of(gates.org_id),
                    gates.location->0@,
                )
                &&& reply::replies(g.reply, 200, "credential.ticket"@, macaroon::token_of(t))
            };
        assert(enroll::is_ticket(
            t,
            keyring@,
            gates.k_m_a->0@,
            audience@,
            request.sub@,
            request.cnf@,
            now_unix,
            organisation(gates.org_id),
            gates.location->0@,
        ));
    }
}

/// Who enrolls is read off the bundle.
pub proof fn law_enrollee_is_read_off_the_bundle(
    cleared: &ClearedBundle,
    current: Option<&str>,
    r: Result<EnrollRequest, Deny>,
)
    requires
        call_ensures(enroll::identify, (cleared, current), r),
    ensures
        r matches Ok(q) ==> {
            let c = cleared.primary@.caveats;
            &&& caveat::resolved(c, name::SUB@) == ResolvedView::Value(q.sub@)
            &&& caveat::resolved(c, name::CNF@) == ResolvedView::Value(q.cnf@)
            &&& caveat::resolved(
                caveat::chain(cleared.discharge_caveats@),
                name::SUB@,
            ) == ResolvedView::Value(q.requested_by@)
            &&& current matches Some(n)
            &&& caveat::resolved(c, name::INVITE@) == ResolvedView::Value(n@)
        },
        current is None ==> (r matches Err(d) && d.kind == Refused::Unavailable),
{
}

/// Exchanging comes to a credential for the ticket's subject and key and the
/// role that is asked for, at the epoch of the record, wherever one is owed.
pub proof fn law_exchanging_replies_with_the_credential(
    surface: &ServedSurface,
    ticket: &Ticket,
    enrolled: &EnrolledRead,
    role: Option<&str>,
    attested: &AttestationConfig<'_>,
    keyring: &Keyring,
    audience: &str,
    r: Result<Reply, Deny>,
)
    requires
        call_ensures(
            exchange::decide,
            (surface, ticket, enrolled, role, attested, keyring, audience),
            r,
        ),
    ensures
        r is Ok <==> {
            &&& super::enrolling::enrolled_under(*enrolled, ticket.cnf@)
            &&& role matches Some(q)
            &&& surface.seal@.intent.roles.contains_key(q@)
            &&& attested.mode is Some ==> attested.k_m_b is Some && attested.location is Some
        },
        r matches Ok(reply) ==> {
            &&& reply.status == 200
            &&& exists|m: MacaroonView|
                {
                    &&& #[trigger] exchange::is_credential(
                        m,
                        keyring@,
                        audience@,
                        ticket.sub@,
                        ticket.cnf@,
                        role->0@,
                        enrolled->rev_epoch,
                        *attested,
                    )
                    &&& json::str_field(json::json_of(encode_utf8(reply.body@)), "credential"@)
                        == Some(macaroon::token_of(m))
                }
        },
{
}

/// An invite is for the current nonce, and tells it.
pub proof fn law_invite_is_for_the_current_nonce(
    nonce: Result<String, String>,
    gates: &GateConfig<'_>,
    keyring: &Keyring,
    audience: &str,
    r: Result<InviteResponse, String>,
)
    requires
        call_ensures(admin::build_invite, (nonce, gates, keyring, audience), r),
    ensures
        r is Ok <==> nonce is Ok && gates.k_m_a is Some && gates.location is Some,
        r matches Ok(v) ==> v.nonce@ == nonce->Ok_0@ && exists|m: MacaroonView|
            #[trigger] admin::is_invite(
                m,
                keyring@,
                gates.k_m_a->0@,
                audience@,
                nonce->Ok_0@,
                enroll::org_of(gates.org_id),
                gates.location->0@,
            ) && v.macaroon@ == macaroon::token_of(m),
{
}

/// The server's answer to an exchange is followed: a credential is kept, one
/// that waits is told as that, and a ticket that is refused has to be
/// renewed.
pub proof fn law_exchange_follows_the_status(
    status: u16,
    body: &str,
    r: Result<Exchanged, ClientError>,
)
    requires
        call_ensures(client::read_exchange, (status, body), r),
    ensures
        status == 403 <==> r matches Ok(Exchanged::Awaiting),
        status == 401 <==> r matches Err(ClientError::TicketRejected),
        r matches Ok(Exchanged::Credential(c)) ==> status == 200 && json::str_field(
            json::json_of(encode_utf8(body@)),
            "credential"@,
        ) == Some(c@) && macaroon::read_token(c@) is Some,
        status == 200 ==> (json::str_field(
            json::json_of(encode_utf8(body@)),
            "credential"@,
        ) matches Some(t) ==> (macaroon::read_token(t) is Some ==> r is Ok)),
{
}

/// A ticket is read out of a reply of status 200, and out of no other.
pub proof fn law_ticket_is_read_from_the_reply(
    status: u16,
    body: &str,
    r: Result<String, ClientError>,
)
    requires
        call_ensures(client::read_ticket, (status, body), r),
    ensures
        r matches Ok(t) ==> status == 200 && json::str_field(
            json::json_of(encode_utf8(body@)),
            "credential.ticket"@,
        ) == Some(t@),
        status == 200 && json::str_field(
            json::json_of(encode_utf8(body@)),
            "credential.ticket"@,
        ) is Some ==> r is Ok,
{
}

/// A client that has a key keeps it, and one that has none gets a fresh one;
/// a key that cannot be read is not replaced.
pub proof fn law_client_key_is_kept(read: &FileText, r: Result<ClientKey, ClientError>)
    requires
        call_ensures(client::load_key, (read,), r),
    ensures
        read is Missing <==> (r matches Ok(k) && k.fresh),
        r matches Ok(k) ==> (!k.fresh ==> (read matches FileText::Text(t) && text::read_hex32(
            text::trimmed(t@),
        ) == Some(k.seed@))),
        read is Failed ==> r is Err,
{
}

/// Whoever presents an invite names themself on it, behind what it says.
pub proof fn law_presented_invite_names_the_holder(
    invite: Macaroon,
    sub: &str,
    cnf: &str,
    r: Macaroon,
)
    requires
        call_ensures(client::present_invite, (invite, sub, cnf), r),
    ensures
        r@.caveats == invite@.caveats.push(
            CaveatView::FirstParty { name: "sub"@, value: sub@ },
        ).push(CaveatView::FirstParty { name: "cnf"@, value: cnf@ }),
        r@.nonce == invite@.nonce,
        r@.key_ref == invite@.key_ref,
{
}

/// A credential that is bounded has one more deadline: so many seconds from
/// now, or the end of time.
pub proof fn law_bounded_credential_has_a_deadline(
    credential: Macaroon,
    now_unix: u64,
    ttl_seconds: u64,
    r: Macaroon,
)
    requires
        call_ensures(client::bound_credential, (credential, now_unix, ttl_seconds), r),
    ensures
        r@.caveats.drop_last() == credential@.caveats,
        r@.caveats.last() matches CaveatView::FirstParty { name: n, value } && n == "exp"@
            && text::read_u64(value) == Some(
            (if now_unix + ttl_seconds <= u64::MAX {
                now_unix + ttl_seconds
            } else {
                u64::MAX as int
            }) as u64,
        ),
        r@.nonce == credential@.nonce,
{
    let end: u64 = enroll::capped(now_unix, ttl_seconds);
    text::lemma_read_digits(end);
    assert(r@.caveats.drop_last() =~= credential@.caveats);
}

/// A credential that is narrowed has the given caveats behind its own.
pub proof fn law_narrowed_credential_has_the_given_caveats(
    credential: Macaroon,
    args: &[CaveatArg],
    r: Macaroon,
    i: int,
)
    requires
        call_ensures(client::narrow_credential, (credential, args), r),
    ensures
        r@.caveats.len() == credential@.caveats.len() + args@.len(),
        0 <= i < credential@.caveats.len() ==> r@.caveats[i] == credential@.caveats[i],
        0 <= i < args@.len() ==> r@.caveats[credential@.caveats.len() + i]
            == (CaveatView::FirstParty { name: args@[i].name@, value: args@[i].value@ }),
        r@.nonce == credential@.nonce,
{
    super::clients::law_narrowing_appends_what_was_given(credential@, args@, i);
}

/// A minted token is minted under the current generation, with the caveats
/// that it is given.
pub proof fn law_minting_keeps_the_caveats(keyring: &Keyring, caveats: Vec<Caveat>, r: Macaroon)
    requires
        call_ensures(macaroon::mint, (keyring, caveats), r),
    ensures
        r@.key_ref == KeyRef::Keyring(keyring@.current),
        r@.caveats == caveat::chain(caveats@),
        macaroon::authentic(r@, keyring@.keys[keyring@.current]),
{
}

/// A proof is checked with the key that the token is bound to, over this
/// token and this body, and has to be fresh.
pub proof fn law_checking_a_proof(
    caveats: &[Caveat],
    tail: &[u8; 32],
    body: &[u8],
    proof_of: Option<Proof>,
    now_unix: u64,
    r: Result<(), PopReject>,
)
    requires
        call_ensures(pop::check, (caveats, tail, body, proof_of, now_unix), r),
    ensures
        r is Ok <==> {
            &&& caveat::resolved(caveat::chain(caveats@), "cnf"@) matches ResolvedView::Value(v)
            &&& pop::cnf_key(v) matches Ok(key)
            &&& crypto::ed25519_key_ok(key)
            &&& proof_of matches Some(p)
            &&& crypto::ed25519_strict(
                key,
                crypto::blake3_hash(tail@ + crypto::blake3_hash(body@)),
                p.sig@,
            )
            &&& pop::ts_of(json::json_of(body@)) matches Ok(ts)
            &&& now_unix <= ts + 60
            &&& ts <= now_unix + 60
        },
        r == Err::<(), PopReject>(PopReject::NoCnf) <==> caveat::resolved(
            caveat::chain(caveats@),
            "cnf"@,
        ) is Absent,
        r == Err::<(), PopReject>(PopReject::Unsatisfiable) <==> caveat::resolved(
            caveat::chain(caveats@),
            "cnf"@,
        ) is Unsatisfiable,
        r == Err::<(), PopReject>(PopReject::MissingProof) ==> proof_of is None,
        r == Err::<(), PopReject>(PopReject::Stale) ==> (pop::ts_of(
            json::json_of(body@),
        ) matches Ok(ts) && (now_unix > ts + 60 || ts > now_unix + 60)),
{
}

/// A seal is made of the configuration, under the current generation, and is
/// honoured by the ring that made it.
pub proof fn law_sealing_seals_the_configuration(
    config: &Config,
    keyring: &Keyring,
    sealed_at: &str,
    r: Seal,
)
    requires
        call_ensures(Seal::build_from_config, (config, keyring, sealed_at), r),
    ensures
        r@.intent == seal::intent_of(*config),
        r@.sealed_at == sealed_at@,
        r@.kid == keyring@.current,
        seal::verifies(r@, keyring@),
{
}

/// A transport is a socket where it says so, and else an address.
pub proof fn law_targets_are_sockets_or_addresses(base: &str, r: Target)
    requires
        call_ensures(transport::parse_target, (base,), r),
    ensures
        r matches Target::Uds(p) ==> base@ == "unix:"@ + p@,
        r matches Target::Tcp(b) ==> b@ == base@ && !"unix:"@.is_prefix_of(base@),
{
    if let Target::Uds(p) = r {
        assert(base@ =~= "unix:"@ + base@.skip("unix:"@.len() as int));
    }
}

/// An endpoint is dialled below its base.
pub proof fn law_endpoints_stand_below_their_base(base: &str, endpoint: &str, r: String)
    requires
        call_ensures(transport::endpoint_url, (base, endpoint), r),
    ensures
        r@ == base@ + endpoint@,
{
}

/// A login goes where it is told, or else to the configured authority, or
/// else where the last one went.
pub proof fn law_login_goes_where_it_is_told(
    url: Option<&str>,
    config: Option<&Config>,
    remembered: &FileText,
    r: Result<String, String>,
)
    requires
        call_ensures(cli::resolve_login_transport, (url, config, remembered), r),
    ensures
        url matches Some(u) ==> (r matches Ok(t) && t@ == u@),
        url is None ==> (config matches Some(c) ==> (r matches Ok(t) ==> (c.demo_auth matches Some(
            d,
        ) && d.socket matches Some(s) && t@ == "unix:"@ + s@))),
        url is None && config is None ==> (remembered matches FileText::Text(t) ==> (r matches Ok(
            got,
        ) && got@ == text::trimmed(t@))),
        url is None && config is None && !(remembered is Text) ==> r is Err,
{
}

/// Only a yes is a yes.
pub proof fn law_only_yes_is_yes(line: &str, r: bool)
    requires
        call_ensures(cli::is_yes, (line,), r),
    ensures
        r <==> (text::trimmed(line@) == "y"@ || text::trimmed(line@) == "Y"@ || text::trimmed(line@)
            == "yes"@ || text::trimmed(line@) == "YES"@),
{
}

/// A reply is accepted with status 200, and with no other.
pub proof fn law_only_success_is_accepted(
    status: u16,
    body: &str,
    r: Result<(), AdminClientError>,
)
    requires
        call_ensures(admin::accept_reply, (status, body), r),
    ensures
        r is Ok <==> status == 200,
{
}

/// The enrollment that is approved waits, under the subject that was named.
pub proof fn law_approved_enrollment_waits(
    rows: &[EnrollmentRow],
    sub: &str,
    r: Result<&EnrollmentRow, String>,
)
    requires
        call_ensures(cli::find_pending, (rows, sub), r),
    ensures
        r matches Ok(row) ==> row.sub@ == sub@ && row.state@ == "pending"@ && rows@.contains(*row),
        r is Err ==> forall|j: int|
            0 <= j < rows@.len() ==> !((#[trigger] rows@[j]).sub@ == sub@ && rows@[j].state@
                == "pending"@),
{
    if r is Err {
        assert forall|j: int| 0 <= j < rows@.len() implies !((#[trigger] rows@[j]).sub@ == sub@
            && rows@[j].state@ == "pending"@) by {
            assert(!cli::is_pending_of(rows@[j], sub@));
        }
    }
}

/// The service's own keypair is asked for a week, under a policy of its own
/// bucket that ends with it.
pub proof fn law_own_keypair_lasts_a_week(bucket: &str, now: UtcTime, r: VendRequest)
    requires
        now.valid(),
        now.seconds + 604800 <= time::MAX_SECONDS,
        call_ensures(mint_rw::vend_request, (bucket, now), r),
    ensures
        r.ttl_seconds == 604800,
        r.policy_json@ == mint_rw::policy_text(
            bucket@,
            time::rfc3339_text((now.seconds + 604800) as i64, now.nanos),
        ),
        exists|nonce: u32|
            r.policy_name@ == #[trigger] crate::iam::name_text(
                "mint-rw"@,
                "global"@,
                time::compact_text((now.seconds + 604800) as i64),
                nonce,
            ),
{
}

/// A keypair is refreshed at half of what it has left, and at once where it
/// has hardly any; a refresh that failed is tried again before it ends.
pub proof fn law_keypairs_are_refreshed_in_time(remaining: i64, delay: u64, backoff: u64)
    requires
        call_ensures(mint_rw::refresh_delay, (remaining,), delay),
        call_ensures(mint_rw::retry_backoff, (remaining,), backoff),
    ensures
        remaining >= 2 ==> delay == remaining / 2,
        remaining < 2 ==> delay == 1,
        5 <= backoff <= 60,
        10 <= remaining < 120 ==> backoff == remaining / 2,
        remaining >= 120 ==> backoff == 60,
        remaining < 10 ==> backoff == 5,
{
}

/// The keys that a service needs are those of the authorities that it runs
/// or relies on.
pub proof fn law_needed_keys_follow_the_authorities(config: &Config, r: KeyPlan)
    requires
        call_ensures(serve::key_plan, (config,), r),
    ensures
        r.k_session <==> (config.demo_auth matches Some(d) && d.enabled),
        r.generate <==> r.k_session,
        r.k_m_a <==> r.k_session || config.auth_location is Some,
        (exists|x: Seq<char>| #[trigger]
            config.roles.map().contains_key(x) && config.roles.map()[x].attestation_mode is Some)
            ==> r.k_m_b,
        (config.demo_attestation matches Some(d) && d.enabled) ==> r.k_m_b,
{
}

/// A listener that is given overrides the configured one.
pub proof fn law_given_listener_is_used(
    bind_override: Option<TcpAddr>,
    configured: Listener,
    r: Listener,
)
    requires
        call_ensures(serve::choose_listener, (bind_override, configured), r),
    ensures
        bind_override matches Some(a) ==> r == Listener::Tcp(a),
        bind_override is None ==> r == configured,
{
}

/// A service is ready exactly while it serves a seal.
pub proof fn law_ready_while_sealed(state: &SealState, r: (u16, &'static str))
    requires
        call_ensures(http::readyz, (state,), r),
    ensures
        r.0 == 200 <==> state is Serving,
        r.0 == 503 <==> state is Dormant,
{
}

/// A record that waits lapses after an hour.
pub proof fn law_waiting_lapses_after_an_hour(created_at: u64, now_unix: u64, r: bool)
    requires
        call_ensures(enroll::has_lapsed, (created_at, now_unix), r),
    ensures
        r <==> now_unix > created_at + 3600,
{
}

/// An operator's call is the service token for this verb, the discharge, and
/// a proof over this body.
pub proof fn law_operator_call_is_for_the_verb(
    o: &operator::Operator,
    discharge: &Macaroon,
    op_value: &str,
    body: &[u8],
    r: (String, String),
)
    requires
        call_ensures(operator::Operator::authorize, (o, discharge, op_value, body), r),
    ensures
        ({
            let primary = macaroon::extended(
                o@.token,
                CaveatView::FirstParty { name: "op"@, value: op_value@ },
            );
            &&& r.0@ == http::bundle_text(primary, seq![discharge@])
            &&& r.1@ == crypto::base64(
                crypto::ed25519_signature(
                    o@.seed,
                    crypto::blake3_hash(primary.tail + crypto::blake3_hash(body@)),
                ),
            )
        }),
{
}

} // verus!
