//! What the planes promise together: a token that this service issued, in
//! the hands of the holder that it was issued to, is let in where it is
//! meant for; and a request that is refused is not told why.

use crate::admin;
use crate::attest;
use crate::auth;
use crate::auth::ClaimsView;
use crate::caveat;
use crate::caveat::{name, op, scope, CaveatView, ResolvedView};
use crate::crypto;
use crate::http;
use crate::http::assume_role;
use crate::http::enroll;
use crate::http::enroll::RequestView;
use crate::http::exchange;
use crate::http::gate;
use crate::http::gate::{DenyView, EnrolledRead, PresentedView, Refused};
use crate::issuance;
use crate::json;
use crate::keyring::KeyringView;
use crate::macaroon;
use crate::macaroon::{KeyRef, MacaroonView, SiteView};
use crate::pop;
use crate::role;
use crate::sealed_cache::SealState;
use crate::text;
use crate::time::UtcTime;
use crate::tpc;
use vstd::prelude::*;

verus! {

/// The fixed client ids fit their length prefix.
proof fn lemma_client_ids_fit()
    ensures
        tpc::fits(issuance::INVITE_CLIENT_ID@),
        tpc::fits(issuance::TICKET_CLIENT_ID@),
        tpc::fits(issuance::ADMIN_SERVICE_CLIENT_ID@),
{
    reveal_strlit("invite");
    reveal_strlit("ticket");
    reveal_strlit("admin-service");
    vstd::utf8::is_ascii_chars_encode_utf8(issuance::INVITE_CLIENT_ID@);
    vstd::utf8::is_ascii_chars_encode_utf8(issuance::TICKET_CLIENT_ID@);
    vstd::utf8::is_ascii_chars_encode_utf8(issuance::ADMIN_SERVICE_CLIENT_ID@);
}

/// A name that one caveat of a chain carries has that caveat's value.
pub proof fn lemma_only_value(c: Seq<CaveatView>, n: Seq<char>, i: int, v: Seq<char>)
    requires
        0 <= i < c.len(),
        c[i] == caveat::scalar(n, v),
        forall|j: int| 0 <= j < c.len() && j != i ==> caveat::value_for(#[trigger] c[j], n) is None,
    ensures
        caveat::resolved(c, n) == ResolvedView::Value(v),
{
    caveat::law_resolution_is_tri_state(c, n);
    assert(caveat::value_for(c[i], n) == Some(v));
    assert(caveat::occurs(c, n, v));
}

/// A name that no caveat of a chain carries is absent, and bounds nothing.
pub proof fn lemma_no_value(c: Seq<CaveatView>, n: Seq<char>)
    requires
        forall|j: int| 0 <= j < c.len() ==> caveat::value_for(#[trigger] c[j], n) is None,
    ensures
        caveat::resolved(c, n) is Absent,
        caveat::bound_of(c, n) is None,
{
    caveat::law_resolution_is_tri_state(c, n);
    caveat::law_bound_is_minimum(c, n);
    assert forall|i: int| 0 <= i < c.len() implies caveat::bound_for(#[trigger] c[i], n) is None by {
        assert(caveat::value_for(c[i], n) is None);
    }
}

/// A deadline that one caveat of a chain carries bounds it.
pub proof fn lemma_only_bound(c: Seq<CaveatView>, n: Seq<char>, i: int, bound: u64)
    requires
        0 <= i < c.len(),
        c[i] == caveat::scalar(n, text::digits(bound as nat)),
        forall|j: int| 0 <= j < c.len() && j != i ==> caveat::value_for(#[trigger] c[j], n) is None,
    ensures
        caveat::bound_of(c, n) == Some(bound),
{
    text::lemma_read_digits(bound);
    caveat::law_bound_is_minimum(c, n);
    assert(caveat::bound_for(c[i], n) == Some(bound));
}

/// The generation that a token was minted under is still in the ring.
pub open spec fn keeps(ring: KeyringView, later: KeyringView) -> bool {
    later.keys.contains_key(ring.current) && later.keys[ring.current] == ring.keys[ring.current]
}

/// The request presents this bundle and this proof.
pub open spec fn presents(
    q: PresentedView,
    primary: MacaroonView,
    ds: Seq<MacaroonView>,
    sig: Seq<u8>,
) -> bool {
    &&& http::read_bundle(q.authorization) == Some(seq![primary] + ds)
    &&& gate::read_proof(q.proof_header) == Ok::<Option<Seq<u8>>, ()>(Some(sig))
}

/// The signature is the holder's over this macaroon's tail and this body,
/// whose timestamp is fresh.
pub open spec fn proves(
    sig: Seq<u8>,
    cnf: Seq<char>,
    m: MacaroonView,
    body: Seq<u8>,
    now_unix: u64,
) -> bool {
    &&& pop::cnf_key(cnf) matches Ok(key)
    &&& crypto::ed25519_key_ok(key)
    &&& crypto::ed25519_strict(key, pop::signed_digest(m.tail, body), sig)
    &&& pop::ts_of(json::json_of(body)) matches Ok(ts)
    &&& pop::within_skew(now_unix, ts)
}

/// A bundle of a primary with one third-party caveat and its discharge
/// clears, where each clears by itself.
proof fn lemma_gated_bundle_clears(
    m: MacaroonView,
    site: SiteView,
    d: MacaroonView,
    r: Seq<u8>,
    ring: KeyringView,
    cnf: Seq<char>,
    q: PresentedView,
    sig: Seq<u8>,
    now_unix: u64,
    aud: Seq<char>,
    op: Seq<char>,
)
    requires
        m.key_ref matches KeyRef::Keyring(kid) && ring.keys.contains_key(kid)
            && macaroon::authentic(m, ring.keys[kid]) && macaroon::sites(m, ring.keys[kid])
            == seq![site],
        tpc::recovered(site.tag, site.vid) == Ok::<Seq<u8>, tpc::TpcError>(r),
        d.nonce == tpc::ticket(site.cid),
        d.key_ref == KeyRef::Discharge,
        macaroon::authentic(d, r),
        macaroon::sites(d, r).len() == 0,
        http::carries(m.caveats, name::AUD@, aud),
        http::carries(m.caveats, name::OP@, op),
        http::permits(d.caveats, name::AUD@, aud),
        http::permits(d.caveats, name::OP@, op),
        http::carries(m.caveats, name::CNF@, cnf),
        caveat::bound_of(m.caveats, name::EXP@) matches Some(e) ==> now_unix < e,
        caveat::bound_of(d.caveats, name::EXP@) matches Some(e) ==> now_unix < e,
        presents(q, m, seq![d], sig),
        proves(sig, cnf, m, q.body, now_unix),
    ensures
        gate::authenticated(q, ring, now_unix, aud, op) matches Ok(c) && c.primary == m
            && c.discharge_caveats == d.caveats,
{
    let ds = seq![d];
    let sites = seq![site];
    let none = Seq::<(int, Seq<u8>)>::empty();
    let q1 = seq![(0int, r)];
    assert(ds.drop_last() =~= Seq::<MacaroonView>::empty());
    assert(http::find_ticket(ds.drop_last(), tpc::ticket(site.cid)) is None);
    assert(http::find_ticket(ds, tpc::ticket(site.cid)) == Some(0int));
    assert(!http::taken(none, 0));
    assert(none.push((0int, r)) =~= q1);
    assert(sites.drop_last() =~= Seq::<SiteView>::empty());
    assert(http::take_sites(sites.drop_last(), ds, none) == Ok::<
        http::Taken,
        http::Refusal,
    >(none));
    assert(sites.last() == site);
    assert(http::take_sites(sites, ds, none) == Ok::<http::Taken, http::Refusal>(q1));
    assert(!http::ambiguous(ds));
    assert(q1[0] == (0int, r));
    assert(http::take_sites(macaroon::sites(d, r), ds, q1) == Ok::<
        http::Taken,
        http::Refusal,
    >(q1));
    assert(http::visit(d, r, false, ds, q1, aud, op) == Ok::<http::Taken, http::Refusal>(q1));
    assert(http::walk(ds, q1, 1, aud, op) == Ok::<http::Taken, http::Refusal>(q1));
    assert(http::walk(ds, q1, 0, aud, op) == Ok::<http::Taken, http::Refusal>(q1));
    assert(http::taken(q1, 0));
    assert(http::walked(m, ds, ring, aud, op) == Ok::<http::Taken, http::Refusal>(q1));
    assert(q1.drop_last() =~= none);
    assert(http::gathered(ds, none) =~= Seq::<CaveatView>::empty());
    assert(http::gathered(ds, q1) =~= d.caveats);
    assert(http::bundle_exp(m, ds, none) == caveat::bound_of(m.caveats, name::EXP@));
    assert(http::bundle_exp(m, ds, q1) == caveat::tighter(
        caveat::bound_of(m.caveats, name::EXP@),
        caveat::bound_of(d.caveats, name::EXP@),
    ));
    assert((seq![m] + ds)[0] == m);
    assert((seq![m] + ds).skip(1) =~= ds);
}

/// A discharge of the auth service is first-party throughout.
proof fn lemma_discharge_chain(
    d: MacaroonView,
    r: Seq<u8>,
    audience: Seq<char>,
    subject: Seq<char>,
    class: Seq<char>,
    exp_unix: u64,
    op: Seq<char>,
)
    requires
        d.caveats == auth::discharge_caveats(audience, subject, class, exp_unix as int),
    ensures
        macaroon::sites(d, r).len() == 0,
        http::permits(d.caveats, name::AUD@, audience),
        http::permits(d.caveats, name::OP@, op),
        http::carries(d.caveats, name::SCOPE@, class),
        http::carries(d.caveats, name::SUB@, subject),
        caveat::bound_of(d.caveats, name::EXP@) == Some(exp_unix),
{
    let c = d.caveats;
    name::lemma_control_names();
    assert(c.len() == 4);
    issuance::lemma_no_sites(macaroon::seed_tag(r, d.key_ref, d.nonce), c);
    lemma_only_value(c, name::AUD@, 0, audience);
    lemma_only_value(c, name::SUB@, 1, subject);
    lemma_only_value(c, name::SCOPE@, 2, class);
    lemma_only_bound(c, name::EXP@, 3, exp_unix);
    lemma_no_value(c, name::OP@);
}

/// Appending a first-party caveat to a chain adds no site.
proof fn lemma_sites_push(seed: Seq<u8>, c: Seq<CaveatView>, f: CaveatView)
    requires
        f is FirstParty,
    ensures
        macaroon::sites_of(seed, c.push(f)) == macaroon::sites_of(seed, c),
{
    assert(c.push(f).drop_last() =~= c);
}

/// The auth service answers a token's third-party caveat for a session that
/// grants the scope, and what it issues is good until it expires: a token
/// that its holder attenuated, with the holder's proof, is authenticated,
/// and its discharge carries the scope and the session's subject.
proof fn lemma_gate_opens(
    token: MacaroonView,
    base: Seq<CaveatView>,
    m: MacaroonView,
    ring: KeyringView,
    later: KeyringView,
    r: Seq<u8>,
    k_m_a: Seq<u8>,
    client_id: Seq<char>,
    org_id: Seq<char>,
    location: Seq<char>,
    claims: ClaimsView,
    cid_text: Seq<char>,
    class: Seq<char>,
    audience: Seq<char>,
    issued_at: u64,
    cnf: Seq<char>,
    q: PresentedView,
    sig: Seq<u8>,
    now_unix: u64,
    op: Seq<char>,
)
    requires
        issuance::minted_gated(
            token,
            ring,
            base,
            r,
            k_m_a,
            tpc::cid_layout(r, client_id, org_id),
            location,
        ),
        forall|i: int| 0 <= i < base.len() ==> (#[trigger] base[i]) is FirstParty,
        keeps(ring, later),
        m.key_ref == token.key_ref,
        m.nonce == token.nonce,
        macaroon::authentic(m, ring.keys[ring.current]),
        macaroon::sites(m, ring.keys[ring.current]) == macaroon::sites(
            token,
            ring.keys[ring.current],
        ),
        tpc::fits(client_id),
        tpc::fits(org_id),
        claims.scopes.contains(class),
        crypto::base64url_read(text::trimmed(cid_text)) == Some(token.caveats.last()->cid),
        issued_at + auth::DISCHARGE_EXP_SECONDS <= u64::MAX,
        now_unix < issued_at + auth::DISCHARGE_EXP_SECONDS,
        auth::discharge_outcome(
            k_m_a,
            Some(claims),
            Some((cid_text, class)),
            Some(org_id),
            audience,
            issued_at,
        ) is Ok ==> presents(
            q,
            m,
            seq![
                auth::discharge_outcome(
                    k_m_a,
                    Some(claims),
                    Some((cid_text, class)),
                    Some(org_id),
                    audience,
                    issued_at,
                )->Ok_0,
            ],
            sig,
        ),
        proves(sig, cnf, m, q.body, now_unix),
        http::carries(m.caveats, name::AUD@, audience),
        http::carries(m.caveats, name::OP@, op),
        http::carries(m.caveats, name::CNF@, cnf),
        caveat::bound_of(m.caveats, name::EXP@) matches Some(e) ==> now_unix < e,
    ensures
        auth::discharge_outcome(
            k_m_a,
            Some(claims),
            Some((cid_text, class)),
            Some(org_id),
            audience,
            issued_at,
        ) is Ok,
        gate::authenticated(q, later, now_unix, audience, op) matches Ok(c) && c.primary == m
            && http::carries(c.discharge_caveats, name::SCOPE@, class) && http::carries(
            c.discharge_caveats,
            name::SUB@,
            claims.subject,
        ),
{
    let t = token.caveats.last();
    let key = ring.keys[ring.current];
    let tag = issuance::base_tag(ring, token.nonce, base);
    let issued = auth::discharge_outcome(
        k_m_a,
        Some(claims),
        Some((cid_text, class)),
        Some(org_id),
        audience,
        issued_at,
    );
    tpc::law_vid_and_cid_recover_the_same_key(t, location, tag, r, k_m_a, client_id, org_id);
    assert(issued is Ok);
    let d1 = issued->Ok_0;
    let exp: u64 = (issued_at + auth::DISCHARGE_EXP_SECONDS) as u64;
    assert(d1.caveats == auth::discharge_caveats(audience, claims.subject, class, exp as int));
    lemma_discharge_chain(d1, r, audience, claims.subject, class, exp, op);
    issuance::law_gate_is_the_only_site(
        token,
        ring,
        base,
        r,
        k_m_a,
        tpc::cid_layout(r, client_id, org_id),
        location,
    );
    let sites = macaroon::sites(token, key);
    assert(sites =~= seq![sites[0]]);
    lemma_gated_bundle_clears(
        m,
        sites[0],
        d1,
        r,
        later,
        cnf,
        q,
        sig,
        now_unix,
        audience,
        op,
    );
}

/// Appending a first-party caveat keeps a minted macaroon's sites.
proof fn lemma_extended_sites(m: MacaroonView, f: CaveatView, key: Seq<u8>)
    requires
        f is FirstParty,
        macaroon::authentic(m, key),
    ensures
        macaroon::authentic(macaroon::extended(m, f), key),
        macaroon::sites(macaroon::extended(m, f), key) == macaroon::sites(m, key),
{
    macaroon::law_attenuation_stays_authentic(m, f, key);
    lemma_sites_push(macaroon::seed_tag(key, m.key_ref, m.nonce), m.caveats, f);
}

/// So does appending any number of them.
proof fn lemma_extended_by_sites(m: MacaroonView, d: Seq<CaveatView>, key: Seq<u8>)
    requires
        forall|i: int| 0 <= i < d.len() ==> (#[trigger] d[i]) is FirstParty,
        macaroon::authentic(m, key),
    ensures
        macaroon::sites(macaroon::extended_by(m, d), key) == macaroon::sites(m, key),
    decreases d.len(),
{
    if d.len() > 0 {
        let rest = d.drop_last();
        assert forall|i: int| 0 <= i < rest.len() implies (#[trigger] rest[i]) is FirstParty by {
            assert(rest[i] == d[i]);
        }
        lemma_extended_by_sites(m, rest, key);
        macaroon::law_attenuations_stay_authentic(m, rest, key);
        assert(d[d.len() - 1] is FirstParty);
        lemma_extended_sites(macaroon::extended_by(m, rest), d.last(), key);
    }
}

/// Enrolling works: whoever holds the current invite, and a discharge that
/// the auth service issued for it to a session with the enroll scope, is
/// admitted with a proof under the key that they name, and is identified by
/// the subject and key that they name and the session's subject.
pub proof fn law_enrollment_is_admitted(
    invite: MacaroonView,
    ring: KeyringView,
    later: KeyringView,
    audience: Seq<char>,
    invite_nonce: Seq<char>,
    r: Seq<u8>,
    k_m_a: Seq<u8>,
    org_id: Seq<char>,
    location: Seq<char>,
    claims: ClaimsView,
    cid_text: Seq<char>,
    issued_at: u64,
    sub: Seq<char>,
    cnf: Seq<char>,
    q: PresentedView,
    sig: Seq<u8>,
    now_unix: u64,
)
    requires
        issuance::minted_gated(
            invite,
            ring,
            issuance::invite_caveats(audience, invite_nonce),
            r,
            k_m_a,
            tpc::cid_layout(r, issuance::INVITE_CLIENT_ID@, org_id),
            location,
        ),
        keeps(ring, later),
        tpc::fits(org_id),
        claims.scopes.contains(scope::MINT_ENROLL@),
        crypto::base64url_read(text::trimmed(cid_text)) == Some(invite.caveats.last()->cid),
        issued_at + auth::DISCHARGE_EXP_SECONDS <= u64::MAX,
        now_unix < issued_at + auth::DISCHARGE_EXP_SECONDS,
        ({
            let presented = macaroon::extended(
                macaroon::extended(invite, caveat::scalar(name::SUB@, sub)),
                caveat::scalar(name::CNF@, cnf),
            );
            &&& proves(sig, cnf, presented, q.body, now_unix)
            &&& auth::discharge_outcome(
                k_m_a,
                Some(claims),
                Some((cid_text, scope::MINT_ENROLL@)),
                Some(org_id),
                audience,
                issued_at,
            ) matches Ok(d) ==> presents(q, presented, seq![d], sig)
        }),
    ensures
        enroll::admission(q, later, now_unix, audience) matches Ok(c) && enroll::identified(
            c,
            Some(invite_nonce),
        ) == Ok::<RequestView, DenyView>(
            RequestView { sub, cnf, requested_by: claims.subject },
        ),
{
    lemma_client_ids_fit();
    let base = issuance::invite_caveats(audience, invite_nonce);
    let key = ring.keys[ring.current];
    let s = caveat::scalar(name::SUB@, sub);
    let k = caveat::scalar(name::CNF@, cnf);
    let named = macaroon::extended(invite, s);
    let m = macaroon::extended(named, k);
    let c = m.caveats;
    name::lemma_control_names();
    lemma_extended_sites(invite, s, key);
    lemma_extended_sites(named, k, key);
    assert(c.len() == 6);
    assert(invite.caveats.drop_last() == base);
    assert(c[0] == base[0] && c[1] == base[1] && c[2] == base[2]) by {
        assert(invite.caveats.drop_last()[0] == invite.caveats[0]);
        assert(invite.caveats.drop_last()[1] == invite.caveats[1]);
        assert(invite.caveats.drop_last()[2] == invite.caveats[2]);
    }
    assert(c[3] == invite.caveats.last());
    assert(c[4] == s && c[5] == k);
    lemma_only_value(c, name::OP@, 0, op::ENROLL@);
    lemma_only_value(c, name::AUD@, 1, audience);
    lemma_only_value(c, name::INVITE@, 2, invite_nonce);
    lemma_only_value(c, name::SUB@, 4, sub);
    lemma_only_value(c, name::CNF@, 5, cnf);
    lemma_no_value(c, name::EXP@);
    lemma_gate_opens(
        invite,
        base,
        m,
        ring,
        later,
        r,
        k_m_a,
        issuance::INVITE_CLIENT_ID@,
        org_id,
        location,
        claims,
        cid_text,
        scope::MINT_ENROLL@,
        audience,
        issued_at,
        cnf,
        q,
        sig,
        now_unix,
        op::ENROLL@,
    );
}

/// Exchanging works: whoever holds an unexpired ticket, and a discharge that
/// the auth service issued for it to a session with the exchange scope, is
/// admitted with a proof under the ticket's key, as the ticket's subject.
pub proof fn law_exchange_is_admitted(
    seal: SealState,
    ticket: MacaroonView,
    ring: KeyringView,
    later: KeyringView,
    audience: Seq<char>,
    sub: Seq<char>,
    cnf: Seq<char>,
    exp_unix: u64,
    r: Seq<u8>,
    k_m_a: Seq<u8>,
    org_id: Seq<char>,
    location: Seq<char>,
    claims: ClaimsView,
    cid_text: Seq<char>,
    issued_at: u64,
    q: PresentedView,
    sig: Seq<u8>,
    now_unix: u64,
)
    requires
        seal is Serving,
        issuance::minted_gated(
            ticket,
            ring,
            issuance::ticket_caveats(audience, sub, cnf, exp_unix),
            r,
            k_m_a,
            tpc::cid_layout(r, issuance::TICKET_CLIENT_ID@, org_id),
            location,
        ),
        keeps(ring, later),
        tpc::fits(org_id),
        claims.scopes.contains(scope::MINT_EXCHANGE@),
        crypto::base64url_read(text::trimmed(cid_text)) == Some(ticket.caveats.last()->cid),
        issued_at + auth::DISCHARGE_EXP_SECONDS <= u64::MAX,
        now_unix < issued_at + auth::DISCHARGE_EXP_SECONDS,
        now_unix < exp_unix,
        proves(sig, cnf, ticket, q.body, now_unix),
        auth::discharge_outcome(
            k_m_a,
            Some(claims),
            Some((cid_text, scope::MINT_EXCHANGE@)),
            Some(org_id),
            audience,
            issued_at,
        ) matches Ok(d) ==> presents(q, ticket, seq![d], sig),
    ensures
        exchange::admission(seal, q, later, now_unix, audience) matches Ok(a) && a.1 == (sub, cnf),
{
    lemma_client_ids_fit();
    let base = issuance::ticket_caveats(audience, sub, cnf, exp_unix);
    let c = ticket.caveats;
    name::lemma_control_names();
    assert(c.len() == 6);
    assert forall|i: int| 0 <= i < 5 implies #[trigger] c[i] == base[i] by {
        assert(c.drop_last()[i] == c[i]);
    }
    assert(c[5] == c.last());
    lemma_only_value(c, name::OP@, 0, op::ENROLL_EXCHANGE@);
    lemma_only_value(c, name::AUD@, 1, audience);
    lemma_only_value(c, name::SUB@, 2, sub);
    lemma_only_value(c, name::CNF@, 3, cnf);
    lemma_only_bound(c, name::EXP@, 4, exp_unix);
    lemma_gate_opens(
        ticket,
        base,
        ticket,
        ring,
        later,
        r,
        k_m_a,
        issuance::TICKET_CLIENT_ID@,
        org_id,
        location,
        claims,
        cid_text,
        scope::MINT_EXCHANGE@,
        audience,
        issued_at,
        cnf,
        q,
        sig,
        now_unix,
        op::ENROLL_EXCHANGE@,
    );
}

/// The operator is let in: the admin service token, attenuated to a verb,
/// with a discharge that the auth service issued for it to a session with
/// the admin scope and a proof under the token's key, exercises that verb
/// as the session's subject.
pub proof fn law_admin_call_is_admitted(
    token: MacaroonView,
    ring: KeyringView,
    later: KeyringView,
    audience: Seq<char>,
    cnf: Seq<char>,
    r: Seq<u8>,
    k_m_a: Seq<u8>,
    org_id: Seq<char>,
    location: Seq<char>,
    claims: ClaimsView,
    cid_text: Seq<char>,
    issued_at: u64,
    verb: Seq<char>,
    q: PresentedView,
    sig: Seq<u8>,
    now_unix: u64,
)
    requires
        issuance::minted_gated(
            token,
            ring,
            issuance::admin_caveats(audience, cnf),
            r,
            k_m_a,
            tpc::cid_layout(r, issuance::ADMIN_SERVICE_CLIENT_ID@, org_id),
            location,
        ),
        keeps(ring, later),
        tpc::fits(org_id),
        claims.scopes.contains(scope::MINT_ADMIN@),
        crypto::base64url_read(text::trimmed(cid_text)) == Some(token.caveats.last()->cid),
        issued_at + auth::DISCHARGE_EXP_SECONDS <= u64::MAX,
        now_unix < issued_at + auth::DISCHARGE_EXP_SECONDS,
        ({
            let called = macaroon::extended(token, caveat::scalar(name::OP@, verb));
            &&& proves(sig, cnf, called, q.body, now_unix)
            &&& auth::discharge_outcome(
                k_m_a,
                Some(claims),
                Some((cid_text, scope::MINT_ADMIN@)),
                Some(org_id),
                audience,
                issued_at,
            ) matches Ok(d) ==> presents(q, called, seq![d], sig)
        }),
    ensures
        admin::operator_of(q, later, now_unix, audience, verb) == Some(claims.subject),
{
    lemma_client_ids_fit();
    let base = issuance::admin_caveats(audience, cnf);
    let o = caveat::scalar(name::OP@, verb);
    let m = macaroon::extended(token, o);
    let c = m.caveats;
    name::lemma_control_names();
    lemma_extended_sites(token, o, ring.keys[ring.current]);
    assert(c.len() == 4);
    assert forall|i: int| 0 <= i < 2 implies #[trigger] c[i] == base[i] by {
        assert(token.caveats.drop_last()[i] == token.caveats[i]);
    }
    assert(c[2] == token.caveats.last());
    assert(c[3] == o);
    lemma_only_value(c, name::AUD@, 0, audience);
    lemma_only_value(c, name::CNF@, 1, cnf);
    lemma_only_value(c, name::OP@, 3, verb);
    lemma_no_value(c, name::EXP@);
    lemma_gate_opens(
        token,
        base,
        m,
        ring,
        later,
        r,
        k_m_a,
        issuance::ADMIN_SERVICE_CLIENT_ID@,
        org_id,
        location,
        claims,
        cid_text,
        scope::MINT_ADMIN@,
        audience,
        issued_at,
        cnf,
        q,
        sig,
        now_unix,
        verb,
    );
}

/// A bundle of a primary without third-party caveats clears by itself.
proof fn lemma_bare_bundle_clears(
    m: MacaroonView,
    ring: KeyringView,
    cnf: Seq<char>,
    q: PresentedView,
    sig: Seq<u8>,
    now_unix: u64,
    aud: Seq<char>,
    op: Seq<char>,
)
    requires
        m.key_ref matches KeyRef::Keyring(kid) && ring.keys.contains_key(kid)
            && macaroon::authentic(m, ring.keys[kid]) && macaroon::sites(m, ring.keys[kid]).len()
            == 0,
        http::carries(m.caveats, name::AUD@, aud),
        http::carries(m.caveats, name::OP@, op),
        http::carries(m.caveats, name::CNF@, cnf),
        caveat::bound_of(m.caveats, name::EXP@) matches Some(e) ==> now_unix < e,
        presents(q, m, Seq::empty(), sig),
        proves(sig, cnf, m, q.body, now_unix),
    ensures
        gate::authenticated(q, ring, now_unix, aud, op) matches Ok(c) && c.primary == m
            && c.discharge_caveats == Seq::<CaveatView>::empty(),
{
    let ds = Seq::<MacaroonView>::empty();
    let none = Seq::<(int, Seq<u8>)>::empty();
    assert(!http::ambiguous(ds));
    assert(http::walk(ds, none, 0, aud, op) == Ok::<http::Taken, http::Refusal>(none));
    assert(http::walked(m, ds, ring, aud, op) == Ok::<http::Taken, http::Refusal>(none));
    assert((seq![m] + ds)[0] == m);
    assert((seq![m] + ds).skip(1) =~= ds);
}

/// A caveat that a holder may append without touching what the credential
/// is for: a deadline, or one under a name that is not reserved.
pub open spec fn own_caveat(c: CaveatView) -> bool {
    c matches CaveatView::FirstParty { name: n, .. } && (n == name::EXP@ || !name::reserved(n))
}

/// The holder's own caveats, with `exp_unix` as their tightest deadline.
pub open spec fn own_caveats(own: Seq<CaveatView>, exp_unix: u64) -> bool {
    &&& forall|i: int| 0 <= i < own.len() ==> own_caveat(#[trigger] own[i])
    &&& caveat::bound_of(own, name::EXP@) == Some(exp_unix)
}

/// The chain is that of a credential, bounded by its holder, with or without
/// an attested caveat.
spec fn bounded_chain(
    c: Seq<CaveatView>,
    audience: Seq<char>,
    sub: Seq<char>,
    cnf: Seq<char>,
    role: Seq<char>,
    rev_epoch: u64,
    exp_unix: u64,
) -> bool {
    let base = issuance::credential_caveats(audience, sub, cnf, role, rev_epoch);
    &&& 6 <= c.len()
    &&& forall|i: int| 0 <= i < 6 ==> #[trigger] c[i] == base[i]
    &&& forall|i: int| 6 <= i < c.len() ==> (#[trigger] c[i]) is ThirdParty || own_caveat(c[i])
    &&& caveat::bound_of(c, name::EXP@) == Some(exp_unix)
}

/// A chain with a bound on a name carries the name.
proof fn lemma_bound_occurs(c: Seq<CaveatView>, n: Seq<char>)
    requires
        caveat::bound_of(c, n) is Some,
    ensures
        !(caveat::resolved(c, n) is Absent),
{
    caveat::law_bound_is_minimum(c, n);
    caveat::law_resolution_is_tri_state(c, n);
    let i = choose|i: int|
        0 <= i < c.len() && caveat::bound_for(#[trigger] c[i], n) == caveat::bound_of(c, n);
    assert(caveat::occurs(c, n, caveat::value_for(c[i], n)->0));
}

/// What a bounded credential carries.
proof fn lemma_bounded_chain(
    c: Seq<CaveatView>,
    audience: Seq<char>,
    sub: Seq<char>,
    cnf: Seq<char>,
    role: Seq<char>,
    rev_epoch: u64,
    exp_unix: u64,
)
    requires
        bounded_chain(c, audience, sub, cnf, role, rev_epoch, exp_unix),
    ensures
        http::carries(c, name::OP@, op::ASSUME_ROLE@),
        http::carries(c, name::AUD@, audience),
        http::carries(c, name::SUB@, sub),
        http::carries(c, name::CNF@, cnf),
        http::carries(c, name::ROLE@, role),
        !(caveat::resolved(c, name::EXP@) is Absent),
        assume_role::credential_identity(c) == Some((sub, cnf, rev_epoch)),
{
    name::lemma_control_names();
    text::lemma_read_digits(rev_epoch);
    lemma_only_value(c, name::OP@, 0, op::ASSUME_ROLE@);
    lemma_only_value(c, name::AUD@, 1, audience);
    lemma_only_value(c, name::SUB@, 2, sub);
    lemma_only_value(c, name::CNF@, 3, cnf);
    lemma_only_value(c, name::ROLE@, 4, role);
    lemma_only_value(c, name::EPOCH@, 5, text::digits(rev_epoch as nat));
    lemma_bound_occurs(c, name::EXP@);
}

/// A credential that its holder has bounded, with or without an attested
/// caveat, has a bounded chain.
proof fn lemma_own_caveats_bound(
    c: Seq<CaveatView>,
    own: Seq<CaveatView>,
    audience: Seq<char>,
    sub: Seq<char>,
    cnf: Seq<char>,
    role: Seq<char>,
    rev_epoch: u64,
    exp_unix: u64,
)
    requires
        ({
            let base = issuance::credential_caveats(audience, sub, cnf, role, rev_epoch);
            c == base || (c.len() == 7 && c.drop_last() == base && c.last() is ThirdParty)
        }),
        own_caveats(own, exp_unix),
    ensures
        bounded_chain(c + own, audience, sub, cnf, role, rev_epoch, exp_unix),
{
    let base = issuance::credential_caveats(audience, sub, cnf, role, rev_epoch);
    assert forall|i: int| 0 <= i < 6 implies #[trigger] c[i] == base[i] by {
        if c != base {
            assert(c.drop_last()[i] == c[i]);
        }
    }
    name::lemma_control_names();
    assert forall|j: int| 0 <= j < c.len() implies caveat::value_for(
        #[trigger] c[j],
        name::EXP@,
    ) is None by {
        if j < 6 {
            assert(c[j] == base[j]);
        }
    }
    lemma_no_value(c, name::EXP@);
    caveat::lemma_bound_append(c, own, name::EXP@);
    assert forall|i: int| 6 <= i < (c + own).len() implies (#[trigger] (c + own)[i]) is ThirdParty
        || own_caveat((c + own)[i]) by {
        if i >= c.len() {
            assert((c + own)[i] == own[i - c.len()]);
        }
    }
}

/// A bounded credential that authenticates is granted its role, up to the
/// sealed contract and the template.
proof fn lemma_credential_outcome(
    seal: SealState,
    m: MacaroonView,
    ring: KeyringView,
    sub: Seq<char>,
    cnf: Seq<char>,
    role: Seq<char>,
    rev_epoch: u64,
    exp_unix: u64,
    enrolled: EnrolledRead,
    q: PresentedView,
    now: UtcTime,
)
    requires
        seal is Serving,
        seal->Serving_0.seal@.intent.roles.contains_key(role),
        bounded_chain(
            m.caveats,
            seal->Serving_0.seal@.intent.audience,
            sub,
            cnf,
            role,
            rev_epoch,
            exp_unix,
        ),
        enrolled matches EnrolledRead::Found { pubkey, rev_epoch: e } && pubkey@ == cnf && e
            == rev_epoch,
        now.unix() < exp_unix,
        gate::authenticated(
            q,
            ring,
            now.unix(),
            seal->Serving_0.seal@.intent.audience,
            op::ASSUME_ROLE@,
        ) matches Ok(c) && c.primary == m,
    ensures
        assume_role::admission(seal, q, ring, now.unix()) matches Ok(a) && a.1 == (
            sub,
            cnf,
            rev_epoch,
        ) && Ok::<http::ClearedView, gate::AuthFault>(a.0) == gate::authenticated(
            q,
            ring,
            now.unix(),
            seal->Serving_0.seal@.intent.audience,
            op::ASSUME_ROLE@,
        ) && ({
            let s = assume_role::surface_view(seal->Serving_0);
            let ttl = role::lesser(
                s.intent.roles[role].default_ttl_seconds as int,
                exp_unix - now.unix(),
            ) as u64;
            assume_role::assume_outcome(s, a.0, a.1, enrolled, Some(role), now)
                == assume_role::order_outcome(s, a.0, role, ttl, now)
        }),
{
    lemma_bounded_chain(
        m.caveats,
        seal->Serving_0.seal@.intent.audience,
        sub,
        cnf,
        role,
        rev_epoch,
        exp_unix,
    );
}

/// Taking a role works: the holder of a credential that was issued for a
/// role, with the caveats that they appended, one deadline or more among
/// them, and a proof under its key, is admitted for that role while a seal
/// that holds it is served, for as long as they are enrolled under that key
/// at the credential's epoch. What is left to decide is the sealed contract
/// and the template, and the lifetime is the sealed one or what is left
/// until the tightest deadline, if that is less.
pub proof fn law_credential_is_granted(
    seal: SealState,
    credential: MacaroonView,
    ring: KeyringView,
    later: KeyringView,
    sub: Seq<char>,
    cnf: Seq<char>,
    role: Seq<char>,
    rev_epoch: u64,
    own: Seq<CaveatView>,
    exp_unix: u64,
    enrolled: EnrolledRead,
    q: PresentedView,
    sig: Seq<u8>,
    now: UtcTime,
)
    requires
        seal is Serving,
        seal->Serving_0.seal@.intent.roles.contains_key(role),
        issuance::minted_plain(
            credential,
            ring,
            issuance::credential_caveats(
                seal->Serving_0.seal@.intent.audience,
                sub,
                cnf,
                role,
                rev_epoch,
            ),
        ),
        keeps(ring, later),
        enrolled matches EnrolledRead::Found { pubkey, rev_epoch: e } && pubkey@ == cnf && e
            == rev_epoch,
        own_caveats(own, exp_unix),
        now.unix() < exp_unix,
        ({
            let bounded = macaroon::extended_by(credential, own);
            &&& presents(q, bounded, Seq::empty(), sig)
            &&& proves(sig, cnf, bounded, q.body, now.unix())
        }),
    ensures
        assume_role::admission(seal, q, later, now.unix()) matches Ok(a) && a.1 == (
            sub,
            cnf,
            rev_epoch,
        ) && ({
            let s = assume_role::surface_view(seal->Serving_0);
            let ttl = role::lesser(
                s.intent.roles[role].default_ttl_seconds as int,
                exp_unix - now.unix(),
            ) as u64;
            assume_role::assume_outcome(s, a.0, a.1, enrolled, Some(role), now)
                == assume_role::order_outcome(s, a.0, role, ttl, now)
        }),
{
    let audience = seal->Serving_0.seal@.intent.audience;
    let base = issuance::credential_caveats(audience, sub, cnf, role, rev_epoch);
    let key = ring.keys[ring.current];
    let m = macaroon::extended_by(credential, own);
    macaroon::law_attenuations_stay_authentic(credential, own, key);
    lemma_extended_by_sites(credential, own, key);
    lemma_own_caveats_bound(base, own, audience, sub, cnf, role, rev_epoch, exp_unix);
    issuance::lemma_no_sites(macaroon::seed_tag(key, m.key_ref, m.nonce), base);
    lemma_bounded_chain(m.caveats, audience, sub, cnf, role, rev_epoch, exp_unix);
    lemma_bare_bundle_clears(m, later, cnf, q, sig, now.unix(), audience, op::ASSUME_ROLE@);
    lemma_credential_outcome(
        seal,
        m,
        later,
        sub,
        cnf,
        role,
        rev_epoch,
        exp_unix,
        enrolled,
        q,
        now,
    );
}

/// A bounded credential with an attested caveat authenticates with a
/// discharge of the attestation authority.
#[verifier::rlimit(60)]
proof fn lemma_attested_authenticates(
    seal: SealState,
    credential: MacaroonView,
    ring: KeyringView,
    later: KeyringView,
    sub: Seq<char>,
    cnf: Seq<char>,
    role: Seq<char>,
    rev_epoch: u64,
    r: Seq<u8>,
    k_m_b: Seq<u8>,
    org_id: Seq<char>,
    mode: Seq<char>,
    location: Seq<char>,
    claims: ClaimsView,
    cid_text: Seq<char>,
    values: Map<Seq<char>, Seq<char>>,
    issued_at: u64,
    own: Seq<CaveatView>,
    exp_unix: u64,
    q: PresentedView,
    sig: Seq<u8>,
    now_unix: u64,
)
    requires
        seal is Serving,
        issuance::minted_gated(
            credential,
            ring,
            issuance::credential_caveats(
                seal->Serving_0.seal@.intent.audience,
                sub,
                cnf,
                role,
                rev_epoch,
            ),
            r,
            k_m_b,
            tpc::attested_layout(r, sub, org_id, mode),
            location,
        ),
        keeps(ring, later),
        tpc::fits(sub),
        tpc::fits(org_id),
        tpc::fits(mode),
        values.dom().finite(),
        values.dom() != Set::<Seq<char>>::empty(),
        !attest::holds_reserved(values),
        crypto::base64url_read(text::trimmed(cid_text)) == Some(credential.caveats.last()->cid),
        issued_at + attest::DISCHARGE_EXP_SECONDS <= u64::MAX,
        now_unix < issued_at + attest::DISCHARGE_EXP_SECONDS,
        own_caveats(own, exp_unix),
        now_unix < exp_unix,
        ({
            let bounded = macaroon::extended_by(credential, own);
            &&& proves(sig, cnf, bounded, q.body, now_unix)
            &&& attest::attest_outcome(
                k_m_b,
                Some(claims),
                Some((cid_text, values)),
                Some(org_id),
                issued_at,
            ) matches Ok(d) ==> presents(q, bounded, seq![d], sig)
        }),
    ensures
        ({
            let bounded = macaroon::extended_by(credential, own);
            let audience = seal->Serving_0.seal@.intent.audience;
            &&& bounded_chain(bounded.caveats, audience, sub, cnf, role, rev_epoch, exp_unix)
            &&& gate::authenticated(q, later, now_unix, audience, op::ASSUME_ROLE@) matches Ok(c)
            &&& c.primary == bounded
            &&& c.discharge_caveats == attest::attested_caveats(
                values,
                issued_at + attest::DISCHARGE_EXP_SECONDS,
            )
        }),
{
    let audience = seal->Serving_0.seal@.intent.audience;
    let base = issuance::credential_caveats(audience, sub, cnf, role, rev_epoch);
    let key = ring.keys[ring.current];
    let m = macaroon::extended_by(credential, own);
    let t = credential.caveats.last();
    let layout = tpc::attested_layout(r, sub, org_id, mode);
    macaroon::law_attenuations_stay_authentic(credential, own, key);
    lemma_extended_by_sites(credential, own, key);
    lemma_own_caveats_bound(
        credential.caveats,
        own,
        audience,
        sub,
        cnf,
        role,
        rev_epoch,
        exp_unix,
    );
    lemma_bounded_chain(m.caveats, audience, sub, cnf, role, rev_epoch, exp_unix);
    issuance::law_gate_is_the_only_site(credential, ring, base, r, k_m_b, layout, location);
    let sites = macaroon::sites(credential, key);
    assert(sites =~= seq![sites[0]]);
    let tag = issuance::base_tag(ring, credential.nonce, base);
    let d = lemma_attestation_issued(
        t,
        location,
        tag,
        r,
        k_m_b,
        sub,
        org_id,
        mode,
        claims,
        cid_text,
        values,
        issued_at,
        audience,
    );
    lemma_gated_bundle_clears(
        m,
        sites[0],
        d,
        r,
        later,
        cnf,
        q,
        sig,
        now_unix,
        audience,
        op::ASSUME_ROLE@,
    );
}

/// Taking an attested role works: as above, for a credential with an
/// attested caveat, with a discharge that the attestation authority issued
/// for it and that has not expired. What the template takes from the
/// discharge is what was attested.
pub proof fn law_attested_credential_is_granted(
    seal: SealState,
    credential: MacaroonView,
    ring: KeyringView,
    later: KeyringView,
    sub: Seq<char>,
    cnf: Seq<char>,
    role: Seq<char>,
    rev_epoch: u64,
    r: Seq<u8>,
    k_m_b: Seq<u8>,
    org_id: Seq<char>,
    mode: Seq<char>,
    location: Seq<char>,
    claims: ClaimsView,
    cid_text: Seq<char>,
    values: Map<Seq<char>, Seq<char>>,
    issued_at: u64,
    own: Seq<CaveatView>,
    exp_unix: u64,
    enrolled: EnrolledRead,
    q: PresentedView,
    sig: Seq<u8>,
    now: UtcTime,
)
    requires
        seal is Serving,
        seal->Serving_0.seal@.intent.roles.contains_key(role),
        issuance::minted_gated(
            credential,
            ring,
            issuance::credential_caveats(
                seal->Serving_0.seal@.intent.audience,
                sub,
                cnf,
                role,
                rev_epoch,
            ),
            r,
            k_m_b,
            tpc::attested_layout(r, sub, org_id, mode),
            location,
        ),
        keeps(ring, later),
        tpc::fits(sub),
        tpc::fits(org_id),
        tpc::fits(mode),
        values.dom().finite(),
        values.dom() != Set::<Seq<char>>::empty(),
        !attest::holds_reserved(values),
        crypto::base64url_read(text::trimmed(cid_text)) == Some(credential.caveats.last()->cid),
        issued_at + attest::DISCHARGE_EXP_SECONDS <= u64::MAX,
        now.unix() < issued_at + attest::DISCHARGE_EXP_SECONDS,
        enrolled matches EnrolledRead::Found { pubkey, rev_epoch: e } && pubkey@ == cnf && e
            == rev_epoch,
        own_caveats(own, exp_unix),
        now.unix() < exp_unix,
        ({
            let bounded = macaroon::extended_by(credential, own);
            &&& proves(sig, cnf, bounded, q.body, now.unix())
            &&& attest::attest_outcome(
                k_m_b,
                Some(claims),
                Some((cid_text, values)),
                Some(org_id),
                issued_at,
            ) matches Ok(d) ==> presents(q, bounded, seq![d], sig)
        }),
    ensures
        assume_role::admission(seal, q, later, now.unix()) matches Ok(a) && a.1 == (
            sub,
            cnf,
            rev_epoch,
        ) && a.0.discharge_caveats == attest::attested_caveats(
            values,
            issued_at + attest::DISCHARGE_EXP_SECONDS,
        ) && ({
            let s = assume_role::surface_view(seal->Serving_0);
            let ttl = role::lesser(
                s.intent.roles[role].default_ttl_seconds as int,
                exp_unix - now.unix(),
            ) as u64;
            assume_role::assume_outcome(s, a.0, a.1, enrolled, Some(role), now)
                == assume_role::order_outcome(s, a.0, role, ttl, now)
        }),
{
    lemma_attested_authenticates(
        seal,
        credential,
        ring,
        later,
        sub,
        cnf,
        role,
        rev_epoch,
        r,
        k_m_b,
        org_id,
        mode,
        location,
        claims,
        cid_text,
        values,
        issued_at,
        own,
        exp_unix,
        q,
        sig,
        now.unix(),
    );
    lemma_credential_outcome(
        seal,
        macaroon::extended_by(credential, own),
        later,
        sub,
        cnf,
        role,
        rev_epoch,
        exp_unix,
        enrolled,
        q,
        now,
    );
}

/// The attestation authority discharges the attested caveat for values that
/// hold no reserved name.
proof fn lemma_attestation_issued(
    t: CaveatView,
    location: Seq<char>,
    tag: Seq<u8>,
    r: Seq<u8>,
    k_m_b: Seq<u8>,
    client_id: Seq<char>,
    org_id: Seq<char>,
    mode: Seq<char>,
    claims: ClaimsView,
    cid_text: Seq<char>,
    values: Map<Seq<char>, Seq<char>>,
    issued_at: u64,
    audience: Seq<char>,
) -> (d: MacaroonView)
    requires
        tpc::binds(t, location, tag, r, k_m_b, tpc::attested_layout(r, client_id, org_id, mode)),
        tpc::fits(client_id),
        tpc::fits(org_id),
        tpc::fits(mode),
        values.dom().finite(),
        values.dom() != Set::<Seq<char>>::empty(),
        !attest::holds_reserved(values),
        crypto::base64url_read(text::trimmed(cid_text)) == Some(t->cid),
        issued_at + attest::DISCHARGE_EXP_SECONDS <= u64::MAX,
    ensures
        attest::attest_outcome(
            k_m_b,
            Some(claims),
            Some((cid_text, values)),
            Some(org_id),
            issued_at,
        ) matches Ok(o) && o == d,
        d.caveats == attest::attested_caveats(values, issued_at + attest::DISCHARGE_EXP_SECONDS),
        d.key_ref == KeyRef::Discharge,
        d.nonce == tpc::ticket(t->cid),
        macaroon::authentic(d, r),
        macaroon::sites(d, r).len() == 0,
        http::permits(d.caveats, name::AUD@, audience),
        http::permits(d.caveats, name::OP@, op::ASSUME_ROLE@),
        caveat::bound_of(d.caveats, name::EXP@) == Some(
            (issued_at + attest::DISCHARGE_EXP_SECONDS) as u64,
        ),
{
    let request = Some((cid_text, values));
    attest::law_attestation_answers_its_caveat(
        t,
        location,
        tag,
        r,
        k_m_b,
        client_id,
        org_id,
        mode,
        Some(claims),
        request,
        Some(org_id),
        issued_at,
    );
    tpc::law_attested_vid_and_cid_recover_the_same_key(
        t,
        location,
        tag,
        r,
        k_m_b,
        client_id,
        org_id,
        mode,
    );
    let issued = attest::attest_outcome(k_m_b, Some(claims), request, Some(org_id), issued_at);
    let d = issued->Ok_0;
    let expires: u64 = (issued_at + attest::DISCHARGE_EXP_SECONDS) as u64;
    lemma_attestation_chain(d, r, values, expires, audience);
    d
}

/// An attestation discharge is first-party throughout, and leaves the
/// audience and the operation open.
proof fn lemma_attestation_chain(
    d: MacaroonView,
    r: Seq<u8>,
    values: Map<Seq<char>, Seq<char>>,
    exp_unix: u64,
    audience: Seq<char>,
)
    requires
        d.caveats == attest::attested_caveats(values, exp_unix as int),
        forall|i: int|
            0 <= i < d.caveats.len() - 1 ==> ((#[trigger] d.caveats[i]) is FirstParty
                && !name::reserved(d.caveats[i]->name)),
    ensures
        macaroon::sites(d, r).len() == 0,
        http::permits(d.caveats, name::AUD@, audience),
        http::permits(d.caveats, name::OP@, op::ASSUME_ROLE@),
        caveat::bound_of(d.caveats, name::EXP@) == Some(exp_unix),
{
    let c = d.caveats;
    let last = c.len() - 1;
    name::lemma_control_names();
    assert(c[last] == caveat::scalar(name::EXP@, text::digits(exp_unix as nat)));
    issuance::lemma_no_sites(macaroon::seed_tag(r, d.key_ref, d.nonce), c);
    lemma_no_value(c, name::AUD@);
    lemma_no_value(c, name::OP@);
    lemma_only_bound(c, name::EXP@, last, exp_unix);
}

/// Revoking works: whatever an admitted credential presents, it is refused
/// once its subject is not enrolled under its key at its epoch. Where the
/// record could be read, the refusal is the same as that of a request that
/// does not authenticate.
pub proof fn law_revoked_credential_is_refused(
    seal: SealState,
    q: PresentedView,
    ring: KeyringView,
    enrolled: EnrolledRead,
    role: Option<Seq<char>>,
    now: UtcTime,
)
    requires
        seal is Serving,
        assume_role::admission(seal, q, ring, now.unix()) is Ok,
        ({
            let id = assume_role::admission(seal, q, ring, now.unix())->Ok_0.1;
            !(enrolled matches EnrolledRead::Found { pubkey, rev_epoch } && pubkey@ == id.1
                && rev_epoch == id.2)
        }),
    ensures
        ({
            let (c, id) = assume_role::admission(seal, q, ring, now.unix())->Ok_0;
            assume_role::assume_outcome(
                assume_role::surface_view(seal->Serving_0),
                c,
                id,
                enrolled,
                role,
                now,
            ) matches Err(d) && d.kind == (if enrolled is Failed {
                Refused::Unavailable
            } else {
                Refused::Unauthorized
            })
        }),
{
}

/// No cause is told apart: a request that does not authenticate is refused
/// the same way whatever is wrong with it, at every endpoint and for every
/// admin verb.
pub proof fn law_failures_are_opaque(
    seal: SealState,
    q: PresentedView,
    ring: KeyringView,
    audience: Seq<char>,
    now_unix: u64,
)
    ensures
        enroll::admission(q, ring, now_unix, audience) matches Err(d) ==> d.kind
            == Refused::Unauthorized,
        seal is Serving ==> (exchange::admission(seal, q, ring, now_unix, audience) matches Err(d)
            ==> d.kind == Refused::Unauthorized),
        seal is Serving ==> (assume_role::admission(seal, q, ring, now_unix) matches Err(d)
            ==> d.kind == Refused::Unauthorized),
{
}

/// Nothing is issued or granted while no seal is served, whatever is
/// presented.
pub proof fn law_dormant_planes_are_closed(
    q: PresentedView,
    ring: KeyringView,
    audience: Seq<char>,
    now_unix: u64,
)
    ensures
        exchange::admission(SealState::Dormant, q, ring, now_unix, audience) matches Err(d) && d.kind
            == Refused::NotSealed,
        assume_role::admission(SealState::Dormant, q, ring, now_unix) matches Err(d) && d.kind
            == Refused::NotSealed,
{
}

/// Waiting for approval is told only to an exchange, and only where the
/// registry holds no record that can be trusted for this key.
pub proof fn law_only_an_unapproved_exchange_waits(
    q: PresentedView,
    seal: SealState,
    ring: KeyringView,
    audience: Seq<char>,
    now_unix: u64,
    enrolled: EnrolledRead,
    cnf: Seq<char>,
)
    ensures
        enroll::admission(q, ring, now_unix, audience) matches Err(d) ==> d.kind
            != Refused::Awaiting,
        assume_role::admission(seal, q, ring, now_unix) matches Err(d) ==> d.kind
            != Refused::Awaiting,
        exchange::admission(seal, q, ring, now_unix, audience) matches Err(d) ==> d.kind
            != Refused::Awaiting,
        (exchange::approval(enrolled, cnf) matches Err(d) && d.kind == Refused::Awaiting) <==> match enrolled {
            EnrolledRead::Found { pubkey, .. } => pubkey@ != cnf,
            EnrolledRead::Absent => true,
            EnrolledRead::Forged => true,
            EnrolledRead::Corrupt => true,
            _ => false,
        },
{
}

/// Each endpoint positively requires its own operation: a request that
/// authenticates for one authenticates for no other.
pub proof fn law_one_operation_per_request(
    q: PresentedView,
    ring: KeyringView,
    now_unix: u64,
    audience: Seq<char>,
    operation: Seq<char>,
    other: Seq<char>,
)
    requires
        operation != other,
        gate::authenticated(q, ring, now_unix, audience, operation) is Ok,
    ensures
        gate::authenticated(q, ring, now_unix, audience, other) is Err,
{
    if gate::authenticated(q, ring, now_unix, audience, other) is Ok {
        let ms = http::read_bundle(q.authorization)->0;
        let sig = gate::read_proof(q.proof_header)->Ok_0;
        let rest = ms.skip(1);
        http::lemma_cleared_carries(ms[0], rest, ring, sig, q.body, now_unix, audience, other);
        http::lemma_cleared_carries(ms[0], rest, ring, sig, q.body, now_unix, audience, operation);
    }
}

/// Only what was minted under the keyring is a primary: neither a session
/// nor a discharge authenticates for any operation.
pub proof fn law_only_keyring_tokens_are_primaries(
    q: PresentedView,
    ring: KeyringView,
    now_unix: u64,
    audience: Seq<char>,
    operation: Seq<char>,
)
    ensures
        gate::authenticated(q, ring, now_unix, audience, operation) matches Ok(c)
            ==> macaroon::verifies(c.primary, ring),
{
    if gate::authenticated(q, ring, now_unix, audience, operation) is Ok {
        let ms = http::read_bundle(q.authorization)->0;
        http::law_cleared_bundle_is_authentic(ms[0], ms.skip(1), ring, audience, operation);
    }
}

} // verus!
