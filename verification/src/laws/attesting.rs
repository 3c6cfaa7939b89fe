//! What the authorities issue: attestations, discharges and sessions.

use crate::attest;
use crate::auth;
use crate::auth::ClaimsView;
use crate::caveat;
use crate::caveat::{name, op, scope, ResolvedView};
use crate::crypto;
use crate::http::flow;
use crate::macaroon;
use crate::macaroon::{KeyRef, MacaroonView};
use crate::text;
use crate::tpc;
use vstd::prelude::*;

verus! {

/// An attestation says what was asked for: each requested name has the value
/// that was requested for it, no other name has any, and it expires five
/// minutes after it was issued.
pub proof fn law_attested_values_are_those_requested(
    k_m_b: Seq<u8>,
    claims: Option<ClaimsView>,
    cid_text: Seq<char>,
    values: Map<Seq<char>, Seq<char>>,
    org_id: Option<Seq<char>>,
    now_unix: u64,
    n: Seq<char>,
)
    requires
        values.dom().finite(),
        now_unix + 300 <= u64::MAX,
    ensures
        attest::attest_outcome(
            k_m_b,
            claims,
            Some((cid_text, values)),
            org_id,
            now_unix,
        ) matches Ok(d) ==> {
            &&& values.contains_key(n) ==> caveat::resolved(d.caveats, n) == ResolvedView::Value(
                values[n],
            )
            &&& !values.contains_key(n) && n != name::EXP@ ==> caveat::resolved(d.caveats, n)
                is Absent
            &&& caveat::bound_of(d.caveats, name::EXP@) == Some((now_unix + 300) as u64)
            &&& forall|i: int| 0 <= i < d.caveats.len() ==> (#[trigger] d.caveats[i]) is FirstParty
        },
{
    let request = Some((cid_text, values));
    if attest::attest_outcome(k_m_b, claims, request, org_id, now_unix) is Ok {
        let d = attest::attest_outcome(k_m_b, claims, request, org_id, now_unix)->Ok_0;
        let names = crate::map::listing(values.dom());
        crate::map::lemma_listing_exists(values.dom());
        let c = d.caveats;
        let last = names.len() as int;
        assert(c.len() == last + 1);
        assert(c[last] == caveat::scalar(name::EXP@, text::digits((now_unix + 300) as nat)));
        assert forall|i: int| 0 <= i < last implies #[trigger] c[i] == caveat::scalar(
            names[i],
            values[names[i]],
        ) && values.contains_key(names[i]) && names[i] != name::EXP@ by {
            assert(names.contains(names[i]));
            assert(values.dom().contains(names[i]));
            assert(values.contains_key(names[i]));
            assert(names[i] == name::EXP@ ==> name::reserved(names[i]));
        }
        assert forall|i: int, j: int| 0 <= i < j < last implies #[trigger] names[i]
            != #[trigger] names[j] by {
            assert(text::precedes(names[i], names[j]));
            text::lemma_precedes_irreflexive(names[i]);
        }
        flow::lemma_only_bound(c, name::EXP@, last, (now_unix + 300) as u64);
        if values.contains_key(n) {
            assert(values.dom().contains(n));
            assert(names.contains(n));
            let i = choose|i: int| 0 <= i < names.len() && names[i] == n;
            assert(c[i] == caveat::scalar(n, values[n]));
            assert forall|j: int| 0 <= j < c.len() && j != i implies caveat::value_for(
                #[trigger] c[j],
                n,
            ) is None by {
                if j < last {
                    assert(c[j] == caveat::scalar(names[j], values[names[j]]));
                    if j < i {
                        assert(names[j] != names[i]);
                    } else {
                        assert(names[i] != names[j]);
                    }
                }
            }
            flow::lemma_only_value(c, n, i, values[n]);
        } else if n != name::EXP@ {
            assert forall|j: int| 0 <= j < c.len() implies caveat::value_for(
                #[trigger] c[j],
                n,
            ) is None by {
                if j < last {
                    assert(c[j] == caveat::scalar(names[j], values[names[j]]));
                }
            }
            flow::lemma_no_value(c, n);
        }
    }
}

/// An attestation is issued exactly to a live session, for some values, none
/// of them under a control name, against a caveat that was sealed under this
/// key for the organisation that is served.
pub proof fn law_attestation_is_owed(
    k_m_b: Seq<u8>,
    claims: Option<ClaimsView>,
    cid_text: Seq<char>,
    values: Map<Seq<char>, Seq<char>>,
    org_id: Option<Seq<char>>,
    now_unix: u64,
)
    ensures
        attest::attest_outcome(k_m_b, claims, None, org_id, now_unix) is Err,
        attest::attest_outcome(k_m_b, claims, Some((cid_text, values)), org_id, now_unix) is Ok <==> {
            &&& claims is Some
            &&& exists|n: Seq<char>| #[trigger] values.contains_key(n)
            &&& !values.contains_key(name::AUD@) && !values.contains_key(name::EXP@)
                && !values.contains_key(name::SUB@) && !values.contains_key(name::CNF@)
                && !values.contains_key(name::OP@) && !values.contains_key(name::ROLE@)
                && !values.contains_key(name::EPOCH@) && !values.contains_key(name::INVITE@)
                && !values.contains_key(name::SCOPE@)
            &&& crypto::base64url_read(text::trimmed(cid_text)) matches Some(cid)
            &&& tpc::attested_contents(k_m_b, cid) matches Ok(p)
            &&& org_id == Some(p.org_id)
        },
{
    if forall|n: Seq<char>| !values.contains_key(n) {
        assert(values.dom() =~= Set::<Seq<char>>::empty());
    } else {
        let n = choose|n: Seq<char>| values.contains_key(n);
        assert(values.dom().contains(n));
    }
    if attest::holds_reserved(values) {
        let n = choose|n: Seq<char>| #[trigger] values.contains_key(n) && name::reserved(n);
        assert(values.contains_key(n));
    }
}

/// Each refusal of an attestation has its cause.
pub proof fn law_attestation_refusals_tell_the_cause(
    k_m_b: Seq<u8>,
    claims: Option<ClaimsView>,
    request: Option<(Seq<char>, Map<Seq<char>, Seq<char>>)>,
    org_id: Option<Seq<char>>,
    now_unix: u64,
)
    ensures
        attest::attest_outcome(k_m_b, claims, request, org_id, now_unix) matches Err(f) ==> {
            &&& f.status == 401 <==> claims is None
            &&& f.status == 403 ==> (request matches Some((t, _)) && crypto::base64url_read(
                text::trimmed(t),
            ) matches Some(cid) && tpc::attested_contents(k_m_b, cid) matches Ok(p) && org_id
                != Some(p.org_id))
            &&& f.status == 422 ==> (request matches Some((t, _)) && crypto::base64url_read(
                text::trimmed(t),
            ) matches Some(cid) && tpc::attested_contents(k_m_b, cid) is Err)
            &&& f.status == 400 || f.status == 401 || f.status == 403 || f.status == 422
        },
{
}

/// A discharge says who was asked: it is for this audience, this session's
/// subject and the scope that was asked for, it expires five minutes after
/// it was issued, and it says nothing else.
pub proof fn law_discharge_tells_the_session(
    k_m_a: Seq<u8>,
    claims: Option<ClaimsView>,
    cid_text: Seq<char>,
    asked: Seq<char>,
    org_id: Option<Seq<char>>,
    audience: Seq<char>,
    now_unix: u64,
    n: Seq<char>,
)
    requires
        now_unix + 300 <= u64::MAX,
    ensures
        auth::discharge_outcome(
            k_m_a,
            claims,
            Some((cid_text, asked)),
            org_id,
            audience,
            now_unix,
        ) matches Ok(d) ==> {
            &&& claims is Some
            &&& caveat::resolved(d.caveats, name::AUD@) == ResolvedView::Value(audience)
            &&& caveat::resolved(d.caveats, name::SUB@) == ResolvedView::Value(claims->0.subject)
            &&& caveat::resolved(d.caveats, name::SCOPE@) == ResolvedView::Value(asked)
            &&& caveat::bound_of(d.caveats, name::EXP@) == Some((now_unix + 300) as u64)
            &&& n != name::AUD@ && n != name::SUB@ && n != name::SCOPE@ && n != name::EXP@
                ==> caveat::resolved(d.caveats, n) is Absent
            &&& d.caveats.len() == 4
        },
{
    let request = Some((cid_text, asked));
    if auth::discharge_outcome(k_m_a, claims, request, org_id, audience, now_unix) is Ok {
        let d = auth::discharge_outcome(k_m_a, claims, request, org_id, audience, now_unix)->Ok_0;
        let c = d.caveats;
        name::lemma_control_names();
        let names = seq![name::AUD@, name::SUB@, name::SCOPE@, name::EXP@];
        let values = seq![
            audience,
            claims->0.subject,
            asked,
            text::digits((now_unix + 300) as nat),
        ];
        lemma_sub_scope();
        super::chains::lemma_distinct_names(names, values, c, name::AUD@);
        super::chains::lemma_distinct_names(names, values, c, name::SUB@);
        super::chains::lemma_distinct_names(names, values, c, name::SCOPE@);
        super::chains::lemma_distinct_names(names, values, c, n);
        assert(names[0] == name::AUD@ && names[1] == name::SUB@ && names[2] == name::SCOPE@);
        flow::lemma_only_bound(c, name::EXP@, 3, (now_unix + 300) as u64);
    }
}

proof fn lemma_sub_scope()
    ensures
        name::SUB@ != name::SCOPE@,
        name::EXP@ != name::SCOPE@,
        name::AUD@ != name::SCOPE@,
{
    name::lemma_control_names();
}

/// A discharge is issued exactly to a live session that has the scope that
/// is asked for, against a caveat that was sealed under this key for the
/// organisation that is served.
pub proof fn law_discharge_is_owed(
    k_m_a: Seq<u8>,
    claims: Option<ClaimsView>,
    cid_text: Seq<char>,
    asked: Seq<char>,
    org_id: Option<Seq<char>>,
    audience: Seq<char>,
    now_unix: u64,
)
    ensures
        auth::discharge_outcome(k_m_a, claims, None, org_id, audience, now_unix) is Err,
        auth::discharge_outcome(
            k_m_a,
            claims,
            Some((cid_text, asked)),
            org_id,
            audience,
            now_unix,
        ) is Ok <==> {
            &&& claims matches Some(c)
            &&& c.scopes.contains(asked)
            &&& crypto::base64url_read(text::trimmed(cid_text)) matches Some(cid)
            &&& tpc::cid_contents(k_m_a, cid) matches Ok(p)
            &&& org_id == Some(p.org_id)
        },
        auth::discharge_outcome(
            k_m_a,
            claims,
            Some((cid_text, asked)),
            org_id,
            audience,
            now_unix,
        ) matches Err(f) ==> {
            &&& f.status == 401 <==> claims is None
            &&& claims is Some && !claims->0.scopes.contains(asked) ==> f.status == 403
        },
{
}

/// A session is the session of its subject: it says who logged in, it is for
/// sessions alone, it has the three scopes, and it lasts seven days.
pub proof fn law_session_tells_the_subject(
    k_session: Seq<u8>,
    subject: Seq<char>,
    now_unix: u64,
    nonce: Seq<u8>,
)
    requires
        now_unix + 604800 <= u64::MAX,
    ensures
        ({
            let m = auth::session_of(k_session, subject, now_unix, nonce);
            &&& m.key_ref == KeyRef::Session
            &&& m.nonce == nonce
            &&& macaroon::authentic(m, k_session)
            &&& caveat::resolved(m.caveats, name::OP@) == ResolvedView::Value("session"@)
            &&& caveat::resolved(m.caveats, name::SUB@) == ResolvedView::Value(subject)
            &&& caveat::bound_of(m.caveats, name::EXP@) == Some((now_unix + 604800) as u64)
            &&& auth::scopes_of(m.caveats) == set![
                "mint:enroll"@,
                "mint:exchange"@,
                "mint:admin"@,
            ]
        }),
{
    let m = auth::session_of(k_session, subject, now_unix, nonce);
    let c = m.caveats;
    name::lemma_control_names();
    lemma_sub_scope();
    let names = seq![name::OP@, name::SUB@, name::SCOPE@, name::EXP@];
    let values = seq![
        op::SESSION@,
        subject,
        auth::canonical_text(auth::all_scopes()),
        text::digits((now_unix + 604800) as nat),
    ];
    super::chains::lemma_distinct_names(names, values, c, name::OP@);
    super::chains::lemma_distinct_names(names, values, c, name::SUB@);
    assert(names[0] == name::OP@ && names[1] == name::SUB@);
    flow::lemma_only_bound(c, name::EXP@, 3, (now_unix + 604800) as u64);
    auth::law_session_round_trips(k_session, subject, now_unix, now_unix, nonce);
    assert(scope::MINT_ENROLL@ == "mint:enroll"@);
    assert(auth::claims_of(m, k_session, now_unix)->0.scopes == auth::all_scopes());
}

/// A session is honoured exactly while it is live: a token of the session
/// kind, authentic under the session key, for the session operation, with
/// one subject and no deadline that has passed.
pub proof fn law_session_is_honoured(m: MacaroonView, k_session: Seq<u8>, now_unix: u64)
    ensures
        auth::claims_of(m, k_session, now_unix) is Some <==> {
            &&& m.key_ref == KeyRef::Session
            &&& macaroon::authentic(m, k_session)
            &&& caveat::resolved(m.caveats, name::OP@) == ResolvedView::Value("session"@)
            &&& caveat::resolved(m.caveats, name::SUB@) is Value
            &&& caveat::bound_of(m.caveats, name::EXP@) matches Some(e) ==> now_unix < e
        },
        auth::claims_of(m, k_session, now_unix) matches Some(c) ==> {
            &&& caveat::resolved(m.caveats, name::SUB@) == ResolvedView::Value(c.subject)
            &&& forall|s: Seq<char>| #[trigger]
                c.scopes.contains(s) <==> (caveat::resolved(m.caveats, name::SCOPE@) matches
                    ResolvedView::Value(v) && text::words(v).contains(s))
        },
{
    if auth::claims_of(m, k_session, now_unix) is Some {
        let c = auth::claims_of(m, k_session, now_unix)->0;
        assert forall|s: Seq<char>| #[trigger] c.scopes.contains(s) <==> (caveat::resolved(
            m.caveats,
            name::SCOPE@,
        ) matches ResolvedView::Value(v) && text::words(v).contains(s)) by {}
    }
}

/// A presented session is the bearer token of the header, whatever space is
/// around it, and no other header presents one.
pub proof fn law_a_bearer_presents_its_session(
    m: MacaroonView,
    t: Seq<char>,
    k_session: Seq<u8>,
    now_unix: u64,
)
    requires
        macaroon::read_token(text::trimmed(t)) == Some(m),
    ensures
        auth::presented_claims(Some("Bearer "@ + t), k_session, now_unix) == auth::claims_of(
            m,
            k_session,
            now_unix,
        ),
        auth::presented_claims(None, k_session, now_unix) is None,
{
    let h = "Bearer "@ + t;
    assert("Bearer "@.is_prefix_of(h));
    assert(h.skip("Bearer "@.len() as int) =~= t);
}

} // verus!
