//! What the tokens that are issued say.

use crate::caveat;
use crate::caveat::{name, op, CaveatView, ResolvedView};
use crate::http::enroll;
use crate::http::exchange;
use crate::http::exchange::AttestationConfig;
use crate::http::flow;
use crate::issuance;
use crate::keyring::KeyringView;
use crate::macaroon;
use crate::macaroon::{KeyRef, MacaroonView};
use crate::text;
use crate::tpc;
use vstd::prelude::*;

verus! {

/// The token is minted under the ring's current generation.
pub open spec fn current_of(m: MacaroonView, ring: KeyringView) -> bool {
    &&& m.key_ref == KeyRef::Keyring(ring.current)
    &&& macaroon::authentic(m, ring.keys[ring.current])
}

/// A third-party caveat at the end of a chain says nothing by itself.
proof fn lemma_behind_gate(m: Seq<CaveatView>, c: Seq<CaveatView>, n: Seq<char>)
    requires
        m.len() == c.len() + 1,
        m.drop_last() == c,
        m.last() is ThirdParty,
    ensures
        caveat::resolved(m, n) == caveat::resolved(c, n),
        caveat::bound_of(m, n) == caveat::bound_of(c, n),
{
    let none = Seq::<CaveatView>::empty();
    caveat::law_third_party_is_inert(c, m.last(), none, n);
    assert(c.push(m.last()) + none =~= m);
    assert(c + none =~= c);
}

/// An invite is for enrolling with this audience under this nonce, and is
/// for nobody until a holder names themself.
pub proof fn law_invite_opens_enrollment(
    m: MacaroonView,
    ring: KeyringView,
    audience: Seq<char>,
    invite_nonce: Seq<char>,
    r: Seq<u8>,
    k_m_a: Seq<u8>,
    plaintext: Seq<u8>,
    location: Seq<char>,
    n: Seq<char>,
)
    requires
        issuance::minted_gated(
            m,
            ring,
            issuance::invite_caveats(audience, invite_nonce),
            r,
            k_m_a,
            plaintext,
            location,
        ),
    ensures
        current_of(m, ring),
        caveat::resolved(m.caveats, name::OP@) == ResolvedView::Value("enroll"@),
        caveat::resolved(m.caveats, name::AUD@) == ResolvedView::Value(audience),
        caveat::resolved(m.caveats, name::INVITE@) == ResolvedView::Value(invite_nonce),
        n != name::OP@ && n != name::AUD@ && n != name::INVITE@ ==> caveat::resolved(m.caveats, n)
            is Absent,
        m.caveats.last() matches CaveatView::ThirdParty { location: l, .. } && l == location,
{
    let c = issuance::invite_caveats(audience, invite_nonce);
    name::lemma_control_names();
    let names = seq![name::OP@, name::AUD@, name::INVITE@];
    let values = seq![op::ENROLL@, audience, invite_nonce];
    assert(names[0] == name::OP@ && names[1] == name::AUD@ && names[2] == name::INVITE@);
    super::chains::lemma_distinct_names(names, values, c, name::OP@);
    super::chains::lemma_distinct_names(names, values, c, name::AUD@);
    super::chains::lemma_distinct_names(names, values, c, name::INVITE@);
    super::chains::lemma_distinct_names(names, values, c, n);
    lemma_behind_gate(m.caveats, c, name::OP@);
    lemma_behind_gate(m.caveats, c, name::AUD@);
    lemma_behind_gate(m.caveats, c, name::INVITE@);
    lemma_behind_gate(m.caveats, c, n);
}

/// A ticket is for exchanging with this audience, by this subject under this
/// key, for ten minutes or to the end of time.
pub proof fn law_ticket_names_the_enrolled(
    t: MacaroonView,
    ring: KeyringView,
    k_m_a: Seq<u8>,
    audience: Seq<char>,
    sub: Seq<char>,
    cnf: Seq<char>,
    now_unix: u64,
    org_id: Seq<char>,
    location: Seq<char>,
)
    requires
        enroll::is_ticket(t, ring, k_m_a, audience, sub, cnf, now_unix, org_id, location),
    ensures
        current_of(t, ring),
        caveat::resolved(t.caveats, name::OP@) == ResolvedView::Value("enroll-exchange"@),
        caveat::resolved(t.caveats, name::AUD@) == ResolvedView::Value(audience),
        caveat::resolved(t.caveats, name::SUB@) == ResolvedView::Value(sub),
        caveat::resolved(t.caveats, name::CNF@) == ResolvedView::Value(cnf),
        caveat::resolved(t.caveats, name::ROLE@) is Absent,
        caveat::bound_of(t.caveats, name::EXP@) == Some(
            (if now_unix + 600 <= u64::MAX {
                now_unix + 600
            } else {
                u64::MAX as int
            }) as u64,
        ),
        t.caveats.last() matches CaveatView::ThirdParty { location: l, .. } && l == location,
{
    let exp: u64 = enroll::capped(now_unix, enroll::CREDENTIAL_TICKET_TTL_SECONDS);
    let c = issuance::ticket_caveats(audience, sub, cnf, exp);
    let r = choose|r: Seq<u8>| #[trigger]
        issuance::minted_gated(
            t,
            ring,
            c,
            r,
            k_m_a,
            tpc::cid_layout(r, issuance::TICKET_CLIENT_ID@, org_id),
            location,
        );
    assert(issuance::minted_gated(
        t,
        ring,
        c,
        r,
        k_m_a,
        tpc::cid_layout(r, issuance::TICKET_CLIENT_ID@, org_id),
        location,
    ));
    name::lemma_control_names();
    let names = seq![name::OP@, name::AUD@, name::SUB@, name::CNF@, name::EXP@];
    let values = seq![op::ENROLL_EXCHANGE@, audience, sub, cnf, text::digits(exp as nat)];
    assert(names[0] == name::OP@ && names[1] == name::AUD@ && names[2] == name::SUB@ && names[3]
        == name::CNF@);
    super::chains::lemma_distinct_names(names, values, c, name::OP@);
    super::chains::lemma_distinct_names(names, values, c, name::AUD@);
    super::chains::lemma_distinct_names(names, values, c, name::SUB@);
    super::chains::lemma_distinct_names(names, values, c, name::CNF@);
    super::chains::lemma_distinct_names(names, values, c, name::ROLE@);
    flow::lemma_only_bound(c, name::EXP@, 4, exp);
    lemma_behind_gate(t.caveats, c, name::OP@);
    lemma_behind_gate(t.caveats, c, name::AUD@);
    lemma_behind_gate(t.caveats, c, name::SUB@);
    lemma_behind_gate(t.caveats, c, name::CNF@);
    lemma_behind_gate(t.caveats, c, name::ROLE@);
    lemma_behind_gate(t.caveats, c, name::EXP@);
}

/// A ticket is sealed for the authority: the key that discharges it is the
/// one that the authority finds, for tickets of this organisation.
pub proof fn law_ticket_is_sealed_for_the_authority(
    t: MacaroonView,
    ring: KeyringView,
    k_m_a: Seq<u8>,
    audience: Seq<char>,
    sub: Seq<char>,
    cnf: Seq<char>,
    now_unix: u64,
    org_id: Seq<char>,
    location: Seq<char>,
)
    requires
        enroll::is_ticket(t, ring, k_m_a, audience, sub, cnf, now_unix, org_id, location),
        tpc::fits(org_id),
    ensures
        tpc::cid_contents(k_m_a, t.caveats.last()->cid) matches Ok(p) && p.client_id == "ticket"@
            && p.org_id == org_id && macaroon::sites(t, ring.keys[ring.current]).len() == 1
            && tpc::recovered(
            macaroon::sites(t, ring.keys[ring.current])[0].tag,
            t.caveats.last()->vid,
        ) == Ok::<Seq<u8>, tpc::TpcError>(p.r),
{
    let exp: u64 = enroll::capped(now_unix, enroll::CREDENTIAL_TICKET_TTL_SECONDS);
    let c = issuance::ticket_caveats(audience, sub, cnf, exp);
    let r = choose|r: Seq<u8>| #[trigger]
        issuance::minted_gated(
            t,
            ring,
            c,
            r,
            k_m_a,
            tpc::cid_layout(r, issuance::TICKET_CLIENT_ID@, org_id),
            location,
        );
    let layout = tpc::cid_layout(r, issuance::TICKET_CLIENT_ID@, org_id);
    assert(issuance::minted_gated(t, ring, c, r, k_m_a, layout, location));
    reveal_strlit("ticket");
    vstd::utf8::is_ascii_chars_encode_utf8(issuance::TICKET_CLIENT_ID@);
    issuance::law_gate_is_the_only_site(t, ring, c, r, k_m_a, layout, location);
    tpc::law_cid_layout_round_trip(r, issuance::TICKET_CLIENT_ID@, org_id);
    let sites = macaroon::sites(t, ring.keys[ring.current]);
    tpc::law_vid_and_cid_recover_the_same_key(
        t.caveats.last(),
        location,
        issuance::base_tag(ring, t.nonce, c),
        r,
        k_m_a,
        issuance::TICKET_CLIENT_ID@,
        org_id,
    );
    lemma_site_vid(t, ring.keys[ring.current]);
}

/// The one site of a chain whose only third-party caveat is its last has
/// that caveat's `vid`.
proof fn lemma_site_vid(m: MacaroonView, key: Seq<u8>)
    requires
        m.caveats.len() > 0,
        m.caveats.last() is ThirdParty,
    ensures
        macaroon::sites(m, key).len() > 0,
        macaroon::sites(m, key).last().vid == m.caveats.last()->vid,
        macaroon::sites(m, key).last().cid == m.caveats.last()->cid,
{
}

/// A credential is for taking this role with this audience, by this subject
/// under this key at this epoch. It has no deadline of its own: its holder
/// sets one. Where the role is attested, it is inert without a discharge of
/// the authority at the configured location.
pub proof fn law_credential_is_for_one_role(
    m: MacaroonView,
    ring: KeyringView,
    audience: Seq<char>,
    sub: Seq<char>,
    cnf: Seq<char>,
    role: Seq<char>,
    rev_epoch: u64,
    attested: AttestationConfig<'_>,
)
    requires
        exchange::is_credential(m, ring, audience, sub, cnf, role, rev_epoch, attested),
    ensures
        current_of(m, ring),
        caveat::resolved(m.caveats, name::OP@) == ResolvedView::Value("assume-role"@),
        caveat::resolved(m.caveats, name::AUD@) == ResolvedView::Value(audience),
        caveat::resolved(m.caveats, name::SUB@) == ResolvedView::Value(sub),
        caveat::resolved(m.caveats, name::CNF@) == ResolvedView::Value(cnf),
        caveat::resolved(m.caveats, name::ROLE@) == ResolvedView::Value(role),
        caveat::resolved(m.caveats, name::EPOCH@) matches ResolvedView::Value(e)
            && text::read_u64(e) == Some(rev_epoch),
        caveat::resolved(m.caveats, name::EXP@) is Absent,
        attested.mode is None ==> forall|i: int|
            0 <= i < m.caveats.len() ==> (#[trigger] m.caveats[i]) is FirstParty,
        attested.mode is Some ==> (m.caveats.last() matches CaveatView::ThirdParty {
            location: l,
            ..
        } && l == attested.location->0@),
{
    let c = issuance::credential_caveats(audience, sub, cnf, role, rev_epoch);
    name::lemma_control_names();
    lemma_credential_chain(audience, sub, cnf, role, rev_epoch);
    if attested.mode is Some {
        let mode = attested.mode->0;
        let r = choose|r: Seq<u8>| #[trigger]
            issuance::minted_gated(
                m,
                ring,
                c,
                r,
                attested.k_m_b->0@,
                tpc::attested_layout(r, sub, enroll::org_of(attested.org_id), mode@),
                attested.location->0@,
            );
        assert(issuance::minted_gated(
            m,
            ring,
            c,
            r,
            attested.k_m_b->0@,
            tpc::attested_layout(r, sub, enroll::org_of(attested.org_id), mode@),
            attested.location->0@,
        ));
        lemma_behind_gate(m.caveats, c, name::OP@);
        lemma_behind_gate(m.caveats, c, name::AUD@);
        lemma_behind_gate(m.caveats, c, name::SUB@);
        lemma_behind_gate(m.caveats, c, name::CNF@);
        lemma_behind_gate(m.caveats, c, name::ROLE@);
        lemma_behind_gate(m.caveats, c, name::EPOCH@);
        lemma_behind_gate(m.caveats, c, name::EXP@);
    }
}

proof fn lemma_credential_chain(
    audience: Seq<char>,
    sub: Seq<char>,
    cnf: Seq<char>,
    role: Seq<char>,
    rev_epoch: u64,
)
    ensures
        ({
            let c = issuance::credential_caveats(audience, sub, cnf, role, rev_epoch);
            &&& caveat::resolved(c, name::OP@) == ResolvedView::Value("assume-role"@)
            &&& caveat::resolved(c, name::AUD@) == ResolvedView::Value(audience)
            &&& caveat::resolved(c, name::SUB@) == ResolvedView::Value(sub)
            &&& caveat::resolved(c, name::CNF@) == ResolvedView::Value(cnf)
            &&& caveat::resolved(c, name::ROLE@) == ResolvedView::Value(role)
            &&& caveat::resolved(c, name::EPOCH@) == ResolvedView::Value(
                text::digits(rev_epoch as nat),
            )
            &&& caveat::resolved(c, name::EXP@) is Absent
            &&& text::read_u64(text::digits(rev_epoch as nat)) == Some(rev_epoch)
        }),
{
    let c = issuance::credential_caveats(audience, sub, cnf, role, rev_epoch);
    name::lemma_control_names();
    text::lemma_read_digits(rev_epoch);
    let names = seq![name::OP@, name::AUD@, name::SUB@, name::CNF@, name::ROLE@, name::EPOCH@];
    let values = seq![
        op::ASSUME_ROLE@,
        audience,
        sub,
        cnf,
        role,
        text::digits(rev_epoch as nat),
    ];
    assert(names[0] == name::OP@ && names[1] == name::AUD@ && names[2] == name::SUB@ && names[3]
        == name::CNF@ && names[4] == name::ROLE@ && names[5] == name::EPOCH@);
    super::chains::lemma_distinct_names(names, values, c, name::OP@);
    super::chains::lemma_distinct_names(names, values, c, name::AUD@);
    super::chains::lemma_distinct_names(names, values, c, name::SUB@);
    super::chains::lemma_distinct_names(names, values, c, name::CNF@);
    super::chains::lemma_distinct_names(names, values, c, name::ROLE@);
    super::chains::lemma_distinct_names(names, values, c, name::EPOCH@);
    super::chains::lemma_distinct_names(names, values, c, name::EXP@);
}

/// An attested credential is sealed for the authority: what the authority
/// opens names the subject, the organisation and the mode, and holds the
/// key that the verifier recovers.
pub proof fn law_credential_is_sealed_for_the_authority(
    m: MacaroonView,
    ring: KeyringView,
    audience: Seq<char>,
    sub: Seq<char>,
    cnf: Seq<char>,
    role: Seq<char>,
    rev_epoch: u64,
    attested: AttestationConfig<'_>,
)
    requires
        exchange::is_credential(m, ring, audience, sub, cnf, role, rev_epoch, attested),
        attested.mode is Some,
        attested.k_m_b is Some,
        tpc::fits(sub),
        tpc::fits(enroll::org_of(attested.org_id)),
        tpc::fits(attested.mode->0@),
    ensures
        tpc::attested_contents(attested.k_m_b->0@, m.caveats.last()->cid) matches Ok(p)
            && p.client_id == sub && p.org_id == (match attested.org_id {
            Some(o) => o@,
            None => "demo"@,
        }) && p.mode == attested.mode->0@ && tpc::recovered(
            issuance::base_tag(ring, m.nonce, m.caveats.drop_last()),
            m.caveats.last()->vid,
        ) == Ok::<Seq<u8>, tpc::TpcError>(p.r),
{
    let c = issuance::credential_caveats(audience, sub, cnf, role, rev_epoch);
    let org = enroll::org_of(attested.org_id);
    let mode = attested.mode->0;
    let r = choose|r: Seq<u8>| #[trigger]
        issuance::minted_gated(
            m,
            ring,
            c,
            r,
            attested.k_m_b->0@,
            tpc::attested_layout(r, sub, org, mode@),
            attested.location->0@,
        );
    assert(issuance::minted_gated(
        m,
        ring,
        c,
        r,
        attested.k_m_b->0@,
        tpc::attested_layout(r, sub, org, mode@),
        attested.location->0@,
    ));
    tpc::law_attested_layout_round_trip(r, sub, org, mode@);
    tpc::law_attested_vid_and_cid_recover_the_same_key(
        m.caveats.last(),
        attested.location->0@,
        issuance::base_tag(ring, m.nonce, c),
        r,
        attested.k_m_b->0@,
        sub,
        org,
        mode@,
    );
}

/// The admin service token is for this audience and this key. It names no
/// operation: a verb is appended for each call.
pub proof fn law_admin_token_names_no_verb(
    m: MacaroonView,
    ring: KeyringView,
    audience: Seq<char>,
    cnf: Seq<char>,
    r: Seq<u8>,
    k_m_a: Seq<u8>,
    plaintext: Seq<u8>,
    location: Seq<char>,
)
    requires
        issuance::minted_gated(
            m,
            ring,
            issuance::admin_caveats(audience, cnf),
            r,
            k_m_a,
            plaintext,
            location,
        ),
    ensures
        current_of(m, ring),
        caveat::resolved(m.caveats, name::AUD@) == ResolvedView::Value(audience),
        caveat::resolved(m.caveats, name::CNF@) == ResolvedView::Value(cnf),
        caveat::resolved(m.caveats, name::OP@) is Absent,
        caveat::resolved(m.caveats, name::SUB@) is Absent,
        m.caveats.last() matches CaveatView::ThirdParty { location: l, .. } && l == location,
{
    let c = issuance::admin_caveats(audience, cnf);
    name::lemma_control_names();
    let names = seq![name::AUD@, name::CNF@];
    let values = seq![audience, cnf];
    assert(names[0] == name::AUD@ && names[1] == name::CNF@);
    super::chains::lemma_distinct_names(names, values, c, name::AUD@);
    super::chains::lemma_distinct_names(names, values, c, name::CNF@);
    super::chains::lemma_distinct_names(names, values, c, name::OP@);
    super::chains::lemma_distinct_names(names, values, c, name::SUB@);
    lemma_behind_gate(m.caveats, c, name::AUD@);
    lemma_behind_gate(m.caveats, c, name::CNF@);
    lemma_behind_gate(m.caveats, c, name::OP@);
    lemma_behind_gate(m.caveats, c, name::SUB@);
}

/// An identity is bound where the chain has one subject and one key that
/// proofs can be checked with, and each failure has its cause.
pub proof fn law_identity_is_the_bound_one(c: Seq<CaveatView>)
    ensures
        match issuance::identity_of(c) {
            Ok((sub, cnf)) => {
                &&& caveat::resolved(c, name::SUB@) == ResolvedView::Value(sub)
                &&& caveat::resolved(c, name::CNF@) == ResolvedView::Value(cnf)
                &&& crate::pop::valid_cnf(cnf)
            },
            Err(issuance::EnrollError::MissingSub) => caveat::resolved(c, name::SUB@) is Absent,
            Err(issuance::EnrollError::MissingCnf) => caveat::resolved(c, name::CNF@) is Absent,
            Err(issuance::EnrollError::Unsatisfiable) => caveat::resolved(c, name::SUB@)
                is Unsatisfiable || caveat::resolved(c, name::CNF@) is Unsatisfiable,
            Err(issuance::EnrollError::BadCnf) => caveat::resolved(c, name::CNF@) matches
                ResolvedView::Value(k) && !crate::pop::valid_cnf(k),
        },
{
}

} // verus!
