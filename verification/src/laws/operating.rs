//! Keys, operators and sessions.

use crate::admin;
use crate::admin::EnrollmentState;
use crate::caveat;
use crate::caveat::{name, CaveatView, ResolvedView};
use crate::config;
use crate::http::gate;
use crate::http::gate::PresentedView;
use crate::issuance;
use crate::json;
use crate::keyring;
use crate::keyring::{KeyFile, Kid, KeyringView};
use crate::macaroon::MacaroonView;
use crate::map::NameMap;
use crate::operator;
use crate::pop;
use crate::seal::SealedRole;
use crate::session;
use crate::text;
use crate::tpc;
use vstd::prelude::*;

verus! {

/// The pointer is followed where it names a generation that is there, with
/// space around it or not; without such a pointer the newest generation is
/// current.
pub proof fn law_pointer_is_followed(
    keys: Map<Kid, Seq<u8>>,
    pointer: Option<Seq<char>>,
    current: Kid,
)
    ensures
        pointer matches Some(p) ==> (text::read_u64(text::trimmed(p)) matches Some(n) && n
            <= u16::MAX && keys.contains_key(n as Kid) ==> (keyring::opens_at(
            keys,
            pointer,
            current,
        ) <==> current == text::read_u64(text::trimmed(p))->0)),
        (pointer is None || text::read_u64(text::trimmed(pointer->0)) is None) ==> (
        keyring::opens_at(keys, pointer, current) <==> keys.contains_key(current) && forall|k: Kid|
            #[trigger] keys.contains_key(k) ==> k <= current),
        keyring::opens_at(keys, pointer, current) ==> keys.contains_key(current),
{
    if pointer is None || text::read_u64(text::trimmed(pointer->0)) is None {
        if keyring::opens_at(keys, pointer, current) {
            assert forall|k: Kid| #[trigger] keys.contains_key(k) implies k <= current by {
                assert(keys.dom().contains(k));
            }
        }
        if keys.contains_key(current) && forall|k: Kid| #[trigger]
            keys.contains_key(k) ==> k <= current {
            assert forall|k: Kid| keys.dom().contains(k) implies k <= current by {
                assert(keys.contains_key(k));
            }
        }
    }
}

/// The generations of a ring are those of its key files: each file is read
/// under the number that its name gives, and no file is passed over.
pub proof fn law_generations_are_those_of_the_files(files: Seq<KeyFile>, kid: Kid)
    requires
        keyring::first_malformed(files) is None,
    ensures
        keyring::keys_in(files).contains_key(kid) <==> exists|i: int|
            0 <= i < files.len() && keyring::kid_of_name((#[trigger] files[i]).name@) == Some(kid),
        keyring::keys_in(files).contains_key(kid) ==> exists|i: int|
            0 <= i < files.len() && keyring::kid_of_name((#[trigger] files[i]).name@) == Some(kid)
                && text::read_hex32(text::trimmed(files[i].contents@)) == Some(
                keyring::keys_in(files)[kid],
            ),
    decreases files.len(),
{
    if files.len() > 0 {
        let t = files.drop_last();
        law_generations_are_those_of_the_files(t, kid);
        let last = files.len() - 1;
        assert(files[last] == files.last());
        if keyring::keys_in(t).contains_key(kid) {
            let i = choose|i: int|
                0 <= i < t.len() && keyring::kid_of_name((#[trigger] t[i]).name@) == Some(kid)
                    && text::read_hex32(text::trimmed(t[i].contents@)) == Some(
                    keyring::keys_in(t)[kid],
                );
            assert(files[i] == t[i]);
        }
        if exists|i: int|
            0 <= i < files.len() && keyring::kid_of_name((#[trigger] files[i]).name@) == Some(
                kid,
            ) {
            let i = choose|i: int|
                0 <= i < files.len() && keyring::kid_of_name((#[trigger] files[i]).name@) == Some(
                    kid,
                );
            if i < last {
                assert(t[i] == files[i]);
            }
        }
    }
}

/// A key file that is malformed is told as the first such, and every file
/// before it reads.
pub proof fn law_first_malformed_key_is_told(files: Seq<KeyFile>)
    ensures
        match keyring::first_malformed(files) {
            Some(i) => {
                &&& 0 <= i < files.len()
                &&& keyring::kid_of_name(files[i].name@) is Some
                &&& text::read_hex32(text::trimmed(files[i].contents@)) is None
                &&& forall|j: int|
                    0 <= j < i ==> !(keyring::kid_of_name((#[trigger] files[j]).name@) is Some
                        && text::read_hex32(text::trimmed(files[j].contents@)) is None)
            },
            None => forall|j: int|
                0 <= j < files.len() ==> !(keyring::kid_of_name((#[trigger] files[j]).name@) is Some
                    && text::read_hex32(text::trimmed(files[j].contents@)) is None),
        },
    decreases files.len(),
{
    if files.len() > 0 {
        let t = files.drop_last();
        law_first_malformed_key_is_told(t);
        assert(files[files.len() - 1] == files.last());
        assert forall|j: int| 0 <= j < t.len() implies #[trigger] files[j] == t[j] by {}
    }
}

/// The file of a generation is named by its number, in four digits or more.
pub proof fn law_generations_are_numbered(kid: Kid)
    ensures
        text::decimal(keyring::kid_name(kid)) == kid,
        keyring::kid_name(kid).len() >= 4,
        text::all_digits(keyring::kid_name(kid)),
        keyring::read_kid(keyring::kid_name(kid)) == Some(kid),
{
    let d = text::digits(kid as nat);
    text::lemma_digits(kid as nat);
    let zeros: nat = (if d.len() < 4 {
        4 - d.len()
    } else {
        0
    }) as nat;
    text::lemma_leading_zeros(zeros, d);
    let n = keyring::kid_name(kid);
    assert(n =~= Seq::new(zeros, |i: int| '0') + d);
    assert(n[0] != '+') by {
        if zeros > 0 {
            assert(n[0] == '0');
        } else {
            assert(n[0] == d[0]);
            assert(text::is_digit(d[0]));
        }
    }
}

/// A key that is added is the one that is supplied, and the one that is on
/// disk already where one is.
pub proof fn law_added_key_is_the_supplied_one(
    key: Option<[u8; 32]>,
    on_disk: Option<&str>,
    k: Seq<u8>,
)
    ensures
        keyring::added(key, on_disk, k) ==> {
            &&& key matches Some(s) ==> k == s@
            &&& on_disk matches Some(t) ==> text::read_hex32(text::trimmed(t@)) == Some(k)
            &&& k.len() == 32
        },
{
}

/// An operator is let in exactly for the verb that the request is for, with
/// a discharge of the admin scope, as the discharge's subject.
pub proof fn law_operator_has_the_admin_scope(
    q: PresentedView,
    ring: KeyringView,
    now_unix: u64,
    audience: Seq<char>,
    verb: Seq<char>,
)
    ensures
        admin::operator_of(q, ring, now_unix, audience, verb) is Some <==> {
            &&& gate::authenticated(q, ring, now_unix, audience, verb) matches Ok(c)
            &&& caveat::resolved(c.discharge_caveats, name::SCOPE@) == ResolvedView::Value(
                "mint:admin"@,
            )
            &&& caveat::resolved(c.discharge_caveats, name::SUB@) is Value
        },
        admin::operator_of(q, ring, now_unix, audience, verb) matches Some(s) ==> caveat::resolved(
            gate::authenticated(q, ring, now_unix, audience, verb)->Ok_0.discharge_caveats,
            name::SUB@,
        ) == ResolvedView::Value(s),
{
}

/// An invite is sealed for the authority: what it opens is an invite of this
/// organisation.
pub proof fn law_invite_is_sealed_for_the_authority(
    m: MacaroonView,
    ring: KeyringView,
    k_m_a: Seq<u8>,
    audience: Seq<char>,
    nonce: Seq<char>,
    org_id: Seq<char>,
    location: Seq<char>,
)
    requires
        admin::is_invite(m, ring, k_m_a, audience, nonce, org_id, location),
        tpc::fits(org_id),
    ensures
        tpc::cid_contents(k_m_a, m.caveats.last()->cid) matches Ok(p) && p.client_id == "invite"@
            && p.org_id == org_id && tpc::recovered(
            issuance::base_tag(ring, m.nonce, m.caveats.drop_last()),
            m.caveats.last()->vid,
        ) == Ok::<Seq<u8>, tpc::TpcError>(p.r),
        caveat::resolved(m.caveats, name::OP@) == ResolvedView::Value("enroll"@),
        caveat::resolved(m.caveats, name::AUD@) == ResolvedView::Value(audience),
        caveat::resolved(m.caveats, name::INVITE@) == ResolvedView::Value(nonce),
{
    let c = issuance::invite_caveats(audience, nonce);
    let r = choose|r: Seq<u8>| #[trigger]
        issuance::minted_gated(
            m,
            ring,
            c,
            r,
            k_m_a,
            tpc::cid_layout(r, issuance::INVITE_CLIENT_ID@, org_id),
            location,
        );
    let layout = tpc::cid_layout(r, issuance::INVITE_CLIENT_ID@, org_id);
    assert(issuance::minted_gated(m, ring, c, r, k_m_a, layout, location));
    reveal_strlit("invite");
    vstd::utf8::is_ascii_chars_encode_utf8(issuance::INVITE_CLIENT_ID@);
    tpc::law_vid_and_cid_recover_the_same_key(
        m.caveats.last(),
        location,
        issuance::base_tag(ring, m.nonce, c),
        r,
        k_m_a,
        issuance::INVITE_CLIENT_ID@,
        org_id,
    );
    super::issuing::law_invite_opens_enrollment(
        m,
        ring,
        audience,
        nonce,
        r,
        k_m_a,
        layout,
        location,
        name::OP@,
    );
}

/// What an operator is told of a seal is what it pins: of each role the hash
/// of its template.
pub proof fn law_told_hashes_are_the_sealed_ones(roles: NameMap<SealedRole>, x: Seq<char>)
    ensures
        admin::role_hashes(roles).contains_key(x) <==> roles.map().contains_key(x),
        roles.map().contains_key(x) ==> admin::role_hashes(roles)[x]
            == roles.map()[x].policy_blake3@,
{
}

/// The states of an enrollment are told apart.
pub proof fn law_states_are_told_apart(a: EnrollmentState, b: EnrollmentState)
    ensures
        admin::state_text(a) == admin::state_text(b) <==> a == b,
        admin::state_text(EnrollmentState::Pending) == "pending"@,
        admin::state_text(EnrollmentState::Enrolled) == "enrolled"@,
        admin::state_text(EnrollmentState::Revoked) == "revoked"@,
{
    reveal_strlit("pending");
    reveal_strlit("enrolled");
    reveal_strlit("revoked");
    assert("pending"@[0] != "enrolled"@[0]);
    assert("pending"@[0] != "revoked"@[0]);
    assert("enrolled"@[0] != "revoked"@[0]);
}

/// The bodies of an approval and of a revocation name whom they are about,
/// and when.
pub proof fn law_admin_bodies_name_the_subject(
    sub: Seq<char>,
    pubkey: Seq<char>,
    now_unix: u64,
)
    ensures
        json::str_field(Some(admin::approve_doc(sub, pubkey, now_unix)), "sub"@) == Some(sub),
        json::str_field(Some(admin::approve_doc(sub, pubkey, now_unix)), "pubkey"@) == Some(pubkey),
        pop::ts_of(Some(admin::approve_doc(sub, pubkey, now_unix))) == Ok::<u64, pop::PopReject>(
            now_unix,
        ),
        json::str_field(Some(admin::revoke_doc(sub, now_unix)), "sub"@) == Some(sub),
        pop::ts_of(Some(admin::revoke_doc(sub, now_unix))) == Ok::<u64, pop::PopReject>(now_unix),
{
    let a = admin::approve_doc(sub, pubkey, now_unix)->Object_0;
    let b = admin::revoke_doc(sub, now_unix)->Object_0;
    reveal_strlit("sub");
    reveal_strlit("pubkey");
    reveal_strlit("ts");
    assert("sub"@.len() != "pubkey"@.len());
    assert("sub"@.len() != "ts"@.len());
    assert("pubkey"@.len() != "ts"@.len());
    json::lemma_entry(a, "pubkey"@, 0);
    json::lemma_entry(a, "sub"@, 1);
    json::lemma_entry(a, "ts"@, 2);
    json::lemma_entry(b, "sub"@, 0);
    json::lemma_entry(b, "ts"@, 1);
}

/// A discharge is asked for by the `cid` and the scope.
pub proof fn law_discharge_request_names_the_scope(cid: Seq<char>, scope: Seq<char>)
    ensures
        json::str_field(Some(operator::discharge_doc(cid, scope)), "cid"@) == Some(cid),
        json::str_field(Some(operator::discharge_doc(cid, scope)), "scope"@) == Some(scope),
{
    let a = operator::discharge_doc(cid, scope)->Object_0;
    reveal_strlit("cid");
    reveal_strlit("scope");
    assert("cid"@.len() != "scope"@.len());
    json::lemma_entry(a, "cid"@, 0);
    json::lemma_entry(a, "scope"@, 1);
}

/// The caveat that an operator has discharged is the first third-party one.
pub proof fn law_operator_discharges_the_first_site(c: Seq<CaveatView>)
    ensures
        match operator::first_site(c) {
            Some((location, cid)) => exists|i: int|
                {
                    &&& 0 <= i < c.len()
                    &&& #[trigger] c[i] matches CaveatView::ThirdParty { location: l, cid: d, .. }
                    &&& l == location
                    &&& d == cid
                    &&& forall|j: int| 0 <= j < i ==> (#[trigger] c[j]) is FirstParty
                },
            None => forall|j: int| 0 <= j < c.len() ==> (#[trigger] c[j]) is FirstParty,
        },
    decreases c.len(),
{
    if c.len() > 0 && c[0] is FirstParty {
        let t = c.drop_first();
        law_operator_discharges_the_first_site(t);
        if operator::first_site(c) is Some {
            let (location, cid) = operator::first_site(c)->0;
            let i = choose|i: int|
                {
                    &&& 0 <= i < t.len()
                    &&& #[trigger] t[i] matches CaveatView::ThirdParty { location: l, cid: d, .. }
                    &&& l == location
                    &&& d == cid
                    &&& forall|j: int| 0 <= j < i ==> (#[trigger] t[j]) is FirstParty
                };
            assert(c[i + 1] == t[i]);
            assert forall|j: int| 0 <= j < i + 1 implies (#[trigger] c[j]) is FirstParty by {
                if j > 0 {
                    assert(c[j] == t[j - 1]);
                }
            }
        } else {
            assert forall|j: int| 0 <= j < c.len() implies (#[trigger] c[j]) is FirstParty by {
                if j > 0 {
                    assert(c[j] == t[j - 1]);
                }
            }
        }
    } else if c.len() > 0 {
        assert(c[0] is ThirdParty);
    }
}

/// Sessions are kept under the configured home, or else under the home
/// directory.
pub proof fn law_sessions_are_kept_at_home(xdg: Option<Seq<char>>, home: Option<Seq<char>>)
    ensures
        xdg matches Some(x) ==> session::dir_path(xdg, home) == Some(
            config::joined_path(x, "mint"@),
        ),
        xdg is None && home is Some ==> session::dir_path(xdg, home) == Some(
            config::joined_path(config::joined_path(home->0, ".config"@), "mint"@),
        ),
        xdg is None && home is None ==> session::dir_path(xdg, home) is None,
{
}

} // verus!
