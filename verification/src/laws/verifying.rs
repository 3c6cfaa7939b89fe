//! Verifying a bundle: what is cleared, and what the verdict says of it.

use crate::caveat;
use crate::caveat::{name, CaveatView, ResolvedView};
use crate::http;
use crate::http::gate;
use crate::http::gate::{AuthFault, PresentedView};
use crate::http::verify;
use crate::http::{ClearedView, Refusal, Taken};
use crate::json;
use crate::json::JsonView;
use crate::keyring::KeyringView;
use crate::macaroon;
use crate::macaroon::{KeyRef, MacaroonView};
use crate::pop;
use crate::text;
use vstd::prelude::*;

verus! {

/// The first-party caveats of a chain are those that it holds, in the order
/// in which it holds them.
pub proof fn law_first_parties_keep_their_order(c: Seq<CaveatView>, x: CaveatView)
    ensures
        x is FirstParty ==> caveat::first_parties(c.push(x)) == caveat::first_parties(c).push(x),
        x is ThirdParty ==> caveat::first_parties(c.push(x)) == caveat::first_parties(c),
        caveat::first_parties(Seq::empty()) == Seq::<CaveatView>::empty(),
{
    reveal(Seq::filter);
    let keep = |x: CaveatView| x is FirstParty;
    assert(c.push(x).drop_last() =~= c);
    assert(c.push(x).last() == x);
    assert(Seq::<CaveatView>::empty().filter(keep) =~= Seq::<CaveatView>::empty());
}

/// The caveats that a verdict lists are the first-party ones, one entry
/// each, under its own name and with its own value.
pub proof fn law_listed_caveats_are_the_bundles(c: Seq<CaveatView>)
    requires
        forall|i: int| 0 <= i < c.len() ==> (#[trigger] c[i]) is FirstParty,
    ensures
        verify::caveat_docs(c).len() == c.len(),
        forall|i: int|
            0 <= i < c.len() ==> json::str_field(Some(#[trigger] verify::caveat_docs(c)[i]), "name"@)
                == Some(c[i]->name),
        forall|i: int|
            0 <= i < c.len() ==> json::str_field(
                Some(#[trigger] verify::caveat_docs(c)[i]),
                "value"@,
            ) == Some(c[i]->value),
    decreases c.len(),
{
    if c.len() > 0 {
        let t = c.drop_last();
        assert forall|i: int| 0 <= i < t.len() implies (#[trigger] t[i]) is FirstParty by {
            assert(t[i] == c[i]);
        }
        law_listed_caveats_are_the_bundles(t);
        let last = c.last();
        assert(last == c[c.len() - 1]);
        let doc = verify::caveat_docs(c).last();
        let entries = doc->Object_0;
        reveal_strlit("name");
        reveal_strlit("value");
        assert("name"@.len() != "value"@.len());
        json::lemma_entry(entries, "name"@, 0);
        json::lemma_entry(entries, "value"@, 1);
        assert forall|i: int| 0 <= i < c.len() implies json::str_field(
            Some(#[trigger] verify::caveat_docs(c)[i]),
            "name"@,
        ) == Some(c[i]->name) && json::str_field(Some(verify::caveat_docs(c)[i]), "value"@) == Some(
            c[i]->value,
        ) by {
            if i < t.len() {
                assert(verify::caveat_docs(c)[i] == verify::caveat_docs(t)[i]);
                assert(t[i] == c[i]);
            }
        }
    }
}

/// A positive verdict says so, hands back the caveats of the primary and
/// then those of the discharges, and says until when the bundle holds.
pub proof fn law_verdict_hands_back_the_caveats(cleared: ClearedView)
    ensures
        ({
            let doc = verify::valid_doc(cleared);
            let c = caveat::first_parties(cleared.primary.caveats) + caveat::first_parties(
                cleared.discharge_caveats,
            );
            &&& json::field(doc, "valid"@) == Some(JsonView::Bool(true))
            &&& json::field(doc, "expires_at"@) == Some(
                match cleared.expires_at {
                    Some(e) => JsonView::PosInt(e),
                    None => JsonView::Null,
                },
            )
            &&& json::field(doc, "caveats"@) matches Some(JsonView::Array(items))
            &&& items.len() == c.len()
            &&& forall|i: int|
                0 <= i < c.len() ==> json::str_field(Some(#[trigger] items[i]), "name"@) == Some(
                    c[i]->name,
                ) && json::str_field(Some(items[i]), "value"@) == Some(c[i]->value)
        }),
{
    let doc = verify::valid_doc(cleared);
    let entries = doc->Object_0;
    let a = caveat::first_parties(cleared.primary.caveats);
    let b = caveat::first_parties(cleared.discharge_caveats);
    caveat::lemma_first_parties(cleared.primary.caveats);
    caveat::lemma_first_parties(cleared.discharge_caveats);
    assert forall|i: int| 0 <= i < (a + b).len() implies (#[trigger] (a + b)[i]) is FirstParty by {
        if i < a.len() {
            assert((a + b)[i] == a[i]);
        } else {
            assert((a + b)[i] == b[i - a.len()]);
        }
    }
    law_listed_caveats_are_the_bundles(a + b);
    reveal_strlit("caveats");
    reveal_strlit("expires_at");
    reveal_strlit("valid");
    assert("caveats"@[0] != "expires_at"@[0]);
    assert("caveats"@[0] != "valid"@[0]);
    assert("expires_at"@[0] != "valid"@[0]);
    json::lemma_entry(entries, "caveats"@, 0);
    json::lemma_entry(entries, "expires_at"@, 1);
    json::lemma_entry(entries, "valid"@, 2);
}

/// A negative verdict says so and gives its reason; it lists no caveat.
pub proof fn law_negative_verdict_tells_no_caveat(reason: Seq<char>)
    ensures
        json::field(verify::invalid_doc(reason), "valid"@) == Some(JsonView::Bool(false)),
        json::str_field(Some(verify::invalid_doc(reason)), "reason"@) == Some(reason),
        json::field(verify::invalid_doc(reason), "caveats"@) is None,
{
    let entries = verify::invalid_doc(reason)->Object_0;
    reveal_strlit("caveats");
    reveal_strlit("reason");
    reveal_strlit("valid");
    assert("caveats"@[0] != "reason"@[0]);
    assert("caveats"@[0] != "valid"@[0]);
    assert("reason"@[0] != "valid"@[0]);
    json::lemma_entry(entries, "reason"@, 0);
    json::lemma_entry(entries, "valid"@, 1);
    json::lemma_entry(entries, "caveats"@, 2);
}

/// What is cleared is what was presented: the primary as it stands, the
/// caveats of every discharge and no others, and the least deadline of all
/// of them.
pub proof fn law_cleared_is_what_was_presented(
    primary: MacaroonView,
    ds: Seq<MacaroonView>,
    ring: KeyringView,
    sig: Option<Seq<u8>>,
    body: Seq<u8>,
    now_unix: u64,
    aud: Seq<char>,
    op: Seq<char>,
)
    ensures
        http::cleared(primary, ds, ring, sig, body, now_unix, aud, op) matches Ok(c) ==> {
            &&& c.primary == primary
            &&& forall|x: CaveatView| #[trigger]
                c.discharge_caveats.contains(x) <==> exists|i: int|
                    0 <= i < ds.len() && (#[trigger] ds[i]).caveats.contains(x)
            &&& ds.len() == 0 ==> c.discharge_caveats.len() == 0
            &&& ds.len() == 1 ==> c.discharge_caveats == ds[0].caveats
            &&& c.expires_at matches Some(e) ==> {
                &&& now_unix < e
                &&& caveat::bound_of(primary.caveats, name::EXP@) == Some(e) || exists|i: int|
                    0 <= i < ds.len() && caveat::bound_of(
                        (#[trigger] ds[i]).caveats,
                        name::EXP@,
                    ) == Some(e)
                &&& caveat::bound_of(primary.caveats, name::EXP@) matches Some(x) ==> e <= x
                &&& forall|i: int|
                    0 <= i < ds.len() ==> (caveat::bound_of(
                        (#[trigger] ds[i]).caveats,
                        name::EXP@,
                    ) matches Some(x) ==> e <= x)
            }
            &&& c.expires_at is None ==> {
                &&& caveat::bound_of(primary.caveats, name::EXP@) is None
                &&& forall|i: int|
                    0 <= i < ds.len() ==> caveat::bound_of((#[trigger] ds[i]).caveats, name::EXP@)
                        is None
            }
        },
{
    if http::cleared(primary, ds, ring, sig, body, now_unix, aud, op) is Ok {
        let q = http::walked(primary, ds, ring, aud, op)->Ok_0;
        http::law_cleared_bundle_is_authentic(primary, ds, ring, aud, op);
        assert(http::taken_once(ds, q));
        lemma_gathered(ds, q);
        lemma_least_deadline(primary, ds, q);
        let c = http::cleared(primary, ds, ring, sig, body, now_unix, aud, op)->Ok_0;
        assert forall|x: CaveatView| #[trigger] c.discharge_caveats.contains(x) <==> exists|i: int|
            0 <= i < ds.len() && (#[trigger] ds[i]).caveats.contains(x) by {
            if exists|i: int| 0 <= i < ds.len() && (#[trigger] ds[i]).caveats.contains(x) {
                let i = choose|i: int| 0 <= i < ds.len() && (#[trigger] ds[i]).caveats.contains(x);
                assert(http::taken(q, i));
                let k = choose|k: int| 0 <= k < q.len() && (#[trigger] q[k]).0 == i;
                assert(ds[q[k].0].caveats.contains(x));
            }
            if c.discharge_caveats.contains(x) {
                let k = choose|k: int|
                    0 <= k < q.len() && ds[(#[trigger] q[k]).0].caveats.contains(x);
                assert(ds[q[k].0].caveats.contains(x));
            }
        }
        if ds.len() == 1 {
            assert(q.len() == 1);
            assert(q[0].0 == 0);
            assert(q.drop_last() =~= Seq::<(int, Seq<u8>)>::empty());
            assert(http::gathered(ds, q.drop_last()) =~= Seq::<CaveatView>::empty());
            assert(http::gathered(ds, q) =~= ds[0].caveats);
        }
        if c.expires_at is Some {
            let e = c.expires_at->0;
            assert forall|i: int| 0 <= i < ds.len() implies (caveat::bound_of(
                (#[trigger] ds[i]).caveats,
                name::EXP@,
            ) matches Some(x) ==> e <= x) by {
                assert(http::taken(q, i));
                let k = choose|k: int| 0 <= k < q.len() && (#[trigger] q[k]).0 == i;
                assert(ds[q[k].0] == ds[i]);
            }
            if caveat::bound_of(primary.caveats, name::EXP@) != Some(e) {
                let k = choose|k: int|
                    0 <= k < q.len() && caveat::bound_of(ds[(#[trigger] q[k]).0].caveats, name::EXP@)
                        == Some(e);
                assert(caveat::bound_of(ds[q[k].0].caveats, name::EXP@) == Some(e));
            }
        } else {
            assert forall|i: int| 0 <= i < ds.len() implies caveat::bound_of(
                (#[trigger] ds[i]).caveats,
                name::EXP@,
            ) is None by {
                assert(http::taken(q, i));
                let k = choose|k: int| 0 <= k < q.len() && (#[trigger] q[k]).0 == i;
                assert(ds[q[k].0] == ds[i]);
            }
        }
    }
}

proof fn lemma_gathered(ds: Seq<MacaroonView>, q: Taken)
    ensures
        forall|x: CaveatView| #[trigger]
            http::gathered(ds, q).contains(x) <==> exists|k: int|
                0 <= k < q.len() && ds[(#[trigger] q[k]).0].caveats.contains(x),
    decreases q.len(),
{
    if q.len() > 0 {
        let t = q.drop_last();
        lemma_gathered(ds, t);
        let before = http::gathered(ds, t);
        let own = ds[q.last().0].caveats;
        assert forall|x: CaveatView| #[trigger]
            http::gathered(ds, q).contains(x) <==> exists|k: int|
                0 <= k < q.len() && ds[(#[trigger] q[k]).0].caveats.contains(x) by {
            let all = before + own;
            if all.contains(x) {
                let i = choose|i: int| 0 <= i < all.len() && all[i] == x;
                if i < before.len() {
                    assert(before[i] == x);
                    assert(before.contains(x));
                    let k = choose|k: int|
                        0 <= k < t.len() && ds[(#[trigger] t[k]).0].caveats.contains(x);
                    assert(t[k] == q[k]);
                } else {
                    assert(own[i - before.len()] == x);
                    assert(own.contains(x));
                    assert(ds[q[q.len() - 1].0].caveats.contains(x));
                }
            }
            if exists|k: int| 0 <= k < q.len() && ds[(#[trigger] q[k]).0].caveats.contains(x) {
                let k = choose|k: int|
                    0 <= k < q.len() && ds[(#[trigger] q[k]).0].caveats.contains(x);
                if k < t.len() {
                    assert(t[k] == q[k]);
                    assert(before.contains(x));
                    let i = choose|i: int| 0 <= i < before.len() && before[i] == x;
                    assert(all[i] == x);
                } else {
                    let i = choose|i: int| 0 <= i < own.len() && own[i] == x;
                    assert(all[before.len() + i] == x);
                }
            }
        }
    }
}

proof fn lemma_least_deadline(primary: MacaroonView, ds: Seq<MacaroonView>, q: Taken)
    ensures
        match http::bundle_exp(primary, ds, q) {
            Some(e) => {
                &&& caveat::bound_of(primary.caveats, name::EXP@) == Some(e) || exists|k: int|
                    0 <= k < q.len() && caveat::bound_of(
                        ds[(#[trigger] q[k]).0].caveats,
                        name::EXP@,
                    ) == Some(e)
                &&& caveat::bound_of(primary.caveats, name::EXP@) matches Some(x) ==> e <= x
                &&& forall|k: int|
                    0 <= k < q.len() ==> (caveat::bound_of(
                        ds[(#[trigger] q[k]).0].caveats,
                        name::EXP@,
                    ) matches Some(x) ==> e <= x)
            },
            None => {
                &&& caveat::bound_of(primary.caveats, name::EXP@) is None
                &&& forall|k: int|
                    0 <= k < q.len() ==> caveat::bound_of(
                        ds[(#[trigger] q[k]).0].caveats,
                        name::EXP@,
                    ) is None
            },
        },
    decreases q.len(),
{
    if q.len() > 0 {
        let t = q.drop_last();
        lemma_least_deadline(primary, ds, t);
        assert forall|k: int| 0 <= k < t.len() implies #[trigger] q[k] == t[k] by {}
        assert(q[q.len() - 1] == q.last());
        let before = http::bundle_exp(primary, ds, t);
        let all = http::bundle_exp(primary, ds, q);
        if all is Some && before == all && caveat::bound_of(primary.caveats, name::EXP@) != all {
            let k = choose|k: int|
                0 <= k < t.len() && caveat::bound_of(ds[(#[trigger] t[k]).0].caveats, name::EXP@)
                    == all;
            assert(q[k] == t[k]);
        }
    }
}

/// The fault is of a token, its audience or its operation.
spec fn of_tokens(e: Refusal) -> bool {
    e is Auth || e is AudClear || e is OpClear
}

proof fn lemma_site_faults(
    sites: Seq<macaroon::SiteView>,
    ds: Seq<MacaroonView>,
    q: Taken,
)
    ensures
        http::take_sites(sites, ds, q) matches Err(e) ==> e is Auth,
    decreases sites.len(),
{
    if sites.len() > 0 {
        lemma_site_faults(sites.drop_last(), ds, q);
    }
}

proof fn lemma_walk_faults(
    ds: Seq<MacaroonView>,
    q: Taken,
    head: int,
    aud: Seq<char>,
    op: Seq<char>,
)
    ensures
        http::walk(ds, q, head, aud, op) matches Err(e) ==> of_tokens(e),
    decreases ds.len() - head,
{
    if 0 <= head < q.len() && head < ds.len() {
        let m = ds[q[head].0];
        lemma_site_faults(macaroon::sites(m, q[head].1), ds, q);
        if http::visit(m, q[head].1, false, ds, q, aud, op) is Ok {
            lemma_walk_faults(
                ds,
                http::visit(m, q[head].1, false, ds, q, aud, op)->Ok_0,
                head + 1,
                aud,
                op,
            );
        }
    }
}

/// Each refusal of a bundle has its cause: its tokens are at fault, or its
/// proof, its audience, its operation or its deadline.
pub proof fn law_each_refusal_has_its_cause(
    primary: MacaroonView,
    ds: Seq<MacaroonView>,
    ring: KeyringView,
    sig: Option<Seq<u8>>,
    body: Seq<u8>,
    now_unix: u64,
    aud: Seq<char>,
    op: Seq<char>,
)
    ensures
        http::cleared(primary, ds, ring, sig, body, now_unix, aud, op) matches Err(Refusal::Pop)
            ==> pop::outcome(primary.caveats, primary.tail, body, sig, now_unix) is Err,
        http::cleared(primary, ds, ring, sig, body, now_unix, aud, op) matches Err(
            Refusal::Expired,
        ) ==> pop::outcome(primary.caveats, primary.tail, body, sig, now_unix) is Ok,
        !(primary.key_ref is Keyring) ==> http::cleared(
            primary,
            ds,
            ring,
            sig,
            body,
            now_unix,
            aud,
            op,
        ) is Err,
        http::walked(primary, ds, ring, aud, op) is Ok && pop::outcome(
            primary.caveats,
            primary.tail,
            body,
            sig,
            now_unix,
        ) is Ok ==> (http::cleared(primary, ds, ring, sig, body, now_unix, aud, op) is Ok
            || http::cleared(primary, ds, ring, sig, body, now_unix, aud, op) == Err::<
            ClearedView,
            Refusal,
        >(Refusal::Expired)),
{
    if let KeyRef::Keyring(kid) = primary.key_ref {
        let key = ring.keys[kid];
        let none = Seq::<(int, Seq<u8>)>::empty();
        lemma_site_faults(macaroon::sites(primary, key), ds, none);
        if http::visit(primary, key, true, ds, none, aud, op) is Ok {
            lemma_walk_faults(
                ds,
                http::visit(primary, key, true, ds, none, aud, op)->Ok_0,
                0,
                aud,
                op,
            );
        }
    }
}

/// A bare token clears exactly as a token should: authentic under a
/// generation of the ring, for this audience and operation, with a proof of
/// its key and no deadline that has passed.
pub proof fn law_bare_token_clears(
    primary: MacaroonView,
    ring: KeyringView,
    sig: Option<Seq<u8>>,
    body: Seq<u8>,
    now_unix: u64,
    aud: Seq<char>,
    op: Seq<char>,
)
    requires
        forall|i: int| 0 <= i < primary.caveats.len() ==> (#[trigger] primary.caveats[i]) is FirstParty,
    ensures
        http::cleared(primary, Seq::empty(), ring, sig, body, now_unix, aud, op) is Ok <==> {
            &&& primary.key_ref matches KeyRef::Keyring(kid)
            &&& ring.keys.contains_key(kid)
            &&& macaroon::authentic(primary, ring.keys[kid])
            &&& caveat::resolved(primary.caveats, name::AUD@) == ResolvedView::Value(aud)
            &&& caveat::resolved(primary.caveats, name::OP@) == ResolvedView::Value(op)
            &&& pop::outcome(primary.caveats, primary.tail, body, sig, now_unix) is Ok
            &&& caveat::bound_of(primary.caveats, name::EXP@) matches Some(e) ==> now_unix < e
        },
{
    let ds = Seq::<MacaroonView>::empty();
    let none = Seq::<(int, Seq<u8>)>::empty();
    if let KeyRef::Keyring(kid) = primary.key_ref {
        let key = ring.keys[kid];
        crate::issuance::lemma_no_sites(
            macaroon::seed_tag(key, primary.key_ref, primary.nonce),
            primary.caveats,
        );
        assert(macaroon::sites(primary, key) =~= Seq::empty());
        assert(http::take_sites(macaroon::sites(primary, key), ds, none) == Ok::<Taken, Refusal>(none));
        assert(http::walk(ds, none, 0, aud, op) == Ok::<Taken, Refusal>(none));
        assert(!http::ambiguous(ds));
    }
}

/// A request authenticates exactly as its bundle clears with its proof: the
/// first token is the primary and the others are its discharges, and a proof
/// that cannot be read is no proof.
pub proof fn law_request_authenticates_its_bundle(
    q: PresentedView,
    ring: KeyringView,
    now_unix: u64,
    aud: Seq<char>,
    op: Seq<char>,
    ms: Seq<MacaroonView>,
)
    ensures
        http::read_bundle(q.authorization) is None ==> gate::authenticated(
            q,
            ring,
            now_unix,
            aud,
            op,
        ) is Err,
        gate::read_proof(q.proof_header) is Err ==> gate::authenticated(q, ring, now_unix, aud, op)
            is Err,
        http::read_bundle(q.authorization) == Some(ms) && gate::read_proof(q.proof_header) is Ok ==> {
            let sig = gate::read_proof(q.proof_header)->Ok_0;
            match http::cleared(ms[0], ms.skip(1), ring, sig, q.body, now_unix, aud, op) {
                Ok(c) => gate::authenticated(q, ring, now_unix, aud, op) == Ok::<
                    ClearedView,
                    AuthFault,
                >(c),
                Err(e) => gate::authenticated(q, ring, now_unix, aud, op) == Err::<
                    ClearedView,
                    AuthFault,
                >(AuthFault::Refused(e)),
            }
        },
{
}

/// The statuses by which a client tells what to do: authenticate, mend the
/// request, wait, or try again.
pub proof fn law_statuses_tell_what_to_do(k: gate::Refused)
    ensures
        gate::status_of(k) == 401 <==> k == gate::Refused::Unauthorized,
        gate::status_of(k) == 400 <==> k == gate::Refused::BadRequest,
        gate::status_of(k) == 403 <==> k == gate::Refused::Awaiting,
        gate::status_of(k) == 503 <==> k == gate::Refused::NotSealed || k
            == gate::Refused::Unavailable,
{
}

/// A proof is fresh within a minute of now, either way, and not beyond.
pub proof fn law_proofs_are_fresh_for_a_minute(ts: u64, now_unix: u64)
    ensures
        pop::within_skew(now_unix, ts) <==> now_unix <= ts + 60 && ts <= now_unix + 60,
        pop::within_skew(now_unix, ts) <==> pop::within_skew(ts, now_unix),
{
}

/// A proof covers this token and this body: the digest that is signed is of
/// the tail before the hash of the body.
pub proof fn law_proof_covers_token_and_body(tail: Seq<u8>, body: Seq<u8>)
    ensures
        pop::signed_digest(tail, body) == crate::crypto::blake3_hash(
            tail + crate::crypto::blake3_hash(body),
        ),
{
}

/// The timestamp of a body is the number under `ts`.
pub proof fn law_timestamp_is_the_bodys(doc: JsonView, ts: u64)
    ensures
        json::field(doc, "ts"@) == Some(JsonView::PosInt(ts)) <==> pop::ts_of(Some(doc)) == Ok::<
            u64,
            pop::PopReject,
        >(ts),
        pop::ts_of(None) is Err,
{
}

/// Each reason that a refusal gives stands for one kind of fault.
pub proof fn law_reasons_name_the_fault(f: AuthFault)
    ensures
        verify::fault_reason(f) == (match f {
            AuthFault::NoBundle => "bundle_decode"@,
            AuthFault::BadProof => "pop_header"@,
            AuthFault::Refused(Refusal::Auth(s)) => s,
            AuthFault::Refused(Refusal::Pop) => "pop"@,
            AuthFault::Refused(Refusal::AudClear) => "aud_clear"@,
            AuthFault::Refused(Refusal::OpClear) => "op_clear"@,
            AuthFault::Refused(Refusal::Expired) => "expired"@,
        }),
{
}

/// A bundle is the tokens of its header, one between each two commas.
pub proof fn law_bundle_tokens_are_the_headers(payload: Seq<char>, ms: Seq<MacaroonView>)
    requires
        http::read_bundle(Some("MintV1 "@ + payload)) == Some(ms),
    ensures
        ms.len() == text::split(payload, ',').len(),
        forall|i: int|
            0 <= i < ms.len() ==> macaroon::read_token(
                text::trimmed(#[trigger] text::split(payload, ',')[i]),
            ) == Some(ms[i]),
{
    let h = "MintV1 "@ + payload;
    assert("MintV1 "@.is_prefix_of(h));
    assert(h.skip("MintV1 "@.len() as int) =~= payload);
    lemma_tokens(text::split(payload, ','));
}

proof fn lemma_tokens(parts: Seq<Seq<char>>)
    ensures
        http::read_tokens(parts) matches Some(ms) ==> {
            &&& ms.len() == parts.len()
            &&& forall|i: int|
                0 <= i < parts.len() ==> macaroon::read_token(text::trimmed(#[trigger] parts[i]))
                    == Some(ms[i])
        },
    decreases parts.len(),
{
    if parts.len() > 0 {
        let t = parts.drop_last();
        lemma_tokens(t);
        if http::read_tokens(parts) is Some {
            let ms = http::read_tokens(parts)->0;
            assert forall|i: int| 0 <= i < parts.len() implies macaroon::read_token(
                text::trimmed(#[trigger] parts[i]),
            ) == Some(ms[i]) by {
                if i < t.len() {
                    assert(t[i] == parts[i]);
                }
            }
        }
    }
}

/// A proof header is 64 bytes in base64, with space around it or not; a
/// request without one has no proof.
pub proof fn law_proof_headers_are_signatures(h: Seq<char>)
    ensures
        gate::read_proof(None) == Ok::<Option<Seq<u8>>, ()>(None),
        gate::read_proof(Some(h)) matches Ok(Some(b)) ==> b.len() == 64
            && crate::crypto::base64_read(text::trimmed(h)) == Some(b),
        crate::crypto::base64_read(text::trimmed(h)) matches Some(b) ==> (b.len() == 64
            ==> gate::read_proof(Some(h)) == Ok::<Option<Seq<u8>>, ()>(Some(b))),
        gate::read_proof(Some(h)) != Ok::<Option<Seq<u8>>, ()>(None),
{
}

/// A bound key is 32 bytes in base64 behind its scheme, and is valid where
/// signatures can be checked with it.
pub proof fn law_bound_keys_are_read_off(t: Seq<char>, value: Seq<char>)
    ensures
        crate::crypto::base64_read(text::trimmed(t)) matches Some(k) ==> (k.len() == 32
            ==> pop::cnf_key("ed25519:"@ + t) == Ok::<Seq<u8>, pop::PopReject>(k)),
        !"ed25519:"@.is_prefix_of(value) ==> pop::cnf_key(value) is Err,
        pop::valid_cnf(value) <==> (pop::cnf_key(value) matches Ok(k)
            && crate::crypto::ed25519_key_ok(k)),
{
    let v = "ed25519:"@ + t;
    assert("ed25519:"@.is_prefix_of(v));
    assert(v.skip("ed25519:"@.len() as int) =~= t);
}

} // verus!
