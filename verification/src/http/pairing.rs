//! How the third-party caveats and the discharges of a bundle are matched:
//! one to one, and by ticket, never by the order of presentation.

use crate::caveat;
use crate::caveat::{name, ResolvedView};
use crate::http;
use crate::http::{Refusal, Taken};
use crate::keyring::KeyringView;
use crate::macaroon;
use crate::macaroon::{MacaroonView, SiteView};
use crate::tpc;
use vstd::prelude::*;

verus! {

/// The third-party caveats of the first `n` taken discharges, each under
/// the key that it was taken with, in order.
pub open spec fn nested_sites(ds: Seq<MacaroonView>, q: Taken, n: int) -> Seq<SiteView>
    decreases n,
{
    if n <= 0 {
        Seq::empty()
    } else {
        nested_sites(ds, q, n - 1) + macaroon::sites(ds[q[n - 1].0], q[n - 1].1)
    }
}

/// Every third-party caveat of a walk: those of the primary, then those of
/// the first `n` taken discharges.
pub open spec fn all_sites(
    primary: MacaroonView,
    key: Seq<u8>,
    ds: Seq<MacaroonView>,
    q: Taken,
    n: int,
) -> Seq<SiteView> {
    macaroon::sites(primary, key) + nested_sites(ds, q, n)
}

/// The `k`th third-party caveat is paired with the `k`th taken discharge,
/// and there are as many of the one as of the other.
pub open spec fn matched(sites: Seq<SiteView>, ds: Seq<MacaroonView>, q: Taken) -> bool {
    &&& q.len() == sites.len()
    &&& forall|k: int|
        0 <= k < q.len() ==> http::site_paired(sites[k], ds[(#[trigger] q[k]).0], q[k].1)
}

/// What is taken later changes no earlier discharge's caveats.
proof fn lemma_nested_prefix(ds: Seq<MacaroonView>, q: Taken, q1: Taken, n: int)
    requires
        0 <= n <= q.len(),
        q.len() <= q1.len(),
        forall|k: int| 0 <= k < q.len() ==> #[trigger] q1[k] == q[k],
    ensures
        nested_sites(ds, q1, n) == nested_sites(ds, q, n),
    decreases n,
{
    if n > 0 {
        lemma_nested_prefix(ds, q, q1, n - 1);
        assert(q1[n - 1] == q[n - 1]);
    }
}

/// The walk keeps caveats and discharges matched.
proof fn lemma_walk_matches(
    primary: MacaroonView,
    key: Seq<u8>,
    ds: Seq<MacaroonView>,
    q: Taken,
    head: int,
    aud: Seq<char>,
    op: Seq<char>,
)
    requires
        http::taken_once(ds, q),
        0 <= head <= q.len(),
        matched(all_sites(primary, key, ds, q, head), ds, q),
        http::walk(ds, q, head, aud, op) is Ok,
    ensures
        ({
            let q1 = http::walk(ds, q, head, aud, op)->Ok_0;
            matched(all_sites(primary, key, ds, q1, q1.len() as int), ds, q1)
        }),
    decreases ds.len() - head,
{
    http::lemma_positions(q, ds.len());
    if head < q.len() {
        let m = ds[q[head].0];
        let own = macaroon::sites(m, q[head].1);
        let q1 = http::visit(m, q[head].1, false, ds, q, aud, op)->Ok_0;
        http::lemma_take_sites(own, ds, q);
        lemma_nested_prefix(ds, q, q1, head);
        assert(q1[head] == q[head]);
        let before = all_sites(primary, key, ds, q, head);
        let after = all_sites(primary, key, ds, q1, head + 1);
        assert(after =~= before + own);
        assert forall|k: int| 0 <= k < q1.len() implies http::site_paired(
            after[k],
            ds[(#[trigger] q1[k]).0],
            q1[k].1,
        ) by {
            if k < q.len() {
                assert(q1[k] == q[k]);
                assert(after[k] == before[k]);
            } else {
                assert(after[k] == own[k - q.len()]);
            }
        }
        lemma_walk_matches(primary, key, ds, q1, head + 1, aud, op);
    }
}

/// Third-party caveats and discharges are matched one to one: in a cleared
/// bundle there are as many discharges as third-party caveats, those of the
/// primary and those of the discharges themselves, and each caveat has a
/// discharge of its own, which carries its ticket and is authentic under
/// the key that it seals. No discharge answers two caveats, and none
/// answers no caveat.
pub proof fn law_caveats_and_discharges_match_one_to_one(
    primary: MacaroonView,
    ds: Seq<MacaroonView>,
    ring: KeyringView,
    aud: Seq<char>,
    op: Seq<char>,
)
    requires
        http::walked(primary, ds, ring, aud, op) is Ok,
    ensures
        ({
            let q = http::walked(primary, ds, ring, aud, op)->Ok_0;
            let key = ring.keys[primary.key_ref->Keyring_0];
            &&& primary.key_ref is Keyring
            &&& matched(all_sites(primary, key, ds, q, q.len() as int), ds, q)
            &&& http::taken_once(ds, q)
            &&& q.len() == ds.len()
            &&& forall|i: int| 0 <= i < ds.len() ==> http::taken(q, i)
            &&& forall|k: int|
                0 <= k < q.len() ==> macaroon::authentic(ds[(#[trigger] q[k]).0], q[k].1)
        }),
{
    let key = ring.keys[primary.key_ref->Keyring_0];
    let none = Seq::<(int, Seq<u8>)>::empty();
    let q = http::visit(primary, key, true, ds, none, aud, op)->Ok_0;
    http::lemma_take_sites(macaroon::sites(primary, key), ds, none);
    assert(all_sites(primary, key, ds, q, 0) =~= macaroon::sites(primary, key));
    lemma_walk_matches(primary, key, ds, q, 0, aud, op);
    http::law_cleared_bundle_is_authentic(primary, ds, ring, aud, op);
}

/// Two lists hold the same discharges, each under its own ticket.
pub open spec fn same_discharges(ds: Seq<MacaroonView>, es: Seq<MacaroonView>) -> bool {
    &&& !http::ambiguous(ds)
    &&& !http::ambiguous(es)
    &&& ds.len() == es.len()
    &&& forall|m: MacaroonView| #[trigger] ds.contains(m) <==> es.contains(m)
}

/// Two walks have taken the same discharges with the same keys, in the same
/// order.
spec fn same_taken(ds: Seq<MacaroonView>, q: Taken, es: Seq<MacaroonView>, p: Taken) -> bool {
    &&& q.len() == p.len()
    &&& forall|k: int|
        0 <= k < q.len() ==> 0 <= (#[trigger] q[k]).0 < ds.len() && 0 <= p[k].0 < es.len()
            && ds[q[k].0] == es[p[k].0] && q[k].1 == p[k].1
}

/// Two walks have come to the same: both refused for one reason, or the
/// same discharges taken.
spec fn same_outcome(
    ds: Seq<MacaroonView>,
    q: Result<Taken, Refusal>,
    es: Seq<MacaroonView>,
    p: Result<Taken, Refusal>,
) -> bool {
    match (q, p) {
        (Ok(a), Ok(b)) => same_taken(ds, a, es, b),
        (Err(a), Err(b)) => a == b,
        _ => false,
    }
}

/// A position of an unambiguous list is determined by the ticket there.
proof fn lemma_one_place(ds: Seq<MacaroonView>, i: int, j: int)
    requires
        !http::ambiguous(ds),
        0 <= i < ds.len(),
        0 <= j < ds.len(),
        ds[i].nonce == ds[j].nonce,
    ensures
        i == j,
{
    if i < j {
        assert(ds[i].nonce == ds[j].nonce);
    } else if j < i {
        assert(ds[j].nonce == ds[i].nonce);
    }
}

/// A ticket that is there is found.
proof fn lemma_ticket_found(ds: Seq<MacaroonView>, i: int)
    requires
        0 <= i < ds.len(),
    ensures
        http::find_ticket(ds, ds[i].nonce) is Some,
    decreases ds.len(),
{
    if i < ds.len() - 1 {
        assert(ds.drop_last()[i] == ds[i]);
        lemma_ticket_found(ds.drop_last(), i);
    }
}

/// The same ticket finds the same discharge in both lists.
proof fn lemma_same_found(ds: Seq<MacaroonView>, es: Seq<MacaroonView>, id: Seq<u8>)
    requires
        same_discharges(ds, es),
    ensures
        match (http::find_ticket(ds, id), http::find_ticket(es, id)) {
            (Some(i), Some(j)) => 0 <= i < ds.len() && 0 <= j < es.len() && ds[i] == es[j],
            (None, None) => true,
            _ => false,
        },
{
    http::lemma_found_ticket(ds, id);
    http::lemma_found_ticket(es, id);
    if let Some(i) = http::find_ticket(ds, id) {
        assert(ds.contains(ds[i]));
        let j = choose|j: int| 0 <= j < es.len() && es[j] == ds[i];
        lemma_ticket_found(es, j);
        lemma_one_place(es, j, http::find_ticket(es, id)->0);
    }
    if let Some(j) = http::find_ticket(es, id) {
        assert(es.contains(es[j]));
        assert(ds.contains(es[j]));
        let i = choose|i: int| 0 <= i < ds.len() && ds[i] == es[j];
        lemma_ticket_found(ds, i);
    }
}

/// A discharge is taken in both walks or in neither.
proof fn lemma_same_is_taken(
    ds: Seq<MacaroonView>,
    q: Taken,
    es: Seq<MacaroonView>,
    p: Taken,
    i: int,
    j: int,
)
    requires
        same_discharges(ds, es),
        same_taken(ds, q, es, p),
        0 <= i < ds.len(),
        0 <= j < es.len(),
        ds[i] == es[j],
    ensures
        http::taken(q, i) <==> http::taken(p, j),
{
    if http::taken(q, i) {
        let k = choose|k: int| 0 <= k < q.len() && (#[trigger] q[k]).0 == i;
        assert(ds[q[k].0] == es[p[k].0]);
        lemma_one_place(es, p[k].0, j);
        assert(p[k].0 == j);
    }
    if http::taken(p, j) {
        let k = choose|k: int| 0 <= k < p.len() && (#[trigger] p[k]).0 == j;
        assert(ds[q[k].0] == es[p[k].0]);
        lemma_one_place(ds, q[k].0, i);
        assert(q[k].0 == i);
    }
}

/// Pairing comes to the same in both walks.
proof fn lemma_same_sites(
    sites: Seq<SiteView>,
    ds: Seq<MacaroonView>,
    q: Taken,
    es: Seq<MacaroonView>,
    p: Taken,
)
    requires
        same_discharges(ds, es),
        same_taken(ds, q, es, p),
    ensures
        same_outcome(ds, http::take_sites(sites, ds, q), es, http::take_sites(sites, es, p)),
    decreases sites.len(),
{
    if sites.len() > 0 {
        let rest = sites.drop_last();
        lemma_same_sites(rest, ds, q, es, p);
        match (http::take_sites(rest, ds, q), http::take_sites(rest, es, p)) {
            (Ok(a), Ok(b)) => {
                let site = sites.last();
                let id = tpc::ticket(site.cid);
                lemma_same_found(ds, es, id);
                match (http::find_ticket(ds, id), http::find_ticket(es, id)) {
                    (Some(i), Some(j)) => {
                        lemma_same_is_taken(ds, a, es, b, i, j);
                        if let Ok(r) = tpc::recovered(site.tag, site.vid) {
                            let a1 = a.push((i, r));
                            let b1 = b.push((j, r));
                            assert(same_taken(ds, a1, es, b1)) by {
                                assert forall|k: int| 0 <= k < a1.len() implies 0 <= (
                                #[trigger] a1[k]).0 < ds.len() && 0 <= b1[k].0 < es.len()
                                    && ds[a1[k].0] == es[b1[k].0] && a1[k].1 == b1[k].1 by {
                                    if k < a.len() {
                                        assert(a1[k] == a[k]);
                                        assert(b1[k] == b[k]);
                                    }
                                }
                            }
                        }
                    },
                    _ => {},
                }
            },
            _ => {},
        }
    }
}

/// The walks come to the same.
proof fn lemma_same_walk(
    ds: Seq<MacaroonView>,
    q: Taken,
    es: Seq<MacaroonView>,
    p: Taken,
    head: int,
    aud: Seq<char>,
    op: Seq<char>,
)
    requires
        same_discharges(ds, es),
        same_taken(ds, q, es, p),
    ensures
        same_outcome(ds, http::walk(ds, q, head, aud, op), es, http::walk(es, p, head, aud, op)),
    decreases ds.len() - head,
{
    if 0 <= head < q.len() && head < ds.len() {
        let m = ds[q[head].0];
        assert(m == es[p[head].0]);
        lemma_same_sites(macaroon::sites(m, q[head].1), ds, q, es, p);
        let a = http::visit(m, q[head].1, false, ds, q, aud, op);
        let b = http::visit(m, p[head].1, false, es, p, aud, op);
        assert(same_outcome(ds, a, es, b));
        if a is Ok {
            lemma_same_walk(ds, a->Ok_0, es, b->Ok_0, head + 1, aud, op);
        }
    }
}

/// What is gathered from the taken discharges is the same.
proof fn lemma_same_gathered(
    primary: MacaroonView,
    ds: Seq<MacaroonView>,
    q: Taken,
    es: Seq<MacaroonView>,
    p: Taken,
)
    requires
        same_taken(ds, q, es, p),
    ensures
        http::gathered(ds, q) == http::gathered(es, p),
        http::bundle_exp(primary, ds, q) == http::bundle_exp(primary, es, p),
    decreases q.len(),
{
    if q.len() > 0 {
        let q0 = q.drop_last();
        let p0 = p.drop_last();
        assert forall|k: int| 0 <= k < q0.len() implies 0 <= (#[trigger] q0[k]).0 < ds.len() && 0
            <= p0[k].0 < es.len() && ds[q0[k].0] == es[p0[k].0] && q0[k].1 == p0[k].1 by {
            assert(q0[k] == q[k]);
            assert(p0[k] == p[k]);
        }
        lemma_same_gathered(primary, ds, q0, es, p0);
        let last = q.len() - 1;
        assert(ds[q[last].0] == es[p[last].0]);
    }
}

/// A discharge is left over in both walks or in neither.
proof fn lemma_same_left_over(ds: Seq<MacaroonView>, q: Taken, es: Seq<MacaroonView>, p: Taken)
    requires
        same_discharges(ds, es),
        same_taken(ds, q, es, p),
        exists|i: int| 0 <= i < ds.len() && !http::taken(q, i),
    ensures
        exists|j: int| 0 <= j < es.len() && !http::taken(p, j),
{
    let i = choose|i: int| 0 <= i < ds.len() && !http::taken(q, i);
    assert(ds.contains(ds[i]));
    let j = choose|j: int| 0 <= j < es.len() && es[j] == ds[i];
    lemma_same_is_taken(ds, q, es, p, i, j);
}

/// A list that holds the same macaroons as an unambiguous one, each as
/// often, is unambiguous.
proof fn lemma_unambiguous(ds: Seq<MacaroonView>, es: Seq<MacaroonView>)
    requires
        ds.to_multiset() == es.to_multiset(),
        !http::ambiguous(ds),
    ensures
        same_discharges(ds, es),
{
    ds.to_multiset_ensures();
    es.to_multiset_ensures();
    assert forall|m: MacaroonView| #[trigger] ds.contains(m) <==> es.contains(m) by {
        vstd::seq_lib::to_multiset_contains(ds, m);
        vstd::seq_lib::to_multiset_contains(es, m);
    }
    assert(ds.no_duplicates()) by {
        assert forall|i: int, j: int| 0 <= i < ds.len() && 0 <= j < ds.len() && i != j implies ds[i]
            != ds[j] by {
            if ds[i] == ds[j] {
                lemma_one_place(ds, i, j);
            }
        }
    }
    ds.lemma_multiset_has_no_duplicates();
    es.lemma_multiset_has_no_duplicates_conv();
    assert forall|i: int, j: int| 0 <= i < j < es.len() implies (#[trigger] es[i]).nonce != (
    #[trigger] es[j]).nonce by {
        assert(es.contains(es[i]) && es.contains(es[j]));
        assert(ds.contains(es[i]) && ds.contains(es[j]));
        let a = choose|a: int| 0 <= a < ds.len() && ds[a] == es[i];
        let b = choose|b: int| 0 <= b < ds.len() && ds[b] == es[j];
        if es[i].nonce == es[j].nonce {
            lemma_one_place(ds, a, b);
            assert(es[i] == es[j]);
        }
    }
}

/// The order in which discharges are presented does not matter: whatever
/// order they come in, a bundle is cleared with the same result or refused
/// for the same reason.
pub proof fn law_presentation_order_does_not_matter(
    primary: MacaroonView,
    ds: Seq<MacaroonView>,
    es: Seq<MacaroonView>,
    ring: KeyringView,
    sig: Option<Seq<u8>>,
    body: Seq<u8>,
    now_unix: u64,
    aud: Seq<char>,
    op: Seq<char>,
)
    requires
        ds.to_multiset() == es.to_multiset(),
    ensures
        http::cleared(primary, ds, ring, sig, body, now_unix, aud, op) == http::cleared(
            primary,
            es,
            ring,
            sig,
            body,
            now_unix,
            aud,
            op,
        ),
{
    if !http::ambiguous(ds) {
        lemma_unambiguous(ds, es);
    } else if !http::ambiguous(es) {
        lemma_unambiguous(es, ds);
    }
    if !http::ambiguous(ds) && primary.key_ref is Keyring {
        let key = ring.keys[primary.key_ref->Keyring_0];
        let none = Seq::<(int, Seq<u8>)>::empty();
        assert(same_taken(ds, none, es, none));
        lemma_same_sites(macaroon::sites(primary, key), ds, none, es, none);
        let a = http::visit(primary, key, true, ds, none, aud, op);
        let b = http::visit(primary, key, true, es, none, aud, op);
        assert(same_outcome(ds, a, es, b));
        if a is Ok {
            lemma_same_walk(ds, a->Ok_0, es, b->Ok_0, 0, aud, op);
            let q = http::walk(ds, a->Ok_0, 0, aud, op);
            let p = http::walk(es, b->Ok_0, 0, aud, op);
            if q is Ok {
                let (q, p) = (q->Ok_0, p->Ok_0);
                if exists|i: int| 0 <= i < ds.len() && !http::taken(q, i) {
                    lemma_same_left_over(ds, q, es, p);
                } else if exists|j: int| 0 <= j < es.len() && !http::taken(p, j) {
                    assert(same_discharges(es, ds)) by {
                        assert forall|m: MacaroonView| #[trigger] es.contains(m) <==> ds.contains(
                            m,
                        ) by {
                            assert(ds.contains(m) <==> es.contains(m));
                        }
                    }
                    assert(same_taken(es, p, ds, q)) by {
                        assert forall|k: int| 0 <= k < p.len() implies 0 <= (#[trigger] p[k]).0
                            < es.len() && 0 <= q[k].0 < ds.len() && es[p[k].0] == ds[q[k].0]
                            && p[k].1 == q[k].1 by {
                            assert(ds[q[k].0] == es[p[k].0]);
                        }
                    }
                    lemma_same_left_over(es, p, ds, q);
                }
                lemma_same_gathered(primary, ds, q, es, p);
            }
        }
    }
}

/// The more taken discharges there are, the more third-party caveats.
proof fn lemma_sites_grow(
    primary: MacaroonView,
    key: Seq<u8>,
    ds: Seq<MacaroonView>,
    p: Taken,
    a: int,
    b: int,
)
    requires
        0 <= a <= b,
    ensures
        all_sites(primary, key, ds, p, a).is_prefix_of(all_sites(primary, key, ds, p, b)),
    decreases b - a,
{
    if a < b {
        lemma_sites_grow(primary, key, ds, p, a, b - 1);
        assert(all_sites(primary, key, ds, p, b) =~= all_sites(primary, key, ds, p, b - 1)
            + macaroon::sites(ds[p[b - 1].0], p[b - 1].1));
    }
}

/// Third-party caveats that are paired with the discharges at hand take
/// just those.
proof fn lemma_paired_sites(sites: Seq<SiteView>, ds: Seq<MacaroonView>, p: Taken, a: int)
    requires
        !http::ambiguous(ds),
        http::taken_once(ds, p),
        0 <= a,
        a + sites.len() <= p.len(),
        forall|k: int|
            0 <= k < sites.len() ==> http::site_paired(
                #[trigger] sites[k],
                ds[p[a + k].0],
                p[a + k].1,
            ),
    ensures
        http::take_sites(sites, ds, p.take(a)) == Ok::<Taken, Refusal>(p.take(a + sites.len())),
    decreases sites.len(),
{
    if sites.len() > 0 {
        let h = sites.drop_last();
        let n = a + h.len();
        assert forall|k: int| 0 <= k < h.len() implies http::site_paired(
            #[trigger] h[k],
            ds[p[a + k].0],
            p[a + k].1,
        ) by {
            assert(h[k] == sites[k]);
        }
        lemma_paired_sites(h, ds, p, a);
        let q = p.take(n);
        assert(sites[sites.len() - 1] == sites.last());
        assert(0 <= p[n].0 < ds.len());
        let id = ds[p[n].0].nonce;
        lemma_ticket_found(ds, p[n].0);
        http::lemma_found_ticket(ds, id);
        lemma_one_place(ds, p[n].0, http::find_ticket(ds, id)->0);
        assert(tpc::ticket(sites.last().cid) == id);
        assert(!http::taken(q, p[n].0)) by {
            if http::taken(q, p[n].0) {
                let k = choose|k: int| 0 <= k < q.len() && (#[trigger] q[k]).0 == p[n].0;
                assert(p[k].0 != p[n].0);
            }
        }
        assert(q.push(p[n]) =~= p.take(n + 1));
    } else {
        assert(p.take(a + sites.len()) == p.take(a));
    }
}

/// A walk over discharges that are matched takes them all.
proof fn lemma_matched_walk(
    primary: MacaroonView,
    key: Seq<u8>,
    ds: Seq<MacaroonView>,
    p: Taken,
    head: int,
    aud: Seq<char>,
    op: Seq<char>,
)
    requires
        !http::ambiguous(ds),
        http::taken_once(ds, p),
        matched(all_sites(primary, key, ds, p, p.len() as int), ds, p),
        forall|k: int|
            0 <= k < p.len() ==> k < (#[trigger] all_sites(primary, key, ds, p, k)).len(),
        forall|k: int|
            0 <= k < p.len() ==> macaroon::authentic(ds[(#[trigger] p[k]).0], p[k].1)
                && http::permits(ds[p[k].0].caveats, name::AUD@, aud) && http::permits(
                ds[p[k].0].caveats,
                name::OP@,
                op,
            ),
        0 <= head <= p.len(),
    ensures
        all_sites(primary, key, ds, p, head).len() <= p.len(),
        http::walk(
            ds,
            p.take(all_sites(primary, key, ds, p, head).len() as int),
            head,
            aud,
            op,
        ) == Ok::<Taken, Refusal>(p),
    decreases p.len() - head,
{
    http::lemma_positions(p, ds.len());
    let before = all_sites(primary, key, ds, p, head);
    let whole = all_sites(primary, key, ds, p, p.len() as int);
    lemma_sites_grow(primary, key, ds, p, head, p.len() as int);
    let a = before.len() as int;
    let q = p.take(a);
    if head == p.len() {
        assert(q =~= p);
    } else {
        let m = ds[p[head].0];
        let own = macaroon::sites(m, p[head].1);
        let after = all_sites(primary, key, ds, p, head + 1);
        assert(after =~= before + own);
        lemma_sites_grow(primary, key, ds, p, head + 1, p.len() as int);
        assert forall|k: int| 0 <= k < own.len() implies http::site_paired(
            #[trigger] own[k],
            ds[p[a + k].0],
            p[a + k].1,
        ) by {
            assert(own[k] == after[a + k]);
            assert(after[a + k] == whole[a + k]);
            assert(http::site_paired(whole[a + k], ds[p[a + k].0], p[a + k].1));
        }
        lemma_paired_sites(own, ds, p, a);
        assert(q[head] == p[head]);
        lemma_matched_walk(primary, key, ds, p, head + 1, aud, op);
    }
}

/// A bundle whose third-party caveats and discharges match clears: where
/// the primary is authentic and for this audience and operation, where the
/// discharges can be laid out so that each answers, in turn, one
/// third-party caveat of the primary or of a discharge before it, and where
/// each is authentic under the key that its caveat seals and permits the
/// audience and operation, the bundle is taken up whole, however many
/// discharges there are and however deep they nest.
pub proof fn law_a_matched_bundle_clears(
    primary: MacaroonView,
    ds: Seq<MacaroonView>,
    ring: KeyringView,
    p: Taken,
    aud: Seq<char>,
    op: Seq<char>,
)
    requires
        primary.key_ref is Keyring,
        ring.keys.contains_key(primary.key_ref->Keyring_0),
        macaroon::authentic(primary, ring.keys[primary.key_ref->Keyring_0]),
        caveat::resolved(primary.caveats, "aud"@) == ResolvedView::Value(aud),
        caveat::resolved(primary.caveats, "op"@) == ResolvedView::Value(op),
        forall|i: int, j: int|
            0 <= i < j < ds.len() ==> (#[trigger] ds[i]).nonce != (#[trigger] ds[j]).nonce,
        http::taken_once(ds, p),
        forall|i: int| 0 <= i < ds.len() ==> http::taken(p, i),
        matched(
            all_sites(primary, ring.keys[primary.key_ref->Keyring_0], ds, p, p.len() as int),
            ds,
            p,
        ),
        forall|k: int|
            0 <= k < p.len() ==> k < (#[trigger] all_sites(
                primary,
                ring.keys[primary.key_ref->Keyring_0],
                ds,
                p,
                k,
            )).len(),
        forall|k: int|
            0 <= k < p.len() ==> macaroon::authentic(ds[(#[trigger] p[k]).0], p[k].1),
        forall|k: int|
            0 <= k < p.len() ==> http::permits(ds[(#[trigger] p[k]).0].caveats, "aud"@, aud),
        forall|k: int|
            0 <= k < p.len() ==> http::permits(ds[(#[trigger] p[k]).0].caveats, "op"@, op),
    ensures
        http::walked(primary, ds, ring, aud, op) == Ok::<Taken, Refusal>(p),
{
    let key = ring.keys[primary.key_ref->Keyring_0];
    let own = macaroon::sites(primary, key);
    let whole = all_sites(primary, key, ds, p, p.len() as int);
    assert(all_sites(primary, key, ds, p, 0) =~= own);
    lemma_sites_grow(primary, key, ds, p, 0, p.len() as int);
    assert forall|k: int| 0 <= k < own.len() implies http::site_paired(
        #[trigger] own[k],
        ds[p[0 + k].0],
        p[0 + k].1,
    ) by {
        assert(own[k] == whole[k]);
        assert(http::site_paired(whole[k], ds[p[k].0], p[k].1));
    }
    lemma_paired_sites(own, ds, p, 0);
    assert(p.take(0) =~= Seq::<(int, Seq<u8>)>::empty());
    lemma_matched_walk(primary, key, ds, p, 0, aud, op);
}

} // verus!
