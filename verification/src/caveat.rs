//! Caveats: first-party scalar and third-party, and what a chain of them
//! means.
//!
//! A first-party caveat is a `(name, value)` pair, and every one is
//! scalar. A third-party caveat carries `(location, vid, cid)`; it has no
//! name and takes no part in name-based resolution.

use crate::text;
use crate::text::{owned, parse_u64, same};
use vstd::prelude::*;

pub mod name;
pub mod op;
pub mod scope;

verus! {

/// One step in a macaroon's caveat chain.
#[derive(Debug, PartialEq, Eq)]
pub enum Caveat {
    /// `(name, value)` scalar caveat.
    FirstParty { name: String, value: String },
    /// Requires a discharge MAC'd under the key recoverable from `vid`,
    /// and from `cid` by the authority at `location`.
    ThirdParty { location: String, vid: Vec<u8>, cid: Vec<u8> },
}

/// A caveat as a mathematical value.
pub enum CaveatView {
    FirstParty { name: Seq<char>, value: Seq<char> },
    ThirdParty { location: Seq<char>, vid: Seq<u8>, cid: Seq<u8> },
}

impl View for Caveat {
    type V = CaveatView;

    open spec fn view(&self) -> CaveatView {
        match self {
            Caveat::FirstParty { name, value } => CaveatView::FirstParty {
                name: name@,
                value: value@,
            },
            Caveat::ThirdParty { location, vid, cid } => CaveatView::ThirdParty {
                location: location@,
                vid: vid@,
                cid: cid@,
            },
        }
    }
}

/// A caveat chain as a mathematical value.
pub open spec fn chain(c: Seq<Caveat>) -> Seq<CaveatView> {
    Seq::new(c.len(), |i: int| c[i]@)
}

/// The scalar caveat `name = value`.
pub open spec fn scalar(name: Seq<char>, value: Seq<char>) -> CaveatView {
    CaveatView::FirstParty { name, value }
}

impl Caveat {
    /// A first-party scalar caveat.
    pub fn scalar(name: &str, value: &str) -> (c: Caveat)
        ensures
            c@ == scalar(name@, value@),
    {
        Caveat::FirstParty { name: owned(name), value: owned(value) }
    }

    /// A third-party caveat.
    pub fn third_party(location: &str, vid: Vec<u8>, cid: Vec<u8>) -> (c: Caveat)
        ensures
            c@ == (CaveatView::ThirdParty { location: location@, vid: vid@, cid: cid@ }),
    {
        Caveat::ThirdParty { location: owned(location), vid, cid }
    }

    /// First-party name, or `None` for a third-party caveat.
    pub fn first_party_name(&self) -> (r: Option<&str>)
        ensures
            match self@ {
                CaveatView::FirstParty { name, .. } => r is Some && r->0@ == name,
                CaveatView::ThirdParty { .. } => r is None,
            },
    {
        match self {
            Caveat::FirstParty { name, .. } => Some(name.as_str()),
            Caveat::ThirdParty { .. } => None,
        }
    }

    /// First-party value, or `None` for a third-party caveat.
    pub fn first_party_value(&self) -> (r: Option<&str>)
        ensures
            match self@ {
                CaveatView::FirstParty { value, .. } => r is Some && r->0@ == value,
                CaveatView::ThirdParty { .. } => r is None,
            },
    {
        match self {
            Caveat::FirstParty { value, .. } => Some(value.as_str()),
            Caveat::ThirdParty { .. } => None,
        }
    }
}

impl Clone for Caveat {
    fn clone(&self) -> (r: Caveat)
        ensures
            r@ == self@,
    {
        match self {
            Caveat::FirstParty { name, value } => Caveat::FirstParty {
                name: name.clone(),
                value: value.clone(),
            },
            Caveat::ThirdParty { location, vid, cid } => Caveat::ThirdParty {
                location: location.clone(),
                vid: vid.clone(),
                cid: cid.clone(),
            },
        }
    }
}

/// The resolution of one caveat name against a chain under AND semantics.
/// A macaroon attenuates by appending, so the occurrences of a name are
/// AND-ed. "Absent" and "present but unsatisfiable" are kept apart: a gate
/// keyed on the former must not skip for the latter.
#[derive(Debug, PartialEq, Eq)]
pub enum Resolved {
    /// No occurrence of this name: unconstrained.
    Absent,
    /// Every occurrence agreed on this value.
    Value(String),
    /// At least two occurrences disagree: the AND is empty.
    Unsatisfiable,
}

/// A resolution as a mathematical value.
pub enum ResolvedView {
    Absent,
    Value(Seq<char>),
    Unsatisfiable,
}

impl View for Resolved {
    type V = ResolvedView;

    open spec fn view(&self) -> ResolvedView {
        match self {
            Resolved::Absent => ResolvedView::Absent,
            Resolved::Value(v) => ResolvedView::Value(v@),
            Resolved::Unsatisfiable => ResolvedView::Unsatisfiable,
        }
    }
}

/// The value that `c` gives to `name`, if it is a first-party caveat of
/// that name.
pub open spec fn value_for(c: CaveatView, name: Seq<char>) -> Option<Seq<char>> {
    match c {
        CaveatView::FirstParty { name: n, value } if n == name => Some(value),
        _ => None,
    }
}

/// The values of the occurrences of `name`, in chain order.
pub open spec fn values_of(c: Seq<CaveatView>, name: Seq<char>) -> Seq<Seq<char>>
    decreases c.len(),
{
    if c.len() == 0 {
        Seq::empty()
    } else {
        match value_for(c.last(), name) {
            Some(v) => values_of(c.drop_last(), name).push(v),
            None => values_of(c.drop_last(), name),
        }
    }
}

/// All entries of `vs` are equal.
pub open spec fn all_agree(vs: Seq<Seq<char>>) -> bool {
    forall|i: int, j: int| 0 <= i < vs.len() && 0 <= j < vs.len() ==> #[trigger] vs[i]
        == #[trigger] vs[j]
}

/// What `name` resolves to in a chain.
pub open spec fn resolved(c: Seq<CaveatView>, name: Seq<char>) -> ResolvedView {
    let vs = values_of(c, name);
    if vs.len() == 0 {
        ResolvedView::Absent
    } else if all_agree(vs) {
        ResolvedView::Value(vs[0])
    } else {
        ResolvedView::Unsatisfiable
    }
}

/// The first-party caveats of a chain, in chain order.
pub open spec fn first_parties(c: Seq<CaveatView>) -> Seq<CaveatView> {
    c.filter(|x: CaveatView| x is FirstParty)
}

/// Only first-party caveats are kept.
pub proof fn lemma_first_parties(c: Seq<CaveatView>)
    ensures
        forall|i: int|
            0 <= i < first_parties(c).len() ==> (#[trigger] first_parties(c)[i]) is FirstParty,
{
    let keep = |x: CaveatView| x is FirstParty;
    assert forall|i: int| 0 <= i < first_parties(c).len() implies (#[trigger] first_parties(
        c,
    )[i]) is FirstParty by {
        c.lemma_filter_pred(keep, i);
    }
}

/// Appends copies of the first-party caveats among `caveats` to `v`.
pub(crate) fn append_first_parties(v: &mut Vec<Caveat>, caveats: &[Caveat])
    ensures
        chain(final(v)@) == chain(old(v)@) + first_parties(chain(caveats@)),
{
    let ghost start = chain(v@);
    let ghost all = chain(caveats@);
    let mut i: usize = 0;
    proof {
        reveal(Seq::filter);
        assert(all.take(0) =~= Seq::<CaveatView>::empty());
        assert(chain(v@) =~= start + first_parties(all.take(0)));
    }
    while i < caveats.len()
        invariant
            i <= caveats@.len(),
            all == chain(caveats@),
            chain(v@) == start + first_parties(all.take(i as int)),
        decreases caveats@.len() - i,
    {
        let ghost done = chain(v@);
        proof {
            reveal(Seq::filter);
            assert(all.take(i + 1).drop_last() =~= all.take(i as int));
            assert(all.take(i + 1).last() == caveats@[i as int]@);
        }
        match &caveats[i] {
            Caveat::FirstParty { .. } => {
                v.push(caveats[i].clone());
                proof {
                    assert(chain(v@) =~= done.push(caveats@[i as int]@));
                    assert(chain(v@) =~= start + first_parties(all.take(i + 1)));
                }
            },
            Caveat::ThirdParty { .. } => {},
        }
        i = i + 1;
    }
    assert(all.take(all.len() as int) =~= all);
}

/// The distinct first-party names of a chain, in first-occurrence order.
pub open spec fn names_of(c: Seq<CaveatView>) -> Seq<Seq<char>>
    decreases c.len(),
{
    if c.len() == 0 {
        Seq::empty()
    } else {
        let before = names_of(c.drop_last());
        match c.last() {
            CaveatView::FirstParty { name, .. } if !before.contains(name) => before.push(name),
            _ => before,
        }
    }
}

/// The lesser of two bounds, where there are any.
pub open spec fn tighter(a: Option<u64>, b: Option<u64>) -> Option<u64> {
    match (a, b) {
        (Some(x), Some(y)) => Some(if x <= y {
            x
        } else {
            y
        }),
        (Some(x), None) => Some(x),
        (None, y) => y,
    }
}

/// The bound that one caveat puts on `name`: its value, where that reads
/// as a number.
pub open spec fn bound_for(c: CaveatView, name: Seq<char>) -> Option<u64> {
    match value_for(c, name) {
        Some(v) => text::read_u64(v),
        None => None,
    }
}

/// The minimum over the readable occurrences of `name`.
pub open spec fn bound_of(c: Seq<CaveatView>, name: Seq<char>) -> Option<u64>
    decreases c.len(),
{
    if c.len() == 0 {
        None
    } else {
        tighter(bound_of(c.drop_last(), name), bound_for(c.last(), name))
    }
}

/// The effective view of a caveat chain: the one place where the meaning
/// of a caveat is decided.
pub struct EffectiveCaveats<'a> {
    pub caveats: &'a [Caveat],
}

impl<'a> EffectiveCaveats<'a> {
    /// The effective view of `caveats`.
    pub fn new(caveats: &'a [Caveat]) -> (r: Self)
        ensures
            r.caveats@ == caveats@,
    {
        EffectiveCaveats { caveats }
    }

    /// Resolves `name` against the chain under AND semantics. Third-party
    /// caveats are skipped.
    pub fn resolve(&self, name: &str) -> (r: Resolved)
        ensures
            r@ == resolved(chain(self.caveats@), name@),
    {
        let mut first: Option<String> = None;
        let mut agree: bool = true;
        let mut i: usize = 0;
        while i < self.caveats.len()
            invariant
                i <= self.caveats@.len(),
                ({
                    let vs = values_of(chain(self.caveats@.take(i as int)), name@);
                    &&& first is None ==> vs.len() == 0
                    &&& first is Some ==> vs.len() > 0 && vs[0] == first->0@
                    &&& agree == all_agree(vs)
                }),
            decreases self.caveats@.len() - i,
        {
            let ghost c0 = chain(self.caveats@.take(i as int));
            let ghost c1 = chain(self.caveats@.take(i + 1));
            let ghost vs0 = values_of(c0, name@);
            let ghost vs1 = values_of(c1, name@);
            proof {
                assert(c1.drop_last() =~= c0);
                assert(c1.last() == self.caveats@[i as int]@);
            }
            if let Caveat::FirstParty { name: n, value } = &self.caveats[i] {
                if same(n.as_str(), name) {
                    match &first {
                        None => {
                            first = Some(value.clone());
                            assert(vs1.len() == 1);
                        },
                        Some(f) => {
                            let eq = same(f.as_str(), value.as_str());
                            proof {
                                assert(vs1 =~= vs0.push(value@));
                                if agree && eq {
                                    assert forall|a: int, b: int|
                                        0 <= a < vs1.len() && 0 <= b
                                            < vs1.len() implies #[trigger] vs1[a]
                                        == #[trigger] vs1[b] by {
                                        assert(vs1[a] == vs0[0]);
                                        assert(vs1[b] == vs0[0]);
                                    }
                                }
                                if !agree {
                                    let (a, b) = choose|a: int, b: int|
                                        0 <= a < vs0.len() && 0 <= b < vs0.len() && vs0[a]
                                            != vs0[b];
                                    assert(vs1[a] != vs1[b]);
                                }
                                if !eq {
                                    assert(vs1[0] != vs1[vs1.len() - 1]);
                                }
                            }
                            agree = agree && eq;
                        },
                    }
                }
            }
            i = i + 1;
        }
        assert(self.caveats@.take(self.caveats@.len() as int) =~= self.caveats@);
        match first {
            None => Resolved::Absent,
            Some(f) => if agree {
                Resolved::Value(f)
            } else {
                Resolved::Unsatisfiable
            },
        }
    }

    /// Distinct first-party caveat names in first-occurrence order.
    pub fn names(&self) -> (r: Vec<&'a str>)
        ensures
            r@.len() == names_of(chain(self.caveats@)).len(),
            forall|i: int|
                0 <= i < r@.len() ==> (#[trigger] r@[i])@ == names_of(chain(self.caveats@))[i],
    {
        let mut r: Vec<&'a str> = Vec::new();
        let mut i: usize = 0;
        while i < self.caveats.len()
            invariant
                i <= self.caveats@.len(),
                ({
                    let ns = names_of(chain(self.caveats@.take(i as int)));
                    &&& r@.len() == ns.len()
                    &&& forall|j: int| 0 <= j < r@.len() ==> (#[trigger] r@[j])@ == ns[j]
                }),
            decreases self.caveats@.len() - i,
        {
            let ghost c0 = chain(self.caveats@.take(i as int));
            let ghost c1 = chain(self.caveats@.take(i + 1));
            let ghost ns = names_of(c0);
            proof {
                assert(c1.drop_last() =~= c0);
                assert(c1.last() == self.caveats@[i as int]@);
            }
            if let Caveat::FirstParty { name: n, .. } = &self.caveats[i] {
                let mut seen: bool = false;
                let mut j: usize = 0;
                while j < r.len()
                    invariant
                        j <= r@.len(),
                        r@.len() == ns.len(),
                        forall|k: int| 0 <= k < r@.len() ==> (#[trigger] r@[k])@ == ns[k],
                        seen ==> ns.contains(n@),
                        !seen ==> forall|k: int| 0 <= k < j ==> #[trigger] ns[k] != n@,
                    decreases r@.len() - j,
                {
                    if same(r[j], n.as_str()) {
                        assert(ns[j as int] == n@);
                        seen = true;
                    }
                    j = j + 1;
                }
                if !seen {
                    assert(!ns.contains(n@));
                    r.push(n.as_str());
                }
            }
            i = i + 1;
        }
        assert(self.caveats@.take(self.caveats@.len() as int) =~= self.caveats@);
        r
    }

    /// Minimum value (unix seconds) across all caveats named `name`, or
    /// `None` if the chain carries no readable occurrence. The minimum
    /// binds, which is how the `exp` deadline is cleared.
    pub fn min_bound(&self, name: &str) -> (r: Option<u64>)
        ensures
            r == bound_of(chain(self.caveats@), name@),
    {
        let mut r: Option<u64> = None;
        let mut i: usize = 0;
        while i < self.caveats.len()
            invariant
                i <= self.caveats@.len(),
                r == bound_of(chain(self.caveats@.take(i as int)), name@),
            decreases self.caveats@.len() - i,
        {
            proof {
                let c1 = chain(self.caveats@.take(i + 1));
                assert(c1.drop_last() =~= chain(self.caveats@.take(i as int)));
                assert(c1.last() == self.caveats@[i as int]@);
            }
            if let Caveat::FirstParty { name: n, value } = &self.caveats[i] {
                if same(n.as_str(), name) {
                    if let Some(v) = parse_u64(value.as_str()) {
                        r = match r {
                            Some(m) => Some(
                                if m <= v {
                                    m
                                } else {
                                    v
                                },
                            ),
                            None => Some(v),
                        };
                    }
                }
            }
            i = i + 1;
        }
        assert(self.caveats@.take(self.caveats@.len() as int) =~= self.caveats@);
        r
    }
}

/// `c` occurs in the chain with this name and value.
pub open spec fn occurs(c: Seq<CaveatView>, name: Seq<char>, value: Seq<char>) -> bool {
    exists|i: int| 0 <= i < c.len() && value_for(#[trigger] c[i], name) == Some(value)
}

/// The values of a name are those that occur with it.
pub proof fn lemma_values_occur(c: Seq<CaveatView>, name: Seq<char>)
    ensures
        forall|v: Seq<char>|
            #![trigger values_of(c, name).contains(v)]
            #![trigger occurs(c, name, v)]
            values_of(c, name).contains(v) <==> occurs(c, name, v),
    decreases c.len(),
{
    let vs = values_of(c, name);
    if c.len() > 0 {
        let d = c.drop_last();
        let ws = values_of(d, name);
        lemma_values_occur(d, name);
        assert forall|v: Seq<char>|
            #![trigger vs.contains(v)]
            #![trigger occurs(c, name, v)]
            vs.contains(v) <==> occurs(c, name, v) by {
            if occurs(c, name, v) {
                let i = choose|i: int| 0 <= i < c.len() && value_for(c[i], name) == Some(v);
                if i < d.len() {
                    assert(d[i] == c[i]);
                    assert(occurs(d, name, v));
                    assert(ws.contains(v));
                    let k = choose|k: int| 0 <= k < ws.len() && ws[k] == v;
                    assert(vs[k] == v);
                } else {
                    assert(vs.last() == v);
                }
            }
            if vs.contains(v) {
                let k = choose|k: int| 0 <= k < vs.len() && vs[k] == v;
                if k < ws.len() {
                    assert(ws[k] == v);
                    assert(occurs(d, name, v));
                    let i = choose|i: int| 0 <= i < d.len() && value_for(d[i], name) == Some(v);
                    assert(c[i] == d[i]);
                } else {
                    assert(value_for(c[c.len() - 1], name) == Some(v));
                }
            }
        }
    }
}

/// A name is absent when nothing in the chain carries it, has a value when
/// something does and all that do agree on it, and is unsatisfiable when
/// two occurrences differ. No chain meets two of these.
pub proof fn law_resolution_is_tri_state(c: Seq<CaveatView>, name: Seq<char>)
    ensures
        resolved(c, name) is Absent <==> forall|v: Seq<char>| !occurs(c, name, v),
        forall|v: Seq<char>|
            resolved(c, name) == ResolvedView::Value(v) <==> occurs(c, name, v) && forall|
                w: Seq<char>,
            |
                occurs(c, name, w) ==> w == v,
        resolved(c, name) is Unsatisfiable <==> exists|v: Seq<char>, w: Seq<char>|
            v != w && occurs(c, name, v) && occurs(c, name, w),
{
    let vs = values_of(c, name);
    lemma_values_occur(c, name);
    if vs.len() > 0 {
        assert(vs.contains(vs[0]));
        if all_agree(vs) {
            assert forall|w: Seq<char>| occurs(c, name, w) implies w == vs[0] by {
                assert(vs.contains(w));
                let k = choose|k: int| 0 <= k < vs.len() && vs[k] == w;
                assert(vs[k] == vs[0]);
            }
        } else {
            let (i, j) = choose|i: int, j: int|
                0 <= i < vs.len() && 0 <= j < vs.len() && vs[i] != vs[j];
            assert(vs.contains(vs[i]) && vs.contains(vs[j]));
            assert(occurs(c, name, vs[i]) && occurs(c, name, vs[j]));
        }
    } else {
        assert forall|v: Seq<char>| !occurs(c, name, v) by {
            assert(!vs.contains(v));
        }
    }
}

/// The values of a longer chain are those of its two parts.
pub proof fn lemma_values_append(c: Seq<CaveatView>, d: Seq<CaveatView>, name: Seq<char>)
    ensures
        values_of(c + d, name) == values_of(c, name) + values_of(d, name),
    decreases d.len(),
{
    if d.len() == 0 {
        assert(c + d =~= c);
        assert(values_of(c, name) + values_of(d, name) =~= values_of(c, name));
    } else {
        lemma_values_append(c, d.drop_last(), name);
        assert((c + d).drop_last() =~= c + d.drop_last());
        assert((c + d).last() == d.last());
        assert(values_of(c + d, name) =~= values_of(c, name) + values_of(d, name));
    }
}

/// Appending caveats only narrows: a value that stands after the append
/// stood before it or the name was unconstrained, and what was
/// unsatisfiable stays so.
pub proof fn law_appending_narrows(c: Seq<CaveatView>, d: Seq<CaveatView>, name: Seq<char>)
    ensures
        resolved(c, name) is Unsatisfiable ==> resolved(c + d, name) is Unsatisfiable,
        resolved(c, name) is Value ==> resolved(c + d, name) == resolved(c, name) || resolved(
            c + d,
            name,
        ) is Unsatisfiable,
        resolved(c + d, name) is Absent ==> resolved(c, name) is Absent,
        resolved(c + d, name) is Value ==> resolved(c, name) == resolved(c + d, name) || resolved(
            c,
            name,
        ) is Absent,
{
    lemma_values_append(c, d, name);
    let vs = values_of(c, name);
    let ws = values_of(c + d, name);
    assert forall|i: int| 0 <= i < vs.len() implies ws[i] == vs[i] by {}
    if !all_agree(vs) {
        let (i, j) = choose|i: int, j: int|
            0 <= i < vs.len() && 0 <= j < vs.len() && vs[i] != vs[j];
        assert(ws[i] != ws[j]);
    }
    if all_agree(ws) {
        assert forall|i: int, j: int|
            0 <= i < vs.len() && 0 <= j < vs.len() implies #[trigger] vs[i]
            == #[trigger] vs[j] by {
            assert(ws[i] == ws[j]);
        }
    }
}

/// A third-party caveat anywhere in the chain changes no resolution, no
/// bound and no name.
pub proof fn law_third_party_is_inert(
    c: Seq<CaveatView>,
    t: CaveatView,
    d: Seq<CaveatView>,
    name: Seq<char>,
)
    requires
        t is ThirdParty,
    ensures
        resolved(c.push(t) + d, name) == resolved(c + d, name),
        bound_of(c.push(t) + d, name) == bound_of(c + d, name),
        names_of(c.push(t) + d) == names_of(c + d),
    decreases d.len(),
{
    if d.len() == 0 {
        assert(c.push(t) + d =~= c.push(t));
        assert(c + d =~= c);
        assert(c.push(t).drop_last() =~= c);
    } else {
        law_third_party_is_inert(c, t, d.drop_last(), name);
        assert((c.push(t) + d).drop_last() =~= c.push(t) + d.drop_last());
        assert((c + d).drop_last() =~= c + d.drop_last());
        lemma_values_append(c.push(t), d, name);
        lemma_values_append(c, d, name);
        assert(c.push(t).drop_last() =~= c);
    }
}

/// The bound is the least number among the readable occurrences: it is
/// one of them, and none is less.
pub proof fn law_bound_is_minimum(c: Seq<CaveatView>, name: Seq<char>)
    ensures
        bound_of(c, name) is None <==> forall|i: int|
            0 <= i < c.len() ==> bound_for(#[trigger] c[i], name) is None,
        bound_of(c, name) matches Some(m) ==> (exists|i: int|
            0 <= i < c.len() && bound_for(#[trigger] c[i], name) == Some(m)) && forall|i: int|
            0 <= i < c.len() && bound_for(#[trigger] c[i], name) is Some ==> m <= bound_for(
                c[i],
                name,
            )->0,
    decreases c.len(),
{
    if c.len() > 0 {
        let d = c.drop_last();
        law_bound_is_minimum(d, name);
        let last = c.len() - 1;
        assert(c[last] == c.last());
        assert forall|i: int| 0 <= i < d.len() implies d[i] == c[i] by {}
        if let Some(m) = bound_of(c, name) {
            if bound_for(c.last(), name) == Some(m) {
                assert(bound_for(c[last], name) == Some(m));
            } else {
                let i = choose|i: int| 0 <= i < d.len() && bound_for(d[i], name) == Some(m);
                assert(bound_for(c[i], name) == Some(m));
            }
            assert forall|i: int|
                0 <= i < c.len() && bound_for(#[trigger] c[i], name) is Some implies m
                <= bound_for(c[i], name)->0 by {
                if i < last {
                    assert(bound_for(d[i], name) is Some);
                }
            }
        } else {
            assert forall|i: int| 0 <= i < c.len() implies bound_for(
                #[trigger] c[i],
                name,
            ) is None by {
                if i < last {
                    assert(bound_for(d[i], name) is None);
                }
            }
        }
        if forall|i: int| 0 <= i < c.len() ==> bound_for(#[trigger] c[i], name) is None {
            assert forall|i: int| 0 <= i < d.len() implies bound_for(
                #[trigger] d[i],
                name,
            ) is None by {
                assert(bound_for(c[i], name) is None);
            }
            assert(bound_for(c[last], name) is None);
        }
    }
}

/// Appending caveats never loosens a bound.
pub proof fn law_appending_tightens_bound(
    c: Seq<CaveatView>,
    d: Seq<CaveatView>,
    name: Seq<char>,
)
    ensures
        bound_of(c, name) matches Some(m) ==> bound_of(c + d, name) is Some && bound_of(
            c + d,
            name,
        )->0 <= m,
    decreases d.len(),
{
    if d.len() == 0 {
        assert(c + d =~= c);
    } else {
        law_appending_tightens_bound(c, d.drop_last(), name);
        assert((c + d).drop_last() =~= c + d.drop_last());
    }
}

/// The bound of a longer chain is the tighter of those of its two parts.
pub proof fn lemma_bound_append(c: Seq<CaveatView>, d: Seq<CaveatView>, name: Seq<char>)
    ensures
        bound_of(c + d, name) == tighter(bound_of(c, name), bound_of(d, name)),
    decreases d.len(),
{
    if d.len() == 0 {
        assert(c + d =~= c);
    } else {
        lemma_bound_append(c, d.drop_last(), name);
        assert((c + d).drop_last() =~= c + d.drop_last());
        assert((c + d).last() == d.last());
    }
}

/// Where a name first occurs in a chain; its length where it does not.
pub open spec fn first_place(c: Seq<CaveatView>, n: Seq<char>) -> nat
    decreases c.len(),
{
    if c.len() == 0 {
        0
    } else if first_place(c.drop_last(), n) < c.len() - 1 || value_for(c.last(), n) is Some {
        first_place(c.drop_last(), n)
    } else {
        c.len()
    }
}

/// The first place of a name holds it, and nothing before does.
pub proof fn lemma_first_place(c: Seq<CaveatView>, n: Seq<char>)
    ensures
        first_place(c, n) <= c.len(),
        first_place(c, n) < c.len() ==> value_for(c[first_place(c, n) as int], n) is Some,
        forall|i: int| 0 <= i < first_place(c, n) ==> value_for(#[trigger] c[i], n) is None,
    decreases c.len(),
{
    if c.len() > 0 {
        let d = c.drop_last();
        lemma_first_place(d, n);
        let p = first_place(c, n);
        assert forall|i: int| 0 <= i < p implies value_for(#[trigger] c[i], n) is None by {
            if i < d.len() {
                assert(d[i] == c[i]);
            }
        }
        if p < d.len() {
            assert(d[p as int] == c[p as int]);
        }
    }
}

/// The names of a chain are listed once each, are those that occur, and
/// come in the order of their first occurrence.
pub proof fn law_names_are_distinct(c: Seq<CaveatView>)
    ensures
        names_of(c).no_duplicates(),
        forall|n: Seq<char>|
            names_of(c).contains(n) <==> exists|v: Seq<char>| #[trigger] occurs(c, n, v),
        forall|i: int, j: int|
            0 <= i < j < names_of(c).len() ==> first_place(c, #[trigger] names_of(c)[i])
                < first_place(c, #[trigger] names_of(c)[j]),
    decreases c.len(), 1nat,
{
    let ns = names_of(c);
    if c.len() == 0 {
        assert forall|n: Seq<char>|
            names_of(c).contains(n) <==> exists|v: Seq<char>| #[trigger] occurs(c, n, v) by {}
    } else {
        let d = c.drop_last();
        let ms = names_of(d);
        law_names_are_distinct(d);
        let last = c.len() - 1;
        assert forall|i: int, j: int| 0 <= i < j < ns.len() implies first_place(c, #[trigger] ns[i])
            < first_place(c, #[trigger] ns[j]) by {
            lemma_name_place(c, i);
            lemma_name_place(c, j);
        }
        assert forall|n: Seq<char>|
            ns.contains(n) <==> exists|v: Seq<char>| #[trigger] occurs(c, n, v) by {
            if exists|v: Seq<char>| #[trigger] occurs(c, n, v) {
                let v = choose|v: Seq<char>| #[trigger] occurs(c, n, v);
                let i = choose|i: int| 0 <= i < c.len() && value_for(c[i], n) == Some(v);
                if i < last {
                    assert(d[i] == c[i]);
                    assert(occurs(d, n, v));
                    assert(ms.contains(n));
                }
                if ms.contains(n) {
                    let k = choose|k: int| 0 <= k < ms.len() && ms[k] == n;
                    assert(ns[k] == n);
                } else {
                    assert(ns.last() == n);
                }
            }
            if ns.contains(n) {
                let k = choose|k: int| 0 <= k < ns.len() && ns[k] == n;
                if k < ms.len() {
                    assert(ms[k] == n);
                    assert(ms.contains(n));
                    let v = choose|v: Seq<char>| #[trigger] occurs(d, n, v);
                    let i = choose|i: int| 0 <= i < d.len() && value_for(d[i], n) == Some(v);
                    assert(c[i] == d[i]);
                    assert(occurs(c, n, v));
                } else {
                    let v = c[last]->FirstParty_value;
                    assert(value_for(c[last], n) == Some(v));
                    assert(occurs(c, n, v));
                }
            }
        }
    }
}

/// A name that was listed keeps its place, and a new one has the last.
proof fn lemma_name_place(c: Seq<CaveatView>, i: int)
    requires
        c.len() > 0,
        0 <= i < names_of(c).len(),
    ensures
        ({
            let d = c.drop_last();
            if i < names_of(d).len() {
                names_of(c)[i] == names_of(d)[i] && first_place(c, names_of(c)[i]) == first_place(
                    d,
                    names_of(d)[i],
                ) && first_place(d, names_of(d)[i]) < d.len()
            } else {
                first_place(c, names_of(c)[i]) == d.len()
            }
        }),
    decreases c.len(), 0nat,
{
    let d = c.drop_last();
    let n = names_of(c)[i];
    law_names_are_distinct(d);
    lemma_first_place(d, n);
    if i < names_of(d).len() {
        assert(names_of(d)[i] == n);
        assert(names_of(d).contains(n));
        let v = choose|v: Seq<char>| #[trigger] occurs(d, n, v);
        let k = choose|k: int| 0 <= k < d.len() && value_for(d[k], n) == Some(v);
        assert(first_place(d, n) <= k);
    } else {
        assert(!names_of(d).contains(n));
        if first_place(d, n) < d.len() {
            let k = first_place(d, n) as int;
            assert(occurs(d, n, value_for(d[k], n)->0));
        }
    }
}

} // verus!
