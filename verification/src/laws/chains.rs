//! What a chain of caveats says, read off its caveats.

use crate::caveat;
use crate::caveat::{CaveatView, ResolvedView};
use crate::text;
use vstd::prelude::*;

verus! {

/// The chain holds this first-party caveat.
pub open spec fn holds(c: Seq<CaveatView>, n: Seq<char>, v: Seq<char>) -> bool {
    c.contains(CaveatView::FirstParty { name: n, value: v })
}

/// A name resolves to the one value that the chain holds for it: it is
/// absent where no caveat bears it, and unsatisfiable where two differ.
pub proof fn law_a_name_resolves_to_what_is_held(c: Seq<CaveatView>, n: Seq<char>)
    ensures
        forall|v: Seq<char>|
            caveat::resolved(c, n) == ResolvedView::Value(v) <==> #[trigger] holds(c, n, v)
                && forall|w: Seq<char>| #[trigger] holds(c, n, w) ==> w == v,
        caveat::resolved(c, n) is Absent <==> forall|v: Seq<char>| !#[trigger] holds(c, n, v),
        caveat::resolved(c, n) is Unsatisfiable <==> exists|v: Seq<char>, w: Seq<char>|
            v != w && #[trigger] holds(c, n, v) && #[trigger] holds(c, n, w),
{
    caveat::law_resolution_is_tri_state(c, n);
    assert forall|v: Seq<char>| #[trigger] holds(c, n, v) == caveat::occurs(c, n, v) by {
        if holds(c, n, v) {
            let i = choose|i: int|
                0 <= i < c.len() && c[i] == (CaveatView::FirstParty { name: n, value: v });
            assert(caveat::value_for(c[i], n) == Some(v));
        }
        if caveat::occurs(c, n, v) {
            let i = choose|i: int|
                0 <= i < c.len() && caveat::value_for(#[trigger] c[i], n) == Some(v);
            assert(c[i] == (CaveatView::FirstParty { name: n, value: v }));
        }
    }
    assert forall|v: Seq<char>| #[trigger] caveat::occurs(c, n, v) == holds(c, n, v) by {
        assert(holds(c, n, v) == caveat::occurs(c, n, v));
    }
    if caveat::resolved(c, n) is Unsatisfiable {
        let (v, w) = choose|v: Seq<char>, w: Seq<char>|
            v != w && caveat::occurs(c, n, v) && caveat::occurs(c, n, w);
        assert(holds(c, n, v) && holds(c, n, w));
    }
}

/// A bound is the least number that the chain holds for the name: it holds
/// the bound itself, and nothing that reads as less.
pub proof fn law_a_bound_is_the_least_held(c: Seq<CaveatView>, n: Seq<char>)
    ensures
        caveat::bound_of(c, n) matches Some(m) ==> {
            &&& exists|v: Seq<char>| #[trigger] holds(c, n, v) && text::read_u64(v) == Some(m)
            &&& forall|v: Seq<char>| #[trigger]
                holds(c, n, v) ==> (text::read_u64(v) matches Some(k) ==> m <= k)
        },
        caveat::bound_of(c, n) is None ==> forall|v: Seq<char>| #[trigger]
            holds(c, n, v) ==> text::read_u64(v) is None,
{
    caveat::law_bound_is_minimum(c, n);
    assert forall|v: Seq<char>| #[trigger] holds(c, n, v) implies (match caveat::bound_of(c, n) {
        Some(m) => (text::read_u64(v) matches Some(k) ==> m <= k),
        None => text::read_u64(v) is None,
    }) by {
        let i = choose|i: int|
            0 <= i < c.len() && c[i] == (CaveatView::FirstParty { name: n, value: v });
        assert(caveat::bound_for(c[i], n) == text::read_u64(v));
    }
    if caveat::bound_of(c, n) is Some {
        let m = caveat::bound_of(c, n)->0;
        let i = choose|i: int| 0 <= i < c.len() && caveat::bound_for(#[trigger] c[i], n) == Some(m);
        assert(holds(c, n, c[i]->value));
    }
}

/// A number reads back from its digits, and only a number does: what is
/// read is the digits, behind at most one plus sign, and nothing else.
pub proof fn law_numbers_read_back(n: u64, s: Seq<char>)
    ensures
        text::read_u64(text::digits(n as nat)) == Some(n),
        text::read_u64(s) is Some ==> s.len() > 0 && forall|i: int|
            0 < i < s.len() ==> '0' <= #[trigger] s[i] <= '9',
        text::read_u64(s) is Some ==> ('0' <= s[0] <= '9' || (s[0] == '+' && s.len() > 1)),
{
    text::lemma_read_digits(n);
    if text::read_u64(s) is Some {
        if s[0] == '+' {
            let d = s.drop_first();
            assert forall|i: int| 0 < i < s.len() implies '0' <= #[trigger] s[i] <= '9' by {
                assert(d[i - 1] == s[i]);
                assert(text::is_digit(d[i - 1]));
            }
        } else {
            assert forall|i: int| 0 <= i < s.len() implies '0' <= #[trigger] s[i] <= '9' by {
                assert(text::is_digit(s[i]));
            }
        }
    }
}

/// What a list of caveats of distinct names says: each name resolves to its
/// own value, and no other name to any.
pub proof fn lemma_distinct_names(
    names: Seq<Seq<char>>,
    values: Seq<Seq<char>>,
    c: Seq<CaveatView>,
    n: Seq<char>,
)
    requires
        names.len() == values.len() == c.len(),
        names.no_duplicates(),
        forall|i: int| 0 <= i < c.len() ==> #[trigger] c[i] == caveat::scalar(names[i], values[i]),
    ensures
        forall|i: int|
            0 <= i < names.len() && #[trigger] names[i] == n ==> caveat::resolved(c, n)
                == ResolvedView::Value(values[i]),
        !names.contains(n) ==> caveat::resolved(c, n) is Absent,
{
    assert forall|i: int| 0 <= i < names.len() && #[trigger] names[i] == n implies caveat::resolved(
        c,
        n,
    ) == ResolvedView::Value(values[i]) by {
        assert(c[i] == caveat::scalar(names[i], values[i]));
        assert forall|j: int| 0 <= j < c.len() && j != i implies caveat::value_for(
            #[trigger] c[j],
            n,
        ) is None by {
            assert(names[j] != names[i]);
        }
        crate::http::flow::lemma_only_value(c, n, i, values[i]);
    }
    if !names.contains(n) {
        assert forall|j: int| 0 <= j < c.len() implies caveat::value_for(
            #[trigger] c[j],
            n,
        ) is None by {
            assert(names.contains(names[j]));
        }
        crate::http::flow::lemma_no_value(c, n);
    }
}

} // verus!
