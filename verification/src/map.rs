//! A map from names to values that lists its names in ascending order.

use crate::text;
use vstd::prelude::*;

verus! {

/// A map from strings, kept as entries in ascending order of name.
#[derive(Debug)]
pub struct NameMap<V> {
    entries: Vec<(String, V)>,
}

/// The names of a list of entries.
pub closed spec fn names_of<V>(entries: Seq<(String, V)>) -> Seq<Seq<char>> {
    Seq::new(entries.len(), |i: int| entries[i].0@)
}

/// `list` holds the names of a set, in ascending order.
pub open spec fn is_listing(dom: Set<Seq<char>>, list: Seq<Seq<char>>) -> bool {
    &&& text::ascending(list)
    &&& forall|x: Seq<char>|
        #![trigger list.contains(x)]
        #![trigger dom.contains(x)]
        list.contains(x) <==> dom.contains(x)
}

/// The names of a set, in ascending order.
pub open spec fn listing(dom: Set<Seq<char>>) -> Seq<Seq<char>> {
    choose|list: Seq<Seq<char>>| is_listing(dom, list)
}

/// There is one ascending order.
pub proof fn lemma_listing(dom: Set<Seq<char>>, list: Seq<Seq<char>>)
    requires
        is_listing(dom, list),
    ensures
        listing(dom) == list,
{
    let l = listing(dom);
    assert(is_listing(dom, l));
    assert forall|x: Seq<char>| l.contains(x) <==> list.contains(x) by {
        assert(l.contains(x) <==> dom.contains(x));
    }
    text::lemma_ascending_unique(l, list);
}

/// The place of `key` in an ascending list.
proof fn lemma_place(list: Seq<Seq<char>>, key: Seq<char>) -> (i: int)
    requires
        text::ascending(list),
        !list.contains(key),
    ensures
        0 <= i <= list.len(),
        forall|j: int| 0 <= j < i ==> text::precedes(#[trigger] list[j], key),
        i < list.len() ==> text::precedes(key, list[i]),
    decreases list.len(),
{
    if list.len() == 0 {
        0
    } else {
        let init = list.drop_last();
        let last = list.last();
        assert(list.contains(last));
        assert(!init.contains(key)) by {
            if init.contains(key) {
                let j = choose|j: int| 0 <= j < init.len() && init[j] == key;
                assert(list[j] == key);
            }
        }
        assert(text::ascending(init)) by {
            assert forall|a: int, b: int| 0 <= a < b < init.len() implies text::precedes(
                #[trigger] init[a],
                #[trigger] init[b],
            ) by {
                assert(text::precedes(list[a], list[b]));
            }
        }
        let k = lemma_place(init, key);
        text::lemma_precedes_total(last, key);
        if text::precedes(last, key) {
            assert forall|j: int| 0 <= j < list.len() implies text::precedes(
                #[trigger] list[j],
                key,
            ) by {
                if j < list.len() - 1 {
                    assert(text::precedes(list[j], list[list.len() - 1]));
                    text::lemma_precedes_transitive(list[j], last, key);
                }
            }
            list.len() as int
        } else {
            assert forall|j: int| 0 <= j < k implies text::precedes(#[trigger] list[j], key) by {
                assert(init[j] == list[j]);
            }
            k
        }
    }
}

/// A finite set of names has an ascending order.
pub proof fn lemma_listing_exists(dom: Set<Seq<char>>)
    requires
        dom.finite(),
    ensures
        is_listing(dom, listing(dom)),
    decreases dom.len(),
{
    if dom.len() == 0 {
        assert(dom =~= Set::empty());
        assert(is_listing(dom, Seq::empty()));
    } else {
        let key = dom.choose();
        let rest = dom.remove(key);
        lemma_listing_exists(rest);
        let list = listing(rest);
        assert(!list.contains(key)) by {
            assert(list.contains(key) <==> rest.contains(key));
        }
        let i = lemma_place(list, key);
        lemma_insert_ascending(list, i, key);
        let full = list.insert(i, key);
        assert forall|x: Seq<char>|
            #![trigger full.contains(x)]
            #![trigger dom.contains(x)]
            full.contains(x) <==> dom.contains(x) by {
            assert(list.contains(x) <==> rest.contains(x));
            if full.contains(x) {
                let j = choose|j: int| 0 <= j < full.len() && full[j] == x;
                if j < i {
                    assert(list[j] == x);
                } else if j > i {
                    assert(list[j - 1] == x);
                }
            }
            if dom.contains(x) {
                if x == key {
                    assert(full[i] == x);
                } else {
                    let j = choose|j: int| 0 <= j < list.len() && list[j] == x;
                    if j < i {
                        assert(full[j] == x);
                    } else {
                        assert(full[j + 1] == x);
                    }
                }
            }
        }
        assert(is_listing(dom, full));
    }
}

impl<V> NameMap<V> {
    #[verifier::type_invariant]
    spec fn is_sorted(self) -> bool {
        text::ascending(names_of(self.entries@))
    }

    /// The names, in ascending order.
    pub closed spec fn names(self) -> Seq<Seq<char>> {
        names_of(self.entries@)
    }

    /// The map from names to values.
    pub closed spec fn map(self) -> Map<Seq<char>, V> {
        Map::new(
            |k: Seq<char>| names_of(self.entries@).contains(k),
            |k: Seq<char>| self.entries@[names_of(self.entries@).index_of(k)].1,
        )
    }

    /// The order and the map hold the same names.
    pub open spec fn lists(self) -> bool {
        &&& text::ascending(self.names())
        &&& forall|k: Seq<char>| #[trigger] self.names().contains(k) <==> self.map().contains_key(k)
        &&& forall|i: int|
            0 <= i < self.names().len() ==> self.map().contains_key(#[trigger] self.names()[i])
    }

    /// The order is the ascending one of the map's names.
    pub proof fn lemma_names(self)
        requires
            self.lists(),
        ensures
            self.names() == listing(self.map().dom()),
    {
        lemma_listing(self.map().dom(), self.names());
    }

    /// The empty map.
    pub fn new() -> (r: Self)
        ensures
            r.map() == Map::<Seq<char>, V>::empty(),
            r.names().len() == 0,
    {
        let r = NameMap { entries: Vec::new() };
        assert(r.map() =~= Map::<Seq<char>, V>::empty());
        r
    }

    /// The number of names.
    pub fn len(&self) -> (r: usize)
        ensures
            r == self.names().len(),
            self.lists(),
    {
        proof {
            use_type_invariant(self);
            assert forall|i: int| 0 <= i < self.names().len() implies self.map().contains_key(
                #[trigger] self.names()[i],
            ) by {
                assert(self.names().contains(self.names()[i]));
            }
        }
        self.entries.len()
    }

    /// The name at a position in the order.
    pub fn name_at(&self, i: usize) -> (r: &str)
        requires
            i < self.names().len(),
        ensures
            r@ == self.names()[i as int],
    {
        self.entries[i].0.as_str()
    }

    /// The value at a position in the order.
    pub fn value_at(&self, i: usize) -> (r: &V)
        requires
            i < self.names().len(),
        ensures
            self.map().contains_key(self.names()[i as int]),
            *r == self.map()[self.names()[i as int]],
    {
        proof {
            use_type_invariant(self);
            let n = self.names()[i as int];
            assert(names_of(self.entries@).contains(n));
            lemma_index(names_of(self.entries@), i as int);
        }
        &self.entries[i].1
    }

    /// The value under `name`.
    pub fn get(&self, name: &str) -> (r: Option<&V>)
        ensures
            match r {
                Some(v) => self.map().contains_key(name@) && *v == self.map()[name@],
                None => !self.map().contains_key(name@),
            },
    {
        proof {
            use_type_invariant(self);
        }
        let ghost ns = names_of(self.entries@);
        let mut i: usize = 0;
        while i < self.entries.len()
            invariant
                i <= self.entries@.len(),
                ns == names_of(self.entries@),
                text::ascending(ns),
                forall|j: int| 0 <= j < i ==> ns[j] != name@,
            decreases self.entries@.len() - i,
        {
            if text::same(self.entries[i].0.as_str(), name) {
                proof {
                    assert(ns[i as int] == name@);
                    assert(ns.contains(name@));
                    lemma_index(ns, i as int);
                }
                return Some(&self.entries[i].1);
            }
            i = i + 1;
        }
        None
    }

    /// Whether there is a value under `name`.
    pub fn contains_key(&self, name: &str) -> (r: bool)
        ensures
            r == self.map().contains_key(name@),
    {
        self.get(name).is_some()
    }

    /// Puts `value` under `name`, in the place of what was there.
    pub fn insert(&mut self, name: String, value: V) -> (r: Option<V>)
        ensures
            final(self).map() == old(self).map().insert(name@, value),
            match r {
                Some(v) => old(self).map().contains_key(name@) && v == old(self).map()[name@],
                None => !old(self).map().contains_key(name@),
            },
    {
        proof {
            use_type_invariant(&*self);
        }
        let mut entries: Vec<(String, V)> = Vec::new();
        std::mem::swap(&mut entries, &mut self.entries);
        let ghost before = entries@;
        let ghost ns = names_of(before);
        let ghost key = name@;
        let ghost old_map = old(self).map();
        let mut i: usize = 0;
        while i < entries.len() && text::before(entries[i].0.as_str(), name.as_str())
            invariant
                i <= entries@.len(),
                ns == names_of(entries@),
                forall|j: int| 0 <= j < i ==> text::precedes(#[trigger] ns[j], name@),
            decreases entries@.len() - i,
        {
            assert(ns[i as int] == entries@[i as int].0@);
            i = i + 1;
        }
        if i < entries.len() && text::same(entries[i].0.as_str(), name.as_str()) {
            assert(ns[i as int] == key);
            let last = entries.remove(i);
            entries.insert(i, (last.0, value));
            proof {
                assert(names_of(entries@) =~= ns);
                lemma_index(ns, i as int);
                lemma_replaced(before, entries@, i as int, key, value);
            }
            *self = NameMap { entries };
            proof {
                assert(self.map() =~= old_map.insert(key, value));
            }
            return Some(last.1);
        }
        proof {
            if i < before.len() {
                assert(ns[i as int] == before[i as int].0@);
                text::lemma_precedes_total(ns[i as int], key);
            }
        }
        entries.insert(i, (name, value));
        proof {
            assert(names_of(entries@) =~= ns.insert(i as int, key));
            lemma_insert_ascending(ns, i as int, key);
            lemma_inserted(before, entries@, i as int, key, value);
        }
        *self = NameMap { entries };
        proof {
            assert(self.map() =~= old_map.insert(key, value));
        }
        None
    }
}

/// In an ascending list each entry is at its own index.
proof fn lemma_index(ns: Seq<Seq<char>>, i: int)
    requires
        text::ascending(ns),
        0 <= i < ns.len(),
    ensures
        ns.index_of(ns[i]) == i,
{
    let j = ns.index_of(ns[i]);
    assert(ns.contains(ns[i]));
    assert(0 <= j < ns.len() && ns[j] == ns[i]);
    if j < i {
        text::lemma_precedes_irreflexive(ns[i]);
        assert(text::precedes(ns[j], ns[i]));
    } else if i < j {
        text::lemma_precedes_irreflexive(ns[i]);
        assert(text::precedes(ns[i], ns[j]));
    }
}

/// Inserting between what stands before and what stands after keeps a
/// list ascending.
proof fn lemma_insert_ascending(ns: Seq<Seq<char>>, i: int, key: Seq<char>)
    requires
        text::ascending(ns),
        0 <= i <= ns.len(),
        forall|j: int| 0 <= j < i ==> text::precedes(#[trigger] ns[j], key),
        i < ns.len() ==> text::precedes(key, ns[i]),
    ensures
        text::ascending(ns.insert(i, key)),
        !ns.contains(key),
{
    let t = ns.insert(i, key);
    assert forall|a: int, b: int| 0 <= a < b < t.len() implies text::precedes(
        #[trigger] t[a],
        #[trigger] t[b],
    ) by {
        if a == i {
            assert(t[b] == ns[b - 1]);
            if b - 1 > i {
                assert(text::precedes(ns[i], ns[b - 1]));
                text::lemma_precedes_transitive(key, ns[i], ns[b - 1]);
            }
        } else if b == i {
            assert(t[a] == ns[a]);
        } else if b < i {
            assert(text::precedes(ns[a], ns[b]));
        } else if a < i {
            assert(text::precedes(ns[a], ns[b - 1]));
        } else {
            assert(text::precedes(ns[a - 1], ns[b - 1]));
        }
    }
    if ns.contains(key) {
        let k = choose|k: int| 0 <= k < ns.len() && ns[k] == key;
        text::lemma_precedes_irreflexive(key);
        if k < i {
            assert(text::precedes(ns[k], key));
        } else if k == i {
            assert(text::precedes(key, ns[i]));
        } else {
            assert(text::precedes(ns[i], ns[k]));
            text::lemma_precedes_transitive(key, ns[i], ns[k]);
        }
    }
}

/// The map after an entry was put in.
proof fn lemma_inserted<V>(
    before: Seq<(String, V)>,
    after: Seq<(String, V)>,
    i: int,
    key: Seq<char>,
    value: V,
)
    requires
        0 <= i <= before.len(),
        after.len() == before.len() + 1,
        after[i].0@ == key,
        after[i].1 == value,
        forall|j: int| 0 <= j < i ==> after[j] == before[j],
        forall|j: int| i <= j < before.len() ==> after[j + 1] == before[j],
        text::ascending(names_of(before)),
        text::ascending(names_of(after)),
        !names_of(before).contains(key),
    ensures
        forall|k: Seq<char>|
            names_of(after).contains(k) <==> names_of(before).contains(k) || k == key,
        after[names_of(after).index_of(key)].1 == value,
        forall|k: Seq<char>| #[trigger]
            names_of(before).contains(k) ==> after[names_of(after).index_of(k)].1
                == before[names_of(before).index_of(k)].1,
{
    let a = names_of(after);
    let b = names_of(before);
    assert(a[i] == key);
    assert(a.contains(key));
    lemma_index(a, i);
    assert forall|k: Seq<char>| a.contains(k) <==> b.contains(k) || k == key by {
        if a.contains(k) && k != key {
            let j = choose|j: int| 0 <= j < a.len() && a[j] == k;
            if j < i {
                assert(b[j] == k);
            } else {
                assert(after[(j - 1) + 1] == before[j - 1]);
                assert(b[j - 1] == k);
            }
        }
        if b.contains(k) {
            let j = choose|j: int| 0 <= j < b.len() && b[j] == k;
            if j < i {
                assert(a[j] == k);
            } else {
                assert(after[j + 1] == before[j]);
                assert(a[j + 1] == k);
            }
        }
    }
    assert forall|k: Seq<char>| #[trigger] b.contains(k) implies after[a.index_of(k)].1
        == before[b.index_of(k)].1 by {
        let j = choose|j: int| 0 <= j < b.len() && b[j] == k;
        lemma_index(b, j);
        if j < i {
            assert(a[j] == k);
            lemma_index(a, j);
        } else {
            assert(after[j + 1] == before[j]);
            assert(a[j + 1] == k);
            lemma_index(a, j + 1);
        }
    }
}

/// The map after the value of an entry was replaced.
proof fn lemma_replaced<V>(
    before: Seq<(String, V)>,
    after: Seq<(String, V)>,
    i: int,
    key: Seq<char>,
    value: V,
)
    requires
        0 <= i < before.len(),
        after.len() == before.len(),
        names_of(after) == names_of(before),
        names_of(before)[i] == key,
        after[i].1 == value,
        forall|j: int| 0 <= j < before.len() && j != i ==> after[j] == before[j],
        text::ascending(names_of(before)),
    ensures
        after[names_of(after).index_of(key)].1 == value,
        names_of(before).contains(key),
        forall|k: Seq<char>|
            #[trigger] names_of(before).contains(k) && k != key ==> after[names_of(after).index_of(
                k,
            )].1 == before[names_of(before).index_of(k)].1,
{
    let b = names_of(before);
    lemma_index(b, i);
    assert(b[i] == key);
    assert forall|k: Seq<char>| #[trigger] b.contains(k) && k != key implies after[b.index_of(k)].1
        == before[b.index_of(k)].1 by {
        let j = choose|j: int| 0 <= j < b.len() && b[j] == k;
        lemma_index(b, j);
    }
}

impl NameMap<String> {
    /// The map with its values as character sequences.
    pub open spec fn texts(self) -> Map<Seq<char>, Seq<char>> {
        self.map().map_values(|v: String| v@)
    }

    /// The string under `name`.
    pub fn text(&self, name: &str) -> (r: Option<&str>)
        ensures
            match r {
                Some(v) => self.texts().contains_key(name@) && v@ == self.texts()[name@],
                None => !self.texts().contains_key(name@),
            },
    {
        match self.get(name) {
            Some(v) => Some(v.as_str()),
            None => None,
        }
    }

    /// A copy of the map.
    pub fn copy(&self) -> (r: NameMap<String>)
        ensures
            r.texts() == self.texts(),
            r.names() == self.names(),
    {
        proof {
            use_type_invariant(self);
        }
        let mut entries: Vec<(String, String)> = Vec::new();
        let mut i: usize = 0;
        while i < self.entries.len()
            invariant
                i <= self.entries@.len(),
                entries@.len() == i,
                forall|j: int|
                    0 <= j < i ==> (#[trigger] entries@[j]).0@ == self.entries@[j].0@
                        && entries@[j].1@ == self.entries@[j].1@,
            decreases self.entries@.len() - i,
        {
            entries.push((self.entries[i].0.clone(), self.entries[i].1.clone()));
            i = i + 1;
        }
        assert(names_of(entries@) =~= names_of(self.entries@));
        let r = NameMap { entries };
        proof {
            let ns = names_of(self.entries@);
            assert(r.texts() =~= self.texts()) by {
                assert forall|k: Seq<char>| ns.contains(k) implies r.map()[k]@
                    == self.map()[k]@ by {
                    let j = ns.index_of(k);
                    assert(0 <= j < ns.len());
                    assert(r.entries@[j].1@ == self.entries@[j].1@);
                }
            }
        }
        r
    }
}

} // verus!
