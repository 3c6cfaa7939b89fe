//! Strings as sequences of characters: the searches, splits, trims and
//! numeric readings that the rest of the crate is written with.
//!
//! Every function here is stated over the character sequence of its
//! arguments, so a caller never reasons about byte offsets.

use vstd::prelude::*;

verus! {

/// `String::push`: appends one character.
pub assume_specification[ String::push ](s: &mut String, c: char)
    ensures
        final(s)@ == old(s)@.push(c),
;

/// `String::push_str`: appends a string.
pub assume_specification[ String::push_str ](s: &mut String, t: &str)
    ensures
        final(s)@ == old(s)@ + t@,
;

/// `str == str`: equality of the two character sequences.
pub assume_specification[ <str as PartialEq>::eq ](a: &str, b: &str) -> (r: bool)
    ensures
        r == (a@ == b@),
;

/// The Unicode `White_Space` property.
pub open spec fn is_white_space(c: char) -> bool {
    ||| '\u{9}' <= c <= '\u{d}'
    ||| c == '\u{20}'
    ||| c == '\u{85}'
    ||| c == '\u{a0}'
    ||| c == '\u{1680}'
    ||| '\u{2000}' <= c <= '\u{200a}'
    ||| c == '\u{2028}'
    ||| c == '\u{2029}'
    ||| c == '\u{202f}'
    ||| c == '\u{205f}'
    ||| c == '\u{3000}'
}

/// Whether `c` is white space.
pub fn white_space(c: char) -> (r: bool)
    ensures
        r == is_white_space(c),
{
    ('\u{9}' <= c && c <= '\u{d}') || c == '\u{20}' || c == '\u{85}' || c == '\u{a0}' || c
        == '\u{1680}' || ('\u{2000}' <= c && c <= '\u{200a}') || c == '\u{2028}' || c
        == '\u{2029}' || c == '\u{202f}' || c == '\u{205f}' || c == '\u{3000}'
}

/// Whether any character of `s` is white space.
pub open spec fn has_white_space(s: Seq<char>) -> bool {
    exists|i: int| 0 <= i < s.len() && is_white_space(#[trigger] s[i])
}

/// The characters of `s`.
pub fn chars_of(s: &str) -> (v: Vec<char>)
    ensures
        v@ == s@,
{
    let mut v: Vec<char> = Vec::new();
    for c in it: s.chars()
        invariant
            v@ == it.seq().take(it.index()),
            it.seq() == s@,
    {
        v.push(c);
    }
    assert(s@.take(s@.len() as int) =~= s@);
    v
}

/// The string made of the characters `from..to` of `v`.
pub fn string_of(v: &[char], from: usize, to: usize) -> (s: String)
    requires
        from <= to <= v@.len(),
    ensures
        s@ == v@.subrange(from as int, to as int),
{
    let mut s = String::new();
    let mut i: usize = from;
    while i < to
        invariant
            from <= i <= to <= v@.len(),
            s@ == v@.subrange(from as int, i as int),
        decreases to - i,
    {
        s.push(v[i]);
        i = i + 1;
        assert(v@.subrange(from as int, i as int) =~= v@.subrange(from as int, i - 1).push(
            v@[i - 1],
        ));
    }
    s
}

/// A copy of `s` as an owned string.
pub fn owned(s: &str) -> (r: String)
    ensures
        r@ == s@,
{
    s.to_owned()
}

/// Whether two strings are the same characters.
pub fn same(a: &str, b: &str) -> (r: bool)
    ensures
        r == (a@ == b@),
{
    *a == *b
}

/// Concatenation.
pub fn concat(a: &str, b: &str) -> (r: String)
    ensures
        r@ == a@ + b@,
{
    let mut r = a.to_owned();
    r.push_str(b);
    r
}

/// The position of the first `c` in `s`.
pub open spec fn find_char(s: Seq<char>, c: char) -> Option<int>
    decreases s.len(),
{
    if s.len() == 0 {
        None
    } else if s[0] == c {
        Some(0)
    } else {
        match find_char(s.drop_first(), c) {
            Some(i) => Some(i + 1),
            None => None,
        }
    }
}

/// The position of the first `cc` in `s`.
pub open spec fn find_pair(s: Seq<char>, c: char) -> Option<int>
    decreases s.len(),
{
    if s.len() < 2 {
        None
    } else if s[0] == c && s[1] == c {
        Some(0)
    } else {
        match find_pair(s.drop_first(), c) {
            Some(i) => Some(i + 1),
            None => None,
        }
    }
}

/// `find_char` gives `i` when `i` holds the first `c`, and nothing when
/// `i` is the length and no `c` stands before it.
pub proof fn lemma_find_char(s: Seq<char>, c: char, i: int)
    requires
        0 <= i <= s.len(),
        forall|j: int| 0 <= j < i ==> s[j] != c,
        i < s.len() ==> s[i] == c,
    ensures
        find_char(s, c) == (if i < s.len() {
            Some(i)
        } else {
            None::<int>
        }),
    decreases s.len(),
{
    if s.len() > 0 && i > 0 {
        assert forall|j: int| 0 <= j < i - 1 implies s.drop_first()[j] != c by {
            assert(s.drop_first()[j] == s[j + 1]);
        }
        lemma_find_char(s.drop_first(), c, i - 1);
    }
}

/// What a result of `find_char` says of `s`.
pub proof fn lemma_find_char_is_first(s: Seq<char>, c: char)
    ensures
        match find_char(s, c) {
            Some(i) => 0 <= i < s.len() && s[i] == c && forall|j: int|
                0 <= j < i ==> s[j] != c,
            None => forall|j: int| 0 <= j < s.len() ==> s[j] != c,
        },
    decreases s.len(),
{
    if s.len() > 0 && s[0] != c {
        let t = s.drop_first();
        lemma_find_char_is_first(t, c);
        assert forall|j: int|
            0 <= j < s.len() && (find_char(t, c) matches Some(i) ==> j < i + 1) implies s[j]
            != c by {
            if j > 0 {
                assert(t[j - 1] == s[j]);
            }
        }
    }
}

/// `find_pair` gives `i` when the first `cc` stands at `i`, and nothing
/// when none stands anywhere.
pub proof fn lemma_find_pair(s: Seq<char>, c: char, i: int)
    requires
        0 <= i,
        forall|j: int| 0 <= j < i && j + 1 < s.len() ==> !(s[j] == c && #[trigger] s[j + 1] == c),
        i + 1 < s.len() ==> s[i] == c && s[i + 1] == c,
    ensures
        find_pair(s, c) == (if i + 1 < s.len() {
            Some(i)
        } else {
            None::<int>
        }),
    decreases s.len(),
{
    if s.len() >= 2 && i > 0 {
        let t = s.drop_first();
        assert(!(s[0int] == c && s[0int + 1] == c));
        assert forall|j: int| 0 <= j < i - 1 && j + 1 < t.len() implies !(t[j] == c
            && #[trigger] t[j + 1] == c) by {
            assert(t[j] == s[j + 1]);
            assert(t[j + 1] == s[(j + 1) + 1]);
        }
        lemma_find_pair(t, c, i - 1);
    }
}

/// What a result of `find_pair` says of `s`.
pub proof fn lemma_find_pair_bounds(s: Seq<char>, c: char)
    ensures
        find_pair(s, c) matches Some(i) ==> 0 <= i && i + 1 < s.len() && s[i] == c && s[i + 1]
            == c,
    decreases s.len(),
{
    if s.len() >= 2 && !(s[0] == c && s[1] == c) {
        lemma_find_pair_bounds(s.drop_first(), c);
    }
}

/// The position of the first `c` in `v`.
pub fn find_char_in(v: &[char], c: char) -> (r: Option<usize>)
    ensures
        match r {
            Some(i) => find_char(v@, c) == Some(i as int) && i < v@.len(),
            None => find_char(v@, c) is None,
        },
{
    let mut i: usize = 0;
    while i < v.len()
        invariant
            i <= v@.len(),
            forall|j: int| 0 <= j < i ==> v@[j] != c,
        decreases v@.len() - i,
    {
        if v[i] == c {
            proof {
                lemma_find_char(v@, c, i as int);
            }
            return Some(i);
        }
        i = i + 1;
    }
    proof {
        lemma_find_char(v@, c, v@.len() as int);
    }
    None
}

/// The position of the first `cc` at or after `from` in `v`, counted
/// from `from`.
pub fn find_pair_from(v: &[char], c: char, from: usize) -> (r: Option<usize>)
    requires
        from <= v@.len(),
    ensures
        match r {
            Some(i) => find_pair(v@.skip(from as int), c) == Some(i as int) && from + i + 1
                < v@.len(),
            None => find_pair(v@.skip(from as int), c) is None,
        },
{
    let ghost t = v@.skip(from as int);
    let n: usize = v.len() - from;
    let mut i: usize = 0;
    while i < n
        invariant
            i <= n,
            n == v@.len() - from,
            from + n <= usize::MAX,
            t == v@.skip(from as int),
            forall|j: int|
                0 <= j < i && j + 1 < t.len() ==> !(t[j] == c && #[trigger] t[j + 1] == c),
        decreases n - i,
    {
        if i + 1 < n && v[from + i] == c && v[from + i + 1] == c {
            proof {
                lemma_find_pair(t, c, i as int);
            }
            return Some(i);
        }
        i = i + 1;
    }
    proof {
        lemma_find_pair(t, c, n as int);
    }
    None
}

/// `s` without its leading white space.
pub open spec fn trim_start(s: Seq<char>) -> Seq<char>
    decreases s.len(),
{
    if s.len() > 0 && is_white_space(s[0]) {
        trim_start(s.drop_first())
    } else {
        s
    }
}

/// `s` without its trailing white space.
pub open spec fn trim_end(s: Seq<char>) -> Seq<char>
    decreases s.len(),
{
    if s.len() > 0 && is_white_space(s.last()) {
        trim_end(s.drop_last())
    } else {
        s
    }
}

/// `s` without white space at either end.
pub open spec fn trimmed(s: Seq<char>) -> Seq<char> {
    trim_end(trim_start(s))
}

/// The bounds of `v[from..to]` without white space at either end.
pub fn trim_bounds(v: &[char], from: usize, to: usize) -> (r: (usize, usize))
    requires
        from <= to <= v@.len(),
    ensures
        from <= r.0 <= r.1 <= to,
        v@.subrange(r.0 as int, r.1 as int) == trimmed(v@.subrange(from as int, to as int)),
{
    let ghost s = v@.subrange(from as int, to as int);
    let mut a: usize = from;
    assert(v@.subrange(a as int, to as int) =~= s);
    while a < to && white_space(v[a])
        invariant
            from <= a <= to <= v@.len(),
            trim_start(v@.subrange(a as int, to as int)) == trim_start(s),
        decreases to - a,
    {
        assert(v@.subrange(a as int, to as int).drop_first() =~= v@.subrange(a + 1, to as int));
        a = a + 1;
    }
    let ghost u = v@.subrange(a as int, to as int);
    assert(u == trim_start(s));
    let mut b: usize = to;
    while a < b && white_space(v[b - 1])
        invariant
            from <= a <= b <= to <= v@.len(),
            trim_end(v@.subrange(a as int, b as int)) == trim_end(u),
        decreases b - a,
    {
        assert(v@.subrange(a as int, b as int).drop_last() =~= v@.subrange(a as int, b - 1));
        b = b - 1;
    }
    (a, b)
}

/// Where the trailing white space of `v` begins.
pub fn trim_end_bound(v: &[char]) -> (r: usize)
    ensures
        r <= v@.len(),
        v@.subrange(0, r as int) == trim_end(v@),
{
    let mut b: usize = v.len();
    assert(v@.subrange(0, b as int) =~= v@);
    while 0 < b && white_space(v[b - 1])
        invariant
            b <= v@.len(),
            trim_end(v@.subrange(0, b as int)) == trim_end(v@),
        decreases b,
    {
        assert(v@.subrange(0, b as int).drop_last() =~= v@.subrange(0, b - 1));
        b = b - 1;
    }
    b
}

/// `s` without white space at either end.
pub fn trim(s: &str) -> (r: String)
    ensures
        r@ == trimmed(s@),
{
    let v = chars_of(s);
    let b = trim_bounds(&v, 0, v.len());
    assert(v@.subrange(0, v@.len() as int) =~= v@);
    string_of(&v, b.0, b.1)
}

/// Whether any character of `v[from..to]` is white space.
pub fn any_white_space(v: &[char], from: usize, to: usize) -> (r: bool)
    requires
        from <= to <= v@.len(),
    ensures
        r == has_white_space(v@.subrange(from as int, to as int)),
{
    let ghost s = v@.subrange(from as int, to as int);
    let mut i: usize = from;
    while i < to
        invariant
            from <= i <= to <= v@.len(),
            s == v@.subrange(from as int, to as int),
            forall|j: int| 0 <= j < i - from ==> !is_white_space(s[j]),
        decreases to - i,
    {
        if white_space(v[i]) {
            assert(is_white_space(s[i - from]));
            return true;
        }
        i = i + 1;
    }
    false
}

/// What follows `prefix` in `s`, where `s` begins with it.
pub open spec fn without_prefix(s: Seq<char>, prefix: Seq<char>) -> Option<Seq<char>> {
    if prefix.is_prefix_of(s) {
        Some(s.skip(prefix.len() as int))
    } else {
        None
    }
}

/// What follows `prefix` in `s`, where `s` begins with it.
pub fn strip_prefix(s: &str, prefix: &str) -> (r: Option<String>)
    ensures
        match r {
            Some(t) => without_prefix(s@, prefix@) == Some(t@),
            None => without_prefix(s@, prefix@) is None,
        },
{
    let v = chars_of(s);
    let p = chars_of(prefix);
    if v.len() < p.len() {
        return None;
    }
    let mut i: usize = 0;
    while i < p.len()
        invariant
            i <= p@.len() <= v@.len(),
            v@ == s@,
            p@ == prefix@,
            forall|j: int| 0 <= j < i ==> v@[j] == p@[j],
        decreases p@.len() - i,
    {
        if v[i] != p[i] {
            assert(v@.subrange(0, p@.len() as int)[i as int] != p@[i as int]);
            return None;
        }
        i = i + 1;
    }
    assert(v@.subrange(0, p@.len() as int) =~= p@);
    assert(v@.subrange(p@.len() as int, v@.len() as int) =~= v@.skip(p@.len() as int));
    Some(string_of(&v, p.len(), v.len()))
}

/// `a` stands strictly before `b`, comparing character by character; a
/// proper prefix stands before what it is a prefix of. On UTF-8 strings
/// this is the order of their bytes.
pub open spec fn precedes(a: Seq<char>, b: Seq<char>) -> bool
    decreases a.len(),
{
    if b.len() == 0 {
        false
    } else if a.len() == 0 {
        true
    } else if a[0] != b[0] {
        a[0] < b[0]
    } else {
        precedes(a.drop_first(), b.drop_first())
    }
}

/// Nothing stands before itself.
pub proof fn lemma_precedes_irreflexive(a: Seq<char>)
    ensures
        !precedes(a, a),
    decreases a.len(),
{
    if a.len() > 0 {
        lemma_precedes_irreflexive(a.drop_first());
    }
}

/// The order is transitive.
pub proof fn lemma_precedes_transitive(a: Seq<char>, b: Seq<char>, c: Seq<char>)
    requires
        precedes(a, b),
        precedes(b, c),
    ensures
        precedes(a, c),
    decreases a.len(),
{
    if a.len() > 0 && a[0] == b[0] && b[0] == c[0] {
        lemma_precedes_transitive(a.drop_first(), b.drop_first(), c.drop_first());
    }
}

/// Of two different strings one stands before the other.
pub proof fn lemma_precedes_total(a: Seq<char>, b: Seq<char>)
    ensures
        a == b || precedes(a, b) || precedes(b, a),
    decreases a.len(),
{
    if a.len() == 0 && b.len() == 0 {
        assert(a =~= b);
    } else if a.len() > 0 && b.len() > 0 && a[0] == b[0] {
        lemma_precedes_total(a.drop_first(), b.drop_first());
        if a.drop_first() == b.drop_first() {
            assert(a =~= seq![a[0]] + a.drop_first());
            assert(b =~= seq![b[0]] + b.drop_first());
        }
    }
}

/// Agreeing first characters leave the order to what follows them.
proof fn lemma_precedes_skip(a: Seq<char>, b: Seq<char>, i: int)
    requires
        0 <= i <= a.len(),
        i <= b.len(),
        forall|j: int| 0 <= j < i ==> a[j] == b[j],
    ensures
        precedes(a, b) == precedes(a.skip(i), b.skip(i)),
    decreases i,
{
    if i == 0 {
        assert(a.skip(0) =~= a);
        assert(b.skip(0) =~= b);
    } else {
        let a1 = a.drop_first();
        let b1 = b.drop_first();
        assert(a[0] == b[0]);
        assert forall|j: int| 0 <= j < i - 1 implies a1[j] == b1[j] by {
            assert(a1[j] == a[j + 1]);
            assert(b1[j] == b[j + 1]);
        }
        lemma_precedes_skip(a1, b1, i - 1);
        assert(a1.skip(i - 1) =~= a.skip(i));
        assert(b1.skip(i - 1) =~= b.skip(i));
    }
}

/// Whether `a` stands strictly before `b`.
pub fn before(a: &str, b: &str) -> (r: bool)
    ensures
        r == precedes(a@, b@),
{
    let x = chars_of(a);
    let y = chars_of(b);
    let mut i: usize = 0;
    while i < x.len() && i < y.len()
        invariant
            x@ == a@,
            y@ == b@,
            i <= x@.len(),
            i <= y@.len(),
            forall|j: int| 0 <= j < i ==> x@[j] == y@[j],
        decreases x@.len() - i,
    {
        if x[i] != y[i] {
            proof {
                lemma_precedes_skip(x@, y@, i as int);
                assert(x@.skip(i as int)[0] == x@[i as int]);
                assert(y@.skip(i as int)[0] == y@[i as int]);
            }
            return x[i] < y[i];
        }
        i = i + 1;
    }
    proof {
        lemma_precedes_skip(x@, y@, i as int);
    }
    i < y.len()
}

/// The character sequences of a list of strings.
pub open spec fn texts(v: Seq<String>) -> Seq<Seq<char>> {
    Seq::new(v.len(), |i: int| v[i]@)
}

/// Each entry stands strictly before every later one.
pub open spec fn ascending(s: Seq<Seq<char>>) -> bool {
    forall|i: int, j: int| 0 <= i < j < s.len() ==> precedes(#[trigger] s[i], #[trigger] s[j])
}

/// Two ascending lists of the same strings are the same list.
pub proof fn lemma_ascending_unique(a: Seq<Seq<char>>, b: Seq<Seq<char>>)
    requires
        ascending(a),
        ascending(b),
        forall|x: Seq<char>| a.contains(x) <==> b.contains(x),
    ensures
        a == b,
    decreases a.len() + b.len(),
{
    if a.len() == 0 {
        if b.len() > 0 {
            assert(b.contains(b[0]));
        }
        assert(a =~= b);
    } else if b.len() == 0 {
        assert(a.contains(a[0]));
    } else {
        let x = a.last();
        let y = b.last();
        assert(a.contains(x));
        assert(b.contains(y));
        let i = choose|i: int| 0 <= i < b.len() && b[i] == x;
        let j = choose|j: int| 0 <= j < a.len() && a[j] == y;
        if x != y {
            assert(precedes(x, y));
            assert(precedes(y, x));
            lemma_precedes_transitive(x, y, x);
            lemma_precedes_irreflexive(x);
        }
        let a1 = a.drop_last();
        let b1 = b.drop_last();
        assert forall|z: Seq<char>| a1.contains(z) <==> b1.contains(z) by {
            if a1.contains(z) {
                let k = choose|k: int| 0 <= k < a1.len() && a1[k] == z;
                assert(a[k] == z);
                assert(precedes(a[k], a[a.len() - 1]));
                lemma_precedes_irreflexive(z);
                assert(b.contains(z));
                let m = choose|m: int| 0 <= m < b.len() && b[m] == z;
                assert(b1[m] == z);
            }
            if b1.contains(z) {
                let k = choose|k: int| 0 <= k < b1.len() && b1[k] == z;
                assert(b[k] == z);
                assert(precedes(b[k], b[b.len() - 1]));
                lemma_precedes_irreflexive(z);
                assert(a.contains(z));
                let m = choose|m: int| 0 <= m < a.len() && a[m] == z;
                assert(a1[m] == z);
            }
        }
        lemma_ascending_unique(a1, b1);
        assert(a =~= a1.push(x));
        assert(b =~= b1.push(y));
    }
}

/// Puts `s` into its place in the ascending list `v`, unless it is
/// already there.
fn insert_sorted(v: &mut Vec<String>, s: String)
    requires
        ascending(texts(old(v)@)),
    ensures
        ascending(texts(final(v)@)),
        forall|x: Seq<char>|
            texts(final(v)@).contains(x) <==> texts(old(v)@).contains(x) || x == s@,
{
    let ghost old_t = texts(v@);
    let mut i: usize = 0;
    while i < v.len() && before(v[i].as_str(), s.as_str())
        invariant
            i <= v@.len(),
            forall|j: int| 0 <= j < i ==> precedes(#[trigger] v@[j]@, s@),
        decreases v@.len() - i,
    {
        i = i + 1;
    }
    if i < v.len() && same(v[i].as_str(), s.as_str()) {
        assert(old_t[i as int] == s@);
        return;
    }
    let ghost old_v = v@;
    let ghost sv = s@;
    v.insert(i, s);
    proof {
        let t = texts(v@);
        assert(t =~= old_t.insert(i as int, sv));
        if i < old_v.len() {
            lemma_precedes_total(old_v[i as int]@, sv);
        }
        assert forall|a: int, b: int| 0 <= a < b < t.len() implies precedes(
            #[trigger] t[a],
            #[trigger] t[b],
        ) by {
            if a < i && b == i {
                assert(t[a] == old_v[a]@);
            } else if a == i {
                assert(t[b] == old_t[b - 1]);
                if b - 1 > i {
                    assert(precedes(old_t[i as int], old_t[b - 1]));
                    lemma_precedes_transitive(sv, old_t[i as int], old_t[b - 1]);
                }
            } else if b < i {
                assert(precedes(old_t[a], old_t[b]));
            } else if a < i {
                assert(precedes(old_t[a], old_t[b - 1]));
            } else {
                assert(precedes(old_t[a - 1], old_t[b - 1]));
            }
        }
        assert forall|x: Seq<char>| t.contains(x) <==> old_t.contains(x) || x == sv by {
            if old_t.contains(x) {
                let k = choose|k: int| 0 <= k < old_t.len() && old_t[k] == x;
                if k < i {
                    assert(t[k] == x);
                } else {
                    assert(t[k + 1] == x);
                }
            }
            if t.contains(x) {
                let k = choose|k: int| 0 <= k < t.len() && t[k] == x;
                if k < i {
                    assert(old_t[k] == x);
                } else if k > i {
                    assert(old_t[k - 1] == x);
                }
            }
            assert(t[i as int] == sv);
        }
    }
}

/// The strings of `v`, each once, in ascending order.
pub fn sorted_set(v: &[String]) -> (r: Vec<String>)
    ensures
        ascending(texts(r@)),
        forall|x: Seq<char>| texts(r@).contains(x) <==> texts(v@).contains(x),
{
    let mut r: Vec<String> = Vec::new();
    let mut i: usize = 0;
    while i < v.len()
        invariant
            i <= v@.len(),
            ascending(texts(r@)),
            forall|x: Seq<char>|
                texts(r@).contains(x) <==> texts(v@.take(i as int)).contains(x),
        decreases v@.len() - i,
    {
        let ghost before_r = texts(r@);
        insert_sorted(&mut r, v[i].clone());
        proof {
            let t0 = texts(v@.take(i as int));
            let t1 = texts(v@.take(i + 1));
            assert(t1 =~= t0.push(v@[i as int]@));
            assert forall|x: Seq<char>| t1.contains(x) <==> t0.contains(x) || x
                == v@[i as int]@ by {
                if t0.contains(x) {
                    let k = choose|k: int| 0 <= k < t0.len() && t0[k] == x;
                    assert(t1[k] == x);
                }
                assert(t1[i as int] == v@[i as int]@);
            }
        }
        i = i + 1;
    }
    assert(v@.take(v@.len() as int) =~= v@);
    r
}

/// Whether two lists hold the same strings in the same order.
pub fn same_list(a: &[String], b: &[String]) -> (r: bool)
    ensures
        r == (texts(a@) == texts(b@)),
{
    if a.len() != b.len() {
        assert(texts(a@).len() != texts(b@).len());
        return false;
    }
    let mut i: usize = 0;
    while i < a.len()
        invariant
            i <= a@.len() == b@.len(),
            forall|j: int| 0 <= j < i ==> a@[j]@ == b@[j]@,
        decreases a@.len() - i,
    {
        if !same(a[i].as_str(), b[i].as_str()) {
            assert(texts(a@)[i as int] != texts(b@)[i as int]);
            return false;
        }
        i = i + 1;
    }
    assert(texts(a@) =~= texts(b@));
    true
}

/// A copy of a list of strings.
pub fn copy_list(v: &[String]) -> (r: Vec<String>)
    ensures
        texts(r@) == texts(v@),
{
    let mut r: Vec<String> = Vec::new();
    let mut i: usize = 0;
    while i < v.len()
        invariant
            i <= v@.len(),
            texts(r@) == texts(v@.take(i as int)),
        decreases v@.len() - i,
    {
        let ghost done = texts(r@);
        r.push(v[i].clone());
        assert(texts(r@) =~= done.push(v@[i as int]@));
        assert(texts(v@.take(i + 1)) =~= texts(v@.take(i as int)).push(v@[i as int]@));
        i = i + 1;
    }
    assert(v@.take(v@.len() as int) =~= v@);
    r
}

/// Whether `s` is one of the strings of `v`.
pub fn list_has(v: &[String], s: &str) -> (r: bool)
    ensures
        r == texts(v@).contains(s@),
{
    let mut i: usize = 0;
    while i < v.len()
        invariant
            i <= v@.len(),
            forall|j: int| 0 <= j < i ==> v@[j]@ != s@,
        decreases v@.len() - i,
    {
        if same(v[i].as_str(), s) {
            assert(texts(v@)[i as int] == s@);
            return true;
        }
        i = i + 1;
    }
    false
}

/// A decimal digit.
pub open spec fn is_digit(c: char) -> bool {
    '0' <= c <= '9'
}

/// One or more decimal digits.
pub open spec fn all_digits(s: Seq<char>) -> bool {
    s.len() > 0 && forall|i: int| 0 <= i < s.len() ==> is_digit(#[trigger] s[i])
}

/// The number that the decimal digits `s` write.
pub open spec fn decimal(s: Seq<char>) -> nat
    decreases s.len(),
{
    if s.len() == 0 {
        0
    } else {
        decimal(s.drop_last()) * 10 + (s.last() as nat - '0' as nat) as nat
    }
}

/// `s` read as a `u64`: decimal digits behind at most one `+`, and
/// nothing where the number does not fit.
pub open spec fn read_u64(s: Seq<char>) -> Option<u64> {
    let d = if s.len() > 0 && s[0] == '+' {
        s.drop_first()
    } else {
        s
    };
    if all_digits(d) && decimal(d) <= u64::MAX {
        Some(decimal(d) as u64)
    } else {
        None
    }
}

/// A longer run of digits writes no smaller number.
proof fn lemma_decimal_grows(s: Seq<char>, n: int)
    requires
        0 <= n <= s.len(),
        forall|i: int| 0 <= i < s.len() ==> is_digit(#[trigger] s[i]),
    ensures
        decimal(s.take(n)) <= decimal(s),
    decreases s.len() - n,
{
    if n == s.len() {
        assert(s.take(n) =~= s);
    } else {
        lemma_decimal_grows(s, n + 1);
        assert(s.take(n + 1).drop_last() =~= s.take(n));
    }
}

/// `s` read as a `u64`.
pub fn parse_u64(s: &str) -> (r: Option<u64>)
    ensures
        r == read_u64(s@),
{
    let v = chars_of(s);
    let start: usize = if v.len() > 0 && v[0] == '+' {
        1
    } else {
        0
    };
    let ghost d = v@.skip(start as int);
    proof {
        if start == 1 {
            assert(d =~= v@.drop_first());
        } else {
            assert(d =~= v@);
        }
    }
    if start == v.len() {
        return None;
    }
    let mut i: usize = start;
    let mut n: u64 = 0;
    assert(d.take(0) =~= Seq::<char>::empty());
    while i < v.len()
        invariant
            start <= i <= v@.len(),
            d == v@.skip(start as int),
            forall|j: int| 0 <= j < i - start ==> is_digit(#[trigger] d[j]),
            n == decimal(d.take(i - start)),
            d.len() > 0,
            read_u64(s@) == (if all_digits(d) && decimal(d) <= u64::MAX {
                Some(decimal(d) as u64)
            } else {
                None::<u64>
            }),
        decreases v@.len() - i,
    {
        let c = v[i];
        assert(d[i - start] == c);
        if !('0' <= c && c <= '9') {
            assert(!is_digit(d[i - start]));
            return None;
        }
        let digit: u64 = (c as u32 - '0' as u32) as u64;
        let ghost next = d.take(i + 1 - start);
        assert(next.drop_last() =~= d.take(i - start));
        assert(decimal(next) == n * 10 + digit);
        if n > (u64::MAX - digit) / 10 {
            proof {
                assert(decimal(next) > u64::MAX);
                if all_digits(d) {
                    lemma_decimal_grows(d, i + 1 - start);
                }
            }
            return None;
        }
        n = n * 10 + digit;
        i = i + 1;
    }
    assert(d.take(d.len() as int) =~= d);
    Some(n)
}

/// The decimal digits of `n`, without leading zeros.
pub open spec fn digits(n: nat) -> Seq<char>
    decreases n,
{
    let last = ('0' as nat + n % 10) as char;
    if n < 10 {
        seq![last]
    } else {
        digits(n / 10).push(last)
    }
}

/// The digits of a number are digits, and write it.
pub proof fn lemma_digits(n: nat)
    ensures
        all_digits(digits(n)),
        decimal(digits(n)) == n,
    decreases n,
{
    let last = ('0' as nat + n % 10) as char;
    if n < 10 {
        assert(digits(n).drop_last() =~= Seq::<char>::empty());
        assert(decimal(Seq::<char>::empty()) == 0);
    } else {
        lemma_digits(n / 10);
        assert(digits(n).drop_last() =~= digits(n / 10));
    }
}

/// Zeros in front of digits leave the number as it is.
pub proof fn lemma_leading_zeros(zeros: nat, d: Seq<char>)
    requires
        all_digits(d),
    ensures
        all_digits(Seq::new(zeros, |i: int| '0') + d),
        decimal(Seq::new(zeros, |i: int| '0') + d) == decimal(d),
    decreases d.len(),
{
    let z = Seq::new(zeros, |i: int| '0');
    let s = z + d;
    assert(s.drop_last() =~= z + d.drop_last());
    assert(s.last() == d.last());
    assert forall|i: int| 0 <= i < s.len() implies is_digit(#[trigger] s[i]) by {
        if i >= zeros {
            assert(is_digit(d[i - zeros]));
        }
    }
    if d.len() == 1 {
        lemma_zeros(zeros);
        assert(z + d.drop_last() =~= z);
        assert(d.drop_last() =~= Seq::<char>::empty());
        assert(decimal(Seq::<char>::empty()) == 0);
    } else {
        assert forall|i: int| 0 <= i < d.drop_last().len() implies is_digit(
            #[trigger] d.drop_last()[i],
        ) by {
            assert(is_digit(d[i]));
        }
        lemma_leading_zeros(zeros, d.drop_last());
    }
}

proof fn lemma_zeros(n: nat)
    ensures
        decimal(Seq::new(n, |i: int| '0')) == 0,
    decreases n,
{
    if n > 0 {
        let z = Seq::new(n, |i: int| '0');
        lemma_zeros((n - 1) as nat);
        assert(z.drop_last() =~= Seq::new((n - 1) as nat, |i: int| '0'));
    }
}

/// What is written for a `u64` reads back as that number.
pub proof fn lemma_read_digits(n: u64)
    ensures
        read_u64(digits(n as nat)) == Some(n),
{
    lemma_digits(n as nat);
    assert(is_digit(digits(n as nat)[0]));
}

/// `n` in decimal.
pub fn print_u64(n: u64) -> (r: String)
    ensures
        r@ == digits(n as nat),
    decreases n,
{
    let last = (48u8 + (n % 10) as u8) as char;
    let mut r = if n < 10 {
        String::new()
    } else {
        print_u64(n / 10)
    };
    r.push(last);
    assert(n < 10 ==> r@ =~= seq![last]);
    r
}

/// The value of a hexadecimal digit of either case.
pub open spec fn hex_value(c: char) -> Option<nat> {
    if '0' <= c <= '9' {
        Some((c as nat - '0' as nat) as nat)
    } else if 'a' <= c <= 'f' {
        Some((c as nat - 'a' as nat + 10) as nat)
    } else if 'A' <= c <= 'F' {
        Some((c as nat - 'A' as nat + 10) as nat)
    } else {
        None
    }
}

/// The lowercase hexadecimal digit of `n`.
pub open spec fn hex_digit(n: nat) -> char {
    if n < 10 {
        ('0' as nat + n) as char
    } else {
        ('a' as nat + n - 10) as char
    }
}

/// Two lowercase hexadecimal digits per byte.
pub open spec fn hex_of(bytes: Seq<u8>) -> Seq<char> {
    Seq::new(
        2 * bytes.len(),
        |i: int|
            if i % 2 == 0 {
                hex_digit(bytes[i / 2] as nat / 16)
            } else {
                hex_digit(bytes[i / 2] as nat % 16)
            },
    )
}

/// The 32 bytes that exactly 64 hexadecimal digits write.
pub open spec fn read_hex32(s: Seq<char>) -> Option<Seq<u8>> {
    if s.len() == 64 && forall|i: int| 0 <= i < 64 ==> hex_value(#[trigger] s[i]) is Some {
        Some(Seq::new(32, |i: int| (hex_value(s[2 * i])->0 * 16 + hex_value(s[2 * i + 1])->0) as u8))
    } else {
        None
    }
}

/// What is written for 32 bytes reads back as those bytes.
pub proof fn lemma_hex32_round_trip(bytes: Seq<u8>)
    requires
        bytes.len() == 32,
    ensures
        read_hex32(hex_of(bytes)) == Some(bytes),
{
    let s = hex_of(bytes);
    assert forall|i: int| 0 <= i < 64 implies hex_value(#[trigger] s[i]) is Some by {}
    assert forall|i: int| 0 <= i < 32 implies read_hex32(s)->0[i] == bytes[i] by {
        assert((2 * i) / 2 == i && (2 * i) % 2 == 0);
        assert((2 * i + 1) / 2 == i && (2 * i + 1) % 2 == 1);
        assert(hex_value(s[2 * i]) == Some(bytes[i] as nat / 16));
        assert(hex_value(s[2 * i + 1]) == Some(bytes[i] as nat % 16));
    }
    assert(read_hex32(s)->0 =~= bytes);
}

/// The lowercase hexadecimal digit of `n`.
fn nibble(n: u8) -> (c: char)
    requires
        n < 16,
    ensures
        c == hex_digit(n as nat),
{
    if n < 10 {
        (48u8 + n) as char
    } else {
        (87u8 + n) as char
    }
}

/// The value of a hexadecimal digit.
fn nibble_value(c: char) -> (r: Option<u8>)
    ensures
        match r {
            Some(n) => hex_value(c) == Some(n as nat) && n < 16,
            None => hex_value(c) is None,
        },
{
    if '0' <= c && c <= '9' {
        Some((c as u32 - '0' as u32) as u8)
    } else if 'a' <= c && c <= 'f' {
        Some((c as u32 - 'a' as u32 + 10) as u8)
    } else if 'A' <= c && c <= 'F' {
        Some((c as u32 - 'A' as u32 + 10) as u8)
    } else {
        None
    }
}

/// `bytes` in lowercase hexadecimal.
pub fn encode_hex(bytes: &[u8]) -> (r: String)
    ensures
        r@ == hex_of(bytes@),
{
    let mut r = String::new();
    let mut i: usize = 0;
    assert(r@ =~= hex_of(bytes@.take(0)));
    while i < bytes.len()
        invariant
            i <= bytes@.len(),
            r@ == hex_of(bytes@.take(i as int)),
        decreases bytes@.len() - i,
    {
        let b = bytes[i];
        r.push(nibble(b / 16));
        r.push(nibble(b % 16));
        proof {
            let t = bytes@.take(i + 1);
            assert(hex_of(t).len() == 2 * i + 2);
            assert(t[i as int] == b);
            assert((2 * i) / 2 == i && (2 * i + 1) / 2 == i);
            assert(r@ =~= hex_of(t)) by {
                assert forall|j: int| 0 <= j < 2 * i implies hex_of(t)[j] == hex_of(
                    bytes@.take(i as int),
                )[j] by {
                    assert(t[j / 2] == bytes@.take(i as int)[j / 2]);
                }
            }
        }
        i = i + 1;
    }
    assert(bytes@.take(bytes@.len() as int) =~= bytes@);
    r
}

/// Parses 64 hexadecimal digits into a 32-byte key. `None` on any other
/// character or a wrong length.
pub fn decode_hex32(s: &str) -> (r: Option<[u8; 32]>)
    ensures
        match r {
            Some(k) => read_hex32(s@) == Some(k@),
            None => read_hex32(s@) is None,
        },
{
    let v = chars_of(s);
    if v.len() != 64 {
        return None;
    }
    let mut out: [u8; 32] = [0u8; 32];
    let mut i: usize = 0;
    while i < 32
        invariant
            i <= 32,
            v@ == s@,
            v@.len() == 64,
            forall|j: int| 0 <= j < 2 * i ==> hex_value(#[trigger] v@[j]) is Some,
            forall|j: int|
                0 <= j < i ==> #[trigger] out@[j] as nat == hex_value(v@[2 * j])->0 * 16
                    + hex_value(v@[2 * j + 1])->0,
        decreases 32 - i,
    {
        match (nibble_value(v[2 * i]), nibble_value(v[2 * i + 1])) {
            (Some(hi), Some(lo)) => {
                out[i] = hi * 16 + lo;
            },
            _ => {
                assert(hex_value(v@[2 * i as int]) is None || hex_value(v@[2 * i + 1]) is None);
                return None;
            },
        }
        i = i + 1;
    }
    proof {
        assert forall|j: int| 0 <= j < 32 implies out@[j] == read_hex32(s@)->0[j] by {
            assert(out@[j] as nat == hex_value(v@[2 * j])->0 * 16 + hex_value(v@[2 * j + 1])->0);
        }
        assert(read_hex32(s@)->0 =~= out@);
    }
    Some(out)
}

/// The parts of `s` between occurrences of `sep`: always at least one.
pub open spec fn split(s: Seq<char>, sep: char) -> Seq<Seq<char>>
    decreases s.len(),
{
    match find_char(s, sep) {
        Some(i) if 0 <= i < s.len() => seq![s.take(i)] + split(s.skip(i + 1), sep),
        _ => seq![s],
    }
}

/// The parts of `s` between occurrences of `sep`.
pub fn split_on(s: &str, sep: char) -> (r: Vec<String>)
    ensures
        texts(r@) == split(s@, sep),
        r@.len() > 0,
{
    let v = chars_of(s);
    let mut r: Vec<String> = Vec::new();
    let mut from: usize = 0;
    let mut i: usize = 0;
    assert(v@.skip(0) =~= v@);
    assert(texts(r@) + split(v@.skip(0), sep) =~= split(s@, sep));
    while i < v.len()
        invariant
            v@ == s@,
            from <= i <= v@.len(),
            forall|j: int| from <= j < i ==> v@[j] != sep,
            texts(r@) + split(v@.skip(from as int), sep) == split(s@, sep),
        decreases v@.len() - i,
    {
        if v[i] == sep {
            let ghost t = v@.skip(from as int);
            let ghost done = texts(r@);
            proof {
                lemma_find_char(t, sep, i - from);
                assert(t.take(i - from) =~= v@.subrange(from as int, i as int));
                assert(t.skip(i - from + 1) =~= v@.skip(i + 1));
            }
            r.push(string_of(&v, from, i));
            proof {
                assert(texts(r@) =~= done.push(v@.subrange(from as int, i as int)));
                assert(texts(r@) + split(v@.skip(i + 1), sep) =~= done + split(t, sep));
            }
            from = i + 1;
        }
        i = i + 1;
    }
    let ghost done = texts(r@);
    proof {
        lemma_find_char(v@.skip(from as int), sep, v@.len() - from);
        assert(v@.skip(from as int) =~= v@.subrange(from as int, v@.len() as int));
    }
    r.push(string_of(&v, from, v.len()));
    assert(texts(r@) =~= done + seq![v@.skip(from as int)]);
    r
}

/// The strings of `parts` with `sep` between each two.
pub open spec fn joined(parts: Seq<Seq<char>>, sep: Seq<char>) -> Seq<char>
    decreases parts.len(),
{
    if parts.len() == 0 {
        Seq::empty()
    } else if parts.len() == 1 {
        parts[0]
    } else {
        joined(parts.drop_last(), sep) + sep + parts.last()
    }
}

/// The strings of `parts` with `sep` between each two.
pub fn join(parts: &[String], sep: &str) -> (r: String)
    ensures
        r@ == joined(texts(parts@), sep@),
{
    let mut r = String::new();
    let mut i: usize = 0;
    while i < parts.len()
        invariant
            i <= parts@.len(),
            r@ == joined(texts(parts@.take(i as int)), sep@),
        decreases parts@.len() - i,
    {
        let ghost t0 = texts(parts@.take(i as int));
        let ghost t1 = texts(parts@.take(i + 1));
        if i > 0 {
            r.push_str(sep);
        }
        r.push_str(parts[i].as_str());
        proof {
            assert(t1.drop_last() =~= t0);
            assert(t1.last() == parts@[i as int]@);
            if i == 0 {
                assert(r@ =~= t1[0]);
            }
        }
        i = i + 1;
    }
    assert(parts@.take(parts@.len() as int) =~= parts@);
    r
}

/// The maximal runs of `s` without white space.
pub open spec fn words(s: Seq<char>) -> Seq<Seq<char>>
    decreases s.len(),
{
    if s.len() == 0 {
        Seq::empty()
    } else if is_white_space(s.last()) {
        words(s.drop_last())
    } else {
        let n = word_start(s);
        if 0 <= n < s.len() {
            words(s.take(n)).push(s.skip(n))
        } else {
            Seq::empty()
        }
    }
}

/// Where the run without white space that ends `s` begins.
pub open spec fn word_start(s: Seq<char>) -> int
    decreases s.len(),
{
    if s.len() == 0 || is_white_space(s.last()) {
        s.len() as int
    } else {
        word_start(s.drop_last())
    }
}

proof fn lemma_word_start(s: Seq<char>, n: int)
    requires
        0 <= n <= s.len(),
        forall|i: int| n <= i < s.len() ==> !is_white_space(s[i]),
        n == 0 || is_white_space(s[n - 1]),
    ensures
        word_start(s) == n,
    decreases s.len(),
{
    if s.len() > n {
        lemma_word_start(s.drop_last(), n);
    }
}

/// The maximal runs of `s` without white space, in order.
pub fn split_words(s: &str) -> (r: Vec<String>)
    ensures
        texts(r@) == words(s@),
{
    let v = chars_of(s);
    let mut r: Vec<String> = Vec::new();
    let mut i: usize = 0;
    assert(texts(r@) =~= words(v@.take(0)));
    while i < v.len()
        invariant
            v@ == s@,
            i <= v@.len(),
            i == 0 || i == v@.len() || is_white_space(v@[i - 1]) || is_white_space(v@[i as int]),
            texts(r@) == words(v@.take(i as int)),
        decreases v@.len() - i,
    {
        if white_space(v[i]) {
            assert(v@.take(i + 1).drop_last() =~= v@.take(i as int));
            i = i + 1;
        } else {
            let from = i;
            while i < v.len() && !white_space(v[i])
                invariant
                    v@ == s@,
                    from <= i <= v@.len(),
                    forall|j: int| from <= j < i ==> !is_white_space(v@[j]),
                decreases v@.len() - i,
            {
                i = i + 1;
            }
            let ghost done = texts(r@);
            proof {
                let t = v@.take(i as int);
                lemma_word_start(t, from as int);
                assert(t.take(from as int) =~= v@.take(from as int));
                assert(t.skip(from as int) =~= v@.subrange(from as int, i as int));
            }
            r.push(string_of(&v, from, i));
            assert(texts(r@) =~= done.push(v@.subrange(from as int, i as int)));
        }
    }
    assert(v@.take(v@.len() as int) =~= v@);
    r
}

/// `s` is one word: not empty, and without white space.
pub open spec fn is_word(s: Seq<char>) -> bool {
    s.len() > 0 && !has_white_space(s)
}

/// A word behind white space, or at the start, is the last word.
proof fn lemma_last_word(a: Seq<char>, t: Seq<char>)
    requires
        is_word(t),
        a.len() == 0 || is_white_space(a.last()),
    ensures
        words(a + t) == words(a).push(t),
{
    let s = a + t;
    let n = a.len() as int;
    assert forall|i: int| n <= i < s.len() implies !is_white_space(s[i]) by {
        assert(s[i] == t[i - n]);
    }
    assert(n > 0 ==> s[n - 1] == a.last());
    lemma_word_start(s, n);
    assert(s.take(n) =~= a);
    assert(s.skip(n) =~= t);
    assert(s.last() == s[s.len() - 1]);
}

/// Words with spaces between them read back as those words.
pub proof fn lemma_words_joined(list: Seq<Seq<char>>)
    requires
        forall|i: int| 0 <= i < list.len() ==> is_word(#[trigger] list[i]),
    ensures
        words(joined(list, " "@)) == list,
    decreases list.len(),
{
    if list.len() == 0 {
        assert(words(joined(list, " "@)) =~= list);
    } else {
        let init = list.drop_last();
        let t = list.last();
        assert(is_word(list[list.len() - 1]));
        assert forall|i: int| 0 <= i < init.len() implies is_word(#[trigger] init[i]) by {
            assert(init[i] == list[i]);
        }
        lemma_words_joined(init);
        assert(init.push(t) =~= list);
        if list.len() == 1 {
            let e = Seq::<char>::empty();
            assert(joined(list, " "@) =~= e + t);
            lemma_last_word(e, t);
            assert(words(e) =~= init);
        } else {
            reveal_strlit(" ");
            let a = joined(init, " "@) + " "@;
            assert(a.last() == ' ');
            assert(a.drop_last() =~= joined(init, " "@));
            lemma_last_word(a, t);
        }
    }
}

/// `n` spaces.
pub open spec fn spaces(n: int) -> Seq<char> {
    Seq::new((if n > 0 { n } else { 0 }) as nat, |i: int| ' ')
}

/// `s` with spaces behind it, to at least `width` characters.
pub open spec fn padded(s: Seq<char>, width: int) -> Seq<char> {
    s + spaces(width - s.len())
}

/// `s` with spaces before it, to at least `width` characters.
pub open spec fn aligned(s: Seq<char>, width: int) -> Seq<char> {
    spaces(width - s.len()) + s
}

fn print_spaces(n: usize) -> (r: String)
    ensures
        r@ == spaces(n as int),
{
    let mut r = String::new();
    let mut i: usize = 0;
    while i < n
        invariant
            i <= n,
            r@ == spaces(i as int),
        decreases n - i,
    {
        r.push(' ');
        assert(r@ =~= spaces(i + 1));
        i = i + 1;
    }
    r
}

/// `s` with spaces behind it, to at least `width` characters.
pub fn pad_right(s: &str, width: usize) -> (r: String)
    ensures
        r@ == padded(s@, width as int),
{
    let n = chars_of(s).len();
    let gap: usize = if n < width {
        width - n
    } else {
        0
    };
    concat(s, print_spaces(gap).as_str())
}

/// `s` with spaces before it, to at least `width` characters.
pub fn pad_left(s: &str, width: usize) -> (r: String)
    ensures
        r@ == aligned(s@, width as int),
{
    let n = chars_of(s).len();
    let gap: usize = if n < width {
        width - n
    } else {
        0
    };
    concat(print_spaces(gap).as_str(), s)
}

/// `s` as a signed number: digits, with a sign before them or none.
pub open spec fn read_i64(s: Seq<char>) -> Option<i64> {
    if s.len() > 0 && s[0] == '-' {
        let t = s.drop_first();
        if t.len() > 0 && all_digits(t) && decimal(t) <= 0x8000_0000_0000_0000 {
            Some((-(decimal(t) as int)) as i64)
        } else {
            None
        }
    } else {
        match read_u64(s) {
            Some(n) if n <= i64::MAX => Some(n as i64),
            _ => None,
        }
    }
}

/// Reads a signed number.
pub fn parse_i64(s: &str) -> (r: Option<i64>)
    ensures
        r == read_i64(s@),
{
    let v = chars_of(s);
    if v.len() > 0 && v[0] == '-' {
        if v.len() == 1 {
            return None;
        }
        if v[1] == '+' {
            proof {
                assert(s@.drop_first()[0] == '+');
                assert(!all_digits(s@.drop_first()));
            }
            return None;
        }
        let t = string_of(&v, 1, v.len());
        proof {
            assert(t@ =~= s@.drop_first());
        }
        match parse_u64(t.as_str()) {
            Some(n) => if n <= 0x8000_0000_0000_0000 {
                Some((-(n as i128)) as i64)
            } else {
                None
            },
            None => None,
        }
    } else {
        match parse_u64(s) {
            Some(n) => if n <= i64::MAX as u64 {
                Some(n as i64)
            } else {
                None
            },
            None => None,
        }
    }
}

/// Nothing is left to trim at the start.
proof fn lemma_trim_start_done(s: Seq<char>)
    ensures
        trim_start(s).len() == 0 || !is_white_space(trim_start(s)[0]),
    decreases s.len(),
{
    if s.len() > 0 && is_white_space(s[0]) {
        lemma_trim_start_done(s.drop_first());
    }
}

/// Trimming the end leaves a prefix, with nothing left to trim at its end.
proof fn lemma_trim_end_done(s: Seq<char>)
    ensures
        trim_end(s).len() <= s.len(),
        trim_end(s) == s.take(trim_end(s).len() as int),
        trim_end(s).len() == 0 || !is_white_space(trim_end(s).last()),
    decreases s.len(),
{
    if s.len() > 0 && is_white_space(s.last()) {
        lemma_trim_end_done(s.drop_last());
        let t = trim_end(s);
        assert(s.drop_last().take(t.len() as int) =~= s.take(t.len() as int));
    } else {
        assert(s.take(s.len() as int) =~= s);
    }
}

/// What is trimmed has nothing left to trim.
pub proof fn lemma_trimmed_twice(s: Seq<char>)
    ensures
        trimmed(trimmed(s)) == trimmed(s),
{
    let a = trim_start(s);
    let t = trim_end(a);
    lemma_trim_start_done(s);
    lemma_trim_end_done(a);
    if t.len() > 0 {
        assert(t[0] == a[0]);
    }
}

/// A list of strings with `sep` between: the first, and the rest.
pub proof fn lemma_joined_front(list: Seq<Seq<char>>, sep: Seq<char>)
    requires
        list.len() > 1,
    ensures
        joined(list, sep) == list[0] + sep + joined(list.drop_first(), sep),
    decreases list.len(),
{
    let init = list.drop_last();
    let rest = list.drop_first();
    if list.len() == 2 {
        assert(joined(init, sep) == list[0]);
        assert(joined(rest, sep) == list[1]);
        assert(list.last() == list[1]);
        assert(joined(list, sep) == joined(init, sep) + sep + list.last());
    } else {
        lemma_joined_front(init, sep);
        assert(init.drop_first() =~= rest.drop_last());
        assert(rest.last() == list.last());
        assert(joined(rest, sep) == joined(rest.drop_last(), sep) + sep + rest.last());
        assert(joined(list, sep) =~= list[0] + sep + joined(rest, sep));
    }
}

/// Strings without the separator, joined by it, split into themselves.
pub proof fn lemma_split_joined(list: Seq<Seq<char>>, sep: char)
    requires
        list.len() > 0,
        forall|i: int, j: int|
            0 <= i < list.len() && 0 <= j < list[i].len() ==> (#[trigger] list[i][j]) != sep,
    ensures
        split(joined(list, seq![sep]), sep) == list,
    decreases list.len(),
{
    let s = joined(list, seq![sep]);
    let first = list[0];
    if list.len() == 1 {
        assert(s == first);
        assert forall|j: int| 0 <= j < s.len() implies s[j] != sep by {
            assert(list[0][j] != sep);
        }
        lemma_find_char(s, sep, s.len() as int);
        assert(split(s, sep) =~= list);
    } else {
        let rest = list.drop_first();
        lemma_joined_front(list, seq![sep]);
        assert forall|i: int, j: int|
            0 <= i < rest.len() && 0 <= j < rest[i].len() implies (#[trigger] rest[i][j])
            != sep by {
            assert(list[i + 1][j] != sep);
        }
        lemma_split_joined(rest, sep);
        let n = first.len() as int;
        assert forall|j: int| 0 <= j < n implies s[j] != sep by {
            assert(s[j] == list[0][j]);
        }
        assert(s[n] == sep);
        lemma_find_char(s, sep, n);
        assert(s.take(n) =~= first);
        assert(s.skip(n + 1) =~= joined(rest, seq![sep]));
        assert(split(s, sep) =~= seq![first] + rest);
        assert(seq![first] + rest =~= list);
    }
}

/// What holds no white space has nothing to trim.
pub proof fn lemma_trimmed_word(s: Seq<char>)
    requires
        !has_white_space(s),
    ensures
        trimmed(s) == s,
{
    if s.len() > 0 {
        assert(!is_white_space(s[0]));
        assert(!is_white_space(s[s.len() - 1]));
    }
}

/// Hexadecimal digits, alone or on a line, read back as their bytes.
pub proof fn lemma_hex_line(bytes: Seq<u8>)
    requires
        bytes.len() == 32,
    ensures
        read_hex32(trimmed(hex_of(bytes))) == Some(bytes),
        read_hex32(trimmed(hex_of(bytes) + "\n"@)) == Some(bytes),
{
    lemma_hex32_round_trip(bytes);
    let h = hex_of(bytes);
    assert(!has_white_space(h)) by {
        assert forall|i: int| 0 <= i < h.len() implies !is_white_space(#[trigger] h[i]) by {
            assert(0 <= bytes[i / 2] as nat / 16 < 16);
            assert(0 <= bytes[i / 2] as nat % 16 < 16);
        }
    }
    lemma_trimmed_word(h);
    lemma_trimmed_line(h);
}

/// A word at the start of a line is what the line holds.
pub proof fn lemma_trimmed_line(w: Seq<char>)
    requires
        is_word(w),
    ensures
        trimmed(w + "\n"@) == w,
{
    reveal_strlit("\n");
    let line = w + "\n"@;
    assert(line[0] == w[0]);
    assert(!is_white_space(w[0]));
    assert(line.last() == '\n');
    assert(line.drop_last() =~= w);
    assert(!is_white_space(w[w.len() - 1]));
    reveal_with_fuel(trim_end, 2);
}

/// Adds a line to a list.
pub fn add_line(out: &mut Vec<String>, line: String)
    ensures
        texts(final(out)@) == texts(old(out)@).push(line@),
{
    let ghost before = out@;
    out.push(line);
    assert(texts(out@) =~= texts(before).push(line@));
}

/// Adds lines to a list.
pub fn add_lines(out: &mut Vec<String>, lines: &[String])
    ensures
        texts(final(out)@) == texts(old(out)@) + texts(lines@),
{
    let ghost start = texts(out@);
    let ghost all = texts(lines@);
    let mut i: usize = 0;
    assert(start + all.take(0) =~= start);
    while i < lines.len()
        invariant
            i <= lines@.len(),
            all == texts(lines@),
            texts(out@) == start + all.take(i as int),
        decreases lines@.len() - i,
    {
        add_line(out, lines[i].clone());
        assert(start + all.take(i + 1) =~= (start + all.take(i as int)).push(all[i as int]));
        i = i + 1;
    }
    assert(all.take(all.len() as int) =~= all);
}

} // verus!
