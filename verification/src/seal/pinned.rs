//! What the sealed text pins: two seals that differ in a lifetime or in
//! their generation have different texts, and so have two that differ in a
//! string whose JSON text differs. Their MACs are then over different bytes.

use crate::json;
use crate::seal;
use crate::seal::{SealView, SealedRoleView};
use crate::text;
use vstd::prelude::*;
use vstd::utf8::*;

verus! {

/// What stands behind the same text is the same.
proof fn lemma_same_front(p: Seq<char>, x: Seq<char>, y: Seq<char>)
    requires
        p + x == p + y,
    ensures
        x == y,
{
    assert((p + x).skip(p.len() as int) =~= x);
    assert((p + y).skip(p.len() as int) =~= y);
}

/// What stands before the same text is the same.
proof fn lemma_same_back(x: Seq<char>, y: Seq<char>, q: Seq<char>)
    requires
        x + q == y + q,
    ensures
        x == y,
{
    assert((x + q).len() == (y + q).len());
    assert((x + q).take(x.len() as int) =~= x);
    assert((y + q).take(y.len() as int) =~= y);
}

/// The text opens with something that is no digit.
spec fn opens_plain(s: Seq<char>) -> bool {
    s.len() > 0 && !text::is_digit(s[0])
}

/// A number before text that opens with no digit is read off it.
proof fn lemma_number_first(a: u64, b: u64, x: Seq<char>, y: Seq<char>)
    requires
        opens_plain(x),
        opens_plain(y),
        text::digits(a as nat) + x == text::digits(b as nat) + y,
    ensures
        a == b,
        x == y,
{
    let d = text::digits(a as nat);
    let e = text::digits(b as nat);
    text::lemma_digits(a as nat);
    text::lemma_digits(b as nat);
    assert(d.len() == e.len()) by {
        if d.len() < e.len() {
            assert((d + x)[d.len() as int] == x[0]);
            assert((e + y)[d.len() as int] == e[d.len() as int]);
            assert(text::is_digit(e[d.len() as int]));
        } else if e.len() < d.len() {
            assert((e + y)[e.len() as int] == y[0]);
            assert((d + x)[e.len() as int] == d[e.len() as int]);
            assert(text::is_digit(d[e.len() as int]));
        }
    }
    assert((d + x).take(d.len() as int) =~= d);
    assert((e + y).take(e.len() as int) =~= e);
    lemma_same_front(d, x, y);
}

/// A sealed role's text up to its first lifetime.
spec fn role_head(r: SealedRoleView) -> Seq<char> {
    "{\"caveat\":"@ + json::json_text(seal::list_doc(r.caveat)) + ",\"default_ttl_seconds\":"@
}

/// A sealed role's text from its last lifetime on.
spec fn role_tail(r: SealedRoleView) -> Seq<char> {
    ",\"policy_blake3\":"@ + json::json_text(seal::str_doc(r.policy_blake3)) + ",\"attested\":"@
        + json::json_text(seal::list_doc(r.attested)) + "}"@
}

/// A sealed role's text, by its lifetimes.
proof fn lemma_role_shape(r: SealedRoleView)
    ensures
        seal::role_text(r) == role_head(r) + (text::digits(r.default_ttl_seconds as nat) + (
        ",\"max_ttl_seconds\":"@ + (text::digits(r.max_ttl_seconds as nat) + (
        ",\"min_ttl_seconds\":"@ + (text::digits(r.min_ttl_seconds as nat) + role_tail(r)))))),
        opens_plain(role_tail(r)),
{
    reveal_strlit(",\"policy_blake3\":");
    assert(role_tail(r)[0] == ',');
    assert(seal::role_text(r) =~= role_head(r) + (text::digits(r.default_ttl_seconds as nat) + (
    ",\"max_ttl_seconds\":"@ + (text::digits(r.max_ttl_seconds as nat) + (
    ",\"min_ttl_seconds\":"@ + (text::digits(r.min_ttl_seconds as nat) + role_tail(r)))))));
}

/// The text of a sealed role pins its lifetimes.
proof fn lemma_role_pins_lifetimes(a: SealedRoleView, b: SealedRoleView)
    requires
        a.caveat == b.caveat,
        seal::role_text(a) == seal::role_text(b),
    ensures
        a.default_ttl_seconds == b.default_ttl_seconds,
        a.max_ttl_seconds == b.max_ttl_seconds,
        a.min_ttl_seconds == b.min_ttl_seconds,
{
    let m = ",\"max_ttl_seconds\":"@;
    let n = ",\"min_ttl_seconds\":"@;
    reveal_strlit(",\"max_ttl_seconds\":");
    reveal_strlit(",\"min_ttl_seconds\":");
    lemma_role_shape(a);
    lemma_role_shape(b);
    let a3 = text::digits(a.min_ttl_seconds as nat) + role_tail(a);
    let b3 = text::digits(b.min_ttl_seconds as nat) + role_tail(b);
    let a2 = text::digits(a.max_ttl_seconds as nat) + (n + a3);
    let b2 = text::digits(b.max_ttl_seconds as nat) + (n + b3);
    let a1 = text::digits(a.default_ttl_seconds as nat) + (m + a2);
    let b1 = text::digits(b.default_ttl_seconds as nat) + (m + b2);
    assert((m + a2)[0] == ',' && (m + b2)[0] == ',');
    assert((n + a3)[0] == ',' && (n + b3)[0] == ',');
    lemma_same_front(role_head(a), a1, b1);
    lemma_number_first(a.default_ttl_seconds, b.default_ttl_seconds, m + a2, m + b2);
    lemma_same_front(m, a2, b2);
    lemma_number_first(a.max_ttl_seconds, b.max_ttl_seconds, n + a3, n + b3);
    lemma_same_front(n, a3, b3);
    lemma_number_first(a.min_ttl_seconds, b.min_ttl_seconds, role_tail(a), role_tail(b));
}

/// What stands between the last two roles of a list.
spec fn link(names: Seq<Seq<char>>) -> Seq<char> {
    (if names.len() > 1 {
        ","@
    } else {
        Seq::empty()
    }) + json::json_text(seal::str_doc(names.last())) + ":"@
}

/// The text of a list of roles, by its last role.
proof fn lemma_entries_shape(names: Seq<Seq<char>>, m: Map<Seq<char>, SealedRoleView>)
    requires
        names.len() > 0,
    ensures
        seal::entries_text(names, m) == seal::entries_text(names.drop_last(), m) + (link(names)
            + seal::role_text(m[names.last()])),
{
    assert(seal::entries_text(names, m) =~= seal::entries_text(names.drop_last(), m) + (link(names)
        + seal::role_text(m[names.last()])));
}

/// The texts of two sets of roles that differ in one role are the same
/// exactly where that role's texts are.
proof fn lemma_entries_pin(
    names: Seq<Seq<char>>,
    a: Map<Seq<char>, SealedRoleView>,
    b: Map<Seq<char>, SealedRoleView>,
    k: int,
)
    requires
        0 <= k < names.len(),
        forall|i: int| 0 <= i < names.len() && i != k ==> a[#[trigger] names[i]] == b[names[i]],
    ensures
        seal::entries_text(names, a) == seal::entries_text(names, b) <==> seal::role_text(
            a[names[k]],
        ) == seal::role_text(b[names[k]]),
    decreases names.len(),
{
    let init = names.drop_last();
    let ea = seal::entries_text(init, a);
    let eb = seal::entries_text(init, b);
    let ra = seal::role_text(a[names.last()]);
    let rb = seal::role_text(b[names.last()]);
    let mid = link(names);
    lemma_entries_shape(names, a);
    lemma_entries_shape(names, b);
    assert forall|i: int| 0 <= i < init.len() && i != k implies a[#[trigger] init[i]]
        == b[init[i]] by {
        assert(init[i] == names[i]);
    }
    if k == names.len() - 1 {
        lemma_entries_same(init, a, b);
        if ea + (mid + ra) == ea + (mid + rb) {
            lemma_same_front(ea, mid + ra, mid + rb);
            lemma_same_front(mid, ra, rb);
        }
    } else {
        assert(a[names[names.len() - 1]] == b[names[names.len() - 1]]);
        lemma_entries_pin(init, a, b, k);
        assert(init[k] == names[k]);
        if ea + (mid + ra) == eb + (mid + ra) {
            lemma_same_back(ea, eb, mid + ra);
        }
    }
}

/// Roles that are the same have the same text.
proof fn lemma_entries_same(
    names: Seq<Seq<char>>,
    a: Map<Seq<char>, SealedRoleView>,
    b: Map<Seq<char>, SealedRoleView>,
)
    requires
        forall|i: int| 0 <= i < names.len() ==> a[#[trigger] names[i]] == b[names[i]],
    ensures
        seal::entries_text(names, a) == seal::entries_text(names, b),
    decreases names.len(),
{
    if names.len() > 0 {
        let init = names.drop_last();
        assert forall|i: int| 0 <= i < init.len() implies a[#[trigger] init[i]] == b[init[i]] by {
            assert(init[i] == names[i]);
        }
        lemma_entries_same(init, a, b);
        assert(a[names[names.len() - 1]] == b[names[names.len() - 1]]);
    }
}

/// The roles of a seal as its text has them.
spec fn roles_part(s: SealView) -> Seq<char> {
    seal::entries_text(crate::map::listing(s.intent.roles.dom()), s.intent.roles)
}

/// The text of a seal from its generation on.
spec fn kid_part(s: SealView) -> Seq<char> {
    ",\"kid\":"@ + (text::digits(s.kid as nat) + ",\"mac\":\"\"}"@)
}

/// The text of a seal from its time on.
spec fn time_part(s: SealView) -> Seq<char> {
    ",\"sealed_at\":"@ + (json::json_text(seal::str_doc(s.sealed_at)) + kid_part(s))
}

/// The text of a seal behind its roles.
spec fn env_part(s: SealView) -> Seq<char> {
    "},\"env_blake3\":"@ + (json::json_text(seal::str_doc(s.intent.env_blake3)) + time_part(s))
}

/// A seal's text, by its fields.
proof fn lemma_body_parts(s: SealView)
    ensures
        seal::body_text(s) == "{\"audience\":"@ + (json::json_text(
            seal::str_doc(s.intent.audience),
        ) + (",\"roles\":{"@ + (roles_part(s) + env_part(s)))),
{
    assert(seal::body_text(s) =~= "{\"audience\":"@ + (json::json_text(
        seal::str_doc(s.intent.audience),
    ) + (",\"roles\":{"@ + (roles_part(s) + env_part(s)))));
}

/// Two seals of the same roles that differ in the role `k` alone.
pub open spec fn same_but_role(s: SealView, t: SealView, k: Seq<char>) -> bool {
    &&& s.intent.audience == t.intent.audience
    &&& s.intent.env_blake3 == t.intent.env_blake3
    &&& s.sealed_at == t.sealed_at
    &&& s.kid == t.kid
    &&& s.intent.roles.dom() == t.intent.roles.dom()
    &&& s.intent.roles.dom().finite()
    &&& s.intent.roles.contains_key(k)
    &&& forall|n: Seq<char>|
        s.intent.roles.contains_key(n) && n != k ==> #[trigger] s.intent.roles[n]
            == t.intent.roles[n]
}

/// Two seals that differ in one role have the same text exactly where that
/// role's texts are the same.
proof fn lemma_role_in_body(s: SealView, t: SealView, k: Seq<char>)
    requires
        same_but_role(s, t, k),
    ensures
        seal::body_text(s) == seal::body_text(t) <==> seal::role_text(s.intent.roles[k])
            == seal::role_text(t.intent.roles[k]),
{
    let dom = s.intent.roles.dom();
    let names = crate::map::listing(dom);
    crate::map::lemma_listing_exists(dom);
    assert(names.contains(k));
    let i = choose|i: int| 0 <= i < names.len() && names[i] == k;
    assert forall|j: int| 0 <= j < names.len() && j != i implies s.intent.roles[#[trigger] names[j]]
        == t.intent.roles[names[j]] by {
        assert(names.contains(names[j]));
        assert(names[j] != k) by {
            text::lemma_precedes_irreflexive(k);
            if j < i {
                assert(text::precedes(names[j], names[i]));
            } else {
                assert(text::precedes(names[i], names[j]));
            }
        }
    }
    lemma_entries_pin(names, s.intent.roles, t.intent.roles, i);
    lemma_body_parts(s);
    lemma_body_parts(t);
    let front = "{\"audience\":"@;
    let aud = json::json_text(seal::str_doc(s.intent.audience));
    let key = ",\"roles\":{"@;
    if seal::body_text(s) == seal::body_text(t) {
        lemma_same_front(
            front,
            aud + (key + (roles_part(s) + env_part(s))),
            aud + (key + (roles_part(t) + env_part(t))),
        );
        lemma_same_front(
            aud,
            key + (roles_part(s) + env_part(s)),
            key + (roles_part(t) + env_part(t)),
        );
        lemma_same_front(key, roles_part(s) + env_part(s), roles_part(t) + env_part(t));
        lemma_same_back(roles_part(s), roles_part(t), env_part(s));
    }
}

/// The lifetimes are pinned: two seals that differ in one role, under the
/// same declared caveats but with another lifetime, have different texts.
pub proof fn law_lifetimes_are_pinned(s: SealView, t: SealView, k: Seq<char>)
    requires
        same_but_role(s, t, k),
        s.intent.roles[k].caveat == t.intent.roles[k].caveat,
        s.intent.roles[k].default_ttl_seconds != t.intent.roles[k].default_ttl_seconds
            || s.intent.roles[k].max_ttl_seconds != t.intent.roles[k].max_ttl_seconds
            || s.intent.roles[k].min_ttl_seconds != t.intent.roles[k].min_ttl_seconds,
    ensures
        seal::body_text(s) != seal::body_text(t),
{
    lemma_role_in_body(s, t, k);
    if seal::body_text(s) == seal::body_text(t) {
        lemma_role_pins_lifetimes(s.intent.roles[k], t.intent.roles[k]);
    }
}

/// The lifetimes of a sealed role as its text has them.
spec fn lifetimes_part(r: SealedRoleView) -> Seq<char> {
    ",\"default_ttl_seconds\":"@ + text::digits(r.default_ttl_seconds as nat)
        + ",\"max_ttl_seconds\":"@ + text::digits(r.max_ttl_seconds as nat)
        + ",\"min_ttl_seconds\":"@ + text::digits(r.min_ttl_seconds as nat)
        + ",\"policy_blake3\":"@
}

/// A sealed role's text, by its strings.
proof fn lemma_role_parts(r: SealedRoleView)
    ensures
        seal::role_text(r) == "{\"caveat\":"@ + (json::json_text(seal::list_doc(r.caveat)) + (
        lifetimes_part(r) + (json::json_text(seal::str_doc(r.policy_blake3)) + (",\"attested\":"@ + (
        json::json_text(seal::list_doc(r.attested)) + "}"@))))),
{
    assert(seal::role_text(r) =~= "{\"caveat\":"@ + (json::json_text(seal::list_doc(r.caveat)) + (
    lifetimes_part(r) + (json::json_text(seal::str_doc(r.policy_blake3)) + (",\"attested\":"@ + (
    json::json_text(seal::list_doc(r.attested)) + "}"@))))));
}

/// The template hash and the declared contract of a role are pinned: two
/// seals that differ in one of them have the same text only where its JSON
/// texts are the same.
pub proof fn law_role_contract_is_pinned(s: SealView, t: SealView, k: Seq<char>)
    requires
        same_but_role(s, t, k),
        s.intent.roles[k].default_ttl_seconds == t.intent.roles[k].default_ttl_seconds,
        s.intent.roles[k].max_ttl_seconds == t.intent.roles[k].max_ttl_seconds,
        s.intent.roles[k].min_ttl_seconds == t.intent.roles[k].min_ttl_seconds,
    ensures
        ({
            let a = s.intent.roles[k];
            let b = t.intent.roles[k];
            let same = seal::body_text(s) == seal::body_text(t);
            &&& a.caveat == b.caveat && a.attested == b.attested ==> (same <==> json::json_text(
                seal::str_doc(a.policy_blake3),
            ) == json::json_text(seal::str_doc(b.policy_blake3)))
            &&& a.caveat == b.caveat && a.policy_blake3 == b.policy_blake3 ==> (same
                <==> json::json_text(seal::list_doc(a.attested)) == json::json_text(
                seal::list_doc(b.attested),
            ))
            &&& a.attested == b.attested && a.policy_blake3 == b.policy_blake3 ==> (same
                <==> json::json_text(seal::list_doc(a.caveat)) == json::json_text(
                seal::list_doc(b.caveat),
            ))
        }),
{
    lemma_role_in_body(s, t, k);
    let a = s.intent.roles[k];
    let b = t.intent.roles[k];
    lemma_role_parts(a);
    lemma_role_parts(b);
    let open = "{\"caveat\":"@;
    let att = ",\"attested\":"@;
    let close = "}"@;
    let ja = json::json_text(seal::list_doc(a.caveat));
    let jb = json::json_text(seal::list_doc(b.caveat));
    let pa = json::json_text(seal::str_doc(a.policy_blake3));
    let pb = json::json_text(seal::str_doc(b.policy_blake3));
    let ta = json::json_text(seal::list_doc(a.attested));
    let tb = json::json_text(seal::list_doc(b.attested));
    let after_a = lifetimes_part(a) + (pa + (att + (ta + close)));
    let after_b = lifetimes_part(b) + (pb + (att + (tb + close)));
    assert(lifetimes_part(a) == lifetimes_part(b));
    if seal::role_text(a) == seal::role_text(b) {
        lemma_same_front(open, ja + after_a, jb + after_b);
        if a.attested == b.attested && a.policy_blake3 == b.policy_blake3 {
            lemma_same_back(ja, jb, after_a);
        }
        if a.caveat == b.caveat {
            lemma_same_front(ja, after_a, after_b);
            lemma_same_front(
                lifetimes_part(a),
                pa + (att + (ta + close)),
                pb + (att + (tb + close)),
            );
            if a.attested == b.attested {
                lemma_same_back(pa, pb, att + (ta + close));
            }
            if a.policy_blake3 == b.policy_blake3 {
                lemma_same_front(pa, att + (ta + close), att + (tb + close));
                lemma_same_front(att, ta + close, tb + close);
                lemma_same_back(ta, tb, close);
            }
        }
    }
}

/// Seals of one text, one audience and the same roles are the same behind
/// the roles.
proof fn lemma_same_from_env(s: SealView, t: SealView)
    requires
        seal::body_text(s) == seal::body_text(t),
        s.intent.audience == t.intent.audience,
        s.intent.roles == t.intent.roles,
    ensures
        env_part(s) == env_part(t),
{
    lemma_body_parts(s);
    lemma_body_parts(t);
    let aud = json::json_text(seal::str_doc(s.intent.audience));
    let key = ",\"roles\":{"@;
    let roles = roles_part(s);
    lemma_same_front(
        "{\"audience\":"@,
        aud + (key + (roles + env_part(s))),
        aud + (key + (roles + env_part(t))),
    );
    lemma_same_front(aud, key + (roles + env_part(s)), key + (roles + env_part(t)));
    lemma_same_front(key, roles + env_part(s), roles + env_part(t));
    lemma_same_front(roles, env_part(s), env_part(t));
}

/// The generation is pinned: two seals that differ in it have different
/// texts.
pub proof fn law_kid_is_pinned(s: SealView, t: SealView)
    requires
        s.intent == t.intent,
        s.sealed_at == t.sealed_at,
        s.kid != t.kid,
    ensures
        seal::body_text(s) != seal::body_text(t),
{
    if seal::body_text(s) == seal::body_text(t) {
        let close = ",\"mac\":\"\"}"@;
        let a = text::digits(s.kid as nat);
        let b = text::digits(t.kid as nat);
        let env = json::json_text(seal::str_doc(s.intent.env_blake3));
        let time = json::json_text(seal::str_doc(s.sealed_at));
        lemma_same_from_env(s, t);
        lemma_same_front("},\"env_blake3\":"@, env + time_part(s), env + time_part(t));
        lemma_same_front(env, time_part(s), time_part(t));
        lemma_same_front(",\"sealed_at\":"@, time + kid_part(s), time + kid_part(t));
        lemma_same_front(time, kid_part(s), kid_part(t));
        lemma_same_front(",\"kid\":"@, a + close, b + close);
        lemma_same_back(a, b, close);
        text::lemma_digits(s.kid as nat);
        text::lemma_digits(t.kid as nat);
    }
}

/// The audience, the hash of the environment and the time are pinned: two
/// seals that differ in one of them have the same text only where its JSON
/// texts are the same.
pub proof fn law_strings_are_pinned(s: SealView, t: SealView)
    requires
        s.intent.roles == t.intent.roles,
        s.kid == t.kid,
    ensures
        ({
            let same = seal::body_text(s) == seal::body_text(t);
            &&& s.intent.env_blake3 == t.intent.env_blake3 && s.sealed_at == t.sealed_at ==> (same
                <==> json::json_text(seal::str_doc(s.intent.audience)) == json::json_text(
                seal::str_doc(t.intent.audience),
            ))
            &&& s.intent.audience == t.intent.audience && s.sealed_at == t.sealed_at ==> (same
                <==> json::json_text(seal::str_doc(s.intent.env_blake3)) == json::json_text(
                seal::str_doc(t.intent.env_blake3),
            ))
            &&& s.intent.audience == t.intent.audience && s.intent.env_blake3
                == t.intent.env_blake3 ==> (same <==> json::json_text(seal::str_doc(s.sealed_at))
                == json::json_text(seal::str_doc(t.sealed_at)))
        }),
{
    lemma_body_parts(s);
    lemma_body_parts(t);
    let sa = json::json_text(seal::str_doc(s.intent.audience));
    let ta = json::json_text(seal::str_doc(t.intent.audience));
    let se = json::json_text(seal::str_doc(s.intent.env_blake3));
    let te = json::json_text(seal::str_doc(t.intent.env_blake3));
    let st = json::json_text(seal::str_doc(s.sealed_at));
    let tt = json::json_text(seal::str_doc(t.sealed_at));
    if seal::body_text(s) == seal::body_text(t) {
        if s.intent.env_blake3 == t.intent.env_blake3 && s.sealed_at == t.sealed_at {
            let rest = ",\"roles\":{"@ + (roles_part(s) + env_part(s));
            lemma_same_front("{\"audience\":"@, sa + rest, ta + rest);
            lemma_same_back(sa, ta, rest);
        }
        if s.intent.audience == t.intent.audience {
            lemma_same_from_env(s, t);
            lemma_same_front("},\"env_blake3\":"@, se + time_part(s), te + time_part(t));
            if s.sealed_at == t.sealed_at {
                lemma_same_back(se, te, time_part(s));
            }
            if s.intent.env_blake3 == t.intent.env_blake3 {
                lemma_same_front(se, time_part(s), time_part(t));
                lemma_same_front(",\"sealed_at\":"@, st + kid_part(s), tt + kid_part(t));
                lemma_same_back(st, tt, kid_part(s));
            }
        }
    }
}

/// The MAC is over the text: two seals of different texts have MACs over
/// different bytes.
pub proof fn law_mac_is_over_the_text(s: SealView, t: SealView)
    ensures
        seal::mac_input(s) == seal::mac_input(t) <==> seal::body_text(s) == seal::body_text(t),
{
    let d = seal::SEAL_DOMAIN@;
    if seal::mac_input(s) == seal::mac_input(t) {
        encode_utf8_decode_utf8(d + seal::body_text(s));
        encode_utf8_decode_utf8(d + seal::body_text(t));
        lemma_same_front(d, seal::body_text(s), seal::body_text(t));
    }
}

} // verus!
