//! Rendering templates: at request time, and at build time.

use crate::caveat;
use crate::caveat::ResolvedView;
use crate::json;
use crate::json::JsonView;
use crate::render;
use crate::render::BuildToken;
use crate::template;
use crate::template::{DataView, TokenFault};
use crate::text;
use vstd::prelude::*;
use vstd::utf8::*;

verus! {

/// The text opens no token.
pub open spec fn opens_none(s: Seq<char>) -> bool {
    forall|j: int| 0 <= j && j + 1 < s.len() ==> !(s[j] == '{' && #[trigger] s[j + 1] == '{')
}

/// The text closes no token.
pub open spec fn closes_none(s: Seq<char>) -> bool {
    forall|j: int| 0 <= j && j + 1 < s.len() ==> !(s[j] == '}' && #[trigger] s[j + 1] == '}')
}

/// A document in which no string opens a token.
pub open spec fn tokenless(d: JsonView) -> bool
    decreases d,
{
    match d {
        JsonView::Str(s) => opens_none(s),
        JsonView::Array(items) => forall|i: int|
            0 <= i < items.len() ==> tokenless(#[trigger] items[i]),
        JsonView::Object(entries) => forall|i: int|
            0 <= i < entries.len() ==> tokenless((#[trigger] entries[i]).1),
        _ => true,
    }
}

/// Text that opens no token is rendered as it stands, at request time and at
/// build time, whatever the values are; nothing is reported of it.
pub proof fn law_plain_text_stands(
    data: DataView,
    vars: Map<Seq<char>, Seq<char>>,
    s: Seq<char>,
)
    ensures
        text::find_pair(s, '{') is None || opens_none(s) ==> {
            &&& template::fill(data, s) == Ok::<Seq<char>, TokenFault>(s)
            &&& render::fill(vars, s).out == s
            &&& render::fill(vars, s).referenced.len() == 0
            &&& render::fill(vars, s).unresolved.len() == 0
            &&& template::tokens(s).len() == 0
            &&& template::malformed_in(s).len() == 0
        },
{
    if opens_none(s) {
        text::lemma_find_pair(s, '{', s.len() as int);
    }
}

/// A document without tokens renders to itself.
pub proof fn law_plain_document_stands(
    data: DataView,
    vars: Map<Seq<char>, Seq<char>>,
    d: JsonView,
)
    requires
        tokenless(d),
    ensures
        template::fill_doc(data, d) == Ok::<JsonView, TokenFault>(d),
        render::fill_doc(vars, d).out == d,
        render::fill_doc(vars, d).referenced.len() == 0,
        render::fill_doc(vars, d).unresolved.len() == 0,
        template::malformed_of(d).len() == 0,
    decreases d, 0nat,
{
    match d {
        JsonView::Str(s) => {
            law_plain_text_stands(data, vars, s);
        },
        JsonView::Array(items) => {
            lemma_plain_items(data, vars, items);
        },
        JsonView::Object(entries) => {
            lemma_plain_entries(data, vars, entries);
        },
        _ => {},
    }
}

proof fn lemma_plain_items(
    data: DataView,
    vars: Map<Seq<char>, Seq<char>>,
    items: Seq<JsonView>,
)
    requires
        forall|i: int| 0 <= i < items.len() ==> tokenless(#[trigger] items[i]),
    ensures
        template::fill_items(data, items) == Ok::<Seq<JsonView>, TokenFault>(items),
        render::fill_items(vars, items).out == items,
        render::fill_items(vars, items).referenced.len() == 0,
        render::fill_items(vars, items).unresolved.len() == 0,
        template::malformed_items(items).len() == 0,
    decreases items, 1nat,
{
    if items.len() > 0 {
        let t = items.drop_last();
        let x = items[items.len() - 1];
        assert forall|i: int| 0 <= i < t.len() implies tokenless(#[trigger] t[i]) by {
            assert(t[i] == items[i]);
        }
        lemma_plain_items(data, vars, t);
        law_plain_document_stands(data, vars, x);
        assert(t.push(x) =~= items);
    } else {
        assert(items =~= Seq::empty());
    }
}

proof fn lemma_plain_entries(
    data: DataView,
    vars: Map<Seq<char>, Seq<char>>,
    entries: Seq<(Seq<char>, JsonView)>,
)
    requires
        forall|i: int| 0 <= i < entries.len() ==> tokenless((#[trigger] entries[i]).1),
    ensures
        template::fill_entries(data, entries) == Ok::<Seq<(Seq<char>, JsonView)>, TokenFault>(
            entries,
        ),
        render::fill_entries(vars, entries).out == entries,
        render::fill_entries(vars, entries).referenced.len() == 0,
        render::fill_entries(vars, entries).unresolved.len() == 0,
        template::malformed_entries(entries).len() == 0,
    decreases entries, 1nat,
{
    if entries.len() > 0 {
        let t = entries.drop_last();
        let x = entries[entries.len() - 1];
        assert forall|i: int| 0 <= i < t.len() implies tokenless((#[trigger] t[i]).1) by {
            assert(t[i] == entries[i]);
        }
        lemma_plain_entries(data, vars, t);
        law_plain_document_stands(data, vars, x.1);
        assert(t.push((x.0, x.1)) =~= entries);
    } else {
        assert(entries =~= Seq::empty());
    }
}

/// The value of a token: that of the sealed environment, the deadline of the
/// grant, the one value of the credential's caveats, or the one value that
/// was attested under a declared name. No other token has any.
pub proof fn law_tokens_have_their_values(data: DataView, ns: Seq<char>, key: Seq<char>)
    ensures
        template::lookup(data, "env"@, key) == (if data.env.contains_key(key) {
            Some(data.env[key])
        } else {
            None
        }),
        template::lookup(data, "mint"@, "expiry"@) == Some(data.expiry),
        key != "expiry"@ ==> template::lookup(data, "mint"@, key) is None,
        template::lookup(data, "caveat"@, key) == (match caveat::resolved(data.caveats, key) {
            ResolvedView::Value(v) => Some(v),
            _ => None,
        }),
        template::lookup(data, "attested"@, key) == (match caveat::resolved(
            data.discharge_caveats,
            key,
        ) {
            ResolvedView::Value(v) if data.attested_names.contains(key) => Some(v),
            _ => None,
        }),
        ns != "env"@ && ns != "mint"@ && ns != "caveat"@ && ns != "attested"@ ==> template::lookup(
            data,
            ns,
            key,
        ) is None,
{
    template::lemma_namespaces_differ();
}

/// A token is a namespace and a key with a dot between, and only those of
/// the four namespaces are tokens.
pub proof fn law_tokens_are_namespace_and_key(ns: Seq<char>, key: Seq<char>, inner: Seq<char>)
    ensures
        key.len() > 0 && !text::has_white_space(key) && (ns == "env"@ || ns == "mint"@ || ns
            == "caveat"@ || ns == "attested"@) ==> template::classify(ns + seq!['.'] + key) == Some(
            (ns, key),
        ),
        template::classify(inner) matches Some((n, k)) ==> {
            &&& inner == n + seq!['.'] + k
            &&& k.len() > 0
            &&& n == "env"@ || n == "mint"@ || n == "caveat"@ || n == "attested"@
            &&& !text::has_white_space(inner)
        },
{
    if key.len() > 0 && !text::has_white_space(key) && (ns == "env"@ || ns == "mint"@ || ns
        == "caveat"@ || ns == "attested"@) {
        let s = ns + seq!['.'] + key;
        reveal_strlit("env");
        reveal_strlit("mint");
        reveal_strlit("caveat");
        reveal_strlit("attested");
        let n = ns.len() as int;
        assert(n <= 8);
        assert forall|j: int| 0 <= j < n implies #[trigger] s[j] != '.' && !text::is_white_space(
            s[j],
        ) by {
            assert(s[j] == ns[j]);
        }
        assert(s[n] == '.');
        text::lemma_find_char(s, '.', n);
        assert(s.take(n) =~= ns);
        assert(s.skip(n + 1) =~= key);
        assert forall|j: int| 0 <= j < s.len() implies !text::is_white_space(#[trigger] s[j]) by {
            if j > n {
                assert(s[j] == key[j - n - 1]);
            }
        }
    }
    if template::classify(inner) is Some {
        text::lemma_find_char_is_first(inner, '.');
        let i = text::find_char(inner, '.')->0;
        assert(inner =~= inner.take(i) + seq!['.'] + inner.skip(i + 1));
    }
}

/// A token whose name has no value stops the render and is named, and so is
/// one that is no token.
pub proof fn law_a_token_without_value_is_named(
    data: DataView,
    before: Seq<char>,
    inner: Seq<char>,
    after: Seq<char>,
)
    requires
        text::find_pair(before.push('{'), '{') is None,
        text::find_pair(inner.push('}'), '}') is None,
    ensures
        ({
            let s = before + seq!['{', '{'] + inner + seq!['}', '}'] + after;
            let name = text::trimmed(inner);
            match template::classify(name) {
                None => template::fill(data, s) == Err::<Seq<char>, TokenFault>(
                    TokenFault::Malformed(name),
                ),
                Some((ns, key)) => template::lookup(data, ns, key) is None ==> template::fill(
                    data,
                    s,
                ) == Err::<Seq<char>, TokenFault>(TokenFault::Unknown(name)),
            }
        }),
{
    template::lemma_first_token(before, inner, after);
}

/// A token that is opened and not closed is malformed.
pub proof fn law_an_open_token_is_malformed(data: DataView, before: Seq<char>, rest: Seq<char>)
    requires
        opens_none(before.push('{')),
        closes_none(rest),
    ensures
        template::fill(data, before + seq!['{', '{'] + rest) matches Err(TokenFault::Malformed(_)),
        template::malformed_in(before + seq!['{', '{'] + rest).len() > 0,
{
    let s = before + seq!['{', '{'] + rest;
    let o = before.len() as int;
    assert forall|j: int| 0 <= j < o && j + 1 < s.len() implies !(s[j] == '{' && #[trigger] s[j + 1]
        == '{') by {
        let b = before.push('{');
        assert(b[j] == s[j]);
        assert(b[j + 1] == s[j + 1]);
    }
    text::lemma_find_pair(s, '{', o);
    assert(s.skip(o + 2) =~= rest);
    text::lemma_find_pair(rest, '}', rest.len() as int);
}

/// Every item of an array and every value of an object is rendered on its
/// own, and keys are kept.
pub proof fn law_each_leaf_is_rendered(data: DataView, d: JsonView)
    ensures
        template::fill_doc(data, d) matches Ok(out) ==> match d {
            JsonView::Str(s) => template::fill(data, s) matches Ok(t) && out == JsonView::Str(t),
            JsonView::Array(items) => {
                &&& out matches JsonView::Array(xs)
                &&& xs.len() == items.len()
                &&& forall|i: int|
                    0 <= i < items.len() ==> template::fill_doc(data, #[trigger] items[i]) == Ok::<
                        JsonView,
                        TokenFault,
                    >(xs[i])
            },
            JsonView::Object(entries) => {
                &&& out matches JsonView::Object(xs)
                &&& xs.len() == entries.len()
                &&& forall|i: int|
                    0 <= i < entries.len() ==> template::fill_doc(data, (#[trigger] entries[i]).1)
                        == Ok::<JsonView, TokenFault>(xs[i].1) && xs[i].0 == entries[i].0
            },
            _ => out == d,
        },
{
    match d {
        JsonView::Array(items) => {
            lemma_items_rendered(data, items);
        },
        JsonView::Object(entries) => {
            lemma_entries_rendered(data, entries);
        },
        _ => {},
    }
}

proof fn lemma_items_rendered(data: DataView, items: Seq<JsonView>)
    ensures
        template::fill_items(data, items) matches Ok(xs) ==> xs.len() == items.len() && forall|
            i: int,
        |
            0 <= i < items.len() ==> template::fill_doc(data, #[trigger] items[i]) == Ok::<
                JsonView,
                TokenFault,
            >(xs[i]),
    decreases items.len(),
{
    if items.len() > 0 {
        let t = items.drop_last();
        lemma_items_rendered(data, t);
        if template::fill_items(data, items) is Ok {
            let xs = template::fill_items(data, items)->Ok_0;
            assert forall|i: int| 0 <= i < items.len() implies template::fill_doc(
                data,
                #[trigger] items[i],
            ) == Ok::<JsonView, TokenFault>(xs[i]) by {
                if i < t.len() {
                    assert(t[i] == items[i]);
                }
            }
        }
    }
}

proof fn lemma_entries_rendered(data: DataView, entries: Seq<(Seq<char>, JsonView)>)
    ensures
        template::fill_entries(data, entries) matches Ok(xs) ==> xs.len() == entries.len()
            && forall|i: int|
            0 <= i < entries.len() ==> template::fill_doc(data, (#[trigger] entries[i]).1) == Ok::<
                JsonView,
                TokenFault,
            >(xs[i].1) && xs[i].0 == entries[i].0,
    decreases entries.len(),
{
    if entries.len() > 0 {
        let t = entries.drop_last();
        lemma_entries_rendered(data, t);
        if template::fill_entries(data, entries) is Ok {
            let xs = template::fill_entries(data, entries)->Ok_0;
            assert forall|i: int| 0 <= i < entries.len() implies template::fill_doc(
                data,
                (#[trigger] entries[i]).1,
            ) == Ok::<JsonView, TokenFault>(xs[i].1) && xs[i].0 == entries[i].0 by {
                if i < t.len() {
                    assert(t[i] == entries[i]);
                }
            }
        }
    }
}

/// A token that stands in a text is found there, and what follows is
/// searched on its own; a token that is none is reported as it is written.
pub proof fn law_each_token_is_found(before: Seq<char>, inner: Seq<char>, after: Seq<char>)
    requires
        text::find_pair(before.push('{'), '{') is None,
        text::find_pair(inner.push('}'), '}') is None,
    ensures
        ({
            let s = before + seq!['{', '{'] + inner + seq!['}', '}'] + after;
            &&& template::tokens(s) == seq![text::trimmed(inner)] + template::tokens(after)
            &&& template::malformed_in(s) == (if template::classify(text::trimmed(inner)) is None {
                seq![seq!['{', '{'] + inner + seq!['}', '}']]
            } else {
                Seq::empty()
            }) + template::malformed_in(after)
        }),
{
    template::lemma_first_token(before, inner, after);
    assert(Seq::<Seq<char>>::empty() + template::malformed_in(after) =~= template::malformed_in(
        after,
    ));
}

/// A build token is `build.` and its key; one that has no key, or space
/// inside, is malformed; every other token is left to the request.
pub proof fn law_build_tokens_are_named_so(key: Seq<char>, inner: Seq<char>)
    ensures
        key.len() > 0 && !text::has_white_space(key) ==> render::classify_build(
            "build"@ + seq!['.'] + key,
        ) == BuildToken::Key(key),
        render::classify_build(inner) matches BuildToken::Key(k) ==> k.len() > 0
            && !text::has_white_space(inner) && exists|i: int|
            0 <= i < inner.len() && inner[i] == '.' && #[trigger] inner.skip(i + 1) == k
                && text::trimmed(inner.take(i)) == "build"@,
        !inner.contains('.') && text::trimmed(inner) != "build"@ ==> render::classify_build(inner)
            is Other,
{
    reveal_strlit("build");
    if key.len() > 0 && !text::has_white_space(key) {
        let s = "build"@ + seq!['.'] + key;
        assert forall|j: int| 0 <= j < 5 implies #[trigger] s[j] != '.' && !text::is_white_space(
            s[j],
        ) by {
            assert(s[j] == "build"@[j]);
        }
        assert(s[5] == '.');
        text::lemma_find_char(s, '.', 5);
        assert(s.take(5) =~= "build"@);
        assert(s.skip(6) =~= key);
        assert forall|j: int| 0 <= j < s.len() implies !text::is_white_space(#[trigger] s[j]) by {
            if j > 5 {
                assert(s[j] == key[j - 6]);
            }
        }
        assert forall|j: int| 0 <= j < 5 implies !text::is_white_space(#[trigger] "build"@[j]) by {
            assert(s[j] == "build"@[j]);
        }
        text::lemma_trimmed_word("build"@);
    }
    text::lemma_find_char_is_first(inner, '.');
    if render::classify_build(inner) is Key {
        if text::find_char(inner, '.') is Some {
            let i = text::find_char(inner, '.')->0;
            assert(inner.skip(i + 1) == render::classify_build(inner)->Key_0);
        }
    }
}

/// A build value is given as a key, an equals sign and the rest: the key has
/// no space, and the value may hold anything, further signs included.
pub proof fn law_build_arguments_split_at_the_first_sign(
    key: Seq<char>,
    value: Seq<char>,
    arg: Seq<char>,
)
    ensures
        key.len() > 0 && !key.contains('=') && !text::has_white_space(key) ==> render::split_arg(
            key + seq!['='] + value,
        ) == Some((key, value)),
        render::split_arg(arg) matches Some((k, v)) ==> arg == k + seq!['='] + v && k.len() > 0
            && !k.contains('=') && !text::has_white_space(k),
{
    if key.len() > 0 && !key.contains('=') {
        let s = key + seq!['='] + value;
        let n = key.len() as int;
        assert forall|j: int| 0 <= j < n implies #[trigger] s[j] != '=' by {
            assert(s[j] == key[j]);
        }
        text::lemma_find_char(s, '=', n);
        assert(s.take(n) =~= key);
        assert(s.skip(n + 1) =~= value);
    }
    text::lemma_find_char_is_first(arg, '=');
    if render::split_arg(arg) is Some {
        let i = text::find_char(arg, '=')->0;
        assert(arg =~= arg.take(i) + seq!['='] + arg.skip(i + 1));
    }
}

/// The build values are those of the arguments, each key once.
pub proof fn law_build_values_are_the_arguments(args: Seq<Seq<char>>, k: Seq<char>)
    ensures
        render::vars_of(args) matches Ok(m) ==> {
            &&& m.contains_key(k) <==> exists|i: int|
                0 <= i < args.len() && #[trigger] gives(args[i], k)
            &&& forall|i: int|
                0 <= i < args.len() && #[trigger] gives(args[i], k) ==> render::split_arg(args[i])
                    == Some((k, m[k]))
            &&& forall|i: int, j: int|
                0 <= i < j < args.len() && #[trigger] gives(args[i], k) ==> !#[trigger] gives(
                    args[j],
                    k,
                )
        },
    decreases args.len(),
{
    if args.len() > 0 {
        let t = args.drop_last();
        law_build_values_are_the_arguments(t, k);
        if render::vars_of(args) is Ok {
            let m = render::vars_of(args)->Ok_0;
            let b = render::vars_of(t)->Ok_0;
            let last = args.len() - 1;
            assert(args[last] == args.last());
            assert forall|i: int| 0 <= i < last implies #[trigger] args[i] == t[i] by {}
            assert forall|i: int| 0 <= i < args.len() && #[trigger] gives(
                args[i],
                k,
            ) implies render::split_arg(args[i]) == Some((k, m[k])) && m.contains_key(k) by {
                if i < last {
                    assert(gives(t[i], k));
                }
            }
            if m.contains_key(k) {
                if b.contains_key(k) {
                    let i = choose|i: int| 0 <= i < t.len() && #[trigger] gives(t[i], k);
                    assert(gives(args[i], k));
                } else {
                    assert(gives(args[last], k));
                }
            }
            assert forall|i: int, j: int|
                0 <= i < j < args.len() && #[trigger] gives(args[i], k) implies !#[trigger] gives(
                args[j],
                k,
            ) by {
                assert(gives(t[i], k));
                if j < last {
                    assert(t[j] == args[j]);
                }
            }
        }
    }
}

/// The argument gives the key a value.
pub open spec fn gives(arg: Seq<char>, k: Seq<char>) -> bool {
    render::split_arg(arg) matches Some((key, _)) && key == k
}

/// A template file is one whose name ends in `.json`.
pub proof fn law_templates_are_json_files(stem: Seq<char>, name: Seq<char>)
    ensures
        stem.len() > 0 ==> render::template_name(stem + ".json"@),
        render::template_name(name) ==> exists|stem: Seq<char>|
            stem.len() > 0 && name == #[trigger] (stem + ".json"@),
{
    reveal_strlit(".json");
    let n = stem + ".json"@;
    assert(n.skip(n.len() - 5) =~= ".json"@);
    if render::template_name(name) {
        let stem = name.take(name.len() - 5);
        assert(name =~= stem + ".json"@);
    }
}

/// At build time, too, every item of an array and every value of an object
/// is rendered on its own, keys are kept, and what is reported of the whole
/// is what is reported of its parts.
pub proof fn law_each_leaf_is_built(vars: Map<Seq<char>, Seq<char>>, d: JsonView)
    ensures
        match d {
            JsonView::Str(s) => render::fill_doc(vars, d).out == JsonView::Str(
                render::fill(vars, s).out,
            ) && render::fill_doc(vars, d).unresolved == render::fill(vars, s).unresolved
                && render::fill_doc(vars, d).referenced == render::fill(vars, s).referenced,
            JsonView::Array(items) => {
                &&& render::fill_doc(vars, d).out matches JsonView::Array(xs)
                &&& xs.len() == items.len()
                &&& forall|i: int|
                    0 <= i < items.len() ==> xs[i] == render::fill_doc(vars, #[trigger] items[i]).out
                &&& forall|i: int, t: Seq<char>|
                    0 <= i < items.len() && #[trigger] render::fill_doc(
                        vars,
                        items[i],
                    ).unresolved.contains(t) ==> render::fill_doc(vars, d).unresolved.contains(t)
            },
            JsonView::Object(entries) => {
                &&& render::fill_doc(vars, d).out matches JsonView::Object(xs)
                &&& xs.len() == entries.len()
                &&& forall|i: int|
                    0 <= i < entries.len() ==> xs[i].0 == (#[trigger] entries[i]).0 && xs[i].1
                        == render::fill_doc(vars, entries[i].1).out
                &&& forall|i: int, t: Seq<char>|
                    0 <= i < entries.len() && #[trigger] render::fill_doc(
                        vars,
                        entries[i].1,
                    ).unresolved.contains(t) ==> render::fill_doc(vars, d).unresolved.contains(t)
            },
            _ => render::fill_doc(vars, d).out == d && render::fill_doc(vars, d).unresolved.len()
                == 0,
        },
{
    match d {
        JsonView::Array(items) => {
            lemma_items_built(vars, items);
        },
        JsonView::Object(entries) => {
            lemma_entries_built(vars, entries);
        },
        _ => {},
    }
}

proof fn lemma_items_built(vars: Map<Seq<char>, Seq<char>>, items: Seq<JsonView>)
    ensures
        render::fill_items(vars, items).out.len() == items.len(),
        forall|i: int|
            0 <= i < items.len() ==> render::fill_items(vars, items).out[i] == render::fill_doc(
                vars,
                #[trigger] items[i],
            ).out,
        forall|i: int, t: Seq<char>|
            0 <= i < items.len() && #[trigger] render::fill_doc(
                vars,
                items[i],
            ).unresolved.contains(t) ==> render::fill_items(vars, items).unresolved.contains(t),
    decreases items.len(),
{
    if items.len() > 0 {
        let h = items.drop_last();
        lemma_items_built(vars, h);
        let a = render::fill_items(vars, h);
        let last = items.len() - 1;
        let b = render::fill_doc(vars, items[last]);
        let all = render::fill_items(vars, items);
        assert forall|i: int| 0 <= i < items.len() implies all.out[i] == render::fill_doc(
            vars,
            #[trigger] items[i],
        ).out by {
            if i < last {
                assert(h[i] == items[i]);
            }
        }
        assert forall|i: int, t: Seq<char>|
            0 <= i < items.len() && #[trigger] render::fill_doc(
                vars,
                items[i],
            ).unresolved.contains(t) implies all.unresolved.contains(t) by {
            if i < last {
                assert(h[i] == items[i]);
                let j = choose|j: int| 0 <= j < a.unresolved.len() && a.unresolved[j] == t;
                assert(all.unresolved[j] == t);
            } else {
                let j = choose|j: int| 0 <= j < b.unresolved.len() && b.unresolved[j] == t;
                assert(all.unresolved[a.unresolved.len() + j] == t);
            }
        }
    }
}

proof fn lemma_entries_built(vars: Map<Seq<char>, Seq<char>>, entries: Seq<(Seq<char>, JsonView)>)
    ensures
        render::fill_entries(vars, entries).out.len() == entries.len(),
        forall|i: int|
            0 <= i < entries.len() ==> render::fill_entries(vars, entries).out[i].0
                == (#[trigger] entries[i]).0 && render::fill_entries(vars, entries).out[i].1
                == render::fill_doc(vars, entries[i].1).out,
        forall|i: int, t: Seq<char>|
            0 <= i < entries.len() && #[trigger] render::fill_doc(
                vars,
                entries[i].1,
            ).unresolved.contains(t) ==> render::fill_entries(vars, entries).unresolved.contains(t),
    decreases entries.len(),
{
    if entries.len() > 0 {
        let h = entries.drop_last();
        lemma_entries_built(vars, h);
        let a = render::fill_entries(vars, h);
        let last = entries.len() - 1;
        let b = render::fill_doc(vars, entries[last].1);
        let all = render::fill_entries(vars, entries);
        assert forall|i: int| 0 <= i < entries.len() implies all.out[i].0
            == (#[trigger] entries[i]).0 && all.out[i].1 == render::fill_doc(
            vars,
            entries[i].1,
        ).out by {
            if i < last {
                assert(h[i] == entries[i]);
            }
        }
        assert forall|i: int, t: Seq<char>|
            0 <= i < entries.len() && #[trigger] render::fill_doc(
                vars,
                entries[i].1,
            ).unresolved.contains(t) implies all.unresolved.contains(t) by {
            if i < last {
                assert(h[i] == entries[i]);
                let j = choose|j: int| 0 <= j < a.unresolved.len() && a.unresolved[j] == t;
                assert(all.unresolved[j] == t);
            } else {
                let j = choose|j: int| 0 <= j < b.unresolved.len() && b.unresolved[j] == t;
                assert(all.unresolved[a.unresolved.len() + j] == t);
            }
        }
    }
}

/// The templates of a directory are its files, each read whole and parsed;
/// the first that cannot be read or parsed stops the build and is named.
pub proof fn law_each_file_is_a_template(
    names: Seq<Seq<char>>,
    files: Map<Seq<char>, render::FileRead>,
)
    ensures
        match render::parsed_files(names, files) {
            Ok(ds) => ds.len() == names.len() && forall|i: int|
                0 <= i < names.len() ==> (files[#[trigger] names[i]] matches render::FileRead::Text(
                    t,
                ) && json::json_of(encode_utf8(t@)) == Some(ds[i])),
            Err(render::SetFault::ReadFailed(n, m)) => names.contains(n) && (
            files[n] matches render::FileRead::Failed(f) && f@ == m),
            Err(render::SetFault::NotJson(n, _)) => names.contains(n) && (
            files[n] matches render::FileRead::Text(t) && json::json_of(encode_utf8(t@)) is None),
        },
    decreases names.len(),
{
    if names.len() > 0 {
        let h = names.drop_last();
        law_each_file_is_a_template(h, files);
        assert(names[names.len() - 1] == names.last());
        match render::parsed_files(h, files) {
            Ok(_) => {
                if render::parsed_files(names, files) is Ok {
                    let ds = render::parsed_files(names, files)->Ok_0;
                    assert forall|i: int| 0 <= i < names.len() implies (
                    files[#[trigger] names[i]] matches render::FileRead::Text(t) && json::json_of(
                        encode_utf8(t@),
                    ) == Some(ds[i])) by {
                        if i < h.len() {
                            assert(h[i] == names[i]);
                        }
                    }
                } else {
                    assert(names.contains(names.last()));
                }
            },
            Err(f) => {
                let n = match f {
                    render::SetFault::ReadFailed(n, _) => n,
                    render::SetFault::NotJson(n, _) => n,
                };
                let i = choose|i: int| 0 <= i < h.len() && h[i] == n;
                assert(names[i] == n);
            },
        }
    }
}

/// What is built of a directory is each template, rendered, under its own
/// name, and the values that no template refers to are told.
pub proof fn law_built_files_are_the_templates(
    outputs: Seq<render::Output>,
    report: render::RenderReport,
    vars: Map<Seq<char>, Seq<char>>,
    names: Seq<Seq<char>>,
    ds: Seq<JsonView>,
    i: int,
    k: Seq<char>,
)
    requires
        render::set_rendered(outputs, report, vars, names, ds),
    ensures
        outputs.len() == ds.len(),
        0 <= i < outputs.len() ==> outputs[i].name@ == names[i] && outputs[i].contents@
            == json::json_pretty(render::fill_doc(vars, ds[i]).out) + "\n"@,
        text::texts(report.rendered@) == names,
        text::texts(report.unused_vars@).contains(k) <==> vars.contains_key(k) && forall|j: int|
            0 <= j < ds.len() ==> !render::fill_doc(vars, #[trigger] ds[j]).referenced.contains(k),
{
}

/// A build stops where a template has a token that nothing resolves, and
/// names the file and the token.
pub proof fn law_unresolved_tokens_stop_the_build(
    vars: Map<Seq<char>, Seq<char>>,
    names: Seq<Seq<char>>,
    ds: Seq<JsonView>,
    i: int,
)
    requires
        names.len() == ds.len(),
        0 <= i < ds.len(),
        render::fill_doc(vars, ds[i]).unresolved.len() > 0,
    ensures
        render::any_unresolved(vars, ds),
        exists|a: Seq<char>, b: Seq<char>|
            render::unresolved_lines(vars, names, ds) == #[trigger] (a + ("  "@ + names[i] + ": "@
                + text::joined(render::fill_doc(vars, ds[i]).unresolved, ", "@) + "\n"@) + b),
{
    lemma_line_told(vars, names, ds, i);
}

proof fn lemma_line_told(
    vars: Map<Seq<char>, Seq<char>>,
    names: Seq<Seq<char>>,
    ds: Seq<JsonView>,
    i: int,
)
    requires
        names.len() == ds.len(),
        0 <= i < ds.len(),
        render::fill_doc(vars, ds[i]).unresolved.len() > 0,
    ensures
        exists|a: Seq<char>, b: Seq<char>|
            render::unresolved_lines(vars, names, ds) == #[trigger] (a + ("  "@ + names[i] + ": "@
                + text::joined(render::fill_doc(vars, ds[i]).unresolved, ", "@) + "\n"@) + b),
    decreases ds.len(),
{
    let line = "  "@ + names[i] + ": "@ + text::joined(
        render::fill_doc(vars, ds[i]).unresolved,
        ", "@,
    ) + "\n"@;
    let all = render::unresolved_lines(vars, names, ds);
    let before = render::unresolved_lines(vars, names.drop_last(), ds.drop_last());
    let last = ds.len() - 1;
    if i == last {
        assert(all =~= before + line + Seq::<char>::empty());
    } else {
        assert(names.drop_last()[i] == names[i]);
        assert(ds.drop_last()[i] == ds[i]);
        lemma_line_told(vars, names.drop_last(), ds.drop_last(), i);
        let (a, b) = choose|a: Seq<char>, b: Seq<char>|
            before == #[trigger] (a + ("  "@ + names.drop_last()[i] + ": "@ + text::joined(
                render::fill_doc(vars, ds.drop_last()[i]).unresolved,
                ", "@,
            ) + "\n"@) + b);
        let rest = all.skip(before.len() as int);
        assert(all =~= before + rest);
        assert(all =~= a + line + (b + rest));
    }
}

} // verus!
