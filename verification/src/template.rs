//! Policy-template rendering.
//!
//! A role's policy template is JSON carrying `{{ ns.key }}` tokens inside
//! string values. Four namespaces, each a flat scalar lookup: `env`
//! (sealed configuration), `attested` (values on a discharge, restricted
//! to the role's declared names), `mint` (computed here) and `caveat`
//! (the primary's own chain).
//!
//! Rendering parses the template, substitutes into the string leaves, and
//! writes the document again. A value is placed into an already parsed
//! string, so it can never break out of its slot or change the document's
//! structure, and it is never scanned again.

use crate::caveat;
use crate::caveat::{Caveat, CaveatView, EffectiveCaveats, Resolved, ResolvedView};
use crate::json;
use crate::json::{Json, JsonView};
use crate::map::NameMap;
use crate::text;
use vstd::prelude::*;
use vstd::utf8::*;

verus! {

/// Why a template could not be rendered.
#[derive(Debug, PartialEq, Eq)]
pub enum TemplateError {
    /// The template is not valid JSON.
    NotJson { role: String, source: String },
    /// A token names a field absent from the render data.
    UnknownField { role: String, field: String },
    /// A token is not a `namespace.key` scalar path.
    MalformedToken { role: String, token: String },
}

/// What is wrong with a token.
pub enum TokenFault {
    Unknown(Seq<char>),
    Malformed(Seq<char>),
}

/// The only `mint.*` key that the renderer computes.
pub const MINT_EXPIRY: &'static str = "expiry";

/// Whether `s` is one of the namespaces.
pub open spec fn is_namespace(s: Seq<char>) -> bool {
    s == "env"@ || s == "mint"@ || s == "attested"@ || s == "caveat"@
}

/// A token's trimmed interior as `(namespace, key)`: no white space, a
/// known namespace before the first dot, a key behind it.
pub open spec fn classify(inner: Seq<char>) -> Option<(Seq<char>, Seq<char>)> {
    if inner.len() == 0 || text::has_white_space(inner) {
        None
    } else {
        match text::find_char(inner, '.') {
            Some(i) => if i + 1 < inner.len() && is_namespace(inner.take(i)) {
                Some((inner.take(i), inner.skip(i + 1)))
            } else {
                None
            },
            None => None,
        }
    }
}

/// The namespace of a well-formed interior.
pub open spec fn namespace_of(inner: Seq<char>) -> Seq<char> {
    match classify(inner) {
        Some((ns, _)) => ns,
        None => Seq::empty(),
    }
}

/// The key of a well-formed interior.
pub open spec fn key_of(inner: Seq<char>) -> Seq<char> {
    match classify(inner) {
        Some((_, key)) => key,
        None => Seq::empty(),
    }
}

/// The single definition of token shape, shared by the renderer, the
/// surface scanner and the lint.
fn classify_token(inner: &str) -> (r: Option<(String, String)>)
    ensures
        match r {
            Some((ns, key)) => classify(inner@) == Some((ns@, key@)),
            None => classify(inner@) is None,
        },
{
    let v = text::chars_of(inner);
    if v.len() == 0 {
        return None;
    }
    assert(v@.subrange(0, v@.len() as int) =~= v@);
    if text::any_white_space(&v, 0, v.len()) {
        return None;
    }
    match text::find_char_in(&v, '.') {
        None => None,
        Some(i) => {
            if i + 1 >= v.len() {
                return None;
            }
            let ns = text::string_of(&v, 0, i);
            let key = text::string_of(&v, i + 1, v.len());
            assert(ns@ =~= inner@.take(i as int));
            assert(key@ =~= inner@.skip(i + 1));
            if text::same(ns.as_str(), "env") || text::same(ns.as_str(), "mint") || text::same(
                ns.as_str(),
                "attested",
            ) || text::same(ns.as_str(), "caveat") {
                Some((ns, key))
            } else {
                None
            }
        },
    }
}

/// The four namespaces are different.
pub proof fn lemma_namespaces_differ()
    ensures
        "env"@ != "mint"@,
        "env"@ != "attested"@,
        "env"@ != "caveat"@,
        "mint"@ != "attested"@,
        "mint"@ != "caveat"@,
        "attested"@ != "caveat"@,
{
    reveal_strlit("env");
    reveal_strlit("mint");
    reveal_strlit("attested");
    reveal_strlit("caveat");
    assert("env"@.len() == 3);
    assert("mint"@.len() == 4);
    assert("attested"@.len() == 8);
    assert("caveat"@.len() == 6);
}

/// What the tokens of a template are resolved against.
pub struct RenderData<'a> {
    pub env: &'a NameMap<String>,
    pub attested_names: &'a [String],
    pub discharge_caveats: &'a [Caveat],
    pub caveats: &'a [Caveat],
    pub expiry: &'a str,
}

/// The render data as a mathematical value.
pub struct DataView {
    pub env: Map<Seq<char>, Seq<char>>,
    pub attested_names: Seq<Seq<char>>,
    pub discharge_caveats: Seq<CaveatView>,
    pub caveats: Seq<CaveatView>,
    pub expiry: Seq<char>,
}

impl<'a> View for RenderData<'a> {
    type V = DataView;

    open spec fn view(&self) -> DataView {
        DataView {
            env: self.env.texts(),
            attested_names: text::texts(self.attested_names@),
            discharge_caveats: caveat::chain(self.discharge_caveats@),
            caveats: caveat::chain(self.caveats@),
            expiry: self.expiry@,
        }
    }
}

/// The single value that a chain gives to a name.
pub open spec fn single(c: Seq<CaveatView>, name: Seq<char>) -> Option<Seq<char>> {
    match caveat::resolved(c, name) {
        ResolvedView::Value(v) => Some(v),
        _ => None,
    }
}

/// The value of a `namespace.key` path.
pub open spec fn lookup(data: DataView, ns: Seq<char>, key: Seq<char>) -> Option<Seq<char>> {
    if ns == "env"@ {
        if data.env.contains_key(key) {
            Some(data.env[key])
        } else {
            None
        }
    } else if ns == "mint"@ {
        if key == MINT_EXPIRY@ {
            Some(data.expiry)
        } else {
            None
        }
    } else if ns == "caveat"@ {
        single(data.caveats, key)
    } else if ns == "attested"@ {
        if data.attested_names.contains(key) {
            single(data.discharge_caveats, key)
        } else {
            None
        }
    } else {
        None
    }
}

/// The single value that a chain gives to a name.
pub fn single_value(caveats: &[Caveat], name: &str) -> (r: Option<String>)
    ensures
        match r {
            Some(v) => single(caveat::chain(caveats@), name@) == Some(v@),
            None => single(caveat::chain(caveats@), name@) is None,
        },
{
    match EffectiveCaveats::new(caveats).resolve(name) {
        Resolved::Value(v) => Some(v),
        _ => None,
    }
}

fn resolve_path(data: &RenderData<'_>, ns: &str, key: &str) -> (r: Option<String>)
    ensures
        match r {
            Some(v) => lookup(data@, ns@, key@) == Some(v@),
            None => lookup(data@, ns@, key@) is None,
        },
{
    if text::same(ns, "env") {
        match data.env.text(key) {
            Some(v) => Some(text::owned(v)),
            None => None,
        }
    } else if text::same(ns, "mint") {
        if text::same(key, MINT_EXPIRY) {
            Some(text::owned(data.expiry))
        } else {
            None
        }
    } else if text::same(ns, "caveat") {
        single_value(data.caveats, key)
    } else if text::same(ns, "attested") {
        if text::list_has(data.attested_names, key) {
            single_value(data.discharge_caveats, key)
        } else {
            None
        }
    } else {
        None
    }
}

/// One string leaf with every token replaced by its value. A value is
/// emitted as it is and never scanned.
pub open spec fn fill(data: DataView, s: Seq<char>) -> Result<Seq<char>, TokenFault>
    decreases s.len(),
{
    match text::find_pair(s, '{') {
        Some(o) if 0 <= o && o + 2 <= s.len() => {
            let after = s.skip(o + 2);
            match text::find_pair(after, '}') {
                Some(c) if 0 <= c && c + 2 <= after.len() => {
                    let inner = text::trimmed(after.take(c));
                    match classify(inner) {
                        None => Err(TokenFault::Malformed(inner)),
                        Some((ns, key)) => match lookup(data, ns, key) {
                            None => Err(TokenFault::Unknown(inner)),
                            Some(v) => match fill(data, after.skip(c + 2)) {
                                Err(e) => Err(e),
                                Ok(rest) => Ok(s.take(o) + v + rest),
                            },
                        },
                    }
                },
                _ => Err(TokenFault::Malformed(s.skip(o))),
            }
        },
        _ => Ok(s),
    }
}

/// A document with every string leaf filled; the first fault in document
/// order stops it.
pub open spec fn fill_doc(data: DataView, d: JsonView) -> Result<JsonView, TokenFault>
    decreases d,
{
    match d {
        JsonView::Str(s) => match fill(data, s) {
            Ok(t) => Ok(JsonView::Str(t)),
            Err(e) => Err(e),
        },
        JsonView::Array(items) => match fill_items(data, items) {
            Ok(x) => Ok(JsonView::Array(x)),
            Err(e) => Err(e),
        },
        JsonView::Object(entries) => match fill_entries(data, entries) {
            Ok(x) => Ok(JsonView::Object(x)),
            Err(e) => Err(e),
        },
        _ => Ok(d),
    }
}

/// The items of an array, filled in order.
pub open spec fn fill_items(data: DataView, items: Seq<JsonView>) -> Result<
    Seq<JsonView>,
    TokenFault,
>
    decreases items,
{
    if items.len() == 0 {
        Ok(Seq::empty())
    } else {
        match fill_items(data, items.drop_last()) {
            Err(e) => Err(e),
            Ok(xs) => match fill_doc(data, items[items.len() - 1]) {
                Err(e) => Err(e),
                Ok(x) => Ok(xs.push(x)),
            },
        }
    }
}

/// The values of an object, filled in order; keys are left as they are.
pub open spec fn fill_entries(data: DataView, entries: Seq<(Seq<char>, JsonView)>) -> Result<
    Seq<(Seq<char>, JsonView)>,
    TokenFault,
>
    decreases entries,
{
    if entries.len() == 0 {
        Ok(Seq::empty())
    } else {
        match fill_entries(data, entries.drop_last()) {
            Err(e) => Err(e),
            Ok(xs) => match fill_doc(data, entries[entries.len() - 1].1) {
                Err(e) => Err(e),
                Ok(x) => Ok(xs.push((entries[entries.len() - 1].0, x))),
            },
        }
    }
}

/// A token fault of the running renderer.
enum Fault {
    Unknown(String),
    Malformed(String),
}

spec fn fault_view(f: Fault) -> TokenFault {
    match f {
        Fault::Unknown(s) => TokenFault::Unknown(s@),
        Fault::Malformed(s) => TokenFault::Malformed(s@),
    }
}

/// Replaces every token in one string leaf.
fn substitute_string(s: &str, data: &RenderData<'_>) -> (r: Result<String, Fault>)
    ensures
        match r {
            Ok(t) => fill(data@, s@) == Ok::<Seq<char>, TokenFault>(t@),
            Err(f) => fill(data@, s@) == Err::<Seq<char>, TokenFault>(fault_view(f)),
        },
{
    let v = text::chars_of(s);
    let ghost d = data@;
    let n: usize = v.len();
    let mut out = String::new();
    let mut pos: usize = 0;
    proof {
        assert(v@.skip(0) =~= v@);
        if let Ok(t) = fill(d, s@) {
            assert(out@ + t =~= t);
        }
    }
    loop
        invariant
            v@ == s@,
            n == v@.len(),
            d == data@,
            pos <= v@.len(),
            fill(d, s@) == (match fill(d, v@.skip(pos as int)) {
                Ok(t) => Ok::<Seq<char>, TokenFault>(out@ + t),
                Err(e) => Err(e),
            }),
        decreases v@.len() - pos,
    {
        let ghost rest = v@.skip(pos as int);
        match text::find_pair_from(&v, '{', pos) {
            None => {
                let tail = text::string_of(&v, pos, v.len());
                assert(tail@ =~= rest);
                out.push_str(tail.as_str());
                return Ok(out);
            },
            Some(o) => {
                let after: usize = pos + o + 2;
                assert(rest.skip(o + 2) =~= v@.skip(after as int));
                match text::find_pair_from(&v, '}', after) {
                    None => {
                        assert(rest.skip(o as int) =~= v@.subrange(pos + o, v@.len() as int));
                        return Err(Fault::Malformed(text::string_of(&v, pos + o, v.len())));
                    },
                    Some(c) => {
                        let bounds = text::trim_bounds(&v, after, after + c);
                        assert(v@.skip(after as int).take(c as int) =~= v@.subrange(
                            after as int,
                            after + c,
                        ));
                        let inner = text::string_of(&v, bounds.0, bounds.1);
                        match classify_token(inner.as_str()) {
                            None => {
                                return Err(Fault::Malformed(inner));
                            },
                            Some((ns, key)) => match resolve_path(data, ns.as_str(), key.as_str()) {
                                None => {
                                    return Err(Fault::Unknown(inner));
                                },
                                Some(value) => {
                                    let head = text::string_of(&v, pos, pos + o);
                                    let ghost done = out@;
                                    out.push_str(head.as_str());
                                    out.push_str(value.as_str());
                                    proof {
                                        assert(head@ =~= rest.take(o as int));
                                        assert(v@.skip(after as int).skip(c + 2) =~= v@.skip(
                                            after + c + 2,
                                        ));
                                        if let Ok(t) = fill(d, v@.skip(after + c + 2)) {
                                            assert(done + (rest.take(o as int) + value@ + t)
                                                =~= out@ + t);
                                        }
                                    }
                                    pos = after + c + 2;
                                },
                            },
                        }
                    },
                }
            },
        }
    }
}

/// `serde_json::Number::clone`: the same number.
pub assume_specification[ <serde_json::Number as Clone>::clone ](
    n: &serde_json::Number,
) -> (r: serde_json::Number)
    ensures
        r == *n,
;

/// The document with tokens replaced in every string leaf. Numbers,
/// booleans, null and object keys are left as they are.
fn substitute_value(value: &Json, data: &RenderData<'_>) -> (r: Result<Json, Fault>)
    ensures
        match r {
            Ok(t) => fill_doc(data@, value@) == Ok::<JsonView, TokenFault>(t@),
            Err(f) => fill_doc(data@, value@) == Err::<JsonView, TokenFault>(fault_view(f)),
        },
    decreases value,
{
    let ghost d = data@;
    match value {
        Json::Null => Ok(Json::Null),
        Json::Bool(b) => Ok(Json::Bool(*b)),
        Json::PosInt(n) => Ok(Json::PosInt(*n)),
        Json::NegInt(n) => Ok(Json::NegInt(*n)),
        Json::Float(n) => Ok(Json::Float(n.clone())),
        Json::Str(s) => match substitute_string(s.as_str(), data) {
            Ok(t) => Ok(Json::Str(t)),
            Err(e) => Err(e),
        },
        Json::Array(items) => {
            let ghost all = value@->Array_0;
            proof {
                json::lemma_array_view(*value, *items);
            }
            let mut out: Vec<Json> = Vec::new();
            let mut i: usize = 0;
            assert(docs(out@) =~= Seq::<JsonView>::empty());
            while i < items.len()
                invariant
                    i <= items@.len() == all.len(),
                    d == data@,
                    value == Json::Array(*items),
                    value@ == JsonView::Array(all),
                    forall|j: int| 0 <= j < items@.len() ==> #[trigger] all[j] == items@[j]@,
                    fill_items(d, all.take(i as int)) == Ok::<Seq<JsonView>, TokenFault>(
                        docs(out@),
                    ),
                decreases items@.len() - i,
            {
                proof {
                    assert(all.take(i + 1).drop_last() =~= all.take(i as int));
                    assert(all.take(i + 1)[i as int] == items@[i as int]@);
                    assert(decreases_to!(value => items@[i as int]));
                }
                match substitute_value(&items[i], data) {
                    Ok(x) => {
                        let ghost done = docs(out@);
                        out.push(x);
                        assert(docs(out@) =~= done.push(x@));
                    },
                    Err(e) => {
                        proof {
                            lemma_fill_items_err(d, all, i + 1);
                        }
                        return Err(e);
                    },
                }
                i = i + 1;
            }
            assert(all.take(all.len() as int) =~= all);
            let r = Json::Array(out);
            proof {
                json::lemma_array_view(r, out);
                assert(r@->Array_0 =~= docs(out@));
            }
            Ok(r)
        },
        Json::Object(entries) => {
            let ghost all = value@->Object_0;
            proof {
                json::lemma_object_view(*value, *entries);
            }
            let mut out: Vec<(String, Json)> = Vec::new();
            let mut i: usize = 0;
            assert(pairs(out@) =~= Seq::<(Seq<char>, JsonView)>::empty());
            while i < entries.len()
                invariant
                    i <= entries@.len() == all.len(),
                    d == data@,
                    value == Json::Object(*entries),
                    value@ == JsonView::Object(all),
                    forall|j: int|
                        0 <= j < entries@.len() ==> #[trigger] all[j] == (
                            entries@[j].0@,
                            entries@[j].1@,
                        ),
                    fill_entries(d, all.take(i as int)) == Ok::<
                        Seq<(Seq<char>, JsonView)>,
                        TokenFault,
                    >(pairs(out@)),
                decreases entries@.len() - i,
            {
                proof {
                    assert(all.take(i + 1).drop_last() =~= all.take(i as int));
                    assert(all.take(i + 1)[i as int] == all[i as int]);
                    assert(decreases_to!(value => entries@[i as int].1));
                }
                match substitute_value(&entries[i].1, data) {
                    Ok(x) => {
                        let ghost done = pairs(out@);
                        out.push((entries[i].0.clone(), x));
                        assert(pairs(out@) =~= done.push((entries@[i as int].0@, x@)));
                    },
                    Err(e) => {
                        proof {
                            lemma_fill_entries_err(d, all, i + 1);
                        }
                        return Err(e);
                    },
                }
                i = i + 1;
            }
            assert(all.take(all.len() as int) =~= all);
            let r = Json::Object(out);
            proof {
                json::lemma_object_view(r, out);
                assert(r@->Object_0 =~= pairs(out@));
            }
            Ok(r)
        },
    }
}

/// The documents of a list.
spec fn docs(v: Seq<Json>) -> Seq<JsonView> {
    Seq::new(v.len(), |i: int| v[i]@)
}

/// The entries of a list.
spec fn pairs(v: Seq<(String, Json)>) -> Seq<(Seq<char>, JsonView)> {
    Seq::new(v.len(), |i: int| (v[i].0@, v[i].1@))
}

proof fn lemma_fill_items_err(data: DataView, items: Seq<JsonView>, n: int)
    requires
        0 <= n <= items.len(),
        fill_items(data, items.take(n)) is Err,
    ensures
        fill_items(data, items) == fill_items(data, items.take(n)),
    decreases items.len(),
{
    if n == items.len() {
        assert(items.take(n) =~= items);
    } else {
        assert(items.drop_last().take(n) =~= items.take(n));
        lemma_fill_items_err(data, items.drop_last(), n);
    }
}

proof fn lemma_fill_entries_err(data: DataView, entries: Seq<(Seq<char>, JsonView)>, n: int)
    requires
        0 <= n <= entries.len(),
        fill_entries(data, entries.take(n)) is Err,
    ensures
        fill_entries(data, entries) == fill_entries(data, entries.take(n)),
    decreases entries.len(),
{
    if n == entries.len() {
        assert(entries.take(n) =~= entries);
    } else {
        assert(entries.drop_last().take(n) =~= entries.take(n));
        lemma_fill_entries_err(data, entries.drop_last(), n);
    }
}

/// A template error as a token fault of a role.
pub open spec fn error_is(e: TemplateError, role: Seq<char>, f: TokenFault) -> bool {
    match f {
        TokenFault::Unknown(s) => e matches TemplateError::UnknownField { role: r, field } && r@
            == role && field@ == s,
        TokenFault::Malformed(s) => e matches TemplateError::MalformedToken { role: r, token }
            && r@ == role && token@ == s,
    }
}

/// Fills a parsed template for a role.
pub fn fill_template(doc: &Json, data: &RenderData<'_>, role: &str) -> (r: Result<
    Json,
    TemplateError,
>)
    ensures
        match r {
            Ok(t) => fill_doc(data@, doc@) == Ok::<JsonView, TokenFault>(t@),
            Err(e) => fill_doc(data@, doc@) is Err && error_is(
                e,
                role@,
                fill_doc(data@, doc@)->Err_0,
            ),
        },
{
    match substitute_value(doc, data) {
        Ok(t) => Ok(t),
        Err(Fault::Unknown(s)) => Err(
            TemplateError::UnknownField { role: text::owned(role), field: s },
        ),
        Err(Fault::Malformed(s)) => Err(
            TemplateError::MalformedToken { role: text::owned(role), token: s },
        ),
    }
}

/// Renders a policy template into a concrete policy. `attested.*` exposes
/// only the names of the role's declared contract, taken from the
/// discharge caveats; `caveat.*` exposes the primary's own chain; a name
/// whose occurrences contradict is not exposed by either, so a token over
/// it fails the render closed.
pub fn render_policy(
    policy_template: &str,
    env: &NameMap<String>,
    attested_names: &[String],
    discharge_caveats: &[Caveat],
    caveats: &[Caveat],
    expiry: &str,
    role: &str,
) -> (r: Result<String, TemplateError>)
    ensures
        ({
            let data = RenderData { env, attested_names, discharge_caveats, caveats, expiry }@;
            match json::json_of(encode_utf8(policy_template@)) {
                None => r matches Err(TemplateError::NotJson { role: n, source }) && n@ == role@
                    && source@ == json::json_fault(encode_utf8(policy_template@)),
                Some(doc) => match fill_doc(data, doc) {
                    Ok(out) => {
                        &&& r matches Ok(t)
                        &&& t@ == json::json_text(out)
                        &&& json::json_of(encode_utf8(t@)) matches Some(back)
                        &&& json::agree(out, back)
                    },
                    Err(f) => r matches Err(e) && error_is(e, role@, f),
                },
            }
        }),
{
    let doc = match json::read_json(policy_template.as_bytes()) {
        Ok(d) => d,
        Err(source) => {
            return Err(TemplateError::NotJson { role: text::owned(role), source });
        },
    };
    let data = RenderData { env, attested_names, discharge_caveats, caveats, expiry };
    match fill_template(&doc, &data, role) {
        Ok(t) => {
            proof {
                law_render_keeps_structure(data@, doc@);
            }
            Ok(json::write_json(&t))
        },
        Err(e) => Err(e),
    }
}

/// Two documents have the same structure: the same arrays, objects, keys,
/// numbers, booleans and nulls, and strings in the same places.
pub open spec fn same_structure(a: JsonView, b: JsonView) -> bool
    decreases a,
{
    match (a, b) {
        (JsonView::Str(_), JsonView::Str(_)) => true,
        (JsonView::Array(x), JsonView::Array(y)) => x.len() == y.len() && forall|i: int|
            0 <= i < x.len() ==> same_structure(#[trigger] x[i], y[i]),
        (JsonView::Object(x), JsonView::Object(y)) => x.len() == y.len() && forall|i: int|
            0 <= i < x.len() ==> (#[trigger] x[i]).0 == y[i].0 && same_structure(x[i].1, y[i].1),
        _ => a == b,
    }
}

/// Whatever the values hold, rendering keeps the structure of the
/// template: only string leaves change. So what can be read back stays
/// so.
pub proof fn law_render_keeps_structure(data: DataView, d: JsonView)
    requires
        fill_doc(data, d) is Ok,
    ensures
        same_structure(d, fill_doc(data, d)->Ok_0),
        json::depth(fill_doc(data, d)->Ok_0) == json::depth(d),
        json::ordered(d) ==> json::ordered(fill_doc(data, d)->Ok_0),
    decreases d,
{
    match d {
        JsonView::Array(items) => {
            lemma_fill_items(data, items);
            let out = fill_items(data, items)->Ok_0;
            if json::ordered(d) {
                assert forall|i: int| 0 <= i < out.len() implies json::ordered(
                    #[trigger] out[i],
                ) by {
                    assert(json::ordered(items[i]));
                }
            }
        },
        JsonView::Object(entries) => {
            lemma_fill_entries(data, entries);
            let out = fill_entries(data, entries)->Ok_0;
            if json::ordered(d) {
                assert forall|i: int, j: int| 0 <= i < j < out.len() implies text::precedes(
                    #[trigger] out[i].0,
                    #[trigger] out[j].0,
                ) by {
                    assert(entries[i].0 == out[i].0 && entries[j].0 == out[j].0);
                }
                assert forall|i: int| 0 <= i < out.len() implies json::ordered(
                    (#[trigger] out[i]).1,
                ) by {
                    assert(json::ordered(entries[i].1));
                }
            }
        },
        _ => {},
    }
}

proof fn lemma_fill_items(data: DataView, items: Seq<JsonView>)
    requires
        fill_items(data, items) is Ok,
    ensures
        ({
            let out = fill_items(data, items)->Ok_0;
            &&& out.len() == items.len()
            &&& json::items_depth(out) == json::items_depth(items)
            &&& forall|i: int| 0 <= i < items.len() ==> same_structure(#[trigger] items[i], out[i])
            &&& forall|i: int|
                0 <= i < items.len() && json::ordered(#[trigger] items[i]) ==> json::ordered(
                    out[i],
                )
            &&& forall|i: int|
                0 <= i < items.len() ==> fill_doc(data, #[trigger] items[i]) == Ok::<
                    JsonView,
                    TokenFault,
                >(out[i])
        }),
    decreases items,
{
    if items.len() > 0 {
        let last = items.len() - 1;
        lemma_fill_items(data, items.drop_last());
        law_render_keeps_structure(data, items[last]);
        let out = fill_items(data, items)->Ok_0;
        assert(out.drop_last() =~= fill_items(data, items.drop_last())->Ok_0);
        assert forall|i: int| 0 <= i < items.len() implies same_structure(
            #[trigger] items[i],
            out[i],
        ) && (json::ordered(items[i]) ==> json::ordered(out[i])) && fill_doc(data, items[i]) == Ok::<
            JsonView,
            TokenFault,
        >(out[i]) by {
            if i < last {
                assert(items.drop_last()[i] == items[i]);
            }
        }
    }
}

proof fn lemma_fill_entries(data: DataView, entries: Seq<(Seq<char>, JsonView)>)
    requires
        fill_entries(data, entries) is Ok,
    ensures
        ({
            let out = fill_entries(data, entries)->Ok_0;
            &&& out.len() == entries.len()
            &&& json::entries_depth(out) == json::entries_depth(entries)
            &&& forall|i: int|
                0 <= i < entries.len() ==> (#[trigger] entries[i]).0 == out[i].0 && same_structure(
                    entries[i].1,
                    out[i].1,
                )
            &&& forall|i: int|
                0 <= i < entries.len() && json::ordered((#[trigger] entries[i]).1)
                    ==> json::ordered(out[i].1)
        }),
    decreases entries,
{
    if entries.len() > 0 {
        let last = entries.len() - 1;
        lemma_fill_entries(data, entries.drop_last());
        law_render_keeps_structure(data, entries[last].1);
        let out = fill_entries(data, entries)->Ok_0;
        assert(out.drop_last() =~= fill_entries(data, entries.drop_last())->Ok_0);
        assert forall|i: int| 0 <= i < entries.len() implies (#[trigger] entries[i]).0 == out[i].0
            && same_structure(entries[i].1, out[i].1) && (json::ordered(entries[i].1)
            ==> json::ordered(out[i].1)) by {
            if i < last {
                assert(entries.drop_last()[i] == entries[i]);
            }
        }
    }
}

/// The trimmed interiors of the tokens of a text, in order, up to an
/// unterminated one.
pub open spec fn tokens(s: Seq<char>) -> Seq<Seq<char>>
    decreases s.len(),
{
    match text::find_pair(s, '{') {
        Some(o) if 0 <= o && o + 2 <= s.len() => {
            let after = s.skip(o + 2);
            match text::find_pair(after, '}') {
                Some(c) if 0 <= c && c + 2 <= after.len() => seq![text::trimmed(after.take(c))]
                    + tokens(after.skip(c + 2)),
                _ => Seq::empty(),
            }
        },
        _ => Seq::empty(),
    }
}

/// The interior `x` is a token of the text in namespace `ns`.
pub open spec fn references(s: Seq<char>, ns: Seq<char>, x: Seq<char>) -> bool {
    tokens(s).contains(x) && classify(x) is Some && namespace_of(x) == ns
}

/// The substitution surface that a policy template references, grouped
/// by where a value comes from. Each list is sorted, each entry once.
#[derive(Debug, PartialEq, Eq)]
pub struct TemplateSurface {
    pub env: Vec<String>,
    pub mint: Vec<String>,
    pub attested: Vec<String>,
    pub caveat: Vec<String>,
}

/// `list` is the references of a text in one namespace, ascending.
pub open spec fn lists_references(list: Seq<String>, s: Seq<char>, ns: Seq<char>) -> bool {
    &&& text::ascending(text::texts(list))
    &&& forall|x: Seq<char>|
        #![trigger text::texts(list).contains(x)]
        #![trigger references(s, ns, x)]
        text::texts(list).contains(x) <==> references(s, ns, x)
}

/// The tokens of a text.
fn tokens_of(s: &str) -> (r: Vec<String>)
    ensures
        text::texts(r@) == tokens(s@),
{
    let v = text::chars_of(s);
    let n: usize = v.len();
    let mut r: Vec<String> = Vec::new();
    let mut pos: usize = 0;
    proof {
        assert(v@.skip(0) =~= v@);
        assert(text::texts(r@) + tokens(v@.skip(0)) =~= tokens(s@));
    }
    loop
        invariant
            v@ == s@,
            n == v@.len(),
            pos <= n,
            text::texts(r@) + tokens(v@.skip(pos as int)) == tokens(s@),
        decreases n - pos,
    {
        let ghost rest = v@.skip(pos as int);
        let o = match text::find_pair_from(&v, '{', pos) {
            Some(o) => o,
            None => {
                assert(text::texts(r@) + Seq::<Seq<char>>::empty() =~= text::texts(r@));
                return r;
            },
        };
        let after: usize = pos + o + 2;
        assert(rest.skip(o + 2) =~= v@.skip(after as int));
        let c = match text::find_pair_from(&v, '}', after) {
            Some(c) => c,
            None => {
                assert(text::texts(r@) + Seq::<Seq<char>>::empty() =~= text::texts(r@));
                return r;
            },
        };
        let bounds = text::trim_bounds(&v, after, after + c);
        let inner = text::string_of(&v, bounds.0, bounds.1);
        let ghost done = text::texts(r@);
        let ghost x = inner@;
        r.push(inner);
        proof {
            assert(v@.skip(after as int).take(c as int) =~= v@.subrange(after as int, after + c));
            assert(v@.skip(after as int).skip(c + 2) =~= v@.skip(after + c + 2));
            assert(text::texts(r@) =~= done.push(x));
            assert(text::texts(r@) + tokens(v@.skip(after + c + 2)) =~= done + tokens(rest));
        }
        pos = after + c + 2;
    }
}

/// The tokens among `ts` that are in namespace `ns`, sorted, each once.
fn in_namespace(ts: &[String], ns: &str) -> (r: Vec<String>)
    ensures
        text::ascending(text::texts(r@)),
        forall|x: Seq<char>| #[trigger]
            text::texts(r@).contains(x) <==> text::texts(ts@).contains(x) && classify(x) is Some
                && namespace_of(x) == ns@,
{
    let mut found: Vec<String> = Vec::new();
    let mut i: usize = 0;
    while i < ts.len()
        invariant
            i <= ts@.len(),
            forall|x: Seq<char>| #[trigger]
                text::texts(found@).contains(x) <==> text::texts(ts@.take(i as int)).contains(x)
                    && classify(x) is Some && namespace_of(x) == ns@,
        decreases ts@.len() - i,
    {
        let ghost y = ts@[i as int]@;
        let ghost f0 = text::texts(found@);
        let ghost t0 = text::texts(ts@.take(i as int));
        let ghost t1 = text::texts(ts@.take(i + 1));
        assert(t1 =~= t0.push(y));
        if let Some((n, _)) = classify_token(ts[i].as_str()) {
            if text::same(n.as_str(), ns) {
                found.push(ts[i].clone());
                assert(text::texts(found@) =~= f0.push(y));
            }
        }
        proof {
            let f1 = text::texts(found@);
            assert forall|x: Seq<char>| #[trigger]
                f1.contains(x) <==> t1.contains(x) && classify(x) is Some && namespace_of(x)
                    == ns@ by {
                lemma_push_contains(t0, y, x);
                lemma_push_contains(f0, y, x);
            }
        }
        i = i + 1;
    }
    assert(ts@.take(ts@.len() as int) =~= ts@);
    text::sorted_set(&found)
}

/// What is in a list with one more entry.
pub proof fn lemma_push_contains(s: Seq<Seq<char>>, y: Seq<char>, x: Seq<char>)
    ensures
        s.push(y).contains(x) <==> s.contains(x) || x == y,
{
    let t = s.push(y);
    if s.contains(x) {
        let k = choose|k: int| 0 <= k < s.len() && s[k] == x;
        assert(t[k] == x);
    }
    if x == y {
        assert(t[s.len() as int] == x);
    }
    if t.contains(x) {
        let k = choose|k: int| 0 <= k < t.len() && t[k] == x;
        if k < s.len() {
            assert(s[k] == x);
        }
    }
}

/// The substitution surface of a policy template. Best effort: a
/// malformed token contributes nothing.
pub fn template_surface(template: &str) -> (r: TemplateSurface)
    ensures
        lists_references(r.env@, template@, "env"@),
        lists_references(r.mint@, template@, "mint"@),
        lists_references(r.attested@, template@, "attested"@),
        lists_references(r.caveat@, template@, "caveat"@),
{
    let ts = tokens_of(template);
    TemplateSurface {
        env: in_namespace(&ts, "env"),
        mint: in_namespace(&ts, "mint"),
        attested: in_namespace(&ts, "attested"),
        caveat: in_namespace(&ts, "caveat"),
    }
}

/// The tokens of one string that the renderer would refuse as malformed,
/// as they stand in it.
pub open spec fn malformed_in(s: Seq<char>) -> Seq<Seq<char>>
    decreases s.len(),
{
    match text::find_pair(s, '{') {
        Some(o) if 0 <= o && o + 2 <= s.len() => {
            let after = s.skip(o + 2);
            match text::find_pair(after, '}') {
                Some(c) if 0 <= c && c + 2 <= after.len() => {
                    let rest = malformed_in(after.skip(c + 2));
                    if classify(text::trimmed(after.take(c))) is None {
                        seq![s.subrange(o, o + 2 + c + 2)] + rest
                    } else {
                        rest
                    }
                },
                _ => seq![s.skip(o)],
            }
        },
        _ => Seq::empty(),
    }
}

/// The malformed tokens of a document's string leaves, in document order.
pub open spec fn malformed_of(d: JsonView) -> Seq<Seq<char>>
    decreases d,
{
    match d {
        JsonView::Str(s) => malformed_in(s),
        JsonView::Array(items) => malformed_items(items),
        JsonView::Object(entries) => malformed_entries(entries),
        _ => Seq::empty(),
    }
}

/// The malformed tokens of an array's items.
pub open spec fn malformed_items(items: Seq<JsonView>) -> Seq<Seq<char>>
    decreases items,
{
    if items.len() == 0 {
        Seq::empty()
    } else {
        malformed_items(items.drop_last()) + malformed_of(items[items.len() - 1])
    }
}

/// The malformed tokens of an object's values.
pub open spec fn malformed_entries(entries: Seq<(Seq<char>, JsonView)>) -> Seq<Seq<char>>
    decreases entries,
{
    if entries.len() == 0 {
        Seq::empty()
    } else {
        malformed_entries(entries.drop_last()) + malformed_of(entries[entries.len() - 1].1)
    }
}

fn collect_malformed_in_str(s: &str, out: &mut Vec<String>)
    ensures
        text::texts(final(out)@) == text::texts(old(out)@) + malformed_in(s@),
{
    let v = text::chars_of(s);
    let n: usize = v.len();
    let ghost start = text::texts(out@);
    let mut pos: usize = 0;
    assert(v@.skip(0) =~= v@);
    loop
        invariant
            v@ == s@,
            n == v@.len(),
            pos <= n,
            start == text::texts(old(out)@),
            text::texts(out@) + malformed_in(v@.skip(pos as int)) == start + malformed_in(s@),
        decreases n - pos,
    {
        let ghost rest = v@.skip(pos as int);
        let ghost done = text::texts(out@);
        let o = match text::find_pair_from(&v, '{', pos) {
            Some(o) => o,
            None => {
                assert(done + Seq::<Seq<char>>::empty() =~= done);
                return;
            },
        };
        let after: usize = pos + o + 2;
        assert(rest.skip(o + 2) =~= v@.skip(after as int));
        let c = match text::find_pair_from(&v, '}', after) {
            Some(c) => c,
            None => {
                let tail = text::string_of(&v, pos + o, n);
                assert(tail@ =~= rest.skip(o as int));
                let ghost x = tail@;
                out.push(tail);
                assert(text::texts(out@) =~= done + seq![x]);
                return;
            },
        };
        let bounds = text::trim_bounds(&v, after, after + c);
        let inner = text::string_of(&v, bounds.0, bounds.1);
        proof {
            assert(v@.skip(after as int).take(c as int) =~= v@.subrange(after as int, after + c));
            assert(v@.skip(after as int).skip(c + 2) =~= v@.skip(after + c + 2));
        }
        if classify_token(inner.as_str()).is_none() {
            let token = text::string_of(&v, pos + o, after + c + 2);
            let ghost x = token@;
            assert(x =~= rest.subrange(o as int, o + 2 + c + 2));
            out.push(token);
            assert(text::texts(out@) =~= done.push(x));
            assert(text::texts(out@) + malformed_in(v@.skip(after + c + 2)) =~= done
                + malformed_in(rest));
        }
        pos = after + c + 2;
    }
}

fn collect_malformed(value: &Json, out: &mut Vec<String>)
    ensures
        text::texts(final(out)@) == text::texts(old(out)@) + malformed_of(value@),
    decreases value,
{
    let ghost start = text::texts(out@);
    match value {
        Json::Str(s) => collect_malformed_in_str(s.as_str(), out),
        Json::Array(items) => {
            let ghost all = value@->Array_0;
            proof {
                json::lemma_array_view(*value, *items);
            }
            let mut i: usize = 0;
            assert(start + malformed_items(all.take(0)) =~= start);
            while i < items.len()
                invariant
                    i <= items@.len() == all.len(),
                    value == Json::Array(*items),
                    value@ == JsonView::Array(all),
                    forall|j: int| 0 <= j < items@.len() ==> #[trigger] all[j] == items@[j]@,
                    text::texts(out@) == start + malformed_items(all.take(i as int)),
                decreases items@.len() - i,
            {
                proof {
                    assert(all.take(i + 1).drop_last() =~= all.take(i as int));
                    assert(all.take(i + 1)[i as int] == items@[i as int]@);
                    assert(decreases_to!(value => items@[i as int]));
                }
                collect_malformed(&items[i], out);
                assert(text::texts(out@) =~= start + malformed_items(all.take(i + 1)));
                i = i + 1;
            }
            assert(all.take(all.len() as int) =~= all);
        },
        Json::Object(entries) => {
            let ghost all = value@->Object_0;
            proof {
                json::lemma_object_view(*value, *entries);
            }
            let mut i: usize = 0;
            assert(start + malformed_entries(all.take(0)) =~= start);
            while i < entries.len()
                invariant
                    i <= entries@.len() == all.len(),
                    value == Json::Object(*entries),
                    value@ == JsonView::Object(all),
                    forall|j: int|
                        0 <= j < entries@.len() ==> #[trigger] all[j] == (
                            entries@[j].0@,
                            entries@[j].1@,
                        ),
                    text::texts(out@) == start + malformed_entries(all.take(i as int)),
                decreases entries@.len() - i,
            {
                proof {
                    assert(all.take(i + 1).drop_last() =~= all.take(i as int));
                    assert(all.take(i + 1)[i as int] == all[i as int]);
                    assert(decreases_to!(value => entries@[i as int].1));
                }
                collect_malformed(&entries[i].1, out);
                assert(text::texts(out@) =~= start + malformed_entries(all.take(i + 1)));
                i = i + 1;
            }
            assert(all.take(all.len() as int) =~= all);
        },
        _ => {
            assert(start + malformed_of(value@) =~= start);
        },
    }
}

/// Every token in the parsed template's string leaves that the renderer
/// would refuse as malformed: a shape check only. An absent value is not
/// malformed.
pub fn malformed_tokens(doc: &Json) -> (r: Vec<String>)
    ensures
        text::texts(r@) == malformed_of(doc@),
{
    let mut out: Vec<String> = Vec::new();
    collect_malformed(doc, &mut out);
    assert(text::texts(out@) =~= malformed_of(doc@));
    out
}

/// A string as `Debug` writes it: in quotes, with escapes.
pub uninterp spec fn quoted(s: Seq<char>) -> Seq<char>;

/// `Debug` for `str`.
#[verifier::external_body]
pub(crate) fn quote(s: &str) -> (r: String)
    ensures
        r@ == quoted(s@),
{
    format!("{s:?}")
}

impl TemplateError {
    /// The message for the operator; it names the role.
    pub fn message(&self) -> (r: String)
        ensures
            r@ == match self {
                TemplateError::NotJson { role, source } => "policy template for role "@ + quoted(
                    role@,
                ) + " is not valid JSON: "@ + source@,
                TemplateError::UnknownField { role, field } => "policy for role "@ + quoted(role@)
                    + " references unknown field '"@ + field@ + "'"@,
                TemplateError::MalformedToken { role, token } => "policy for role "@ + quoted(role@)
                    + " has a malformed substitution '"@ + token@ + "'"@,
            },
    {
        match self {
            TemplateError::NotJson { role, source } => {
                let mut m = text::owned("policy template for role ");
                m.push_str(quote(role.as_str()).as_str());
                m.push_str(" is not valid JSON: ");
                m.push_str(source.as_str());
                m
            },
            TemplateError::UnknownField { role, field } => {
                let mut m = text::owned("policy for role ");
                m.push_str(quote(role.as_str()).as_str());
                m.push_str(" references unknown field '");
                m.push_str(field.as_str());
                m.push_str("'");
                m
            },
            TemplateError::MalformedToken { role, token } => {
                let mut m = text::owned("policy for role ");
                m.push_str(quote(role.as_str()).as_str());
                m.push_str(" has a malformed substitution '");
                m.push_str(token.as_str());
                m.push_str("'");
                m
            },
        }
    }
}

/// Where the first token of a text stands: behind text that opens nothing,
/// up to the first pair that closes it.
pub proof fn lemma_first_token(before: Seq<char>, inner: Seq<char>, after: Seq<char>)
    requires
        text::find_pair(before.push('{'), '{') is None,
        text::find_pair(inner.push('}'), '}') is None,
    ensures
        ({
            let s = before + seq!['{', '{'] + inner + seq!['}', '}'] + after;
            let o = before.len() as int;
            let c = inner.len() as int;
            let t = s.skip(o + 2);
            &&& text::find_pair(s, '{') == Some(o)
            &&& text::find_pair(t, '}') == Some(c)
            &&& s.take(o) == before
            &&& t.take(c) == inner
            &&& t.skip(c + 2) == after
            &&& s.subrange(o, o + 2 + c + 2) == seq!['{', '{'] + inner + seq!['}', '}']
        }),
{
    let s = before + seq!['{', '{'] + inner + seq!['}', '}'] + after;
    let o = before.len() as int;
    lemma_no_pair(before.push('{'), '{');
    assert forall|j: int| 0 <= j < o && j + 1 < s.len() implies !(s[j] == '{' && #[trigger] s[j + 1]
        == '{') by {
        let b = before.push('{');
        assert(b[j] == s[j]);
        assert(b[j + 1] == s[j + 1]);
    }
    text::lemma_find_pair(s, '{', o);
    let t = s.skip(o + 2);
    let c = inner.len() as int;
    assert(t =~= inner + seq!['}', '}'] + after);
    lemma_no_pair(inner.push('}'), '}');
    assert forall|j: int| 0 <= j < c && j + 1 < t.len() implies !(t[j] == '}' && #[trigger] t[j + 1]
        == '}') by {
        let b = inner.push('}');
        assert(b[j] == t[j]);
        assert(b[j + 1] == t[j + 1]);
    }
    text::lemma_find_pair(t, '}', c);
    assert(t.take(c) =~= inner);
    assert(t.skip(c + 2) =~= after);
    assert(s.take(o) =~= before);
    assert(s.subrange(o, o + 2 + c + 2) =~= seq!['{', '{'] + inner + seq!['}', '}']);
}

/// A token is replaced by its value, whatever the value holds and whatever
/// follows: it lands intact and is not scanned again. What follows is
/// filled on its own, and its fault is the text's.
pub proof fn law_value_lands_intact(
    data: DataView,
    before: Seq<char>,
    inner: Seq<char>,
    after: Seq<char>,
)
    requires
        text::find_pair(before.push('{'), '{') is None,
        text::find_pair(inner.push('}'), '}') is None,
        classify(text::trimmed(inner)) is Some,
        lookup(
            data,
            namespace_of(text::trimmed(inner)),
            key_of(text::trimmed(inner)),
        ) is Some,
    ensures
        fill(data, before + seq!['{', '{'] + inner + seq!['}', '}'] + after) == (match fill(
            data,
            after,
        ) {
            Ok(rest) => Ok::<Seq<char>, TokenFault>(
                before + lookup(
                    data,
                    namespace_of(text::trimmed(inner)),
                    key_of(text::trimmed(inner)),
                )->0 + rest,
            ),
            Err(e) => Err::<Seq<char>, TokenFault>(e),
        }),
{
    lemma_first_token(before, inner, after);
}

/// A text in which no pair is found has none.
proof fn lemma_no_pair(s: Seq<char>, c: char)
    requires
        text::find_pair(s, c) is None,
    ensures
        forall|j: int| 0 <= j && j + 1 < s.len() ==> !(s[j] == c && #[trigger] s[j + 1] == c),
    decreases s.len(),
{
    if s.len() >= 2 {
        let t = s.drop_first();
        lemma_no_pair(t, c);
        assert forall|j: int| 0 <= j && j + 1 < s.len() implies !(s[j] == c && #[trigger] s[j + 1]
            == c) by {
            if j > 0 {
                assert(t[j - 1] == s[j]);
                assert(t[(j - 1) + 1] == s[j + 1]);
            }
        }
    }
}

/// A value that a discharge carries under a name outside the role's
/// declared contract reaches no policy slot.
pub proof fn law_undeclared_attested_name_is_unknown(data: DataView, key: Seq<char>)
    requires
        !data.attested_names.contains(key),
    ensures
        lookup(data, "attested"@, key) is None,
{
    lemma_namespaces_differ();
}

/// What a discharge carries never shows under `caveat.*`: that namespace
/// depends on the primary's chain alone.
pub proof fn law_discharge_never_shadows_primary(
    data: DataView,
    other: Seq<CaveatView>,
    key: Seq<char>,
)
    ensures
        lookup(data, "caveat"@, key) == lookup(
            DataView { discharge_caveats: other, ..data },
            "caveat"@,
            key,
        ),
{
}

/// A name on which the primary's occurrences disagree is exposed by no
/// render: a token over it is an unknown field.
pub proof fn law_contradictory_caveat_is_unknown(data: DataView, key: Seq<char>)
    requires
        caveat::resolved(data.caveats, key) is Unsatisfiable,
    ensures
        lookup(data, "caveat"@, key) is None,
{
    lemma_namespaces_differ();
}

/// The lint and the renderer agree on what is malformed: a document that
/// the lint passes is refused by no render as malformed, whatever it is
/// rendered with, and one that the lint faults renders with nothing.
pub proof fn law_lint_agrees_with_renderer(data: DataView, d: JsonView)
    ensures
        fill_doc(data, d) matches Err(TokenFault::Malformed(_)) ==> malformed_of(d).len() > 0,
        malformed_of(d).len() > 0 ==> fill_doc(data, d) is Err,
    decreases d,
{
    match d {
        JsonView::Str(s) => lemma_lint_text(data, s),
        JsonView::Array(items) => lemma_lint_items(data, items),
        JsonView::Object(entries) => lemma_lint_entries(data, entries),
        _ => {},
    }
}

proof fn lemma_lint_text(data: DataView, s: Seq<char>)
    ensures
        fill(data, s) matches Err(TokenFault::Malformed(_)) ==> malformed_in(s).len() > 0,
        malformed_in(s).len() > 0 ==> fill(data, s) is Err,
    decreases s.len(),
{
    match text::find_pair(s, '{') {
        Some(o) if 0 <= o && o + 2 <= s.len() => {
            let after = s.skip(o + 2);
            match text::find_pair(after, '}') {
                Some(c) if 0 <= c && c + 2 <= after.len() => {
                    lemma_lint_text(data, after.skip(c + 2));
                },
                _ => {},
            }
        },
        _ => {},
    }
}

proof fn lemma_lint_items(data: DataView, items: Seq<JsonView>)
    ensures
        fill_items(data, items) matches Err(TokenFault::Malformed(_)) ==> malformed_items(
            items,
        ).len() > 0,
        malformed_items(items).len() > 0 ==> fill_items(data, items) is Err,
    decreases items,
{
    if items.len() > 0 {
        lemma_lint_items(data, items.drop_last());
        law_lint_agrees_with_renderer(data, items[items.len() - 1]);
    }
}

proof fn lemma_lint_entries(data: DataView, entries: Seq<(Seq<char>, JsonView)>)
    ensures
        fill_entries(data, entries) matches Err(TokenFault::Malformed(_)) ==> malformed_entries(
            entries,
        ).len() > 0,
        malformed_entries(entries).len() > 0 ==> fill_entries(data, entries) is Err,
    decreases entries,
{
    if entries.len() > 0 {
        lemma_lint_entries(data, entries.drop_last());
        law_lint_agrees_with_renderer(data, entries[entries.len() - 1].1);
    }
}

} // verus!
