//! Build-time policy-template rendering.
//!
//! `{{build.X}}` tokens are deployment constants: they are resolved once,
//! from explicit `key=value` inputs, and the result is a new set of
//! templates. Every other token is request-time and is emitted as it
//! stands. Substitution is into the string leaves of the parsed JSON, so a
//! build value lands intact whatever it holds and never changes the
//! document's structure.

use crate::config;
use crate::json;
use crate::json::{Json, JsonView};
use crate::map::NameMap;
use crate::template;
use crate::text;
use vstd::prelude::*;
use vstd::utf8::*;

verus! {

/// The build-time substitution namespace.
pub const BUILD_NS: &'static str = "build";

/// Why build-time rendering failed.
#[derive(Debug, PartialEq, Eq)]
pub enum RenderError {
    /// A build argument is not `KEY=VALUE`.
    BadBuildArg { arg: String },
    /// A build key is given more than once.
    DuplicateBuildKey { key: String },
    /// The roles directory could not be read.
    ReadDir { dir: String, source: String },
    /// The roles directory holds no template.
    NoTemplates { dir: String },
    /// The template at this path could not be read.
    ReadTemplate { file: String, source: String },
    /// A template is not valid JSON.
    NotJson { file: String, source: String },
    /// The output directory could not be made.
    CreateOut { dir: String, source: String },
    /// A rendered template could not be written.
    WriteTemplate { file: String, source: String },
    /// Build tokens were left unresolved: a list of them per file.
    Unresolved(String),
}

/// Why a list of build arguments is refused.
pub enum BuildFault {
    BadArg(Seq<char>),
    Duplicate(Seq<char>),
}

/// A build argument split at its first `=`, with a key that is neither
/// empty nor holds white space. The value may be empty or hold `=`.
pub open spec fn split_arg(arg: Seq<char>) -> Option<(Seq<char>, Seq<char>)> {
    match text::find_char(arg, '=') {
        Some(i) => if i > 0 && !text::has_white_space(arg.take(i)) {
            Some((arg.take(i), arg.skip(i + 1)))
        } else {
            None
        },
        None => None,
    }
}

/// The build values that a list of arguments gives.
pub open spec fn vars_of(args: Seq<Seq<char>>) -> Result<Map<Seq<char>, Seq<char>>, BuildFault>
    decreases args.len(),
{
    if args.len() == 0 {
        Ok(Map::empty())
    } else {
        match vars_of(args.drop_last()) {
            Err(e) => Err(e),
            Ok(m) => match split_arg(args.last()) {
                None => Err(BuildFault::BadArg(args.last())),
                Some((key, value)) => if m.contains_key(key) {
                    Err(BuildFault::Duplicate(key))
                } else {
                    Ok(m.insert(key, value))
                },
            },
        }
    }
}

fn split_build_arg(arg: &str) -> (r: Option<(String, String)>)
    ensures
        match r {
            Some((k, v)) => split_arg(arg@) == Some((k@, v@)),
            None => split_arg(arg@) is None,
        },
{
    let v = text::chars_of(arg);
    let n: usize = v.len();
    match text::find_char_in(&v, '=') {
        None => None,
        Some(i) => {
            assert(v@.subrange(0, i as int) =~= arg@.take(i as int));
            assert(v@.subrange(i + 1, v@.len() as int) =~= arg@.skip(i + 1));
            if i == 0 || text::any_white_space(&v, 0, i) {
                None
            } else {
                Some((text::string_of(&v, 0, i), text::string_of(&v, i + 1, n)))
            }
        },
    }
}

/// Parses repeatable `key=value` arguments. A duplicate key is refused
/// rather than silently taking the last.
pub fn parse_build_vars(args: &[String]) -> (r: Result<NameMap<String>, RenderError>)
    ensures
        match vars_of(text::texts(args@)) {
            Ok(m) => r is Ok && r->Ok_0.texts() == m,
            Err(BuildFault::BadArg(a)) => r matches Err(RenderError::BadBuildArg { arg }) && arg@
                == a,
            Err(BuildFault::Duplicate(k)) => r matches Err(RenderError::DuplicateBuildKey { key })
                && key@ == k,
        },
{
    let mut vars: NameMap<String> = NameMap::new();
    let ghost all = text::texts(args@);
    let mut i: usize = 0;
    assert(all.take(0) =~= Seq::<Seq<char>>::empty());
    assert(vars.texts() =~= Map::<Seq<char>, Seq<char>>::empty());
    while i < args.len()
        invariant
            i <= args@.len(),
            all == text::texts(args@),
            vars_of(all.take(i as int)) == Ok::<Map<Seq<char>, Seq<char>>, BuildFault>(
                vars.texts(),
            ),
        decreases args@.len() - i,
    {
        proof {
            assert(all.take(i + 1).drop_last() =~= all.take(i as int));
            assert(all.take(i + 1).last() == args@[i as int]@);
        }
        match split_build_arg(args[i].as_str()) {
            None => {
                proof {
                    lemma_vars_err(all, i + 1);
                }
                return Err(RenderError::BadBuildArg { arg: args[i].clone() });
            },
            Some((key, value)) => {
                if vars.contains_key(key.as_str()) {
                    proof {
                        lemma_vars_err(all, i + 1);
                    }
                    return Err(RenderError::DuplicateBuildKey { key });
                }
                let ghost before = vars.texts();
                let ghost k = key@;
                let ghost x = value@;
                vars.insert(key, value);
                assert(vars.texts() =~= before.insert(k, x));
            },
        }
        i = i + 1;
    }
    assert(all.take(all.len() as int) =~= all);
    Ok(vars)
}

proof fn lemma_vars_err(args: Seq<Seq<char>>, n: int)
    requires
        0 <= n <= args.len(),
        vars_of(args.take(n)) is Err,
    ensures
        vars_of(args) == vars_of(args.take(n)),
    decreases args.len(),
{
    if n == args.len() {
        assert(args.take(n) =~= args);
    } else {
        assert(args.drop_last().take(n) =~= args.take(n));
        lemma_vars_err(args.drop_last(), n);
    }
}

/// How one token's trimmed interior relates to the build namespace.
pub enum BuildToken {
    /// A well-formed `build.<key>`.
    Key(Seq<char>),
    /// In the namespace, but no clean `build.<key>`.
    Malformed,
    /// A request-time token.
    Other,
}

/// Classifies a token's trimmed interior: the namespace is what stands
/// before the first dot, the key all that follows it.
pub open spec fn classify_build(inner: Seq<char>) -> BuildToken {
    let (ns, key) = match text::find_char(inner, '.') {
        Some(i) => (inner.take(i), inner.skip(i + 1)),
        None => (inner, Seq::<char>::empty()),
    };
    if text::trimmed(ns) != BUILD_NS@ {
        BuildToken::Other
    } else if key.len() == 0 || text::has_white_space(inner) {
        BuildToken::Malformed
    } else {
        BuildToken::Key(key)
    }
}

enum Build {
    Key(String),
    Malformed,
    Other,
}

fn classify_build_token(inner: &str) -> (r: Build)
    ensures
        classify_build(inner@) == (match r {
            Build::Key(k) => BuildToken::Key(k@),
            Build::Malformed => BuildToken::Malformed,
            Build::Other => BuildToken::Other,
        }),
{
    let v = text::chars_of(inner);
    let n: usize = v.len();
    let (ns_end, key_start): (usize, usize) = match text::find_char_in(&v, '.') {
        Some(i) => (i, i + 1),
        None => (n, n),
    };
    let bounds = text::trim_bounds(&v, 0, ns_end);
    let ns = text::string_of(&v, bounds.0, bounds.1);
    proof {
        if text::find_char(inner@, '.') is Some {
            assert(v@.subrange(0, ns_end as int) =~= inner@.take(ns_end as int));
            assert(v@.subrange(key_start as int, n as int) =~= inner@.skip(key_start as int));
        } else {
            assert(v@.subrange(0, ns_end as int) =~= inner@);
            assert(v@.subrange(key_start as int, n as int) =~= Seq::<char>::empty());
        }
        assert(v@.subrange(0, n as int) =~= inner@);
    }
    if !text::same(ns.as_str(), BUILD_NS) {
        return Build::Other;
    }
    if key_start == n || text::any_white_space(&v, 0, n) {
        return Build::Malformed;
    }
    Build::Key(text::string_of(&v, key_start, n))
}

/// What substituting build tokens gives: the text or document, the keys
/// that were resolved in order, and the tokens that were not.
pub struct Filled<T> {
    pub out: T,
    pub referenced: Seq<Seq<char>>,
    pub unresolved: Seq<Seq<char>>,
}

/// What one token becomes: its value, where it is a build token with one;
/// else itself.
pub open spec fn fill_token(
    vars: Map<Seq<char>, Seq<char>>,
    inner: Seq<char>,
    token: Seq<char>,
) -> Filled<Seq<char>> {
    match classify_build(inner) {
        BuildToken::Key(key) => if vars.contains_key(key) {
            Filled { out: vars[key], referenced: seq![key], unresolved: Seq::empty() }
        } else {
            Filled { out: token, referenced: Seq::empty(), unresolved: seq![token] }
        },
        BuildToken::Malformed => Filled {
            out: token,
            referenced: Seq::empty(),
            unresolved: seq![token],
        },
        BuildToken::Other => Filled {
            out: token,
            referenced: Seq::empty(),
            unresolved: Seq::empty(),
        },
    }
}

/// One string with its build tokens substituted. A request-time token, an
/// unresolved one and an unterminated `{{` stay as they stand; a value is
/// not scanned again.
pub open spec fn fill(vars: Map<Seq<char>, Seq<char>>, s: Seq<char>) -> Filled<Seq<char>>
    decreases s.len(),
{
    match text::find_pair(s, '{') {
        Some(o) if 0 <= o && o + 2 <= s.len() => {
            let after = s.skip(o + 2);
            match text::find_pair(after, '}') {
                Some(c) if 0 <= c && c + 2 <= after.len() => {
                    let rest = fill(vars, after.skip(c + 2));
                    let t = fill_token(
                        vars,
                        text::trimmed(after.take(c)),
                        s.subrange(o, o + 2 + c + 2),
                    );
                    Filled {
                        out: s.take(o) + t.out + rest.out,
                        referenced: t.referenced + rest.referenced,
                        unresolved: t.unresolved + rest.unresolved,
                    }
                },
                _ => Filled { out: s, referenced: Seq::empty(), unresolved: Seq::empty() },
            }
        },
        _ => Filled { out: s, referenced: Seq::empty(), unresolved: Seq::empty() },
    }
}

/// A document with the build tokens of its string leaves substituted.
pub open spec fn fill_doc(vars: Map<Seq<char>, Seq<char>>, d: JsonView) -> Filled<JsonView>
    decreases d,
{
    match d {
        JsonView::Str(s) => {
            let f = fill(vars, s);
            Filled {
                out: JsonView::Str(f.out),
                referenced: f.referenced,
                unresolved: f.unresolved,
            }
        },
        JsonView::Array(items) => {
            let f = fill_items(vars, items);
            Filled {
                out: JsonView::Array(f.out),
                referenced: f.referenced,
                unresolved: f.unresolved,
            }
        },
        JsonView::Object(entries) => {
            let f = fill_entries(vars, entries);
            Filled {
                out: JsonView::Object(f.out),
                referenced: f.referenced,
                unresolved: f.unresolved,
            }
        },
        _ => Filled { out: d, referenced: Seq::empty(), unresolved: Seq::empty() },
    }
}

/// The items of an array, in order.
pub open spec fn fill_items(vars: Map<Seq<char>, Seq<char>>, items: Seq<JsonView>) -> Filled<
    Seq<JsonView>,
>
    decreases items,
{
    if items.len() == 0 {
        Filled { out: Seq::empty(), referenced: Seq::empty(), unresolved: Seq::empty() }
    } else {
        let a = fill_items(vars, items.drop_last());
        let b = fill_doc(vars, items[items.len() - 1]);
        Filled {
            out: a.out.push(b.out),
            referenced: a.referenced + b.referenced,
            unresolved: a.unresolved + b.unresolved,
        }
    }
}

/// The values of an object, in order; keys are left as they are.
pub open spec fn fill_entries(
    vars: Map<Seq<char>, Seq<char>>,
    entries: Seq<(Seq<char>, JsonView)>,
) -> Filled<Seq<(Seq<char>, JsonView)>>
    decreases entries,
{
    if entries.len() == 0 {
        Filled { out: Seq::empty(), referenced: Seq::empty(), unresolved: Seq::empty() }
    } else {
        let a = fill_entries(vars, entries.drop_last());
        let b = fill_doc(vars, entries[entries.len() - 1].1);
        Filled {
            out: a.out.push((entries[entries.len() - 1].0, b.out)),
            referenced: a.referenced + b.referenced,
            unresolved: a.unresolved + b.unresolved,
        }
    }
}

/// Substitutes one token; appends what it resolved and what it could not.
fn substitute_token(
    inner: &str,
    token: String,
    vars: &NameMap<String>,
    referenced: &mut Vec<String>,
    unresolved: &mut Vec<String>,
) -> (r: String)
    ensures
        ({
            let f = fill_token(vars.texts(), inner@, token@);
            &&& r@ == f.out
            &&& text::texts(final(referenced)@) == text::texts(old(referenced)@) + f.referenced
            &&& text::texts(final(unresolved)@) == text::texts(old(unresolved)@) + f.unresolved
        }),
{
    let ghost r0 = text::texts(referenced@);
    let ghost u0 = text::texts(unresolved@);
    proof {
        assert(r0 + Seq::<Seq<char>>::empty() =~= r0);
        assert(u0 + Seq::<Seq<char>>::empty() =~= u0);
    }
    match classify_build_token(inner) {
        Build::Key(key) => match vars.text(key.as_str()) {
            Some(value) => {
                let out = text::owned(value);
                let ghost k = key@;
                referenced.push(key);
                assert(text::texts(referenced@) =~= r0 + seq![k]);
                out
            },
            None => {
                unresolved.push(token.clone());
                assert(text::texts(unresolved@) =~= u0 + seq![token@]);
                token
            },
        },
        Build::Malformed => {
            unresolved.push(token.clone());
            assert(text::texts(unresolved@) =~= u0 + seq![token@]);
            token
        },
        Build::Other => token,
    }
}

/// Substitutes the build tokens of one string; appends what it resolved
/// and what it could not.
fn substitute_string(
    s: &str,
    vars: &NameMap<String>,
    referenced: &mut Vec<String>,
    unresolved: &mut Vec<String>,
) -> (r: String)
    ensures
        ({
            let f = fill(vars.texts(), s@);
            &&& r@ == f.out
            &&& text::texts(final(referenced)@) == text::texts(old(referenced)@) + f.referenced
            &&& text::texts(final(unresolved)@) == text::texts(old(unresolved)@) + f.unresolved
        }),
{
    let v = text::chars_of(s);
    let n: usize = v.len();
    let ghost m = vars.texts();
    let ghost whole = fill(m, s@);
    let ghost r0 = text::texts(referenced@);
    let ghost u0 = text::texts(unresolved@);
    let mut out = String::new();
    let mut pos: usize = 0;
    proof {
        assert(v@.skip(0) =~= v@);
        assert(out@ + whole.out =~= whole.out);
    }
    loop
        invariant
            v@ == s@,
            n == v@.len(),
            pos <= n,
            m == vars.texts(),
            whole == fill(m, s@),
            r0 == text::texts(old(referenced)@),
            u0 == text::texts(old(unresolved)@),
            out@ + fill(m, v@.skip(pos as int)).out == whole.out,
            text::texts(referenced@) + fill(m, v@.skip(pos as int)).referenced == r0
                + whole.referenced,
            text::texts(unresolved@) + fill(m, v@.skip(pos as int)).unresolved == u0
                + whole.unresolved,
        decreases n - pos,
    {
        let ghost rest = v@.skip(pos as int);
        let ghost out0 = out@;
        let ghost ref0 = text::texts(referenced@);
        let ghost unr0 = text::texts(unresolved@);
        let found = match text::find_pair_from(&v, '{', pos) {
            None => None,
            Some(o) => {
                assert(rest.skip(o + 2) =~= v@.skip(pos + o + 2));
                match text::find_pair_from(&v, '}', pos + o + 2) {
                    None => None,
                    Some(c) => Some((o, c)),
                }
            },
        };
        let (o, c): (usize, usize) = match found {
            Some(x) => x,
            None => {
                let tail = text::string_of(&v, pos, n);
                proof {
                    assert(tail@ =~= rest);
                    assert(ref0 + Seq::<Seq<char>>::empty() =~= ref0);
                    assert(unr0 + Seq::<Seq<char>>::empty() =~= unr0);
                }
                out.push_str(tail.as_str());
                return out;
            },
        };
        let after: usize = pos + o + 2;
        let next: usize = after + c + 2;
        let head = text::string_of(&v, pos, pos + o);
        let token = text::string_of(&v, pos + o, next);
        let bounds = text::trim_bounds(&v, after, after + c);
        let inner = text::string_of(&v, bounds.0, bounds.1);
        let ghost tail = fill(m, v@.skip(next as int));
        let ghost t = fill_token(m, inner@, token@);
        proof {
            assert(rest.skip(o + 2) =~= v@.skip(after as int));
            assert(v@.skip(after as int).take(c as int) =~= v@.subrange(after as int, after + c));
            assert(v@.skip(after as int).skip(c + 2) =~= v@.skip(next as int));
            assert(head@ =~= rest.take(o as int));
            assert(token@ =~= rest.subrange(o as int, o + 2 + c + 2));
            assert(fill(m, rest) == (Filled {
                out: head@ + t.out + tail.out,
                referenced: t.referenced + tail.referenced,
                unresolved: t.unresolved + tail.unresolved,
            }));
        }
        out.push_str(head.as_str());
        out.push_str(
            substitute_token(inner.as_str(), token, vars, referenced, unresolved).as_str(),
        );
        proof {
            assert(out@ + tail.out =~= out0 + (head@ + t.out + tail.out));
            assert(ref0 + t.referenced + tail.referenced =~= ref0 + (t.referenced
                + tail.referenced));
            assert(unr0 + t.unresolved + tail.unresolved =~= unr0 + (t.unresolved
                + tail.unresolved));
        }
        pos = next;
    }
}

/// The documents of a list.
spec fn docs(v: Seq<Json>) -> Seq<JsonView> {
    Seq::new(v.len(), |i: int| v[i]@)
}

/// The entries of a list.
spec fn pairs(v: Seq<(String, Json)>) -> Seq<(Seq<char>, JsonView)> {
    Seq::new(v.len(), |i: int| (v[i].0@, v[i].1@))
}

/// Substitutes the build tokens of every string leaf.
#[verifier::rlimit(40)]
fn substitute_value(
    value: &Json,
    vars: &NameMap<String>,
    referenced: &mut Vec<String>,
    unresolved: &mut Vec<String>,
) -> (r: Json)
    ensures
        ({
            let f = fill_doc(vars.texts(), value@);
            &&& r@ == f.out
            &&& text::texts(final(referenced)@) == text::texts(old(referenced)@) + f.referenced
            &&& text::texts(final(unresolved)@) == text::texts(old(unresolved)@) + f.unresolved
        }),
    decreases value,
{
    let ghost m = vars.texts();
    let ghost r0 = text::texts(referenced@);
    let ghost u0 = text::texts(unresolved@);
    proof {
        assert(r0 + Seq::<Seq<char>>::empty() =~= r0);
        assert(u0 + Seq::<Seq<char>>::empty() =~= u0);
    }
    match value {
        Json::Null => Json::Null,
        Json::Bool(b) => Json::Bool(*b),
        Json::PosInt(n) => Json::PosInt(*n),
        Json::NegInt(n) => Json::NegInt(*n),
        Json::Float(n) => Json::Float(n.clone()),
        Json::Str(s) => Json::Str(substitute_string(s.as_str(), vars, referenced, unresolved)),
        Json::Array(items) => {
            let ghost all = value@->Array_0;
            proof {
                json::lemma_array_view(*value, *items);
            }
            let mut out: Vec<Json> = Vec::new();
            let mut i: usize = 0;
            assert(docs(out@) =~= Seq::<JsonView>::empty());
            while i < items.len()
                invariant
                    i <= items@.len() == all.len(),
                    m == vars.texts(),
                    r0 == text::texts(old(referenced)@),
                    u0 == text::texts(old(unresolved)@),
                    value == Json::Array(*items),
                    value@ == JsonView::Array(all),
                    forall|j: int| 0 <= j < items@.len() ==> #[trigger] all[j] == items@[j]@,
                    docs(out@) == fill_items(m, all.take(i as int)).out,
                    text::texts(referenced@) == r0 + fill_items(m, all.take(i as int)).referenced,
                    text::texts(unresolved@) == u0 + fill_items(m, all.take(i as int)).unresolved,
                decreases items@.len() - i,
            {
                proof {
                    assert(all.take(i + 1).drop_last() =~= all.take(i as int));
                    assert(all.take(i + 1)[i as int] == items@[i as int]@);
                    assert(decreases_to!(value => items@[i as int]));
                }
                let ghost done = docs(out@);
                let x = substitute_value(&items[i], vars, referenced, unresolved);
                out.push(x);
                proof {
                    let a = fill_items(m, all.take(i as int));
                    let b = fill_doc(m, items@[i as int]@);
                    assert(docs(out@) =~= done.push(x@));
                    assert(r0 + a.referenced + b.referenced =~= r0 + (a.referenced + b.referenced));
                    assert(u0 + a.unresolved + b.unresolved =~= u0 + (a.unresolved + b.unresolved));
                }
                i = i + 1;
            }
            assert(all.take(all.len() as int) =~= all);
            let r = Json::Array(out);
            proof {
                json::lemma_array_view(r, out);
                assert(r@->Array_0 =~= docs(out@));
            }
            r
        },
        Json::Object(entries) => {
            let ghost all = value@->Object_0;
            proof {
                json::lemma_object_view(*value, *entries);
            }
            let mut out: Vec<(String, Json)> = Vec::new();
            let mut i: usize = 0;
            assert(pairs(out@) =~= Seq::<(Seq<char>, JsonView)>::empty());
            while i < entries.len()
                invariant
                    i <= entries@.len() == all.len(),
                    m == vars.texts(),
                    r0 == text::texts(old(referenced)@),
                    u0 == text::texts(old(unresolved)@),
                    value == Json::Object(*entries),
                    value@ == JsonView::Object(all),
                    forall|j: int|
                        0 <= j < entries@.len() ==> #[trigger] all[j] == (
                            entries@[j].0@,
                            entries@[j].1@,
                        ),
                    pairs(out@) == fill_entries(m, all.take(i as int)).out,
                    text::texts(referenced@) == r0 + fill_entries(m, all.take(i as int)).referenced,
                    text::texts(unresolved@) == u0 + fill_entries(m, all.take(i as int)).unresolved,
                decreases entries@.len() - i,
            {
                proof {
                    assert(all.take(i + 1).drop_last() =~= all.take(i as int));
                    assert(all.take(i + 1)[i as int] == all[i as int]);
                    assert(decreases_to!(value => entries@[i as int].1));
                }
                let ghost done = pairs(out@);
                let x = substitute_value(&entries[i].1, vars, referenced, unresolved);
                out.push((entries[i].0.clone(), x));
                proof {
                    let a = fill_entries(m, all.take(i as int));
                    let b = fill_doc(m, entries@[i as int].1@);
                    assert(pairs(out@) =~= done.push((entries@[i as int].0@, x@)));
                    assert(r0 + a.referenced + b.referenced =~= r0 + (a.referenced + b.referenced));
                    assert(u0 + a.unresolved + b.unresolved =~= u0 + (a.unresolved + b.unresolved));
                }
                i = i + 1;
            }
            assert(all.take(all.len() as int) =~= all);
            let r = Json::Object(out);
            proof {
                json::lemma_object_view(r, out);
                assert(r@->Object_0 =~= pairs(out@));
            }
            r
        },
    }
}

/// What substituting one template's build tokens gives.
#[derive(Debug)]
pub struct TemplateOutcome {
    /// The rendered JSON, indented.
    pub json: String,
    /// The build keys that were resolved, sorted, each once.
    pub referenced: Vec<String>,
    /// The build tokens that could not be resolved, as they stand.
    pub unresolved: Vec<String>,
}

/// `o` is the outcome of a parsed template.
pub open spec fn outcome_of(
    o: TemplateOutcome,
    vars: Map<Seq<char>, Seq<char>>,
    doc: JsonView,
) -> bool {
    let f = fill_doc(vars, doc);
    &&& o.json@ == json::json_pretty(f.out)
    &&& text::ascending(text::texts(o.referenced@))
    &&& forall|k: Seq<char>|
        #![trigger text::texts(o.referenced@).contains(k)]
        #![trigger f.referenced.contains(k)]
        text::texts(o.referenced@).contains(k) <==> f.referenced.contains(k)
    &&& text::texts(o.unresolved@) == f.unresolved
}

/// Renders a parsed template.
pub fn render_doc(doc: &Json, vars: &NameMap<String>) -> (r: TemplateOutcome)
    requires
        json::shallow(doc@),
    ensures
        outcome_of(r, vars.texts(), doc@),
        json::readable(doc@) ==> json::json_of(encode_utf8(r.json@)) is Some && json::agree(
            fill_doc(vars.texts(), doc@).out,
            json::json_of(encode_utf8(r.json@))->0,
        ),
{
    let mut found: Vec<String> = Vec::new();
    let mut unresolved: Vec<String> = Vec::new();
    let out = substitute_value(doc, vars, &mut found, &mut unresolved);
    let ghost f = fill_doc(vars.texts(), doc@);
    proof {
        assert(text::texts(found@) =~= f.referenced);
        assert(text::texts(unresolved@) =~= f.unresolved);
        lemma_keeps_structure(vars.texts(), doc@);
    }
    TemplateOutcome {
        json: json::write_json_pretty(&out),
        referenced: text::sorted_set(&found),
        unresolved,
    }
}

/// Substitutes the build tokens of one JSON template. The document is
/// parsed, substitution happens only into string leaves, and the result
/// is written again.
pub fn render_template(file: &str, template: &str, vars: &NameMap<String>) -> (r: Result<
    TemplateOutcome,
    RenderError,
>)
    ensures
        match json::json_of(encode_utf8(template@)) {
            None => r matches Err(RenderError::NotJson { file: f, source }) && f@ == file@ && source@
                == json::json_fault(encode_utf8(template@)),
            Some(doc) => r is Ok && outcome_of(r->Ok_0, vars.texts(), doc) && json::json_of(
                encode_utf8(r->Ok_0.json@),
            ) is Some && json::agree(
                fill_doc(vars.texts(), doc).out,
                json::json_of(encode_utf8(r->Ok_0.json@))->0,
            ),
        },
{
    match json::read_json(template.as_bytes()) {
        Err(source) => Err(RenderError::NotJson { file: text::owned(file), source }),
        Ok(doc) => Ok(render_doc(&doc, vars)),
    }
}

/// Substitution keeps a document's structure, its depth and its key
/// order.
proof fn lemma_keeps_structure(vars: Map<Seq<char>, Seq<char>>, d: JsonView)
    ensures
        crate::template::same_structure(d, fill_doc(vars, d).out),
        json::depth(fill_doc(vars, d).out) == json::depth(d),
        json::ordered(d) ==> json::ordered(fill_doc(vars, d).out),
    decreases d,
{
    match d {
        JsonView::Array(items) => {
            lemma_items_structure(vars, items);
            let out = fill_items(vars, items).out;
            if json::ordered(d) {
                assert forall|i: int| 0 <= i < out.len() implies json::ordered(
                    #[trigger] out[i],
                ) by {
                    assert(json::ordered(items[i]));
                }
            }
        },
        JsonView::Object(entries) => {
            lemma_entries_structure(vars, entries);
            let out = fill_entries(vars, entries).out;
            if json::ordered(d) {
                assert forall|i: int, j: int| 0 <= i < j < out.len() implies text::precedes(
                    #[trigger] out[i].0,
                    #[trigger] out[j].0,
                ) by {
                    assert(entries[i].0 == out[i].0 && entries[j].0 == out[j].0);
                }
                assert forall|i: int| 0 <= i < out.len() implies json::ordered(
                    (#[trigger] out[i]).1,
                ) by {
                    assert(json::ordered(entries[i].1));
                }
            }
        },
        _ => {},
    }
}

proof fn lemma_items_structure(vars: Map<Seq<char>, Seq<char>>, items: Seq<JsonView>)
    ensures
        ({
            let out = fill_items(vars, items).out;
            &&& out.len() == items.len()
            &&& json::items_depth(out) == json::items_depth(items)
            &&& forall|i: int|
                0 <= i < items.len() ==> crate::template::same_structure(
                    #[trigger] items[i],
                    out[i],
                ) && (json::ordered(items[i]) ==> json::ordered(out[i]))
        }),
    decreases items,
{
    if items.len() > 0 {
        let last = items.len() - 1;
        lemma_items_structure(vars, items.drop_last());
        lemma_keeps_structure(vars, items[last]);
        let out = fill_items(vars, items).out;
        assert(out.drop_last() =~= fill_items(vars, items.drop_last()).out);
        assert forall|i: int| 0 <= i < items.len() implies crate::template::same_structure(
            #[trigger] items[i],
            out[i],
        ) && (json::ordered(items[i]) ==> json::ordered(out[i])) by {
            if i < last {
                assert(items.drop_last()[i] == items[i]);
            }
        }
    }
}

proof fn lemma_entries_structure(
    vars: Map<Seq<char>, Seq<char>>,
    entries: Seq<(Seq<char>, JsonView)>,
)
    ensures
        ({
            let out = fill_entries(vars, entries).out;
            &&& out.len() == entries.len()
            &&& json::entries_depth(out) == json::entries_depth(entries)
            &&& forall|i: int|
                0 <= i < entries.len() ==> (#[trigger] entries[i]).0 == out[i].0
                    && crate::template::same_structure(entries[i].1, out[i].1) && (json::ordered(
                    entries[i].1,
                ) ==> json::ordered(out[i].1))
        }),
    decreases entries,
{
    if entries.len() > 0 {
        let last = entries.len() - 1;
        lemma_entries_structure(vars, entries.drop_last());
        lemma_keeps_structure(vars, entries[last].1);
        let out = fill_entries(vars, entries).out;
        assert(out.drop_last() =~= fill_entries(vars, entries.drop_last()).out);
        assert forall|i: int| 0 <= i < entries.len() implies (#[trigger] entries[i]).0 == out[i].0
            && crate::template::same_structure(entries[i].1, out[i].1) && (json::ordered(
            entries[i].1,
        ) ==> json::ordered(out[i].1)) by {
            if i < last {
                assert(entries.drop_last()[i] == entries[i]);
            }
        }
    }
}

/// Build rendering keeps the structure of every template, whatever the
/// build values hold.
pub proof fn law_build_keeps_structure(vars: Map<Seq<char>, Seq<char>>, d: JsonView)
    ensures
        crate::template::same_structure(d, fill_doc(vars, d).out),
{
    lemma_keeps_structure(vars, d);
}

/// A file of the roles directory as it was read.
#[derive(Debug)]
pub enum FileRead {
    Text(String),
    Failed(String),
}

/// Whether a file of this name is a template: its extension is `json`.
pub open spec fn template_name(name: Seq<char>) -> bool {
    name.len() > 5 && name.skip(name.len() - 5) == ".json"@
}

/// Whether a file of this name is a template.
pub fn is_template_name(name: &str) -> (r: bool)
    ensures
        r == template_name(name@),
{
    let v = text::chars_of(name);
    let n: usize = v.len();
    if n <= 5 {
        return false;
    }
    let ext = text::string_of(&v, n - 5, n);
    assert(ext@ =~= name@.skip(n - 5));
    text::same(ext.as_str(), ".json")
}

/// Summary of a run for the operator.
#[derive(Debug, PartialEq, Eq)]
pub struct RenderReport {
    /// The filenames written, sorted.
    pub rendered: Vec<String>,
    /// Build keys that no template referenced, sorted.
    pub unused_vars: Vec<String>,
}

/// A rendered file.
#[derive(Debug, PartialEq, Eq)]
pub struct Output {
    pub name: String,
    pub contents: String,
}

/// Why a set of files is refused.
pub enum SetFault {
    ReadFailed(Seq<char>, Seq<char>),
    NotJson(Seq<char>, Seq<char>),
}

/// A set of templates that has been gone through: what each parsed to, in
/// order.
pub open spec fn parsed_files(names: Seq<Seq<char>>, files: Map<Seq<char>, FileRead>) -> Result<
    Seq<JsonView>,
    SetFault,
>
    decreases names.len(),
{
    if names.len() == 0 {
        Ok(Seq::empty())
    } else {
        match parsed_files(names.drop_last(), files) {
            Err(e) => Err(e),
            Ok(ds) => match files[names.last()] {
                FileRead::Failed(m) => Err(SetFault::ReadFailed(names.last(), m@)),
                FileRead::Text(t) => match json::json_of(encode_utf8(t@)) {
                    None => Err(
                        SetFault::NotJson(names.last(), json::json_fault(encode_utf8(t@))),
                    ),
                    Some(d) => Ok(ds.push(d)),
                },
            },
        }
    }
}

/// One line per file with unresolved tokens: the file, and its tokens.
pub open spec fn unresolved_lines(
    vars: Map<Seq<char>, Seq<char>>,
    names: Seq<Seq<char>>,
    ds: Seq<JsonView>,
) -> Seq<char>
    decreases ds.len(),
{
    if ds.len() == 0 || names.len() != ds.len() {
        Seq::empty()
    } else {
        let before = unresolved_lines(vars, names.drop_last(), ds.drop_last());
        let u = fill_doc(vars, ds.last()).unresolved;
        if u.len() == 0 {
            before
        } else {
            before + "  "@ + names.last() + ": "@ + text::joined(u, ", "@) + "\n"@
        }
    }
}

/// Some template has an unresolved token.
pub open spec fn any_unresolved(vars: Map<Seq<char>, Seq<char>>, ds: Seq<JsonView>) -> bool {
    exists|i: int| 0 <= i < ds.len() && fill_doc(vars, #[trigger] ds[i]).unresolved.len() > 0
}

/// Some template resolved the build key `k`.
pub open spec fn any_referenced(
    vars: Map<Seq<char>, Seq<char>>,
    ds: Seq<JsonView>,
    k: Seq<char>,
) -> bool {
    exists|i: int|
        0 <= i < ds.len() && fill_doc(vars, #[trigger] ds[i]).referenced.contains(k)
}

/// A rendered set: each file under its own name with its rendered text
/// and a newline, in name order; and the keys that no template resolved.
pub open spec fn set_rendered(
    outputs: Seq<Output>,
    report: RenderReport,
    vars: Map<Seq<char>, Seq<char>>,
    names: Seq<Seq<char>>,
    ds: Seq<JsonView>,
) -> bool {
    &&& outputs.len() == ds.len()
    &&& forall|i: int|
        0 <= i < outputs.len() ==> (#[trigger] outputs[i]).name@ == names[i]
            && outputs[i].contents@ == json::json_pretty(fill_doc(vars, ds[i]).out) + "\n"@
    &&& text::texts(report.rendered@) == names
    &&& text::ascending(text::texts(report.unused_vars@))
    &&& forall|k: Seq<char>| #[trigger]
        text::texts(report.unused_vars@).contains(k) <==> vars.contains_key(k) && !any_referenced(
            vars,
            ds,
            k,
        )
}

/// Renders a whole set of templates with the build values. Everything is
/// rendered before anything is given back: if any template has an
/// unresolved token the run fails and there is nothing to write.
#[verifier::rlimit(60)]
pub fn render_dir(dir: &str, files: &NameMap<FileRead>, vars: &NameMap<String>) -> (r: Result<
    (Vec<Output>, RenderReport),
    RenderError,
>)
    ensures
        files.names().len() == 0 ==> (r matches Err(RenderError::NoTemplates { dir: d }) && d@
            == dir@),
        files.names().len() > 0 ==> match parsed_files(files.names(), files.map()) {
            Err(SetFault::ReadFailed(n, m)) => r matches Err(
                RenderError::ReadTemplate { file, source },
            ) && file@ == config::joined_path(dir@, n) && source@ == m,
            Err(SetFault::NotJson(n, m)) => r matches Err(
                RenderError::NotJson { file, source },
            ) && file@ == n && source@ == m,
            Ok(ds) => if any_unresolved(vars.texts(), ds) {
                r matches Err(RenderError::Unresolved(m)) && m@ == text::trim_end(
                    unresolved_lines(vars.texts(), files.names(), ds),
                )
            } else {
                r is Ok && set_rendered(
                    r->Ok_0.0@,
                    r->Ok_0.1,
                    vars.texts(),
                    files.names(),
                    ds,
                )
            },
        },
{
    let n: usize = files.len();
    if n == 0 {
        return Err(RenderError::NoTemplates { dir: text::owned(dir) });
    }
    let ghost m = vars.texts();
    let ghost names = files.names();
    let mut outputs: Vec<Output> = Vec::new();
    let mut rendered: Vec<String> = Vec::new();
    let mut referenced: Vec<String> = Vec::new();
    let mut lines = String::new();
    let mut pending: bool = false;
    let ghost mut ds: Seq<JsonView> = Seq::empty();
    let mut i: usize = 0;
    assert(names.take(0) =~= Seq::<Seq<char>>::empty());
    while i < n
        invariant
            n == files.names().len(),
            names == files.names(),
            m == vars.texts(),
            i <= n,
            files.lists(),
            ds.len() == i,
            outputs@.len() == i,
            parsed_files(names.take(i as int), files.map()) == Ok::<Seq<JsonView>, SetFault>(ds),
            forall|j: int|
                0 <= j < i ==> (#[trigger] outputs@[j]).name@ == names[j] && outputs@[j].contents@
                    == json::json_pretty(fill_doc(m, ds[j]).out) + "\n"@,
            text::texts(rendered@) == names.take(i as int),
            lines@ == unresolved_lines(m, names.take(i as int), ds),
            pending == any_unresolved(m, ds),
            forall|k: Seq<char>| #[trigger]
                text::texts(referenced@).contains(k) <==> any_referenced(m, ds, k),
        decreases n - i,
    {
        let name = files.name_at(i);
        let ghost ds0 = ds;
        proof {
            assert(names.take(i + 1).drop_last() =~= names.take(i as int));
            assert(names.take(i + 1).last() == names[i as int]);
        }
        let t = match files.value_at(i) {
            FileRead::Text(t) => t,
            FileRead::Failed(e) => {
                proof {
                    lemma_parsed_err(names, files.map(), i + 1);
                }
                return Err(
                    RenderError::ReadTemplate {
                        file: config::join_path(dir, name),
                        source: e.clone(),
                    },
                );
            },
        };
        let o = match render_template(name, t.as_str(), vars) {
            Ok(o) => o,
            Err(e) => {
                proof {
                    lemma_parsed_err(names, files.map(), i + 1);
                }
                return Err(e);
            },
        };
        let ghost d = json::json_of(encode_utf8(t@))->0;
        let ghost f = fill_doc(m, d);
        proof {
            ds = ds.push(d);
            assert(ds.drop_last() =~= ds0);
            assert(ds.last() == d);
        }
        if o.unresolved.len() > 0 {
            lines.push_str("  ");
            lines.push_str(name);
            lines.push_str(": ");
            lines.push_str(text::join(&o.unresolved, ", ").as_str());
            lines.push_str("\n");
            pending = true;
        }
        let ghost refs0 = text::texts(referenced@);
        append_list(&mut referenced, &o.referenced);
        let ghost before = outputs@;
        outputs.push(
            Output { name: text::owned(name), contents: text::concat(o.json.as_str(), "\n") },
        );
        let ghost done = text::texts(rendered@);
        rendered.push(text::owned(name));
        proof {
            assert(text::texts(rendered@) =~= done.push(names[i as int]));
            assert(names.take(i + 1) =~= names.take(i as int).push(names[i as int]));
            assert(text::texts(o.unresolved@).len() == o.unresolved@.len());
            assert(f.unresolved.len() == o.unresolved@.len());
            lemma_any_unresolved(m, ds0, d);
            assert forall|k: Seq<char>| #[trigger]
                text::texts(referenced@).contains(k) <==> any_referenced(m, ds, k) by {
                lemma_any_referenced(m, ds0, d, k);
                assert(refs0.contains(k) <==> any_referenced(m, ds0, k));
                assert(text::texts(o.referenced@).contains(k) <==> f.referenced.contains(k));
            }
            assert forall|j: int| 0 <= j < i + 1 implies (#[trigger] outputs@[j]).name@ == names[j]
                && outputs@[j].contents@ == json::json_pretty(fill_doc(m, ds[j]).out) + "\n"@ by {
                if j < i {
                    assert(outputs@[j] == before[j]);
                    assert(ds[j] == ds0[j]);
                }
            }
        }
        i = i + 1;
    }
    assert(names.take(n as int) =~= names);
    if pending {
        let v = text::chars_of(lines.as_str());
        let end = text::trim_end_bound(&v);
        return Err(RenderError::Unresolved(text::string_of(&v, 0, end)));
    }
    let unused = unused_of(vars, &referenced);
    proof {
        assert forall|k: Seq<char>| #[trigger]
            text::texts(unused@).contains(k) <==> m.contains_key(k) && !any_referenced(m, ds, k) by {
            assert(text::texts(referenced@).contains(k) <==> any_referenced(m, ds, k));
        }
    }
    Ok((outputs, RenderReport { rendered, unused_vars: unused }))
}

/// Appends copies of the strings of `b` to `a`.
fn append_list(a: &mut Vec<String>, b: &[String])
    ensures
        forall|k: Seq<char>| #[trigger]
            text::texts(final(a)@).contains(k) <==> text::texts(old(a)@).contains(k)
                || text::texts(b@).contains(k),
{
    let ghost start = text::texts(a@);
    let mut i: usize = 0;
    while i < b.len()
        invariant
            i <= b@.len(),
            start == text::texts(old(a)@),
            forall|k: Seq<char>| #[trigger]
                text::texts(a@).contains(k) <==> start.contains(k) || text::texts(
                    b@.take(i as int),
                ).contains(k),
        decreases b@.len() - i,
    {
        let ghost a0 = text::texts(a@);
        let ghost b0 = text::texts(b@.take(i as int));
        let ghost y = b@[i as int]@;
        a.push(b[i].clone());
        proof {
            assert(text::texts(a@) =~= a0.push(y));
            assert(text::texts(b@.take(i + 1)) =~= b0.push(y));
            assert forall|k: Seq<char>| #[trigger]
                text::texts(a@).contains(k) <==> start.contains(k) || text::texts(
                    b@.take(i + 1),
                ).contains(k) by {
                crate::template::lemma_push_contains(a0, y, k);
                crate::template::lemma_push_contains(b0, y, k);
            }
        }
        i = i + 1;
    }
    assert(b@.take(b@.len() as int) =~= b@);
}

/// The keys of `vars` that are not in `referenced`, in order.
fn unused_of(vars: &NameMap<String>, referenced: &[String]) -> (r: Vec<String>)
    ensures
        text::ascending(text::texts(r@)),
        forall|k: Seq<char>| #[trigger]
            text::texts(r@).contains(k) <==> vars.texts().contains_key(k) && !text::texts(
                referenced@,
            ).contains(k),
{
    let n: usize = vars.len();
    let mut found: Vec<String> = Vec::new();
    let mut i: usize = 0;
    let ghost names = vars.names();
    while i < n
        invariant
            n == vars.names().len(),
            names == vars.names(),
            i <= n,
            forall|k: Seq<char>| #[trigger]
                text::texts(found@).contains(k) <==> names.take(i as int).contains(k)
                    && !text::texts(referenced@).contains(k),
        decreases n - i,
    {
        let ghost f0 = text::texts(found@);
        let ghost y = names[i as int];
        let used = text::list_has(referenced, vars.name_at(i));
        if !used {
            found.push(text::owned(vars.name_at(i)));
            assert(text::texts(found@) =~= f0.push(y));
        }
        proof {
            assert(names.take(i + 1) =~= names.take(i as int).push(y));
            assert forall|k: Seq<char>| #[trigger]
                text::texts(found@).contains(k) <==> names.take(i + 1).contains(k)
                    && !text::texts(referenced@).contains(k) by {
                crate::template::lemma_push_contains(f0, y, k);
                crate::template::lemma_push_contains(names.take(i as int), y, k);
            }
        }
        i = i + 1;
    }
    assert(names.take(n as int) =~= names);
    let r = text::sorted_set(&found);
    proof {
        assert forall|k: Seq<char>| #[trigger]
            text::texts(r@).contains(k) <==> vars.texts().contains_key(k) && !text::texts(
                referenced@,
            ).contains(k) by {
            assert(text::texts(found@).contains(k) <==> text::texts(r@).contains(k));
            assert(names.contains(k) <==> vars.map().contains_key(k));
        }
    }
    r
}

proof fn lemma_any_unresolved(vars: Map<Seq<char>, Seq<char>>, ds: Seq<JsonView>, d: JsonView)
    ensures
        any_unresolved(vars, ds.push(d)) <==> any_unresolved(vars, ds) || fill_doc(
            vars,
            d,
        ).unresolved.len() > 0,
{
    let t = ds.push(d);
    if any_unresolved(vars, ds) {
        let i = choose|i: int|
            0 <= i < ds.len() && fill_doc(vars, #[trigger] ds[i]).unresolved.len() > 0;
        assert(t[i] == ds[i]);
    }
    if fill_doc(vars, d).unresolved.len() > 0 {
        assert(t[ds.len() as int] == d);
    }
    if any_unresolved(vars, t) {
        let i = choose|i: int|
            0 <= i < t.len() && fill_doc(vars, #[trigger] t[i]).unresolved.len() > 0;
        if i < ds.len() {
            assert(ds[i] == t[i]);
        }
    }
}

proof fn lemma_any_referenced(
    vars: Map<Seq<char>, Seq<char>>,
    ds: Seq<JsonView>,
    d: JsonView,
    k: Seq<char>,
)
    ensures
        any_referenced(vars, ds.push(d), k) <==> any_referenced(vars, ds, k) || fill_doc(
            vars,
            d,
        ).referenced.contains(k),
{
    let t = ds.push(d);
    if any_referenced(vars, ds, k) {
        let i = choose|i: int|
            0 <= i < ds.len() && fill_doc(vars, #[trigger] ds[i]).referenced.contains(k);
        assert(t[i] == ds[i]);
    }
    if fill_doc(vars, d).referenced.contains(k) {
        assert(t[ds.len() as int] == d);
    }
    if any_referenced(vars, t, k) {
        let i = choose|i: int|
            0 <= i < t.len() && fill_doc(vars, #[trigger] t[i]).referenced.contains(k);
        if i < ds.len() {
            assert(ds[i] == t[i]);
        }
    }
}

proof fn lemma_parsed_err(names: Seq<Seq<char>>, files: Map<Seq<char>, FileRead>, n: int)
    requires
        0 <= n <= names.len(),
        parsed_files(names.take(n), files) is Err,
    ensures
        parsed_files(names, files) == parsed_files(names.take(n), files),
    decreases names.len(),
{
    if n == names.len() {
        assert(names.take(n) =~= names);
    } else {
        assert(names.drop_last().take(n) =~= names.take(n));
        lemma_parsed_err(names.drop_last(), files, n);
    }
}

/// The message of an error.
pub open spec fn error_text(e: RenderError) -> Seq<char> {
    match e {
        RenderError::BadBuildArg { arg } => "--build argument "@ + template::quoted(arg@)
            + " is not KEY=VALUE (e.g. --build bucket=my-bucket)"@,
        RenderError::DuplicateBuildKey { key } => "--build key "@ + template::quoted(key@)
            + " given more than once"@,
        RenderError::ReadDir { dir, source } => "read roles dir "@ + dir@ + ": "@ + source@,
        RenderError::NoTemplates { dir } => "no *.json templates found in "@ + dir@,
        RenderError::ReadTemplate { file, source } => "read template "@ + file@ + ": "@ + source@,
        RenderError::NotJson { file, source } => "template "@ + template::quoted(file@)
            + " is not valid JSON: "@ + source@,
        RenderError::CreateOut { dir, source } => "create output dir "@ + dir@ + ": "@ + source@,
        RenderError::WriteTemplate { file, source } => "write rendered template "@ + file@ + ": "@
            + source@,
        RenderError::Unresolved(list) =>
            "unresolved build token(s) \u{2014} pass the missing --build values:\n"@ + list@,
    }
}

fn message_parts(a: &str, b: &str, c: &str, d: &str) -> (r: String)
    ensures
        r@ == a@ + b@ + c@ + d@,
{
    let mut m = text::concat(a, b);
    m.push_str(c);
    m.push_str(d);
    m
}

impl RenderError {
    /// The message of the error.
    pub fn message(&self) -> (r: String)
        ensures
            r@ == error_text(*self),
    {
        match self {
            RenderError::BadBuildArg { arg } => {
                let mut m = text::concat(
                    "--build argument ",
                    template::quote(arg.as_str()).as_str(),
                );
                m.push_str(" is not KEY=VALUE (e.g. --build bucket=my-bucket)");
                m
            },
            RenderError::DuplicateBuildKey { key } => {
                let mut m = text::concat("--build key ", template::quote(key.as_str()).as_str());
                m.push_str(" given more than once");
                m
            },
            RenderError::ReadDir { dir, source } => message_parts(
                "read roles dir ",
                dir.as_str(),
                ": ",
                source.as_str(),
            ),
            RenderError::NoTemplates { dir } => text::concat(
                "no *.json templates found in ",
                dir.as_str(),
            ),
            RenderError::ReadTemplate { file, source } => message_parts(
                "read template ",
                file.as_str(),
                ": ",
                source.as_str(),
            ),
            RenderError::NotJson { file, source } => message_parts(
                "template ",
                template::quote(file.as_str()).as_str(),
                " is not valid JSON: ",
                source.as_str(),
            ),
            RenderError::CreateOut { dir, source } => message_parts(
                "create output dir ",
                dir.as_str(),
                ": ",
                source.as_str(),
            ),
            RenderError::WriteTemplate { file, source } => message_parts(
                "write rendered template ",
                file.as_str(),
                ": ",
                source.as_str(),
            ),
            RenderError::Unresolved(list) => text::concat(
                "unresolved build token(s) \u{2014} pass the missing --build values:\n",
                list.as_str(),
            ),
        }
    }
}

/// Render owns the build tokens and nothing else: where no build value is
/// resolved, a document comes out as it went in, its request-time tokens
/// and the tokens that are reported included.
pub proof fn law_other_tokens_pass_through(vars: Map<Seq<char>, Seq<char>>, d: JsonView)
    ensures
        fill_doc(vars, d).referenced.len() == 0 ==> fill_doc(vars, d).out == d,
    decreases d,
{
    match d {
        JsonView::Str(s) => lemma_text_passes_through(vars, s),
        JsonView::Array(items) => lemma_items_pass_through(vars, items),
        JsonView::Object(entries) => lemma_entries_pass_through(vars, entries),
        _ => {},
    }
}

proof fn lemma_text_passes_through(vars: Map<Seq<char>, Seq<char>>, s: Seq<char>)
    ensures
        fill(vars, s).referenced.len() == 0 ==> fill(vars, s).out == s,
    decreases s.len(),
{
    match text::find_pair(s, '{') {
        Some(o) if 0 <= o && o + 2 <= s.len() => {
            let after = s.skip(o + 2);
            match text::find_pair(after, '}') {
                Some(c) if 0 <= c && c + 2 <= after.len() => {
                    lemma_text_passes_through(vars, after.skip(c + 2));
                    assert(s.take(o) + s.subrange(o, o + 2 + c + 2) + after.skip(c + 2) =~= s);
                },
                _ => {},
            }
        },
        _ => {},
    }
}

proof fn lemma_items_pass_through(vars: Map<Seq<char>, Seq<char>>, items: Seq<JsonView>)
    ensures
        fill_items(vars, items).referenced.len() == 0 ==> fill_items(vars, items).out == items,
    decreases items,
{
    if items.len() > 0 {
        lemma_items_pass_through(vars, items.drop_last());
        law_other_tokens_pass_through(vars, items[items.len() - 1]);
        assert(items.drop_last().push(items[items.len() - 1]) =~= items);
    } else {
        assert(items =~= Seq::<JsonView>::empty());
    }
}

proof fn lemma_entries_pass_through(
    vars: Map<Seq<char>, Seq<char>>,
    entries: Seq<(Seq<char>, JsonView)>,
)
    ensures
        fill_entries(vars, entries).referenced.len() == 0 ==> fill_entries(vars, entries).out
            == entries,
    decreases entries,
{
    if entries.len() > 0 {
        let last = entries[entries.len() - 1];
        lemma_entries_pass_through(vars, entries.drop_last());
        law_other_tokens_pass_through(vars, last.1);
        assert(entries.drop_last().push((last.0, last.1)) =~= entries);
    } else {
        assert(entries =~= Seq::<(Seq<char>, JsonView)>::empty());
    }
}

/// Each token stands for itself: a build token with a value is replaced by
/// it, whatever the value holds, and is not scanned again; every other one
/// is emitted as it stands, spacing included; and what follows is rendered
/// on its own. What is reported is exactly what was resolved and what could
/// not be.
pub proof fn law_each_token_stands_for_itself(
    vars: Map<Seq<char>, Seq<char>>,
    before: Seq<char>,
    inner: Seq<char>,
    after: Seq<char>,
)
    requires
        text::find_pair(before.push('{'), '{') is None,
        text::find_pair(inner.push('}'), '}') is None,
    ensures
        ({
            let token = seq!['{', '{'] + inner + seq!['}', '}'];
            let f = fill(vars, before + seq!['{', '{'] + inner + seq!['}', '}'] + after);
            let rest = fill(vars, after);
            match classify_build(text::trimmed(inner)) {
                BuildToken::Key(key) if vars.contains_key(key) => {
                    &&& f.out == before + vars[key] + rest.out
                    &&& f.referenced == seq![key] + rest.referenced
                    &&& f.unresolved == rest.unresolved
                },
                BuildToken::Other => {
                    &&& f.out == before + token + rest.out
                    &&& f.referenced == rest.referenced
                    &&& f.unresolved == rest.unresolved
                },
                _ => {
                    &&& f.out == before + token + rest.out
                    &&& f.referenced == rest.referenced
                    &&& f.unresolved == seq![token] + rest.unresolved
                },
            }
        }),
{
    template::lemma_first_token(before, inner, after);
    let rest = fill(vars, after);
    assert(Seq::<Seq<char>>::empty() + rest.referenced =~= rest.referenced);
    assert(Seq::<Seq<char>>::empty() + rest.unresolved =~= rest.unresolved);
}

/// A build token that is left in a template is malformed to the request-time
/// renderer, so that it is never sealed.
pub proof fn law_left_build_token_is_malformed(inner: Seq<char>)
    requires
        classify_build(inner) !is Other,
    ensures
        crate::template::classify(inner) is None,
{
    reveal_strlit("build");
    reveal_strlit("env");
    reveal_strlit("mint");
    reveal_strlit("attested");
    reveal_strlit("caveat");
    assert("build"@.len() == 5);
    if crate::template::classify(inner) is Some {
        let i = text::find_char(inner, '.')->0;
        let ns = inner.take(i);
        assert("env"@.len() == 3);
        assert("mint"@.len() == 4);
        assert("attested"@.len() == 8);
        assert("caveat"@.len() == 6);
        assert(!text::has_white_space(ns)) by {
            if text::has_white_space(ns) {
                let k = choose|k: int|
                    0 <= k < ns.len() && text::is_white_space(#[trigger] ns[k]);
                assert(inner[k] == ns[k]);
                assert(text::has_white_space(inner));
            }
        }
        text::lemma_trimmed_word(ns);
    }
}

} // verus!
