//! JSON documents as plain values.
//!
//! Parsing and writing are `serde_json`'s; what stands between them, the
//! tree that policy templates are rendered in, is this crate's own type.

use crate::text;
use vstd::prelude::*;
use vstd::utf8::*;

verus! {

/// `serde_json::Number`, held only for numbers that are no integers.
#[verifier::external_type_specification]
#[verifier::external_body]
pub struct ExNumber(serde_json::Number);

/// A JSON document. The entries of an object keep their order.
#[derive(Debug)]
pub enum Json {
    Null,
    Bool(bool),
    /// An integer that fits `u64`.
    PosInt(u64),
    /// A negative integer that fits `i64`.
    NegInt(i64),
    /// Any other number.
    Float(serde_json::Number),
    Str(String),
    Array(Vec<Json>),
    Object(Vec<(String, Json)>),
}

/// A JSON document as a mathematical value.
pub enum JsonView {
    Null,
    Bool(bool),
    PosInt(u64),
    NegInt(i64),
    Float(serde_json::Number),
    Str(Seq<char>),
    Array(Seq<JsonView>),
    Object(Seq<(Seq<char>, JsonView)>),
}

/// The value that a document is.
pub open spec fn doc_of(j: Json) -> JsonView
    decreases j,
{
    match j {
        Json::Null => JsonView::Null,
        Json::Bool(b) => JsonView::Bool(b),
        Json::PosInt(n) => JsonView::PosInt(n),
        Json::NegInt(n) => JsonView::NegInt(n),
        Json::Float(n) => JsonView::Float(n),
        Json::Str(s) => JsonView::Str(s@),
        Json::Array(items) => JsonView::Array(
            Seq::new(
                items@.len(),
                |i: int|
                    if 0 <= i < items@.len() {
                        doc_of(items@[i])
                    } else {
                        JsonView::Null
                    },
            ),
        ),
        Json::Object(entries) => JsonView::Object(
            Seq::new(
                entries@.len(),
                |i: int|
                    if 0 <= i < entries@.len() {
                        (entries@[i].0@, doc_of(entries@[i].1))
                    } else {
                        (Seq::empty(), JsonView::Null)
                    },
            ),
        ),
    }
}

impl View for Json {
    type V = JsonView;

    open spec fn view(&self) -> JsonView {
        doc_of(*self)
    }
}

/// The document that a JSON text writes, as `serde_json` reads it, or its
/// message.
pub uninterp spec fn json_read(bytes: Seq<u8>) -> Result<JsonView, Seq<char>>;

/// The document that a JSON text writes.
pub open spec fn json_of(bytes: Seq<u8>) -> Option<JsonView> {
    match json_read(bytes) {
        Ok(d) => Some(d),
        Err(_) => None,
    }
}

/// Why a text is no JSON.
pub open spec fn json_fault(bytes: Seq<u8>) -> Seq<char> {
    match json_read(bytes) {
        Ok(_) => Seq::empty(),
        Err(m) => m,
    }
}

/// The compact text that `serde_json` writes for a document.
pub uninterp spec fn json_text(doc: JsonView) -> Seq<char>;

/// The indented text that `serde_json` writes for a document.
pub uninterp spec fn json_pretty(doc: JsonView) -> Seq<char>;

/// How many arrays and objects stand inside one another.
pub open spec fn depth(doc: JsonView) -> nat
    decreases doc,
{
    match doc {
        JsonView::Array(items) => 1 + items_depth(items),
        JsonView::Object(entries) => 1 + entries_depth(entries),
        _ => 0,
    }
}

/// The greatest depth among the items of an array.
pub open spec fn items_depth(items: Seq<JsonView>) -> nat
    decreases items,
{
    if items.len() == 0 {
        0
    } else {
        let a = items_depth(items.drop_last());
        let b = depth(items[items.len() - 1]);
        if a < b {
            b
        } else {
            a
        }
    }
}

/// The greatest depth among the values of an object.
pub open spec fn entries_depth(entries: Seq<(Seq<char>, JsonView)>) -> nat
    decreases entries,
{
    if entries.len() == 0 {
        0
    } else {
        let a = entries_depth(entries.drop_last());
        let b = depth(entries[entries.len() - 1].1);
        if a < b {
            b
        } else {
            a
        }
    }
}

/// Every object lists its keys in ascending order, each once, and every
/// negative integer is negative.
pub open spec fn ordered(doc: JsonView) -> bool
    decreases doc,
{
    match doc {
        JsonView::NegInt(n) => n < 0,
        JsonView::Array(items) => forall|i: int|
            0 <= i < items.len() ==> ordered(#[trigger] items[i]),
        JsonView::Object(entries) => {
            &&& forall|i: int, j: int|
                0 <= i < j < entries.len() ==> text::precedes(
                    #[trigger] entries[i].0,
                    #[trigger] entries[j].0,
                )
            &&& forall|i: int| 0 <= i < entries.len() ==> ordered((#[trigger] entries[i]).1)
        },
        _ => true,
    }
}

/// Two documents are the same, but for the value of a number that is no
/// integer.
pub open spec fn agree(a: JsonView, b: JsonView) -> bool
    decreases a,
{
    match (a, b) {
        (JsonView::Null, JsonView::Null) => true,
        (JsonView::Bool(x), JsonView::Bool(y)) => x == y,
        (JsonView::PosInt(x), JsonView::PosInt(y)) => x == y,
        (JsonView::NegInt(x), JsonView::NegInt(y)) => x == y,
        (JsonView::Float(_), b) => b is Float || b is PosInt || b is NegInt,
        (JsonView::Str(x), JsonView::Str(y)) => x == y,
        (JsonView::Array(x), JsonView::Array(y)) => x.len() == y.len() && forall|i: int|
            0 <= i < x.len() ==> agree(#[trigger] x[i], y[i]),
        (JsonView::Object(x), JsonView::Object(y)) => x.len() == y.len() && forall|i: int|
            0 <= i < x.len() ==> (#[trigger] x[i]).0 == y[i].0 && agree(x[i].1, y[i].1),
        _ => false,
    }
}

/// The nesting of `doc` is within what the reader follows.
pub open spec fn shallow(doc: JsonView) -> bool {
    depth(doc) < 128
}

/// The text of `doc` can be read back: its objects are ordered, and it is
/// shallow.
pub open spec fn readable(doc: JsonView) -> bool {
    ordered(doc) && shallow(doc)
}

/// Converts a `serde_json::Number`: an integer by its value, any other
/// number as it is.
#[verifier::external_body]
fn from_number(n: serde_json::Number) -> Json {
    match (n.as_u64(), n.as_i64()) {
        (Some(u), _) => Json::PosInt(u),
        (None, Some(i)) => Json::NegInt(i),
        (None, None) => Json::Float(n),
    }
}

/// Converts a `serde_json::Value`, variant by variant.
#[verifier::external_body]
fn from_value(v: serde_json::Value) -> Json {
    match v {
        serde_json::Value::Null => Json::Null,
        serde_json::Value::Bool(b) => Json::Bool(b),
        serde_json::Value::Number(n) => from_number(n),
        serde_json::Value::String(s) => Json::Str(s),
        serde_json::Value::Array(a) => Json::Array(a.into_iter().map(from_value).collect()),
        serde_json::Value::Object(m) => Json::Object(
            m.into_iter().map(|(k, v)| (k, from_value(v))).collect(),
        ),
    }
}

/// Converts to a `serde_json::Value`, variant by variant.
#[verifier::external_body]
fn to_value(j: &Json) -> serde_json::Value {
    match j {
        Json::Null => serde_json::Value::Null,
        Json::Bool(b) => serde_json::Value::Bool(*b),
        Json::PosInt(n) => serde_json::Value::from(*n),
        Json::NegInt(n) => serde_json::Value::from(*n),
        Json::Float(n) => serde_json::Value::Number(n.clone()),
        Json::Str(s) => serde_json::Value::String(s.clone()),
        Json::Array(a) => serde_json::Value::Array(a.iter().map(to_value).collect()),
        Json::Object(m) => serde_json::Value::Object(
            m.iter().map(|(k, v)| (k.clone(), to_value(v))).collect(),
        ),
    }
}

/// `serde_json::Value`, which the conversions pass through.
#[verifier::external_type_specification]
#[verifier::external_body]
pub struct ExValue(serde_json::Value);

/// `serde_json::from_slice` into a document, or its message. What it reads
/// is readable:
/// its objects come in key order with each key once, as `serde_json`
/// keeps them without its order-preserving feature, and it refuses a text
/// that nests deeper than its limit.
#[verifier::external_body]
pub(crate) fn read_json(bytes: &[u8]) -> (r: Result<Json, String>)
    ensures
        match r {
            Ok(d) => json_read(bytes@) == Ok::<JsonView, Seq<char>>(d@) && readable(d@),
            Err(m) => json_read(bytes@) == Err::<JsonView, Seq<char>>(m@),
        },
{
    serde_json::from_slice::<serde_json::Value>(bytes).map(from_value).map_err(|e| e.to_string())
}

/// The document that a JSON text writes.
pub fn parse_json(bytes: &[u8]) -> (r: Option<Json>)
    ensures
        match r {
            Some(d) => json_of(bytes@) == Some(d@) && readable(d@),
            None => json_of(bytes@) is None,
        },
{
    match read_json(bytes) {
        Ok(d) => Some(d),
        Err(_) => None,
    }
}

/// Whether a key is written without escapes: it holds no control
/// character, quote or backslash.
pub open spec fn plain(key: Seq<char>) -> bool {
    forall|i: int|
        0 <= i < key.len() ==> #[trigger] key[i] as int >= 32 && key[i] != '"' && key[i] != '\\'
}

/// The compact text of an object that holds one integer under a plain key.
pub open spec fn number_text(doc: JsonView) -> Option<Seq<char>> {
    match doc {
        JsonView::Object(entries) => if entries.len() == 1 && plain(entries[0].0) {
            match entries[0].1 {
                JsonView::PosInt(n) => Some(
                    "{\""@ + entries[0].0 + "\":"@ + text::digits(n as nat) + "}"@,
                ),
                _ => None,
            }
        } else {
            None
        },
        _ => None,
    }
}

/// The compact text of a document: `to_string` of a `serde_json::Value`.
/// The text of a readable document reads back as that document, up to the
/// value of a number that is no integer. An object of one integer is
/// written without spaces, its key in quotes and its number in decimal
/// digits. The document is shallow: the writer recurses with it.
#[verifier::external_body]
pub(crate) fn write_json(doc: &Json) -> (r: String)
    requires
        shallow(doc@),
    ensures
        r@ == json_text(doc@),
        number_text(doc@) matches Some(t) ==> r@ == t,
        readable(doc@) ==> json_of(encode_utf8(r@)) is Some && agree(
            doc@,
            json_of(encode_utf8(r@))->0,
        ),
{
    to_value(doc).to_string()
}

/// `serde_json::to_string_pretty` of a document. As with the compact text,
/// what is written for a readable document reads back.
#[verifier::external_body]
pub(crate) fn write_json_pretty(doc: &Json) -> (r: String)
    requires
        shallow(doc@),
    ensures
        r@ == json_pretty(doc@),
        readable(doc@) ==> json_of(encode_utf8(r@)) is Some && agree(
            doc@,
            json_of(encode_utf8(r@))->0,
        ),
{
    serde_json::to_string_pretty(&to_value(doc)).expect("a tree of values serialises")
}

/// The value under `key` in an object: its first entry of that name.
pub open spec fn field(doc: JsonView, key: Seq<char>) -> Option<JsonView> {
    match doc {
        JsonView::Object(entries) => entry(entries, key),
        _ => None,
    }
}

/// The value of the first entry of that name.
pub open spec fn entry(entries: Seq<(Seq<char>, JsonView)>, key: Seq<char>) -> Option<JsonView>
    decreases entries.len(),
{
    if entries.len() == 0 {
        None
    } else if entries[0].0 == key {
        Some(entries[0].1)
    } else {
        entry(entries.drop_first(), key)
    }
}

/// The value of a name is that of its first entry.
pub proof fn lemma_entry(entries: Seq<(Seq<char>, JsonView)>, key: Seq<char>, i: int)
    requires
        0 <= i <= entries.len(),
        forall|j: int| 0 <= j < i ==> (#[trigger] entries[j]).0 != key,
        i < entries.len() ==> entries[i].0 == key,
    ensures
        entry(entries, key) == (if i < entries.len() {
            Some(entries[i].1)
        } else {
            None::<JsonView>
        }),
    decreases entries.len(),
{
    if entries.len() > 0 && i > 0 {
        let t = entries.drop_first();
        assert(entries[0].0 != key);
        assert forall|j: int| 0 <= j < i - 1 implies (#[trigger] t[j]).0 != key by {
            assert(t[j] == entries[j + 1]);
        }
        lemma_entry(t, key, i - 1);
    }
}

/// An object of strings and integers under ascending keys is readable.
pub proof fn lemma_flat(entries: Seq<(Seq<char>, JsonView)>)
    requires
        forall|i: int|
            0 <= i < entries.len() ==> (#[trigger] entries[i]).1 is Str || entries[i].1 is PosInt,
        forall|i: int, j: int|
            0 <= i < j < entries.len() ==> text::precedes(
                #[trigger] entries[i].0,
                #[trigger] entries[j].0,
            ),
    ensures
        readable(JsonView::Object(entries)),
{
    lemma_entries_within(entries, 0);
    assert forall|i: int| 0 <= i < entries.len() implies ordered((#[trigger] entries[i]).1) by {}
}

/// An object is at most one deeper than its values.
pub proof fn lemma_entries_within(entries: Seq<(Seq<char>, JsonView)>, n: nat)
    requires
        forall|i: int| 0 <= i < entries.len() ==> depth((#[trigger] entries[i]).1) <= n,
    ensures
        depth(JsonView::Object(entries)) <= 1 + n,
    decreases entries.len(),
{
    if entries.len() > 0 {
        let t = entries.drop_last();
        assert forall|i: int| 0 <= i < t.len() implies depth((#[trigger] t[i]).1) <= n by {
            assert(t[i] == entries[i]);
        }
        lemma_entries_within(t, n);
        assert(depth(entries[entries.len() - 1].1) <= n);
    }
}

/// An array is at most one deeper than its items.
pub proof fn lemma_items_within(items: Seq<JsonView>, n: nat)
    requires
        forall|i: int| 0 <= i < items.len() ==> depth(#[trigger] items[i]) <= n,
    ensures
        depth(JsonView::Array(items)) <= 1 + n,
    decreases items.len(),
{
    if items.len() > 0 {
        let t = items.drop_last();
        assert forall|i: int| 0 <= i < t.len() implies depth(#[trigger] t[i]) <= n by {
            assert(t[i] == items[i]);
        }
        lemma_items_within(t, n);
        assert(depth(items[items.len() - 1]) <= n);
    }
}

/// Two documents that agree have the same strings and integers under each
/// key.
pub proof fn lemma_agreed_field(a: JsonView, b: JsonView, key: Seq<char>)
    requires
        a is Object,
        agree(a, b),
    ensures
        field(a, key) matches Some(JsonView::Str(s)) ==> field(b, key) == Some(JsonView::Str(s)),
        field(a, key) matches Some(JsonView::PosInt(n)) ==> field(b, key) == Some(
            JsonView::PosInt(n),
        ),
        field(a, key) is None ==> field(b, key) is None,
{
    let x = a->Object_0;
    let y = b->Object_0;
    if exists|i: int| 0 <= i < x.len() && (#[trigger] x[i]).0 == key {
        let i = lemma_first(x, key);
        lemma_entry(x, key, i);
        assert forall|j: int| 0 <= j < i implies (#[trigger] y[j]).0 != key by {
            assert(x[j].0 == y[j].0);
        }
        assert(x[i].0 == y[i].0);
        lemma_entry(y, key, i);
        assert(agree(x[i].1, y[i].1));
    } else {
        assert forall|j: int| 0 <= j < y.len() implies (#[trigger] y[j]).0 != key by {
            assert(x[j].0 == y[j].0);
        }
        lemma_entry(x, key, x.len() as int);
        lemma_entry(y, key, y.len() as int);
    }
}

/// A name that occurs has a first entry.
proof fn lemma_first(x: Seq<(Seq<char>, JsonView)>, key: Seq<char>) -> (i: int)
    requires
        exists|i: int| 0 <= i < x.len() && (#[trigger] x[i]).0 == key,
    ensures
        0 <= i < x.len(),
        x[i].0 == key,
        forall|j: int| 0 <= j < i ==> (#[trigger] x[j]).0 != key,
    decreases x.len(),
{
    let last = x.len() - 1;
    let t = x.drop_last();
    if exists|i: int| 0 <= i < t.len() && (#[trigger] t[i]).0 == key {
        let i = lemma_first(t, key);
        assert(x[i] == t[i]);
        assert forall|j: int| 0 <= j < i implies (#[trigger] x[j]).0 != key by {
            assert(t[j] == x[j]);
        }
        i
    } else {
        assert forall|j: int| 0 <= j < last implies (#[trigger] x[j]).0 != key by {
            assert(t[j] == x[j]);
        }
        last
    }
}

/// What the view of an object is.
pub proof fn lemma_object_view(j: Json, entries: Vec<(String, Json)>)
    requires
        j == Json::Object(entries),
    ensures
        j@ is Object,
        j@->Object_0.len() == entries@.len(),
        forall|i: int|
            0 <= i < entries@.len() ==> #[trigger] j@->Object_0[i] == (
                entries@[i].0@,
                entries@[i].1@,
            ),
{
}

/// What the view of an array is.
pub proof fn lemma_array_view(j: Json, items: Vec<Json>)
    requires
        j == Json::Array(items),
    ensures
        j@ is Array,
        j@->Array_0.len() == items@.len(),
        forall|i: int| 0 <= i < items@.len() ==> #[trigger] j@->Array_0[i] == items@[i]@,
{
}

impl Json {
    /// The value under `key`, where this is an object that has it.
    pub fn get(&self, key: &str) -> (r: Option<&Json>)
        ensures
            match r {
                Some(v) => field(self@, key@) == Some(v@),
                None => field(self@, key@) is None,
            },
    {
        match self {
            Json::Object(entries) => {
                let ghost view = self@->Object_0;
                proof {
                    lemma_object_view(*self, *entries);
                }
                let mut i: usize = 0;
                while i < entries.len()
                    invariant
                        i <= entries@.len() == view.len(),
                        forall|j: int|
                            0 <= j < entries@.len() ==> #[trigger] view[j] == (
                                entries@[j].0@,
                                entries@[j].1@,
                            ),
                        forall|j: int| 0 <= j < i ==> (#[trigger] view[j]).0 != key@,
                        self@ == JsonView::Object(view),
                    decreases entries@.len() - i,
                {
                    assert(view[i as int] == (entries@[i as int].0@, entries@[i as int].1@));
                    if text::same(entries[i].0.as_str(), key) {
                        proof {
                            lemma_entry(view, key@, i as int);
                        }
                        return Some(&entries[i].1);
                    }
                    i = i + 1;
                }
                proof {
                    lemma_entry(view, key@, view.len() as int);
                }
                None
            },
            _ => None,
        }
    }

    /// The string, where this is one.
    pub fn as_str(&self) -> (r: Option<&str>)
        ensures
            match r {
                Some(s) => self@ == JsonView::Str(s@),
                None => !(self@ is Str),
            },
    {
        match self {
            Json::Str(s) => Some(s.as_str()),
            _ => None,
        }
    }

    /// The unsigned integer, where this is one.
    pub fn as_u64(&self) -> (r: Option<u64>)
        ensures
            match r {
                Some(n) => self@ == JsonView::PosInt(n),
                None => !(self@ is PosInt),
            },
    {
        match self {
            Json::PosInt(n) => Some(*n),
            _ => None,
        }
    }
}

/// The string under `key` in a parsed body.
pub open spec fn str_field(doc: Option<JsonView>, key: Seq<char>) -> Option<Seq<char>> {
    match doc {
        Some(d) => match field(d, key) {
            Some(JsonView::Str(s)) => Some(s),
            _ => None,
        },
        None => None,
    }
}

/// The string under `key` in a parsed body.
pub fn read_str_field(doc: &Option<Json>, key: &str) -> (r: Option<String>)
    ensures
        match r {
            Some(s) => str_field(doc_view(*doc), key@) == Some(s@),
            None => str_field(doc_view(*doc), key@) is None,
        },
{
    match doc {
        Some(d) => match d.get(key) {
            Some(v) => match v.as_str() {
                Some(s) => Some(text::owned(s)),
                None => None,
            },
            None => None,
        },
        None => None,
    }
}

/// A parsed body as a mathematical value.
pub open spec fn doc_view(doc: Option<Json>) -> Option<JsonView> {
    match doc {
        Some(d) => Some(d@),
        None => None,
    }
}

} // verus!
