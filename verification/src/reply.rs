//! Replies: a status and a JSON body.

use crate::json;
use crate::json::{Json, JsonView};
use crate::text;
use vstd::prelude::*;
use vstd::utf8::*;

verus! {

/// A reply to a request.
#[derive(Debug, PartialEq, Eq)]
pub struct Reply {
    pub status: u16,
    /// The JSON text of the body.
    pub body: String,
}

/// An object of one string field.
pub open spec fn field_doc(key: Seq<char>, value: Seq<char>) -> JsonView {
    JsonView::Object(seq![(key, JsonView::Str(value))])
}

/// The reply has this status, and this one string field in its body, which
/// reads back.
pub open spec fn replies(r: Reply, status: u16, key: Seq<char>, value: Seq<char>) -> bool {
    &&& r.status == status
    &&& r.body@ == json::json_text(field_doc(key, value))
    &&& json::str_field(json::json_of(encode_utf8(r.body@)), key) == Some(value)
}

/// The reply refuses with this status and message.
pub open spec fn refuses(r: Reply, status: u16, message: Seq<char>) -> bool {
    replies(r, status, "error"@, message)
}

/// A reply with one string field.
pub fn field_reply(status: u16, key: &str, value: &str) -> (r: Reply)
    ensures
        replies(r, status, key@, value@),
{
    let mut v: Vec<(String, Json)> = Vec::new();
    v.push((text::owned(key), Json::Str(text::owned(value))));
    let ghost entries = v;
    let doc = Json::Object(v);
    proof {
        json::lemma_object_view(doc, entries);
        assert(doc@->Object_0 =~= field_doc(key@, value@)->Object_0);
        json::lemma_entries_within(doc@->Object_0, 0);
    }
    let body = json::write_json(&doc);
    proof {
        let entries = doc@->Object_0;
        json::lemma_flat(entries);
        json::lemma_entry(entries, key@, 0);
        json::lemma_agreed_field(doc@, json::json_of(encode_utf8(body@))->0, key@);
    }
    Reply { status, body }
}

/// A reply that refuses.
pub fn error_reply(status: u16, message: &str) -> (r: Reply)
    ensures
        refuses(r, status, message@),
{
    field_reply(status, "error", message)
}

} // verus!
