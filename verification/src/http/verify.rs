//! The verdict on a bundle, for a caller that clears it in its own
//! vocabulary.

use crate::caveat;
use crate::caveat::{op, Caveat, CaveatView};
use crate::http;
use crate::http::gate;
use crate::http::gate::{AuthFault, Fault, Presented};
use crate::http::ClearedView;
use crate::json;
use crate::json::{Json, JsonView};
use crate::keyring::Keyring;
use crate::reply::Reply;
use crate::text;
use vstd::prelude::*;

verus! {

/// The identifier of a failed verdict.
pub open spec fn fault_reason(f: AuthFault) -> Seq<char> {
    match f {
        AuthFault::NoBundle => "bundle_decode"@,
        AuthFault::BadProof => "pop_header"@,
        AuthFault::Refused(e) => http::reason_of(e),
    }
}

/// A failed verdict as a document.
pub open spec fn invalid_doc(reason: Seq<char>) -> JsonView {
    JsonView::Object(
        seq![("reason"@, JsonView::Str(reason)), ("valid"@, JsonView::Bool(false))],
    )
}

/// The first-party caveats of a chain as documents.
pub open spec fn caveat_docs(c: Seq<CaveatView>) -> Seq<JsonView>
    decreases c.len(),
{
    if c.len() == 0 {
        Seq::empty()
    } else {
        let before = caveat_docs(c.drop_last());
        match c.last() {
            CaveatView::FirstParty { name, value } => before.push(
                JsonView::Object(
                    seq![("name"@, JsonView::Str(name)), ("value"@, JsonView::Str(value))],
                ),
            ),
            CaveatView::ThirdParty { .. } => before,
        }
    }
}

/// A positive verdict as a document: the first-party caveats of the whole
/// bundle, and how long it is valid.
pub open spec fn valid_doc(cleared: ClearedView) -> JsonView {
    JsonView::Object(
        seq![
            (
                "caveats"@,
                JsonView::Array(
                    caveat_docs(
                        caveat::first_parties(cleared.primary.caveats) + caveat::first_parties(
                            cleared.discharge_caveats,
                        ),
                    ),
                ),
            ),
            (
                "expires_at"@,
                match cleared.expires_at {
                    Some(e) => JsonView::PosInt(e),
                    None => JsonView::Null,
                },
            ),
            ("valid"@, JsonView::Bool(true)),
        ],
    )
}

/// A list of caveats nests two deep.
proof fn lemma_caveat_docs_shallow(c: Seq<CaveatView>)
    ensures
        json::depth(JsonView::Array(caveat_docs(c))) <= 2,
{
    lemma_caveat_docs_flat(c);
    json::lemma_items_within(caveat_docs(c), 1);
}

proof fn lemma_caveat_docs_flat(c: Seq<CaveatView>)
    ensures
        forall|i: int|
            0 <= i < caveat_docs(c).len() ==> json::depth(#[trigger] caveat_docs(c)[i]) <= 1,
    decreases c.len(),
{
    if c.len() > 0 {
        let before = caveat_docs(c.drop_last());
        lemma_caveat_docs_flat(c.drop_last());
        if let CaveatView::FirstParty { name, value } = c.last() {
            json::lemma_entries_within(
                seq![("name"@, JsonView::Str(name)), ("value"@, JsonView::Str(value))],
                0,
            );
        }
        assert forall|i: int| 0 <= i < caveat_docs(c).len() implies json::depth(
            #[trigger] caveat_docs(c)[i],
        ) <= 1 by {
            if i < before.len() {
                assert(caveat_docs(c)[i] == before[i]);
            }
        }
    }
}

fn caveat_list(caveats: &[Caveat]) -> (r: Vec<Json>)
    ensures
        r@.len() == caveat_docs(caveat::chain(caveats@)).len(),
        forall|i: int|
            0 <= i < r@.len() ==> (#[trigger] r@[i])@ == caveat_docs(caveat::chain(caveats@))[i],
{
    let ghost all = caveat::chain(caveats@);
    let mut r: Vec<Json> = Vec::new();
    let mut i: usize = 0;
    assert(all.take(0) =~= Seq::<CaveatView>::empty());
    while i < caveats.len()
        invariant
            i <= caveats@.len(),
            all == caveat::chain(caveats@),
            r@.len() == caveat_docs(all.take(i as int)).len(),
            forall|j: int|
                0 <= j < r@.len() ==> (#[trigger] r@[j])@ == caveat_docs(all.take(i as int))[j],
        decreases caveats@.len() - i,
    {
        proof {
            assert(all.take(i + 1).drop_last() =~= all.take(i as int));
            assert(all.take(i + 1).last() == caveats@[i as int]@);
        }
        match &caveats[i] {
            Caveat::FirstParty { name, value } => {
                let mut v: Vec<(String, Json)> = Vec::new();
                v.push((text::owned("name"), Json::Str(name.clone())));
                v.push((text::owned("value"), Json::Str(value.clone())));
                let ghost entries = v;
                let doc = Json::Object(v);
                proof {
                    json::lemma_object_view(doc, entries);
                    assert(doc@->Object_0 =~= seq![
                        ("name"@, JsonView::Str(name@)),
                        ("value"@, JsonView::Str(value@)),
                    ]);
                }
                r.push(doc);
            },
            Caveat::ThirdParty { .. } => {},
        }
        i = i + 1;
    }
    assert(all.take(all.len() as int) =~= all);
    r
}

/// Answers a verification: always with status 200, and the verdict in the
/// body. The caller gets the raw caveats back.
pub fn verdict(q: &Presented<'_>, keyring: &Keyring, now_unix: u64, audience: &str) -> (r: Reply)
    ensures
        r.status == 200,
        r.body@ == json::json_text(
            match gate::authenticated(q@, keyring@, now_unix, audience@, op::ASSUME_ROLE@) {
                Ok(c) => valid_doc(c),
                Err(f) => invalid_doc(fault_reason(f)),
            },
        ),
{
    match gate::authenticate(q, keyring, now_unix, audience, op::ASSUME_ROLE) {
        Err(f) => {
            let reason = match &f {
                Fault::NoBundle => "bundle_decode",
                Fault::BadProof => "pop_header",
                Fault::Refused(e) => e.reason(),
            };
            let mut v: Vec<(String, Json)> = Vec::new();
            v.push((text::owned("reason"), Json::Str(text::owned(reason))));
            v.push((text::owned("valid"), Json::Bool(false)));
            let ghost entries = v;
            let doc = Json::Object(v);
            proof {
                json::lemma_object_view(doc, entries);
                assert(doc@->Object_0 =~= invalid_doc(reason@)->Object_0);
                json::lemma_entries_within(doc@->Object_0, 0);
            }
            Reply { status: 200, body: json::write_json(&doc) }
        },
        Ok(c) => {
            let all = c.all_caveats();
            let list = caveat_list(&all);
            let ghost items = list;
            let array = Json::Array(list);
            proof {
                json::lemma_array_view(array, items);
                assert(array@->Array_0 =~= caveat_docs(caveat::chain(all@)));
            }
            let mut v: Vec<(String, Json)> = Vec::new();
            v.push((text::owned("caveats"), array));
            v.push(
                (
                    text::owned("expires_at"),
                    match c.expires_at {
                        Some(e) => Json::PosInt(e),
                        None => Json::Null,
                    },
                ),
            );
            v.push((text::owned("valid"), Json::Bool(true)));
            let ghost entries = v;
            let doc = Json::Object(v);
            proof {
                json::lemma_object_view(doc, entries);
                assert(doc@->Object_0 =~= valid_doc(http::cleared_view(c))->Object_0);
                lemma_caveat_docs_shallow(caveat::chain(all@));
                json::lemma_entries_within(doc@->Object_0, 2);
            }
            Reply { status: 200, body: json::write_json(&doc) }
        },
    }
}

} // verus!
