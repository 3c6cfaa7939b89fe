//! The demo attestation authority: discharges of attested third-party
//! caveats, for whoever holds a session.

use crate::auth;
use crate::auth::{ClaimsView, RefusalView};
use crate::caveat;
use crate::caveat::{name, Caveat, CaveatView};
use crate::crypto;
use crate::macaroon;
use crate::macaroon::{KeyRef, MacaroonView};
use crate::map::NameMap;
use crate::reply;
use crate::reply::Reply;
use crate::text;
use crate::tpc;
use crate::tpc::TpcError;
use vstd::prelude::*;

verus! {

/// Lifetime of an attestation discharge.
pub const DISCHARGE_EXP_SECONDS: u64 = 300;

/// The body of an attestation request.
#[derive(Debug)]
pub struct AttestRequest {
    /// Base64url of the credential's attested third-party caveat `cid`.
    pub cid: String,
    /// The names and values to attest.
    pub attested: NameMap<String>,
}

/// The attested values as caveats, in the order `names`.
pub open spec fn value_caveats(
    names: Seq<Seq<char>>,
    values: Map<Seq<char>, Seq<char>>,
) -> Seq<CaveatView> {
    names.map_values(|n: Seq<char>| caveat::scalar(n, values[n]))
}

/// The caveats of an attestation discharge: the values in ascending order
/// of name, and a short deadline.
pub open spec fn attested_caveats(
    values: Map<Seq<char>, Seq<char>>,
    exp_unix: int,
) -> Seq<CaveatView> {
    value_caveats(crate::map::listing(values.dom()), values).push(
        caveat::scalar(name::EXP@, text::digits(exp_unix as nat)),
    )
}

/// A request as its text and values.
pub open spec fn request_view(request: Option<AttestRequest>) -> Option<
    (Seq<char>, Map<Seq<char>, Seq<char>>),
> {
    match request {
        Some(q) => Some((q.cid@, q.attested.texts())),
        None => None,
    }
}

/// A reserved name is among the names of a map.
pub open spec fn holds_reserved(values: Map<Seq<char>, Seq<char>>) -> bool {
    exists|n: Seq<char>| #[trigger] values.contains_key(n) && name::reserved(n)
}

/// What is issued for a request, or why nothing is. A name of the control
/// caveats is refused: an authority emits only its own vocabulary.
pub open spec fn attest_outcome(
    k_m_b: Seq<u8>,
    claims: Option<ClaimsView>,
    request: Option<(Seq<char>, Map<Seq<char>, Seq<char>>)>,
    org_id: Option<Seq<char>>,
    now_unix: u64,
) -> Result<MacaroonView, RefusalView> {
    if claims is None {
        Err(RefusalView { status: 401, message: "session required"@ })
    } else {
        match request {
            None => Err(RefusalView { status: 400, message: "bad request"@ }),
            Some((cid_text, values)) => if values.dom() == Set::<Seq<char>>::empty() {
                Err(RefusalView { status: 400, message: "nothing to attest"@ })
            } else if holds_reserved(values) {
                Err(RefusalView { status: 400, message: "reserved attested name"@ })
            } else {
                match crypto::base64url_read(text::trimmed(cid_text)) {
                    None => Err(RefusalView { status: 400, message: "bad cid"@ }),
                    Some(cid) => match tpc::attested_contents(k_m_b, cid) {
                        Err(_) => Err(RefusalView { status: 422, message: "cid decrypt"@ }),
                        Ok(p) => if org_id != Some(p.org_id) {
                            Err(RefusalView { status: 403, message: "org mismatch"@ })
                        } else {
                            Ok(
                                macaroon::minted(
                                    p.r,
                                    KeyRef::Discharge,
                                    tpc::ticket(cid),
                                    attested_caveats(values, now_unix + DISCHARGE_EXP_SECONDS),
                                ),
                            )
                        },
                    },
                }
            },
        }
    }
}

/// Whether a reserved name is among the names of a map.
fn any_reserved(values: &NameMap<String>) -> (r: bool)
    ensures
        r == holds_reserved(values.texts()),
{
    let n: usize = values.len();
    let ghost names = values.names();
    let mut i: usize = 0;
    while i < n
        invariant
            n == names.len(),
            names == values.names(),
            values.lists(),
            i <= n,
            forall|j: int| 0 <= j < i ==> !name::reserved(#[trigger] names[j]),
        decreases n - i,
    {
        if name::is_reserved(values.name_at(i)) {
            assert(values.texts().contains_key(names[i as int]));
            return true;
        }
        i = i + 1;
    }
    proof {
        assert forall|x: Seq<char>| #[trigger] values.texts().contains_key(x) implies !name::reserved(
            x,
        ) by {
            assert(names.contains(x) <==> values.map().contains_key(x));
            let j = choose|j: int| 0 <= j < names.len() && names[j] == x;
            assert(!name::reserved(names[j]));
        }
    }
    false
}

/// Answers an attestation request, whose parsed body is `request`.
pub fn issue_discharge(
    k_m_b: Option<&[u8; 32]>,
    k_session: Option<&[u8; 32]>,
    authorization: Option<&str>,
    request: &Option<AttestRequest>,
    org_id: Option<&str>,
    now_unix: u64,
) -> (r: Reply)
    requires
        now_unix + DISCHARGE_EXP_SECONDS <= u64::MAX,
    ensures
        match (k_m_b, k_session) {
            (None, _) => reply::refuses(r, 503, "k_m_b unavailable"@),
            (Some(_), None) => reply::refuses(r, 503, "k_session unavailable"@),
            (Some(kb), Some(ks)) => match attest_outcome(
                kb@,
                auth::presented_claims(auth::header_view(authorization), ks@, now_unix),
                request_view(*request),
                auth::header_view(org_id),
                now_unix,
            ) {
                Ok(d) => reply::replies(r, 200, "discharge"@, macaroon::token_of(d)),
                Err(f) => reply::refuses(r, f.status, f.message),
            },
        },
{
    let kb = match k_m_b {
        Some(k) => k,
        None => {
            return reply::error_reply(503, "k_m_b unavailable");
        },
    };
    let ks = match k_session {
        Some(k) => k,
        None => {
            return reply::error_reply(503, "k_session unavailable");
        },
    };
    if auth::verify_session(ks, authorization, now_unix).is_err() {
        return reply::error_reply(401, "session required");
    }
    let req = match request {
        Some(q) => q,
        None => {
            return reply::error_reply(400, "bad request");
        },
    };
    let n: usize = req.attested.len();
    let ghost names = req.attested.names();
    let ghost values = req.attested.texts();
    proof {
        req.attested.lemma_names();
        assert(values.dom() =~= req.attested.map().dom());
        if names.len() > 0 {
            assert(values.dom().contains(names[0]));
        } else {
            assert forall|x: Seq<char>| !values.dom().contains(x) by {
                assert(names.contains(x) <==> req.attested.map().contains_key(x));
            }
            assert(values.dom() =~= Set::<Seq<char>>::empty());
        }
    }
    if n == 0 {
        return reply::error_reply(400, "nothing to attest");
    }
    if any_reserved(&req.attested) {
        return reply::error_reply(400, "reserved attested name");
    }
    let cid = match crypto::base64url_decode(text::trim(req.cid.as_str()).as_str()) {
        Some(c) => c,
        None => {
            return reply::error_reply(400, "bad cid");
        },
    };
    let p = match tpc::decrypt_cid_attested(kb, &cid) {
        Ok(p) => p,
        Err(_) => {
            return reply::error_reply(422, "cid decrypt");
        },
    };
    let same_org = match org_id {
        Some(o) => text::same(o, p.org_id.as_str()),
        None => false,
    };
    if !same_org {
        return reply::error_reply(403, "org mismatch");
    }
    let exp: u64 = now_unix + DISCHARGE_EXP_SECONDS;
    let mut cs: Vec<Caveat> = Vec::new();
    let mut i: usize = 0;
    while i < n
        invariant
            n == names.len(),
            names == req.attested.names(),
            req.attested.lists(),
            values == req.attested.texts(),
            i <= n,
            cs@.len() == i,
            forall|j: int|
                0 <= j < i ==> (#[trigger] cs@[j])@ == caveat::scalar(names[j], values[names[j]]),
        decreases n - i,
    {
        cs.push(Caveat::scalar(req.attested.name_at(i), req.attested.value_at(i).as_str()));
        i = i + 1;
    }
    cs.push(Caveat::scalar(name::EXP, text::print_u64(exp).as_str()));
    assert(caveat::chain(cs@) =~= attested_caveats(values, exp as int));
    let d = macaroon::mint_under_key_with_nonce(
        &p.r,
        KeyRef::Discharge,
        tpc::ticket_id(&cid),
        cs,
    );
    reply::field_reply(200, "discharge", d.encode().as_str())
}

/// An attestation discharge answers the attested caveat that its `cid` is
/// from, as an operator discharge does its own; and it carries no control
/// caveat but its deadline.
pub proof fn law_attestation_answers_its_caveat(
    c: CaveatView,
    location: Seq<char>,
    tag: Seq<u8>,
    r: Seq<u8>,
    k_m_b: Seq<u8>,
    client_id: Seq<char>,
    org_id: Seq<char>,
    mode: Seq<char>,
    claims: Option<ClaimsView>,
    request: Option<(Seq<char>, Map<Seq<char>, Seq<char>>)>,
    served_org: Option<Seq<char>>,
    now_unix: u64,
)
    requires
        tpc::binds(c, location, tag, r, k_m_b, tpc::attested_layout(r, client_id, org_id, mode)),
        tpc::fits(client_id),
        tpc::fits(org_id),
        tpc::fits(mode),
        request matches Some((text, values)) ==> crypto::base64url_read(text::trimmed(text))
            == Some(c->cid) && values.dom().finite(),
    ensures
        attest_outcome(k_m_b, claims, request, served_org, now_unix) matches Ok(d) ==> {
            &&& tpc::recovered(tag, c->vid) == Ok::<Seq<u8>, TpcError>(r)
            &&& macaroon::authentic(d, r)
            &&& d.key_ref == KeyRef::Discharge
            &&& d.nonce == tpc::ticket(c->cid)
            &&& forall|i: int|
                0 <= i < d.caveats.len() - 1 ==> ((#[trigger] d.caveats[i]) is FirstParty
                    && !name::reserved(d.caveats[i]->name))
        },
{
    tpc::law_attested_vid_and_cid_recover_the_same_key(
        c,
        location,
        tag,
        r,
        k_m_b,
        client_id,
        org_id,
        mode,
    );
    if attest_outcome(k_m_b, claims, request, served_org, now_unix) is Ok {
        let d = attest_outcome(k_m_b, claims, request, served_org, now_unix)->Ok_0;
        let values = request_values(request);
        let names = crate::map::listing(values.dom());
        crate::map::lemma_listing_exists(values.dom());
        assert forall|i: int| 0 <= i < d.caveats.len() - 1 implies ((
        #[trigger] d.caveats[i]) is FirstParty && !name::reserved(d.caveats[i]->name)) by {
            assert(d.caveats[i] == caveat::scalar(names[i], values[names[i]]));
            assert(names.contains(names[i]));
            assert(values.contains_key(names[i]));
        }
    }
}

/// The values of a request.
pub open spec fn request_values(
    request: Option<(Seq<char>, Map<Seq<char>, Seq<char>>)>,
) -> Map<Seq<char>, Seq<char>> {
    match request {
        Some((_, values)) => values,
        None => Map::empty(),
    }
}

} // verus!
