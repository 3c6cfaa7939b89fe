//! The operator's side of the admin plane: the machine's identity, and the
//! headers of one admin call.

use crate::caveat;
use crate::caveat::{name, scope, Caveat, CaveatView};
use crate::crypto;
use crate::http;
use crate::http::gate;
use crate::json;
use crate::json::{Json, JsonView};
use crate::macaroon;
use crate::macaroon::{Macaroon, MacaroonView};
use crate::pop;
use crate::reply;
use crate::reply::Reply;
use crate::text;
use crate::tpc;
use vstd::prelude::*;
use vstd::utf8::*;

verus! {

/// The admin service token on disk.
pub const ADMIN_SERVICE_FILE: &'static str = "admin-service";

/// The seed of the token's machine key, as hexadecimal digits.
pub const ADMIN_SERVICE_KEY_FILE: &'static str = "admin-service.key";

/// Why an operator step failed.
#[derive(Debug, PartialEq, Eq)]
pub enum OperatorError {
    Io(String),
    Malformed(&'static str),
    /// The token carries no third-party caveat to discharge.
    NoTpc,
    Transport(String),
    Status { status: u16, body: String },
}

/// The message of an operator error.
pub open spec fn error_text(e: OperatorError) -> Seq<char> {
    match e {
        OperatorError::Io(m) => m@,
        OperatorError::Malformed(what) => "malformed "@ + what@,
        OperatorError::NoTpc => "admin-service carries no third-party caveat to discharge"@,
        OperatorError::Transport(m) => "transport: "@ + m@,
        OperatorError::Status { status, body } => "auth service returned "@ + text::digits(
            status as nat,
        ) + ": "@ + body@,
    }
}

impl OperatorError {
    /// The message for the operator.
    pub fn message(&self) -> (r: String)
        ensures
            r@ == error_text(*self),
    {
        match self {
            OperatorError::Io(m) => m.clone(),
            OperatorError::Malformed(what) => text::concat("malformed ", what),
            OperatorError::NoTpc => text::owned(
                "admin-service carries no third-party caveat to discharge",
            ),
            OperatorError::Transport(m) => text::concat("transport: ", m.as_str()),
            OperatorError::Status { status, body } => {
                let mut m = text::owned("auth service returned ");
                m.push_str(text::print_u64(*status as u64).as_str());
                m.push_str(": ");
                m.push_str(body.as_str());
                m
            },
        }
    }
}

/// The operator's identity on the admin plane: the admin service token and
/// the seed of its machine key.
pub struct Operator {
    admin_service: Macaroon,
    machine_seed: [u8; 32],
}

/// An operator, mathematically.
pub struct OperatorView {
    pub token: MacaroonView,
    pub seed: Seq<u8>,
}

impl View for Operator {
    type V = OperatorView;

    closed spec fn view(&self) -> OperatorView {
        OperatorView { token: self.admin_service@, seed: self.machine_seed@ }
    }
}

/// The first third-party caveat of a chain, as its location and `cid`.
pub open spec fn first_site(c: Seq<CaveatView>) -> Option<(Seq<char>, Seq<u8>)>
    decreases c.len(),
{
    if c.len() == 0 {
        None
    } else {
        match c[0] {
            CaveatView::ThirdParty { location, cid, .. } => Some((location, cid)),
            _ => first_site(c.drop_first()),
        }
    }
}

/// The first third-party caveat of a chain.
pub fn find_site(caveats: &[Caveat]) -> (r: Option<(String, Vec<u8>)>)
    ensures
        match r {
            Some((location, cid)) => first_site(caveat::chain(caveats@)) == Some(
                (location@, cid@),
            ),
            None => first_site(caveat::chain(caveats@)) is None,
        },
{
    let ghost all = caveat::chain(caveats@);
    let mut i: usize = 0;
    assert(all.skip(0) =~= all);
    while i < caveats.len()
        invariant
            i <= caveats@.len(),
            all == caveat::chain(caveats@),
            first_site(all) == first_site(all.skip(i as int)),
        decreases caveats@.len() - i,
    {
        assert(all.skip(i as int)[0] == caveats@[i as int]@);
        assert(all.skip(i as int).drop_first() =~= all.skip(i + 1));
        match &caveats[i] {
            Caveat::ThirdParty { location, cid, .. } => {
                let mut copy: Vec<u8> = Vec::new();
                crate::bytes::append(&mut copy, cid);
                assert(copy@ =~= cid@);
                return Some((location.clone(), copy));
            },
            Caveat::FirstParty { .. } => {},
        }
        i = i + 1;
    }
    assert(all.skip(all.len() as int) =~= Seq::<CaveatView>::empty());
    None
}

/// The body of a discharge request as a document.
pub open spec fn discharge_doc(cid: Seq<char>, scope: Seq<char>) -> JsonView {
    JsonView::Object(seq![("cid"@, JsonView::Str(cid)), ("scope"@, JsonView::Str(scope))])
}

/// The body of a discharge request.
pub fn discharge_body(cid: &str, scope: &str) -> (r: String)
    ensures
        r@ == json::json_text(discharge_doc(cid@, scope@)),
        json::str_field(json::json_of(encode_utf8(r@)), "cid"@) == Some(cid@),
        json::str_field(json::json_of(encode_utf8(r@)), "scope"@) == Some(scope@),
{
    let mut v: Vec<(String, Json)> = Vec::new();
    v.push((text::owned("cid"), Json::Str(text::owned(cid))));
    v.push((text::owned("scope"), Json::Str(text::owned(scope))));
    let ghost entries = v;
    let doc = Json::Object(v);
    proof {
        json::lemma_object_view(doc, entries);
        assert(doc@->Object_0 =~= discharge_doc(cid@, scope@)->Object_0);
        json::lemma_entries_within(doc@->Object_0, 0);
    }
    let r = json::write_json(&doc);
    proof {
        let entries = discharge_doc(cid@, scope@)->Object_0;
        reveal_strlit("cid");
        reveal_strlit("scope");
        assert("cid"@[0] == 'c');
        assert("scope"@[0] == 's');
        json::lemma_flat(entries);
        json::lemma_entry(entries, "cid"@, 0);
        json::lemma_entry(entries, "scope"@, 1);
        let out = json::json_of(encode_utf8(r@))->0;
        json::lemma_agreed_field(doc@, out, "cid"@);
        json::lemma_agreed_field(doc@, out, "scope"@);
    }
    r
}

impl Operator {
    /// The operator of the token and the key that are on disk.
    pub fn load(token_text: &str, key_hex: &str) -> (r: Result<Operator, OperatorError>)
        ensures
            match (
                macaroon::read_token(text::trimmed(token_text@)),
                text::read_hex32(text::trimmed(key_hex@)),
            ) {
                (None, _) => r matches Err(OperatorError::Malformed(w)) && w@ == "admin-service"@,
                (Some(_), None) => r matches Err(OperatorError::Malformed(w)) && w@
                    == "admin-service.key"@,
                (Some(m), Some(seed)) => r matches Ok(o) && o@.token == m && o@.seed == seed,
            },
    {
        let admin_service = match Macaroon::decode(text::trim(token_text).as_str()) {
            Ok(m) => m,
            Err(_) => {
                return Err(OperatorError::Malformed("admin-service"));
            },
        };
        match unhex32(text::trim(key_hex).as_str()) {
            Some(machine_seed) => Ok(Operator { admin_service, machine_seed }),
            None => Err(OperatorError::Malformed("admin-service.key")),
        }
    }

    /// Base64url of the token's third-party caveat `cid`, which the auth
    /// role recovers the discharge key from.
    pub fn cid_b64(&self) -> (r: Result<String, OperatorError>)
        ensures
            match first_site(self@.token.caveats) {
                Some((_, cid)) => r is Ok && r->Ok_0@ == crypto::base64url(cid),
                None => r == Err::<String, OperatorError>(OperatorError::NoTpc),
            },
    {
        match find_site(self.admin_service.caveats()) {
            Some((_, cid)) => Ok(crypto::base64url_encode(&cid)),
            None => Err(OperatorError::NoTpc),
        }
    }

    /// The request path of the token's third-party caveat: where its
    /// discharge is fetched, over a transport that is given apart.
    pub fn discharge_path(&self) -> (r: Result<String, OperatorError>)
        ensures
            match first_site(self@.token.caveats) {
                Some((location, _)) => match tpc::request_path(tpc::uri_path(location)) {
                    Some(p) => r is Ok && r->Ok_0@ == p,
                    None => r matches Err(OperatorError::Malformed(w)) && w@ == "tpc location"@,
                },
                None => r == Err::<String, OperatorError>(OperatorError::NoTpc),
            },
    {
        match find_site(self.admin_service.caveats()) {
            Some((location, _)) => match tpc::location_path(location.as_str()) {
                Some(p) => Ok(p),
                None => Err(OperatorError::Malformed("tpc location")),
            },
            None => Err(OperatorError::NoTpc),
        }
    }

    /// The body of the discharge request for the token, at the admin
    /// scope.
    pub fn discharge_request_body(&self) -> (r: Result<String, OperatorError>)
        ensures
            match first_site(self@.token.caveats) {
                Some((_, cid)) => r is Ok && r->Ok_0@ == json::json_text(
                    discharge_doc(crypto::base64url(cid), scope::MINT_ADMIN@),
                ),
                None => r == Err::<String, OperatorError>(OperatorError::NoTpc),
            },
    {
        match self.cid_b64() {
            Ok(cid) => Ok(discharge_body(cid.as_str(), scope::MINT_ADMIN)),
            Err(e) => Err(e),
        }
    }

    /// The two headers of one admin call: the token attenuated to the
    /// verb, bundled with the discharge; and the machine key's proof over
    /// the attenuated tail and the body, which carries its own timestamp.
    pub fn authorize(&self, discharge: &Macaroon, op_value: &str, body: &[u8]) -> (r: (
        String,
        String,
    ))
        ensures
            ({
                let primary = macaroon::extended(
                    self@.token,
                    caveat::scalar(name::OP@, op_value@),
                );
                &&& r.0@ == http::bundle_text(primary, seq![discharge@])
                &&& http::encodable(primary) && http::encodable(discharge@) ==> http::read_bundle(
                    Some(r.0@),
                ) == Some(seq![primary, discharge@])
                &&& ({
                    let signed = pop::signed_digest(primary.tail, body@);
                    let sig = crypto::ed25519_signature(self@.seed, signed);
                    &&& r.1@ == crypto::base64(sig)
                    &&& gate::read_proof(Some(r.1@)) == Ok::<Option<Seq<u8>>, ()>(Some(sig))
                    &&& !crypto::neutral_point(sig) ==> crypto::ed25519_strict(
                        crypto::ed25519_public(self@.seed),
                        signed,
                        sig,
                    )
                })
            }),
    {
        let attenuated = self.admin_service.clone().attenuate(Caveat::scalar(name::OP, op_value));
        let sig = pop::client_signature(&self.machine_seed, attenuated.tail(), body);
        let mut discharges: Vec<Macaroon> = Vec::new();
        discharges.push(discharge.clone());
        proof {
            assert(http::views(discharges@) =~= seq![discharge@]);
            assert(seq![attenuated@] + seq![discharge@] =~= seq![attenuated@, discharge@]);
        }
        (http::format_bundle(&attenuated, &discharges), sig)
    }
}

/// A string field of a reply.
pub open spec fn reply_field(body: Seq<char>, key: Seq<char>) -> Option<Seq<char>> {
    json::str_field(json::json_of(encode_utf8(body)), key)
}

/// What the server writes into a reply, a client reads out of it.
pub proof fn law_reply_reads_back(r: Reply, status: u16, key: Seq<char>, value: Seq<char>)
    requires
        reply::replies(r, status, key, value),
    ensures
        reply_field(r.body@, key) == Some(value),
{
}

/// A string field of a reply.
pub fn json_field(body: &str, key: &'static str) -> (r: Result<String, OperatorError>)
    ensures
        match reply_field(body@, key@) {
            Some(v) => r is Ok && r->Ok_0@ == v,
            None => r == Err::<String, OperatorError>(OperatorError::Malformed(key)),
        },
{
    let doc = json::parse_json(body.as_bytes());
    match json::read_str_field(&doc, key) {
        Some(v) => Ok(v),
        None => Err(OperatorError::Malformed(key)),
    }
}

/// The discharge in the auth role's reply.
pub fn read_discharge(status: u16, reply: &str) -> (r: Result<Macaroon, OperatorError>)
    ensures
        if status != 200 {
            r matches Err(OperatorError::Status { status: s, body }) && s == status && body@
                == reply@
        } else {
            match reply_field(reply@, "discharge"@) {
                None => r matches Err(OperatorError::Malformed(w)) && w@ == "discharge"@,
                Some(t) => match macaroon::read_token(t) {
                    Some(m) => r is Ok && r->Ok_0@ == m,
                    None => r matches Err(OperatorError::Malformed(w)) && w@ == "discharge"@,
                },
            }
        },
{
    if status != 200 {
        return Err(OperatorError::Status { status, body: text::owned(reply) });
    }
    let token = match json_field(reply, "discharge") {
        Ok(t) => t,
        Err(e) => {
            return Err(e);
        },
    };
    match Macaroon::decode(token.as_str()) {
        Ok(m) => Ok(m),
        Err(_) => Err(OperatorError::Malformed("discharge")),
    }
}

/// The 32 bytes that exactly 64 hexadecimal digits write.
pub fn unhex32(s: &str) -> (r: Option<[u8; 32]>)
    ensures
        match r {
            Some(b) => text::read_hex32(s@) == Some(b@),
            None => text::read_hex32(s@) is None,
        },
{
    text::decode_hex32(s)
}

/// An admin call under an authentic token stays authentic: attenuating to
/// the verb needs no key.
pub proof fn law_admin_call_is_authentic(o: OperatorView, op_value: Seq<char>, key: Seq<u8>)
    requires
        macaroon::authentic(o.token, key),
    ensures
        macaroon::authentic(
            macaroon::extended(o.token, caveat::scalar(name::OP@, op_value)),
            key,
        ),
{
    macaroon::law_attenuation_stays_authentic(
        o.token,
        caveat::scalar(name::OP@, op_value),
        key,
    );
}

} // verus!
