//! Holder-of-key proof for the `cnf` caveat.
//!
//! A credential is key-bound, not a bearer: a request is honoured only
//! with a fresh Ed25519 signature over
//! `BLAKE3(tail ‖ BLAKE3(body))` that verifies against the key sealed in
//! `cnf`. The tail binds the proof to this exact attenuated macaroon, the
//! body hash to this exact request. Freshness is the `ts` field inside
//! the body. Only a single sealed `cnf` whose proof verifies opens the
//! gate: an absent and a contradictory `cnf` are both refused.

use crate::bytes;
use crate::caveat;
use crate::caveat::{Caveat, CaveatView, EffectiveCaveats, Resolved, ResolvedView};
use crate::crypto;
use crate::json;
use crate::json::{Json, JsonView};
use crate::text;
use vstd::prelude::*;

verus! {

/// The holder-of-key caveat.
pub const CNF_CAVEAT: &'static str = "cnf";

/// What a `cnf` value begins with.
pub const ED25519_PREFIX: &'static str = "ed25519:";

/// Replay window on the proof timestamp, in seconds either way.
pub const SKEW_SECONDS: u64 = 60;

/// Body field carrying the freshness timestamp in unix seconds.
pub const TS_FIELD: &'static str = "ts";

/// Why a proof was refused. Clients see every variant as one opaque
/// refusal.
#[derive(Debug, Clone, Copy, PartialEq, Eq, Structural)]
pub enum PopReject {
    /// `cnf` absent.
    NoCnf,
    /// Contradictory `cnf`.
    Unsatisfiable,
    /// Malformed `cnf`.
    BadKey,
    /// Proof header absent.
    MissingProof,
    /// Malformed proof, or no timestamp in the body.
    BadProof,
    /// Proof timestamp outside the skew window.
    Stale,
    /// Signature verification failed.
    BadSignature,
}

/// The request-side proof: the Ed25519 signature.
pub struct Proof {
    pub sig: [u8; 64],
}

/// The bytes of a proof, if they are a signature's length.
pub open spec fn proof_bytes(raw: Option<Seq<u8>>) -> Result<Seq<u8>, PopReject> {
    match raw {
        Some(b) if b.len() == 64 => Ok(b),
        _ => Err(PopReject::BadProof),
    }
}

/// The proof made of decoded bytes.
pub fn proof_from(raw: Option<Vec<u8>>) -> (r: Result<Proof, PopReject>)
    ensures
        match r {
            Ok(p) => raw is Some && proof_bytes(Some(raw->0@)) == Ok::<Seq<u8>, PopReject>(p.sig@),
            Err(e) => e == PopReject::BadProof && (raw is None || raw->0@.len() != 64),
        },
{
    match raw {
        Some(b) => {
            if b.len() != 64 {
                return Err(PopReject::BadProof);
            }
            let sig = bytes::array64(&b, 0);
            assert(sig@ =~= b@);
            Ok(Proof { sig })
        },
        None => Err(PopReject::BadProof),
    }
}

impl Proof {
    /// Parses a proof from its header: a 64-byte signature in Base64,
    /// with white space around it.
    pub fn from_b64(sig_b64: &str) -> (r: Result<Proof, PopReject>)
        ensures
            match r {
                Ok(p) => proof_bytes(crypto::base64_read(text::trimmed(sig_b64@))) == Ok::<
                    Seq<u8>,
                    PopReject,
                >(p.sig@),
                Err(e) => proof_bytes(crypto::base64_read(text::trimmed(sig_b64@))) == Err::<
                    Seq<u8>,
                    PopReject,
                >(e),
            },
    {
        proof_from(crypto::base64_decode(text::trim(sig_b64).as_str()))
    }
}

/// The timestamp in a parsed body.
pub open spec fn ts_of(doc: Option<JsonView>) -> Result<u64, PopReject> {
    match doc {
        Some(d) => match json::field(d, TS_FIELD@) {
            Some(JsonView::PosInt(n)) => Ok(n),
            _ => Err(PopReject::BadProof),
        },
        None => Err(PopReject::BadProof),
    }
}

/// The timestamp in a parsed body.
pub fn timestamp(doc: &Option<Json>) -> (r: Result<u64, PopReject>)
    ensures
        r == ts_of(json::doc_view(*doc)),
{
    match doc {
        Some(d) => match d.get(TS_FIELD) {
            Some(v) => match v.as_u64() {
                Some(n) => Ok(n),
                None => Err(PopReject::BadProof),
            },
            None => Err(PopReject::BadProof),
        },
        None => Err(PopReject::BadProof),
    }
}

/// The timestamp in a request body.
fn body_ts(body: &[u8]) -> (r: Result<u64, PopReject>)
    ensures
        r == ts_of(json::json_of(body@)),
{
    let doc = json::parse_json(body);
    timestamp(&doc)
}

/// The bytes of a key, if they are a key's length.
pub open spec fn key_bytes(raw: Option<Seq<u8>>) -> Result<Seq<u8>, PopReject> {
    match raw {
        Some(b) if b.len() == 32 => Ok(b),
        _ => Err(PopReject::BadKey),
    }
}

/// The key made of decoded bytes.
pub fn key_from(raw: Option<Vec<u8>>) -> (r: Result<[u8; 32], PopReject>)
    ensures
        match r {
            Ok(k) => raw is Some && key_bytes(Some(raw->0@)) == Ok::<Seq<u8>, PopReject>(k@),
            Err(e) => e == PopReject::BadKey && (raw is None || raw->0@.len() != 32),
        },
{
    match raw {
        Some(b) => {
            if b.len() != 32 {
                return Err(PopReject::BadKey);
            }
            let k = bytes::array32(&b, 0);
            assert(k@ =~= b@);
            Ok(k)
        },
        None => Err(PopReject::BadKey),
    }
}

/// The key bytes that a `cnf` value carries.
pub open spec fn cnf_key(value: Seq<char>) -> Result<Seq<u8>, PopReject> {
    match text::without_prefix(value, ED25519_PREFIX@) {
        Some(b64) => key_bytes(crypto::base64_read(text::trimmed(b64))),
        None => Err(PopReject::BadKey),
    }
}

fn parse_cnf(value: &str) -> (r: Result<[u8; 32], PopReject>)
    ensures
        match r {
            Ok(k) => cnf_key(value@) == Ok::<Seq<u8>, PopReject>(k@),
            Err(e) => cnf_key(value@) == Err::<Seq<u8>, PopReject>(e),
        },
{
    match text::strip_prefix(value, ED25519_PREFIX) {
        Some(b64) => key_from(crypto::base64_decode(text::trim(b64.as_str()).as_str())),
        None => Err(PopReject::BadKey),
    }
}

/// The signed digest: `BLAKE3(tail ‖ BLAKE3(body))`.
pub open spec fn signed_digest(tail: Seq<u8>, body: Seq<u8>) -> Seq<u8> {
    crypto::blake3_hash(tail + crypto::blake3_hash(body))
}

fn digest(tail: &[u8; 32], body: &[u8]) -> (r: [u8; 32])
    ensures
        r@ == signed_digest(tail@, body@),
{
    let body_hash = crypto::hash(body);
    let mut v: Vec<u8> = Vec::new();
    bytes::append(&mut v, tail);
    bytes::append(&mut v, &body_hash);
    assert(v@ =~= tail@ + body_hash@);
    crypto::hash(&v)
}

/// `a` and `b` are within the skew window of each other.
pub open spec fn within_skew(a: u64, b: u64) -> bool {
    (if a <= b {
        b - a
    } else {
        a - b
    }) <= SKEW_SECONDS
}

/// What follows a verified signature: the body's timestamp must be there
/// and within the skew window.
pub open spec fn freshness(ts: Result<u64, PopReject>, now_unix: u64) -> Result<(), PopReject> {
    match ts {
        Ok(t) => if within_skew(now_unix, t) {
            Ok(())
        } else {
            Err(PopReject::Stale)
        },
        Err(e) => Err(e),
    }
}

/// Whether the timestamp of a request whose signature verified is fresh.
pub fn check_fresh(ts: Result<u64, PopReject>, now_unix: u64) -> (r: Result<(), PopReject>)
    ensures
        r == freshness(ts, now_unix),
{
    match ts {
        Ok(t) => {
            let apart: u64 = if now_unix <= t {
                t - now_unix
            } else {
                now_unix - t
            };
            if apart > SKEW_SECONDS {
                Err(PopReject::Stale)
            } else {
                Ok(())
            }
        },
        Err(e) => Err(e),
    }
}

/// The outcome of the holder-of-key requirement.
pub open spec fn outcome(
    caveats: Seq<CaveatView>,
    tail: Seq<u8>,
    body: Seq<u8>,
    sig: Option<Seq<u8>>,
    now_unix: u64,
) -> Result<(), PopReject> {
    match caveat::resolved(caveats, CNF_CAVEAT@) {
        ResolvedView::Absent => Err(PopReject::NoCnf),
        ResolvedView::Unsatisfiable => Err(PopReject::Unsatisfiable),
        ResolvedView::Value(v) => match cnf_key(v) {
            Err(e) => Err(e),
            Ok(key) => match sig {
                None => Err(PopReject::MissingProof),
                Some(sig) => if !crypto::ed25519_key_ok(key) {
                    Err(PopReject::BadKey)
                } else if !crypto::ed25519_strict(key, signed_digest(tail, body), sig) {
                    Err(PopReject::BadSignature)
                } else {
                    freshness(ts_of(json::json_of(body)), now_unix)
                },
            },
        },
    }
}

/// The bytes of a presented proof.
pub open spec fn proof_view(p: Option<Proof>) -> Option<Seq<u8>> {
    match p {
        Some(p) => Some(p.sig@),
        None => None,
    }
}

/// Evaluates the holder-of-key requirement for `caveats` against the
/// presented proof. `tail` is the presented macaroon's final tag, `body`
/// the raw request body.
pub fn check(
    caveats: &[Caveat],
    tail: &[u8; 32],
    body: &[u8],
    proof_of: Option<Proof>,
    now_unix: u64,
) -> (r: Result<(), PopReject>)
    ensures
        r == outcome(caveat::chain(caveats@), tail@, body@, proof_view(proof_of), now_unix),
{
    let key = match EffectiveCaveats::new(caveats).resolve(CNF_CAVEAT) {
        Resolved::Absent => {
            return Err(PopReject::NoCnf);
        },
        Resolved::Unsatisfiable => {
            return Err(PopReject::Unsatisfiable);
        },
        Resolved::Value(v) => match parse_cnf(v.as_str()) {
            Ok(k) => k,
            Err(e) => {
                return Err(e);
            },
        },
    };
    let presented = match proof_of {
        Some(p) => p,
        None => {
            return Err(PopReject::MissingProof);
        },
    };
    if !crypto::verifying_key_ok(&key) {
        return Err(PopReject::BadKey);
    }
    if !crypto::verify_strict(&key, &digest(tail, body), &presented.sig) {
        return Err(PopReject::BadSignature);
    }
    check_fresh(body_ts(body), now_unix)
}

/// The `cnf` value of a verifying key.
pub open spec fn cnf_of(key: Seq<u8>) -> Seq<char> {
    ED25519_PREFIX@ + crypto::base64(key)
}

/// A `cnf` value is well-formed and a usable verifying key.
pub open spec fn valid_cnf(value: Seq<char>) -> bool {
    cnf_key(value) matches Ok(k) && crypto::ed25519_key_ok(k)
}

/// Validates that a `cnf` value is well-formed and a usable verifying
/// key.
pub fn validate_cnf(value: &str) -> (r: Result<(), PopReject>)
    ensures
        r == (if valid_cnf(value@) {
            Ok::<(), PopReject>(())
        } else {
            Err(PopReject::BadKey)
        }),
{
    match parse_cnf(value) {
        Ok(k) => if crypto::verifying_key_ok(&k) {
            Ok(())
        } else {
            Err(PopReject::BadKey)
        },
        Err(_) => Err(PopReject::BadKey),
    }
}

/// Base64 has nothing to trim.
proof fn lemma_base64_word(b: Seq<char>)
    requires
        forall|i: int| 0 <= i < b.len() ==> crypto::base64_char(#[trigger] b[i]),
    ensures
        text::trimmed(b) == b,
{
    assert forall|i: int| 0 <= i < b.len() implies !text::is_white_space(#[trigger] b[i]) by {
        assert(crypto::base64_char(b[i]));
    }
    text::lemma_trimmed_word(b);
}

/// The `cnf` caveat value for the identity key of this seed:
/// `ed25519:<base64 public key>`. It is always a usable key.
pub fn cnf_value(seed: &[u8; 32]) -> (r: String)
    ensures
        r@ == cnf_of(crypto::ed25519_public(seed@)),
        cnf_key(r@) == Ok::<Seq<u8>, PopReject>(crypto::ed25519_public(seed@)),
        valid_cnf(r@),
{
    let key = crypto::public_key(seed);
    let b64 = crypto::base64_encode(&key);
    let r = text::concat(ED25519_PREFIX, b64.as_str());
    proof {
        lemma_base64_word(b64@);
        assert(r@.take(ED25519_PREFIX@.len() as int) =~= ED25519_PREFIX@);
        assert(r@.skip(ED25519_PREFIX@.len() as int) =~= b64@);
    }
    r
}

/// The proof header that a client sends: the Base64 signature of the
/// digest under the identity key of this seed. It reads back as that
/// signature, which verifies under the key, but for one that begins with
/// the neutral point.
pub fn client_signature(seed: &[u8; 32], tail: &[u8; 32], body: &[u8]) -> (r: String)
    ensures
        ({
            let sig = crypto::ed25519_signature(seed@, signed_digest(tail@, body@));
            &&& r@ == crypto::base64(sig)
            &&& proof_bytes(crypto::base64_read(text::trimmed(r@))) == Ok::<Seq<u8>, PopReject>(
                sig,
            )
            &&& !crypto::neutral_point(sig) ==> crypto::ed25519_strict(
                crypto::ed25519_public(seed@),
                signed_digest(tail@, body@),
                sig,
            )
        }),
{
    let sig = crypto::sign(seed, &digest(tail, body));
    let r = crypto::base64_encode(&sig);
    proof {
        lemma_base64_word(r@);
    }
    r
}

/// The holder of the sealed key is let in, as far as the timestamp is
/// fresh: with a signature over this tail and this body that verifies, only
/// freshness is left to decide.
pub proof fn law_freshness_is_decided_last(
    caveats: Seq<CaveatView>,
    cnf: Seq<char>,
    key: Seq<u8>,
    tail: Seq<u8>,
    body: Seq<u8>,
    sig: Seq<u8>,
    now_unix: u64,
)
    requires
        caveat::resolved(caveats, CNF_CAVEAT@) == ResolvedView::Value(cnf),
        cnf_key(cnf) == Ok::<Seq<u8>, PopReject>(key),
        crypto::ed25519_key_ok(key),
        crypto::ed25519_strict(key, signed_digest(tail, body), sig),
    ensures
        outcome(caveats, tail, body, Some(sig), now_unix) == freshness(
            ts_of(json::json_of(body)),
            now_unix,
        ),
{
}

/// A request is let in exactly for one agreed, usable `cnf` and a proof whose
/// signature verifies over this tail and this body with a fresh
/// timestamp.
pub proof fn law_only_a_verified_fresh_proof_opens(
    caveats: Seq<CaveatView>,
    tail: Seq<u8>,
    body: Seq<u8>,
    proof_of: Option<Seq<u8>>,
    now_unix: u64,
)
    ensures
        outcome(caveats, tail, body, proof_of, now_unix) is Ok <==> {
            &&& caveat::resolved(caveats, CNF_CAVEAT@) matches ResolvedView::Value(v)
            &&& cnf_key(v) matches Ok(key)
            &&& crypto::ed25519_key_ok(key)
            &&& proof_of matches Some(sig)
            &&& crypto::ed25519_strict(key, signed_digest(tail, body), sig)
            &&& ts_of(json::json_of(body)) matches Ok(ts)
            &&& within_skew(now_unix, ts)
        },
{
}

/// A contradictory copy of `cnf` appended to a chain refuses every
/// request, and so does every further append to it.
pub proof fn law_contradictory_cnf_fails_closed(
    caveats: Seq<CaveatView>,
    appended: Seq<CaveatView>,
    tail: Seq<u8>,
    body: Seq<u8>,
    proof_of: Option<Seq<u8>>,
    now_unix: u64,
)
    requires
        caveat::resolved(caveats, CNF_CAVEAT@) is Unsatisfiable,
    ensures
        outcome(caveats + appended, tail, body, proof_of, now_unix) == Err::<(), PopReject>(
            PopReject::Unsatisfiable,
        ),
{
    caveat::law_appending_narrows(caveats, appended, CNF_CAVEAT@);
}

/// The keys of a signed body stand in their order.
pub proof fn lemma_body_keys()
    ensures
        text::precedes("role"@, "ts"@),
        text::precedes("role"@, "ttl_seconds"@),
        text::precedes("ts"@, "ttl_seconds"@),
        text::precedes("pubkey"@, "sub"@),
        text::precedes("pubkey"@, "ts"@),
        text::precedes("sub"@, "ts"@),
        "role"@ != "ts"@,
        "pubkey"@ != "sub"@,
        "pubkey"@ != "ts"@,
        "sub"@ != "ts"@,
{
    reveal_strlit("role");
    reveal_strlit("ts");
    reveal_strlit("ttl_seconds");
    reveal_strlit("pubkey");
    reveal_strlit("sub");
    reveal_with_fuel(text::precedes, 2);
    assert("role"@[0] == 'r');
    assert("pubkey"@[0] == 'p');
    assert("sub"@[0] == 's');
    assert("ts"@[0] == 't');
    assert("ttl_seconds"@[0] == 't');
    assert("ts"@.drop_first()[0] == 's');
    assert("ttl_seconds"@.drop_first()[0] == 't');
}

} // verus!
