//! What the endpoints share: how a request is authenticated, and how it
//! is refused.

use crate::http;
use crate::http::{ClearedBundle, ClearedView, Refusal, VerifyClearError};
use crate::keyring::{Keyring, KeyringView};
use crate::pop;
use crate::reply;
use crate::reply::Reply;
use crate::text;
use vstd::prelude::*;

verus! {

/// How a request is refused. A failed authentication tells the client
/// nothing of its cause.
#[derive(Debug, Clone, Copy, PartialEq, Eq, Structural)]
pub enum Refused {
    /// Any failure of authentication or of a gate.
    Unauthorized,
    /// A denial of the role or of its caveats, or a malformed body.
    BadRequest,
    /// An enrollment that is not approved yet: awaited, no failure.
    Awaiting,
    /// No seal is served.
    NotSealed,
    /// A backend failed.
    Unavailable,
}

/// The status of a refusal.
pub open spec fn status_of(k: Refused) -> u16 {
    match k {
        Refused::Unauthorized => 401,
        Refused::BadRequest => 400,
        Refused::Awaiting => 403,
        Refused::NotSealed => 503,
        Refused::Unavailable => 503,
    }
}

/// The message of a refusal.
pub open spec fn message_of(k: Refused) -> Seq<char> {
    match k {
        Refused::Unauthorized => "unauthorized"@,
        Refused::BadRequest => "bad request"@,
        Refused::Awaiting => "awaiting operator approval"@,
        Refused::NotSealed => "not sealed"@,
        Refused::Unavailable => "service unavailable"@,
    }
}

impl Refused {
    /// The reply that refuses.
    pub fn reply(&self) -> (r: Reply)
        ensures
            reply::refuses(r, status_of(*self), message_of(*self)),
    {
        match self {
            Refused::Unauthorized => reply::error_reply(401, "unauthorized"),
            Refused::BadRequest => reply::error_reply(400, "bad request"),
            Refused::Awaiting => reply::error_reply(403, "awaiting operator approval"),
            Refused::NotSealed => reply::error_reply(503, "not sealed"),
            Refused::Unavailable => reply::error_reply(503, "service unavailable"),
        }
    }
}

/// A refusal, and the outcome that the audit log records for it; none
/// where nothing is recorded.
#[derive(Debug, PartialEq, Eq)]
pub struct Deny {
    pub kind: Refused,
    pub outcome: Option<String>,
}

/// A refusal, mathematically.
pub struct DenyView {
    pub kind: Refused,
    pub outcome: Option<Seq<char>>,
}

impl View for Deny {
    type V = DenyView;

    open spec fn view(&self) -> DenyView {
        DenyView {
            kind: self.kind,
            outcome: match self.outcome {
                Some(s) => Some(s@),
                None => None,
            },
        }
    }
}

/// A refusal of this kind with this outcome.
pub open spec fn denied(kind: Refused, outcome: Seq<char>) -> DenyView {
    DenyView { kind, outcome: Some(outcome) }
}

/// A refusal that is not recorded.
pub open spec fn unrecorded(kind: Refused) -> DenyView {
    DenyView { kind, outcome: None }
}

/// A refusal of this kind with this outcome.
pub fn deny(kind: Refused, outcome: &str) -> (r: Deny)
    ensures
        r@ == denied(kind, outcome@),
{
    Deny { kind, outcome: Some(text::owned(outcome)) }
}

/// A refusal that is not recorded.
pub fn silent(kind: Refused) -> (r: Deny)
    ensures
        r@ == unrecorded(kind),
{
    Deny { kind, outcome: None }
}

/// The proof in a header value.
pub open spec fn read_proof(header: Option<Seq<char>>) -> Result<Option<Seq<u8>>, ()> {
    match header {
        None => Ok(None),
        Some(h) => match pop::proof_bytes(crate::crypto::base64_read(text::trimmed(h))) {
            Ok(b) => Ok(Some(b)),
            Err(_) => Err(()),
        },
    }
}

/// A request as it is authenticated.
pub struct Presented<'a> {
    /// The `Authorization` header value.
    pub authorization: Option<&'a str>,
    /// The holder-of-key proof's header value.
    pub proof_header: Option<&'a str>,
    /// The exact bytes of the body.
    pub body: &'a [u8],
}

/// A request, mathematically.
pub struct PresentedView {
    pub authorization: Option<Seq<char>>,
    pub proof_header: Option<Seq<char>>,
    pub body: Seq<u8>,
}

impl<'a> View for Presented<'a> {
    type V = PresentedView;

    open spec fn view(&self) -> PresentedView {
        PresentedView {
            authorization: crate::auth::header_view(self.authorization),
            proof_header: crate::auth::header_view(self.proof_header),
            body: self.body@,
        }
    }
}

/// Why a request is not authenticated.
pub enum AuthFault {
    /// There is no well-formed bundle.
    NoBundle,
    /// The proof's header is malformed.
    BadProof,
    /// The bundle does not verify and clear.
    Refused(Refusal),
}

/// The bundle of a request, verified and cleared for this audience and
/// operation.
pub open spec fn authenticated(
    q: PresentedView,
    ring: KeyringView,
    now_unix: u64,
    aud: Seq<char>,
    op: Seq<char>,
) -> Result<ClearedView, AuthFault> {
    match http::read_bundle(q.authorization) {
        None => Err(AuthFault::NoBundle),
        Some(ms) => match read_proof(q.proof_header) {
            Err(_) => Err(AuthFault::BadProof),
            Ok(sig) => match http::cleared(
                ms[0],
                ms.skip(1),
                ring,
                sig,
                q.body,
                now_unix,
                aud,
                op,
            ) {
                Ok(c) => Ok(c),
                Err(e) => Err(AuthFault::Refused(e)),
            },
        },
    }
}

/// Why a request is not authenticated.
pub enum Fault {
    NoBundle,
    BadProof,
    Refused(VerifyClearError),
}

impl View for Fault {
    type V = AuthFault;

    open spec fn view(&self) -> AuthFault {
        match self {
            Fault::NoBundle => AuthFault::NoBundle,
            Fault::BadProof => AuthFault::BadProof,
            Fault::Refused(e) => AuthFault::Refused(e@),
        }
    }
}

/// The outcome that the audit log records for a failed authentication.
pub open spec fn fault_outcome(f: AuthFault) -> Seq<char> {
    match f {
        AuthFault::NoBundle => "denied:unauthenticated"@,
        AuthFault::BadProof => "denied:pop"@,
        AuthFault::Refused(e) => "denied:"@ + http::reason_of(e),
    }
}

impl Fault {
    /// The outcome that the audit log records.
    pub fn outcome(&self) -> (r: String)
        ensures
            r@ == fault_outcome(self@),
    {
        match self {
            Fault::NoBundle => text::owned("denied:unauthenticated"),
            Fault::BadProof => text::owned("denied:pop"),
            Fault::Refused(e) => text::concat("denied:", e.reason()),
        }
    }
}

/// Authenticates a request: every macaroon of its bundle verifies, and the
/// bundle clears for this audience and operation, with the holder's proof
/// over the body.
pub fn authenticate(
    q: &Presented<'_>,
    keyring: &Keyring,
    now_unix: u64,
    aud: &str,
    op: &str,
) -> (r: Result<ClearedBundle, Fault>)
    ensures
        match authenticated(q@, keyring@, now_unix, aud@, op@) {
            Ok(c) => r is Ok && http::cleared_view(r->Ok_0) == c,
            Err(f) => r is Err && r->Err_0@ == f,
        },
{
    let bundle = match http::extract_bundle(q.authorization) {
        Some(b) => b,
        None => {
            return Err(Fault::NoBundle);
        },
    };
    proof {
        let ms = seq![bundle.primary@] + http::views(bundle.discharges@);
        assert(ms[0] == bundle.primary@);
        assert(ms.skip(1) =~= http::views(bundle.discharges@));
    }
    let sig = match http::pop_proof(q.proof_header) {
        Ok(p) => p,
        Err(_) => {
            return Err(Fault::BadProof);
        },
    };
    match http::verify_and_clear(&bundle, keyring, sig, q.body, now_unix, aud, op) {
        Ok(c) => Ok(c),
        Err(e) => Err(Fault::Refused(e)),
    }
}

/// An enrolled record, as it was read from the store.
#[derive(Debug)]
pub enum EnrolledRead {
    /// A record whose MAC verifies.
    Found { pubkey: String, rev_epoch: u64 },
    /// There is no record.
    Absent,
    /// A record whose MAC does not verify.
    Forged,
    /// A record that cannot be decoded.
    Corrupt,
    /// The subject is not a valid name of a record.
    BadSub,
    /// The store failed.
    Failed,
    /// Any other error.
    Other,
}

} // verus!
