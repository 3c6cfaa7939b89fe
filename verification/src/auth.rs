//! The demo auth role: login sessions, and discharges of the operator
//! gates.
//!
//! A session is a macaroon under the role's own key. Discharges are
//! issued to its holder alone: its `sub` is what each discharge attests, and its
//! scopes are what may be asked for.

use crate::caveat;
use crate::caveat::{name, op, scope, Caveat, CaveatView, EffectiveCaveats, Resolved, ResolvedView};
use crate::crypto;
use crate::macaroon;
use crate::macaroon::{KeyRef, Macaroon, MacaroonView};
use crate::reply;
use crate::reply::Reply;
use crate::text;
use crate::tpc;
use crate::tpc::TpcError;
use vstd::prelude::*;

verus! {

/// Lifetime of a discharge.
pub const DISCHARGE_EXP_SECONDS: u64 = 300;

/// Lifetime of a session: seven days.
pub const SESSION_EXP_SECONDS: u64 = 604800;

/// What the value of a session's header begins with.
pub const BEARER: &'static str = "Bearer ";

/// The body of a discharge request.
#[derive(Debug)]
pub struct DischargeRequest {
    /// Base64url of the anchor's third-party caveat `cid`.
    pub cid: String,
    /// The authority class that the caller needs.
    pub scope: String,
}

/// The scopes that a session grants, from its single canonical `scope`
/// caveat. As one scalar the grant is append-safe: a second, different
/// caveat contradicts it, and nothing is granted then.
#[derive(Debug, PartialEq, Eq)]
pub struct GrantedScopes {
    scopes: Vec<String>,
}

impl View for GrantedScopes {
    type V = Set<Seq<char>>;

    closed spec fn view(&self) -> Set<Seq<char>> {
        text::texts(self.scopes@).to_set()
    }
}

/// The strings of a list.
pub open spec fn strings(v: Seq<&str>) -> Set<Seq<char>> {
    Seq::new(v.len(), |i: int| v[i]@).to_set()
}

/// The canonical value of a set of scopes: ascending, with spaces between.
pub open spec fn canonical_text(scopes: Set<Seq<char>>) -> Seq<char> {
    text::joined(crate::map::listing(scopes), " "@)
}

impl GrantedScopes {
    /// The canonical wire value of a set of scopes. Scopes hold no white
    /// space, so the separator is unambiguous.
    pub fn canonical(scopes: &[&str]) -> (r: String)
        ensures
            r@ == canonical_text(strings(scopes@)),
    {
        let mut v: Vec<String> = Vec::new();
        let mut i: usize = 0;
        while i < scopes.len()
            invariant
                i <= scopes@.len(),
                v@.len() == i,
                forall|j: int| 0 <= j < i ==> (#[trigger] v@[j])@ == scopes@[j]@,
            decreases scopes@.len() - i,
        {
            v.push(text::owned(scopes[i]));
            i = i + 1;
        }
        let sorted = text::sorted_set(&v);
        proof {
            let raw = Seq::new(scopes@.len(), |i: int| scopes@[i]@);
            assert(text::texts(v@) =~= raw);
            let list = text::texts(sorted@);
            assert(crate::map::is_listing(strings(scopes@), list)) by {
                assert forall|x: Seq<char>|
                    #![trigger list.contains(x)]
                    list.contains(x) <==> strings(scopes@).contains(x) by {
                    assert(list.contains(x) <==> raw.contains(x));
                }
            }
            crate::map::lemma_listing(strings(scopes@), list);
        }
        text::join(&sorted, " ")
    }

    /// Reads a canonical value back.
    pub fn parse(value: &str) -> (r: GrantedScopes)
        ensures
            r@ == text::words(value@).to_set(),
    {
        let words = text::split_words(value);
        let scopes = text::sorted_set(&words);
        assert(text::texts(scopes@).to_set() =~= text::words(value@).to_set());
        GrantedScopes { scopes }
    }

    /// Whether `scope` is granted.
    pub fn grants(&self, scope: &str) -> (r: bool)
        ensures
            r == self@.contains(scope@),
    {
        let r = text::list_has(&self.scopes, scope);
        assert(text::texts(self.scopes@).contains(scope@) <==> self@.contains(scope@));
        r
    }

    /// No scope.
    pub fn none() -> (r: GrantedScopes)
        ensures
            r@ == Set::<Seq<char>>::empty(),
    {
        let r = GrantedScopes { scopes: Vec::new() };
        assert(r@ =~= Set::<Seq<char>>::empty());
        r
    }
}

/// A set of scopes reads back from its canonical value.
pub proof fn law_canonical_scopes_read_back(scopes: Set<Seq<char>>)
    requires
        scopes.finite(),
        forall|x: Seq<char>| #[trigger] scopes.contains(x) ==> text::is_word(x),
    ensures
        text::words(canonical_text(scopes)).to_set() == scopes,
{
    crate::map::lemma_listing_exists(scopes);
    let list = crate::map::listing(scopes);
    assert forall|i: int| 0 <= i < list.len() implies text::is_word(#[trigger] list[i]) by {
        assert(list.contains(list[i]));
        assert(scopes.contains(list[i]));
    }
    text::lemma_words_joined(list);
    assert(list.to_set() =~= scopes) by {
        assert forall|x: Seq<char>| list.to_set().contains(x) <==> scopes.contains(x) by {
            assert(list.contains(x) <==> scopes.contains(x));
        }
    }
}

/// The claims of a verified session.
#[derive(Debug)]
pub struct SessionClaims {
    pub subject: String,
    pub scopes: GrantedScopes,
}

/// The claims of a session, mathematically.
pub struct ClaimsView {
    pub subject: Seq<char>,
    pub scopes: Set<Seq<char>>,
}

/// Every scope there is.
pub open spec fn all_scopes() -> Set<Seq<char>> {
    set![scope::MINT_ENROLL@, scope::MINT_EXCHANGE@, scope::MINT_ADMIN@]
}

/// The caveats of a session.
pub open spec fn session_caveats(subject: Seq<char>, exp_unix: int) -> Seq<CaveatView> {
    seq![
        caveat::scalar(name::OP@, op::SESSION@),
        caveat::scalar(name::SUB@, subject),
        caveat::scalar(name::SCOPE@, canonical_text(all_scopes())),
        caveat::scalar(name::EXP@, text::digits(exp_unix as nat)),
    ]
}

/// The session of a subject, from this nonce.
pub open spec fn session_of(
    k_session: Seq<u8>,
    subject: Seq<char>,
    now_unix: u64,
    nonce: Seq<u8>,
) -> MacaroonView {
    macaroon::minted(
        k_session,
        KeyRef::Session,
        nonce,
        session_caveats(subject, now_unix + SESSION_EXP_SECONDS),
    )
}

/// Mints a session: every scope, in one caveat, for seven days. A fresh
/// chain under the session key, distinct in kind from every credential.
pub fn mint_session(k_session: &[u8; 32], subject: &str, now_unix: u64) -> (r: Macaroon)
    requires
        now_unix + SESSION_EXP_SECONDS <= u64::MAX,
    ensures
        r@.nonce.len() == macaroon::NONCE_LEN,
        r@ == session_of(k_session@, subject@, now_unix, r@.nonce),
{
    let exp: u64 = now_unix + SESSION_EXP_SECONDS;
    let names: [&str; 3] = [scope::MINT_ENROLL, scope::MINT_EXCHANGE, scope::MINT_ADMIN];
    let scopes = GrantedScopes::canonical(&names);
    proof {
        let raw = Seq::new(names@.len(), |i: int| names@[i]@);
        assert(raw =~= seq![scope::MINT_ENROLL@, scope::MINT_EXCHANGE@, scope::MINT_ADMIN@]);
        assert forall|x: Seq<char>| strings(names@).contains(x) <==> all_scopes().contains(x) by {
            if all_scopes().contains(x) {
                if x == scope::MINT_ENROLL@ {
                    assert(raw[0] == x);
                } else if x == scope::MINT_EXCHANGE@ {
                    assert(raw[1] == x);
                } else {
                    assert(raw[2] == x);
                }
                assert(raw.contains(x));
            }
            if raw.contains(x) {
                let j = choose|j: int| 0 <= j < raw.len() && raw[j] == x;
                assert(j == 0 || j == 1 || j == 2);
            }
        }
        assert(strings(names@) =~= all_scopes());
    }
    let mut cs: Vec<Caveat> = Vec::new();
    cs.push(Caveat::scalar(name::OP, op::SESSION));
    cs.push(Caveat::scalar(name::SUB, subject));
    cs.push(Caveat::scalar(name::SCOPE, scopes.as_str()));
    cs.push(Caveat::scalar(name::EXP, text::print_u64(exp).as_str()));
    assert(caveat::chain(cs@) =~= session_caveats(subject@, exp as int));
    macaroon::mint_under_key(k_session, KeyRef::Session, cs)
}

/// The scopes that a chain grants: the words of its `scope`, and none where
/// that is absent or contradictory.
pub open spec fn scopes_of(c: Seq<CaveatView>) -> Set<Seq<char>> {
    match caveat::resolved(c, name::SCOPE@) {
        ResolvedView::Value(v) => text::words(v).to_set(),
        _ => Set::empty(),
    }
}

/// The claims of a session macaroon at `now_unix`: MACed under the session
/// key, with its own `op`, not expired, and with one subject.
pub open spec fn claims_of(m: MacaroonView, k_session: Seq<u8>, now_unix: u64) -> Option<
    ClaimsView,
> {
    if m.key_ref != KeyRef::Session || !macaroon::authentic(m, k_session) {
        None
    } else if caveat::resolved(m.caveats, name::OP@) != ResolvedView::Value(op::SESSION@) {
        None
    } else if caveat::bound_of(m.caveats, name::EXP@) matches Some(e) && e <= now_unix {
        None
    } else {
        match caveat::resolved(m.caveats, name::SUB@) {
            ResolvedView::Value(subject) => Some(
                ClaimsView {
                    subject,
                    scopes: scopes_of(m.caveats),
                },
            ),
            _ => None,
        }
    }
}

/// The session macaroon in a header value.
pub open spec fn session_in(header: Option<Seq<char>>) -> Option<MacaroonView> {
    match header {
        Some(h) => match text::without_prefix(h, BEARER@) {
            Some(t) => macaroon::read_token(text::trimmed(t)),
            None => None,
        },
        None => None,
    }
}

/// The claims of the session in a header value.
pub open spec fn presented_claims(
    header: Option<Seq<char>>,
    k_session: Seq<u8>,
    now_unix: u64,
) -> Option<ClaimsView> {
    match session_in(header) {
        Some(m) => claims_of(m, k_session, now_unix),
        None => None,
    }
}

/// An optional header value as characters.
pub open spec fn header_view(header: Option<&str>) -> Option<Seq<char>> {
    match header {
        Some(h) => Some(h@),
        None => None,
    }
}

/// Verifies the session in an `Authorization` header value. Every failure
/// is the same.
pub fn verify_session(k_session: &[u8; 32], authorization: Option<&str>, now_unix: u64) -> (r: Result<
    SessionClaims,
    (),
>)
    ensures
        match presented_claims(header_view(authorization), k_session@, now_unix) {
            Some(c) => r matches Ok(s) && s.subject@ == c.subject && s.scopes@ == c.scopes,
            None => r is Err,
        },
{
    let header = match authorization {
        Some(h) => h,
        None => {
            return Err(());
        },
    };
    let token = match text::strip_prefix(header, BEARER) {
        Some(t) => t,
        None => {
            return Err(());
        },
    };
    let m = match Macaroon::decode(text::trim(token.as_str()).as_str()) {
        Ok(m) => m,
        Err(_) => {
            return Err(());
        },
    };
    if m.key_ref() != KeyRef::Session {
        return Err(());
    }
    if !m.verify_under_key(k_session) {
        return Err(());
    }
    let eff = EffectiveCaveats::new(m.caveats());
    match eff.resolve(name::OP) {
        Resolved::Value(v) => {
            if !text::same(v.as_str(), op::SESSION) {
                return Err(());
            }
        },
        _ => {
            return Err(());
        },
    }
    match eff.min_bound(name::EXP) {
        Some(e) => {
            if e <= now_unix {
                return Err(());
            }
        },
        None => {},
    }
    let scopes = match eff.resolve(name::SCOPE) {
        Resolved::Value(v) => GrantedScopes::parse(v.as_str()),
        _ => GrantedScopes::none(),
    };
    match eff.resolve(name::SUB) {
        Resolved::Value(subject) => Ok(SessionClaims { subject, scopes }),
        _ => Err(()),
    }
}

/// A session verifies under its key until it expires, with its subject and
/// every scope.
pub proof fn law_session_round_trips(
    k_session: Seq<u8>,
    subject: Seq<char>,
    minted_at: u64,
    now_unix: u64,
    nonce: Seq<u8>,
)
    requires
        minted_at + SESSION_EXP_SECONDS <= u64::MAX,
    ensures
        claims_of(session_of(k_session, subject, minted_at, nonce), k_session, now_unix) == (
        if now_unix < minted_at + SESSION_EXP_SECONDS {
            Some(ClaimsView { subject, scopes: all_scopes() })
        } else {
            None
        }),
{
    let exp = (minted_at + SESSION_EXP_SECONDS) as u64;
    let c = session_caveats(subject, exp as int);
    let m = session_of(k_session, subject, minted_at, nonce);
    reveal_strlit("op");
    reveal_strlit("sub");
    reveal_strlit("scope");
    reveal_strlit("exp");
    assert(name::OP@.len() == 2);
    assert(name::SUB@.len() == 3 && name::SUB@[0] == 's');
    assert(name::SCOPE@.len() == 5);
    assert(name::EXP@.len() == 3 && name::EXP@[0] == 'e');
    let c3 = c.drop_last();
    let c2 = c3.drop_last();
    let c1 = c2.drop_last();
    let c0 = c1.drop_last();
    assert(c0 =~= Seq::<CaveatView>::empty());
    assert(c.last() == caveat::scalar(name::EXP@, text::digits(exp as nat)));
    assert(c3.last() == caveat::scalar(name::SCOPE@, canonical_text(all_scopes())));
    assert(c2.last() == caveat::scalar(name::SUB@, subject));
    assert(c1.last() == caveat::scalar(name::OP@, op::SESSION@));
    reveal_with_fuel(caveat::values_of, 5);
    reveal_with_fuel(caveat::bound_of, 5);
    assert(caveat::values_of(c, name::OP@) =~= seq![op::SESSION@]);
    assert(caveat::values_of(c, name::SUB@) =~= seq![subject]);
    assert(caveat::values_of(c, name::SCOPE@) =~= seq![canonical_text(all_scopes())]);
    text::lemma_read_digits(exp);
    assert(caveat::bound_of(c, name::EXP@) == Some(exp));
    assert forall|x: Seq<char>| #[trigger] all_scopes().contains(x) implies text::is_word(x) by {
        lemma_scopes_are_words();
    }
    law_canonical_scopes_read_back(all_scopes());
}

/// Each scope is one word.
proof fn lemma_scopes_are_words()
    ensures
        text::is_word(scope::MINT_ENROLL@),
        text::is_word(scope::MINT_EXCHANGE@),
        text::is_word(scope::MINT_ADMIN@),
{
    reveal_strlit("mint:enroll");
    reveal_strlit("mint:exchange");
    reveal_strlit("mint:admin");
    assert(scope::MINT_ENROLL@.len() == 11);
    assert(scope::MINT_EXCHANGE@.len() == 13);
    assert(scope::MINT_ADMIN@.len() == 10);
}

/// A holder cannot widen a grant: whatever caveats are appended to a
/// session, it attests no other subject, and it grants nothing that it did
/// not grant before. The one session that an append can open is one that
/// carries no `scope` caveat at all: it grants nothing as it stands, and
/// what the appended caveats resolve to after it. No such session is issued
/// ([`law_issued_session_cannot_be_widened`]).
pub proof fn law_appended_caveats_cannot_widen_the_grant(
    m: MacaroonView,
    longer: MacaroonView,
    d: Seq<CaveatView>,
    k_session: Seq<u8>,
    now_unix: u64,
)
    requires
        longer.caveats == m.caveats + d,
        claims_of(m, k_session, now_unix) is Some,
    ensures
        claims_of(longer, k_session, now_unix) matches Some(c) ==> {
            let before = claims_of(m, k_session, now_unix)->0;
            &&& c.subject == before.subject
            &&& if caveat::resolved(m.caveats, name::SCOPE@) is Absent {
                &&& before.scopes == Set::<Seq<char>>::empty()
                &&& c.scopes == scopes_of(d)
            } else {
                c.scopes.subset_of(before.scopes)
            }
        },
{
    caveat::law_appending_narrows(m.caveats, d, name::SCOPE@);
    caveat::law_appending_narrows(m.caveats, d, name::SUB@);
    caveat::lemma_values_append(m.caveats, d, name::SCOPE@);
    if caveat::resolved(m.caveats, name::SCOPE@) is Absent {
        assert(caveat::values_of(m.caveats + d, name::SCOPE@) =~= caveat::values_of(
            d,
            name::SCOPE@,
        ));
    }
}

/// A session that was issued grants nothing beyond its scopes, whatever
/// caveats are appended to it, and attests no other subject. A `scope`
/// caveat of another value leaves it no scope at all.
pub proof fn law_issued_session_cannot_be_widened(
    k_session: Seq<u8>,
    subject: Seq<char>,
    minted_at: u64,
    nonce: Seq<u8>,
    longer: MacaroonView,
    d: Seq<CaveatView>,
    now_unix: u64,
)
    requires
        minted_at + SESSION_EXP_SECONDS <= u64::MAX,
        longer.caveats == session_of(k_session, subject, minted_at, nonce).caveats + d,
    ensures
        claims_of(longer, k_session, now_unix) matches Some(c) ==> {
            &&& c.subject == subject
            &&& c.scopes.subset_of(all_scopes())
            &&& (exists|v: Seq<char>|
                caveat::occurs(d, name::SCOPE@, v) && v != canonical_text(all_scopes())) ==> c.scopes
                == Set::<Seq<char>>::empty()
        },
{
    let s = session_of(k_session, subject, minted_at, nonce);
    let full = canonical_text(all_scopes());
    law_session_round_trips(k_session, subject, minted_at, minted_at, nonce);
    caveat::law_appending_narrows(s.caveats, d, name::SCOPE@);
    caveat::law_appending_narrows(s.caveats, d, name::SUB@);
    assert(s.caveats[2] == caveat::scalar(name::SCOPE@, full));
    assert(caveat::occurs(s.caveats, name::SCOPE@, full));
    caveat::law_resolution_is_tri_state(s.caveats, name::SCOPE@);
    if exists|v: Seq<char>| caveat::occurs(d, name::SCOPE@, v) && v != full {
        let v = choose|v: Seq<char>| caveat::occurs(d, name::SCOPE@, v) && v != full;
        let i = choose|i: int| 0 <= i < d.len() && caveat::value_for(d[i], name::SCOPE@) == Some(v);
        let n = s.caveats.len();
        assert(longer.caveats[2] == s.caveats[2]);
        assert(longer.caveats[n + i] == d[i]);
        assert(caveat::occurs(longer.caveats, name::SCOPE@, full));
        assert(caveat::occurs(longer.caveats, name::SCOPE@, v));
        caveat::law_resolution_is_tri_state(longer.caveats, name::SCOPE@);
    }
}

/// Answers a login: any subject that is not empty gets a session; the
/// demo authenticates no one. `subject` is that of the parsed body.
pub fn issue_session(k_session: Option<&[u8; 32]>, subject: Option<&str>, now_unix: u64) -> (r: Reply)
    requires
        now_unix + SESSION_EXP_SECONDS <= u64::MAX,
    ensures
        match (k_session, subject) {
            (None, _) => reply::refuses(r, 503, "k_session unavailable"@),
            (Some(_), None) => reply::refuses(r, 400, "bad request"@),
            (Some(k), Some(s)) => if s@.len() == 0 {
                reply::refuses(r, 400, "empty subject"@)
            } else {
                exists|nonce: Seq<u8>|
                    nonce.len() == macaroon::NONCE_LEN && reply::replies(
                        r,
                        200,
                        "session"@,
                        macaroon::token_of(#[trigger] session_of(k@, s@, now_unix, nonce)),
                    )
            },
        },
{
    let key = match k_session {
        Some(k) => k,
        None => {
            return reply::error_reply(503, "k_session unavailable");
        },
    };
    let subject = match subject {
        Some(s) => s,
        None => {
            return reply::error_reply(400, "bad request");
        },
    };
    if subject.is_empty() {
        return reply::error_reply(400, "empty subject");
    }
    let session = mint_session(key, subject, now_unix);
    assert(session@ == session_of(key@, subject@, now_unix, session@.nonce));
    reply::field_reply(200, "session", session.encode().as_str())
}

/// Why a discharge is refused.
pub struct RefusalView {
    pub status: u16,
    pub message: Seq<char>,
}

/// The caveats of a discharge: the audience it is for, the authenticated
/// human, the scope that was asked for, and a short deadline.
pub open spec fn discharge_caveats(
    audience: Seq<char>,
    subject: Seq<char>,
    scope: Seq<char>,
    exp_unix: int,
) -> Seq<CaveatView> {
    seq![
        caveat::scalar(name::AUD@, audience),
        caveat::scalar(name::SUB@, subject),
        caveat::scalar(name::SCOPE@, scope),
        caveat::scalar(name::EXP@, text::digits(exp_unix as nat)),
    ]
}

/// What is issued for a request, or why nothing is. The session must grant
/// the scope that is asked for; a `cid` that does not open signals a
/// rotated key.
pub open spec fn discharge_outcome(
    k_m_a: Seq<u8>,
    claims: Option<ClaimsView>,
    request: Option<(Seq<char>, Seq<char>)>,
    org_id: Option<Seq<char>>,
    audience: Seq<char>,
    now_unix: u64,
) -> Result<MacaroonView, RefusalView> {
    match claims {
        None => Err(RefusalView { status: 401, message: "session required"@ }),
        Some(c) => match request {
            None => Err(RefusalView { status: 400, message: "bad request"@ }),
            Some((cid_text, scope)) => if !c.scopes.contains(scope) {
                Err(RefusalView { status: 403, message: "scope not granted"@ })
            } else {
                match crypto::base64url_read(text::trimmed(cid_text)) {
                    None => Err(RefusalView { status: 400, message: "bad cid"@ }),
                    Some(cid) => match tpc::cid_contents(k_m_a, cid) {
                        Err(_) => Err(RefusalView { status: 422, message: "cid decrypt"@ }),
                        Ok(p) => if org_id != Some(p.org_id) {
                            Err(RefusalView { status: 403, message: "org mismatch"@ })
                        } else {
                            Ok(
                                macaroon::minted(
                                    p.r,
                                    KeyRef::Discharge,
                                    tpc::ticket(cid),
                                    discharge_caveats(
                                        audience,
                                        c.subject,
                                        scope,
                                        now_unix + DISCHARGE_EXP_SECONDS,
                                    ),
                                ),
                            )
                        },
                    },
                }
            },
        },
    }
}

/// A request as its two strings.
pub open spec fn request_view(request: Option<DischargeRequest>) -> Option<
    (Seq<char>, Seq<char>),
> {
    match request {
        Some(q) => Some((q.cid@, q.scope@)),
        None => None,
    }
}

/// Answers a discharge request, whose parsed body is `request`. The
/// discharge names the third-party caveat that it answers: the ticket id
/// of the `cid` is its nonce.
pub fn issue_discharge(
    k_m_a: Option<&[u8; 32]>,
    k_session: Option<&[u8; 32]>,
    authorization: Option<&str>,
    request: &Option<DischargeRequest>,
    org_id: Option<&str>,
    audience: &str,
    now_unix: u64,
) -> (r: Reply)
    requires
        now_unix + DISCHARGE_EXP_SECONDS <= u64::MAX,
    ensures
        match (k_m_a, k_session) {
            (None, _) => reply::refuses(r, 503, "k_m_a unavailable"@),
            (Some(_), None) => reply::refuses(r, 503, "k_session unavailable"@),
            (Some(ka), Some(ks)) => match discharge_outcome(
                ka@,
                presented_claims(header_view(authorization), ks@, now_unix),
                request_view(*request),
                header_view(org_id),
                audience@,
                now_unix,
            ) {
                Ok(d) => reply::replies(r, 200, "discharge"@, macaroon::token_of(d)),
                Err(f) => reply::refuses(r, f.status, f.message),
            },
        },
{
    let ka = match k_m_a {
        Some(k) => k,
        None => {
            return reply::error_reply(503, "k_m_a unavailable");
        },
    };
    let ks = match k_session {
        Some(k) => k,
        None => {
            return reply::error_reply(503, "k_session unavailable");
        },
    };
    let claims = match verify_session(ks, authorization, now_unix) {
        Ok(c) => c,
        Err(_) => {
            return reply::error_reply(401, "session required");
        },
    };
    let req = match request {
        Some(q) => q,
        None => {
            return reply::error_reply(400, "bad request");
        },
    };
    if !claims.scopes.grants(req.scope.as_str()) {
        return reply::error_reply(403, "scope not granted");
    }
    let cid = match crypto::base64url_decode(text::trim(req.cid.as_str()).as_str()) {
        Some(c) => c,
        None => {
            return reply::error_reply(400, "bad cid");
        },
    };
    let p = match tpc::decrypt_cid(ka, &cid) {
        Ok(p) => p,
        Err(_) => {
            return reply::error_reply(422, "cid decrypt");
        },
    };
    let same_org = match org_id {
        Some(o) => text::same(o, p.org_id.as_str()),
        None => false,
    };
    if !same_org {
        return reply::error_reply(403, "org mismatch");
    }
    let exp: u64 = now_unix + DISCHARGE_EXP_SECONDS;
    let mut cs: Vec<Caveat> = Vec::new();
    cs.push(Caveat::scalar(name::AUD, audience));
    cs.push(Caveat::scalar(name::SUB, claims.subject.as_str()));
    cs.push(Caveat::scalar(name::SCOPE, req.scope.as_str()));
    cs.push(Caveat::scalar(name::EXP, text::print_u64(exp).as_str()));
    assert(caveat::chain(cs@) =~= discharge_caveats(
        audience@,
        claims.subject@,
        req.scope@,
        exp as int,
    ));
    let d = macaroon::mint_under_key_with_nonce(
        &p.r,
        KeyRef::Discharge,
        tpc::ticket_id(&cid),
        cs,
    );
    reply::field_reply(200, "discharge", d.encode().as_str())
}

/// The discharge that is issued for a third-party caveat's `cid` is
/// authentic under the key that the verifier recovers from its `vid`, and
/// names it by its ticket id.
pub proof fn law_discharge_answers_its_caveat(
    c: CaveatView,
    location: Seq<char>,
    tag: Seq<u8>,
    r: Seq<u8>,
    k_m_a: Seq<u8>,
    client_id: Seq<char>,
    org_id: Seq<char>,
    claims: Option<ClaimsView>,
    request: Option<(Seq<char>, Seq<char>)>,
    served_org: Option<Seq<char>>,
    audience: Seq<char>,
    now_unix: u64,
)
    requires
        tpc::binds(c, location, tag, r, k_m_a, tpc::cid_layout(r, client_id, org_id)),
        tpc::fits(client_id),
        tpc::fits(org_id),
        request matches Some((text, _)) ==> crypto::base64url_read(text::trimmed(text)) == Some(
            c->cid,
        ),
    ensures
        discharge_outcome(k_m_a, claims, request, served_org, audience, now_unix) matches Ok(d)
            ==> {
            &&& tpc::recovered(tag, c->vid) == Ok::<Seq<u8>, TpcError>(r)
            &&& macaroon::authentic(d, r)
            &&& d.key_ref == KeyRef::Discharge
            &&& d.nonce == tpc::ticket(c->cid)
            &&& served_org == Some(org_id)
        },
{
    tpc::law_vid_and_cid_recover_the_same_key(c, location, tag, r, k_m_a, client_id, org_id);
}

} // verus!
