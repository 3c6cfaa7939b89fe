//! Macaroon issuance. Every macaroon minted here is a fresh chain from the
//! root, stamped with its own positively required `op`:
//!
//! 1. [`mint_invite`]: the reusable, non-expiring participation gate.
//! 2. [`mint_credential_ticket`]: the short-lived ticket of an enrollment.
//! 3. [`mint_credential`]: the non-expiring credential for one role.
//!
//! and [`mint_admin_service_token`], the primary of the admin plane.

use crate::caveat;
use crate::caveat::{name, op, Caveat, CaveatView, EffectiveCaveats, Resolved, ResolvedView};
use crate::keyring::{Keyring, KeyringView};
use crate::macaroon;
use crate::macaroon::{KeyRef, Macaroon, MacaroonView};
use crate::pop;
use crate::text;
use crate::tpc;
use vstd::prelude::*;

verus! {

/// Why extracting the bound identity from a verified macaroon failed.
#[derive(Debug, Clone, Copy, PartialEq, Eq, Structural)]
pub enum EnrollError {
    /// `cnf` is not a usable `ed25519:<b64 pub>`.
    BadCnf,
    /// No `sub`: the macaroon is not principal-scoped.
    MissingSub,
    /// No `cnf`: a bearer cannot enrol.
    MissingCnf,
    /// A binding caveat has two disagreeing occurrences.
    Unsatisfiable,
}

/// Fixed client id bound into the invite's third-party caveat.
pub const INVITE_CLIENT_ID: &'static str = "invite";

/// Fixed client id bound into the credential ticket's third-party caveat.
pub const TICKET_CLIENT_ID: &'static str = "ticket";

/// Fixed client id bound into the admin service token's third-party
/// caveat.
pub const ADMIN_SERVICE_CLIENT_ID: &'static str = "admin-service";

/// `m` is minted under the keyring's current generation with exactly
/// these caveats.
pub open spec fn minted_plain(
    m: MacaroonView,
    ring: KeyringView,
    caveats: Seq<CaveatView>,
) -> bool {
    m.nonce.len() == 16 && m == macaroon::minted(
        ring.keys[ring.current],
        KeyRef::Keyring(ring.current),
        m.nonce,
        caveats,
    )
}

/// The chain tag of a token minted with these caveats.
pub open spec fn base_tag(ring: KeyringView, nonce: Seq<u8>, caveats: Seq<CaveatView>) -> Seq<u8> {
    macaroon::chain_tag(
        macaroon::seed_tag(ring.keys[ring.current], KeyRef::Keyring(ring.current), nonce),
        caveats,
    )
}

/// `m` is minted under the keyring's current generation with these
/// caveats and, behind them, a third-party caveat at `location` that
/// seals a discharge key `r` for this chain position and `client_id`,
/// `org_id` for the authority.
pub open spec fn minted_gated(
    m: MacaroonView,
    ring: KeyringView,
    caveats: Seq<CaveatView>,
    r: Seq<u8>,
    key: Seq<u8>,
    plaintext: Seq<u8>,
    location: Seq<char>,
) -> bool {
    &&& m.caveats.len() == caveats.len() + 1
    &&& m.caveats.drop_last() == caveats
    &&& minted_plain(m, ring, m.caveats)
    &&& tpc::binds(
        m.caveats.last(),
        location,
        base_tag(ring, m.nonce, caveats),
        r,
        key,
        plaintext,
    )
}

/// Appending to a minted token mints the longer chain.
proof fn lemma_extended(m: MacaroonView, ring: KeyringView, caveats: Seq<CaveatView>, c: CaveatView)
    requires
        minted_plain(m, ring, caveats),
    ensures
        minted_plain(macaroon::extended(m, c), ring, caveats.push(c)),
        m.tail == base_tag(ring, m.nonce, caveats),
        caveats.push(c).drop_last() == caveats,
{
    assert(caveats.push(c).drop_last() =~= caveats);
}

/// The invite's own caveats.
pub open spec fn invite_caveats(audience: Seq<char>, invite_nonce: Seq<char>) -> Seq<CaveatView> {
    seq![
        caveat::scalar(name::OP@, op::ENROLL@),
        caveat::scalar(name::AUD@, audience),
        caveat::scalar(name::INVITE@, invite_nonce),
    ]
}

/// The reusable invite macaroon: `op=enroll`, `aud`, the current invite
/// nonce, and the enroll-gate third-party caveat. It carries no principal
/// and does not expire; it is inert without a fresh discharge.
pub fn mint_invite(
    keyring: &Keyring,
    k_m_a: &[u8; 32],
    audience: &str,
    invite_nonce: &str,
    org_id: &str,
    location: &str,
) -> (m: Macaroon)
    requires
        tpc::sealable(INVITE_CLIENT_ID@, org_id@, Seq::empty()),
    ensures
        exists|r: Seq<u8>| #[trigger]
            minted_gated(
                m@,
                keyring@,
                invite_caveats(audience@, invite_nonce@),
                r,
                k_m_a@,
                tpc::cid_layout(r, INVITE_CLIENT_ID@, org_id@),
                location@,
            ),
{
    let mut cs: Vec<Caveat> = Vec::new();
    cs.push(Caveat::scalar(name::OP, op::ENROLL));
    cs.push(Caveat::scalar(name::AUD, audience));
    cs.push(Caveat::scalar(name::INVITE, invite_nonce));
    let ghost caveats = invite_caveats(audience@, invite_nonce@);
    assert(caveat::chain(cs@) =~= caveats);
    let base = macaroon::mint(keyring, cs);
    let gate = tpc::build_caveat(base.tail(), k_m_a, INVITE_CLIENT_ID, org_id, location);
    proof {
        lemma_extended(base@, keyring@, caveats, gate@);
        let r = choose|r: Seq<u8>| #[trigger]
            tpc::binds(
                gate@,
                location@,
                base@.tail,
                r,
                k_m_a@,
                tpc::cid_layout(r, INVITE_CLIENT_ID@, org_id@),
            );
        assert(minted_gated(
            macaroon::extended(base@, gate@),
            keyring@,
            caveats,
            r,
            k_m_a@,
            tpc::cid_layout(r, INVITE_CLIENT_ID@, org_id@),
            location@,
        ));
    }
    base.attenuate(gate)
}

/// The credential ticket's own caveats.
pub open spec fn ticket_caveats(
    audience: Seq<char>,
    sub: Seq<char>,
    cnf: Seq<char>,
    exp_unix: u64,
) -> Seq<CaveatView> {
    seq![
        caveat::scalar(name::OP@, op::ENROLL_EXCHANGE@),
        caveat::scalar(name::AUD@, audience),
        caveat::scalar(name::SUB@, sub),
        caveat::scalar(name::CNF@, cnf),
        caveat::scalar(name::EXP@, text::digits(exp_unix as nat)),
    ]
}

/// The short-lived credential ticket: `op=enroll-exchange`, `aud`, the
/// self-asserted `sub` and `cnf`, an `exp`, and the exchange-gate
/// third-party caveat.
pub fn mint_credential_ticket(
    keyring: &Keyring,
    k_m_a: &[u8; 32],
    audience: &str,
    sub: &str,
    cnf: &str,
    exp_unix: u64,
    org_id: &str,
    location: &str,
) -> (m: Macaroon)
    requires
        tpc::sealable(TICKET_CLIENT_ID@, org_id@, Seq::empty()),
    ensures
        exists|r: Seq<u8>| #[trigger]
            minted_gated(
                m@,
                keyring@,
                ticket_caveats(audience@, sub@, cnf@, exp_unix),
                r,
                k_m_a@,
                tpc::cid_layout(r, TICKET_CLIENT_ID@, org_id@),
                location@,
            ),
{
    let mut cs: Vec<Caveat> = Vec::new();
    cs.push(Caveat::scalar(name::OP, op::ENROLL_EXCHANGE));
    cs.push(Caveat::scalar(name::AUD, audience));
    cs.push(Caveat::scalar(name::SUB, sub));
    cs.push(Caveat::scalar(name::CNF, cnf));
    cs.push(Caveat::scalar(name::EXP, text::print_u64(exp_unix).as_str()));
    let ghost caveats = ticket_caveats(audience@, sub@, cnf@, exp_unix);
    assert(caveat::chain(cs@) =~= caveats);
    let base = macaroon::mint(keyring, cs);
    let gate = tpc::build_caveat(base.tail(), k_m_a, TICKET_CLIENT_ID, org_id, location);
    proof {
        lemma_extended(base@, keyring@, caveats, gate@);
        let r = choose|r: Seq<u8>| #[trigger]
            tpc::binds(
                gate@,
                location@,
                base@.tail,
                r,
                k_m_a@,
                tpc::cid_layout(r, TICKET_CLIENT_ID@, org_id@),
            );
        assert(minted_gated(
            macaroon::extended(base@, gate@),
            keyring@,
            caveats,
            r,
            k_m_a@,
            tpc::cid_layout(r, TICKET_CLIENT_ID@, org_id@),
            location@,
        ));
    }
    base.attenuate(gate)
}

/// The attested third-party caveat to stamp onto a credential whose role
/// declares an attestation. `mode` is carried verbatim for the authority
/// at `location`.
pub struct AttestedTpc<'a> {
    pub k_m_b: &'a [u8; 32],
    pub org_id: &'a str,
    pub mode: &'a str,
    pub location: &'a str,
}

/// A credential's own caveats.
pub open spec fn credential_caveats(
    audience: Seq<char>,
    sub: Seq<char>,
    cnf: Seq<char>,
    role: Seq<char>,
    rev_epoch: u64,
) -> Seq<CaveatView> {
    seq![
        caveat::scalar(name::OP@, op::ASSUME_ROLE@),
        caveat::scalar(name::AUD@, audience),
        caveat::scalar(name::SUB@, sub),
        caveat::scalar(name::CNF@, cnf),
        caveat::scalar(name::ROLE@, role),
        caveat::scalar(name::EPOCH@, text::digits(rev_epoch as nat)),
    ]
}

/// The non-expiring credential for one role: `op=assume-role`, `aud`,
/// `sub`, `cnf`, the role, and the revocation epoch. A role with an
/// attestation gets an attested third-party caveat behind them.
pub fn mint_credential(
    keyring: &Keyring,
    audience: &str,
    sub: &str,
    cnf: &str,
    role: &str,
    rev_epoch: u64,
    attested: Option<AttestedTpc<'_>>,
) -> (m: Macaroon)
    requires
        attested matches Some(a) ==> tpc::sealable(sub@, a.org_id@, a.mode@),
    ensures
        ({
            let caveats = credential_caveats(audience@, sub@, cnf@, role@, rev_epoch);
            match attested {
                None => minted_plain(m@, keyring@, caveats),
                Some(a) => exists|r: Seq<u8>| #[trigger]
                    minted_gated(
                        m@,
                        keyring@,
                        caveats,
                        r,
                        a.k_m_b@,
                        tpc::attested_layout(r, sub@, a.org_id@, a.mode@),
                        a.location@,
                    ),
            }
        }),
{
    let mut cs: Vec<Caveat> = Vec::new();
    cs.push(Caveat::scalar(name::OP, op::ASSUME_ROLE));
    cs.push(Caveat::scalar(name::AUD, audience));
    cs.push(Caveat::scalar(name::SUB, sub));
    cs.push(Caveat::scalar(name::CNF, cnf));
    cs.push(Caveat::scalar(name::ROLE, role));
    cs.push(Caveat::scalar(name::EPOCH, text::print_u64(rev_epoch).as_str()));
    let ghost caveats = credential_caveats(audience@, sub@, cnf@, role@, rev_epoch);
    assert(caveat::chain(cs@) =~= caveats);
    let base = macaroon::mint(keyring, cs);
    match attested {
        None => base,
        Some(a) => {
            let gate = tpc::build_caveat_attested(
                base.tail(),
                a.k_m_b,
                sub,
                a.org_id,
                a.mode,
                a.location,
            );
            proof {
                lemma_extended(base@, keyring@, caveats, gate@);
                let r = choose|r: Seq<u8>| #[trigger]
                    tpc::binds(
                        gate@,
                        a.location@,
                        base@.tail,
                        r,
                        a.k_m_b@,
                        tpc::attested_layout(r, sub@, a.org_id@, a.mode@),
                    );
                assert(minted_gated(
                    macaroon::extended(base@, gate@),
                    keyring@,
                    caveats,
                    r,
                    a.k_m_b@,
                    tpc::attested_layout(r, sub@, a.org_id@, a.mode@),
                    a.location@,
                ));
            }
            base.attenuate(gate)
        },
    }
}

/// The admin service token's own caveats.
pub open spec fn admin_caveats(audience: Seq<char>, cnf: Seq<char>) -> Seq<CaveatView> {
    seq![caveat::scalar(name::AUD@, audience), caveat::scalar(name::CNF@, cnf)]
}

/// The admin service token: `aud`, `cnf` and one third-party caveat. It
/// has no `op` and no `exp`: the operator attenuates `op=admin:<verb>` per
/// call, and freshness rides on the discharge.
pub fn mint_admin_service_token(
    keyring: &Keyring,
    k_m_a: &[u8; 32],
    audience: &str,
    cnf: &str,
    org_id: &str,
    location: &str,
) -> (m: Macaroon)
    requires
        tpc::sealable(ADMIN_SERVICE_CLIENT_ID@, org_id@, Seq::empty()),
    ensures
        exists|r: Seq<u8>| #[trigger]
            minted_gated(
                m@,
                keyring@,
                admin_caveats(audience@, cnf@),
                r,
                k_m_a@,
                tpc::cid_layout(r, ADMIN_SERVICE_CLIENT_ID@, org_id@),
                location@,
            ),
{
    let mut cs: Vec<Caveat> = Vec::new();
    cs.push(Caveat::scalar(name::AUD, audience));
    cs.push(Caveat::scalar(name::CNF, cnf));
    let ghost caveats = admin_caveats(audience@, cnf@);
    assert(caveat::chain(cs@) =~= caveats);
    let base = macaroon::mint(keyring, cs);
    let gate = tpc::build_caveat(base.tail(), k_m_a, ADMIN_SERVICE_CLIENT_ID, org_id, location);
    proof {
        lemma_extended(base@, keyring@, caveats, gate@);
        let r = choose|r: Seq<u8>| #[trigger]
            tpc::binds(
                gate@,
                location@,
                base@.tail,
                r,
                k_m_a@,
                tpc::cid_layout(r, ADMIN_SERVICE_CLIENT_ID@, org_id@),
            );
        assert(minted_gated(
            macaroon::extended(base@, gate@),
            keyring@,
            caveats,
            r,
            k_m_a@,
            tpc::cid_layout(r, ADMIN_SERVICE_CLIENT_ID@, org_id@),
            location@,
        ));
    }
    base.attenuate(gate)
}

/// The identity that a chain binds.
pub open spec fn identity_of(c: Seq<CaveatView>) -> Result<(Seq<char>, Seq<char>), EnrollError> {
    match caveat::resolved(c, name::SUB@) {
        ResolvedView::Unsatisfiable => Err(EnrollError::Unsatisfiable),
        ResolvedView::Absent => Err(EnrollError::MissingSub),
        ResolvedView::Value(sub) => match caveat::resolved(c, name::CNF@) {
            ResolvedView::Unsatisfiable => Err(EnrollError::Unsatisfiable),
            ResolvedView::Absent => Err(EnrollError::MissingCnf),
            ResolvedView::Value(cnf) => if pop::valid_cnf(cnf) {
                Ok((sub, cnf))
            } else {
                Err(EnrollError::BadCnf)
            },
        },
    }
}

/// The bound `(sub, cnf)` of an already verified macaroon. A
/// contradictory copy of either fails closed, and the `cnf` must be a
/// usable key.
pub fn bound_identity(token: &Macaroon) -> (r: Result<(String, String), EnrollError>)
    ensures
        match r {
            Ok((sub, cnf)) => identity_of(token@.caveats) == Ok::<
                (Seq<char>, Seq<char>),
                EnrollError,
            >((sub@, cnf@)),
            Err(e) => identity_of(token@.caveats) == Err::<(Seq<char>, Seq<char>), EnrollError>(e),
        },
{
    let eff = EffectiveCaveats::new(token.caveats());
    let sub = match eff.resolve(name::SUB) {
        Resolved::Value(v) => v,
        Resolved::Unsatisfiable => {
            return Err(EnrollError::Unsatisfiable);
        },
        Resolved::Absent => {
            return Err(EnrollError::MissingSub);
        },
    };
    let cnf = match eff.resolve(name::CNF) {
        Resolved::Value(v) => v,
        Resolved::Unsatisfiable => {
            return Err(EnrollError::Unsatisfiable);
        },
        Resolved::Absent => {
            return Err(EnrollError::MissingCnf);
        },
    };
    if pop::validate_cnf(cnf.as_str()).is_err() {
        return Err(EnrollError::BadCnf);
    }
    Ok((sub, cnf))
}

/// What is minted here verifies under the keyring that minted it, for as
/// long as its generation stays in the ring.
pub proof fn law_minted_token_verifies(
    m: MacaroonView,
    ring: KeyringView,
    later: KeyringView,
    caveats: Seq<CaveatView>,
)
    requires
        minted_plain(m, ring, caveats),
        later.keys.contains_key(ring.current),
        later.keys[ring.current] == ring.keys[ring.current],
    ensures
        m.key_ref == KeyRef::Keyring(ring.current),
        macaroon::authentic(m, later.keys[ring.current]),
{
}

/// A gated token is inert without its discharge: the verifier finds
/// exactly one third-party caveat in it, whose `vid` gives the discharge
/// key that was drawn for it.
pub proof fn law_gate_is_the_only_site(
    m: MacaroonView,
    ring: KeyringView,
    caveats: Seq<CaveatView>,
    r: Seq<u8>,
    key: Seq<u8>,
    plaintext: Seq<u8>,
    location: Seq<char>,
)
    requires
        minted_gated(m, ring, caveats, r, key, plaintext, location),
        forall|i: int| 0 <= i < caveats.len() ==> (#[trigger] caveats[i]) is FirstParty,
    ensures
        ({
            let sites = macaroon::sites(m, ring.keys[ring.current]);
            sites.len() == 1 && tpc::recovered(sites[0].tag, sites[0].vid) == Ok::<
                Seq<u8>,
                tpc::TpcError,
            >(r) && sites[0].cid == m.caveats.last()->cid
        }),
{
    let seed = macaroon::seed_tag(ring.keys[ring.current], m.key_ref, m.nonce);
    lemma_no_sites(seed, caveats);
    assert(macaroon::sites_of(seed, m.caveats.drop_last()) =~= Seq::<macaroon::SiteView>::empty());
}

/// A chain of first-party caveats has no site.
pub proof fn lemma_no_sites(seed: Seq<u8>, c: Seq<CaveatView>)
    requires
        forall|i: int| 0 <= i < c.len() ==> (#[trigger] c[i]) is FirstParty,
    ensures
        macaroon::sites_of(seed, c).len() == 0,
    decreases c.len(),
{
    if c.len() > 0 {
        let d = c.drop_last();
        assert forall|i: int| 0 <= i < d.len() implies (#[trigger] d[i]) is FirstParty by {
            assert(d[i] == c[i]);
        }
        assert(c[c.len() - 1] is FirstParty);
        lemma_no_sites(seed, d);
    }
}

/// The message of an error.
pub open spec fn error_text(e: EnrollError) -> Seq<char> {
    match e {
        EnrollError::BadCnf => "malformed cnf"@,
        EnrollError::MissingSub => "missing sub"@,
        EnrollError::MissingCnf => "missing cnf"@,
        EnrollError::Unsatisfiable => "contradictory binding caveat"@,
    }
}

impl EnrollError {
    /// The message of the error.
    pub fn message(&self) -> (r: &'static str)
        ensures
            r@ == error_text(*self),
    {
        match self {
            EnrollError::BadCnf => "malformed cnf",
            EnrollError::MissingSub => "missing sub",
            EnrollError::MissingCnf => "missing cnf",
            EnrollError::Unsatisfiable => "contradictory binding caveat",
        }
    }
}

} // verus!
