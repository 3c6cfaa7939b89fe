//! Macaroons: a caveat chain under a chain of keyed BLAKE3 tags.
//!
//! The tag of a chain starts from the key and the token's header (which
//! key it is under, and its nonce) and is extended by each caveat under
//! the tag before it. The final tag travels with the token, so anyone who
//! holds it can append a caveat, and only a holder of the key can verify.

use crate::bytes;
use crate::caveat;
use crate::caveat::{Caveat, CaveatView};
use crate::crypto;
use crate::keyring::{Keyring, KeyringView, Kid};
use crate::text;
use vstd::prelude::*;
use vstd::utf8::*;

verus! {

/// Length of a macaroon's nonce.
pub const NONCE_LEN: usize = 16;

/// Which key a macaroon's chain starts from.
#[derive(Debug, Clone, Copy, PartialEq, Eq, Structural)]
pub enum KeyRef {
    /// A generation of the root keyring.
    Keyring(Kid),
    /// The session key of the auth role.
    Session,
    /// The discharge key of one third-party caveat.
    Discharge,
}

/// A caveat chain, its header and its final tag.
#[derive(Debug)]
pub struct Macaroon {
    key_ref: KeyRef,
    nonce: [u8; 16],
    caveats: Vec<Caveat>,
    tail: [u8; 32],
}

/// A macaroon as a mathematical value.
#[verifier::ext_equal]
pub struct MacaroonView {
    pub key_ref: KeyRef,
    pub nonce: Seq<u8>,
    pub caveats: Seq<CaveatView>,
    pub tail: Seq<u8>,
}

impl View for Macaroon {
    type V = MacaroonView;

    closed spec fn view(&self) -> MacaroonView {
        MacaroonView {
            key_ref: self.key_ref,
            nonce: self.nonce@,
            caveats: caveat::chain(self.caveats@),
            tail: self.tail@,
        }
    }
}

/// The header's first three bytes: the kind of key and its kid.
pub open spec fn key_ref_bytes(k: KeyRef) -> Seq<u8> {
    match k {
        KeyRef::Keyring(kid) => seq![0u8, (kid / 256) as u8, (kid % 256) as u8],
        KeyRef::Session => seq![1u8, 0u8, 0u8],
        KeyRef::Discharge => seq![2u8, 0u8, 0u8],
    }
}

/// One chain step: a type byte and the caveat's length-prefixed fields.
#[verifier::opaque]
pub open spec fn step_bytes(c: CaveatView) -> Seq<u8> {
    match c {
        CaveatView::FirstParty { name, value } => seq![0u8] + bytes::prefixed(encode_utf8(name))
            + bytes::prefixed(encode_utf8(value)),
        CaveatView::ThirdParty { location, vid, cid } => seq![1u8] + bytes::prefixed(
            encode_utf8(location),
        ) + bytes::prefixed(vid) + bytes::prefixed(cid),
    }
}

/// The tag that a chain starts from.
pub open spec fn seed_tag(key: Seq<u8>, key_ref: KeyRef, nonce: Seq<u8>) -> Seq<u8> {
    crypto::blake3_keyed(key, key_ref_bytes(key_ref) + nonce)
}

/// The tag of a chain: each caveat is hashed under the tag before it.
pub open spec fn chain_tag(seed: Seq<u8>, caveats: Seq<CaveatView>) -> Seq<u8>
    decreases caveats.len(),
{
    if caveats.len() == 0 {
        seed
    } else {
        crypto::blake3_keyed(chain_tag(seed, caveats.drop_last()), step_bytes(caveats.last()))
    }
}

/// `m` is MAC'd under `key`: its tail is the tag of its chain.
pub open spec fn authentic(m: MacaroonView, key: Seq<u8>) -> bool {
    m.tail == chain_tag(seed_tag(key, m.key_ref, m.nonce), m.caveats)
}

/// `m` with one more caveat.
pub open spec fn extended(m: MacaroonView, c: CaveatView) -> MacaroonView {
    MacaroonView {
        caveats: m.caveats.push(c),
        tail: crypto::blake3_keyed(m.tail, step_bytes(c)),
        ..m
    }
}

/// `m` with these caveats appended, in order.
pub open spec fn extended_by(m: MacaroonView, d: Seq<CaveatView>) -> MacaroonView
    decreases d.len(),
{
    if d.len() == 0 {
        m
    } else {
        extended(extended_by(m, d.drop_last()), d.last())
    }
}

/// The macaroon of this header and chain under `key`.
pub open spec fn minted(
    key: Seq<u8>,
    key_ref: KeyRef,
    nonce: Seq<u8>,
    caveats: Seq<CaveatView>,
) -> MacaroonView {
    MacaroonView {
        key_ref,
        nonce,
        caveats,
        tail: chain_tag(seed_tag(key, key_ref, nonce), caveats),
    }
}

/// `m` is authentic under a generation of the ring.
pub open spec fn verifies(m: MacaroonView, ring: KeyringView) -> bool {
    match m.key_ref {
        KeyRef::Keyring(kid) => ring.keys.contains_key(kid) && authentic(m, ring.keys[kid]),
        _ => false,
    }
}

/// Adding a generation leaves every token as it was: what verified before
/// still does.
pub proof fn law_rotation_keeps_tokens(
    m: MacaroonView,
    ring: KeyringView,
    later: KeyringView,
    next: Kid,
    key: Seq<u8>,
)
    requires
        !ring.keys.contains_key(next),
        later.keys == ring.keys.insert(next, key),
        verifies(m, ring),
    ensures
        verifies(m, later),
{
}

/// Retiring a generation ends every token under it, and no other.
pub proof fn law_retired_generation_ends(
    m: MacaroonView,
    ring: KeyringView,
    later: KeyringView,
    kid: Kid,
)
    requires
        later.keys == ring.keys.remove(kid),
    ensures
        m.key_ref == KeyRef::Keyring(kid) ==> !verifies(m, later),
        m.key_ref != KeyRef::Keyring(kid) ==> verifies(m, later) == verifies(m, ring),
{
}

/// Appending keeps a macaroon authentic, and needs no key.
pub proof fn law_attenuation_stays_authentic(m: MacaroonView, c: CaveatView, key: Seq<u8>)
    requires
        authentic(m, key),
    ensures
        authentic(extended(m, c), key),
{
    assert(extended(m, c).caveats.drop_last() =~= m.caveats);
}

/// So does appending any number of caveats, and nothing but the chain and
/// the tail changes.
pub proof fn law_attenuations_stay_authentic(m: MacaroonView, d: Seq<CaveatView>, key: Seq<u8>)
    requires
        authentic(m, key),
    ensures
        authentic(extended_by(m, d), key),
        extended_by(m, d).caveats == m.caveats + d,
        extended_by(m, d).key_ref == m.key_ref,
        extended_by(m, d).nonce == m.nonce,
    decreases d.len(),
{
    if d.len() == 0 {
        assert(m.caveats + d =~= m.caveats);
    } else {
        law_attenuations_stay_authentic(m, d.drop_last(), key);
        law_attenuation_stays_authentic(extended_by(m, d.drop_last()), d.last(), key);
        assert((m.caveats + d.drop_last()).push(d.last()) =~= m.caveats + d);
    }
}

/// What is minted under a key is authentic under it.
pub proof fn law_minted_is_authentic(
    key: Seq<u8>,
    key_ref: KeyRef,
    nonce: Seq<u8>,
    caveats: Seq<CaveatView>,
)
    ensures
        authentic(minted(key, key_ref, nonce, caveats), key),
{
}

/// A third-party caveat of a verified chain, and the tag before it.
#[derive(Debug)]
pub struct TpcSite {
    pub tag: [u8; 32],
    pub vid: Vec<u8>,
    pub cid: Vec<u8>,
}

/// A third-party caveat's place as a mathematical value.
#[verifier::ext_equal]
pub struct SiteView {
    pub tag: Seq<u8>,
    pub vid: Seq<u8>,
    pub cid: Seq<u8>,
}

impl View for TpcSite {
    type V = SiteView;

    open spec fn view(&self) -> SiteView {
        SiteView { tag: self.tag@, vid: self.vid@, cid: self.cid@ }
    }
}

/// The places of a list of sites.
pub open spec fn site_views(s: Seq<TpcSite>) -> Seq<SiteView> {
    Seq::new(s.len(), |i: int| s[i]@)
}

/// The third-party caveats of a chain in order, each with the tag of the
/// chain before it.
pub open spec fn sites_of(seed: Seq<u8>, caveats: Seq<CaveatView>) -> Seq<SiteView>
    decreases caveats.len(),
{
    if caveats.len() == 0 {
        Seq::empty()
    } else {
        let before = sites_of(seed, caveats.drop_last());
        match caveats.last() {
            CaveatView::ThirdParty { vid, cid, .. } => before.push(
                SiteView { tag: chain_tag(seed, caveats.drop_last()), vid, cid },
            ),
            CaveatView::FirstParty { .. } => before,
        }
    }
}

/// The sites of a macaroon's chain under `key`.
pub open spec fn sites(m: MacaroonView, key: Seq<u8>) -> Seq<SiteView> {
    sites_of(seed_tag(key, m.key_ref, m.nonce), m.caveats)
}

/// The header bytes that a chain starts from.
fn header(key_ref: KeyRef, nonce: &[u8; 16]) -> (r: Vec<u8>)
    ensures
        r@ == key_ref_bytes(key_ref) + nonce@,
{
    let mut r: Vec<u8> = Vec::new();
    match key_ref {
        KeyRef::Keyring(kid) => {
            r.push(0);
            r.push((kid / 256) as u8);
            r.push((kid % 256) as u8);
        },
        KeyRef::Session => {
            r.push(1);
            r.push(0);
            r.push(0);
        },
        KeyRef::Discharge => {
            r.push(2);
            r.push(0);
            r.push(0);
        },
    }
    assert(r@ =~= key_ref_bytes(key_ref));
    bytes::append(&mut r, nonce);
    r
}

/// Appends the chain step of `c` to `v`.
fn push_step(v: &mut Vec<u8>, c: &Caveat)
    ensures
        final(v)@ == old(v)@ + step_bytes(c@),
{
    let ghost start = v@;
    proof {
        reveal(step_bytes);
    }
    match c {
        Caveat::FirstParty { name, value } => {
            v.push(0);
            bytes::push_prefixed(v, name.as_str().as_bytes());
            bytes::push_prefixed(v, value.as_str().as_bytes());
        },
        Caveat::ThirdParty { location, vid, cid } => {
            v.push(1);
            bytes::push_prefixed(v, location.as_str().as_bytes());
            bytes::push_prefixed(v, vid.as_slice());
            bytes::push_prefixed(v, cid.as_slice());
        },
    }
    assert(v@ =~= start + step_bytes(c@));
}

/// The tag after the step of `c`.
fn step_tag(tag: &[u8; 32], c: &Caveat) -> (r: [u8; 32])
    ensures
        r@ == crypto::blake3_keyed(tag@, step_bytes(c@)),
{
    let mut v: Vec<u8> = Vec::new();
    push_step(&mut v, c);
    assert(v@ =~= step_bytes(c@));
    crypto::keyed_hash(tag, &v)
}

/// The tag of a chain.
fn tag_of(key: &[u8; 32], key_ref: KeyRef, nonce: &[u8; 16], caveats: &[Caveat]) -> (r: [u8; 32])
    ensures
        r@ == chain_tag(seed_tag(key@, key_ref, nonce@), caveat::chain(caveats@)),
{
    let mut tag: [u8; 32] = crypto::keyed_hash(key, &header(key_ref, nonce));
    let ghost seed = tag@;
    let mut i: usize = 0;
    assert(caveat::chain(caveats@.take(0)) =~= Seq::<CaveatView>::empty());
    while i < caveats.len()
        invariant
            i <= caveats@.len(),
            tag@ == chain_tag(seed, caveat::chain(caveats@.take(i as int))),
        decreases caveats@.len() - i,
    {
        proof {
            let c1 = caveat::chain(caveats@.take(i + 1));
            assert(c1.drop_last() =~= caveat::chain(caveats@.take(i as int)));
            assert(c1.last() == caveats@[i as int]@);
        }
        tag = step_tag(&tag, &caveats[i]);
        i = i + 1;
    }
    assert(caveats@.take(caveats@.len() as int) =~= caveats@);
    tag
}

/// A copy of a caveat chain.
pub fn copy_caveats(caveats: &[Caveat]) -> (r: Vec<Caveat>)
    ensures
        caveat::chain(r@) == caveat::chain(caveats@),
{
    let mut r: Vec<Caveat> = Vec::new();
    append_caveats(&mut r, caveats);
    assert(caveat::chain(r@) =~= caveat::chain(caveats@));
    r
}

/// Appends copies of `caveats` to `v`.
pub fn append_caveats(v: &mut Vec<Caveat>, caveats: &[Caveat])
    ensures
        caveat::chain(final(v)@) == caveat::chain(old(v)@) + caveat::chain(caveats@),
{
    let ghost start = caveat::chain(v@);
    let mut i: usize = 0;
    assert(caveat::chain(v@) =~= start + caveat::chain(caveats@.take(0)));
    while i < caveats.len()
        invariant
            i <= caveats@.len(),
            caveat::chain(v@) == start + caveat::chain(caveats@.take(i as int)),
        decreases caveats@.len() - i,
    {
        let ghost done = caveat::chain(v@);
        v.push(caveats[i].clone());
        proof {
            assert(caveat::chain(v@) =~= done.push(caveats@[i as int]@));
            assert(caveat::chain(caveats@.take(i + 1)) =~= caveat::chain(
                caveats@.take(i as int),
            ).push(caveats@[i as int]@));
            assert(caveat::chain(v@) =~= start + caveat::chain(caveats@.take(i + 1)));
        }
        i = i + 1;
    }
    assert(caveats@.take(caveats@.len() as int) =~= caveats@);
}

/// Mints a macaroon under the keyring's current generation, with a fresh
/// nonce.
pub fn mint(keyring: &Keyring, caveats: Vec<Caveat>) -> (r: Macaroon)
    ensures
        r@.nonce.len() == NONCE_LEN,
        r@ == minted(
            keyring@.keys[keyring@.current],
            KeyRef::Keyring(keyring@.current),
            r@.nonce,
            caveat::chain(caveats@),
        ),
{
    mint_under_key(keyring.current_key(), KeyRef::Keyring(keyring.current_kid()), caveats)
}

/// Mints a macaroon under `key`, with a fresh nonce.
pub fn mint_under_key(key: &[u8; 32], key_ref: KeyRef, caveats: Vec<Caveat>) -> (r: Macaroon)
    ensures
        r@.nonce.len() == NONCE_LEN,
        r@ == minted(key@, key_ref, r@.nonce, caveat::chain(caveats@)),
{
    let nonce = bytes::array16(&crypto::random_bytes(16), 0);
    mint_under_key_with_nonce(key, key_ref, nonce, caveats)
}

/// Mints a macaroon under `key` with this nonce.
pub fn mint_under_key_with_nonce(
    key: &[u8; 32],
    key_ref: KeyRef,
    nonce: [u8; 16],
    caveats: Vec<Caveat>,
) -> (r: Macaroon)
    ensures
        r@ == minted(key@, key_ref, nonce@, caveat::chain(caveats@)),
{
    let tail = tag_of(key, key_ref, &nonce, &caveats);
    Macaroon { key_ref, nonce, caveats, tail }
}

impl Macaroon {
    /// The caveat chain.
    pub fn caveats(&self) -> (r: &[Caveat])
        ensures
            caveat::chain(r@) == self@.caveats,
    {
        self.caveats.as_slice()
    }

    /// The final tag.
    pub fn tail(&self) -> (r: &[u8; 32])
        ensures
            r@ == self@.tail,
    {
        &self.tail
    }

    /// The nonce.
    pub fn nonce(&self) -> (r: &[u8; 16])
        ensures
            r@ == self@.nonce,
    {
        &self.nonce
    }

    /// The nonce in hexadecimal, for the audit log.
    pub fn nonce_hex(&self) -> (r: String)
        ensures
            r@ == text::hex_of(self@.nonce),
    {
        text::encode_hex(&self.nonce)
    }

    /// Which key the chain starts from.
    pub fn key_ref(&self) -> (r: KeyRef)
        ensures
            r == self@.key_ref,
    {
        self.key_ref
    }

    /// The macaroon with one more caveat: needs the tail, not the key.
    pub fn attenuate(self, c: Caveat) -> (r: Macaroon)
        ensures
            r@ == extended(self@, c@),
    {
        let tail = step_tag(&self.tail, &c);
        let ghost before = caveat::chain(self.caveats@);
        let mut caveats = self.caveats;
        caveats.push(c);
        assert(caveat::chain(caveats@) =~= before.push(c@));
        Macaroon { key_ref: self.key_ref, nonce: self.nonce, caveats, tail }
    }

    /// Whether the macaroon is authentic under a generation of the
    /// keyring.
    pub fn verify(&self, keyring: &Keyring) -> (r: bool)
        ensures
            r == verifies(self@, keyring@),
    {
        match self.key_ref {
            KeyRef::Keyring(kid) => match keyring.get(kid) {
                Some(key) => self.verify_under_key(key),
                None => false,
            },
            _ => false,
        }
    }

    /// Whether the macaroon is authentic under `key`.
    pub fn verify_under_key(&self, key: &[u8; 32]) -> (r: bool)
        ensures
            r == authentic(self@, key@),
    {
        let tag = tag_of(key, self.key_ref, &self.nonce, &self.caveats);
        bytes::same_bytes(&tag, &self.tail)
    }

    /// Verifies the chain under `key` and lists its third-party caveats,
    /// each with the tag before it. `None` where the MAC does not match.
    pub fn verify_collecting_tpcs(&self, key: &[u8; 32]) -> (r: Option<Vec<TpcSite>>)
        ensures
            match r {
                Some(s) => authentic(self@, key@) && site_views(s@) == sites(self@, key@),
                None => !authentic(self@, key@),
            },
    {
        let mut tag: [u8; 32] = crypto::keyed_hash(key, &header(self.key_ref, &self.nonce));
        let ghost seed = tag@;
        let mut found: Vec<TpcSite> = Vec::new();
        let mut i: usize = 0;
        let ghost all = caveat::chain(self.caveats@);
        assert(all.take(0) =~= Seq::<CaveatView>::empty());
        assert(site_views(found@) =~= sites_of(seed, all.take(0)));
        while i < self.caveats.len()
            invariant
                i <= self.caveats@.len(),
                all == caveat::chain(self.caveats@),
                tag@ == chain_tag(seed, all.take(i as int)),
                site_views(found@) == sites_of(seed, all.take(i as int)),
            decreases self.caveats@.len() - i,
        {
            proof {
                assert(all.take(i + 1).drop_last() =~= all.take(i as int));
                assert(all.take(i + 1).last() == self.caveats@[i as int]@);
            }
            let ghost done = site_views(found@);
            if let Caveat::ThirdParty { vid, cid, .. } = &self.caveats[i] {
                let site = TpcSite {
                    tag,
                    vid: bytes::slice(vid, 0, vid.len()),
                    cid: bytes::slice(cid, 0, cid.len()),
                };
                proof {
                    assert(site.vid@ =~= vid@);
                    assert(site.cid@ =~= cid@);
                }
                found.push(site);
                assert(site_views(found@) =~= done.push(site@));
            }
            tag = step_tag(&tag, &self.caveats[i]);
            i = i + 1;
        }
        assert(all.take(all.len() as int) =~= all);
        if bytes::same_bytes(&tag, &self.tail) {
            Some(found)
        } else {
            None
        }
    }
}

impl Clone for Macaroon {
    fn clone(&self) -> (r: Macaroon)
        ensures
            r@ == self@,
    {
        Macaroon {
            key_ref: self.key_ref,
            nonce: self.nonce,
            caveats: copy_caveats(&self.caveats),
            tail: self.tail,
        }
    }
}

/// The text of a token that does not decode.
#[derive(Debug, Clone, Copy, PartialEq, Eq, Structural)]
pub enum MacaroonError {
    Malformed,
}

/// What every token's text begins with.
pub const TOKEN_PREFIX: &'static str = "mnt2_";

/// The chain steps of a list of caveats, one behind the other.
pub open spec fn steps_bytes(c: Seq<CaveatView>) -> Seq<u8>
    decreases c.len(),
{
    if c.len() == 0 {
        Seq::empty()
    } else {
        step_bytes(c[0]) + steps_bytes(c.drop_first())
    }
}

/// The bytes of a token: header, nonce, steps, tail.
pub open spec fn wire_bytes(m: MacaroonView) -> Seq<u8> {
    key_ref_bytes(m.key_ref) + m.nonce + steps_bytes(m.caveats) + m.tail
}

/// The string field at the head of `b` and what follows it.
pub open spec fn take_text(b: Seq<u8>) -> Option<(Seq<char>, Seq<u8>)> {
    match bytes::take_field(b) {
        Ok((f, rest)) if valid_utf8(f) => Some((decode_utf8(f), rest)),
        _ => None,
    }
}

/// The byte field at the head of `b` and what follows it.
pub open spec fn take_bytes(b: Seq<u8>) -> Option<(Seq<u8>, Seq<u8>)> {
    match bytes::take_field(b) {
        Ok((f, rest)) => Some((f, rest)),
        Err(_) => None,
    }
}

/// The chain step at the head of `b` and what follows it.
#[verifier::opaque]
pub open spec fn take_step(b: Seq<u8>) -> Option<(CaveatView, Seq<u8>)> {
    if b.len() == 0 {
        None
    } else if b[0] == 0 {
        match take_text(b.skip(1)) {
            Some((name, r1)) => match take_text(r1) {
                Some((value, r2)) => Some((CaveatView::FirstParty { name, value }, r2)),
                None => None,
            },
            None => None,
        }
    } else if b[0] == 1 {
        match take_text(b.skip(1)) {
            Some((location, r1)) => match take_bytes(r1) {
                Some((vid, r2)) => match take_bytes(r2) {
                    Some((cid, r3)) => Some((CaveatView::ThirdParty { location, vid, cid }, r3)),
                    None => None,
                },
                None => None,
            },
            None => None,
        }
    } else {
        None
    }
}

/// The caveats whose steps make up `b`.
pub open spec fn read_steps(b: Seq<u8>) -> Option<Seq<CaveatView>>
    decreases b.len(),
{
    if b.len() == 0 {
        Some(Seq::empty())
    } else {
        proof {
            reveal(take_step);
        }
        match take_step(b) {
            Some((c, rest)) => match read_steps(rest) {
                Some(cs) => Some(seq![c] + cs),
                None => None,
            },
            None => None,
        }
    }
}

/// The key reference that three header bytes write.
pub open spec fn read_key_ref(b: Seq<u8>) -> Option<KeyRef> {
    if b[0] == 0 {
        Some(KeyRef::Keyring((b[1] * 256 + b[2]) as u16))
    } else if b[0] == 1 && b[1] == 0 && b[2] == 0 {
        Some(KeyRef::Session)
    } else if b[0] == 2 && b[1] == 0 && b[2] == 0 {
        Some(KeyRef::Discharge)
    } else {
        None
    }
}

/// The macaroon that the bytes of a token write.
pub open spec fn read_wire(b: Seq<u8>) -> Option<MacaroonView> {
    if b.len() < 51 {
        None
    } else {
        match (read_key_ref(b), read_steps(b.subrange(19, b.len() - 32))) {
            (Some(key_ref), Some(caveats)) => Some(
                MacaroonView {
                    key_ref,
                    nonce: b.subrange(3, 19),
                    caveats,
                    tail: b.skip(b.len() - 32),
                },
            ),
            _ => None,
        }
    }
}

/// The text of a macaroon.
pub open spec fn token_of(m: MacaroonView) -> Seq<char> {
    TOKEN_PREFIX@ + crypto::base64url(wire_bytes(m))
}

/// The macaroon that a token's text writes.
pub open spec fn read_token(t: Seq<char>) -> Option<MacaroonView> {
    match text::without_prefix(t, TOKEN_PREFIX@) {
        Some(payload) => match crypto::base64url_read(payload) {
            Some(b) => read_wire(b),
            None => None,
        },
        None => None,
    }
}

/// The fields of `c` are short enough for their length prefixes.
pub open spec fn step_fits(c: CaveatView) -> bool {
    match c {
        CaveatView::FirstParty { name, value } => encode_utf8(name).len() <= u32::MAX
            && encode_utf8(value).len() <= u32::MAX,
        CaveatView::ThirdParty { location, vid, cid } => encode_utf8(location).len() <= u32::MAX
            && vid.len() <= u32::MAX && cid.len() <= u32::MAX,
    }
}

/// Taking the type byte off a two-field step.
proof fn lemma_behind_type2(t: u8, p: Seq<u8>, q: Seq<u8>, rest: Seq<u8>)
    ensures
        (seq![t] + p + q + rest).skip(1) == p + (q + rest),
        (seq![t] + p + q + rest)[0] == t,
{
    assert((seq![t] + p + q + rest).skip(1) =~= p + (q + rest));
}

/// Taking the type byte off a three-field step.
proof fn lemma_behind_type3(t: u8, p: Seq<u8>, q: Seq<u8>, r: Seq<u8>, rest: Seq<u8>)
    ensures
        (seq![t] + p + q + r + rest).skip(1) == p + (q + (r + rest)),
        (seq![t] + p + q + r + rest)[0] == t,
{
    assert((seq![t] + p + q + r + rest).skip(1) =~= p + (q + (r + rest)));
}

/// A string field reads back as the string.
proof fn lemma_take_text(t: Seq<char>, rest: Seq<u8>)
    requires
        encode_utf8(t).len() <= u32::MAX,
    ensures
        take_text(bytes::prefixed(encode_utf8(t)) + rest) == Some((t, rest)),
{
    bytes::lemma_utf8(t);
    bytes::lemma_take_prefixed(encode_utf8(t), rest);
}

/// A byte field reads back as the bytes.
proof fn lemma_take_bytes(f: Seq<u8>, rest: Seq<u8>)
    requires
        f.len() <= u32::MAX,
    ensures
        take_bytes(bytes::prefixed(f) + rest) == Some((f, rest)),
{
    bytes::lemma_take_prefixed(f, rest);
}

/// The step of `c` reads back as `c`.
#[verifier::spinoff_prover]
pub proof fn lemma_take_step(c: CaveatView, rest: Seq<u8>)
    requires
        step_fits(c),
    ensures
        take_step(step_bytes(c) + rest) == Some((c, rest)),
        step_bytes(c).len() > 0,
{
    reveal(step_bytes);
    reveal(take_step);
    match c {
        CaveatView::FirstParty { name, value } => {
            let p = bytes::prefixed(encode_utf8(name));
            let q = bytes::prefixed(encode_utf8(value));
            lemma_behind_type2(0, p, q, rest);
            lemma_take_text(name, q + rest);
            lemma_take_text(value, rest);
        },
        CaveatView::ThirdParty { location, vid, cid } => {
            let p = bytes::prefixed(encode_utf8(location));
            let q = bytes::prefixed(vid);
            let r = bytes::prefixed(cid);
            lemma_behind_type3(1, p, q, r, rest);
            lemma_take_text(location, q + (r + rest));
            lemma_take_bytes(vid, r + rest);
            lemma_take_bytes(cid, rest);
        },
    }
}

/// The steps of a chain read back as the chain.
proof fn lemma_read_steps(c: Seq<CaveatView>)
    requires
        forall|i: int| 0 <= i < c.len() ==> step_fits(#[trigger] c[i]),
    ensures
        read_steps(steps_bytes(c)) == Some(c),
    decreases c.len(),
{
    if c.len() == 0 {
        assert(c =~= Seq::<CaveatView>::empty());
    } else {
        let d = c.drop_first();
        assert forall|i: int| 0 <= i < d.len() implies step_fits(#[trigger] d[i]) by {
            assert(d[i] == c[i + 1]);
        }
        lemma_read_steps(d);
        assert(step_fits(c[0]));
        lemma_take_step(c[0], steps_bytes(d));
        assert(seq![c[0]] + d =~= c);
    }
}

/// The bytes of a macaroon read back as that macaroon.
pub proof fn law_wire_round_trip(m: MacaroonView)
    requires
        m.nonce.len() == NONCE_LEN,
        m.tail.len() == 32,
        forall|i: int| 0 <= i < m.caveats.len() ==> step_fits(#[trigger] m.caveats[i]),
    ensures
        read_wire(wire_bytes(m)) == Some(m),
{
    let b = wire_bytes(m);
    let k = key_ref_bytes(m.key_ref);
    let s = steps_bytes(m.caveats);
    assert(k.len() == 3);
    assert(b[0] == k[0] && b[1] == k[1] && b[2] == k[2]);
    assert(b.subrange(3, 19) =~= m.nonce);
    assert(b.subrange(19, b.len() - 32) =~= s);
    assert(b.skip(b.len() - 32) =~= m.tail);
    lemma_read_steps(m.caveats);
}

/// Reading is unaffected by how much of the steps is behind already.
proof fn lemma_read_steps_head(b: Seq<u8>)
    requires
        b.len() > 0,
    ensures
        read_steps(b) == (match take_step(b) {
            Some((c, rest)) => match read_steps(rest) {
                Some(cs) => Some(seq![c] + cs),
                None => None,
            },
            None => None,
        }),
{
}

/// Reads the string field at `pos`.
fn read_text(b: &[u8], pos: usize, end: usize) -> (r: Option<(String, usize)>)
    requires
        pos <= end <= b@.len(),
    ensures
        match r {
            Some((s, next)) => pos <= next <= end && take_text(
                b@.subrange(pos as int, end as int),
            ) == Some((s@, b@.subrange(next as int, end as int))),
            None => take_text(b@.subrange(pos as int, end as int)) is None,
        },
{
    let head = bytes::slice(b, 0, end);
    assert(head@.skip(pos as int) =~= b@.subrange(pos as int, end as int));
    match bytes::read_field(&head, pos) {
        Ok((from, to)) => {
            assert(head@.skip(to as int) =~= b@.subrange(to as int, end as int));
            let field = bytes::slice(&head, from, to);
            match bytes::utf8_string(&field) {
                Some(s) => Some((s, to)),
                None => None,
            }
        },
        Err(_) => None,
    }
}

/// Reads the byte field at `pos`.
fn read_bytes(b: &[u8], pos: usize, end: usize) -> (r: Option<(Vec<u8>, usize)>)
    requires
        pos <= end <= b@.len(),
    ensures
        match r {
            Some((s, next)) => pos <= next <= end && take_bytes(
                b@.subrange(pos as int, end as int),
            ) == Some((s@, b@.subrange(next as int, end as int))),
            None => take_bytes(b@.subrange(pos as int, end as int)) is None,
        },
{
    let head = bytes::slice(b, 0, end);
    assert(head@.skip(pos as int) =~= b@.subrange(pos as int, end as int));
    match bytes::read_field(&head, pos) {
        Ok((from, to)) => {
            assert(head@.skip(to as int) =~= b@.subrange(to as int, end as int));
            Some((bytes::slice(&head, from, to), to))
        },
        Err(_) => None,
    }
}

/// Reads the chain step at `pos`.
fn read_step(b: &[u8], pos: usize, end: usize) -> (r: Option<(Caveat, usize)>)
    requires
        pos < end <= b@.len(),
    ensures
        match r {
            Some((c, next)) => pos < next <= end && take_step(
                b@.subrange(pos as int, end as int),
            ) == Some((c@, b@.subrange(next as int, end as int))),
            None => take_step(b@.subrange(pos as int, end as int)) is None,
        },
{
    let ghost s = b@.subrange(pos as int, end as int);
    proof {
        reveal(take_step);
    }
    assert(s.skip(1) =~= b@.subrange(pos + 1, end as int));
    assert(s[0] == b@[pos as int]);
    if b[pos] == 0 {
        match read_text(b, pos + 1, end) {
            Some((name, p1)) => match read_text(b, p1, end) {
                Some((value, p2)) => Some((Caveat::FirstParty { name, value }, p2)),
                None => None,
            },
            None => None,
        }
    } else if b[pos] == 1 {
        match read_text(b, pos + 1, end) {
            Some((location, p1)) => match read_bytes(b, p1, end) {
                Some((vid, p2)) => match read_bytes(b, p2, end) {
                    Some((cid, p3)) => Some((Caveat::ThirdParty { location, vid, cid }, p3)),
                    None => None,
                },
                None => None,
            },
            None => None,
        }
    } else {
        None
    }
}

impl Macaroon {
    /// The bytes of the token.
    fn to_bytes(&self) -> (r: Vec<u8>)
        ensures
            r@ == wire_bytes(self@),
    {
        let mut v = header(self.key_ref, &self.nonce);
        let ghost start = v@;
        let ghost all = caveat::chain(self.caveats@);
        let mut i: usize = 0;
        assert(all.skip(0) =~= all);
        while i < self.caveats.len()
            invariant
                i <= self.caveats@.len(),
                all == caveat::chain(self.caveats@),
                v@ + steps_bytes(all.skip(i as int)) == start + steps_bytes(all),
            decreases self.caveats@.len() - i,
        {
            let ghost done = v@;
            push_step(&mut v, &self.caveats[i]);
            proof {
                let t = all.skip(i as int);
                assert(t[0] == self.caveats@[i as int]@);
                assert(t.drop_first() =~= all.skip(i + 1));
                assert(v@ + steps_bytes(all.skip(i + 1)) =~= done + steps_bytes(t));
            }
            i = i + 1;
        }
        assert(steps_bytes(all.skip(all.len() as int)) =~= Seq::<u8>::empty());
        assert(v@ =~= start + steps_bytes(all));
        bytes::append(&mut v, &self.tail);
        v
    }

    /// The token's text. It decodes to this macaroon, where every field
    /// of its caveats fits its length prefix.
    pub fn encode(&self) -> (r: String)
        ensures
            r@ == token_of(self@),
            forall|i: int| 0 <= i < r@.len() ==> crypto::base64url_char(#[trigger] r@[i]),
            (forall|i: int|
                0 <= i < self@.caveats.len() ==> step_fits(#[trigger] self@.caveats[i]))
                ==> read_token(r@) == Some(self@),
    {
        let b = self.to_bytes();
        let payload = crypto::base64url_encode(&b);
        let r = text::concat(TOKEN_PREFIX, payload.as_str());
        proof {
            reveal_strlit("mnt2_");
            assert(forall|i: int|
                0 <= i < TOKEN_PREFIX@.len() ==> crypto::base64url_char(#[trigger] TOKEN_PREFIX@[i]));
            assert(r@.subrange(0, TOKEN_PREFIX@.len() as int) =~= TOKEN_PREFIX@);
            assert(r@.skip(TOKEN_PREFIX@.len() as int) =~= payload@);
            if forall|i: int|
                0 <= i < self@.caveats.len() ==> step_fits(#[trigger] self@.caveats[i]) {
                law_wire_round_trip(self@);
            }
        }
        r
    }

    /// The macaroon that a token's text writes.
    pub fn decode(token: &str) -> (r: Result<Macaroon, MacaroonError>)
        ensures
            match r {
                Ok(m) => read_token(token@) == Some(m@),
                Err(_) => read_token(token@) is None,
            },
    {
        let payload = match text::strip_prefix(token, TOKEN_PREFIX) {
            Some(p) => p,
            None => {
                return Err(MacaroonError::Malformed);
            },
        };
        let b = match crypto::base64url_decode(payload.as_str()) {
            Some(b) => b,
            None => {
                return Err(MacaroonError::Malformed);
            },
        };
        if b.len() < 51 {
            return Err(MacaroonError::Malformed);
        }
        let key_ref = if b[0] == 0 {
            KeyRef::Keyring((b[1] as u16) * 256 + b[2] as u16)
        } else if b[0] == 1 && b[1] == 0 && b[2] == 0 {
            KeyRef::Session
        } else if b[0] == 2 && b[1] == 0 && b[2] == 0 {
            KeyRef::Discharge
        } else {
            return Err(MacaroonError::Malformed);
        };
        let nonce = bytes::array16(&b, 3);
        let end: usize = b.len() - 32;
        let tail = bytes::array32(&b, end);
        assert(tail@ =~= b@.skip(end as int));
        let mut caveats: Vec<Caveat> = Vec::new();
        let mut pos: usize = 19;
        let ghost steps = b@.subrange(19, end as int);
        proof {
            if let Some(cs) = read_steps(steps) {
                assert(caveat::chain(caveats@) + cs =~= cs);
            }
        }
        while pos < end
            invariant
                19 <= pos <= end <= b@.len(),
                read_steps(steps) == (match read_steps(b@.subrange(pos as int, end as int)) {
                    Some(cs) => Some(caveat::chain(caveats@) + cs),
                    None => None,
                }),
                read_steps(steps) is None ==> read_token(token@) is None,
            decreases end - pos,
        {
            proof {
                lemma_read_steps_head(b@.subrange(pos as int, end as int));
            }
            match read_step(&b, pos, end) {
                Some((c, next)) => {
                    let ghost done = caveat::chain(caveats@);
                    caveats.push(c);
                    proof {
                        assert(caveat::chain(caveats@) =~= done.push(c@));
                        if let Some(cs) = read_steps(b@.subrange(next as int, end as int)) {
                            assert(done + (seq![c@] + cs) =~= caveat::chain(caveats@) + cs);
                        }
                    }
                    pos = next;
                },
                None => {
                    return Err(MacaroonError::Malformed);
                },
            }
        }
        proof {
            assert(b@.subrange(end as int, end as int) =~= Seq::<u8>::empty());
            assert(caveat::chain(caveats@) + Seq::<CaveatView>::empty() =~= caveat::chain(
                caveats@,
            ));
        }
        Ok(Macaroon { key_ref, nonce, caveats, tail })
    }
}

} // verus!
