//! Macaroons: what a tag covers.

use crate::caveat::CaveatView;
use crate::crypto;
use crate::keyring::KeyringView;
use crate::macaroon;
use crate::macaroon::{KeyRef, MacaroonView};
use crate::tpc;
use vstd::prelude::*;

verus! {

/// Each caveat is hashed under the tag before it, whatever its kind, and the
/// first under the key, over what the token says of its key and its nonce.
pub proof fn law_each_caveat_is_hashed(
    key: Seq<u8>,
    key_ref: KeyRef,
    nonce: Seq<u8>,
    c: Seq<CaveatView>,
    x: CaveatView,
)
    ensures
        macaroon::minted(key, key_ref, nonce, Seq::empty()).tail == crypto::blake3_keyed(
            key,
            macaroon::key_ref_bytes(key_ref) + nonce,
        ),
        macaroon::minted(key, key_ref, nonce, c.push(x)).tail == crypto::blake3_keyed(
            macaroon::minted(key, key_ref, nonce, c).tail,
            macaroon::step_bytes(x),
        ),
        macaroon::minted(key, key_ref, nonce, c).caveats == c,
        macaroon::minted(key, key_ref, nonce, c).nonce == nonce,
        macaroon::minted(key, key_ref, nonce, c).key_ref == key_ref,
{
    assert(c.push(x).drop_last() =~= c);
    assert(c.push(x).last() == x);
}

/// Attenuating appends one caveat and hashes it under the tail: the key, the
/// nonce and the caveats before it stay.
pub proof fn law_attenuating_appends_one_caveat(m: MacaroonView, x: CaveatView)
    ensures
        macaroon::extended(m, x).caveats == m.caveats.push(x),
        macaroon::extended(m, x).nonce == m.nonce,
        macaroon::extended(m, x).key_ref == m.key_ref,
        macaroon::extended(m, x).tail == crypto::blake3_keyed(m.tail, macaroon::step_bytes(x)),
{
}

/// What is hashed of a caveat is all of it: two caveats of the same bytes
/// are the same.
pub proof fn law_a_step_pins_its_caveat(x: CaveatView, y: CaveatView)
    requires
        macaroon::step_fits(x),
        macaroon::step_fits(y),
        macaroon::step_bytes(x) == macaroon::step_bytes(y),
    ensures
        x == y,
{
    let none = Seq::<u8>::empty();
    macaroon::lemma_take_step(x, none);
    macaroon::lemma_take_step(y, none);
}

/// What is hashed of a key reference is all of it.
pub proof fn law_a_header_pins_its_key(a: KeyRef, b: KeyRef)
    requires
        macaroon::key_ref_bytes(a) == macaroon::key_ref_bytes(b),
    ensures
        a == b,
{
    let x = macaroon::key_ref_bytes(a);
    let y = macaroon::key_ref_bytes(b);
    assert(x[0] == y[0] && x[1] == y[1] && x[2] == y[2]);
}

/// A token is honoured exactly under the generation that it names, where
/// that is in the ring and its tail is the one that its caveats hash to.
pub proof fn law_a_token_is_honoured_under_its_generation(
    m: MacaroonView,
    ring: KeyringView,
    key: Seq<u8>,
)
    ensures
        macaroon::verifies(m, ring) <==> (m.key_ref matches KeyRef::Keyring(kid)
            && ring.keys.contains_key(kid) && m.tail == macaroon::minted(
            ring.keys[kid],
            m.key_ref,
            m.nonce,
            m.caveats,
        ).tail),
        macaroon::authentic(m, key) <==> m == macaroon::minted(key, m.key_ref, m.nonce, m.caveats),
{
}

/// The places at which a discharge is asked for are the third-party caveats,
/// in their order, each with the tag that was current before it.
pub proof fn law_sites_are_the_third_party_caveats(
    seed: Seq<u8>,
    c: Seq<CaveatView>,
    x: CaveatView,
)
    ensures
        x is FirstParty ==> macaroon::sites_of(seed, c.push(x)) == macaroon::sites_of(seed, c),
        x matches CaveatView::ThirdParty { vid, cid, .. } ==> macaroon::sites_of(seed, c.push(x))
            == macaroon::sites_of(seed, c).push(
            macaroon::SiteView { tag: macaroon::chain_tag(seed, c), vid, cid },
        ),
        macaroon::sites_of(seed, Seq::empty()).len() == 0,
{
    assert(c.push(x).drop_last() =~= c);
    assert(c.push(x).last() == x);
}

/// A token reads back from its text, and what is no such text is no token.
pub proof fn law_tokens_have_their_prefix(m: MacaroonView, t: Seq<char>)
    ensures
        "mnt2_"@.is_prefix_of(macaroon::token_of(m)),
        macaroon::read_token(t) is Some ==> "mnt2_"@.is_prefix_of(t),
{
}

/// A discharge is named by the first half of the hash of what it answers.
pub proof fn law_tickets_are_hashes(cid: Seq<u8>)
    ensures
        tpc::ticket(cid) == crypto::blake3_hash(cid).take(16),
{
}

/// What is sealed opens under its key alone, behind its own nonce.
pub proof fn law_sealed_opens_under_its_key(key: Seq<u8>, plain: Seq<u8>, sealed: Seq<u8>)
    requires
        tpc::seals(key, plain, sealed),
    ensures
        tpc::opened(key, sealed) == Some(plain),
        crypto::chacha_open(key, sealed.take(12), sealed.skip(12)) == Some(plain),
        plain.len() == 32 ==> tpc::recovered(key, sealed) == Ok::<Seq<u8>, tpc::TpcError>(plain),
        plain.len() != 32 ==> tpc::recovered(key, sealed) is Err,
{
}

/// Where a caveat's authority is asked: at the path of its location, where
/// that is more than the root.
pub proof fn law_authorities_are_asked_at_their_path(path: Option<Seq<char>>)
    ensures
        tpc::request_path(path) is Some <==> (path matches Some(p) && p.len() > 0 && p != "/"@),
        tpc::request_path(path) is Some ==> tpc::request_path(path) == path,
{
}

} // verus!
