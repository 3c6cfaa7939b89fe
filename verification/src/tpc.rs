//! Third-party caveat primitives: the sealed `(vid, cid)` payload that is
//! stamped onto anchors and credentials.
//!
//! A fresh random `r`, the discharge key, is drawn for each caveat and
//! sealed twice: in `vid` under the chain tag at the caveat's position, so
//! that the verifier recovers it from the chain alone, and in `cid` under
//! the key shared with the discharging authority, beside the identity
//! strings. Every variable field of the `cid` is length-prefixed. A seal
//! is ChaCha20-Poly1305: a random 12-byte nonce, then the ciphertext.

use crate::bytes;
use crate::bytes::FieldError;
use crate::caveat::{Caveat, CaveatView};
use crate::crypto;
use crate::text;
use vstd::prelude::*;
use vstd::utf8::*;

verus! {

/// AEAD nonce length: every sealed `vid` and `cid` carries its nonce as
/// the leading bytes.
pub const AEAD_NONCE_LEN: usize = 12;

/// Why a decryption or a parse failed.
#[derive(Debug, Clone, Copy, PartialEq, Eq, Structural)]
pub enum TpcError {
    /// The seal does not authenticate, or is shorter than a nonce.
    Aead,
    /// The plaintext ends inside a fixed-size field.
    Truncated,
    /// A length-prefixed field claims a length past the end.
    Overrun,
    /// A string field is not UTF-8.
    BadUtf8,
    /// Bytes are left behind the last field.
    Trailing,
}

/// The identity that a discharge carries so that the verifier pairs it
/// with the caveat it answers: derived from the `cid`.
pub open spec fn ticket(cid: Seq<u8>) -> Seq<u8> {
    crypto::blake3_hash(cid).take(16)
}

/// The ticket id of a `cid`: what a discharge for it has as its nonce.
pub fn ticket_id(cid: &[u8]) -> (r: [u8; 16])
    ensures
        r@ == ticket(cid@),
{
    let h = crypto::hash(cid);
    let r = bytes::array16(&h, 0);
    assert(r@ =~= h@.take(16));
    r
}

/// The plaintext of a seal under `key`, where it authenticates.
pub open spec fn opened(key: Seq<u8>, sealed: Seq<u8>) -> Option<Seq<u8>> {
    if sealed.len() < 12 {
        None
    } else {
        crypto::chacha_open(key, sealed.take(12), sealed.skip(12))
    }
}

/// `sealed` is a seal of `plaintext` under `key`, with its leading bytes
/// as the nonce.
pub open spec fn seals(key: Seq<u8>, plaintext: Seq<u8>, sealed: Seq<u8>) -> bool {
    &&& sealed.len() >= 12
    &&& sealed == sealed.take(12) + crypto::chacha_seal(key, sealed.take(12), plaintext)
    &&& opened(key, sealed) == Some(plaintext)
}

/// Seals `plaintext` under `key` with this nonce.
fn aead_encrypt_with_nonce(key: &[u8; 32], nonce: &[u8; 12], plaintext: &[u8]) -> (r: Vec<u8>)
    requires
        plaintext@.len() < crypto::SEAL_LIMIT,
    ensures
        seals(key@, plaintext@, r@),
        r@ == nonce@ + crypto::chacha_seal(key@, nonce@, plaintext@),
{
    let c = crypto::seal(key, nonce, plaintext);
    let mut r: Vec<u8> = Vec::new();
    bytes::append(&mut r, nonce);
    bytes::append(&mut r, &c);
    proof {
        assert(r@.take(12) =~= nonce@);
        assert(r@.skip(12) =~= c@);
        assert(r@ =~= nonce@ + c@);
    }
    r
}

/// Seals `plaintext` under `key` with a fresh random nonce.
fn aead_encrypt(key: &[u8; 32], plaintext: &[u8]) -> (r: Vec<u8>)
    requires
        plaintext@.len() < crypto::SEAL_LIMIT,
    ensures
        seals(key@, plaintext@, r@),
{
    let nonce = bytes::array12(&crypto::random_bytes(12), 0);
    aead_encrypt_with_nonce(key, &nonce, plaintext)
}

/// Opens a seal under `key`.
fn aead_decrypt(key: &[u8; 32], sealed: &[u8]) -> (r: Result<Vec<u8>, TpcError>)
    ensures
        match r {
            Ok(p) => seals(key@, p@, sealed@),
            Err(e) => opened(key@, sealed@) is None && e == TpcError::Aead,
        },
{
    if sealed.len() < AEAD_NONCE_LEN {
        return Err(TpcError::Aead);
    }
    let nonce = bytes::array12(sealed, 0);
    let c = bytes::slice(sealed, 12, sealed.len());
    proof {
        assert(nonce@ =~= sealed@.take(12));
        assert(c@ =~= sealed@.skip(12));
    }
    match crypto::open(key, &nonce, &c) {
        Some(p) => {
            assert(sealed@ =~= sealed@.take(12) + sealed@.skip(12));
            Ok(p)
        },
        None => Err(TpcError::Aead),
    }
}

/// Seals `r` under the chain tag at the caveat's position.
pub fn encrypt_vid(t_n_minus_1: &[u8; 32], r: &[u8; 32]) -> (vid: Vec<u8>)
    ensures
        seals(t_n_minus_1@, r@, vid@),
{
    aead_encrypt(t_n_minus_1, r)
}

/// What a `vid` gives under a chain tag: the 32 bytes that were sealed.
pub open spec fn recovered(tag: Seq<u8>, vid: Seq<u8>) -> Result<Seq<u8>, TpcError> {
    match opened(tag, vid) {
        Some(p) => if p.len() == 32 {
            Ok(p)
        } else {
            Err(TpcError::Truncated)
        },
        None => Err(TpcError::Aead),
    }
}

/// Opens a `vid` under the chain tag at the caveat's position: the
/// discharge key `r`.
pub fn decrypt_vid(t_n_minus_1: &[u8; 32], vid: &[u8]) -> (r: Result<[u8; 32], TpcError>)
    ensures
        match r {
            Ok(k) => recovered(t_n_minus_1@, vid@) == Ok::<Seq<u8>, TpcError>(k@) && seals(
                t_n_minus_1@,
                k@,
                vid@,
            ),
            Err(e) => recovered(t_n_minus_1@, vid@) == Err::<Seq<u8>, TpcError>(e),
        },
{
    match aead_decrypt(t_n_minus_1, vid) {
        Ok(p) => {
            if p.len() != 32 {
                return Err(TpcError::Truncated);
            }
            let k = bytes::array32(&p, 0);
            assert(k@ =~= p@);
            Ok(k)
        },
        Err(e) => Err(e),
    }
}

/// A string field.
pub open spec fn text_field(s: Seq<char>) -> Seq<u8> {
    bytes::prefixed(encode_utf8(s))
}

/// `r`, then the two identity strings.
pub open spec fn cid_layout(r: Seq<u8>, client_id: Seq<char>, org_id: Seq<char>) -> Seq<u8> {
    r + text_field(client_id) + text_field(org_id)
}

/// `r`, then the two identity strings and the mode.
pub open spec fn attested_layout(
    r: Seq<u8>,
    client_id: Seq<char>,
    org_id: Seq<char>,
    mode: Seq<char>,
) -> Seq<u8> {
    r + text_field(client_id) + text_field(org_id) + text_field(mode)
}

/// The plaintext of a `cid`.
pub fn cid_plaintext(r: &[u8; 32], client_id: &str, org_id: &str) -> (p: Vec<u8>)
    ensures
        p@ == cid_layout(r@, client_id@, org_id@),
{
    let mut p: Vec<u8> = Vec::new();
    bytes::append(&mut p, r);
    assert(p@ =~= r@);
    bytes::push_prefixed(&mut p, client_id.as_bytes());
    bytes::push_prefixed(&mut p, org_id.as_bytes());
    p
}

/// The plaintext of an attested `cid`.
pub fn attested_cid_plaintext(
    r: &[u8; 32],
    client_id: &str,
    org_id: &str,
    mode: &str,
) -> (p: Vec<u8>)
    ensures
        p@ == attested_layout(r@, client_id@, org_id@, mode@),
{
    let mut p = cid_plaintext(r, client_id, org_id);
    bytes::push_prefixed(&mut p, mode.as_bytes());
    p
}

/// The identity strings are short enough to be sealed.
pub open spec fn sealable(client_id: Seq<char>, org_id: Seq<char>, mode: Seq<char>) -> bool {
    encode_utf8(client_id).len() + encode_utf8(org_id).len() + encode_utf8(mode).len() + 44
        < crypto::SEAL_LIMIT
}

/// Whether the identity strings are short enough to be sealed.
pub fn is_sealable(client_id: &str, org_id: &str, mode: &str) -> (r: bool)
    ensures
        r == sealable(client_id@, org_id@, mode@),
{
    (client_id.as_bytes().len() as u128) + (org_id.as_bytes().len() as u128) + (
    mode.as_bytes().len() as u128) + 44 < crypto::SEAL_LIMIT as u128
}

/// Seals `r ‖ lp(client_id) ‖ lp(org_id)` under the authority's key.
pub fn encrypt_cid(k_m_a: &[u8; 32], r: &[u8; 32], client_id: &str, org_id: &str) -> (cid: Vec<u8>)
    requires
        sealable(client_id@, org_id@, Seq::empty()),
    ensures
        seals(k_m_a@, cid_layout(r@, client_id@, org_id@), cid@),
{
    aead_encrypt(k_m_a, &cid_plaintext(r, client_id, org_id))
}

/// Seals `r ‖ lp(client_id) ‖ lp(org_id) ‖ lp(mode)` under the attesting
/// authority's key. The mode is carried verbatim and never interpreted.
pub fn encrypt_cid_attested(
    k_m_b: &[u8; 32],
    r: &[u8; 32],
    client_id: &str,
    org_id: &str,
    mode: &str,
) -> (cid: Vec<u8>)
    requires
        sealable(client_id@, org_id@, mode@),
    ensures
        seals(k_m_b@, attested_layout(r@, client_id@, org_id@, mode@), cid@),
{
    aead_encrypt(k_m_b, &attested_cid_plaintext(r, client_id, org_id, mode))
}

/// As [`encrypt_cid_attested`] with the caller's nonce, for callers that
/// need deterministic bytes.
pub fn encrypt_cid_attested_with_nonce(
    k_m_b: &[u8; 32],
    nonce: &[u8; 12],
    r: &[u8; 32],
    client_id: &str,
    org_id: &str,
    mode: &str,
) -> (cid: Vec<u8>)
    requires
        sealable(client_id@, org_id@, mode@),
    ensures
        seals(k_m_b@, attested_layout(r@, client_id@, org_id@, mode@), cid@),
        cid@ == nonce@ + crypto::chacha_seal(
            k_m_b@,
            nonce@,
            attested_layout(r@, client_id@, org_id@, mode@),
        ),
{
    aead_encrypt_with_nonce(k_m_b, nonce, &attested_cid_plaintext(r, client_id, org_id, mode))
}

/// The plaintext bound into a `cid` by [`encrypt_cid`].
#[derive(Debug, PartialEq, Eq)]
pub struct CidPlaintext {
    pub r: [u8; 32],
    pub client_id: String,
    pub org_id: String,
}

/// The plaintext bound into an attested `cid`.
#[derive(Debug, PartialEq, Eq)]
pub struct AttestedCidPlaintext {
    pub r: [u8; 32],
    pub client_id: String,
    pub org_id: String,
    pub mode: String,
}

/// The plaintext of a `cid` as a mathematical value; `mode` is empty in
/// the layout without one.
#[verifier::ext_equal]
pub struct CidView {
    pub r: Seq<u8>,
    pub client_id: Seq<char>,
    pub org_id: Seq<char>,
    pub mode: Seq<char>,
}

impl View for CidPlaintext {
    type V = CidView;

    open spec fn view(&self) -> CidView {
        CidView {
            r: self.r@,
            client_id: self.client_id@,
            org_id: self.org_id@,
            mode: Seq::empty(),
        }
    }
}

impl View for AttestedCidPlaintext {
    type V = CidView;

    open spec fn view(&self) -> CidView {
        CidView {
            r: self.r@,
            client_id: self.client_id@,
            org_id: self.org_id@,
            mode: self.mode@,
        }
    }
}

/// The string at the head of `b` and what follows it.
pub open spec fn take_str(b: Seq<u8>) -> Result<(Seq<char>, Seq<u8>), TpcError> {
    match bytes::take_field(b) {
        Err(FieldError::Truncated) => Err(TpcError::Truncated),
        Err(FieldError::Overrun) => Err(TpcError::Overrun),
        Ok((f, rest)) => if valid_utf8(f) {
            Ok((decode_utf8(f), rest))
        } else {
            Err(TpcError::BadUtf8)
        },
    }
}

/// The fields of a `cid` plaintext.
pub open spec fn read_cid(b: Seq<u8>) -> Result<CidView, TpcError> {
    if b.len() < 32 {
        Err(TpcError::Truncated)
    } else {
        match take_str(b.skip(32)) {
            Err(e) => Err(e),
            Ok((client_id, b1)) => match take_str(b1) {
                Err(e) => Err(e),
                Ok((org_id, b2)) => if b2.len() > 0 {
                    Err(TpcError::Trailing)
                } else {
                    Ok(CidView { r: b.take(32), client_id, org_id, mode: Seq::empty() })
                },
            },
        }
    }
}

/// The fields of an attested `cid` plaintext.
pub open spec fn read_attested(b: Seq<u8>) -> Result<CidView, TpcError> {
    if b.len() < 32 {
        Err(TpcError::Truncated)
    } else {
        match take_str(b.skip(32)) {
            Err(e) => Err(e),
            Ok((client_id, b1)) => match take_str(b1) {
                Err(e) => Err(e),
                Ok((org_id, b2)) => match take_str(b2) {
                    Err(e) => Err(e),
                    Ok((mode, b3)) => if b3.len() > 0 {
                        Err(TpcError::Trailing)
                    } else {
                        Ok(CidView { r: b.take(32), client_id, org_id, mode })
                    },
                },
            },
        }
    }
}

/// Reads the string field at `pos`: the string, and where what follows
/// it begins.
fn read_length_prefixed_str(buf: &[u8], pos: usize) -> (r: Result<(String, usize), TpcError>)
    requires
        pos <= buf@.len(),
    ensures
        match r {
            Ok((s, next)) => next <= buf@.len() && take_str(buf@.skip(pos as int)) == Ok::<
                (Seq<char>, Seq<u8>),
                TpcError,
            >((s@, buf@.skip(next as int))),
            Err(e) => take_str(buf@.skip(pos as int)) == Err::<(Seq<char>, Seq<u8>), TpcError>(e),
        },
{
    match bytes::read_field(buf, pos) {
        Err(FieldError::Truncated) => Err(TpcError::Truncated),
        Err(FieldError::Overrun) => Err(TpcError::Overrun),
        Ok((from, to)) => match bytes::utf8_string(&bytes::slice(buf, from, to)) {
            Some(s) => Ok((s, to)),
            None => Err(TpcError::BadUtf8),
        },
    }
}

fn parse_cid_plaintext(buf: &[u8]) -> (r: Result<CidPlaintext, TpcError>)
    ensures
        match r {
            Ok(p) => read_cid(buf@) == Ok::<CidView, TpcError>(p@),
            Err(e) => read_cid(buf@) == Err::<CidView, TpcError>(e),
        },
{
    if buf.len() < 32 {
        return Err(TpcError::Truncated);
    }
    let r = bytes::array32(buf, 0);
    assert(r@ =~= buf@.take(32));
    let (client_id, p1) = match read_length_prefixed_str(buf, 32) {
        Ok(x) => x,
        Err(e) => {
            return Err(e);
        },
    };
    let (org_id, p2) = match read_length_prefixed_str(buf, p1) {
        Ok(x) => x,
        Err(e) => {
            return Err(e);
        },
    };
    if p2 != buf.len() {
        return Err(TpcError::Trailing);
    }
    Ok(CidPlaintext { r, client_id, org_id })
}

fn parse_attested_cid_plaintext(buf: &[u8]) -> (r: Result<AttestedCidPlaintext, TpcError>)
    ensures
        match r {
            Ok(p) => read_attested(buf@) == Ok::<CidView, TpcError>(p@),
            Err(e) => read_attested(buf@) == Err::<CidView, TpcError>(e),
        },
{
    if buf.len() < 32 {
        return Err(TpcError::Truncated);
    }
    let r = bytes::array32(buf, 0);
    assert(r@ =~= buf@.take(32));
    let (client_id, p1) = match read_length_prefixed_str(buf, 32) {
        Ok(x) => x,
        Err(e) => {
            return Err(e);
        },
    };
    let (org_id, p2) = match read_length_prefixed_str(buf, p1) {
        Ok(x) => x,
        Err(e) => {
            return Err(e);
        },
    };
    let (mode, p3) = match read_length_prefixed_str(buf, p2) {
        Ok(x) => x,
        Err(e) => {
            return Err(e);
        },
    };
    if p3 != buf.len() {
        return Err(TpcError::Trailing);
    }
    Ok(AttestedCidPlaintext { r, client_id, org_id, mode })
}

/// What a `cid` gives under the authority's key.
pub open spec fn cid_contents(key: Seq<u8>, cid: Seq<u8>) -> Result<CidView, TpcError> {
    match opened(key, cid) {
        Some(p) => read_cid(p),
        None => Err(TpcError::Aead),
    }
}

/// What an attested `cid` gives under the authority's key.
pub open spec fn attested_contents(key: Seq<u8>, cid: Seq<u8>) -> Result<CidView, TpcError> {
    match opened(key, cid) {
        Some(p) => read_attested(p),
        None => Err(TpcError::Aead),
    }
}

/// Opens a `cid` under the authority's key: `r` and the identity strings.
pub fn decrypt_cid(k_m_a: &[u8; 32], cid: &[u8]) -> (r: Result<CidPlaintext, TpcError>)
    ensures
        match r {
            Ok(p) => cid_contents(k_m_a@, cid@) == Ok::<CidView, TpcError>(p@),
            Err(e) => cid_contents(k_m_a@, cid@) == Err::<CidView, TpcError>(e),
        },
{
    match aead_decrypt(k_m_a, cid) {
        Ok(p) => parse_cid_plaintext(&p),
        Err(e) => Err(e),
    }
}

/// Opens an attested `cid` under the attesting authority's key.
pub fn decrypt_cid_attested(k_m_b: &[u8; 32], cid: &[u8]) -> (r: Result<
    AttestedCidPlaintext,
    TpcError,
>)
    ensures
        match r {
            Ok(p) => attested_contents(k_m_b@, cid@) == Ok::<CidView, TpcError>(p@),
            Err(e) => attested_contents(k_m_b@, cid@) == Err::<CidView, TpcError>(e),
        },
{
    match aead_decrypt(k_m_b, cid) {
        Ok(p) => parse_attested_cid_plaintext(&p),
        Err(e) => Err(e),
    }
}

/// `c` is a third-party caveat at `location` that seals the discharge key
/// `r` under the chain tag in its `vid`, and `plaintext` under the
/// authority's key in its `cid`.
pub open spec fn binds(
    c: CaveatView,
    location: Seq<char>,
    tag: Seq<u8>,
    r: Seq<u8>,
    key: Seq<u8>,
    plaintext: Seq<u8>,
) -> bool {
    c matches CaveatView::ThirdParty { location: l, vid, cid } && l == location && r.len() == 32
        && seals(tag, r, vid) && seals(key, plaintext, cid)
}

/// Builds the third-party caveat to append at issuance, drawing a fresh
/// `r` for it. `tail` is the chain tag at the appending position.
pub fn build_caveat(
    tail: &[u8; 32],
    k_m_a: &[u8; 32],
    client_id: &str,
    org_id: &str,
    location: &str,
) -> (c: Caveat)
    requires
        sealable(client_id@, org_id@, Seq::empty()),
    ensures
        exists|r: Seq<u8>| #[trigger]
            binds(c@, location@, tail@, r, k_m_a@, cid_layout(r, client_id@, org_id@)),
{
    let r = crypto::random32();
    let c = Caveat::ThirdParty {
        location: text::owned(location),
        vid: encrypt_vid(tail, &r),
        cid: encrypt_cid(k_m_a, &r, client_id, org_id),
    };
    assert(binds(c@, location@, tail@, r@, k_m_a@, cid_layout(r@, client_id@, org_id@)));
    c
}

/// Builds the attested third-party caveat to append at credential
/// issuance, drawing a fresh `r` for it.
pub fn build_caveat_attested(
    tail: &[u8; 32],
    k_m_b: &[u8; 32],
    client_id: &str,
    org_id: &str,
    mode: &str,
    location: &str,
) -> (c: Caveat)
    requires
        sealable(client_id@, org_id@, mode@),
    ensures
        exists|r: Seq<u8>| #[trigger]
            binds(c@, location@, tail@, r, k_m_b@, attested_layout(r, client_id@, org_id@, mode@)),
{
    let r = crypto::random32();
    let c = Caveat::ThirdParty {
        location: text::owned(location),
        vid: encrypt_vid(tail, &r),
        cid: encrypt_cid_attested(k_m_b, &r, client_id, org_id, mode),
    };
    assert(binds(c@, location@, tail@, r@, k_m_b@, attested_layout(r@, client_id@, org_id@, mode@)));
    c
}

/// The path of a URI, where the text parses as one.
pub uninterp spec fn uri_path(location: Seq<char>) -> Option<Seq<char>>;

/// `hyper::Uri` from a string, and `Uri::path` of it.
#[verifier::external_body]
fn parse_uri_path(location: &str) -> (r: Option<String>)
    ensures
        match r {
            Some(p) => uri_path(location@) == Some(p@),
            None => uri_path(location@) is None,
        },
{
    location.parse::<hyper::Uri>().ok().map(|u| u.path().to_string())
}

/// The request path among the parsed paths: none where it is empty or
/// only the root.
pub open spec fn request_path(path: Option<Seq<char>>) -> Option<Seq<char>> {
    match path {
        Some(p) if p.len() > 0 && p != "/"@ => Some(p),
        _ => None,
    }
}

/// The request path of a parsed URI path: none where it is empty or only
/// the root.
pub fn usable_path(path: Option<String>) -> (r: Option<String>)
    ensures
        match r {
            Some(s) => path is Some && request_path(Some(path->0@)) == Some(s@),
            None => path is None || request_path(Some(path->0@)) is None,
        },
{
    match path {
        Some(p) => if p.as_str().is_empty() || text::same(p.as_str(), "/") {
            None
        } else {
            Some(p)
        },
        None => None,
    }
}

/// The request path of a caveat's `location` (a full URL). Its host is
/// never dialed, so only the path is taken. `None` if the location does
/// not parse as a URI or carries no path.
pub fn location_path(location: &str) -> (r: Option<String>)
    ensures
        match r {
            Some(s) => request_path(uri_path(location@)) == Some(s@),
            None => request_path(uri_path(location@)) is None,
        },
{
    usable_path(parse_uri_path(location))
}

/// The string fits its length prefix.
pub open spec fn fits(s: Seq<char>) -> bool {
    encode_utf8(s).len() <= u32::MAX
}

proof fn lemma_take_str(s: Seq<char>, rest: Seq<u8>)
    requires
        fits(s),
    ensures
        take_str(text_field(s) + rest) == Ok::<(Seq<char>, Seq<u8>), TpcError>((s, rest)),
{
    bytes::lemma_utf8(s);
    bytes::lemma_take_prefixed(encode_utf8(s), rest);
}

/// The plaintext of a `cid` reads back as its fields.
pub proof fn law_cid_layout_round_trip(r: Seq<u8>, client_id: Seq<char>, org_id: Seq<char>)
    requires
        r.len() == 32,
        fits(client_id),
        fits(org_id),
    ensures
        read_cid(cid_layout(r, client_id, org_id)) == Ok::<CidView, TpcError>(
            CidView { r, client_id, org_id, mode: Seq::empty() },
        ),
{
    let b = cid_layout(r, client_id, org_id);
    let p = text_field(client_id);
    let q = text_field(org_id);
    let e = Seq::<u8>::empty();
    assert(b.skip(32) =~= p + (q + e));
    assert(b.take(32) =~= r);
    lemma_take_str(client_id, q + e);
    lemma_take_str(org_id, e);
}

/// The plaintext of an attested `cid` reads back as its fields.
pub proof fn law_attested_layout_round_trip(
    r: Seq<u8>,
    client_id: Seq<char>,
    org_id: Seq<char>,
    mode: Seq<char>,
)
    requires
        r.len() == 32,
        fits(client_id),
        fits(org_id),
        fits(mode),
    ensures
        read_attested(attested_layout(r, client_id, org_id, mode)) == Ok::<CidView, TpcError>(
            CidView { r, client_id, org_id, mode },
        ),
{
    let b = attested_layout(r, client_id, org_id, mode);
    let p = text_field(client_id);
    let q = text_field(org_id);
    let m = text_field(mode);
    let e = Seq::<u8>::empty();
    assert(b.skip(32) =~= p + (q + (m + e)));
    assert(b.take(32) =~= r);
    lemma_take_str(client_id, q + (m + e));
    lemma_take_str(org_id, m + e);
    lemma_take_str(mode, e);
}

/// Different fields give different plaintexts.
pub proof fn law_cid_layout_is_injective(
    r1: Seq<u8>,
    c1: Seq<char>,
    o1: Seq<char>,
    r2: Seq<u8>,
    c2: Seq<char>,
    o2: Seq<char>,
)
    requires
        r1.len() == 32,
        r2.len() == 32,
        fits(c1),
        fits(o1),
        fits(c2),
        fits(o2),
        cid_layout(r1, c1, o1) == cid_layout(r2, c2, o2),
    ensures
        r1 == r2 && c1 == c2 && o1 == o2,
{
    law_cid_layout_round_trip(r1, c1, o1);
    law_cid_layout_round_trip(r2, c2, o2);
}

/// Different fields, the mode among them, give different attested
/// plaintexts.
pub proof fn law_attested_layout_is_injective(
    r1: Seq<u8>,
    c1: Seq<char>,
    o1: Seq<char>,
    m1: Seq<char>,
    r2: Seq<u8>,
    c2: Seq<char>,
    o2: Seq<char>,
    m2: Seq<char>,
)
    requires
        r1.len() == 32,
        r2.len() == 32,
        fits(c1),
        fits(o1),
        fits(m1),
        fits(c2),
        fits(o2),
        fits(m2),
        attested_layout(r1, c1, o1, m1) == attested_layout(r2, c2, o2, m2),
    ensures
        r1 == r2 && c1 == c2 && o1 == o2 && m1 == m2,
{
    law_attested_layout_round_trip(r1, c1, o1, m1);
    law_attested_layout_round_trip(r2, c2, o2, m2);
}

/// A seal determines what it seals: no two plaintexts share one under a
/// key.
pub proof fn law_seal_is_injective(key: Seq<u8>, p1: Seq<u8>, p2: Seq<u8>, sealed: Seq<u8>)
    requires
        seals(key, p1, sealed),
        seals(key, p2, sealed),
    ensures
        p1 == p2,
{
}

/// A `vid` gives its own key and an altered one does not: what was sealed
/// is recovered, no other bytes behind the same nonce are a seal of the same
/// key, and bytes shorter than a nonce are no seal at all.
pub proof fn law_altered_vid_is_no_seal_of_the_key(
    tag: Seq<u8>,
    r: Seq<u8>,
    vid: Seq<u8>,
    altered: Seq<u8>,
)
    requires
        r.len() == 32,
        seals(tag, r, vid),
    ensures
        recovered(tag, vid) == Ok::<Seq<u8>, TpcError>(r),
        altered.take(12) == vid.take(12) && altered != vid ==> !seals(tag, r, altered),
        altered.len() < 12 ==> recovered(tag, altered) == Err::<Seq<u8>, TpcError>(TpcError::Aead),
{
}

/// The two layouts do not alias: each parser refuses the other's
/// plaintext.
pub proof fn law_layouts_do_not_alias(
    r: Seq<u8>,
    client_id: Seq<char>,
    org_id: Seq<char>,
    mode: Seq<char>,
)
    requires
        r.len() == 32,
        fits(client_id),
        fits(org_id),
        fits(mode),
    ensures
        read_cid(attested_layout(r, client_id, org_id, mode)) == Err::<CidView, TpcError>(
            TpcError::Trailing,
        ),
        read_attested(cid_layout(r, client_id, org_id)) == Err::<CidView, TpcError>(
            TpcError::Truncated,
        ),
{
    let p = text_field(client_id);
    let q = text_field(org_id);
    let m = text_field(mode);
    let e = Seq::<u8>::empty();
    let b = attested_layout(r, client_id, org_id, mode);
    assert(b.skip(32) =~= p + (q + m));
    lemma_take_str(client_id, q + m);
    lemma_take_str(org_id, m);
    let d = cid_layout(r, client_id, org_id);
    assert(d.skip(32) =~= p + (q + e));
    lemma_take_str(client_id, q + e);
    lemma_take_str(org_id, e);
}

/// The verifier, from the `vid`, and the authority, from the `cid`,
/// recover the same discharge key, and the authority the identity that
/// was bound.
pub proof fn law_vid_and_cid_recover_the_same_key(
    c: CaveatView,
    location: Seq<char>,
    tag: Seq<u8>,
    r: Seq<u8>,
    key: Seq<u8>,
    client_id: Seq<char>,
    org_id: Seq<char>,
)
    requires
        binds(c, location, tag, r, key, cid_layout(r, client_id, org_id)),
        fits(client_id),
        fits(org_id),
    ensures
        c matches CaveatView::ThirdParty { vid, cid, .. } && recovered(tag, vid) == Ok::<
            Seq<u8>,
            TpcError,
        >(r) && cid_contents(key, cid) == Ok::<CidView, TpcError>(
            CidView { r, client_id, org_id, mode: Seq::empty() },
        ),
{
    law_cid_layout_round_trip(r, client_id, org_id);
}

/// As above for the attested layout, whose mode the authority recovers
/// too.
pub proof fn law_attested_vid_and_cid_recover_the_same_key(
    c: CaveatView,
    location: Seq<char>,
    tag: Seq<u8>,
    r: Seq<u8>,
    key: Seq<u8>,
    client_id: Seq<char>,
    org_id: Seq<char>,
    mode: Seq<char>,
)
    requires
        binds(c, location, tag, r, key, attested_layout(r, client_id, org_id, mode)),
        fits(client_id),
        fits(org_id),
        fits(mode),
    ensures
        c matches CaveatView::ThirdParty { vid, cid, .. } && recovered(tag, vid) == Ok::<
            Seq<u8>,
            TpcError,
        >(r) && attested_contents(key, cid) == Ok::<CidView, TpcError>(
            CidView { r, client_id, org_id, mode },
        ),
{
    law_attested_layout_round_trip(r, client_id, org_id, mode);
}

/// The message of an error.
pub open spec fn error_text(e: TpcError) -> Seq<char> {
    match e {
        TpcError::Aead => "AEAD authentication failed"@,
        TpcError::Truncated => "plaintext truncated"@,
        TpcError::Overrun => "length-prefix overrun"@,
        TpcError::BadUtf8 => "non-utf-8 field"@,
        TpcError::Trailing => "trailing bytes"@,
    }
}

impl TpcError {
    /// The message of the error.
    pub fn message(&self) -> (r: &'static str)
        ensures
            r@ == error_text(*self),
    {
        match self {
            TpcError::Aead => "AEAD authentication failed",
            TpcError::Truncated => "plaintext truncated",
            TpcError::Overrun => "length-prefix overrun",
            TpcError::BadUtf8 => "non-utf-8 field",
            TpcError::Trailing => "trailing bytes",
        }
    }
}

} // verus!
