//! Byte strings: comparison, copying, and the big-endian length-prefixed
//! fields that every binary layout of this crate is made of.

use vstd::prelude::*;
use vstd::utf8::*;

verus! {

/// Whether two byte strings are equal. Runs over the whole of them
/// whatever they hold.
pub fn same_bytes(a: &[u8], b: &[u8]) -> (r: bool)
    ensures
        r == (a@ == b@),
{
    if a.len() != b.len() {
        return false;
    }
    let mut eq: bool = true;
    let mut i: usize = 0;
    while i < a.len()
        invariant
            i <= a@.len() == b@.len(),
            eq <==> forall|j: int| 0 <= j < i ==> a@[j] == b@[j],
        decreases a@.len() - i,
    {
        if a[i] != b[i] {
            eq = false;
        }
        i = i + 1;
    }
    assert(eq ==> a@ =~= b@);
    eq
}

/// Appends `b` to `v`.
pub fn append(v: &mut Vec<u8>, b: &[u8])
    ensures
        final(v)@ == old(v)@ + b@,
{
    let ghost start = v@;
    let mut i: usize = 0;
    assert(b@.take(0) =~= Seq::<u8>::empty());
    assert(v@ =~= start + b@.take(0));
    while i < b.len()
        invariant
            i <= b@.len(),
            v@ == start + b@.take(i as int),
        decreases b@.len() - i,
    {
        v.push(b[i]);
        assert(v@ =~= start + b@.take(i + 1));
        i = i + 1;
    }
    assert(b@.take(b@.len() as int) =~= b@);
}

/// The bytes `from..to` of `b`.
pub fn slice(b: &[u8], from: usize, to: usize) -> (r: Vec<u8>)
    requires
        from <= to <= b@.len(),
    ensures
        r@ == b@.subrange(from as int, to as int),
{
    let mut r: Vec<u8> = Vec::new();
    let mut i: usize = from;
    while i < to
        invariant
            from <= i <= to <= b@.len(),
            r@ == b@.subrange(from as int, i as int),
        decreases to - i,
    {
        r.push(b[i]);
        i = i + 1;
        assert(r@ =~= b@.subrange(from as int, i as int));
    }
    r
}

/// The 32 bytes at `from` in `b`.
pub fn array32(b: &[u8], from: usize) -> (r: [u8; 32])
    requires
        from + 32 <= b@.len(),
    ensures
        r@ == b@.subrange(from as int, from + 32),
{
    let mut r: [u8; 32] = [0u8; 32];
    let n: usize = b.len();
    let mut i: usize = 0;
    while i < 32
        invariant
            i <= 32,
            from + 32 <= b@.len(),
            n == b@.len(),
            forall|j: int| 0 <= j < i ==> r@[j] == b@[from + j],
        decreases 32 - i,
    {
        r[i] = b[from + i];
        i = i + 1;
    }
    assert(r@ =~= b@.subrange(from as int, from + 32));
    r
}

/// The 64 bytes at `from` in `b`.
pub fn array64(b: &[u8], from: usize) -> (r: [u8; 64])
    requires
        from + 64 <= b@.len(),
    ensures
        r@ == b@.subrange(from as int, from + 64),
{
    let mut r: [u8; 64] = [0u8; 64];
    let n: usize = b.len();
    let mut i: usize = 0;
    while i < 64
        invariant
            i <= 64,
            from + 64 <= b@.len(),
            n == b@.len(),
            forall|j: int| 0 <= j < i ==> r@[j] == b@[from + j],
        decreases 64 - i,
    {
        r[i] = b[from + i];
        i = i + 1;
    }
    assert(r@ =~= b@.subrange(from as int, from + 64));
    r
}

/// The 16 bytes at `from` in `b`.
pub fn array16(b: &[u8], from: usize) -> (r: [u8; 16])
    requires
        from + 16 <= b@.len(),
    ensures
        r@ == b@.subrange(from as int, from + 16),
{
    let mut r: [u8; 16] = [0u8; 16];
    let n: usize = b.len();
    let mut i: usize = 0;
    while i < 16
        invariant
            i <= 16,
            from + 16 <= b@.len(),
            n == b@.len(),
            forall|j: int| 0 <= j < i ==> r@[j] == b@[from + j],
        decreases 16 - i,
    {
        r[i] = b[from + i];
        i = i + 1;
    }
    assert(r@ =~= b@.subrange(from as int, from + 16));
    r
}

/// The 12 bytes at `from` in `b`.
pub fn array12(b: &[u8], from: usize) -> (r: [u8; 12])
    requires
        from + 12 <= b@.len(),
    ensures
        r@ == b@.subrange(from as int, from + 12),
{
    let mut r: [u8; 12] = [0u8; 12];
    let n: usize = b.len();
    let mut i: usize = 0;
    while i < 12
        invariant
            i <= 12,
            from + 12 <= b@.len(),
            n == b@.len(),
            forall|j: int| 0 <= j < i ==> r@[j] == b@[from + j],
        decreases 12 - i,
    {
        r[i] = b[from + i];
        i = i + 1;
    }
    assert(r@ =~= b@.subrange(from as int, from + 12));
    r
}

/// `n` as four big-endian bytes.
pub open spec fn be32(n: u32) -> Seq<u8> {
    seq![
        (n / 0x1000000) as u8,
        (n / 0x10000 % 0x100) as u8,
        (n / 0x100 % 0x100) as u8,
        (n % 0x100) as u8,
    ]
}

/// The number that the first four bytes of `b` write.
pub open spec fn read_be32(b: Seq<u8>) -> int {
    b[0] * 0x1000000 + b[1] * 0x10000 + b[2] * 0x100 + b[3]
}

/// `read_be32` undoes `be32`.
pub proof fn lemma_be32(n: u32, rest: Seq<u8>)
    ensures
        be32(n).len() == 4,
        read_be32(be32(n) + rest) == n,
{
    let b = be32(n) + rest;
    assert(b[0] == be32(n)[0] && b[1] == be32(n)[1] && b[2] == be32(n)[2] && b[3] == be32(n)[3]);
}

/// A field behind its length in four big-endian bytes.
pub open spec fn prefixed(b: Seq<u8>) -> Seq<u8> {
    be32(b.len() as u32) + b
}

/// Appends `b` behind its length.
pub fn push_prefixed(v: &mut Vec<u8>, b: &[u8])
    ensures
        final(v)@ == old(v)@ + prefixed(b@),
{
    let ghost start = v@;
    let n: u32 = #[verifier::truncate] (b.len() as u32);
    v.push((n / 0x1000000) as u8);
    v.push((n / 0x10000 % 0x100) as u8);
    v.push((n / 0x100 % 0x100) as u8);
    v.push((n % 0x100) as u8);
    assert(v@ =~= start + be32(n));
    append(v, b);
    assert(v@ =~= start + prefixed(b@));
}

/// Why a length-prefixed field could not be read.
#[derive(Debug, Clone, Copy, PartialEq, Eq, Structural)]
pub enum FieldError {
    /// Fewer than four bytes are left for the length.
    Truncated,
    /// The length reaches past the end.
    Overrun,
}

/// The field at the head of `b` and what follows it.
pub open spec fn take_field(b: Seq<u8>) -> Result<(Seq<u8>, Seq<u8>), FieldError> {
    if b.len() < 4 {
        Err(FieldError::Truncated)
    } else if 4 + read_be32(b) > b.len() {
        Err(FieldError::Overrun)
    } else {
        Ok((b.subrange(4, 4 + read_be32(b)), b.skip(4 + read_be32(b))))
    }
}

/// Reading the head of what was written gives the field back.
pub proof fn lemma_take_prefixed(b: Seq<u8>, rest: Seq<u8>)
    requires
        b.len() <= u32::MAX,
    ensures
        take_field(prefixed(b) + rest) == Ok::<(Seq<u8>, Seq<u8>), FieldError>((b, rest)),
{
    let s = prefixed(b) + rest;
    lemma_be32(b.len() as u32, b + rest);
    assert(s =~= be32(b.len() as u32) + (b + rest));
    assert(s.subrange(4, 4 + read_be32(s)) =~= b);
    assert(s.skip(4 + read_be32(s)) =~= rest);
}

/// Reads the length-prefixed field at `pos`: its bounds in `b`.
pub fn read_field(b: &[u8], pos: usize) -> (r: Result<(usize, usize), FieldError>)
    requires
        pos <= b@.len(),
    ensures
        match r {
            Ok((from, to)) => pos <= from <= to <= b@.len() && pos + 4 == from && take_field(
                b@.skip(pos as int),
            ) == Ok::<(Seq<u8>, Seq<u8>), FieldError>(
                (b@.subrange(from as int, to as int), b@.skip(to as int)),
            ),
            Err(e) => take_field(b@.skip(pos as int)) == Err::<(Seq<u8>, Seq<u8>), FieldError>(e),
        },
{
    let ghost s = b@.skip(pos as int);
    if b.len() - pos < 4 {
        return Err(FieldError::Truncated);
    }
    let n: u64 = (b[pos] as u64) * 0x1000000 + (b[pos + 1] as u64) * 0x10000 + (b[pos + 2] as u64)
        * 0x100 + (b[pos + 3] as u64);
    assert(s[0] == b@[pos as int] && s[1] == b@[pos + 1] && s[2] == b@[pos + 2] && s[3] == b@[pos
        + 3]);
    assert(n == read_be32(s));
    let from: usize = pos + 4;
    let left: usize = b.len() - from;
    if n > left as u64 {
        return Err(FieldError::Overrun);
    }
    let to: usize = from + n as usize;
    assert(s.subrange(4, 4 + n as int) =~= b@.subrange(from as int, to as int));
    assert(s.skip(4 + n as int) =~= b@.skip(to as int));
    Ok((from, to))
}

/// `std::str::from_utf8`: the string that `bytes` encode, exactly where
/// they are valid UTF-8.
#[verifier::external_body]
pub(crate) fn utf8_string(bytes: &[u8]) -> (r: Option<String>)
    ensures
        r is Some <==> valid_utf8(bytes@),
        r matches Some(s) ==> s@ == decode_utf8(bytes@),
{
    std::str::from_utf8(bytes).ok().map(|s| s.to_owned())
}

/// The UTF-8 encoding of a string decodes to that string.
pub proof fn lemma_utf8(s: Seq<char>)
    ensures
        valid_utf8(encode_utf8(s)),
        decode_utf8(encode_utf8(s)) == s,
{
    vstd::utf8::encode_utf8_valid_utf8(s);
    vstd::utf8::encode_utf8_decode_utf8(s);
}

} // verus!
