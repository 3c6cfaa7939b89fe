//! The keypair minting boundary: what is asked of the identity service,
//! and a deterministic stand-in for it.

use crate::bytes;
use crate::crypto;
use crate::text;
use crate::time;
use crate::time::UtcTime;
use vstd::prelude::*;

verus! {

/// A minted keypair.
#[derive(Debug)]
pub struct MintedKeypair {
    pub access_key_id: String,
    pub secret_access_key: String,
    pub expiration: UtcTime,
}

/// Why no keypair was minted.
#[derive(Debug, PartialEq, Eq)]
pub enum MintError {
    /// A transient failure of the identity service.
    Backend(String),
}

impl MintError {
    /// The message for the operator.
    pub fn message(&self) -> (r: String)
        ensures
            r@ == "backend unavailable: "@ + self->Backend_0@,
    {
        match self {
            MintError::Backend(m) => text::concat("backend unavailable: ", m.as_str()),
        }
    }
}

/// A policy name of these parts: `mint_<role>_<scope>_<expiry>_<nonce>`.
pub open spec fn name_text(
    role: Seq<char>,
    scope: Seq<char>,
    expiry: Seq<char>,
    nonce: u32,
) -> Seq<char> {
    "mint_"@ + role + "_"@ + scope + "_"@ + expiry + "_"@ + text::hex_of(bytes::be32(nonce))
}

/// An optional string as characters.
pub open spec fn scope_view(scope: Option<&str>) -> Option<Seq<char>> {
    match scope {
        Some(s) => Some(s@),
        None => None,
    }
}

/// The scope of a policy name, where it has none of its own.
pub const GLOBAL_SCOPE: &'static str = "global";

/// How many characters a policy name has for its role and its scope.
pub const SEGMENT_ROOM: usize = 96;

/// How many characters of a policy name each of its role and its scope has
/// to itself.
pub const SEGMENT_SHARE: usize = 48;

/// The scope that a policy name is made for.
pub open spec fn scope_or_global(scope: Option<Seq<char>>) -> Seq<char> {
    match scope {
        Some(s) => s,
        None => GLOBAL_SCOPE@,
    }
}

/// A character that a policy name may hold.
pub open spec fn name_char(c: char) -> bool {
    text::is_digit(c) || 'a' <= c <= 'z' || 'A' <= c <= 'Z' || c == '_' || c == '+' || c == '='
        || c == ',' || c == '.' || c == '@' || c == '-'
}

/// Only characters that a policy name may hold.
pub open spec fn name_chars(s: Seq<char>) -> bool {
    forall|i: int| 0 <= i < s.len() ==> name_char(#[trigger] s[i])
}

/// The text with `-` for each character that a policy name may not hold.
pub open spec fn clean(s: Seq<char>) -> Seq<char> {
    s.map_values(
        |c: char|
            if name_char(c) {
                c
            } else {
                '-'
            },
    )
}

/// How much of a role of this length a policy name holds, beside a scope of
/// that length: all of it where both have room, and else its share and what
/// the scope leaves of its own.
pub open spec fn role_room(role: nat, scope: nat) -> nat {
    if role + scope <= SEGMENT_ROOM || role <= SEGMENT_SHARE {
        role
    } else if scope <= SEGMENT_SHARE {
        (SEGMENT_ROOM - scope) as nat
    } else {
        SEGMENT_SHARE as nat
    }
}

/// How much of a scope of this length a policy name holds, beside a role of
/// that length: what the role leaves.
pub open spec fn scope_room(role: nat, scope: nat) -> nat {
    if role_room(role, scope) + scope <= SEGMENT_ROOM {
        scope
    } else {
        (SEGMENT_ROOM - role_room(role, scope)) as nat
    }
}

/// The role segment of a policy name: the role in characters of policy
/// names, cut where role and scope are too long together.
pub open spec fn fit_role(role: Seq<char>, scope: Option<Seq<char>>) -> Seq<char> {
    clean(role).take(role_room(role.len(), scope_or_global(scope).len()) as int)
}

/// The scope segment of a policy name: the scope, or `global`, in
/// characters of policy names, cut where role and scope are too long
/// together.
pub open spec fn fit_scope(role: Seq<char>, scope: Option<Seq<char>>) -> Seq<char> {
    let s = scope_or_global(scope);
    clean(s).take(scope_room(role.len(), s.len()) as int)
}

fn is_name_char(c: char) -> (r: bool)
    ensures
        r == name_char(c),
{
    ('0' <= c && c <= '9') || ('a' <= c && c <= 'z') || ('A' <= c && c <= 'Z') || c == '_' || c
        == '+' || c == '=' || c == ',' || c == '.' || c == '@' || c == '-'
}

/// The first `n` characters of `v`, cleaned.
fn cleaned(v: &[char], n: usize) -> (r: String)
    requires
        n <= v@.len(),
    ensures
        r@ == clean(v@).take(n as int),
{
    let mut r = String::new();
    let mut i: usize = 0;
    while i < n
        invariant
            i <= n <= v@.len(),
            r@ == clean(v@).take(i as int),
        decreases n - i,
    {
        r.push(
            if is_name_char(v[i]) {
                v[i]
            } else {
                '-'
            },
        );
        i = i + 1;
        assert(r@ =~= clean(v@).take(i as int));
    }
    r
}

fn role_length(role: usize, scope: usize) -> (r: usize)
    ensures
        r == role_room(role as nat, scope as nat),
{
    if role <= SEGMENT_SHARE || (scope <= SEGMENT_ROOM && role <= SEGMENT_ROOM - scope) {
        role
    } else if scope <= SEGMENT_SHARE {
        SEGMENT_ROOM - scope
    } else {
        SEGMENT_SHARE
    }
}

/// The role and the scope fit into a policy name, each in its characters.
proof fn lemma_segments_fit(role: Seq<char>, scope: Option<Seq<char>>)
    ensures
        name_chars(fit_role(role, scope)),
        name_chars(fit_scope(role, scope)),
        fit_role(role, scope).len() + fit_scope(role, scope).len() <= SEGMENT_ROOM,
        role_room(role.len(), scope_or_global(scope).len()) <= role.len(),
        scope_room(role.len(), scope_or_global(scope).len()) <= scope_or_global(scope).len(),
{
}

/// A role and a scope that policy names can hold stand in the name as they
/// are: both only of its characters, and together within the room that it
/// has for them, `global` counted where there is no scope.
pub proof fn law_fitting_segments_are_kept(role: Seq<char>, scope: Option<Seq<char>>)
    requires
        name_chars(role),
        name_chars(scope_or_global(scope)),
        role.len() + scope_or_global(scope).len() <= SEGMENT_ROOM,
    ensures
        fit_role(role, scope) == role,
        fit_scope(role, scope) == scope_or_global(scope),
{
    assert(fit_role(role, scope) =~= role);
    assert(fit_scope(role, scope) =~= scope_or_global(scope));
}

/// The policy name of these parts. `expiry` is the compact form of the
/// policy's deadline; `nonce` tells apart names of one second.
pub fn policy_name_of(role: &str, scope: Option<&str>, expiry: &str, nonce: u32) -> (r: String)
    ensures
        r@ == name_text(
            fit_role(role@, scope_view(scope)),
            fit_scope(role@, scope_view(scope)),
            expiry@,
            nonce,
        ),
{
    let scope_part = match scope {
        Some(s) => s,
        None => GLOBAL_SCOPE,
    };
    let a = text::chars_of(role);
    let b = text::chars_of(scope_part);
    let n: usize = role_length(a.len(), b.len());
    let room: usize = SEGMENT_ROOM - n;
    let m: usize = if b.len() <= room {
        b.len()
    } else {
        room
    };
    let mut r = text::owned("mint_");
    r.push_str(cleaned(&a, n).as_str());
    r.push_str("_");
    r.push_str(cleaned(&b, m).as_str());
    r.push_str("_");
    r.push_str(expiry);
    r.push_str("_");
    let mut h: Vec<u8> = Vec::new();
    h.push((nonce / 0x1000000) as u8);
    h.push((nonce / 0x10000 % 0x100) as u8);
    h.push((nonce / 0x100 % 0x100) as u8);
    h.push((nonce % 0x100) as u8);
    assert(h@ =~= bytes::be32(nonce));
    r.push_str(text::encode_hex(&h).as_str());
    r
}

/// The hexadecimal digits are characters of a policy name.
proof fn lemma_hex_name_chars(b: Seq<u8>)
    ensures
        name_chars(text::hex_of(b)),
        text::hex_of(b).len() == 2 * b.len(),
{
    let h = text::hex_of(b);
    assert forall|i: int| 0 <= i < h.len() implies name_char(#[trigger] h[i]) by {
        assert(0 <= b[i / 2] as nat / 16 < 16);
        assert(0 <= b[i / 2] as nat % 16 < 16);
    }
}

/// A policy name for a mint-issued policy, with a fresh nonce.
///
/// It holds only characters that the identity service takes in a policy
/// name, whatever the role and the scope hold, and up to the year 9999 it
/// is no longer than the service takes.
pub fn policy_name(role: &str, scope: Option<&str>, expiry: UtcTime) -> (r: String)
    requires
        expiry.valid(),
    ensures
        name_chars(r@),
        0 <= expiry.seconds <= time::LAST_FOUR_DIGIT_YEAR ==> 1 <= r@.len() <= 128,
        exists|nonce: u32|
            r@ == #[trigger] name_text(
                fit_role(role@, scope_view(scope)),
                fit_scope(role@, scope_view(scope)),
                time::compact_text(expiry.seconds),
                nonce,
            ),
{
    let b = crypto::random_bytes(4);
    let nonce: u32 = (b[0] as u32) * 0x1000000 + (b[1] as u32) * 0x10000 + (b[2] as u32) * 0x100
        + b[3] as u32;
    let compact = time::compact(expiry);
    let r = policy_name_of(role, scope, compact.as_str(), nonce);
    proof {
        reveal_strlit("mint_");
        reveal_strlit("_");
        lemma_hex_name_chars(bytes::be32(nonce));
        lemma_segments_fit(role@, scope_view(scope));
        assert("mint_"@.len() == 5);
        assert("_"@.len() == 1);
        assert(name_chars(compact@)) by {
            assert forall|i: int| 0 <= i < compact@.len() implies name_char(
                #[trigger] compact@[i],
            ) by {
                assert(time::compact_char(compact@[i]));
            }
        }
        assert(name_chars("mint_"@));
        assert(name_chars("_"@));
    }
    r
}

/// One recorded call of the stand-in.
#[derive(Debug)]
pub struct RecordedMint {
    pub policy_name: String,
    pub policy_json: String,
    pub ttl_seconds: u64,
    pub issued_key_id: String,
}

/// A recorded call, mathematically.
pub struct RecordedView {
    pub policy_name: Seq<char>,
    pub policy_json: Seq<char>,
    pub ttl_seconds: u64,
    pub issued_key_id: Seq<char>,
}

impl View for RecordedMint {
    type V = RecordedView;

    open spec fn view(&self) -> RecordedView {
        RecordedView {
            policy_name: self.policy_name@,
            policy_json: self.policy_json@,
            ttl_seconds: self.ttl_seconds,
            issued_key_id: self.issued_key_id@,
        }
    }
}

/// A deterministic minter in memory, which records every call.
#[derive(Debug)]
pub struct FakeMinter {
    calls: Vec<RecordedMint>,
}

/// The calls, mathematically.
pub open spec fn recorded(calls: Seq<RecordedMint>) -> Seq<RecordedView> {
    Seq::new(calls.len(), |i: int| calls[i]@)
}

impl View for FakeMinter {
    type V = Seq<RecordedView>;

    closed spec fn view(&self) -> Seq<RecordedView> {
        recorded(self.calls@)
    }
}

/// `n` in at least eight digits.
pub open spec fn eight_digits(n: nat) -> Seq<char> {
    let d = text::digits(n);
    Seq::new((if d.len() < 8 { 8 - d.len() } else { 0 }) as nat, |i: int| '0') + d
}

fn print_eight(n: u64) -> (r: String)
    ensures
        r@ == eight_digits(n as nat),
{
    let d = text::print_u64(n);
    let len = text::chars_of(d.as_str()).len();
    let mut r = String::new();
    let mut i: usize = len;
    while i < 8
        invariant
            len == d@.len(),
            len <= i,
            i <= 8 || i == len,
            r@ == Seq::new((i - len) as nat, |j: int| '0'),
        decreases 8 - i,
    {
        r.push('0');
        assert(r@ =~= Seq::new((i + 1 - len) as nat, |j: int| '0'));
        i = i + 1;
    }
    r.push_str(d.as_str());
    assert(r@ =~= eight_digits(n as nat));
    r
}

/// The longest lifetime, in seconds, that an expiration is computed for.
pub const MAX_TTL_SECONDS: u64 = 9223372036854775;

impl FakeMinter {
    /// A minter without calls.
    pub fn new() -> (r: FakeMinter)
        ensures
            r@ == Seq::<RecordedView>::empty(),
    {
        let r = FakeMinter { calls: Vec::new() };
        assert(r@ =~= Seq::<RecordedView>::empty());
        r
    }

    /// Every call so far.
    pub fn calls(&self) -> (r: Vec<RecordedMint>)
        ensures
            recorded(r@) == self@,
    {
        let mut r: Vec<RecordedMint> = Vec::new();
        let mut i: usize = 0;
        while i < self.calls.len()
            invariant
                i <= self.calls@.len(),
                r@.len() == i,
                forall|j: int| 0 <= j < i ==> (#[trigger] r@[j])@ == self.calls@[j]@,
            decreases self.calls@.len() - i,
        {
            let c = &self.calls[i];
            r.push(
                RecordedMint {
                    policy_name: c.policy_name.clone(),
                    policy_json: c.policy_json.clone(),
                    ttl_seconds: c.ttl_seconds,
                    issued_key_id: c.issued_key_id.clone(),
                },
            );
            i = i + 1;
        }
        assert(recorded(r@) =~= self@);
        r
    }

    /// Mints the next keypair: its number names it. The call is recorded
    /// even where its lifetime is out of range.
    pub fn mint_keypair(
        &mut self,
        policy_name: &str,
        policy_json: &str,
        ttl_seconds: u64,
        now: UtcTime,
    ) -> (r: Result<MintedKeypair, MintError>)
        requires
            ttl_seconds <= MAX_TTL_SECONDS ==> now.seconds + ttl_seconds <= time::MAX_SECONDS,
        ensures
            final(self)@ == old(self)@.push(
                RecordedView {
                    policy_name: policy_name@,
                    policy_json: policy_json@,
                    ttl_seconds,
                    issued_key_id: "tid_fake_"@ + eight_digits(old(self)@.len()),
                },
            ),
            if ttl_seconds > MAX_TTL_SECONDS {
                r matches Err(MintError::Backend(m)) && m@ == "ttl out of range"@
            } else {
                r matches Ok(k) && k.access_key_id@ == "tid_fake_"@ + eight_digits(
                    old(self)@.len(),
                ) && k.secret_access_key@ == "fakesecret"@ + eight_digits(old(self)@.len())
                    && k.expiration == now.later(ttl_seconds as int)
            },
    {
        let ghost before = self.calls@;
        let n: usize = self.calls.len();
        let number = print_eight(n as u64);
        let key_id = text::concat("tid_fake_", number.as_str());
        let entry = RecordedMint {
            policy_name: text::owned(policy_name),
            policy_json: text::owned(policy_json),
            ttl_seconds,
            issued_key_id: key_id.clone(),
        };
        self.calls.push(entry);
        assert(recorded(self.calls@) =~= recorded(before).push(entry@));
        if ttl_seconds > MAX_TTL_SECONDS {
            return Err(MintError::Backend(text::owned("ttl out of range")));
        }
        Ok(
            MintedKeypair {
                access_key_id: key_id,
                secret_access_key: text::concat("fakesecret", number.as_str()),
                expiration: now.plus(ttl_seconds),
            },
        )
    }
}

impl Default for FakeMinter {
    fn default() -> (r: FakeMinter)
        ensures
            r@ == Seq::<RecordedView>::empty(),
    {
        FakeMinter::new()
    }
}

} // verus!
