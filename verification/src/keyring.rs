//! The root-key keyring: an ordered set of `(kid, key)` generations plus
//! a `current` pointer naming the one that new artefacts are MAC'd under.
//!
//! Verification accepts any kid still in the ring; minting always uses
//! the current one. On disk the ring is a directory of one numbered file
//! per generation (64 hexadecimal digits) and a small `current` pointer
//! file. The functions here decide over the names and contents of those
//! files; reading and writing them is the caller's part.

use crate::crypto::random32;
use crate::text;
use std::collections::BTreeMap;
use vstd::prelude::*;

verus! {

broadcast use vstd::std_specs::btree::group_btree_axioms;

/// Generation identifier; it fits the two-byte kid of the macaroon wire
/// format.
pub type Kid = u16;

/// Width that an on-disk kid filename is zero-padded to, so that a listing
/// shows the generations that it can write in their order.
pub const KID_WIDTH: usize = 4;

/// The pointer file inside the keyring directory naming the current kid.
pub const CURRENT_POINTER: &'static str = "current";

/// In-memory keyring. The current kid is always one of its generations.
#[derive(Debug)]
pub struct Keyring {
    keys: BTreeMap<Kid, [u8; 32]>,
    current: Kid,
}

/// A keyring as a mathematical value.
pub struct KeyringView {
    pub keys: Map<Kid, Seq<u8>>,
    pub current: Kid,
}

impl View for Keyring {
    type V = KeyringView;

    closed spec fn view(&self) -> KeyringView {
        KeyringView {
            keys: self.keys@.map_values(|k: [u8; 32]| k@),
            current: self.current,
        }
    }
}

/// Why a keyring could not be opened or changed.
#[derive(Debug, PartialEq, Eq)]
pub enum KeyringError {
    /// Reading or writing failed.
    Io(String),
    /// There is no generation.
    Empty,
    /// No generation has this kid.
    UnknownKid(Kid),
    /// The key file of this name does not hold a key.
    Malformed(String),
    /// The supplied key disagrees with the one already on disk.
    KeyMismatch(Kid),
    /// The current kid cannot be retired.
    WouldRetireCurrent,
    /// There is no kid after the highest.
    KidExhausted,
}

impl Keyring {
    #[verifier::type_invariant]
    spec fn has_current(self) -> bool {
        self.keys@.contains_key(self.current)
    }

    /// In-memory keyring with a single generation at kid 0.
    pub fn single(key: [u8; 32]) -> (r: Keyring)
        ensures
            r@.keys == Map::<Kid, Seq<u8>>::empty().insert(0, key@),
            r@.current == 0,
    {
        let mut keys: BTreeMap<Kid, [u8; 32]> = BTreeMap::new();
        keys.insert(0, key);
        let r = Keyring { keys, current: 0 };
        assert(r@.keys =~= Map::<Kid, Seq<u8>>::empty().insert(0, key@));
        r
    }

    /// A keyring of these generations with this current kid, which must
    /// be one of them.
    pub fn from_parts(keys: BTreeMap<Kid, [u8; 32]>, current: Kid) -> (r: Result<
        Keyring,
        KeyringError,
    >)
        ensures
            match r {
                Ok(k) => keys@.contains_key(current) && k@.current == current && k@.keys
                    == keys@.map_values(|k: [u8; 32]| k@),
                Err(e) => !keys@.contains_key(current) && e == KeyringError::UnknownKid(current),
            },
    {
        if !keys.contains_key(&current) {
            return Err(KeyringError::UnknownKid(current));
        }
        Ok(Keyring { keys, current })
    }

    /// The kid that new artefacts are MAC'd under.
    pub fn current_kid(&self) -> (r: Kid)
        ensures
            r == self@.current,
            self@.keys.contains_key(r),
    {
        proof {
            use_type_invariant(self);
        }
        self.current
    }

    /// The current key.
    pub fn current_key(&self) -> (r: &[u8; 32])
        ensures
            self@.keys.contains_key(self@.current),
            r@ == self@.keys[self@.current],
    {
        proof {
            use_type_invariant(self);
        }
        self.keys.get(&self.current).unwrap()
    }

    /// The key for `kid`, if it is still in the ring.
    pub fn get(&self, kid: Kid) -> (r: Option<&[u8; 32]>)
        ensures
            match r {
                Some(k) => self@.keys.contains_key(kid) && k@ == self@.keys[kid],
                None => !self@.keys.contains_key(kid),
            },
    {
        self.keys.get(&kid)
    }

    /// Number of generations in the ring.
    pub fn len(&self) -> (r: usize)
        ensures
            r == self@.keys.dom().len(),
            r > 0,
    {
        proof {
            use_type_invariant(self);
            assert(self@.keys.dom() =~= self.keys@.dom());
            assert(self.keys@.dom().contains(self.current));
            assert(self.keys@.dom().finite());
            if self.keys@.dom().len() == 0 {
                assert(self.keys@.dom() =~= Set::<Kid>::empty());
            }
        }
        self.keys.len()
    }

    /// Whether the ring has no generation; it always has one.
    pub fn is_empty(&self) -> (r: bool)
        ensures
            r == (self@.keys.dom().len() == 0),
            !r,
    {
        self.len() == 0
    }

    /// Every kid in the ring, in generation order.
    pub fn kids(&self) -> (r: Vec<Kid>)
        ensures
            forall|i: int, j: int| 0 <= i < j < r@.len() ==> r@[i] < r@[j],
            forall|k: Kid| r@.contains(k) <==> self@.keys.contains_key(k),
    {
        kids_of(&self.keys)
    }
}

/// The kids of a map of generations, in ascending order.
fn kids_of(keys: &BTreeMap<Kid, [u8; 32]>) -> (r: Vec<Kid>)
    ensures
        forall|i: int, j: int| 0 <= i < j < r@.len() ==> r@[i] < r@[j],
        forall|k: Kid| r@.contains(k) <==> keys@.contains_key(k),
{
    let mut r: Vec<Kid> = Vec::new();
    let ghost s = vstd::std_specs::iter::IteratorSpec::remaining(
        &vstd::std_specs::btree::spec_btree_map_iter(keys),
    );
    let ghost ks = s.map_values(|kv: (&Kid, &[u8; 32])| *kv.0);
    for kv in it: keys.iter()
        invariant
            it.seq() == s,
            ks == s.map_values(|kv: (&Kid, &[u8; 32])| *kv.0),
            vstd::std_specs::btree::increasing_seq(ks),
            r@ == ks.take(it.index()),
    {
        r.push(*kv.0);
        assert(r@ =~= ks.take(it.index() + 1));
    }
    proof {
        assert(r@ =~= ks);
        assert forall|k: Kid| r@.contains(k) <==> keys@.contains_key(k) by {
            if keys@.contains_key(k) {
                assert(s.contains((&k, &keys@[k])));
                let i = choose|i: int| 0 <= i < s.len() && s[i] == (&k, &keys@[k]);
                assert(ks[i] == k);
            }
            if r@.contains(k) {
                let i = choose|i: int| 0 <= i < r@.len() && r@[i] == k;
                assert(keys@.contains_key(*s[i].0));
            }
        }
        assert forall|i: int, j: int| 0 <= i < j < r@.len() implies r@[i] < r@[j] by {
            assert(vstd::std_specs::cmp::OrdSpec::cmp_spec(&ks[i], &ks[j]) is Less);
        }
    }
    r
}

/// The highest kid of a map of generations, where there is one.
fn highest(keys: &BTreeMap<Kid, [u8; 32]>) -> (r: Option<Kid>)
    ensures
        match r {
            Some(m) => highest_of(keys@.dom(), m),
            None => keys@.dom() =~= Set::<Kid>::empty(),
        },
{
    let ks = kids_of(keys);
    if ks.len() == 0 {
        assert forall|k: Kid| !keys@.dom().contains(k) by {
            assert(!ks@.contains(k));
        }
        return None;
    }
    let m = ks[ks.len() - 1];
    proof {
        assert(ks@.contains(m));
        assert forall|k: Kid| keys@.dom().contains(k) implies k <= m by {
            assert(ks@.contains(k));
            let i = choose|i: int| 0 <= i < ks@.len() && ks@[i] == k;
        }
    }
    Some(m)
}

/// `m` is the highest of `kids`.
pub open spec fn highest_of(kids: Set<Kid>, m: Kid) -> bool {
    kids.contains(m) && forall|k: Kid| kids.contains(k) ==> k <= m
}

/// A kid as a file name: at least four digits.
pub open spec fn kid_name(kid: Kid) -> Seq<char> {
    let d = text::digits(kid as nat);
    Seq::new((if d.len() < 4 { 4 - d.len() } else { 0 }) as nat, |i: int| '0') + d
}

/// The file name of generation `kid`.
pub fn kid_file_name(kid: Kid) -> (r: String)
    ensures
        r@ == kid_name(kid),
{
    let d = text::print_u64(kid as u64);
    let n = text::chars_of(d.as_str()).len();
    let mut r = String::new();
    let mut i: usize = n;
    while i < KID_WIDTH
        invariant
            n == d@.len(),
            n < 4 ==> n <= i <= 4,
            n >= 4 ==> i == n,
            r@ == Seq::new((i - n) as nat, |j: int| '0'),
        decreases KID_WIDTH - i,
    {
        r.push('0');
        i = i + 1;
        assert(r@ =~= Seq::new((i - n) as nat, |j: int| '0'));
    }
    r.push_str(d.as_str());
    r
}

/// The contents of the pointer file for `kid`.
pub fn pointer_text(kid: Kid) -> (r: String)
    ensures
        r@ == kid_name(kid) + "\n"@,
{
    text::concat(kid_file_name(kid).as_str(), "\n")
}

/// `s` read as a kid.
pub open spec fn read_kid(s: Seq<char>) -> Option<Kid> {
    match text::read_u64(s) {
        Some(n) if n <= u16::MAX => Some(n as u16),
        _ => None,
    }
}

/// The kid that the contents of a pointer file name, if they name one.
pub fn read_pointer(contents: &str) -> (r: Option<Kid>)
    ensures
        r == read_kid(text::trimmed(contents@)),
{
    match text::parse_u64(text::trim(contents).as_str()) {
        Some(n) => if n <= u16::MAX as u64 {
            Some(n as u16)
        } else {
            None
        },
        None => None,
    }
}

/// The generation that a file of this name holds: a key file is named by
/// four digits, or by five from the first generation on that four cannot
/// write, and everything else in the directory is skipped.
pub open spec fn kid_of_name(name: Seq<char>) -> Option<Kid> {
    if text::all_digits(name) && (name.len() == 4 || (name.len() == 5 && name[0] != '0'))
        && text::decimal(name) <= u16::MAX {
        Some(text::decimal(name) as u16)
    } else {
        None
    }
}

/// The generation that a file of this name holds.
pub fn key_file_kid(name: &str) -> (r: Option<Kid>)
    ensures
        r == kid_of_name(name@),
{
    let v = text::chars_of(name);
    let len: usize = v.len();
    if len != KID_WIDTH && (len != KID_WIDTH + 1 || v[0] == '0') {
        return None;
    }
    let mut i: usize = 0;
    let mut n: u32 = 0;
    assert(name@.take(0) =~= Seq::<char>::empty());
    while i < len
        invariant
            i <= len,
            len == v@.len(),
            len <= 5,
            v@ == name@,
            forall|j: int| 0 <= j < i ==> text::is_digit(#[trigger] v@[j]),
            n == text::decimal(v@.take(i as int)),
            i == 0 ==> n < 1,
            i == 1 ==> n < 10,
            i == 2 ==> n < 100,
            i == 3 ==> n < 1000,
            i == 4 ==> n < 10000,
            i == 5 ==> n < 100000,
        decreases len - i,
    {
        let c = v[i];
        if !('0' <= c && c <= '9') {
            assert(!text::is_digit(name@[i as int]));
            return None;
        }
        assert(v@.take(i + 1).drop_last() =~= v@.take(i as int));
        n = n * 10 + (c as u32 - '0' as u32);
        i = i + 1;
    }
    assert(v@.take(len as int) =~= name@);
    if n <= u16::MAX as u32 {
        Some(n as u16)
    } else {
        None
    }
}

/// A file of the keyring directory.
pub struct KeyFile {
    pub name: String,
    pub contents: String,
}

/// The key that a key file holds: 64 hexadecimal digits, with white space
/// around them.
pub open spec fn key_in(contents: Seq<char>) -> Option<Seq<u8>> {
    text::read_hex32(text::trimmed(contents))
}

/// The first key file of `files` that holds no key.
pub open spec fn first_malformed(files: Seq<KeyFile>) -> Option<int>
    decreases files.len(),
{
    if files.len() == 0 {
        None
    } else {
        match first_malformed(files.drop_last()) {
            Some(i) => Some(i),
            None => if kid_of_name(files.last().name@) is Some && key_in(
                files.last().contents@,
            ) is None {
                Some(files.len() - 1)
            } else {
                None
            },
        }
    }
}

/// The generations that the key files of a directory hold.
pub open spec fn keys_in(files: Seq<KeyFile>) -> Map<Kid, Seq<u8>>
    decreases files.len(),
{
    if files.len() == 0 {
        Map::empty()
    } else {
        let before = keys_in(files.drop_last());
        match (kid_of_name(files.last().name@), key_in(files.last().contents@)) {
            (Some(kid), Some(key)) => before.insert(kid, key),
            _ => before,
        }
    }
}

/// Reads every generation out of the files of a keyring directory.
fn read_all_keys(files: &[KeyFile]) -> (r: Result<BTreeMap<Kid, [u8; 32]>, KeyringError>)
    ensures
        match r {
            Ok(m) => first_malformed(files@) is None && m@.map_values(|k: [u8; 32]| k@) == keys_in(
                files@,
            ),
            Err(e) => {
                &&& first_malformed(files@) matches Some(i)
                &&& 0 <= i < files@.len()
                &&& e matches KeyringError::Malformed(n)
                &&& n@ == files@[i].name@
            },
        },
{
    let mut m: BTreeMap<Kid, [u8; 32]> = BTreeMap::new();
    let mut i: usize = 0;
    assert(m@.map_values(|k: [u8; 32]| k@) =~= Map::<Kid, Seq<u8>>::empty());
    while i < files.len()
        invariant
            i <= files@.len(),
            first_malformed(files@.take(i as int)) is None,
            m@.map_values(|k: [u8; 32]| k@) == keys_in(files@.take(i as int)),
        decreases files@.len() - i,
    {
        let ghost t = files@.take(i + 1);
        assert(t.drop_last() =~= files@.take(i as int));
        assert(t.last() == files@[i as int]);
        if let Some(kid) = key_file_kid(files[i].name.as_str()) {
            match text::decode_hex32(text::trim(files[i].contents.as_str()).as_str()) {
                Some(key) => {
                    let ghost before = m@;
                    m.insert(kid, key);
                    assert(m@.map_values(|k: [u8; 32]| k@) =~= before.map_values(
                        |k: [u8; 32]| k@,
                    ).insert(kid, key@));
                },
                None => {
                    proof {
                        lemma_first_malformed(files@, i as int);
                    }
                    return Err(KeyringError::Malformed(files[i].name.clone()));
                },
            }
        }
        i = i + 1;
    }
    assert(files@.take(files@.len() as int) =~= files@);
    Ok(m)
}

/// Files behind the first malformed one do not matter.
proof fn lemma_first_malformed(files: Seq<KeyFile>, i: int)
    requires
        0 <= i < files.len(),
        first_malformed(files.take(i + 1)) == Some(i),
    ensures
        first_malformed(files) == Some(i),
    decreases files.len(),
{
    if i + 1 == files.len() {
        assert(files.take(i + 1) =~= files);
    } else {
        let t = files.drop_last();
        assert(t.take(i + 1) =~= files.take(i + 1));
        lemma_first_malformed(t, i);
    }
}

/// The current kid of a directory: what the pointer file names, where
/// that generation is there; else the highest generation.
pub open spec fn opens_at(keys: Map<Kid, Seq<u8>>, pointer: Option<Seq<char>>, current: Kid) -> bool {
    match pointer {
        Some(p) if read_kid(text::trimmed(p)) is Some && keys.contains_key(
            read_kid(text::trimmed(p))->0,
        ) => current == read_kid(text::trimmed(p))->0,
        _ => highest_of(keys.dom(), current),
    }
}

impl Keyring {
    /// Whether a keyring is provisioned by these files: at least one
    /// generation is there, and none is malformed.
    pub fn is_provisioned(files: &[KeyFile]) -> (r: bool)
        ensures
            r == (first_malformed(files@) is None && exists|k: Kid|
                #[trigger] keys_in(files@).contains_key(k)),
    {
        match read_all_keys(files) {
            Ok(m) => {
                let h = highest(&m);
                proof {
                    let view = m@.map_values(|k: [u8; 32]| k@);
                    assert(view.dom() =~= m@.dom());
                    if let Some(k) = h {
                        assert(keys_in(files@).contains_key(k));
                    } else {
                        assert forall|k: Kid| !(#[trigger] keys_in(files@).contains_key(k)) by {
                            assert(!m@.dom().contains(k));
                        }
                    }
                }
                h.is_some()
            },
            Err(_) => false,
        }
    }

    /// Opens the keyring that the files of its directory and the contents
    /// of its pointer file hold. Where there is no generation yet, the
    /// ring starts at kid 0 with `initial_key`, or with a fresh random key
    /// where none is supplied; the second result then says that the key
    /// file and the pointer are still to be written. A supplied key is
    /// ignored by a ring that has generations already.
    pub fn open(
        files: &[KeyFile],
        pointer: Option<&str>,
        initial_key: Option<[u8; 32]>,
    ) -> (r: Result<(Keyring, bool), KeyringError>)
        ensures
            match r {
                Ok((k, fresh)) => {
                    &&& first_malformed(files@) is None
                    &&& fresh <==> keys_in(files@).dom() =~= Set::<Kid>::empty()
                    &&& fresh ==> k@.current == 0 && k@.keys.dom() =~= Set::empty().insert(0u16)
                        && (initial_key matches Some(i) ==> k@.keys[0] == i@)
                    &&& !fresh ==> k@.keys == keys_in(files@) && opens_at(
                        keys_in(files@),
                        match pointer {
                            Some(p) => Some(p@),
                            None => None,
                        },
                        k@.current,
                    )
                },
                Err(e) => {
                    &&& first_malformed(files@) matches Some(i)
                    &&& e matches KeyringError::Malformed(n)
                    &&& n@ == files@[i].name@
                },
            },
    {
        let keys = match read_all_keys(files) {
            Ok(m) => m,
            Err(e) => {
                return Err(e);
            },
        };
        let ghost view = keys@.map_values(|k: [u8; 32]| k@);
        assert(view.dom() =~= keys@.dom());
        match highest(&keys) {
            None => {
                let key = match initial_key {
                    Some(k) => k,
                    None => random32(),
                };
                let k = Keyring::single(key);
                assert(k@.keys.dom() =~= Set::empty().insert(0u16));
                Ok((k, true))
            },
            Some(h) => {
                assert(keys@.dom().contains(h));
                let named = match pointer {
                    Some(p) => read_pointer(p),
                    None => None,
                };
                let current: Kid = match named {
                    Some(k) => if keys.contains_key(&k) {
                        k
                    } else {
                        h
                    },
                    None => h,
                };
                Ok((Keyring { keys, current }, false))
            },
        }
    }

    /// The kid that the next generation takes.
    pub fn next_kid(&self) -> (r: Option<Kid>)
        ensures
            match r {
                Some(n) => n > 0 && highest_of(self@.keys.dom(), (n - 1) as Kid),
                None => highest_of(self@.keys.dom(), Kid::MAX),
            },
    {
        proof {
            use_type_invariant(self);
            assert(self@.keys.dom() =~= self.keys@.dom());
        }
        match highest(&self.keys) {
            Some(m) => m.checked_add(1),
            None => {
                assert(self.keys@.dom().contains(self.current));
                None
            },
        }
    }

    /// Adds a key as the next generation and makes it current; the
    /// previous generations stay in the ring. `on_disk` is what the file
    /// of the next kid holds where it exists already: the same key is a
    /// repeated rotation and goes through, a different one is refused.
    /// With no key supplied a fresh random one is drawn.
    pub fn add_and_promote(&mut self, key: Option<[u8; 32]>, on_disk: Option<&str>) -> (r: Result<
        Kid,
        KeyringError,
    >)
        ensures
            match r {
                Ok(n) => {
                    &&& n > 0
                    &&& highest_of(old(self)@.keys.dom(), (n - 1) as Kid)
                    &&& final(self)@.current == n
                    &&& exists|k: Seq<u8>| #[trigger] added(key, on_disk, k) && final(self)@.keys
                        == old(self)@.keys.insert(n, k)
                },
                Err(e) => {
                    &&& final(self)@ == old(self)@
                    &&& match e {
                        KeyringError::KidExhausted => highest_of(old(self)@.keys.dom(), Kid::MAX),
                        KeyringError::Malformed(name) => exists|n: Kid|
                            #![trigger highest_of(old(self)@.keys.dom(), (n - 1) as Kid)]
                            n > 0 && highest_of(old(self)@.keys.dom(), (n - 1) as Kid)
                                && name@ == kid_name(n) && on_disk is Some && key_in(
                                on_disk->0@,
                            ) is None,
                        KeyringError::KeyMismatch(n) => n > 0 && highest_of(
                            old(self)@.keys.dom(),
                            (n - 1) as Kid,
                        ) && on_disk is Some && key_in(on_disk->0@) is Some && (key matches Some(k)
                            ==> key_in(on_disk->0@) != Some(k@)),
                        _ => false,
                    }
                },
            },
    {
        let next: Kid = match self.next_kid() {
            Some(n) => n,
            None => {
                return Err(KeyringError::KidExhausted);
            },
        };
        let new_key: [u8; 32] = match key {
            Some(k) => k,
            None => random32(),
        };
        if let Some(t) = on_disk {
            match text::decode_hex32(text::trim(t).as_str()) {
                None => {
                    return Err(KeyringError::Malformed(kid_file_name(next)));
                },
                Some(existing) => {
                    if !crate::bytes::same_bytes(&existing, &new_key) {
                        return Err(KeyringError::KeyMismatch(next));
                    }
                },
            }
        }
        let ghost before = self@;
        let mut keys = self.keys.clone();
        assert(keys@ == self.keys@);
        keys.insert(next, new_key);
        *self = Keyring { keys, current: next };
        proof {
            assert(self@.keys =~= before.keys.insert(next, new_key@));
            assert(added(key, on_disk, new_key@));
        }
        Ok(next)
    }

    /// Retires `kid`: drops it from the ring. The current kid is refused;
    /// a rotation must come first.
    pub fn retire(&mut self, kid: Kid) -> (r: Result<(), KeyringError>)
        ensures
            match r {
                Ok(_) => {
                    &&& kid != old(self)@.current
                    &&& old(self)@.keys.contains_key(kid)
                    &&& final(self)@.current == old(self)@.current
                    &&& final(self)@.keys == old(self)@.keys.remove(kid)
                },
                Err(e) => {
                    &&& final(self)@ == old(self)@
                    &&& match e {
                        KeyringError::WouldRetireCurrent => kid == old(self)@.current,
                        KeyringError::UnknownKid(k) => k == kid && kid != old(self)@.current
                            && !old(self)@.keys.contains_key(kid),
                        _ => false,
                    }
                },
            },
    {
        proof {
            use_type_invariant(&*self);
        }
        if kid == self.current {
            return Err(KeyringError::WouldRetireCurrent);
        }
        if !self.keys.contains_key(&kid) {
            return Err(KeyringError::UnknownKid(kid));
        }
        let ghost before = self@;
        let mut keys = self.keys.clone();
        assert(keys@ == self.keys@);
        keys.remove(&kid);
        let current: Kid = self.current;
        *self = Keyring { keys, current };
        assert(self@.keys =~= before.keys.remove(kid));
        Ok(())
    }

    /// A copy of the ring.
    pub fn copy(&self) -> (r: Keyring)
        ensures
            r@ == self@,
    {
        proof {
            use_type_invariant(self);
        }
        let keys = self.keys.clone();
        assert(keys@ == self.keys@);
        Keyring { keys, current: self.current }
    }
}

/// `k` may become the next generation: it is the supplied key, where one
/// is supplied, and the one already on disk, where one is.
pub open spec fn added(key: Option<[u8; 32]>, on_disk: Option<&str>, k: Seq<u8>) -> bool {
    &&& k.len() == 32
    &&& key matches Some(s) ==> k == s@
    &&& on_disk matches Some(t) ==> key_in(t@) == Some(k)
}

/// The contents of the key file for a key.
pub fn key_file_text(key: &[u8; 32]) -> (r: String)
    ensures
        r@ == text::hex_of(key@),
{
    text::encode_hex(key)
}

/// The message of an error.
pub open spec fn error_text(e: KeyringError) -> Seq<char> {
    match e {
        KeyringError::Io(m) => "io: "@ + m@,
        KeyringError::Empty => "keyring is empty"@,
        KeyringError::UnknownKid(k) => "unknown kid: "@ + text::digits(k as nat),
        KeyringError::Malformed(f) => "malformed key file "@ + f@,
        KeyringError::KeyMismatch(k) => "supplied key for kid "@ + text::digits(k as nat)
            + " disagrees with the one already on disk; refuse to overwrite"@,
        KeyringError::WouldRetireCurrent =>
            "retiring the current kid is refused; switch current first"@,
        KeyringError::KidExhausted => "kid space exhausted"@,
    }
}

impl KeyringError {
    /// The message of the error.
    pub fn message(&self) -> (r: String)
        ensures
            r@ == error_text(*self),
    {
        match self {
            KeyringError::Io(m) => text::concat("io: ", m.as_str()),
            KeyringError::Empty => text::owned("keyring is empty"),
            KeyringError::UnknownKid(k) => text::concat(
                "unknown kid: ",
                text::print_u64(*k as u64).as_str(),
            ),
            KeyringError::Malformed(f) => text::concat("malformed key file ", f.as_str()),
            KeyringError::KeyMismatch(k) => {
                let mut m = text::concat(
                    "supplied key for kid ",
                    text::print_u64(*k as u64).as_str(),
                );
                m.push_str(" disagrees with the one already on disk; refuse to overwrite");
                m
            },
            KeyringError::WouldRetireCurrent => text::owned(
                "retiring the current kid is refused; switch current first",
            ),
            KeyringError::KidExhausted => text::owned("kid space exhausted"),
        }
    }
}

proof fn lemma_kid_name(kid: Kid)
    ensures
        text::all_digits(kid_name(kid)),
        text::decimal(kid_name(kid)) == kid,
        text::is_word(kid_name(kid)),
{
    let d = text::digits(kid as nat);
    text::lemma_digits(kid as nat);
    text::lemma_leading_zeros((if d.len() < 4 { 4 - d.len() } else { 0 }) as nat, d);
    let n = kid_name(kid);
    assert forall|i: int| 0 <= i < n.len() implies !text::is_white_space(#[trigger] n[i]) by {
        assert(text::is_digit(n[i]));
    }
}

/// What is written to the pointer file names the kid that it was written
/// for.
pub proof fn law_pointer_reads_back(kid: Kid)
    ensures
        read_kid(text::trimmed(kid_name(kid) + "\n"@)) == Some(kid),
{
    lemma_kid_name(kid);
    text::lemma_trimmed_line(kid_name(kid));
    assert(text::is_digit(kid_name(kid)[0]));
}

/// What is written to a key file reads back as the key.
pub proof fn law_key_file_reads_back(key: Seq<u8>)
    requires
        key.len() == 32,
    ensures
        key_in(text::hex_of(key)) == Some(key),
{
    text::lemma_hex_line(key);
}

/// A number of up to five digits has as many digits as it needs, the first
/// of them no zero.
proof fn lemma_digit_count(n: nat)
    requires
        n <= 99999,
    ensures
        n <= 9999 ==> text::digits(n).len() <= 4,
        n > 9999 ==> text::digits(n).len() == 5 && text::digits(n)[0] != '0',
{
    reveal_with_fuel(text::digits, 6);
    if n > 9999 {
        assert(text::digits(n)[0] == text::digits(n / 10 / 10 / 10 / 10)[0]);
    }
}

/// Names of as many digits that write the same number are the same.
proof fn lemma_same_number(a: Seq<char>, b: Seq<char>)
    requires
        forall|i: int| 0 <= i < a.len() ==> text::is_digit(#[trigger] a[i]),
        forall|i: int| 0 <= i < b.len() ==> text::is_digit(#[trigger] b[i]),
        a.len() == b.len(),
        text::decimal(a) == text::decimal(b),
    ensures
        a == b,
    decreases a.len(),
{
    if a.len() > 0 {
        assert(text::is_digit(a[a.len() - 1]) && text::is_digit(b[b.len() - 1]));
        assert forall|i: int| 0 <= i < a.len() - 1 implies text::is_digit(
            #[trigger] a.drop_last()[i],
        ) by {
            assert(text::is_digit(a[i]));
        }
        assert forall|i: int| 0 <= i < b.len() - 1 implies text::is_digit(
            #[trigger] b.drop_last()[i],
        ) by {
            assert(text::is_digit(b[i]));
        }
        lemma_same_number(a.drop_last(), b.drop_last());
        assert(a =~= a.drop_last().push(a.last()));
        assert(b =~= b.drop_last().push(b.last()));
    } else {
        assert(a =~= b);
    }
}

/// A number is less than ten to its count of digits, and no less than ten to
/// one fewer where the first digit is no zero.
proof fn lemma_magnitude(a: Seq<char>)
    requires
        text::all_digits(a),
        a.len() == 4 || a.len() == 5,
    ensures
        a.len() == 4 ==> text::decimal(a) <= 9999,
        a.len() == 5 && a[0] != '0' ==> text::decimal(a) > 9999,
{
    reveal_with_fuel(text::decimal, 6);
    assert forall|i: int| 0 <= i < a.len() implies text::is_digit(#[trigger] a[i]) by {}
}

/// The file of a generation is found again by its name, and no other name is
/// read as that generation.
pub proof fn law_file_name_reads_back(kid: Kid, name: Seq<char>)
    ensures
        kid_of_name(name) == Some(kid) <==> name == kid_name(kid),
{
    lemma_kid_name(kid);
    lemma_digit_count(kid as nat);
    assert(kid_of_name(kid_name(kid)) == Some(kid));
    if kid_of_name(name) == Some(kid) {
        lemma_magnitude(name);
        lemma_same_number(name, kid_name(kid));
    }
}

/// A listing shows the generations in their order, up to the last one that
/// four digits write.
pub proof fn law_names_list_in_generation_order(a: Kid, b: Kid)
    requires
        b <= 9999,
    ensures
        a < b ==> text::precedes(kid_name(a), kid_name(b)),
{
    if a < b {
        let x = kid_name(a);
        let y = kid_name(b);
        lemma_kid_name(a);
        lemma_kid_name(b);
        lemma_digit_count(a as nat);
        lemma_digit_count(b as nat);
        assert(x.len() == 4 && y.len() == 4);
        lemma_four_digits(x);
        lemma_four_digits(y);
        lemma_four_precede(x, y);
    }
}

/// The number that four digits write.
proof fn lemma_four_digits(s: Seq<char>)
    requires
        s.len() == 4,
        text::all_digits(s),
    ensures
        text::decimal(s) == (s[0] as int - '0' as int) * 1000 + (s[1] as int - '0' as int) * 100 + (
        s[2] as int - '0' as int) * 10 + (s[3] as int - '0' as int),
{
    reveal_with_fuel(text::decimal, 5);
    assert(text::is_digit(s[0]) && text::is_digit(s[1]) && text::is_digit(s[2]) && text::is_digit(
        s[3],
    ));
}

/// Of two names of four digits, the one that writes less stands first.
proof fn lemma_four_precede(x: Seq<char>, y: Seq<char>)
    requires
        x.len() == 4,
        y.len() == 4,
        text::all_digits(x),
        text::all_digits(y),
        (x[0] as int) * 1000 + (x[1] as int) * 100 + (x[2] as int) * 10 + (x[3] as int) < (
        y[0] as int) * 1000 + (y[1] as int) * 100 + (y[2] as int) * 10 + (y[3] as int),
    ensures
        text::precedes(x, y),
{
    reveal_with_fuel(text::precedes, 5);
    assert forall|i: int| 0 <= i < 4 implies text::is_digit(#[trigger] x[i]) && text::is_digit(
        y[i],
    ) by {}
    let x1 = x.drop_first();
    let y1 = y.drop_first();
    let x2 = x1.drop_first();
    let y2 = y1.drop_first();
    let x3 = x2.drop_first();
    let y3 = y2.drop_first();
    assert(text::is_digit(x[0]) && text::is_digit(y[0]));
    assert(text::is_digit(x[1]) && text::is_digit(y[1]));
    assert(text::is_digit(x[2]) && text::is_digit(y[2]));
    assert(text::is_digit(x[3]) && text::is_digit(y[3]));
    assert(x1[0] == x[1] && y1[0] == y[1]);
    assert(x2[0] == x[2] && y2[0] == y[2]);
    assert(x3[0] == x[3] && y3[0] == y[3]);
}

/// What a file holds is a generation of the ring, where its name is that of
/// a key file.
pub open spec fn file_agrees(f: KeyFile, ring: KeyringView) -> bool {
    match kid_of_name(f.name@) {
        Some(k) => ring.keys.contains_key(k) && f.contents@ == text::hex_of(ring.keys[k]),
        None => true,
    }
}

/// The files hold exactly the generations of a ring, each in a file of its
/// own name.
pub open spec fn holds_ring(files: Seq<KeyFile>, ring: KeyringView) -> bool {
    &&& forall|k: Kid| #[trigger]
        ring.keys.contains_key(k) ==> exists|i: int|
            0 <= i < files.len() && (#[trigger] files[i]).name@ == kid_name(k)
    &&& forall|i: int| 0 <= i < files.len() ==> file_agrees(#[trigger] files[i], ring)
}

/// The key of a file that agrees with a ring.
proof fn lemma_agreeing_key(f: KeyFile, ring: KeyringView)
    requires
        file_agrees(f, ring),
        forall|k: Kid| #[trigger] ring.keys.contains_key(k) ==> ring.keys[k].len() == 32,
    ensures
        kid_of_name(f.name@) matches Some(k) ==> ring.keys.contains_key(k) && key_in(f.contents@)
            == Some(ring.keys[k]),
{
    if let Some(k) = kid_of_name(f.name@) {
        assert(ring.keys.contains_key(k));
        law_key_file_reads_back(ring.keys[k]);
    }
}

proof fn lemma_read_files(files: Seq<KeyFile>, ring: KeyringView)
    requires
        forall|i: int| 0 <= i < files.len() ==> file_agrees(#[trigger] files[i], ring),
        forall|k: Kid| #[trigger] ring.keys.contains_key(k) ==> ring.keys[k].len() == 32,
    ensures
        first_malformed(files) is None,
        keys_in(files).submap_of(ring.keys),
    decreases files.len(),
{
    if files.len() > 0 {
        let t = files.drop_last();
        assert forall|i: int| 0 <= i < t.len() implies file_agrees(#[trigger] t[i], ring) by {
            assert(t[i] == files[i]);
        }
        lemma_read_files(t, ring);
        let f = files[files.len() - 1];
        assert(f == files.last());
        lemma_agreeing_key(f, ring);
        let before = keys_in(t);
        match kid_of_name(f.name@) {
            Some(k) => {
                assert(keys_in(files) == before.insert(k, ring.keys[k]));
                assert(keys_in(files).submap_of(ring.keys));
            },
            None => {
                assert(keys_in(files) == before);
            },
        }
    }
}

proof fn lemma_every_file_is_read(files: Seq<KeyFile>, ring: KeyringView, i: int)
    requires
        0 <= i < files.len(),
        file_agrees(files[i], ring),
        kid_of_name(files[i].name@) is Some,
        forall|k: Kid| #[trigger] ring.keys.contains_key(k) ==> ring.keys[k].len() == 32,
    ensures
        keys_in(files).contains_key(kid_of_name(files[i].name@)->0),
    decreases files.len(),
{
    if i == files.len() - 1 {
        lemma_agreeing_key(files[i], ring);
        assert(files.last() == files[i]);
    } else {
        assert(files.drop_last()[i] == files[i]);
        lemma_every_file_is_read(files.drop_last(), ring, i);
    }
}

/// A restart preserves the ring: from the files and the pointer of a ring,
/// its generations and its current kid are read back.
pub proof fn law_reopening_preserves_the_ring(files: Seq<KeyFile>, ring: KeyringView)
    requires
        holds_ring(files, ring),
        ring.keys.contains_key(ring.current),
        forall|k: Kid| #[trigger] ring.keys.contains_key(k) ==> ring.keys[k].len() == 32,
    ensures
        first_malformed(files) is None,
        keys_in(files) == ring.keys,
        forall|c: Kid| #[trigger]
            opens_at(keys_in(files), Some(kid_name(ring.current) + "\n"@), c) <==> c
                == ring.current,
{
    lemma_read_files(files, ring);
    assert forall|k: Kid| #[trigger] ring.keys.contains_key(k) implies keys_in(
        files,
    ).contains_key(k) by {
        let i = choose|i: int|
            0 <= i < files.len() && (#[trigger] files[i]).name@ == kid_name(k);
        law_file_name_reads_back(k, kid_name(k));
        lemma_every_file_is_read(files, ring, i);
    }
    assert(keys_in(files) =~= ring.keys);
    law_pointer_reads_back(ring.current);
}

/// A promotion survives a restart: with the key file of the promoted
/// generation beside those of the ring, and the pointer at it, the ring is
/// read back with that generation current and every other as it was.
pub proof fn law_promotion_survives_reopening(
    files: Seq<KeyFile>,
    ring: KeyringView,
    added: KeyFile,
    kid: Kid,
    key: Seq<u8>,
)
    requires
        holds_ring(files, ring),
        forall|k: Kid| #[trigger] ring.keys.contains_key(k) ==> ring.keys[k].len() == 32,
        !ring.keys.contains_key(kid),
        key.len() == 32,
        added.name@ == kid_name(kid),
        added.contents@ == text::hex_of(key),
    ensures
        first_malformed(files.push(added)) is None,
        keys_in(files.push(added)) == ring.keys.insert(kid, key),
        forall|c: Kid| #[trigger]
            opens_at(keys_in(files.push(added)), Some(kid_name(kid) + "\n"@), c) <==> c == kid,
{
    let next = KeyringView { keys: ring.keys.insert(kid, key), current: kid };
    let all = files.push(added);
    law_file_name_reads_back(kid, kid_name(kid));
    assert forall|i: int| 0 <= i < all.len() implies file_agrees(#[trigger] all[i], next) by {
        if i < files.len() {
            assert(all[i] == files[i]);
            assert(file_agrees(files[i], ring));
        }
    }
    assert forall|k: Kid| #[trigger] next.keys.contains_key(k) implies exists|i: int|
        0 <= i < all.len() && (#[trigger] all[i]).name@ == kid_name(k) by {
        if k == kid {
            assert(all[files.len() as int].name@ == kid_name(k));
        } else {
            assert(ring.keys.contains_key(k));
            let i = choose|i: int|
                0 <= i < files.len() && (#[trigger] files[i]).name@ == kid_name(k);
            assert(all[i] == files[i]);
        }
    }
    law_reopening_preserves_the_ring(all, next);
}

/// Rotation keeps the newest generation current: adding the next one makes
/// it current and the highest and leaves the others as they are, and
/// retiring another leaves the current one the highest.
pub proof fn law_rotation_keeps_current_highest(ring: KeyringView, next: Kid, key: Seq<u8>, kid: Kid)
    requires
        ring.keys.contains_key(ring.current),
        highest_of(ring.keys.dom(), ring.current),
        next == ring.current + 1,
        kid != ring.current,
    ensures
        highest_of(ring.keys.insert(next, key).dom(), next),
        ring.keys.submap_of(ring.keys.insert(next, key)),
        highest_of(ring.keys.remove(kid).dom(), ring.current),
        ring.keys.remove(kid).contains_key(ring.current),
{
    assert(!ring.keys.dom().contains(next));
}

} // verus!
