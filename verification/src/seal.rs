//! The template seal: the operator's signed manifest that pins every
//! role's authority surface between provisioning and render time.
//!
//! A seal holds each role's lifetime bounds, its declared contract and the
//! hash of its policy template, under one MAC of the macaroon keyring.

pub mod pinned;

use crate::config::{Config, Role};
use crate::crypto;
use crate::json;
use crate::json::{Json, JsonView};
use crate::keyring::{Keyring, KeyringView, Kid};
use crate::map::NameMap;
use crate::sealed_cache;
use crate::sealed_cache::{CachePlan, CacheState, SealState, ServedSurface};
use crate::template;
use crate::text;
use vstd::prelude::*;
use vstd::utf8::*;

verus! {

/// Domain separator of seal MACs, distinct from those of the macaroon
/// tags: one key's seal MAC is never its credential MAC.
pub const SEAL_DOMAIN: &'static str = "mint-templates-seal-v1";

/// The sealed view of one role: everything of the role that bears on what
/// is rendered or granted.
#[derive(Debug)]
pub struct SealedRole {
    /// The declared `caveat.*` names.
    pub caveat: Vec<String>,
    pub default_ttl_seconds: u64,
    pub max_ttl_seconds: u64,
    pub min_ttl_seconds: u64,
    /// BLAKE3 of the policy template, in hexadecimal.
    pub policy_blake3: String,
    /// The declared `attested.*` names.
    pub attested: Vec<String>,
}

/// A sealed role, mathematically.
#[verifier::ext_equal]
pub struct SealedRoleView {
    pub caveat: Seq<Seq<char>>,
    pub default_ttl_seconds: u64,
    pub max_ttl_seconds: u64,
    pub min_ttl_seconds: u64,
    pub policy_blake3: Seq<char>,
    pub attested: Seq<Seq<char>>,
}

impl View for SealedRole {
    type V = SealedRoleView;

    open spec fn view(&self) -> SealedRoleView {
        SealedRoleView {
            caveat: text::texts(self.caveat@),
            default_ttl_seconds: self.default_ttl_seconds,
            max_ttl_seconds: self.max_ttl_seconds,
            min_ttl_seconds: self.min_ttl_seconds,
            policy_blake3: self.policy_blake3@,
            attested: text::texts(self.attested@),
        }
    }
}

impl SealedRole {
    /// A copy.
    pub fn copy(&self) -> (r: SealedRole)
        ensures
            r@ == self@,
    {
        SealedRole {
            caveat: text::copy_list(&self.caveat),
            default_ttl_seconds: self.default_ttl_seconds,
            max_ttl_seconds: self.max_ttl_seconds,
            min_ttl_seconds: self.min_ttl_seconds,
            policy_blake3: self.policy_blake3.clone(),
            attested: text::copy_list(&self.attested),
        }
    }

    /// Whether two roles are sealed alike.
    pub fn same(&self, other: &SealedRole) -> (r: bool)
        ensures
            r == (self@ == other@),
    {
        self.default_ttl_seconds == other.default_ttl_seconds && self.max_ttl_seconds
            == other.max_ttl_seconds && self.min_ttl_seconds == other.min_ttl_seconds
            && text::same_list(&self.caveat, &other.caveat) && text::same(
            self.policy_blake3.as_str(),
            other.policy_blake3.as_str(),
        ) && text::same_list(&self.attested, &other.attested)
    }
}

/// The complete seal: every role and the audience, MACed under one keyring
/// generation.
#[derive(Debug)]
pub struct Seal {
    pub audience: String,
    pub roles: NameMap<SealedRole>,
    /// BLAKE3 of the canonical environment, in hexadecimal.
    pub env_blake3: String,
    /// When the seal was authored; diagnostic, not part of the intent.
    pub sealed_at: String,
    pub kid: Kid,
    /// The MAC, in hexadecimal.
    pub mac: String,
}

/// The sealed roles, mathematically.
pub open spec fn roles_view(roles: NameMap<SealedRole>) -> Map<Seq<char>, SealedRoleView> {
    roles.map().map_values(|r: SealedRole| r@)
}

/// What a seal is about: the audience, the roles and the environment.
#[verifier::ext_equal]
pub struct Intent {
    pub audience: Seq<char>,
    pub roles: Map<Seq<char>, SealedRoleView>,
    pub env_blake3: Seq<char>,
}

/// A seal, mathematically.
#[verifier::ext_equal]
pub struct SealView {
    pub intent: Intent,
    pub sealed_at: Seq<char>,
    pub kid: Kid,
    pub mac: Seq<char>,
}

impl View for Seal {
    type V = SealView;

    open spec fn view(&self) -> SealView {
        SealView {
            intent: Intent {
                audience: self.audience@,
                roles: roles_view(self.roles),
                env_blake3: self.env_blake3@,
            },
            sealed_at: self.sealed_at@,
            kid: self.kid,
            mac: self.mac@,
        }
    }
}

/// Why a seal could not be used.
#[derive(Debug, PartialEq, Eq)]
pub enum SealError {
    /// A file could not be read or written.
    Io(String),
    /// The bytes of a seal could not be decoded.
    Decode(String),
    /// What was to be written does not match the seal.
    Encode(String),
    /// The seal's generation is not in the keyring.
    UnknownKid(Kid),
    /// The MAC does not verify under the named generation.
    BadMac,
}

/// The message of an error.
pub open spec fn error_text(e: SealError) -> Seq<char> {
    match e {
        SealError::Io(m) => "io: "@ + m@,
        SealError::Decode(m) => "decode seal: "@ + m@,
        SealError::Encode(m) => "encode seal: "@ + m@,
        SealError::UnknownKid(k) => "seal kid "@ + text::digits(k as nat)
            + " is not in the keyring"@,
        SealError::BadMac => "seal MAC verification failed"@,
    }
}

impl SealError {
    /// The message for the operator.
    pub fn message(&self) -> (r: String)
        ensures
            r@ == error_text(*self),
    {
        match self {
            SealError::Io(m) => text::concat("io: ", m.as_str()),
            SealError::Decode(m) => text::concat("decode seal: ", m.as_str()),
            SealError::Encode(m) => text::concat("encode seal: ", m.as_str()),
            SealError::UnknownKid(k) => {
                let mut m = text::owned("seal kid ");
                m.push_str(text::print_u64(*k as u64).as_str());
                m.push_str(" is not in the keyring");
                m
            },
            SealError::BadMac => text::owned("seal MAC verification failed"),
        }
    }
}

/// BLAKE3 of a byte string, in hexadecimal.
pub open spec fn hash_text(bytes: Seq<u8>) -> Seq<char> {
    text::hex_of(crypto::blake3_hash(bytes))
}

/// BLAKE3 of `bytes`, in hexadecimal: the encoding of every hash in a
/// seal.
pub fn hash_hex(bytes: &[u8]) -> (r: String)
    ensures
        r@ == hash_text(bytes@),
{
    let h = crypto::hash(bytes);
    text::encode_hex(&h)
}

/// A string as a document.
pub open spec fn str_doc(s: Seq<char>) -> JsonView {
    JsonView::Str(s)
}

/// A list of strings as a document.
pub open spec fn list_doc(items: Seq<Seq<char>>) -> JsonView {
    JsonView::Array(items.map_values(|s: Seq<char>| str_doc(s)))
}

/// A string as JSON text.
fn json_string(s: &str) -> (r: String)
    ensures
        r@ == json::json_text(str_doc(s@)),
{
    json::write_json(&Json::Str(text::owned(s)))
}

/// A list of strings as JSON text.
fn json_list(items: &[String]) -> (r: String)
    ensures
        r@ == json::json_text(list_doc(text::texts(items@))),
{
    let mut v: Vec<Json> = Vec::new();
    let mut i: usize = 0;
    while i < items.len()
        invariant
            i <= items@.len(),
            v@.len() == i,
            forall|j: int| 0 <= j < i ==> (#[trigger] v@[j])@ == str_doc(items@[j]@),
        decreases items@.len() - i,
    {
        v.push(Json::Str(items[i].clone()));
        i = i + 1;
    }
    let ghost list = v;
    let doc = Json::Array(v);
    proof {
        json::lemma_array_view(doc, list);
        assert(doc@ == list_doc(text::texts(items@))) by {
            assert(doc@->Array_0 =~= list_doc(text::texts(items@))->Array_0);
        }
        json::lemma_items_within(doc@->Array_0, 0);
    }
    json::write_json(&doc)
}

/// The canonical document of an environment: its entries in ascending
/// order of key.
pub open spec fn env_doc(env: Map<Seq<char>, Seq<char>>) -> JsonView {
    JsonView::Object(
        crate::map::listing(env.dom()).map_values(|k: Seq<char>| (k, str_doc(env[k]))),
    )
}

/// The canonical bytes of an environment.
pub open spec fn env_bytes(env: Map<Seq<char>, Seq<char>>) -> Seq<u8> {
    encode_utf8(json::json_pretty(env_doc(env)))
}

/// The hash of an environment.
pub open spec fn env_hash(env: Map<Seq<char>, Seq<char>>) -> Seq<char> {
    hash_text(env_bytes(env))
}

/// A map of strings as a document.
pub fn map_json(env: &NameMap<String>) -> (r: Json)
    ensures
        r@ == env_doc(env.texts()),
        json::shallow(r@),
{
    let n: usize = env.len();
    let ghost names = env.names();
    proof {
        env.lemma_names();
        assert(env.texts().dom() =~= env.map().dom());
    }
    let mut v: Vec<(String, Json)> = Vec::new();
    let mut i: usize = 0;
    while i < n
        invariant
            n == names.len(),
            names == env.names(),
            env.lists(),
            i <= n,
            v@.len() == i,
            forall|j: int|
                0 <= j < i ==> (#[trigger] v@[j]).0@ == names[j] && v@[j].1@ == str_doc(
                    env.texts()[names[j]],
                ),
        decreases n - i,
    {
        v.push((text::owned(env.name_at(i)), Json::Str(env.value_at(i).clone())));
        i = i + 1;
    }
    let ghost entries = v;
    let doc = Json::Object(v);
    proof {
        json::lemma_object_view(doc, entries);
        assert(doc@->Object_0 =~= env_doc(env.texts())->Object_0);
        json::lemma_entries_within(doc@->Object_0, 0);
    }
    doc
}

/// The canonical serialisation of an environment: every host that
/// materialises the same values produces the same text.
pub fn canonical_env_text(env: &NameMap<String>) -> (r: String)
    ensures
        r@ == json::json_pretty(env_doc(env.texts())),
{
    json::write_json_pretty(&map_json(env))
}

/// The sealed view of a role of a configuration. The place of the policy
/// file and the attestation mode are not sealed: the bytes are hashed,
/// and the mode is bound into each credential when it is minted.
pub open spec fn sealed_of(r: Role) -> SealedRoleView {
    SealedRoleView {
        caveat: text::texts(r.caveat@),
        default_ttl_seconds: r.default_ttl_seconds,
        max_ttl_seconds: r.max_ttl_seconds,
        min_ttl_seconds: r.min_ttl_seconds,
        policy_blake3: hash_text(encode_utf8(r.policy@)),
        attested: text::texts(r.attested@),
    }
}

/// What a seal of this configuration is about.
pub open spec fn intent_of(c: Config) -> Intent {
    Intent {
        audience: c.audience@,
        roles: c.roles.map().map_values(|r: Role| sealed_of(r)),
        env_blake3: env_hash(c.env.texts()),
    }
}

/// The sealed view of a role.
pub fn seal_role(r: &Role) -> (s: SealedRole)
    ensures
        s@ == sealed_of(*r),
{
    SealedRole {
        caveat: text::copy_list(&r.caveat),
        default_ttl_seconds: r.default_ttl_seconds,
        max_ttl_seconds: r.max_ttl_seconds,
        min_ttl_seconds: r.min_ttl_seconds,
        policy_blake3: hash_hex(r.policy.as_str().as_bytes()),
        attested: text::copy_list(&r.attested),
    }
}

/// The canonical text of a sealed role.
pub open spec fn role_text(r: SealedRoleView) -> Seq<char> {
    "{\"caveat\":"@ + json::json_text(list_doc(r.caveat)) + ",\"default_ttl_seconds\":"@
        + text::digits(r.default_ttl_seconds as nat) + ",\"max_ttl_seconds\":"@ + text::digits(
        r.max_ttl_seconds as nat,
    ) + ",\"min_ttl_seconds\":"@ + text::digits(r.min_ttl_seconds as nat)
        + ",\"policy_blake3\":"@ + json::json_text(str_doc(r.policy_blake3)) + ",\"attested\":"@
        + json::json_text(list_doc(r.attested)) + "}"@
}

/// The canonical text of the named roles, between commas.
pub open spec fn entries_text(
    names: Seq<Seq<char>>,
    roles: Map<Seq<char>, SealedRoleView>,
) -> Seq<char>
    decreases names.len(),
{
    if names.len() == 0 {
        Seq::empty()
    } else {
        entries_text(names.drop_last(), roles) + (if names.len() > 1 {
            ","@
        } else {
            Seq::empty()
        }) + json::json_text(str_doc(names.last())) + ":"@ + role_text(roles[names.last()])
    }
}

/// The canonical body of a seal: its JSON text with an empty MAC, the
/// fields in their fixed order and the roles in ascending order.
pub open spec fn body_text(s: SealView) -> Seq<char> {
    "{\"audience\":"@ + json::json_text(str_doc(s.intent.audience)) + ",\"roles\":{"@
        + entries_text(crate::map::listing(s.intent.roles.dom()), s.intent.roles) + "},\"env_blake3\":"@
        + json::json_text(str_doc(s.intent.env_blake3)) + ",\"sealed_at\":"@ + json::json_text(
        str_doc(s.sealed_at),
    ) + ",\"kid\":"@ + text::digits(s.kid as nat) + ",\"mac\":\"\"}"@
}

/// The bytes that the MAC of a seal is over.
pub open spec fn mac_input(s: SealView) -> Seq<u8> {
    encode_utf8(SEAL_DOMAIN@ + body_text(s))
}

/// The MAC of a seal under `key`.
pub open spec fn mac_of(s: SealView, key: Seq<u8>) -> Seq<u8> {
    crypto::blake3_keyed(key, mac_input(s))
}

/// Whether a seal verifies under a keyring: the key of its generation
/// gives the MAC that it carries.
pub open spec fn verifies(s: SealView, ring: KeyringView) -> bool {
    ring.keys.contains_key(s.kid) && text::read_hex32(s.mac) == Some(mac_of(s, ring.keys[s.kid]))
}

/// A seal answers to one MAC: where one verifies, the same seal with any
/// other MAC does not, nor does any seal of a generation outside the ring.
/// A seal that differs from it elsewhere and keeps its MAC, or the seal
/// itself under another key of its generation, verifies only where the
/// keyed hash gives that MAC for both. What the hash is over pins the
/// fields: see [`pinned`].
pub proof fn law_seal_answers_to_one_mac(s: SealView, t: SealView, ring: KeyringView, other: KeyringView)
    requires
        verifies(s, ring),
    ensures
        t.intent == s.intent && t.sealed_at == s.sealed_at && t.kid == s.kid && text::read_hex32(
            t.mac,
        ) != text::read_hex32(s.mac) ==> !verifies(t, ring),
        text::read_hex32(t.mac) is None ==> !verifies(t, ring),
        !ring.keys.contains_key(t.kid) ==> !verifies(t, ring),
        t.mac == s.mac && t.kid == s.kid ==> (verifies(t, ring) <==> mac_of(t, ring.keys[s.kid])
            == mac_of(s, ring.keys[s.kid])),
        other.keys.contains_key(s.kid) ==> (verifies(s, other) <==> mac_of(s, other.keys[s.kid])
            == mac_of(s, ring.keys[s.kid])),
{
}

fn sealed_role_text(r: &SealedRole) -> (t: String)
    ensures
        t@ == role_text(r@),
{
    let mut t = text::owned("{\"caveat\":");
    t.push_str(json_list(&r.caveat).as_str());
    t.push_str(",\"default_ttl_seconds\":");
    t.push_str(text::print_u64(r.default_ttl_seconds).as_str());
    t.push_str(",\"max_ttl_seconds\":");
    t.push_str(text::print_u64(r.max_ttl_seconds).as_str());
    t.push_str(",\"min_ttl_seconds\":");
    t.push_str(text::print_u64(r.min_ttl_seconds).as_str());
    t.push_str(",\"policy_blake3\":");
    t.push_str(json_string(r.policy_blake3.as_str()).as_str());
    t.push_str(",\"attested\":");
    t.push_str(json_list(&r.attested).as_str());
    t.push_str("}");
    t
}

fn roles_text(roles: &NameMap<SealedRole>) -> (t: String)
    ensures
        t@ == entries_text(crate::map::listing(roles_view(*roles).dom()), roles_view(*roles)),
{
    let n: usize = roles.len();
    let ghost names = roles.names();
    let ghost view = roles_view(*roles);
    proof {
        roles.lemma_names();
        assert(view.dom() =~= roles.map().dom());
        assert(names.take(0) =~= Seq::<Seq<char>>::empty());
        assert(names.take(n as int) =~= names);
    }
    let mut t = String::new();
    let mut i: usize = 0;
    while i < n
        invariant
            n == names.len(),
            names == roles.names(),
            view == roles_view(*roles),
            roles.lists(),
            i <= n,
            t@ == entries_text(names.take(i as int), view),
        decreases n - i,
    {
        proof {
            let next = names.take(i + 1);
            assert(next.drop_last() =~= names.take(i as int));
            assert(next.last() == names[i as int]);
        }
        let ghost before = t@;
        if i > 0 {
            t.push_str(",");
        }
        t.push_str(json_string(roles.name_at(i)).as_str());
        t.push_str(":");
        t.push_str(sealed_role_text(roles.value_at(i)).as_str());
        proof {
            if i == 0 {
                assert(before + Seq::<char>::empty() =~= before);
            }
        }
        i = i + 1;
    }
    t
}

/// A copy of the sealed roles.
pub fn copy_roles(roles: &NameMap<SealedRole>) -> (r: NameMap<SealedRole>)
    ensures
        roles_view(r) == roles_view(*roles),
{
    let n: usize = roles.len();
    let ghost names = roles.names();
    let mut r: NameMap<SealedRole> = NameMap::new();
    let mut i: usize = 0;
    while i < n
        invariant
            n == names.len(),
            names == roles.names(),
            roles.lists(),
            i <= n,
            forall|k: Seq<char>| #[trigger]
                r.map().contains_key(k) <==> names.take(i as int).contains(k),
            forall|k: Seq<char>| #[trigger]
                r.map().contains_key(k) ==> r.map()[k]@ == roles.map()[k]@,
        decreases n - i,
    {
        let ghost before = r.map();
        let ghost y = names[i as int];
        r.insert(text::owned(roles.name_at(i)), roles.value_at(i).copy());
        proof {
            assert(names.take(i + 1) =~= names.take(i as int).push(y));
            assert forall|k: Seq<char>| #[trigger]
                r.map().contains_key(k) <==> names.take(i + 1).contains(k) by {
                template::lemma_push_contains(names.take(i as int), y, k);
                assert(before.contains_key(k) <==> names.take(i as int).contains(k));
            }
            assert forall|k: Seq<char>| #[trigger]
                r.map().contains_key(k) implies r.map()[k]@ == roles.map()[k]@ by {
                if k != y {
                    assert(before.contains_key(k));
                }
            }
        }
        i = i + 1;
    }
    proof {
        assert(names.take(n as int) =~= names);
        let a = roles_view(r);
        let b = roles_view(*roles);
        assert forall|k: Seq<char>| a.contains_key(k) <==> b.contains_key(k) by {
            assert(r.map().contains_key(k) <==> names.contains(k));
        }
        assert(a =~= b);
    }
    r
}

/// Whether two sets of sealed roles are the same.
fn same_roles(a: &NameMap<SealedRole>, b: &NameMap<SealedRole>) -> (r: bool)
    ensures
        r == (roles_view(*a) == roles_view(*b)),
{
    let n: usize = a.len();
    let m: usize = b.len();
    let ghost va = roles_view(*a);
    let ghost vb = roles_view(*b);
    proof {
        a.lemma_names();
        b.lemma_names();
        assert(va.dom() =~= a.map().dom());
        assert(vb.dom() =~= b.map().dom());
    }
    if n != m {
        return false;
    }
    let mut i: usize = 0;
    while i < n
        invariant
            n == a.names().len(),
            n == b.names().len(),
            a.lists(),
            b.lists(),
            va == roles_view(*a),
            vb == roles_view(*b),
            a.names() == crate::map::listing(va.dom()),
            b.names() == crate::map::listing(vb.dom()),
            i <= n,
            forall|j: int|
                0 <= j < i ==> #[trigger] a.names()[j] == b.names()[j] && va[a.names()[j]]
                    == vb[a.names()[j]],
        decreases n - i,
    {
        let ghost x = a.names()[i as int];
        let ghost y = b.names()[i as int];
        if !text::same(a.name_at(i), b.name_at(i)) || !a.value_at(i).same(b.value_at(i)) {
            proof {
                assert(va[x] == a.map()[x]@);
                assert(vb[y] == b.map()[y]@);
                if va == vb {
                    assert(a.names() == b.names());
                }
            }
            return false;
        }
        i = i + 1;
    }
    proof {
        assert(a.names() =~= b.names());
        assert forall|k: Seq<char>| va.contains_key(k) <==> vb.contains_key(k) by {
            assert(a.names().contains(k) <==> a.map().contains_key(k));
            assert(b.names().contains(k) <==> b.map().contains_key(k));
        }
        assert forall|k: Seq<char>| va.contains_key(k) implies va[k] == vb[k] by {
            assert(a.names().contains(k) <==> a.map().contains_key(k));
            let j = choose|j: int| 0 <= j < a.names().len() && a.names()[j] == k;
            assert(va[a.names()[j]] == vb[a.names()[j]]);
        }
        assert(va =~= vb);
    }
    true
}

impl Seal {
    /// A copy.
    pub fn copy(&self) -> (r: Seal)
        ensures
            r@ == self@,
    {
        Seal {
            audience: self.audience.clone(),
            roles: copy_roles(&self.roles),
            env_blake3: self.env_blake3.clone(),
            sealed_at: self.sealed_at.clone(),
            kid: self.kid,
            mac: self.mac.clone(),
        }
    }

    /// Builds a seal of a loaded configuration, MACed under the keyring's
    /// current generation. It verifies under that keyring.
    pub fn build_from_config(config: &Config, keyring: &Keyring, sealed_at: &str) -> (r: Seal)
        ensures
            r@.intent == intent_of(*config),
            r@.sealed_at == sealed_at@,
            r@.kid == keyring@.current,
            r@.mac == text::hex_of(mac_of(r@, keyring@.keys[keyring@.current])),
            r@.mac.len() == 64,
            verifies(r@, keyring@),
    {
        let n: usize = config.roles.len();
        let ghost names = config.roles.names();
        let ghost want = intent_of(*config).roles;
        let mut roles: NameMap<SealedRole> = NameMap::new();
        let mut i: usize = 0;
        while i < n
            invariant
                n == names.len(),
                names == config.roles.names(),
                config.roles.lists(),
                want == intent_of(*config).roles,
                i <= n,
                forall|k: Seq<char>| #[trigger]
                    roles.map().contains_key(k) <==> names.take(i as int).contains(k),
                forall|k: Seq<char>| #[trigger]
                    roles.map().contains_key(k) ==> roles.map()[k]@ == want[k],
            decreases n - i,
        {
            let ghost before = roles.map();
            let ghost y = names[i as int];
            roles.insert(text::owned(config.roles.name_at(i)), seal_role(config.roles.value_at(i)));
            proof {
                assert(names.take(i + 1) =~= names.take(i as int).push(y));
                assert forall|k: Seq<char>| #[trigger]
                    roles.map().contains_key(k) <==> names.take(i + 1).contains(k) by {
                    template::lemma_push_contains(names.take(i as int), y, k);
                    assert(before.contains_key(k) <==> names.take(i as int).contains(k));
                }
                assert forall|k: Seq<char>| #[trigger]
                    roles.map().contains_key(k) implies roles.map()[k]@ == want[k] by {
                    if k != y {
                        assert(before.contains_key(k));
                    }
                }
            }
            i = i + 1;
        }
        proof {
            assert(names.take(n as int) =~= names);
            let a = roles_view(roles);
            assert forall|k: Seq<char>| a.contains_key(k) <==> want.contains_key(k) by {
                assert(roles.map().contains_key(k) <==> names.contains(k));
            }
            assert(a =~= want);
        }
        let env_blake3 = hash_hex(canonical_env_text(&config.env).as_str().as_bytes());
        let kid = keyring.current_kid();
        let mut seal = Seal {
            audience: config.audience.clone(),
            roles,
            env_blake3,
            sealed_at: text::owned(sealed_at),
            kid,
            mac: String::new(),
        };
        let mac = seal.compute_mac(keyring.current_key());
        seal.mac = text::encode_hex(&mac);
        proof {
            text::lemma_hex32_round_trip(mac@);
        }
        seal
    }

    /// Verifies the MAC. The seal's own generation selects the key; one
    /// that is not in the ring is refused before the MAC is looked at.
    pub fn verify(&self, keyring: &Keyring) -> (r: Result<(), SealError>)
        ensures
            r is Ok <==> verifies(self@, keyring@),
            r matches Err(e) ==> e == (if keyring@.keys.contains_key(self.kid) {
                SealError::BadMac
            } else {
                SealError::UnknownKid(self.kid)
            }),
    {
        match keyring.get(self.kid) {
            None => Err(SealError::UnknownKid(self.kid)),
            Some(key) => {
                let expected = self.compute_mac(key);
                match text::decode_hex32(self.mac.as_str()) {
                    None => Err(SealError::BadMac),
                    Some(actual) => if crate::bytes::same_bytes(&expected, &actual) {
                        Ok(())
                    } else {
                        Err(SealError::BadMac)
                    },
                }
            },
        }
    }

    /// Whether two seals pin the same intent. When they were authored, the
    /// generation and the MAC are ignored, so that two hosts which sign
    /// the same templates reconcile.
    pub fn semantically_equal(&self, other: &Seal) -> (r: bool)
        ensures
            r == (self@.intent == other@.intent),
    {
        text::same(self.audience.as_str(), other.audience.as_str()) && same_roles(
            &self.roles,
            &other.roles,
        ) && text::same(self.env_blake3.as_str(), other.env_blake3.as_str())
    }

    /// The MAC under `key`.
    pub fn compute_mac(&self, key: &[u8; 32]) -> (r: [u8; 32])
        ensures
            r@ == mac_of(self@, key@),
    {
        let mut t = text::owned(SEAL_DOMAIN);
        t.push_str("{\"audience\":");
        t.push_str(json_string(self.audience.as_str()).as_str());
        t.push_str(",\"roles\":{");
        t.push_str(roles_text(&self.roles).as_str());
        t.push_str("},\"env_blake3\":");
        t.push_str(json_string(self.env_blake3.as_str()).as_str());
        t.push_str(",\"sealed_at\":");
        t.push_str(json_string(self.sealed_at.as_str()).as_str());
        t.push_str(",\"kid\":");
        t.push_str(text::print_u64(self.kid as u64).as_str());
        t.push_str(",\"mac\":\"\"}");
        assert(t@ =~= SEAL_DOMAIN@ + body_text(self@));
        crypto::keyed_hash(key, t.as_str().as_bytes())
    }

    /// Whether `env` reproduces the environment hash that this seal pins.
    pub fn env_matches(&self, env: &NameMap<String>) -> (r: bool)
        ensures
            r == (self@.intent.env_blake3 == env_hash(env.texts())),
    {
        text::same(
            self.env_blake3.as_str(),
            hash_hex(canonical_env_text(env).as_str().as_bytes()).as_str(),
        )
    }
}

/// A list of strings as `Debug` writes it.
pub open spec fn quoted_list(items: Seq<Seq<char>>) -> Seq<char> {
    "["@ + text::joined(items.map_values(|s: Seq<char>| template::quoted(s)), ", "@) + "]"@
}

pub(crate) fn quote_list(items: &[String]) -> (r: String)
    ensures
        r@ == quoted_list(text::texts(items@)),
{
    let mut v: Vec<String> = Vec::new();
    let mut i: usize = 0;
    while i < items.len()
        invariant
            i <= items@.len(),
            v@.len() == i,
            forall|j: int| 0 <= j < i ==> (#[trigger] v@[j])@ == template::quoted(items@[j]@),
        decreases items@.len() - i,
    {
        v.push(template::quote(items[i].as_str()));
        i = i + 1;
    }
    assert(text::texts(v@) =~= text::texts(items@).map_values(
        |s: Seq<char>| template::quoted(s),
    ));
    let mut r = text::owned("[");
    r.push_str(text::join(&v, ", ").as_str());
    r.push_str("]");
    r
}

/// The three bounds of a role, as a line of a diff names them.
pub open spec fn bounds_text(r: SealedRoleView) -> Seq<char> {
    "("@ + text::digits(r.min_ttl_seconds as nat) + ", "@ + text::digits(
        r.default_ttl_seconds as nat,
    ) + ", "@ + text::digits(r.max_ttl_seconds as nat) + ")"@
}

/// The lines on one part of a role: none where the part agrees.
pub open spec fn part_line(
    agrees: bool,
    name: Seq<char>,
    part: Seq<char>,
    sealed: Seq<char>,
    mid: Seq<char>,
    local: Seq<char>,
) -> Seq<Seq<char>> {
    if agrees {
        Seq::empty()
    } else {
        seq!["role "@ + name + ": "@ + part + " sealed as "@ + sealed + mid + local]
    }
}

/// The lines on a role that is configured locally.
pub open spec fn role_lines(
    name: Seq<char>,
    sealed: Map<Seq<char>, SealedRoleView>,
    local: SealedRoleView,
) -> Seq<Seq<char>> {
    if !sealed.contains_key(name) {
        seq!["role "@ + name + ": not in seal"@]
    } else {
        let s = sealed[name];
        part_line(
            s.min_ttl_seconds == local.min_ttl_seconds && s.max_ttl_seconds
                == local.max_ttl_seconds && s.default_ttl_seconds == local.default_ttl_seconds,
            name,
            "TTL bounds"@,
            bounds_text(s),
            ", local has "@,
            bounds_text(local),
        ) + part_line(
            s.policy_blake3 == local.policy_blake3,
            name,
            "policy_blake3"@,
            s.policy_blake3,
            ", local file hashes to "@,
            local.policy_blake3,
        ) + part_line(
            s.attested == local.attested,
            name,
            "attested contract"@,
            quoted_list(s.attested),
            ", local config has "@,
            quoted_list(local.attested),
        ) + part_line(
            s.caveat == local.caveat,
            name,
            "caveat contract"@,
            quoted_list(s.caveat),
            ", local config has "@,
            quoted_list(local.caveat),
        )
    }
}

/// The lines on the roles `names`, all configured locally.
pub open spec fn local_lines(
    names: Seq<Seq<char>>,
    sealed: Map<Seq<char>, SealedRoleView>,
    local: Map<Seq<char>, SealedRoleView>,
) -> Seq<Seq<char>>
    decreases names.len(),
{
    if names.len() == 0 {
        Seq::empty()
    } else {
        local_lines(names.drop_last(), sealed, local) + role_lines(
            names.last(),
            sealed,
            local[names.last()],
        )
    }
}

/// The lines on those of the sealed roles `names` that are not configured
/// locally.
pub open spec fn absent_lines(
    names: Seq<Seq<char>>,
    local: Map<Seq<char>, SealedRoleView>,
) -> Seq<Seq<char>>
    decreases names.len(),
{
    if names.len() == 0 {
        Seq::empty()
    } else {
        absent_lines(names.drop_last(), local) + (if local.contains_key(names.last()) {
            Seq::empty()
        } else {
            seq!["role "@ + names.last() + ": in seal but absent from local config"@]
        })
    }
}

/// The lines on the audience and the environment.
pub open spec fn head_lines(sealed: Intent, local: Intent) -> Seq<Seq<char>> {
    (if sealed.audience == local.audience {
        Seq::empty()
    } else {
        seq![
            "audience: sealed as "@ + template::quoted(sealed.audience) + ", local config has "@
                + template::quoted(local.audience),
        ]
    }) + (if sealed.env_blake3 == local.env_blake3 {
        Seq::empty()
    } else {
        seq![
            "env: sealed as "@ + sealed.env_blake3 + ", local [env] hashes to "@
                + local.env_blake3,
        ]
    })
}

/// One line per divergence of a local intent from a sealed one.
pub open spec fn diff_lines(sealed: Intent, local: Intent) -> Seq<Seq<char>> {
    head_lines(sealed, local) + local_lines(
        crate::map::listing(local.roles.dom()),
        sealed.roles,
        local.roles,
    ) + absent_lines(crate::map::listing(sealed.roles.dom()), local.roles)
}

/// The local roles `names` agree where they give no line.
proof fn lemma_local_agree(
    names: Seq<Seq<char>>,
    sealed: Map<Seq<char>, SealedRoleView>,
    local: Map<Seq<char>, SealedRoleView>,
)
    ensures
        local_lines(names, sealed, local).len() == 0 <==> forall|i: int|
            0 <= i < names.len() ==> sealed.contains_key(#[trigger] names[i]) && sealed[names[i]]
                == local[names[i]],
    decreases names.len(),
{
    if names.len() > 0 {
        let init = names.drop_last();
        lemma_local_agree(init, sealed, local);
        let last = names.last();
        assert(role_lines(last, sealed, local[last]).len() == 0 <==> (sealed.contains_key(last)
            && sealed[last] == local[last]));
        if local_lines(names, sealed, local).len() == 0 {
            assert forall|i: int| 0 <= i < names.len() implies sealed.contains_key(
                #[trigger] names[i],
            ) && sealed[names[i]] == local[names[i]] by {
                if i < init.len() {
                    assert(init[i] == names[i]);
                }
            }
        } else {
            if local_lines(init, sealed, local).len() != 0 {
                let i = choose|i: int|
                    0 <= i < init.len() && !(sealed.contains_key(#[trigger] init[i])
                        && sealed[init[i]] == local[init[i]]);
                assert(names[i] == init[i]);
            } else {
                assert(names[names.len() - 1] == last);
            }
        }
    }
}

/// The sealed roles `names` are all configured locally where they give no
/// line.
proof fn lemma_none_absent(names: Seq<Seq<char>>, local: Map<Seq<char>, SealedRoleView>)
    ensures
        absent_lines(names, local).len() == 0 <==> forall|i: int|
            0 <= i < names.len() ==> local.contains_key(#[trigger] names[i]),
    decreases names.len(),
{
    if names.len() > 0 {
        let init = names.drop_last();
        lemma_none_absent(init, local);
        if absent_lines(names, local).len() == 0 {
            assert forall|i: int| 0 <= i < names.len() implies local.contains_key(
                #[trigger] names[i],
            ) by {
                if i < init.len() {
                    assert(init[i] == names[i]);
                }
            }
        } else if absent_lines(init, local).len() != 0 {
            let i = choose|i: int| 0 <= i < init.len() && !local.contains_key(#[trigger] init[i]);
            assert(names[i] == init[i]);
        } else {
            assert(names[names.len() - 1] == names.last());
        }
    }
}

/// There is no line exactly where the two intents are the same.
pub proof fn law_no_line_means_agreement(sealed: Intent, local: Intent)
    requires
        sealed.roles.dom().finite(),
        local.roles.dom().finite(),
    ensures
        diff_lines(sealed, local).len() == 0 <==> sealed == local,
{
    crate::map::lemma_listing_exists(sealed.roles.dom());
    crate::map::lemma_listing_exists(local.roles.dom());
    let ln = crate::map::listing(local.roles.dom());
    let sn = crate::map::listing(sealed.roles.dom());
    lemma_local_agree(ln, sealed.roles, local.roles);
    lemma_none_absent(sn, local.roles);
    if diff_lines(sealed, local).len() == 0 {
        assert forall|k: Seq<char>| sealed.roles.contains_key(k) <==> local.roles.contains_key(
            k,
        ) by {
            if sealed.roles.contains_key(k) {
                assert(sn.contains(k));
                let i = choose|i: int| 0 <= i < sn.len() && sn[i] == k;
                assert(local.roles.contains_key(sn[i]));
            }
            if local.roles.contains_key(k) {
                assert(ln.contains(k));
                let i = choose|i: int| 0 <= i < ln.len() && ln[i] == k;
                assert(sealed.roles.contains_key(ln[i]));
            }
        }
        assert forall|k: Seq<char>| sealed.roles.contains_key(k) implies sealed.roles[k]
            == local.roles[k] by {
            assert(local.roles.contains_key(k));
            assert(ln.contains(k));
            let i = choose|i: int| 0 <= i < ln.len() && ln[i] == k;
            assert(sealed.roles[ln[i]] == local.roles[ln[i]]);
        }
        assert(sealed.roles =~= local.roles);
    }
    if sealed == local {
        assert forall|i: int| 0 <= i < ln.len() implies sealed.roles.contains_key(
            #[trigger] ln[i],
        ) && sealed.roles[ln[i]] == local.roles[ln[i]] by {
            assert(ln.contains(ln[i]));
        }
        assert forall|i: int| 0 <= i < sn.len() implies local.roles.contains_key(
            #[trigger] sn[i],
        ) by {
            assert(sn.contains(sn[i]));
        }
    }
}

/// Adds one line.
proof fn lemma_push_line(out: Seq<String>, line: String)
    ensures
        text::texts(out.push(line)) == text::texts(out) + seq![line@],
{
    assert(text::texts(out.push(line)) =~= text::texts(out) + seq![line@]);
}

fn add_part(
    out: &mut Vec<String>,
    agrees: bool,
    name: &str,
    part: &str,
    sealed: &str,
    mid: &str,
    local: &str,
)
    ensures
        text::texts(final(out)@) == text::texts(old(out)@) + part_line(
            agrees,
            name@,
            part@,
            sealed@,
            mid@,
            local@,
        ),
{
    if !agrees {
        let mut line = text::owned("role ");
        line.push_str(name);
        line.push_str(": ");
        line.push_str(part);
        line.push_str(" sealed as ");
        line.push_str(sealed);
        line.push_str(mid);
        line.push_str(local);
        proof {
            lemma_push_line(out@, line);
        }
        out.push(line);
    } else {
        assert(text::texts(out@) + Seq::<Seq<char>>::empty() =~= text::texts(out@));
    }
}

fn bounds(r: &SealedRole) -> (t: String)
    ensures
        t@ == bounds_text(r@),
{
    let mut t = text::owned("(");
    t.push_str(text::print_u64(r.min_ttl_seconds).as_str());
    t.push_str(", ");
    t.push_str(text::print_u64(r.default_ttl_seconds).as_str());
    t.push_str(", ");
    t.push_str(text::print_u64(r.max_ttl_seconds).as_str());
    t.push_str(")");
    t
}

fn add_role(
    out: &mut Vec<String>,
    name: &str,
    roles: &NameMap<SealedRole>,
    local: &SealedRole,
)
    ensures
        text::texts(final(out)@) == text::texts(old(out)@) + role_lines(
            name@,
            roles_view(*roles),
            local@,
        ),
{
    let ghost start = text::texts(out@);
    match roles.get(name) {
        None => {
            let mut line = text::owned("role ");
            line.push_str(name);
            line.push_str(": not in seal");
            proof {
                lemma_push_line(out@, line);
            }
            out.push(line);
        },
        Some(s) => {
            assert(roles_view(*roles)[name@] == s@);
            add_part(
                out,
                s.min_ttl_seconds == local.min_ttl_seconds && s.max_ttl_seconds
                    == local.max_ttl_seconds && s.default_ttl_seconds == local.default_ttl_seconds,
                name,
                "TTL bounds",
                bounds(s).as_str(),
                ", local has ",
                bounds(local).as_str(),
            );
            add_part(
                out,
                text::same(s.policy_blake3.as_str(), local.policy_blake3.as_str()),
                name,
                "policy_blake3",
                s.policy_blake3.as_str(),
                ", local file hashes to ",
                local.policy_blake3.as_str(),
            );
            add_part(
                out,
                text::same_list(&s.attested, &local.attested),
                name,
                "attested contract",
                quote_list(&s.attested).as_str(),
                ", local config has ",
                quote_list(&local.attested).as_str(),
            );
            add_part(
                out,
                text::same_list(&s.caveat, &local.caveat),
                name,
                "caveat contract",
                quote_list(&s.caveat).as_str(),
                ", local config has ",
                quote_list(&local.caveat).as_str(),
            );
            assert(text::texts(out@) =~= start + role_lines(name@, roles_view(*roles), local@));
        },
    }
}

impl Seal {
    /// One line per divergence of a configuration from what this seal
    /// pins; none where they agree.
    pub fn diff_against_config(&self, config: &Config) -> (r: Vec<String>)
        ensures
            text::texts(r@) == diff_lines(self@.intent, intent_of(*config)),
            r@.len() == 0 <==> self@.intent == intent_of(*config),
    {
        let ghost sealed = self@.intent;
        let ghost local = intent_of(*config);
        let mut out: Vec<String> = Vec::new();
        if !text::same(self.audience.as_str(), config.audience.as_str()) {
            let mut line = text::owned("audience: sealed as ");
            line.push_str(template::quote(self.audience.as_str()).as_str());
            line.push_str(", local config has ");
            line.push_str(template::quote(config.audience.as_str()).as_str());
            proof {
                lemma_push_line(out@, line);
            }
            out.push(line);
        }
        let env_blake3 = hash_hex(canonical_env_text(&config.env).as_str().as_bytes());
        if !text::same(self.env_blake3.as_str(), env_blake3.as_str()) {
            let mut line = text::owned("env: sealed as ");
            line.push_str(self.env_blake3.as_str());
            line.push_str(", local [env] hashes to ");
            line.push_str(env_blake3.as_str());
            proof {
                lemma_push_line(out@, line);
            }
            out.push(line);
        }
        let ghost head = head_lines(sealed, local);
        assert(text::texts(out@) =~= head);
        let n: usize = config.roles.len();
        let ghost ln = config.roles.names();
        proof {
            config.roles.lemma_names();
            assert(local.roles.dom() =~= config.roles.map().dom());
            assert(ln.take(0) =~= Seq::<Seq<char>>::empty());
            assert(ln.take(n as int) =~= ln);
            assert(head + local_lines(ln.take(0), sealed.roles, local.roles) =~= head);
        }
        let mut i: usize = 0;
        while i < n
            invariant
                n == ln.len(),
                ln == config.roles.names(),
                config.roles.lists(),
                sealed == self@.intent,
                local == intent_of(*config),
                i <= n,
                text::texts(out@) == head + local_lines(
                    ln.take(i as int),
                    sealed.roles,
                    local.roles,
                ),
            decreases n - i,
        {
            let ghost start = text::texts(out@);
            add_role(
                &mut out,
                config.roles.name_at(i),
                &self.roles,
                &seal_role(config.roles.value_at(i)),
            );
            proof {
                let next = ln.take(i + 1);
                assert(next.drop_last() =~= ln.take(i as int));
                assert(next.last() == ln[i as int]);
                assert(text::texts(out@) =~= head + local_lines(next, sealed.roles, local.roles));
            }
            i = i + 1;
        }
        let ghost upto = text::texts(out@);
        let m: usize = self.roles.len();
        let ghost sn = self.roles.names();
        proof {
            self.roles.lemma_names();
            assert(sealed.roles.dom() =~= self.roles.map().dom());
            assert(sn.take(0) =~= Seq::<Seq<char>>::empty());
            assert(sn.take(m as int) =~= sn);
            assert(upto + absent_lines(sn.take(0), local.roles) =~= upto);
        }
        let mut j: usize = 0;
        while j < m
            invariant
                m == sn.len(),
                sn == self.roles.names(),
                self.roles.lists(),
                local == intent_of(*config),
                j <= m,
                text::texts(out@) == upto + absent_lines(sn.take(j as int), local.roles),
            decreases m - j,
        {
            proof {
                let next = sn.take(j + 1);
                assert(next.drop_last() =~= sn.take(j as int));
                assert(next.last() == sn[j as int]);
            }
            let ghost start = text::texts(out@);
            let name = self.roles.name_at(j);
            if !config.roles.contains_key(name) {
                let mut line = text::owned("role ");
                line.push_str(name);
                line.push_str(": in seal but absent from local config");
                proof {
                    lemma_push_line(out@, line);
                }
                out.push(line);
            }
            assert(text::texts(out@) =~= upto + absent_lines(sn.take(j + 1), local.roles));
            j = j + 1;
        }
        proof {
            assert(ln.to_set() =~= local.roles.dom());
            assert(sn.to_set() =~= sealed.roles.dom());
            law_no_line_means_agreement(sealed, local);
            assert(text::texts(out@).len() == out@.len());
        }
        out
    }
}

/// What the operator is told of a startup.
#[derive(Debug)]
pub enum StartupNote {
    /// No seal is published; no roles are available until one is.
    NoSeal,
    /// The published seal does not verify under the current keyring.
    Unverified(SealError),
    /// The local templates do not match the published seal.
    Mismatch(Vec<String>),
    /// The seal verified and is served.
    Serving,
    /// Template changes are staged but not sealed; the sealed content is
    /// served.
    Drifted(Vec<String>),
}

/// What a startup resolves to.
#[derive(Debug)]
pub struct Startup {
    pub state: SealState,
    /// The cache to write before serving, where the seal is adopted from
    /// the local templates.
    pub plan: Option<CachePlan>,
    /// Why the cache was passed over as corrupt.
    pub corrupt: Option<String>,
    pub note: StartupNote,
}

/// The lines of a note are those of this diff.
pub open spec fn lines_are(lines: Seq<String>, sealed: Intent, local: Intent) -> bool {
    text::texts(lines) == diff_lines(sealed, local)
}

/// What is served for a verified seal: the cache where it satisfies the
/// seal, else the local templates where they do, else nothing.
pub open spec fn surface_resolved(
    s: Startup,
    config: Config,
    bucket: SealView,
    cache: CacheState,
) -> bool {
    let local = intent_of(config);
    &&& match cache {
        CacheState::Corrupt { reason } => s.corrupt matches Some(c) && c@ == reason@,
        _ => s.corrupt is None,
    }
    &&& match cache {
        CacheState::Loaded { seal, templates, env } if seal@.intent == bucket.intent => {
            &&& s.plan is None
            &&& s.state matches SealState::Serving(f)
            &&& f.seal@ == bucket
            &&& f.templates@ == templates@
            &&& f.env.texts() == env.texts()
        },
        _ => if local == bucket.intent {
            &&& s.state matches SealState::Serving(f)
            &&& f.seal@ == bucket
            &&& f.templates@ == sealed_cache::policies_of(config)
            &&& f.env.texts() == config.env.texts()
            &&& f.holds()
            &&& s.plan matches Some(p)
            &&& sealed_cache::plan_of(p, f.templates@, f.env.texts())
        } else {
            s.plan is None && s.state is Dormant && (s.note matches StartupNote::Mismatch(d)
                && lines_are(d@, bucket.intent, local))
        },
    }
    &&& s.state is Serving ==> match s.note {
        StartupNote::Serving => local == bucket.intent,
        StartupNote::Drifted(d) => local != bucket.intent && lines_are(
            d@,
            bucket.intent,
            local,
        ),
        _ => false,
    }
}

/// Resolves the served surface of a verified seal.
fn resolve_surface(config: &Config, seal: Seal, cache: CacheState) -> (r: Startup)
    ensures
        surface_resolved(r, *config, seal@, cache),
{
    let ghost bucket = seal@;
    let diff = seal.diff_against_config(config);
    let agree = diff.len() == 0;
    let note = if agree {
        StartupNote::Serving
    } else {
        StartupNote::Drifted(diff)
    };
    let mut corrupt: Option<String> = None;
    match cache {
        CacheState::Loaded { seal: cached, templates, env } => {
            if cached.semantically_equal(&seal) {
                return Startup {
                    state: SealState::Serving(ServedSurface { seal, templates, env }),
                    plan: None,
                    corrupt: None,
                    note,
                };
            }
        },
        CacheState::Corrupt { reason } => {
            corrupt = Some(reason);
        },
        CacheState::Absent => {},
    }
    if agree {
        match ServedSurface::materialize(config, &seal) {
            Ok((surface, plan)) => {
                return Startup {
                    state: SealState::Serving(surface),
                    plan: Some(plan),
                    corrupt,
                    note,
                };
            },
            Err(_) => {},
        }
    }
    match note {
        StartupNote::Drifted(d) => Startup {
            state: SealState::Dormant,
            plan: None,
            corrupt,
            note: StartupNote::Mismatch(d),
        },
        n => Startup { state: SealState::Dormant, plan: None, corrupt, note: n },
    }
}

/// Resolves what a starting server serves. A published seal that is
/// missing, or that does not verify, leaves the server dormant; it never
/// commits local bytes as canonical on its own. A verified seal is served
/// from the cache that satisfies it, or adopted from local templates that
/// do; a host whose templates do not is dormant, with the diff. Only a
/// cache that could not be read is an error.
///
/// Whatever is served carries a seal that verifies under the keyring.
pub fn resolve_startup(
    config: &Config,
    keyring: &Keyring,
    bucket: Option<Seal>,
    cache: Result<CacheState, SealError>,
) -> (r: Result<Startup, String>)
    ensures
        match bucket {
            None => r matches Ok(s) && s.state is Dormant && s.note is NoSeal && s.plan is None
                && s.corrupt is None,
            Some(b) => if !verifies(b@, keyring@) {
                r matches Ok(s) && s.state is Dormant && s.plan is None && s.corrupt is None
                    && s.note == StartupNote::Unverified(
                    if keyring@.keys.contains_key(b.kid) {
                        SealError::BadMac
                    } else {
                        SealError::UnknownKid(b.kid)
                    },
                )
            } else {
                match cache {
                    Err(e) => r matches Err(m) && m@ == "load sealed cache: "@ + error_text(e),
                    Ok(c) => r matches Ok(s) && surface_resolved(s, *config, b@, c),
                }
            },
        },
        r matches Ok(s) ==> (s.state matches SealState::Serving(f) ==> verifies(
            f.seal@,
            keyring@,
        )),
{
    let seal = match bucket {
        None => {
            return Ok(
                Startup {
                    state: SealState::Dormant,
                    plan: None,
                    corrupt: None,
                    note: StartupNote::NoSeal,
                },
            );
        },
        Some(s) => s,
    };
    match seal.verify(keyring) {
        Err(e) => {
            return Ok(
                Startup {
                    state: SealState::Dormant,
                    plan: None,
                    corrupt: None,
                    note: StartupNote::Unverified(e),
                },
            );
        },
        Ok(_) => {},
    }
    match cache {
        Err(e) => Err(text::concat("load sealed cache: ", e.message().as_str())),
        Ok(c) => Ok(resolve_surface(config, seal, c)),
    }
}

} // verus!
