//! The local sealed cache: a host's last verified template state, the
//! bytes that it serves from, and how the served surface is resolved at
//! startup.
//!
//! ```text
//! <data_dir>/sealed/
//!   seal.json            the canonical seal that this cache satisfies
//!   policies/<blake3>    one file per policy template, by content
//!   env.json             the environment values, pinned by the seal
//! ```
//!
//! Reading and writing these files is the caller's part: the functions
//! here say what to write, and judge what was read.

use crate::bytes;
use crate::config::{Config, Role};
use crate::keyring::{Keyring, KeyringView};
use crate::map::NameMap;
use crate::seal;
use crate::seal::{Intent, Seal, SealError, SealView, SealedRole, SealedRoleView};
use crate::template;
use crate::text;
use vstd::prelude::*;
use vstd::utf8::*;

verus! {

/// Directory of the cache, under the data directory.
pub const SEALED_DIR: &'static str = "sealed";

/// Directory of the policy templates, under the cache.
pub const POLICIES_DIR: &'static str = "policies";

/// The cached copy of the canonical seal.
pub const SEAL_FILE: &'static str = "seal.json";

/// The cached environment values.
pub const ENV_FILE: &'static str = "env.json";

/// The immutable set of policy templates to render from, by role.
#[derive(Debug)]
pub struct TemplateSet {
    policies: NameMap<String>,
}

impl View for TemplateSet {
    type V = Map<Seq<char>, Seq<char>>;

    closed spec fn view(&self) -> Map<Seq<char>, Seq<char>> {
        self.policies.texts()
    }
}

impl TemplateSet {
    /// Wraps the templates of the roles.
    pub fn from_policies(policies: NameMap<String>) -> (r: TemplateSet)
        ensures
            r@ == policies.texts(),
    {
        TemplateSet { policies }
    }

    /// The template of `role`, where the role is in the set.
    pub fn get(&self, role: &str) -> (r: Option<&str>)
        ensures
            match r {
                Some(p) => self@.contains_key(role@) && p@ == self@[role@],
                None => !self@.contains_key(role@),
            },
    {
        self.policies.text(role)
    }

    /// The role names in the set, ascending.
    pub fn roles(&self) -> (r: Vec<String>)
        ensures
            text::texts(r@) == crate::map::listing(self@.dom()),
            crate::map::is_listing(self@.dom(), text::texts(r@)),
    {
        let n: usize = self.policies.len();
        let ghost names = self.policies.names();
        let mut r: Vec<String> = Vec::new();
        let mut i: usize = 0;
        while i < n
            invariant
                n == names.len(),
                names == self.policies.names(),
                i <= n,
                r@.len() == i,
                forall|j: int| 0 <= j < i ==> (#[trigger] r@[j])@ == names[j],
            decreases n - i,
        {
            r.push(text::owned(self.policies.name_at(i)));
            i = i + 1;
        }
        proof {
            self.policies.lemma_names();
            assert(self@.dom() =~= self.policies.map().dom());
            assert(text::texts(r@) =~= names);
            assert(crate::map::is_listing(self@.dom(), names)) by {
                assert forall|x: Seq<char>|
                    #![trigger names.contains(x)]
                    names.contains(x) <==> self@.dom().contains(x) by {
                    assert(names.contains(x) <==> self.policies.map().contains_key(x));
                }
            }
        }
        r
    }

    /// A copy.
    pub fn copy(&self) -> (r: TemplateSet)
        ensures
            r@ == self@,
    {
        TemplateSet { policies: self.policies.copy() }
    }
}

/// The policy templates of a configuration.
pub open spec fn policies_of(c: Config) -> Map<Seq<char>, Seq<char>> {
    c.roles.map().map_values(|r: Role| r.policy@)
}

/// A configuration's policy templates: the bytes that a seal hashes and
/// the cache stores.
pub fn policies_from_config(config: &Config) -> (r: TemplateSet)
    ensures
        r@ == policies_of(*config),
{
    let n: usize = config.roles.len();
    let ghost names = config.roles.names();
    let ghost want = policies_of(*config);
    let mut m: NameMap<String> = NameMap::new();
    let mut i: usize = 0;
    while i < n
        invariant
            n == names.len(),
            names == config.roles.names(),
            config.roles.lists(),
            want == policies_of(*config),
            i <= n,
            forall|k: Seq<char>| #[trigger]
                m.map().contains_key(k) <==> names.take(i as int).contains(k),
            forall|k: Seq<char>| #[trigger] m.map().contains_key(k) ==> m.map()[k]@ == want[k],
        decreases n - i,
    {
        let ghost before = m.map();
        let ghost y = names[i as int];
        m.insert(text::owned(config.roles.name_at(i)), config.roles.value_at(i).policy.clone());
        proof {
            assert(names.take(i + 1) =~= names.take(i as int).push(y));
            assert forall|k: Seq<char>| #[trigger]
                m.map().contains_key(k) <==> names.take(i + 1).contains(k) by {
                template::lemma_push_contains(names.take(i as int), y, k);
                assert(before.contains_key(k) <==> names.take(i as int).contains(k));
            }
            assert forall|k: Seq<char>| #[trigger] m.map().contains_key(k) implies m.map()[k]@
                == want[k] by {
                if k != y {
                    assert(before.contains_key(k));
                }
            }
        }
        i = i + 1;
    }
    proof {
        assert(names.take(n as int) =~= names);
        let a = m.texts();
        assert forall|k: Seq<char>| a.contains_key(k) <==> want.contains_key(k) by {
            assert(m.map().contains_key(k) <==> names.contains(k));
        }
        assert(a =~= want);
    }
    TemplateSet::from_policies(m)
}

/// The complete role surface that requests are served from: the seal, and
/// the verified bytes that it pins. The request path reads only this,
/// never the live configuration.
#[derive(Debug)]
pub struct ServedSurface {
    pub seal: Seal,
    pub templates: TemplateSet,
    pub env: NameMap<String>,
}

/// The bytes are those that the intent pins: every sealed role has its
/// template, and no other; each template, and the environment, hashes to
/// its pin.
pub open spec fn pinned(
    intent: Intent,
    templates: Map<Seq<char>, Seq<char>>,
    env: Map<Seq<char>, Seq<char>>,
) -> bool {
    &&& templates.dom() == intent.roles.dom()
    &&& forall|x: Seq<char>| #[trigger]
        templates.contains_key(x) ==> intent.roles[x].policy_blake3 == seal::hash_text(
            encode_utf8(templates[x]),
        )
    &&& intent.env_blake3 == seal::env_hash(env)
}

/// A configuration's own templates and values are those that its seal
/// pins.
pub proof fn law_config_satisfies_its_seal(c: Config)
    ensures
        pinned(seal::intent_of(c), policies_of(c), c.env.texts()),
{
    assert(policies_of(c).dom() =~= seal::intent_of(c).roles.dom());
}

impl ServedSurface {
    /// Every byte that is served is pinned by the seal.
    pub open spec fn holds(self) -> bool {
        pinned(self.seal@.intent, self.templates@, self.env.texts())
    }

    /// The surface of a loaded configuration, sealed under `keyring`.
    pub fn from_config(config: &Config, keyring: &Keyring, sealed_at: &str) -> (r: ServedSurface)
        ensures
            r.seal@.intent == seal::intent_of(*config),
            r.seal@.sealed_at == sealed_at@,
            r.seal@.kid == keyring@.current,
            seal::verifies(r.seal@, keyring@),
            r.templates@ == policies_of(*config),
            r.env.texts() == config.env.texts(),
            r.holds(),
    {
        proof {
            law_config_satisfies_its_seal(*config);
        }
        ServedSurface {
            seal: Seal::build_from_config(config, keyring, sealed_at),
            templates: policies_from_config(config),
            env: config.env.copy(),
        }
    }

    /// The surface of a known-good seal, from the templates and values of
    /// a configuration, and what to write into the cache for it. It is
    /// refused where the configuration does not hash to what the seal
    /// pins, which a seal of that configuration always does.
    pub fn materialize(config: &Config, seal: &Seal) -> (r: Result<
        (ServedSurface, CachePlan),
        SealError,
    >)
        ensures
            match plan_fault(seal@.intent, policies_of(*config), config.env.texts()) {
                Some(m) => r matches Err(SealError::Encode(e)) && e@ == m,
                None => {
                    &&& r matches Ok((surface, plan))
                    &&& surface.seal@ == seal@
                    &&& surface.templates@ == policies_of(*config)
                    &&& surface.env.texts() == config.env.texts()
                    &&& plan_of(plan, policies_of(*config), config.env.texts())
                },
            },
            seal@.intent == seal::intent_of(*config) ==> (r matches Ok((surface, _))
                && surface.holds()),
    {
        let templates = policies_from_config(config);
        let names = templates.roles();
        proof {
            let list = text::texts(names@);
            assert(list.to_set() =~= templates@.dom()) by {
                assert forall|x: Seq<char>| list.to_set().contains(x) <==> templates@.dom()
                    .contains(x) by {
                    assert(list.contains(x) <==> templates@.dom().contains(x));
                }
            }
            law_config_satisfies_its_seal(*config);
            if seal@.intent == seal::intent_of(*config) {
                lemma_pinned_has_plan(seal@.intent, templates@, config.env.texts());
            }
        }
        match plan_write(seal, &templates, &config.env) {
            Err(e) => Err(e),
            Ok(plan) => Ok(
                (ServedSurface { seal: seal.copy(), templates, env: config.env.copy() }, plan),
            ),
        }
    }

    /// The sealed audience, which every served credential is stamped with
    /// and checked against.
    pub fn audience(&self) -> (r: &str)
        ensures
            r@ == self.seal@.intent.audience,
    {
        self.seal.audience.as_str()
    }

    /// The sealed authority fields of `role`.
    pub fn role(&self, role: &str) -> (r: Option<&SealedRole>)
        ensures
            match r {
                Some(s) => self.seal@.intent.roles.contains_key(role@) && s@
                    == self.seal@.intent.roles[role@],
                None => !self.seal@.intent.roles.contains_key(role@),
            },
    {
        self.seal.roles.get(role)
    }

    /// The sealed policy template of `role`.
    pub fn policy(&self, role: &str) -> (r: Option<&str>)
        ensures
            match r {
                Some(p) => self.templates@.contains_key(role@) && p@ == self.templates@[role@],
                None => !self.templates@.contains_key(role@),
            },
    {
        self.templates.get(role)
    }

    /// The sealed environment values.
    pub fn env(&self) -> (r: &NameMap<String>)
        ensures
            r.texts() == self.env.texts(),
    {
        &self.env
    }
}

/// Whether a canonical seal was resolved, and the surface it serves.
#[derive(Debug)]
pub enum SealState {
    /// No verifiable seal: the role-rendering plane is closed.
    Dormant,
    /// Serving the resolved sealed surface.
    Serving(ServedSurface),
}

/// A serving state straight from a loaded configuration, under a throwaway
/// key; for callers that already trust the configuration.
pub fn serving_from_config(config: &Config) -> (r: SealState)
    ensures
        r matches SealState::Serving(s) && s.seal@.intent == seal::intent_of(*config)
            && s.seal@.sealed_at == "unsealed"@ && s.templates@ == policies_of(*config)
            && s.env.texts() == config.env.texts() && s.holds() && s.seal@.kid == 0
            && seal::verifies(
            s.seal@,
            (KeyringView { keys: map![0u16 => Seq::new(32, |i: int| 0u8)], current: 0 }),
        ),
{
    let key: [u8; 32] = [0u8; 32];
    let ring = Keyring::single(key);
    proof {
        let zeros = Seq::new(32, |i: int| 0u8);
        assert(key@ =~= zeros);
        assert(ring@.keys =~= map![0u16 => zeros]);
    }
    SealState::Serving(ServedSurface::from_config(config, &ring, "unsealed"))
}

/// What was found in the cache.
#[derive(Debug)]
pub enum CacheState {
    /// There is no cached seal.
    Absent,
    /// A cache whose every file hashes to the pin of its own seal.
    Loaded { seal: Seal, templates: TemplateSet, env: NameMap<String> },
    /// The cache does not hold up; the bytes are never served.
    Corrupt { reason: String },
}

/// A file of the cache to write: its name is the hash of its contents.
#[derive(Debug)]
pub struct PolicyFile {
    pub name: String,
    pub contents: String,
}

/// What to write into the cache.
#[derive(Debug)]
pub struct CachePlan {
    /// The contents of the environment file.
    pub env: String,
    /// The policy files, in ascending order of role.
    pub policies: Vec<PolicyFile>,
}

/// Why a set of templates and values is not written for a seal: the
/// environment, or the first template in ascending order, does not hash
/// to its pin.
pub open spec fn plan_fault(
    intent: Intent,
    templates: Map<Seq<char>, Seq<char>>,
    env: Map<Seq<char>, Seq<char>>,
) -> Option<Seq<char>> {
    if intent.env_blake3 != seal::env_hash(env) {
        Some("env bytes do not match the seal's env_blake3"@)
    } else {
        match first_unpinned(intent, templates, crate::map::listing(templates.dom())) {
            Some(role) => Some(
                "role "@ + role + ": template bytes do not match the seal's policy_blake3"@,
            ),
            None => None,
        }
    }
}

/// A template is the one that the intent pins for its role.
pub open spec fn role_pinned(
    intent: Intent,
    templates: Map<Seq<char>, Seq<char>>,
    role: Seq<char>,
) -> bool {
    intent.roles.contains_key(role) && intent.roles[role].policy_blake3 == seal::hash_text(
        encode_utf8(templates[role]),
    )
}

/// The first of `names` whose template is not pinned.
pub open spec fn first_unpinned(
    intent: Intent,
    templates: Map<Seq<char>, Seq<char>>,
    names: Seq<Seq<char>>,
) -> Option<Seq<char>>
    decreases names.len(),
{
    if names.len() == 0 {
        None
    } else {
        match first_unpinned(intent, templates, names.drop_last()) {
            Some(x) => Some(x),
            None => if role_pinned(intent, templates, names.last()) {
                None
            } else {
                Some(names.last())
            },
        }
    }
}

/// The plan writes the environment's canonical text, and each template
/// under its hash, in ascending order of role.
pub open spec fn plan_of(
    plan: CachePlan,
    templates: Map<Seq<char>, Seq<char>>,
    env: Map<Seq<char>, Seq<char>>,
) -> bool {
    let names = crate::map::listing(templates.dom());
    &&& plan.env@ == crate::json::json_pretty(seal::env_doc(env))
    &&& plan.policies@.len() == names.len()
    &&& forall|i: int|
        0 <= i < names.len() ==> (#[trigger] plan.policies@[i]).contents@ == templates[names[i]]
            && plan.policies@[i].name@ == seal::hash_text(encode_utf8(templates[names[i]]))
}

/// Plans the cache of a seal. Nothing is planned where the templates or
/// the values do not match the seal.
pub fn plan_write(seal: &Seal, templates: &TemplateSet, env: &NameMap<String>) -> (r: Result<
    CachePlan,
    SealError,
>)
    ensures
        match plan_fault(seal@.intent, templates@, env.texts()) {
            Some(m) => r matches Err(SealError::Encode(e)) && e@ == m,
            None => r matches Ok(p) && plan_of(p, templates@, env.texts()),
        },
{
    let env_text = seal::canonical_env_text(env);
    let env_hash = seal::hash_hex(env_text.as_str().as_bytes());
    if !text::same(env_hash.as_str(), seal.env_blake3.as_str()) {
        return Err(
            SealError::Encode(text::owned("env bytes do not match the seal's env_blake3")),
        );
    }
    let ghost intent = seal@.intent;
    let n: usize = templates.policies.len();
    let ghost names = templates.policies.names();
    let ghost set = templates@;
    proof {
        templates.policies.lemma_names();
        assert(set.dom() =~= templates.policies.map().dom());
        assert(names.take(n as int) =~= names);
    }
    let mut policies: Vec<PolicyFile> = Vec::new();
    let mut i: usize = 0;
    while i < n
        invariant
            n == names.len(),
            names == templates.policies.names(),
            templates.policies.lists(),
            set == templates@,
            names == crate::map::listing(set.dom()),
            intent == seal@.intent,
            intent.env_blake3 == seal::env_hash(env.texts()),
            i <= n,
            policies@.len() == i,
            first_unpinned(intent, set, names.take(i as int)) is None,
            forall|j: int|
                0 <= j < i ==> (#[trigger] policies@[j]).contents@ == set[names[j]]
                    && policies@[j].name@ == seal::hash_text(encode_utf8(set[names[j]])),
        decreases n - i,
    {
        let role = templates.policies.name_at(i);
        let body = templates.policies.value_at(i);
        let hash = seal::hash_hex(body.as_str().as_bytes());
        let ok = match seal.roles.get(role) {
            Some(s) => text::same(s.policy_blake3.as_str(), hash.as_str()),
            None => false,
        };
        proof {
            let next = names.take(i + 1);
            assert(next.drop_last() =~= names.take(i as int));
            assert(next.last() == names[i as int]);
            assert(ok == role_pinned(intent, set, names[i as int]));
        }
        if !ok {
            let mut m = text::owned("role ");
            m.push_str(role);
            m.push_str(": template bytes do not match the seal's policy_blake3");
            proof {
                lemma_first_stays(intent, set, names, i + 1);
            }
            return Err(SealError::Encode(m));
        }
        policies.push(PolicyFile { name: hash, contents: body.clone() });
        i = i + 1;
    }
    Ok(CachePlan { env: env_text, policies })
}

/// What is first in a part of the list is first in the list.
proof fn lemma_first_stays(
    intent: Intent,
    templates: Map<Seq<char>, Seq<char>>,
    names: Seq<Seq<char>>,
    n: int,
)
    requires
        0 <= n <= names.len(),
        first_unpinned(intent, templates, names.take(n)) is Some,
    ensures
        first_unpinned(intent, templates, names) == first_unpinned(
            intent,
            templates,
            names.take(n),
        ),
    decreases names.len() - n,
{
    if n == names.len() {
        assert(names.take(n) =~= names);
    } else {
        assert(names.take(n + 1).drop_last() =~= names.take(n));
        lemma_first_stays(intent, templates, names, n + 1);
    }
}

/// Which files of the policy directory to remove: those that the plan
/// does not write, so that no stale template stays behind.
pub fn stale_policies(existing: &[String], plan: &CachePlan) -> (r: Vec<String>)
    ensures
        text::texts(r@) == text::texts(existing@).filter(
            |x: Seq<char>|
                !exists|i: int|
                    0 <= i < plan.policies@.len() && (#[trigger] plan.policies@[i]).name@ == x,
        ),
{
    let ghost stale = |x: Seq<char>|
        !exists|i: int| 0 <= i < plan.policies@.len() && (#[trigger] plan.policies@[i]).name@ == x;
    let ghost all = text::texts(existing@);
    let mut r: Vec<String> = Vec::new();
    let mut i: usize = 0;
    proof {
        assert(all.take(0) =~= Seq::<Seq<char>>::empty());
        reveal(Seq::filter);
        assert(text::texts(r@) =~= all.take(0).filter(stale));
    }
    while i < existing.len()
        invariant
            i <= existing@.len(),
            all == text::texts(existing@),
            stale == (|x: Seq<char>|
                !exists|i: int|
                    0 <= i < plan.policies@.len() && (#[trigger] plan.policies@[i]).name@ == x),
            text::texts(r@) == all.take(i as int).filter(stale),
        decreases existing@.len() - i,
    {
        let name = &existing[i];
        let mut found = false;
        let mut k: usize = 0;
        while k < plan.policies.len()
            invariant
                k <= plan.policies@.len(),
                found == exists|j: int|
                    0 <= j < k && (#[trigger] plan.policies@[j]).name@ == name@,
            decreases plan.policies@.len() - k,
        {
            if text::same(plan.policies[k].name.as_str(), name.as_str()) {
                found = true;
            }
            k = k + 1;
        }
        proof {
            let next = all.take(i + 1);
            assert(next.drop_last() =~= all.take(i as int));
            assert(next.last() == name@);
            assert(stale(name@) == !found);
            reveal(Seq::filter);
        }
        if !found {
            let ghost before = text::texts(r@);
            r.push(name.clone());
            assert(text::texts(r@) =~= before.push(name@));
        }
        i = i + 1;
    }
    assert(all.take(existing@.len() as int) =~= all);
    r
}

/// A file of the cache, as it was read.
#[derive(Debug)]
pub enum BytesRead {
    Bytes(Vec<u8>),
    Missing,
    Failed(String),
}

/// The cached seal, as it was read.
#[derive(Debug)]
pub enum SealRead {
    Absent,
    Unparseable(String),
    Parsed(Seal),
}

/// Why a cache is not loaded.
pub enum CacheFault {
    Io(Seq<char>),
    Corrupt(Seq<char>),
}

/// The template in a cached policy file, where the file holds what the
/// seal pins.
pub open spec fn policy_outcome(role: Seq<char>, pin: Seq<char>, read: BytesRead) -> Result<
    Seq<char>,
    CacheFault,
> {
    match read {
        BytesRead::Missing => Err(
            CacheFault::Corrupt("role "@ + role + ": cached policy "@ + pin + " is missing"@),
        ),
        BytesRead::Failed(m) => Err(CacheFault::Io(m@)),
        BytesRead::Bytes(b) => if seal::hash_text(b@) != pin {
            Err(
                CacheFault::Corrupt(
                    "role "@ + role + ": cached policy bytes do not match pinned hash "@ + pin,
                ),
            )
        } else if !valid_utf8(b@) {
            Err(CacheFault::Corrupt("role "@ + role + ": cached policy is not valid UTF-8"@))
        } else {
            Ok(decode_utf8(b@))
        },
    }
}

/// The templates of the roles `names`, or the first fault among them.
pub open spec fn policies_outcome(
    names: Seq<Seq<char>>,
    roles: Map<Seq<char>, SealedRoleView>,
    reads: Seq<BytesRead>,
) -> Result<Map<Seq<char>, Seq<char>>, CacheFault>
    decreases names.len(),
{
    if names.len() == 0 {
        Ok(Map::empty())
    } else {
        let last = names.last();
        match policies_outcome(names.drop_last(), roles, reads) {
            Err(f) => Err(f),
            Ok(m) => match policy_outcome(
                last,
                roles[last].policy_blake3,
                reads[names.len() - 1],
            ) {
                Err(f) => Err(f),
                Ok(t) => Ok(m.insert(last, t)),
            },
        }
    }
}

/// The string map that a JSON text writes, as `serde_json` reads it, or
/// its message.
pub uninterp spec fn string_map_of(bytes: Seq<u8>) -> Result<
    Map<Seq<char>, Seq<char>>,
    Seq<char>,
>;

/// The environment in a cached file, where the file holds what the seal
/// pins.
pub open spec fn env_outcome(pin: Seq<char>, read: BytesRead) -> Result<
    Map<Seq<char>, Seq<char>>,
    CacheFault,
> {
    match read {
        BytesRead::Missing => Err(CacheFault::Corrupt("cached env.json is missing"@)),
        BytesRead::Failed(m) => Err(CacheFault::Io(m@)),
        BytesRead::Bytes(b) => if seal::hash_text(b@) != pin {
            Err(
                CacheFault::Corrupt(
                    "cached env.json bytes do not match pinned env_blake3 "@ + pin,
                ),
            )
        } else {
            match string_map_of(b@) {
                Ok(m) => Ok(m),
                Err(e) => Err(CacheFault::Corrupt("cached env.json is not a string map: "@ + e)),
            }
        },
    }
}

/// The map that a list of pairs writes, a later pair in the place of an
/// earlier one.
pub open spec fn pairs_map(pairs: Seq<(String, String)>) -> Map<Seq<char>, Seq<char>>
    decreases pairs.len(),
{
    if pairs.len() == 0 {
        Map::empty()
    } else {
        pairs_map(pairs.drop_last()).insert(pairs.last().0@, pairs.last().1@)
    }
}

/// `serde_json::from_slice` into a string map, as its entries, or its
/// message. The canonical text of an environment reads back as that
/// environment.
#[verifier::external_body]
fn parse_string_map(bytes: &[u8]) -> (r: Result<Vec<(String, String)>, String>)
    ensures
        match r {
            Ok(m) => string_map_of(bytes@) == Ok::<Map<Seq<char>, Seq<char>>, Seq<char>>(
                pairs_map(m@),
            ),
            Err(e) => string_map_of(bytes@) == Err::<Map<Seq<char>, Seq<char>>, Seq<char>>(e@),
        },
        forall|env: Map<Seq<char>, Seq<char>>|
            env.dom().finite() && bytes@ == #[trigger] seal::env_bytes(env) ==> r is Ok
                && pairs_map(r->Ok_0@) == env,
{
    serde_json::from_slice::<std::collections::BTreeMap<String, String>>(bytes).map(
        |m| m.into_iter().collect(),
    ).map_err(|e| e.to_string())
}

/// A map of a list of pairs.
fn collect_pairs(pairs: Vec<(String, String)>) -> (r: NameMap<String>)
    ensures
        r.texts() == pairs_map(pairs@),
{
    let mut m: NameMap<String> = NameMap::new();
    let mut i: usize = 0;
    proof {
        assert(pairs@.take(0) =~= Seq::<(String, String)>::empty());
        assert(m.texts() =~= pairs_map(pairs@.take(0)));
    }
    while i < pairs.len()
        invariant
            i <= pairs@.len(),
            m.texts() == pairs_map(pairs@.take(i as int)),
        decreases pairs@.len() - i,
    {
        let ghost before = m.texts();
        m.insert(pairs[i].0.clone(), pairs[i].1.clone());
        proof {
            let next = pairs@.take(i + 1);
            assert(next.drop_last() =~= pairs@.take(i as int));
            assert(m.texts() =~= before.insert(pairs@[i as int].0@, pairs@[i as int].1@));
        }
        i = i + 1;
    }
    assert(pairs@.take(pairs@.len() as int) =~= pairs@);
    m
}

/// Reports a fault of the cache.
pub open spec fn fault_is(r: Result<CacheState, SealError>, f: CacheFault) -> bool {
    match f {
        CacheFault::Io(m) => r matches Err(SealError::Io(e)) && e@ == m,
        CacheFault::Corrupt(m) => r matches Ok(CacheState::Corrupt { reason }) && reason@ == m,
    }
}

/// The template in a cached policy file, or the reason that there is none.
fn load_policy(role: &str, pin: &str, read: &BytesRead) -> (r: Result<
    String,
    Result<CacheState, SealError>,
>)
    ensures
        match policy_outcome(role@, pin@, *read) {
            Ok(t) => r is Ok && r->Ok_0@ == t,
            Err(f) => r is Err && fault_is(r->Err_0, f),
        },
{
    match read {
        BytesRead::Missing => {
            let mut m = text::owned("role ");
            m.push_str(role);
            m.push_str(": cached policy ");
            m.push_str(pin);
            m.push_str(" is missing");
            Err(Ok(CacheState::Corrupt { reason: m }))
        },
        BytesRead::Failed(m) => Err(Err(SealError::Io(m.clone()))),
        BytesRead::Bytes(b) => {
            let mut m = text::owned("role ");
            m.push_str(role);
            if !text::same(seal::hash_hex(b).as_str(), pin) {
                m.push_str(": cached policy bytes do not match pinned hash ");
                m.push_str(pin);
                return Err(Ok(CacheState::Corrupt { reason: m }));
            }
            match bytes::utf8_string(b) {
                None => {
                    m.push_str(": cached policy is not valid UTF-8");
                    Err(Ok(CacheState::Corrupt { reason: m }))
                },
                Some(t) => Ok(t),
            }
        },
    }
}

/// The environment in a cached file, or the reason that there is none.
fn load_env(pin: &str, read: &BytesRead) -> (r: Result<
    NameMap<String>,
    Result<CacheState, SealError>,
>)
    ensures
        match env_outcome(pin@, *read) {
            Ok(m) => r is Ok && r->Ok_0.texts() == m,
            Err(f) => r is Err && fault_is(r->Err_0, f),
        },
        forall|env: Map<Seq<char>, Seq<char>>|
            env.dom().finite() && pin@ == seal::env_hash(env) && (read matches BytesRead::Bytes(b)
                && b@ == #[trigger] seal::env_bytes(env)) ==> r is Ok && r->Ok_0.texts() == env,
{
    match read {
        BytesRead::Missing => Err(
            Ok(CacheState::Corrupt { reason: text::owned("cached env.json is missing") }),
        ),
        BytesRead::Failed(m) => Err(Err(SealError::Io(m.clone()))),
        BytesRead::Bytes(b) => {
            if !text::same(seal::hash_hex(b).as_str(), pin) {
                return Err(
                    Ok(
                        CacheState::Corrupt {
                            reason: text::concat(
                                "cached env.json bytes do not match pinned env_blake3 ",
                                pin,
                            ),
                        },
                    ),
                );
            }
            match parse_string_map(b) {
                Ok(pairs) => Ok(collect_pairs(pairs)),
                Err(e) => Err(
                    Ok(
                        CacheState::Corrupt {
                            reason: text::concat(
                                "cached env.json is not a string map: ",
                                e.as_str(),
                            ),
                        },
                    ),
                ),
            }
        },
    }
}

/// A fault among the first roles is the fault of all.
proof fn lemma_fault_stays(
    names: Seq<Seq<char>>,
    roles: Map<Seq<char>, SealedRoleView>,
    reads: Seq<BytesRead>,
    n: int,
)
    requires
        0 <= n <= names.len(),
        policies_outcome(names.take(n), roles, reads) is Err,
    ensures
        policies_outcome(names, roles, reads) == policies_outcome(names.take(n), roles, reads),
    decreases names.len() - n,
{
    if n == names.len() {
        assert(names.take(n) =~= names);
    } else {
        assert(names.take(n + 1).drop_last() =~= names.take(n));
        lemma_fault_stays(names, roles, reads, n + 1);
    }
}

/// The templates of a cache whose files hold them.
proof fn lemma_policies_load(
    names: Seq<Seq<char>>,
    intent: Intent,
    templates: Map<Seq<char>, Seq<char>>,
    reads: Seq<BytesRead>,
)
    requires
        reads.len() >= names.len(),
        forall|i: int|
            0 <= i < names.len() ==> {
                &&& role_pinned(intent, templates, #[trigger] names[i])
                &&& reads[i] matches BytesRead::Bytes(b)
                &&& b@ == encode_utf8(templates[names[i]])
            },
    ensures
        policies_outcome(names, intent.roles, reads) is Ok,
        forall|x: Seq<char>| #[trigger]
            policies_outcome(names, intent.roles, reads)->Ok_0.contains_key(x)
                <==> names.contains(x),
        forall|x: Seq<char>| #[trigger]
            policies_outcome(names, intent.roles, reads)->Ok_0.contains_key(x)
                ==> policies_outcome(names, intent.roles, reads)->Ok_0[x] == templates[x],
    decreases names.len(),
{
    if names.len() > 0 {
        let init = names.drop_last();
        let last = names.last();
        assert forall|i: int| 0 <= i < init.len() implies {
            &&& role_pinned(intent, templates, #[trigger] init[i])
            &&& reads[i] matches BytesRead::Bytes(b)
            &&& b@ == encode_utf8(templates[init[i]])
        } by {
            assert(init[i] == names[i]);
        }
        lemma_policies_load(init, intent, templates, reads);
        assert(names[names.len() - 1] == last);
        assert(role_pinned(intent, templates, last));
        bytes::lemma_utf8(templates[last]);
        let m = policies_outcome(init, intent.roles, reads)->Ok_0;
        let full = policies_outcome(names, intent.roles, reads)->Ok_0;
        assert(full == m.insert(last, templates[last]));
        assert forall|x: Seq<char>| #[trigger] full.contains_key(x) <==> names.contains(x) by {
            assert(names =~= init.push(last));
            template::lemma_push_contains(init, last, x);
            assert(m.contains_key(x) <==> init.contains(x));
        }
        assert forall|x: Seq<char>| #[trigger] full.contains_key(x) implies full[x]
            == templates[x] by {
            if x != last {
                assert(m.contains_key(x));
            }
        }
    }
}

/// The reads hold, role by role in ascending order, the templates that
/// the intent pins.
pub open spec fn reads_hold(
    intent: Intent,
    templates: Map<Seq<char>, Seq<char>>,
    reads: Seq<BytesRead>,
) -> bool {
    let names = crate::map::listing(intent.roles.dom());
    forall|i: int|
        0 <= i < names.len() ==> {
            &&& #[trigger] reads[i] matches BytesRead::Bytes(b)
            &&& b@ == encode_utf8(templates[names[i]])
        }
}

/// What is loaded for a parsed seal.
pub open spec fn loaded(
    r: Result<CacheState, SealError>,
    seal: SealView,
    reads: Seq<BytesRead>,
    env: BytesRead,
) -> bool {
    let names = crate::map::listing(seal.intent.roles.dom());
    match policies_outcome(names, seal.intent.roles, reads) {
        Err(f) => fault_is(r, f),
        Ok(p) => match env_outcome(seal.intent.env_blake3, env) {
            Err(f) => fault_is(r, f),
            Ok(e) => r matches Ok(CacheState::Loaded { seal: s, templates, env: v }) && s@ == seal
                && templates@ == p && v.texts() == e && pinned_reads(s@.intent, templates@),
        },
    }
}

/// Every loaded template hashes to its pin, and none is missing.
pub open spec fn pinned_reads(intent: Intent, templates: Map<Seq<char>, Seq<char>>) -> bool {
    &&& templates.dom() == intent.roles.dom()
    &&& forall|x: Seq<char>| #[trigger]
        templates.contains_key(x) ==> intent.roles[x].policy_blake3 == seal::hash_text(
            encode_utf8(templates[x]),
        )
}

/// What loads is pinned.
proof fn lemma_outcome_pinned(
    names: Seq<Seq<char>>,
    roles: Map<Seq<char>, SealedRoleView>,
    reads: Seq<BytesRead>,
)
    ensures
        policies_outcome(names, roles, reads) matches Ok(m) ==> {
            &&& forall|x: Seq<char>| #[trigger] m.contains_key(x) <==> names.contains(x)
            &&& forall|x: Seq<char>| #[trigger]
                m.contains_key(x) ==> roles[x].policy_blake3 == seal::hash_text(encode_utf8(m[x]))
        },
    decreases names.len(),
{
    if names.len() > 0 {
        let init = names.drop_last();
        let last = names.last();
        lemma_outcome_pinned(init, roles, reads);
        if policies_outcome(names, roles, reads) is Ok {
            let m = policies_outcome(init, roles, reads)->Ok_0;
            let full = policies_outcome(names, roles, reads)->Ok_0;
            let read = reads[names.len() - 1];
            let b = read->Bytes_0@;
            vstd::utf8::decode_utf8_encode_utf8(b);
            assert forall|x: Seq<char>| #[trigger] full.contains_key(x) <==> names.contains(
                x,
            ) by {
                assert(names =~= init.push(last));
                template::lemma_push_contains(init, last, x);
                assert(m.contains_key(x) <==> init.contains(x));
            }
            assert forall|x: Seq<char>| #[trigger]
                full.contains_key(x) implies roles[x].policy_blake3 == seal::hash_text(
                encode_utf8(full[x]),
            ) by {
                if x != last {
                    assert(m.contains_key(x));
                }
            }
        }
    }
}

/// The files of a cache hold these templates and values.
pub open spec fn cache_holds(
    intent: Intent,
    templates: Map<Seq<char>, Seq<char>>,
    values: Map<Seq<char>, Seq<char>>,
    reads: Seq<BytesRead>,
    env: BytesRead,
) -> bool {
    &&& reads_hold(intent, templates, reads)
    &&& values.dom().finite()
    &&& env matches BytesRead::Bytes(b)
    &&& b@ == seal::env_bytes(values)
}

/// The cache is loaded as this seal, these templates and these values.
pub open spec fn loaded_as(
    r: Result<CacheState, SealError>,
    seal: SealView,
    templates: Map<Seq<char>, Seq<char>>,
    values: Map<Seq<char>, Seq<char>>,
) -> bool {
    r matches Ok(CacheState::Loaded { seal: s, templates: t, env: v }) && s@ == seal && t@
        == templates && v.texts() == values
}

/// Loads the cache of a parsed seal.
fn load_parsed(seal: Seal, reads: &[BytesRead], env: &BytesRead) -> (r: Result<
    CacheState,
    SealError,
>)
    requires
        reads@.len() == seal.roles.names().len(),
    ensures
        loaded(r, seal@, reads@, *env),
        forall|templates: Map<Seq<char>, Seq<char>>, values: Map<Seq<char>, Seq<char>>|
            #[trigger] pinned(seal@.intent, templates, values) && cache_holds(
                seal@.intent,
                templates,
                values,
                reads@,
                *env,
            ) ==> loaded_as(r, seal@, templates, values),
{
    let ghost intent = seal@.intent;
    let ghost roles = intent.roles;
    let n: usize = seal.roles.len();
    let ghost names = seal.roles.names();
    proof {
        seal.roles.lemma_names();
        assert(roles.dom() =~= seal.roles.map().dom());
        assert(names.take(0) =~= Seq::<Seq<char>>::empty());
        assert(names.take(n as int) =~= names);
        assert forall|templates: Map<Seq<char>, Seq<char>>, values: Map<Seq<char>, Seq<char>>|
            #[trigger] pinned(intent, templates, values) && reads_hold(
                intent,
                templates,
                reads@,
            ) implies policies_outcome(names, roles, reads@)
            == Ok::<Map<Seq<char>, Seq<char>>, CacheFault>(templates) by {
            assert forall|i: int| 0 <= i < names.len() implies {
                &&& role_pinned(intent, templates, #[trigger] names[i])
                &&& reads@[i] matches BytesRead::Bytes(b)
                &&& b@ == encode_utf8(templates[names[i]])
            } by {
                assert(names.contains(names[i]));
                assert(templates.contains_key(names[i]));
            }
            lemma_policies_load(names, intent, templates, reads@);
            let m = policies_outcome(names, roles, reads@)->Ok_0;
            assert forall|x: Seq<char>| m.contains_key(x) <==> templates.contains_key(x) by {
                assert(m.contains_key(x) <==> names.contains(x));
                assert(names.contains(x) <==> seal.roles.map().contains_key(x));
                assert(templates.dom().contains(x) <==> roles.dom().contains(x));
            }
            assert(m =~= templates);
        }
    }
    let mut m: NameMap<String> = NameMap::new();
    assert(m.texts() =~= Map::<Seq<char>, Seq<char>>::empty());
    let mut i: usize = 0;
    while i < n
        invariant
            n == names.len(),
            n == reads@.len(),
            names == seal.roles.names(),
            seal.roles.lists(),
            roles == seal@.intent.roles,
            names == crate::map::listing(roles.dom()),
            intent == seal@.intent,
            i <= n,
            policies_outcome(names.take(i as int), roles, reads@) == Ok::<
                Map<Seq<char>, Seq<char>>,
                CacheFault,
            >(m.texts()),
            forall|templates: Map<Seq<char>, Seq<char>>, values: Map<Seq<char>, Seq<char>>|
                #[trigger] pinned(intent, templates, values) && reads_hold(
                    intent,
                    templates,
                    reads@,
                ) ==> policies_outcome(names, roles, reads@) == Ok::<
                    Map<Seq<char>, Seq<char>>,
                    CacheFault,
                >(templates),
        decreases n - i,
    {
        proof {
            let next = names.take(i + 1);
            assert(next.drop_last() =~= names.take(i as int));
            assert(next.last() == names[i as int]);
        }
        let role = seal.roles.name_at(i);
        let sealed = seal.roles.value_at(i);
        assert(roles[names[i as int]] == sealed@);
        match load_policy(role, sealed.policy_blake3.as_str(), &reads[i]) {
            Ok(t) => {
                let ghost before = m.texts();
                let ghost body = t@;
                m.insert(text::owned(role), t);
                assert(m.texts() =~= before.insert(names[i as int], body));
            },
            Err(e) => {
                proof {
                    lemma_fault_stays(names, roles, reads@, i + 1);
                }
                return e;
            },
        }
        i = i + 1;
    }
    let values = match load_env(seal.env_blake3.as_str(), env) {
        Ok(v) => v,
        Err(e) => {
            return e;
        },
    };
    proof {
        lemma_outcome_pinned(names, roles, reads@);
        assert(names.take(n as int) =~= names);
        let got = policies_outcome(names, roles, reads@)->Ok_0;
        assert(got == m.texts());
        assert(m.texts().dom() =~= roles.dom()) by {
            assert forall|x: Seq<char>| m.texts().dom().contains(x) <==> roles.dom().contains(
                x,
            ) by {
                assert(got.contains_key(x) <==> names.contains(x));
                assert(names.contains(x) <==> seal.roles.map().contains_key(x));
            }
        }
    }
    Ok(CacheState::Loaded { seal, templates: TemplateSet::from_policies(m), env: values })
}

/// Loads the cache, checking every file against the pins of the cache's
/// own seal. `reads` holds the policy file of each role of the seal, in
/// ascending order of role, read by the hash that the seal pins. The MAC,
/// and agreement with the published seal, are not looked at here.
///
/// A cache whose files hold what [`plan_write`] plans loads as that seal,
/// those templates and those values.
pub fn load(seal: SealRead, reads: &[BytesRead], env: &BytesRead) -> (r: Result<
    CacheState,
    SealError,
>)
    requires
        seal matches SealRead::Parsed(s) ==> reads@.len() == s.roles.names().len(),
    ensures
        match seal {
            SealRead::Absent => r matches Ok(CacheState::Absent),
            SealRead::Unparseable(m) => r matches Ok(CacheState::Corrupt { reason }) && reason@
                == "sealed/seal.json is unparseable: "@ + m@,
            SealRead::Parsed(s) => loaded(r, s@, reads@, *env),
        },
        forall|templates: Map<Seq<char>, Seq<char>>, values: Map<Seq<char>, Seq<char>>|
            seal is Parsed && #[trigger] pinned(seal->Parsed_0@.intent, templates, values)
                && cache_holds(seal->Parsed_0@.intent, templates, values, reads@, *env)
                ==> loaded_as(r, seal->Parsed_0@, templates, values),
{
    match seal {
        SealRead::Absent => Ok(CacheState::Absent),
        SealRead::Unparseable(m) => Ok(
            CacheState::Corrupt {
                reason: text::concat("sealed/seal.json is unparseable: ", m.as_str()),
            },
        ),
        SealRead::Parsed(s) => load_parsed(s, reads, env),
    }
}

/// The contents of the last file of this name.
pub open spec fn stored(files: Seq<PolicyFile>, name: Seq<char>) -> Option<Seq<char>>
    decreases files.len(),
{
    if files.len() == 0 {
        None
    } else if files.last().name@ == name {
        Some(files.last().contents@)
    } else {
        stored(files.drop_last(), name)
    }
}

/// What is stored under a name is the contents of a file of that name.
proof fn lemma_stored(files: Seq<PolicyFile>, name: Seq<char>) -> (k: int)
    requires
        exists|i: int| 0 <= i < files.len() && (#[trigger] files[i]).name@ == name,
    ensures
        0 <= k < files.len(),
        files[k].name@ == name,
        stored(files, name) == Some(files[k].contents@),
    decreases files.len(),
{
    if files.last().name@ == name {
        files.len() - 1
    } else {
        let init = files.drop_last();
        let i = choose|i: int| 0 <= i < files.len() && (#[trigger] files[i]).name@ == name;
        assert(init[i] == files[i]);
        lemma_stored(init, name)
    }
}

/// A written cache reads back: where a plan was written, the file that a
/// seal pins for a role holds that role's template. With
/// [`load`]'s contract, the cache then loads as what was written. Two
/// different templates of one hash would share a file and are left out.
pub proof fn law_written_templates_read_back(
    plan: CachePlan,
    intent: Intent,
    templates: Map<Seq<char>, Seq<char>>,
    env: Map<Seq<char>, Seq<char>>,
    reads: Seq<BytesRead>,
)
    requires
        templates.dom().finite(),
        plan_of(plan, templates, env),
        pinned(intent, templates, env),
        forall|x: Seq<char>, y: Seq<char>|
            #![trigger templates[x], templates[y]]
            templates.contains_key(x) && templates.contains_key(y) && seal::hash_text(
                encode_utf8(templates[x]),
            ) == seal::hash_text(encode_utf8(templates[y])) ==> templates[x] == templates[y],
        forall|i: int|
            #![trigger reads[i]]
            0 <= i < crate::map::listing(intent.roles.dom()).len() ==> {
                let pin =
                    intent.roles[crate::map::listing(intent.roles.dom())[i]].policy_blake3;
                stored(plan.policies@, pin) is Some ==> (reads[i] matches BytesRead::Bytes(b) && b@
                    == encode_utf8(stored(plan.policies@, pin)->0))
            },
    ensures
        reads_hold(intent, templates, reads),
{
    let names = crate::map::listing(intent.roles.dom());
    crate::map::lemma_listing_exists(templates.dom());
    assert forall|i: int| 0 <= i < names.len() implies {
        &&& #[trigger] reads[i] matches BytesRead::Bytes(b)
        &&& b@ == encode_utf8(templates[names[i]])
    } by {
        assert(names.contains(names[i]));
        assert(templates.contains_key(names[i]));
        let pin = intent.roles[names[i]].policy_blake3;
        assert(plan.policies@[i].name@ == pin);
        let k = lemma_stored(plan.policies@, pin);
        assert(names.contains(names[k]));
        assert(templates.contains_key(names[k]));
        assert(templates[names[k]] == templates[names[i]]);
    }
}

/// A pinned set of templates has none that is not pinned.
proof fn lemma_pinned_has_plan(
    intent: Intent,
    templates: Map<Seq<char>, Seq<char>>,
    env: Map<Seq<char>, Seq<char>>,
)
    requires
        templates.dom().finite(),
        pinned(intent, templates, env),
    ensures
        plan_fault(intent, templates, env) is None,
{
    let names = crate::map::listing(templates.dom());
    crate::map::lemma_listing_exists(templates.dom());
    assert forall|i: int| 0 <= i < names.len() implies role_pinned(
        intent,
        templates,
        #[trigger] names[i],
    ) by {
        assert(names.contains(names[i]));
        assert(templates.contains_key(names[i]));
    }
    lemma_all_pinned(intent, templates, names);
}

proof fn lemma_all_pinned(
    intent: Intent,
    templates: Map<Seq<char>, Seq<char>>,
    names: Seq<Seq<char>>,
)
    requires
        forall|i: int| 0 <= i < names.len() ==> role_pinned(intent, templates, #[trigger] names[i]),
    ensures
        first_unpinned(intent, templates, names) is None,
    decreases names.len(),
{
    if names.len() > 0 {
        let init = names.drop_last();
        assert forall|i: int| 0 <= i < init.len() implies role_pinned(
            intent,
            templates,
            #[trigger] init[i],
        ) by {
            assert(init[i] == names[i]);
        }
        lemma_all_pinned(intent, templates, init);
        assert(role_pinned(intent, templates, names[names.len() - 1]));
    }
}

} // verus!
