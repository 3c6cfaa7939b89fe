//! The check that gates seal authoring: a template that passes is one
//! that the renderer can render and the request path can enforce.

use crate::caveat::name;
use crate::config::{Config, ConfigError, Role};
use crate::json;
use crate::map::NameMap;
use crate::template;
use crate::text;
use vstd::prelude::*;
use vstd::utf8::*;

verus! {

/// The template references `key` in namespace `ns`.
pub open spec fn refers(s: Seq<char>, ns: Seq<char>, key: Seq<char>) -> bool {
    template::references(s, ns, ns + "."@ + key)
}

/// `list` is the keys that a template references in a namespace, in
/// ascending order.
pub open spec fn lists_keys(list: Seq<Seq<char>>, s: Seq<char>, ns: Seq<char>) -> bool {
    &&& text::ascending(list)
    &&& forall|k: Seq<char>|
        #![trigger list.contains(k)]
        #![trigger refers(s, ns, k)]
        list.contains(k) <==> refers(s, ns, k)
}

/// A reference is its namespace, a dot and its key.
proof fn lemma_reference_parts(s: Seq<char>, ns: Seq<char>, x: Seq<char>)
    requires
        template::references(s, ns, x),
    ensures
        x == ns + "."@ + template::key_of(x),
{
    text::lemma_find_char_is_first(x, '.');
    reveal_strlit(".");
    assert("."@ =~= seq!['.']);
    let i = text::find_char(x, '.')->0;
    assert(x =~= x.take(i) + seq![x[i]] + x.skip(i + 1));
}

/// A common prefix does not change the order.
proof fn lemma_precedes_prefix(p: Seq<char>, a: Seq<char>, b: Seq<char>)
    ensures
        text::precedes(p + a, p + b) == text::precedes(a, b),
    decreases p.len(),
{
    if p.len() == 0 {
        assert(p + a =~= a);
        assert(p + b =~= b);
    } else {
        assert((p + a).drop_first() =~= p.drop_first() + a);
        assert((p + b).drop_first() =~= p.drop_first() + b);
        assert((p + a)[0] == p[0]);
        assert((p + b)[0] == p[0]);
        lemma_precedes_prefix(p.drop_first(), a, b);
    }
}

/// The keys of one namespace's references.
fn strip_ns(paths: &[String], template: &str, ns: &str) -> (r: Vec<String>)
    requires
        template::lists_references(paths@, template@, ns@),
    ensures
        lists_keys(text::texts(r@), template@, ns@),
{
    let prefix = text::concat(ns, ".");
    let n: usize = paths.len();
    let mut r: Vec<String> = Vec::new();
    let mut i: usize = 0;
    while i < n
        invariant
            n == paths@.len(),
            i <= n,
            r@.len() == i,
            prefix@ == ns@ + "."@,
            template::lists_references(paths@, template@, ns@),
            forall|j: int| 0 <= j < i ==> paths@[j]@ == prefix@ + (#[trigger] r@[j])@,
        decreases n - i,
    {
        proof {
            let all = text::texts(paths@);
            assert(all[i as int] == paths@[i as int]@);
            assert(all.contains(paths@[i as int]@));
            lemma_reference_parts(template@, ns@, paths@[i as int]@);
            let k = template::key_of(paths@[i as int]@);
            assert(prefix@ + k == paths@[i as int]@);
            assert(prefix@ =~= paths@[i as int]@.subrange(0, prefix@.len() as int));
            assert(paths@[i as int]@.skip(prefix@.len() as int) =~= k);
        }
        match text::strip_prefix(paths[i].as_str(), prefix.as_str()) {
            Some(k) => r.push(k),
            None => r.push(paths[i].clone()),
        }
        i = i + 1;
    }
    proof {
        let all = text::texts(paths@);
        let keys = text::texts(r@);
        assert forall|a: int, b: int| 0 <= a < b < keys.len() implies text::precedes(
            #[trigger] keys[a],
            #[trigger] keys[b],
        ) by {
            assert(text::precedes(all[a], all[b]));
            assert(all[a] == prefix@ + r@[a]@);
            assert(all[b] == prefix@ + r@[b]@);
            lemma_precedes_prefix(prefix@, keys[a], keys[b]);
        }
        assert forall|k: Seq<char>|
            #![trigger keys.contains(k)]
            #![trigger refers(template@, ns@, k)]
            keys.contains(k) <==> refers(template@, ns@, k) by {
            let x = ns@ + "."@ + k;
            if keys.contains(k) {
                let j = choose|j: int| 0 <= j < keys.len() && keys[j] == k;
                assert(all[j] == prefix@ + r@[j]@);
                assert(all.contains(x));
            }
            if refers(template@, ns@, k) {
                assert(all.contains(x));
                let j = choose|j: int| 0 <= j < all.len() && all[j] == x;
                assert(all[j] == prefix@ + r@[j]@);
                assert(keys[j] =~= k) by {
                    assert((prefix@ + keys[j]).skip(prefix@.len() as int) =~= keys[j]);
                    assert((prefix@ + k).skip(prefix@.len() as int) =~= k);
                }
                assert(keys.contains(k));
            }
        }
    }
    r
}

/// The template is JSON, and every token in its string values is well
/// formed.
pub open spec fn well_formed(policy: Seq<char>) -> bool {
    json::json_of(encode_utf8(policy)) matches Some(d) && template::malformed_of(d).len() == 0
}

/// Every `env` reference names a defined key.
pub open spec fn env_defined(policy: Seq<char>, env: Set<Seq<char>>) -> bool {
    forall|k: Seq<char>| #[trigger] refers(policy, "env"@, k) ==> env.contains(k)
}

/// Every `mint` reference names the value that the renderer computes.
pub open spec fn mint_known(policy: Seq<char>) -> bool {
    forall|k: Seq<char>| #[trigger]
        refers(policy, "mint"@, k) ==> k == template::MINT_EXPIRY@
}

/// No declared name is reserved.
pub open spec fn none_reserved(names: Seq<Seq<char>>) -> bool {
    forall|i: int| 0 <= i < names.len() ==> !name::reserved(#[trigger] names[i])
}

/// A role's template can be sealed: it is well formed, references only
/// defined values, and substitutes exactly the names that the role
/// declares.
pub open spec fn sealable_role(r: Role, env: Set<Seq<char>>) -> bool {
    &&& well_formed(r.policy@)
    &&& env_defined(r.policy@, env)
    &&& mint_known(r.policy@)
    &&& none_reserved(text::texts(r.attested@))
    &&& lists_keys(text::texts(r.attested@), r.policy@, "attested"@)
    &&& lists_keys(text::texts(r.caveat@), r.policy@, "caveat"@)
}

/// `e` says why a role cannot be sealed: the first check that fails, and
/// in it the first thing that is wrong.
pub open spec fn surface_fault(e: ConfigError, r: Role, env: Set<Seq<char>>) -> bool {
    let policy = r.policy@;
    match e {
        ConfigError::PolicyNotJson { role, source } => role@ == r.name@ && json::json_of(
            encode_utf8(policy),
        ) is None && source@ == json::json_fault(encode_utf8(policy)),
        ConfigError::MalformedPolicyToken { role, token } => {
            &&& role@ == r.name@
            &&& json::json_of(encode_utf8(policy)) matches Some(d)
            &&& template::malformed_of(d).len() > 0
            &&& token@ == template::malformed_of(d)[0]
        },
        ConfigError::UndefinedEnvKey { role, key } => {
            &&& role@ == r.name@
            &&& well_formed(policy)
            &&& refers(policy, "env"@, key@)
            &&& !env.contains(key@)
            &&& forall|k: Seq<char>| #[trigger]
                refers(policy, "env"@, k) && text::precedes(k, key@) ==> env.contains(k)
        },
        ConfigError::UnknownMintKey { role, key } => {
            &&& role@ == r.name@
            &&& well_formed(policy)
            &&& env_defined(policy, env)
            &&& refers(policy, "mint"@, key@)
            &&& key@ != template::MINT_EXPIRY@
            &&& forall|k: Seq<char>| #[trigger]
                refers(policy, "mint"@, k) && text::precedes(k, key@) ==> k
                    == template::MINT_EXPIRY@
        },
        ConfigError::ReservedAttestedKey { role, key } => {
            let names = text::texts(r.attested@);
            &&& role@ == r.name@
            &&& well_formed(policy)
            &&& env_defined(policy, env)
            &&& mint_known(policy)
            &&& exists|i: int|
                0 <= i < names.len() && #[trigger] names[i] == key@ && name::reserved(names[i])
                    && none_reserved(names.take(i))
        },
        ConfigError::AttestedContractMismatch { role, declared, used } => {
            &&& role@ == r.name@
            &&& well_formed(policy)
            &&& env_defined(policy, env)
            &&& mint_known(policy)
            &&& none_reserved(text::texts(r.attested@))
            &&& !lists_keys(text::texts(r.attested@), policy, "attested"@)
            &&& text::texts(declared@) == text::texts(r.attested@)
            &&& lists_keys(text::texts(used@), policy, "attested"@)
        },
        ConfigError::CaveatContractMismatch { role, declared, used } => {
            &&& role@ == r.name@
            &&& well_formed(policy)
            &&& env_defined(policy, env)
            &&& mint_known(policy)
            &&& none_reserved(text::texts(r.attested@))
            &&& lists_keys(text::texts(r.attested@), policy, "attested"@)
            &&& !lists_keys(text::texts(r.caveat@), policy, "caveat"@)
            &&& text::texts(declared@) == text::texts(r.caveat@)
            &&& lists_keys(text::texts(used@), policy, "caveat"@)
        },
        _ => false,
    }
}

/// What a list of keys says of the keys before its entry `i`.
proof fn lemma_keys_before(list: Seq<Seq<char>>, s: Seq<char>, ns: Seq<char>, i: int)
    requires
        lists_keys(list, s, ns),
        0 <= i < list.len(),
    ensures
        refers(s, ns, list[i]),
        forall|k: Seq<char>| #[trigger]
            refers(s, ns, k) && text::precedes(k, list[i]) ==> list.take(i).contains(k),
{
    assert(list.contains(list[i]));
    assert forall|k: Seq<char>| #[trigger]
        refers(s, ns, k) && text::precedes(k, list[i]) implies list.take(i).contains(k) by {
        assert(list.contains(k));
        let j = choose|j: int| 0 <= j < list.len() && list[j] == k;
        if j < i {
            assert(list.take(i)[j] == k);
        } else if j == i {
            text::lemma_precedes_irreflexive(k);
        } else {
            assert(text::precedes(list[i], list[j]));
            text::lemma_precedes_transitive(k, list[i], k);
            text::lemma_precedes_irreflexive(k);
        }
    }
}

/// The first key that the environment lacks.
fn undefined_env_key(keys: &[String], env: &NameMap<String>) -> (r: Option<usize>)
    ensures
        match r {
            Some(i) => i < keys@.len() && !env.texts().contains_key(keys@[i as int]@) && forall|
                j: int,
            |
                0 <= j < i ==> env.texts().contains_key((#[trigger] keys@[j])@),
            None => forall|j: int|
                0 <= j < keys@.len() ==> env.texts().contains_key((#[trigger] keys@[j])@),
        },
{
    let mut i: usize = 0;
    while i < keys.len()
        invariant
            i <= keys@.len(),
            forall|j: int| 0 <= j < i ==> env.texts().contains_key((#[trigger] keys@[j])@),
        decreases keys@.len() - i,
    {
        if !env.contains_key(keys[i].as_str()) {
            return Some(i);
        }
        i = i + 1;
    }
    None
}

/// The first key that the renderer does not compute.
fn unknown_mint_key(keys: &[String]) -> (r: Option<usize>)
    ensures
        match r {
            Some(i) => i < keys@.len() && keys@[i as int]@ != template::MINT_EXPIRY@ && forall|
                j: int,
            |
                0 <= j < i ==> (#[trigger] keys@[j])@ == template::MINT_EXPIRY@,
            None => forall|j: int|
                0 <= j < keys@.len() ==> (#[trigger] keys@[j])@ == template::MINT_EXPIRY@,
        },
{
    let mut i: usize = 0;
    while i < keys.len()
        invariant
            i <= keys@.len(),
            forall|j: int| 0 <= j < i ==> (#[trigger] keys@[j])@ == template::MINT_EXPIRY@,
        decreases keys@.len() - i,
    {
        if !text::same(keys[i].as_str(), template::MINT_EXPIRY) {
            return Some(i);
        }
        i = i + 1;
    }
    None
}

/// The first reserved name.
fn reserved_name(names: &[String]) -> (r: Option<usize>)
    ensures
        match r {
            Some(i) => i < names@.len() && name::reserved(names@[i as int]@) && none_reserved(
                text::texts(names@).take(i as int),
            ),
            None => none_reserved(text::texts(names@)),
        },
{
    let mut i: usize = 0;
    while i < names.len()
        invariant
            i <= names@.len(),
            forall|j: int| 0 <= j < i ==> !name::reserved((#[trigger] names@[j])@),
        decreases names@.len() - i,
    {
        if name::is_reserved(names[i].as_str()) {
            return Some(i);
        }
        i = i + 1;
    }
    None
}

/// Two lists of the same keys are the same list.
proof fn lemma_keys_unique(a: Seq<Seq<char>>, b: Seq<Seq<char>>, s: Seq<char>, ns: Seq<char>)
    requires
        lists_keys(a, s, ns),
    ensures
        lists_keys(b, s, ns) <==> a == b,
{
    if lists_keys(b, s, ns) {
        assert forall|x: Seq<char>| a.contains(x) <==> b.contains(x) by {
            assert(a.contains(x) <==> refers(s, ns, x));
            assert(b.contains(x) <==> refers(s, ns, x));
        }
        text::lemma_ascending_unique(a, b);
    }
}

/// Checks one role's template against its declared contract and the
/// environment.
pub fn check_role(role: &Role, env: &NameMap<String>) -> (r: Result<(), ConfigError>)
    ensures
        match r {
            Ok(_) => sealable_role(*role, env.texts().dom()),
            Err(e) => surface_fault(e, *role, env.texts().dom()),
        },
{
    let doc = match json::read_json(role.policy.as_str().as_bytes()) {
        Ok(d) => d,
        Err(source) => {
            return Err(ConfigError::PolicyNotJson { role: role.name.clone(), source });
        },
    };
    let malformed = template::malformed_tokens(&doc);
    if malformed.len() > 0 {
        proof {
            assert(text::texts(malformed@)[0] == malformed@[0]@);
        }
        return Err(
            ConfigError::MalformedPolicyToken {
                role: role.name.clone(),
                token: malformed[0].clone(),
            },
        );
    }
    let ghost policy = role.policy@;
    assert(well_formed(policy)) by {
        assert(text::texts(malformed@).len() == 0);
    }
    let surface = template::template_surface(role.policy.as_str());
    let env_keys = strip_ns(&surface.env, role.policy.as_str(), "env");
    let ghost env_list = text::texts(env_keys@);
    match undefined_env_key(&env_keys, env) {
        Some(i) => {
            proof {
                lemma_keys_before(env_list, policy, "env"@, i as int);
                assert forall|k: Seq<char>| #[trigger]
                    refers(policy, "env"@, k) && text::precedes(
                        k,
                        env_keys@[i as int]@,
                    ) implies env.texts().dom().contains(k) by {
                    let before = env_list.take(i as int);
                    assert(before.contains(k));
                    let j = choose|j: int| 0 <= j < before.len() && before[j] == k;
                    assert(env_keys@[j]@ == k);
                }
            }
            return Err(
                ConfigError::UndefinedEnvKey { role: role.name.clone(), key: env_keys[i].clone() },
            );
        },
        None => {},
    }
    assert(env_defined(policy, env.texts().dom())) by {
        assert forall|k: Seq<char>| #[trigger] refers(policy, "env"@, k) implies env.texts().dom()
            .contains(k) by {
            assert(env_list.contains(k));
            let j = choose|j: int| 0 <= j < env_list.len() && env_list[j] == k;
            assert(env_keys@[j]@ == k);
        }
    }
    let mint_keys = strip_ns(&surface.mint, role.policy.as_str(), "mint");
    let ghost mint_list = text::texts(mint_keys@);
    match unknown_mint_key(&mint_keys) {
        Some(i) => {
            proof {
                lemma_keys_before(mint_list, policy, "mint"@, i as int);
                assert forall|k: Seq<char>| #[trigger]
                    refers(policy, "mint"@, k) && text::precedes(
                        k,
                        mint_keys@[i as int]@,
                    ) implies k == template::MINT_EXPIRY@ by {
                    let before = mint_list.take(i as int);
                    assert(before.contains(k));
                    let j = choose|j: int| 0 <= j < before.len() && before[j] == k;
                    assert(mint_keys@[j]@ == k);
                }
            }
            return Err(
                ConfigError::UnknownMintKey { role: role.name.clone(), key: mint_keys[i].clone() },
            );
        },
        None => {},
    }
    assert(mint_known(policy)) by {
        assert forall|k: Seq<char>| #[trigger] refers(policy, "mint"@, k) implies k
            == template::MINT_EXPIRY@ by {
            assert(mint_list.contains(k));
            let j = choose|j: int| 0 <= j < mint_list.len() && mint_list[j] == k;
            assert(mint_keys@[j]@ == k);
        }
    }
    match reserved_name(&role.attested) {
        Some(i) => {
            proof {
                let names = text::texts(role.attested@);
                assert(names[i as int] == role.attested@[i as int]@);
            }
            return Err(
                ConfigError::ReservedAttestedKey {
                    role: role.name.clone(),
                    key: role.attested[i].clone(),
                },
            );
        },
        None => {},
    }
    let used_attested = strip_ns(&surface.attested, role.policy.as_str(), "attested");
    proof {
        lemma_keys_unique(
            text::texts(used_attested@),
            text::texts(role.attested@),
            policy,
            "attested"@,
        );
    }
    if !text::same_list(&used_attested, &role.attested) {
        return Err(
            ConfigError::AttestedContractMismatch {
                role: role.name.clone(),
                declared: text::copy_list(&role.attested),
                used: used_attested,
            },
        );
    }
    let used_caveat = strip_ns(&surface.caveat, role.policy.as_str(), "caveat");
    proof {
        lemma_keys_unique(text::texts(used_caveat@), text::texts(role.caveat@), policy, "caveat"@);
    }
    if !text::same_list(&used_caveat, &role.caveat) {
        return Err(
            ConfigError::CaveatContractMismatch {
                role: role.name.clone(),
                declared: text::copy_list(&role.caveat),
                used: used_caveat,
            },
        );
    }
    Ok(())
}

/// A role with a fault cannot be sealed.
pub proof fn lemma_fault_is_not_sealable(e: ConfigError, r: Role, env: Set<Seq<char>>)
    requires
        surface_fault(e, r, env),
    ensures
        !sealable_role(r, env),
{
}

/// Every role of a configuration can be sealed.
pub open spec fn sealable_config(c: Config) -> bool {
    forall|x: Seq<char>| #[trigger]
        c.roles.map().contains_key(x) ==> sealable_role(c.roles.map()[x], c.env.texts().dom())
}

/// The error is that of the role `x`, and every role before it, by name,
/// can be sealed.
pub open spec fn first_fault(e: ConfigError, c: Config, x: Seq<char>) -> bool {
    &&& c.roles.map().contains_key(x)
    &&& surface_fault(e, c.roles.map()[x], c.env.texts().dom())
    &&& forall|y: Seq<char>| #[trigger]
        c.roles.map().contains_key(y) && text::precedes(y, x) ==> sealable_role(
            c.roles.map()[y],
            c.env.texts().dom(),
        )
}

/// The error is that of the first role, by name, which cannot be sealed.
pub open spec fn config_fault(e: ConfigError, c: Config) -> bool {
    exists|x: Seq<char>| #[trigger] first_fault(e, c, x)
}

impl Config {
    /// Validates every template's substitution surface, role by role in
    /// the order of their names. This gates seal authoring and is not run
    /// when a configuration is loaded: a drifted local template never
    /// keeps a host from serving what is already sealed.
    pub fn validate_policy_surface(&self) -> (r: Result<(), ConfigError>)
        ensures
            match r {
                Ok(_) => sealable_config(*self),
                Err(e) => config_fault(e, *self),
            },
    {
        let n: usize = self.roles.len();
        let ghost names = self.roles.names();
        let ghost env = self.env.texts().dom();
        let mut i: usize = 0;
        while i < n
            invariant
                n == names.len(),
                names == self.roles.names(),
                env == self.env.texts().dom(),
                self.roles.lists(),
                i <= n,
                forall|j: int|
                    0 <= j < i ==> sealable_role(self.roles.map()[#[trigger] names[j]], env),
            decreases n - i,
        {
            match check_role(self.roles.value_at(i), &self.env) {
                Ok(_) => {},
                Err(e) => {
                    proof {
                        let x = names[i as int];
                        assert(names.contains(x));
                        assert(self.roles.map().contains_key(x));
                        assert forall|y: Seq<char>| #[trigger]
                            self.roles.map().contains_key(y) && text::precedes(
                                y,
                                x,
                            ) implies sealable_role(self.roles.map()[y], env) by {
                            assert(names.contains(y));
                            let j = choose|j: int| 0 <= j < names.len() && names[j] == y;
                            if j > i {
                                assert(text::precedes(names[i as int], names[j]));
                                text::lemma_precedes_transitive(y, x, y);
                                text::lemma_precedes_irreflexive(y);
                            } else if j == i {
                                text::lemma_precedes_irreflexive(y);
                            }
                        }
                        assert(first_fault(e, *self, x));
                    }
                    return Err(e);
                },
            }
            i = i + 1;
        }
        proof {
            assert forall|x: Seq<char>| #[trigger]
                self.roles.map().contains_key(x) implies sealable_role(
                self.roles.map()[x],
                env,
            ) by {
                assert(names.contains(x));
                let j = choose|j: int| 0 <= j < names.len() && names[j] == x;
                assert(sealable_role(self.roles.map()[names[j]], env));
            }
        }
        Ok(())
    }
}

} // verus!
