//! Sealing: what a seal pins, what drift is told, what is served.

use crate::config::Config;
use crate::crypto;
use crate::json;
use crate::json::JsonView;
use crate::keyring::KeyringView;
use crate::seal;
use crate::seal::{Intent, SealView, SealedRoleView, Startup};
use crate::sealed_cache;
use crate::sealed_cache::{BytesRead, CacheFault, CachePlan, CacheState, SealState};
use crate::template;
use crate::text;
use vstd::prelude::*;
use vstd::utf8::*;

verus! {

/// A seal pins the configuration that it is made from: its audience, its
/// environment, and of each role the lifetimes, the declared names and the
/// hash of its template; and it has those roles and no others.
pub proof fn law_seal_pins_its_configuration(c: Config, x: Seq<char>)
    ensures
        seal::intent_of(c).audience == c.audience@,
        seal::intent_of(c).env_blake3 == text::hex_of(
            crypto::blake3_hash(encode_utf8(json::json_pretty(seal::env_doc(c.env.texts())))),
        ),
        seal::intent_of(c).roles.contains_key(x) <==> c.roles.map().contains_key(x),
        c.roles.map().contains_key(x) ==> {
            let r = c.roles.map()[x];
            let s = seal::intent_of(c).roles[x];
            &&& s.default_ttl_seconds == r.default_ttl_seconds
            &&& s.max_ttl_seconds == r.max_ttl_seconds
            &&& s.min_ttl_seconds == r.min_ttl_seconds
            &&& s.caveat == text::texts(r.caveat@)
            &&& s.attested == text::texts(r.attested@)
            &&& s.policy_blake3 == text::hex_of(crypto::blake3_hash(encode_utf8(r.policy@)))
        },
{
}

/// The canonical environment holds each value under its key and nothing
/// else, with the keys in order: it is one document for one environment.
pub proof fn law_environment_is_canonical(env: Map<Seq<char>, Seq<char>>, k: Seq<char>)
    requires
        env.dom().finite(),
    ensures
        json::str_field(Some(seal::env_doc(env)), k) == (if env.contains_key(k) {
            Some(env[k])
        } else {
            None
        }),
        json::ordered(seal::env_doc(env)),
{
    let names = crate::map::listing(env.dom());
    crate::map::lemma_listing_exists(env.dom());
    let entries = seal::env_doc(env)->Object_0;
    assert forall|i: int| 0 <= i < entries.len() implies #[trigger] entries[i] == (
        names[i],
        JsonView::Str(env[names[i]]),
    ) by {}
    assert forall|i: int, j: int| 0 <= i < j < entries.len() implies text::precedes(
        #[trigger] entries[i].0,
        #[trigger] entries[j].0,
    ) by {
        assert(text::precedes(names[i], names[j]));
    }
    assert forall|i: int| 0 <= i < entries.len() implies json::ordered((#[trigger] entries[i]).1) by {}
    if env.contains_key(k) {
        assert(env.dom().contains(k));
        assert(names.contains(k));
        let i = choose|i: int| 0 <= i < names.len() && names[i] == k;
        assert forall|j: int| 0 <= j < i implies (#[trigger] entries[j]).0 != k by {
            assert(text::precedes(names[j], names[i]));
            text::lemma_precedes_irreflexive(k);
        }
        json::lemma_entry(entries, k, i);
    } else {
        assert forall|j: int| 0 <= j < entries.len() implies (#[trigger] entries[j]).0 != k by {
            assert(names.contains(names[j]));
            assert(env.dom().contains(names[j]));
        }
        json::lemma_entry(entries, k, entries.len() as int);
    }
}

/// A seal is honoured exactly where its generation is in the ring and its
/// MAC is the keyed hash of its own text; the MAC is no part of that text.
pub proof fn law_seal_is_honoured_by_its_mac(s: SealView, ring: KeyringView, mac: Seq<char>)
    ensures
        seal::verifies(s, ring) <==> ring.keys.contains_key(s.kid) && text::read_hex32(s.mac)
            == Some(
            crypto::blake3_keyed(
                ring.keys[s.kid],
                encode_utf8("mint-templates-seal-v1"@ + seal::body_text(s)),
            ),
        ),
        seal::body_text(SealView { mac, ..s }) == seal::body_text(s),
{
}

/// Drift is told where it is: the audience and the environment, with what is
/// sealed before what is local.
pub proof fn law_drift_of_the_head_is_told(sealed: Intent, local: Intent)
    ensures
        sealed.audience != local.audience ==> seal::diff_lines(sealed, local).contains(
            "audience: sealed as "@ + template::quoted(sealed.audience) + ", local config has "@
                + template::quoted(local.audience),
        ),
        sealed.env_blake3 != local.env_blake3 ==> seal::diff_lines(sealed, local).contains(
            "env: sealed as "@ + sealed.env_blake3 + ", local [env] hashes to "@
                + local.env_blake3,
        ),
{
    let head = seal::head_lines(sealed, local);
    let all = seal::diff_lines(sealed, local);
    assert forall|i: int| 0 <= i < head.len() implies all.contains(#[trigger] head[i]) by {
        assert(all[i] == head[i]);
    }
    if sealed.audience != local.audience {
        assert(head[0] == "audience: sealed as "@ + template::quoted(sealed.audience)
            + ", local config has "@ + template::quoted(local.audience));
    }
    if sealed.env_blake3 != local.env_blake3 {
        assert(head.last() == "env: sealed as "@ + sealed.env_blake3 + ", local [env] hashes to "@
            + local.env_blake3);
        assert(all.contains(head[head.len() - 1]));
    }
}

/// Drift is told of each role: one that is not sealed, one that is only
/// sealed, and one whose lifetimes, template or declared names differ.
pub proof fn law_drift_of_a_role_is_told(sealed: Intent, local: Intent, x: Seq<char>)
    requires
        sealed.roles.dom().finite(),
        local.roles.dom().finite(),
    ensures
        ({
            let lines = seal::diff_lines(sealed, local);
            &&& local.roles.contains_key(x) && !sealed.roles.contains_key(x) ==> lines.contains(
                "role "@ + x + ": not in seal"@,
            )
            &&& sealed.roles.contains_key(x) && !local.roles.contains_key(x) ==> lines.contains(
                "role "@ + x + ": in seal but absent from local config"@,
            )
            &&& sealed.roles.contains_key(x) && local.roles.contains_key(x) ==> {
                let s = sealed.roles[x];
                let l = local.roles[x];
                &&& s.min_ttl_seconds != l.min_ttl_seconds || s.default_ttl_seconds
                    != l.default_ttl_seconds || s.max_ttl_seconds != l.max_ttl_seconds
                    ==> lines.contains(
                    "role "@ + x + ": "@ + "TTL bounds"@ + " sealed as "@ + bounds(s)
                        + ", local has "@ + bounds(l),
                )
                &&& s.policy_blake3 != l.policy_blake3 ==> lines.contains(
                    "role "@ + x + ": "@ + "policy_blake3"@ + " sealed as "@ + s.policy_blake3
                        + ", local file hashes to "@ + l.policy_blake3,
                )
                &&& s.attested != l.attested ==> lines.contains(
                    "role "@ + x + ": "@ + "attested contract"@ + " sealed as "@
                        + seal::quoted_list(s.attested) + ", local config has "@
                        + seal::quoted_list(l.attested),
                )
                &&& s.caveat != l.caveat ==> lines.contains(
                    "role "@ + x + ": "@ + "caveat contract"@ + " sealed as "@ + seal::quoted_list(
                        s.caveat,
                    ) + ", local config has "@ + seal::quoted_list(l.caveat),
                )
            }
        }),
{
    let lines = seal::diff_lines(sealed, local);
    let head = seal::head_lines(sealed, local);
    let ln = crate::map::listing(local.roles.dom());
    let sn = crate::map::listing(sealed.roles.dom());
    crate::map::lemma_listing_exists(local.roles.dom());
    crate::map::lemma_listing_exists(sealed.roles.dom());
    let mid = seal::local_lines(ln, sealed.roles, local.roles);
    let end = seal::absent_lines(sn, local.roles);
    assert forall|i: int| 0 <= i < mid.len() implies lines.contains(#[trigger] mid[i]) by {
        assert(lines[head.len() + i] == mid[i]);
    }
    assert forall|i: int| 0 <= i < end.len() implies lines.contains(#[trigger] end[i]) by {
        assert(lines[head.len() + mid.len() + i] == end[i]);
    }
    if local.roles.contains_key(x) {
        assert(local.roles.dom().contains(x));
        assert(ln.contains(x));
        let own = seal::role_lines(x, sealed.roles, local.roles[x]);
        lemma_own_lines(ln, sealed.roles, local.roles, x);
        assert forall|i: int| 0 <= i < own.len() implies lines.contains(#[trigger] own[i]) by {
            let j = choose|j: int| 0 <= j < mid.len() && mid[j] == own[i];
            assert(lines.contains(mid[j]));
        }
        if !sealed.roles.contains_key(x) {
            assert(own[0] == "role "@ + x + ": not in seal"@);
        } else {
            lemma_part_lines(x, sealed.roles, local.roles[x], lines);
        }
    } else if sealed.roles.contains_key(x) {
        assert(sealed.roles.dom().contains(x));
        assert(sn.contains(x));
        lemma_absent_line(sn, local.roles, x);
        let want = "role "@ + x + ": in seal but absent from local config"@;
        let j = choose|j: int| 0 <= j < end.len() && end[j] == want;
        assert(lines.contains(end[j]));
    }
}

/// The lifetimes of a role, as drift tells them: least, default, greatest.
pub open spec fn bounds(r: SealedRoleView) -> Seq<char> {
    "("@ + text::digits(r.min_ttl_seconds as nat) + ", "@ + text::digits(
        r.default_ttl_seconds as nat,
    ) + ", "@ + text::digits(r.max_ttl_seconds as nat) + ")"@
}

proof fn lemma_own_lines(
    names: Seq<Seq<char>>,
    sealed: Map<Seq<char>, SealedRoleView>,
    local: Map<Seq<char>, SealedRoleView>,
    x: Seq<char>,
)
    requires
        names.contains(x),
    ensures
        forall|i: int|
            0 <= i < seal::role_lines(x, sealed, local[x]).len() ==> seal::local_lines(
                names,
                sealed,
                local,
            ).contains(#[trigger] seal::role_lines(x, sealed, local[x])[i]),
    decreases names.len(),
{
    let own = seal::role_lines(x, sealed, local[x]);
    let all = seal::local_lines(names, sealed, local);
    let before = seal::local_lines(names.drop_last(), sealed, local);
    if names.last() == x {
        assert forall|i: int| 0 <= i < own.len() implies all.contains(#[trigger] own[i]) by {
            assert(all[before.len() + i] == own[i]);
        }
    } else {
        let k = choose|k: int| 0 <= k < names.len() && names[k] == x;
        assert(names.drop_last()[k] == x);
        lemma_own_lines(names.drop_last(), sealed, local, x);
        assert forall|i: int| 0 <= i < own.len() implies all.contains(#[trigger] own[i]) by {
            let j = choose|j: int| 0 <= j < before.len() && before[j] == own[i];
            assert(all[j] == before[j]);
        }
    }
}

proof fn lemma_absent_line(
    names: Seq<Seq<char>>,
    local: Map<Seq<char>, SealedRoleView>,
    x: Seq<char>,
)
    requires
        names.contains(x),
        !local.contains_key(x),
    ensures
        seal::absent_lines(names, local).contains(
            "role "@ + x + ": in seal but absent from local config"@,
        ),
    decreases names.len(),
{
    let want = "role "@ + x + ": in seal but absent from local config"@;
    let all = seal::absent_lines(names, local);
    let before = seal::absent_lines(names.drop_last(), local);
    if names.last() == x {
        assert(all[before.len() as int] == want);
    } else {
        let k = choose|k: int| 0 <= k < names.len() && names[k] == x;
        assert(names.drop_last()[k] == x);
        lemma_absent_line(names.drop_last(), local, x);
        let j = choose|j: int| 0 <= j < before.len() && before[j] == want;
        assert(all[j] == before[j]);
    }
}

proof fn lemma_part_lines(
    x: Seq<char>,
    sealed: Map<Seq<char>, SealedRoleView>,
    l: SealedRoleView,
    lines: Seq<Seq<char>>,
)
    requires
        sealed.contains_key(x),
        forall|i: int|
            0 <= i < seal::role_lines(x, sealed, l).len() ==> lines.contains(
                #[trigger] seal::role_lines(x, sealed, l)[i],
            ),
    ensures
        ({
            let s = sealed[x];
            &&& s.min_ttl_seconds != l.min_ttl_seconds || s.default_ttl_seconds
                != l.default_ttl_seconds || s.max_ttl_seconds != l.max_ttl_seconds
                ==> lines.contains(
                "role "@ + x + ": "@ + "TTL bounds"@ + " sealed as "@ + bounds(s) + ", local has "@
                    + bounds(l),
            )
            &&& s.policy_blake3 != l.policy_blake3 ==> lines.contains(
                "role "@ + x + ": "@ + "policy_blake3"@ + " sealed as "@ + s.policy_blake3
                    + ", local file hashes to "@ + l.policy_blake3,
            )
            &&& s.attested != l.attested ==> lines.contains(
                "role "@ + x + ": "@ + "attested contract"@ + " sealed as "@ + seal::quoted_list(
                    s.attested,
                ) + ", local config has "@ + seal::quoted_list(l.attested),
            )
            &&& s.caveat != l.caveat ==> lines.contains(
                "role "@ + x + ": "@ + "caveat contract"@ + " sealed as "@ + seal::quoted_list(
                    s.caveat,
                ) + ", local config has "@ + seal::quoted_list(l.caveat),
            )
        }),
{
    let s = sealed[x];
    let own = seal::role_lines(x, sealed, l);
    let n1: int = if s.min_ttl_seconds == l.min_ttl_seconds && s.max_ttl_seconds
        == l.max_ttl_seconds && s.default_ttl_seconds == l.default_ttl_seconds {
        0
    } else {
        1
    };
    let n2: int = if s.policy_blake3 == l.policy_blake3 {
        0
    } else {
        1
    };
    let n3: int = if s.attested == l.attested {
        0
    } else {
        1
    };
    if n1 == 1 {
        assert(own[0] == "role "@ + x + ": "@ + "TTL bounds"@ + " sealed as "@ + bounds(s)
            + ", local has "@ + bounds(l));
    }
    if n2 == 1 {
        assert(own[n1] == "role "@ + x + ": "@ + "policy_blake3"@ + " sealed as "@
            + s.policy_blake3 + ", local file hashes to "@ + l.policy_blake3);
    }
    if n3 == 1 {
        assert(own[n1 + n2] == "role "@ + x + ": "@ + "attested contract"@ + " sealed as "@
            + seal::quoted_list(s.attested) + ", local config has "@ + seal::quoted_list(
            l.attested,
        ));
    }
    if s.caveat != l.caveat {
        assert(own[n1 + n2 + n3] == "role "@ + x + ": "@ + "caveat contract"@ + " sealed as "@
            + seal::quoted_list(s.caveat) + ", local config has "@ + seal::quoted_list(l.caveat));
    }
}

/// What is served is what is sealed: the served seal is the bucket's, with
/// templates and values that the cache held for the same intent, or that the
/// local files hold for it, and nothing is served otherwise. A cache that
/// satisfies the seal is not written again.
pub proof fn law_served_is_what_is_sealed(
    s: Startup,
    config: Config,
    bucket: SealView,
    cache: CacheState,
)
    requires
        seal::surface_resolved(s, config, bucket, cache),
    ensures
        s.state matches SealState::Serving(f) ==> {
            &&& f.seal@ == bucket
            &&& {
                ||| cache matches CacheState::Loaded { seal, templates, env } && seal@.intent
                    == bucket.intent && f.templates@ == templates@ && f.env.texts() == env.texts()
                    && s.plan is None
                ||| seal::intent_of(config) == bucket.intent && f.holds() && s.plan is Some
            }
        },
        s.state is Dormant <==> {
            &&& seal::intent_of(config) != bucket.intent
            &&& !(cache matches CacheState::Loaded { seal, .. } && seal@.intent == bucket.intent)
        },
        s.state is Serving ==> (s.note is Serving <==> seal::intent_of(config) == bucket.intent),
        s.state is Dormant ==> s.note is Mismatch,
{
}

/// The bytes of a cached policy are used only where they hash to the pin,
/// and are then the policy, whole.
pub proof fn law_cached_policy_is_the_pinned_one(
    role: Seq<char>,
    pin: Seq<char>,
    read: BytesRead,
)
    ensures
        sealed_cache::policy_outcome(role, pin, read) is Ok <==> (read matches BytesRead::Bytes(b)
            && text::hex_of(crypto::blake3_hash(b@)) == pin && valid_utf8(b@)),
        sealed_cache::policy_outcome(role, pin, read) matches Ok(t) ==> (read matches
            BytesRead::Bytes(b) && t == decode_utf8(b@)),
        sealed_cache::policy_outcome(role, pin, read) matches Err(CacheFault::Io(m)) ==> (
        read matches BytesRead::Failed(f) && f@ == m),
        read is Failed ==> sealed_cache::policy_outcome(role, pin, read) matches Err(
            CacheFault::Io(_),
        ),
{
}

/// The cached environment is used only where its bytes hash to the pin.
pub proof fn law_cached_environment_is_the_pinned_one(pin: Seq<char>, read: BytesRead)
    ensures
        sealed_cache::env_outcome(pin, read) matches Ok(m) ==> (read matches BytesRead::Bytes(b)
            && text::hex_of(crypto::blake3_hash(b@)) == pin && sealed_cache::string_map_of(b@)
            == Ok::<Map<Seq<char>, Seq<char>>, Seq<char>>(m)),
        read is Failed ==> sealed_cache::env_outcome(pin, read) matches Err(CacheFault::Io(_)),
{
}

/// A cache is planned exactly for what the seal pins: the environment and
/// every template.
pub proof fn law_only_pinned_bytes_are_cached(
    intent: Intent,
    templates: Map<Seq<char>, Seq<char>>,
    env: Map<Seq<char>, Seq<char>>,
)
    requires
        templates.dom().finite(),
    ensures
        sealed_cache::plan_fault(intent, templates, env) is None <==> {
            &&& intent.env_blake3 == text::hex_of(
                crypto::blake3_hash(encode_utf8(json::json_pretty(seal::env_doc(env)))),
            )
            &&& forall|x: Seq<char>| #[trigger]
                templates.contains_key(x) ==> intent.roles.contains_key(x)
                    && intent.roles[x].policy_blake3 == text::hex_of(
                    crypto::blake3_hash(encode_utf8(templates[x])),
                )
        },
{
    let names = crate::map::listing(templates.dom());
    crate::map::lemma_listing_exists(templates.dom());
    lemma_unpinned(intent, templates, names);
    if sealed_cache::first_unpinned(intent, templates, names) is None {
        assert forall|x: Seq<char>| #[trigger]
            templates.contains_key(x) implies sealed_cache::role_pinned(intent, templates, x) by {
            assert(templates.dom().contains(x));
            assert(names.contains(x));
        }
    } else {
        let x = sealed_cache::first_unpinned(intent, templates, names)->0;
        assert(names.contains(x));
        assert(templates.dom().contains(x));
        assert(templates.contains_key(x));
    }
}

proof fn lemma_unpinned(
    intent: Intent,
    templates: Map<Seq<char>, Seq<char>>,
    names: Seq<Seq<char>>,
)
    ensures
        match sealed_cache::first_unpinned(intent, templates, names) {
            None => forall|x: Seq<char>| #[trigger]
                names.contains(x) ==> sealed_cache::role_pinned(intent, templates, x),
            Some(x) => names.contains(x) && !sealed_cache::role_pinned(intent, templates, x),
        },
    decreases names.len(),
{
    if names.len() > 0 {
        let t = names.drop_last();
        lemma_unpinned(intent, templates, t);
        if sealed_cache::first_unpinned(intent, templates, t) is Some {
            let x = sealed_cache::first_unpinned(intent, templates, t)->0;
            let i = choose|i: int| 0 <= i < t.len() && t[i] == x;
            assert(names[i] == x);
        } else {
            assert(names[names.len() - 1] == names.last());
            assert forall|x: Seq<char>| #[trigger]
                names.contains(x) && x != names.last() implies sealed_cache::role_pinned(
                intent,
                templates,
                x,
            ) by {
                let i = choose|i: int| 0 <= i < names.len() && names[i] == x;
                assert(t[i] == x);
                assert(t.contains(x));
            }
        }
    }
}

/// A planned cache holds the environment and one file for each template,
/// named by its hash.
pub proof fn law_planned_files_are_named_by_hash(
    plan: CachePlan,
    templates: Map<Seq<char>, Seq<char>>,
    env: Map<Seq<char>, Seq<char>>,
    x: Seq<char>,
)
    requires
        templates.dom().finite(),
        sealed_cache::plan_of(plan, templates, env),
        templates.contains_key(x),
    ensures
        plan.env@ == json::json_pretty(seal::env_doc(env)),
        exists|i: int|
            0 <= i < plan.policies@.len() && (#[trigger] plan.policies@[i]).contents@
                == templates[x] && plan.policies@[i].name@ == text::hex_of(
                crypto::blake3_hash(encode_utf8(templates[x])),
            ),
{
    let names = crate::map::listing(templates.dom());
    crate::map::lemma_listing_exists(templates.dom());
    assert(templates.dom().contains(x));
    assert(names.contains(x));
    let i = choose|i: int| 0 <= i < names.len() && names[i] == x;
    assert(plan.policies@[i].contents@ == templates[names[i]]);
}

/// What a configuration serves of itself is its own templates.
pub proof fn law_configured_templates_are_the_roles_own(c: Config, x: Seq<char>)
    ensures
        sealed_cache::policies_of(c).contains_key(x) <==> c.roles.map().contains_key(x),
        c.roles.map().contains_key(x) ==> sealed_cache::policies_of(c)[x] == c.roles.map()[x].policy@,
{
}

/// A surface that holds serves only pinned bytes.
pub proof fn law_a_held_surface_is_pinned(
    intent: Intent,
    templates: Map<Seq<char>, Seq<char>>,
    env: Map<Seq<char>, Seq<char>>,
    x: Seq<char>,
)
    requires
        sealed_cache::pinned(intent, templates, env),
    ensures
        templates.contains_key(x) <==> intent.roles.contains_key(x),
        templates.contains_key(x) ==> intent.roles[x].policy_blake3 == text::hex_of(
            crypto::blake3_hash(encode_utf8(templates[x])),
        ),
        intent.env_blake3 == text::hex_of(
            crypto::blake3_hash(encode_utf8(json::json_pretty(seal::env_doc(env)))),
        ),
{
    assert(templates.dom().contains(x) <==> intent.roles.dom().contains(x));
}

/// A cache is loaded role by role: each template is the file that is pinned
/// for it, and there is one for every role.
pub proof fn law_each_cached_template_is_its_roles(
    names: Seq<Seq<char>>,
    roles: Map<Seq<char>, SealedRoleView>,
    reads: Seq<BytesRead>,
    i: int,
)
    requires
        names.no_duplicates(),
        reads.len() >= names.len(),
        0 <= i < names.len(),
    ensures
        sealed_cache::policies_outcome(names, roles, reads) matches Ok(m) ==> {
            &&& m.contains_key(names[i])
            &&& reads[i] matches BytesRead::Bytes(b)
            &&& m[names[i]] == decode_utf8(b@)
            &&& text::hex_of(crypto::blake3_hash(b@)) == roles[names[i]].policy_blake3
        },
    decreases names.len(),
{
    if sealed_cache::policies_outcome(names, roles, reads) is Ok {
        let t = names.drop_last();
        let last = names.len() - 1;
        assert(names[last] == names.last());
        if i < last {
            assert(t.no_duplicates()) by {
                assert forall|a: int, b: int|
                    0 <= a < t.len() && 0 <= b < t.len() && a != b implies t[a] != t[b] by {
                    assert(names[a] != names[b]);
                }
            }
            law_each_cached_template_is_its_roles(t, roles, reads, i);
            assert(t[i] == names[i]);
            assert(names[i] != names[last]);
        }
    }
}

/// A loaded cache is the seal, its templates and its values, all pinned; a
/// file that does not hold what is pinned makes it corrupt, and one that
/// cannot be read fails.
pub proof fn law_loaded_cache_is_pinned(
    r: Result<CacheState, seal::SealError>,
    s: SealView,
    reads: Seq<BytesRead>,
    env: BytesRead,
)
    requires
        sealed_cache::loaded(r, s, reads, env),
    ensures
        r matches Ok(CacheState::Loaded { seal: got, templates, env: values }) ==> {
            &&& got@ == s
            &&& templates@.dom() == s.intent.roles.dom()
            &&& forall|x: Seq<char>| #[trigger]
                templates@.contains_key(x) ==> s.intent.roles[x].policy_blake3 == text::hex_of(
                    crypto::blake3_hash(encode_utf8(templates@[x])),
                )
            &&& env matches BytesRead::Bytes(b)
            &&& text::hex_of(crypto::blake3_hash(b@)) == s.intent.env_blake3
            &&& sealed_cache::string_map_of(b@) == Ok::<Map<Seq<char>, Seq<char>>, Seq<char>>(
                values.texts(),
            )
        },
        !(r matches Ok(CacheState::Absent)),
{
}

/// A list is told with each item quoted, commas between, in brackets.
pub proof fn law_lists_are_told_quoted(items: Seq<Seq<char>>, last: Seq<char>)
    ensures
        seal::quoted_list(Seq::empty()) == "["@ + "]"@,
        seal::quoted_list(seq![last]) == "["@ + template::quoted(last) + "]"@,
        items.len() > 0 ==> seal::quoted_list(items.push(last)) == seal::quoted_list(
            items,
        ).drop_last() + ", "@ + template::quoted(last) + "]"@,
{
    let q = |s: Seq<char>| template::quoted(s);
    reveal_strlit("[");
    reveal_strlit("]");
    assert(Seq::<Seq<char>>::empty().map_values(q) =~= Seq::<Seq<char>>::empty());
    assert("["@ + Seq::<char>::empty() + "]"@ =~= "["@ + "]"@);
    assert(seq![last].map_values(q) =~= seq![template::quoted(last)]);
    assert(items.push(last).map_values(q) =~= items.map_values(q).push(template::quoted(last)));
    let a = items.map_values(q);
    let b = a.push(template::quoted(last));
    assert(b.drop_last() =~= a);
    assert(seal::quoted_list(items).drop_last() =~= "["@ + text::joined(a, ", "@));
    if items.len() > 0 {
        assert(text::joined(b, ", "@) == text::joined(a, ", "@) + ", "@ + template::quoted(last));
        assert(seal::quoted_list(items.push(last)) =~= seal::quoted_list(items).drop_last() + ", "@
            + template::quoted(last) + "]"@);
    }
}

} // verus!
