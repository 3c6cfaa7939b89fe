//! The operator's view of the roles: how each stands to the served seal.
//!
//! Two surfaces hold a role: the templates that the operator edits, and
//! the sealed ones that credentials are minted from. The sealed one is
//! reported as authoritative, and a drift of the other is flagged.

use crate::config::{Config, Role};
use crate::seal;
use crate::seal::{Intent, SealedRole, SealedRoleView};
use crate::sealed_cache::CacheState;
use crate::template;
use crate::text;
use vstd::prelude::*;
use vstd::utf8::*;

verus! {

/// A row of the role list.
#[derive(Debug, PartialEq, Eq)]
pub struct RoleRow {
    pub name: String,
    pub min: u64,
    pub default: u64,
    pub max: u64,
    /// `served`, `drifted` or `unsealed`.
    pub state: &'static str,
}

/// A row, mathematically.
pub struct RowView {
    pub name: Seq<char>,
    pub min: u64,
    pub default: u64,
    pub max: u64,
    pub state: Seq<char>,
}

impl View for RoleRow {
    type V = RowView;

    open spec fn view(&self) -> RowView {
        RowView {
            name: self.name@,
            min: self.min,
            default: self.default,
            max: self.max,
            state: self.state@,
        }
    }
}

/// What the cache serves for a role, where it serves it.
pub open spec fn served_role(cache: CacheState, name: Seq<char>) -> Option<
    (Intent, SealedRoleView, Seq<char>),
> {
    match cache {
        CacheState::Loaded { seal, templates, .. } => if seal@.intent.roles.contains_key(name)
            && templates@.contains_key(name) {
            Some((seal@.intent, seal@.intent.roles[name], templates@[name]))
        } else {
            None
        },
        _ => None,
    }
}

/// A role has drifted from its seal: its bounds or its template, or the
/// audience or the environment, which change every grant.
pub open spec fn drifted(c: Config, r: Role, sealed: Intent, s: SealedRoleView) -> bool {
    ||| sealed.env_blake3 != seal::env_hash(c.env.texts())
    ||| sealed.audience != c.audience@
    ||| s.min_ttl_seconds != r.min_ttl_seconds
    ||| s.default_ttl_seconds != r.default_ttl_seconds
    ||| s.max_ttl_seconds != r.max_ttl_seconds
    ||| s.policy_blake3 != seal::hash_text(encode_utf8(r.policy@))
}

/// The row of a role: the sealed bounds where it is served.
pub open spec fn row_of(c: Config, r: Role, cache: CacheState) -> RowView {
    match served_role(cache, r.name@) {
        Some((sealed, s, _)) => RowView {
            name: r.name@,
            min: s.min_ttl_seconds,
            default: s.default_ttl_seconds,
            max: s.max_ttl_seconds,
            state: if drifted(c, r, sealed, s) {
                "drifted"@
            } else {
                "served"@
            },
        },
        None => RowView {
            name: r.name@,
            min: r.min_ttl_seconds,
            default: r.default_ttl_seconds,
            max: r.max_ttl_seconds,
            state: "unsealed"@,
        },
    }
}

fn role_row(config: &Config, r: &Role, cache: &CacheState) -> (row: RoleRow)
    ensures
        row@ == row_of(*config, *r, *cache),
{
    match cache {
        CacheState::Loaded { seal, templates, .. } => {
            match (seal.roles.get(r.name.as_str()), templates.get(r.name.as_str())) {
                (Some(s), Some(_)) => {
                    assert(seal@.intent.roles[r.name@] == s@);
                    let drift = !seal.env_matches(&config.env) || !text::same(
                        seal.audience.as_str(),
                        config.audience.as_str(),
                    ) || s.min_ttl_seconds != r.min_ttl_seconds || s.default_ttl_seconds
                        != r.default_ttl_seconds || s.max_ttl_seconds != r.max_ttl_seconds
                        || !text::same(
                        s.policy_blake3.as_str(),
                        seal::hash_hex(r.policy.as_str().as_bytes()).as_str(),
                    );
                    return RoleRow {
                        name: r.name.clone(),
                        min: s.min_ttl_seconds,
                        default: s.default_ttl_seconds,
                        max: s.max_ttl_seconds,
                        state: if drift {
                            "drifted"
                        } else {
                            "served"
                        },
                    };
                },
                _ => {},
            }
        },
        _ => {},
    }
    RoleRow {
        name: r.name.clone(),
        min: r.min_ttl_seconds,
        default: r.default_ttl_seconds,
        max: r.max_ttl_seconds,
        state: "unsealed",
    }
}

/// The rows of a configuration's roles, in ascending order of name.
pub fn role_list(config: &Config, cache: &CacheState) -> (r: Vec<RoleRow>)
    ensures
        ({
            let names = crate::map::listing(config.roles.map().dom());
            &&& r@.len() == names.len()
            &&& forall|i: int|
                0 <= i < names.len() ==> (#[trigger] r@[i])@ == row_of(
                    *config,
                    config.roles.map()[names[i]],
                    *cache,
                )
        }),
{
    let n: usize = config.roles.len();
    let ghost names = config.roles.names();
    proof {
        config.roles.lemma_names();
    }
    let mut rows: Vec<RoleRow> = Vec::new();
    let mut i: usize = 0;
    while i < n
        invariant
            n == names.len(),
            names == config.roles.names(),
            i <= n,
            rows@.len() == i,
            forall|j: int|
                0 <= j < i ==> (#[trigger] rows@[j])@ == row_of(
                    *config,
                    config.roles.map()[names[j]],
                    *cache,
                ),
        decreases n - i,
    {
        rows.push(role_row(config, config.roles.value_at(i), cache));
        i = i + 1;
    }
    rows
}

/// The line of a row.
pub open spec fn row_line(r: RowView) -> Seq<char> {
    text::padded(r.name, 24) + " "@ + text::aligned(text::digits(r.min as nat), 7) + " "@
        + text::aligned(text::digits(r.default as nat), 7) + " "@ + text::aligned(
        text::digits(r.max as nat),
        7,
    ) + "  "@ + r.state
}

impl RoleRow {
    /// The line of the row.
    pub fn line(&self) -> (r: String)
        ensures
            r@ == row_line(self@),
    {
        let mut line = text::pad_right(self.name.as_str(), 24);
        line.push_str(" ");
        line.push_str(text::pad_left(text::print_u64(self.min).as_str(), 7).as_str());
        line.push_str(" ");
        line.push_str(text::pad_left(text::print_u64(self.default).as_str(), 7).as_str());
        line.push_str(" ");
        line.push_str(text::pad_left(text::print_u64(self.max).as_str(), 7).as_str());
        line.push_str("  ");
        line.push_str(self.state);
        line
    }
}

/// The heading of the role list.
pub fn role_heading() -> (r: String)
    ensures
        r@ == text::padded("NAME"@, 24) + " "@ + text::aligned("MIN"@, 7) + " "@ + text::aligned(
            "DEF"@,
            7,
        ) + " "@ + text::aligned("MAX"@, 7) + "  STATE"@,
{
    let mut line = text::pad_right("NAME", 24);
    line.push_str(" ");
    line.push_str(text::pad_left("MIN", 7).as_str());
    line.push_str(" ");
    line.push_str(text::pad_left("DEF", 7).as_str());
    line.push_str(" ");
    line.push_str(text::pad_left("MAX", 7).as_str());
    line.push_str("  STATE");
    line
}

/// The references of a template in one namespace, in ascending order.
pub open spec fn references_in(t: Seq<char>, ns: Seq<char>) -> Seq<Seq<char>> {
    crate::map::listing(Set::new(|x: Seq<char>| template::references(t, ns, x)))
}

proof fn lemma_references_in(list: Seq<String>, t: Seq<char>, ns: Seq<char>)
    requires
        template::lists_references(list, t, ns),
    ensures
        references_in(t, ns) == text::texts(list),
{
    let dom = Set::new(|x: Seq<char>| template::references(t, ns, x));
    let l = text::texts(list);
    assert forall|x: Seq<char>|
        #![trigger l.contains(x)]
        #![trigger dom.contains(x)]
        l.contains(x) <==> dom.contains(x) by {
        assert(l.contains(x) <==> template::references(t, ns, x));
    }
    crate::map::lemma_listing(dom, l);
}

/// The lines on one group of references.
pub open spec fn group_lines(label: Seq<char>, refs: Seq<Seq<char>>) -> Seq<Seq<char>> {
    if refs.len() == 0 {
        Seq::empty()
    } else {
        seq!["    "@ + label + ": "@ + text::joined(refs, ", "@)]
    }
}

/// The lines on what a template references, grouped by where each value
/// comes from.
pub open spec fn surface_lines(t: Seq<char>) -> Seq<Seq<char>> {
    seq!["  policy references:"@] + group_lines(
        "attested (discharge-MAC'd)"@,
        references_in(t, "attested"@),
    ) + group_lines("env (config)"@, references_in(t, "env"@)) + group_lines(
        "mint (mint-computed)"@,
        references_in(t, "mint"@),
    ) + group_lines("caveat (MAC-verified)"@, references_in(t, "caveat"@))
}

fn add_group(out: &mut Vec<String>, label: &str, refs: &[String])
    ensures
        text::texts(final(out)@) == text::texts(old(out)@) + group_lines(
            label@,
            text::texts(refs@),
        ),
{
    let ghost start = text::texts(out@);
    if refs.len() > 0 {
        let mut line = text::owned("    ");
        line.push_str(label);
        line.push_str(": ");
        line.push_str(text::join(refs, ", ").as_str());
        text::add_line(out, line);
    }
    assert(text::texts(out@) =~= start + group_lines(label@, text::texts(refs@)));
}

fn add_surface(out: &mut Vec<String>, t: &str)
    ensures
        text::texts(final(out)@) == text::texts(old(out)@) + surface_lines(t@),
{
    let ghost start = text::texts(out@);
    let s = template::template_surface(t);
    proof {
        lemma_references_in(s.attested@, t@, "attested"@);
        lemma_references_in(s.env@, t@, "env"@);
        lemma_references_in(s.mint@, t@, "mint"@);
        lemma_references_in(s.caveat@, t@, "caveat"@);
    }
    text::add_line(out, text::owned("  policy references:"));
    add_group(out, "attested (discharge-MAC'd)", &s.attested);
    add_group(out, "env (config)", &s.env);
    add_group(out, "mint (mint-computed)", &s.mint);
    add_group(out, "caveat (MAC-verified)", &s.caveat);
    assert(text::texts(out@) =~= start + surface_lines(t@));
}

/// The lines on a role that no sealed surface backs.
pub open spec fn unsealed_lines(r: Role, why: Seq<char>) -> Seq<Seq<char>> {
    seq![
        "  surface:          NOT SEALED \u{2014} "@ + why,
        "  ttl_seconds:      min="@ + text::digits(r.min_ttl_seconds as nat) + " default="@
            + text::digits(r.default_ttl_seconds as nat) + " max="@ + text::digits(
            r.max_ttl_seconds as nat,
        ) + "  (local, unsealed)"@,
    ] + surface_lines(r.policy@) + seq!["  policy template (local draft):"@]
}

fn add_unsealed(out: &mut Vec<String>, r: &Role, why: &str)
    ensures
        text::texts(final(out)@) == text::texts(old(out)@) + unsealed_lines(*r, why@),
{
    let ghost start = text::texts(out@);
    text::add_line(out, text::concat("  surface:          NOT SEALED \u{2014} ", why));
    let mut line = text::owned("  ttl_seconds:      min=");
    line.push_str(text::print_u64(r.min_ttl_seconds).as_str());
    line.push_str(" default=");
    line.push_str(text::print_u64(r.default_ttl_seconds).as_str());
    line.push_str(" max=");
    line.push_str(text::print_u64(r.max_ttl_seconds).as_str());
    line.push_str("  (local, unsealed)");
    text::add_line(out, line);
    add_surface(out, r.policy.as_str());
    text::add_line(out, text::owned("  policy template (local draft):"));
    assert(text::texts(out@) =~= start + unsealed_lines(*r, why@));
}

/// A sealed bound, with the local one where it differs.
pub open spec fn bound_text(sealed: u64, local: u64) -> Seq<char> {
    if sealed == local {
        text::digits(sealed as nat)
    } else {
        text::digits(sealed as nat) + " (local="@ + text::digits(local as nat) + ")"@
    }
}

fn show_bound(sealed: u64, local: u64) -> (r: String)
    ensures
        r@ == bound_text(sealed, local),
{
    let mut t = text::print_u64(sealed);
    if sealed != local {
        t.push_str(" (local=");
        t.push_str(text::print_u64(local).as_str());
        t.push_str(")");
    }
    t
}

/// The contract of a role, as a line names it.
pub open spec fn contract_text(
    attested: Seq<Seq<char>>,
    caveat: Seq<Seq<char>>,
) -> Seq<char> {
    "attested="@ + seal::quoted_list(attested) + " caveat="@ + seal::quoted_list(caveat)
}

/// The lines on a drifted contract.
pub open spec fn contract_lines(r: Role, s: SealedRoleView) -> Seq<Seq<char>> {
    if s.attested == text::texts(r.attested@) && s.caveat == text::texts(r.caveat@) {
        Seq::empty()
    } else {
        seq![
            "  \u{26a0} local [role.template] has drifted from the seal:"@,
            "      sealed: "@ + contract_text(s.attested, s.caveat),
            "      local:  "@ + contract_text(text::texts(r.attested@), text::texts(r.caveat@)),
        ]
    }
}

/// The lines on a drifted template.
pub open spec fn template_lines(r: Role, s: SealedRoleView) -> Seq<Seq<char>> {
    let local = seal::hash_text(encode_utf8(r.policy@));
    if local == s.policy_blake3 {
        Seq::empty()
    } else {
        seq![
            "  \u{26a0} local roles_dir/ has drifted from the seal:"@,
            "      sealed policy_blake3: "@ + s.policy_blake3,
            "      local  policy_blake3: "@ + local,
            "      (run `mint seal` to publish the local template)"@,
        ]
    }
}

/// The lines on the audience and the environment.
pub open spec fn deployment_lines(c: Config, sealed: Intent) -> Seq<Seq<char>> {
    seq![
        if sealed.audience == c.audience@ {
            "  audience:         "@ + sealed.audience
        } else {
            "  audience:         "@ + sealed.audience + " (local="@ + c.audience@ + ")"@
        },
    ] + (if sealed.env_blake3 == seal::env_hash(c.env.texts()) {
        Seq::empty()
    } else {
        seq!["  \u{26a0} local [env] has drifted from the seal"@]
    })
}

/// The lines on a served role.
pub open spec fn served_lines(
    c: Config,
    r: Role,
    sealed: Intent,
    sealed_at: Seq<char>,
    s: SealedRoleView,
    policy: Seq<char>,
) -> Seq<Seq<char>> {
    seq![
        "  surface:          served (sealed at "@ + sealed_at + ")"@,
        "  ttl_seconds:      min="@ + bound_text(s.min_ttl_seconds, r.min_ttl_seconds)
            + " default="@ + bound_text(s.default_ttl_seconds, r.default_ttl_seconds) + " max="@
            + bound_text(s.max_ttl_seconds, r.max_ttl_seconds),
    ] + deployment_lines(c, sealed) + surface_lines(policy) + contract_lines(r, s)
        + template_lines(r, s) + seq!["  policy template (served):"@]
}

/// What is told of one role, and the template that is printed with it.
#[derive(Debug)]
pub struct Inspection {
    pub notes: Vec<String>,
    pub template: String,
}

/// The first lines on a role.
pub open spec fn head_lines(c: Config, r: Role) -> Seq<Seq<char>> {
    seq![
        "role: "@ + r.name@,
        "  store.bucket:     "@ + c.store.bucket@,
        "  policy source:    "@ + r.policy_path@,
    ]
}

/// What is told of a role: the served surface where there is one, and else
/// the local one, labelled so that it is never mistaken for it.
pub open spec fn inspected(
    i: Inspection,
    c: Config,
    r: Role,
    name: Seq<char>,
    cache: CacheState,
) -> bool {
    let head = head_lines(c, r);
    match cache {
        CacheState::Loaded { seal, templates, .. } => match served_role(cache, name) {
            Some((sealed, s, policy)) => {
                &&& text::texts(i.notes@) == head + served_lines(
                    c,
                    r,
                    sealed,
                    seal@.sealed_at,
                    s,
                    policy,
                )
                &&& i.template@ == policy
            },
            None => {
                &&& text::texts(i.notes@) == head + unsealed_lines(
                    r,
                    "role absent from the served seal; will not be minted until `mint seal`"@,
                )
                &&& i.template@ == r.policy@
            },
        },
        CacheState::Absent => {
            &&& text::texts(i.notes@) == head + unsealed_lines(
                r,
                "no sealed cache on this host; the local template is not served"@,
            )
            &&& i.template@ == r.policy@
        },
        CacheState::Corrupt { reason } => {
            &&& text::texts(i.notes@) == head + seq![
                "  surface:          CORRUPT \u{2014} sealed cache will not be served: "@
                    + reason@,
            ] + unsealed_lines(r, "showing local authoring template"@)
            &&& i.template@ == r.policy@
        },
    }
}

fn add_deployment(out: &mut Vec<String>, config: &Config, sealed: &seal::Seal)
    ensures
        text::texts(final(out)@) == text::texts(old(out)@) + deployment_lines(
            *config,
            sealed@.intent,
        ),
{
    let ghost start = text::texts(out@);
    let mut line = text::concat("  audience:         ", sealed.audience.as_str());
    if !text::same(sealed.audience.as_str(), config.audience.as_str()) {
        line.push_str(" (local=");
        line.push_str(config.audience.as_str());
        line.push_str(")");
    }
    text::add_line(out, line);
    if !sealed.env_matches(&config.env) {
        text::add_line(out, text::owned("  \u{26a0} local [env] has drifted from the seal"));
    }
    assert(text::texts(out@) =~= start + deployment_lines(*config, sealed@.intent));
}

fn add_contract(out: &mut Vec<String>, r: &Role, s: &SealedRole)
    ensures
        text::texts(final(out)@) == text::texts(old(out)@) + contract_lines(*r, s@),
{
    let ghost start = text::texts(out@);
    if !text::same_list(&s.attested, &r.attested) || !text::same_list(&s.caveat, &r.caveat) {
        text::add_line(
            out,
            text::owned("  \u{26a0} local [role.template] has drifted from the seal:"),
        );
        let sealed = contract(&s.attested, &s.caveat);
        text::add_line(out, text::concat("      sealed: ", sealed.as_str()));
        let local = contract(&r.attested, &r.caveat);
        text::add_line(out, text::concat("      local:  ", local.as_str()));
    }
    assert(text::texts(out@) =~= start + contract_lines(*r, s@));
}

fn add_template(out: &mut Vec<String>, r: &Role, s: &SealedRole)
    ensures
        text::texts(final(out)@) == text::texts(old(out)@) + template_lines(*r, s@),
{
    let ghost start = text::texts(out@);
    let local = seal::hash_hex(r.policy.as_str().as_bytes());
    if !text::same(local.as_str(), s.policy_blake3.as_str()) {
        text::add_line(
            out,
            text::owned("  \u{26a0} local roles_dir/ has drifted from the seal:"),
        );
        text::add_line(
            out,
            text::concat("      sealed policy_blake3: ", s.policy_blake3.as_str()),
        );
        text::add_line(out, text::concat("      local  policy_blake3: ", local.as_str()));
        text::add_line(
            out,
            text::owned("      (run `mint seal` to publish the local template)"),
        );
    }
    assert(text::texts(out@) =~= start + template_lines(*r, s@));
}

fn add_served(
    out: &mut Vec<String>,
    config: &Config,
    r: &Role,
    sealed: &seal::Seal,
    s: &SealedRole,
    policy: &str,
)
    ensures
        text::texts(final(out)@) == text::texts(old(out)@) + served_lines(
            *config,
            *r,
            sealed@.intent,
            sealed@.sealed_at,
            s@,
            policy@,
        ),
{
    let ghost start = text::texts(out@);
    let mut line = text::owned("  surface:          served (sealed at ");
    line.push_str(sealed.sealed_at.as_str());
    line.push_str(")");
    let ghost first = line@;
    text::add_line(out, line);
    let mut line = text::owned("  ttl_seconds:      min=");
    line.push_str(show_bound(s.min_ttl_seconds, r.min_ttl_seconds).as_str());
    line.push_str(" default=");
    line.push_str(show_bound(s.default_ttl_seconds, r.default_ttl_seconds).as_str());
    line.push_str(" max=");
    line.push_str(show_bound(s.max_ttl_seconds, r.max_ttl_seconds).as_str());
    let ghost second = line@;
    text::add_line(out, line);
    add_deployment(out, config, sealed);
    add_surface(out, policy);
    add_contract(out, r, s);
    add_template(out, r, s);
    text::add_line(out, text::owned("  policy template (served):"));
    proof {
        lemma_assembled(
            start,
            first,
            second,
            deployment_lines(*config, sealed@.intent),
            surface_lines(policy@),
            contract_lines(*r, s@),
            template_lines(*r, s@),
            "  policy template (served):"@,
        );
    }
}

proof fn lemma_assembled(
    start: Seq<Seq<char>>,
    first: Seq<char>,
    second: Seq<char>,
    a: Seq<Seq<char>>,
    b: Seq<Seq<char>>,
    c: Seq<Seq<char>>,
    d: Seq<Seq<char>>,
    last: Seq<char>,
)
    ensures
        (start.push(first).push(second) + a + b + c + d).push(last) == start + (seq![first, second]
            + a + b + c + d + seq![last]),
{
    let r = seq![first, second] + a + b + c + d + seq![last];
    assert((start.push(first).push(second) + a + b + c + d).push(last) =~= start + r);
}

fn contract(attested: &[String], caveat: &[String]) -> (r: String)
    ensures
        r@ == contract_text(text::texts(attested@), text::texts(caveat@)),
{
    let mut t = text::owned("attested=");
    t.push_str(seal::quote_list(attested).as_str());
    t.push_str(" caveat=");
    t.push_str(seal::quote_list(caveat).as_str());
    t
}

/// Inspects one role of a configuration, against what the cache serves.
pub fn role_inspect(config: &Config, name: &str, cache: &CacheState) -> (r: Result<
    Inspection,
    String,
>)
    ensures
        if config.roles.map().contains_key(name@) {
            r is Ok && inspected(r->Ok_0, *config, config.roles.map()[name@], name@, *cache)
        } else {
            r is Err && r->Err_0@ == "no role "@ + name@
                + " in config (see `mint role list`)"@
        },
{
    let role = match config.roles.get(name) {
        Some(r) => r,
        None => {
            let mut m = text::owned("no role ");
            m.push_str(name);
            m.push_str(" in config (see `mint role list`)");
            return Err(m);
        },
    };
    let mut out: Vec<String> = Vec::new();
    text::add_line(&mut out, text::concat("role: ", role.name.as_str()));
    text::add_line(&mut out, text::concat("  store.bucket:     ", config.store.bucket.as_str()));
    text::add_line(&mut out, text::concat("  policy source:    ", role.policy_path.as_str()));
    assert(text::texts(out@) =~= head_lines(*config, *role));
    match cache {
        CacheState::Loaded { seal, templates, .. } => {
            match (seal.roles.get(name), templates.get(name)) {
                (Some(s), Some(policy)) => {
                    assert(seal@.intent.roles[name@] == s@);
                    add_served(&mut out, config, role, seal, s, policy);
                    return Ok(Inspection { notes: out, template: text::owned(policy) });
                },
                _ => {
                    add_unsealed(
                        &mut out,
                        role,
                        "role absent from the served seal; will not be minted until `mint seal`",
                    );
                },
            }
        },
        CacheState::Absent => {
            add_unsealed(
                &mut out,
                role,
                "no sealed cache on this host; the local template is not served",
            );
        },
        CacheState::Corrupt { reason } => {
            text::add_line(
                &mut out,
                text::concat(
                    "  surface:          CORRUPT \u{2014} sealed cache will not be served: ",
                    reason.as_str(),
                ),
            );
            add_unsealed(&mut out, role, "showing local authoring template");
            proof {
                let head = head_lines(*config, *role);
                let line = "  surface:          CORRUPT \u{2014} sealed cache will not be served: "@
                    + reason@;
                assert(head.push(line) =~= head + seq![line]);
            }
        },
    }
    Ok(Inspection { notes: out, template: role.policy.clone() })
}

} // verus!
