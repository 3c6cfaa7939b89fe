//! What is told: to the operator of the roles and the enrollments, to the
//! holder of a token, and to the audit log.

use crate::admin;
use crate::admin::{EnrollmentRow, RevokeResponse, SealResponse};
use crate::caveat;
use crate::caveat::{name, op, ResolvedView};
use crate::cli;
use crate::client;
use crate::client::narrate;
use crate::client::ClientError;
use crate::config;
use crate::config::{AdminCredential, Config, Listener};
use crate::http;
use crate::http::assume_role;
use crate::http::assume_role::SurfaceView;
use crate::http::enroll;
use crate::http::enroll::PendingWrite;
use crate::http::exchange;
use crate::http::exchange::AttestationConfig;
use crate::http::gate;
use crate::http::gate::{DenyView, EnrolledRead, Fault, PresentedView, Refused};
use crate::http::{ClearedView, Refusal, Taken, VerifyClearError};
use crate::inventory;
use crate::inventory::{Inspection, RoleRow};
use crate::issuance;
use crate::json;
use crate::json::JsonView;
use crate::keyring;
use crate::keyring::KeyringView;
use crate::macaroon;
use crate::macaroon::{KeyRef, MacaroonView, SiteView};
use crate::map::NameMap;
use crate::operator;
use crate::reply::Reply;
use crate::role::{Denied, DeniedView};
use crate::seal;
use crate::seal::{SealView, SealedRoleView, Startup, StartupNote};
use crate::sealed_cache;
use crate::sealed_cache::{CacheState, SealState, ServedSurface};
use crate::session;
use crate::session::SessionError;
use crate::template;
use crate::text;
use crate::time;
use crate::time::UtcTime;
use crate::tpc;
use crate::transport::Target;
use vstd::prelude::*;
use vstd::utf8::*;

verus! {

/// A line is among the notes of an inspection.
pub open spec fn notes(i: Inspection, line: Seq<char>) -> bool {
    exists|k: int| 0 <= k < i.notes@.len() && (#[trigger] i.notes@[k])@ == line
}

proof fn lemma_noted(i: Inspection, a: Seq<Seq<char>>, b: Seq<Seq<char>>, c: Seq<Seq<char>>, k: int)
    requires
        text::texts(i.notes@) == a + b + c,
        0 <= k < b.len(),
    ensures
        notes(i, b[k]),
{
    let all = text::texts(i.notes@);
    let n = a.len() + k;
    assert(all.len() == i.notes@.len());
    assert(all[n] == b[k]);
    assert(i.notes@[n]@ == b[k]);
}

/// Every line of every section is among the notes.
proof fn lemma_sections(
    i: Inspection,
    a: Seq<Seq<char>>,
    b: Seq<Seq<char>>,
    c: Seq<Seq<char>>,
    d: Seq<Seq<char>>,
    e: Seq<Seq<char>>,
    f: Seq<Seq<char>>,
    g: Seq<Seq<char>>,
)
    requires
        text::texts(i.notes@) == a + (b + c + d + e + f + g),
    ensures
        forall|k: int| 0 <= k < b.len() ==> notes(i, #[trigger] b[k]),
        forall|k: int| 0 <= k < c.len() ==> notes(i, #[trigger] c[k]),
        forall|k: int| 0 <= k < e.len() ==> notes(i, #[trigger] e[k]),
        forall|k: int| 0 <= k < f.len() ==> notes(i, #[trigger] f[k]),
        forall|k: int| 0 <= k < g.len() ==> notes(i, #[trigger] g[k]),
{
    let all = text::texts(i.notes@);
    assert(all =~= a + b + (c + d + e + f + g));
    assert forall|k: int| 0 <= k < b.len() implies notes(i, #[trigger] b[k]) by {
        lemma_noted(i, a, b, c + d + e + f + g, k);
    }
    assert(all =~= (a + b) + c + (d + e + f + g));
    assert forall|k: int| 0 <= k < c.len() implies notes(i, #[trigger] c[k]) by {
        lemma_noted(i, a + b, c, d + e + f + g, k);
    }
    assert(all =~= (a + b + c + d) + e + (f + g));
    assert forall|k: int| 0 <= k < e.len() implies notes(i, #[trigger] e[k]) by {
        lemma_noted(i, a + b + c + d, e, f + g, k);
    }
    assert(all =~= (a + b + c + d + e) + f + g);
    assert forall|k: int| 0 <= k < f.len() implies notes(i, #[trigger] f[k]) by {
        lemma_noted(i, a + b + c + d + e, f, g, k);
    }
    assert(all =~= (a + b + c + d + e + f) + g + Seq::empty());
    assert forall|k: int| 0 <= k < g.len() implies notes(i, #[trigger] g[k]) by {
        lemma_noted(i, a + b + c + d + e + f, g, Seq::empty(), k);
    }
}

proof fn lemma_contract_lines(a: Seq<char>, b: Seq<char>)
    ensures
        "      sealed: "@ + ("attested="@ + a + " caveat="@ + b) == "      sealed: attested="@ + a
            + " caveat="@ + b,
        "      local:  "@ + ("attested="@ + a + " caveat="@ + b) == "      local:  attested="@ + a
            + " caveat="@ + b,
{
    reveal_strlit("      sealed: ");
    reveal_strlit("      local:  ");
    reveal_strlit("attested=");
    reveal_strlit("      sealed: attested=");
    reveal_strlit("      local:  attested=");
    assert("      sealed: "@ + "attested="@ =~= "      sealed: attested="@);
    assert("      local:  "@ + "attested="@ =~= "      local:  attested="@);
    assert("      sealed: "@ + ("attested="@ + a + " caveat="@ + b) =~= "      sealed: "@
        + "attested="@ + a + " caveat="@ + b);
    assert("      local:  "@ + ("attested="@ + a + " caveat="@ + b) =~= "      local:  "@
        + "attested="@ + a + " caveat="@ + b);
}

/// An inspection of a served role tells when it was sealed, and its sealed
/// lifetimes; and it tells of every drift: of the template, of the contract,
/// of the audience and of the environment.
pub proof fn law_inspection_tells_of_drift(
    config: &Config,
    n: &str,
    cache: &CacheState,
    r: Result<Inspection, String>,
    s: seal::Seal,
)
    requires
        call_ensures(inventory::role_inspect, (config, n, cache), r),
        cache matches CacheState::Loaded { seal, templates, .. } && seal == s
            && templates@.contains_key(n@),
        s@.intent.roles.contains_key(n@),
        config.roles.map().contains_key(n@),
    ensures
        ({
            let local = config.roles.map()[n@];
            let sealed = s@.intent.roles[n@];
            let hash = text::hex_of(crate::crypto::blake3_hash(encode_utf8(local.policy@)));
            &&& r matches Ok(i)
            &&& notes(i, "  surface:          served (sealed at "@ + s@.sealed_at + ")"@)
            &&& hash != sealed.policy_blake3 ==> {
                &&& notes(i, "  \u{26a0} local roles_dir/ has drifted from the seal:"@)
                &&& notes(i, "      sealed policy_blake3: "@ + sealed.policy_blake3)
                &&& notes(i, "      local  policy_blake3: "@ + hash)
            }
            &&& sealed.attested != text::texts(local.attested@) || sealed.caveat != text::texts(
                local.caveat@,
            ) ==> {
                &&& notes(i, "  \u{26a0} local [role.template] has drifted from the seal:"@)
                &&& notes(
                    i,
                    "      sealed: attested="@ + seal::quoted_list(sealed.attested) + " caveat="@
                        + seal::quoted_list(sealed.caveat),
                )
                &&& notes(
                    i,
                    "      local:  attested="@ + seal::quoted_list(text::texts(local.attested@))
                        + " caveat="@ + seal::quoted_list(text::texts(local.caveat@)),
                )
            }
            &&& s@.intent.audience == config.audience@ ==> notes(
                i,
                "  audience:         "@ + config.audience@,
            )
            &&& s@.intent.audience != config.audience@ ==> notes(
                i,
                "  audience:         "@ + s@.intent.audience + " (local="@ + config.audience@
                    + ")"@,
            )
            &&& s@.intent.env_blake3 != seal::env_hash(config.env.texts()) ==> notes(
                i,
                "  \u{26a0} local [env] has drifted from the seal"@,
            )
            &&& sealed.min_ttl_seconds == local.min_ttl_seconds && sealed.default_ttl_seconds
                == local.default_ttl_seconds && sealed.max_ttl_seconds == local.max_ttl_seconds
                ==> notes(
                i,
                "  ttl_seconds:      min="@ + text::digits(sealed.min_ttl_seconds as nat)
                    + " default="@ + text::digits(sealed.default_ttl_seconds as nat) + " max="@
                    + text::digits(sealed.max_ttl_seconds as nat),
            )
            &&& notes(i, "  policy template (served):"@)
        }),
{
    let i = r->Ok_0;
    let local = config.roles.map()[n@];
    let sealed = s@.intent.roles[n@];
    let policy = i.template@;
    let head = inventory::head_lines(*config, local);
    let first = seq![
        "  surface:          served (sealed at "@ + s@.sealed_at + ")"@,
        "  ttl_seconds:      min="@ + inventory::bound_text(
            sealed.min_ttl_seconds,
            local.min_ttl_seconds,
        ) + " default="@ + inventory::bound_text(
            sealed.default_ttl_seconds,
            local.default_ttl_seconds,
        ) + " max="@ + inventory::bound_text(sealed.max_ttl_seconds, local.max_ttl_seconds),
    ];
    let d = inventory::deployment_lines(*config, s@.intent);
    let p = inventory::surface_lines(policy);
    let c = inventory::contract_lines(local, sealed);
    let t = inventory::template_lines(local, sealed);
    let end = seq!["  policy template (served):"@];
    lemma_sections(i, head, first, d, p, c, t, end);
    assert(notes(i, first[0]) && notes(i, first[1]) && notes(i, d[0]) && notes(i, end[0]));
    if s@.intent.env_blake3 != seal::env_hash(config.env.texts()) {
        assert(notes(i, d[1]));
    }
    if c.len() > 0 {
        lemma_contract_lines(
            seal::quoted_list(sealed.attested),
            seal::quoted_list(sealed.caveat),
        );
        lemma_contract_lines(
            seal::quoted_list(text::texts(local.attested@)),
            seal::quoted_list(text::texts(local.caveat@)),
        );
        assert(notes(i, c[0]) && notes(i, c[1]) && notes(i, c[2]));
    }
    if t.len() > 0 {
        assert(notes(i, t[0]) && notes(i, t[1]) && notes(i, t[2]));
    }
}

/// An inspection of a role that is not served says why, and shows the local
/// lifetimes as local.
pub proof fn law_inspection_tells_what_is_not_served(
    config: &Config,
    n: &str,
    cache: &CacheState,
    r: Result<Inspection, String>,
)
    requires
        call_ensures(inventory::role_inspect, (config, n, cache), r),
    ensures
        !config.roles.map().contains_key(n@) ==> r is Err,
        config.roles.map().contains_key(n@) ==> match cache {
            CacheState::Absent => r matches Ok(i) && notes(
                i,
                "  surface:          NOT SEALED \u{2014} "@
                    + "no sealed cache on this host; the local template is not served"@,
            ) && notes(
                i,
                "  ttl_seconds:      min="@ + text::digits(
                    config.roles.map()[n@].min_ttl_seconds as nat,
                ) + " default="@ + text::digits(
                    config.roles.map()[n@].default_ttl_seconds as nat,
                ) + " max="@ + text::digits(config.roles.map()[n@].max_ttl_seconds as nat)
                    + "  (local, unsealed)"@,
            ) && i.template@ == config.roles.map()[n@].policy@,
            CacheState::Corrupt { reason } => r matches Ok(i) && notes(
                i,
                "  surface:          CORRUPT \u{2014} sealed cache will not be served: "@ + reason@,
            ) && i.template@ == config.roles.map()[n@].policy@,
            CacheState::Loaded { seal, .. } => !seal@.intent.roles.contains_key(n@) ==> (
            r matches Ok(i) && notes(
                i,
                "  surface:          NOT SEALED \u{2014} "@
                    + "role absent from the served seal; will not be minted until `mint seal`"@,
            ) && i.template@ == config.roles.map()[n@].policy@),
        },
{
    if config.roles.map().contains_key(n@) {
        let i = r->Ok_0;
        let local = config.roles.map()[n@];
        let head = inventory::head_lines(*config, local);
        let all = text::texts(i.notes@);
        match cache {
            CacheState::Absent => {
                let u = inventory::unsealed_lines(
                    local,
                    "no sealed cache on this host; the local template is not served"@,
                );
                assert(all =~= head + u + Seq::empty());
                lemma_noted(i, head, u, Seq::empty(), 0);
                lemma_noted(i, head, u, Seq::empty(), 1);
            },
            CacheState::Corrupt { reason } => {
                let u = inventory::unsealed_lines(local, "showing local authoring template"@);
                let c = seq![
                    "  surface:          CORRUPT \u{2014} sealed cache will not be served: "@
                        + reason@,
                ];
                assert(all =~= head + c + u);
                lemma_noted(i, head, c, u, 0);
            },
            CacheState::Loaded { seal, .. } => {
                if !seal@.intent.roles.contains_key(n@) {
                    let u = inventory::unsealed_lines(
                        local,
                        "role absent from the served seal; will not be minted until `mint seal`"@,
                    );
                    assert(all =~= head + u + Seq::empty());
                    lemma_noted(i, head, u, Seq::empty(), 0);
                }
            },
        }
    }
}

/// What a template refers to is told by where each value comes from, and a
/// namespace that it does not refer to is passed over.
pub proof fn law_references_are_told_by_their_source(t: Seq<char>)
    ensures
        inventory::surface_lines(t).len() >= 1,
        inventory::surface_lines(t)[0] == "  policy references:"@,
        inventory::references_in(t, "attested"@).len() > 0 ==> inventory::surface_lines(t).contains(
            "    attested (discharge-MAC'd): "@ + text::joined(
                inventory::references_in(t, "attested"@),
                ", "@,
            ),
        ),
        inventory::references_in(t, "env"@).len() > 0 ==> inventory::surface_lines(t).contains(
            "    env (config): "@ + text::joined(inventory::references_in(t, "env"@), ", "@),
        ),
        inventory::references_in(t, "mint"@).len() > 0 ==> inventory::surface_lines(t).contains(
            "    mint (mint-computed): "@ + text::joined(
                inventory::references_in(t, "mint"@),
                ", "@,
            ),
        ),
        inventory::references_in(t, "caveat"@).len() > 0 ==> inventory::surface_lines(t).contains(
            "    caveat (MAC-verified): "@ + text::joined(
                inventory::references_in(t, "caveat"@),
                ", "@,
            ),
        ),
{
    let a = inventory::group_lines(
        "attested (discharge-MAC'd)"@,
        inventory::references_in(t, "attested"@),
    );
    let e = inventory::group_lines("env (config)"@, inventory::references_in(t, "env"@));
    let m = inventory::group_lines("mint (mint-computed)"@, inventory::references_in(t, "mint"@));
    let c = inventory::group_lines(
        "caveat (MAC-verified)"@,
        inventory::references_in(t, "caveat"@),
    );
    let all = inventory::surface_lines(t);
    reveal_strlit("    ");
    reveal_strlit(": ");
    if a.len() > 0 {
        reveal_strlit("attested (discharge-MAC'd)");
        reveal_strlit("    attested (discharge-MAC'd): ");
        assert(all[1] == a[0]);
        assert("    "@ + "attested (discharge-MAC'd)"@ + ": "@
            =~= "    attested (discharge-MAC'd): "@);
    }
    if e.len() > 0 {
        reveal_strlit("env (config)");
        reveal_strlit("    env (config): ");
        assert(all[1 + a.len() as int] == e[0]);
        assert("    "@ + "env (config)"@ + ": "@ =~= "    env (config): "@);
    }
    if m.len() > 0 {
        reveal_strlit("mint (mint-computed)");
        reveal_strlit("    mint (mint-computed): ");
        assert(all[1 + (a.len() + e.len()) as int] == m[0]);
        assert("    "@ + "mint (mint-computed)"@ + ": "@ =~= "    mint (mint-computed): "@);
    }
    if c.len() > 0 {
        reveal_strlit("caveat (MAC-verified)");
        reveal_strlit("    caveat (MAC-verified): ");
        assert(all[1 + (a.len() + e.len() + m.len()) as int] == c[0]);
        assert("    "@ + "caveat (MAC-verified)"@ + ": "@ =~= "    caveat (MAC-verified): "@);
    }
}

/// The role list has one row for each configured role, by name, and the line
/// of a row shows its name, its lifetimes and its state.
pub proof fn law_each_role_has_its_row(
    config: &Config,
    cache: &CacheState,
    r: Vec<RoleRow>,
    i: int,
    line: String,
)
    requires
        call_ensures(inventory::role_list, (config, cache), r),
        0 <= i < r@.len(),
        call_ensures(RoleRow::line, (&r@[i],), line),
    ensures
        r@.len() == crate::map::listing(config.roles.map().dom()).len(),
        r@[i].name@ == config.roles.map()[crate::map::listing(
            config.roles.map().dom(),
        )[i]].name@,
        line@ == text::padded(r@[i].name@, 24) + " "@ + text::aligned(
            text::digits(r@[i].min as nat),
            7,
        ) + " "@ + text::aligned(text::digits(r@[i].default as nat), 7) + " "@ + text::aligned(
            text::digits(r@[i].max as nat),
            7,
        ) + "  "@ + r@[i].state@,
{
    assert(r@[i]@.name == r@[i].name@);
}

/// A standard caveat is explained by its own name: what a token is for by
/// its operation, and everything else by what it binds; other names are
/// left as they are.
pub proof fn law_caveats_are_explained_by_name(n: &str, v: &str, r: &'static str)
    requires
        call_ensures(narrate::caveat_gloss, (n, v), r),
    ensures
        n@ == "op"@ && v@ == "enroll"@ ==> r@ == "participation gate \u{2014} enroll only"@,
        n@ == "op"@ && v@ == "enroll-exchange"@ ==> r@
            == "redeem-once \u{2014} may only be exchanged for a credential"@,
        n@ == "op"@ && v@ == "assume-role"@ ==> r@
            == "the working credential \u{2014} mints role keypairs"@,
        n@ == "aud"@ ==> r@ == "the mint instance this token is for"@,
        n@ == "sub"@ ==> r@ == "the enrollment identity (operator-approved)"@,
        n@ == "cnf"@ ==> r@ == "bound to this client's key \u{2014} proof-of-possession"@,
        n@ == "exp"@ ==> r@ == "expiry, unix seconds"@,
        n@ == "role"@ ==> r@ == "restricts the assumable role"@,
        n@ == "invite"@ ==> r@ == "current invite nonce"@,
        n@ != "op"@ && n@ != "aud"@ && n@ != "sub"@ && n@ != "cnf"@ && n@ != "exp"@ && n@
            != "role"@ && n@ != "invite"@ ==> r@ == ""@,
{
    name::lemma_control_names();
    reveal_strlit("invite");
    reveal_strlit("role");
    assert("role"@.len() != "invite"@.len());
    reveal_strlit("enroll");
    reveal_strlit("enroll-exchange");
    reveal_strlit("assume-role");
    assert(op::ENROLL@.len() == 6 && op::ENROLL_EXCHANGE@.len() == 15 && op::ASSUME_ROLE@.len()
        == 11);
}

/// A deadline is shown as an instant beside its seconds, and no other caveat
/// is.
pub proof fn law_only_deadlines_are_dated(n: Seq<char>, v: Seq<char>, at: i64)
    ensures
        n != "exp"@ ==> narrate::shown_value(n, v) == narrate::abbreviated(v),
        text::read_i64(v) == Some(at) && time::MIN_SECONDS <= at <= time::MAX_SECONDS
            ==> narrate::shown_value("exp"@, v) == narrate::abbreviated(v) + " ("@
            + time::iso_text(at) + ")"@,
{
}

/// The credential list has a line for each file, by role, with the role and
/// the subject that the token itself carries, and the number of its caveats.
pub proof fn law_each_credential_has_its_line(
    files: &NameMap<String>,
    r: Result<Vec<String>, ClientError>,
    i: int,
)
    requires
        call_ensures(narrate::credential_list, (files,), r),
        0 <= i < crate::map::listing(files.texts().dom()).len(),
    ensures
        ({
            let role = crate::map::listing(files.texts().dom())[i];
            let m = macaroon::read_token(text::trimmed(files.texts()[role]))->0;
            let carried = match narrate::first_value(m.caveats, "role"@) {
                Some(v) => v,
                None => "(none)"@,
            };
            let sub = match narrate::first_value(m.caveats, "sub"@) {
                Some(v) => v,
                None => "(none)"@,
            };
            r matches Ok(lines) ==> lines@.len() == crate::map::listing(files.texts().dom()).len()
                + 1 && lines@[i + 1]@ == text::padded(role, 16) + " "@ + text::padded(carried, 28)
                + " "@ + text::aligned(text::digits(m.caveats.len()), 7) + "  "@ + sub
        }),
        (exists|x: Seq<char>| #[trigger]
            files.texts().contains_key(x) && macaroon::read_token(text::trimmed(files.texts()[x]))
                is None) ==> r is Err,
{
}

/// A pending enrollment is shown with what the operator decides by: its
/// subject, its fingerprint, its peer and its age.
pub proof fn law_pending_enrollment_is_described(row: &EnrollmentRow, lines: Vec<String>)
    requires
        call_ensures(cli::describe_pending, (row,), lines),
    ensures
        lines@.len() == 5,
        lines@[0]@ == "pending enrollment:"@,
        lines@[1]@ == "  sub:         "@ + row.sub@,
        lines@[2]@ == "  fingerprint: "@ + row.fingerprint@,
        lines@[3]@ == "  peer:        "@ + (match row.peer_ip {
            Some(p) => p@,
            None => "-"@,
        }),
        lines@[4]@ == "  age:         "@ + text::digits(row.age_seconds as nat) + "s"@,
{
    let t = text::texts(lines@);
    assert(t == cli::pending_notes(*row));
    assert(t.len() == 5);
    assert(t[0] == lines@[0]@ && t[1] == lines@[1]@ && t[2] == lines@[2]@);
    assert(t[3] == lines@[3]@ && t[4] == lines@[4]@);
}

/// A revocation is told with its time and its epoch, and with whether there
/// was anything to revoke.
pub proof fn law_revocation_is_told(sub: &str, resp: &RevokeResponse, r: String)
    requires
        call_ensures(cli::revoked_note, (sub, resp), r),
    ensures
        ("revoked "@ + sub@ + " at "@ + resp.revoked_at@ + " (epoch "@ + text::digits(
            resp.rev_epoch as nat,
        )).is_prefix_of(r@),
        resp.was_enrolled ==> r@ == "revoked "@ + sub@ + " at "@ + resp.revoked_at@ + " (epoch "@
            + text::digits(resp.rev_epoch as nat)
            + "; enrolled record deleted, tombstone written)"@,
        !resp.was_enrolled ==> r@ == "revoked "@ + sub@ + " at "@ + resp.revoked_at@ + " (epoch "@
            + text::digits(resp.rev_epoch as nat)
            + "; no live enrolled record \u{2014} tombstone written/kept)"@,
{
}

/// A published seal is told with its generation, its time, and each role's
/// own hash, by its first twelve digits.
pub proof fn law_published_seal_is_told(resp: &SealResponse, r: Option<String>, i: int)
    requires
        call_ensures(cli::seal_summary, (resp,), r),
        0 <= i < crate::map::listing(resp.roles.texts().dom()).len(),
    ensures
        r matches Some(m) ==> ("published seal: kid="@ + text::digits(resp.kid as nat)
            + " sealed_at="@ + resp.sealed_at@ + " roles=["@).is_prefix_of(m@),
        ({
            let x = crate::map::listing(resp.roles.texts().dom())[i];
            let h = encode_utf8(resp.roles.texts()[x]);
            r matches Some(m) ==> {
                &&& m@ == "published seal: kid="@ + text::digits(resp.kid as nat) + " sealed_at="@
                    + resp.sealed_at@ + " roles=["@ + text::joined(
                    cli::role_heads(resp.roles.texts()),
                    ", "@,
                ) + "]"@
                &&& h.len() > 12 ==> cli::role_heads(resp.roles.texts())[i] == x + ":"@
                    + decode_utf8(h.take(12))
                &&& h.len() <= 12 ==> cli::role_heads(resp.roles.texts())[i] == x + ":"@
                    + decode_utf8(h)
            }
        }),
{
}

/// The demo authority of a configuration is dialled at its own socket, where
/// there is one; the server is dialled where it listens.
pub proof fn law_authorities_are_dialled_at_their_sockets(
    config: &Config,
    auth: Result<String, String>,
    attest: Option<String>,
    admin: Target,
)
    requires
        call_ensures(cli::config_auth_transport, (config,), auth),
        call_ensures(cli::attest_transport, (config,), attest),
        call_ensures(cli::admin_target, (config,), admin),
    ensures
        auth is Ok <==> (config.demo_auth matches Some(d) && d.socket is Some),
        config.demo_auth matches Some(d) ==> (d.socket matches Some(s) ==> auth->Ok_0@ == "unix:"@
            + s@),
        attest is Some <==> (config.demo_attestation matches Some(d) && d.socket is Some),
        config.demo_attestation matches Some(d) ==> (d.socket matches Some(s) ==> attest->0@
            == "unix:"@ + s@),
        match config.listener {
            Listener::Uds(p) => admin matches Target::Uds(q) && q@ == p@,
            Listener::Tcp(_) => admin matches Target::Tcp(u) && u@ == config::dial_text(
                config.listener,
            ),
        },
{
}

/// A refusal is answered with its status and a message that tells the kind
/// and nothing else.
pub proof fn law_refusals_tell_their_kind(k: Refused, r: Reply)
    requires
        call_ensures(Refused::reply, (&k,), r),
    ensures
        r.status == (match k {
            Refused::Unauthorized => 401u16,
            Refused::BadRequest => 400u16,
            Refused::Awaiting => 403u16,
            Refused::NotSealed => 503u16,
            Refused::Unavailable => 503u16,
        }),
        json::str_field(json::json_of(encode_utf8(r.body@)), "error"@) == Some(
            match k {
                Refused::Unauthorized => "unauthorized"@,
                Refused::BadRequest => "bad request"@,
                Refused::Awaiting => "awaiting operator approval"@,
                Refused::NotSealed => "not sealed"@,
                Refused::Unavailable => "service unavailable"@,
            },
        ),
{
}

/// The audit log names a denial by what was denied.
pub proof fn law_denials_are_logged_by_name(d: &Denied, r: &'static str)
    requires
        call_ensures(assume_role::denied_tag, (d,), r),
    ensures
        r@ == (match d {
            Denied::UnknownRole => "unknown_role"@,
            Denied::WrongAudience => "wrong_audience"@,
            Denied::RoleNotPermitted => "role_not_permitted"@,
            Denied::MissingRequiredCaveat(_) => "missing_required_caveat"@,
            Denied::UnsatisfiableCaveat(_) => "unsatisfiable_caveat"@,
            Denied::Expired => "expired"@,
        }),
{
}

/// The audit log names a failed authentication by what failed.
pub proof fn law_faults_are_logged_by_name(f: &Fault, r: String)
    requires
        call_ensures(Fault::outcome, (f,), r),
    ensures
        r@ == (match f {
            Fault::NoBundle => "denied:unauthenticated"@,
            Fault::BadProof => "denied:pop"@,
            Fault::Refused(VerifyClearError::Pop) => "denied:"@ + "pop"@,
            Fault::Refused(VerifyClearError::AudClear) => "denied:"@ + "aud_clear"@,
            Fault::Refused(VerifyClearError::OpClear) => "denied:"@ + "op_clear"@,
            Fault::Refused(VerifyClearError::Expired) => "denied:"@ + "expired"@,
            Fault::Refused(e) => "denied:"@ + http::reason_of(e@),
        }),
{
}

/// The names of the control caveats, the operations and the request fields
/// are the ones that tokens carry.
pub proof fn law_control_names_are_those_of_the_tokens()
    ensures
        name::AUD@ == "aud"@,
        name::EXP@ == "exp"@,
        name::SUB@ == "sub"@,
        name::CNF@ == "cnf"@,
        name::OP@ == "op"@,
        name::ROLE@ == "role"@,
        name::EPOCH@ == "epoch"@,
        name::INVITE@ == "invite"@,
        name::SCOPE@ == "scope"@,
        op::ENROLL@ == "enroll"@,
        op::ENROLL_EXCHANGE@ == "enroll-exchange"@,
        op::ASSUME_ROLE@ == "assume-role"@,
        op::EXCHANGE_FINALIZE@ == "exchange-finalize"@,
        op::SESSION@ == "session"@,
{
}

/// The log has an outcome for this refusal, and it is this one.
pub open spec fn logged(d: DenyView, outcome: Seq<char>) -> bool {
    d.outcome matches Some(o) && o == outcome
}

/// An enrollment that is refused is logged with what it lacked.
pub proof fn law_refused_enrollment_is_logged(
    q: PresentedView,
    ring: KeyringView,
    now_unix: u64,
    audience: Seq<char>,
    c: ClearedView,
    current: Option<Seq<char>>,
    w: PendingWrite,
)
    ensures
        enroll::admission(q, ring, now_unix, audience) matches Err(d) ==> d.kind
            == Refused::Unauthorized && match gate::authenticated(
            q,
            ring,
            now_unix,
            audience,
            "enroll"@,
        ) {
            Err(f) => logged(d, "enroll:"@ + gate::fault_outcome(f)),
            Ok(_) => logged(d, "enroll:denied:scope"@),
        },
        enroll::identified(c, current) matches Err(d) ==> match current {
            None => d.kind == Refused::Unavailable && d.outcome is None,
            Some(nonce) => d.kind == Refused::Unauthorized && logged(
                d,
                if caveat::resolved(c.primary.caveats, "invite"@) != ResolvedView::Value(nonce) {
                    "enroll:denied:stale_invite"@
                } else {
                    "enroll:denied:identity"@
                },
            ),
        },
        match w {
            PendingWrite::Conflict => enroll::record_fault(w) matches Some(d) && d.kind
                == Refused::Unauthorized && logged(d, "enroll:denied:conflict"@),
            PendingWrite::BadSub => enroll::record_fault(w) matches Some(d) && d.kind
                == Refused::Unauthorized && logged(d, "enroll:denied:bad_sub"@),
            PendingWrite::Other => enroll::record_fault(w) matches Some(d) && d.kind
                == Refused::Unauthorized && logged(d, "enroll:denied:state_error"@),
            PendingWrite::Failed => enroll::record_fault(w) matches Some(d) && d.kind
                == Refused::Unavailable && d.outcome is None,
            _ => enroll::record_fault(w) is None,
        },
{
}

/// An exchange that is refused is logged with what it lacked; only one that
/// is not approved is told to wait.
pub proof fn law_refused_exchange_is_logged(
    state: SealState,
    q: PresentedView,
    ring: KeyringView,
    now_unix: u64,
    audience: Seq<char>,
    surface: ServedSurface,
    cnf: Seq<char>,
    enrolled: EnrolledRead,
    role: Option<Seq<char>>,
    attested: AttestationConfig<'_>,
)
    ensures
        exchange::admission(state, q, ring, now_unix, audience) matches Err(d) ==> {
            if state is Dormant {
                d.kind == Refused::NotSealed && logged(d, "exchange:denied:not_sealed"@)
            } else {
                d.kind == Refused::Unauthorized && match gate::authenticated(
                    q,
                    ring,
                    now_unix,
                    audience,
                    "enroll-exchange"@,
                ) {
                    Err(f) => logged(d, "exchange:"@ + gate::fault_outcome(f)),
                    Ok(c) => logged(
                        d,
                        if caveat::resolved(c.discharge_caveats, "scope"@) != ResolvedView::Value(
                            crate::caveat::scope::MINT_EXCHANGE@,
                        ) {
                            "exchange:denied:scope"@
                        } else {
                            "exchange:denied:identity"@
                        },
                    ),
                }
            }
        },
        exchange::exchange_fault(surface, cnf, enrolled, role, attested) matches Some(d) ==> (
        match enrolled {
            EnrolledRead::Failed => d.kind == Refused::Unavailable && d.outcome is None,
            EnrolledRead::BadSub => d.kind == Refused::Unauthorized && logged(
                d,
                "exchange:denied:bad_sub"@,
            ),
            EnrolledRead::Other => d.kind == Refused::Unauthorized && logged(
                d,
                "exchange:denied:state_error"@,
            ),
            EnrolledRead::Found { pubkey, .. } if pubkey@ == cnf => if role is Some
                && surface.seal@.intent.roles.contains_key(role->0) {
                d.kind == Refused::Unavailable && logged(d, "exchange:denied:state_error"@)
            } else {
                d.kind == Refused::Unauthorized && logged(d, "exchange:denied:unknown_role"@)
            },
            _ => d.kind == Refused::Awaiting && logged(d, "exchange:awaiting_approval"@),
        }),
{
}

/// A request for a role that is refused is logged with what it lacked.
pub proof fn law_refused_request_is_logged(
    state: SealState,
    q: PresentedView,
    ring: KeyringView,
    now_unix: u64,
    s: SurfaceView,
    cleared: ClearedView,
    id: (Seq<char>, Seq<char>, u64),
    enrolled: EnrolledRead,
    role: Option<Seq<char>>,
    now: UtcTime,
)
    ensures
        assume_role::admission(state, q, ring, now_unix) matches Err(d) ==> match state {
            SealState::Dormant => d.kind == Refused::NotSealed && logged(d, "denied:not_sealed"@),
            SealState::Serving(f) => d.kind == Refused::Unauthorized && match gate::authenticated(
                q,
                ring,
                now_unix,
                f.seal@.intent.audience,
                "assume-role"@,
            ) {
                Err(fault) => logged(d, gate::fault_outcome(fault)),
                Ok(_) => logged(d, "denied:revoked"@),
            },
        },
        assume_role::assume_outcome(s, cleared, id, enrolled, role, now) matches Err(d) ==> {
            if enrolled is Failed {
                d.kind == Refused::Unavailable && logged(d, "denied:state_error"@)
            } else if !(enrolled matches EnrolledRead::Found { pubkey, rev_epoch } && pubkey@
                == id.1 && rev_epoch == id.2) {
                d.kind == Refused::Unauthorized && logged(d, "denied:revoked"@)
            } else if role is None {
                d.kind == Refused::BadRequest && logged(d, "denied:bad_request"@)
            } else if let Err(e) = crate::role::decision(
                s.intent,
                cleared.primary.caveats,
                role->0,
                now.unix(),
            ) {
                d.kind == Refused::BadRequest && logged(d, "denied:"@ + assume_role::tag_of(e))
            } else if !s.templates.contains_key(role->0) {
                d.kind == Refused::Unavailable && logged(d, "denied:policy_render"@)
            } else {
                d.kind == Refused::BadRequest && (logged(d, "denied:missing_attested"@) || logged(
                    d,
                    "denied:missing_caveat"@,
                ) || logged(d, "denied:policy_render"@))
            }
        },
        assume_role::assume_outcome(s, cleared, id, enrolled, role, now) matches Err(d) ==> (
        logged(d, "denied:missing_attested"@) ==> !assume_role::all_valued(
            s.intent.roles[role->0].attested,
            cleared.discharge_caveats,
        )),
        assume_role::assume_outcome(s, cleared, id, enrolled, role, now) matches Err(d) ==> (
        logged(d, "denied:missing_caveat"@) ==> !assume_role::all_valued(
            s.intent.roles[role->0].caveat,
            cleared.primary.caveats,
        )),
{
    lemma_labels();
    if let Err(d) = assume_role::assume_outcome(s, cleared, id, enrolled, role, now) {
        if role is Some {
            match crate::role::decision(s.intent, cleared.primary.caveats, role->0, now.unix()) {
                Err(e) => {
                    lemma_tag_labels(e);
                },
                Ok(_) => {},
            }
        }
    }
}

proof fn lemma_labels()
    ensures
        "denied:missing_attested"@ != "denied:missing_caveat"@,
        "denied:missing_attested"@ != "denied:policy_render"@,
        "denied:missing_caveat"@ != "denied:policy_render"@,
        "denied:missing_attested"@ != "denied:revoked"@,
        "denied:missing_attested"@ != "denied:state_error"@,
        "denied:missing_attested"@ != "denied:bad_request"@,
        "denied:missing_caveat"@ != "denied:revoked"@,
        "denied:missing_caveat"@ != "denied:state_error"@,
        "denied:missing_caveat"@ != "denied:bad_request"@,
{
    reveal_strlit("denied:missing_attested");
    reveal_strlit("denied:missing_caveat");
    reveal_strlit("denied:policy_render");
    reveal_strlit("denied:revoked");
    reveal_strlit("denied:state_error");
    reveal_strlit("denied:bad_request");
    assert("denied:missing_attested"@.len() == 23);
    assert("denied:missing_caveat"@.len() == 21);
    assert("denied:policy_render"@.len() == 20);
    assert("denied:revoked"@.len() == 14);
    assert("denied:state_error"@.len() == 18);
    assert("denied:bad_request"@.len() == 18);
}

proof fn lemma_tag_labels(d: DeniedView)
    ensures
        "denied:"@ + assume_role::tag_of(d) != "denied:missing_attested"@,
        "denied:"@ + assume_role::tag_of(d) != "denied:missing_caveat"@,
{
    let t = "denied:"@ + assume_role::tag_of(d);
    reveal_strlit("denied:");
    reveal_strlit("denied:missing_attested");
    reveal_strlit("denied:missing_caveat");
    reveal_strlit("unknown_role");
    reveal_strlit("wrong_audience");
    reveal_strlit("role_not_permitted");
    reveal_strlit("missing_required_caveat");
    reveal_strlit("unsatisfiable_caveat");
    reveal_strlit("expired");
    assert("denied:"@.len() == 7);
    assert("unknown_role"@.len() == 12 && "wrong_audience"@.len() == 14
        && "role_not_permitted"@.len() == 18 && "missing_required_caveat"@.len() == 23
        && "unsatisfiable_caveat"@.len() == 20 && "expired"@.len() == 7);
    assert("denied:missing_attested"@.len() == 23);
    assert("denied:missing_caveat"@.len() == 21);
    if t == "denied:missing_caveat"@ {
        assert(t[7] == assume_role::tag_of(d)[0]);
        assert("denied:missing_caveat"@[7] == 'm');
        assert("wrong_audience"@[0] == 'w');
    }
}

/// A third-party caveat that is not discharged is told by what is wrong:
/// its key cannot be recovered, no discharge answers it, what answers it is
/// no discharge, or is taken by another.
pub proof fn law_undischarged_caveat_is_told(
    site: SiteView,
    ds: Seq<MacaroonView>,
    q: Taken,
    i: int,
)
    ensures
        tpc::recovered(site.tag, site.vid) is Err ==> http::take_site(site, ds, q) == Err::<
            Taken,
            Refusal,
        >(Refusal::Auth("vid_decrypt"@)),
        tpc::recovered(site.tag, site.vid) is Ok && (forall|k: int|
            0 <= k < ds.len() ==> (#[trigger] ds[k]).nonce != tpc::ticket(site.cid))
            ==> http::take_site(site, ds, q) == Err::<Taken, Refusal>(
            Refusal::Auth("tpc_undischarged"@),
        ),
        tpc::recovered(site.tag, site.vid) is Ok && 0 <= i < ds.len() && ds[i].nonce == tpc::ticket(
            site.cid,
        ) && (forall|k: int| 0 <= k < i ==> (#[trigger] ds[k]).nonce != tpc::ticket(site.cid)) ==> {
            &&& ds[i].key_ref != KeyRef::Discharge ==> http::take_site(site, ds, q) == Err::<
                Taken,
                Refusal,
            >(Refusal::Auth("not_a_discharge"@))
            &&& ds[i].key_ref == KeyRef::Discharge && http::taken(q, i) ==> http::take_site(
                site,
                ds,
                q,
            ) == Err::<Taken, Refusal>(Refusal::Auth("discharge_reused"@))
        },
{
    lemma_first_ticket(ds, tpc::ticket(site.cid), i);
}

proof fn lemma_first_ticket(ds: Seq<MacaroonView>, id: Seq<u8>, i: int)
    ensures
        (forall|k: int| 0 <= k < ds.len() ==> (#[trigger] ds[k]).nonce != id) ==> http::find_ticket(
            ds,
            id,
        ) is None,
        0 <= i < ds.len() && ds[i].nonce == id && (forall|k: int|
            0 <= k < i ==> (#[trigger] ds[k]).nonce != id) ==> http::find_ticket(ds, id) == Some(i),
    decreases ds.len(),
{
    if ds.len() > 0 {
        let h = ds.drop_last();
        lemma_first_ticket(h, id, i);
        assert forall|k: int| 0 <= k < h.len() implies #[trigger] h[k] == ds[k] by {}
        assert(ds[ds.len() - 1] == ds.last());
        if 0 <= i < ds.len() && ds[i].nonce == id && (forall|k: int|
            0 <= k < i ==> (#[trigger] ds[k]).nonce != id) {
            if i < h.len() {
                assert(h[i] == ds[i]);
                assert forall|k: int| 0 <= k < i implies (#[trigger] h[k]).nonce != id by {
                    assert(ds[k].nonce != id);
                }
            } else {
                assert forall|k: int| 0 <= k < h.len() implies (#[trigger] h[k]).nonce != id by {
                    assert(ds[k].nonce != id);
                }
            }
        }
        if forall|k: int| 0 <= k < ds.len() ==> (#[trigger] ds[k]).nonce != id {
            assert forall|k: int| 0 <= k < h.len() implies (#[trigger] h[k]).nonce != id by {
                assert(ds[k].nonce != id);
            }
        }
    }
}

/// A bundle that is refused as a whole is told by what is wrong with it.
pub proof fn law_refused_bundle_is_told(
    primary: MacaroonView,
    ds: Seq<MacaroonView>,
    ring: KeyringView,
    aud: Seq<char>,
    operation: Seq<char>,
    i: int,
    j: int,
)
    ensures
        !(primary.key_ref is Keyring) ==> http::walked(primary, ds, ring, aud, operation) == Err::<
            Taken,
            Refusal,
        >(Refusal::Auth("primary_not_credential"@)),
        primary.key_ref matches KeyRef::Keyring(kid) ==> {
            &&& !ring.keys.contains_key(kid) ==> http::walked(primary, ds, ring, aud, operation)
                == Err::<Taken, Refusal>(Refusal::Auth("unknown_kid"@))
            &&& ring.keys.contains_key(kid) && 0 <= i < j < ds.len() && ds[i].nonce == ds[j].nonce
                ==> http::walked(primary, ds, ring, aud, operation) == Err::<Taken, Refusal>(
                Refusal::Auth("ambiguous_discharge"@),
            )
            &&& ring.keys.contains_key(kid) && !http::ambiguous(ds) && !macaroon::authentic(
                primary,
                ring.keys[kid],
            ) ==> http::walked(primary, ds, ring, aud, operation) == Err::<Taken, Refusal>(
                Refusal::Auth("mac_mismatch"@),
            )
        },
{
    if 0 <= i < j < ds.len() && ds[i].nonce == ds[j].nonce {
        assert(http::ambiguous(ds));
    }
}

/// Where a version is tagged, the tag is shown without space and leading
/// `v`; a blank tag is none.
pub proof fn law_blank_tags_are_none(tag: &str, manifest: Seq<char>)
    ensures
        text::trimmed(tag@).len() == 0 ==> cli::version_text(Some(tag), manifest) == manifest
            + "-dev"@,
        text::trimmed(tag@).len() > 0 ==> cli::version_text(Some(tag), manifest) == cli::without_v(
            text::trimmed(tag@),
        ),
{
}

/// Drift at startup is told line by line, against the bucket's seal.
pub proof fn law_startup_tells_the_drift(
    s: Startup,
    config: Config,
    bucket: SealView,
    cache: CacheState,
)
    requires
        seal::surface_resolved(s, config, bucket, cache),
    ensures
        s.note matches StartupNote::Mismatch(d) && s.state is Dormant ==> text::texts(
            s.note->Mismatch_0@,
        ) == seal::diff_lines(bucket.intent, seal::intent_of(config)),
        s.note matches StartupNote::Drifted(d) && s.state is Serving ==> text::texts(
            s.note->Drifted_0@,
        ) == seal::diff_lines(bucket.intent, seal::intent_of(config)),
        cache matches CacheState::Corrupt { reason } ==> (s.corrupt matches Some(c) && c@ == reason@),
        !(cache is Corrupt) ==> s.corrupt is None,
{
}

/// The canonical body of a seal is its JSON text: the fields in their fixed
/// order, the roles by name, and the MAC empty.
pub proof fn law_canonical_body_is_fixed(s: SealView, r: SealedRoleView, n: Seq<Seq<char>>, x: Seq<char>)
    ensures
        seal::body_text(s) == "{\"audience\":"@ + json::json_text(JsonView::Str(s.intent.audience))
            + ",\"roles\":{"@ + seal::entries_text(
            crate::map::listing(s.intent.roles.dom()),
            s.intent.roles,
        ) + "},\"env_blake3\":"@ + json::json_text(JsonView::Str(s.intent.env_blake3))
            + ",\"sealed_at\":"@ + json::json_text(JsonView::Str(s.sealed_at)) + ",\"kid\":"@
            + text::digits(s.kid as nat) + ",\"mac\":\"\"}"@,
        seal::entries_text(Seq::empty(), s.intent.roles) == Seq::<char>::empty(),
        seal::entries_text(seq![x], s.intent.roles) == json::json_text(JsonView::Str(x)) + ":"@
            + seal::role_text(s.intent.roles[x]),
        n.len() > 0 ==> seal::entries_text(n.push(x), s.intent.roles) == seal::entries_text(
            n,
            s.intent.roles,
        ) + ","@ + json::json_text(JsonView::Str(x)) + ":"@ + seal::role_text(s.intent.roles[x]),
        seal::role_text(r) == "{\"caveat\":"@ + json::json_text(seal::list_doc(r.caveat))
            + ",\"default_ttl_seconds\":"@ + text::digits(r.default_ttl_seconds as nat)
            + ",\"max_ttl_seconds\":"@ + text::digits(r.max_ttl_seconds as nat)
            + ",\"min_ttl_seconds\":"@ + text::digits(r.min_ttl_seconds as nat)
            + ",\"policy_blake3\":"@ + json::json_text(JsonView::Str(r.policy_blake3))
            + ",\"attested\":"@ + json::json_text(seal::list_doc(r.attested)) + "}"@,
        seal::list_doc(n) matches JsonView::Array(items) && items.len() == n.len() && forall|i: int|
            0 <= i < n.len() ==> #[trigger] items[i] == JsonView::Str(n[i]),
{
    let none = Seq::<Seq<char>>::empty();
    assert(seq![x].drop_last() =~= none);
    assert(n.push(x).drop_last() =~= n);
    assert(seal::entries_text(none, s.intent.roles) == Seq::<char>::empty());
    let e = json::json_text(JsonView::Str(x));
    assert(Seq::<char>::empty() + Seq::<char>::empty() + e =~= e);
}

/// The directory of a user's session is where the environment says, and a
/// variable that is set to nothing is not set.
pub proof fn law_unset_directories_are_passed_over(
    xdg: Option<&str>,
    home: Option<&str>,
    r: Result<String, SessionError>,
)
    requires
        call_ensures(session::dir, (xdg, home), r),
    ensures
        xdg matches Some(x) && x@.len() > 0 ==> r is Ok && r->Ok_0@ == config::joined_path(
            xdg->0@,
            "mint"@,
        ),
        !(xdg matches Some(x) && x@.len() > 0) && (home matches Some(h) && h@.len() > 0) ==> r is Ok
            && r->Ok_0@ == config::joined_path(
            config::joined_path(home->0@, ".config"@),
            "mint"@,
        ),
        !(xdg matches Some(x) && x@.len() > 0) && !(home matches Some(h) && h@.len() > 0) ==> r
            is Err,
{
}

/// A credential is shown by its name alone.
pub proof fn law_credential_is_shown_by_name(c: &AdminCredential, r: String)
    requires
        call_ensures(AdminCredential::shown, (c,), r),
    ensures
        c.session_token is None ==> r@ == "AdminCredential { access_key_id: "@ + template::quoted(
            c.access_key_id@,
        ) + ", secret_access_key: \"<redacted>\", session_token: "@ + "None"@ + " }"@,
        c.session_token is Some ==> r@ == "AdminCredential { access_key_id: "@ + template::quoted(
            c.access_key_id@,
        ) + ", secret_access_key: \"<redacted>\", session_token: "@ + "Some(\"<redacted>\")"@
            + " }"@,
{
}

/// Each verb of the administration has its own name, and so has each file of
/// a host, a client and a user.
pub proof fn law_verbs_and_files_have_their_names()
    ensures
        admin::ADMIN_INVITE_READ@ == "admin:invite-read"@,
        admin::ADMIN_INVITE_ROTATE@ == "admin:invite-rotate"@,
        admin::ADMIN_ENROLL_LIST@ == "admin:enroll-list"@,
        admin::ADMIN_ENROLL_APPROVE@ == "admin:enroll-approve"@,
        admin::ADMIN_ENROLL_REVOKE@ == "admin:enroll-revoke"@,
        admin::ADMIN_SEAL@ == "admin:seal"@,
        issuance::ADMIN_SERVICE_CLIENT_ID@ == "admin-service"@,
        operator::ADMIN_SERVICE_FILE@ == "admin-service"@,
        operator::ADMIN_SERVICE_KEY_FILE@ == "admin-service.key"@,
        client::KEY_FILE@ == "client.key"@,
        client::PUB_FILE@ == "client.pub"@,
        client::CREDENTIALS_DIR@ == "credentials"@,
        client::DEFAULT_CLIENT_DIR@ == "mint_client"@,
        keyring::CURRENT_POINTER@ == "current"@,
        session::TRANSPORT_FILE@ == "auth-transport"@,
        session::ATTEST_TRANSPORT_FILE@ == "attest-transport"@,
        sealed_cache::SEALED_DIR@ == "sealed"@,
        sealed_cache::POLICIES_DIR@ == "policies"@,
        sealed_cache::SEAL_FILE@ == "seal.json"@,
        sealed_cache::ENV_FILE@ == "env.json"@,
{
}

} // verus!
