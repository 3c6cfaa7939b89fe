//! What the command line decides and prints for the operator: which
//! transport it dials, the rows and notes on enrollments, the summary of a
//! seal, and the version it reports.

use crate::admin;
use crate::admin::{EnrollmentRow, EnrollmentState, RevokeResponse, SealResponse};
use crate::bytes;
use crate::config;
use crate::config::{Config, Listener};
use crate::session;
use crate::session::FileText;
use crate::text;
use crate::transport::Target;
use vstd::prelude::*;
use vstd::utf8::*;

verus! {

/// The transport that the client dials: the given socket, else the
/// configured listener, else the default socket. The client speaks over
/// sockets only.
pub open spec fn client_dial(socket: Option<&str>, configured: Option<(&str, &Listener)>) -> Result<
    Seq<char>,
    Seq<char>,
> {
    match (socket, configured) {
        (Some(p), _) => Ok("unix:"@ + p@),
        (None, Some((path, Listener::Uds(p)))) => Ok("unix:"@ + p@),
        (None, Some((path, Listener::Tcp(_)))) => Err(
            "mint client is UDS-only but MINT_CONFIG ("@ + path@
                + ") selects a TCP listener; pass --socket <path>"@,
        ),
        (None, None) => Ok(
            "unix:"@ + config::joined_path(
                config::DEFAULT_DATA_DIR@,
                config::DEFAULT_SOCKET_NAME@,
            ),
        ),
    }
}

/// The transport that the client dials. `configured` is the configuration
/// that the environment names, by its path and its listener.
pub fn client_transport(socket: Option<&str>, configured: Option<(&str, &Listener)>) -> (r: Result<
    String,
    String,
>)
    ensures
        match client_dial(socket, configured) {
            Ok(t) => r is Ok && r->Ok_0@ == t,
            Err(m) => r is Err && r->Err_0@ == m,
        },
{
    match (socket, configured) {
        (Some(p), _) => Ok(text::concat("unix:", p)),
        (None, Some((path, listener))) => match listener {
            Listener::Uds(p) => Ok(text::concat("unix:", p.as_str())),
            Listener::Tcp(_) => {
                let mut m = text::concat("mint client is UDS-only but MINT_CONFIG (", path);
                m.push_str(") selects a TCP listener; pass --socket <path>");
                Err(m)
            },
        },
        (None, None) => {
            let p = config::default_mint_socket();
            Ok(text::concat("unix:", p.as_str()))
        },
    }
}

/// The transport of a configuration's demo auth role.
pub open spec fn auth_transport(c: Config) -> Option<Seq<char>> {
    match c.demo_auth {
        Some(d) => match d.socket {
            Some(s) => Some("unix:"@ + s@),
            None => None,
        },
        None => None,
    }
}

/// What is said of a configuration without a demo auth role.
pub const NO_DEMO_AUTH: &'static str =
    "config has no colocated demo auth role ([auth.demo].enabled = true); pass --url instead";

/// The transport of a configuration's demo auth role. Any other auth role
/// is a separate service, reached by its URL.
pub fn config_auth_transport(cfg: &Config) -> (r: Result<String, String>)
    ensures
        match auth_transport(*cfg) {
            Some(t) => r is Ok && r->Ok_0@ == t,
            None => r is Err && r->Err_0@ == NO_DEMO_AUTH@,
        },
{
    match &cfg.demo_auth {
        Some(d) => match &d.socket {
            Some(s) => Ok(text::concat("unix:", s.as_str())),
            None => Err(text::owned(NO_DEMO_AUTH)),
        },
        None => Err(text::owned(NO_DEMO_AUTH)),
    }
}

/// The transport that a login dials: the given URL, else that of the
/// configuration's demo auth role, else the one that an earlier login left.
pub fn resolve_login_transport(
    url: Option<&str>,
    config: Option<&Config>,
    remembered: &FileText,
) -> (r: Result<String, String>)
    ensures
        match (url, config) {
            (Some(u), _) => r is Ok && r->Ok_0@ == u@,
            (None, Some(c)) => match auth_transport(*c) {
                Some(t) => r is Ok && r->Ok_0@ == t,
                None => r is Err && r->Err_0@ == NO_DEMO_AUTH@,
            },
            (None, None) => match remembered {
                FileText::Text(t) => r is Ok && r->Ok_0@ == text::trimmed(t@),
                FileText::Missing => r is Err && r->Err_0@ == session::error_text(
                    session::SessionError::NoTransport,
                ),
                FileText::Failed(m) => r is Err && r->Err_0@ == "io: "@ + m@,
            },
        },
{
    match (url, config) {
        (Some(u), _) => Ok(text::owned(u)),
        (None, Some(c)) => config_auth_transport(c),
        (None, None) => match session::load_transport(remembered) {
            Ok(t) => Ok(t),
            Err(e) => Err(e.message()),
        },
    }
}

/// The transport of a configuration's demo attestation authority, which a
/// login remembers.
pub fn attest_transport(cfg: &Config) -> (r: Option<String>)
    ensures
        match cfg.demo_attestation {
            Some(d) => match d.socket {
                Some(s) => r is Some && r->Some_0@ == "unix:"@ + s@,
                None => r is None,
            },
            None => r is None,
        },
{
    match &cfg.demo_attestation {
        Some(d) => match &d.socket {
            Some(s) => Some(text::concat("unix:", s.as_str())),
            None => None,
        },
        None => None,
    }
}

/// Where the operator's commands reach the server.
pub fn admin_target(cfg: &Config) -> (r: Target)
    ensures
        match cfg.listener {
            Listener::Uds(p) => r matches Target::Uds(q) && q@ == p@,
            Listener::Tcp(_) => r matches Target::Tcp(u) && u@ == config::dial_text(cfg.listener),
        },
{
    match &cfg.listener {
        Listener::Uds(p) => Target::Uds(p.clone()),
        Listener::Tcp(_) => Target::Tcp(cfg.listener.dial_url()),
    }
}

/// A text, or a dash for none.
pub open spec fn or_dash(s: Option<String>) -> Seq<char> {
    match s {
        Some(t) => t@,
        None => "-"@,
    }
}

/// The line of an enrollment.
pub open spec fn enrollment_text(r: EnrollmentRow) -> Seq<char> {
    let fingerprint = if r.fingerprint@.len() == 0 {
        "-"@
    } else {
        r.fingerprint@
    };
    let flags = if r.anomalous_pub {
        "ANOMALOUS-PUB"@
    } else {
        ""@
    };
    text::padded(r.sub@, 28) + " "@ + text::padded(r.state@, 9) + " "@ + text::padded(
        fingerprint,
        18,
    ) + " "@ + text::padded(or_dash(r.peer_ip), 16) + " "@ + text::aligned(
        text::digits(r.age_seconds as nat),
        7,
    ) + " "@ + flags
}

/// The line of an enrollment.
pub fn enrollment_line(r: &EnrollmentRow) -> (line: String)
    ensures
        line@ == enrollment_text(*r),
{
    let mut line = text::pad_right(r.sub.as_str(), 28);
    line.push_str(" ");
    line.push_str(text::pad_right(r.state.as_str(), 9).as_str());
    line.push_str(" ");
    let fingerprint = if r.fingerprint.as_str().is_empty() {
        "-"
    } else {
        r.fingerprint.as_str()
    };
    line.push_str(text::pad_right(fingerprint, 18).as_str());
    line.push_str(" ");
    let peer = match &r.peer_ip {
        Some(p) => p.as_str(),
        None => "-",
    };
    line.push_str(text::pad_right(peer, 16).as_str());
    line.push_str(" ");
    line.push_str(text::pad_left(text::print_u64(r.age_seconds).as_str(), 7).as_str());
    line.push_str(" ");
    line.push_str(
        if r.anomalous_pub {
            "ANOMALOUS-PUB"
        } else {
            ""
        },
    );
    line
}

/// The heading of the list of enrollments.
pub fn enrollment_heading() -> (line: String)
    ensures
        line@ == text::padded("SUB"@, 28) + " "@ + text::padded("STATE"@, 9) + " "@ + text::padded(
            "FINGERPRINT"@,
            18,
        ) + " "@ + text::padded("PEER"@, 16) + " "@ + text::aligned("AGE(s)"@, 7) + " FLAGS"@,
{
    let mut line = text::pad_right("SUB", 28);
    line.push_str(" ");
    line.push_str(text::pad_right("STATE", 9).as_str());
    line.push_str(" ");
    line.push_str(text::pad_right("FINGERPRINT", 18).as_str());
    line.push_str(" ");
    line.push_str(text::pad_right("PEER", 16).as_str());
    line.push_str(" ");
    line.push_str(text::pad_left("AGE(s)", 7).as_str());
    line.push_str(" FLAGS");
    line
}

/// The row is the pending enrollment of this principal.
pub open spec fn is_pending_of(r: EnrollmentRow, sub: Seq<char>) -> bool {
    r.sub@ == sub && r.state@ == admin::state_text(EnrollmentState::Pending)
}

/// The first pending enrollment of a principal.
pub fn find_pending<'a>(rows: &'a [EnrollmentRow], sub: &str) -> (r: Result<
    &'a EnrollmentRow,
    String,
>)
    ensures
        match r {
            Ok(row) => exists|i: int|
                #![trigger rows@[i]]
                0 <= i < rows@.len() && *row == rows@[i] && is_pending_of(rows@[i], sub@)
                    && forall|j: int| 0 <= j < i ==> !is_pending_of(#[trigger] rows@[j], sub@),
            Err(m) => m@ == "no pending enrollment for sub "@ + sub@ && forall|j: int|
                0 <= j < rows@.len() ==> !is_pending_of(#[trigger] rows@[j], sub@),
        },
{
    let mut i: usize = 0;
    while i < rows.len()
        invariant
            i <= rows@.len(),
            forall|j: int| 0 <= j < i ==> !is_pending_of(#[trigger] rows@[j], sub@),
        decreases rows@.len() - i,
    {
        if text::same(rows[i].sub.as_str(), sub) && text::same(
            rows[i].state.as_str(),
            EnrollmentState::Pending.name(),
        ) {
            assert(is_pending_of(rows@[i as int], sub@));
            return Ok(&rows[i]);
        }
        i = i + 1;
    }
    Err(text::concat("no pending enrollment for sub ", sub))
}

/// What is shown before an approval is confirmed.
pub open spec fn pending_notes(r: EnrollmentRow) -> Seq<Seq<char>> {
    seq![
        "pending enrollment:"@,
        "  sub:         "@ + r.sub@,
        "  fingerprint: "@ + r.fingerprint@,
        "  peer:        "@ + or_dash(r.peer_ip),
        "  age:         "@ + text::digits(r.age_seconds as nat) + "s"@,
    ]
}

/// What is shown before an approval is confirmed.
pub fn describe_pending(r: &EnrollmentRow) -> (lines: Vec<String>)
    ensures
        text::texts(lines@) == pending_notes(*r),
{
    let peer = match &r.peer_ip {
        Some(p) => p.as_str(),
        None => "-",
    };
    let mut age = text::owned("  age:         ");
    age.push_str(text::print_u64(r.age_seconds).as_str());
    age.push_str("s");
    let mut lines: Vec<String> = Vec::new();
    lines.push(text::owned("pending enrollment:"));
    lines.push(text::concat("  sub:         ", r.sub.as_str()));
    lines.push(text::concat("  fingerprint: ", r.fingerprint.as_str()));
    lines.push(text::concat("  peer:        ", peer));
    lines.push(age);
    assert(text::texts(lines@) =~= pending_notes(*r));
    lines
}

/// Whether an answer confirms.
pub fn is_yes(line: &str) -> (r: bool)
    ensures
        r == ({
            let t = text::trimmed(line@);
            t == "y"@ || t == "Y"@ || t == "yes"@ || t == "YES"@
        }),
{
    let t = text::trim(line);
    text::same(t.as_str(), "y") || text::same(t.as_str(), "Y") || text::same(t.as_str(), "yes")
        || text::same(t.as_str(), "YES")
}

/// What is said of an approval.
pub fn approved_note(sub: &str, approved_at: &str) -> (r: String)
    ensures
        r@ == "approved "@ + sub@ + " (registry entry written at "@ + approved_at@
            + "; pending record deleted)"@,
{
    let mut m = text::concat("approved ", sub);
    m.push_str(" (registry entry written at ");
    m.push_str(approved_at);
    m.push_str("; pending record deleted)");
    m
}

/// What is said of a revocation.
pub open spec fn revoked_text(sub: Seq<char>, r: RevokeResponse) -> Seq<char> {
    "revoked "@ + sub + " at "@ + r.revoked_at@ + " (epoch "@ + text::digits(r.rev_epoch as nat)
        + (if r.was_enrolled {
        "; enrolled record deleted, tombstone written)"@
    } else {
        "; no live enrolled record \u{2014} tombstone written/kept)"@
    })
}

/// What is said of a revocation.
pub fn revoked_note(sub: &str, resp: &RevokeResponse) -> (r: String)
    ensures
        r@ == revoked_text(sub@, *resp),
{
    let mut m = text::concat("revoked ", sub);
    m.push_str(" at ");
    m.push_str(resp.revoked_at.as_str());
    m.push_str(" (epoch ");
    m.push_str(text::print_u64(resp.rev_epoch).as_str());
    if resp.was_enrolled {
        m.push_str("; enrolled record deleted, tombstone written)");
    } else {
        m.push_str("; no live enrolled record \u{2014} tombstone written/kept)");
    }
    m
}

/// The first bytes of a hash, as a summary shows it.
pub open spec fn hash_head(hash: Seq<char>) -> Seq<u8> {
    let b = encode_utf8(hash);
    if b.len() <= 12 {
        b
    } else {
        b.take(12)
    }
}

fn head_of(hash: &str) -> (r: Option<String>)
    ensures
        match r {
            Some(s) => valid_utf8(hash_head(hash@)) && s@ == decode_utf8(hash_head(hash@)),
            None => !valid_utf8(hash_head(hash@)),
        },
{
    let b = hash.as_bytes();
    let n: usize = if b.len() <= 12 {
        b.len()
    } else {
        12
    };
    let head = bytes::slice(b, 0, n);
    assert(head@ =~= hash_head(hash@));
    bytes::utf8_string(&head)
}

/// Every hash of a seal can be shown by its first bytes, which end between
/// two characters.
pub open spec fn summarizable(roles: Map<Seq<char>, Seq<char>>) -> bool {
    forall|x: Seq<char>| #[trigger]
        roles.contains_key(x) ==> valid_utf8(hash_head(roles[x]))
}

/// Each role of a seal with the first bytes of its template's hash.
pub open spec fn role_heads(roles: Map<Seq<char>, Seq<char>>) -> Seq<Seq<char>> {
    crate::map::listing(roles.dom()).map_values(
        |x: Seq<char>| x + ":"@ + decode_utf8(hash_head(roles[x])),
    )
}

/// What is said of a published seal.
pub fn seal_summary(resp: &SealResponse) -> (r: Option<String>)
    ensures
        match r {
            Some(m) => summarizable(resp.roles.texts()) && m@ == "published seal: kid="@
                + text::digits(resp.kid as nat) + " sealed_at="@ + resp.sealed_at@ + " roles=["@
                + text::joined(role_heads(resp.roles.texts()), ", "@) + "]"@,
            None => !summarizable(resp.roles.texts()),
        },
{
    let n: usize = resp.roles.len();
    let ghost names = resp.roles.names();
    let ghost roles = resp.roles.texts();
    proof {
        resp.roles.lemma_names();
        assert(roles.dom() =~= resp.roles.map().dom());
    }
    let mut parts: Vec<String> = Vec::new();
    let mut i: usize = 0;
    while i < n
        invariant
            n == names.len(),
            names == resp.roles.names(),
            resp.roles.lists(),
            roles == resp.roles.texts(),
            i <= n,
            parts@.len() == i,
            forall|j: int|
                0 <= j < i ==> valid_utf8(hash_head(roles[#[trigger] names[j]])),
            forall|j: int|
                0 <= j < i ==> (#[trigger] parts@[j])@ == names[j] + ":"@ + decode_utf8(
                    hash_head(roles[names[j]]),
                ),
        decreases n - i,
    {
        let ghost y = names[i as int];
        assert(roles.contains_key(y));
        let head = match head_of(resp.roles.value_at(i).as_str()) {
            Some(h) => h,
            None => {
                return None;
            },
        };
        let mut part = text::concat(resp.roles.name_at(i), ":");
        part.push_str(head.as_str());
        parts.push(part);
        i = i + 1;
    }
    proof {
        assert forall|x: Seq<char>| #[trigger] roles.contains_key(x) implies valid_utf8(
            hash_head(roles[x]),
        ) by {
            assert(names.contains(x) <==> resp.roles.map().contains_key(x));
            let j = choose|j: int| 0 <= j < names.len() && names[j] == x;
            assert(valid_utf8(hash_head(roles[names[j]])));
        }
        assert(text::texts(parts@) =~= role_heads(roles));
    }
    let mut m = text::owned("published seal: kid=");
    m.push_str(text::print_u64(resp.kid as u64).as_str());
    m.push_str(" sealed_at=");
    m.push_str(resp.sealed_at.as_str());
    m.push_str(" roles=[");
    m.push_str(text::join(&parts, ", ").as_str());
    m.push_str("]");
    Some(m)
}

/// A text without the letters `v` that it begins with.
pub open spec fn without_v(s: Seq<char>) -> Seq<char>
    decreases s.len(),
{
    if s.len() > 0 && s[0] == 'v' {
        without_v(s.skip(1))
    } else {
        s
    }
}

fn skip_v(v: &[char]) -> (r: usize)
    ensures
        r <= v@.len(),
        v@.skip(r as int) == without_v(v@),
{
    let mut i: usize = 0;
    assert(v@.skip(0) =~= v@);
    while i < v.len() && v[i] == 'v'
        invariant
            i <= v@.len(),
            without_v(v@) == without_v(v@.skip(i as int)),
        decreases v@.len() - i,
    {
        assert(v@.skip(i as int).skip(1) =~= v@.skip(i + 1));
        i = i + 1;
    }
    i
}

/// The version that the program reports: a release's tag without its `v`,
/// else a development version of the manifest's.
pub open spec fn version_text(release: Option<&str>, manifest: Seq<char>) -> Seq<char> {
    match release {
        Some(tag) => if text::trimmed(tag@).len() > 0 {
            without_v(text::trimmed(tag@))
        } else {
            manifest + "-dev"@
        },
        None => manifest + "-dev"@,
    }
}

/// The version that the program reports.
pub fn version(release: Option<&str>, manifest: &str) -> (r: String)
    ensures
        r@ == version_text(release, manifest@),
{
    match release {
        Some(tag) => {
            let t = text::trim(tag);
            if !t.as_str().is_empty() {
                let v = text::chars_of(t.as_str());
                let from: usize = skip_v(&v);
                assert(v@.subrange(from as int, v@.len() as int) =~= v@.skip(from as int));
                return text::string_of(&v, from, v.len());
            }
        },
        None => {},
    }
    text::concat(manifest, "-dev")
}

} // verus!
