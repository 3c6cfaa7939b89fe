//! What the client tells its user: the caveats of a macaroon in words, and
//! the credentials that it holds.

use crate::bytes;
use crate::caveat;
use crate::caveat::{name, op, Caveat, CaveatView};
use crate::client;
use crate::client::{ClientError, CREDENTIALS_DIR};
use crate::config;
use crate::config::join_path;
use crate::macaroon;
use crate::macaroon::{Macaroon, MacaroonView};
use crate::map::NameMap;
use crate::session::FileText;
use crate::text;
use crate::time;
use crate::time::UtcTime;
use vstd::prelude::*;
use vstd::utf8::*;

verus! {

/// The value can be shortened: the cuts do not split a character.
pub open spec fn abbreviable(s: Seq<char>) -> bool {
    let b = encode_utf8(s);
    b.len() <= 28 || (valid_utf8(b.take(14)) && valid_utf8(b.skip(b.len() - 8)))
}

/// A long value by its two ends.
pub open spec fn abbreviated(s: Seq<char>) -> Seq<char> {
    let b = encode_utf8(s);
    if b.len() <= 28 {
        s
    } else {
        decode_utf8(b.take(14)) + "\u{2026}"@ + decode_utf8(b.skip(b.len() - 8))
    }
}

/// The two ends of a long value, where the cuts split no character.
fn ends(s: &str) -> (r: Option<(String, String)>)
    requires
        encode_utf8(s@).len() > 28,
    ensures
        match r {
            Some((a, z)) => abbreviable(s@) && abbreviated(s@) == a@ + "\u{2026}"@ + z@,
            None => !abbreviable(s@),
        },
{
    let b = s.as_bytes();
    let n: usize = b.len();
    let head = bytes::slice(b, 0, 14);
    let tail = bytes::slice(b, n - 8, n);
    assert(head@ =~= encode_utf8(s@).take(14));
    assert(tail@ =~= encode_utf8(s@).skip(n - 8));
    match (bytes::utf8_string(&head), bytes::utf8_string(&tail)) {
        (Some(a), Some(z)) => Some((a, z)),
        _ => None,
    }
}

/// Whether a value can be shortened.
pub fn can_abbreviate(s: &str) -> (r: bool)
    ensures
        r == abbreviable(s@),
{
    s.as_bytes().len() <= 28 || ends(s).is_some()
}

/// Shortens a long opaque value for display, keeping both ends.
pub fn abbrev(s: &str) -> (r: String)
    requires
        abbreviable(s@),
    ensures
        r@ == abbreviated(s@),
{
    if s.as_bytes().len() <= 28 {
        return text::owned(s);
    }
    match ends(s) {
        Some((a, z)) => {
            let mut r = a;
            r.push_str("\u{2026}");
            r.push_str(z.as_str());
            r
        },
        None => text::owned(s),
    }
}

/// What a standard caveat means, in words.
pub open spec fn gloss_of(n: Seq<char>, value: Seq<char>) -> Seq<char> {
    if n == name::OP@ {
        if value == op::ENROLL@ {
            "participation gate \u{2014} enroll only"@
        } else if value == op::ENROLL_EXCHANGE@ {
            "redeem-once \u{2014} may only be exchanged for a credential"@
        } else if value == op::ASSUME_ROLE@ {
            "the working credential \u{2014} mints role keypairs"@
        } else {
            "mint operation this token is partitioned to"@
        }
    } else if n == name::AUD@ {
        "the mint instance this token is for"@
    } else if n == name::SUB@ {
        "the enrollment identity (operator-approved)"@
    } else if n == name::CNF@ {
        "bound to this client's key \u{2014} proof-of-possession"@
    } else if n == name::EXP@ {
        "expiry, unix seconds"@
    } else if n == name::ROLE@ {
        "restricts the assumable role"@
    } else if n == name::INVITE@ {
        "current invite nonce"@
    } else {
        ""@
    }
}

/// What a standard caveat means, in words; nothing for any other name.
pub fn caveat_gloss(cav_name: &str, cav_value: &str) -> (r: &'static str)
    ensures
        r@ == gloss_of(cav_name@, cav_value@),
{
    if text::same(cav_name, name::OP) {
        if text::same(cav_value, op::ENROLL) {
            "participation gate \u{2014} enroll only"
        } else if text::same(cav_value, op::ENROLL_EXCHANGE) {
            "redeem-once \u{2014} may only be exchanged for a credential"
        } else if text::same(cav_value, op::ASSUME_ROLE) {
            "the working credential \u{2014} mints role keypairs"
        } else {
            "mint operation this token is partitioned to"
        }
    } else if text::same(cav_name, name::AUD) {
        "the mint instance this token is for"
    } else if text::same(cav_name, name::SUB) {
        "the enrollment identity (operator-approved)"
    } else if text::same(cav_name, name::CNF) {
        "bound to this client's key \u{2014} proof-of-possession"
    } else if text::same(cav_name, name::EXP) {
        "expiry, unix seconds"
    } else if text::same(cav_name, name::ROLE) {
        "restricts the assumable role"
    } else if text::same(cav_name, name::INVITE) {
        "current invite nonce"
    } else {
        ""
    }
}

/// The instant of a deadline, where it can be written.
pub open spec fn deadline_of(n: Seq<char>, value: Seq<char>) -> Option<Seq<char>> {
    if n != name::EXP@ {
        None
    } else {
        match text::read_i64(value) {
            Some(s) if time::MIN_SECONDS <= s <= time::MAX_SECONDS => Some(time::iso_text(s)),
            _ => None,
        }
    }
}

/// A caveat's value as it is shown: shortened, and a deadline also as an
/// instant.
pub open spec fn shown_value(n: Seq<char>, value: Seq<char>) -> Seq<char> {
    match deadline_of(n, value) {
        Some(t) => abbreviated(value) + " ("@ + t + ")"@,
        None => abbreviated(value),
    }
}

/// The line of a caveat.
pub open spec fn caveat_line(c: CaveatView) -> Seq<char> {
    match c {
        CaveatView::FirstParty { name: n, value } => {
            let g = gloss_of(n, value);
            let head = "    "@ + text::padded(n, 10) + " "@ + shown_value(n, value);
            if g.len() == 0 {
                head
            } else {
                head + "  \u{2014} "@ + g
            }
        },
        CaveatView::ThirdParty { location, .. } => "    "@ + text::padded("tpc"@, 10) + " "@
            + location + "  \u{2014} discharge required from this authority"@,
    }
}

/// The caveat's value can be shown.
pub open spec fn showable(c: CaveatView) -> bool {
    c matches CaveatView::FirstParty { value, .. } ==> abbreviable(value)
}

fn show_deadline(n: &str, value: &str) -> (r: Option<String>)
    ensures
        match r {
            Some(t) => deadline_of(n@, value@) == Some(t@),
            None => deadline_of(n@, value@) is None,
        },
{
    if !text::same(n, name::EXP) {
        return None;
    }
    match text::parse_i64(value) {
        Some(s) => if time::MIN_SECONDS <= s && s <= time::MAX_SECONDS {
            Some(time::iso(UtcTime { seconds: s, nanos: 0 }))
        } else {
            None
        },
        None => None,
    }
}

fn show_caveat(c: &Caveat) -> (r: String)
    requires
        showable(c@),
    ensures
        r@ == caveat_line(c@),
{
    match c {
        Caveat::FirstParty { name: n, value } => {
            let mut line = text::owned("    ");
            line.push_str(text::pad_right(n.as_str(), 10).as_str());
            line.push_str(" ");
            let mut shown = abbrev(value.as_str());
            match show_deadline(n.as_str(), value.as_str()) {
                Some(t) => {
                    shown.push_str(" (");
                    shown.push_str(t.as_str());
                    shown.push_str(")");
                },
                None => {},
            }
            line.push_str(shown.as_str());
            let g = caveat_gloss(n.as_str(), value.as_str());
            if !g.is_empty() {
                line.push_str("  \u{2014} ");
                line.push_str(g);
            }
            line
        },
        Caveat::ThirdParty { location, .. } => {
            let mut line = text::owned("    ");
            line.push_str(text::pad_right("tpc", 10).as_str());
            line.push_str(" ");
            line.push_str(location.as_str());
            line.push_str("  \u{2014} discharge required from this authority");
            line
        },
    }
}

/// Every caveat of a macaroon can be shown.
pub open spec fn describable(m: MacaroonView) -> bool {
    forall|i: int| 0 <= i < m.caveats.len() ==> showable(#[trigger] m.caveats[i])
}

/// Whether every caveat of a macaroon can be shown.
pub fn can_describe(m: &Macaroon) -> (r: bool)
    ensures
        r == describable(m@),
{
    let caveats = m.caveats();
    let ghost all = m@.caveats;
    let mut i: usize = 0;
    while i < caveats.len()
        invariant
            i <= caveats@.len(),
            all == caveat::chain(caveats@),
            all == m@.caveats,
            forall|j: int| 0 <= j < i ==> showable(#[trigger] all[j]),
        decreases caveats@.len() - i,
    {
        assert(all[i as int] == caveats@[i as int]@);
        match &caveats[i] {
            Caveat::FirstParty { value, .. } => {
                if !can_abbreviate(value.as_str()) {
                    return false;
                }
            },
            Caveat::ThirdParty { .. } => {},
        }
        i = i + 1;
    }
    true
}

/// The lines that narrate a macaroon.
pub open spec fn narration(label: Seq<char>, m: MacaroonView) -> Seq<Seq<char>> {
    seq![
        "  "@ + label + " \u{2014} "@ + text::digits(m.caveats.len()) + " caveat(s):"@,
    ] + m.caveats.map_values(|c: CaveatView| caveat_line(c))
}

/// Narrates a macaroon's chain: what this token is.
pub fn describe(label: &str, m: &Macaroon) -> (r: Vec<String>)
    requires
        describable(m@),
    ensures
        text::texts(r@) == narration(label@, m@),
{
    let caveats = m.caveats();
    let ghost all = m@.caveats;
    let mut head = text::owned("  ");
    head.push_str(label);
    head.push_str(" \u{2014} ");
    head.push_str(text::print_u64(caveats.len() as u64).as_str());
    head.push_str(" caveat(s):");
    let mut r: Vec<String> = Vec::new();
    r.push(head);
    let ghost want = narration(label@, m@);
    let mut i: usize = 0;
    while i < caveats.len()
        invariant
            i <= caveats@.len(),
            all == caveat::chain(caveats@),
            all == m@.caveats,
            describable(m@),
            r@.len() == i + 1,
            r@[0]@ == want[0],
            want == narration(label@, m@),
            forall|j: int| 0 <= j < i ==> (#[trigger] r@[j + 1])@ == caveat_line(all[j]),
        decreases caveats@.len() - i,
    {
        assert(all[i as int] == caveats@[i as int]@);
        assert(showable(all[i as int]));
        let ghost before = r@;
        r.push(show_caveat(&caveats[i]));
        assert forall|j: int| 0 <= j < i + 1 implies (#[trigger] r@[j + 1])@ == caveat_line(
            all[j],
        ) by {
            if j < i {
                assert(before[j + 1]@ == caveat_line(all[j]));
            }
        }
        i = i + 1;
    }
    proof {
        let t = text::texts(r@);
        assert forall|k: int| 0 <= k < t.len() implies t[k] == want[k] by {
            if k > 0 {
                assert(r@[(k - 1) + 1]@ == caveat_line(all[k - 1]));
            }
        }
        assert(t =~= want);
    }
    r
}

/// The first value of a first-party caveat of this name.
pub open spec fn first_value(c: Seq<CaveatView>, target: Seq<char>) -> Option<Seq<char>> {
    let vs = caveat::values_of(c, target);
    if vs.len() > 0 {
        Some(vs[0])
    } else {
        None
    }
}

/// The first value of a first-party caveat of this name.
pub fn caveat_value(m: &Macaroon, target: &str) -> (r: Option<String>)
    ensures
        match r {
            Some(v) => first_value(m@.caveats, target@) == Some(v@),
            None => first_value(m@.caveats, target@) is None,
        },
{
    let caveats = m.caveats();
    let ghost all = m@.caveats;
    let mut i: usize = 0;
    assert(all.take(0) =~= Seq::<CaveatView>::empty());
    while i < caveats.len()
        invariant
            i <= caveats@.len(),
            all == caveat::chain(caveats@),
            all == m@.caveats,
            caveat::values_of(all.take(i as int), target@).len() == 0,
        decreases caveats@.len() - i,
    {
        proof {
            assert(all.take(i + 1).drop_last() =~= all.take(i as int));
            assert(all.take(i + 1).last() == caveats@[i as int]@);
            assert(all =~= all.take(i + 1) + all.skip(i + 1));
            caveat::lemma_values_append(all.take(i + 1), all.skip(i + 1), target@);
        }
        match &caveats[i] {
            Caveat::FirstParty { name: n, value } => {
                if text::same(n.as_str(), target) {
                    return Some(value.clone());
                }
            },
            Caveat::ThirdParty { .. } => {},
        }
        i = i + 1;
    }
    assert(all.take(all.len() as int) =~= all);
    None
}

/// The line of a held credential: the file's name tells which credential
/// it is, the caveat what it carries; a mismatch is worth seeing.
pub open spec fn credential_line(file_role: Seq<char>, m: MacaroonView) -> Seq<char> {
    let none = "(none)"@;
    let carried = match first_value(m.caveats, name::ROLE@) {
        Some(v) => v,
        None => none,
    };
    let sub = match first_value(m.caveats, name::SUB@) {
        Some(v) => v,
        None => none,
    };
    text::padded(file_role, 16) + " "@ + text::padded(carried, 28) + " "@ + text::aligned(
        text::digits(m.caveats.len()),
        7,
    ) + "  "@ + sub
}

/// The heading of the list of credentials.
pub open spec fn credential_heading() -> Seq<char> {
    text::padded("ROLE"@, 16) + " "@ + text::padded("ROLE-CAVEAT"@, 28) + " "@ + text::aligned(
        "CAVEATS"@,
        7,
    ) + "  SUB"@
}

/// Every file holds a macaroon.
pub open spec fn all_decode(files: Map<Seq<char>, Seq<char>>) -> bool {
    forall|x: Seq<char>| #[trigger]
        files.contains_key(x) ==> macaroon::read_token(text::trimmed(files[x])) is Some
}

/// The list of the credentials held, by role; nothing where there are
/// none. A file that holds no macaroon is reported.
pub fn credential_list(files: &NameMap<String>) -> (r: Result<Vec<String>, ClientError>)
    ensures
        if !all_decode(files.texts()) {
            r matches Err(ClientError::BadFile(w)) && w@ == "credential"@
        } else {
            let names = crate::map::listing(files.texts().dom());
            &&& r matches Ok(lines)
            &&& names.len() == 0 ==> lines@.len() == 0
            &&& names.len() > 0 ==> {
                &&& lines@.len() == names.len() + 1
                &&& lines@[0]@ == credential_heading()
                &&& forall|i: int|
                    0 <= i < names.len() ==> (#[trigger] lines@[i + 1])@ == credential_line(
                        names[i],
                        macaroon::read_token(text::trimmed(files.texts()[names[i]]))->0,
                    )
            }
        },
{
    let n: usize = files.len();
    let ghost names = files.names();
    let ghost texts = files.texts();
    proof {
        files.lemma_names();
        assert(texts.dom() =~= files.map().dom());
    }
    let mut lines: Vec<String> = Vec::new();
    if n == 0 {
        proof {
            assert forall|x: Seq<char>| !texts.contains_key(x) by {
                assert(names.contains(x) <==> files.map().contains_key(x));
            }
        }
        return Ok(lines);
    }
    let mut head = text::pad_right("ROLE", 16);
    head.push_str(" ");
    head.push_str(text::pad_right("ROLE-CAVEAT", 28).as_str());
    head.push_str(" ");
    head.push_str(text::pad_left("CAVEATS", 7).as_str());
    head.push_str("  SUB");
    lines.push(head);
    let mut i: usize = 0;
    while i < n
        invariant
            n == names.len(),
            names == files.names(),
            files.lists(),
            texts == files.texts(),
            names == crate::map::listing(texts.dom()),
            i <= n,
            lines@.len() == i + 1,
            lines@[0]@ == credential_heading(),
            forall|j: int|
                0 <= j < i ==> macaroon::read_token(
                    text::trimmed(texts[#[trigger] names[j]]),
                ) is Some,
            forall|j: int|
                0 <= j < i ==> (#[trigger] lines@[j + 1])@ == credential_line(
                    names[j],
                    macaroon::read_token(text::trimmed(texts[names[j]]))->0,
                ),
        decreases n - i,
    {
        let ghost y = names[i as int];
        assert(texts.contains_key(y));
        let m = match client::decode_as(files.value_at(i).as_str(), "credential") {
            Ok(m) => m,
            Err(e) => {
                assert(macaroon::read_token(text::trimmed(texts[y])) is None);
                return Err(e);
            },
        };
        let carried = match caveat_value(&m, name::ROLE) {
            Some(v) => v,
            None => text::owned("(none)"),
        };
        let sub = match caveat_value(&m, name::SUB) {
            Some(v) => v,
            None => text::owned("(none)"),
        };
        let mut line = text::pad_right(files.name_at(i), 16);
        line.push_str(" ");
        line.push_str(text::pad_right(carried.as_str(), 28).as_str());
        line.push_str(" ");
        line.push_str(
            text::pad_left(text::print_u64(m.caveats().len() as u64).as_str(), 7).as_str(),
        );
        line.push_str("  ");
        line.push_str(sub.as_str());
        let ghost before = lines@;
        lines.push(line);
        proof {
            assert forall|j: int| 0 <= j < i + 1 implies (#[trigger] lines@[j + 1])@
                == credential_line(
                names[j],
                macaroon::read_token(text::trimmed(texts[names[j]]))->0,
            ) by {
                if j < i {
                    assert(before[j + 1] == lines@[j + 1]);
                }
            }
        }
        i = i + 1;
    }
    proof {
        assert forall|x: Seq<char>| #[trigger] texts.contains_key(x) implies macaroon::read_token(
            text::trimmed(texts[x]),
        ) is Some by {
            assert(names.contains(x) <==> files.map().contains_key(x));
            let j = choose|j: int| 0 <= j < names.len() && names[j] == x;
            assert(macaroon::read_token(text::trimmed(texts[names[j]])) is Some);
        }
    }
    Ok(lines)
}

/// The held credential of a role, from its file.
pub fn load_credential(read: &FileText, dir: &str, role: &str) -> (r: Result<Macaroon, ClientError>)
    ensures
        match read {
            FileText::Missing => r matches Err(ClientError::Missing { path, hint }) && path@
                == config::joined_path(dir@, CREDENTIALS_DIR@ + "/"@ + role@) && hint@
                == "run `mint client exchange --role <role>` first"@,
            FileText::Failed(m) => r matches Err(ClientError::Io(e)) && e@ == m@,
            FileText::Text(t) => match macaroon::read_token(text::trimmed(t@)) {
                Some(m) => r is Ok && r->Ok_0@ == m,
                None => r matches Err(ClientError::BadFile(w)) && w@ == "credential"@,
            },
        },
{
    let path = join_path(dir, client::credential_path(role).as_str());
    match client::read_text(
        read,
        path.as_str(),
        "run `mint client exchange --role <role>` first",
    ) {
        Ok(raw) => client::decode_as(raw.as_str(), "credential"),
        Err(e) => Err(e),
    }
}

/// The narration of a role's credential, as it was loaded.
pub fn credential_inspect(m: &Macaroon, dir: &str, role: &str) -> (r: Vec<String>)
    requires
        describable(m@),
    ensures
        text::texts(r@) == seq![
            "credential for role `"@ + role@ + "` ("@ + config::joined_path(
                dir@,
                CREDENTIALS_DIR@ + "/"@ + role@,
            ) + "):"@,
        ] + narration("credential (what you hold)"@, m@),
{
    let mut head = text::concat("credential for role `", role);
    head.push_str("` (");
    head.push_str(join_path(dir, client::credential_path(role).as_str()).as_str());
    head.push_str("):");
    let ghost first = head@;
    let mut lines: Vec<String> = Vec::new();
    text::add_line(&mut lines, head);
    text::add_lines(&mut lines, &describe("credential (what you hold)", m));
    assert(text::texts(lines@) =~= seq![first] + narration("credential (what you hold)"@, m@));
    lines
}

} // verus!
