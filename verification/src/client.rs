//! The reference client: what a caller sends, and what it makes of the
//! replies. Files and the network are the caller's part.

pub mod narrate;

use crate::bytes;
use crate::caveat;
use crate::caveat::{name, op, scope, Caveat, CaveatView};
use crate::crypto;
use crate::http::enroll::capped;
use crate::json;
use crate::json::{Json, JsonView};
use crate::macaroon;
use crate::macaroon::{Macaroon, MacaroonView};
use crate::map::NameMap;
use crate::operator;
use crate::pop;
use crate::pop::PopReject;
use crate::seal;
use crate::session;
use crate::session::{FileText, SessionError};
use crate::template;
use crate::text;
use crate::tpc;
use vstd::prelude::*;
use vstd::utf8::*;

verus! {

/// The seed of the identity key, on disk.
pub const KEY_FILE: &'static str = "client.key";

/// The public key, on disk.
pub const PUB_FILE: &'static str = "client.pub";

/// The credential ticket, on disk.
pub const CREDENTIAL_TICKET_FILE: &'static str = "credential.ticket";

/// Where the credentials are kept, one file per role.
pub const CREDENTIALS_DIR: &'static str = "credentials";

/// The client's directory where none is given.
pub const DEFAULT_CLIENT_DIR: &'static str = "mint_client";

/// The path, under the client's directory, of the credential of `role`.
pub fn credential_path(role: &str) -> (r: String)
    ensures
        r@ == CREDENTIALS_DIR@ + "/"@ + role@,
{
    let mut r = text::owned(CREDENTIALS_DIR);
    r.push_str("/");
    r.push_str(role);
    r
}

/// The client's directory.
pub fn client_dir(arg: Option<String>) -> (r: String)
    ensures
        r@ == (match arg {
            Some(d) => d@,
            None => DEFAULT_CLIENT_DIR@,
        }),
{
    match arg {
        Some(d) => d,
        None => text::owned(DEFAULT_CLIENT_DIR),
    }
}

/// Why a client step failed.
#[derive(Debug, PartialEq, Eq)]
pub enum ClientError {
    Io(String),
    Transport(String),
    Session(SessionError),
    /// A file or a reply does not hold what it should.
    BadFile(&'static str),
    Missing { path: String, hint: &'static str },
    BadRequest(&'static str),
    /// A caveat argument is not `NAME=VALUE`.
    BadCaveat(String),
    /// The exchange was refused: most likely the ticket has expired.
    TicketRejected,
    Server { status: u16, body: String },
    MissingField(&'static str),
}

/// The message of a client error.
pub open spec fn error_text(e: ClientError) -> Seq<char> {
    match e {
        ClientError::Io(m) => "io: "@ + m@,
        ClientError::Transport(m) => "transport: "@ + m@,
        ClientError::Session(s) => session::error_text(s),
        ClientError::BadFile(what) => "malformed "@ + what@,
        ClientError::Missing { path, hint } => path@ + " not found \u{2014} "@ + hint@,
        ClientError::BadRequest(what) => "bad request ("@ + what@ + ")"@,
        ClientError::BadCaveat(arg) => "--caveat must be NAME=VALUE (got "@ + template::quoted(
            arg@,
        ) + ")"@,
        ClientError::TicketRejected =>
            "exchange refused (401) \u{2014} the credential ticket most likely expired (it is short-lived). Re-run `mint client enroll \u{2026}` for a fresh one; your approval persists, so just `mint client exchange` again"@,
        ClientError::Server { status, body } => "server returned "@ + text::digits(
            status as nat,
        ) + ": "@ + body@,
        ClientError::MissingField(key) => "server response missing the "@ + key@ + " field"@,
    }
}

impl ClientError {
    /// The message for the user.
    pub fn message(&self) -> (r: String)
        ensures
            r@ == error_text(*self),
    {
        match self {
            ClientError::Io(m) => text::concat("io: ", m.as_str()),
            ClientError::Transport(m) => text::concat("transport: ", m.as_str()),
            ClientError::Session(s) => s.message(),
            ClientError::BadFile(what) => text::concat("malformed ", what),
            ClientError::Missing { path, hint } => {
                let mut m = path.clone();
                m.push_str(" not found \u{2014} ");
                m.push_str(hint);
                m
            },
            ClientError::BadRequest(what) => {
                let mut m = text::concat("bad request (", what);
                m.push_str(")");
                m
            },
            ClientError::BadCaveat(arg) => {
                let mut m = text::owned("--caveat must be NAME=VALUE (got ");
                m.push_str(template::quote(arg.as_str()).as_str());
                m.push_str(")");
                m
            },
            ClientError::TicketRejected => text::owned(
                "exchange refused (401) \u{2014} the credential ticket most likely expired (it is short-lived). Re-run `mint client enroll \u{2026}` for a fresh one; your approval persists, so just `mint client exchange` again",
            ),
            ClientError::Server { status, body } => {
                let mut m = text::owned("server returned ");
                m.push_str(text::print_u64(*status as u64).as_str());
                m.push_str(": ");
                m.push_str(body.as_str());
                m
            },
            ClientError::MissingField(key) => {
                let mut m = text::concat("server response missing the ", key);
                m.push_str(" field");
                m
            },
        }
    }
}

/// The fingerprint of a key: eight bytes of the hash of its `cnf` value,
/// in hexadecimal.
pub open spec fn fingerprint_of(cnf: Seq<char>) -> Seq<char> {
    text::hex_of(crypto::blake3_hash(encode_utf8(cnf)).take(8))
}

/// The fingerprint that is compared before an approval.
pub fn fingerprint(cnf: &str) -> (r: String)
    ensures
        r@ == fingerprint_of(cnf@),
        r@.len() == 16,
{
    let h = crypto::hash(cnf.as_bytes());
    let v = bytes::slice(&h, 0, 8);
    assert(v@ =~= h@.take(8));
    text::encode_hex(&v)
}

/// The identity key of a client.
#[derive(Debug)]
pub struct ClientKey {
    pub seed: [u8; 32],
    /// The key was made just now, and is to be written.
    pub fresh: bool,
}

/// The seed in the text of a key file.
pub fn decode_key(raw: &str) -> (r: Result<[u8; 32], ClientError>)
    ensures
        match text::read_hex32(text::trimmed(raw@)) {
            Some(seed) => r is Ok && r->Ok_0@ == seed,
            None => r matches Err(ClientError::BadFile(w)) && w@ == KEY_FILE@,
        },
{
    match text::decode_hex32(text::trim(raw).as_str()) {
        Some(seed) => Ok(seed),
        None => Err(ClientError::BadFile(KEY_FILE)),
    }
}

/// The identity key in its file, or a fresh one where there is none: the
/// first operation that needs an identity makes it.
pub fn load_key(read: &FileText) -> (r: Result<ClientKey, ClientError>)
    ensures
        match read {
            FileText::Text(t) => match text::read_hex32(text::trimmed(t@)) {
                Some(seed) => r matches Ok(k) && k.seed@ == seed && !k.fresh,
                None => r matches Err(ClientError::BadFile(w)) && w@ == KEY_FILE@,
            },
            FileText::Missing => r matches Ok(k) && k.fresh,
            FileText::Failed(m) => r matches Err(ClientError::Io(e)) && e@ == m@,
        },
{
    match read {
        FileText::Text(t) => match decode_key(t.as_str()) {
            Ok(seed) => Ok(ClientKey { seed, fresh: false }),
            Err(e) => Err(e),
        },
        FileText::Missing => Ok(ClientKey { seed: crypto::random32(), fresh: true }),
        FileText::Failed(m) => Err(ClientError::Io(m.clone())),
    }
}

/// The text of a key file. It reads back as the seed.
pub fn key_text(seed: &[u8; 32]) -> (r: String)
    ensures
        r@ == text::hex_of(seed@) + "\n"@,
        text::read_hex32(text::trimmed(r@)) == Some(seed@),
{
    let r = text::concat(text::encode_hex(seed).as_str(), "\n");
    proof {
        text::lemma_hex_line(seed@);
    }
    r
}

/// The text of the public key's file.
pub fn pub_text(seed: &[u8; 32]) -> (r: String)
    ensures
        r@ == text::hex_of(crypto::ed25519_public(seed@)) + "\n"@,
{
    text::concat(text::encode_hex(&crypto::public_key(seed)).as_str(), "\n")
}

/// The `cnf` value and the fingerprint of an identity key. The value is one
/// that enrollment takes.
pub fn identity(seed: &[u8; 32]) -> (r: (String, String))
    ensures
        r.0@ == pop::cnf_of(crypto::ed25519_public(seed@)),
        pop::cnf_key(r.0@) == Ok::<Seq<u8>, PopReject>(crypto::ed25519_public(seed@)),
        pop::valid_cnf(r.0@),
        r.1@ == fingerprint_of(r.0@),
        r.1@.len() == 16,
{
    let cnf = pop::cnf_value(seed);
    let fp = fingerprint(cnf.as_str());
    (cnf, fp)
}

/// The text of a file that an earlier step writes, with a hint where it is
/// missing.
pub fn read_text(read: &FileText, path: &str, hint: &'static str) -> (r: Result<
    String,
    ClientError,
>)
    ensures
        match read {
            FileText::Text(t) => r is Ok && r->Ok_0@ == t@,
            FileText::Missing => r matches Err(ClientError::Missing { path: p, hint: h }) && p@
                == path@ && h@ == hint@,
            FileText::Failed(m) => r matches Err(ClientError::Io(e)) && e@ == m@,
        },
{
    match read {
        FileText::Text(t) => Ok(t.clone()),
        FileText::Missing => Err(ClientError::Missing { path: text::owned(path), hint }),
        FileText::Failed(m) => Err(ClientError::Io(m.clone())),
    }
}

/// The macaroon in a trimmed text, or an error that names it.
pub fn decode_as(raw: &str, what: &'static str) -> (r: Result<Macaroon, ClientError>)
    ensures
        match macaroon::read_token(text::trimmed(raw@)) {
            Some(m) => r is Ok && r->Ok_0@ == m,
            None => r == Err::<Macaroon, ClientError>(ClientError::BadFile(what)),
        },
{
    match Macaroon::decode(text::trim(raw).as_str()) {
        Ok(m) => Ok(m),
        Err(_) => Err(ClientError::BadFile(what)),
    }
}

/// The invite macaroon that the operator handed over.
pub fn parse_invite(src: &str) -> (r: Result<Macaroon, ClientError>)
    ensures
        match macaroon::read_token(text::trimmed(src@)) {
            Some(m) => r is Ok && r->Ok_0@ == m,
            None => r matches Err(ClientError::BadFile(w)) && w@ == "invite macaroon"@,
        },
{
    decode_as(src, "invite macaroon")
}

/// The invite with this identity appended.
pub fn present_invite(invite: Macaroon, sub: &str, cnf: &str) -> (r: Macaroon)
    ensures
        r@ == macaroon::extended(
            macaroon::extended(invite@, caveat::scalar(name::SUB@, sub@)),
            caveat::scalar(name::CNF@, cnf@),
        ),
{
    invite.attenuate(Caveat::scalar(name::SUB, sub)).attenuate(Caveat::scalar(name::CNF, cnf))
}

/// A presented invite that names the caller is as authentic as the invite.
pub proof fn law_presented_invite_is_authentic(
    invite: MacaroonView,
    sub: Seq<char>,
    cnf: Seq<char>,
    key: Seq<u8>,
)
    requires
        macaroon::authentic(invite, key),
    ensures
        macaroon::authentic(
            macaroon::extended(
                macaroon::extended(invite, caveat::scalar(name::SUB@, sub)),
                caveat::scalar(name::CNF@, cnf),
            ),
            key,
        ),
{
    macaroon::law_attenuation_stays_authentic(invite, caveat::scalar(name::SUB@, sub), key);
    macaroon::law_attenuation_stays_authentic(
        macaroon::extended(invite, caveat::scalar(name::SUB@, sub)),
        caveat::scalar(name::CNF@, cnf),
        key,
    );
}

/// A string field of a reply.
pub fn json_field(body: &str, key: &'static str) -> (r: Result<String, ClientError>)
    ensures
        match operator::reply_field(body@, key@) {
            Some(v) => r is Ok && r->Ok_0@ == v,
            None => r == Err::<String, ClientError>(ClientError::MissingField(key)),
        },
{
    let doc = json::parse_json(body.as_bytes());
    match json::read_str_field(&doc, key) {
        Some(v) => Ok(v),
        None => Err(ClientError::MissingField(key)),
    }
}

/// Accepts a received macaroon for its file: only what decodes is kept.
pub fn check_received(token: &str) -> (r: Result<(), ClientError>)
    ensures
        macaroon::read_token(token@) is Some ==> r is Ok,
        macaroon::read_token(token@) is None ==> (r matches Err(ClientError::BadFile(w)) && w@
            == "server macaroon"@),
{
    match Macaroon::decode(token) {
        Ok(_) => Ok(()),
        Err(_) => Err(ClientError::BadFile("server macaroon")),
    }
}

/// A reply with a string field, where its status is success.
pub fn read_reply(status: u16, body: &str, key: &'static str) -> (r: Result<String, ClientError>)
    ensures
        if status != 200 {
            r matches Err(ClientError::Server { status: s, body: b }) && s == status && b@ == body@
        } else {
            match operator::reply_field(body@, key@) {
                Some(v) => r is Ok && r->Ok_0@ == v,
                None => r == Err::<String, ClientError>(ClientError::MissingField(key)),
            }
        },
{
    if status != 200 {
        return Err(ClientError::Server { status, body: text::owned(body) });
    }
    json_field(body, key)
}

/// The ticket in the reply to an enrollment.
pub fn read_ticket(status: u16, body: &str) -> (r: Result<String, ClientError>)
    ensures
        if status != 200 {
            r matches Err(ClientError::Server { status: s, body: b }) && s == status && b@ == body@
        } else {
            match operator::reply_field(body@, "credential.ticket"@) {
                Some(v) => r is Ok && r->Ok_0@ == v,
                None => r matches Err(ClientError::MissingField(k)) && k@ == "credential.ticket"@,
            }
        },
{
    read_reply(status, body, "credential.ticket")
}

/// What a reply to an exchange gives.
#[derive(Debug)]
pub enum Exchanged {
    /// The credential, as its text.
    Credential(String),
    /// The role is attested: the exchange is to be finished with this
    /// macaroon.
    Finalize(Macaroon),
    /// The operator has not approved yet.
    Awaiting,
}

/// The single value of a scalar caveat.
pub fn scalar_value(m: &Macaroon, n: &str) -> (r: Option<String>)
    ensures
        match r {
            Some(v) => template::single(m@.caveats, n@) == Some(v@),
            None => template::single(m@.caveats, n@) is None,
        },
{
    template::single_value(m.caveats(), n)
}

/// The credential in an exchange's reply, or what else it means. A refusal
/// is opaque, but here it is most likely an expired ticket.
pub fn read_exchange(status: u16, body: &str) -> (r: Result<Exchanged, ClientError>)
    ensures
        if status == 200 {
            match operator::reply_field(body@, "credential"@) {
                None => r matches Err(ClientError::MissingField(k)) && k@ == "credential"@,
                Some(t) => match macaroon::read_token(t) {
                    None => r matches Err(ClientError::BadFile(w)) && w@ == "credential"@,
                    Some(m) => if template::single(m.caveats, name::OP@) == Some(
                        op::EXCHANGE_FINALIZE@,
                    ) {
                        r matches Ok(Exchanged::Finalize(i)) && i@ == m
                    } else {
                        r matches Ok(Exchanged::Credential(c)) && c@ == t
                    },
                },
            }
        } else if status == 403 {
            r matches Ok(Exchanged::Awaiting)
        } else if status == 401 {
            r matches Err(ClientError::TicketRejected)
        } else {
            r matches Err(ClientError::Server { status: s, body: b }) && s == status && b@ == body@
        },
{
    if status == 403 {
        return Ok(Exchanged::Awaiting);
    }
    if status == 401 {
        return Err(ClientError::TicketRejected);
    }
    let token = match read_reply(status, body, "credential") {
        Ok(t) => t,
        Err(e) => {
            return Err(e);
        },
    };
    let m = match Macaroon::decode(token.as_str()) {
        Ok(m) => m,
        Err(_) => {
            return Err(ClientError::BadFile("credential"));
        },
    };
    match scalar_value(&m, name::OP) {
        Some(v) => if text::same(v.as_str(), op::EXCHANGE_FINALIZE) {
            Ok(Exchanged::Finalize(m))
        } else {
            Ok(Exchanged::Credential(token))
        },
        None => Ok(Exchanged::Credential(token)),
    }
}

/// The discharge in an authority's reply.
pub fn read_discharge(status: u16, body: &str) -> (r: Result<Macaroon, ClientError>)
    ensures
        if status != 200 {
            r matches Err(ClientError::Server { status: s, body: b }) && s == status && b@ == body@
        } else {
            match operator::reply_field(body@, "discharge"@) {
                None => r matches Err(ClientError::MissingField(k)) && k@ == "discharge"@,
                Some(t) => match macaroon::read_token(t) {
                    Some(m) => r is Ok && r->Ok_0@ == m,
                    None => r matches Err(ClientError::BadFile(w)) && w@ == "discharge"@,
                },
            }
        },
{
    let token = match read_reply(status, body, "discharge") {
        Ok(t) => t,
        Err(e) => {
            return Err(e);
        },
    };
    match Macaroon::decode(token.as_str()) {
        Ok(m) => Ok(m),
        Err(_) => Err(ClientError::BadFile("discharge")),
    }
}

/// A `NAME=VALUE` argument: a value that the client proposes.
#[derive(Debug, PartialEq, Eq)]
pub struct CaveatArg {
    pub name: String,
    pub value: String,
}

impl CaveatArg {
    /// An argument of these parts.
    pub fn new(name: &str, value: &str) -> (r: CaveatArg)
        ensures
            r.name@ == name@,
            r.value@ == value@,
    {
        CaveatArg { name: text::owned(name), value: text::owned(value) }
    }
}

/// The parts of a `NAME=VALUE` argument: split at the first `=`, with a
/// name before it.
pub open spec fn split_arg(arg: Seq<char>) -> Option<(Seq<char>, Seq<char>)> {
    match text::find_char(arg, '=') {
        Some(i) if i > 0 => Some((arg.take(i), arg.skip(i + 1))),
        _ => None,
    }
}

fn parse_arg(arg: &str) -> (r: Option<CaveatArg>)
    ensures
        match r {
            Some(c) => split_arg(arg@) == Some((c.name@, c.value@)),
            None => split_arg(arg@) is None,
        },
{
    let v = text::chars_of(arg);
    match text::find_char_in(&v, '=') {
        None => None,
        Some(i) => {
            proof {
                text::lemma_find_char_is_first(arg@, '=');
            }
            if i == 0 {
                return None;
            }
            let name = text::string_of(&v, 0, i);
            let value = text::string_of(&v, i + 1, v.len());
            assert(name@ =~= arg@.take(i as int));
            assert(value@ =~= arg@.skip(i + 1));
            Some(CaveatArg { name, value })
        },
    }
}

/// The first argument that is not `NAME=VALUE`.
pub open spec fn first_bad_arg(args: Seq<Seq<char>>) -> Option<Seq<char>>
    decreases args.len(),
{
    if args.len() == 0 {
        None
    } else {
        match first_bad_arg(args.drop_last()) {
            Some(a) => Some(a),
            None => if split_arg(args.last()) is None {
                Some(args.last())
            } else {
                None
            },
        }
    }
}

proof fn lemma_first_bad_stays(args: Seq<Seq<char>>, n: int)
    requires
        0 <= n <= args.len(),
        first_bad_arg(args.take(n)) is Some,
    ensures
        first_bad_arg(args) == first_bad_arg(args.take(n)),
    decreases args.len() - n,
{
    if n == args.len() {
        assert(args.take(n) =~= args);
    } else {
        assert(args.take(n + 1).drop_last() =~= args.take(n));
        lemma_first_bad_stays(args, n + 1);
    }
}

/// Parses `NAME=VALUE` arguments. No name is special.
pub fn parse_caveats(args: &[String]) -> (r: Result<Vec<CaveatArg>, ClientError>)
    ensures
        match first_bad_arg(text::texts(args@)) {
            Some(a) => r matches Err(ClientError::BadCaveat(b)) && b@ == a,
            None => {
                &&& r matches Ok(v)
                &&& v@.len() == args@.len()
                &&& forall|i: int|
                    0 <= i < args@.len() ==> split_arg((#[trigger] args@[i])@) == Some(
                        (v@[i].name@, v@[i].value@),
                    )
            },
        },
{
    let ghost all = text::texts(args@);
    let mut v: Vec<CaveatArg> = Vec::new();
    let mut i: usize = 0;
    assert(all.take(0) =~= Seq::<Seq<char>>::empty());
    while i < args.len()
        invariant
            i <= args@.len(),
            all == text::texts(args@),
            v@.len() == i,
            first_bad_arg(all.take(i as int)) is None,
            forall|j: int|
                0 <= j < i ==> split_arg((#[trigger] args@[j])@) == Some(
                    (v@[j].name@, v@[j].value@),
                ),
        decreases args@.len() - i,
    {
        proof {
            assert(all.take(i + 1).drop_last() =~= all.take(i as int));
            assert(all.take(i + 1).last() == args@[i as int]@);
        }
        match parse_arg(args[i].as_str()) {
            Some(c) => v.push(c),
            None => {
                proof {
                    lemma_first_bad_stays(all, i + 1);
                }
                return Err(ClientError::BadCaveat(args[i].clone()));
            },
        }
        i = i + 1;
    }
    assert(all.take(all.len() as int) =~= all);
    Ok(v)
}

/// The values of arguments by name, a later one in the place of an earlier
/// one.
pub open spec fn arg_map(args: Seq<CaveatArg>) -> Map<Seq<char>, Seq<char>>
    decreases args.len(),
{
    if args.len() == 0 {
        Map::empty()
    } else {
        arg_map(args.drop_last()).insert(args.last().name@, args.last().value@)
    }
}

/// The values of arguments by name.
pub fn values_by_name(args: &[CaveatArg]) -> (r: NameMap<String>)
    ensures
        r.texts() == arg_map(args@),
{
    let mut m: NameMap<String> = NameMap::new();
    let mut i: usize = 0;
    proof {
        assert(args@.take(0) =~= Seq::<CaveatArg>::empty());
        assert(m.texts() =~= arg_map(args@.take(0)));
    }
    while i < args.len()
        invariant
            i <= args@.len(),
            m.texts() == arg_map(args@.take(i as int)),
        decreases args@.len() - i,
    {
        let ghost before = m.texts();
        m.insert(args[i].name.clone(), args[i].value.clone());
        proof {
            let next = args@.take(i + 1);
            assert(next.drop_last() =~= args@.take(i as int));
            assert(m.texts() =~= before.insert(args@[i as int].name@, args@[i as int].value@));
        }
        i = i + 1;
    }
    assert(args@.take(args@.len() as int) =~= args@);
    m
}

/// The body of an assume-role request.
pub open spec fn request_doc(role: Seq<char>, ttl_seconds: u64, ts: u64) -> JsonView {
    JsonView::Object(
        seq![
            ("role"@, JsonView::Str(role)),
            ("ts"@, JsonView::PosInt(ts)),
            ("ttl_seconds"@, JsonView::PosInt(ttl_seconds)),
        ],
    )
}

/// The body of an assume-role request: only what the server reads.
pub fn build_request_body(role: &str, ttl_seconds: u64, ts: u64) -> (r: String)
    ensures
        r@ == json::json_text(request_doc(role@, ttl_seconds, ts)),
        pop::ts_of(json::json_of(encode_utf8(r@))) == Ok::<u64, PopReject>(ts),
        json::str_field(json::json_of(encode_utf8(r@)), "role"@) == Some(role@),
{
    let mut v: Vec<(String, Json)> = Vec::new();
    v.push((text::owned("role"), Json::Str(text::owned(role))));
    v.push((text::owned("ts"), Json::PosInt(ts)));
    v.push((text::owned("ttl_seconds"), Json::PosInt(ttl_seconds)));
    let ghost entries = v;
    let doc = Json::Object(v);
    proof {
        json::lemma_object_view(doc, entries);
        assert(doc@->Object_0 =~= request_doc(role@, ttl_seconds, ts)->Object_0);
        json::lemma_entries_within(doc@->Object_0, 0);
    }
    let r = json::write_json(&doc);
    proof {
        let entries = request_doc(role@, ttl_seconds, ts)->Object_0;
        pop::lemma_body_keys();
        json::lemma_flat(entries);
        json::lemma_entry(entries, "role"@, 0);
        json::lemma_entry(entries, "ts"@, 1);
        let out = json::json_of(encode_utf8(r@))->0;
        json::lemma_agreed_field(doc@, out, "role"@);
        json::lemma_agreed_field(doc@, out, "ts"@);
    }
    r
}

/// The body of an exchange.
pub open spec fn exchange_doc(role: Seq<char>, ts: u64) -> JsonView {
    JsonView::Object(seq![("role"@, JsonView::Str(role)), ("ts"@, JsonView::PosInt(ts))])
}

/// The body of an exchange.
pub fn exchange_body(role: &str, ts: u64) -> (r: String)
    ensures
        r@ == json::json_text(exchange_doc(role@, ts)),
        pop::ts_of(json::json_of(encode_utf8(r@))) == Ok::<u64, PopReject>(ts),
        json::str_field(json::json_of(encode_utf8(r@)), "role"@) == Some(role@),
{
    let mut v: Vec<(String, Json)> = Vec::new();
    v.push((text::owned("role"), Json::Str(text::owned(role))));
    v.push((text::owned("ts"), Json::PosInt(ts)));
    let ghost entries = v;
    let doc = Json::Object(v);
    proof {
        json::lemma_object_view(doc, entries);
        assert(doc@->Object_0 =~= exchange_doc(role@, ts)->Object_0);
        json::lemma_entries_within(doc@->Object_0, 0);
    }
    let r = json::write_json(&doc);
    proof {
        let entries = exchange_doc(role@, ts)->Object_0;
        pop::lemma_body_keys();
        json::lemma_flat(entries);
        json::lemma_entry(entries, "role"@, 0);
        json::lemma_entry(entries, "ts"@, 1);
        let out = json::json_of(encode_utf8(r@))->0;
        json::lemma_agreed_field(doc@, out, "role"@);
        json::lemma_agreed_field(doc@, out, "ts"@);
    }
    r
}

/// The caveats that `NAME=VALUE` arguments give, in order.
pub open spec fn arg_caveats(args: Seq<CaveatArg>) -> Seq<CaveatView> {
    Seq::new(args.len(), |i: int| caveat::scalar(args[i].name@, args[i].value@))
}

/// The credential with the holder's own caveats appended, in order.
pub fn narrow_credential(credential: Macaroon, args: &[CaveatArg]) -> (r: Macaroon)
    ensures
        r@ == macaroon::extended_by(credential@, arg_caveats(args@)),
{
    let ghost start = credential@;
    let ghost all = arg_caveats(args@);
    let mut r = credential;
    let mut i: usize = 0;
    assert(all.take(0) =~= Seq::<CaveatView>::empty());
    while i < args.len()
        invariant
            i <= args@.len(),
            all == arg_caveats(args@),
            r@ == macaroon::extended_by(start, all.take(i as int)),
        decreases args@.len() - i,
    {
        proof {
            assert(all.take(i + 1).drop_last() =~= all.take(i as int));
            assert(all.take(i + 1).last() == all[i as int]);
        }
        r = r.attenuate(Caveat::scalar(args[i].name.as_str(), args[i].value.as_str()));
        i = i + 1;
    }
    assert(all.take(all.len() as int) =~= all);
    r
}

/// The credential with its deadline appended: credentials do not expire,
/// and the role gate needs a deadline.
pub fn bound_credential(credential: Macaroon, now_unix: u64, ttl_seconds: u64) -> (r: Macaroon)
    ensures
        r@ == macaroon::extended(
            credential@,
            caveat::scalar(name::EXP@, text::digits(capped(now_unix, ttl_seconds) as nat)),
        ),
{
    let exp: u64 = if now_unix > u64::MAX - ttl_seconds {
        u64::MAX
    } else {
        now_unix + ttl_seconds
    };
    credential.attenuate(Caveat::scalar(name::EXP, text::print_u64(exp).as_str()))
}

/// A discharge to fetch: the path to ask at, and the body to send.
#[derive(Debug)]
pub struct DischargeOrder {
    pub location: String,
    pub path: String,
    pub body: String,
}

/// The third-party caveats of a chain, as location and `cid`.
pub open spec fn sites_of(c: Seq<CaveatView>) -> Seq<(Seq<char>, Seq<u8>)>
    decreases c.len(),
{
    if c.len() == 0 {
        Seq::empty()
    } else {
        let before = sites_of(c.drop_last());
        match c.last() {
            CaveatView::ThirdParty { location, cid, .. } => before.push((location, cid)),
            CaveatView::FirstParty { .. } => before,
        }
    }
}

/// The body of a discharge request.
pub enum OrderBody {
    /// For an operator gate, at this scope.
    Scope(Seq<char>),
    /// For an attestation, of these values.
    Values(Map<Seq<char>, Seq<char>>),
}

/// The text of an attestation request.
pub open spec fn attest_text(cid: Seq<char>, values: Map<Seq<char>, Seq<char>>) -> Seq<char> {
    "{\"cid\":"@ + json::json_text(JsonView::Str(cid)) + ",\"attested\":"@ + json::json_text(
        seal::env_doc(values),
    ) + "}"@
}

/// The text of a discharge request for a `cid`.
pub open spec fn order_text(cid: Seq<u8>, body: OrderBody) -> Seq<char> {
    match body {
        OrderBody::Scope(s) => json::json_text(
            operator::discharge_doc(crypto::base64url(cid), s),
        ),
        OrderBody::Values(v) => attest_text(crypto::base64url(cid), v),
    }
}

/// A location names a path to ask at.
pub open spec fn path_of(location: Seq<char>) -> Option<Seq<char>> {
    tpc::request_path(tpc::uri_path(location))
}

/// One order per third-party caveat, in order.
pub open spec fn orders_are(
    orders: Seq<DischargeOrder>,
    sites: Seq<(Seq<char>, Seq<u8>)>,
    body: OrderBody,
) -> bool {
    &&& orders.len() == sites.len()
    &&& forall|i: int|
        0 <= i < sites.len() ==> {
            &&& (#[trigger] orders[i]).location@ == sites[i].0
            &&& path_of(sites[i].0) == Some(orders[i].path@)
            &&& orders[i].body@ == order_text(sites[i].1, body)
        }
}

/// Every location names a path.
pub open spec fn all_paths(sites: Seq<(Seq<char>, Seq<u8>)>) -> bool {
    forall|i: int| 0 <= i < sites.len() ==> path_of((#[trigger] sites[i]).0) is Some
}

/// The orders of a macaroon's third-party caveats.
pub open spec fn ordered(
    r: Result<Vec<DischargeOrder>, ClientError>,
    c: Seq<CaveatView>,
    body: OrderBody,
) -> bool {
    if all_paths(sites_of(c)) {
        r is Ok && orders_are(r->Ok_0@, sites_of(c), body)
    } else {
        r matches Err(ClientError::BadFile(w)) && w@ == "tpc location"@
    }
}

proof fn lemma_sites_prefix(c: Seq<CaveatView>, n: int)
    requires
        0 <= n <= c.len(),
    ensures
        sites_of(c.take(n)).len() <= sites_of(c).len(),
        sites_of(c.take(n)) == sites_of(c).take(sites_of(c.take(n)).len() as int),
    decreases c.len() - n,
{
    if n == c.len() {
        assert(c.take(n) =~= c);
        assert(sites_of(c).take(sites_of(c).len() as int) =~= sites_of(c));
    } else {
        lemma_sites_prefix(c, n + 1);
        let a = sites_of(c.take(n));
        let b = sites_of(c.take(n + 1));
        assert(c.take(n + 1).drop_last() =~= c.take(n));
        assert(b.take(a.len() as int) =~= a);
        assert(sites_of(c).take(b.len() as int).take(a.len() as int) =~= sites_of(c).take(
            a.len() as int,
        ));
    }
}

/// The text of an attestation request.
pub fn attest_body(cid: &str, values: &NameMap<String>) -> (r: String)
    ensures
        r@ == attest_text(cid@, values.texts()),
{
    let mut r = text::owned("{\"cid\":");
    r.push_str(json::write_json(&Json::Str(text::owned(cid))).as_str());
    r.push_str(",\"attested\":");
    r.push_str(json::write_json(&seal::map_json(values)).as_str());
    r.push_str("}");
    r
}

/// What to ask the auth role for, so that the gates of `anchor` can be
/// passed: a discharge at `scope` for each of its third-party caveats.
pub fn gate_orders(anchor: &Macaroon, scope: &str) -> (r: Result<Vec<DischargeOrder>, ClientError>)
    ensures
        ordered(r, anchor@.caveats, OrderBody::Scope(scope@)),
{
    let caveats = anchor.caveats();
    let ghost all = caveat::chain(caveats@);
    let ghost body = OrderBody::Scope(scope@);
    let mut orders: Vec<DischargeOrder> = Vec::new();
    let mut i: usize = 0;
    assert(all.take(0) =~= Seq::<CaveatView>::empty());
    while i < caveats.len()
        invariant
            i <= caveats@.len(),
            all == caveat::chain(caveats@),
            all == anchor@.caveats,
            body == OrderBody::Scope(scope@),
            orders_are(orders@, sites_of(all.take(i as int)), body),
        decreases caveats@.len() - i,
    {
        proof {
            assert(all.take(i + 1).drop_last() =~= all.take(i as int));
            assert(all.take(i + 1).last() == caveats@[i as int]@);
            lemma_sites_prefix(all, i + 1);
        }
        match &caveats[i] {
            Caveat::ThirdParty { location, cid, .. } => {
                let ghost sites = sites_of(all.take(i + 1));
                assert(sites.last() == (location@, cid@));
                let path = match tpc::location_path(location.as_str()) {
                    Some(p) => p,
                    None => {
                        proof {
                            let k = sites.len() - 1;
                            assert(sites_of(all)[k] == sites[k]);
                            assert(path_of(sites_of(all)[k].0) is None);
                        }
                        return Err(ClientError::BadFile("tpc location"));
                    },
                };
                let text_cid = crypto::base64url_encode(cid);
                orders.push(
                    DischargeOrder {
                        location: location.clone(),
                        path,
                        body: operator::discharge_body(text_cid.as_str(), scope),
                    },
                );
            },
            Caveat::FirstParty { .. } => {},
        }
        i = i + 1;
    }
    proof {
        assert(all.take(all.len() as int) =~= all);
        let sites = sites_of(all);
        assert forall|k: int| 0 <= k < sites.len() implies path_of(
            (#[trigger] sites[k]).0,
        ) is Some by {
            assert(orders@[k].location@ == sites[k].0);
        }
    }
    Ok(orders)
}

/// What to ask the attestation authority for: a discharge of these values
/// for each third-party caveat of `credential`.
pub fn attest_orders(credential: &Macaroon, values: &NameMap<String>) -> (r: Result<
    Vec<DischargeOrder>,
    ClientError,
>)
    ensures
        ordered(r, credential@.caveats, OrderBody::Values(values.texts())),
{
    let caveats = credential.caveats();
    let ghost all = caveat::chain(caveats@);
    let ghost body = OrderBody::Values(values.texts());
    let mut orders: Vec<DischargeOrder> = Vec::new();
    let mut i: usize = 0;
    assert(all.take(0) =~= Seq::<CaveatView>::empty());
    while i < caveats.len()
        invariant
            i <= caveats@.len(),
            all == caveat::chain(caveats@),
            all == credential@.caveats,
            body == OrderBody::Values(values.texts()),
            orders_are(orders@, sites_of(all.take(i as int)), body),
        decreases caveats@.len() - i,
    {
        proof {
            assert(all.take(i + 1).drop_last() =~= all.take(i as int));
            assert(all.take(i + 1).last() == caveats@[i as int]@);
            lemma_sites_prefix(all, i + 1);
        }
        match &caveats[i] {
            Caveat::ThirdParty { location, cid, .. } => {
                let ghost sites = sites_of(all.take(i + 1));
                assert(sites.last() == (location@, cid@));
                let path = match tpc::location_path(location.as_str()) {
                    Some(p) => p,
                    None => {
                        proof {
                            let k = sites.len() - 1;
                            assert(sites_of(all)[k] == sites[k]);
                            assert(path_of(sites_of(all)[k].0) is None);
                        }
                        return Err(ClientError::BadFile("tpc location"));
                    },
                };
                let text_cid = crypto::base64url_encode(cid);
                orders.push(
                    DischargeOrder {
                        location: location.clone(),
                        path,
                        body: attest_body(text_cid.as_str(), values),
                    },
                );
            },
            Caveat::FirstParty { .. } => {},
        }
        i = i + 1;
    }
    proof {
        assert(all.take(all.len() as int) =~= all);
        let sites = sites_of(all);
        assert forall|k: int| 0 <= k < sites.len() implies path_of(
            (#[trigger] sites[k]).0,
        ) is Some by {
            assert(orders@[k].location@ == sites[k].0);
        }
    }
    Ok(orders)
}

} // verus!
