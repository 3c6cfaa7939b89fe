//! The per-user login session: where it is kept, and what is accepted as
//! one. Reading and writing the files is the caller's part.

use crate::config;
use crate::config::join_path;
use crate::json;
use crate::macaroon;
use crate::macaroon::Macaroon;
use crate::reply;
use crate::text;
use vstd::prelude::*;
use vstd::utf8::*;

verus! {

/// The session bearer.
pub const SESSION_FILE: &'static str = "session";

/// How the auth role is dialled.
pub const TRANSPORT_FILE: &'static str = "auth-transport";

/// How the attestation authority is dialled.
pub const ATTEST_TRANSPORT_FILE: &'static str = "attest-transport";

/// Why there is no session.
#[derive(Debug, PartialEq, Eq)]
pub enum SessionError {
    Io(String),
    /// There is no configuration home.
    NoHome,
    Malformed(&'static str),
    NotLoggedIn,
    /// No auth transport is known.
    NoTransport,
    /// No attestation transport is known.
    NoAttestTransport,
    /// The auth role refused the login.
    Login { status: u16, body: String },
}

/// The message of a session error.
pub open spec fn error_text(e: SessionError) -> Seq<char> {
    match e {
        SessionError::Io(m) => "io: "@ + m@,
        SessionError::NoHome => "no config home \u{2014} set HOME or XDG_CONFIG_HOME"@,
        SessionError::Malformed(what) => "malformed "@ + what@,
        SessionError::NotLoggedIn => "not logged in (run `mint login`)"@,
        SessionError::NoTransport =>
            "no auth transport known \u{2014} run `mint login --url <auth-url>`"@,
        SessionError::NoAttestTransport =>
            "no attestation transport known \u{2014} run `mint login --config <mint.toml>`"@,
        SessionError::Login { status, body } => "login failed ("@ + text::digits(status as nat)
            + "): "@ + body@,
    }
}

impl SessionError {
    /// The message for the user.
    pub fn message(&self) -> (r: String)
        ensures
            r@ == error_text(*self),
    {
        match self {
            SessionError::Io(m) => text::concat("io: ", m.as_str()),
            SessionError::NoHome => text::owned(
                "no config home \u{2014} set HOME or XDG_CONFIG_HOME",
            ),
            SessionError::Malformed(what) => text::concat("malformed ", what),
            SessionError::NotLoggedIn => text::owned("not logged in (run `mint login`)"),
            SessionError::NoTransport => text::owned(
                "no auth transport known \u{2014} run `mint login --url <auth-url>`",
            ),
            SessionError::NoAttestTransport => text::owned(
                "no attestation transport known \u{2014} run `mint login --config <mint.toml>`",
            ),
            SessionError::Login { status, body } => {
                let mut m = text::owned("login failed (");
                m.push_str(text::print_u64(*status as u64).as_str());
                m.push_str("): ");
                m.push_str(body.as_str());
                m
            },
        }
    }
}

/// A value of the environment that is there and not empty.
pub open spec fn set_value(v: Option<&str>) -> Option<Seq<char>> {
    match v {
        Some(s) if s@.len() > 0 => Some(s@),
        _ => None,
    }
}

/// The per-user directory: under the configuration home where that is set,
/// else under `.config` in the home directory.
pub open spec fn dir_path(xdg: Option<Seq<char>>, home: Option<Seq<char>>) -> Option<Seq<char>> {
    match (xdg, home) {
        (Some(x), _) => Some(config::joined_path(x, "mint"@)),
        (None, Some(h)) => Some(
            config::joined_path(config::joined_path(h, ".config"@), "mint"@),
        ),
        (None, None) => None,
    }
}

/// The per-user directory, from the two variables of the environment.
pub fn dir(xdg_config_home: Option<&str>, home: Option<&str>) -> (r: Result<String, SessionError>)
    ensures
        match dir_path(set_value(xdg_config_home), set_value(home)) {
            Some(d) => r is Ok && r->Ok_0@ == d,
            None => r == Err::<String, SessionError>(SessionError::NoHome),
        },
{
    match xdg_config_home {
        Some(x) => {
            if !x.is_empty() {
                return Ok(join_path(x, "mint"));
            }
        },
        None => {},
    }
    match home {
        Some(h) => {
            if !h.is_empty() {
                return Ok(join_path(join_path(h, ".config").as_str(), "mint"));
            }
        },
        None => {},
    }
    Err(SessionError::NoHome)
}

/// A file of the user's, as it was read.
#[derive(Debug)]
pub enum FileText {
    Text(String),
    Missing,
    Failed(String),
}

/// What is written for a login: the session and the transport, trimmed. A
/// session that is no macaroon is refused.
pub fn save(session: &str, transport: &str) -> (r: Result<(String, String), SessionError>)
    ensures
        match saved(session@, transport@) {
            None => r matches Err(SessionError::Malformed(w)) && w@ == "session"@,
            Some(files) => r matches Ok((s, t)) && s@ == files.0 && t@ == files.1,
        },
{
    let s = text::trim(session);
    match Macaroon::decode(s.as_str()) {
        Err(_) => Err(SessionError::Malformed("session")),
        Ok(_) => Ok((s, text::trim(transport))),
    }
}

/// The session in its file, which must be a macaroon.
pub fn load_session(read: &FileText) -> (r: Result<String, SessionError>)
    ensures
        match read {
            FileText::Missing => r == Err::<String, SessionError>(SessionError::NotLoggedIn),
            FileText::Failed(m) => r matches Err(SessionError::Io(e)) && e@ == m@,
            FileText::Text(t) => match loaded_session(t@) {
                None => r matches Err(SessionError::Malformed(w)) && w@ == "session"@,
                Some(s) => r is Ok && r->Ok_0@ == s,
            },
        },
{
    match read {
        FileText::Missing => Err(SessionError::NotLoggedIn),
        FileText::Failed(m) => Err(SessionError::Io(m.clone())),
        FileText::Text(t) => {
            let s = text::trim(t.as_str());
            match Macaroon::decode(s.as_str()) {
                Err(_) => Err(SessionError::Malformed("session")),
                Ok(_) => Ok(s),
            }
        },
    }
}

/// The auth transport in its file.
pub fn load_transport(read: &FileText) -> (r: Result<String, SessionError>)
    ensures
        match read {
            FileText::Missing => r == Err::<String, SessionError>(SessionError::NoTransport),
            FileText::Failed(m) => r matches Err(SessionError::Io(e)) && e@ == m@,
            FileText::Text(t) => r is Ok && r->Ok_0@ == loaded_transport(t@),
        },
{
    match read {
        FileText::Missing => Err(SessionError::NoTransport),
        FileText::Failed(m) => Err(SessionError::Io(m.clone())),
        FileText::Text(t) => Ok(text::trim(t.as_str())),
    }
}

/// The attestation transport in its file.
pub fn load_attest_transport(read: &FileText) -> (r: Result<String, SessionError>)
    ensures
        match read {
            FileText::Missing => r == Err::<String, SessionError>(
                SessionError::NoAttestTransport,
            ),
            FileText::Failed(m) => r matches Err(SessionError::Io(e)) && e@ == m@,
            FileText::Text(t) => r is Ok && r->Ok_0@ == loaded_transport(t@),
        },
{
    match read {
        FileText::Missing => Err(SessionError::NoAttestTransport),
        FileText::Failed(m) => Err(SessionError::Io(m.clone())),
        FileText::Text(t) => Ok(text::trim(t.as_str())),
    }
}

/// The files that a login writes: the session and the transport, trimmed;
/// none where the session is no macaroon.
pub open spec fn saved(session: Seq<char>, transport: Seq<char>) -> Option<(Seq<char>, Seq<char>)> {
    match macaroon::read_token(text::trimmed(session)) {
        Some(_) => Some((text::trimmed(session), text::trimmed(transport))),
        None => None,
    }
}

/// The session that is loaded from a file's contents, where they hold one.
pub open spec fn loaded_session(contents: Seq<char>) -> Option<Seq<char>> {
    match macaroon::read_token(text::trimmed(contents)) {
        Some(_) => Some(text::trimmed(contents)),
        None => None,
    }
}

/// The transport that is loaded from a file's contents.
pub open spec fn loaded_transport(contents: Seq<char>) -> Seq<char> {
    text::trimmed(contents)
}

/// What a login saves is loaded again: the session, as the same macaroon,
/// and the transport.
pub proof fn law_saved_session_loads(session: Seq<char>, transport: Seq<char>)
    ensures
        saved(session, transport) is Some <==> macaroon::read_token(text::trimmed(session)) is Some,
        saved(session, transport) matches Some(files) ==> {
            &&& loaded_session(files.0) == Some(text::trimmed(session))
            &&& macaroon::read_token(loaded_session(files.0)->0) == macaroon::read_token(
                text::trimmed(session),
            )
            &&& loaded_transport(files.1) == text::trimmed(transport)
        },
{
    text::lemma_trimmed_twice(session);
    text::lemma_trimmed_twice(transport);
}

/// The body of a login.
pub fn login_body(subject: &str) -> (r: String)
    ensures
        r@ == json::json_text(reply::field_doc("subject"@, subject@)),
{
    reply::field_reply(200, "subject", subject).body
}

/// The session in the auth role's reply.
pub fn read_login(status: u16, body: &str) -> (r: Result<String, SessionError>)
    ensures
        if status != 200 {
            r matches Err(SessionError::Login { status: s, body: b }) && s == status && b@ == body@
        } else {
            match json::str_field(json::json_of(encode_utf8(body@)), "session"@) {
                Some(t) => r is Ok && r->Ok_0@ == t,
                None => r matches Err(SessionError::Malformed(w)) && w@ == "login response"@,
            }
        },
{
    if status != 200 {
        return Err(SessionError::Login { status, body: text::owned(body) });
    }
    let doc = json::parse_json(body.as_bytes());
    match json::read_str_field(&doc, "session") {
        Some(t) => Ok(t),
        None => Err(SessionError::Malformed("login response")),
    }
}

/// The file that remembers a transport.
pub open spec fn saved_transport(transport: Seq<char>) -> Seq<char> {
    text::trimmed(transport)
}

/// The contents of the file that remembers the attestation authority's
/// transport.
pub fn save_attest_transport(transport: &str) -> (r: String)
    ensures
        r@ == saved_transport(transport@),
{
    text::trim(transport)
}

/// The attestation transport that a login remembers is the one that is
/// loaded.
pub proof fn law_saved_transport_loads(transport: Seq<char>)
    ensures
        loaded_transport(saved_transport(transport)) == text::trimmed(transport),
{
    text::lemma_trimmed_twice(transport);
}

} // verus!
