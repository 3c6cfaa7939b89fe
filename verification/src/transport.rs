//! Where an endpoint is dialled.

use crate::text;
use vstd::prelude::*;

verus! {

/// A transport: a socket path, or a base URL.
#[derive(Debug, PartialEq, Eq)]
pub enum Target {
    Tcp(String),
    Uds(String),
}

/// What a socket transport begins with.
pub const UNIX_PREFIX: &'static str = "unix:";

/// The transport that `base` names: a socket path behind `unix:`, else a
/// base URL.
pub fn parse_target(base: &str) -> (r: Target)
    ensures
        match text::without_prefix(base@, UNIX_PREFIX@) {
            Some(path) => r matches Target::Uds(p) && p@ == path,
            None => r matches Target::Tcp(b) && b@ == base@,
        },
{
    match text::strip_prefix(base, UNIX_PREFIX) {
        Some(path) => Target::Uds(path),
        None => Target::Tcp(text::owned(base)),
    }
}

/// The URL of an endpoint at a base URL.
pub fn endpoint_url(base: &str, endpoint: &str) -> (r: String)
    ensures
        r@ == base@ + endpoint@,
{
    text::concat(base, endpoint)
}

} // verus!
