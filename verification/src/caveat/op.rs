//! `op` caveat values. One is stamped at every point that mints; each
//! endpoint positively requires its own.

use vstd::prelude::*;

verus! {

/// Participation in enrollment.
pub const ENROLL: &'static str = "enroll";

/// Exchanging a credential ticket for a credential.
pub const ENROLL_EXCHANGE: &'static str = "enroll-exchange";

/// Assuming a role with a credential.
pub const ASSUME_ROLE: &'static str = "assume-role";

/// Finishing the exchange of an attested role.
pub const EXCHANGE_FINALIZE: &'static str = "exchange-finalize";

/// A login session at the auth role, MAC'd under its own key.
pub const SESSION: &'static str = "session";

} // verus!
