//! `scope` caveat values: the authority classes that the auth role grants
//! and each gate clears.

use vstd::prelude::*;

verus! {

/// The enroll gate: discharges the invite's third-party caveat.
pub const MINT_ENROLL: &'static str = "mint:enroll";

/// The exchange gate: discharges the ticket's third-party caveat.
pub const MINT_EXCHANGE: &'static str = "mint:exchange";

/// The admin plane: discharges the admin service token's third-party
/// caveat.
pub const MINT_ADMIN: &'static str = "mint:admin";

} // verus!
