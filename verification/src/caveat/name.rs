//! Canonical caveat names. Borrowed names reuse a registered claim
//! (RFC 7519, RFC 7800); coined names are mint-specific.

use crate::text::same;
use vstd::prelude::*;

verus! {

/// RFC 7519 audience: the service this macaroon is for.
pub const AUD: &'static str = "aud";

/// RFC 7519 expiry, unix seconds; the sole deadline caveat. Multiple
/// occurrences narrow to the minimum.
pub const EXP: &'static str = "exp";

/// RFC 7519 subject: the opaque principal the credential is bound to.
pub const SUB: &'static str = "sub";

/// RFC 7800 confirmation: the holder-of-key, scalar-encoded
/// `ed25519:<pub>`.
pub const CNF: &'static str = "cnf";

/// Endpoint partition: `enroll`, `enroll-exchange`, `assume-role`.
pub const OP: &'static str = "op";

/// Restricts the assumable role.
pub const ROLE: &'static str = "role";

/// Per-coordinator revocation epoch.
pub const EPOCH: &'static str = "epoch";

/// Carried only by the invite macaroon: the current nonce.
pub const INVITE: &'static str = "invite";

/// Authority class that a discharge attests.
pub const SCOPE: &'static str = "scope";

/// Whether `s` is a reserved control-caveat name. A role's declared
/// `attested` contract is disjoint from these.
pub open spec fn reserved(s: Seq<char>) -> bool {
    s == AUD@ || s == EXP@ || s == SUB@ || s == CNF@ || s == OP@ || s == ROLE@ || s == EPOCH@ || s
        == INVITE@ || s == SCOPE@
}

/// Whether `s` is a reserved control-caveat name.
pub fn is_reserved(s: &str) -> (r: bool)
    ensures
        r == reserved(s@),
{
    same(s, AUD) || same(s, EXP) || same(s, SUB) || same(s, CNF) || same(s, OP) || same(s, ROLE)
        || same(s, EPOCH) || same(s, INVITE) || same(s, SCOPE)
}

/// The control names are different names.
pub proof fn lemma_control_names()
    ensures
        AUD@ != EXP@,
        AUD@ != SUB@,
        AUD@ != CNF@,
        AUD@ != OP@,
        AUD@ != ROLE@,
        AUD@ != EPOCH@,
        AUD@ != INVITE@,
        AUD@ != SCOPE@,
        EXP@ != SUB@,
        EXP@ != CNF@,
        EXP@ != OP@,
        EXP@ != ROLE@,
        EXP@ != EPOCH@,
        EXP@ != INVITE@,
        EXP@ != SCOPE@,
        SUB@ != CNF@,
        SUB@ != OP@,
        SUB@ != ROLE@,
        SUB@ != EPOCH@,
        SUB@ != INVITE@,
        SUB@ != SCOPE@,
        CNF@ != OP@,
        CNF@ != ROLE@,
        CNF@ != EPOCH@,
        CNF@ != INVITE@,
        CNF@ != SCOPE@,
        OP@ != ROLE@,
        OP@ != EPOCH@,
        OP@ != INVITE@,
        OP@ != SCOPE@,
        ROLE@ != EPOCH@,
        INVITE@ != SCOPE@,
{
    reveal_strlit("aud");
    reveal_strlit("exp");
    reveal_strlit("sub");
    reveal_strlit("cnf");
    reveal_strlit("op");
    reveal_strlit("role");
    reveal_strlit("epoch");
    reveal_strlit("invite");
    reveal_strlit("scope");
    assert(AUD@[0] == 'a');
    assert(EXP@[0] == 'e');
    assert(SUB@[0] == 's');
    assert(CNF@[0] == 'c');
    assert(AUD@.len() == 3);
    assert(EXP@.len() == 3);
    assert(SUB@.len() == 3);
    assert(CNF@.len() == 3);
    assert(OP@.len() == 2);
    assert(ROLE@.len() == 4);
    assert(EPOCH@.len() == 5);
    assert(SCOPE@.len() == 5);
    assert(INVITE@.len() == 6);
}

} // verus!
