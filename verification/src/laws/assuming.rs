//! Taking a role: what is ordered for a grant.

use crate::caveat;
use crate::caveat::{name, CaveatView, ResolvedView};
use crate::http;
use crate::http::assume_role;
use crate::http::assume_role::{Admitted, MintOrder, OrderView};
use crate::http::gate::{DenyView, EnrolledRead, Refused};
use crate::iam;
use crate::json;
use crate::role;
use crate::role::DeniedView;
use crate::sealed_cache::ServedSurface;
use crate::template;
use crate::template::DataView;
use crate::text;
use crate::time;
use crate::time::UtcTime;
use vstd::prelude::*;
use vstd::utf8::*;

verus! {

/// What an admitted request comes to.
pub open spec fn outcome(
    surface: ServedSurface,
    admitted: Admitted,
    enrolled: EnrolledRead,
    role: Option<Seq<char>>,
    now: UtcTime,
) -> Result<OrderView, DenyView> {
    assume_role::assume_outcome(
        assume_role::surface_view(surface),
        http::cleared_view(admitted.cleared),
        (admitted.sub@, admitted.cnf@, admitted.epoch),
        enrolled,
        role,
        now,
    )
}

/// The order `o` is what the request comes to.
pub open spec fn grants(
    surface: ServedSurface,
    admitted: Admitted,
    enrolled: EnrolledRead,
    role: Option<Seq<char>>,
    now: UtcTime,
    o: MintOrder,
) -> bool {
    &&& assume_role::grant_fits(
        surface.seal@.intent,
        admitted.cleared.primary@.caveats,
        (admitted.sub@, admitted.cnf@, admitted.epoch),
        enrolled,
        role,
        now,
    )
    &&& outcome(surface, admitted, enrolled, role, now) matches Ok(v)
    &&& assume_role::ordered_as(o, v)
}

/// An order is for the role that was asked for and that the credential
/// names, under the audience that is sealed, and for a subject that is
/// enrolled under the credential's key at its epoch.
pub proof fn law_order_is_for_the_bearer(
    surface: ServedSurface,
    admitted: Admitted,
    enrolled: EnrolledRead,
    role: Option<Seq<char>>,
    now: UtcTime,
    o: MintOrder,
)
    requires
        grants(surface, admitted, enrolled, role, now, o),
    ensures
        ({
            let c = admitted.cleared.primary@.caveats;
            &&& role == Some(o.role@)
            &&& surface.seal@.intent.roles.contains_key(o.role@)
            &&& caveat::resolved(c, name::ROLE@) == ResolvedView::Value(o.role@)
            &&& caveat::resolved(c, name::AUD@) == ResolvedView::Value(surface.seal@.intent.audience)
            &&& caveat::resolved(c, name::SUB@) is Value
            &&& enrolled matches EnrolledRead::Found { pubkey, rev_epoch }
            &&& pubkey@ == admitted.cnf@
            &&& rev_epoch == admitted.epoch
        }),
{
}

/// The lifetime that is ordered is all of the sealed one, or all that is
/// left until the credential's deadline, and is beyond neither.
pub proof fn law_lifetime_is_the_tighter_bound(
    surface: ServedSurface,
    admitted: Admitted,
    enrolled: EnrolledRead,
    role: Option<Seq<char>>,
    now: UtcTime,
    o: MintOrder,
)
    requires
        grants(surface, admitted, enrolled, role, now, o),
    ensures
        ({
            let sealed = surface.seal@.intent.roles[o.role@].default_ttl_seconds;
            &&& caveat::bound_of(admitted.cleared.primary@.caveats, name::EXP@) matches Some(exp)
            &&& now.unix() < exp
            &&& o.ttl_seconds <= sealed
            &&& now.unix() + o.ttl_seconds <= exp
            &&& o.ttl_seconds == sealed || now.unix() + o.ttl_seconds == exp
        }),
{
}

/// The policy that is ordered ends with the grant: its template is rendered
/// with the instant of the request plus the lifetime, and with the sealed
/// environment, the caveats and the attested values of this bundle.
pub proof fn law_policy_ends_with_the_grant(
    surface: ServedSurface,
    admitted: Admitted,
    enrolled: EnrolledRead,
    role: Option<Seq<char>>,
    now: UtcTime,
    o: MintOrder,
)
    requires
        grants(surface, admitted, enrolled, role, now, o),
    ensures
        ({
            let data = DataView {
                env: surface.env.texts(),
                attested_names: surface.seal@.intent.roles[o.role@].attested,
                discharge_caveats: caveat::chain(admitted.cleared.discharge_caveats@),
                caveats: admitted.cleared.primary@.caveats,
                expiry: time::rfc3339_text((now.seconds + o.ttl_seconds) as i64, now.nanos),
            };
            &&& now.seconds + o.ttl_seconds <= i64::MAX
            &&& outcome(surface, admitted, enrolled, role, now)->Ok_0.expiry.seconds == now.seconds
                + o.ttl_seconds
            &&& outcome(surface, admitted, enrolled, role, now)->Ok_0.expiry.nanos == now.nanos
            &&& surface.templates@.contains_key(o.role@)
            &&& json::json_of(encode_utf8(surface.templates@[o.role@])) matches Some(doc)
            &&& template::fill_doc(data, doc) matches Ok(out)
            &&& o.policy@ == json::json_text(out)
        }),
{
}

/// The policy is named for the role, for the attested values and for the
/// instant that the grant ends, in this order, with eight hexadecimal digits
/// behind.
pub proof fn law_policy_name_tells_the_grant(
    surface: ServedSurface,
    admitted: Admitted,
    enrolled: EnrolledRead,
    role: Option<Seq<char>>,
    now: UtcTime,
    o: MintOrder,
) -> (r: (Option<Seq<char>>, Seq<char>))
    requires
        grants(surface, admitted, enrolled, role, now, o),
    ensures
        ({
            let (scope, tail) = r;
            let names = surface.seal@.intent.roles[o.role@].attested;
            let attested = caveat::chain(admitted.cleared.discharge_caveats@);
            &&& o.policy_name@ == "mint_"@ + iam::fit_role(o.role@, scope) + "_"@ + iam::fit_scope(
                o.role@,
                scope,
            ) + "_"@ + time::compact_text((now.seconds + o.ttl_seconds) as i64) + "_"@ + tail
            &&& tail.len() == 8
            &&& names.len() == 0 ==> scope is None
            &&& names.len() == 1 ==> (scope matches Some(v) && caveat::resolved(attested, names[0])
                == ResolvedView::Value(v))
            &&& names.len() > 1 ==> (scope matches Some(v) && exists|values: Seq<Seq<char>>|
                #[trigger] values_of_names(attested, names, values) && v == text::joined(
                    values,
                    "-"@,
                ))
        }),
{
    let v = outcome(surface, admitted, enrolled, role, now)->Ok_0;
    let names = surface.seal@.intent.roles[o.role@].attested;
    let attested = caveat::chain(admitted.cleared.discharge_caveats@);
    let nonce = choose|nonce: u32|
        o.policy_name@ == #[trigger] iam::name_text(
            iam::fit_role(v.role, v.scope),
            iam::fit_scope(v.role, v.scope),
            time::compact_text(v.expiry.seconds),
            nonce,
        );
    let values = names.map_values(|n: Seq<char>| template::single(attested, n)->0);
    assert forall|i: int| 0 <= i < names.len() implies caveat::resolved(
        attested,
        #[trigger] names[i],
    ) == ResolvedView::Value(values[i]) by {
        assert(template::single(attested, names[i]) is Some);
    }
    assert(values_of_names(attested, names, values));
    if names.len() == 1 {
        assert(values.len() == 1);
        assert(text::joined(values, "-"@) == values[0]);
    }
    (v.scope, text::hex_of(crate::bytes::be32(nonce)))
}

/// The values that the names resolve to.
pub open spec fn values_of_names(
    c: Seq<CaveatView>,
    names: Seq<Seq<char>>,
    values: Seq<Seq<char>>,
) -> bool {
    &&& values.len() == names.len()
    &&& forall|i: int|
        0 <= i < names.len() ==> caveat::resolved(c, #[trigger] names[i]) == ResolvedView::Value(
            values[i],
        )
}

/// Nothing is ordered unless the sealed contract is met: each declared name
/// has one value, the attested ones from the discharges and the others from
/// the credential.
pub proof fn law_contract_is_met(
    surface: ServedSurface,
    admitted: Admitted,
    enrolled: EnrolledRead,
    role: Option<Seq<char>>,
    now: UtcTime,
    o: MintOrder,
    n: Seq<char>,
)
    requires
        grants(surface, admitted, enrolled, role, now, o),
    ensures
        surface.seal@.intent.roles[o.role@].attested.contains(n) ==> caveat::resolved(
            caveat::chain(admitted.cleared.discharge_caveats@),
            n,
        ) is Value,
        surface.seal@.intent.roles[o.role@].caveat.contains(n) ==> caveat::resolved(
            admitted.cleared.primary@.caveats,
            n,
        ) is Value,
{
    let sealed = surface.seal@.intent.roles[o.role@];
    let c = admitted.cleared.primary@.caveats;
    let attested = caveat::chain(admitted.cleared.discharge_caveats@);
    if sealed.attested.contains(n) {
        let i = choose|i: int| 0 <= i < sealed.attested.len() && sealed.attested[i] == n;
        assert(template::single(attested, sealed.attested[i]) is Some);
    }
    if sealed.caveat.contains(n) {
        let i = choose|i: int| 0 <= i < sealed.caveat.len() && sealed.caveat[i] == n;
        assert(template::single(c, sealed.caveat[i]) is Some);
    }
}

/// A grant is owed: the bearer of an unexpired credential for a sealed role,
/// who is enrolled under its key at its epoch and meets the contract, is
/// granted the role wherever its template renders.
pub proof fn law_grant_is_owed(
    surface: ServedSurface,
    admitted: Admitted,
    enrolled: EnrolledRead,
    role: Seq<char>,
    exp: u64,
    now: UtcTime,
)
    requires
        enrolled matches EnrolledRead::Found { pubkey, rev_epoch } && pubkey@ == admitted.cnf@
            && rev_epoch == admitted.epoch,
        surface.seal@.intent.roles.contains_key(role),
        surface.templates@.contains_key(role),
        ({
            let c = admitted.cleared.primary@.caveats;
            let attested = caveat::chain(admitted.cleared.discharge_caveats@);
            let sealed = surface.seal@.intent.roles[role];
            &&& caveat::resolved(c, name::SUB@) is Value
            &&& caveat::resolved(c, name::AUD@) == ResolvedView::Value(surface.seal@.intent.audience)
            &&& caveat::resolved(c, name::ROLE@) == ResolvedView::Value(role)
            &&& caveat::bound_of(c, name::EXP@) == Some(exp)
            &&& now.unix() < exp
            &&& forall|n: Seq<char>| #[trigger]
                sealed.attested.contains(n) ==> caveat::resolved(attested, n) is Value
            &&& forall|n: Seq<char>| #[trigger]
                sealed.caveat.contains(n) ==> caveat::resolved(c, n) is Value
            &&& json::json_of(encode_utf8(surface.templates@[role])) is Some
            &&& forall|expiry: Seq<char>|
                (#[trigger] template::fill_doc(
                    DataView {
                        env: surface.env.texts(),
                        attested_names: sealed.attested,
                        discharge_caveats: attested,
                        caveats: c,
                        expiry,
                    },
                    json::json_of(encode_utf8(surface.templates@[role]))->0,
                )) is Ok
        }),
    ensures
        outcome(surface, admitted, enrolled, Some(role), now) is Ok,
{
    let c = admitted.cleared.primary@.caveats;
    let attested = caveat::chain(admitted.cleared.discharge_caveats@);
    let sealed = surface.seal@.intent.roles[role];
    assert(assume_role::all_valued(sealed.attested, attested)) by {
        assert forall|i: int| 0 <= i < sealed.attested.len() implies template::single(
            attested,
            #[trigger] sealed.attested[i],
        ) is Some by {
            assert(sealed.attested.contains(sealed.attested[i]));
        }
    }
    assert(assume_role::all_valued(sealed.caveat, c)) by {
        assert forall|i: int| 0 <= i < sealed.caveat.len() implies template::single(
            c,
            #[trigger] sealed.caveat[i],
        ) is Some by {
            assert(sealed.caveat.contains(sealed.caveat[i]));
        }
    }
    super::chains::law_a_bound_is_the_least_held(c, name::EXP@);
    super::chains::law_a_name_resolves_to_what_is_held(c, name::EXP@);
}

/// What is refused to a bearer in good standing: the service is unavailable
/// only where the role has no template; all else is the request's fault.
pub proof fn law_refusals_are_the_requests_fault(
    surface: ServedSurface,
    admitted: Admitted,
    enrolled: EnrolledRead,
    role: Option<Seq<char>>,
    now: UtcTime,
)
    requires
        enrolled matches EnrolledRead::Found { pubkey, rev_epoch } && pubkey@ == admitted.cnf@
            && rev_epoch == admitted.epoch,
    ensures
        outcome(surface, admitted, enrolled, role, now) matches Err(d) ==> {
            &&& d.kind == Refused::Unavailable || d.kind == Refused::BadRequest
            &&& d.kind == Refused::Unavailable ==> role is Some
                && !surface.templates@.contains_key(role->0)
            &&& d.outcome is Some
        },
        role is None ==> outcome(surface, admitted, enrolled, role, now) is Err,
{
}

/// The reply to a grant hands out the keypair: the identifier under its own
/// name and the secret under its own.
pub proof fn law_keypair_is_handed_out(id: Seq<char>, secret: Seq<char>)
    ensures
        json::str_field(Some(assume_role::keypair_doc(id, secret)), "access_key_id"@) == Some(id),
        json::str_field(Some(assume_role::keypair_doc(id, secret)), "secret_access_key"@) == Some(
            secret,
        ),
{
    let entries = assume_role::keypair_doc(id, secret)->Object_0;
    reveal_strlit("access_key_id");
    reveal_strlit("secret_access_key");
    assert("access_key_id"@[0] != "secret_access_key"@[0]);
    json::lemma_entry(entries, "access_key_id"@, 0);
    json::lemma_entry(entries, "secret_access_key"@, 1);
}

/// What a role grants, decided from the credential alone: each refusal has
/// its cause, and the lifetime is exact.
pub proof fn law_each_denial_has_its_cause(
    sealed: crate::seal::Intent,
    c: Seq<CaveatView>,
    role: Seq<char>,
    now_unix: u64,
)
    ensures
        match role::decision(sealed, c, role, now_unix) {
            Ok(t) => {
                &&& sealed.roles.contains_key(role)
                &&& caveat::resolved(c, name::SUB@) is Value
                &&& caveat::resolved(c, name::AUD@) == ResolvedView::Value(sealed.audience)
                &&& caveat::resolved(c, name::ROLE@) == ResolvedView::Value(role)
                &&& caveat::bound_of(c, name::EXP@) matches Some(e)
                &&& t <= sealed.roles[role].default_ttl_seconds
                &&& now_unix + t <= e
                &&& t == sealed.roles[role].default_ttl_seconds || now_unix + t == e
            },
            Err(DeniedView::UnknownRole) => !sealed.roles.contains_key(role),
            Err(DeniedView::WrongAudience) => caveat::resolved(c, name::AUD@) matches
                ResolvedView::Value(a) && a != sealed.audience,
            Err(DeniedView::RoleNotPermitted) => caveat::resolved(c, name::ROLE@)
                != ResolvedView::Value(role),
            Err(DeniedView::MissingRequiredCaveat(n)) => (n == name::SUB@ || n == name::AUD@ || n
                == name::EXP@) && caveat::resolved(c, n) is Absent,
            Err(DeniedView::UnsatisfiableCaveat(n)) => (n == name::SUB@ || n == name::AUD@)
                && caveat::resolved(c, n) is Unsatisfiable,
            Err(DeniedView::Expired) => caveat::bound_of(c, name::EXP@) matches Some(e) ==> e
                <= now_unix,
        },
{
}

} // verus!
