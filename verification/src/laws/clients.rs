//! What the commands compute.

use crate::caveat;
use crate::caveat::{name, CaveatView, ResolvedView};
use crate::cli;
use crate::client;
use crate::client::narrate;
use crate::client::{CaveatArg, DischargeOrder, OrderBody};
use crate::config;
use crate::config::{Config, Listener, Role};
use crate::crypto;
use crate::http::enroll;
use crate::inventory;
use crate::inventory::Inspection;
use crate::issuance;
use crate::json;
use crate::json::JsonView;
use crate::keyring::KeyringView;
use crate::macaroon;
use crate::macaroon::MacaroonView;
use crate::operator;
use crate::pop;
use crate::seal;
use crate::sealed_cache::CacheState;
use crate::serve;
use crate::serve::AdminServiceFiles;
use crate::text;
use crate::tpc;
use vstd::prelude::*;
use vstd::utf8::*;

verus! {

/// A caveat is given as a name, an equals sign and the rest.
pub proof fn law_caveat_arguments_split_at_the_first_sign(
    n: Seq<char>,
    value: Seq<char>,
    arg: Seq<char>,
)
    ensures
        n.len() > 0 && !n.contains('=') ==> client::split_arg(n + seq!['='] + value) == Some(
            (n, value),
        ),
        client::split_arg(arg) matches Some((k, v)) ==> arg == k + seq!['='] + v && k.len() > 0
            && !k.contains('='),
{
    if n.len() > 0 && !n.contains('=') {
        let s = n + seq!['='] + value;
        let l = n.len() as int;
        assert forall|j: int| 0 <= j < l implies #[trigger] s[j] != '=' by {
            assert(s[j] == n[j]);
        }
        text::lemma_find_char(s, '=', l);
        assert(s.take(l) =~= n);
        assert(s.skip(l + 1) =~= value);
    }
    text::lemma_find_char_is_first(arg, '=');
    if client::split_arg(arg) is Some {
        let i = text::find_char(arg, '=')->0;
        assert(arg =~= arg.take(i) + seq!['='] + arg.skip(i + 1));
    }
}

/// The argument that is told as bad is the first that is.
pub proof fn law_first_bad_argument_is_told(args: Seq<Seq<char>>)
    ensures
        match client::first_bad_arg(args) {
            Some(a) => exists|i: int|
                {
                    &&& 0 <= i < args.len()
                    &&& #[trigger] args[i] == a
                    &&& client::split_arg(a) is None
                    &&& forall|j: int|
                        0 <= j < i ==> client::split_arg(#[trigger] args[j]) is Some
                },
            None => forall|j: int|
                0 <= j < args.len() ==> client::split_arg(#[trigger] args[j]) is Some,
        },
    decreases args.len(),
{
    if args.len() > 0 {
        let t = args.drop_last();
        law_first_bad_argument_is_told(t);
        assert(args[args.len() - 1] == args.last());
        if client::first_bad_arg(t) is Some {
            let a = client::first_bad_arg(t)->0;
            let i = choose|i: int|
                {
                    &&& 0 <= i < t.len()
                    &&& #[trigger] t[i] == a
                    &&& client::split_arg(a) is None
                    &&& forall|j: int| 0 <= j < i ==> client::split_arg(#[trigger] t[j]) is Some
                };
            assert(args[i] == a);
            assert forall|j: int| 0 <= j < i implies client::split_arg(#[trigger] args[j]) is Some by {
                assert(t[j] == args[j]);
            }
        } else {
            assert forall|j: int| 0 <= j < t.len() implies client::split_arg(
                #[trigger] args[j],
            ) is Some by {
                assert(t[j] == args[j]);
            }
        }
    }
}

/// The values by name are the arguments' own, the last where a name is given
/// again.
pub proof fn law_values_are_the_arguments(args: Seq<CaveatArg>, a: CaveatArg, k: Seq<char>)
    ensures
        client::arg_map(args.push(a)).contains_key(a.name@),
        client::arg_map(args.push(a))[a.name@] == a.value@,
        k != a.name@ ==> (client::arg_map(args.push(a)).contains_key(k) <==> client::arg_map(
            args,
        ).contains_key(k)),
        k != a.name@ && client::arg_map(args).contains_key(k) ==> client::arg_map(args.push(a))[k]
            == client::arg_map(args)[k],
        !client::arg_map(Seq::empty()).contains_key(k),
{
    assert(args.push(a).drop_last() =~= args);
    assert(args.push(a).last() == a);
}

/// Narrowing appends the named caveats behind those of the credential, in
/// the order in which they were given.
pub proof fn law_narrowing_appends_what_was_given(m: MacaroonView, args: Seq<CaveatArg>, i: int)
    ensures
        client::arg_caveats(args).len() == args.len(),
        0 <= i < args.len() ==> client::arg_caveats(args)[i] == (CaveatView::FirstParty {
            name: args[i].name@,
            value: args[i].value@,
        }),
        macaroon::extended_by(m, client::arg_caveats(args)).caveats == m.caveats
            + client::arg_caveats(args),
        macaroon::extended_by(m, client::arg_caveats(args)).nonce == m.nonce,
        macaroon::extended_by(m, client::arg_caveats(args)).key_ref == m.key_ref,
{
    lemma_extended_chain(m, client::arg_caveats(args));
}

proof fn lemma_extended_chain(m: MacaroonView, d: Seq<CaveatView>)
    ensures
        macaroon::extended_by(m, d).caveats == m.caveats + d,
        macaroon::extended_by(m, d).nonce == m.nonce,
        macaroon::extended_by(m, d).key_ref == m.key_ref,
    decreases d.len(),
{
    if d.len() > 0 {
        lemma_extended_chain(m, d.drop_last());
        assert((m.caveats + d.drop_last()).push(d.last()) =~= m.caveats + d);
    } else {
        assert(m.caveats + d =~= m.caveats);
    }
}

/// A deadline is so many seconds from now, or the end of time.
pub proof fn law_deadlines_are_capped(now_unix: u64, ttl: u64)
    ensures
        now_unix + ttl <= u64::MAX ==> enroll::capped(now_unix, ttl) == now_unix + ttl,
        now_unix + ttl > u64::MAX ==> enroll::capped(now_unix, ttl) == u64::MAX,
{
}

/// The body of a request to take a role names the role, the lifetime and the
/// time; that of an exchange the role and the time.
pub proof fn law_request_bodies_name_the_role(role: Seq<char>, ttl_seconds: u64, ts: u64)
    ensures
        json::str_field(Some(client::request_doc(role, ttl_seconds, ts)), "role"@) == Some(role),
        json::field(client::request_doc(role, ttl_seconds, ts), "ttl_seconds"@) == Some(
            JsonView::PosInt(ttl_seconds),
        ),
        pop::ts_of(Some(client::request_doc(role, ttl_seconds, ts))) == Ok::<u64, pop::PopReject>(
            ts,
        ),
        json::str_field(Some(client::exchange_doc(role, ts)), "role"@) == Some(role),
        pop::ts_of(Some(client::exchange_doc(role, ts))) == Ok::<u64, pop::PopReject>(ts),
{
    let a = client::request_doc(role, ttl_seconds, ts)->Object_0;
    let b = client::exchange_doc(role, ts)->Object_0;
    reveal_strlit("role");
    reveal_strlit("ts");
    reveal_strlit("ttl_seconds");
    assert("role"@.len() != "ts"@.len());
    assert("role"@.len() != "ttl_seconds"@.len());
    assert("ts"@.len() != "ttl_seconds"@.len());
    json::lemma_entry(a, "role"@, 0);
    json::lemma_entry(a, "ts"@, 1);
    json::lemma_entry(a, "ttl_seconds"@, 2);
    json::lemma_entry(b, "role"@, 0);
    json::lemma_entry(b, "ts"@, 1);
}

/// A discharge is ordered for each third-party caveat, in their order, from
/// its own location and for its own `cid`.
pub proof fn law_each_site_is_ordered(c: Seq<CaveatView>, x: CaveatView)
    ensures
        x is FirstParty ==> client::sites_of(c.push(x)) == client::sites_of(c),
        x matches CaveatView::ThirdParty { location, cid, .. } ==> client::sites_of(c.push(x))
            == client::sites_of(c).push((location, cid)),
        client::sites_of(Seq::empty()).len() == 0,
{
    assert(c.push(x).drop_last() =~= c);
    assert(c.push(x).last() == x);
}

/// An order goes to the path of its location, and asks for this scope or for
/// these values on this `cid`.
pub proof fn law_orders_ask_for_their_own_cid(
    orders: Seq<DischargeOrder>,
    sites: Seq<(Seq<char>, Seq<u8>)>,
    scope: Seq<char>,
    values: Map<Seq<char>, Seq<char>>,
    i: int,
)
    requires
        0 <= i < sites.len(),
    ensures
        client::orders_are(orders, sites, OrderBody::Scope(scope)) ==> {
            &&& orders.len() == sites.len()
            &&& orders[i].location@ == sites[i].0
            &&& tpc::request_path(tpc::uri_path(sites[i].0)) == Some(orders[i].path@)
            &&& orders[i].body@ == json::json_text(
                operator::discharge_doc(crypto::base64url(sites[i].1), scope),
            )
        },
        client::orders_are(orders, sites, OrderBody::Values(values)) ==> {
            &&& orders.len() == sites.len()
            &&& orders[i].location@ == sites[i].0
            &&& tpc::request_path(tpc::uri_path(sites[i].0)) == Some(orders[i].path@)
            &&& orders[i].body@ == "{\"cid\":"@ + json::json_text(
                JsonView::Str(crypto::base64url(sites[i].1)),
            ) + ",\"attested\":"@ + json::json_text(seal::env_doc(values)) + "}"@
        },
{
}

/// A fingerprint is the first eight bytes of the hash of the key's text.
pub proof fn law_fingerprints_are_hashes(cnf: Seq<char>)
    ensures
        client::fingerprint_of(cnf) == text::hex_of(
            crypto::blake3_hash(encode_utf8(cnf)).take(8),
        ),
{
}

/// A long value is shown by its first fourteen bytes and its last eight; a
/// short one as it is.
pub proof fn law_long_values_are_shown_by_their_ends(s: Seq<char>)
    ensures
        encode_utf8(s).len() <= 28 ==> narrate::abbreviated(s) == s,
        encode_utf8(s).len() > 28 ==> narrate::abbreviated(s) == decode_utf8(
            encode_utf8(s).take(14),
        ) + "\u{2026}"@ + decode_utf8(encode_utf8(s).skip(encode_utf8(s).len() - 8)),
{
}

/// A token is told caveat by caveat: a line for each behind the heading, in
/// their order, with its own name and value, or with the location of the
/// authority that has to discharge it.
pub proof fn law_each_caveat_is_told(label: Seq<char>, m: MacaroonView, i: int)
    requires
        0 <= i < m.caveats.len(),
    ensures
        narrate::narration(label, m).len() == m.caveats.len() + 1,
        match m.caveats[i] {
            CaveatView::FirstParty { name: n, value } => ("    "@ + text::padded(n, 10) + " "@
                + narrate::abbreviated(value)).is_prefix_of(narrate::narration(label, m)[i + 1]),
            CaveatView::ThirdParty { location, .. } => ("    "@ + text::padded("tpc"@, 10) + " "@
                + location).is_prefix_of(narrate::narration(label, m)[i + 1]),
        },
{
    let line = narrate::narration(label, m)[i + 1];
    assert(line == narrate::caveat_line(m.caveats[i]));
    match m.caveats[i] {
        CaveatView::FirstParty { name: n, value } => {
            let head = "    "@ + text::padded(n, 10) + " "@ + narrate::abbreviated(value);
            assert(head =~= line.take(head.len() as int));
        },
        CaveatView::ThirdParty { location, .. } => {
            let head = "    "@ + text::padded("tpc"@, 10) + " "@ + location;
            assert(head =~= line.take(head.len() as int));
        },
    }
}

/// The value that a listing shows of a name is that of its first caveat.
pub proof fn law_first_value_is_shown(
    c: Seq<CaveatView>,
    n: Seq<char>,
    v: Seq<char>,
    d: Seq<CaveatView>,
)
    requires
        forall|i: int| 0 <= i < c.len() ==> caveat::value_for(#[trigger] c[i], n) is None,
    ensures
        narrate::first_value(
            c.push(CaveatView::FirstParty { name: n, value: v }) + d,
            n,
        ) == Some(v),
        narrate::first_value(c, n) is None,
{
    let x = CaveatView::FirstParty { name: n, value: v };
    lemma_no_values(c, n);
    caveat::lemma_values_append(c.push(x), d, n);
    assert(c.push(x).drop_last() =~= c);
    assert(c.push(x).last() == x);
}

proof fn lemma_no_values(c: Seq<CaveatView>, n: Seq<char>)
    requires
        forall|i: int| 0 <= i < c.len() ==> caveat::value_for(#[trigger] c[i], n) is None,
    ensures
        caveat::values_of(c, n).len() == 0,
    decreases c.len(),
{
    if c.len() > 0 {
        assert(c[c.len() - 1] == c.last());
        assert forall|i: int| 0 <= i < c.drop_last().len() implies caveat::value_for(
            #[trigger] c.drop_last()[i],
            n,
        ) is None by {
            assert(c.drop_last()[i] == c[i]);
        }
        lemma_no_values(c.drop_last(), n);
    }
}

/// The client dials the socket that it is given, or else the configured one,
/// or else the default; it dials no address.
pub proof fn law_clients_dial_sockets(
    socket: Option<&str>,
    configured: Option<(&str, &Listener)>,
)
    ensures
        socket matches Some(p) ==> cli::client_dial(socket, configured) == Ok::<
            Seq<char>,
            Seq<char>,
        >("unix:"@ + p@),
        socket is None && configured is None ==> cli::client_dial(socket, configured) == Ok::<
            Seq<char>,
            Seq<char>,
        >("unix:"@ + config::joined_path("mint_data"@, "mint.sock"@)),
        socket is None ==> (configured matches Some((_, l)) ==> match *l {
            Listener::Uds(p) => cli::client_dial(socket, configured) == Ok::<Seq<char>, Seq<char>>(
                "unix:"@ + p@,
            ),
            Listener::Tcp(_) => cli::client_dial(socket, configured) is Err,
        }),
{
}

/// A release is shown without its leading `v`; a build that is no release
/// says so.
pub proof fn law_versions_are_shown_bare(manifest: Seq<char>, s: Seq<char>)
    ensures
        cli::version_text(None, manifest) == manifest + "-dev"@,
        cli::without_v(seq!['v'] + s) == cli::without_v(s),
        s.len() > 0 && s[0] != 'v' ==> cli::without_v(s) == s,
{
    assert((seq!['v'] + s).skip(1) =~= s);
}

/// A row shows what is served of a role, where it is served, and else what
/// is configured; and it says which, and whether the two differ.
pub proof fn law_rows_show_what_is_served(c: Config, r: Role, cache: CacheState)
    ensures
        ({
            let row = inventory::row_of(c, r, cache);
            &&& row.name == r.name@
            &&& match cache {
                CacheState::Loaded { seal, templates, .. } if seal@.intent.roles.contains_key(
                    r.name@,
                ) && templates@.contains_key(r.name@) => {
                    let s = seal@.intent.roles[r.name@];
                    &&& row.min == s.min_ttl_seconds
                    &&& row.default == s.default_ttl_seconds
                    &&& row.max == s.max_ttl_seconds
                    &&& row.state == (if s.min_ttl_seconds == r.min_ttl_seconds
                        && s.default_ttl_seconds == r.default_ttl_seconds && s.max_ttl_seconds
                        == r.max_ttl_seconds && s.policy_blake3 == seal::hash_text(
                        encode_utf8(r.policy@),
                    ) && seal@.intent.audience == c.audience@ && seal@.intent.env_blake3
                        == seal::env_hash(c.env.texts()) {
                        "served"@
                    } else {
                        "drifted"@
                    })
                },
                _ => {
                    &&& row.min == r.min_ttl_seconds
                    &&& row.default == r.default_ttl_seconds
                    &&& row.max == r.max_ttl_seconds
                    &&& row.state == "unsealed"@
                },
            }
        }),
{
}

/// An inspection shows the served template where the role is served, and
/// else the local one, behind the role, the bucket and the source.
pub proof fn law_inspection_shows_what_is_served(
    i: Inspection,
    c: Config,
    r: Role,
    n: Seq<char>,
    cache: CacheState,
)
    requires
        inventory::inspected(i, c, r, n, cache),
    ensures
        match cache {
            CacheState::Loaded { seal, templates, .. } if seal@.intent.roles.contains_key(n)
                && templates@.contains_key(n) => i.template@ == templates@[n],
            _ => i.template@ == r.policy@,
        },
        i.notes@.len() > 3,
        i.notes@[0]@ == "role: "@ + r.name@,
        i.notes@[1]@ == "  store.bucket:     "@ + c.store.bucket@,
        i.notes@[2]@ == "  policy source:    "@ + r.policy_path@,
{
    let notes = text::texts(i.notes@);
    let head = inventory::head_lines(c, r);
    assert(notes.len() > 3);
    assert(notes[0] == head[0] && notes[1] == head[1] && notes[2] == head[2]);
    assert(notes[0] == i.notes@[0]@);
    assert(notes[1] == i.notes@[1]@);
    assert(notes[2] == i.notes@[2]@);
}

/// A lifetime that has drifted is shown as it is sealed, with the local one
/// beside it.
pub proof fn law_drifted_bounds_show_both(sealed: u64, local: u64)
    ensures
        sealed == local ==> inventory::bound_text(sealed, local) == text::digits(sealed as nat),
        sealed != local ==> inventory::bound_text(sealed, local) == text::digits(sealed as nat)
            + " (local="@ + text::digits(local as nat) + ")"@,
{
}

/// The files of the admin service are a pair: the key file holds the seed of
/// the key that the token is bound to.
pub proof fn law_admin_files_are_a_pair(
    f: AdminServiceFiles,
    ring: KeyringView,
    k_m_a: Seq<u8>,
    audience: Seq<char>,
    org_id: Seq<char>,
    location: Seq<char>,
) -> (r: (Seq<u8>, MacaroonView))
    requires
        serve::are_admin_files(f, ring, k_m_a, audience, org_id, location),
    ensures
        text::read_hex32(f.key_hex@) == Some(r.0),
        f.token@ == macaroon::token_of(r.1),
        super::issuing::current_of(r.1, ring),
        caveat::resolved(r.1.caveats, name::AUD@) == ResolvedView::Value(audience),
        caveat::resolved(r.1.caveats, name::CNF@) == ResolvedView::Value(
            "ed25519:"@ + crypto::base64(crypto::ed25519_public(r.0)),
        ),
        caveat::resolved(r.1.caveats, name::OP@) is Absent,
{
    let (seed, token) = choose|seed: Seq<u8>, token: MacaroonView| #[trigger]
        serve::is_admin_pair(f, ring, k_m_a, audience, org_id, location, seed, token);
    let cnf = pop::cnf_of(crypto::ed25519_public(seed));
    let r = choose|r: Seq<u8>| #[trigger]
        issuance::minted_gated(
            token,
            ring,
            issuance::admin_caveats(audience, cnf),
            r,
            k_m_a,
            tpc::cid_layout(r, issuance::ADMIN_SERVICE_CLIENT_ID@, org_id),
            location,
        );
    text::lemma_hex32_round_trip(seed);
    super::issuing::law_admin_token_names_no_verb(
        token,
        ring,
        audience,
        cnf,
        r,
        k_m_a,
        tpc::cid_layout(r, issuance::ADMIN_SERVICE_CLIENT_ID@, org_id),
        location,
    );
    (seed, token)
}

/// A holder's key is bound by its text: the scheme and the key in base64.
pub proof fn law_keys_are_bound_by_their_text(key: Seq<u8>, value: Seq<char>)
    ensures
        pop::cnf_of(key) == "ed25519:"@ + crypto::base64(key),
        pop::cnf_key(value) matches Ok(k) ==> k.len() == 32 && "ed25519:"@.is_prefix_of(value),
{
}

/// A row of enrollments shows its own columns: the subject, the state, the
/// fingerprint, the peer and the age, and a mark where its key is anomalous.
pub proof fn law_enrollments_show_their_columns(r: crate::admin::EnrollmentRow)
    ensures
        (text::padded(r.sub@, 28) + " "@ + text::padded(r.state@, 9) + " "@ + text::padded(
            if r.fingerprint@.len() == 0 {
                "-"@
            } else {
                r.fingerprint@
            },
            18,
        ) + " "@ + text::padded(
            match r.peer_ip {
                Some(p) => p@,
                None => "-"@,
            },
            16,
        ) + " "@ + text::aligned(text::digits(r.age_seconds as nat), 7) + " "@).is_prefix_of(
            cli::enrollment_text(r),
        ),
        r.anomalous_pub ==> cli::enrollment_text(r).skip(
            cli::enrollment_text(r).len() - "ANOMALOUS-PUB"@.len(),
        ) == "ANOMALOUS-PUB"@,
{
    let t = cli::enrollment_text(r);
    if r.anomalous_pub {
        assert(t.skip(t.len() - "ANOMALOUS-PUB"@.len()) =~= "ANOMALOUS-PUB"@);
    }
}

/// A role is attested where its configuration says so, and demo authorities
/// run where they are enabled.
pub proof fn law_configured_authorities_are_those_enabled(c: Config, x: Seq<char>)
    ensures
        c.roles.map().contains_key(x) && c.roles.map()[x].attestation_mode is Some
            ==> serve::has_attested_role(c),
        serve::demo_on(c) <==> (c.demo_auth matches Some(d) && d.enabled),
        serve::attest_demo_on(c) <==> (c.demo_attestation matches Some(d) && d.enabled),
{
}

} // verus!
