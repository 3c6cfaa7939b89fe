//! Configuration: what is taken from it, and what is refused.

use crate::caveat::name;
use crate::config;
use crate::config::surface;
use crate::config::{
    AdminCredential, Config, ConfigError, EnvValue, Listener, ListenerView, PolicyRead, RawConfig,
    RawRole, Role, RoleFault, TcpAddr,
};
use crate::json;
use crate::template;
use crate::text;
use vstd::prelude::*;
use vstd::utf8::*;

verus! {

/// A file stands in its directory, unless its path is absolute.
pub proof fn law_files_stand_in_their_directory(dir: Seq<char>, file: Seq<char>)
    ensures
        file.len() > 0 && file[0] == '/' ==> config::joined_path(dir, file) == file,
        !(file.len() > 0 && file[0] == '/') ==> {
            &&& dir.is_prefix_of(config::joined_path(dir, file))
            &&& config::joined_path(dir, file).skip(
                config::joined_path(dir, file).len() - file.len(),
            ) == file
            &&& dir.len() > 0 ==> config::joined_path(dir, file)[config::joined_path(
                dir,
                file,
            ).len() - file.len() - 1] == '/'
            &&& config::joined_path(dir, file).len() <= dir.len() + 1 + file.len()
        },
{
    reveal_strlit("/");
    let p = config::joined_path(dir, file);
    if !(file.len() > 0 && file[0] == '/') {
        assert(p.skip(p.len() - file.len()) =~= file);
    }
}

/// A policy file is a single name in the roles directory: no path leads out
/// of it.
pub proof fn law_policy_files_are_single_names(f: Seq<char>)
    ensures
        config::single_filename(f) <==> f.len() > 0 && !f.contains('/') && f != "."@ && f != ".."@,
{
    text::lemma_find_char_is_first(f, '/');
    if f.contains('/') {
        let i = choose|i: int| 0 <= i < f.len() && f[i] == '/';
        assert(f[i] == '/');
    }
}

/// A role's policy file is the one that is named, or else its own name with
/// `.json` behind.
pub proof fn law_policy_file_follows_the_role(r: RawRole)
    ensures
        r.policy_file matches Some(f) ==> config::policy_file_of(r) == f@,
        r.policy_file is None ==> config::policy_file_of(r) == r.name@ + ".json"@,
{
}

/// A role is taken exactly where its lifetimes are in order and above zero,
/// its policy file is a single name that could be read, its attestation has
/// an authority, and its name is new.
pub proof fn law_role_is_taken(r: RawRole, read: PolicyRead, located: bool, seen: Set<Seq<char>>)
    ensures
        config::role_fault(r, read, located, seen) is None <==> {
            &&& 0 < r.min_ttl_seconds
            &&& r.min_ttl_seconds <= r.default_ttl_seconds
            &&& r.default_ttl_seconds <= r.max_ttl_seconds
            &&& config::single_filename(config::policy_file_of(r))
            &&& read is Text
            &&& r.attestation is Some ==> located
            &&& !seen.contains(r.name@)
        },
        config::role_fault(r, read, located, seen) == Some(RoleFault::Duplicate) ==> seen.contains(
            r.name@,
        ),
        config::role_fault(r, read, located, seen) == Some(RoleFault::NoLocation) ==> r.attestation
            is Some && !located,
        config::role_fault(r, read, located, seen) == Some(RoleFault::BadTtl) <==> !(0
            < r.min_ttl_seconds <= r.default_ttl_seconds <= r.max_ttl_seconds),
{
}

/// A role is as it was authored: its name, its lifetimes, its policy as it
/// was read, its declared names, and the attestation mode that it names, or
/// its own name.
pub proof fn law_role_is_as_authored(
    role: Role,
    r: RawRole,
    read: PolicyRead,
    roles_dir: Seq<char>,
    x: Seq<char>,
)
    requires
        config::role_of(role, r, read, roles_dir),
    ensures
        role.name@ == r.name@,
        role.min_ttl_seconds == r.min_ttl_seconds,
        role.default_ttl_seconds == r.default_ttl_seconds,
        role.max_ttl_seconds == r.max_ttl_seconds,
        read matches PolicyRead::Text(t) && role.policy@ == t@,
        role.policy_path@ == config::joined_path(roles_dir, config::policy_file_of(r)),
        text::texts(role.attested@).contains(x) <==> text::texts(r.template.attested@).contains(x),
        text::texts(role.caveat@).contains(x) <==> text::texts(r.template.caveat@).contains(x),
        text::texts(role.attested@).no_duplicates(),
        text::texts(role.caveat@).no_duplicates(),
        r.attestation is None ==> role.attestation_mode is None,
        r.attestation matches Some(a) ==> (role.attestation_mode matches Some(m) && m@ == (
        match a.mode {
            Some(named) => named@,
            None => r.name@,
        })),
{
    lemma_ascending_distinct(text::texts(role.attested@));
    lemma_ascending_distinct(text::texts(role.caveat@));
}

proof fn lemma_ascending_distinct(s: Seq<Seq<char>>)
    requires
        text::ascending(s),
    ensures
        s.no_duplicates(),
{
    assert forall|i: int, j: int| 0 <= i < s.len() && 0 <= j < s.len() && i != j implies s[i]
        != s[j] by {
        text::lemma_precedes_irreflexive(s[i]);
        if i < j {
            assert(text::precedes(s[i], s[j]));
        } else {
            assert(text::precedes(s[j], s[i]));
        }
    }
}

/// The configured roles are those that were authored, each under its own
/// name.
pub proof fn law_roles_are_those_authored(
    built: Map<Seq<char>, Role>,
    roles: Seq<RawRole>,
    reads: Seq<PolicyRead>,
    roles_dir: Seq<char>,
    j: int,
)
    requires
        config::roles_of(built, roles, reads, roles_dir, roles.len() as int),
    ensures
        0 <= j < roles.len() ==> built.contains_key(roles[j].name@)
            && built[roles[j].name@].policy@ == reads[j]->Text_0@
            && built[roles[j].name@].default_ttl_seconds == roles[j].default_ttl_seconds
            && built[roles[j].name@].name@ == roles[j].name@,
        forall|x: Seq<char>| #[trigger]
            built.contains_key(x) ==> exists|i: int|
                0 <= i < roles.len() && (#[trigger] roles[i]).name@ == x,
{
    if 0 <= j < roles.len() {
        assert(config::names_before(roles, roles.len() as int).contains(roles[j].name@));
        assert(config::role_of(built[roles[j].name@], roles[j], reads[j], roles_dir));
    }
    assert forall|x: Seq<char>| #[trigger] built.contains_key(x) implies exists|i: int|
        0 <= i < roles.len() && (#[trigger] roles[i]).name@ == x by {
        assert(config::names_before(roles, roles.len() as int).contains(x));
    }
}

/// A value of the environment is its text: a string as it stands, an integer
/// in decimal, a truth value by its word; a table or a list is none.
pub proof fn law_values_are_their_text(v: EnvValue)
    ensures
        match v {
            EnvValue::Text(s) => config::scalar_text(v) == Some(s@),
            EnvValue::Float(s) => config::scalar_text(v) == Some(s@),
            EnvValue::Integer(n) => config::scalar_text(v) matches Some(t) && text::read_i64(t)
                == Some(n),
            EnvValue::Boolean(b) => config::scalar_text(v) == Some(
                if b {
                    "true"@
                } else {
                    "false"@
                },
            ),
            EnvValue::NonScalar => config::scalar_text(v) is None,
        },
{
    if let EnvValue::Integer(n) = v {
        if n < 0 {
            let d = text::digits((-n) as nat);
            text::lemma_digits((-n) as nat);
            reveal_strlit("-");
            let t = "-"@ + d;
            assert(t.drop_first() =~= d);
            assert(t[0] == '-');
        } else {
            text::lemma_digits(n as nat);
            text::lemma_read_digits(n as u64);
            assert(text::is_digit(text::digits(n as nat)[0]));
        }
    }
}

/// One listener is chosen: a socket or an address, never both; an empty
/// socket is the default one in the data directory; and without either the
/// default address is bound.
pub proof fn law_one_listener_is_chosen(
    bind: Option<Seq<char>>,
    socket: Option<Seq<char>>,
    data_dir: Seq<char>,
)
    ensures
        config::listener_of(bind, socket, data_dir) is Conflict <==> bind is Some && socket is Some,
        bind is None && socket is None ==> config::listener_of(bind, socket, data_dir)
            == ListenerView::Tcp("127.0.0.1:8085"@),
        socket is None && bind is Some ==> config::listener_of(bind, socket, data_dir)
            == ListenerView::Tcp(bind->0),
        bind is None && socket is Some && socket->0.len() > 0 ==> config::listener_of(
            bind,
            socket,
            data_dir,
        ) == ListenerView::Uds(socket->0),
        bind is None && socket is Some && socket->0.len() == 0 ==> config::listener_of(
            bind,
            socket,
            data_dir,
        ) == ListenerView::Uds(config::joined_path(data_dir, "mint.sock"@)),
{
}

/// A listener is dialled where it listens: a socket by its path, an address
/// by itself, and one that is bound to every interface on the loopback, at
/// the same port.
pub proof fn law_listeners_are_dialled_where_they_listen(l: Listener)
    ensures
        l matches Listener::Uds(p) ==> config::dial_text(l) == "unix:"@ + p@,
        l matches Listener::Tcp(a) ==> config::dial_text(l) == "http://"@ + (if !a.unspecified {
            a.text@
        } else if a.ipv4 {
            "127.0.0.1:"@ + text::digits(a.port as nat)
        } else {
            "[::1]:"@ + text::digits(a.port as nat)
        }),
{
    reveal_strlit("http://");
    reveal_strlit("127.0.0.1:");
    reveal_strlit("[::1]:");
    reveal_strlit("http://127.0.0.1:");
    reveal_strlit("http://[::1]:");
    assert("http://"@ + "127.0.0.1:"@ =~= "http://127.0.0.1:"@);
    assert("http://"@ + "[::1]:"@ =~= "http://[::1]:"@);
    if let Listener::Tcp(a) = l {
        let d = text::digits(a.port as nat);
        assert("http://"@ + ("127.0.0.1:"@ + d) =~= "http://127.0.0.1:"@ + d);
        assert("http://"@ + ("[::1]:"@ + d) =~= "http://[::1]:"@ + d);
    }
}

/// A credential is never shown: what is shown of two that differ in their
/// secrets alone is the same.
pub proof fn law_secrets_are_not_shown(a: AdminCredential, b: AdminCredential)
    requires
        a.access_key_id@ == b.access_key_id@,
        a.session_token is Some <==> b.session_token is Some,
    ensures
        config::redacted(a) == config::redacted(b),
{
}

/// Directories are those that are named, or the default.
pub proof fn law_directories_are_those_named(dir: Option<String>, default: Seq<char>)
    ensures
        dir matches Some(d) ==> config::dir_of(dir, default) == d@,
        dir is None ==> config::dir_of(dir, default) == default,
{
}

/// A configuration is what was written: its audience, its directories, its
/// store and its authorities, with the defaults where nothing is named.
pub proof fn law_configuration_is_what_was_written(
    c: Config,
    raw: RawConfig,
    reads: Seq<PolicyRead>,
    addr: Result<TcpAddr, String>,
    k: Seq<char>,
)
    requires
        config::config_of(c, raw, reads, addr),
    ensures
        c.audience@ == raw.audience@,
        c.data_dir@ == (match raw.data_dir {
            Some(d) => d@,
            None => "mint_data"@,
        }),
        c.roles_dir@ == (match raw.roles_dir {
            Some(d) => d@,
            None => "mint_roles"@,
        }),
        c.store.bucket@ == raw.store.bucket@,
        c.env.texts().contains_key(k) <==> raw.env.map().contains_key(k),
        c.env.texts().contains_key(k) ==> config::scalar_text(raw.env.map()[k]) == Some(
            c.env.texts()[k],
        ),
        raw.auth matches Some(a) ==> (a.location matches Some(l) ==> (c.auth_location matches Some(m)
            && m@ == l@)),
        raw.attestation matches Some(a) ==> (a.location matches Some(l) ==> (
        c.attestation_location matches Some(m) && m@ == l@)),
        raw.auth is None ==> c.auth_location is None && c.demo_auth is None,
        raw.attestation is None ==> c.attestation_location is None && c.demo_attestation is None,
        raw.bind is Some ==> !(raw.socket is Some),
        c.listener is Tcp <==> raw.socket is None,
{
    assert(c.env.texts().dom().contains(k) <==> raw.env.map().dom().contains(k));
}

/// A role can be sealed exactly where its template reads, has no malformed
/// token, refers only to defined values and to the deadline, and uses the
/// names that it declares, each of them and no other, none of them a control
/// name among the attested.
pub proof fn law_sealable_role_keeps_its_contract(r: Role, env: Set<Seq<char>>, k: Seq<char>)
    requires
        surface::sealable_role(r, env),
    ensures
        json::json_of(encode_utf8(r.policy@)) matches Some(d) && template::malformed_of(d).len()
            == 0,
        refers_to(r.policy@, "env"@, k) ==> env.contains(k),
        refers_to(r.policy@, "mint"@, k) ==> k == "expiry"@,
        text::texts(r.attested@).contains(k) <==> refers_to(r.policy@, "attested"@, k),
        text::texts(r.caveat@).contains(k) <==> refers_to(r.policy@, "caveat"@, k),
        text::texts(r.attested@).contains(k) ==> k != name::AUD@ && k != name::EXP@ && k
            != name::SUB@ && k != name::CNF@ && k != name::OP@ && k != name::ROLE@ && k
            != name::EPOCH@ && k != name::INVITE@ && k != name::SCOPE@,
{
    assert(refers_to(r.policy@, "env"@, k) == surface::refers(r.policy@, "env"@, k));
    assert(refers_to(r.policy@, "mint"@, k) == surface::refers(r.policy@, "mint"@, k));
    assert(refers_to(r.policy@, "attested"@, k) == surface::refers(r.policy@, "attested"@, k));
    assert(refers_to(r.policy@, "caveat"@, k) == surface::refers(r.policy@, "caveat"@, k));
    let names = text::texts(r.attested@);
    if names.contains(k) {
        let i = choose|i: int| 0 <= i < names.len() && names[i] == k;
        assert(!name::reserved(names[i]));
    }
}

/// A token of the text is this namespace, a dot and this key.
pub open spec fn refers_to(s: Seq<char>, ns: Seq<char>, key: Seq<char>) -> bool {
    let x = ns + "."@ + key;
    template::tokens(s).contains(x) && template::classify(x) is Some && template::namespace_of(x)
        == ns
}

/// A demo authority listens on its own socket where it is enabled, at the
/// path that is named or the default one in the data directory.
pub proof fn law_demo_authorities_listen_where_enabled(
    enabled: bool,
    socket: Option<String>,
    data_dir: Seq<char>,
    file: Seq<char>,
)
    ensures
        config::demo_socket(enabled, socket, data_dir, file) is Some <==> enabled,
        enabled ==> (socket matches Some(s) ==> config::demo_socket(
            enabled,
            socket,
            data_dir,
            file,
        ) == Some(s@)),
        enabled && socket is None ==> config::demo_socket(enabled, socket, data_dir, file) == Some(
            config::joined_path(data_dir, file),
        ),
{
}

/// A role that is refused is refused by name, with its own fault.
pub proof fn law_refused_role_is_named(
    e: ConfigError,
    r: RawRole,
    roles_dir: Seq<char>,
    f: RoleFault,
)
    requires
        config::role_error(e, r, roles_dir, f),
    ensures
        f == RoleFault::Duplicate ==> (e matches ConfigError::DuplicateRole(n) && n@ == r.name@),
        f == RoleFault::BadTtl ==> (e matches ConfigError::BadTtlBounds { role, .. } && role@
            == r.name@),
        f == RoleFault::NoLocation ==> (e matches ConfigError::AttestationWithoutLocation { role }
            && role@ == r.name@),
        f is ReadFailed ==> (e matches ConfigError::ReadPolicyFile { role, path, source } && role@
            == r.name@ && path@ == config::joined_path(roles_dir, config::policy_file_of(r))
            && source@ == f->ReadFailed_0),
        f == RoleFault::BadName && r.policy_file is Some ==> (
        e matches ConfigError::BadPolicyFileName { role, value } && role@ == r.name@ && value@
            == r.policy_file->0@),
        f == RoleFault::BadName && r.policy_file is None ==> (
        e matches ConfigError::BadDerivedPolicyName { role, value } && role@ == r.name@ && value@
            == config::policy_file_of(r)),
{
}

/// The listener that is taken is the one that is chosen, and an address that
/// does not parse is told.
pub proof fn law_chosen_listener_is_taken(
    r: Result<Listener, ConfigError>,
    l: ListenerView,
    addr: Result<TcpAddr, String>,
)
    requires
        config::listener_result(r, l, addr),
    ensures
        l matches ListenerView::Uds(p) ==> (r matches Ok(Listener::Uds(q)) && q@ == p),
        l is Tcp && addr is Ok ==> r == Ok::<Listener, ConfigError>(Listener::Tcp(addr->Ok_0)),
        l is Tcp && addr is Err ==> r matches Err(ConfigError::BadBindAddr { .. }),
        l is Conflict ==> r == Err::<Listener, ConfigError>(ConfigError::ConflictingListener),
{
}

/// A check of a role passes exactly where the role keeps its contract: its
/// template reads and has no malformed token, every value that it refers to
/// is defined, and the names that it declares are, in order, those that it
/// uses.
pub proof fn law_role_that_keeps_its_contract_is_sealed(
    role: &Role,
    env: &crate::map::NameMap<String>,
    r: Result<(), ConfigError>,
)
    requires
        call_ensures(surface::check_role, (role, env), r),
    ensures
        r is Ok <==> {
            &&& json::json_of(encode_utf8(role.policy@)) matches Some(d)
                && template::malformed_of(d).len() == 0
            &&& forall|k: Seq<char>| #[trigger]
                refers_to(role.policy@, "env"@, k) ==> env.texts().contains_key(k)
            &&& forall|k: Seq<char>| #[trigger]
                refers_to(role.policy@, "mint"@, k) ==> k == "expiry"@
            &&& forall|i: int|
                0 <= i < role.attested@.len() ==> !name::reserved((#[trigger] role.attested@[i])@)
            &&& text::ascending(text::texts(role.attested@))
            &&& text::ascending(text::texts(role.caveat@))
            &&& forall|k: Seq<char>|
                text::texts(role.attested@).contains(k) <==> #[trigger] refers_to(
                    role.policy@,
                    "attested"@,
                    k,
                )
            &&& forall|k: Seq<char>|
                text::texts(role.caveat@).contains(k) <==> #[trigger] refers_to(
                    role.policy@,
                    "caveat"@,
                    k,
                )
        },
{
    let p = role.policy@;
    let dom = env.texts().dom();
    assert forall|ns: Seq<char>, k: Seq<char>|
        #![trigger refers_to(p, ns, k)]
        #![trigger surface::refers(p, ns, k)]
        refers_to(p, ns, k) == surface::refers(p, ns, k) by {}
    let names = text::texts(role.attested@);
    assert forall|i: int| 0 <= i < names.len() implies #[trigger] names[i]
        == role.attested@[i]@ by {}
    if let Err(e) = r {
        surface::lemma_fault_is_not_sealable(e, *role, dom);
    }
    if surface::none_reserved(names) {
        assert forall|i: int| 0 <= i < role.attested@.len() implies !name::reserved(
            (#[trigger] role.attested@[i])@,
        ) by {
            assert(!name::reserved(names[i]));
        }
    }
}

/// A role that cannot be sealed is refused by name, and for a fault that it
/// has.
pub proof fn law_fault_of_a_role_is_its_own(
    role: &Role,
    env: &crate::map::NameMap<String>,
    r: Result<(), ConfigError>,
)
    requires
        call_ensures(surface::check_role, (role, env), r),
    ensures
        match r {
            Ok(_) => true,
            Err(ConfigError::PolicyNotJson { role: n, .. }) => n@ == role.name@ && json::json_of(
                encode_utf8(role.policy@),
            ) is None,
            Err(ConfigError::MalformedPolicyToken { role: n, token }) => n@ == role.name@ && (
            json::json_of(encode_utf8(role.policy@)) matches Some(d) && template::malformed_of(
                d,
            ).contains(token@)),
            Err(ConfigError::UndefinedEnvKey { role: n, key }) => n@ == role.name@ && refers_to(
                role.policy@,
                "env"@,
                key@,
            ) && !env.texts().contains_key(key@),
            Err(ConfigError::UnknownMintKey { role: n, key }) => n@ == role.name@ && refers_to(
                role.policy@,
                "mint"@,
                key@,
            ) && key@ != "expiry"@,
            Err(ConfigError::ReservedAttestedKey { role: n, key }) => n@ == role.name@
                && text::texts(role.attested@).contains(key@) && name::reserved(key@),
            Err(ConfigError::AttestedContractMismatch { role: n, declared, used }) => n@
                == role.name@ && text::texts(declared@) == text::texts(role.attested@)
                && text::texts(used@) != text::texts(declared@) && forall|k: Seq<char>|
                text::texts(used@).contains(k) <==> #[trigger] refers_to(
                    role.policy@,
                    "attested"@,
                    k,
                ),
            Err(ConfigError::CaveatContractMismatch { role: n, declared, used }) => n@
                == role.name@ && text::texts(declared@) == text::texts(role.caveat@)
                && text::texts(used@) != text::texts(declared@) && forall|k: Seq<char>|
                text::texts(used@).contains(k) <==> #[trigger] refers_to(
                    role.policy@,
                    "caveat"@,
                    k,
                ),
            Err(_) => false,
        },
{
    let p = role.policy@;
    assert forall|ns: Seq<char>, k: Seq<char>|
        #![trigger refers_to(p, ns, k)]
        #![trigger surface::refers(p, ns, k)]
        refers_to(p, ns, k) == surface::refers(p, ns, k) by {}
}

/// A configuration can be sealed exactly where each of its roles can, and
/// the first, by name, that cannot is the one that is told.
pub proof fn law_first_unsealable_role_is_told(config: &Config, r: Result<(), ConfigError>)
    requires
        call_ensures(Config::validate_policy_surface, (config,), r),
    ensures
        r is Ok ==> forall|x: Seq<char>| #[trigger]
            config.roles.map().contains_key(x) ==> surface::sealable_role(
                config.roles.map()[x],
                config.env.texts().dom(),
            ),
        r matches Err(e) ==> exists|x: Seq<char>| #[trigger]
            config.roles.map().contains_key(x) && !surface::sealable_role(
                config.roles.map()[x],
                config.env.texts().dom(),
            ) && surface::surface_fault(e, config.roles.map()[x], config.env.texts().dom())
                && forall|y: Seq<char>| #[trigger]
                config.roles.map().contains_key(y) && text::precedes(y, x)
                    ==> surface::sealable_role(config.roles.map()[y], config.env.texts().dom()),
{
    if let Err(e) = r {
        let x = choose|x: Seq<char>| #[trigger] surface::first_fault(e, *config, x);
        surface::lemma_fault_is_not_sealable(
            e,
            config.roles.map()[x],
            config.env.texts().dom(),
        );
        assert(config.roles.map().contains_key(x));
    }
}

} // verus!
