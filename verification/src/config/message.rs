//! The messages of configuration errors.

use crate::config::ConfigError;
use crate::seal;
use crate::template;
use crate::text;
use vstd::prelude::*;

verus! {

/// The message of a configuration error.
pub open spec fn message_of(e: ConfigError) -> Seq<char> {
    match e {
        ConfigError::Io(m) => "read config: "@ + m@,
        ConfigError::Toml(m) => "parse config: "@ + m@,
        ConfigError::DuplicateRole(role) => "duplicate role name: "@ + role@,
        ConfigError::BadTtlBounds { role, field } => "role "@ + role@ + ": "@ + field@
            + " must be > 0 and min <= default <= max"@,
        ConfigError::BadPolicyFileName { role, value } => "role "@ + role@ + ": policy_file "@
            + template::quoted(value@)
            + " must be a single filename (no path separators, no '.' or '..', not absolute)"@,
        ConfigError::BadDerivedPolicyName { role, value } => "role "@ + role@
            + ": derived policy filename "@ + template::quoted(value@)
            + " is not a single filename \u{2014} set an explicit policy_file or rename the role"@,
        ConfigError::ReadPolicyFile { role, path, source } => "role "@ + role@
            + ": read policy_file "@ + path@ + ": "@ + source@,
        ConfigError::ConflictingListener =>
            "bind and socket are mutually exclusive \u{2014} set one (TCP) or the other (UDS), not both"@,
        ConfigError::BadBindAddr { value, source } => "bind "@ + template::quoted(value@)
            + " is not a valid host:port: "@ + source@,
        ConfigError::NonScalarEnv { key } => "[env] key "@ + template::quoted(key@)
            + " is not a scalar (string, integer, float, or boolean)"@,
        ConfigError::DemoAttestationWithoutDemoAuth =>
            "[attestation.demo] enabled = true requires [auth.demo] enabled = true (the issuer is gated on the demo login session)"@,
        ConfigError::AttestationWithoutLocation { role } => "role "@ + role@
            + ": declares [role.attestation] but no [attestation].location is configured to discharge it"@,
        ConfigError::UndefinedEnvKey { role, key } => "role "@ + role@
            + ": template references env."@ + key@ + " but [env] has no such key"@,
        ConfigError::PolicyNotJson { role, source } => "role "@ + role@
            + ": policy template is not valid JSON: "@ + source@,
        ConfigError::MalformedPolicyToken { role, token } => "role "@ + role@
            + ": policy template has a malformed substitution "@ + token@,
        ConfigError::UnknownMintKey { role, key } => "role "@ + role@
            + ": template references mint."@ + key@
            + ", which is not a mint-computed value"@,
        ConfigError::AttestedContractMismatch { role, declared, used } => "role "@ + role@
            + ": declared attested names "@ + seal::quoted_list(text::texts(declared@))
            + " do not match the template's {{attested.X}} tokens "@ + seal::quoted_list(
            text::texts(used@),
        ),
        ConfigError::ReservedAttestedKey { role, key } => "role "@ + role@
            + ": declared attested name "@ + template::quoted(key@)
            + " collides with a reserved control-caveat name"@,
        ConfigError::CaveatContractMismatch { role, declared, used } => "role "@ + role@
            + ": declared caveat names "@ + seal::quoted_list(text::texts(declared@))
            + " do not match the template's {{caveat.X}} tokens "@ + seal::quoted_list(
            text::texts(used@),
        ),
    }
}

fn on_role(role: &str, rest: &str) -> (r: String)
    ensures
        r@ == "role "@ + role@ + rest@,
{
    let mut m = text::owned("role ");
    m.push_str(role);
    m.push_str(rest);
    m
}

impl ConfigError {
    /// The message for the operator.
    pub fn message(&self) -> (r: String)
        ensures
            r@ == message_of(*self),
    {
        match self {
            ConfigError::Io(m) => text::concat("read config: ", m.as_str()),
            ConfigError::Toml(m) => text::concat("parse config: ", m.as_str()),
            ConfigError::DuplicateRole(role) => text::concat(
                "duplicate role name: ",
                role.as_str(),
            ),
            ConfigError::BadTtlBounds { role, field } => {
                let mut m = on_role(role.as_str(), ": ");
                m.push_str(field.as_str());
                m.push_str(" must be > 0 and min <= default <= max");
                m
            },
            ConfigError::BadPolicyFileName { role, value } => {
                let mut m = on_role(role.as_str(), ": policy_file ");
                m.push_str(template::quote(value.as_str()).as_str());
                m.push_str(
                    " must be a single filename (no path separators, no '.' or '..', not absolute)",
                );
                m
            },
            ConfigError::BadDerivedPolicyName { role, value } => {
                let mut m = on_role(role.as_str(), ": derived policy filename ");
                m.push_str(template::quote(value.as_str()).as_str());
                m.push_str(
                    " is not a single filename \u{2014} set an explicit policy_file or rename the role",
                );
                m
            },
            ConfigError::ReadPolicyFile { role, path, source } => {
                let mut m = on_role(role.as_str(), ": read policy_file ");
                m.push_str(path.as_str());
                m.push_str(": ");
                m.push_str(source.as_str());
                m
            },
            ConfigError::ConflictingListener => text::owned(
                "bind and socket are mutually exclusive \u{2014} set one (TCP) or the other (UDS), not both",
            ),
            ConfigError::BadBindAddr { value, source } => {
                let mut m = text::owned("bind ");
                m.push_str(template::quote(value.as_str()).as_str());
                m.push_str(" is not a valid host:port: ");
                m.push_str(source.as_str());
                m
            },
            ConfigError::NonScalarEnv { key } => {
                let mut m = text::owned("[env] key ");
                m.push_str(template::quote(key.as_str()).as_str());
                m.push_str(" is not a scalar (string, integer, float, or boolean)");
                m
            },
            ConfigError::DemoAttestationWithoutDemoAuth => text::owned(
                "[attestation.demo] enabled = true requires [auth.demo] enabled = true (the issuer is gated on the demo login session)",
            ),
            ConfigError::AttestationWithoutLocation { role } => on_role(
                role.as_str(),
                ": declares [role.attestation] but no [attestation].location is configured to discharge it",
            ),
            ConfigError::UndefinedEnvKey { role, key } => {
                let mut m = on_role(role.as_str(), ": template references env.");
                m.push_str(key.as_str());
                m.push_str(" but [env] has no such key");
                m
            },
            ConfigError::PolicyNotJson { role, source } => {
                let mut m = on_role(role.as_str(), ": policy template is not valid JSON: ");
                m.push_str(source.as_str());
                m
            },
            ConfigError::MalformedPolicyToken { role, token } => {
                let mut m = on_role(
                    role.as_str(),
                    ": policy template has a malformed substitution ",
                );
                m.push_str(token.as_str());
                m
            },
            ConfigError::UnknownMintKey { role, key } => {
                let mut m = on_role(role.as_str(), ": template references mint.");
                m.push_str(key.as_str());
                m.push_str(", which is not a mint-computed value");
                m
            },
            ConfigError::AttestedContractMismatch { role, declared, used } => {
                let mut m = on_role(role.as_str(), ": declared attested names ");
                m.push_str(seal::quote_list(declared).as_str());
                m.push_str(" do not match the template's {{attested.X}} tokens ");
                m.push_str(seal::quote_list(used).as_str());
                m
            },
            ConfigError::ReservedAttestedKey { role, key } => {
                let mut m = on_role(role.as_str(), ": declared attested name ");
                m.push_str(template::quote(key.as_str()).as_str());
                m.push_str(" collides with a reserved control-caveat name");
                m
            },
            ConfigError::CaveatContractMismatch { role, declared, used } => {
                let mut m = on_role(role.as_str(), ": declared caveat names ");
                m.push_str(seal::quote_list(declared).as_str());
                m.push_str(" do not match the template's {{caveat.X}} tokens ");
                m.push_str(seal::quote_list(used).as_str());
                m
            },
        }
    }
}

} // verus!
