//! A named environment and the validation rules its variable mapping must
//! satisfy before it may be launched.

use vstd::prelude::*;

use crate::error::CceError;
use crate::parse::{parse_source, source_map, FileSource, ShellOutcome};
use crate::strutil::has_prefix;
use crate::vars::VarMap;

verus! {

/// Which authentication rule the validator enforces: either of the two
/// credential fields, or the one designated token field alone.
#[derive(Debug, Clone, Copy, PartialEq, Eq, Structural)]
pub enum ValidationPolicy {
    /// At least one of the token field and the key field must be present
    /// and non-empty.
    RequireAnyOfTwo,
    /// The token field alone is mandatory.
    RequireSingleToken,
}

/// The value bound to `k` in `m`, or the empty sequence when `k` is
/// unbound.
pub open spec fn field_of(m: Map<Seq<char>, Seq<char>>, k: Seq<char>) -> Seq<char> {
    if m.contains_key(k) {
        m[k]
    } else {
        Seq::empty()
    }
}

/// Whether `k` is bound to a non-empty value in `m`.
pub open spec fn field_nonempty(m: Map<Seq<char>, Seq<char>>, k: Seq<char>) -> bool {
    m.contains_key(k) && m[k].len() > 0
}

/// The base-URL field is present and non-empty.
pub open spec fn base_url_present(m: Map<Seq<char>, Seq<char>>) -> bool {
    field_nonempty(m, "ANTHROPIC_BASE_URL"@)
}

/// The mapping satisfies the policy's authentication rule.
pub open spec fn auth_ok(m: Map<Seq<char>, Seq<char>>, policy: ValidationPolicy) -> bool {
    match policy {
        ValidationPolicy::RequireAnyOfTwo => field_nonempty(m, "ANTHROPIC_AUTH_TOKEN"@)
            || field_nonempty(m, "ANTHROPIC_API_KEY"@),
        ValidationPolicy::RequireSingleToken => field_nonempty(m, "ANTHROPIC_AUTH_TOKEN"@),
    }
}

/// The base-URL value begins with `http://` or `https://`.
pub open spec fn base_url_well_formed(m: Map<Seq<char>, Seq<char>>) -> bool {
    has_prefix(field_of(m, "ANTHROPIC_BASE_URL"@), "http://"@) || has_prefix(
        field_of(m, "ANTHROPIC_BASE_URL"@),
        "https://"@,
    )
}

/// All validation rules hold of the mapping under the policy.
pub open spec fn validate_ok(m: Map<Seq<char>, Seq<char>>, policy: ValidationPolicy) -> bool {
    base_url_present(m) && auth_ok(m, policy) && base_url_well_formed(m)
}

/// The message of the first validation rule the mapping breaks; rules are
/// checked in order and the first failure wins.
pub open spec fn validate_err_msg(
    m: Map<Seq<char>, Seq<char>>,
    policy: ValidationPolicy,
) -> Seq<char> {
    if !base_url_present(m) {
        "ANTHROPIC_BASE_URL is required"@
    } else if !auth_ok(m, policy) {
        match policy {
            ValidationPolicy::RequireAnyOfTwo => {
                "Either ANTHROPIC_AUTH_TOKEN or ANTHROPIC_API_KEY is required"@
            },
            ValidationPolicy::RequireSingleToken => "ANTHROPIC_AUTH_TOKEN is required"@,
        }
    } else {
        "ANTHROPIC_BASE_URL must be a valid HTTP or HTTPS URL"@
    }
}

/// Check one field for presence with a non-empty value.
fn check_field_nonempty(vars: &VarMap, key: &str) -> (r: bool)
    requires
        vars.wf(),
    ensures
        r == field_nonempty(vars@, key@),
{
    match vars.get(key) {
        Some(v) => !v.as_str().is_empty(),
        None => false,
    }
}

/// Enforce the validation rules on a mapping, in order, first failure
/// wins: the base-URL field must be present and non-empty, the policy's
/// authentication rule must hold, and the base-URL value must begin with
/// `http://` or `https://`.
pub fn validate_with_policy(vars: &VarMap, policy: ValidationPolicy) -> (r: Result<
    (),
    CceError,
>)
    requires
        vars.wf(),
    ensures
        r is Ok <==> validate_ok(vars@, policy),
        r matches Err(e) ==> (e matches CceError::ValidationFailed(msg) && msg@
            == validate_err_msg(vars@, policy)),
{
    if !check_field_nonempty(vars, "ANTHROPIC_BASE_URL") {
        return Err(
            CceError::ValidationFailed(String::from_str("ANTHROPIC_BASE_URL is required")),
        );
    }
    let auth = match policy {
        ValidationPolicy::RequireAnyOfTwo => check_field_nonempty(vars, "ANTHROPIC_AUTH_TOKEN")
            || check_field_nonempty(vars, "ANTHROPIC_API_KEY"),
        ValidationPolicy::RequireSingleToken => check_field_nonempty(vars, "ANTHROPIC_AUTH_TOKEN"),
    };
    if !auth {
        let msg = match policy {
            ValidationPolicy::RequireAnyOfTwo => String::from_str(
                "Either ANTHROPIC_AUTH_TOKEN or ANTHROPIC_API_KEY is required",
            ),
            ValidationPolicy::RequireSingleToken => String::from_str(
                "ANTHROPIC_AUTH_TOKEN is required",
            ),
        };
        return Err(CceError::ValidationFailed(msg));
    }
    let base = match vars.get("ANTHROPIC_BASE_URL") {
        Some(v) => v.as_str(),
        None => "",
    };
    if !(starts_with_http(base) || starts_with_https(base)) {
        return Err(
            CceError::ValidationFailed(
                String::from_str("ANTHROPIC_BASE_URL must be a valid HTTP or HTTPS URL"),
            ),
        );
    }
    Ok(())
}

/// Prefix test against `http://`.
fn starts_with_http(s: &str) -> (r: bool)
    ensures
        r == has_prefix(s@, "http://"@),
{
    crate::strutil::starts_with_str(s, "http://")
}

/// Prefix test against `https://`.
fn starts_with_https(s: &str) -> (r: bool)
    ensures
        r == has_prefix(s@, "https://"@),
{
    crate::strutil::starts_with_str(s, "https://")
}

/// A named, resolved environment: the variable mapping read from its
/// definition file.
#[derive(Debug)]
pub struct Environment {
    /// The environment's identifier, derived from its file's base name.
    pub name: String,
    /// The resolved variable mapping.
    pub env_vars: VarMap,
}

/// A successfully constructed environment: its mapping is well-formed and
/// satisfies the validator under the given policy.
pub open spec fn environment_valid(env: Environment, policy: ValidationPolicy) -> bool {
    env.env_vars.wf() && validate_ok(env.env_vars@, policy)
}

impl Environment {
    /// Validate this environment's mapping under the either-of-two
    /// authentication policy.
    pub fn validate(&self) -> (r: Result<(), CceError>)
        requires
            self.env_vars.wf(),
        ensures
            r is Ok <==> validate_ok(self.env_vars@, ValidationPolicy::RequireAnyOfTwo),
            r matches Err(e) ==> (e matches CceError::ValidationFailed(msg) && msg@
                == validate_err_msg(self.env_vars@, ValidationPolicy::RequireAnyOfTwo)),
    {
        validate_with_policy(&self.env_vars, ValidationPolicy::RequireAnyOfTwo)
    }

    /// Build a validated environment from what was read for its definition
    /// file. Succeeds exactly when the source parses and the resulting
    /// mapping passes validation; parse errors and validation errors are
    /// surfaced unchanged.
    pub fn from_source(name: String, path: &str, src: &FileSource, policy: ValidationPolicy) -> (r:
        Result<Environment, CceError>)
        ensures
            match r {
                Ok(env) => {
                    &&& source_map(*src) matches Some(m)
                    &&& env.env_vars@ == m
                    &&& env.name@ == name@
                    &&& environment_valid(env, policy)
                },
                Err(e) => match source_map(*src) {
                    Some(m) => !validate_ok(m, policy) && (e matches CceError::ValidationFailed(
                        msg,
                    ) && msg@ == validate_err_msg(m, policy)),
                    None => match *src {
                        FileSource::Text(_) => e matches CceError::InvalidFormat(p) && p@
                            == path@,
                        FileSource::ShellDump(o) => e matches CceError::ShellCommandFailed(msg)
                            && msg@ == o.stderr@,
                    },
                },
            },
    {
        let vars = match parse_source(src, path) {
            Ok(vars) => vars,
            Err(e) => {
                return Err(e);
            },
        };
        match validate_with_policy(&vars, policy) {
            Ok(()) => Ok(Environment { name, env_vars: vars }),
            Err(e) => Err(e),
        }
    }

    /// Build a validated environment from a delegated shell's outcome,
    /// under the either-of-two authentication policy.
    pub fn from_shell_output(name: String, outcome: ShellOutcome) -> (r: Result<
        Environment,
        CceError,
    >)
        ensures
            match r {
                Ok(env) => {
                    &&& outcome.success
                    &&& env.env_vars@ == crate::parse::shell_dump_map(outcome.stdout@)
                    &&& env.name@ == name@
                    &&& environment_valid(env, ValidationPolicy::RequireAnyOfTwo)
                },
                Err(e) => if !outcome.success {
                    e matches CceError::ShellCommandFailed(msg) && msg@ == outcome.stderr@
                } else {
                    !validate_ok(
                        crate::parse::shell_dump_map(outcome.stdout@),
                        ValidationPolicy::RequireAnyOfTwo,
                    ) && (e matches CceError::ValidationFailed(msg) && msg@ == validate_err_msg(
                        crate::parse::shell_dump_map(outcome.stdout@),
                        ValidationPolicy::RequireAnyOfTwo,
                    ))
                },
            },
    {
        let src = FileSource::ShellDump(outcome);
        Environment::from_source(name, "", &src, ValidationPolicy::RequireAnyOfTwo)
    }
}

} // verus!
