use cce::config::{validate_with_policy, Environment, ValidationPolicy};
use cce::error::CceError;
use cce::parse::ShellOutcome;
use cce::vars::VarMap;

fn var_map(pairs: &[(&str, &str)]) -> VarMap {
    let mut m = VarMap::new();
    for (k, v) in pairs {
        m.insert(String::from(*k), String::from(*v));
    }
    m
}

#[test]
fn test_environment_validation() {
    // Test valid environment with ANTHROPIC_AUTH_TOKEN
    let env_vars = var_map(&[
        ("ANTHROPIC_BASE_URL", "https://example.com"),
        ("ANTHROPIC_AUTH_TOKEN", "token"),
    ]);
    let env = Environment { name: String::from("test"), env_vars };
    assert!(env.validate().is_ok());

    // Test valid environment with ANTHROPIC_API_KEY
    let env_vars = var_map(&[
        ("ANTHROPIC_BASE_URL", "https://example.com"),
        ("ANTHROPIC_API_KEY", "key123"),
    ]);
    let env = Environment { name: String::from("test"), env_vars };
    assert!(env.validate().is_ok());

    // Test missing ANTHROPIC_BASE_URL
    let env_vars = var_map(&[]);
    let env = Environment { name: String::from("test"), env_vars };
    assert!(env.validate().is_err());

    // Test missing both authentication tokens
    let env_vars = var_map(&[("ANTHROPIC_BASE_URL", "https://example.com")]);
    let env = Environment { name: String::from("test"), env_vars };
    assert!(env.validate().is_err());

    // Test invalid URL
    let env_vars = var_map(&[
        ("ANTHROPIC_BASE_URL", "invalid-url"),
        ("ANTHROPIC_API_KEY", "key123"),
    ]);
    let env = Environment { name: String::from("test"), env_vars };
    assert!(env.validate().is_err());
}

#[test]
fn test_validation_error_messages() {
    let m = var_map(&[]);
    match validate_with_policy(&m, ValidationPolicy::RequireAnyOfTwo) {
        Err(CceError::ValidationFailed(msg)) => {
            assert_eq!(msg, "ANTHROPIC_BASE_URL is required")
        }
        other => panic!("expected ValidationFailed, got {:?}", other),
    }

    let m = var_map(&[("ANTHROPIC_BASE_URL", "https://x")]);
    match validate_with_policy(&m, ValidationPolicy::RequireAnyOfTwo) {
        Err(CceError::ValidationFailed(msg)) => {
            assert_eq!(msg, "Either ANTHROPIC_AUTH_TOKEN or ANTHROPIC_API_KEY is required")
        }
        other => panic!("expected ValidationFailed, got {:?}", other),
    }

    let m = var_map(&[("ANTHROPIC_BASE_URL", "ftp://x"), ("ANTHROPIC_AUTH_TOKEN", "t")]);
    match validate_with_policy(&m, ValidationPolicy::RequireAnyOfTwo) {
        Err(CceError::ValidationFailed(msg)) => {
            assert_eq!(msg, "ANTHROPIC_BASE_URL must be a valid HTTP or HTTPS URL")
        }
        other => panic!("expected ValidationFailed, got {:?}", other),
    }
}

#[test]
fn test_validation_empty_base_url_rejected() {
    let m = var_map(&[("ANTHROPIC_BASE_URL", ""), ("ANTHROPIC_AUTH_TOKEN", "t")]);
    assert!(validate_with_policy(&m, ValidationPolicy::RequireAnyOfTwo).is_err());
}

#[test]
fn test_validation_http_prefix_accepted() {
    let m = var_map(&[("ANTHROPIC_BASE_URL", "http://local"), ("ANTHROPIC_AUTH_TOKEN", "t")]);
    assert!(validate_with_policy(&m, ValidationPolicy::RequireAnyOfTwo).is_ok());
}

#[test]
fn test_validation_single_token_policy() {
    // The API key alone satisfies the either-of-two policy but not the
    // single-token policy.
    let m = var_map(&[("ANTHROPIC_BASE_URL", "https://x"), ("ANTHROPIC_API_KEY", "k")]);
    assert!(validate_with_policy(&m, ValidationPolicy::RequireAnyOfTwo).is_ok());
    match validate_with_policy(&m, ValidationPolicy::RequireSingleToken) {
        Err(CceError::ValidationFailed(msg)) => {
            assert_eq!(msg, "ANTHROPIC_AUTH_TOKEN is required")
        }
        other => panic!("expected ValidationFailed, got {:?}", other),
    }

    let m = var_map(&[("ANTHROPIC_BASE_URL", "https://x"), ("ANTHROPIC_AUTH_TOKEN", "t")]);
    assert!(validate_with_policy(&m, ValidationPolicy::RequireSingleToken).is_ok());
}

#[test]
fn test_from_shell_output_success() {
    let outcome = ShellOutcome {
        success: true,
        stdout: String::from(
            "ANTHROPIC_BASE_URL=https://api.anthropic.com\nANTHROPIC_AUTH_TOKEN=sk_test_basic_token\nPATH=/usr/bin",
        ),
        stderr: String::new(),
    };
    let env = Environment::from_shell_output(String::from("basic"), outcome).unwrap();
    assert_eq!(env.name, "basic");
    assert_eq!(
        env.env_vars.get("ANTHROPIC_BASE_URL").unwrap().as_str(),
        "https://api.anthropic.com"
    );
    assert_eq!(
        env.env_vars.get("ANTHROPIC_AUTH_TOKEN").unwrap().as_str(),
        "sk_test_basic_token"
    );
}

#[test]
fn test_from_shell_output_failure_carries_diagnostics() {
    let outcome = ShellOutcome {
        success: false,
        stdout: String::new(),
        stderr: String::from("sh: bad substitution"),
    };
    match Environment::from_shell_output(String::from("broken"), outcome) {
        Err(CceError::ShellCommandFailed(msg)) => assert_eq!(msg, "sh: bad substitution"),
        other => panic!("expected ShellCommandFailed, got {:?}", other),
    }
}

#[test]
fn test_error_messages_name_the_cause() {
    let e = CceError::MissingFile(String::from("/cfg/a.env"));
    assert_eq!(e.message(), "Environment file not found: /cfg/a.env");
    let e = CceError::MissingDirectory(String::from("/cfg"));
    assert_eq!(e.message(), "Configuration directory not found: /cfg");
    let e = CceError::InvalidFormat(String::from("/cfg/a.env"));
    assert_eq!(e.message(), "Invalid environment file format: /cfg/a.env");
    let e = CceError::TargetNotFound;
    assert_eq!(e.message(), "Target program not found. Please install it first.");
    let e = CceError::Io(String::from("permission denied"));
    assert_eq!(e.message(), "IO error: permission denied");
}
