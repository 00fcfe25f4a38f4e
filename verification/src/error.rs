//! Error kinds for the environment resolution pipeline.

use vstd::prelude::*;

verus! {

/// Every failure the resolution pipeline can report. Paths are carried as
/// plain strings; `Io` carries the text of an underlying operating-system
/// error that is not otherwise classified.
#[derive(Debug)]
pub enum CceError {
    /// The configuration root exists but is not a directory, or was
    /// required and absent.
    MissingDirectory(String),
    /// A named environment's definition file does not exist.
    MissingFile(String),
    /// A definition file has a line the line-oriented parser rejects;
    /// carries the file's path.
    InvalidFormat(String),
    /// The resolved mapping broke a validation rule; carries a message
    /// naming the offending field.
    ValidationFailed(String),
    /// The delegated shell exited with a non-zero status; carries the
    /// captured diagnostic stream.
    ShellCommandFailed(String),
    /// The target program is not installed.
    TargetNotFound,
    /// Any other launch-time failure.
    ExecutionFailed(String),
    /// An unclassified I/O failure.
    Io(String),
}

impl CceError {
    /// The operator-facing diagnostic text of this error.
    pub open spec fn message_spec(self) -> Seq<char> {
        match self {
            CceError::MissingDirectory(p) => "Configuration directory not found: "@ + p@,
            CceError::MissingFile(p) => "Environment file not found: "@ + p@,
            CceError::InvalidFormat(p) => "Invalid environment file format: "@ + p@,
            CceError::ValidationFailed(m) => "Validation failed: "@ + m@,
            CceError::ShellCommandFailed(m) => "Failed to source environment file: "@ + m@,
            CceError::TargetNotFound => "Target program not found. Please install it first."@,
            CceError::ExecutionFailed(m) => "Failed to execute command: "@ + m@,
            CceError::Io(m) => "IO error: "@ + m@,
        }
    }

    /// Render the diagnostic text for printing to the error stream.
    pub fn message(&self) -> (r: String)
        ensures
            r@ == self.message_spec(),
    {
        match self {
            CceError::MissingDirectory(p) => {
                String::from_str("Configuration directory not found: ").concat(p.as_str())
            },
            CceError::MissingFile(p) => {
                String::from_str("Environment file not found: ").concat(p.as_str())
            },
            CceError::InvalidFormat(p) => {
                String::from_str("Invalid environment file format: ").concat(p.as_str())
            },
            CceError::ValidationFailed(m) => {
                String::from_str("Validation failed: ").concat(m.as_str())
            },
            CceError::ShellCommandFailed(m) => {
                String::from_str("Failed to source environment file: ").concat(m.as_str())
            },
            CceError::TargetNotFound => {
                String::from_str("Target program not found. Please install it first.")
            },
            CceError::ExecutionFailed(m) => {
                String::from_str("Failed to execute command: ").concat(m.as_str())
            },
            CceError::Io(m) => String::from_str("IO error: ").concat(m.as_str()),
        }
    }
}

} // verus!
