//! Crate-wide error type for lifecycle and configuration failures.

use vstd::prelude::*;
use vstd::string::StringExecFns;

verus! {

/// Coarse classification of an error, mirroring the distinctions callers
/// rely on: "not found" is a normal absent state, "invalid input" is a
/// configuration problem, everything process-related is "other".
#[derive(Debug, Clone, Copy, PartialEq, Eq, Structural)]
pub enum ErrorKind {
    NotFound,
    PermissionDenied,
    InvalidInput,
    Other,
}

/// Library-wide error capturing I/O, configuration, and per-service
/// process lifecycle failures.
#[derive(Debug, Clone)]
pub enum AppError {
    /// An underlying I/O operation failed; the kind preserves the
    /// classification of the original failure.
    Io { kind: ErrorKind, message: String },
    /// Configuration or environment issue that prevents command execution.
    ConfigError(String),
    /// Process lifecycle failure tied to a specific managed service.
    ProcessError { service: String, message: String },
}

impl AppError {
    pub open spec fn kind_spec(&self) -> ErrorKind {
        match self {
            AppError::Io { kind, .. } => *kind,
            AppError::ConfigError(_) => ErrorKind::InvalidInput,
            AppError::ProcessError { .. } => ErrorKind::Other,
        }
    }

    pub fn config_error(message: &str) -> (r: Self)
        ensures
            r matches AppError::ConfigError(m) && m@ == message@,
    {
        AppError::ConfigError(String::from_str(message))
    }

    pub fn process_error(service: &str, message: &str) -> (r: Self)
        ensures
            r matches AppError::ProcessError { service: s, message: m } && s@ == service@
                && m@ == message@,
    {
        AppError::ProcessError {
            service: String::from_str(service),
            message: String::from_str(message),
        }
    }

    /// Classification used by callers that branch on the failure class.
    pub fn kind(&self) -> (r: ErrorKind)
        ensures
            r == self.kind_spec(),
    {
        match self {
            AppError::Io { kind, .. } => *kind,
            AppError::ConfigError(_) => ErrorKind::InvalidInput,
            AppError::ProcessError { .. } => ErrorKind::Other,
        }
    }
}

} // verus!
