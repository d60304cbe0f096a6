//! Error taxonomy of the platform.
//!
//! Every variant carries a plain-text diagnostic.  Variants that in the
//! surrounding application wrap an outside crate's error (network, I/O,
//! identifier parsing) carry that error's rendered message here.

use vstd::prelude::*;

verus! {

/// Main error type for platform operations.
#[derive(Debug, Clone)]
pub enum Error {
    InitializationFailed(String),
    Configuration(String),
    DataProcessing(String),
    Network(String),
    Database(String),
    Authentication(String),
    Authorization(String),
    Parsing(String),
    MachineLearning(String),
    Geospatial(String),
    ThreatIntel(String),
    InvalidInput(String),
    NotFound(String),
    Internal(String),
    IO(String),
    Uuid(String),
}

/// Error severity levels.
#[derive(Debug, Clone, Copy, PartialEq, Eq, Structural)]
pub enum ErrorSeverity {
    Critical,
    High,
    Medium,
    Low,
}

impl Error {
    /// Whether a failed operation may sensibly be attempted again.
    pub fn is_retriable(&self) -> (r: bool)
        ensures
            r == (self is Network || self is Database || self is Internal),
    {
        matches!(self, Error::Network(_) | Error::Database(_) | Error::Internal(_))
    }

    /// Severity of the error, used to rank diagnostics.
    pub fn severity(&self) -> (r: ErrorSeverity)
        ensures
            r == self.spec_severity(),
    {
        match self {
            Error::InitializationFailed(_) => ErrorSeverity::Critical,
            Error::Configuration(_) => ErrorSeverity::High,
            Error::Authentication(_) | Error::Authorization(_) => ErrorSeverity::High,
            Error::Network(_) | Error::Database(_) => ErrorSeverity::Medium,
            Error::Parsing(_) | Error::InvalidInput(_) => ErrorSeverity::Low,
            _ => ErrorSeverity::Medium,
        }
    }

    /// Severity assigned to each variant.
    pub open spec fn spec_severity(&self) -> ErrorSeverity {
        match self {
            Error::InitializationFailed(_) => ErrorSeverity::Critical,
            Error::Configuration(_) => ErrorSeverity::High,
            Error::Authentication(_) => ErrorSeverity::High,
            Error::Authorization(_) => ErrorSeverity::High,
            Error::Network(_) => ErrorSeverity::Medium,
            Error::Database(_) => ErrorSeverity::Medium,
            Error::Parsing(_) => ErrorSeverity::Low,
            Error::InvalidInput(_) => ErrorSeverity::Low,
            _ => ErrorSeverity::Medium,
        }
    }
}

} // verus!
