//! Errors of the relay's operations.

use vstd::prelude::*;

verus! {

/// Why an operation of the relay failed.
#[derive(Debug, Clone, PartialEq, Eq)]
pub enum AppError {
    /// A configuration value or an administrator's input is invalid.
    Config(String),
    /// The request lacks the device token it needs.
    Unauthorized,
    /// The relay itself failed (for instance to store the watchlist).
    Internal(String),
    /// The quote provider failed.
    Provider(String),
    /// The requested symbol is not on the watchlist or has no quote yet.
    NotFound(String),
}

impl AppError {
    /// A provider failure with `message`.
    pub fn provider(message: String) -> (e: AppError)
        ensures
            e == AppError::Provider(message),
    {
        AppError::Provider(message)
    }
}

} // verus!
