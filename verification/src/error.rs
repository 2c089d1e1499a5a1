//! Errors reported by the optimizer's components.
use vstd::prelude::*;
use serde_json::Error as JsonError;
use std::io::Error as IoError;

verus! {

/// The error type of a JSON (de)serialisation, carried by [`Error::Serialization`].
#[verifier::external_type_specification]
#[verifier::external_body]
pub struct ExJsonError(JsonError);

/// An I/O error, carried by [`Error::Io`].
#[verifier::external_type_specification]
#[verifier::external_body]
pub struct ExIoError(IoError);

/// Errors of optimizer operations.
#[derive(Debug)]
pub enum Error {
    /// A prediction model failed.
    Prediction(String),
    /// A model was trained on fewer samples than it needs.
    InsufficientData { required: usize, actual: usize },
    /// A configuration value is not acceptable.
    InvalidConfig(String),
    /// A tier could not be resized.
    TierSizing(String),
    /// A coherence protocol failed.
    Coherence(String),
    /// An I/O operation failed.
    Io(IoError),
    /// Serialisation or deserialisation failed.
    Serialization(JsonError),
    /// Any other failure.
    Generic(String),
}

/// Result type of optimizer operations.
pub type Result<T> = std::result::Result<T, Error>;

} // verus!
