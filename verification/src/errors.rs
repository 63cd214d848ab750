//! The failures the proxy core can report.

use vstd::prelude::*;

verus! {

/// A failure of the proxy core.
#[derive(Debug, PartialEq, Eq, Clone, Copy, Structural)]
pub enum ProxyError {
    /// The byte stream held no parsable length header.
    FramingError,
    /// A body was not a well-formed message.
    SerializationError,
    /// No workspace target could be resolved during initialization.
    ConfigurationError,
}

impl ProxyError {
    /// The failure in words.
    pub fn message(&self) -> (r: &'static str) {
        match self {
            ProxyError::FramingError => "malformed or missing length header",
            ProxyError::SerializationError => "body is not a well-formed message",
            ProxyError::ConfigurationError => "no solution or project target resolvable",
        }
    }
}

} // verus!
