//! The error of the codec: it tells which kind of failure occurred and nothing
//! more.

use vstd::prelude::*;
use vstd::string::StringExecFns;

use crate::modifier::ModifierKind;

verus! {

/// The kinds of failure. Each is fatal where it is raised.
#[derive(Copy, Clone, Debug, PartialEq, Eq, Structural)]
pub enum ErrorKind {
    /// A directive list could not be resolved into a configuration.
    Configuration,
    /// An incoming token does not have the shape that the visitor expects.
    Shape,
    /// A value was finished with a required part missing, or an enumeration
    /// string matched no variant.
    Completeness,
}

/// Error type when encoding, decoding or configuration fails.
///
/// It carries no information about what went wrong beyond the kind.
#[derive(Copy, Clone, Debug, PartialEq, Eq, Structural)]
pub struct Error {
    pub kind: ErrorKind,
}

impl Error {
    pub fn configuration() -> (e: Error)
        ensures
            e == (Error { kind: ErrorKind::Configuration }),
    {
        Error { kind: ErrorKind::Configuration }
    }

    pub fn shape() -> (e: Error)
        ensures
            e == (Error { kind: ErrorKind::Shape }),
    {
        Error { kind: ErrorKind::Shape }
    }

    pub fn completeness() -> (e: Error)
        ensures
            e == (Error { kind: ErrorKind::Completeness }),
    {
        Error { kind: ErrorKind::Completeness }
    }

    /// The text shown for any error, whatever its kind.
    pub fn description(&self) -> (text: &'static str)
        ensures
            text@ == "qser error"@,
    {
        "qser error"
    }
}

/// Why a directive list could not be resolved.
#[derive(Copy, Clone, Debug, PartialEq, Eq, Structural)]
pub enum ConfigError {
    /// The directive is not legal for the kind of node it is attached to.
    BadModifier { kind: ModifierKind },
    /// The directive names one target for encoding and another for decoding.
    Conflict { kind: ModifierKind },
    /// The text is not the name of a case.
    InvalidCase,
}

impl ConfigError {
    /// The message of a configuration error.
    pub open spec fn spec_message(&self) -> Seq<char> {
        match self {
            ConfigError::BadModifier { kind } => "bad modifier: "@ + kind.name(),
            ConfigError::Conflict { kind } => "conflicting modifier: "@ + kind.name(),
            ConfigError::InvalidCase => "invalid case"@,
        }
    }

    /// The message of a configuration error: what went wrong, and the kind
    /// of the directive that caused it.
    pub fn message(&self) -> (text: String)
        ensures
            text@ == self.spec_message(),
    {
        match self {
            ConfigError::BadModifier { kind } => {
                String::from_str("bad modifier: ").concat(kind.as_str())
            },
            ConfigError::Conflict { kind } => {
                String::from_str("conflicting modifier: ").concat(kind.as_str())
            },
            ConfigError::InvalidCase => String::from_str("invalid case"),
        }
    }

    /// Every configuration error is an error of kind `Configuration`.
    pub fn to_error(&self) -> (e: Error)
        ensures
            e == (Error { kind: ErrorKind::Configuration }),
    {
        Error::configuration()
    }
}

} // verus!
