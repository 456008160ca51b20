//! Normalizes heterogeneous descriptions of a project's package requirements
//! (bare package literals, editable paths, requirements files, project
//! manifests) into one resolver-ready specification, and derives pinned-version
//! preferences from a prior lock output.

use vstd::prelude::*;

pub mod aggregate;
pub mod extras;
pub mod lockfile;
pub mod name;
pub mod parsers;
pub mod requirement;
pub mod resolver;
pub mod source;
pub mod strutil;

verus! {

/// A terminal error: the whole resolution pass aborts and no partial
/// specification is ever returned.
#[derive(Debug, Clone)]
pub enum Error {
    /// A malformed source literal or manifest text, naming the offending text.
    ParseError(String),
    /// An invalid package or extra name token.
    NameError(String),
    /// Two distinct explicit primary index URLs were merged, citing both.
    ConflictError(String, String),
    /// An unnamed requirement was coerced into the constraints or overrides role.
    RoleViolationError(String),
    /// No strategy assigned a name to a URL or path requirement.
    NameInferenceError(String),
    /// A manifest or lockfile path was unreadable or absent.
    IoError(String),
    /// A lock entry was not a simple pinned name-and-version requirement.
    PreferenceConversionError(String),
}

/// The error taxonomy with payloads abstracted away; contracts state which
/// kind of error a function returns on which inputs.
pub ghost enum ErrorKind {
    Parse,
    InvalidName,
    Conflict,
    RoleViolation,
    NameInference,
    Io,
    PreferenceConversion,
}

impl Error {
    pub open spec fn kind(&self) -> ErrorKind {
        match self {
            Error::ParseError(_) => ErrorKind::Parse,
            Error::NameError(_) => ErrorKind::InvalidName,
            Error::ConflictError(_, _) => ErrorKind::Conflict,
            Error::RoleViolationError(_) => ErrorKind::RoleViolation,
            Error::NameInferenceError(_) => ErrorKind::NameInference,
            Error::IoError(_) => ErrorKind::Io,
            Error::PreferenceConversionError(_) => ErrorKind::PreferenceConversion,
        }
    }
}

} // verus!
