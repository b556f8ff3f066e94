//! What can go wrong when a browser version is read or resolved.

use vstd::prelude::*;

verus! {

/// Why a version could not be read or resolved. Each variant carries the text
/// that was rejected, or, for `ResolveFailed`, a description of the failure.
#[derive(Debug)]
pub enum VersionError {
    /// The text is no revision, channel or version.
    InvalidVersion(String),
    /// The text is no revision, or no known build has that revision.
    InvalidRevision(String),
    /// The text is no version, or no known build has that version.
    InvalidBuild(String),
    /// The text names no release channel.
    InvalidChannel(String),
    /// The metadata needed to resolve the version could not be had, or the
    /// kind of browser does not offer such a version.
    ResolveFailed(String),
}

impl VersionError {
    /// A one-line description of the error.
    pub fn to_string(&self) -> (r: String)
        ensures
            r@ == match *self {
                VersionError::InvalidVersion(t) => "Invalid version: "@ + t@,
                VersionError::InvalidRevision(t) => "Invalid revision: "@ + t@,
                VersionError::InvalidBuild(t) => "Invalid build: "@ + t@,
                VersionError::InvalidChannel(t) => "Invalid channel: "@ + t@,
                VersionError::ResolveFailed(t) => "Failed to resolve version: "@ + t@,
            },
    {
        match self {
            VersionError::InvalidVersion(t) => String::from_str("Invalid version: ").concat(t.as_str()),
            VersionError::InvalidRevision(t) => String::from_str("Invalid revision: ").concat(t.as_str()),
            VersionError::InvalidBuild(t) => String::from_str("Invalid build: ").concat(t.as_str()),
            VersionError::InvalidChannel(t) => String::from_str("Invalid channel: ").concat(t.as_str()),
            VersionError::ResolveFailed(t) => String::from_str("Failed to resolve version: ").concat(
                t.as_str(),
            ),
        }
    }
}

} // verus!
