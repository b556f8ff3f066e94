//! The ways to name the browser build to download.

use vstd::prelude::*;

pub use self::channel::Channel;
pub use self::error::VersionError;
pub use self::metadata::{KnownGoodVersion, PatchVersion};
pub use self::milestone::Milestone;
pub use self::revision::Revision;
pub use self::version::{Version, VersionNumbers};
use self::channel::channel_named;
use self::revision::revision_number;
use self::version::version_numbers;
use crate::{BrowserKind, BuildInfo};

pub mod channel;
pub mod error;
pub mod metadata;
pub mod milestone;
pub mod revision;
#[allow(clippy::module_inception)]
pub mod version;

verus! {

/// Represents a version of a browser.
///
/// The version can be a channel, a revision, a build, or a milestone.
/// Not all combinations are valid for all browser kinds.
#[derive(Clone, Copy, Debug)]
pub enum BrowserVersion {
    Channel(Channel),
    Revision(Revision),
    Version(Version),
    Milestone(Milestone),
}

/// One step on the way from a version to a build: either the build is
/// known, or a list has to be fetched from the given address first.
#[derive(Debug)]
pub enum ResolveStep {
    /// The build is known.
    Done(BuildInfo),
    /// The list at this address decides.
    Fetch(String),
}

/// The chromium revision that is downloaded by default. It is at least as
/// recent as the protocol that the client speaks, and has builds for all
/// platforms.
pub const CURRENT_CHROMIUM_REVISION: u32 = 1520176;

impl BrowserVersion {
    /// The version that is downloaded where none is asked for.
    pub fn current(kind: BrowserKind) -> (r: Self)
        ensures
            match kind {
                BrowserKind::Chromium => r matches BrowserVersion::Revision(rev) && rev.value()
                    == CURRENT_CHROMIUM_REVISION,
                _ => r matches BrowserVersion::Channel(Channel::Stable),
            },
    {
        // Not all revisions of chromium have builds for all platforms, and the
        // revision should be at least as great as that of the protocol: we
        // stay as close to a stable version of chromium as that allows.
        match kind {
            BrowserKind::Chromium => Self::Revision(Revision::new(CURRENT_CHROMIUM_REVISION)),
            BrowserKind::Chrome => Self::Channel(Channel::Stable),
            BrowserKind::ChromeHeadlessShell => Self::Channel(Channel::Stable),
        }
    }

    /// Reads a revision, else a channel, else a version.
    pub fn from_str(s: &str) -> (r: Result<Self, VersionError>)
        ensures
            match revision_number(s@) {
                Some(n) => r matches Ok(BrowserVersion::Revision(rev)) && rev.value() == n,
                None => match channel_named(s@) {
                    Some(c) => r matches Ok(BrowserVersion::Channel(found)) && found == c,
                    None => match version_numbers(s@) {
                        Some(n) => r matches Ok(BrowserVersion::Version(v)) && v.numbers() == n,
                        None => r matches Err(VersionError::InvalidVersion(t)) && t@ == s@,
                    },
                },
            },
    {
        if let Ok(revision) = Revision::from_str(s) {
            return Ok(Self::Revision(revision));
        }
        if let Ok(channel) = Channel::from_str(s) {
            return Ok(Self::Channel(channel));
        }
        if let Ok(build) = Version::from_str(s) {
            return Ok(Self::Version(build));
        }
        Err(VersionError::InvalidVersion(String::from_str(s)))
    }
}

/// The version that a string denotes: a revision, else a channel, else a
/// version.
pub open spec fn browser_version(s: Seq<char>) -> Option<BrowserVersion> {
    match revision_number(s) {
        Some(n) => Some(BrowserVersion::Revision(Revision::of(n))),
        None => match channel_named(s) {
            Some(c) => Some(BrowserVersion::Channel(c)),
            None => match version_numbers(s) {
                Some(n) => Some(BrowserVersion::Version(Version::of(n))),
                None => None,
            },
        },
    }
}

impl TryFrom<String> for BrowserVersion {
    type Error = VersionError;

    fn try_from(value: String) -> (r: Result<Self, VersionError>) {
        match BrowserVersion::from_str(value.as_str()) {
            Ok(v) => {
                proof {
                    match v {
                        BrowserVersion::Revision(rev) => rev.lemma_of(),
                        BrowserVersion::Version(version) => version.lemma_of(),
                        _ => {},
                    }
                }
                Ok(v)
            },
            Err(_) => Err(VersionError::InvalidVersion(value)),
        }
    }
}

impl vstd::std_specs::convert::TryFromSpecImpl<String> for BrowserVersion {
    open spec fn obeys_try_from_spec() -> bool {
        true
    }

    open spec fn try_from_spec(value: String) -> Result<Self, VersionError> {
        match browser_version(value@) {
            Some(v) => Ok(v),
            None => Err(VersionError::InvalidVersion(value)),
        }
    }
}

impl From<Revision> for BrowserVersion {
    fn from(revision: Revision) -> (r: Self) {
        Self::Revision(revision)
    }
}

impl vstd::std_specs::convert::FromSpecImpl<Revision> for BrowserVersion {
    open spec fn obeys_from_spec() -> bool {
        true
    }

    open spec fn from_spec(revision: Revision) -> Self {
        BrowserVersion::Revision(revision)
    }
}

impl From<Channel> for BrowserVersion {
    fn from(channel: Channel) -> (r: Self) {
        Self::Channel(channel)
    }
}

impl vstd::std_specs::convert::FromSpecImpl<Channel> for BrowserVersion {
    open spec fn obeys_from_spec() -> bool {
        true
    }

    open spec fn from_spec(channel: Channel) -> Self {
        BrowserVersion::Channel(channel)
    }
}

impl From<Version> for BrowserVersion {
    fn from(build: Version) -> (r: Self) {
        Self::Version(build)
    }
}

impl vstd::std_specs::convert::FromSpecImpl<Version> for BrowserVersion {
    open spec fn obeys_from_spec() -> bool {
        true
    }

    open spec fn from_spec(build: Version) -> Self {
        BrowserVersion::Version(build)
    }
}

} // verus!
