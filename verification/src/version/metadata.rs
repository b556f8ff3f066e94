//! The entries of the build lists that the metadata host publishes.

use vstd::prelude::*;

verus! {

/// One build of Chrome for Testing, as the lists of known good versions and
/// of the latest patch per build name it.
#[derive(Debug)]
pub struct KnownGoodVersion {
    /// The full version, such as `113.0.5672.63`.
    pub version: String,
    /// The chromium revision that the build was made from, in decimal.
    pub revision: String,
}

/// The latest patch of one build line: the line, such as `113.0.5672`, and
/// the build that is its latest patch.
#[derive(Debug)]
pub struct PatchVersion {
    /// The build line, without the patch number.
    pub build: String,
    /// The latest build of that line.
    pub latest: KnownGoodVersion,
}

} // verus!
