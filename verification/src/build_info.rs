//! What is known about one build of a browser.

use vstd::prelude::*;

use crate::Revision;
use crate::text::decimal;

verus! {

/// Information about a build of a browser.
#[derive(Clone, Debug)]
pub struct BuildInfo {
    /// The revision of the browser.
    pub revision: Option<Revision>,
    /// The version of the browser.
    pub version: Option<String>,
    /// The ID will uniquely identify the build, it will be either the revision or the version.
    pub id: String,
}

/// The line that describes a build: its id, then the revision and the
/// version as far as they are known.
pub open spec fn describe_build(info: BuildInfo) -> Seq<char> {
    let revision = match info.revision {
        Some(revision) => ", Revision: "@ + decimal(revision.value() as nat),
        None => Seq::empty(),
    };
    let version = match info.version {
        Some(version) => ", Version: "@ + version@,
        None => Seq::empty(),
    };
    "ID: "@ + info.id@ + revision + version
}

impl BuildInfo {
    /// A build known by its revision, which is also its id.
    pub fn revision(revision: Revision) -> (r: Self)
        ensures
            r.revision == Some(revision),
            r.version is None,
            r.id@ == decimal(revision.value() as nat),
    {
        Self { revision: Some(revision), version: None, id: revision.to_string() }
    }

    /// A build known by its version, which is also its id.
    pub fn version(version: String) -> (r: Self)
        ensures
            r.revision is None,
            r.version == Some(version),
            r.id == version,
    {
        Self { revision: None, version: Some(version.clone()), id: version }
    }

    /// A build known by both; the version is its id.
    pub fn both(version: String, revision: Revision) -> (r: Self)
        ensures
            r.revision == Some(revision),
            r.version == Some(version),
            r.id == version,
    {
        Self { revision: Some(revision), version: Some(version.clone()), id: version }
    }

    /// A copy of the build information.
    pub fn duplicate(&self) -> (r: Self)
        ensures
            r == *self,
    {
        let version = match &self.version {
            Some(v) => Some(v.clone()),
            None => None,
        };
        Self { revision: self.revision, version, id: self.id.clone() }
    }

    /// The build on one line, for a person to read.
    pub fn to_string(&self) -> (r: String)
        ensures
            r@ == describe_build(*self),
    {
        let mut out = String::from_str("ID: ");
        out.append(self.id.as_str());
        if let Some(revision) = &self.revision {
            out.append(", Revision: ");
            let text = revision.to_string();
            out.append(text.as_str());
        }
        if let Some(version) = &self.version {
            out.append(", Version: ");
            out.append(version.as_str());
        }
        assert(out@ =~= describe_build(*self));
        out
    }
}

} // verus!
