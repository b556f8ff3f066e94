//! Versions of Chrome, such as `113.0.5672` or `113.0.5672.63`.

use vstd::prelude::*;

use super::error::VersionError;
use super::metadata::PatchVersion;
use super::revision::revision_number;
use super::{ResolveStep, Revision};
use crate::text::{
    chars_of, decimal, dots, find_dots, lemma_dots_ordered, parse_u32_range, parse_u32_spec, piece,
    push_decimal, str_eq,
};
use crate::{BrowserHost, BrowserKind, BuildInfo};

verus! {

/// Represents a version of a browser (e.g. 113.0.5672).
/// The patch is the fourth number; a version without it stands for the
/// latest patch of its build.
#[derive(Clone, Copy, Debug, PartialOrd, Ord, PartialEq, Eq)]
pub struct Version {
    major: u32,
    minor: u32,
    build: u32,
    patch: Option<u32>,
}

/// The four numbers of a version, the last of which may be missing.
pub struct VersionNumbers {
    pub major: u32,
    pub minor: u32,
    pub build: u32,
    pub patch: Option<u32>,
}

/// The numbers that `s` denotes: three or four `u32`s with dots between.
pub open spec fn version_numbers(s: Seq<char>) -> Option<VersionNumbers> {
    let n = dots(s).len() + 1;
    let major = parse_u32_spec(piece(s, 0));
    let minor = parse_u32_spec(piece(s, 1));
    let build = parse_u32_spec(piece(s, 2));
    let patch = parse_u32_spec(piece(s, 3));
    if (n == 3 || n == 4) && major is Some && minor is Some && build is Some && (n == 4
        ==> patch is Some) {
        Some(
            VersionNumbers {
                major: major->0,
                minor: minor->0,
                build: build->0,
                patch: if n == 4 {
                    patch
                } else {
                    None
                },
            },
        )
    } else {
        None
    }
}

/// How a version is written: its numbers in decimal with dots between.
pub open spec fn version_text(v: VersionNumbers) -> Seq<char> {
    let patch = match v.patch {
        Some(patch) => "."@ + decimal(patch as nat),
        None => Seq::empty(),
    };
    decimal(v.major as nat) + "."@ + decimal(v.minor as nat) + "."@ + decimal(v.build as nat)
        + patch
}

/// Where the list of the latest patch of each build is found below the
/// metadata host.
pub open spec fn latest_patch_versions_url(metadata: Seq<char>) -> Seq<char> {
    metadata + "/chrome-for-testing/latest-patch-versions-per-build.json"@
}

/// The index of the first entry of `builds` from `from` on that is for the
/// build line `wanted`, or the length of `builds` if there is none.
pub open spec fn first_with_build(builds: Seq<PatchVersion>, wanted: Seq<char>, from: int) -> int
    decreases builds.len() - from,
{
    if from >= builds.len() {
        builds.len() as int
    } else if builds[from].build@ == wanted {
        from
    } else {
        first_with_build(builds, wanted, from + 1)
    }
}

impl Version {
    /// The numbers of the version.
    pub closed spec fn numbers(self) -> VersionNumbers {
        VersionNumbers { major: self.major, minor: self.minor, build: self.build, patch: self.patch }
    }

    /// The version with these numbers.
    pub closed spec fn of(n: VersionNumbers) -> Version {
        Version { major: n.major, minor: n.minor, build: n.build, patch: n.patch }
    }

    /// A version is the version of its numbers.
    pub proof fn lemma_of(self)
        ensures
            Version::of(self.numbers()) == self,
    {
    }

    /// The version of some numbers has those numbers.
    pub proof fn lemma_numbers(n: VersionNumbers)
        ensures
            Version::of(n).numbers() == n,
    {
    }

    /// A version without a patch number: the latest patch of a build.
    pub fn new(major: u32, minor: u32, build: u32) -> (r: Self)
        ensures
            r.numbers() == (VersionNumbers { major, minor, build, patch: None }),
    {
        Self { major, minor, build, patch: None }
    }

    /// One exact build.
    pub fn exact(major: u32, minor: u32, build: u32, patch: u32) -> (r: Self)
        ensures
            r.numbers() == (VersionNumbers { major, minor, build, patch: Some(patch) }),
    {
        Self { major, minor, build, patch: Some(patch) }
    }

    /// The version in the usual notation.
    pub fn to_string(&self) -> (r: String)
        ensures
            r@ == version_text(self.numbers()),
    {
        let mut out = String::new();
        push_decimal(&mut out, self.major);
        out.append(".");
        push_decimal(&mut out, self.minor);
        out.append(".");
        push_decimal(&mut out, self.build);
        if let Some(patch) = self.patch {
            out.append(".");
            push_decimal(&mut out, patch);
        }
        assert(out@ =~= version_text(self.numbers()));
        out
    }

    /// Reads a version: three or four numbers with dots between.
    pub fn from_str(s: &str) -> (r: Result<Self, VersionError>)
        ensures
            match version_numbers(s@) {
                Some(n) => r matches Ok(v) && v.numbers() == n,
                None => r matches Err(VersionError::InvalidBuild(t)) && t@ == s@,
            },
    {
        let chars = chars_of(s);
        let d = find_dots(&chars);
        proof {
            lemma_dots_ordered(s@);
        }
        if d.len() < 2 || d.len() > 3 {
            return Err(VersionError::InvalidBuild(String::from_str(s)));
        }
        let end = if d.len() == 3 {
            d[2]
        } else {
            chars.len()
        };
        let major = parse_u32_range(&chars, 0, d[0]);
        let minor = parse_u32_range(&chars, d[0] + 1, d[1]);
        let build = parse_u32_range(&chars, d[1] + 1, end);
        let patch = if d.len() == 3 {
            parse_u32_range(&chars, d[2] + 1, chars.len())
        } else {
            None
        };
        match (major, minor, build) {
            (Some(major), Some(minor), Some(build)) => {
                if d.len() == 3 && patch.is_none() {
                    Err(VersionError::InvalidBuild(String::from_str(s)))
                } else {
                    Ok(Version { major, minor, build, patch })
                }
            },
            _ => Err(VersionError::InvalidBuild(String::from_str(s))),
        }
    }

    /// The first step of resolving the version to a build. Chromium has no
    /// builds by version. An exact version names its build. For the latest
    /// patch of a build line the list of latest patches is to be fetched.
    pub fn resolve_start(&self, kind: BrowserKind, host: &BrowserHost) -> (r: Result<
        ResolveStep,
        VersionError,
    >)
        ensures
            match kind {
                BrowserKind::Chromium => r matches Err(VersionError::ResolveFailed(t)) && t@
                    == "Build not supported for chromium"@,
                _ => if self.numbers().patch is Some {
                    r matches Ok(ResolveStep::Done(info)) && info.revision is None && (
                    info.version matches Some(v) && v@ == version_text(self.numbers())) && info.id@
                        == version_text(self.numbers())
                } else {
                    r matches Ok(ResolveStep::Fetch(url)) && url@ == latest_patch_versions_url(
                        host.metadata@,
                    )
                },
            },
    {
        match kind {
            BrowserKind::Chromium => Err(
                VersionError::ResolveFailed(String::from_str("Build not supported for chromium")),
            ),
            BrowserKind::Chrome | BrowserKind::ChromeHeadlessShell => {
                if self.patch.is_some() {
                    return Ok(ResolveStep::Done(BuildInfo::version(self.to_string())));
                }
                let url = host.metadata.clone().concat(
                    "/chrome-for-testing/latest-patch-versions-per-build.json",
                );
                Ok(ResolveStep::Fetch(url))
            },
        }
    }

    /// The second step: picks from the latest patches the one of this
    /// build line. Without one the version is invalid, and so is a build
    /// whose revision cannot be read.
    pub fn resolve_finish(&self, builds: &Vec<PatchVersion>) -> (r: Result<BuildInfo, VersionError>)
        ensures
            ({
                let wanted = version_text(self.numbers());
                let at = first_with_build(builds@, wanted, 0);
                if at < builds@.len() {
                    let found = builds@[at].latest;
                    match revision_number(found.revision@) {
                        Some(n) => r matches Ok(info) && info.version == Some(found.version)
                            && info.id == found.version && (info.revision matches Some(rev)
                            && rev.value() == n),
                        None => r matches Err(VersionError::InvalidRevision(t)) && t@
                            == found.revision@,
                    }
                } else {
                    r matches Err(VersionError::InvalidBuild(t)) && t@ == wanted
                }
            }),
    {
        let wanted = self.to_string();
        let mut i: usize = 0;
        while i < builds.len()
            invariant
                i <= builds.len(),
                wanted@ == version_text(self.numbers()),
                first_with_build(builds@, wanted@, 0) == first_with_build(builds@, wanted@, i as int),
            decreases builds.len() - i,
        {
            if str_eq(builds[i].build.as_str(), wanted.as_str()) {
                let found = &builds[i].latest;
                return match Revision::from_str(found.revision.as_str()) {
                    Ok(rev) => Ok(BuildInfo::both(found.version.clone(), rev)),
                    Err(e) => Err(e),
                };
            }
            i += 1;
        }
        Err(VersionError::InvalidBuild(wanted))
    }
}

impl TryFrom<String> for Version {
    type Error = VersionError;

    fn try_from(value: String) -> (r: Result<Self, VersionError>) {
        match Version::from_str(value.as_str()) {
            Ok(v) => Ok(v),
            Err(_) => Err(VersionError::InvalidBuild(value)),
        }
    }
}

impl vstd::std_specs::convert::TryFromSpecImpl<String> for Version {
    open spec fn obeys_try_from_spec() -> bool {
        true
    }

    open spec fn try_from_spec(value: String) -> Result<Self, VersionError> {
        match version_numbers(value@) {
            Some(n) => Ok(Version::of(n)),
            None => Err(VersionError::InvalidBuild(value)),
        }
    }
}

} // verus!
