//! Chromium revisions.

use vstd::prelude::*;

use super::error::VersionError;
use super::metadata::KnownGoodVersion;
use super::ResolveStep;
use crate::text::{
    decimal, lemma_decimal_round_trip, parse_u32, parse_u32_spec, str_eq, u32_to_string,
};
use crate::{BrowserHost, BrowserKind, BuildInfo};

verus! {

/// A [`Revision`] represents a version of chromium.
///
/// The revision must be compatible with the Chrome DevTools Protocol (CDP)
/// that the client speaks, otherwise it will fail to communicate with the
/// browser.
#[derive(Clone, Copy, Debug, PartialOrd, Ord, PartialEq, Eq, Structural)]
pub struct Revision(u32);

/// The smallest number that is read as a revision. Anything below is most
/// likely a milestone.
pub const MIN_REVISION: u32 = 1_000_000;

/// The revision that `s` denotes: a `u32` of at least [`MIN_REVISION`].
pub open spec fn revision_number(s: Seq<char>) -> Option<u32> {
    match parse_u32_spec(s) {
        Some(n) => if n >= MIN_REVISION {
            Some(n)
        } else {
            None
        },
        None => None,
    }
}

/// Where the list of known good versions is found below the metadata host.
pub open spec fn known_good_versions_url(metadata: Seq<char>) -> Seq<char> {
    metadata + "/chrome-for-testing/known-good-versions.json"@
}

/// The index of the first entry of `versions` from `from` on whose revision
/// is written `wanted`, or the length of `versions` if there is none.
pub open spec fn first_with_revision(
    versions: Seq<KnownGoodVersion>,
    wanted: Seq<char>,
    from: int,
) -> int
    decreases versions.len() - from,
{
    if from >= versions.len() {
        versions.len() as int
    } else if versions[from].revision@ == wanted {
        from
    } else {
        first_with_revision(versions, wanted, from + 1)
    }
}

impl Revision {
    /// The number of the revision.
    pub closed spec fn value(self) -> u32 {
        self.0
    }

    /// The revision with this number.
    pub closed spec fn of(value: u32) -> Revision {
        Revision(value)
    }

    /// A revision is the revision of its number.
    pub proof fn lemma_of(self)
        ensures
            Revision::of(self.value()) == self,
    {
    }

    /// The revision of a number has that number.
    pub proof fn lemma_value(value: u32)
        ensures
            Revision::of(value).value() == value,
    {
    }

    pub fn new(revision: u32) -> (r: Self)
        ensures
            r.value() == revision,
    {
        Self(revision)
    }

    /// The number of the revision.
    pub fn as_u32(&self) -> (r: u32)
        ensures
            r == self.value(),
    {
        self.0
    }

    /// The revision in decimal.
    pub fn to_string(&self) -> (r: String)
        ensures
            r@ == decimal(self.value() as nat),
    {
        u32_to_string(self.0)
    }

    /// Reads a revision. Numbers below [`MIN_REVISION`] are refused, and so
    /// is everything that is no `u32`.
    pub fn from_str(s: &str) -> (r: Result<Self, VersionError>)
        ensures
            match revision_number(s@) {
                Some(n) => r matches Ok(rev) && rev.value() == n,
                None => r matches Err(VersionError::InvalidRevision(t)) && t@ == s@,
            },
    {
        match parse_u32(s) {
            Some(n) => {
                if n < MIN_REVISION {
                    // This most likely not a revision but a milestone.
                    Err(VersionError::InvalidRevision(String::from_str(s)))
                } else {
                    Ok(Revision(n))
                }
            },
            None => Err(VersionError::InvalidRevision(String::from_str(s))),
        }
    }

    /// The first step of resolving the revision to a build. A chromium build
    /// is named by its revision alone. For the other kinds the revision has
    /// to be matched to a known good version, whose list is to be fetched.
    pub fn resolve_start(&self, kind: BrowserKind, host: &BrowserHost) -> (r: ResolveStep)
        ensures
            match kind {
                BrowserKind::Chromium => r matches ResolveStep::Done(info) && info.revision == Some(
                    *self,
                ) && info.version is None && info.id@ == decimal(self.value() as nat),
                _ => r matches ResolveStep::Fetch(url) && url@ == known_good_versions_url(
                    host.metadata@,
                ),
            },
    {
        match kind {
            BrowserKind::Chromium => ResolveStep::Done(BuildInfo::revision(*self)),
            BrowserKind::Chrome | BrowserKind::ChromeHeadlessShell => {
                let url = host.metadata.clone().concat("/chrome-for-testing/known-good-versions.json");
                ResolveStep::Fetch(url)
            },
        }
    }

    /// The second step: picks from the known good versions the first one
    /// built from this revision. Without one the revision is invalid, and
    /// so is a number that is too small for a revision.
    pub fn resolve_finish(&self, versions: &Vec<KnownGoodVersion>) -> (r: Result<
        BuildInfo,
        VersionError,
    >)
        ensures
            ({
                let wanted = decimal(self.value() as nat);
                let at = first_with_revision(versions@, wanted, 0);
                if at < versions@.len() && self.value() >= MIN_REVISION {
                    r matches Ok(info) && info.version == Some(versions@[at].version) && info.id
                        == versions@[at].version && info.revision == Some(*self)
                } else {
                    r matches Err(VersionError::InvalidRevision(t)) && t@ == wanted
                }
            }),
    {
        let revision_str = self.to_string();
        proof {
            lemma_decimal_round_trip(self.value());
        }
        let mut i: usize = 0;
        while i < versions.len()
            invariant
                i <= versions.len(),
                revision_str@ == decimal(self.value() as nat),
                first_with_revision(versions@, revision_str@, 0) == first_with_revision(
                    versions@,
                    revision_str@,
                    i as int,
                ),
            decreases versions.len() - i,
        {
            if str_eq(versions[i].revision.as_str(), revision_str.as_str()) {
                let found = &versions[i];
                proof {
                    lemma_decimal_round_trip(self.value());
                }
                return match Revision::from_str(found.revision.as_str()) {
                    Ok(rev) => Ok(BuildInfo::both(found.version.clone(), rev)),
                    Err(e) => Err(e),
                };
            }
            i += 1;
        }
        Err(VersionError::InvalidRevision(revision_str))
    }
}

/// Reading back what a revision is written as gives the revision, unless
/// its number is too small for one.
pub proof fn lemma_revision_round_trip(r: Revision)
    ensures
        revision_number(decimal(r.value() as nat)) == if r.value() >= MIN_REVISION {
            Some(r.value())
        } else {
            None
        },
{
    lemma_decimal_round_trip(r.value());
}

impl TryFrom<String> for Revision {
    type Error = VersionError;

    fn try_from(value: String) -> (r: Result<Self, VersionError>) {
        match parse_u32(value.as_str()) {
            Some(n) => {
                if n < MIN_REVISION {
                    Err(VersionError::InvalidRevision(value))
                } else {
                    Ok(Revision(n))
                }
            },
            None => Err(VersionError::InvalidRevision(value)),
        }
    }
}

impl vstd::std_specs::convert::TryFromSpecImpl<String> for Revision {
    open spec fn obeys_try_from_spec() -> bool {
        true
    }

    open spec fn try_from_spec(value: String) -> Result<Self, VersionError> {
        match revision_number(value@) {
            Some(n) => Ok(Revision::of(n)),
            None => Err(VersionError::InvalidRevision(value)),
        }
    }
}

impl From<u32> for Revision {
    fn from(value: u32) -> (r: Self) {
        Self(value)
    }
}

impl vstd::std_specs::convert::FromSpecImpl<u32> for Revision {
    open spec fn obeys_from_spec() -> bool {
        true
    }

    open spec fn from_spec(value: u32) -> Self {
        Revision::of(value)
    }
}

} // verus!
