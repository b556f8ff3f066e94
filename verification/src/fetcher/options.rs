//! What a fetcher is told: where to download from, where to install, and
//! which build to get.

use vstd::prelude::*;

use crate::{BrowserHost, BrowserKind, BrowserVersion, Platform};

verus! {

/// The settings of a [`BrowserFetcher`](super::BrowserFetcher).
#[derive(Debug)]
pub struct BrowserFetcherOptions {
    /// The host to download from.
    pub host: BrowserHost,
    /// The folder that browsers are installed below.
    pub path: String,
    /// The platform to download for.
    pub platform: Platform,
    /// The kind of browser.
    pub kind: BrowserKind,
    /// The version to get.
    pub version: BrowserVersion,
}

impl BrowserFetcherOptions {
    /// The settings for one kind of browser: its official host and the
    /// version that is downloaded where none is asked for.
    pub fn new(kind: BrowserKind, platform: Platform, path: &str) -> (r: Self)
        ensures
            r.kind == kind,
            r.platform == platform,
            r.path@ == path@,
            r.host.object@ == "https://storage.googleapis.com"@,
            r.host.metadata@ == match kind {
                BrowserKind::Chromium => "https://storage.googleapis.com"@,
                _ => "https://googlechromelabs.github.io/"@,
            },
            match kind {
                BrowserKind::Chromium => r.version matches BrowserVersion::Revision(rev)
                    && rev.value() == crate::version::CURRENT_CHROMIUM_REVISION,
                _ => r.version matches BrowserVersion::Channel(crate::Channel::Stable),
            },
    {
        Self {
            host: BrowserHost::current(kind),
            path: String::from_str(path),
            platform,
            kind,
            version: BrowserVersion::current(kind),
        }
    }
}

} // verus!
