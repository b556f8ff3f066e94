//! Where browsers and their metadata are downloaded from.

use vstd::prelude::*;

use crate::BrowserKind;

verus! {

/// Host for downloading browsers and metadata.
#[derive(Debug)]
pub struct BrowserHost {
    /// The host that serves the browser archives.
    pub object: String,
    /// The host that serves the lists of builds.
    pub metadata: String,
}

impl BrowserHost {
    pub fn new(object: &str, metadata: &str) -> (r: Self)
        ensures
            r.object@ == object@,
            r.metadata@ == metadata@,
    {
        Self { object: String::from_str(object), metadata: String::from_str(metadata) }
    }

    /// A host that serves both the archives and the metadata.
    pub fn single(host: &str) -> (r: Self)
        ensures
            r.object@ == host@,
            r.metadata@ == host@,
    {
        Self { object: String::from_str(host), metadata: String::from_str(host) }
    }

    /// The official host of a kind of browser.
    pub fn current(kind: BrowserKind) -> (r: Self)
        ensures
            r.object@ == "https://storage.googleapis.com"@,
            r.metadata@ == match kind {
                BrowserKind::Chromium => "https://storage.googleapis.com"@,
                _ => "https://googlechromelabs.github.io/"@,
            },
    {
        match kind {
            BrowserKind::Chromium => Self {
                object: String::from_str("https://storage.googleapis.com"),
                metadata: String::from_str("https://storage.googleapis.com"),
            },
            BrowserKind::Chrome | BrowserKind::ChromeHeadlessShell => Self {
                object: String::from_str("https://storage.googleapis.com"),
                metadata: String::from_str("https://googlechromelabs.github.io/"),
            },
        }
    }
}

} // verus!
