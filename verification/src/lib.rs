//! Tools for working with the Chrome DevTools Protocol: a compiler for the
//! protocol definition language, and the rules that locate a browser build
//! matching the compiled protocol.

pub mod build_info;
pub mod fetcher;
pub mod host;
pub mod kind;
pub mod pdl;
pub mod platform;
pub mod text;
pub mod version;

pub use self::build_info::BuildInfo;
pub use self::fetcher::{
    BrowserFetcher, BrowserFetcherInstallation, BrowserFetcherOptions, DownloadPlan, FetchStep,
    InstallPath,
};
pub use self::host::BrowserHost;
pub use self::kind::BrowserKind;
pub use self::platform::Platform;
pub use self::version::{BrowserVersion, Channel, Milestone, Revision, Version, VersionError};
