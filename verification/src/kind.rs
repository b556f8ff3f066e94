//! The kinds of browser and where their builds are found.

use vstd::prelude::*;

use crate::{BrowserHost, BuildInfo, Platform, Revision};

verus! {

/// The kind of browser to download.
#[derive(Clone, Copy, Debug, PartialEq, Eq, Structural)]
pub enum BrowserKind {
    Chromium,
    Chrome,
    ChromeHeadlessShell,
}

impl Default for BrowserKind {
    fn default() -> (r: Self)
        ensures
            r == BrowserKind::Chromium,
    {
        Self::Chromium
    }
}

/// The last chromium revision whose Windows archives were named `win32`.
pub const CHROMIUM_REVISION_WIN32: u32 = 591_479;

/// Whether a chromium build for Windows has the newer archive name: its
/// revision is known and later than [`CHROMIUM_REVISION_WIN32`].
pub open spec fn has_win_archive(revision: Option<Revision>) -> bool {
    revision matches Some(r) && r.value() > CHROMIUM_REVISION_WIN32
}

impl BrowserKind {
    /// The folder of the download host that holds the builds of a platform.
    pub open spec fn folder_of(self, platform: Platform) -> Seq<char> {
        match self {
            BrowserKind::Chromium => match platform {
                Platform::Linux => "Linux_x64"@,
                Platform::Mac => "Mac"@,
                Platform::MacArm => "Mac_Arm"@,
                Platform::Win32 => "Win"@,
                Platform::Win64 => "Win_x64"@,
            },
            _ => match platform {
                Platform::Linux => "linux64"@,
                Platform::Mac => "mac-x64"@,
                Platform::MacArm => "mac-arm64"@,
                Platform::Win32 => "win32"@,
                Platform::Win64 => "win64"@,
            },
        }
    }

    /// The platform's part of an archive's name.
    pub open spec fn archive_of(self, platform: Platform, revision: Option<Revision>) -> Seq<char> {
        match self {
            BrowserKind::Chromium => match platform {
                Platform::Linux => "linux"@,
                Platform::Mac | Platform::MacArm => "mac"@,
                Platform::Win32 | Platform::Win64 => if has_win_archive(revision) {
                    "win"@
                } else {
                    "win32"@
                },
            },
            _ => match platform {
                Platform::Linux => "linux64"@,
                Platform::Mac => "mac-x64"@,
                Platform::MacArm => "mac-arm64"@,
                Platform::Win32 => "win32"@,
                Platform::Win64 => "win64"@,
            },
        }
    }

    /// The name of the archive without `.zip`, which is also the name of the
    /// folder that the archive unpacks to.
    pub open spec fn archive_name_of(self, platform: Platform, revision: Option<Revision>) -> Seq<
        char,
    > {
        let prefix = match self {
            BrowserKind::ChromeHeadlessShell => "chrome-headless-shell-"@,
            _ => "chrome-"@,
        };
        prefix + self.archive_of(platform, revision)
    }

    /// The address of the archive of a build.
    pub open spec fn download_url_of(
        self,
        build_info: BuildInfo,
        platform: Platform,
        host: BrowserHost,
    ) -> Seq<char> {
        let archive = self.archive_name_of(platform, build_info.revision) + ".zip"@;
        match self {
            BrowserKind::Chromium => host.object@ + "/chromium-browser-snapshots/"@
                + self.folder_of(platform) + "/"@ + build_info.id@ + "/"@ + archive,
            _ => host.object@ + "/chrome-for-testing/"@ + build_info.id@ + "/"@ + self.folder_of(
                platform,
            ) + "/"@ + archive,
        }
    }

    /// The path of the executable below the folder of an installation, one
    /// component after the other.
    pub open spec fn executable_of(self, platform: Platform, revision: Option<Revision>) -> Seq<
        Seq<char>,
    > {
        let inner = match platform {
            Platform::Linux => seq!["chrome"@],
            Platform::Mac | Platform::MacArm => seq![
                "Chromium.app"@,
                "Contents"@,
                "MacOS"@,
                "Chromium"@,
            ],
            Platform::Win32 | Platform::Win64 => seq!["chrome.exe"@],
        };
        seq![self.archive_name_of(platform, revision)] + inner
    }

    /// The address that the archive of a build is downloaded from.
    pub fn download_url(&self, build_info: &BuildInfo, platform: Platform, host: &BrowserHost) -> (r:
        String)
        ensures
            r@ == self.download_url_of(*build_info, platform, *host),
    {
        let folder = self.folder(platform);
        let archive = self.archive_name(platform, build_info.revision);
        let mut url = host.object.clone();
        match self {
            Self::Chromium => {
                url.append("/chromium-browser-snapshots/");
                url.append(folder);
                url.append("/");
                url.append(build_info.id.as_str());
            },
            Self::Chrome | Self::ChromeHeadlessShell => {
                url.append("/chrome-for-testing/");
                url.append(build_info.id.as_str());
                url.append("/");
                url.append(folder);
            },
        }
        url.append("/");
        url.append(archive.as_str());
        url.append(".zip");
        assert(url@ =~= self.download_url_of(*build_info, platform, *host));
        url
    }

    /// The platform's part of the name of an archive.
    pub fn archive(&self, platform: Platform, revision: Option<Revision>) -> (r: &'static str)
        ensures
            r@ == self.archive_of(platform, revision),
    {
        match self {
            Self::Chromium => match platform {
                Platform::Linux => "linux",
                Platform::Mac | Platform::MacArm => "mac",
                Platform::Win32 | Platform::Win64 => {
                    let newer = match revision {
                        Some(r) => r.as_u32() > CHROMIUM_REVISION_WIN32,
                        None => false,
                    };
                    if newer {
                        "win"
                    } else {
                        "win32"
                    }
                },
            },
            Self::Chrome | Self::ChromeHeadlessShell => match platform {
                Platform::Linux => "linux64",
                Platform::Mac => "mac-x64",
                Platform::MacArm => "mac-arm64",
                Platform::Win32 => "win32",
                Platform::Win64 => "win64",
            },
        }
    }

    /// The name of the archive of a build without `.zip`.
    pub fn archive_name(&self, platform: Platform, revision: Option<Revision>) -> (r: String)
        ensures
            r@ == self.archive_name_of(platform, revision),
    {
        let prefix = match self {
            Self::ChromeHeadlessShell => "chrome-headless-shell-",
            Self::Chromium | Self::Chrome => "chrome-",
        };
        String::from_str(prefix).concat(self.archive(platform, revision))
    }

    /// The components that lead from the folder of an installation to the
    /// executable in it.
    pub fn executable(&self, platform: Platform, revision: Option<Revision>) -> (r: Vec<String>)
        ensures
            r@.len() == self.executable_of(platform, revision).len(),
            forall|i: int|
                0 <= i < r@.len() ==> (#[trigger] r@[i])@ == self.executable_of(platform, revision)[i],
    {
        let mut path: Vec<String> = Vec::new();
        path.push(self.archive_name(platform, revision));
        match platform {
            Platform::Linux => path.push(String::from_str("chrome")),
            Platform::Mac | Platform::MacArm => {
                path.push(String::from_str("Chromium.app"));
                path.push(String::from_str("Contents"));
                path.push(String::from_str("MacOS"));
                path.push(String::from_str("Chromium"));
            },
            Platform::Win32 | Platform::Win64 => path.push(String::from_str("chrome.exe")),
        }
        path
    }

    /// The folder of the download host that holds the builds of a platform.
    pub fn folder(&self, platform: Platform) -> (r: &'static str)
        ensures
            r@ == self.folder_of(platform),
    {
        match self {
            Self::Chromium => match platform {
                Platform::Linux => "Linux_x64",
                Platform::Mac => "Mac",
                Platform::MacArm => "Mac_Arm",
                Platform::Win32 => "Win",
                Platform::Win64 => "Win_x64",
            },
            Self::Chrome | Self::ChromeHeadlessShell => match platform {
                Platform::Linux => "linux64",
                Platform::Mac => "mac-x64",
                Platform::MacArm => "mac-arm64",
                Platform::Win32 => "win32",
                Platform::Win64 => "win64",
            },
        }
    }
}

} // verus!
