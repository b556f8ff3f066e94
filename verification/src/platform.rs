//! The platforms that pre-built browsers exist for.

use vstd::prelude::*;

use crate::BuildInfo;
use crate::text::str_eq;

verus! {

/// List of platforms with pre-built chromium binaries
#[derive(Clone, Copy, Debug, PartialEq, Eq, Structural)]
pub enum Platform {
    Linux,
    Mac,
    MacArm,
    Win32,
    Win64,
}

/// The first build number of Windows 11, which shares its major version
/// with Windows 10.
pub const WINDOWS_11_BUILD: u32 = 22000;

/// Whether a Windows version with this major number and build number is
/// Windows 11 or later.
pub open spec fn windows_11_or_later(major: u32, build: u32) -> bool {
    major > 10 || (major == 10 && build >= WINDOWS_11_BUILD)
}

/// Tells Windows 11 and later from earlier releases of Windows, given the
/// major version and the build number that the system reports.
pub fn is_windows_11(major: u32, build: u32) -> (r: bool)
    ensures
        r == windows_11_or_later(major, build),
{
    // Windows 11 shares the major version with Windows 10: the build number
    // tells them apart.
    if major > 10 {
        true
    } else if major == 10 && build >= WINDOWS_11_BUILD {
        true
    } else {
        false
    }
}

/// The platform whose builds run on a machine with this operating system
/// and architecture, named as the compiler names its targets.
pub open spec fn platform_of(os: Seq<char>, arch: Seq<char>, windows_11: bool) -> Option<Platform> {
    if os == "linux"@ && arch == "x86_64"@ {
        Some(Platform::Linux)
    } else if os == "macos"@ && arch == "x86_64"@ {
        Some(Platform::Mac)
    } else if os == "macos"@ && arch == "aarch64"@ {
        Some(Platform::MacArm)
    } else if os == "windows"@ && arch == "x86"@ {
        Some(Platform::Win32)
    } else if os == "windows"@ && arch == "x86_64"@ {
        Some(Platform::Win64)
    } else if os == "windows"@ && arch == "aarch64"@ && windows_11 {
        Some(Platform::Win64)
    } else {
        None
    }
}

impl Platform {
    /// The name of the platform in folder names.
    pub open spec fn name(self) -> Seq<char> {
        match self {
            Platform::Linux => "linux"@,
            Platform::Mac => "mac"@,
            Platform::MacArm => "mac_arm"@,
            Platform::Win32 => "win32"@,
            Platform::Win64 => "win64"@,
        }
    }

    /// List of all platforms.
    pub fn all() -> (r: &'static [Platform])
        ensures
            r@ == seq![
                Platform::Linux,
                Platform::Mac,
                Platform::MacArm,
                Platform::Win32,
                Platform::Win64,
            ],
    {
        let r: &'static [Platform] = &[
            Self::Linux,
            Self::Mac,
            Self::MacArm,
            Self::Win32,
            Self::Win64,
        ];
        assert(r@ =~= seq![
            Platform::Linux,
            Platform::Mac,
            Platform::MacArm,
            Platform::Win32,
            Platform::Win64,
        ]);
        r
    }

    /// The folder that a build is installed in: the platform, a hyphen and
    /// the id of the build.
    pub fn folder_name(&self, build_info: &BuildInfo) -> (r: String)
        ensures
            r@ == self.name() + "-"@ + build_info.id@,
    {
        let platform = match self {
            Self::Linux => "linux",
            Self::Mac => "mac",
            Self::MacArm => "mac_arm",
            Self::Win32 => "win32",
            Self::Win64 => "win64",
        };
        let mut out = String::from_str(platform);
        out.append("-");
        out.append(build_info.id.as_str());
        out
    }

    /// The platform to download for a machine, if there are builds for it.
    /// `os` and `arch` name the operating system and the architecture;
    /// `windows_11` matters on Windows on ARM alone, where the 64-bit builds
    /// run under the emulation that Windows 11 brought.
    pub fn current(os: &str, arch: &str, windows_11: bool) -> (r: Option<Platform>)
        ensures
            r == platform_of(os@, arch@, windows_11),
    {
        // Currently there are no builds for Linux arm
        if str_eq(os, "linux") && str_eq(arch, "x86_64") {
            Some(Self::Linux)
        } else if str_eq(os, "macos") && str_eq(arch, "x86_64") {
            Some(Self::Mac)
        } else if str_eq(os, "macos") && str_eq(arch, "aarch64") {
            Some(Self::MacArm)
        } else if str_eq(os, "windows") && str_eq(arch, "x86") {
            Some(Self::Win32)
        } else if str_eq(os, "windows") && str_eq(arch, "x86_64") {
            Some(Self::Win64)
        } else if str_eq(os, "windows") && str_eq(arch, "aarch64") {
            // x64 emulation is available for windows 11
            if windows_11 {
                Some(Self::Win64)
            } else {
                None
            }
        } else {
            None
        }
    }
}

} // verus!
