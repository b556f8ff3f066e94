use cdp_tools::fetcher::{BrowserFetcher, BrowserFetcherOptions, FetchStep, InstallPath};
use cdp_tools::platform::is_windows_11;
use cdp_tools::text::{parse_u32, u32_to_string, with_extension};
use cdp_tools::version::{KnownGoodVersion, PatchVersion, ResolveStep};
use cdp_tools::{
    BrowserHost, BrowserKind, BrowserVersion, BuildInfo, Channel, Platform, Revision, Version,
    VersionError,
};

fn parts(path: &InstallPath) -> Vec<&str> {
    path.parts.iter().map(|p| p.as_str()).collect()
}

#[test]
fn decimal_round_trip() {
    assert_eq!(u32_to_string(0), "0");
    assert_eq!(u32_to_string(7), "7");
    assert_eq!(u32_to_string(1520176), "1520176");
    assert_eq!(u32_to_string(u32::MAX), "4294967295");
    assert_eq!(parse_u32("0"), Some(0));
    assert_eq!(parse_u32("007"), Some(7));
    assert_eq!(parse_u32("+12"), Some(12));
    assert_eq!(parse_u32("4294967295"), Some(u32::MAX));
    assert_eq!(parse_u32("4294967296"), None);
    assert_eq!(parse_u32(""), None);
    assert_eq!(parse_u32("+"), None);
    assert_eq!(parse_u32("-1"), None);
    assert_eq!(parse_u32("1_000"), None);
    assert_eq!(parse_u32(" 1"), None);
    assert_eq!(parse_u32("12a"), None);
}

#[test]
fn parse_u32_agrees_with_std() {
    for s in ["", "+", "++1", "+0", "0", "00", "42", "4294967295", "4294967296", "99999999999", "1.5", "١٢"] {
        assert_eq!(parse_u32(s), s.parse::<u32>().ok(), "{s:?}");
    }
}

#[test]
fn revision_reads_and_writes() {
    assert_eq!(Revision::new(1121455).to_string(), "1121455");
    assert_eq!(Revision::new(1121455).as_u32(), 1121455);
    assert_eq!(Revision::from_str("1520176").unwrap(), Revision::new(1520176));
    assert_eq!(Revision::from_str("1000000").unwrap(), Revision::new(1000000));
    assert!(matches!(Revision::from_str("999999"), Err(VersionError::InvalidRevision(t)) if t == "999999"));
    assert!(matches!(Revision::from_str("113"), Err(VersionError::InvalidRevision(t)) if t == "113"));
    assert!(matches!(Revision::from_str("stable"), Err(VersionError::InvalidRevision(t)) if t == "stable"));
    assert!(Revision::new(2) > Revision::new(1));
    assert_eq!(Revision::from(5u32), Revision::new(5));
}

#[test]
fn version_reads_and_writes() {
    assert_eq!(Version::new(113, 0, 5672).to_string(), "113.0.5672");
    assert_eq!(Version::exact(113, 0, 5672, 63).to_string(), "113.0.5672.63");
    assert_eq!(Version::from_str("113.0.5672").unwrap(), Version::new(113, 0, 5672));
    assert_eq!(Version::from_str("113.0.5672.63").unwrap(), Version::exact(113, 0, 5672, 63));
    for bad in ["113", "113.0", "1.2.3.4.5", "1..3", "1.2.x", "1.2.3.", ".1.2.3", "", "1.2.3.4294967296"] {
        assert!(
            matches!(Version::from_str(bad), Err(VersionError::InvalidBuild(t)) if t == bad),
            "{bad:?}"
        );
    }
    assert!(Version::new(1, 2, 3) < Version::exact(1, 2, 3, 0));
}

#[test]
fn browser_version_tries_revision_channel_version() {
    assert!(matches!(BrowserVersion::from_str("1520176"), Ok(BrowserVersion::Revision(r)) if r == Revision::new(1520176)));
    assert!(matches!(BrowserVersion::from_str("stable"), Ok(BrowserVersion::Channel(Channel::Stable))));
    assert!(matches!(BrowserVersion::from_str("canary"), Ok(BrowserVersion::Channel(Channel::Canary))));
    assert!(matches!(BrowserVersion::from_str("113.0.5672"), Ok(BrowserVersion::Version(v)) if v == Version::new(113, 0, 5672)));
    assert!(matches!(BrowserVersion::from_str("113"), Err(VersionError::InvalidVersion(t)) if t == "113"));
    assert!(matches!(BrowserVersion::from_str("Stable"), Err(VersionError::InvalidVersion(t)) if t == "Stable"));
    assert!(matches!(BrowserVersion::from(Revision::new(7)), BrowserVersion::Revision(r) if r == Revision::new(7)));
    assert!(matches!(BrowserVersion::from(Channel::Beta), BrowserVersion::Channel(Channel::Beta)));
    assert!(matches!(BrowserVersion::from(Version::new(1, 2, 3)), BrowserVersion::Version(_)));
}

#[test]
fn versions_from_owned_strings() {
    assert_eq!(Revision::try_from("1520176".to_string()).unwrap(), Revision::new(1520176));
    assert!(matches!(Revision::try_from("12".to_string()),
        Err(VersionError::InvalidRevision(t)) if t == "12"));
    assert_eq!(Version::try_from("1.2.3".to_string()).unwrap(), Version::new(1, 2, 3));
    assert!(matches!(Version::try_from("1.2".to_string()),
        Err(VersionError::InvalidBuild(t)) if t == "1.2"));
    assert!(matches!(BrowserVersion::try_from("beta".to_string()),
        Ok(BrowserVersion::Channel(Channel::Beta))));
    assert!(matches!(BrowserVersion::try_from("1520176".to_string()),
        Ok(BrowserVersion::Revision(r)) if r == Revision::new(1520176)));
    assert!(matches!(BrowserVersion::try_from("1.2.3.4".to_string()),
        Ok(BrowserVersion::Version(v)) if v == Version::exact(1, 2, 3, 4)));
    assert!(matches!(BrowserVersion::try_from("?".to_string()),
        Err(VersionError::InvalidVersion(t)) if t == "?"));
}

#[test]
fn channels_by_name() {
    assert_eq!(Channel::from_str("stable").unwrap(), Channel::Stable);
    assert_eq!(Channel::from_str("beta").unwrap(), Channel::Beta);
    assert_eq!(Channel::from_str("dev").unwrap(), Channel::Dev);
    assert_eq!(Channel::from_str("canary").unwrap(), Channel::Canary);
    for bad in ["", "Stable", "nightly", "stable "] {
        assert!(matches!(Channel::from_str(bad), Err(VersionError::InvalidChannel(t)) if t == bad));
    }
    assert_eq!(
        VersionError::InvalidChannel("x".to_string()).to_string(),
        "Invalid channel: x"
    );
    assert_eq!(
        VersionError::ResolveFailed("offline".to_string()).to_string(),
        "Failed to resolve version: offline"
    );
    assert_eq!(VersionError::InvalidVersion("v".to_string()).to_string(), "Invalid version: v");
    assert_eq!(VersionError::InvalidRevision("r".to_string()).to_string(), "Invalid revision: r");
    assert_eq!(VersionError::InvalidBuild("b".to_string()).to_string(), "Invalid build: b");
}

#[test]
fn current_versions() {
    assert!(matches!(BrowserVersion::current(BrowserKind::Chromium), BrowserVersion::Revision(r) if r == Revision::new(1520176)));
    assert!(matches!(BrowserVersion::current(BrowserKind::Chrome), BrowserVersion::Channel(Channel::Stable)));
    assert!(matches!(BrowserVersion::current(BrowserKind::ChromeHeadlessShell), BrowserVersion::Channel(Channel::Stable)));
    assert_eq!(BrowserKind::default(), BrowserKind::Chromium);
}

#[test]
fn build_info_constructors() {
    let by_revision = BuildInfo::revision(Revision::new(1520176));
    assert_eq!(by_revision.revision, Some(Revision::new(1520176)));
    assert_eq!(by_revision.version, None);
    assert_eq!(by_revision.id, "1520176");
    assert_eq!(by_revision.to_string(), "ID: 1520176, Revision: 1520176");

    let by_version = BuildInfo::version("113.0.5672.63".to_string());
    assert_eq!(by_version.revision, None);
    assert_eq!(by_version.version.as_deref(), Some("113.0.5672.63"));
    assert_eq!(by_version.id, "113.0.5672.63");
    assert_eq!(by_version.to_string(), "ID: 113.0.5672.63, Version: 113.0.5672.63");

    let both = BuildInfo::both("113.0.5672.63".to_string(), Revision::new(1121455));
    assert_eq!(both.id, "113.0.5672.63");
    assert_eq!(both.to_string(), "ID: 113.0.5672.63, Revision: 1121455, Version: 113.0.5672.63");
    let copy = both.duplicate();
    assert_eq!(copy.id, both.id);
    assert_eq!(copy.revision, both.revision);
    assert_eq!(copy.version, both.version);
}

#[test]
fn hosts() {
    let host = BrowserHost::new("https://a", "https://b");
    assert_eq!(host.object, "https://a");
    assert_eq!(host.metadata, "https://b");
    let single = BrowserHost::single("https://c");
    assert_eq!(single.object, "https://c");
    assert_eq!(single.metadata, "https://c");
    let chromium = BrowserHost::current(BrowserKind::Chromium);
    assert_eq!(chromium.object, "https://storage.googleapis.com");
    assert_eq!(chromium.metadata, "https://storage.googleapis.com");
    for kind in [BrowserKind::Chrome, BrowserKind::ChromeHeadlessShell] {
        let host = BrowserHost::current(kind);
        assert_eq!(host.object, "https://storage.googleapis.com");
        assert_eq!(host.metadata, "https://googlechromelabs.github.io/");
    }
}

#[test]
fn platforms() {
    assert_eq!(
        Platform::all(),
        [Platform::Linux, Platform::Mac, Platform::MacArm, Platform::Win32, Platform::Win64]
    );
    let info = BuildInfo::revision(Revision::new(1520176));
    assert_eq!(Platform::Linux.folder_name(&info), "linux-1520176");
    assert_eq!(Platform::Mac.folder_name(&info), "mac-1520176");
    assert_eq!(Platform::MacArm.folder_name(&info), "mac_arm-1520176");
    assert_eq!(Platform::Win32.folder_name(&info), "win32-1520176");
    assert_eq!(Platform::Win64.folder_name(&info), "win64-1520176");

    assert_eq!(Platform::current("linux", "x86_64", false), Some(Platform::Linux));
    assert_eq!(Platform::current("linux", "aarch64", true), None);
    assert_eq!(Platform::current("macos", "x86_64", false), Some(Platform::Mac));
    assert_eq!(Platform::current("macos", "aarch64", false), Some(Platform::MacArm));
    assert_eq!(Platform::current("windows", "x86", false), Some(Platform::Win32));
    assert_eq!(Platform::current("windows", "x86_64", false), Some(Platform::Win64));
    assert_eq!(Platform::current("windows", "aarch64", true), Some(Platform::Win64));
    assert_eq!(Platform::current("windows", "aarch64", false), None);
    assert_eq!(Platform::current("freebsd", "x86_64", true), None);
}

#[test]
fn windows_11_by_build_number() {
    assert!(is_windows_11(11, 0));
    assert!(is_windows_11(10, 22000));
    assert!(is_windows_11(10, 26100));
    assert!(!is_windows_11(10, 21999));
    assert!(!is_windows_11(9, 99999));
}

#[test]
fn folders_and_archives() {
    let expect = [
        (Platform::Linux, "Linux_x64", "linux64"),
        (Platform::Mac, "Mac", "mac-x64"),
        (Platform::MacArm, "Mac_Arm", "mac-arm64"),
        (Platform::Win32, "Win", "win32"),
        (Platform::Win64, "Win_x64", "win64"),
    ];
    for (platform, chromium, chrome) in expect {
        assert_eq!(BrowserKind::Chromium.folder(platform), chromium);
        assert_eq!(BrowserKind::Chrome.folder(platform), chrome);
        assert_eq!(BrowserKind::ChromeHeadlessShell.folder(platform), chrome);
        assert_eq!(BrowserKind::Chrome.archive(platform, None), chrome);
        assert_eq!(BrowserKind::ChromeHeadlessShell.archive(platform, Some(Revision::new(1))), chrome);
    }
    assert_eq!(BrowserKind::Chromium.archive(Platform::Linux, None), "linux");
    assert_eq!(BrowserKind::Chromium.archive(Platform::Mac, None), "mac");
    assert_eq!(BrowserKind::Chromium.archive(Platform::MacArm, None), "mac");
    for platform in [Platform::Win32, Platform::Win64] {
        assert_eq!(BrowserKind::Chromium.archive(platform, Some(Revision::new(591_480))), "win");
        assert_eq!(BrowserKind::Chromium.archive(platform, Some(Revision::new(591_479))), "win32");
        assert_eq!(BrowserKind::Chromium.archive(platform, None), "win32");
    }
    assert_eq!(BrowserKind::Chromium.archive_name(Platform::Linux, None), "chrome-linux");
    assert_eq!(BrowserKind::ChromeHeadlessShell.archive_name(Platform::Mac, None), "chrome-headless-shell-mac-x64");
}

#[test]
fn download_urls() {
    let host = BrowserHost::single("https://host");
    let chromium = BuildInfo::revision(Revision::new(1520176));
    assert_eq!(
        BrowserKind::Chromium.download_url(&chromium, Platform::Linux, &host),
        "https://host/chromium-browser-snapshots/Linux_x64/1520176/chrome-linux.zip"
    );
    assert_eq!(
        BrowserKind::Chromium.download_url(&chromium, Platform::Win64, &host),
        "https://host/chromium-browser-snapshots/Win_x64/1520176/chrome-win.zip"
    );
    let chrome = BuildInfo::both("113.0.5672.63".to_string(), Revision::new(1121455));
    assert_eq!(
        BrowserKind::Chrome.download_url(&chrome, Platform::MacArm, &host),
        "https://host/chrome-for-testing/113.0.5672.63/mac-arm64/chrome-mac-arm64.zip"
    );
    assert_eq!(
        BrowserKind::ChromeHeadlessShell.download_url(&chrome, Platform::Win32, &host),
        "https://host/chrome-for-testing/113.0.5672.63/win32/chrome-headless-shell-win32.zip"
    );
}

#[test]
fn executables() {
    let to_strs = |v: Vec<String>| v.join("/");
    assert_eq!(to_strs(BrowserKind::Chromium.executable(Platform::Linux, None)), "chrome-linux/chrome");
    assert_eq!(
        to_strs(BrowserKind::Chromium.executable(Platform::MacArm, None)),
        "chrome-mac/Chromium.app/Contents/MacOS/Chromium"
    );
    assert_eq!(
        to_strs(BrowserKind::Chromium.executable(Platform::Win64, Some(Revision::new(1520176)))),
        "chrome-win/chrome.exe"
    );
    assert_eq!(
        to_strs(BrowserKind::Chrome.executable(Platform::Win32, None)),
        "chrome-win32/chrome.exe"
    );
}

#[test]
fn revision_resolution() {
    let host = BrowserHost::current(BrowserKind::Chrome);
    let revision = Revision::new(1121455);
    match revision.resolve_start(BrowserKind::Chromium, &host) {
        ResolveStep::Done(info) => {
            assert_eq!(info.id, "1121455");
            assert_eq!(info.revision, Some(revision));
            assert_eq!(info.version, None);
        }
        other => panic!("{other:?}"),
    }
    match revision.resolve_start(BrowserKind::Chrome, &host) {
        ResolveStep::Fetch(url) => assert_eq!(
            url,
            "https://googlechromelabs.github.io//chrome-for-testing/known-good-versions.json"
        ),
        other => panic!("{other:?}"),
    }
    let known = vec![
        KnownGoodVersion { version: "113.0.5672.0".to_string(), revision: "1121455".to_string() },
        KnownGoodVersion { version: "113.0.5672.1".to_string(), revision: "1121456".to_string() },
        KnownGoodVersion { version: "113.0.5672.2".to_string(), revision: "1121455".to_string() },
    ];
    let info = revision.resolve_finish(&known).unwrap();
    assert_eq!(info.id, "113.0.5672.0");
    assert_eq!(info.version.as_deref(), Some("113.0.5672.0"));
    assert_eq!(info.revision, Some(revision));
    assert!(matches!(
        Revision::new(1121457).resolve_finish(&known),
        Err(VersionError::InvalidRevision(t)) if t == "1121457"
    ));
    let small = vec![KnownGoodVersion { version: "1.0.0.0".to_string(), revision: "5".to_string() }];
    assert!(matches!(
        Revision::new(5).resolve_finish(&small),
        Err(VersionError::InvalidRevision(t)) if t == "5"
    ));
}

#[test]
fn version_resolution() {
    let host = BrowserHost::single("https://meta");
    assert!(matches!(
        Version::new(113, 0, 5672).resolve_start(BrowserKind::Chromium, &host),
        Err(VersionError::ResolveFailed(t)) if t == "Build not supported for chromium"
    ));
    match Version::exact(113, 0, 5672, 63).resolve_start(BrowserKind::Chrome, &host) {
        Ok(ResolveStep::Done(info)) => {
            assert_eq!(info.id, "113.0.5672.63");
            assert_eq!(info.version.as_deref(), Some("113.0.5672.63"));
            assert_eq!(info.revision, None);
        }
        other => panic!("{other:?}"),
    }
    match Version::new(113, 0, 5672).resolve_start(BrowserKind::ChromeHeadlessShell, &host) {
        Ok(ResolveStep::Fetch(url)) => assert_eq!(
            url,
            "https://meta/chrome-for-testing/latest-patch-versions-per-build.json"
        ),
        other => panic!("{other:?}"),
    }
    let latest = |build: &str, version: &str, revision: &str| PatchVersion {
        build: build.to_string(),
        latest: KnownGoodVersion { version: version.to_string(), revision: revision.to_string() },
    };
    let builds = vec![
        latest("112.0.5615", "112.0.5615.165", "1109224"),
        latest("113.0.5672", "113.0.5672.63", "1121455"),
        latest("114.0.0", "114.0.0.1", "oops"),
    ];
    let info = Version::new(113, 0, 5672).resolve_finish(&builds).unwrap();
    assert_eq!(info.id, "113.0.5672.63");
    assert_eq!(info.revision, Some(Revision::new(1121455)));
    assert!(matches!(
        Version::new(115, 0, 0).resolve_finish(&builds),
        Err(VersionError::InvalidBuild(t)) if t == "115.0.0"
    ));
    assert!(matches!(
        Version::new(114, 0, 0).resolve_finish(&builds),
        Err(VersionError::InvalidRevision(t)) if t == "oops"
    ));
}

#[test]
fn extension_of_a_file_name() {
    assert_eq!(with_extension("linux-1520176", "zip"), "linux-1520176.zip");
    assert_eq!(with_extension("linux-113.0.5672.63", "zip"), "linux-113.0.5672.zip");
    assert_eq!(with_extension(".hidden", "zip"), ".hidden.zip");
    assert_eq!(with_extension("a.", "zip"), "a.zip");
    for name in ["linux-1520176", "linux-113.0.5672.63", ".hidden", "a.", "a.b.c"] {
        let expected = std::path::Path::new(name).with_extension("zip");
        assert_eq!(with_extension(name, "zip"), expected.to_str().unwrap(), "{name:?}");
    }
}

#[test]
fn fetcher_plans() {
    let fetcher = BrowserFetcher::new(BrowserFetcherOptions::new(
        BrowserKind::Chromium,
        Platform::Linux,
        "./.cache",
    ));
    assert!(matches!(fetcher.wanted(), BrowserVersion::Revision(r) if r == Revision::new(1520176)));
    assert_eq!(fetcher.target(), (BrowserKind::Chromium, Platform::Linux));
    assert_eq!(fetcher.source().object, "https://storage.googleapis.com");

    let info = BuildInfo::revision(Revision::new(1520176));
    let folder = fetcher.folder_path(&info);
    assert_eq!(folder.root, "./.cache");
    assert_eq!(parts(&folder), ["linux-1520176"]);

    let plan = fetcher.download(&info);
    assert_eq!(
        plan.url,
        "https://storage.googleapis.com/chromium-browser-snapshots/Linux_x64/1520176/chrome-linux.zip"
    );
    assert_eq!(plan.archive_path.root, "./.cache");
    assert_eq!(parts(&plan.archive_path), ["linux-1520176.zip"]);
    assert_eq!(parts(&plan.folder_path), ["linux-1520176"]);

    let at = fetcher.installation(info.duplicate());
    assert_eq!(parts(&at.folder_path), ["linux-1520176"]);
    assert_eq!(parts(&at.executable_path), ["linux-1520176", "chrome-linux", "chrome"]);
    assert_eq!(at.build_info.id, "1520176");
    assert_eq!(
        at.describe("./.cache/linux-1520176/chrome-linux/chrome"),
        "ID: 1520176, Revision: 1520176, Path: ./.cache/linux-1520176/chrome-linux/chrome"
    );

    assert!(matches!(fetcher.fetch(info.duplicate(), true), FetchStep::Installed(_)));
    assert!(matches!(fetcher.fetch(info, false), FetchStep::Download(_)));
}

#[test]
fn install_paths() {
    let mut path = InstallPath::new("/opt");
    assert!(path.parts.is_empty());
    path.push("a.tar".to_string());
    let copy = path.duplicate();
    assert_eq!(copy.root, "/opt");
    assert_eq!(parts(&copy), ["a.tar"]);
    assert_eq!(parts(&path.with_extension("zip")), ["a.zip"]);
    assert!(InstallPath::new("/opt").with_extension("zip").parts.is_empty());
}
