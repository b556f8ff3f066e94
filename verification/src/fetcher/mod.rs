//! Downloading and installing a browser: what is fetched from where, and
//! where it ends up.

use vstd::prelude::*;

pub use self::installation::BrowserFetcherInstallation;
pub use self::options::BrowserFetcherOptions;
pub use self::path::InstallPath;
use crate::{BrowserHost, BrowserKind, BrowserVersion, BuildInfo, Platform};
use crate::text::file_stem;

pub mod installation;
pub mod options;
pub mod path;

verus! {

/// A [`BrowserFetcher`] used to download and install a version of chromium.
#[derive(Debug)]
pub struct BrowserFetcher {
    host: BrowserHost,
    path: String,
    platform: Platform,
    kind: BrowserKind,
    version: BrowserVersion,
}

/// What a download consists of: the archive at `url` is stored at
/// `archive_path` and unpacked into `folder_path`.
#[derive(Debug)]
pub struct DownloadPlan {
    /// The address of the archive.
    pub url: String,
    /// Where the archive is stored.
    pub archive_path: InstallPath,
    /// The folder that the archive is unpacked into.
    pub folder_path: InstallPath,
}

/// What is left to do once the build is resolved.
#[derive(Debug)]
pub enum FetchStep {
    /// The build is not installed yet: download and unpack it.
    Download(DownloadPlan),
    /// The build is installed: this is where.
    Installed(BrowserFetcherInstallation),
}

impl BrowserFetcher {
    /// The host that the fetcher downloads from.
    pub closed spec fn host(self) -> BrowserHost {
        self.host
    }

    /// The folder that the fetcher installs below.
    pub closed spec fn path(self) -> Seq<char> {
        self.path@
    }

    /// The platform that the fetcher downloads for.
    pub closed spec fn platform(self) -> Platform {
        self.platform
    }

    /// The kind of browser that the fetcher downloads.
    pub closed spec fn kind(self) -> BrowserKind {
        self.kind
    }

    /// The version that the fetcher was asked for.
    pub closed spec fn version(self) -> BrowserVersion {
        self.version
    }

    /// The name of the folder of a build below the fetcher's path.
    pub open spec fn folder_name_of(self, build_info: BuildInfo) -> Seq<char> {
        self.platform().name() + "-"@ + build_info.id@
    }

    pub fn new(options: BrowserFetcherOptions) -> (r: Self)
        ensures
            r.host() == options.host,
            r.path() == options.path@,
            r.platform() == options.platform,
            r.kind() == options.kind,
            r.version() == options.version,
    {
        Self {
            host: options.host,
            path: options.path,
            platform: options.platform,
            kind: options.kind,
            version: options.version,
        }
    }

    /// The version to resolve before anything is downloaded.
    pub fn wanted(&self) -> (r: BrowserVersion)
        ensures
            r == self.version(),
    {
        self.version
    }

    /// The host to resolve the version against and to download from.
    pub fn source(&self) -> (r: &BrowserHost)
        ensures
            *r == self.host(),
    {
        &self.host
    }

    /// The kind of browser and the platform that the fetcher is for.
    pub fn target(&self) -> (r: (BrowserKind, Platform))
        ensures
            r == (self.kind(), self.platform()),
    {
        (self.kind, self.platform)
    }

    /// The folder that a build is installed in.
    pub fn folder_path(&self, build_info: &BuildInfo) -> (r: InstallPath)
        ensures
            r.root@ == self.path(),
            r.components() == seq![self.folder_name_of(*build_info)],
    {
        let mut folder_path = InstallPath::new(self.path.as_str());
        folder_path.push(self.platform.folder_name(build_info));
        assert(folder_path.components() =~= seq![self.folder_name_of(*build_info)]);
        folder_path
    }

    /// Whether `plan` is the download of a build: the archive of the build
    /// goes beside the folder of the build, under the folder's name with the
    /// extension `zip`.
    pub open spec fn is_download_of(self, plan: DownloadPlan, build_info: BuildInfo) -> bool {
        &&& plan.url@ == self.kind().download_url_of(build_info, self.platform(), self.host())
        &&& plan.folder_path.root@ == self.path()
        &&& plan.folder_path.components() == seq![self.folder_name_of(build_info)]
        &&& plan.archive_path.root@ == self.path()
        &&& plan.archive_path.components() == seq![
            file_stem(self.folder_name_of(build_info)) + seq!['.'] + "zip"@,
        ]
    }

    /// Whether `at` is where a build is installed: in its folder below the
    /// fetcher's path, with the executable where the kind of browser has it.
    pub open spec fn is_installation_of(
        self,
        at: BrowserFetcherInstallation,
        build_info: BuildInfo,
    ) -> bool {
        &&& at.build_info == build_info
        &&& at.folder_path.root@ == self.path()
        &&& at.folder_path.components() == seq![self.folder_name_of(build_info)]
        &&& at.executable_path.root@ == self.path()
        &&& at.executable_path.components() == seq![self.folder_name_of(build_info)]
            + self.kind().executable_of(self.platform(), build_info.revision)
    }

    /// What to download for a build, and where to put it.
    pub fn download(&self, build_info: &BuildInfo) -> (r: DownloadPlan)
        ensures
            self.is_download_of(r, *build_info),
    {
        let url = self.kind.download_url(build_info, self.platform, &self.host);
        let folder_path = self.folder_path(build_info);
        let archive_path = folder_path.with_extension("zip");
        assert(archive_path.components() =~= seq![
            file_stem(self.folder_name_of(*build_info)) + seq!['.'] + "zip"@,
        ]);
        DownloadPlan { url, archive_path, folder_path }
    }

    /// Where a build is installed and where its executable is.
    pub fn installation(&self, build_info: BuildInfo) -> (r: BrowserFetcherInstallation)
        ensures
            self.is_installation_of(r, build_info),
    {
        let folder_path = self.folder_path(&build_info);
        let mut executable_path = folder_path.duplicate();
        let mut inner = self.kind.executable(self.platform, build_info.revision);
        let ghost wanted = self.kind().executable_of(self.platform(), build_info.revision);
        let ghost head = seq![self.folder_name_of(build_info)];
        let mut i: usize = 0;
        while i < inner.len()
            invariant
                i <= inner.len(),
                inner@.len() == wanted.len(),
                forall|j: int| 0 <= j < inner@.len() ==> (#[trigger] inner@[j])@ == wanted[j],
                executable_path.root@ == self.path(),
                executable_path.components() == head + wanted.take(i as int),
            decreases inner.len() - i,
        {
            let part = inner[i].clone();
            executable_path.push(part);
            assert(head + wanted.take(i + 1) =~= (head + wanted.take(i as int)).push(wanted[i as int]));
            i += 1;
        }
        assert(wanted.take(inner.len() as int) =~= wanted);
        BrowserFetcherInstallation { folder_path, executable_path, build_info }
    }

    /// Decides what follows the resolution of the version: a build that is
    /// installed already is used as it is, any other is downloaded first.
    pub fn fetch(&self, build_info: BuildInfo, installed: bool) -> (r: FetchStep)
        ensures
            match r {
                FetchStep::Installed(at) => installed && self.is_installation_of(at, build_info),
                FetchStep::Download(plan) => !installed && self.is_download_of(plan, build_info),
            },
    {
        if installed {
            FetchStep::Installed(self.installation(build_info))
        } else {
            FetchStep::Download(self.download(&build_info))
        }
    }
}

} // verus!
