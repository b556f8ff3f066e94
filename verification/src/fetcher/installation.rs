//! An installed browser.

use vstd::prelude::*;

use super::path::InstallPath;
use crate::build_info::describe_build;
use crate::BuildInfo;

verus! {

/// Details of an installed version of chromium
#[derive(Clone, Debug)]
pub struct BrowserFetcherInstallation {
    pub folder_path: InstallPath,
    pub executable_path: InstallPath,
    pub build_info: BuildInfo,
}

impl BrowserFetcherInstallation {
    /// The installation on one line: the build, then the path of the
    /// executable as `executable` spells it for the system at hand.
    pub fn describe(&self, executable: &str) -> (r: String)
        ensures
            r@ == describe_build(self.build_info) + ", Path: "@ + executable@,
    {
        let mut out = self.build_info.to_string();
        out.append(", Path: ");
        out.append(executable);
        out
    }
}

} // verus!
