//! The setup command's decisions: where the global configuration lives,
//! which package-manager binary to use, the download address of the
//! package manager for this platform, and the progress arithmetic of the
//! download. Reading the environment, searching the path and downloading
//! are the caller's part.

use vstd::prelude::*;
use vstd::string::*;
use crate::errors::Error;

verus! {

/// Arguments of the setup command: the directory for global configuration,
/// if the default is not wanted.
pub struct SetupArgs {
    pub config_dir: Option<String>,
}

/// Set the orchestrator up for use on this machine.
pub struct SetupCommand {
    pub args: SetupArgs,
}

impl SetupCommand {
    pub fn new(args: SetupArgs) -> (r: SetupCommand)
        ensures
            r.args == args,
    {
        SetupCommand { args }
    }
}

/// Global, per-machine configuration: its root directory and the
/// package-manager binary to invoke.
pub struct GlobalConfig {
    pub root: String,
    pub pnpm_path: String,
}

impl GlobalConfig {
    /// The global configuration root: an explicit override wins; otherwise
    /// it lives under the home directory, and a machine without a home
    /// directory is a configuration error.
    pub fn find_root(env_override: Option<String>, home_dir: Option<String>) -> (r: Result<
        String,
        Error,
    >)
        ensures
            match env_override {
                Some(v) => r matches Ok(p) && p@ == v@,
                None => match home_dir {
                    Some(h) => r matches Ok(p) && p@ == h@ + "/.local"@,
                    None => r matches Err(e) && e is ConfigError,
                },
            },
    {
        match env_override {
            Some(v) => Ok(v),
            None => match home_dir {
                Some(h) => Ok(h.concat("/.local")),
                None => Err(Error::ConfigError { message: String::from_str("no home directory") }),
            },
        }
    }

    /// Picks the package-manager binary: the one installed under the
    /// configuration root wins; otherwise the one found on the search path;
    /// none installed is a configuration error. A configuration root that
    /// does not exist is a configuration error as well.
    pub fn resolve(
        root: String,
        root_exists: bool,
        pnpm_in_root_exists: bool,
        path_lookup: Option<String>,
    ) -> (r: Result<GlobalConfig, Error>)
        ensures
            !root_exists ==> (r matches Err(e) && e is ConfigError),
            root_exists && pnpm_in_root_exists ==> (r matches Ok(c) && c.root@ == root@
                && c.pnpm_path@ == root@ + "/bin/pnpm"@),
            root_exists && !pnpm_in_root_exists ==> match path_lookup {
                Some(p) => r matches Ok(c) && c.root@ == root@ && c.pnpm_path@ == p@,
                None => r matches Err(e) && e is ConfigError,
            },
    {
        if !root_exists {
            return Err(Error::ConfigError { message: root });
        }
        if pnpm_in_root_exists {
            let pnpm_path = root.clone().concat("/bin/pnpm");
            return Ok(GlobalConfig { root, pnpm_path });
        }
        match path_lookup {
            Some(p) => Ok(GlobalConfig { root, pnpm_path: p }),
            None => Err(Error::ConfigError { message: String::from_str("pnpm is not installed") }),
        }
    }

    /// The package-manager binary this machine should invoke.
    pub fn pnpm_path(&self) -> (r: &String)
        ensures
            r@ == self.pnpm_path@,
    {
        &self.pnpm_path
    }
}

/// The platform component of the package manager's release artifact name.
pub open spec fn spec_pnpm_platform(os: Seq<char>) -> Seq<char> {
    if os == "macos"@ || os == "ios"@ {
        "macos"@
    } else if os == "windows"@ {
        "win"@
    } else {
        "linuxstatic"@
    }
}

/// The architecture component of the package manager's release artifact
/// name.
pub open spec fn spec_pnpm_arch(arch: Seq<char>) -> Seq<char> {
    if arch == "arm"@ {
        "arm64"@
    } else {
        "x64"@
    }
}

pub fn pnpm_platform(os: &String) -> (r: String)
    ensures
        r@ == spec_pnpm_platform(os@),
{
    let macos = String::from_str("macos");
    let ios = String::from_str("ios");
    let windows = String::from_str("windows");
    if *os == macos || *os == ios {
        macos
    } else if *os == windows {
        String::from_str("win")
    } else {
        String::from_str("linuxstatic")
    }
}

pub fn pnpm_arch(arch: &String) -> (r: String)
    ensures
        r@ == spec_pnpm_arch(arch@),
{
    let arm = String::from_str("arm");
    if *arch == arm {
        String::from_str("arm64")
    } else {
        String::from_str("x64")
    }
}

/// The release address the package manager is downloaded from, for the
/// given version and machine.
pub fn pnpm_download_url(version: &String, os: &String, arch: &String) -> (r: String)
    ensures
        r@ == "https://github.com/pnpm/pnpm/releases/download/v"@ + version@ + "/pnpm-"@
            + spec_pnpm_platform(os@) + "-"@ + spec_pnpm_arch(arch@),
{
    let platform = pnpm_platform(os);
    let a = pnpm_arch(arch);
    String::from_str("https://github.com/pnpm/pnpm/releases/download/v").concat(
        version.as_str(),
    ).concat("/pnpm-").concat(platform.as_str()).concat("-").concat(a.as_str())
}

/// One step of download progress: the byte count advances by the chunk just
/// written, capped at the reported total.
pub fn advance_progress(downloaded: u64, chunk_len: u64, total: u64) -> (r: u64)
    requires
        downloaded <= total,
    ensures
        r == if downloaded + chunk_len <= total {
            downloaded + chunk_len
        } else {
            total as int
        },
        r <= total,
{
    if chunk_len <= total - downloaded {
        downloaded + chunk_len
    } else {
        total
    }
}

} // verus!
