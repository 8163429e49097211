//! Names and download addresses of the published CLI release archives.

use vstd::prelude::*;
use crate::chars::{decimal, decimal_vec, is_blank, vec_is_blank};
use crate::text::{chars_of, push_str, str_eq, string_from_chars};

verus! {

broadcast use vstd::string::group_string_axioms;

/// Why no release archive matches the running platform.
#[derive(Debug, PartialEq, Eq)]
pub enum ReleaseError {
    /// macOS on an architecture without a published build.
    UnsupportedMacosArch(String),
    /// Linux on an architecture without a published build.
    UnsupportedLinuxArch(String),
    /// Windows on an architecture without a published build.
    UnsupportedWindowsArch(String),
    /// An operating system without any published build.
    UnsupportedOs(String),
}

/// The platform tag of the archive published for `os` and `arch`, if any.
pub open spec fn spec_platform(os: Seq<char>, arch: Seq<char>) -> Option<Seq<char>> {
    if os == "macos"@ {
        if arch == "aarch64"@ || arch == "arm64"@ {
            Some("macos-arm64"@)
        } else if arch == "x86_64"@ || arch == "amd64"@ {
            Some("macos-x64"@)
        } else {
            None
        }
    } else if os == "linux"@ {
        if arch == "x86_64"@ || arch == "amd64"@ { Some("linux-x64"@) } else { None }
    } else if os == "windows"@ {
        if arch == "x86_64"@ || arch == "amd64"@ { Some("windows-x64"@) } else { None }
    } else {
        None
    }
}

/// The archive name for a platform tag.
pub open spec fn spec_asset_name(platform: Seq<char>) -> Seq<char> {
    "yingdraft-"@ + platform + ".tar.gz"@
}

/// Name of the release archive for the operating system `os` and CPU
/// architecture `arch`, as `std::env::consts` spells them.
pub fn asset_name_for(os: &str, arch: &str) -> (r: Result<String, ReleaseError>)
    ensures
        match spec_platform(os@, arch@) {
            Some(p) => r matches Ok(name) && name@ == spec_asset_name(p),
            None => r matches Err(e) && (
                if os@ == "macos"@ { e matches ReleaseError::UnsupportedMacosArch(a) && a@ == arch@ }
                else if os@ == "linux"@ { e matches ReleaseError::UnsupportedLinuxArch(a) && a@ == arch@ }
                else if os@ == "windows"@ { e matches ReleaseError::UnsupportedWindowsArch(a) && a@ == arch@ }
                else { e matches ReleaseError::UnsupportedOs(o) && o@ == os@ }),
        },
{
    proof {
        reveal_strlit("macos");
        reveal_strlit("linux");
        reveal_strlit("windows");
        reveal_strlit("aarch64");
        reveal_strlit("arm64");
        reveal_strlit("x86_64");
        reveal_strlit("amd64");
    }
    let x64 = str_eq(arch, "x86_64") || str_eq(arch, "amd64");
    let platform: &str = if str_eq(os, "macos") {
        if str_eq(arch, "aarch64") || str_eq(arch, "arm64") {
            "macos-arm64"
        } else if x64 {
            "macos-x64"
        } else {
            return Err(ReleaseError::UnsupportedMacosArch(arch.to_string()));
        }
    } else if str_eq(os, "linux") {
        if x64 {
            "linux-x64"
        } else {
            return Err(ReleaseError::UnsupportedLinuxArch(arch.to_string()));
        }
    } else if str_eq(os, "windows") {
        if x64 {
            "windows-x64"
        } else {
            return Err(ReleaseError::UnsupportedWindowsArch(arch.to_string()));
        }
    } else {
        return Err(ReleaseError::UnsupportedOs(os.to_string()));
    };
    let mut v = chars_of("yingdraft-");
    push_str(&mut v, platform);
    push_str(&mut v, ".tar.gz");
    Ok(string_from_chars(&v))
}

/// The download address of a release archive on GitHub.
pub open spec fn spec_release_download_url(repo: Seq<char>, version: Seq<char>, asset: Seq<char>) -> Seq<char> {
    if version == "latest"@ {
        "https://github.com/"@ + repo + "/releases/latest/download/"@ + asset
    } else {
        "https://github.com/"@ + repo + "/releases/download/"@ + version + "/"@ + asset
    }
}

/// Download address of `asset` in release `version` of the GitHub repository
/// `repo`; the version `latest` names the newest release.
pub fn release_download_url(repo: &str, version: &str, asset: &str) -> (url: String)
    ensures
        url@ == spec_release_download_url(repo@, version@, asset@),
{
    let mut v = chars_of("https://github.com/");
    push_str(&mut v, repo);
    if str_eq(version, "latest") {
        push_str(&mut v, "/releases/latest/download/");
    } else {
        push_str(&mut v, "/releases/download/");
        push_str(&mut v, version);
        push_str(&mut v, "/");
    }
    push_str(&mut v, asset);
    string_from_chars(&v)
}

/// The characters of `s` with each `'` doubled.
pub open spec fn doubled_quotes(s: Seq<char>) -> Seq<char>
    decreases s.len(),
{
    if s.len() == 0 {
        s
    } else if s.last() == '\'' {
        doubled_quotes(s.drop_last()) + seq!['\'', '\'']
    } else {
        doubled_quotes(s.drop_last()).push(s.last())
    }
}

/// Quotes a path for a PowerShell script: single quotes around it, and each
/// `'` inside doubled.
pub fn ps_single_quoted(path: &str) -> (r: String)
    ensures
        r@ == seq!['\''] + doubled_quotes(path@) + seq!['\''],
{
    let v = chars_of(path);
    let mut out: Vec<char> = Vec::new();
    out.push('\'');
    let mut i: usize = 0;
    assert(v@.take(0) =~= Seq::<char>::empty());
    while i < v.len()
        invariant
            i <= v.len(),
            out@ == seq!['\''] + doubled_quotes(v@.take(i as int)),
        decreases v.len() - i,
    {
        assert(v@.take(i + 1).drop_last() =~= v@.take(i as int));
        assert(v@.take(i + 1).last() == v@[i as int]);
        if v[i] == '\'' {
            out.push('\'');
            out.push('\'');
        } else {
            out.push(v[i]);
        }
        i += 1;
    }
    assert(v@.take(i as int) =~= v@);
    out.push('\'');
    string_from_chars(&out)
}

/// The PowerShell script that finishes an update on Windows once the
/// running CLI (process `pid`) has exited: it waits for the process, runs
/// the installer into the install directory, removes the temporary
/// directory and exits with the installer's code. The paths are given
/// quoted.
pub open spec fn spec_handoff_script(pid: nat, installer: Seq<char>, install_dir: Seq<char>, temp_root: Seq<char>) -> Seq<char> {
    "$ErrorActionPreference = \"Stop\"\nWait-Process -Id "@ + decimal(pid) + " -ErrorAction SilentlyContinue\n& "@
        + installer + " -InstallDir "@ + install_dir + "\n$exitCode = $LASTEXITCODE\nStart-Sleep -Seconds 1\nRemove-Item -LiteralPath "@
        + temp_root + " -Recurse -Force -ErrorAction SilentlyContinue\nexit $exitCode\n"@
}

/// The PowerShell script that finishes an update on Windows (see
/// [`spec_handoff_script`]), with the paths quoted by [`ps_single_quoted`].
pub fn windows_handoff_script(pid: u32, installer: &str, install_dir: &str, temp_root: &str) -> (r: String)
    ensures
        r@ == spec_handoff_script(
            pid as nat,
            seq!['\''] + doubled_quotes(installer@) + seq!['\''],
            seq!['\''] + doubled_quotes(install_dir@) + seq!['\''],
            seq!['\''] + doubled_quotes(temp_root@) + seq!['\''],
        ),
{
    let mut v = chars_of("$ErrorActionPreference = \"Stop\"\nWait-Process -Id ");
    let mut d = decimal_vec(pid as u128);
    v.append(&mut d);
    push_str(&mut v, " -ErrorAction SilentlyContinue\n& ");
    let q1 = ps_single_quoted(installer);
    push_str(&mut v, q1.as_str());
    push_str(&mut v, " -InstallDir ");
    let q2 = ps_single_quoted(install_dir);
    push_str(&mut v, q2.as_str());
    push_str(&mut v, "\n$exitCode = $LASTEXITCODE\nStart-Sleep -Seconds 1\nRemove-Item -LiteralPath ");
    let q3 = ps_single_quoted(temp_root);
    push_str(&mut v, q3.as_str());
    push_str(&mut v, " -Recurse -Force -ErrorAction SilentlyContinue\nexit $exitCode\n");
    string_from_chars(&v)
}

/// Where an update installs.
#[derive(Debug, Clone, PartialEq, Eq)]
pub enum InstallDirChoice {
    /// The directory given on the command line.
    Given(String),
    /// The directory named by the `YINGDRAFT_INSTALL_DIR` variable.
    FromEnvironment(String),
    /// The directory above the `bin` directory of the running CLI.
    BesideExecutable(String),
    /// The platform's default directory.
    Default,
}

/// Chooses where an update installs: the directory given on the command
/// line; else the install-directory variable when it is not blank; else the
/// directory the running CLI was installed into; else the default.
pub fn choose_install_dir(given: Option<&str>, from_env: Option<&str>, beside_exe: Option<&str>) -> (r: InstallDirChoice)
    ensures
        match given {
            Some(g) => r matches InstallDirChoice::Given(d) && d@ == g@,
            None => match from_env {
                Some(e) if !is_blank(e@) => r matches InstallDirChoice::FromEnvironment(d) && d@ == e@,
                _ => match beside_exe {
                    Some(b) => r matches InstallDirChoice::BesideExecutable(d) && d@ == b@,
                    None => r is Default,
                },
            },
        },
{
    if let Some(g) = given {
        return InstallDirChoice::Given(g.to_string());
    }
    if let Some(e) = from_env {
        let ev = chars_of(e);
        if !vec_is_blank(&ev) {
            return InstallDirChoice::FromEnvironment(e.to_string());
        }
    }
    match beside_exe {
        Some(b) => InstallDirChoice::BesideExecutable(b.to_string()),
        None => InstallDirChoice::Default,
    }
}

} // verus!
