use yingdraft::release::{
    asset_name_for, choose_install_dir, ps_single_quoted, release_download_url, windows_handoff_script,
    InstallDirChoice, ReleaseError,
};

#[test]
fn detects_release_assets() {
    assert_eq!(asset_name_for("macos", "aarch64").unwrap(), "yingdraft-macos-arm64.tar.gz");
    assert_eq!(asset_name_for("macos", "x86_64").unwrap(), "yingdraft-macos-x64.tar.gz");
    assert_eq!(asset_name_for("linux", "x86_64").unwrap(), "yingdraft-linux-x64.tar.gz");
    assert_eq!(asset_name_for("windows", "x86_64").unwrap(), "yingdraft-windows-x64.tar.gz");
}

#[test]
fn builds_release_download_urls() {
    assert_eq!(
        release_download_url("owner/repo", "latest", "yingdraft-linux-x64.tar.gz"),
        "https://github.com/owner/repo/releases/latest/download/yingdraft-linux-x64.tar.gz"
    );
    assert_eq!(
        release_download_url("owner/repo", "v1.2.3", "yingdraft-linux-x64.tar.gz"),
        "https://github.com/owner/repo/releases/download/v1.2.3/yingdraft-linux-x64.tar.gz"
    );
}

#[test]
fn release_asset_aliases_and_refusals() {
    assert_eq!(asset_name_for("macos", "arm64").unwrap(), "yingdraft-macos-arm64.tar.gz");
    assert_eq!(asset_name_for("linux", "amd64").unwrap(), "yingdraft-linux-x64.tar.gz");
    assert_eq!(asset_name_for("macos", "riscv64"), Err(ReleaseError::UnsupportedMacosArch("riscv64".to_string())));
    assert_eq!(asset_name_for("linux", "aarch64"), Err(ReleaseError::UnsupportedLinuxArch("aarch64".to_string())));
    assert_eq!(asset_name_for("windows", "aarch64"), Err(ReleaseError::UnsupportedWindowsArch("aarch64".to_string())));
    assert_eq!(asset_name_for("freebsd", "x86_64"), Err(ReleaseError::UnsupportedOs("freebsd".to_string())));
}

#[test]
fn quotes_paths_for_powershell() {
    assert_eq!(ps_single_quoted(r"C:\Users\o'brien\YingDraft"), r"'C:\Users\o''brien\YingDraft'");
    assert_eq!(ps_single_quoted(""), "''");
}

#[test]
fn writes_windows_handoff_script() {
    let script = windows_handoff_script(4242, r"C:\tmp\install-jy.ps1", r"C:\Apps\YingDraft", r"C:\tmp");
    assert_eq!(
        script,
        "$ErrorActionPreference = \"Stop\"\nWait-Process -Id 4242 -ErrorAction SilentlyContinue\n& 'C:\\tmp\\install-jy.ps1' -InstallDir 'C:\\Apps\\YingDraft'\n$exitCode = $LASTEXITCODE\nStart-Sleep -Seconds 1\nRemove-Item -LiteralPath 'C:\\tmp' -Recurse -Force -ErrorAction SilentlyContinue\nexit $exitCode\n"
    );
}

#[test]
fn install_dir_is_chosen_in_order() {
    assert_eq!(choose_install_dir(Some("/opt/a"), Some("/env"), Some("/exe")), InstallDirChoice::Given("/opt/a".to_string()));
    assert_eq!(choose_install_dir(None, Some("/env"), Some("/exe")), InstallDirChoice::FromEnvironment("/env".to_string()));
    assert_eq!(choose_install_dir(None, Some("   "), Some("/exe")), InstallDirChoice::BesideExecutable("/exe".to_string()));
    assert_eq!(choose_install_dir(None, None, None), InstallDirChoice::Default);
}
