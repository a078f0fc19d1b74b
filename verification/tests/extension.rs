use bevy_color_lsp::extension::{
    asset_name, bin_suffix, binary_file, file_type, find_asset, is_stale_version_dir, version_dir,
    Action, Architecture, Asset, DownloadedFileType, Event, InstallStatus, Installer, Os, Phase,
    Release,
};

fn feed(inst: Installer, event: Event) -> (Installer, Action) {
    assert!(inst.awaits(&event));
    inst.step(event)
}

fn release() -> Release {
    Release {
        version: "v0.3.0".to_string(),
        assets: vec![
            Asset {
                name: "bevy-color-lsp-x86_64-pc-windows-msvc.zip".to_string(),
                download_url: "https://example.invalid/win.zip".to_string(),
            },
            Asset {
                name: "bevy-color-lsp-x86_64-unknown-linux-gnu.tar.gz".to_string(),
                download_url: "https://example.invalid/linux.tar.gz".to_string(),
            },
            Asset {
                name: "bevy-color-lsp-x86_64-unknown-linux-gnu.tar.gz".to_string(),
                download_url: "https://example.invalid/second.tar.gz".to_string(),
            },
        ],
    }
}

#[test]
fn asset_names_per_platform() {
    assert_eq!(
        asset_name(Os::Mac, Architecture::Aarch64).unwrap(),
        "bevy-color-lsp-aarch64-apple-darwin.tar.gz"
    );
    assert_eq!(
        asset_name(Os::Mac, Architecture::X8664).unwrap(),
        "bevy-color-lsp-x86_64-apple-darwin.tar.gz"
    );
    assert_eq!(
        asset_name(Os::Linux, Architecture::X8664).unwrap(),
        "bevy-color-lsp-x86_64-unknown-linux-gnu.tar.gz"
    );
    assert_eq!(
        asset_name(Os::Linux, Architecture::Aarch64).unwrap(),
        "bevy-color-lsp-aarch64-unknown-linux-gnu.tar.gz"
    );
    assert_eq!(
        asset_name(Os::Windows, Architecture::X8664).unwrap(),
        "bevy-color-lsp-x86_64-pc-windows-msvc.zip"
    );
}

#[test]
fn unsupported_platform_is_named() {
    assert_eq!(
        asset_name(Os::Windows, Architecture::Aarch64).unwrap_err(),
        "unsupported platform: Os::Windows/Architecture::Aarch64"
    );
    assert_eq!(
        asset_name(Os::Linux, Architecture::X86).unwrap_err(),
        "unsupported platform: Os::Linux/Architecture::X86"
    );
}

#[test]
fn file_types_and_suffixes() {
    assert_eq!(file_type(Os::Windows), DownloadedFileType::Zip);
    assert_eq!(file_type(Os::Mac), DownloadedFileType::GzipTar);
    assert_eq!(file_type(Os::Linux), DownloadedFileType::GzipTar);
    assert_eq!(bin_suffix(Os::Windows), ".exe");
    assert_eq!(bin_suffix(Os::Linux), "");
}

#[test]
fn install_paths() {
    assert_eq!(version_dir("v1.2.0"), "bevy-color-lsp-v1.2.0");
    assert_eq!(
        binary_file("bevy-color-lsp-v1.2.0", Os::Linux),
        "bevy-color-lsp-v1.2.0/bevy-color-lsp"
    );
    assert_eq!(
        binary_file("bevy-color-lsp-v1.2.0", Os::Windows),
        "bevy-color-lsp-v1.2.0/bevy-color-lsp.exe"
    );
}

#[test]
fn stale_version_dirs() {
    assert!(is_stale_version_dir("bevy-color-lsp-v0.1.0", "bevy-color-lsp-v0.2.0"));
    assert!(!is_stale_version_dir("bevy-color-lsp-v0.2.0", "bevy-color-lsp-v0.2.0"));
    assert!(!is_stale_version_dir("other-dir", "bevy-color-lsp-v0.2.0"));
    assert!(!is_stale_version_dir("bevy", "bevy-color-lsp-v0.2.0"));
}

#[test]
fn first_matching_asset_is_found() {
    let r = release();
    assert_eq!(find_asset(&r.assets, "bevy-color-lsp-x86_64-unknown-linux-gnu.tar.gz"), Some(1));
    assert_eq!(find_asset(&r.assets, "missing"), None);
}

#[test]
fn settings_path_wins() {
    let (inst, action) = Installer::start(Some("/old/bin".to_string()));
    assert!(matches!(action, Action::ReadSettings));
    let (inst, action) = feed(inst, Event::SettingsPath(Some("/custom/lsp".to_string())));
    assert!(matches!(inst.phase, Phase::Done));
    assert!(matches!(action, Action::Finish(Ok(ref p)) if p == "/custom/lsp"));
    assert_eq!(inst.cached.as_deref(), Some("/old/bin"));
}

#[test]
fn path_lookup_comes_second() {
    let (inst, _) = Installer::start(None);
    let (inst, action) = feed(inst, Event::SettingsPath(None));
    assert!(matches!(action, Action::FindOnPath(ref n) if n == "bevy-color-lsp"));
    let (_, action) = feed(inst, Event::OnPath(Some("/usr/bin/bevy-color-lsp".to_string())));
    assert!(matches!(action, Action::Finish(Ok(ref p)) if p == "/usr/bin/bevy-color-lsp"));
}

#[test]
fn cached_binary_reused() {
    let (inst, _) = Installer::start(Some("bevy-color-lsp-v0.3.0/bevy-color-lsp".to_string()));
    let (inst, _) = feed(inst, Event::SettingsPath(None));
    let (inst, action) = feed(inst, Event::OnPath(None));
    assert!(matches!(action, Action::CheckExists(ref p) if p == "bevy-color-lsp-v0.3.0/bevy-color-lsp"));
    let (inst, action) = feed(inst, Event::Exists(true));
    assert!(matches!(action, Action::Finish(Ok(ref p)) if p == "bevy-color-lsp-v0.3.0/bevy-color-lsp"));
    assert!(matches!(inst.phase, Phase::Done));
}

#[test]
fn missing_cached_binary_checks_for_update() {
    let (inst, _) = Installer::start(Some("gone".to_string()));
    let (inst, _) = feed(inst, Event::SettingsPath(None));
    let (inst, _) = feed(inst, Event::OnPath(None));
    let (_, action) = feed(inst, Event::Exists(false));
    assert!(matches!(action, Action::ShowStatus(InstallStatus::CheckingForUpdate)));
}

#[test]
fn full_install() {
    let (inst, _) = Installer::start(None);
    let (inst, _) = feed(inst, Event::SettingsPath(None));
    let (inst, action) = feed(inst, Event::OnPath(None));
    assert!(matches!(action, Action::ShowStatus(InstallStatus::CheckingForUpdate)));
    let (inst, action) = feed(inst, Event::StatusShown);
    assert!(matches!(action, Action::FetchLatestRelease(ref r) if r == "DavidDudson/zed-bevy-colors"));
    let (inst, action) = feed(inst, Event::LatestRelease(Ok(release())));
    assert!(matches!(action, Action::QueryPlatform));
    let (inst, action) = feed(inst, Event::Platform(Os::Linux, Architecture::X8664));
    assert!(
        matches!(action, Action::CheckExists(ref p) if p == "bevy-color-lsp-v0.3.0/bevy-color-lsp")
    );
    let (inst, action) = feed(inst, Event::Exists(false));
    assert!(matches!(action, Action::ShowStatus(InstallStatus::Downloading)));
    let (inst, action) = feed(inst, Event::StatusShown);
    match &action {
        Action::Download { url, dir, file_type } => {
            assert_eq!(url, "https://example.invalid/linux.tar.gz");
            assert_eq!(dir, "bevy-color-lsp-v0.3.0");
            assert_eq!(*file_type, DownloadedFileType::GzipTar);
        }
        _ => panic!("expected a download"),
    }
    let (inst, action) = feed(inst, Event::Downloaded(Ok(())));
    assert!(
        matches!(action, Action::MakeExecutable(ref p) if p == "bevy-color-lsp-v0.3.0/bevy-color-lsp")
    );
    let (inst, action) = feed(inst, Event::MadeExecutable(Ok(())));
    assert!(matches!(action, Action::RemoveStaleVersions(ref d) if d == "bevy-color-lsp-v0.3.0"));
    let (inst, action) = feed(inst, Event::CleanedUp);
    assert!(
        matches!(action, Action::Finish(Ok(ref p)) if p == "bevy-color-lsp-v0.3.0/bevy-color-lsp")
    );
    assert_eq!(inst.cached.as_deref(), Some("bevy-color-lsp-v0.3.0/bevy-color-lsp"));
    assert!(!inst.awaits(&Event::CleanedUp));
}

#[test]
fn installed_release_is_not_downloaded_again() {
    let (inst, _) = Installer::start(None);
    let (inst, _) = feed(inst, Event::SettingsPath(None));
    let (inst, _) = feed(inst, Event::OnPath(None));
    let (inst, _) = feed(inst, Event::StatusShown);
    let (inst, _) = feed(inst, Event::LatestRelease(Ok(release())));
    let (inst, _) = feed(inst, Event::Platform(Os::Windows, Architecture::X8664));
    let (inst, action) = feed(inst, Event::Exists(true));
    assert!(
        matches!(action, Action::Finish(Ok(ref p)) if p == "bevy-color-lsp-v0.3.0/bevy-color-lsp.exe")
    );
    assert_eq!(inst.cached.as_deref(), Some("bevy-color-lsp-v0.3.0/bevy-color-lsp.exe"));
}

#[test]
fn release_errors_are_passed_on() {
    let (inst, _) = Installer::start(None);
    let (inst, _) = feed(inst, Event::SettingsPath(None));
    let (inst, _) = feed(inst, Event::OnPath(None));
    let (inst, _) = feed(inst, Event::StatusShown);
    let (inst, action) = feed(inst, Event::LatestRelease(Err("rate limited".to_string())));
    assert!(matches!(action, Action::Finish(Err(ref e)) if e == "rate limited"));
    assert!(inst.cached.is_none());
}

#[test]
fn missing_asset_is_reported() {
    let (inst, _) = Installer::start(None);
    let (inst, _) = feed(inst, Event::SettingsPath(None));
    let (inst, _) = feed(inst, Event::OnPath(None));
    let (inst, _) = feed(inst, Event::StatusShown);
    let (inst, _) = feed(inst, Event::LatestRelease(Ok(release())));
    let (_, action) = feed(inst, Event::Platform(Os::Mac, Architecture::Aarch64));
    assert!(matches!(
        action,
        Action::Finish(Err(ref e))
            if e == "no asset named bevy-color-lsp-aarch64-apple-darwin.tar.gz in v0.3.0"
    ));
}

#[test]
fn unsupported_platform_stops_the_install() {
    let (inst, _) = Installer::start(None);
    let (inst, _) = feed(inst, Event::SettingsPath(None));
    let (inst, _) = feed(inst, Event::OnPath(None));
    let (inst, _) = feed(inst, Event::StatusShown);
    let (inst, _) = feed(inst, Event::LatestRelease(Ok(release())));
    let (_, action) = feed(inst, Event::Platform(Os::Mac, Architecture::X86));
    assert!(matches!(
        action,
        Action::Finish(Err(ref e)) if e == "unsupported platform: Os::Mac/Architecture::X86"
    ));
}

#[test]
fn download_failure_is_explained() {
    let (inst, _) = Installer::start(None);
    let (inst, _) = feed(inst, Event::SettingsPath(None));
    let (inst, _) = feed(inst, Event::OnPath(None));
    let (inst, _) = feed(inst, Event::StatusShown);
    let (inst, _) = feed(inst, Event::LatestRelease(Ok(release())));
    let (inst, _) = feed(inst, Event::Platform(Os::Linux, Architecture::X8664));
    let (inst, _) = feed(inst, Event::Exists(false));
    let (inst, _) = feed(inst, Event::StatusShown);
    let (inst, action) = feed(inst, Event::Downloaded(Err("404".to_string())));
    assert!(matches!(action, Action::Finish(Err(ref e)) if e == "download failed: 404"));
    assert!(inst.cached.is_none());
}

#[test]
fn make_executable_failure_is_passed_on() {
    let (inst, _) = Installer::start(None);
    let (inst, _) = feed(inst, Event::SettingsPath(None));
    let (inst, _) = feed(inst, Event::OnPath(None));
    let (inst, _) = feed(inst, Event::StatusShown);
    let (inst, _) = feed(inst, Event::LatestRelease(Ok(release())));
    let (inst, _) = feed(inst, Event::Platform(Os::Linux, Architecture::X8664));
    let (inst, _) = feed(inst, Event::Exists(false));
    let (inst, _) = feed(inst, Event::StatusShown);
    let (inst, _) = feed(inst, Event::Downloaded(Ok(())));
    let (_, action) = feed(inst, Event::MadeExecutable(Err("permission denied".to_string())));
    assert!(matches!(action, Action::Finish(Err(ref e)) if e == "permission denied"));
}

#[test]
fn events_out_of_turn_are_refused() {
    let (inst, _) = Installer::start(None);
    assert!(!inst.awaits(&Event::StatusShown));
    assert!(!inst.awaits(&Event::Exists(true)));
    assert!(inst.awaits(&Event::SettingsPath(None)));
}
