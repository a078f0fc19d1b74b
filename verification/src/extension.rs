//! The Zed extension's logic: which release asset fits the platform, and
//! the steps by which the language server binary is located or installed.
use vstd::prelude::*;
use vstd::string::StringExecFns;
use crate::text::str_eq;

verus! {

/// An operating system, as the editor reports it.
#[derive(Clone, Copy, Debug, PartialEq, Eq, Structural)]
pub enum Os {
    /// macOS.
    Mac,
    /// Linux.
    Linux,
    /// Windows.
    Windows,
}

/// A processor architecture, as the editor reports it.
#[derive(Clone, Copy, Debug, PartialEq, Eq, Structural)]
pub enum Architecture {
    /// AArch64.
    Aarch64,
    /// x86.
    X86,
    /// x86-64.
    X8664,
}

/// The kind of archive a release asset is downloaded as.
#[derive(Clone, Copy, Debug, PartialEq, Eq, Structural)]
pub enum DownloadedFileType {
    /// A gzipped file.
    Gzip,
    /// A gzipped tar archive.
    GzipTar,
    /// A ZIP archive.
    Zip,
    /// An uncompressed file.
    Uncompressed,
}

/// Settings key and release binary name of the language server.
pub const SERVER_ID: &'static str = "bevy-color-lsp";
/// GitHub repository that publishes the server's releases.
pub const REPO: &'static str = "DavidDudson/zed-bevy-colors";
/// File name of the server binary (without platform suffix).
pub const BIN_NAME: &'static str = "bevy-color-lsp";

/// The Rust target triple a release is built for on `os`/`arch`, if any.
pub open spec fn target_triple(os: Os, arch: Architecture) -> Option<Seq<char>> {
    match (os, arch) {
        (Os::Mac, Architecture::Aarch64) => Some("aarch64-apple-darwin"@),
        (Os::Mac, Architecture::X8664) => Some("x86_64-apple-darwin"@),
        (Os::Linux, Architecture::X8664) => Some("x86_64-unknown-linux-gnu"@),
        (Os::Linux, Architecture::Aarch64) => Some("aarch64-unknown-linux-gnu"@),
        (Os::Windows, Architecture::X8664) => Some("x86_64-pc-windows-msvc"@),
        _ => None,
    }
}

/// Archive extension of the release assets for `os`.
pub open spec fn archive_extension(os: Os) -> Seq<char> {
    match os {
        Os::Windows => "zip"@,
        _ => "tar.gz"@,
    }
}

/// How the editor names `os` (its `Debug` form).
pub open spec fn os_name(os: Os) -> Seq<char> {
    match os {
        Os::Mac => "Os::Mac"@,
        Os::Linux => "Os::Linux"@,
        Os::Windows => "Os::Windows"@,
    }
}

/// How the editor names `arch` (its `Debug` form).
pub open spec fn arch_name(arch: Architecture) -> Seq<char> {
    match arch {
        Architecture::Aarch64 => "Architecture::Aarch64"@,
        Architecture::X86 => "Architecture::X86"@,
        Architecture::X8664 => "Architecture::X8664"@,
    }
}

/// Suffix of executable file names on `os`.
pub open spec fn executable_suffix(os: Os) -> Seq<char> {
    match os {
        Os::Windows => ".exe"@,
        _ => ""@,
    }
}

fn target_str(os: Os, arch: Architecture) -> (r: Option<&'static str>)
    ensures
        r matches Some(t) ==> target_triple(os, arch) == Some(t@),
        r is None ==> target_triple(os, arch) is None,
{
    match (os, arch) {
        (Os::Mac, Architecture::Aarch64) => Some("aarch64-apple-darwin"),
        (Os::Mac, Architecture::X8664) => Some("x86_64-apple-darwin"),
        (Os::Linux, Architecture::X8664) => Some("x86_64-unknown-linux-gnu"),
        (Os::Linux, Architecture::Aarch64) => Some("aarch64-unknown-linux-gnu"),
        (Os::Windows, Architecture::X8664) => Some("x86_64-pc-windows-msvc"),
        _ => None,
    }
}

/// The name of the release asset built for `platform`/`arch`:
/// `bevy-color-lsp-<target>.<zip|tar.gz>`, or an error naming the platform
/// when no release is built for it.
pub fn asset_name(platform: Os, arch: Architecture) -> (r: Result<String, String>)
    ensures
        r matches Ok(n) ==> target_triple(platform, arch) matches Some(t) && n@ == "bevy-color-lsp-"@
            + t + "."@ + archive_extension(platform),
        r matches Err(e) ==> target_triple(platform, arch) is None && e@ == "unsupported platform: "@
            + os_name(platform) + "/"@ + arch_name(arch),
{
    match target_str(platform, arch) {
        Some(target) => {
            let mut name = String::from_str("bevy-color-lsp-");
            name.append(target);
            name.append(".");
            let ext = match platform {
                Os::Windows => "zip",
                _ => "tar.gz",
            };
            name.append(ext);
            Ok(name)
        },
        None => {
            let mut msg = String::from_str("unsupported platform: ");
            msg.append(
                match platform {
                    Os::Mac => "Os::Mac",
                    Os::Linux => "Os::Linux",
                    Os::Windows => "Os::Windows",
                },
            );
            msg.append("/");
            msg.append(
                match arch {
                    Architecture::Aarch64 => "Architecture::Aarch64",
                    Architecture::X86 => "Architecture::X86",
                    Architecture::X8664 => "Architecture::X8664",
                },
            );
            Err(msg)
        },
    }
}

/// The archive kind of the release assets for `platform`.
pub fn file_type(platform: Os) -> (r: DownloadedFileType)
    ensures
        r == (match platform {
            Os::Windows => DownloadedFileType::Zip,
            _ => DownloadedFileType::GzipTar,
        }),
{
    match platform {
        Os::Windows => DownloadedFileType::Zip,
        _ => DownloadedFileType::GzipTar,
    }
}

/// The suffix of executable file names on `platform`.
pub fn bin_suffix(platform: Os) -> (r: &'static str)
    ensures
        r@ == executable_suffix(platform),
{
    match platform {
        Os::Windows => ".exe",
        _ => "",
    }
}

/// `s` starts with `prefix`.
pub open spec fn starts_with(s: Seq<char>, prefix: Seq<char>) -> bool {
    prefix.len() <= s.len() && s.subrange(0, prefix.len() as int) == prefix
}

/// Is the directory `name` an installed server version other than
/// `keep_dir` (and so to be removed)?
pub fn is_stale_version_dir(name: &str, keep_dir: &str) -> (r: bool)
    ensures
        r == (starts_with(name@, "bevy-color-lsp-"@) && name@ != keep_dir@),
{
    let n = crate::text::chars_of(name);
    let p = crate::text::chars_of("bevy-color-lsp-");
    if p.len() > n.len() {
        return false;
    }
    let mut i: usize = 0;
    while i < p.len()
        invariant
            n@ == name@,
            p@ == "bevy-color-lsp-"@,
            p.len() <= n.len(),
            i <= p.len(),
            forall|j: int| 0 <= j < i ==> n@[j] == p@[j],
        decreases p.len() - i,
    {
        if n[i] != p[i] {
            proof {
                assert(name@.subrange(0, p.len() as int)[i as int] != p@[i as int]);
            }
            return false;
        }
        i = i + 1;
    }
    proof {
        assert(name@.subrange(0, p.len() as int) =~= p@);
    }
    !str_eq(name, keep_dir)
}

/// Directory a release `version` is installed in.
pub fn version_dir(version: &str) -> (r: String)
    ensures
        r@ == "bevy-color-lsp-"@ + version@,
{
    let mut d = String::from_str("bevy-color-lsp-");
    d.append(version);
    d
}

/// Path of the server binary inside `dir` on `platform`.
pub fn binary_file(dir: &str, platform: Os) -> (r: String)
    ensures
        r@ == dir@ + "/"@ + "bevy-color-lsp"@ + executable_suffix(platform),
{
    let mut p = String::from_str(dir);
    p.append("/");
    p.append(BIN_NAME);
    p.append(bin_suffix(platform));
    proof {
        assert(BIN_NAME@ == "bevy-color-lsp"@);
    }
    p
}

/// A release asset: its name and download URL.
pub struct Asset {
    /// File name of the asset.
    pub name: String,
    /// Where to download it.
    pub download_url: String,
}

/// Index of the first asset named `name`.
pub fn find_asset(assets: &Vec<Asset>, name: &str) -> (r: Option<usize>)
    ensures
        r matches Some(i) ==> i < assets@.len() && assets@[i as int].name@ == name@ && forall|j: int|
            0 <= j < i ==> (#[trigger] assets@[j]).name@ != name@,
        r is None ==> forall|j: int| 0 <= j < assets@.len() ==> (#[trigger] assets@[j]).name@ != name@,
{
    let mut i: usize = 0;
    while i < assets.len()
        invariant
            i <= assets@.len(),
            forall|j: int| 0 <= j < i ==> (#[trigger] assets@[j]).name@ != name@,
        decreases assets@.len() - i,
    {
        if str_eq(assets[i].name.as_str(), name) {
            return Some(i);
        }
        i = i + 1;
    }
    None
}

/// What the editor is told while the server is being installed.
#[derive(Clone, Copy, Debug, PartialEq, Eq, Structural)]
pub enum InstallStatus {
    /// Looking up the newest release.
    CheckingForUpdate,
    /// Downloading a release asset.
    Downloading,
}

/// The newest published release of the server.
pub struct Release {
    /// Its version tag.
    pub version: String,
    /// Its downloadable assets.
    pub assets: Vec<Asset>,
}

/// Where the search for the server binary stands, and what it waits for.
pub enum Phase {
    /// Waiting for the user's settings.
    Settings,
    /// Waiting for a lookup of the binary on the worktree's `PATH`.
    OnPath,
    /// Waiting to learn whether the binary found earlier still exists.
    Cached { path: String },
    /// Waiting for the editor to show that a release is being looked up.
    CheckingStatus,
    /// Waiting for the newest release.
    Release,
    /// Waiting for the platform, to pick the asset of `release`.
    Platform { release: Release },
    /// Waiting to learn whether the release's binary is installed already.
    Binary { dir: String, bin: String, url: String, file_type: DownloadedFileType },
    /// Waiting for the editor to show that a download is under way.
    DownloadingStatus { dir: String, bin: String, url: String, file_type: DownloadedFileType },
    /// Waiting for the download and unpacking into `dir`.
    Download { dir: String, bin: String },
    /// Waiting for `bin` to be made executable.
    Executable { dir: String, bin: String },
    /// Waiting for older installed versions to be removed.
    Cleanup { bin: String },
    /// Finished: nothing more is expected.
    Done,
}

/// What the editor reports back after an [`Action`].
pub enum Event {
    /// The binary path configured in the settings, if any.
    SettingsPath(Option<String>),
    /// Where the binary was found on `PATH`, if anywhere.
    OnPath(Option<String>),
    /// Whether the file asked about exists.
    Exists(bool),
    /// The status was shown.
    StatusShown,
    /// The newest release, or why it could not be fetched.
    LatestRelease(Result<Release, String>),
    /// The platform the editor runs on.
    Platform(Os, Architecture),
    /// The download finished, or why it failed.
    Downloaded(Result<(), String>),
    /// The binary was made executable, or why that failed.
    MadeExecutable(Result<(), String>),
    /// Older versions were removed.
    CleanedUp,
}

/// What the editor is asked to do next.
pub enum Action {
    /// Read the language server settings.
    ReadSettings,
    /// Look the named binary up on `PATH`.
    FindOnPath(String),
    /// Check whether a file exists.
    CheckExists(String),
    /// Show an installation status.
    ShowStatus(InstallStatus),
    /// Fetch the newest release of a repository.
    FetchLatestRelease(String),
    /// Report the platform.
    QueryPlatform,
    /// Download `url` into `dir`, unpacking it as `file_type`.
    Download { url: String, dir: String, file_type: DownloadedFileType },
    /// Make a file executable.
    MakeExecutable(String),
    /// Remove every installed version directory but the one named.
    RemoveStaleVersions(String),
    /// Stop: the binary's path, or why none could be had.
    Finish(Result<String, String>),
}

/// The search for the language server binary: the path found on an earlier
/// search, and the phase of this one.
pub struct Installer {
    /// Path of the binary that an earlier search installed or reused.
    pub cached: Option<String>,
    /// Where this search stands.
    pub phase: Phase,
}

/// Is `event` the report that `phase` waits for?
pub open spec fn awaits(phase: Phase, event: Event) -> bool {
    match phase {
        Phase::Settings => event is SettingsPath,
        Phase::OnPath => event is OnPath,
        Phase::Cached { .. } => event is Exists,
        Phase::CheckingStatus => event is StatusShown,
        Phase::Release => event is LatestRelease,
        Phase::Platform { .. } => event is Platform,
        Phase::Binary { .. } => event is Exists,
        Phase::DownloadingStatus { .. } => event is StatusShown,
        Phase::Download { .. } => event is Downloaded,
        Phase::Executable { .. } => event is MadeExecutable,
        Phase::Cleanup { .. } => event is CleanedUp,
        Phase::Done => false,
    }
}

/// How far along a search in `phase` is.
pub open spec fn stage(phase: Phase) -> nat {
    match phase {
        Phase::Settings => 0,
        Phase::OnPath => 1,
        Phase::Cached { .. } => 2,
        Phase::CheckingStatus => 3,
        Phase::Release => 4,
        Phase::Platform { .. } => 5,
        Phase::Binary { .. } => 6,
        Phase::DownloadingStatus { .. } => 7,
        Phase::Download { .. } => 8,
        Phase::Executable { .. } => 9,
        Phase::Cleanup { .. } => 10,
        Phase::Done => 11,
    }
}

/// File name of the release asset for `os` and the target triple `triple`.
pub open spec fn asset_file_name(os: Os, triple: Seq<char>) -> Seq<char> {
    "bevy-color-lsp-"@ + triple + "."@ + archive_extension(os)
}

/// `i` is the first asset of `assets` named `name`.
pub open spec fn first_named(assets: Seq<Asset>, name: Seq<char>, i: int) -> bool {
    &&& 0 <= i < assets.len()
    &&& assets[i].name@ == name
    &&& forall|j: int| 0 <= j < i ==> (#[trigger] assets[j]).name@ != name
}

/// After the platform `os`/`arch` is known for `release`: the phase and
/// action that follow.
pub open spec fn platform_step(release: Release, os: Os, arch: Architecture, n: Phase, a: Action) -> bool {
    match target_triple(os, arch) {
        None => n is Done && (a matches Action::Finish(Err(m)) && m@ == "unsupported platform: "@
            + os_name(os) + "/"@ + arch_name(arch)),
        Some(t) => if exists|i: int| first_named(release.assets@, asset_file_name(os, t), i) {
            exists|i: int|
                #![trigger release.assets@[i]]
                first_named(release.assets@, asset_file_name(os, t), i)
                    && (n matches Phase::Binary { dir, bin, url, file_type }
                    && dir@ == "bevy-color-lsp-"@ + release.version@
                    && bin@ == dir@ + "/"@ + "bevy-color-lsp"@ + executable_suffix(os)
                    && url == release.assets@[i].download_url
                    && file_type == (match os {
                        Os::Windows => DownloadedFileType::Zip,
                        _ => DownloadedFileType::GzipTar,
                    })
                    && (a matches Action::CheckExists(p) && p@ == bin@))
        } else {
            n is Done && (a matches Action::Finish(Err(m)) && m@ == "no asset named "@
                + asset_file_name(os, t) + " in "@ + release.version@)
        },
    }
}

/// The search in `m` takes `event` to the search `n`, which asks for `a`.
pub open spec fn advances(m: Installer, event: Event, n: Installer, a: Action) -> bool {
    &&& n.cached == (match (m.phase, n.phase) {
        (Phase::Binary { bin, .. }, Phase::Done) => Some(bin),
        (Phase::Cleanup { bin }, Phase::Done) => Some(bin),
        _ => m.cached,
    })
    &&& match (m.phase, event) {
        (Phase::Settings, Event::SettingsPath(Some(p))) => n.phase is Done && a == Action::Finish(Ok(p)),
        (Phase::Settings, Event::SettingsPath(None)) => n.phase is OnPath
            && (a matches Action::FindOnPath(b) && b@ == "bevy-color-lsp"@),
        (Phase::OnPath, Event::OnPath(Some(p))) => n.phase is Done && a == Action::Finish(Ok(p)),
        (Phase::OnPath, Event::OnPath(None)) => match m.cached {
            Some(c) => n.phase == Phase::Cached { path: c } && a == Action::CheckExists(c),
            None => n.phase is CheckingStatus && a == Action::ShowStatus(InstallStatus::CheckingForUpdate),
        },
        (Phase::Cached { path }, Event::Exists(true)) => n.phase is Done && a == Action::Finish(Ok(path)),
        (Phase::Cached { .. }, Event::Exists(false)) => n.phase is CheckingStatus
            && a == Action::ShowStatus(InstallStatus::CheckingForUpdate),
        (Phase::CheckingStatus, Event::StatusShown) => n.phase is Release
            && (a matches Action::FetchLatestRelease(r) && r@ == "DavidDudson/zed-bevy-colors"@),
        (Phase::Release, Event::LatestRelease(Err(e))) => n.phase is Done && a == Action::Finish(Err(e)),
        (Phase::Release, Event::LatestRelease(Ok(release))) => n.phase == Phase::Platform { release }
            && a is QueryPlatform,
        (Phase::Platform { release }, Event::Platform(os, arch)) => platform_step(release, os, arch, n.phase, a),
        (Phase::Binary { bin, .. }, Event::Exists(true)) => n.phase is Done && a == Action::Finish(Ok(bin)),
        (Phase::Binary { dir, bin, url, file_type }, Event::Exists(false)) =>
            n.phase == (Phase::DownloadingStatus { dir, bin, url, file_type })
            && a == Action::ShowStatus(InstallStatus::Downloading),
        (Phase::DownloadingStatus { dir, bin, url, file_type }, Event::StatusShown) =>
            n.phase == (Phase::Download { dir, bin }) && a == (Action::Download { url, dir, file_type }),
        (Phase::Download { .. }, Event::Downloaded(Err(e))) => n.phase is Done
            && (a matches Action::Finish(Err(m)) && m@ == "download failed: "@ + e@),
        (Phase::Download { dir, bin }, Event::Downloaded(Ok(()))) =>
            n.phase == (Phase::Executable { dir, bin }) && a == Action::MakeExecutable(bin),
        (Phase::Executable { .. }, Event::MadeExecutable(Err(e))) => n.phase is Done && a == Action::Finish(Err(e)),
        (Phase::Executable { dir, bin }, Event::MadeExecutable(Ok(()))) =>
            n.phase == (Phase::Cleanup { bin }) && a == Action::RemoveStaleVersions(dir),
        (Phase::Cleanup { bin }, Event::CleanedUp) => n.phase is Done && a == Action::Finish(Ok(bin)),
        _ => false,
    }
}

impl Installer {
    /// Begins a search, given the path found by an earlier one: the user's
    /// settings are read first.
    pub fn start(cached: Option<String>) -> (r: (Installer, Action))
        ensures
            r.0.cached == cached,
            r.0.phase is Settings,
            r.1 is ReadSettings,
    {
        (Installer { cached, phase: Phase::Settings }, Action::ReadSettings)
    }

    /// Whether `event` is the report this search waits for.
    pub fn awaits(&self, event: &Event) -> (r: bool)
        ensures
            r == awaits(self.phase, *event),
    {
        match (&self.phase, event) {
            (Phase::Settings, Event::SettingsPath(_)) => true,
            (Phase::OnPath, Event::OnPath(_)) => true,
            (Phase::Cached { .. }, Event::Exists(_)) => true,
            (Phase::CheckingStatus, Event::StatusShown) => true,
            (Phase::Release, Event::LatestRelease(_)) => true,
            (Phase::Platform { .. }, Event::Platform(_, _)) => true,
            (Phase::Binary { .. }, Event::Exists(_)) => true,
            (Phase::DownloadingStatus { .. }, Event::StatusShown) => true,
            (Phase::Download { .. }, Event::Downloaded(_)) => true,
            (Phase::Executable { .. }, Event::MadeExecutable(_)) => true,
            (Phase::Cleanup { .. }, Event::CleanedUp) => true,
            _ => false,
        }
    }

    /// Takes the editor's report `event` and says what to do next: the
    /// search moves one phase on, and finishes with the binary's path or
    /// the reason none could be had.
    pub fn step(self, event: Event) -> (r: (Installer, Action))
        requires
            awaits(self.phase, event),
        ensures
            advances(self, event, r.0, r.1),
            stage(r.0.phase) > stage(self.phase),
            r.0.phase is Done <==> r.1 is Finish,
    {
        let Installer { cached, phase } = self;
        match phase {
            Phase::Settings => match event {
                Event::SettingsPath(Some(p)) => (Installer { cached, phase: Phase::Done }, Action::Finish(Ok(p))),
                _ => (
                    Installer { cached, phase: Phase::OnPath },
                    Action::FindOnPath(String::from_str(BIN_NAME)),
                ),
            },
            Phase::OnPath => match event {
                Event::OnPath(Some(p)) => (Installer { cached, phase: Phase::Done }, Action::Finish(Ok(p))),
                _ => match cached {
                    Some(c) => {
                        let path = c.clone();
                        (Installer { cached: Some(c), phase: Phase::Cached { path: path.clone() } }, Action::CheckExists(path))
                    },
                    None => (
                        Installer { cached: None, phase: Phase::CheckingStatus },
                        Action::ShowStatus(InstallStatus::CheckingForUpdate),
                    ),
                },
            },
            Phase::Cached { path } => match event {
                Event::Exists(true) => (Installer { cached, phase: Phase::Done }, Action::Finish(Ok(path))),
                _ => (
                    Installer { cached, phase: Phase::CheckingStatus },
                    Action::ShowStatus(InstallStatus::CheckingForUpdate),
                ),
            },
            Phase::CheckingStatus => (
                Installer { cached, phase: Phase::Release },
                Action::FetchLatestRelease(String::from_str(REPO)),
            ),
            Phase::Release => match event {
                Event::LatestRelease(Ok(release)) => (
                    Installer { cached, phase: Phase::Platform { release } },
                    Action::QueryPlatform,
                ),
                Event::LatestRelease(Err(e)) => (Installer { cached, phase: Phase::Done }, Action::Finish(Err(e))),
                _ => vstd::pervasive::unreached(),
            },
            Phase::Platform { release } => match event {
                Event::Platform(os, arch) => {
                    let (phase, action) = pick_asset(release, os, arch);
                    (Installer { cached, phase }, action)
                },
                _ => vstd::pervasive::unreached(),
            },
            Phase::Binary { dir, bin, url, file_type } => match event {
                Event::Exists(true) => {
                    let path = bin.clone();
                    (Installer { cached: Some(bin), phase: Phase::Done }, Action::Finish(Ok(path)))
                },
                _ => (
                    Installer { cached, phase: Phase::DownloadingStatus { dir, bin, url, file_type } },
                    Action::ShowStatus(InstallStatus::Downloading),
                ),
            },
            Phase::DownloadingStatus { dir, bin, url, file_type } => {
                let target = dir.clone();
                (
                    Installer { cached, phase: Phase::Download { dir, bin } },
                    Action::Download { url, dir: target, file_type },
                )
            },
            Phase::Download { dir, bin } => match event {
                Event::Downloaded(Err(e)) => {
                    let mut m = String::from_str("download failed: ");
                    m.append(e.as_str());
                    (Installer { cached, phase: Phase::Done }, Action::Finish(Err(m)))
                },
                _ => {
                    let file = bin.clone();
                    (Installer { cached, phase: Phase::Executable { dir, bin } }, Action::MakeExecutable(file))
                },
            },
            Phase::Executable { dir, bin } => match event {
                Event::MadeExecutable(Err(e)) => (Installer { cached, phase: Phase::Done }, Action::Finish(Err(e))),
                _ => (Installer { cached, phase: Phase::Cleanup { bin } }, Action::RemoveStaleVersions(dir)),
            },
            Phase::Cleanup { bin } => {
                let path = bin.clone();
                (Installer { cached: Some(bin), phase: Phase::Done }, Action::Finish(Ok(path)))
            },
            Phase::Done => vstd::pervasive::unreached(),
        }
    }

}

/// Picks the asset of `release` for `os`/`arch`: the phase that checks for
/// its installed binary, or the finish that says why there is none.
fn pick_asset(release: Release, os: Os, arch: Architecture) -> (r: (Phase, Action))
    ensures
        platform_step(release, os, arch, r.0, r.1),
        r.0 is Done <==> r.1 is Finish,
        r.0 is Done || r.0 is Binary,
{
    let name = match asset_name(os, arch) {
        Ok(n) => n,
        Err(e) => {
            return (Phase::Done, Action::Finish(Err(e)));
        },
    };
    let ghost t = target_triple(os, arch)->0;
    match find_asset(&release.assets, name.as_str()) {
        Some(i) => {
            let dir = version_dir(release.version.as_str());
            let bin = binary_file(dir.as_str(), os);
            let url = release.assets[i].download_url.clone();
            let path = bin.clone();
            let phase = Phase::Binary { dir, bin, url, file_type: file_type(os) };
            let action = Action::CheckExists(path);
            proof {
                assert(first_named(release.assets@, asset_file_name(os, t), i as int));
            }
            (phase, action)
        },
        None => {
            let mut m = String::from_str("no asset named ");
            m.append(name.as_str());
            m.append(" in ");
            m.append(release.version.as_str());
            proof {
                assert forall|i: int| !first_named(release.assets@, asset_file_name(os, t), i) by {
                    if 0 <= i < release.assets@.len() {
                        assert(release.assets@[i].name@ != name@);
                    }
                }
            }
            (Phase::Done, Action::Finish(Err(m)))
        },
    }
}

/// A search whose settings and `PATH` name no binary, begun with the path
/// that an earlier search found, asks whether that file still exists; when
/// it does, the search ends with that path and keeps it, without looking
/// for a release.
pub proof fn law_cached_binary_reused(
    c: String,
    n1: Installer,
    a1: Action,
    n2: Installer,
    a2: Action,
    n3: Installer,
    a3: Action,
)
    requires
        advances(Installer { cached: Some(c), phase: Phase::Settings }, Event::SettingsPath(None), n1, a1),
        advances(n1, Event::OnPath(None), n2, a2),
        advances(n2, Event::Exists(true), n3, a3),
    ensures
        a2 == Action::CheckExists(c),
        a3 == Action::Finish(Ok(c)),
        n3.cached == Some(c),
{
}

/// Whatever the platform and release, a search that installs the binary
/// (downloads it, makes it executable, removes older versions) ends with
/// the binary's path and keeps that path for the next search.
pub proof fn law_installed_binary_kept(m: Installer, n: Installer, a: Action)
    requires
        (m.phase is Cleanup),
        advances(m, Event::CleanedUp, n, a),
    ensures
        (a matches Action::Finish(Ok(p)) && n.cached == Some(p) && m.phase == (Phase::Cleanup { bin: p })),
{
}

/// The archive kind handed on to the download agrees with the asset's
/// extension: a `.zip` asset is unpacked as a ZIP archive and a `.tar.gz`
/// asset as a gzipped tar archive, on every platform.
pub proof fn law_download_kind_matches_asset(release: Release, os: Os, arch: Architecture, n: Phase, a: Action)
    requires
        platform_step(release, os, arch, n, a),
        (n is Binary),
    ensures
        (n matches Phase::Binary { file_type, .. } && (file_type == DownloadedFileType::Zip <==> archive_extension(
            os,
        ) == "zip"@) && (file_type == DownloadedFileType::GzipTar <==> archive_extension(os) == "tar.gz"@)),
{
    reveal_strlit("zip");
    reveal_strlit("tar.gz");
    assert("zip"@ != "tar.gz"@) by {
        assert("zip"@.len() != "tar.gz"@.len());
    }
}

} // verus!
