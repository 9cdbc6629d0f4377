//! Where the binary of the language server comes from: which asset of a
//! release is downloaded, where it is put, and what is cleaned up.

use vstd::prelude::*;
use vstd::string::*;

use crate::text::{starts_with, str_eq};

verus! {

/// The repository whose releases hold the binary.
pub const REPO: &'static str = "Arthurmtro/zed-package-json-upgrade";

/// The name of the binary.
pub const BIN_NAME: &'static str = "package-json-upgrade-lsp";

/// The operating systems that there are binaries for.
#[derive(Debug, Clone, Copy, PartialEq, Eq, Structural)]
pub enum Os {
    Mac,
    Linux,
    Windows,
}

/// The processors that there are binaries for.
#[derive(Debug, Clone, Copy, PartialEq, Eq, Structural)]
pub enum Architecture {
    Aarch64,
    X86,
    X8664,
}

/// A file of a release.
#[derive(Debug, PartialEq, Eq)]
pub struct Asset {
    pub name: String,
    pub download_url: String,
}

/// The model of an [`Asset`].
#[verifier::ext_equal]
pub struct AssetView {
    pub name: Seq<char>,
    pub download_url: Seq<char>,
}

impl DeepView for Asset {
    type V = AssetView;

    open spec fn deep_view(&self) -> AssetView {
        AssetView { name: self.name@, download_url: self.download_url@ }
    }
}

/// A release.
#[derive(Debug, PartialEq, Eq)]
pub struct Release {
    pub version: String,
    pub assets: Vec<Asset>,
}

/// The model of a [`Release`].
#[verifier::ext_equal]
pub struct ReleaseView {
    pub version: Seq<char>,
    pub assets: Seq<AssetView>,
}

impl DeepView for Release {
    type V = ReleaseView;

    open spec fn deep_view(&self) -> ReleaseView {
        ReleaseView { version: self.version@, assets: self.assets.deep_view() }
    }
}

/// What is to be installed, and where.
#[derive(Debug, PartialEq, Eq)]
pub struct InstallPlan {
    pub asset_name: String,
    pub download_url: String,
    /// The directory that the asset is unpacked to.
    pub version_dir: String,
    /// The path of the binary.
    pub bin_path: String,
    /// Whether the asset is a zip file; else it is a compressed tar file.
    pub zip: bool,
}

/// The model of an [`InstallPlan`].
#[verifier::ext_equal]
pub struct InstallPlanView {
    pub asset_name: Seq<char>,
    pub download_url: Seq<char>,
    pub version_dir: Seq<char>,
    pub bin_path: Seq<char>,
    pub zip: bool,
}

impl DeepView for InstallPlan {
    type V = InstallPlanView;

    open spec fn deep_view(&self) -> InstallPlanView {
        InstallPlanView {
            asset_name: self.asset_name@,
            download_url: self.download_url@,
            version_dir: self.version_dir@,
            bin_path: self.bin_path@,
            zip: self.zip,
        }
    }
}

impl Clone for InstallPlan {
    fn clone(&self) -> (r: Self)
        ensures
            r.deep_view() == self.deep_view(),
    {
        InstallPlan {
            asset_name: self.asset_name.clone(),
            download_url: self.download_url.clone(),
            version_dir: self.version_dir.clone(),
            bin_path: self.bin_path.clone(),
            zip: self.zip,
        }
    }
}

// ---- Names ----

/// The name of a processor in the names of assets.
pub open spec fn arch_name(arch: Architecture) -> Seq<char> {
    match arch {
        Architecture::Aarch64 => "aarch64"@,
        Architecture::X8664 => "x86_64"@,
        Architecture::X86 => "x86"@,
    }
}

/// The name of an operating system in the names of assets.
pub open spec fn os_name(os: Os) -> Seq<char> {
    match os {
        Os::Mac => "apple-darwin"@,
        Os::Linux => "unknown-linux-gnu"@,
        Os::Windows => "pc-windows-msvc"@,
    }
}

/// The name of the asset for a machine.
pub open spec fn asset_name_for(os: Os, arch: Architecture) -> Seq<char> {
    BIN_NAME@ + "-"@ + arch_name(arch) + "-"@ + os_name(os) + "."@ + (if os == Os::Windows {
        "zip"@
    } else {
        "tar.gz"@
    })
}

/// The name of the asset for a machine.
pub fn asset_name(os: Os, arch: Architecture) -> (r: String)
    ensures
        r@ == asset_name_for(os, arch),
{
    let mut out = BIN_NAME.to_owned();
    out.append("-");
    out.append(
        match arch {
            Architecture::Aarch64 => "aarch64",
            Architecture::X8664 => "x86_64",
            Architecture::X86 => "x86",
        },
    );
    out.append("-");
    out.append(
        match os {
            Os::Mac => "apple-darwin",
            Os::Linux => "unknown-linux-gnu",
            Os::Windows => "pc-windows-msvc",
        },
    );
    out.append(".");
    out.append(
        match os {
            Os::Windows => "zip",
            _ => "tar.gz",
        },
    );
    out
}

/// The directory of a release.
pub open spec fn version_dir_for(version: Seq<char>) -> Seq<char> {
    BIN_NAME@ + "-"@ + version
}

/// The directory of a release.
pub fn version_dir(version: &str) -> (r: String)
    ensures
        r@ == version_dir_for(version@),
{
    let mut out = BIN_NAME.to_owned();
    out.append("-");
    out.append(version);
    out
}

/// The path of the binary of a release.
pub open spec fn bin_path_for(os: Os, version: Seq<char>) -> Seq<char> {
    version_dir_for(version) + "/"@ + (if os == Os::Windows {
        BIN_NAME@ + ".exe"@
    } else {
        BIN_NAME@
    })
}

/// The path of the binary of a release.
pub fn bin_path(os: Os, version: &str) -> (r: String)
    ensures
        r@ == bin_path_for(os, version@),
{
    let file = match os {
        Os::Windows => {
            let mut f = BIN_NAME.to_owned();
            f.append(".exe");
            f
        },
        _ => BIN_NAME.to_owned(),
    };
    let mut out = version_dir(version);
    out.append("/");
    out.append(file.as_str());
    out
}

// ---- The plan ----

/// The first of some assets that has the given name.
pub open spec fn asset_named(assets: Seq<AssetView>, name: Seq<char>) -> Option<AssetView>
    decreases assets.len(),
{
    if assets.len() == 0 {
        None
    } else if assets[0].name == name {
        Some(assets[0])
    } else {
        asset_named(assets.drop_first(), name)
    }
}

/// What is to be installed from a release, or why nothing can be: it has no
/// asset for the machine.
pub open spec fn plan_for(os: Os, arch: Architecture, release: ReleaseView) -> Result<
    InstallPlanView,
    Seq<char>,
> {
    let name = asset_name_for(os, arch);
    match asset_named(release.assets, name) {
        Some(asset) => Ok(
            InstallPlanView {
                asset_name: name,
                download_url: asset.download_url,
                version_dir: version_dir_for(release.version),
                bin_path: bin_path_for(os, release.version),
                zip: os == Os::Windows,
            },
        ),
        None => Err("no asset named "@ + name + " in release "@ + release.version),
    }
}

/// The model of an outcome.
pub open spec fn outcome<T: DeepView>(r: Result<T, String>) -> Result<T::V, Seq<char>> {
    match r {
        Ok(t) => Ok(t.deep_view()),
        Err(e) => Err(e@),
    }
}

/// What is to be installed from a release, or why nothing can be.
pub fn plan_install(os: Os, arch: Architecture, release: &Release) -> (r: Result<
    InstallPlan,
    String,
>)
    ensures
        outcome(r) == plan_for(os, arch, release.deep_view()),
{
    let name = asset_name(os, arch);
    let ghost all = release.assets.deep_view();
    let mut i: usize = 0;
    assert(all.skip(0) =~= all);
    while i < release.assets.len()
        invariant
            i <= release.assets.len(),
            all == release.assets.deep_view(),
            name@ == asset_name_for(os, arch),
            asset_named(all, name@) == asset_named(all.skip(i as int), name@),
        decreases release.assets.len() - i,
    {
        assert(all.skip(i as int).drop_first() =~= all.skip(i + 1));
        assert(all[i as int] == release.assets@[i as int].deep_view());
        if str_eq(release.assets[i].name.as_str(), name.as_str()) {
            return Ok(
                InstallPlan {
                    asset_name: name,
                    download_url: release.assets[i].download_url.clone(),
                    version_dir: version_dir(release.version.as_str()),
                    bin_path: bin_path(os, release.version.as_str()),
                    zip: os == Os::Windows,
                },
            );
        }
        i = i + 1;
    }
    let mut message = "no asset named ".to_owned();
    message.append(name.as_str());
    message.append(" in release ");
    message.append(release.version.as_str());
    Err(message)
}

/// A directory entry that belongs to a release other than the one to be kept.
pub open spec fn outdated(name: Seq<char>, keep: Seq<char>) -> bool {
    BIN_NAME@.is_prefix_of(name) && name != keep
}

/// Whether a directory entry belongs to a release other than the one to be
/// kept.
pub fn is_outdated(name: &str, keep: &str) -> (r: bool)
    ensures
        r == outdated(name@, keep@),
{
    starts_with(name, BIN_NAME) && !str_eq(name, keep)
}

// ---- The installation ----

/// What has happened to an installation.
pub enum InstallEvent<'a> {
    /// The binary is asked for.
    Start,
    /// Whether the path from the last time is still there.
    Cached(&'a str, bool),
    /// The path of a binary of that name on the search path of the worktree, if
    /// there is one.
    OnPath(Option<&'a str>),
    /// The latest release, or why there is none.
    Latest(Result<&'a Release, &'a str>),
    /// Whether the binary of the plan is there.
    Binary(&'a InstallPlan, bool),
    /// The asset was downloaded, or why it was not.
    Downloaded(&'a InstallPlan, Option<&'a str>),
    /// The binary was made executable, or why it was not.
    Executable(&'a InstallPlan, Option<&'a str>),
    /// The other releases were removed.
    Pruned(&'a InstallPlan),
}

/// What is to be done next about an installation.
#[derive(Debug)]
pub enum InstallStep {
    /// See whether a path is there.
    CheckCached(String),
    /// Look for a binary of that name on the search path of the worktree.
    LookOnPath,
    /// Ask for the latest release.
    FetchLatest,
    /// See whether the binary is there.
    CheckBinary(InstallPlan),
    /// Download the asset.
    Download(InstallPlan),
    /// Make the binary executable.
    MakeExecutable(InstallPlan),
    /// Remove the other releases.
    Prune(InstallPlan),
    /// Nothing: this is the path of the binary, or why there is none.
    Done(Result<String, String>),
}

/// The model of an [`InstallStep`].
#[verifier::ext_equal]
pub enum InstallStepView {
    CheckCached(Seq<char>),
    LookOnPath,
    FetchLatest,
    CheckBinary(InstallPlanView),
    Download(InstallPlanView),
    MakeExecutable(InstallPlanView),
    Prune(InstallPlanView),
    Done(Result<Seq<char>, Seq<char>>),
}

impl DeepView for InstallStep {
    type V = InstallStepView;

    open spec fn deep_view(&self) -> InstallStepView {
        match self {
            InstallStep::CheckCached(path) => InstallStepView::CheckCached(path@),
            InstallStep::LookOnPath => InstallStepView::LookOnPath,
            InstallStep::FetchLatest => InstallStepView::FetchLatest,
            InstallStep::CheckBinary(plan) => InstallStepView::CheckBinary(plan.deep_view()),
            InstallStep::Download(plan) => InstallStepView::Download(plan.deep_view()),
            InstallStep::MakeExecutable(plan) => InstallStepView::MakeExecutable(plan.deep_view()),
            InstallStep::Prune(plan) => InstallStepView::Prune(plan.deep_view()),
            InstallStep::Done(r) => InstallStepView::Done(outcome(*r)),
        }
    }
}

/// What is done next, and which path is remembered then. The path that is
/// remembered is given out while it is there; else a binary on the search path
/// is; else the latest release is installed.
pub open spec fn install_step(
    cached: Option<Seq<char>>,
    os: Os,
    arch: Architecture,
    event: InstallEvent,
) -> (Option<Seq<char>>, InstallStepView) {
    match event {
        InstallEvent::Start => match cached {
            Some(path) => (cached, InstallStepView::CheckCached(path)),
            None => (cached, InstallStepView::LookOnPath),
        },
        InstallEvent::Cached(path, there) => if there && cached == Some(path@) {
            (cached, InstallStepView::Done(Ok(path@)))
        } else {
            (cached, InstallStepView::LookOnPath)
        },
        InstallEvent::OnPath(Some(path)) => (Some(path@), InstallStepView::Done(Ok(path@))),
        InstallEvent::OnPath(None) => (cached, InstallStepView::FetchLatest),
        InstallEvent::Latest(Ok(release)) => match plan_for(os, arch, release.deep_view()) {
            Ok(plan) => (cached, InstallStepView::CheckBinary(plan)),
            Err(why) => (cached, InstallStepView::Done(Err(why))),
        },
        InstallEvent::Latest(Err(why)) => (cached, InstallStepView::Done(Err(why@))),
        InstallEvent::Binary(plan, there) => if there {
            (Some(plan.bin_path@), InstallStepView::Done(Ok(plan.bin_path@)))
        } else {
            (cached, InstallStepView::Download(plan.deep_view()))
        },
        InstallEvent::Downloaded(plan, None) => (
            cached,
            InstallStepView::MakeExecutable(plan.deep_view()),
        ),
        InstallEvent::Downloaded(plan, Some(why)) => (
            cached,
            InstallStepView::Done(
                Err("failed to download "@ + plan.asset_name@ + ": "@ + why@),
            ),
        ),
        InstallEvent::Executable(plan, None) => (cached, InstallStepView::Prune(plan.deep_view())),
        InstallEvent::Executable(_, Some(why)) => (cached, InstallStepView::Done(Err(why@))),
        InstallEvent::Pruned(plan) => (
            Some(plan.bin_path@),
            InstallStepView::Done(Ok(plan.bin_path@)),
        ),
    }
}

/// Sees to it that the binary is there.
pub struct Installer {
    /// The path of the binary, once it is known.
    pub cached: Option<String>,
}

impl Installer {
    /// An installer that does not know of a binary.
    pub fn new() -> (r: Installer)
        ensures
            r.cached is None,
    {
        Installer { cached: None }
    }

    /// Decides what is done next, now that `event` has happened.
    pub fn binary_path(&mut self, os: Os, arch: Architecture, event: InstallEvent) -> (r:
        InstallStep)
        ensures
            (final(self).cached.deep_view(), r.deep_view()) == install_step(
                old(self).cached.deep_view(),
                os,
                arch,
                event,
            ),
    {
        match event {
            InstallEvent::Start => match &self.cached {
                Some(path) => InstallStep::CheckCached(path.clone()),
                None => InstallStep::LookOnPath,
            },
            InstallEvent::Cached(path, there) => {
                let known: bool = match &self.cached {
                    Some(p) => str_eq(p.as_str(), path),
                    None => false,
                };
                if there && known {
                    InstallStep::Done(Ok(path.to_owned()))
                } else {
                    InstallStep::LookOnPath
                }
            },
            InstallEvent::OnPath(Some(path)) => {
                self.cached = Some(path.to_owned());
                InstallStep::Done(Ok(path.to_owned()))
            },
            InstallEvent::OnPath(None) => InstallStep::FetchLatest,
            InstallEvent::Latest(Ok(release)) => match plan_install(os, arch, release) {
                Ok(plan) => InstallStep::CheckBinary(plan),
                Err(why) => InstallStep::Done(Err(why)),
            },
            InstallEvent::Latest(Err(why)) => InstallStep::Done(Err(why.to_owned())),
            InstallEvent::Binary(plan, there) => if there {
                self.cached = Some(plan.bin_path.clone());
                InstallStep::Done(Ok(plan.bin_path.clone()))
            } else {
                InstallStep::Download(plan.clone())
            },
            InstallEvent::Downloaded(plan, None) => InstallStep::MakeExecutable(plan.clone()),
            InstallEvent::Downloaded(plan, Some(why)) => {
                let mut message = "failed to download ".to_owned();
                message.append(plan.asset_name.as_str());
                message.append(": ");
                message.append(why);
                InstallStep::Done(Err(message))
            },
            InstallEvent::Executable(plan, None) => InstallStep::Prune(plan.clone()),
            InstallEvent::Executable(_, Some(why)) => InstallStep::Done(Err(why.to_owned())),
            InstallEvent::Pruned(plan) => {
                self.cached = Some(plan.bin_path.clone());
                InstallStep::Done(Ok(plan.bin_path.clone()))
            },
        }
    }
}

// ---- Laws ----

/// A path that is given out is remembered, whatever led to it: asked for again,
/// it is looked at first, and given out while it is there.
pub proof fn law_installed_binary_is_reused(
    cached: Option<Seq<char>>,
    os: Os,
    arch: Architecture,
    event: InstallEvent,
    path: &str,
)
    requires
        install_step(cached, os, arch, event).1 == InstallStepView::Done(Ok(path@)),
    ensures
        ({
            let after = install_step(cached, os, arch, event).0;
            &&& after == Some(path@)
            &&& install_step(after, os, arch, InstallEvent::Start) == (
                after,
                InstallStepView::CheckCached(path@),
            )
            &&& install_step(after, os, arch, InstallEvent::Cached(path, true)) == (
                after,
                InstallStepView::Done(Ok(path@)),
            )
        }),
{
}

/// A binary on the search path bypasses the download: no release is asked for
/// before the search path was looked at, and then only where it holds none.
pub proof fn law_search_path_goes_first(
    cached: Option<Seq<char>>,
    os: Os,
    arch: Architecture,
    event: InstallEvent,
    path: &str,
)
    ensures
        install_step(cached, os, arch, event).1 is FetchLatest ==> event == InstallEvent::OnPath(
            None,
        ),
        install_step(None, os, arch, InstallEvent::Start) == (
            None::<Seq<char>>,
            InstallStepView::LookOnPath,
        ),
        install_step(cached, os, arch, InstallEvent::OnPath(Some(path))) == (
            Some(path@),
            InstallStepView::Done(Ok(path@)),
        ),
{
}

/// A failure changes nothing of what is remembered.
pub proof fn law_failed_install_changes_nothing(
    cached: Option<Seq<char>>,
    os: Os,
    arch: Architecture,
    event: InstallEvent,
    why: Seq<char>,
)
    requires
        install_step(cached, os, arch, event).1 == InstallStepView::Done(Err(why)),
    ensures
        install_step(cached, os, arch, event).0 == cached,
{
}

/// Cleaning up keeps the directory that the binary of the plan lies in, and
/// everything that does not belong to the server, and removes the directories
/// of other releases.
pub proof fn law_prune_keeps_the_binary(os: Os, arch: Architecture, release: ReleaseView)
    requires
        plan_for(os, arch, release) is Ok,
    ensures
        ({
            let plan = plan_for(os, arch, release)->Ok_0;
            &&& plan.version_dir.is_prefix_of(plan.bin_path)
            &&& !outdated(plan.version_dir, plan.version_dir)
            &&& forall|name: Seq<char>|
                !BIN_NAME@.is_prefix_of(name) ==> !outdated(name, plan.version_dir)
            &&& forall|version: Seq<char>|
                version != release.version ==> outdated(
                    #[trigger] version_dir_for(version),
                    plan.version_dir,
                )
        }),
{
    let dir = version_dir_for(release.version);
    let path = bin_path_for(os, release.version);
    assert(path.subrange(0, dir.len() as int) =~= dir);
    assert forall|version: Seq<char>| version != release.version implies outdated(
        #[trigger] version_dir_for(version),
        dir,
    ) by {
        let other = version_dir_for(version);
        let n = (BIN_NAME@ + "-"@).len() as int;
        assert(other.subrange(0, BIN_NAME@.len() as int) =~= BIN_NAME@);
        assert(other.skip(n) =~= version);
        assert(dir.skip(n) =~= release.version);
    }
}

/// The asset for a machine is named after the server, the processor and the
/// operating system; it is a zip file for Windows alone.
pub proof fn law_assets_of_machines()
    ensures
        asset_name_for(Os::Mac, Architecture::Aarch64)
            == "package-json-upgrade-lsp-aarch64-apple-darwin.tar.gz"@,
        asset_name_for(Os::Mac, Architecture::X8664)
            == "package-json-upgrade-lsp-x86_64-apple-darwin.tar.gz"@,
        asset_name_for(Os::Mac, Architecture::X86)
            == "package-json-upgrade-lsp-x86-apple-darwin.tar.gz"@,
        asset_name_for(Os::Linux, Architecture::Aarch64)
            == "package-json-upgrade-lsp-aarch64-unknown-linux-gnu.tar.gz"@,
        asset_name_for(Os::Linux, Architecture::X8664)
            == "package-json-upgrade-lsp-x86_64-unknown-linux-gnu.tar.gz"@,
        asset_name_for(Os::Linux, Architecture::X86)
            == "package-json-upgrade-lsp-x86-unknown-linux-gnu.tar.gz"@,
        asset_name_for(Os::Windows, Architecture::Aarch64)
            == "package-json-upgrade-lsp-aarch64-pc-windows-msvc.zip"@,
        asset_name_for(Os::Windows, Architecture::X8664)
            == "package-json-upgrade-lsp-x86_64-pc-windows-msvc.zip"@,
        asset_name_for(Os::Windows, Architecture::X86)
            == "package-json-upgrade-lsp-x86-pc-windows-msvc.zip"@,
{
    reveal_strlit("package-json-upgrade-lsp");
    reveal_strlit("-");
    reveal_strlit(".");
    reveal_strlit("aarch64");
    reveal_strlit("x86_64");
    reveal_strlit("x86");
    reveal_strlit("apple-darwin");
    reveal_strlit("unknown-linux-gnu");
    reveal_strlit("pc-windows-msvc");
    reveal_strlit("zip");
    reveal_strlit("tar.gz");
    reveal_strlit("package-json-upgrade-lsp-aarch64-apple-darwin.tar.gz");
    reveal_strlit("package-json-upgrade-lsp-x86_64-apple-darwin.tar.gz");
    reveal_strlit("package-json-upgrade-lsp-x86-apple-darwin.tar.gz");
    reveal_strlit("package-json-upgrade-lsp-aarch64-unknown-linux-gnu.tar.gz");
    reveal_strlit("package-json-upgrade-lsp-x86_64-unknown-linux-gnu.tar.gz");
    reveal_strlit("package-json-upgrade-lsp-x86-unknown-linux-gnu.tar.gz");
    reveal_strlit("package-json-upgrade-lsp-aarch64-pc-windows-msvc.zip");
    reveal_strlit("package-json-upgrade-lsp-x86_64-pc-windows-msvc.zip");
    reveal_strlit("package-json-upgrade-lsp-x86-pc-windows-msvc.zip");
    assert(asset_name_for(Os::Mac, Architecture::Aarch64)
        =~= "package-json-upgrade-lsp-aarch64-apple-darwin.tar.gz"@);
    assert(asset_name_for(Os::Mac, Architecture::X8664)
        =~= "package-json-upgrade-lsp-x86_64-apple-darwin.tar.gz"@);
    assert(asset_name_for(Os::Mac, Architecture::X86)
        =~= "package-json-upgrade-lsp-x86-apple-darwin.tar.gz"@);
    assert(asset_name_for(Os::Linux, Architecture::Aarch64)
        =~= "package-json-upgrade-lsp-aarch64-unknown-linux-gnu.tar.gz"@);
    assert(asset_name_for(Os::Linux, Architecture::X8664)
        =~= "package-json-upgrade-lsp-x86_64-unknown-linux-gnu.tar.gz"@);
    assert(asset_name_for(Os::Linux, Architecture::X86)
        =~= "package-json-upgrade-lsp-x86-unknown-linux-gnu.tar.gz"@);
    assert(asset_name_for(Os::Windows, Architecture::Aarch64)
        =~= "package-json-upgrade-lsp-aarch64-pc-windows-msvc.zip"@);
    assert(asset_name_for(Os::Windows, Architecture::X8664)
        =~= "package-json-upgrade-lsp-x86_64-pc-windows-msvc.zip"@);
    assert(asset_name_for(Os::Windows, Architecture::X86)
        =~= "package-json-upgrade-lsp-x86-pc-windows-msvc.zip"@);
}

/// The binary of a release lies in the directory of the release, which is named
/// after the server and the version. On Windows its name ends with `.exe`.
pub proof fn law_paths_of_releases(version: Seq<char>)
    ensures
        version_dir_for(version) == "package-json-upgrade-lsp-"@ + version,
        bin_path_for(Os::Windows, version) == version_dir_for(version)
            + "/package-json-upgrade-lsp.exe"@,
        bin_path_for(Os::Mac, version) == version_dir_for(version) + "/package-json-upgrade-lsp"@,
        bin_path_for(Os::Linux, version) == bin_path_for(Os::Mac, version),
{
    reveal_strlit("package-json-upgrade-lsp");
    reveal_strlit("package-json-upgrade-lsp-");
    reveal_strlit("-");
    reveal_strlit("/");
    reveal_strlit(".exe");
    reveal_strlit("/package-json-upgrade-lsp");
    reveal_strlit("/package-json-upgrade-lsp.exe");
    let dir = version_dir_for(version);
    assert("package-json-upgrade-lsp-"@ =~= BIN_NAME@ + "-"@);
    assert("/package-json-upgrade-lsp"@ =~= "/"@ + BIN_NAME@);
    assert("/package-json-upgrade-lsp.exe"@ =~= "/"@ + (BIN_NAME@ + ".exe"@));
    assert(bin_path_for(Os::Windows, version) =~= dir + ("/"@ + (BIN_NAME@ + ".exe"@)));
    assert(bin_path_for(Os::Mac, version) =~= dir + ("/"@ + BIN_NAME@));
}

proof fn lemma_asset_named(assets: Seq<AssetView>, name: Seq<char>)
    ensures
        match asset_named(assets, name) {
            Some(a) => exists|i: int|
                0 <= i < assets.len() && #[trigger] assets[i] == a && a.name == name && forall|
                    j: int,
                |
                    0 <= j < i ==> (#[trigger] assets[j]).name != name,
            None => forall|j: int| 0 <= j < assets.len() ==> (#[trigger] assets[j]).name != name,
        },
    decreases assets.len(),
{
    if assets.len() > 0 {
        let rest = assets.drop_first();
        if assets[0].name == name {
            assert(assets[0] == asset_named(assets, name)->0);
        } else {
            lemma_asset_named(rest, name);
            if let Some(a) = asset_named(assets, name) {
                let i = choose|i: int|
                    0 <= i < rest.len() && #[trigger] rest[i] == a && a.name == name && forall|
                        j: int,
                    |
                        0 <= j < i ==> (#[trigger] rest[j]).name != name;
                assert(assets[i + 1] == a);
                assert forall|j: int| 0 <= j < i + 1 implies (
                #[trigger] assets[j]).name != name by {
                    if j > 0 {
                        assert(assets[j] == rest[j - 1]);
                    }
                }
            } else {
                assert forall|j: int| 0 <= j < assets.len() implies (
                #[trigger] assets[j]).name != name by {
                    if j > 0 {
                        assert(assets[j] == rest[j - 1]);
                    }
                }
            }
        }
    }
}

/// What is installed from a release is the first asset for the machine, from its
/// own address, into the directory of the release. It fails exactly where the
/// release has no such asset.
pub proof fn law_plan_takes_the_asset_for_the_machine(
    os: Os,
    arch: Architecture,
    release: ReleaseView,
)
    ensures
        match plan_for(os, arch, release) {
            Ok(plan) => {
                &&& exists|i: int|
                    0 <= i < release.assets.len() && (#[trigger] release.assets[i]).name
                        == asset_name_for(os, arch) && release.assets[i].download_url
                        == plan.download_url && forall|j: int|
                        0 <= j < i ==> (#[trigger] release.assets[j]).name != asset_name_for(
                            os,
                            arch,
                        )
                &&& plan.asset_name == asset_name_for(os, arch)
                &&& plan.version_dir == version_dir_for(release.version)
                &&& plan.bin_path == bin_path_for(os, release.version)
                &&& plan.zip <==> os == Os::Windows
            },
            Err(why) => {
                &&& forall|i: int|
                    0 <= i < release.assets.len() ==> (#[trigger] release.assets[i]).name
                        != asset_name_for(os, arch)
                &&& why == "no asset named "@ + asset_name_for(os, arch) + " in release "@
                    + release.version
            },
        },
{
    lemma_asset_named(release.assets, asset_name_for(os, arch));
}

/// An installation goes its way from the latest release to the path of its
/// binary: the binary is looked for first, and given out where it is there; else
/// the asset is downloaded, the binary is made executable, other releases are
/// removed, and then it is given out. Each failure on the way ends it with its
/// reason, and the path is remembered at the end alone.
pub proof fn law_course_of_an_installation(
    cached: Option<Seq<char>>,
    os: Os,
    arch: Architecture,
    release: Release,
    plan: InstallPlan,
    why: &str,
)
    requires
        plan_for(os, arch, release.deep_view()) == Ok::<InstallPlanView, Seq<char>>(
            plan.deep_view(),
        ),
    ensures
        install_step(cached, os, arch, InstallEvent::OnPath(None)) == (
            cached,
            InstallStepView::FetchLatest,
        ),
        install_step(cached, os, arch, InstallEvent::Latest(Ok(&release))) == (
            cached,
            InstallStepView::CheckBinary(plan.deep_view()),
        ),
        install_step(cached, os, arch, InstallEvent::Latest(Err(why))) == (
            cached,
            InstallStepView::Done(Err(why@)),
        ),
        install_step(cached, os, arch, InstallEvent::Binary(&plan, true)) == (
            Some(plan.bin_path@),
            InstallStepView::Done(Ok(plan.bin_path@)),
        ),
        install_step(cached, os, arch, InstallEvent::Binary(&plan, false)) == (
            cached,
            InstallStepView::Download(plan.deep_view()),
        ),
        install_step(cached, os, arch, InstallEvent::Downloaded(&plan, None)) == (
            cached,
            InstallStepView::MakeExecutable(plan.deep_view()),
        ),
        install_step(cached, os, arch, InstallEvent::Downloaded(&plan, Some(why))) == (
            cached,
            InstallStepView::Done(Err("failed to download "@ + plan.asset_name@ + ": "@ + why@)),
        ),
        install_step(cached, os, arch, InstallEvent::Executable(&plan, None)) == (
            cached,
            InstallStepView::Prune(plan.deep_view()),
        ),
        install_step(cached, os, arch, InstallEvent::Executable(&plan, Some(why))) == (
            cached,
            InstallStepView::Done(Err(why@)),
        ),
        install_step(cached, os, arch, InstallEvent::Pruned(&plan)) == (
            Some(plan.bin_path@),
            InstallStepView::Done(Ok(plan.bin_path@)),
        ),
{
}

/// A path that is remembered is looked at before anything else. Where it is gone,
/// or is not the one that is remembered, the search path is looked at.
pub proof fn law_remembered_path_goes_first(
    os: Os,
    arch: Architecture,
    cached: Option<Seq<char>>,
    path: &str,
)
    ensures
        install_step(Some(path@), os, arch, InstallEvent::Start) == (
            Some(path@),
            InstallStepView::CheckCached(path@),
        ),
        install_step(cached, os, arch, InstallEvent::Cached(path, false)) == (
            cached,
            InstallStepView::LookOnPath,
        ),
        cached != Some(path@) ==> install_step(cached, os, arch, InstallEvent::Cached(path, true))
            == (cached, InstallStepView::LookOnPath),
{
}

/// What is removed is everything whose name begins with that of the server, but
/// what is to be kept.
pub proof fn law_leftovers_are_removed(name: Seq<char>, keep: Seq<char>, rest: Seq<char>)
    ensures
        outdated("package-json-upgrade-lsp"@ + rest, keep) <==> "package-json-upgrade-lsp"@ + rest
            != keep,
        outdated(name, keep) ==> exists|more: Seq<char>| name == #[trigger] (
        "package-json-upgrade-lsp"@ + more),
{
    let s = "package-json-upgrade-lsp"@ + rest;
    assert(s.subrange(0, BIN_NAME@.len() as int) =~= BIN_NAME@);
    if outdated(name, keep) {
        assert(name =~= "package-json-upgrade-lsp"@ + name.skip(BIN_NAME@.len() as int));
    }
}

} // verus!
