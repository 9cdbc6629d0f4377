use package_json_upgrade::install::{
    asset_name, bin_path, is_outdated, plan_install, version_dir, Architecture, Asset,
    InstallEvent, InstallPlan, InstallStep, Installer, Os, Release, BIN_NAME, REPO,
};

fn release(names: &[&str]) -> Release {
    Release {
        version: "v0.1.0".to_string(),
        assets: names
            .iter()
            .enumerate()
            .map(|(i, n)| Asset { name: n.to_string(), download_url: format!("https://d/{i}") })
            .collect(),
    }
}

const LINUX: &str = "package-json-upgrade-lsp-x86_64-unknown-linux-gnu.tar.gz";

fn plan() -> InstallPlan {
    plan_install(Os::Linux, Architecture::X8664, &release(&["other", LINUX, LINUX])).unwrap()
}

#[test]
fn assets_are_named_by_machine() {
    assert_eq!(REPO, "Arthurmtro/zed-package-json-upgrade");
    assert_eq!(BIN_NAME, "package-json-upgrade-lsp");
    assert_eq!(asset_name(Os::Linux, Architecture::X8664), LINUX);
    assert_eq!(
        asset_name(Os::Mac, Architecture::Aarch64),
        "package-json-upgrade-lsp-aarch64-apple-darwin.tar.gz"
    );
    assert_eq!(
        asset_name(Os::Windows, Architecture::X86),
        "package-json-upgrade-lsp-x86-pc-windows-msvc.zip"
    );
}

#[test]
fn binaries_lie_in_the_directory_of_their_release() {
    assert_eq!(version_dir("v1"), "package-json-upgrade-lsp-v1");
    assert_eq!(
        bin_path(Os::Linux, "v1"),
        "package-json-upgrade-lsp-v1/package-json-upgrade-lsp"
    );
    assert_eq!(
        bin_path(Os::Windows, "v1"),
        "package-json-upgrade-lsp-v1/package-json-upgrade-lsp.exe"
    );
}

#[test]
fn the_first_asset_for_the_machine_is_taken() {
    assert_eq!(
        plan(),
        InstallPlan {
            asset_name: LINUX.to_string(),
            download_url: "https://d/1".to_string(),
            version_dir: "package-json-upgrade-lsp-v0.1.0".to_string(),
            bin_path: "package-json-upgrade-lsp-v0.1.0/package-json-upgrade-lsp".to_string(),
            zip: false,
        }
    );
    assert_eq!(
        plan_install(Os::Windows, Architecture::X8664, &release(&[LINUX])),
        Err("no asset named package-json-upgrade-lsp-x86_64-pc-windows-msvc.zip in release v0.1.0"
            .to_string())
    );
}

#[test]
fn other_releases_are_outdated() {
    let keep = version_dir("v2");
    assert!(is_outdated(&version_dir("v1"), &keep));
    assert!(is_outdated("package-json-upgrade-lsp", &keep));
    assert!(!is_outdated(&keep, &keep));
    assert!(!is_outdated("something-else", &keep));
}

#[test]
fn a_binary_is_installed_once() {
    let mut installer = Installer::new();
    let mut next = |event: InstallEvent| {
        installer.binary_path(Os::Linux, Architecture::X8664, event)
    };
    let p = plan();
    assert!(matches!(next(InstallEvent::Start), InstallStep::LookOnPath));
    assert!(matches!(next(InstallEvent::OnPath(None)), InstallStep::FetchLatest));
    let r = release(&[LINUX]);
    assert!(matches!(next(InstallEvent::Latest(Ok(&r))), InstallStep::CheckBinary(_)));
    assert!(matches!(next(InstallEvent::Binary(&p, false)), InstallStep::Download(_)));
    assert!(matches!(next(InstallEvent::Downloaded(&p, None)), InstallStep::MakeExecutable(_)));
    assert!(matches!(next(InstallEvent::Executable(&p, None)), InstallStep::Prune(_)));
    assert!(matches!(next(InstallEvent::Start), InstallStep::LookOnPath));
    assert!(matches!(
        next(InstallEvent::Pruned(&p)),
        InstallStep::Done(Ok(path)) if path == p.bin_path
    ));
    assert!(matches!(
        next(InstallEvent::Start),
        InstallStep::CheckCached(path) if path == p.bin_path
    ));
    assert!(matches!(
        next(InstallEvent::Cached(&p.bin_path, true)),
        InstallStep::Done(Ok(path)) if path == p.bin_path
    ));
    assert!(matches!(
        next(InstallEvent::Cached(&p.bin_path, false)),
        InstallStep::LookOnPath
    ));
    assert!(matches!(next(InstallEvent::Cached("elsewhere", true)), InstallStep::LookOnPath));
}

#[test]
fn a_binary_that_is_there_is_taken() {
    let mut installer = Installer::new();
    let p = plan();
    assert!(matches!(
        installer.binary_path(Os::Linux, Architecture::X8664, InstallEvent::Binary(&p, true)),
        InstallStep::Done(Ok(path)) if path == p.bin_path
    ));
    assert_eq!(installer.cached, Some(p.bin_path));
}

#[test]
fn a_binary_on_the_search_path_bypasses_the_download() {
    let mut installer = Installer::new();
    let mut next = |event: InstallEvent| {
        installer.binary_path(Os::Mac, Architecture::Aarch64, event)
    };
    assert!(matches!(next(InstallEvent::Start), InstallStep::LookOnPath));
    assert!(matches!(
        next(InstallEvent::OnPath(Some("/bin/lsp"))),
        InstallStep::Done(Ok(path)) if path == "/bin/lsp"
    ));
    assert!(matches!(
        next(InstallEvent::Start),
        InstallStep::CheckCached(path) if path == "/bin/lsp"
    ));
}

#[test]
fn failures_are_told() {
    let mut installer = Installer::new();
    let p = plan();
    let mut why = |event: InstallEvent| {
        match installer.binary_path(Os::Linux, Architecture::X8664, event) {
            InstallStep::Done(Err(message)) => message,
            other => panic!("{other:?}"),
        }
    };
    assert_eq!(why(InstallEvent::Latest(Err("offline"))), "offline");
    assert_eq!(
        why(InstallEvent::Latest(Ok(&release(&[])))),
        format!("no asset named {LINUX} in release v0.1.0")
    );
    assert_eq!(
        why(InstallEvent::Downloaded(&p, Some("broken"))),
        format!("failed to download {LINUX}: broken")
    );
    assert_eq!(why(InstallEvent::Executable(&p, Some("denied"))), "denied");
    assert_eq!(installer.cached, None);
}
