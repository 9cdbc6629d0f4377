use package_json_upgrade::audit::{Advisory, AdvisorySeverity, AuditResult};
use package_json_upgrade::document::{parse_package_json, DepEntry};
use package_json_upgrade::lsp::{
    ActionKind, CodeAction, Command, Diagnostic, DiagnosticSeverity, LspRange, Position, TextEdit,
    Url, WorkspaceEdit,
};
use package_json_upgrade::registry::{CachedPackage, PackageStatus};
use package_json_upgrade::semver::{sort_newest_first, Version};
use package_json_upgrade::settings::Settings;
use package_json_upgrade::views::actions::{
    bulk_update_actions, offer_targets, open_url_action, rewrite, safe_upgrade_action,
    safe_upgrade_action_from, upgrade_action, upgrade_actions, upgrade_actions_from,
    visible_upgrade_actions, workspace_edit, OPEN_URL, UPDATE_ALL, UPDATE_ALL_KIND,
};
use package_json_upgrade::views::diagnostics::{
    advisory, advisory_linked, invalid_semver, not_found, outdated,
};
use package_json_upgrade::views::hover::{advisory_line, changelog, render, render_for};
use package_json_upgrade::views::inlay::{
    advisory_badge, audit_tooltip, list_targets, upgrade_label,
};
use package_json_upgrade::views::util::{
    any_match, distinct_targets, has_prefix, hint_anchor, is_ignored, is_package_json,
    is_upgradable, keep_visible, pick_newer_target, pick_newer_targets, version_ignored,
};

fn v(text: &str) -> Version {
    Version::parse(text).unwrap()
}

fn uri() -> Url {
    Url::parse("file:///p/package.json").unwrap()
}

fn dep(name: &str, range: &str) -> DepEntry {
    let text = format!("{{\"dependencies\":{{\"{name}\":\"{range}\"}}}}");
    let mut deps = parse_package_json(&text, &["dependencies".to_string()]).deps;
    assert_eq!(deps.len(), 1);
    deps.remove(0)
}

fn package(versions: &[&str], latest: Option<&str>) -> CachedPackage {
    CachedPackage {
        fetched: 0,
        status: PackageStatus::Found,
        latest: latest.map(v),
        versions: sort_newest_first(versions.iter().map(|t| v(t)).collect()),
        description: None,
        license: None,
        homepage: None,
        repository_url: None,
    }
}

fn adv(id: &str, severity: AdvisorySeverity, fixed_in: Option<&str>, url: Option<&str>) -> Advisory {
    Advisory {
        id: id.to_string(),
        summary: format!("about {id}"),
        severity,
        fixed_in: fixed_in.map(v),
        url: url.map(str::to_string),
    }
}

fn audit(advisories: Vec<Advisory>) -> AuditResult {
    let mut r = AuditResult::fresh(0);
    r.advisories = advisories;
    r
}

fn texts(targets: &[Option<&str>]) -> Vec<Option<String>> {
    targets.iter().map(|t| t.map(str::to_string)).collect()
}

// ---- util ----

#[test]
fn package_json_is_the_last_segment() {
    let is = |text: &str| is_package_json(&Url::parse(text).unwrap());
    assert!(is("file:///package.json"));
    assert!(is("file:///a/b/package.json"));
    assert!(is("file:///a/package.json?x#y"));
    assert!(is("untitled:package.json"));
    assert!(!is("file:///a/package.json/"));
    assert!(!is("file:///a/xpackage.json"));
    assert!(!is("file:///a/package-lock.json"));
    assert!(!is("file:///a?/package.json"));
    assert!(!is("file:///"));
}

#[test]
fn addresses_are_normalised() {
    let url = Url::parse("HTTPS://Example.com/a b/../c?d").unwrap();
    assert_eq!(url.text, "https://example.com/c?d");
    assert_eq!(url.path, "/c");
    assert!(Url::parse("not an address").is_none());
}

#[test]
fn patterns_match_somewhere_in_the_name() {
    let mut s = Settings::default();
    assert!(!is_ignored("@types/node", &s));
    s.ignore_patterns = vec!["(".to_string(), "^@types/.+$".to_string()];
    assert!(is_ignored("@types/node", &s));
    assert!(!is_ignored("types/node", &s));
    s.ignore_patterns = vec!["act".to_string()];
    assert!(is_ignored("react", &s));
    s.ignore_patterns = vec!["(".to_string()];
    assert!(!is_ignored("(", &s));
    s.ignore_patterns = vec![String::new()];
    assert!(is_ignored("anything", &s));
}

#[test]
fn one_match_is_enough() {
    assert!(!any_match(&vec![]));
    assert!(!any_match(&vec![None, Some(false)]));
    assert!(any_match(&vec![None, Some(false), Some(true)]));
}

#[test]
fn versions_are_hidden_by_rule() {
    let mut s = Settings::default();
    s.ignore_versions.insert("@types/node".to_string(), ">18".to_string());
    s.ignore_versions.insert("x".to_string(), "no range at all".to_string());
    assert!(version_ignored("@types/node", &v("20.0.0"), &s));
    assert!(!version_ignored("@types/node", &v("18.0.0"), &s));
    assert!(!version_ignored("node", &v("20.0.0"), &s));
    assert!(!version_ignored("x", &v("20.0.0"), &s));
}

#[test]
fn the_last_rule_counts() {
    let mut s = Settings::default();
    s.ignore_versions.insert("x".to_string(), "1".to_string());
    s.ignore_versions.insert("x".to_string(), "2".to_string());
    assert_eq!(s.ignore_versions.get("x"), Some("2"));
    assert_eq!(s.clone().ignore_versions.get("x"), Some("2"));
    assert_eq!(s.ignore_versions.get("y"), None);
    let entries = s.ignore_versions.entries();
    assert_eq!(entries.last(), Some(&("x".to_string(), "2".to_string())));
}

#[test]
fn default_settings_look_at_two_sections() {
    let s = Settings::default();
    assert!(s.ignore_patterns.is_empty());
    assert_eq!(s.check_sections, ["dependencies", "devDependencies"]);
    assert!(s.show_updates && s.audit);
}

#[test]
fn prefixes_may_be_empty() {
    assert!(has_prefix("1.2.3", ""));
    assert!(has_prefix("1.2.3", "1.2"));
    assert!(!has_prefix("1.2.3", "2"));
    assert!(!has_prefix("", "1"));
}

#[test]
fn hints_stand_behind_the_quote() {
    let at = |character: u32| hint_anchor(Position { line: 7, character });
    assert_eq!(at(3), Position { line: 7, character: 4 });
    assert_eq!(at(u32::MAX), Position { line: 7, character: u32::MAX });
}

#[test]
fn targets_lead_up() {
    let list = package(&["1.0.0", "1.0.1", "1.1.0", "2.0.0"], None).versions;
    let pick = |from: &str, tier: &str| {
        pick_newer_target(&list, &v(from), tier).map(|x| x.to_string())
    };
    assert_eq!(pick("1.0.0", "major").as_deref(), Some("2.0.0"));
    assert_eq!(pick("2.0.0", "major"), None);
    assert_eq!(pick("3.0.0", "major"), None);
    assert_eq!(pick("1.0.0", "patch").as_deref(), Some("1.0.1"));
    let all: Vec<Option<String>> = pick_newer_targets(&list, &v("1.0.0"))
        .iter()
        .map(|t| t.as_ref().map(|x| x.to_string()))
        .collect();
    assert_eq!(all, texts(&[Some("1.0.1"), Some("1.1.0"), Some("2.0.0")]));
}

#[test]
fn the_same_target_is_named_once() {
    let of = |list: &[Option<&str>]| {
        distinct_targets(&list.iter().map(|t| t.map(v)).collect::<Vec<Option<Version>>>())
    };
    assert_eq!(
        of(&[Some("1.0.1"), Some("1.0.1"), Some("2.0.0")]),
        texts(&[Some("1.0.1"), None, Some("2.0.0")])
    );
    assert_eq!(
        of(&[Some("1.0.1"), None, Some("1.0.1")]),
        texts(&[Some("1.0.1"), None, None])
    );
    assert_eq!(
        of(&[Some("1.0.1+a"), Some("1.0.1+b"), None]),
        texts(&[Some("1.0.1+a"), Some("1.0.1+b"), None])
    );
    assert_eq!(of(&[]), texts(&[]));
}

// ---- diagnostics ----

#[test]
fn remarks_stand_at_the_version() {
    let d = dep("a", "nope");
    assert_eq!(
        invalid_semver(&d),
        Diagnostic {
            range: LspRange {
                start: Position { line: 0, character: 22 },
                end: Position { line: 0, character: 26 },
            },
            severity: DiagnosticSeverity::Error,
            code: "invalid-semver".to_string(),
            code_description: None,
            source: "package-json-upgrade".to_string(),
            message: "Invalid semver range: \"nope\"".to_string(),
        }
    );
    assert_eq!(
        not_found(&d),
        Diagnostic {
            range: d.value_range,
            severity: DiagnosticSeverity::Warning,
            code: "not-found".to_string(),
            code_description: None,
            source: "package-json-upgrade".to_string(),
            message: "Package \"a\" not found in npm registry".to_string(),
        }
    );
}

#[test]
fn outdated_dependencies_are_hints() {
    let d = dep("a", "1.0.0");
    assert_eq!(
        outdated(&d),
        Diagnostic {
            range: d.value_range,
            severity: DiagnosticSeverity::Hint,
            code: "outdated".to_string(),
            code_description: None,
            source: "package-json-upgrade".to_string(),
            message: "A newer version of \"a\" is available".to_string(),
        }
    );
}

#[test]
fn upgradable_packages_have_a_visible_target() {
    let mut s = Settings::default();
    let list = package(&["1.0.0", "2.0.0", "3.0.0-rc.1"], None).versions;
    assert!(is_upgradable(&s, "a", &list, &v("1.0.0")));
    assert!(!is_upgradable(&s, "a", &list, &v("2.0.0")));
    s.ignore_versions.insert("a".to_string(), "2".to_string());
    assert!(!is_upgradable(&s, "a", &list, &v("1.0.0")));
    assert!(is_upgradable(&s, "b", &list, &v("1.0.0")));
    let targets = pick_newer_targets(&list, &v("1.0.0"));
    assert_eq!(keep_visible(&targets, "a", &s).iter().filter(|t| t.is_some()).count(), 0);
}

#[test]
fn advisories_are_remarked_by_severity() {
    let d = dep("a", "1.0.0");
    let of = |severity: AdvisorySeverity| advisory(&d, &adv("I", severity, None, None)).severity;
    assert_eq!(of(AdvisorySeverity::Critical), DiagnosticSeverity::Error);
    assert_eq!(of(AdvisorySeverity::High), DiagnosticSeverity::Error);
    assert_eq!(of(AdvisorySeverity::Moderate), DiagnosticSeverity::Warning);
    assert_eq!(of(AdvisorySeverity::Low), DiagnosticSeverity::Information);
    assert_eq!(of(AdvisorySeverity::Unknown), DiagnosticSeverity::Information);
}

#[test]
fn advisories_are_remarked_with_fix_and_page() {
    let d = dep("a", "1.0.0");
    let a = adv("I", AdvisorySeverity::Low, Some("1.0.1"), Some("HTTPS://x"));
    assert_eq!(
        advisory(&d, &a),
        Diagnostic {
            range: d.value_range,
            severity: DiagnosticSeverity::Information,
            code: "I".to_string(),
            code_description: Some("https://x/".to_string()),
            source: "package-json-upgrade/audit".to_string(),
            message: "[I] about I — fixed in 1.0.1".to_string(),
        }
    );
    let bare = adv("I", AdvisorySeverity::Low, None, Some("no address"));
    let remark = advisory(&d, &bare);
    assert_eq!(remark.code_description, None);
    assert_eq!(remark.message, "[I] about I");
    let page = Url::parse("https://y/z");
    assert_eq!(advisory_linked(&d, &bare, page).code_description.as_deref(), Some("https://y/z"));
}

// ---- hover ----

#[test]
fn markdown_holds_what_is_known() {
    let d = dep("left-pad", "^1.0.0");
    let mut p = package(&["1.0.0"], None);
    assert_eq!(render(&d, &p, None), "**left-pad**\n\n");
    p.latest = Some(v("1.3.0"));
    p.license = Some("MIT".to_string());
    p.description = Some("Pads.".to_string());
    p.homepage = Some("https://h".to_string());
    p.repository_url = Some("https://github.com/o/r".to_string());
    let head = "**left-pad**  ·  latest `1.3.0`  ·  MIT\n\nPads.\n\n[homepage](https://h)  ·  [changelog](https://github.com/o/r/releases)";
    assert_eq!(render(&d, &p, None), head);
    assert_eq!(render(&d, &p, Some(&audit(vec![]))), head);
    let found = audit(vec![
        adv("A", AdvisorySeverity::Critical, Some("1.0.1"), Some("https://a")),
        adv("B", AdvisorySeverity::Moderate, None, None),
    ]);
    let lines = "\n- 🔴 critical · [A](https://a) — about A — fixed in `1.0.1`\n- 🟡 moderate · B — about B";
    assert_eq!(
        render(&d, &p, Some(&found)),
        format!("{head}\n\n---\n\n**Security advisories** (2 for `1.0.0`)\n{lines}")
    );
    assert_eq!(
        render(&dep("left-pad", "*"), &p, Some(&found)),
        format!("{head}\n\n---\n\n**Security advisories** (2)\n{lines}")
    );
    assert_eq!(
        render_for("left-pad", &p, Some(&found), &Some(v("9.9.9"))),
        format!("{head}\n\n---\n\n**Security advisories** (2 for `9.9.9`)\n{lines}")
    );
}

#[test]
fn lines_begin_with_a_mark() {
    let of = |severity: AdvisorySeverity| advisory_line(&adv("I", severity, None, None));
    assert_eq!(of(AdvisorySeverity::Critical), "🔴 critical · I — about I");
    assert_eq!(of(AdvisorySeverity::High), "🔴 high · I — about I");
    assert_eq!(of(AdvisorySeverity::Moderate), "🟡 moderate · I — about I");
    assert_eq!(of(AdvisorySeverity::Low), "🟢 low · I — about I");
    assert_eq!(of(AdvisorySeverity::Unknown), "⚪ unknown · I — about I");
}

#[test]
fn changelogs_need_a_known_host() {
    let mut p = package(&[], None);
    assert_eq!(changelog(&p), None);
    p.repository_url = Some("https://example.com/r".to_string());
    assert_eq!(changelog(&p), None);
    p.repository_url = Some("https://gitlab.com/o/r/".to_string());
    assert_eq!(changelog(&p).as_deref(), Some("https://gitlab.com/o/r/-/releases"));
}

// ---- hints ----

#[test]
fn labels_list_the_tiers() {
    let s = Settings::default();
    let d = dep("a", "1.0.0");
    let label = |versions: &[&str], from: &str| {
        upgrade_label(&d, &package(versions, None), &v(from), &s)
    };
    assert_eq!(
        label(&["1.0.0", "1.0.2", "1.3.0", "2.0.0"], "1.0.0").as_deref(),
        Some(" 🟢 1.0.2 · 🟡 1.3.0 · 🔴 2.0.0")
    );
    assert_eq!(label(&["1.0.0", "1.0.2"], "1.0.0").as_deref(), Some(" 🟢 1.0.2"));
    assert_eq!(label(&["1.0.0", "1.2.0"], "1.0.0").as_deref(), Some(" 🟡 1.2.0"));
    assert_eq!(label(&["1.0.0", "2.0.0"], "1.0.0").as_deref(), Some(" 🔴 2.0.0"));
    assert_eq!(
        label(&["1.0.1", "2.0.0"], "1.0.0").as_deref(),
        Some(" 🟢 1.0.1 · 🔴 2.0.0")
    );
    assert_eq!(label(&["1.0.0"], "1.0.0"), None);
    assert_eq!(label(&["0.9.0"], "1.0.0"), None);
    assert_eq!(label(&["2.0.0-rc.1"], "1.0.0"), None);
}

#[test]
fn hidden_versions_are_not_listed() {
    let mut s = Settings::default();
    s.ignore_versions.insert("a".to_string(), ">=2".to_string());
    let d = dep("a", "1.0.0");
    let p = package(&["1.0.0", "1.0.2", "2.0.0"], None);
    assert_eq!(upgrade_label(&d, &p, &v("1.0.0"), &s).as_deref(), Some(" 🟢 1.0.2"));
    let q = package(&["1.0.0", "2.0.0"], None);
    assert_eq!(upgrade_label(&d, &q, &v("1.0.0"), &s), None);
    assert_eq!(
        upgrade_label(&dep("b", "1.0.0"), &q, &v("1.0.0"), &s).as_deref(),
        Some(" 🔴 2.0.0")
    );
}

#[test]
fn labels_are_made_of_texts() {
    assert_eq!(list_targets(&texts(&[])), None);
    assert_eq!(list_targets(&texts(&[None, None, None])), None);
    assert_eq!(list_targets(&texts(&[None, Some("x"), None])).as_deref(), Some(" 🟡 x"));
}

#[test]
fn badges_show_the_worst() {
    let badge = |list: &[AdvisorySeverity]| {
        advisory_badge(&audit(list.iter().map(|s| adv("I", *s, None, None)).collect()))
    };
    assert_eq!(badge(&[]), None);
    assert_eq!(badge(&[AdvisorySeverity::Unknown]).as_deref(), Some(" ℹ 1 vuln"));
    assert_eq!(
        badge(&[AdvisorySeverity::Low, AdvisorySeverity::Moderate]).as_deref(),
        Some(" ⚠ 2 vulns")
    );
    assert_eq!(
        badge(&[AdvisorySeverity::High, AdvisorySeverity::Moderate]).as_deref(),
        Some(" ‼ 2 vulns")
    );
    assert_eq!(
        badge(&[AdvisorySeverity::Low, AdvisorySeverity::Critical, AdvisorySeverity::High])
            .as_deref(),
        Some(" 🚨 3 vulns")
    );
}

#[test]
fn tooltips_list_five_advisories() {
    let of = |n: usize| {
        let list = (0..n)
            .map(|i| adv(&format!("{i}"), AdvisorySeverity::Low, None, None))
            .collect();
        audit_tooltip("a", Some(&audit(list)))
    };
    assert_eq!(audit_tooltip("a", None), "a");
    assert_eq!(of(0), "a");
    assert_eq!(of(1), "a — 1 advisory\n• [0] about 0");
    assert_eq!(of(2), "a — 2 advisories\n• [0] about 0\n• [1] about 1");
    assert!(of(5).ends_with("\n• [4] about 4"));
    assert_eq!(
        of(7),
        "a — 7 advisories\n• [0] about 0\n• [1] about 1\n• [2] about 2\n• [3] about 3\n• [4] about 4\n… +2 more"
    );
}

// ---- actions ----

fn fix(title: &str, d: &DepEntry, new_text: &str, preferred: bool) -> CodeAction {
    CodeAction {
        title: title.to_string(),
        kind: ActionKind::QuickFix,
        edit: Some(WorkspaceEdit {
            uri: "file:///p/package.json".to_string(),
            edits: vec![TextEdit { range: d.value_range, new_text: new_text.to_string() }],
        }),
        command: None,
        is_preferred: Some(preferred),
    }
}

#[test]
fn upgrades_are_offered_by_tier() {
    let d = dep("a", "^1.0.0");
    let p = package(&["1.0.0", "1.0.2", "1.3.0", "2.0.0", "3.0.0-rc.1"], Some("2.0.0"));
    assert_eq!(
        upgrade_actions(&uri(), &d, &p.versions, &v("2.0.0")),
        [
            fix("Do patch upgrade to 1.0.2", &d, "^1.0.2", false),
            fix("Do minor upgrade to 1.3.0", &d, "^1.3.0", false),
            fix("Do major upgrade to 2.0.0", &d, "^2.0.0", true),
        ]
    );
    assert_eq!(
        upgrade_actions(&uri(), &d, &p.versions, &v("1.3.0")).iter().map(|a| a.is_preferred)
            .collect::<Vec<Option<bool>>>(),
        [Some(false), Some(true), Some(false)]
    );
    assert!(upgrade_actions(&uri(), &dep("a", "*"), &p.versions, &v("2.0.0")).is_empty());
    assert!(upgrade_actions(&uri(), &dep("a", "2.0.0"), &p.versions, &v("2.0.0")).is_empty());
    assert_eq!(
        upgrade_actions_from(&uri(), &d, &Some(v("1.3.0")), &p.versions, &v("2.0.0")),
        [fix("Do major upgrade to 2.0.0", &d, "^2.0.0", true)]
    );
}

#[test]
fn the_same_upgrade_is_offered_once() {
    let d = dep("a", "~1.0.0");
    let p = package(&["1.0.0", "1.0.2"], None);
    assert_eq!(
        upgrade_actions(&uri(), &d, &p.versions, &v("1.0.2")),
        [fix("Do patch upgrade to 1.0.2", &d, "~1.0.2", true)]
    );
}

#[test]
fn offers_are_titled_by_tier() {
    let d = dep("a", ">=1.0.0");
    assert_eq!(
        upgrade_action(&uri(), &d, "other", "2", false),
        fix("Update to 2", &d, ">=2", false)
    );
    assert_eq!(
        offer_targets(&uri(), &d, &texts(&[None, Some("5"), Some("6")]), "minor"),
        [fix("Do minor upgrade to 5", &d, ">=5", true), fix("Do major upgrade to 6", &d, ">=6", false)]
    );
    assert_eq!(rewrite(&d, "x"), ">=x");
}

#[test]
fn the_safe_version_is_offered() {
    let d = dep("a", "^1.0.0");
    let found = audit(vec![
        adv("A", AdvisorySeverity::Low, Some("1.0.1"), None),
        adv("B", AdvisorySeverity::Low, Some("1.0.3"), None),
    ]);
    assert_eq!(
        safe_upgrade_action(&uri(), &d, &found),
        Some(fix("Update to first non-vulnerable version (1.0.3)", &d, "^1.0.3", true))
    );
    assert_eq!(safe_upgrade_action(&uri(), &dep("a", "1.0.3"), &found), None);
    assert_eq!(safe_upgrade_action(&uri(), &dep("a", "*"), &found), None);
    assert_eq!(safe_upgrade_action(&uri(), &d, &audit(vec![])), None);
    assert_eq!(safe_upgrade_action_from(&uri(), &d, &Some(v("2.0.0")), &found), None);
}

#[test]
fn hidden_versions_are_not_offered() {
    let mut s = Settings::default();
    s.ignore_versions.insert("a".to_string(), ">=2".to_string());
    let d = dep("a", "^1.0.0");
    let p = package(&["1.0.0", "1.0.2", "2.0.0"], Some("2.0.0"));
    let pinned = Some(v("1.0.0"));
    assert_eq!(
        visible_upgrade_actions(&s, &uri(), &d, &pinned, &p.versions, &v("2.0.0")),
        [fix("Do patch upgrade to 1.0.2", &d, "^1.0.2", false)]
    );
    assert!(visible_upgrade_actions(&s, &uri(), &d, &None, &p.versions, &v("2.0.0")).is_empty());
}

#[test]
fn updates_of_all_dependencies_are_commands() {
    assert_eq!(UPDATE_ALL_KIND, "source.package-json-upgrade.updateAll");
    assert_eq!(UPDATE_ALL, "package-json-upgrade.updateAll");
    let offer = |tier: &str| CodeAction {
        title: format!("Update all dependencies ({tier})"),
        kind: ActionKind::UpdateAll,
        edit: None,
        command: Some(Command {
            title: format!("Update all dependencies ({tier})"),
            command: "package-json-upgrade.updateAll".to_string(),
            arguments: vec!["file:///p/package.json".to_string(), tier.to_string()],
        }),
        is_preferred: None,
    };
    assert_eq!(bulk_update_actions(&uri()), [offer("patch"), offer("minor"), offer("major")]);
}

#[test]
fn pages_are_opened_by_a_command() {
    assert_eq!(OPEN_URL, "package-json-upgrade.openUrl");
    assert_eq!(
        open_url_action("Open homepage", "https://h".to_string()),
        CodeAction {
            title: "Open homepage".to_string(),
            kind: ActionKind::Empty,
            edit: None,
            command: Some(Command {
                title: "Open homepage".to_string(),
                command: "package-json-upgrade.openUrl".to_string(),
                arguments: vec!["https://h".to_string()],
            }),
            is_preferred: None,
        }
    );
}

#[test]
fn an_edit_is_for_one_document() {
    let d = dep("a", "1.0.0");
    assert_eq!(
        workspace_edit(&uri(), d.value_range, "x".to_string()),
        WorkspaceEdit {
            uri: "file:///p/package.json".to_string(),
            edits: vec![TextEdit { range: d.value_range, new_text: "x".to_string() }],
        }
    );
}
