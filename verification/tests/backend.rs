use package_json_upgrade::audit::{
    Advisory, AdvisorySeverity, AuditEvent, AuditResult, AuditStep,
};
use package_json_upgrade::backend::{
    combine_edits, execute_command, plan_for_address, plan_prefetch, Backend, CommandPlan,
};
use package_json_upgrade::document::{parse_package_json, DepEntry};
use package_json_upgrade::jobs::{
    dep_actions, dep_diagnostics, dep_hover, dep_inlay_hint, fetch_dep, list_actions,
    list_completions, make_edit, make_hint, tier_edit, COMPLETION_LIMIT,
};
use package_json_upgrade::json::Json;
use package_json_upgrade::lsp::{Position, TextEdit, Url, WorkspaceEdit};
use package_json_upgrade::registry::{CachedPackage, FetchEvent, FetchStep, PackageStatus};
use package_json_upgrade::semver::{sort_newest_first, Version};
use package_json_upgrade::settings::Settings;
use package_json_upgrade::survey::{Job, Reply, Step, Survey, SurveyAction, SurveyEvent};
use package_json_upgrade::views::actions::{bulk_update_actions, OPEN_URL, UPDATE_ALL};

fn v(text: &str) -> Version {
    Version::parse(text).unwrap()
}

fn url(text: &str) -> Url {
    Url::parse(text).unwrap()
}

fn uri() -> Url {
    url("file:///p/package.json")
}

fn dep(name: &str, range: &str) -> DepEntry {
    let text = format!("{{\"dependencies\":{{\"{name}\":\"{range}\"}}}}");
    let mut deps = parse_package_json(&text, &["dependencies".to_string()]).deps;
    assert_eq!(deps.len(), 1);
    deps.remove(0)
}

fn package(versions: &[&str]) -> CachedPackage {
    CachedPackage {
        fetched: 0,
        status: PackageStatus::Found,
        latest: versions.last().map(|t| v(t)),
        versions: sort_newest_first(versions.iter().map(|t| v(t)).collect()),
        description: None,
        license: None,
        homepage: None,
        repository_url: None,
    }
}

fn unknown() -> CachedPackage {
    CachedPackage::not_found(0)
}

fn audit(fixes: &[&str]) -> AuditResult {
    let mut r = AuditResult::fresh(0);
    for (i, fix) in fixes.iter().enumerate() {
        r.advisories.push(Advisory {
            id: format!("A{i}"),
            summary: "s".to_string(),
            severity: AdvisorySeverity::High,
            fixed_in: Some(v(fix)),
            url: None,
        });
    }
    r
}

const TEXT: &str = r#"{
  "dependencies": {
    "a": "^1.0.0",
    "b": "nope!",
    "c": "*"
  },
  "devDependencies": { "gone": "1.0.0" }
}"#;

fn opened() -> Backend {
    let mut backend = Backend::new();
    assert!(backend.did_open(&uri(), TEXT).is_some());
    backend
}

/// Answers what a survey asks, and notes it down.
fn conduct<J: Job>(survey: &mut Survey<J>, asked: &mut Vec<String>) {
    let mut event = SurveyEvent::Start;
    loop {
        match survey.advance(event) {
            SurveyAction::Finish => return,
            SurveyAction::FetchPackage(name) => {
                asked.push(name.clone());
                event = SurveyEvent::Package(match name.as_str() {
                    "a" => Some(package(&["1.0.0", "1.0.1", "1.1.0", "2.0.0"])),
                    "b" | "c" => Some(package(&["1.0.0"])),
                    "gone" => Some(unknown()),
                    _ => None,
                });
            }
            SurveyAction::FetchAudit(name, version) => {
                asked.push(format!("{name}@{}", version.to_string()));
                event = SurveyEvent::Audit(if name == "a" {
                    Some(audit(&["1.0.1"]))
                } else {
                    None
                });
            }
        }
    }
}

#[test]
fn documents_are_read_and_prefetched() {
    let mut backend = Backend::new();
    let prefetch = backend.did_open(&uri(), TEXT).unwrap();
    assert_eq!(prefetch.packages, ["a", "b", "c", "gone"]);
    let audits: Vec<String> = prefetch
        .audits
        .iter()
        .map(|(n, x)| format!("{n}@{}", x.to_string()))
        .collect();
    assert_eq!(audits, ["a@1.0.0", "gone@1.0.0"]);
    assert!(backend.did_open(&url("file:///p/other.json"), TEXT).is_none());
    assert!(backend.dep_at(&url("file:///p/other.json"), Position { line: 2, character: 10 }).is_none());
    let doc = parse_package_json(TEXT, &["dependencies".to_string()]);
    assert!(plan_prefetch(&doc, false).audits.is_empty());
}

#[test]
fn the_last_change_counts() {
    let mut backend = opened();
    assert!(backend.did_change(&uri(), &vec![]).is_none());
    assert!(backend.did_change(&url("file:///x"), &vec![TEXT.to_string()]).is_none());
    let changes = vec![
        r#"{"dependencies":{"x":"1"}}"#.to_string(),
        r#"{"dependencies":{"y":"1"}}"#.to_string(),
    ];
    assert_eq!(backend.did_change(&uri(), &changes).unwrap().packages, ["y"]);
    let at = Position { line: 0, character: 22 };
    assert_eq!(backend.dep_at(&uri(), at).unwrap().name, "y");
}

#[test]
fn closed_documents_are_forgotten() {
    let mut backend = opened();
    let other = url("file:///q/package.json");
    backend.did_open(&other, TEXT);
    backend.did_close(&uri());
    let at = Position { line: 2, character: 10 };
    assert!(backend.dep_at(&uri(), at).is_none());
    assert_eq!(backend.dep_at(&other, at).unwrap().name, "a");
    backend.did_close(&uri());
    let mut asked = Vec::new();
    let mut survey = backend.diagnostics_for(&uri());
    conduct(&mut survey, &mut asked);
    assert!(asked.is_empty() && survey.finish().is_empty());
}

#[test]
fn new_settings_concern_all_open_documents() {
    let mut backend = opened();
    let other = url("file:///q/package.json");
    backend.did_open(&other, TEXT);
    let mut list = backend.did_change_configuration(Settings::default());
    list.sort();
    assert_eq!(list, ["file:///p/package.json", "file:///q/package.json"]);
    let mut s = Settings::default();
    s.check_sections = vec!["peerDependencies".to_string()];
    backend.configure(s);
    assert!(backend.did_open(&uri(), TEXT).unwrap().packages.is_empty());
}

#[test]
fn diagnostics_go_through_the_document() {
    let backend = opened();
    let mut asked = Vec::new();
    let mut survey = backend.diagnostics_for(&uri());
    conduct(&mut survey, &mut asked);
    let codes: Vec<String> = survey.finish().into_iter().map(|d| d.code).collect();
    assert_eq!(codes, ["A0", "outdated", "invalid-semver", "not-found"]);
    assert_eq!(asked, ["a", "a@1.0.0", "c", "gone"]);
}

#[test]
fn hints_go_through_the_document() {
    let backend = opened();
    let mut asked = Vec::new();
    let mut survey = backend.inlay_hint(&uri()).unwrap();
    conduct(&mut survey, &mut asked);
    let hints = survey.finish();
    assert_eq!(hints.len(), 1);
    assert_eq!(hints[0].label, " 🟢 1.0.1 · 🟡 1.1.0 · 🔴 2.0.0 ‼ 1 vuln");
    assert_eq!(hints[0].tooltip, "a — 1 advisory\n• [A0] s");
    assert_eq!(hints[0].position, Position { line: 2, character: 17 });
    assert_eq!(asked, ["a", "a@1.0.0", "c", "gone"]);
    assert!(backend.inlay_hint(&url("file:///x")).is_none());
}

#[test]
fn silence_covers_everything() {
    let mut backend = opened();
    let mut s = Settings::default();
    s.show_updates = false;
    backend.configure(s);
    let mut asked = Vec::new();
    let mut survey = backend.diagnostics_for(&uri());
    conduct(&mut survey, &mut asked);
    assert!(survey.finish().is_empty());
    let mut survey = backend.inlay_hints_for(&uri());
    conduct(&mut survey, &mut asked);
    assert!(survey.finish().is_empty());
    assert!(asked.is_empty());
    let at = Position { line: 2, character: 10 };
    let mut survey = backend.hover(&uri(), at).unwrap();
    conduct(&mut survey, &mut asked);
    assert!(survey.finish_one().is_none());
    let mut survey = backend.completion(&uri(), at).unwrap();
    conduct(&mut survey, &mut asked);
    assert!(survey.finish_one().is_none());
    let mut survey = backend.code_action(uri(), at).unwrap();
    conduct(&mut survey, &mut asked);
    assert!(survey.finish().is_empty());
    let mut survey = backend.run_update_all(&uri(), "major".to_string());
    conduct(&mut survey, &mut asked);
    assert!(survey.finish().is_empty());
    assert!(asked.is_empty());
    assert_eq!(backend.dep_at(&uri(), at).unwrap().name, "a");
}

#[test]
fn ignored_packages_are_passed_over() {
    let mut backend = opened();
    let mut s = Settings::default();
    s.ignore_patterns = vec!["^(a|b|gone)$".to_string()];
    backend.configure(s);
    let mut asked = Vec::new();
    let mut survey = backend.diagnostics_for(&uri());
    conduct(&mut survey, &mut asked);
    assert!(survey.finish().is_empty());
    assert_eq!(asked, ["c"]);
    let mut survey = backend.run_update_all(&uri(), "major".to_string());
    conduct(&mut survey, &mut asked);
    assert!(survey.finish().is_empty());
    asked.clear();
    let mut survey = backend.code_action(uri(), Position { line: 2, character: 10 }).unwrap();
    conduct(&mut survey, &mut asked);
    assert_eq!(asked, ["a"]);
    assert!(survey.finish().iter().all(|a| a.edit.is_none()));
}

#[test]
fn completions_are_for_the_dependency_at_the_cursor() {
    let backend = opened();
    let mut asked = Vec::new();
    let at = Position { line: 2, character: 12 };
    let mut survey = backend.completion(&uri(), at).unwrap();
    conduct(&mut survey, &mut asked);
    assert_eq!(asked, ["a"]);
    let items = survey.finish_one().unwrap();
    let labels: Vec<&str> = items.iter().map(|i| i.label.as_str()).collect();
    assert_eq!(labels, ["1.0.0"]);
    assert_eq!(items[0].text_edit.new_text, "^1.0.0");
    let nowhere = Position { line: 0, character: 0 };
    let mut survey = backend.completions_for(&uri(), nowhere);
    conduct(&mut survey, &mut asked);
    assert!(survey.finish_one().is_none());
    assert!(backend.completion(&url("file:///x"), at).is_none());
    let gone = Position { line: 6, character: 33 };
    let mut survey = backend.completions_for(&uri(), gone);
    conduct(&mut survey, &mut asked);
    assert_eq!(asked, ["a", "gone"]);
    assert!(survey.finish_one().is_none());
}

#[test]
fn hovers_are_for_the_dependency_at_the_cursor() {
    let backend = opened();
    let mut asked = Vec::new();
    let at = Position { line: 2, character: 10 };
    let mut survey = backend.hover(&uri(), at).unwrap();
    conduct(&mut survey, &mut asked);
    assert_eq!(asked, ["a", "a@1.0.0"]);
    let hover = survey.finish_one().unwrap();
    assert!(hover.value.starts_with("**a**  ·  latest `2.0.0`"));
    assert_eq!(hover.range.start, Position { line: 2, character: 10 });
    assert!(backend.hover(&url("file:///x"), at).is_none());
}

#[test]
fn actions_begin_with_the_updates_of_all() {
    let backend = opened();
    let mut asked = Vec::new();
    let at = Position { line: 2, character: 10 };
    let mut survey = backend.code_action(uri(), at).unwrap();
    conduct(&mut survey, &mut asked);
    let titles: Vec<String> = survey.finish().into_iter().map(|a| a.title).collect();
    assert_eq!(
        titles,
        [
            "Update all dependencies (patch)",
            "Update all dependencies (minor)",
            "Update all dependencies (major)",
            "Do patch upgrade to 1.0.1",
            "Do minor upgrade to 1.1.0",
            "Do major upgrade to 2.0.0",
            "Update to first non-vulnerable version (1.0.1)",
        ]
    );
    let mut survey = backend.code_actions_for(url("file:///unknown/package.json"), at);
    conduct(&mut survey, &mut asked);
    assert_eq!(survey.finish().len(), 3);
    assert!(backend.code_action(url("file:///x"), at).is_none());
}

#[test]
fn all_dependencies_are_updated() {
    let backend = opened();
    for (tier, text) in [("patch", "^1.0.1"), ("minor", "^1.1.0"), ("major", "^2.0.0")] {
        let mut asked = Vec::new();
        let mut survey = backend.run_update_all(&uri(), tier.to_string());
        conduct(&mut survey, &mut asked);
        assert_eq!(asked, ["a", "c", "gone"]);
        let edit = combine_edits(&uri(), survey.finish()).unwrap();
        assert_eq!(edit.uri, "file:///p/package.json");
        assert_eq!(edit.edits.len(), 1);
        assert_eq!(edit.edits[0].new_text, text);
    }
    let mut asked = Vec::new();
    let mut survey = backend.run_update_all(&uri(), "other".to_string());
    conduct(&mut survey, &mut asked);
    assert_eq!(combine_edits(&uri(), survey.finish()), None);
}

#[test]
fn edits_are_combined() {
    let d = dep("a", "1");
    let edit = || TextEdit { range: d.value_range, new_text: "2".to_string() };
    assert_eq!(
        combine_edits(&uri(), vec![edit(), edit()]),
        Some(WorkspaceEdit {
            uri: "file:///p/package.json".to_string(),
            edits: vec![edit(), edit()],
        })
    );
    assert_eq!(combine_edits(&uri(), vec![]), None);
}

#[test]
fn answers_are_remembered_by_the_server() {
    let mut backend = Backend::new();
    assert!(matches!(backend.fetch("a", 1, FetchEvent::Start), FetchStep::AcquirePermit));
    let body = Json::Object(vec![]);
    backend.fetch("a", 1, FetchEvent::Body(Some(&body)));
    assert!(matches!(backend.fetch("a", 2, FetchEvent::Start), FetchStep::Done(Some(_))));
    let at = v("1.0.0");
    assert!(matches!(backend.audit("a", &at, 1, AuditEvent::Start), AuditStep::AcquirePermit));
    backend.audit("a", &at, 1, AuditEvent::Body(Some((&body, &vec![]))));
    assert!(matches!(backend.audit("a", &at, 2, AuditEvent::Start), AuditStep::Done(Some(_))));
}

#[test]
fn commands_do_what_their_actions_offer() {
    let texts = |list: &[String]| list.iter().map(|s| Json::Text(s.clone())).collect::<Vec<Json>>();
    for (action, tier) in bulk_update_actions(&uri()).iter().zip(["patch", "minor", "major"]) {
        let command = action.command.as_ref().unwrap();
        assert_eq!(
            execute_command(&command.command, &texts(&command.arguments)),
            CommandPlan::UpdateAll(uri(), tier.to_string())
        );
    }
    assert_eq!(
        execute_command(OPEN_URL, &texts(&["https://h".to_string()])),
        CommandPlan::OpenUrl(url("https://h/"))
    );
}

#[test]
fn other_commands_do_nothing() {
    let text = |s: &str| Json::Text(s.to_string());
    assert_eq!(execute_command("x", &vec![text("https://h")]), CommandPlan::Nothing);
    assert_eq!(execute_command(OPEN_URL, &vec![]), CommandPlan::Nothing);
    assert_eq!(execute_command(OPEN_URL, &vec![Json::Null]), CommandPlan::Nothing);
    assert_eq!(execute_command(OPEN_URL, &vec![text("no address")]), CommandPlan::Nothing);
    assert_eq!(execute_command(UPDATE_ALL, &vec![]), CommandPlan::Nothing);
    assert_eq!(execute_command(UPDATE_ALL, &vec![text("no address")]), CommandPlan::Nothing);
    let file = text("file:///p/package.json");
    assert_eq!(
        execute_command(UPDATE_ALL, &vec![file, Json::Bool(true)]),
        CommandPlan::UpdateAll(uri(), "major".to_string())
    );
    assert_eq!(
        plan_for_address(UPDATE_ALL, &vec![], Some(uri())),
        CommandPlan::UpdateAll(uri(), "major".to_string())
    );
    assert_eq!(plan_for_address(UPDATE_ALL, &vec![], None), CommandPlan::Nothing);
}

// ---- Single dependencies ----

#[test]
fn facts_are_gathered_in_order() {
    let pinned = Some(v("1.0.0"));
    let p = Reply::Got(package(&["1.0.0"]));
    let none = Reply::<AuditResult>::Unasked;
    assert!(matches!(
        fetch_dep("a", &pinned, true, &Reply::Unasked, &none),
        Step::FetchPackage(n) if n == "a"
    ));
    assert!(matches!(fetch_dep("a", &pinned, true, &Reply::Failed, &none), Step::Done(None)));
    assert!(matches!(
        fetch_dep("a", &pinned, true, &Reply::Got(unknown()), &none),
        Step::Done(None)
    ));
    assert!(matches!(
        fetch_dep("a", &pinned, true, &p, &none),
        Step::FetchAudit(n, x) if n == "a" && x.to_string() == "1.0.0"
    ));
    assert!(matches!(
        fetch_dep("a", &pinned, false, &p, &none),
        Step::Done(Some((_, None)))
    ));
    assert!(matches!(fetch_dep("a", &None, true, &p, &none), Step::Done(Some((_, None)))));
    assert!(matches!(
        fetch_dep("a", &pinned, true, &p, &Reply::Failed),
        Step::Done(Some((_, None)))
    ));
    assert!(matches!(
        fetch_dep("a", &pinned, true, &p, &Reply::Got(audit(&[]))),
        Step::Done(Some((_, Some(_))))
    ));
}

fn found<T>(step: Step<Vec<T>>) -> Vec<T> {
    match step {
        Step::Done(list) => list,
        _ => panic!("more is asked for"),
    }
}

#[test]
fn diagnostics_have_one_cause() {
    let d = dep("a", "1.0.0");
    let bad = dep("a", "nope!");
    let pinned = Some(v("1.0.0"));
    let p = Reply::Got(package(&["1.0.0"]));
    let two = Reply::Got(audit(&["1.0.1", "1.0.2"]));
    let s = Settings::default();
    let mut quiet = Settings::default();
    quiet.audit = false;
    assert!(found(dep_diagnostics(true, &s, &bad, &None, &Reply::Unasked, &two)).is_empty());
    let codes = |step| found(step).into_iter().map(|x: package_json_upgrade::lsp::Diagnostic| x.code).collect::<Vec<String>>();
    assert_eq!(
        codes(dep_diagnostics(false, &s, &bad, &None, &Reply::Unasked, &two)),
        ["invalid-semver"]
    );
    assert_eq!(
        codes(dep_diagnostics(false, &s, &d, &pinned, &Reply::Got(unknown()), &two)),
        ["not-found"]
    );
    assert_eq!(codes(dep_diagnostics(false, &s, &d, &pinned, &p, &two)), ["A0", "A1"]);
    assert!(found(dep_diagnostics(false, &quiet, &d, &pinned, &p, &two)).is_empty());
    assert!(found(dep_diagnostics(false, &s, &d, &None, &p, &two)).is_empty());
    assert!(found(dep_diagnostics(false, &s, &d, &pinned, &p, &Reply::Failed)).is_empty());
    assert!(found(dep_diagnostics(false, &s, &d, &pinned, &Reply::Failed, &two)).is_empty());
    assert!(matches!(
        dep_diagnostics(false, &s, &d, &pinned, &p, &Reply::Unasked),
        Step::FetchAudit(..)
    ));
    let newer = Reply::Got(package(&["1.0.0", "1.0.3"]));
    assert_eq!(
        codes(dep_diagnostics(false, &s, &d, &pinned, &newer, &two)),
        ["A0", "A1", "outdated"]
    );
    assert_eq!(
        codes(dep_diagnostics(false, &s, &d, &pinned, &newer, &Reply::Failed)),
        ["outdated"]
    );
    let hints = found(dep_diagnostics(false, &quiet, &d, &pinned, &newer, &Reply::Unasked));
    assert_eq!(hints.len(), 1);
    assert_eq!(hints[0].severity, package_json_upgrade::lsp::DiagnosticSeverity::Hint);
    assert_eq!(hints[0].range, d.value_range);
    assert!(found(dep_diagnostics(false, &quiet, &d, &None, &newer, &Reply::Unasked)).is_empty());
}

#[test]
fn hints_need_something_to_show() {
    let s = Settings::default();
    let d = dep("a", "1.0.0");
    let pinned = Some(v("1.0.0"));
    let old = package(&["1.0.0"]);
    let new = package(&["1.0.0", "2.0.0"]);
    assert!(make_hint(&s, &d, &pinned, &old, None).is_none());
    assert!(make_hint(&s, &d, &pinned, &old, Some(&audit(&[]))).is_none());
    assert!(make_hint(&s, &d, &None, &new, None).is_none());
    let label = |h: Option<package_json_upgrade::lsp::InlayHint>| h.unwrap().label;
    assert_eq!(label(make_hint(&s, &d, &pinned, &new, None)), " 🔴 2.0.0");
    assert_eq!(label(make_hint(&s, &d, &pinned, &old, Some(&audit(&["2.0.0"])))), " ‼ 1 vuln");
    assert_eq!(
        label(make_hint(&s, &d, &pinned, &new, Some(&audit(&["2.0.0"])))),
        " 🔴 2.0.0 ‼ 1 vuln"
    );
    let got = Reply::Got(new);
    assert!(found(dep_inlay_hint(true, &s, &d, &pinned, &got, &Reply::Failed)).is_empty());
    let bad = dep("a", "nope!");
    assert!(found(dep_inlay_hint(false, &s, &bad, &None, &got, &Reply::Failed)).is_empty());
    assert_eq!(found(dep_inlay_hint(false, &s, &d, &pinned, &got, &Reply::Failed)).len(), 1);
}

#[test]
fn completions_are_numbered_and_limited() {
    let names: Vec<String> = (0..100).map(|i| format!("1.{i}.0")).collect();
    let names: Vec<&str> = names.iter().map(|n| n.as_str()).collect();
    let p = package(&names);
    let all = list_completions(&dep("a", "^"), &p);
    assert_eq!(COMPLETION_LIMIT, 60);
    assert_eq!(all.len(), 60);
    assert_eq!(all[0].label, "1.99.0");
    assert_eq!(all[0].description.as_deref(), Some("latest"));
    assert_eq!(all[1].description, None);
    assert_eq!(all[0].filter_text, "1.99.0");
    assert_eq!(all[0].text_edit.new_text, "^1.99.0");
    assert_eq!(all[0].sort_text, "0000");
    assert_eq!(all[59].sort_text, "0059");
    assert!(all.windows(2).all(|w| w[0].sort_text < w[1].sort_text));
    let some = list_completions(&dep("a", "~1.9"), &p);
    let labels: Vec<&str> = some.iter().map(|i| i.label.as_str()).collect();
    assert_eq!(
        labels,
        [
            "1.99.0", "1.98.0", "1.97.0", "1.96.0", "1.95.0", "1.94.0", "1.93.0", "1.92.0",
            "1.91.0", "1.90.0", "1.9.0",
        ]
    );
    assert!(list_completions(&dep("a", "2"), &p).is_empty());
}

#[test]
fn hovers_need_a_known_package() {
    let d = dep("a", "1.0.0");
    let pinned = Some(v("1.0.0"));
    let p = Reply::Got(package(&["1.0.0"]));
    assert!(found(dep_hover(true, &d, &pinned, &Reply::Got(unknown()), &Reply::Failed)).is_empty());
    assert!(found(dep_hover(true, &d, &pinned, &Reply::Failed, &Reply::Failed)).is_empty());
    let hover = found(dep_hover(true, &d, &pinned, &p, &Reply::Got(audit(&["1.0.1"]))));
    assert!(hover[0].value.contains("**Security advisories** (1 for `1.0.0`)"));
    assert_eq!(hover[0].range, d.value_range);
}

#[test]
fn actions_need_a_latest_version() {
    let d = dep("a", "1.0.0");
    let pinned = Some(v("1.0.0"));
    let mut p = package(&["1.0.0", "2.0.0"]);
    p.homepage = Some("https://h".to_string());
    p.repository_url = Some("https://github.com/o/r".to_string());
    let s = Settings::default();
    let titles = |p: &CachedPackage, a: Option<&AuditResult>| {
        list_actions(&uri(), false, &s, &d, &pinned, p, a).into_iter().map(|x| x.title).collect::<Vec<String>>()
    };
    assert_eq!(titles(&p, None), ["Do major upgrade to 2.0.0", "Open homepage", "Open changelog"]);
    assert_eq!(
        titles(&p, Some(&audit(&["1.5.0"]))),
        [
            "Do major upgrade to 2.0.0",
            "Update to first non-vulnerable version (1.5.0)",
            "Open homepage",
            "Open changelog",
        ]
    );
    let mut hiding = Settings::default();
    hiding.ignore_versions.insert("a".to_string(), ">=1.5".to_string());
    let pages = |actions: Vec<package_json_upgrade::lsp::CodeAction>| {
        assert!(actions.iter().all(|x| x.edit.is_none()));
        actions.into_iter().map(|x| x.title).collect::<Vec<String>>()
    };
    let both = ["Open homepage", "Open changelog"];
    let found_fix = audit(&["1.5.0"]);
    assert_eq!(pages(list_actions(&uri(), true, &s, &d, &pinned, &p, Some(&found_fix))), both);
    assert_eq!(pages(list_actions(&uri(), false, &hiding, &d, &pinned, &p, None)), both);
    assert_eq!(
        list_actions(&uri(), false, &hiding, &d, &pinned, &p, Some(&found_fix))
            .into_iter()
            .map(|x| x.title)
            .collect::<Vec<String>>(),
        ["Update to first non-vulnerable version (1.5.0)", "Open homepage", "Open changelog"]
    );
    p.latest = None;
    assert!(titles(&p, None).is_empty());
    let got = Reply::Got(package(&["1.0.0", "2.0.0"]));
    let mut quiet = Settings::default();
    quiet.audit = false;
    let none = Reply::Unasked;
    assert_eq!(found(dep_actions(&uri(), false, &quiet, &d, &pinned, &got, &none)).len(), 1);
    assert!(found(dep_actions(&uri(), false, &s, &d, &pinned, &Reply::Failed, &none)).is_empty());
    assert!(found(dep_actions(&uri(), true, &s, &d, &pinned, &got, &none)).is_empty());
    assert!(matches!(
        dep_actions(&uri(), false, &s, &d, &pinned, &got, &none),
        Step::FetchAudit(..)
    ));
}

#[test]
fn updates_pass_over_hidden_versions() {
    let mut s = Settings::default();
    let d = dep("a", "^1.0.0");
    let pinned = Some(v("1.0.0"));
    let p = package(&["1.0.0", "2.0.0"]);
    assert_eq!(
        make_edit(&s, "major", &d, &pinned, &p),
        Some(TextEdit { range: d.value_range, new_text: "^2.0.0".to_string() })
    );
    assert_eq!(make_edit(&s, "patch", &d, &pinned, &p), None);
    assert_eq!(make_edit(&s, "major", &d, &None, &p), None);
    assert_eq!(make_edit(&s, "major", &d, &Some(v("2.0.0")), &p), None);
    s.ignore_versions.insert("a".to_string(), "2".to_string());
    assert_eq!(make_edit(&s, "major", &d, &pinned, &p), None);
    let s = Settings::default();
    let got = Reply::Got(p);
    assert_eq!(found(tier_edit(false, &s, "major", &d, &pinned, &got)).len(), 1);
    assert!(found(tier_edit(true, &s, "major", &d, &pinned, &got)).is_empty());
    assert!(found(tier_edit(false, &s, "major", &d, &pinned, &Reply::Failed)).is_empty());
    assert!(found(tier_edit(false, &s, "major", &d, &pinned, &Reply::Got(unknown()))).is_empty());
    assert!(matches!(
        tier_edit(false, &s, "major", &d, &pinned, &Reply::Unasked),
        Step::FetchPackage(n) if n == "a"
    ));
}
