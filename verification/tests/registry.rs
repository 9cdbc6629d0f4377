use package_json_upgrade::json::Json;
use package_json_upgrade::registry::{
    changelog_url, encode_pkg_name, normalize_repo_url, package_url, parse_registry_doc,
    FetchEvent, FetchStep, PackageStatus, Registry, CACHE_TTL, CONCURRENT_FETCHES,
};
use package_json_upgrade::store::is_fresh;

fn from_value(value: &serde_json::Value) -> Json {
    match value {
        serde_json::Value::Null => Json::Null,
        serde_json::Value::Bool(b) => Json::Bool(*b),
        serde_json::Value::Number(n) => Json::Number(n.to_string()),
        serde_json::Value::String(s) => Json::Text(s.clone()),
        serde_json::Value::Array(items) => Json::Array(items.iter().map(from_value).collect()),
        serde_json::Value::Object(members) => {
            Json::Object(members.iter().map(|(k, v)| (k.clone(), from_value(v))).collect())
        }
    }
}

fn json(text: &str) -> Json {
    from_value(&serde_json::from_str(text).unwrap())
}

#[test]
fn encodes_scoped_packages() {
    assert_eq!(encode_pkg_name("@scope/pkg"), "@scope%2Fpkg");
    assert_eq!(encode_pkg_name("react"), "react");
}

#[test]
fn normalizes_git_urls() {
    assert_eq!(
        normalize_repo_url("git+https://github.com/owner/repo.git"),
        "https://github.com/owner/repo"
    );
    assert_eq!(
        normalize_repo_url("git@github.com:owner/repo.git"),
        "https://github.com/owner/repo"
    );
}

#[test]
fn changelog_url_for_known_hosts() {
    assert_eq!(
        changelog_url("https://github.com/o/r"),
        Some("https://github.com/o/r/releases".into())
    );
    assert_eq!(
        changelog_url("https://gitlab.com/o/r"),
        Some("https://gitlab.com/o/r/-/releases".into())
    );
    assert_eq!(changelog_url("https://example.com/x"), None);
}

#[test]
fn parses_versions_sorted_desc() {
    let body = json(
        r#"{
            "dist-tags": { "latest": "2.0.0" },
            "versions": {
                "1.0.0": {},
                "1.2.3": {},
                "2.0.0": {},
                "0.9.0": {},
                "not-a-semver": {}
            },
            "description": "ok",
            "homepage": "https://x"
        }"#,
    );
    let pkg = parse_registry_doc(&body, 0);
    let versions: Vec<String> = pkg.versions.iter().map(|v| v.to_string()).collect();
    assert_eq!(versions, vec!["2.0.0", "1.2.3", "1.0.0", "0.9.0"]);
    assert_eq!(pkg.status, PackageStatus::Found);
    assert_eq!(pkg.description.as_deref(), Some("ok"));
}

#[test]
fn addresses_of_repositories_are_made_web_addresses() {
    for (raw, url) in [
        (" git+ssh://git@github.com/o/r.git ", "https://github.com/o/r"),
        ("git://github.com/o/r.git", "https://github.com/o/r"),
        ("ssh://git@gitlab.com/o/r", "https://gitlab.com/o/r"),
        ("git+git://github.com/o/r.git", "https://github.com/o/r"),
        ("https://github.com/o/r", "https://github.com/o/r"),
        ("github:o/r", "github:o/r"),
        ("o/r.git.git", "o/r.git"),
        ("git+git+x", "git+x"),
        ("git@gitlab.com:o/r.git", "git@gitlab.com:o/r"),
        ("", ""),
        (".git", ""),
    ] {
        assert_eq!(normalize_repo_url(raw), url, "{raw}");
    }
}

#[test]
fn changelogs_are_below_the_repository() {
    assert_eq!(
        changelog_url("https://github.com/o/r///"),
        Some("https://github.com/o/r/releases".to_string())
    );
    assert_eq!(
        changelog_url("https://gitlab.com/github.com"),
        Some("https://gitlab.com/github.com/releases".to_string())
    );
    assert_eq!(changelog_url(""), None);
}

#[test]
fn names_are_percent_encoded() {
    assert_eq!(encode_pkg_name("a-b.c_d~e"), "a%2Db%2Ec%5Fd%7Ee");
    assert_eq!(encode_pkg_name("@a@b/c?d#e"), "@a%40b%2Fc%3Fd%23e");
    assert_eq!(encode_pkg_name("\u{e9}"), "%C3%A9");
    assert_eq!(encode_pkg_name("@"), "@");
    assert_eq!(encode_pkg_name(""), "");
    assert_eq!(package_url("@scope/pkg"), "https://registry.npmjs.org/@scope%2Fpkg");
}

#[test]
fn fields_of_an_answer_take_several_forms() {
    let read = |text: &str| parse_registry_doc(&json(text), 9);
    let bare = read("{}");
    assert_eq!(bare.status, PackageStatus::Found);
    assert_eq!(bare.fetched, 9);
    assert!(bare.latest.is_none() && bare.versions.is_empty());
    assert!(bare.description.is_none() && bare.license.is_none());
    assert!(bare.homepage.is_none() && bare.repository_url.is_none());
    let full = read(
        r#"{
            "dist-tags": { "latest": "1.0.0", "next": "2.0.0-rc.1" },
            "versions": { "1.0.0": {}, "2.0.0-rc.1": {}, "1.0.0-rc.1": {} },
            "license": { "type": "MIT", "url": "https://l" },
            "homepage": "https://h",
            "repository": { "type": "git", "url": "git+https://github.com/o/r.git" }
        }"#,
    );
    assert_eq!(full.latest.unwrap().to_string(), "1.0.0");
    let versions: Vec<String> = full.versions.iter().map(|v| v.to_string()).collect();
    assert_eq!(versions, ["2.0.0-rc.1", "1.0.0", "1.0.0-rc.1"]);
    assert_eq!(full.license.as_deref(), Some("MIT"));
    assert_eq!(full.homepage.as_deref(), Some("https://h"));
    assert_eq!(full.repository_url.as_deref(), Some("https://github.com/o/r"));
    assert_eq!(read(r#"{ "license": "ISC" }"#).license.as_deref(), Some("ISC"));
    assert_eq!(read(r#"{ "license": ["MIT"] }"#).license, None);
    assert_eq!(
        read(r#"{ "repository": "git://x" }"#).repository_url.as_deref(),
        Some("https://x")
    );
    assert_eq!(read(r#"{ "repository": { "url": 7 } }"#).repository_url, None);
    assert_eq!(read(r#"{ "repository": ["x"] }"#).repository_url, None);
    assert!(read(r#"{ "dist-tags": { "latest": "new" } }"#).latest.is_none());
    assert!(read(r#"{ "versions": ["1.0.0"] }"#).versions.is_empty());
    assert!(read("7").versions.is_empty());
}

#[test]
fn an_answer_is_kept_for_an_hour() {
    assert_eq!(CONCURRENT_FETCHES, 8);
    let mut registry = Registry::new();
    assert!(matches!(registry.fetch("a/b", 5, FetchEvent::Start), FetchStep::AcquirePermit));
    match registry.fetch("a/b", 5, FetchEvent::Permit(true)) {
        FetchStep::Send(url) => assert_eq!(url, "https://registry.npmjs.org/a%2Fb"),
        other => panic!("{other:?}"),
    }
    assert!(matches!(
        registry.fetch("a/b", 5, FetchEvent::Response(Some(200))),
        FetchStep::ReadBody
    ));
    let body = json(r#"{ "description": "d" }"#);
    assert!(matches!(
        registry.fetch("a/b", 6, FetchEvent::Body(Some(&body))),
        FetchStep::Done(Some(_))
    ));
    for event in [FetchEvent::Start, FetchEvent::Permit(true)] {
        match registry.fetch("a/b", 6 + CACHE_TTL - 1, event) {
            FetchStep::Done(Some(p)) => {
                assert_eq!(p.description.as_deref(), Some("d"));
                assert_eq!(p.fetched, 6);
            }
            other => panic!("{other:?}"),
        }
    }
    assert!(matches!(
        registry.fetch("a/b", 6 + CACHE_TTL, FetchEvent::Start),
        FetchStep::AcquirePermit
    ));
    assert!(matches!(registry.fetch("a/b", 0, FetchEvent::Start), FetchStep::Done(Some(_))));
    assert!(matches!(registry.fetch("c", 6, FetchEvent::Start), FetchStep::AcquirePermit));
}

#[test]
fn that_a_package_is_unknown_is_an_answer() {
    let mut registry = Registry::new();
    for _ in 0..2 {
        match registry.fetch("x", 1, FetchEvent::Response(Some(404))) {
            FetchStep::Done(Some(p)) => {
                assert_eq!(p.status, PackageStatus::NotFound);
                assert!(p.versions.is_empty() && p.latest.is_none());
            }
            other => panic!("{other:?}"),
        }
        match registry.fetch("x", 2, FetchEvent::Start) {
            FetchStep::Done(Some(p)) => assert_eq!(p.status, PackageStatus::NotFound),
            other => panic!("{other:?}"),
        }
    }
}

#[test]
fn failed_requests_leave_nothing_behind() {
    let mut registry = Registry::new();
    for event in [
        FetchEvent::Permit(false),
        FetchEvent::Response(None),
        FetchEvent::Response(Some(199)),
        FetchEvent::Response(Some(300)),
        FetchEvent::Response(Some(500)),
        FetchEvent::Body(None),
    ] {
        assert!(matches!(registry.fetch("x", 1, event), FetchStep::Done(None)));
        assert!(matches!(registry.fetch("x", 1, FetchEvent::Start), FetchStep::AcquirePermit));
    }
    assert!(matches!(
        registry.fetch("x", 1, FetchEvent::Response(Some(299))),
        FetchStep::ReadBody
    ));
}

#[test]
fn at_most_eight_requests_are_under_way() {
    let mut registry = Registry::new();
    let body = json("{}");
    let names: Vec<String> = (0..10).map(|i| format!("p{i}")).collect();
    for name in &names[..8] {
        assert!(matches!(registry.fetch(name, 1, FetchEvent::Permit(true)), FetchStep::Send(_)));
    }
    let wait = |r: &mut Registry, name: &str| {
        matches!(r.fetch(name, 1, FetchEvent::Permit(true)), FetchStep::AcquirePermit)
    };
    assert!(wait(&mut registry, "p8"));
    registry.fetch("p0", 1, FetchEvent::Response(Some(200)));
    assert!(wait(&mut registry, "p8"));
    registry.fetch("p0", 1, FetchEvent::Body(Some(&body)));
    assert!(matches!(
        registry.fetch("p0", 1, FetchEvent::Permit(true)),
        FetchStep::Done(Some(_))
    ));
    assert!(matches!(registry.fetch("p8", 1, FetchEvent::Permit(true)), FetchStep::Send(_)));
    assert!(wait(&mut registry, "p9"));
    for event in [
        FetchEvent::Response(Some(404)),
        FetchEvent::Response(Some(500)),
        FetchEvent::Response(None),
        FetchEvent::Body(None),
        FetchEvent::Abandoned,
    ] {
        registry.fetch("p1", 1, event);
        assert!(matches!(registry.fetch("p9", 1, FetchEvent::Permit(true)), FetchStep::Send(_)));
        assert!(wait(&mut registry, "p9"));
    }
}

#[test]
fn what_is_younger_than_its_time_to_live_is_fresh() {
    assert!(is_fresh(10, 10, 1));
    assert!(is_fresh(10, 14, 5));
    assert!(!is_fresh(10, 15, 5));
    assert!(is_fresh(10, 3, 1));
    assert!(!is_fresh(10, 10, 0));
    assert!(!is_fresh(10, 3, 0));
    assert!(!is_fresh(0, u64::MAX, u64::MAX));
}
