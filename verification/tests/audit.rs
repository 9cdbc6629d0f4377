use package_json_upgrade::audit::{
    base_score_texts, parse_advisory, parse_audit, parse_severity, score_queries, score_texts,
    severity_of_label, severity_of_score, Advisory, AdvisorySeverity, AuditEvent, AuditResult,
    AuditStep, Auditor, CACHE_TTL, CONCURRENT_QUERIES, OSV_QUERY,
};
use package_json_upgrade::json::Json;
use package_json_upgrade::semver::Version;

fn from_value(value: &serde_json::Value) -> Json {
    match value {
        serde_json::Value::Null => Json::Null,
        serde_json::Value::Bool(b) => Json::Bool(*b),
        serde_json::Value::Number(n) => Json::Number(n.to_string()),
        serde_json::Value::String(s) => Json::Text(s.clone()),
        serde_json::Value::Array(items) => Json::Array(items.iter().map(from_value).collect()),
        serde_json::Value::Object(members) => {
            Json::Object(members.iter().map(|(k, v)| (k.clone(), from_value(v))).collect())
        }
    }
}

fn json(text: &str) -> Json {
    from_value(&serde_json::from_str(text).unwrap())
}

fn v(text: &str) -> Version {
    Version::parse(text).unwrap()
}

fn bits(texts: &[String]) -> Vec<Option<u64>> {
    texts.iter().map(|t| t.parse::<f64>().ok().map(f64::to_bits)).collect()
}

fn read(vuln: &Json, package: &str) -> Option<Advisory> {
    parse_advisory(vuln, package, &bits(&score_texts(vuln)))
}

fn adv(severity: AdvisorySeverity, fixed_in: Option<&str>) -> Advisory {
    Advisory {
        id: "a".to_string(),
        summary: String::new(),
        severity,
        fixed_in: fixed_in.map(v),
        url: None,
    }
}

#[test]
fn parses_github_severity() {
    let v = json(
        r#"{
            "id": "GHSA-x",
            "summary": "boom",
            "database_specific": { "severity": "HIGH" },
            "affected": []
        }"#,
    );
    let adv = read(&v, "lodash").unwrap();
    assert_eq!(adv.severity, AdvisorySeverity::High);
}

#[test]
fn parses_cvss_score_vector() {
    let v = json(
        r#"{
            "id": "GHSA-y",
            "summary": "x",
            "severity": [{ "type": "CVSS_V3", "score": "9.8" }],
            "affected": []
        }"#,
    );
    let adv = read(&v, "lodash").unwrap();
    assert_eq!(adv.severity, AdvisorySeverity::Critical);
}

#[test]
fn picks_highest_fix_across_ranges() {
    let v = json(
        r#"{
            "id": "GHSA-z",
            "summary": "x",
            "affected": [
                { "package": { "name": "lodash", "ecosystem": "npm" },
                  "ranges": [
                    { "type": "SEMVER", "events": [{"introduced": "0"}, {"fixed": "4.17.20"}] },
                    { "type": "SEMVER", "events": [{"introduced": "0"}, {"fixed": "4.17.21"}] }
                  ]
                }
            ]
        }"#,
    );
    let adv = read(&v, "lodash").unwrap();
    assert_eq!(adv.fixed_in.unwrap().to_string(), "4.17.21");
}

#[test]
fn safe_target_is_max_fix_across_advisories() {
    let mut r = AuditResult::fresh(0);
    r.advisories.push(Advisory {
        id: "a".into(),
        summary: "".into(),
        severity: AdvisorySeverity::High,
        fixed_in: Some(v("4.17.20")),
        url: None,
    });
    r.advisories.push(Advisory {
        id: "b".into(),
        summary: "".into(),
        severity: AdvisorySeverity::High,
        fixed_in: Some(v("4.17.21")),
        url: None,
    });
    assert_eq!(r.safe_target().unwrap().to_string(), "4.17.21");
}

#[test]
fn safe_target_needs_a_known_fix_and_prefers_the_last_of_equals() {
    let mut r = AuditResult::fresh(0);
    assert!(r.safe_target().is_none());
    r.advisories.push(adv(AdvisorySeverity::Low, None));
    assert!(r.safe_target().is_none());
    r.advisories.push(adv(AdvisorySeverity::Low, Some("2.0.0+a")));
    r.advisories.push(adv(AdvisorySeverity::Low, Some("2.0.0+b")));
    r.advisories.push(adv(AdvisorySeverity::Low, Some("1.9.9")));
    assert_eq!(r.safe_target().unwrap().to_string(), "2.0.0+b");
}

#[test]
fn counts_cover_every_advisory() {
    let mut r = AuditResult::fresh(0);
    for severity in [
        AdvisorySeverity::Critical,
        AdvisorySeverity::High,
        AdvisorySeverity::High,
        AdvisorySeverity::Moderate,
        AdvisorySeverity::Low,
        AdvisorySeverity::Unknown,
    ] {
        r.advisories.push(adv(severity, None));
    }
    assert_eq!(r.counts(), (1, 2, 1, 2));
}

#[test]
fn severities_have_an_order() {
    assert!(AdvisorySeverity::Low < AdvisorySeverity::Moderate);
    assert!(AdvisorySeverity::High < AdvisorySeverity::Critical);
    assert!(AdvisorySeverity::Critical < AdvisorySeverity::Unknown);
}

#[test]
fn labels_are_read_in_any_case() {
    assert_eq!(severity_of_label("critical"), AdvisorySeverity::Critical);
    assert_eq!(severity_of_label("High"), AdvisorySeverity::High);
    assert_eq!(severity_of_label("moderate"), AdvisorySeverity::Moderate);
    assert_eq!(severity_of_label("MEDIUM"), AdvisorySeverity::Moderate);
    assert_eq!(severity_of_label("low"), AdvisorySeverity::Low);
    assert_eq!(severity_of_label("severe"), AdvisorySeverity::Unknown);
    assert_eq!(severity_of_label("h\u{131}gh"), AdvisorySeverity::Unknown);
}

#[test]
fn scores_fall_into_bands() {
    let of = |score: f64| severity_of_score(score.to_bits());
    assert_eq!(of(10.0), AdvisorySeverity::Critical);
    assert_eq!(of(9.0), AdvisorySeverity::Critical);
    assert_eq!(of(8.999999999999998), AdvisorySeverity::High);
    assert_eq!(of(7.0), AdvisorySeverity::High);
    assert_eq!(of(6.9), AdvisorySeverity::Moderate);
    assert_eq!(of(4.0), AdvisorySeverity::Moderate);
    assert_eq!(of(3.9), AdvisorySeverity::Low);
    assert_eq!(of(f64::MIN_POSITIVE), AdvisorySeverity::Low);
    assert_eq!(of(f64::INFINITY), AdvisorySeverity::Critical);
    assert_eq!(of(0.0), AdvisorySeverity::Unknown);
    assert_eq!(of(-0.0), AdvisorySeverity::Unknown);
    assert_eq!(of(-9.5), AdvisorySeverity::Unknown);
    assert_eq!(of(f64::NAN), AdvisorySeverity::Unknown);
    assert_eq!(of(-f64::NAN), AdvisorySeverity::Unknown);
    assert_eq!(of(f64::NEG_INFINITY), AdvisorySeverity::Unknown);
}

#[test]
fn bands_agree_with_floating_point() {
    for step in -40i32..=440 {
        let score = f64::from(step) / 40.0;
        let expected = if score >= 9.0 {
            AdvisorySeverity::Critical
        } else if score >= 7.0 {
            AdvisorySeverity::High
        } else if score >= 4.0 {
            AdvisorySeverity::Moderate
        } else if score > 0.0 {
            AdvisorySeverity::Low
        } else {
            AdvisorySeverity::Unknown
        };
        assert_eq!(severity_of_score(score.to_bits()), expected);
    }
}

#[test]
fn score_texts_are_the_string_and_its_base_metrics() {
    assert_eq!(base_score_texts("7.5"), ["7.5"]);
    assert_eq!(
        base_score_texts("CVSS:3.1/AV:N/B:7.5/B:x"),
        ["CVSS:3.1/AV:N/B:7.5/B:x", "7.5", "x"]
    );
    assert_eq!(base_score_texts("/B:/"), ["/B:/", ""]);
    assert_eq!(base_score_texts(""), [""]);
}

#[test]
fn the_first_numeric_score_counts() {
    let vuln = json(
        r#"{
            "id": "i",
            "severity": [
                { "type": "SSVC", "score": "10" },
                { "type": "CVSS_V3", "score": "CVSS:3.1/AV:N/B:oops/B:4.2/B:9.9" },
                { "type": "CVSS_V4", "score": "9.9" }
            ]
        }"#,
    );
    assert_eq!(read(&vuln, "p").unwrap().severity, AdvisorySeverity::Moderate);
    assert_eq!(parse_severity(&vuln, &vec![]), AdvisorySeverity::Unknown);
}

#[test]
fn a_label_goes_before_a_score() {
    let vuln = json(
        r#"{
            "id": "i",
            "database_specific": { "severity": "low" },
            "severity": [{ "type": "CVSS_V3", "score": "9.8" }]
        }"#,
    );
    assert!(score_texts(&vuln).is_empty());
    let nine = vec![Some(9.8f64.to_bits())];
    assert_eq!(parse_severity(&vuln, &nine), AdvisorySeverity::Low);
    let bare = json(r#"{ "id": "i" }"#);
    assert_eq!(parse_severity(&bare, &nine), AdvisorySeverity::Unknown);
}

#[test]
fn an_advisory_needs_an_identifier() {
    assert!(read(&json(r#"{ "summary": "x" }"#), "p").is_none());
    assert!(read(&json(r#"{ "id": 7 }"#), "p").is_none());
    let bare = read(&json(r#"{ "id": "i" }"#), "p").unwrap();
    assert_eq!(bare.id, "i");
    assert_eq!(bare.summary, "Vulnerability");
    assert_eq!(bare.severity, AdvisorySeverity::Unknown);
    assert!(bare.fixed_in.is_none());
    assert!(bare.url.is_none());
}

#[test]
fn pages_for_readers_go_before_other_references() {
    let url = |text: &str| read(&json(text), "p").unwrap().url;
    assert_eq!(
        url(
            r#"{ "id": "i", "references": [
                { "type": "PACKAGE", "url": "https://a" },
                { "type": "WEB", "url": "https://b" },
                { "type": "ADVISORY", "url": "https://c" }
            ] }"#
        ),
        Some("https://b".to_string())
    );
    assert_eq!(
        url(r#"{ "id": "i", "references": [{ "type": "FIX", "url": "https://a" }, {}] }"#),
        Some("https://a".to_string())
    );
    assert_eq!(
        url(r#"{ "id": "i", "references": [{ "url": "https://a" }, { "type": "WEB" }] }"#),
        None
    );
    assert_eq!(url(r#"{ "id": "i", "references": [] }"#), None);
}

#[test]
fn fixes_of_other_packages_do_not_count() {
    let vuln = json(
        r#"{ "id": "i", "affected": [
            { "package": { "name": "other" },
              "ranges": [{ "events": [{ "fixed": "9.0.0" }] }] },
            { "package": { "name": "p" } },
            { "package": { "name": "p" },
              "ranges": [{}, { "events": [{ "fixed": "1.0.0-rc.1" }, { "fixed": "nope" }] }] },
            { "package": { "name": "p" },
              "ranges": [{ "events": [{ "fixed": "1.0.0+x" }, { "fixed": "1.0.0+y" }] }] }
        ] }"#,
    );
    assert_eq!(read(&vuln, "p").unwrap().fixed_in.unwrap().to_string(), "1.0.0+x");
    assert!(read(&vuln, "q").unwrap().fixed_in.is_none());
}

#[test]
fn an_answer_is_asked_for_once_in_six_hours() {
    assert_eq!(OSV_QUERY, "https://api.osv.dev/v1/query");
    assert_eq!(CONCURRENT_QUERIES, 8);
    let mut auditor = Auditor::new();
    let at = v("1.0.0-beta.2");
    assert!(matches!(
        auditor.audit("lodash", &at, 5, AuditEvent::Start),
        AuditStep::AcquirePermit
    ));
    match auditor.audit("lodash", &at, 5, AuditEvent::Permit(true)) {
        AuditStep::Send(query) => {
            assert_eq!(query.name, "lodash");
            assert_eq!(query.ecosystem, "npm");
            assert_eq!(query.version, "1.0.0-beta.2");
        }
        other => panic!("{other:?}"),
    }
    assert!(matches!(
        auditor.audit("lodash", &at, 6, AuditEvent::Response(Some(200))),
        AuditStep::ReadBody
    ));
    let body = json(
        r#"{ "vulns": [
            { "id": "one", "severity": [{ "type": "CVSS_V3", "score": "B:5.0" }] },
            { "summary": "nameless" },
            { "id": "two", "database_specific": { "severity": "CRITICAL" } }
        ] }"#,
    );
    let texts = score_queries(&body);
    assert_eq!(texts, [vec!["B:5.0".to_string(), "5.0".to_string()], vec![], vec![]]);
    let scores: Vec<Vec<Option<u64>>> = texts.iter().map(|t| bits(t)).collect();
    match auditor.audit("lodash", &at, 7, AuditEvent::Body(Some((&body, &scores)))) {
        AuditStep::Done(Some(r)) => {
            let ids: Vec<&str> = r.advisories.iter().map(|a| a.id.as_str()).collect();
            assert_eq!(ids, ["one", "two"]);
            assert_eq!(r.counts(), (1, 0, 1, 0));
            assert_eq!(r.fetched, 7);
        }
        other => panic!("{other:?}"),
    }
    for event in [AuditEvent::Start, AuditEvent::Permit(true)] {
        match auditor.audit("lodash", &at, 7 + CACHE_TTL - 1, event) {
            AuditStep::Done(Some(r)) => assert_eq!(r.advisories.len(), 2),
            other => panic!("{other:?}"),
        }
    }
    assert!(matches!(
        auditor.audit("lodash", &at, 7 + CACHE_TTL, AuditEvent::Start),
        AuditStep::AcquirePermit
    ));
    assert!(matches!(
        auditor.audit("lodash", &v("1.0.0"), 7, AuditEvent::Start),
        AuditStep::AcquirePermit
    ));
}

#[test]
fn failed_queries_leave_nothing_behind() {
    let mut auditor = Auditor::new();
    let at = v("1.0.0");
    for event in [
        AuditEvent::Permit(false),
        AuditEvent::Response(None),
        AuditEvent::Response(Some(199)),
        AuditEvent::Response(Some(300)),
        AuditEvent::Response(Some(404)),
        AuditEvent::Body(None),
    ] {
        assert!(matches!(auditor.audit("p", &at, 1, event), AuditStep::Done(None)));
        assert!(matches!(
            auditor.audit("p", &at, 1, AuditEvent::Start),
            AuditStep::AcquirePermit
        ));
    }
    assert!(matches!(
        auditor.audit("p", &at, 1, AuditEvent::Response(Some(299))),
        AuditStep::ReadBody
    ));
}

#[test]
fn an_answer_without_advisories_is_an_answer() {
    let none = parse_audit(&json("{}"), "p", &vec![], 3);
    assert!(none.advisories.is_empty());
    assert_eq!(none.fetched, 3);
}

#[test]
fn at_most_eight_queries_are_under_way() {
    let mut auditor = Auditor::new();
    let at = v("1.0.0");
    for i in 0..8 {
        let name = format!("p{i}");
        assert!(matches!(
            auditor.audit(&name, &at, 1, AuditEvent::Permit(true)),
            AuditStep::Send(_)
        ));
    }
    for event in [
        AuditEvent::Response(Some(500)),
        AuditEvent::Response(None),
        AuditEvent::Body(None),
        AuditEvent::Abandoned,
    ] {
        assert!(matches!(
            auditor.audit("p8", &at, 1, AuditEvent::Permit(true)),
            AuditStep::AcquirePermit
        ));
        assert!(matches!(auditor.audit("p1", &at, 1, event), AuditStep::Done(None)));
        assert!(matches!(
            auditor.audit("p8", &at, 1, AuditEvent::Permit(true)),
            AuditStep::Send(_)
        ));
    }
}
