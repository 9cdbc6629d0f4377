use package_json_upgrade::semver::{sort_newest_first, Identifier, Range, Version};

fn v(text: &str) -> Version {
    Version::parse(text).unwrap()
}

fn sorted(list: &[&str]) -> Vec<String> {
    sort_newest_first(list.iter().map(|t| v(t)).collect()).iter().map(|x| x.to_string()).collect()
}

#[test]
fn versions_are_read_and_written() {
    let version = v("1.2.3-beta.4.x-y+build.5");
    assert_eq!((version.major, version.minor, version.patch), (1, 2, 3));
    assert_eq!(
        version.pre_release,
        [
            Identifier::AlphaNumeric("beta".to_string()),
            Identifier::Numeric(4),
            Identifier::AlphaNumeric("x-y".to_string()),
        ]
    );
    assert_eq!(
        version.build,
        [Identifier::AlphaNumeric("build".to_string()), Identifier::Numeric(5)]
    );
    assert_eq!(version.to_string(), "1.2.3-beta.4.x-y+build.5");
    assert!(version.is_prerelease());
    assert!(!v("1.2.3+x").is_prerelease());
    for text in ["", "1", "1.2", "x.y.z", "latest", "^1.2.3", "1.2.3.4"] {
        assert_eq!(
            Version::parse(text).map(|x| x.to_string()),
            text.parse::<nodejs_semver::Version>().ok().map(|x| x.to_string())
        );
    }
}

#[test]
fn versions_are_printed_from_their_parts() {
    let version = Version {
        major: 10,
        minor: 0,
        patch: 18446744073709551615,
        pre_release: vec![Identifier::Numeric(0), Identifier::AlphaNumeric("a".to_string())],
        build: vec![],
    };
    assert_eq!(version.to_string(), "10.0.18446744073709551615-0.a");
    assert_eq!(version.clone(), version);
}

#[test]
fn versions_are_sorted_by_precedence() {
    assert_eq!(
        sorted(&[
            "1.0.0-alpha",
            "1.0.0",
            "2.0.0",
            "1.0.0-alpha.1",
            "1.0.0-2",
            "1.0.0-11",
            "1.0.0-alpha.beta",
            "1.10.0",
            "1.9.0",
            "1.0.1",
            "1.0.0-Beta",
        ]),
        [
            "2.0.0",
            "1.10.0",
            "1.9.0",
            "1.0.1",
            "1.0.0",
            "1.0.0-alpha.beta",
            "1.0.0-alpha.1",
            "1.0.0-alpha",
            "1.0.0-Beta",
            "1.0.0-11",
            "1.0.0-2",
        ]
    );
}

#[test]
fn equals_keep_their_order() {
    assert_eq!(
        sorted(&["1.0.0+b", "1.0.0+a", "2.0.0", "1.0.0+c"]),
        ["2.0.0", "1.0.0+b", "1.0.0+a", "1.0.0+c"]
    );
}

#[test]
fn sorting_agrees_with_a_stable_sort() {
    let texts = [
        "0.0.1", "1.0.0-rc.1", "1.0.0", "1.0.0-rc.10", "1.0.0-rc.2", "0.9.9", "1.0.0+x", "1.0.0-rc",
        "1.0.0-1.a", "1.0.0-a.1", "3.2.1", "1.0.0-a", "1.0.0-a.a", "0.0.1+z",
    ];
    for rotation in 0..texts.len() {
        let mut list: Vec<&str> = texts.to_vec();
        list.rotate_left(rotation);
        let mut expected: Vec<nodejs_semver::Version> =
            list.iter().map(|t| t.parse().unwrap()).collect();
        expected.sort_by(|a, b| b.cmp(a));
        let expected: Vec<String> = expected.iter().map(|x| x.to_string()).collect();
        assert_eq!(sorted(&list), expected);
    }
}

#[test]
fn ranges_admit_versions() {
    let caret = Range::parse("^1.2.0").unwrap();
    assert!(caret.satisfies(&v("1.9.0")));
    assert!(!caret.satisfies(&v("2.0.0")));
    assert!(!caret.satisfies(&v("1.3.0-rc.1")));
    assert!(Range::parse(">18").unwrap().satisfies(&v("20.1.0")));
    assert!(Range::parse("not a range").is_none());
    assert_eq!(caret.clone(), caret);
}

#[test]
fn versions_are_read_back() {
    let texts = [
        "1.2.3", "v1.2.3", "01.02.03", "1.2.3beta", "1.2.3-007", "1.2.3--1", "1.2.3-a.b.c+d.5",
        "1.2.3+001.x", "1.2.3-99999999999999999999", "1.2.3 || 4", "V 1.2.3-rc",
    ];
    for text in texts {
        let version = v(text);
        assert_eq!(v(&version.to_string()), version, "{text}");
    }
    let long = format!("1.2.3{}", "b".repeat(251));
    assert!(Version::parse(&v(&long).to_string()).is_none());
}
