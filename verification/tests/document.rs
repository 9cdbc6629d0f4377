use package_json_upgrade::document::{
    current_pinned, find_matching_brace, fits_protocol, offset_to_position, parse_package_json,
    pick_tier_target, position_in_range, split_prefix, upgrade_kind, DocState,
};
use package_json_upgrade::lsp::{LspRange, Position};
use package_json_upgrade::semver::Version;

fn v(text: &str) -> Version {
    Version::parse(text).unwrap()
}

#[test]
fn parses_dependencies_and_dev() {
    let text = r#"{
  "name": "demo",
  "dependencies": { "react": "^18.0.0", "@scope/pkg": "1.2.3" },
  "devDependencies": { "vitest": "~1.0.0" },
  "peerDependencies": { "ignored": "1.0.0" }
}"#;
    let sections = vec!["dependencies".into(), "devDependencies".into()];
    let doc = parse_package_json(text, &sections);
    let names: Vec<_> = doc.deps.iter().map(|d| d.name.as_str()).collect();
    assert_eq!(names, vec!["react", "@scope/pkg", "vitest"]);
}

#[test]
fn split_prefix_handles_caret_tilde_and_compound() {
    assert_eq!(split_prefix("^1.2.3"), ("^", "1.2.3"));
    assert_eq!(split_prefix("~1.2.3"), ("~", "1.2.3"));
    assert_eq!(split_prefix(">=1.0.0"), (">=", "1.0.0"));
    assert_eq!(split_prefix("1.2.3"), ("", "1.2.3"));
}

#[test]
fn upgrade_kind_classifies_bump() {
    assert_eq!(upgrade_kind(Some(&v("1.0.0")), &v("2.0.0")), "major");
    assert_eq!(upgrade_kind(Some(&v("1.0.0")), &v("1.1.0")), "minor");
    assert_eq!(upgrade_kind(Some(&v("1.0.0")), &v("1.0.1")), "patch");
    assert_eq!(upgrade_kind(None, &v("1.0.0")), "upgrade");
}

fn sections(names: &[&str]) -> Vec<String> {
    names.iter().map(|n| n.to_string()).collect()
}

fn chars(text: &str) -> Vec<char> {
    text.chars().collect()
}

/// The two expressions of the format.
struct Expressions {
    section: regex::Regex,
    entry: regex::Regex,
}

fn expressions() -> Expressions {
    Expressions {
        section: regex::Regex::new(r#""(?P<key>[A-Za-z]+[A-Za-z0-9_-]*)"\s*:\s*\{"#).unwrap(),
        entry: regex::Regex::new(
            r#""(?P<name>(?:@[^"\s/]+/)?[^"\s]+)"\s*:\s*"(?P<ver>[^"]*)""#,
        )
        .unwrap(),
    }
}

/// How many more braces and brackets a text opens than it closes.
fn open_pairs(text: &str) -> (i64, i64) {
    let count = |c: char| text.matches(c).count() as i64;
    (count('{') - count('}'), count('[') - count(']'))
}

/// Whether at most one brace and no bracket is open at a place, which is not
/// behind a backslash in a string. Strings and comments open nothing. A string
/// ends with its line, or before one of `heads`; of one that is not closed by a
/// quote, what it closes beyond what it opens counts.
fn lies_at_the_top(text: &str, heads: &[usize], place: usize) -> bool {
    let (mut braces, mut brackets) = (0i64, 0i64);
    let mut i = 0;
    while i < place {
        let rest = &text[i..];
        let first = rest.chars().next().unwrap();
        if rest.starts_with("//") {
            i += rest.find(['\n', '\r']).unwrap_or(rest.len());
        } else if rest.starts_with("/*") {
            i += rest[1..].find("*/").map_or(rest.len(), |k| k + 3);
        } else if first == '"' {
            let mut end = i + 1;
            let mut escaped = false;
            while end < place {
                let c = text[end..].chars().next().unwrap();
                if c == '\n' || c == '\r' || c == '"' && !escaped {
                    break;
                }
                escaped = c == '\\' && !escaped;
                end += c.len_utf8();
            }
            if end == place && escaped {
                return false;
            }
            let quote = end < place && text[end..].starts_with('"');
            if quote && !heads.contains(&end) {
                i = end + 1;
                continue;
            }
            let held = open_pairs(&text[i..end]);
            braces += held.0.min(0);
            brackets += held.1.min(0);
            i = end;
        } else {
            let change = open_pairs(&rest[..first.len_utf8()]);
            braces += change.0;
            brackets += change.1;
            i += first.len_utf8();
        }
    }
    braces <= 1 && brackets <= 0
}

/// The entries that the two expressions of the format find in the sections at
/// the top level, with the byte offsets of their version strings.
fn by_regex(
    format: &Expressions,
    text: &str,
    names: &[String],
) -> Vec<(String, String, usize, usize)> {
    let heads: Vec<usize> = format.section.find_iter(text).map(|m| m.start()).collect();
    let mut out = Vec::new();
    for cap in format.section.captures_iter(text) {
        let key = &cap["key"];
        if !names.iter().any(|s| s == key) {
            continue;
        }
        if !lies_at_the_top(text, &heads, cap.get(0).unwrap().start()) {
            continue;
        }
        let open = cap.get(0).unwrap().end() - 1;
        let letters = chars(text);
        let open_char = text[..open].chars().count();
        let Some(close_char) = find_matching_brace(&letters, open_char) else {
            continue;
        };
        let close: usize = letters[..close_char].iter().map(|c| c.len_utf8()).sum();
        let inner = &text[open + 1..close];
        for e in format.entry.captures_iter(inner) {
            let ver = e.name("ver").unwrap();
            let v = ver.as_str();
            if v.starts_with("workspace:")
                || v.starts_with("file:")
                || v.starts_with("link:")
                || v.starts_with("git+")
                || v.starts_with("github:")
                || v.starts_with("npm:")
                || v.contains("://")
            {
                continue;
            }
            out.push((
                e["name"].to_string(),
                v.to_string(),
                open + 1 + ver.start(),
                open + 1 + ver.end(),
            ));
        }
    }
    out
}

fn place(text: &str, byte: usize) -> Position {
    let before = &text[..byte];
    let line = before.matches('\n').count() as u32;
    let start = before.rfind('\n').map_or(0, |i| i + 1);
    Position { line, character: before[start..].encode_utf16().count() as u32 }
}

fn agree(format: &Expressions, text: &str, names: &[&str]) {
    let keys = sections(names);
    let expected = by_regex(format, text, &keys);
    let doc = parse_package_json(text, &keys);
    assert_eq!(doc.deps.len(), expected.len(), "{text}");
    for (dep, (name, ver, start, end)) in doc.deps.iter().zip(&expected) {
        assert_eq!(&dep.name, name);
        assert_eq!(&dep.range_str, ver);
        assert_eq!(dep.value_range.start, place(text, *start));
        assert_eq!(dep.value_range.end, place(text, *end));
        assert_eq!(dep.range.is_some(), ver.parse::<nodejs_semver::Range>().is_ok());
    }
}

#[test]
fn the_scanner_finds_what_the_expressions_find() {
    let both = ["dependencies", "devDependencies"];
    let texts = [
        r#"{"dependencies":{"a":"1.0.0","b":"^2"}}"#,
        "{ \"dependencies\"\u{a0}:\n\t{ \"a\" :\u{3000}\"1.0.0\" } }",
        r#"{"dependencies":{"a":"1.0.0""#,
        r#"{"dependencies":{"a":{"b":"1.0.0"},"c":"2"},"devDependencies":{"d":"3"}}"#,
        r#"{"dependencies":{"@s/a":"1","@":"2","@/x":"3","@s":"4","a b":"5","":"6"}}"#,
        r#"{"dependencies":{"a":"workspace:*","b":"file:../b","c":"link:c","d":"git+ssh","e":"github:x/y","f":"npm:z@1","g":"http://h","h":"workspace","i":"x://"}}"#,
        r#"{"dependencies":{"a":"x{y","b":"}"}, "devDependencies": {"c":"1"}}"#,
        r#"{"dependencies":{"a\"b":"1.0.0","c":"2.0.0"}}"#,
        r#"{"x":{"dependencies":{"a":"1"}},"dependencies-x":{"b":"2"},"9dependencies":{"c":"3"}}"#,
        "{\n  \"dependencies\": {\n    \"\u{1F600}\": \"\u{1F680}\u{e9}\", \"b\": \"1\"\n  }\n}",
        r#"{"dependencies":{"devDependencies":{"a":"1"}}}"#,
        r#"{"dependencies" : "x", "devDependencies":{}}"#,
        r#"{"dependencies":{"a":"not a range","b":">=1 <2 || 3.x"}}"#,
        "\"dependencies\":{\"a\":\"1\"}",
        r#"""dependencies":{"a":"1"}"#,
        r#"{"dependencies":{"a":1,"b":"2","c":["3"],"d":"4"}}"#,
        "",
        "\"",
        "\"dependencies\"",
        "\"dependencies\":",
        "\"dependencies\":{",
        r#"{"n":"x,"dependencies":{"a":"1"}}"#,
        r#"{"n":"x,"y":{"z":{}},"dependencies":{"a":"1"},"devDependencies":{"b":"2"}}"#,
        "{\n\"n\": \"x,\n\"dependencies\": {\"a\": \"1\"},\n\"y\": \"\\\n}",
        "{\r\"n\": \"x{\\\r\"dependencies\": {\"a\": \"1\"}, \"y\": {\"devDependencies\": {\"b\": \"2\"}}}",
        "{ // it's { \" here\n \"dependencies\": {\"a\": \"1\"} }",
        "{ /* { \" [ */ \"dependencies\": {\"a\": \"1\"}, /*{",
        "{ // \"dependencies\": {\"a\": \"1\"} }",
        r#"{"x\"dependencies":{"a":"1"},"devDependencies":{"b":"2"}}"#,
        "{\"x\": {\"y\": \"1},\n\"dependencies\": {\"a\": \"1\"}}",
        r#"{"x":{"y":["1]},"dependencies":{"a":"1"},"devDependencies":{"b":"2"}}"#,
        "{\"x\": {\"y\": \"}{\n\"dependencies\": {\"a\": \"1\"}}",
    ];
    let format = expressions();
    for text in texts {
        agree(&format, text, &both);
        agree(&format, text, &["devDependencies"]);
        agree(&format, text, &[]);
    }
}

#[test]
fn the_scanner_agrees_on_every_short_text() {
    let alphabet = ['"', 'a', ':', '{', '}', '[', ']', ' ', '\\', '@', '/', '*', '\n'];
    let mut texts: Vec<String> = vec![String::new()];
    for _ in 0..3 {
        let mut next = Vec::new();
        for t in &texts {
            for c in alphabet {
                let mut u = t.clone();
                u.push(c);
                next.push(u);
            }
        }
        texts.extend(next);
        texts.sort();
        texts.dedup();
    }
    let format = expressions();
    for t in &texts {
        agree(&format, &format!("{{\"a\":{{{t}\"b\":\"1\"}}}}"), &["a"]);
        agree(&format, &format!("{{{t}\"a\":{{\"b\":\"1\"}}}}"), &["a"]);
        agree(&format, &format!("{t}\"a\":{{\"b\":\"1\"}}"), &["a"]);
    }
}

#[test]
fn places_are_counted_in_utf16() {
    let text = "{\"dependencies\":{\n\"\u{1F600}\":\"\u{e9}\u{1F680}\"}}";
    let doc = parse_package_json(text, &sections(&["dependencies"]));
    assert_eq!(doc.deps.len(), 1);
    assert_eq!(doc.deps[0].range_str, "\u{e9}\u{1F680}");
    assert!(doc.deps[0].range.is_none());
    assert_eq!(
        doc.deps[0].value_range,
        LspRange {
            start: Position { line: 1, character: 6 },
            end: Position { line: 1, character: 9 },
        }
    );
    let letters = chars("a\n\u{1F600}b");
    assert_eq!(offset_to_position(&letters, 0), Position { line: 0, character: 0 });
    assert_eq!(offset_to_position(&letters, 2), Position { line: 1, character: 0 });
    assert_eq!(offset_to_position(&letters, 3), Position { line: 1, character: 2 });
    assert_eq!(offset_to_position(&letters, 9), Position { line: 1, character: 3 });
}

#[test]
fn ordinary_texts_fit_the_protocol() {
    assert!(fits_protocol(""));
    assert!(fits_protocol("{\n\"a\": \"\u{1F600}\"\n}"));
}

#[test]
fn braces_are_matched_outside_strings() {
    assert_eq!(find_matching_brace(&chars("{}"), 0), Some(1));
    assert_eq!(find_matching_brace(&chars("{{}}"), 0), Some(3));
    assert_eq!(find_matching_brace(&chars("{{}}"), 1), Some(2));
    assert_eq!(find_matching_brace(&chars(r#"{"}"}"#), 0), Some(4));
    assert_eq!(find_matching_brace(&chars(r#"{"\"}"}"#), 0), Some(6));
    assert_eq!(find_matching_brace(&chars(r#"{\"}"}"#), 0), Some(5));
    assert_eq!(find_matching_brace(&chars("{"), 0), None);
    assert_eq!(find_matching_brace(&chars("x}"), 0), None);
    assert_eq!(find_matching_brace(&chars("{}"), 2), None);
}

#[test]
fn sections_that_are_not_at_the_top_are_passed_over() {
    let names = |text: &str| {
        parse_package_json(text, &sections(&["dependencies"]))
            .deps
            .into_iter()
            .map(|d| d.name)
            .collect::<Vec<String>>()
    };
    assert!(names(r#"{"pnpm":{"dependencies":{"a":"1.0.0"}}}"#).is_empty());
    assert!(names(r#"{"x":[{"dependencies":{"a":"1.0.0"}}]}"#).is_empty());
    assert!(names(r#"{"x":["dependencies":{"a":"1.0.0"}]}"#).is_empty());
    assert!(names(r#"[{"dependencies":{"a":"1.0.0"}}]"#).is_empty());
    assert_eq!(
        names(r#"{"pnpm":{"dependencies":{"a":"1"}},"x":["}"],"dependencies":{"b":"2"}}"#),
        ["b"]
    );
    assert_eq!(names(r#"{"x":"\"{[","dependencies":{"a":"1.0.0"}}"#), ["a"]);
}

#[test]
fn texts_in_the_middle_of_being_typed_are_read() {
    let names = |text: &str| {
        parse_package_json(text, &sections(&["dependencies", "devDependencies"]))
            .deps
            .into_iter()
            .map(|d| d.name)
            .collect::<Vec<String>>()
    };
    assert_eq!(names(r#"{"n":"x,"dependencies":{"a":"1"}}"#), ["a"]);
    assert_eq!(
        names(r#"{"n":"x,"dependencies":{"a":"1"},"devDependencies":{"b":"2"}}"#),
        ["a", "b"]
    );
    assert_eq!(names(r#"{"n":"x,"pnpm":{"dependencies":{"a":"1"}}}"#), Vec::<String>::new());
    assert_eq!(names("{\n\"n\": \"x,\n\"dependencies\": {\"a\": \"1\"}\n}"), ["a"]);
    assert_eq!(names("{\n\"x\": {\"y\": \"1},\n\"dependencies\": {\"a\": \"1\"}\n}"), ["a"]);
    assert_eq!(names(r#"{"x":{"y":["1]},"dependencies":{"a":"1"}}"#), ["a"]);
    assert_eq!(names("{\r\n\"n\": \"{\r\n\"dependencies\": {\"a\": \"1\"}\r\n}"), ["a"]);
    assert_eq!(names("{\n\"n\": \"x\\\n\"dependencies\": {\"a\": \"1\"}\n}"), ["a"]);
    assert_eq!(names("{ // {\n \"dependencies\": {\"a\": \"1\"}\n}"), ["a"]);
    assert_eq!(names("{ /* {\n\" */ \"dependencies\": {\"a\": \"1\"}\n}"), ["a"]);
    assert_eq!(names(r#""dependencies":{"a":"1.0.0"}"#), ["a"]);
    assert_eq!(names(r#"}, "dependencies":{"a":"1.0.0"}"#), ["a"]);
}

#[test]
fn sections_that_are_not_listed_are_passed_over() {
    let text = r#"{"peerDependencies":{"a":"1"},"dependencies":{"b":"2"}}"#;
    let doc = parse_package_json(text, &sections(&["peerDependencies"]));
    let names: Vec<&str> = doc.deps.iter().map(|d| d.name.as_str()).collect();
    assert_eq!(names, ["a"]);
    assert!(parse_package_json(text, &[]).deps.is_empty());
    assert!(DocState::default().deps.is_empty());
}

#[test]
fn operators_are_split_off() {
    assert_eq!(split_prefix(""), ("", ""));
    assert_eq!(split_prefix("  ^1"), ("^", "1"));
    assert_eq!(split_prefix("~>1"), ("~>", "1"));
    assert_eq!(split_prefix("<<1"), ("<<", "1"));
    assert_eq!(split_prefix("=="), ("==", ""));
    assert_eq!(split_prefix(">"), (">", ""));
    assert_eq!(split_prefix("^~1"), ("^", "~1"));
    assert_eq!(split_prefix("v1.0.0"), ("", "v1.0.0"));
    assert_eq!(split_prefix("1 "), ("", "1 "));
    assert_eq!(split_prefix("\u{3000}>\u{e9}"), (">", "\u{e9}"));
}

#[test]
fn rewriting_keeps_the_operator() {
    for range in ["^1.2.3", " >=1.0.0", "~>2", "*", ""] {
        let (prefix, _) = split_prefix(range);
        let target = v("4.5.6-rc.1+b").to_string();
        let written = format!("{prefix}{target}");
        assert_eq!(split_prefix(&written), (prefix, target.as_str()));
        assert_eq!(current_pinned(&written).unwrap().to_string(), target);
    }
}

#[test]
fn pinned_versions_are_read_behind_the_operator() {
    assert_eq!(current_pinned("^1.2.3").unwrap().to_string(), "1.2.3");
    assert_eq!(current_pinned(">=2.0.0-beta.1").unwrap().to_string(), "2.0.0-beta.1");
    assert!(current_pinned("*").is_none());
    assert!(current_pinned("1.x").is_none());
    assert!(current_pinned("latest").is_none());
    assert!(current_pinned("").is_none());
    for text in ["1.0.0", "^1", ">=1.2.3 <2", " 3.4.5 ", "=v1.2.3", "1.2.3-a.1+c"] {
        let expected = split_prefix(text).1.parse::<nodejs_semver::Version>().ok();
        assert_eq!(
            current_pinned(text).map(|x| x.to_string()),
            expected.map(|x| x.to_string())
        );
    }
}

#[test]
fn tiers_bound_the_step() {
    let list: Vec<Version> = ["3.0.0-rc.1", "2.1.0", "2.0.0", "1.4.0", "1.2.9", "1.2.4", "1.2.3"]
        .iter()
        .map(|t| v(t))
        .collect();
    let pick = |from: &str, tier: &str| {
        pick_tier_target(&list, &v(from), tier).map(|x| x.to_string())
    };
    assert_eq!(pick("1.2.3", "patch").as_deref(), Some("1.2.9"));
    assert_eq!(pick("1.2.3", "minor").as_deref(), Some("1.4.0"));
    assert_eq!(pick("1.2.3", "major").as_deref(), Some("2.1.0"));
    assert_eq!(pick("1.2.9", "patch"), None);
    assert_eq!(pick("1.4.0", "minor"), None);
    assert_eq!(pick("9.0.0", "major").as_deref(), Some("2.1.0"));
    assert_eq!(pick("1.2.9-rc.1", "patch").as_deref(), Some("1.2.9"));
    assert_eq!(pick("1.2.3", "other"), None);
    assert!(pick_tier_target(&[], &v("1.0.0"), "major").is_none());
    assert!(pick_tier_target(&[v("1.0.0-a")], &v("0.1.0"), "major").is_none());
}

#[test]
fn ranges_include_both_ends() {
    let r = LspRange {
        start: Position { line: 1, character: 4 },
        end: Position { line: 3, character: 2 },
    };
    let at = |line: u32, character: u32| position_in_range(Position { line, character }, r);
    assert!(at(1, 4) && at(1, 99) && at(2, 0) && at(3, 2));
    assert!(!at(1, 3) && !at(0, 9) && !at(3, 3) && !at(4, 0));
}

#[test]
fn upgrade_kind_ignores_direction() {
    assert_eq!(upgrade_kind(Some(&v("2.0.0")), &v("1.0.0")), "major");
    assert_eq!(upgrade_kind(Some(&v("1.0.0")), &v("1.0.0")), "patch");
}
