//! What the views share.

use vstd::prelude::*;
use vstd::string::*;

use crate::document::{
    highest_upgrade, law_tier_targets, law_tiers_lead_to_the_highest, pick_tier_target, tier_target,
};
use crate::lsp::{Position, Url};
use crate::semver::{
    law_order_not_less_transitive, precedes, range_admits, sorted_newest_first, valid_range,
    version_lt, version_text, Range, Version, VersionView,
};
use crate::settings::{Settings, SettingsView};
use crate::store::lookup;
use crate::text::{ends_with, starts_with, str_eq};

verus! {

/// The last segment of a path is `package.json`.
pub open spec fn names_package_json(path: Seq<char>) -> bool {
    path == "package.json"@ || "/package.json"@.is_suffix_of(path)
}

/// Whether an address is that of a `package.json`.
pub fn is_package_json(uri: &Url) -> (r: bool)
    ensures
        r == names_package_json(uri.deep_view().path),
{
    str_eq(uri.path.as_str(), "package.json") || ends_with(uri.path.as_str(), "/package.json")
}

// ---- Ignored packages and versions ----

/// Whether a regular expression matches somewhere in a text; nothing where it
/// is no regular expression.
pub uninterp spec fn pattern_verdict(pattern: Seq<char>, text: Seq<char>) -> Option<bool>;

/// Whether a regular expression matches somewhere in a text: `Regex::new`, and
/// `is_match` of the expression that it gives. There is no verdict where it
/// gives none. Which expressions there are and what they match is not stated;
/// the verdict depends on the two texts alone.
#[verifier::external_body]
fn judge(pattern: &str, text: &str) -> (r: Option<bool>)
    ensures
        r == pattern_verdict(pattern@, text@),
{
    regex::Regex::new(pattern).ok().map(|re| re.is_match(text))
}

/// One of the verdicts is a match.
pub open spec fn some_match(verdicts: Seq<Option<bool>>) -> bool {
    exists|i: int| 0 <= i < verdicts.len() && verdicts[i] == Some(true)
}

/// Whether one of the verdicts is a match. An expression without a verdict
/// matches nothing.
pub fn any_match(verdicts: &Vec<Option<bool>>) -> (r: bool)
    ensures
        r == some_match(verdicts@),
{
    let mut i: usize = 0;
    while i < verdicts.len()
        invariant
            i <= verdicts.len(),
            forall|j: int| 0 <= j < i ==> verdicts@[j] != Some(true),
        decreases verdicts.len() - i,
    {
        if let Some(true) = verdicts[i] {
            assert(verdicts@[i as int] == Some(true));
            return true;
        }
        i = i + 1;
    }
    false
}

/// The package `name` is to be left alone.
pub open spec fn ignored(settings: SettingsView, name: Seq<char>) -> bool {
    some_match(settings.ignore_patterns.map_values(|p: Seq<char>| pattern_verdict(p, name)))
}

/// Whether the package `name` is to be left alone: one of the patterns matches
/// somewhere in it.
pub fn is_ignored(name: &str, settings: &Settings) -> (r: bool)
    ensures
        r == ignored(settings.deep_view(), name@),
{
    let mut verdicts: Vec<Option<bool>> = Vec::new();
    let mut i: usize = 0;
    while i < settings.ignore_patterns.len()
        invariant
            i <= settings.ignore_patterns.len(),
            verdicts.len() == i,
            forall|j: int|
                0 <= j < i ==> verdicts@[j] == pattern_verdict(
                    settings.ignore_patterns@[j]@,
                    name@,
                ),
        decreases settings.ignore_patterns.len() - i,
    {
        verdicts.push(judge(settings.ignore_patterns[i].as_str(), name));
        i = i + 1;
    }
    assert(verdicts@ =~= settings.deep_view().ignore_patterns.map_values(
        |p: Seq<char>| pattern_verdict(p, name@),
    ));
    any_match(&verdicts)
}

/// The version is not to be offered for the package `name`: there is a rule for
/// the package, it is a range, and the range admits the version.
pub open spec fn hidden(settings: SettingsView, name: Seq<char>, version: VersionView) -> bool {
    match lookup(settings.ignore_versions, name) {
        Some(rule) => valid_range(rule) && range_admits(rule, version),
        None => false,
    }
}

/// Whether a version is not to be offered for the package `name`. A rule that
/// is no range hides nothing.
pub fn version_ignored(name: &str, version: &Version, settings: &Settings) -> (r: bool)
    ensures
        r == hidden(settings.deep_view(), name@, version.deep_view()),
{
    match settings.ignore_versions.get(name) {
        Some(rule) => match Range::parse(rule) {
            Some(range) => range.satisfies(version),
            None => false,
        },
        None => false,
    }
}

/// Whether `haystack` begins with `needle`.
pub fn has_prefix(haystack: &str, needle: &str) -> (r: bool)
    ensures
        r == needle@.is_prefix_of(haystack@),
{
    starts_with(haystack, needle)
}

/// One column behind `end`, behind the quote that closes a version string.
pub open spec fn behind(end: Position) -> Position {
    Position {
        line: end.line,
        character: if end.character == u32::MAX {
            end.character
        } else {
            (end.character + 1) as u32
        },
    }
}

/// Where a hint for a version string that ends at `end` stands.
pub fn hint_anchor(end: Position) -> (r: Position)
    ensures
        r == behind(end),
{
    Position { line: end.line, character: end.character.saturating_add(1) }
}

// ---- Targets of upgrades ----

/// What an upgrade of the given tier leads to, if it leads up.
pub open spec fn newer_target(
    versions: Seq<VersionView>,
    current: VersionView,
    tier: Seq<char>,
) -> Option<VersionView> {
    match tier_target(versions, current, tier) {
        Some(t) => if version_lt(current, t) {
            Some(t)
        } else {
            None
        },
        None => None,
    }
}

/// What an upgrade of the given tier leads to, if it leads up.
pub fn pick_newer_target(versions: &Vec<Version>, current: &Version, tier: &str) -> (r: Option<
    Version,
>)
    ensures
        r.deep_view() == newer_target(versions.deep_view(), current.deep_view(), tier@),
{
    match pick_tier_target(versions.as_slice(), current, tier) {
        Some(t) => if precedes(current, &t) {
            Some(t)
        } else {
            None
        },
        None => None,
    }
}

/// The tiers, from the smallest step to the largest.
pub open spec fn tiers() -> Seq<Seq<char>> {
    seq!["patch"@, "minor"@, "major"@]
}

/// What the upgrades of the tiers lead to.
pub open spec fn newer_targets(versions: Seq<VersionView>, current: VersionView) -> Seq<
    Option<VersionView>,
> {
    tiers().map_values(|tier: Seq<char>| newer_target(versions, current, tier))
}

/// What the upgrades of the tiers lead to.
pub fn pick_newer_targets(versions: &Vec<Version>, current: &Version) -> (r: Vec<Option<Version>>)
    ensures
        r.deep_view() == newer_targets(versions.deep_view(), current.deep_view()),
{
    let mut out: Vec<Option<Version>> = Vec::new();
    out.push(pick_newer_target(versions, current, "patch"));
    out.push(pick_newer_target(versions, current, "minor"));
    out.push(pick_newer_target(versions, current, "major"));
    assert(out.deep_view() =~= newer_targets(versions.deep_view(), current.deep_view()));
    out
}

/// The targets that are not to be hidden.
pub open spec fn visible(
    targets: Seq<Option<VersionView>>,
    settings: SettingsView,
    name: Seq<char>,
) -> Seq<Option<VersionView>> {
    targets.map_values(
        |target: Option<VersionView>|
            match target {
                Some(t) => if hidden(settings, name, t) {
                    None
                } else {
                    Some(t)
                },
                None => None,
            },
    )
}

/// The targets that are not to be hidden.
pub fn keep_visible(targets: &Vec<Option<Version>>, name: &str, settings: &Settings) -> (r: Vec<
    Option<Version>,
>)
    ensures
        r.deep_view() == visible(targets.deep_view(), settings.deep_view(), name@),
{
    let mut out: Vec<Option<Version>> = Vec::new();
    let mut i: usize = 0;
    while i < targets.len()
        invariant
            i <= targets.len(),
            out.len() == i,
            forall|j: int|
                0 <= j < i ==> (#[trigger] out@[j]).deep_view() == visible(
                    targets.deep_view(),
                    settings.deep_view(),
                    name@,
                )[j],
        decreases targets.len() - i,
    {
        let kept = match &targets[i] {
            Some(t) => if version_ignored(name, t, settings) {
                None
            } else {
                Some(t.clone())
            },
            None => None,
        };
        out.push(kept);
        i = i + 1;
    }
    assert(out.deep_view() =~= visible(targets.deep_view(), settings.deep_view(), name@));
    out
}

/// A package can be upgraded: one of the tiers leads to a newer version that is
/// not to be hidden.
pub open spec fn upgradable(
    settings: SettingsView,
    name: Seq<char>,
    versions: Seq<VersionView>,
    current: VersionView,
) -> bool {
    exists|i: int|
        0 <= i < 3 && (#[trigger] newer_targets(versions, current)[i]) is Some && !hidden(
            settings,
            name,
            newer_targets(versions, current)[i]->0,
        )
}

/// Whether a package can be upgraded from `current`.
pub fn is_upgradable(
    settings: &Settings,
    name: &str,
    versions: &Vec<Version>,
    current: &Version,
) -> (r: bool)
    ensures
        r == upgradable(
            settings.deep_view(),
            name@,
            versions.deep_view(),
            current.deep_view(),
        ),
{
    let targets = pick_newer_targets(versions, current);
    let shown = keep_visible(&targets, name, settings);
    let ghost all = newer_targets(versions.deep_view(), current.deep_view());
    let ghost seen = visible(all, settings.deep_view(), name@);
    let mut i: usize = 0;
    while i < shown.len()
        invariant
            i <= shown.len(),
            shown.deep_view() == seen,
            seen == visible(all, settings.deep_view(), name@),
            all == newer_targets(versions.deep_view(), current.deep_view()),
            all.len() == 3,
            forall|j: int| 0 <= j < i ==> (#[trigger] all[j]) is Some ==> hidden(
                settings.deep_view(),
                name@,
                all[j]->0,
            ),
        decreases shown.len() - i,
    {
        assert(seen[i as int] == shown@[i as int].deep_view());
        assert(shown.deep_view().len() == seen.len());
        if let Some(_) = &shown[i] {
            assert(seen[i as int] is Some);
            assert(all[i as int] is Some);
            return true;
        }
        i = i + 1;
    }
    assert(shown.deep_view().len() == 3);
    false
}

/// A target of a smaller step is written as the target at `i` is.
pub open spec fn said_before(targets: Seq<Option<VersionView>>, i: int) -> bool {
    exists|j: int|
        0 <= j < i && (#[trigger] targets[j]) is Some && version_text(targets[j]->0)
            == version_text(targets[i]->0)
}

/// The targets as text. One that is written as an earlier one is left out.
pub open spec fn distinct_texts(targets: Seq<Option<VersionView>>) -> Seq<Option<Seq<char>>> {
    Seq::new(
        targets.len(),
        |i: int|
            match targets[i] {
                Some(t) => if said_before(targets, i) {
                    None
                } else {
                    Some(version_text(t))
                },
                None => None,
            },
    )
}

/// The targets as text. One that is written as an earlier one is left out.
pub fn distinct_targets(targets: &Vec<Option<Version>>) -> (r: Vec<Option<String>>)
    ensures
        r.deep_view() == distinct_texts(targets.deep_view()),
{
    let ghost all = targets.deep_view();
    let mut seen: Vec<String> = Vec::new();
    let mut out: Vec<Option<String>> = Vec::new();
    let mut i: usize = 0;
    while i < targets.len()
        invariant
            i <= targets.len(),
            all == targets.deep_view(),
            out.deep_view() == distinct_texts(all).take(i as int),
            forall|j: int|
                0 <= j < i ==> ((#[trigger] all[j]) is Some ==> seen.deep_view().contains(
                    version_text(all[j]->0),
                )),
            forall|s: Seq<char>| #[trigger]
                seen.deep_view().contains(s) ==> exists|j: int|
                    0 <= j < i && (#[trigger] all[j]) is Some && version_text(all[j]->0) == s,
        decreases targets.len() - i,
    {
        let ghost before = out.deep_view();
        let ghost seen_before = seen.deep_view();
        assert(all[i as int] == targets@[i as int].deep_view());
        match &targets[i] {
            Some(t) => {
                let text = t.to_string();
                if crate::text::list_has(seen.as_slice(), text.as_str()) {
                    out.push(None);
                    assert(out.deep_view() =~= before.push(None));
                } else {
                    out.push(Some(text.clone()));
                    assert(out.deep_view() =~= before.push(Some(text@)));
                    seen.push(text);
                    assert(seen.deep_view() =~= seen_before.push(text@));
                    assert(seen.deep_view()[seen_before.len() as int] == text@);
                    assert forall|s: Seq<char>| seen_before.contains(s) implies #[trigger]
                        seen.deep_view().contains(s) by {
                        let k = choose|k: int| 0 <= k < seen_before.len() && seen_before[k] == s;
                        assert(seen.deep_view()[k] == s);
                    }
                    assert forall|s: Seq<char>|
                        #[trigger] seen.deep_view().contains(s) implies exists|j: int|
                        0 <= j < i + 1 && (#[trigger] all[j]) is Some && version_text(all[j]->0)
                            == s by {
                        let k = choose|k: int|
                            0 <= k < seen.deep_view().len() && seen.deep_view()[k] == s;
                        if k < seen_before.len() {
                            assert(seen_before[k] == s);
                            assert(seen_before.contains(s));
                        } else {
                            assert(all[i as int] is Some);
                        }
                    }
                }
            },
            None => {
                out.push(None);
                assert(out.deep_view() =~= before.push(None));
            },
        }
        assert(distinct_texts(all).take(i + 1) =~= distinct_texts(all).take(i as int).push(
            distinct_texts(all)[i as int],
        ));
        i = i + 1;
    }
    assert(distinct_texts(all).take(all.len() as int) =~= distinct_texts(all));
    out
}

/// No two of the texts that are left are the same, and each target is among
/// them.
pub proof fn law_distinct_texts(targets: Seq<Option<VersionView>>)
    ensures
        forall|i: int, j: int|
            0 <= i < j < targets.len() && (#[trigger] distinct_texts(targets)[i]) is Some && (
            #[trigger] distinct_texts(targets)[j]) is Some ==> distinct_texts(targets)[i]
                != distinct_texts(targets)[j],
        forall|i: int|
            0 <= i < targets.len() && (#[trigger] targets[i]) is Some ==> distinct_texts(
                targets,
            ).contains(Some(version_text(targets[i]->0))),
{
    let texts = distinct_texts(targets);
    assert forall|i: int, j: int|
        0 <= i < j < targets.len() && (#[trigger] texts[i]) is Some && (
        #[trigger] texts[j]) is Some implies texts[i] != texts[j] by {
        assert(targets[i] is Some && targets[j] is Some);
        if texts[i] == texts[j] {
            assert(said_before(targets, j));
        }
    }
    assert forall|i: int|
        0 <= i < targets.len() && (#[trigger] targets[i]) is Some implies texts.contains(
        Some(version_text(targets[i]->0)),
    ) by {
        lemma_first_is_shown(targets, i);
    }
}

proof fn lemma_first_is_shown(targets: Seq<Option<VersionView>>, i: int)
    requires
        0 <= i < targets.len(),
        targets[i] is Some,
    ensures
        distinct_texts(targets).contains(Some(version_text(targets[i]->0))),
    decreases i,
{
    if said_before(targets, i) {
        let j = choose|j: int|
            0 <= j < i && (#[trigger] targets[j]) is Some && version_text(targets[j]->0)
                == version_text(targets[i]->0);
        lemma_first_is_shown(targets, j);
    } else {
        assert(distinct_texts(targets)[i] == Some(version_text(targets[i]->0)));
    }
}

// ---- Laws ----

/// A path is that of a `package.json` exactly where `package.json` is all that
/// stands behind its last slash, or all of it where it has no slash.
pub proof fn law_package_json_is_the_last_segment(dir: Seq<char>, file: Seq<char>)
    requires
        !file.contains('/'),
    ensures
        names_package_json(file) <==> file == "package.json"@,
        names_package_json(dir + seq!['/'] + file) <==> file == "package.json"@,
{
    reveal_strlit("package.json");
    reveal_strlit("/package.json");
    let name = "package.json"@;
    let tail = "/package.json"@;
    assert(tail =~= seq!['/'] + name);
    let path = dir + seq!['/'] + file;
    let n = dir.len() as int;
    assert(path[n] == '/');
    if tail.is_suffix_of(file) {
        let k = file.len() - tail.len();
        assert(file.subrange(k, file.len() as int)[0] == tail[0]);
        assert(file[k] == '/');
        assert(file.contains('/'));
    }
    if file == name {
        assert(path.subrange(path.len() - tail.len(), path.len() as int) =~= tail);
    }
    if path == name {
        assert(name[n] == '/');
    }
    if tail.is_suffix_of(path) {
        let k = path.len() - tail.len();
        let end = path.subrange(k, path.len() as int);
        assert(end =~= tail);
        assert(path[k] == end[0]);
        if k < n {
            assert(end[n - k] == path[n]);
            assert(tail[n - k] == '/');
        } else if k > n {
            assert(file[k - n - 1] == '/');
            assert(file.contains('/'));
        } else {
            assert(file =~= name) by {
                assert forall|i: int| 0 <= i < file.len() implies file[i] == name[i] by {
                    assert(path[n + 1 + i] == file[i]);
                    assert(end[1 + i] == path[n + 1 + i]);
                }
            }
        }
    }
}

/// A package is left alone exactly where one of the patterns matches its name.
/// A pattern that is no regular expression matches nothing.
pub proof fn law_ignored_by_one_pattern(settings: SettingsView, name: Seq<char>)
    ensures
        ignored(settings, name) <==> exists|i: int|
            0 <= i < settings.ignore_patterns.len() && pattern_verdict(
                #[trigger] settings.ignore_patterns[i],
                name,
            ) == Some(true),
        settings.ignore_patterns.len() == 0 ==> !ignored(settings, name),
{
    let verdicts = settings.ignore_patterns.map_values(|p: Seq<char>| pattern_verdict(p, name));
    if ignored(settings, name) {
        let i = choose|i: int| 0 <= i < verdicts.len() && verdicts[i] == Some(true);
        assert(pattern_verdict(settings.ignore_patterns[i], name) == Some(true));
    }
    if exists|i: int|
        0 <= i < settings.ignore_patterns.len() && pattern_verdict(
            #[trigger] settings.ignore_patterns[i],
            name,
        ) == Some(true) {
        let i = choose|i: int|
            0 <= i < settings.ignore_patterns.len() && pattern_verdict(
                #[trigger] settings.ignore_patterns[i],
                name,
            ) == Some(true);
        assert(verdicts[i] == Some(true));
    }
}

/// A version is hidden exactly where the rule for its own package is a range
/// that admits it: a rule for another package hides nothing, and neither does a
/// rule that is no range.
pub proof fn law_hidden_by_the_rule(
    settings: SettingsView,
    name: Seq<char>,
    other: Seq<char>,
    rule: Seq<char>,
    version: VersionView,
)
    requires
        name != other,
    ensures
        ({
            let with = SettingsView {
                ignore_versions: settings.ignore_versions.insert(name, rule),
                ..settings
            };
            &&& hidden(with, name, version) <==> valid_range(rule) && range_admits(rule, version)
            &&& hidden(with, other, version) == hidden(settings, other, version)
        }),
        !settings.ignore_versions.dom().contains(name) ==> !hidden(settings, name, version),
{
}

/// A hint stands on the line of the version string, one column behind its end.
pub proof fn law_hint_stands_behind_the_quote(end: Position)
    ensures
        behind(end).line == end.line,
        end.character < u32::MAX ==> behind(end).character == end.character + 1,
        end.character == u32::MAX ==> behind(end).character == end.character,
{
}

/// In a list that is sorted newest first, an upgrade of a tier leads to the
/// highest stable version of its series that is newer than the current one, and
/// there is an upgrade exactly where there is such a version. No other tier
/// leads anywhere.
pub proof fn law_upgrades_lead_to_the_highest(
    versions: Seq<VersionView>,
    current: VersionView,
    tier: Seq<char>,
)
    requires
        sorted_newest_first(versions),
    ensures
        match newer_target(versions, current, "major"@) {
            Some(t) => highest_upgrade(versions, current, false, false, t),
            None => forall|u: VersionView| #[trigger]
                versions.contains(u) && u.pre_release.len() == 0 ==> !version_lt(current, u),
        },
        match newer_target(versions, current, "minor"@) {
            Some(t) => highest_upgrade(versions, current, true, false, t),
            None => forall|u: VersionView| #[trigger]
                versions.contains(u) && u.pre_release.len() == 0 && u.major == current.major
                    ==> !version_lt(current, u),
        },
        match newer_target(versions, current, "patch"@) {
            Some(t) => highest_upgrade(versions, current, true, true, t),
            None => forall|u: VersionView| #[trigger]
                versions.contains(u) && u.pre_release.len() == 0 && u.major == current.major
                    && u.minor == current.minor ==> !version_lt(current, u),
        },
        tier != "patch"@ && tier != "minor"@ && tier != "major"@ ==> newer_target(
            versions,
            current,
            tier,
        ) is None,
{
    law_tiers_lead_to_the_highest(versions, current);
    law_tier_targets(versions, current, tier);
    if let Some(t) = tier_target(versions, current, "major"@) {
        if !version_lt(current, t) {
            assert forall|u: VersionView| #[trigger]
                versions.contains(u) && u.pre_release.len() == 0 implies !version_lt(
                current,
                u,
            ) by {
                law_order_not_less_transitive(current, t, u);
            }
        }
    }
}

/// The three tiers are gone through from the smallest step to the largest, and
/// of what they lead to only what is hidden is left out; the rest keeps its
/// place.
pub proof fn law_targets_of_the_tiers(
    settings: SettingsView,
    name: Seq<char>,
    versions: Seq<VersionView>,
    current: VersionView,
)
    ensures
        ({
            let all = newer_targets(versions, current);
            let shown = visible(all, settings, name);
            &&& all.len() == 3 && shown.len() == 3
            &&& all[0] == newer_target(versions, current, "patch"@)
            &&& all[1] == newer_target(versions, current, "minor"@)
            &&& all[2] == newer_target(versions, current, "major"@)
            &&& forall|i: int|
                0 <= i < 3 ==> {
                    &&& (#[trigger] all[i]) is None ==> shown[i] is None
                    &&& all[i] matches Some(t) ==> if hidden(settings, name, t) {
                        shown[i] is None
                    } else {
                        shown[i] == Some(t)
                    }
                }
        }),
{
}

/// A package can be upgraded exactly where one of the tiers leads to a version
/// that is not hidden.
pub proof fn law_upgradable(
    settings: SettingsView,
    name: Seq<char>,
    versions: Seq<VersionView>,
    current: VersionView,
)
    ensures
        ({
            let patch = newer_target(versions, current, "patch"@);
            let minor = newer_target(versions, current, "minor"@);
            let major = newer_target(versions, current, "major"@);
            upgradable(settings, name, versions, current) <==> {
                ||| patch is Some && !hidden(settings, name, patch->0)
                ||| minor is Some && !hidden(settings, name, minor->0)
                ||| major is Some && !hidden(settings, name, major->0)
            }
        }),
{
    let all = newer_targets(versions, current);
    assert(all[0] == newer_target(versions, current, "patch"@));
    assert(all[1] == newer_target(versions, current, "minor"@));
    assert(all[2] == newer_target(versions, current, "major"@));
}

/// A text is kept at the place of the first target that is written so, and left
/// out at the places behind it.
pub proof fn law_smallest_step_keeps_the_text(targets: Seq<Option<VersionView>>, i: int)
    requires
        0 <= i < targets.len(),
    ensures
        distinct_texts(targets).len() == targets.len(),
        targets[i] is None ==> distinct_texts(targets)[i] is None,
        targets[i] matches Some(t) ==> {
            let text = version_text(t);
            if exists|j: int|
                0 <= j < i && (#[trigger] targets[j]) is Some && version_text(targets[j]->0)
                    == text {
                distinct_texts(targets)[i] is None
            } else {
                distinct_texts(targets)[i] == Some(text)
            }
        },
{
}

} // verus!
