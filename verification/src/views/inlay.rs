//! Hints behind version strings.

use vstd::prelude::*;
use vstd::string::*;

use crate::audit::{
    count_of, law_counts_cover_all, AdvisorySeverity, AdvisoryView, AuditResult, AuditView,
};
use crate::document::DepEntry;
use crate::registry::CachedPackage;
use crate::semver::{version_text, Version, VersionView};
use crate::settings::{Settings, SettingsView};
use crate::text::{decimal, decimal_string, law_occurs_in, occurs_in};
use crate::views::util::{
    distinct_targets, distinct_texts, hidden, keep_visible, law_smallest_step_keeps_the_text,
    law_targets_of_the_tiers, newer_target, newer_targets, pick_newer_targets, visible,
};

verus! {

// ---- Upgrades ----

/// The mark of a tier.
pub open spec fn tier_marker(i: int) -> Seq<char> {
    if i == 0 {
        "🟢"@
    } else if i == 1 {
        "🟡"@
    } else {
        "🔴"@
    }
}

/// The first `n` of the targets, each behind the mark of its tier.
pub open spec fn label_parts(texts: Seq<Option<Seq<char>>>, n: nat) -> Seq<Seq<char>>
    decreases n,
{
    if n == 0 {
        seq![]
    } else {
        let rest = label_parts(texts, (n - 1) as nat);
        match texts[n - 1] {
            Some(t) => rest.push(tier_marker(n - 1) + " "@ + t),
            None => rest,
        }
    }
}

/// Some texts with ` · ` between them.
pub open spec fn joined(parts: Seq<Seq<char>>) -> Seq<char>
    decreases parts.len(),
{
    if parts.len() == 0 {
        seq![]
    } else if parts.len() == 1 {
        parts[0]
    } else {
        joined(parts.drop_last()) + " · "@ + parts.last()
    }
}

/// The label that lists the targets of the tiers; none where there are none.
pub open spec fn label_text(texts: Seq<Option<Seq<char>>>) -> Option<Seq<char>> {
    let parts = label_parts(texts, texts.len());
    if parts.len() == 0 {
        None
    } else {
        Some(" "@ + joined(parts))
    }
}

/// The label that lists the targets of the tiers; none where there are none.
pub fn list_targets(texts: &Vec<Option<String>>) -> (r: Option<String>)
    ensures
        r.deep_view() == label_text(texts.deep_view()),
{
    let ghost all = texts.deep_view();
    let mut some: bool = false;
    let mut out = " ".to_owned();
    let mut i: usize = 0;
    while i < texts.len()
        invariant
            i <= texts.len(),
            all == texts.deep_view(),
            some == (label_parts(all, i as nat).len() > 0),
            out@ =~= " "@ + joined(label_parts(all, i as nat)),
        decreases texts.len() - i,
    {
        assert(all[i as int] == texts@[i as int].deep_view());
        let ghost parts = label_parts(all, i as nat);
        if let Some(t) = &texts[i] {
            let marker = if i == 0 {
                "🟢"
            } else if i == 1 {
                "🟡"
            } else {
                "🔴"
            };
            if some {
                out.append(" · ");
            }
            out.append(marker);
            out.append(" ");
            out.append(t.as_str());
            some = true;
            proof {
                let next = label_parts(all, (i + 1) as nat);
                assert(next.drop_last() =~= parts);
                assert(next.last() == tier_marker(i as int) + " "@ + t@);
                assert(out@ =~= " "@ + joined(next));
            }
        }
        i = i + 1;
    }
    if some {
        Some(out)
    } else {
        None
    }
}

/// The label that lists what a package can be upgraded to: for each tier the
/// highest version, if it is newer than `current` and not to be hidden. The
/// same version is listed once.
pub open spec fn upgrade_text(
    settings: SettingsView,
    name: Seq<char>,
    versions: Seq<VersionView>,
    current: VersionView,
) -> Option<Seq<char>> {
    label_text(distinct_texts(visible(newer_targets(versions, current), settings, name)))
}

/// The label that lists what a dependency can be upgraded to from `current`;
/// none where there is nothing.
pub fn upgrade_label(
    dep: &DepEntry,
    pkg: &CachedPackage,
    current: &Version,
    settings: &Settings,
) -> (r: Option<String>)
    ensures
        r.deep_view() == upgrade_text(
            settings.deep_view(),
            dep.deep_view().name,
            pkg.deep_view().versions,
            current.deep_view(),
        ),
{
    let targets = pick_newer_targets(&pkg.versions, current);
    let shown = keep_visible(&targets, dep.name.as_str(), settings);
    list_targets(&distinct_targets(&shown))
}

// ---- Advisories ----

/// The mark of the worst severity among some advisories.
pub open spec fn worst_mark(s: Seq<AdvisoryView>) -> Seq<char> {
    if count_of(s, AdvisorySeverity::Critical) > 0 {
        "🚨"@
    } else if count_of(s, AdvisorySeverity::High) > 0 {
        "‼"@
    } else if count_of(s, AdvisorySeverity::Moderate) > 0 {
        "⚠"@
    } else {
        "ℹ"@
    }
}

/// The badge for some advisories; none where there are none.
pub open spec fn badge_text(s: Seq<AdvisoryView>) -> Option<Seq<char>> {
    if s.len() == 0 {
        None
    } else {
        Some(
            " "@ + worst_mark(s) + " "@ + decimal(s.len()) + " "@ + (if s.len() == 1 {
                "vuln"@
            } else {
                "vulns"@
            }),
        )
    }
}

/// The badge for the advisories about a version: how bad the worst of them is,
/// and how many there are.
pub fn advisory_badge(audit: &AuditResult) -> (r: Option<String>)
    ensures
        r.deep_view() == badge_text(audit.deep_view().advisories),
{
    if audit.advisories.len() == 0 {
        return None;
    }
    let (crit, high, moderate, low) = audit.counts();
    proof {
        law_counts_cover_all(audit.deep_view().advisories);
    }
    let total: usize = crit + high + moderate + low;
    let mark = if crit > 0 {
        "🚨"
    } else if high > 0 {
        "‼"
    } else if moderate > 0 {
        "⚠"
    } else {
        "ℹ"
    };
    let suffix = if total == 1 {
        "vuln"
    } else {
        "vulns"
    };
    let mut out = " ".to_owned();
    out.append(mark);
    out.append(" ");
    out.append(decimal_string(total as u64).as_str());
    out.append(" ");
    out.append(suffix);
    Some(out)
}

/// How many advisories a tooltip lists.
pub const TOOLTIP_LIMIT: usize = 5;

/// The first `n` of some advisories, one on a line.
pub open spec fn tooltip_lines(s: Seq<AdvisoryView>, n: nat) -> Seq<char>
    decreases n,
{
    if n == 0 {
        seq![]
    } else {
        tooltip_lines(s, (n - 1) as nat) + "\n• ["@ + s[n - 1].id + "] "@ + s[n - 1].summary
    }
}

/// The tooltip of a hint: the name of the package, and behind it how many
/// advisories there are, the first few, and how many more.
pub open spec fn tooltip_text(name: Seq<char>, audit: Option<AuditView>) -> Seq<char> {
    match audit {
        Some(a) if a.advisories.len() > 0 => {
            let s = a.advisories;
            let head = name + " — "@ + decimal(s.len()) + " advisor"@ + (if s.len() == 1 {
                "y"@
            } else {
                "ies"@
            });
            if s.len() > TOOLTIP_LIMIT {
                head + tooltip_lines(s, TOOLTIP_LIMIT as nat) + "\n… +"@ + decimal(
                    (s.len() - TOOLTIP_LIMIT) as nat,
                ) + " more"@
            } else {
                head + tooltip_lines(s, s.len())
            }
        },
        _ => name,
    }
}

/// The tooltip of a hint.
pub fn audit_tooltip(name: &str, audit: Option<&AuditResult>) -> (r: String)
    ensures
        r@ == tooltip_text(name@, audit.deep_view()),
{
    let advisories = match audit {
        Some(a) => &a.advisories,
        None => {
            return name.to_owned();
        },
    };
    let total: usize = advisories.len();
    if total == 0 {
        return name.to_owned();
    }
    let ghost all = advisories.deep_view();
    let mut out = name.to_owned();
    out.append(" — ");
    out.append(decimal_string(total as u64).as_str());
    out.append(" advisor");
    out.append(
        if total == 1 {
            "y"
        } else {
            "ies"
        },
    );
    let ghost head = out@;
    assert(out@ =~= head + tooltip_lines(all, 0));
    let mut i: usize = 0;
    while i < total && i < TOOLTIP_LIMIT
        invariant
            i <= total,
            i <= TOOLTIP_LIMIT,
            total == advisories.len(),
            all == advisories.deep_view(),
            out@ == head + tooltip_lines(all, i as nat),
        decreases total - i,
    {
        assert(all[i as int] == advisories@[i as int].deep_view());
        out.append("\n• [");
        out.append(advisories[i].id.as_str());
        out.append("] ");
        out.append(advisories[i].summary.as_str());
        assert(out@ =~= head + tooltip_lines(all, (i + 1) as nat));
        i = i + 1;
    }
    if total > TOOLTIP_LIMIT {
        out.append("\n… +");
        out.append(decimal_string((total - TOOLTIP_LIMIT) as u64).as_str());
        out.append(" more");
    }
    out
}

// ---- Laws ----

proof fn lemma_label_parts_of_three(
    patch: Option<Seq<char>>,
    minor: Option<Seq<char>>,
    major: Option<Seq<char>>,
)
    ensures
        ({
            let green = match patch {
                Some(a) => seq!["🟢 "@ + a],
                None => seq![],
            };
            let yellow = match minor {
                Some(b) => seq!["🟡 "@ + b],
                None => seq![],
            };
            let red = match major {
                Some(c) => seq!["🔴 "@ + c],
                None => seq![],
            };
            label_parts(seq![patch, minor, major], 3) == green + yellow + red
        }),
{
    reveal_strlit("🟢");
    reveal_strlit("🟡");
    reveal_strlit("🔴");
    reveal_strlit("🟢 ");
    reveal_strlit("🟡 ");
    reveal_strlit("🔴 ");
    reveal_strlit(" ");
    assert("🟢 "@ =~= "🟢"@ + " "@);
    assert("🟡 "@ =~= "🟡"@ + " "@);
    assert("🔴 "@ =~= "🔴"@ + " "@);
    reveal_with_fuel(label_parts, 4);
    let texts = seq![patch, minor, major];
    let green = match patch {
        Some(a) => seq!["🟢 "@ + a],
        None => seq![],
    };
    let yellow = match minor {
        Some(b) => seq!["🟡 "@ + b],
        None => seq![],
    };
    let red = match major {
        Some(c) => seq!["🔴 "@ + c],
        None => seq![],
    };
    assert(label_parts(texts, 1) =~= green);
    assert(label_parts(texts, 2) =~= green + yellow);
    assert(label_parts(texts, 3) =~= green + yellow + red);
}

/// A label lists what the tiers lead to, from the smallest step to the largest,
/// green for a patch, yellow for a minor and red for a major upgrade, with a dot
/// between each two. There is none where no tier leads anywhere.
pub proof fn law_labels_list_the_tiers(a: Seq<char>, b: Seq<char>, c: Seq<char>)
    ensures
        label_text(seq![None, None, None]) is None,
        label_text(seq![Some(a), None, None]) == Some(" 🟢 "@ + a),
        label_text(seq![None, Some(b), None]) == Some(" 🟡 "@ + b),
        label_text(seq![None, None, Some(c)]) == Some(" 🔴 "@ + c),
        label_text(seq![Some(a), Some(b), None]) == Some(" 🟢 "@ + a + " · 🟡 "@ + b),
        label_text(seq![Some(a), None, Some(c)]) == Some(" 🟢 "@ + a + " · 🔴 "@ + c),
        label_text(seq![None, Some(b), Some(c)]) == Some(" 🟡 "@ + b + " · 🔴 "@ + c),
        label_text(seq![Some(a), Some(b), Some(c)]) == Some(
            " 🟢 "@ + a + " · 🟡 "@ + b + " · 🔴 "@ + c,
        ),
{
    lemma_label_parts_of_three(None, None, None);
    lemma_label_parts_of_three(Some(a), None, None);
    lemma_label_parts_of_three(None, Some(b), None);
    lemma_label_parts_of_three(None, None, Some(c));
    lemma_label_parts_of_three(Some(a), Some(b), None);
    lemma_label_parts_of_three(Some(a), None, Some(c));
    lemma_label_parts_of_three(None, Some(b), Some(c));
    lemma_label_parts_of_three(Some(a), Some(b), Some(c));
    reveal_strlit("🟢 ");
    reveal_strlit("🟡 ");
    reveal_strlit("🔴 ");
    reveal_strlit(" 🟢 ");
    reveal_strlit(" 🟡 ");
    reveal_strlit(" 🔴 ");
    reveal_strlit(" · ");
    reveal_strlit(" · 🟡 ");
    reveal_strlit(" · 🔴 ");
    reveal_strlit(" ");
    assert(" 🟢 "@ =~= " "@ + "🟢 "@);
    assert(" 🟡 "@ =~= " "@ + "🟡 "@);
    assert(" 🔴 "@ =~= " "@ + "🔴 "@);
    assert(" · 🟡 "@ =~= " · "@ + "🟡 "@);
    assert(" · 🔴 "@ =~= " · "@ + "🔴 "@);
    let green = "🟢 "@ + a;
    let yellow = "🟡 "@ + b;
    let red = "🔴 "@ + c;
    lemma_joined(green, yellow, red);
    lemma_joined(green, red, red);
    lemma_joined(yellow, red, red);
    let e = Seq::<Seq<char>>::empty();
    assert(seq![green] + e + e =~= seq![green]);
    assert(e + seq![yellow] + e =~= seq![yellow]);
    assert(e + e + seq![red] =~= seq![red]);
    assert(seq![green] + seq![yellow] + e =~= seq![green, yellow]);
    assert(seq![green] + e + seq![red] =~= seq![green, red]);
    assert(e + seq![yellow] + seq![red] =~= seq![yellow, red]);
    assert(seq![green] + seq![yellow] + seq![red] =~= seq![green, yellow, red]);
    assert(" "@ + green =~= " 🟢 "@ + a);
    assert(" "@ + yellow =~= " 🟡 "@ + b);
    assert(" "@ + red =~= " 🔴 "@ + c);
    assert(" "@ + (green + " · "@ + yellow) =~= " 🟢 "@ + a + " · 🟡 "@ + b);
    assert(" "@ + (green + " · "@ + red) =~= " 🟢 "@ + a + " · 🔴 "@ + c);
    assert(" "@ + (yellow + " · "@ + red) =~= " 🟡 "@ + b + " · 🔴 "@ + c);
    assert(" "@ + (green + " · "@ + yellow + " · "@ + red) =~= " 🟢 "@ + a + " · 🟡 "@ + b
        + " · 🔴 "@ + c);
}

proof fn lemma_joined(a: Seq<char>, b: Seq<char>, c: Seq<char>)
    ensures
        joined(seq![a]) == a,
        joined(seq![b]) == b,
        joined(seq![c]) == c,
        joined(seq![a, b]) == a + " · "@ + b,
        joined(seq![a, b, c]) == a + " · "@ + b + " · "@ + c,
{
    let two = seq![a, b];
    let three = seq![a, b, c];
    assert(two.drop_last() =~= seq![a]);
    assert(three.drop_last() =~= two);
    assert(joined(two) == joined(seq![a]) + " · "@ + b);
    assert(joined(three) == joined(two) + " · "@ + c);
}

proof fn lemma_counted(s: Seq<AdvisoryView>, severity: AdvisorySeverity)
    ensures
        count_of(s, severity) > 0 <==> exists|i: int|
            0 <= i < s.len() && (#[trigger] s[i]).severity == severity,
        count_of(s, severity) <= s.len(),
    decreases s.len(),
{
    if s.len() > 0 {
        let rest = s.drop_last();
        lemma_counted(rest, severity);
        assert(s[s.len() - 1] == s.last());
        if count_of(rest, severity) > 0 {
            let i = choose|i: int| 0 <= i < rest.len() && (#[trigger] rest[i]).severity == severity;
            assert(s[i].severity == severity);
        }
        if exists|i: int| 0 <= i < s.len() && (#[trigger] s[i]).severity == severity {
            let i = choose|i: int| 0 <= i < s.len() && (#[trigger] s[i]).severity == severity;
            if i < rest.len() {
                assert(rest[i].severity == severity);
            }
        }
    }
}

/// The badge for some advisories tells how many there are, behind the mark of
/// the worst of them: one critical one is enough for the first mark, else one
/// high one for the second, else one moderate one for the third. There is no
/// badge where there are no advisories.
pub proof fn law_badge_tells_the_worst(s: Seq<AdvisoryView>)
    ensures
        badge_text(s) is None <==> s.len() == 0,
        s.len() > 0 ==> {
            let critical = exists|i: int|
                0 <= i < s.len() && (#[trigger] s[i]).severity == AdvisorySeverity::Critical;
            let high = exists|i: int|
                0 <= i < s.len() && (#[trigger] s[i]).severity == AdvisorySeverity::High;
            let moderate = exists|i: int|
                0 <= i < s.len() && (#[trigger] s[i]).severity == AdvisorySeverity::Moderate;
            let number = decimal(s.len()) + (if s.len() == 1 {
                " vuln"@
            } else {
                " vulns"@
            });
            &&& critical ==> badge_text(s) == Some(" 🚨 "@ + number)
            &&& !critical && high ==> badge_text(s) == Some(" ‼ "@ + number)
            &&& !critical && !high && moderate ==> badge_text(s) == Some(" ⚠ "@ + number)
            &&& !critical && !high && !moderate ==> badge_text(s) == Some(" ℹ "@ + number)
        },
{
    lemma_counted(s, AdvisorySeverity::Critical);
    lemma_counted(s, AdvisorySeverity::High);
    lemma_counted(s, AdvisorySeverity::Moderate);
    reveal_strlit(" ");
    reveal_strlit("🚨");
    reveal_strlit("‼");
    reveal_strlit("⚠");
    reveal_strlit("ℹ");
    reveal_strlit(" 🚨 ");
    reveal_strlit(" ‼ ");
    reveal_strlit(" ⚠ ");
    reveal_strlit(" ℹ ");
    reveal_strlit("vuln");
    reveal_strlit("vulns");
    reveal_strlit(" vuln");
    reveal_strlit(" vulns");
    assert(" 🚨 "@ =~= " "@ + "🚨"@ + " "@);
    assert(" ‼ "@ =~= " "@ + "‼"@ + " "@);
    assert(" ⚠ "@ =~= " "@ + "⚠"@ + " "@);
    assert(" ℹ "@ =~= " "@ + "ℹ"@ + " "@);
    assert(" vuln"@ =~= " "@ + "vuln"@);
    assert(" vulns"@ =~= " "@ + "vulns"@);
    if s.len() > 0 {
        let word = if s.len() == 1 {
            "vuln"@
        } else {
            "vulns"@
        };
        let n = decimal(s.len());
        let m = worst_mark(s);
        assert(" "@ + m + " "@ + n + " "@ + word =~= (" "@ + m + " "@) + (n + (" "@ + word)));
    }
}

proof fn lemma_tooltip_line(s: Seq<AdvisoryView>, n: nat, i: int)
    requires
        0 <= i < n <= s.len(),
    ensures
        occurs_in(tooltip_lines(s, n), "\n• ["@ + s[i].id + "] "@ + s[i].summary),
    decreases n,
{
    let line = "\n• ["@ + s[i].id + "] "@ + s[i].summary;
    let before = tooltip_lines(s, (n - 1) as nat);
    if i == n - 1 {
        assert(tooltip_lines(s, n) =~= before + line + Seq::<char>::empty());
        law_occurs_in(tooltip_lines(s, n), line);
    } else {
        lemma_tooltip_line(s, (n - 1) as nat, i);
        law_occurs_in(before, line);
        let (a, b) = choose|a: Seq<char>, b: Seq<char>| before == #[trigger] (a + line + b);
        let more = "\n• ["@ + s[n - 1].id + "] "@ + s[n - 1].summary;
        assert(tooltip_lines(s, n) =~= a + line + (b + more));
        law_occurs_in(tooltip_lines(s, n), line);
    }
}

/// A tooltip is the name of the package where there are no advisories. Else it
/// begins with the name and the number of the advisories, has a line for each of
/// the first five, with its identifier and its summary, and tells behind them
/// how many more there are, where there are more.
pub proof fn law_tooltip_lists_the_advisories(name: Seq<char>, a: AuditView, i: int)
    requires
        0 <= i < 5,
        i < a.advisories.len(),
    ensures
        ({
            let s = a.advisories;
            let text = tooltip_text(name, Some(a));
            &&& occurs_in(text, "\n• ["@ + s[i].id + "] "@ + s[i].summary)
            &&& s.len() == 1 ==> (name + " — "@ + decimal(1) + " advisory"@).is_prefix_of(text)
            &&& s.len() > 1 ==> (name + " — "@ + decimal(s.len()) + " advisories"@).is_prefix_of(
                text,
            )
            &&& s.len() > 5 ==> ("\n… +"@ + decimal((s.len() - 5) as nat)
                + " more"@).is_suffix_of(text)
        }),
        tooltip_text(name, None) == name,
        tooltip_text(name, Some(AuditView { advisories: seq![], ..a })) == name,
{
    reveal_strlit(" advisor");
    reveal_strlit("y");
    reveal_strlit("ies");
    reveal_strlit(" advisory");
    reveal_strlit(" advisories");
    assert(" advisory"@ =~= " advisor"@ + "y"@);
    assert(" advisories"@ =~= " advisor"@ + "ies"@);
    let s = a.advisories;
    let text = tooltip_text(name, Some(a));
    let line = "\n• ["@ + s[i].id + "] "@ + s[i].summary;
    let word = if s.len() == 1 {
        "y"@
    } else {
        "ies"@
    };
    let head = name + " — "@ + decimal(s.len()) + " advisor"@ + word;
    let n = if s.len() > 5 {
        5nat
    } else {
        s.len()
    };
    let lines = tooltip_lines(s, n);
    let tail = "\n… +"@ + decimal((s.len() - 5) as nat) + " more"@;
    lemma_tooltip_line(s, n, i);
    law_occurs_in(lines, line);
    let (x, y) = choose|x: Seq<char>, y: Seq<char>| lines == #[trigger] (x + line + y);
    assert(head =~= name + " — "@ + decimal(s.len()) + (" advisor"@ + word));
    if s.len() > 5 {
        assert(text =~= head + lines + tail);
        assert(text =~= (head + x) + line + (y + tail));
        assert(text.subrange(text.len() - tail.len(), text.len() as int) =~= tail);
    } else {
        assert(text =~= head + lines);
        assert(text =~= (head + x) + line + y);
    }
    law_occurs_in(text, line);
    assert(text.subrange(0, head.len() as int) =~= head);
}

/// The label of a package lists what each tier leads to, unless that is hidden
/// or written as what a smaller step leads to.
pub proof fn law_label_shows_the_upgrades(
    settings: SettingsView,
    name: Seq<char>,
    versions: Seq<VersionView>,
    current: VersionView,
    patch: Option<Seq<char>>,
    minor: Option<Seq<char>>,
    major: Option<Seq<char>>,
)
    requires
        ({
            let p = newer_target(versions, current, "patch"@);
            let m = newer_target(versions, current, "minor"@);
            let j = newer_target(versions, current, "major"@);
            &&& patch is Some <==> p is Some && !hidden(settings, name, p->0)
            &&& patch is Some ==> patch->0 == version_text(p->0)
            &&& minor is Some <==> m is Some && !hidden(settings, name, m->0) && patch != Some(
                version_text(m->0),
            )
            &&& minor is Some ==> minor->0 == version_text(m->0)
            &&& major is Some <==> j is Some && !hidden(settings, name, j->0) && patch != Some(
                version_text(j->0),
            ) && minor != Some(version_text(j->0))
            &&& major is Some ==> major->0 == version_text(j->0)
        }),
    ensures
        upgrade_text(settings, name, versions, current) == label_text(seq![patch, minor, major]),
{
    let all = newer_targets(versions, current);
    let shown = visible(all, settings, name);
    let texts = distinct_texts(shown);
    law_targets_of_the_tiers(settings, name, versions, current);
    law_smallest_step_keeps_the_text(shown, 0);
    law_smallest_step_keeps_the_text(shown, 1);
    law_smallest_step_keeps_the_text(shown, 2);
    if shown[0] is Some {
        assert(texts[0] == patch);
    }
    if let Some(m) = shown[1] {
        if patch == Some(version_text(m)) {
            assert(shown[0] is Some && version_text(shown[0]->0) == version_text(m));
        }
        assert(texts[1] == minor);
    }
    if let Some(j) = shown[2] {
        if patch == Some(version_text(j)) {
            assert(shown[0] is Some && version_text(shown[0]->0) == version_text(j));
        }
        if minor == Some(version_text(j)) {
            assert(shown[1] is Some && version_text(shown[1]->0) == version_text(j));
        }
        assert(texts[2] == major);
    }
    assert(texts =~= seq![patch, minor, major]);
}

/// A tooltip is made of its head, the lines on the first five advisories, one
/// below the other, and the number of those that are left, and of nothing else.
pub proof fn law_tooltip_is_made_of_its_lines(name: Seq<char>, a: AuditView, n: nat)
    requires
        n < a.advisories.len(),
    ensures
        ({
            let s = a.advisories;
            let text = tooltip_text(name, Some(a));
            let head = name + " — "@ + decimal(s.len()) + " advisor"@ + (if s.len() == 1 {
                "y"@
            } else {
                "ies"@
            });
            &&& tooltip_lines(s, 0).len() == 0
            &&& tooltip_lines(s, n + 1) == tooltip_lines(s, n) + "\n• ["@ + s[n as int].id + "] "@
                + s[n as int].summary
            &&& s.len() <= 5 ==> text == head + tooltip_lines(s, s.len())
            &&& s.len() > 5 ==> text == head + tooltip_lines(s, 5) + "\n… +"@ + decimal(
                (s.len() - 5) as nat,
            ) + " more"@
        }),
{
}

} // verus!
