//! Markdown about a dependency.

use vstd::prelude::*;
use vstd::string::*;

use crate::audit::{Advisory, AdvisorySeverity, AdvisoryView, AuditResult, AuditView};
use crate::document::{current_pinned, pinned, DepEntry};
use crate::registry::{changelog_url, releases_page, CachedPackage, PackageView};
use crate::semver::{optional_string, optional_text, version_text, Version, VersionView};
use crate::text::{
    append_wrapped, decimal, decimal_string, law_occurs_in, lemma_regroup, occurs_at, occurs_in,
    wrapped,
};

verus! {

/// The page with the releases of a package.
pub open spec fn changelog_of(pkg: PackageView) -> Option<Seq<char>> {
    match pkg.repository_url {
        Some(repo) => releases_page(repo),
        None => None,
    }
}

/// The page with the releases of a package.
pub fn changelog(pkg: &CachedPackage) -> (r: Option<String>)
    ensures
        r.deep_view() == changelog_of(pkg.deep_view()),
{
    match &pkg.repository_url {
        Some(repo) => changelog_url(repo.as_str()),
        None => None,
    }
}

/// What is said of a package: its name, its latest version and its license,
/// its description, and where to read on.
pub open spec fn package_markdown(name: Seq<char>, pkg: PackageView) -> Seq<char> {
    "**"@ + name + "**"@ + wrapped("  ·  latest `"@, optional_text(pkg.latest), "`"@) + wrapped(
        "  ·  "@,
        pkg.license,
        ""@,
    ) + "\n\n"@ + wrapped(""@, pkg.description, "\n\n"@) + wrapped(
        "[homepage]("@,
        pkg.homepage,
        ")"@,
    ) + wrapped("  ·  [changelog]("@, changelog_of(pkg), ")"@)
}

/// The mark of a severity.
pub open spec fn severity_badge(severity: AdvisorySeverity) -> Seq<char> {
    match severity {
        AdvisorySeverity::Critical => "🔴 critical"@,
        AdvisorySeverity::High => "🔴 high"@,
        AdvisorySeverity::Moderate => "🟡 moderate"@,
        AdvisorySeverity::Low => "🟢 low"@,
        AdvisorySeverity::Unknown => "⚪ unknown"@,
    }
}

/// The identifier of an advisory, with a link where it has an address.
pub open spec fn advisory_title(adv: AdvisoryView) -> Seq<char> {
    match adv.url {
        Some(url) => "["@ + adv.id + "]("@ + url + ")"@,
        None => adv.id,
    }
}

/// The line on an advisory.
pub open spec fn advisory_text(adv: AdvisoryView) -> Seq<char> {
    severity_badge(adv.severity) + " · "@ + advisory_title(adv) + " — "@ + adv.summary + wrapped(
        " — fixed in `"@,
        optional_text(adv.fixed_in),
        "`"@,
    )
}

/// The line on an advisory.
pub fn advisory_line(adv: &Advisory) -> (r: String)
    ensures
        r@ == advisory_text(adv.deep_view()),
{
    let badge = match adv.severity {
        AdvisorySeverity::Critical => "🔴 critical",
        AdvisorySeverity::High => "🔴 high",
        AdvisorySeverity::Moderate => "🟡 moderate",
        AdvisorySeverity::Low => "🟢 low",
        AdvisorySeverity::Unknown => "⚪ unknown",
    };
    let title = match &adv.url {
        Some(url) => {
            let mut t = "[".to_owned();
            t.append(adv.id.as_str());
            t.append("](");
            t.append(url.as_str());
            t.append(")");
            t
        },
        None => adv.id.clone(),
    };
    let mut line = badge.to_owned();
    line.append(" · ");
    line.append(title.as_str());
    line.append(" — ");
    line.append(adv.summary.as_str());
    append_wrapped(&mut line, " — fixed in `", &optional_string(&adv.fixed_in), "`");
    line
}

/// The lines on some advisories.
pub open spec fn advisory_lines(s: Seq<AdvisoryView>) -> Seq<char>
    decreases s.len(),
{
    if s.len() == 0 {
        seq![]
    } else {
        advisory_lines(s.drop_last()) + "\n- "@ + advisory_text(s.last())
    }
}

/// What is said of some advisories for the pinned version; nothing where there
/// are none.
pub open spec fn advisories_markdown(
    s: Seq<AdvisoryView>,
    current: Option<VersionView>,
) -> Seq<char> {
    if s.len() == 0 {
        seq![]
    } else {
        "\n\n---\n\n**Security advisories** ("@ + decimal(s.len()) + wrapped(
            " for `"@,
            optional_text(current),
            "`"@,
        ) + ")\n"@ + advisory_lines(s)
    }
}

/// Markdown about a package, and about the advisories for its pinned version.
pub open spec fn markdown(
    name: Seq<char>,
    pkg: PackageView,
    audit: Option<AuditView>,
    current: Option<VersionView>,
) -> Seq<char> {
    package_markdown(name, pkg) + (match audit {
        Some(a) => advisories_markdown(a.advisories, current),
        None => seq![],
    })
}

/// What is said of some advisories for the pinned version.
fn render_advisories(audit: &AuditResult, current: &Option<Version>) -> (r: String)
    ensures
        r@ == advisories_markdown(audit.deep_view().advisories, current.deep_view()),
{
    let ghost all = audit.advisories.deep_view();
    if audit.advisories.len() == 0 {
        let none = String::new();
        assert(none@ =~= seq![]);
        return none;
    }
    let mut md = "\n\n---\n\n**Security advisories** (".to_owned();
    md.append(decimal_string(audit.advisories.len() as u64).as_str());
    append_wrapped(&mut md, " for `", &optional_string(current), "`");
    md.append(")\n");
    let ghost head = md@;
    assert(md@ =~= head + advisory_lines(all.take(0)));
    let mut i: usize = 0;
    while i < audit.advisories.len()
        invariant
            i <= audit.advisories.len(),
            all == audit.advisories.deep_view(),
            md@ == head + advisory_lines(all.take(i as int)),
        decreases audit.advisories.len() - i,
    {
        assert(all.take(i + 1).drop_last() =~= all.take(i as int));
        let line = advisory_line(&audit.advisories[i]);
        md.append("\n- ");
        md.append(line.as_str());
        assert(md@ =~= head + advisory_lines(all.take(i + 1)));
        i = i + 1;
    }
    assert(all.take(all.len() as int) =~= all);
    md
}

/// Markdown about a package, and about the advisories for its pinned version.
pub fn render_for(
    name: &str,
    pkg: &CachedPackage,
    audit: Option<&AuditResult>,
    current: &Option<Version>,
) -> (r: String)
    ensures
        r@ == markdown(name@, pkg.deep_view(), audit.deep_view(), current.deep_view()),
{
    let mut md = "**".to_owned();
    md.append(name);
    md.append("**");
    append_wrapped(&mut md, "  ·  latest `", &optional_string(&pkg.latest), "`");
    append_wrapped(&mut md, "  ·  ", &pkg.license, "");
    md.append("\n\n");
    append_wrapped(&mut md, "", &pkg.description, "\n\n");
    append_wrapped(&mut md, "[homepage](", &pkg.homepage, ")");
    append_wrapped(&mut md, "  ·  [changelog](", &changelog(pkg), ")");
    match audit {
        Some(a) => {
            md.append(render_advisories(a, current).as_str());
        },
        None => {
            assert(md@ =~= md@ + seq![]);
        },
    }
    md
}

/// Markdown about a dependency: about its package, and about the advisories for
/// the version that it pins.
pub fn render(dep: &DepEntry, pkg: &CachedPackage, audit: Option<&AuditResult>) -> (r: String)
    ensures
        r@ == markdown(
            dep.deep_view().name,
            pkg.deep_view(),
            audit.deep_view(),
            pinned(dep.deep_view().range_str),
        ),
{
    render_for(dep.name.as_str(), pkg, audit, &current_pinned(dep.range_str.as_str()))
}

// ---- Laws ----

proof fn lemma_occurs(before: Seq<char>, text: Seq<char>)
    ensures
        occurs_in(before + text, text),
{
    let n = before.len() as int;
    assert((before + text).subrange(n, n + text.len()) =~= text);
    assert(occurs_at(before + text, text, n));
}

proof fn lemma_still_occurs(s: Seq<char>, more: Seq<char>, text: Seq<char>)
    requires
        occurs_in(s, text),
    ensures
        occurs_in(s + more, text),
{
    let i = choose|i: int| occurs_at(s, text, i);
    assert((s + more).subrange(i, i + text.len()) =~= s.subrange(i, i + text.len()));
    assert(occurs_at(s + more, text, i));
}

proof fn lemma_occurs_behind(before: Seq<char>, s: Seq<char>, text: Seq<char>)
    requires
        occurs_in(s, text),
    ensures
        occurs_in(before + s, text),
{
    let i = choose|i: int| occurs_at(s, text, i);
    let n = before.len() as int;
    assert((before + s).subrange(n + i, n + i + text.len()) =~= s.subrange(i, i + text.len()));
    assert(occurs_at(before + s, text, n + i));
}

proof fn lemma_occurs_wrapped(
    head: Seq<char>,
    before: Seq<char>,
    text: Seq<char>,
    after: Seq<char>,
)
    ensures
        occurs_in(head + wrapped(before, Some(text), after), text),
{
    lemma_occurs(head + before, text);
    lemma_still_occurs(head + before + text, after, text);
    assert(head + before + text + after =~= head + wrapped(before, Some(text), after));
}

/// The Markdown about a package holds its name and, as far as they are known,
/// its latest version, its license, its description, its homepage and the page
/// with its releases.
pub proof fn law_hover_shows_the_package(
    name: Seq<char>,
    pkg: PackageView,
    audit: Option<AuditView>,
    current: Option<VersionView>,
)
    ensures
        ({
            let md = markdown(name, pkg, audit, current);
            &&& occurs_in(md, name)
            &&& pkg.latest matches Some(v) ==> occurs_in(md, version_text(v))
            &&& pkg.license matches Some(t) ==> occurs_in(md, t)
            &&& pkg.description matches Some(t) ==> occurs_in(md, t)
            &&& pkg.homepage matches Some(t) ==> occurs_in(md, t)
            &&& changelog_of(pkg) matches Some(t) ==> occurs_in(md, t)
        }),
{
    let latest = wrapped("  ·  latest `"@, optional_text(pkg.latest), "`"@);
    let license = wrapped("  ·  "@, pkg.license, ""@);
    let description = wrapped(""@, pkg.description, "\n\n"@);
    let homepage = wrapped("[homepage]("@, pkg.homepage, ")"@);
    let releases = wrapped("  ·  [changelog]("@, changelog_of(pkg), ")"@);
    let rest = match audit {
        Some(a) => advisories_markdown(a.advisories, current),
        None => seq![],
    };
    let s0 = "**"@ + name + "**"@;
    let s1 = s0 + latest;
    let s2 = s1 + license;
    let s3 = s2 + "\n\n"@;
    let s4 = s3 + description;
    let s5 = s4 + homepage;
    let s6 = s5 + releases;
    let t6 = rest;
    let t5 = releases + t6;
    let t4 = homepage + t5;
    let t3 = description + t4;
    let t2 = "\n\n"@ + t3;
    let t1 = license + t2;
    let t0 = latest + t1;
    lemma_regroup(s5, releases, t6);
    lemma_regroup(s4, homepage, t5);
    lemma_regroup(s3, description, t4);
    lemma_regroup(s2, "\n\n"@, t3);
    lemma_regroup(s1, license, t2);
    lemma_regroup(s0, latest, t1);
    lemma_occurs("**"@, name);
    lemma_still_occurs("**"@ + name, "**"@, name);
    lemma_still_occurs(s0, t0, name);
    if let Some(v) = pkg.latest {
        lemma_occurs_wrapped(s0, "  ·  latest `"@, version_text(v), "`"@);
        lemma_still_occurs(s1, t1, version_text(v));
    }
    if let Some(t) = pkg.license {
        lemma_occurs_wrapped(s1, "  ·  "@, t, ""@);
        lemma_still_occurs(s2, t2, t);
    }
    if let Some(t) = pkg.description {
        lemma_occurs_wrapped(s3, ""@, t, "\n\n"@);
        lemma_still_occurs(s4, t4, t);
    }
    if let Some(t) = pkg.homepage {
        lemma_occurs_wrapped(s4, "[homepage]("@, t, ")"@);
        lemma_still_occurs(s5, t5, t);
    }
    if let Some(t) = changelog_of(pkg) {
        lemma_occurs_wrapped(s5, "  ·  [changelog]("@, t, ")"@);
        lemma_still_occurs(s6, t6, t);
    }
}

/// The Markdown about a package begins with its name in bold, marks its latest
/// version as such, and links to its homepage and to the page with its releases,
/// as far as they are known. Without advisories there is nothing more to it.
pub proof fn law_hover_links_the_pages(
    name: Seq<char>,
    pkg: PackageView,
    audit: AuditView,
    current: Option<VersionView>,
)
    ensures
        ({
            let md = markdown(name, pkg, Some(audit), current);
            &&& ("**"@ + name + "**"@).is_prefix_of(md)
            &&& pkg.latest matches Some(v) ==> occurs_in(
                md,
                "  ·  latest `"@ + version_text(v) + "`"@,
            )
            &&& pkg.homepage matches Some(t) ==> occurs_in(md, "[homepage]("@ + t + ")"@)
            &&& changelog_of(pkg) matches Some(t) ==> occurs_in(
                md,
                "  ·  [changelog]("@ + t + ")"@,
            )
            &&& audit.advisories.len() == 0 ==> md == markdown(name, pkg, None, current)
            &&& markdown(name, pkg, None, current).is_prefix_of(md)
        }),
{
    let latest = wrapped("  ·  latest `"@, optional_text(pkg.latest), "`"@);
    let license = wrapped("  ·  "@, pkg.license, ""@);
    let description = wrapped(""@, pkg.description, "\n\n"@);
    let homepage = wrapped("[homepage]("@, pkg.homepage, ")"@);
    let releases = wrapped("  ·  [changelog]("@, changelog_of(pkg), ")"@);
    let rest = advisories_markdown(audit.advisories, current);
    let s0 = "**"@ + name + "**"@;
    let s1 = s0 + latest;
    let s2 = s1 + license;
    let s3 = s2 + "\n\n"@;
    let s4 = s3 + description;
    let s5 = s4 + homepage;
    let s6 = s5 + releases;
    let t5 = releases + rest;
    let t4 = homepage + t5;
    let t3 = description + t4;
    let t2 = "\n\n"@ + t3;
    let t1 = license + t2;
    let t0 = latest + t1;
    lemma_regroup(s5, releases, rest);
    lemma_regroup(s4, homepage, t5);
    lemma_regroup(s3, description, t4);
    lemma_regroup(s2, "\n\n"@, t3);
    lemma_regroup(s1, license, t2);
    lemma_regroup(s0, latest, t1);
    let md = markdown(name, pkg, Some(audit), current);
    assert(md == s0 + t0);
    assert((s0 + t0).subrange(0, s0.len() as int) =~= s0);
    if let Some(v) = pkg.latest {
        lemma_occurs(s0, latest);
        lemma_still_occurs(s1, t1, latest);
    }
    if let Some(t) = pkg.homepage {
        lemma_occurs(s4, homepage);
        lemma_still_occurs(s5, t5, homepage);
    }
    if let Some(t) = changelog_of(pkg) {
        lemma_occurs(s5, releases);
        lemma_still_occurs(s6, rest, releases);
    }
    let plain = markdown(name, pkg, None, current);
    assert(plain =~= s6);
    assert(md.subrange(0, plain.len() as int) =~= plain);
    if audit.advisories.len() == 0 {
        assert(md =~= plain);
    }
}

proof fn lemma_advisory_line_is_there(s: Seq<AdvisoryView>, i: int)
    requires
        0 <= i < s.len(),
    ensures
        occurs_in(advisory_lines(s), "\n- "@ + advisory_text(s[i])),
    decreases s.len(),
{
    let line = "\n- "@ + advisory_text(s[i]);
    let before = advisory_lines(s.drop_last());
    let n = s.len() - 1;
    if i == n {
        lemma_occurs(before, line);
        lemma_regroup(before, "\n- "@, advisory_text(s.last()));
    } else {
        lemma_advisory_line_is_there(s.drop_last(), i);
        assert(s.drop_last()[i] == s[i]);
        let more = "\n- "@ + advisory_text(s.last());
        lemma_still_occurs(before, more, line);
        lemma_regroup(before, "\n- "@, advisory_text(s.last()));
    }
}

/// Every advisory has a line of its own in the Markdown, below a heading with
/// their number and the version that they are for.
pub proof fn law_hover_lists_the_advisories(
    name: Seq<char>,
    pkg: PackageView,
    audit: AuditView,
    current: Option<VersionView>,
    i: int,
)
    requires
        0 <= i < audit.advisories.len(),
    ensures
        ({
            let md = markdown(name, pkg, Some(audit), current);
            let n = decimal(audit.advisories.len());
            &&& occurs_in(md, "\n- "@ + advisory_text(audit.advisories[i]))
            &&& current is None ==> occurs_in(md, "**Security advisories** ("@ + n + ")\n"@)
            &&& current matches Some(v) ==> occurs_in(
                md,
                "**Security advisories** ("@ + n + " for `"@ + version_text(v) + "`"@ + ")\n"@,
            )
        }),
{
    reveal_strlit("\n\n---\n\n**Security advisories** (");
    reveal_strlit("**Security advisories** (");
    reveal_strlit("\n\n---\n\n");
    let s = audit.advisories;
    let n = decimal(s.len());
    let front = package_markdown(name, pkg);
    let who = wrapped(" for `"@, optional_text(current), "`"@);
    let lines = advisory_lines(s);
    let line = "\n- "@ + advisory_text(s[i]);
    let rule = "\n\n---\n\n"@;
    let title = "**Security advisories** ("@;
    let head = title + n + who + ")\n"@;
    assert("\n\n---\n\n**Security advisories** ("@ =~= rule + title);
    let start = rule + title + n + who + ")\n"@;
    lemma_regroup(rule, title, n);
    lemma_regroup(rule, title + n, who);
    lemma_regroup(rule, title + n + who, ")\n"@);
    assert(start == rule + head);
    assert(advisories_markdown(s, current) == start + lines);
    lemma_advisory_line_is_there(s, i);
    lemma_occurs_behind(start, lines, line);
    lemma_occurs_behind(front, start + lines, line);
    lemma_occurs(rule, head);
    lemma_still_occurs(start, lines, head);
    lemma_occurs_behind(front, start + lines, head);
    match current {
        Some(v) => {
            let text = version_text(v);
            lemma_regroup(title + n, " for `"@ + text, "`"@);
            lemma_regroup(title + n, " for `"@, text);
            assert(head == title + n + " for `"@ + text + "`"@ + ")\n"@);
        },
        None => {
            assert(title + n + who =~= title + n);
        },
    }
}

/// The line on an advisory is made of the mark of its severity, its identifier,
/// linked to the page about it where there is one, its summary, and its fix where
/// one is known.
pub proof fn law_advisory_line(adv: AdvisoryView)
    ensures
        ({
            let title = match adv.url {
                Some(url) => "["@ + adv.id + "]("@ + url + ")"@,
                None => adv.id,
            };
            let rest = match adv.fixed_in {
                Some(v) => title + " — "@ + adv.summary + (" — fixed in `"@ + version_text(v)
                    + "`"@),
                None => title + " — "@ + adv.summary,
            };
            &&& adv.severity == AdvisorySeverity::Critical ==> advisory_text(adv)
                == "🔴 critical · "@ + rest
            &&& adv.severity == AdvisorySeverity::High ==> advisory_text(adv) == "🔴 high · "@
                + rest
            &&& adv.severity == AdvisorySeverity::Moderate ==> advisory_text(adv)
                == "🟡 moderate · "@ + rest
            &&& adv.severity == AdvisorySeverity::Low ==> advisory_text(adv) == "🟢 low · "@ + rest
            &&& adv.severity == AdvisorySeverity::Unknown ==> advisory_text(adv) == "⚪ unknown · "@
                + rest
        }),
{
    reveal_strlit("🔴 critical");
    reveal_strlit("🔴 high");
    reveal_strlit("🟡 moderate");
    reveal_strlit("🟢 low");
    reveal_strlit("⚪ unknown");
    reveal_strlit("🔴 critical · ");
    reveal_strlit("🔴 high · ");
    reveal_strlit("🟡 moderate · ");
    reveal_strlit("🟢 low · ");
    reveal_strlit("⚪ unknown · ");
    reveal_strlit(" · ");
    assert("🔴 critical · "@ =~= "🔴 critical"@ + " · "@);
    assert("🔴 high · "@ =~= "🔴 high"@ + " · "@);
    assert("🟡 moderate · "@ =~= "🟡 moderate"@ + " · "@);
    assert("🟢 low · "@ =~= "🟢 low"@ + " · "@);
    assert("⚪ unknown · "@ =~= "⚪ unknown"@ + " · "@);
    let mark = severity_badge(adv.severity) + " · "@;
    let title = advisory_title(adv);
    let fix = wrapped(" — fixed in `"@, optional_text(adv.fixed_in), "`"@);
    lemma_regroup(mark, title, " — "@);
    lemma_regroup(mark, title + " — "@, adv.summary);
    lemma_regroup(mark, title + " — "@ + adv.summary, fix);
    if adv.fixed_in is None {
        assert(title + " — "@ + adv.summary + fix =~= title + " — "@ + adv.summary);
    }
}

/// The page with the releases is that of the repository, where one is known.
pub proof fn law_changelog_is_of_the_repository(pkg: PackageView)
    ensures
        pkg.repository_url is None ==> changelog_of(pkg) is None,
        pkg.repository_url matches Some(repo) ==> changelog_of(pkg) == releases_page(repo),
{
}

/// Where nothing is known of a package but its name, nothing else is said.
pub proof fn law_hover_of_an_unknown_package(
    name: Seq<char>,
    pkg: PackageView,
    current: Option<VersionView>,
)
    requires
        pkg.latest is None,
        pkg.license is None,
        pkg.description is None,
        pkg.homepage is None,
        pkg.repository_url is None,
    ensures
        markdown(name, pkg, None, current) == "**"@ + name + "**"@ + "\n\n"@,
{
    let e = Seq::<char>::empty();
    let s = "**"@ + name + "**"@;
    assert(s + e =~= s);
    let t = s + "\n\n"@;
    assert(t + e =~= t);
}

/// `more` is `less` with `piece` put in at some place.
pub open spec fn puts_in(less: Seq<char>, more: Seq<char>, piece: Seq<char>) -> bool {
    exists|a: Seq<char>, b: Seq<char>| less == #[trigger] (a + b) && more == a + piece + b
}

proof fn lemma_puts_in(a: Seq<char>, b: Seq<char>, piece: Seq<char>)
    ensures
        puts_in(a + Seq::<char>::empty() + b, a + piece + b, piece),
{
    assert(a + Seq::<char>::empty() + b =~= a + b);
}

proof fn lemma_puts_in_before(less: Seq<char>, more: Seq<char>, piece: Seq<char>, c: Seq<char>)
    requires
        puts_in(less, more, piece),
    ensures
        puts_in(less + c, more + c, piece),
{
    let (a, b) = choose|a: Seq<char>, b: Seq<char>|
        less == #[trigger] (a + b) && more == a + piece + b;
    lemma_regroup(a, b, c);
    lemma_regroup(a + piece, b, c);
    assert(less + c == a + (b + c));
    assert(more + c == a + piece + (b + c));
}

/// Whatever becomes known of a package adds its own piece to what is said, and
/// changes nothing else: the latest version, the license, the description, the
/// homepage and the page with the releases.
pub proof fn law_each_fact_adds_its_piece(
    name: Seq<char>,
    pkg: PackageView,
    current: Option<VersionView>,
    v: VersionView,
    t: Seq<char>,
)
    ensures
        puts_in(
            markdown(name, PackageView { latest: None, ..pkg }, None, current),
            markdown(name, PackageView { latest: Some(v), ..pkg }, None, current),
            "  ·  latest `"@ + version_text(v) + "`"@,
        ),
        puts_in(
            markdown(name, PackageView { license: None, ..pkg }, None, current),
            markdown(name, PackageView { license: Some(t), ..pkg }, None, current),
            "  ·  "@ + t + ""@,
        ),
        puts_in(
            markdown(name, PackageView { description: None, ..pkg }, None, current),
            markdown(name, PackageView { description: Some(t), ..pkg }, None, current),
            ""@ + t + "\n\n"@,
        ),
        puts_in(
            markdown(name, PackageView { homepage: None, ..pkg }, None, current),
            markdown(name, PackageView { homepage: Some(t), ..pkg }, None, current),
            "[homepage]("@ + t + ")"@,
        ),
        releases_page(t) matches Some(page) ==> puts_in(
            markdown(name, PackageView { repository_url: None, ..pkg }, None, current),
            markdown(name, PackageView { repository_url: Some(t), ..pkg }, None, current),
            "  ·  [changelog]("@ + page + ")"@,
        ),
{
    let e = Seq::<char>::empty();
    let latest = wrapped("  ·  latest `"@, optional_text(pkg.latest), "`"@);
    let license = wrapped("  ·  "@, pkg.license, ""@);
    let description = wrapped(""@, pkg.description, "\n\n"@);
    let homepage = wrapped("[homepage]("@, pkg.homepage, ")"@);
    let releases = wrapped("  ·  [changelog]("@, changelog_of(pkg), ")"@);
    let s0 = "**"@ + name + "**"@;
    let s1 = s0 + latest;
    let s2 = s1 + license;
    let s3 = s2 + "\n\n"@;
    let s4 = s3 + description;
    let s5 = s4 + homepage;
    let x0 = "  ·  latest `"@ + version_text(v) + "`"@;
    lemma_puts_in(s0, license, x0);
    lemma_puts_in_before(s0 + e + license, s0 + x0 + license, x0, "\n\n"@);
    let a0 = s0 + e + license + "\n\n"@;
    let b0 = s0 + x0 + license + "\n\n"@;
    lemma_puts_in_before(a0, b0, x0, description);
    lemma_puts_in_before(a0 + description, b0 + description, x0, homepage);
    lemma_puts_in_before(a0 + description + homepage, b0 + description + homepage, x0, releases);
    lemma_puts_in_before(
        a0 + description + homepage + releases,
        b0 + description + homepage + releases,
        x0,
        e,
    );
    let x1 = "  ·  "@ + t + ""@;
    lemma_puts_in(s1, "\n\n"@, x1);
    let a1 = s1 + e + "\n\n"@;
    let b1 = s1 + x1 + "\n\n"@;
    lemma_puts_in_before(a1, b1, x1, description);
    lemma_puts_in_before(a1 + description, b1 + description, x1, homepage);
    lemma_puts_in_before(a1 + description + homepage, b1 + description + homepage, x1, releases);
    lemma_puts_in_before(
        a1 + description + homepage + releases,
        b1 + description + homepage + releases,
        x1,
        e,
    );
    let x3 = ""@ + t + "\n\n"@;
    lemma_puts_in(s3, homepage, x3);
    lemma_puts_in_before(s3 + e + homepage, s3 + x3 + homepage, x3, releases);
    lemma_puts_in_before(s3 + e + homepage + releases, s3 + x3 + homepage + releases, x3, e);
    let x4 = "[homepage]("@ + t + ")"@;
    lemma_puts_in(s4, releases, x4);
    lemma_puts_in_before(s4 + e + releases, s4 + x4 + releases, x4, e);
    if let Some(page) = releases_page(t) {
        let x5 = "  ·  [changelog]("@ + page + ")"@;
        lemma_puts_in(s5, e, x5);
    }
}

/// An advisory more is a line more below the others.
pub proof fn law_each_advisory_adds_its_line(
    s: Seq<AdvisoryView>,
    adv: AdvisoryView,
    current: Option<VersionView>,
)
    ensures
        advisory_lines(Seq::<AdvisoryView>::empty()).len() == 0,
        advisory_lines(s.push(adv)) == advisory_lines(s) + "\n- "@ + advisory_text(adv),
        s.len() > 0 ==> advisories_markdown(s, current) == "\n\n---\n\n**Security advisories** ("@
            + decimal(s.len()) + (match current {
            Some(v) => " for `"@ + version_text(v) + "`"@,
            None => seq![],
        }) + ")\n"@ + advisory_lines(s),
        s.len() == 0 ==> advisories_markdown(s, current).len() == 0,
{
    assert(s.push(adv).drop_last() =~= s);
}

/// What is said of the advisories stands behind what is said of the package, and
/// a repository whose host is not known adds nothing to that.
pub proof fn law_advisories_stand_behind_the_package(
    name: Seq<char>,
    pkg: PackageView,
    audit: AuditView,
    current: Option<VersionView>,
    repo: Seq<char>,
)
    ensures
        markdown(name, pkg, Some(audit), current) == markdown(name, pkg, None, current)
            + advisories_markdown(audit.advisories, current),
        releases_page(repo) is None ==> markdown(
            name,
            PackageView { repository_url: Some(repo), ..pkg },
            None,
            current,
        ) == markdown(name, PackageView { repository_url: None, ..pkg }, None, current),
{
    let front = package_markdown(name, pkg);
    assert(front + Seq::<char>::empty() =~= front);
}

} // verus!
