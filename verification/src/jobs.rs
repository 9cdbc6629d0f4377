//! What is looked for in the dependencies of a document.

use vstd::prelude::*;
use vstd::string::*;
use vstd::utf8::encode_utf8;

use crate::audit::{highest_fix, AdvisorySeverity, AuditResult, AuditView};
use crate::document::{
    current_pinned, kind_of_upgrade, law_kinds_of_upgrades, law_rewrite_keeps_operator,
    law_tier_target_fits, pinned, range_prefix, range_rest, split_prefix, DepEntry, DepView,
};
use crate::lsp::{
    CodeAction, CodeActionView, CompletionItem, CompletionItemView, Diagnostic,
    DiagnosticSeverity, DiagnosticView, Hover, HoverView, InlayHint, InlayHintView, TextEdit,
    TextEditView, Url,
};
use crate::registry::{CachedPackage, PackageStatus, PackageView};
use crate::semver::{
    chars_lt, optional_text, reads_back, sorted_newest_first, version_lt, version_text, Version,
    VersionView,
};
use crate::settings::{Settings, SettingsView};
use crate::survey::{Job, Reply, ReplyView, Step, StepView};
use crate::text::{
    decimal, law_decimal_stands_for_its_number, law_padding_keeps_the_number, lemma_padded_order,
    padded_string, str_eq, value_of, zero_padded,
};
use crate::views::actions::{
    law_each_tier_is_offered, law_pages_are_opened, law_safe_version_is_offered, open_offer,
    open_url_action, rewrite, rewritten, safe_offer, safe_upgrade_action_from, upgrade_offers,
    visible_offers, visible_upgrade_actions, writes_version,
};
use crate::views::diagnostics::{
    advisory, advisory_remark, invalid_semver, invalid_semver_remark, not_found, not_found_remark,
    outdated, outdated_remark,
};
use crate::views::hover::{changelog, changelog_of, markdown, render_for};
use crate::views::inlay::{
    advisory_badge, audit_tooltip, badge_text, label_parts, tooltip_text, upgrade_label,
    upgrade_text,
};
use crate::views::util::{
    behind, distinct_texts, has_prefix, hidden, hint_anchor, ignored, is_ignored, is_upgradable,
    law_distinct_texts, law_smallest_step_keeps_the_text, law_targets_of_the_tiers, law_upgradable,
    newer_target, newer_targets, pick_newer_target, upgradable, version_ignored, visible,
};

verus! {

// ---- What is known of a dependency ----

/// What is known of a package, with the advisories for the version `current`
/// where they are wanted; nothing where the registry does not know the package
/// or did not answer. That the database did not answer is no hindrance.
pub open spec fn dep_facts(
    name: Seq<char>,
    current: Option<VersionView>,
    want_audit: bool,
    package: ReplyView<PackageView>,
    audit: ReplyView<AuditView>,
) -> StepView<Option<(PackageView, Option<AuditView>)>> {
    match package {
        ReplyView::Unasked => StepView::FetchPackage(name),
        ReplyView::Failed => StepView::Done(None),
        ReplyView::Got(p) => if p.status != PackageStatus::Found {
            StepView::Done(None)
        } else {
            match current {
                Some(c) if want_audit => match audit {
                    ReplyView::Unasked => StepView::FetchAudit(name, c),
                    ReplyView::Failed => StepView::Done(Some((p, None))),
                    ReplyView::Got(a) => StepView::Done(Some((p, Some(a)))),
                },
                _ => StepView::Done(Some((p, None))),
            }
        },
    }
}

/// What is known of a package, with the advisories for the version `current`
/// where they are wanted.
pub fn fetch_dep<'a>(
    name: &str,
    current: &Option<Version>,
    want_audit: bool,
    package: &'a Reply<CachedPackage>,
    audit: &'a Reply<AuditResult>,
) -> (r: Step<Option<(&'a CachedPackage, Option<&'a AuditResult>)>>)
    ensures
        r.deep_view() == dep_facts(
            name@,
            current.deep_view(),
            want_audit,
            package.deep_view(),
            audit.deep_view(),
        ),
{
    match package {
        Reply::Unasked => Step::FetchPackage(name.to_owned()),
        Reply::Failed => Step::Done(None),
        Reply::Got(p) => {
            if p.status != PackageStatus::Found {
                return Step::Done(None);
            }
            if let Some(c) = current {
                if want_audit {
                    return match audit {
                        Reply::Unasked => Step::FetchAudit(name.to_owned(), c.clone()),
                        Reply::Failed => Step::Done(Some((p, None))),
                        Reply::Got(a) => Step::Done(Some((p, Some(a)))),
                    };
                }
            }
            Step::Done(Some((p, None)))
        },
    }
}

// ---- Diagnostics ----

/// Looks for what is wrong with a dependency.
pub struct DiagnosticsJob;

/// The remarks on some advisories.
pub open spec fn advisory_remarks(dep: DepView, audit: AuditView) -> Seq<DiagnosticView> {
    audit.advisories.map_values(|a| advisory_remark(dep, a))
}

/// The remarks on some advisories.
fn advisory_diagnostics(dep: &DepEntry, audit: &AuditResult) -> (r: Vec<Diagnostic>)
    ensures
        r.deep_view() == advisory_remarks(dep.deep_view(), audit.deep_view()),
{
    let mut out: Vec<Diagnostic> = Vec::new();
    let mut i: usize = 0;
    while i < audit.advisories.len()
        invariant
            i <= audit.advisories.len(),
            out.len() == i,
            forall|j: int|
                0 <= j < i ==> (#[trigger] out@[j]).deep_view() == advisory_remark(
                    dep.deep_view(),
                    audit.advisories@[j].deep_view(),
                ),
        decreases audit.advisories.len() - i,
    {
        out.push(advisory(dep, &audit.advisories[i]));
        i = i + 1;
    }
    assert(out.deep_view() =~= advisory_remarks(dep.deep_view(), audit.deep_view()));
    out
}

/// The remark that a dependency is outdated, if it is.
pub open spec fn outdated_remarks(
    settings: SettingsView,
    dep: DepView,
    current: VersionView,
    pkg: PackageView,
) -> Seq<DiagnosticView> {
    if upgradable(settings, dep.name, pkg.versions, current) {
        seq![outdated_remark(dep)]
    } else {
        seq![]
    }
}

/// What is wrong with a dependency: its version string is no range, or else
/// the registry does not know its package, or else there are advisories for
/// the version `current` that it pins, or it can be upgraded. Of one that is
/// left alone nothing is said.
pub open spec fn remarks(
    left_alone: bool,
    settings: SettingsView,
    dep: DepView,
    current: Option<VersionView>,
    package: ReplyView<PackageView>,
    audit: ReplyView<AuditView>,
) -> StepView<Seq<DiagnosticView>> {
    if left_alone {
        StepView::Done(seq![])
    } else if dep.range is None {
        StepView::Done(seq![invalid_semver_remark(dep)])
    } else {
        match package {
            ReplyView::Unasked => StepView::FetchPackage(dep.name),
            ReplyView::Failed => StepView::Done(seq![]),
            ReplyView::Got(p) => if p.status == PackageStatus::NotFound {
                StepView::Done(seq![not_found_remark(dep)])
            } else {
                match current {
                    Some(c) => if settings.audit {
                        match audit {
                            ReplyView::Unasked => StepView::FetchAudit(dep.name, c),
                            ReplyView::Failed => StepView::Done(
                                outdated_remarks(settings, dep, c, p),
                            ),
                            ReplyView::Got(a) => StepView::Done(
                                advisory_remarks(dep, a) + outdated_remarks(settings, dep, c, p),
                            ),
                        }
                    } else {
                        StepView::Done(outdated_remarks(settings, dep, c, p))
                    },
                    None => StepView::Done(seq![]),
                }
            },
        }
    }
}

/// No remarks.
fn no_diagnostics() -> (r: Vec<Diagnostic>)
    ensures
        r.deep_view() == Seq::<DiagnosticView>::empty(),
{
    let none: Vec<Diagnostic> = Vec::new();
    assert(none.deep_view() =~= seq![]);
    none
}

/// One remark.
fn one_diagnostic(d: Diagnostic) -> (r: Vec<Diagnostic>)
    ensures
        r.deep_view() == seq![d.deep_view()],
{
    let mut one: Vec<Diagnostic> = Vec::new();
    one.push(d);
    assert(one.deep_view() =~= seq![d.deep_view()]);
    one
}

/// Adds the remark that a dependency is outdated, if it is.
fn push_outdated(
    out: &mut Vec<Diagnostic>,
    settings: &Settings,
    dep: &DepEntry,
    current: &Version,
    pkg: &CachedPackage,
)
    ensures
        final(out).deep_view() == old(out).deep_view() + outdated_remarks(
            settings.deep_view(),
            dep.deep_view(),
            current.deep_view(),
            pkg.deep_view(),
        ),
{
    let ghost before = out.deep_view();
    if is_upgradable(settings, dep.name.as_str(), &pkg.versions, current) {
        out.push(outdated(dep));
    }
    assert(out.deep_view() =~= before + outdated_remarks(
        settings.deep_view(),
        dep.deep_view(),
        current.deep_view(),
        pkg.deep_view(),
    ));
}

/// What is wrong with a dependency that pins `current`.
pub fn dep_diagnostics(
    left_alone: bool,
    settings: &Settings,
    dep: &DepEntry,
    current: &Option<Version>,
    package: &Reply<CachedPackage>,
    audit: &Reply<AuditResult>,
) -> (r: Step<Vec<Diagnostic>>)
    ensures
        r.deep_view() == remarks(
            left_alone,
            settings.deep_view(),
            dep.deep_view(),
            current.deep_view(),
            package.deep_view(),
            audit.deep_view(),
        ),
{
    if left_alone {
        return Step::Done(no_diagnostics());
    }
    if dep.range.is_none() {
        return Step::Done(one_diagnostic(invalid_semver(dep)));
    }
    match package {
        Reply::Unasked => Step::FetchPackage(dep.name.clone()),
        Reply::Failed => Step::Done(no_diagnostics()),
        Reply::Got(p) => {
            if p.status == PackageStatus::NotFound {
                return Step::Done(one_diagnostic(not_found(dep)));
            }
            let c = match current {
                Some(c) => c,
                None => {
                    return Step::Done(no_diagnostics());
                },
            };
            let mut out = no_diagnostics();
            if settings.audit {
                match audit {
                    Reply::Unasked => {
                        return Step::FetchAudit(dep.name.clone(), c.clone());
                    },
                    Reply::Failed => {},
                    Reply::Got(a) => {
                        out = advisory_diagnostics(dep, a);
                    },
                }
            }
            let ghost before = out.deep_view();
            push_outdated(&mut out, settings, dep, c, p);
            assert(before.len() == 0 ==> out.deep_view() =~= outdated_remarks(
                settings.deep_view(),
                dep.deep_view(),
                c.deep_view(),
                p.deep_view(),
            ));
            Step::Done(out)
        },
    }
}

impl Job for DiagnosticsJob {
    type Item = Diagnostic;

    open spec fn findings(
        &self,
        settings: SettingsView,
        dep: DepView,
        package: ReplyView<PackageView>,
        audit: ReplyView<AuditView>,
    ) -> StepView<Seq<DiagnosticView>> {
        remarks(
            ignored(settings, dep.name),
            settings,
            dep,
            pinned(dep.range_str),
            package,
            audit,
        )
    }

    fn examine(
        &self,
        settings: &Settings,
        dep: &DepEntry,
        package: &Reply<CachedPackage>,
        audit: &Reply<AuditResult>,
    ) -> (r: Step<Vec<Diagnostic>>) {
        dep_diagnostics(
            is_ignored(dep.name.as_str(), settings),
            settings,
            dep,
            &current_pinned(dep.range_str.as_str()),
            package,
            audit,
        )
    }

    proof fn asks_in_order(
        &self,
        settings: SettingsView,
        dep: DepView,
        package: ReplyView<PackageView>,
        audit: ReplyView<AuditView>,
    ) {
    }
}

// ---- Hints ----

/// Looks for what to show behind the version string of a dependency.
pub struct HintsJob;

/// The hint for a dependency that pins `current`: what it can be upgraded to,
/// and the badge for the advisories. There is none where both are missing.
pub open spec fn hint_of(
    settings: SettingsView,
    dep: DepView,
    current: Option<VersionView>,
    pkg: PackageView,
    audit: Option<AuditView>,
) -> Option<InlayHintView> {
    let label = match current {
        Some(c) => upgrade_text(settings, dep.name, pkg.versions, c),
        None => None,
    };
    let badge = match audit {
        Some(a) => badge_text(a.advisories),
        None => None,
    };
    let body = match (label, badge) {
        (Some(l), Some(b)) => Some(l + b),
        (Some(l), None) => Some(l),
        (None, b) => b,
    };
    match body {
        Some(text) => Some(
            InlayHintView {
                position: behind(dep.value_range.end),
                label: text,
                tooltip: tooltip_text(dep.name, audit),
            },
        ),
        None => None,
    }
}

/// An optional value as a sequence.
pub open spec fn at_most_one<V>(v: Option<V>) -> Seq<V> {
    match v {
        Some(x) => seq![x],
        None => seq![],
    }
}

/// An optional value as a list.
fn to_list<T: DeepView>(v: Option<T>) -> (r: Vec<T>)
    ensures
        r.deep_view() == at_most_one(v.deep_view()),
{
    let mut out: Vec<T> = Vec::new();
    if let Some(x) = v {
        out.push(x);
    }
    assert(out.deep_view() =~= at_most_one(v.deep_view()));
    out
}

/// The hint for a dependency that pins `current`.
pub fn make_hint(
    settings: &Settings,
    dep: &DepEntry,
    current: &Option<Version>,
    pkg: &CachedPackage,
    audit: Option<&AuditResult>,
) -> (r: Option<InlayHint>)
    ensures
        r.deep_view() == hint_of(
            settings.deep_view(),
            dep.deep_view(),
            current.deep_view(),
            pkg.deep_view(),
            audit.deep_view(),
        ),
{
    let label = match current {
        Some(c) => upgrade_label(dep, pkg, c, settings),
        None => None,
    };
    let badge = match audit {
        Some(a) => advisory_badge(a),
        None => None,
    };
    let body = match (label, badge) {
        (Some(l), Some(b)) => {
            let mut text = l;
            text.append(b.as_str());
            text
        },
        (Some(l), None) => l,
        (None, Some(b)) => b,
        (None, None) => {
            return None;
        },
    };
    Some(
        InlayHint {
            position: hint_anchor(dep.value_range.end),
            label: body,
            tooltip: audit_tooltip(dep.name.as_str(), audit),
        },
    )
}

/// The hint for a dependency that pins `current`; none for one that is left
/// alone or whose version string is no range.
pub open spec fn hints(
    left_alone: bool,
    settings: SettingsView,
    dep: DepView,
    current: Option<VersionView>,
    package: ReplyView<PackageView>,
    audit: ReplyView<AuditView>,
) -> StepView<Seq<InlayHintView>> {
    if left_alone || dep.range is None {
        StepView::Done(seq![])
    } else {
        match dep_facts(dep.name, current, settings.audit, package, audit) {
            StepView::FetchPackage(name) => StepView::FetchPackage(name),
            StepView::FetchAudit(name, v) => StepView::FetchAudit(name, v),
            StepView::Done(None) => StepView::Done(seq![]),
            StepView::Done(Some((p, a))) => StepView::Done(
                at_most_one(hint_of(settings, dep, current, p, a)),
            ),
        }
    }
}

/// The hint for a dependency that pins `current`.
pub fn dep_inlay_hint(
    left_alone: bool,
    settings: &Settings,
    dep: &DepEntry,
    current: &Option<Version>,
    package: &Reply<CachedPackage>,
    audit: &Reply<AuditResult>,
) -> (r: Step<Vec<InlayHint>>)
    ensures
        r.deep_view() == hints(
            left_alone,
            settings.deep_view(),
            dep.deep_view(),
            current.deep_view(),
            package.deep_view(),
            audit.deep_view(),
        ),
{
    if left_alone || dep.range.is_none() {
        return Step::Done(to_list(None));
    }
    match fetch_dep(dep.name.as_str(), current, settings.audit, package, audit) {
        Step::FetchPackage(name) => Step::FetchPackage(name),
        Step::FetchAudit(name, v) => Step::FetchAudit(name, v),
        Step::Done(None) => Step::Done(to_list(None)),
        Step::Done(Some((p, a))) => Step::Done(to_list(make_hint(settings, dep, current, p, a))),
    }
}

impl Job for HintsJob {
    type Item = InlayHint;

    open spec fn findings(
        &self,
        settings: SettingsView,
        dep: DepView,
        package: ReplyView<PackageView>,
        audit: ReplyView<AuditView>,
    ) -> StepView<Seq<InlayHintView>> {
        hints(
            ignored(settings, dep.name),
            settings,
            dep,
            pinned(dep.range_str),
            package,
            audit,
        )
    }

    fn examine(
        &self,
        settings: &Settings,
        dep: &DepEntry,
        package: &Reply<CachedPackage>,
        audit: &Reply<AuditResult>,
    ) -> (r: Step<Vec<InlayHint>>) {
        dep_inlay_hint(
            is_ignored(dep.name.as_str(), settings),
            settings,
            dep,
            &current_pinned(dep.range_str.as_str()),
            package,
            audit,
        )
    }

    proof fn asks_in_order(
        &self,
        settings: SettingsView,
        dep: DepView,
        package: ReplyView<PackageView>,
        audit: ReplyView<AuditView>,
    ) {
    }
}

// ---- Completions ----

/// Looks for the versions that a version string may be completed to. What is
/// found is a list of them, where the registry knows the package.
pub struct CompletionsJob;

/// How many versions are offered.
pub const COMPLETION_LIMIT: usize = 60;

/// The first of `versions` that begin with what was typed, as many as are
/// offered.
pub open spec fn completion_versions(versions: Seq<VersionView>, typed: Seq<char>) -> Seq<
    VersionView,
>
    decreases versions.len(),
{
    if versions.len() == 0 {
        seq![]
    } else {
        let rest = completion_versions(versions.drop_last(), typed);
        if rest.len() < COMPLETION_LIMIT && typed.is_prefix_of(version_text(versions.last())) {
            rest.push(versions.last())
        } else {
            rest
        }
    }
}

/// The offer of a version, at the place `i` among the offers.
pub open spec fn completion_item(
    dep: DepView,
    latest: Option<VersionView>,
    version: VersionView,
    i: nat,
) -> CompletionItemView {
    let text = version_text(version);
    CompletionItemView {
        label: text,
        description: if optional_text(latest) == Some(text) {
            Some("latest"@)
        } else {
            None
        },
        sort_text: zero_padded(decimal(i), 4),
        filter_text: text,
        text_edit: TextEditView { range: dep.value_range, new_text: rewritten(dep, text) },
    }
}

/// The offers of some versions, in their order.
pub open spec fn completion_items(
    dep: DepView,
    latest: Option<VersionView>,
    versions: Seq<VersionView>,
) -> Seq<CompletionItemView> {
    Seq::new(versions.len(), |i: int| completion_item(dep, latest, versions[i], i as nat))
}

/// What the version string of a dependency may be completed to.
pub open spec fn completions_of(dep: DepView, pkg: PackageView) -> Seq<CompletionItemView> {
    completion_items(
        dep,
        pkg.latest,
        completion_versions(pkg.versions, range_rest(dep.range_str)),
    )
}

/// The offer of a version, at the place `i` among the offers.
fn offer_version(dep: &DepEntry, latest: &Option<Version>, version: &Version, i: usize) -> (r:
    CompletionItem)
    ensures
        r.deep_view() == completion_item(
            dep.deep_view(),
            latest.deep_view(),
            version.deep_view(),
            i as nat,
        ),
{
    let text = version.to_string();
    let is_latest: bool = match latest {
        Some(l) => str_eq(l.to_string().as_str(), text.as_str()),
        None => false,
    };
    CompletionItem {
        label: text.clone(),
        description: if is_latest {
            Some("latest".to_owned())
        } else {
            None
        },
        sort_text: padded_string(i as u64),
        filter_text: text.clone(),
        text_edit: TextEdit { range: dep.value_range, new_text: rewrite(dep, text.as_str()) },
    }
}

/// What the version string of a dependency may be completed to: the newest
/// versions that begin with what stands behind its operator.
pub fn list_completions(dep: &DepEntry, pkg: &CachedPackage) -> (r: Vec<CompletionItem>)
    ensures
        r.deep_view() == completions_of(dep.deep_view(), pkg.deep_view()),
{
    let (_, typed) = split_prefix(dep.range_str.as_str());
    let ghost all = pkg.versions.deep_view();
    let ghost d = dep.deep_view();
    let ghost l = pkg.latest.deep_view();
    let mut out: Vec<CompletionItem> = Vec::new();
    let mut i: usize = 0;
    assert(out.deep_view() =~= completion_items(d, l, completion_versions(all.take(0), typed@)));
    while i < pkg.versions.len()
        invariant
            i <= pkg.versions.len(),
            all == pkg.versions.deep_view(),
            d == dep.deep_view(),
            l == pkg.latest.deep_view(),
            out.deep_view() == completion_items(
                d,
                l,
                completion_versions(all.take(i as int), typed@),
            ),
        decreases pkg.versions.len() - i,
    {
        assert(all.take(i + 1).drop_last() =~= all.take(i as int));
        let ghost before = completion_versions(all.take(i as int), typed@);
        let ghost v = all[i as int];
        assert(v == pkg.versions@[i as int].deep_view());
        assert(out.deep_view().len() == before.len());
        if out.len() < COMPLETION_LIMIT {
            if has_prefix(pkg.versions[i].to_string().as_str(), typed) {
                let ghost items = out.deep_view();
                let item = offer_version(dep, &pkg.latest, &pkg.versions[i], out.len());
                let ghost view = item.deep_view();
                out.push(item);
                assert(out.deep_view() =~= items.push(view));
                assert(items.push(view) =~= completion_items(d, l, before.push(v)));
            }
        }
        i = i + 1;
    }
    assert(all.take(all.len() as int) =~= all);
    out
}

/// What the version string of a dependency may be completed to, where the
/// registry knows its package.
pub open spec fn completions(dep: DepView, package: ReplyView<PackageView>) -> StepView<
    Seq<Seq<CompletionItemView>>,
> {
    match package {
        ReplyView::Unasked => StepView::FetchPackage(dep.name),
        ReplyView::Failed => StepView::Done(seq![]),
        ReplyView::Got(p) => if p.status != PackageStatus::Found {
            StepView::Done(seq![])
        } else {
            StepView::Done(seq![completions_of(dep, p)])
        },
    }
}

impl Job for CompletionsJob {
    type Item = Vec<CompletionItem>;

    open spec fn findings(
        &self,
        settings: SettingsView,
        dep: DepView,
        package: ReplyView<PackageView>,
        audit: ReplyView<AuditView>,
    ) -> StepView<Seq<Seq<CompletionItemView>>> {
        completions(dep, package)
    }

    fn examine(
        &self,
        settings: &Settings,
        dep: &DepEntry,
        package: &Reply<CachedPackage>,
        audit: &Reply<AuditResult>,
    ) -> (r: Step<Vec<Vec<CompletionItem>>>) {
        match package {
            Reply::Unasked => Step::FetchPackage(dep.name.clone()),
            Reply::Failed => Step::Done(to_list(None)),
            Reply::Got(p) => if p.status != PackageStatus::Found {
                Step::Done(to_list(None))
            } else {
                Step::Done(to_list(Some(list_completions(dep, p))))
            },
        }
    }

    proof fn asks_in_order(
        &self,
        settings: SettingsView,
        dep: DepView,
        package: ReplyView<PackageView>,
        audit: ReplyView<AuditView>,
    ) {
    }
}

// ---- Hover ----

/// Looks for what to say about a dependency.
pub struct HoverJob;

/// What is said about a dependency that pins `current`, where the registry
/// knows its package.
pub open spec fn hovers(
    want_audit: bool,
    dep: DepView,
    current: Option<VersionView>,
    package: ReplyView<PackageView>,
    audit: ReplyView<AuditView>,
) -> StepView<Seq<HoverView>> {
    match dep_facts(dep.name, current, want_audit, package, audit) {
        StepView::FetchPackage(name) => StepView::FetchPackage(name),
        StepView::FetchAudit(name, v) => StepView::FetchAudit(name, v),
        StepView::Done(None) => StepView::Done(seq![]),
        StepView::Done(Some((p, a))) => StepView::Done(
            seq![
                HoverView {
                    value: markdown(dep.name, p, a, current),
                    range: dep.value_range,
                },
            ],
        ),
    }
}

/// What is said about a dependency that pins `current`.
pub fn dep_hover(
    want_audit: bool,
    dep: &DepEntry,
    current: &Option<Version>,
    package: &Reply<CachedPackage>,
    audit: &Reply<AuditResult>,
) -> (r: Step<Vec<Hover>>)
    ensures
        r.deep_view() == hovers(
            want_audit,
            dep.deep_view(),
            current.deep_view(),
            package.deep_view(),
            audit.deep_view(),
        ),
{
    match fetch_dep(dep.name.as_str(), current, want_audit, package, audit) {
        Step::FetchPackage(name) => Step::FetchPackage(name),
        Step::FetchAudit(name, v) => Step::FetchAudit(name, v),
        Step::Done(None) => Step::Done(to_list(None)),
        Step::Done(Some((p, a))) => Step::Done(
            to_list(
                Some(
                    Hover {
                        value: render_for(dep.name.as_str(), p, a, current),
                        range: dep.value_range,
                    },
                ),
            ),
        ),
    }
}

impl Job for HoverJob {
    type Item = Hover;

    open spec fn findings(
        &self,
        settings: SettingsView,
        dep: DepView,
        package: ReplyView<PackageView>,
        audit: ReplyView<AuditView>,
    ) -> StepView<Seq<HoverView>> {
        hovers(settings.audit, dep, pinned(dep.range_str), package, audit)
    }

    fn examine(
        &self,
        settings: &Settings,
        dep: &DepEntry,
        package: &Reply<CachedPackage>,
        audit: &Reply<AuditResult>,
    ) -> (r: Step<Vec<Hover>>) {
        dep_hover(
            settings.audit,
            dep,
            &current_pinned(dep.range_str.as_str()),
            package,
            audit,
        )
    }

    proof fn asks_in_order(
        &self,
        settings: SettingsView,
        dep: DepView,
        package: ReplyView<PackageView>,
        audit: ReplyView<AuditView>,
    ) {
    }
}

// ---- Code actions ----

/// Looks for what to offer for a dependency of the document at `uri`.
pub struct ActionsJob {
    pub uri: Url,
}

/// The offer to open an address, if there is one.
pub open spec fn open_offers(title: Seq<char>, url: Option<Seq<char>>) -> Seq<CodeActionView> {
    match url {
        Some(u) => seq![open_offer(title, u)],
        None => seq![],
    }
}

/// What is offered for a dependency that pins `current`: the upgrades, the
/// version that resolves all advisories, and the pages about the package. For
/// one that is left alone only the pages are offered. Nothing is offered where
/// the registry names no latest version.
pub open spec fn offers_of(
    uri: Seq<char>,
    left_alone: bool,
    settings: SettingsView,
    dep: DepView,
    current: Option<VersionView>,
    pkg: PackageView,
    audit: Option<AuditView>,
) -> Seq<CodeActionView> {
    match pkg.latest {
        Some(latest) => (if left_alone {
            seq![]
        } else {
            fixes_of(uri, settings, dep, current, pkg, audit, latest)
        }) + open_offers("Open homepage"@, pkg.homepage) + open_offers(
            "Open changelog"@,
            changelog_of(pkg),
        ),
        None => seq![],
    }
}

/// The offers to change the version of a dependency: the upgrades, as far as
/// they are not to be hidden, and the version that resolves all advisories.
pub open spec fn fixes_of(
    uri: Seq<char>,
    settings: SettingsView,
    dep: DepView,
    current: Option<VersionView>,
    pkg: PackageView,
    audit: Option<AuditView>,
    latest: VersionView,
) -> Seq<CodeActionView> {
    visible_offers(settings, uri, dep, current, pkg.versions, latest) + at_most_one(
        match audit {
            Some(a) => safe_offer(uri, dep, current, a),
            None => None,
        },
    )
}

/// The offers to change the version of a dependency that pins `current`.
fn list_fixes(
    uri: &Url,
    settings: &Settings,
    dep: &DepEntry,
    current: &Option<Version>,
    pkg: &CachedPackage,
    audit: Option<&AuditResult>,
    latest: &Version,
) -> (r: Vec<CodeAction>)
    ensures
        r.deep_view() == fixes_of(
            uri.deep_view().text,
            settings.deep_view(),
            dep.deep_view(),
            current.deep_view(),
            pkg.deep_view(),
            audit.deep_view(),
            latest.deep_view(),
        ),
{
    let mut out = visible_upgrade_actions(settings, uri, dep, current, &pkg.versions, latest);
    let safe = match audit {
        Some(a) => safe_upgrade_action_from(uri, dep, current, a),
        None => None,
    };
    let ghost before = out.deep_view();
    let ghost safe_view = safe.deep_view();
    if let Some(action) = safe {
        out.push(action);
    }
    assert(out.deep_view() =~= before + at_most_one(safe_view));
    out
}

/// Adds the offer to open an address, if there is one.
fn push_open(out: &mut Vec<CodeAction>, title: &str, url: &Option<String>)
    ensures
        final(out).deep_view() == old(out).deep_view() + open_offers(title@, url.deep_view()),
{
    let ghost before = out.deep_view();
    if let Some(u) = url {
        out.push(open_url_action(title, u.clone()));
    }
    assert(out.deep_view() =~= before + open_offers(title@, url.deep_view()));
}

/// What is offered for a dependency that pins `current`.
pub fn list_actions(
    uri: &Url,
    left_alone: bool,
    settings: &Settings,
    dep: &DepEntry,
    current: &Option<Version>,
    pkg: &CachedPackage,
    audit: Option<&AuditResult>,
) -> (r: Vec<CodeAction>)
    ensures
        r.deep_view() == offers_of(
            uri.deep_view().text,
            left_alone,
            settings.deep_view(),
            dep.deep_view(),
            current.deep_view(),
            pkg.deep_view(),
            audit.deep_view(),
        ),
{
    let latest = match &pkg.latest {
        Some(v) => v,
        None => {
            return to_list(None);
        },
    };
    let mut out = if left_alone {
        to_list(None)
    } else {
        list_fixes(uri, settings, dep, current, pkg, audit, latest)
    };
    push_open(&mut out, "Open homepage", &pkg.homepage);
    push_open(&mut out, "Open changelog", &changelog(pkg));
    out
}

/// What is offered for a dependency that pins `current`, where the registry
/// knows its package. The advisories for one that is left alone are not asked
/// for.
pub open spec fn offers(
    uri: Seq<char>,
    left_alone: bool,
    settings: SettingsView,
    dep: DepView,
    current: Option<VersionView>,
    package: ReplyView<PackageView>,
    audit: ReplyView<AuditView>,
) -> StepView<Seq<CodeActionView>> {
    match dep_facts(dep.name, current, settings.audit && !left_alone, package, audit) {
        StepView::FetchPackage(name) => StepView::FetchPackage(name),
        StepView::FetchAudit(name, v) => StepView::FetchAudit(name, v),
        StepView::Done(None) => StepView::Done(seq![]),
        StepView::Done(Some((p, a))) => StepView::Done(
            offers_of(uri, left_alone, settings, dep, current, p, a),
        ),
    }
}

/// What is offered for a dependency that pins `current`.
pub fn dep_actions(
    uri: &Url,
    left_alone: bool,
    settings: &Settings,
    dep: &DepEntry,
    current: &Option<Version>,
    package: &Reply<CachedPackage>,
    audit: &Reply<AuditResult>,
) -> (r: Step<Vec<CodeAction>>)
    ensures
        r.deep_view() == offers(
            uri.deep_view().text,
            left_alone,
            settings.deep_view(),
            dep.deep_view(),
            current.deep_view(),
            package.deep_view(),
            audit.deep_view(),
        ),
{
    match fetch_dep(
        dep.name.as_str(),
        current,
        settings.audit && !left_alone,
        package,
        audit,
    ) {
        Step::FetchPackage(name) => Step::FetchPackage(name),
        Step::FetchAudit(name, v) => Step::FetchAudit(name, v),
        Step::Done(None) => Step::Done(to_list(None)),
        Step::Done(Some((p, a))) => Step::Done(
            list_actions(uri, left_alone, settings, dep, current, p, a),
        ),
    }
}

impl Job for ActionsJob {
    type Item = CodeAction;

    open spec fn findings(
        &self,
        settings: SettingsView,
        dep: DepView,
        package: ReplyView<PackageView>,
        audit: ReplyView<AuditView>,
    ) -> StepView<Seq<CodeActionView>> {
        offers(
            self.uri.deep_view().text,
            ignored(settings, dep.name),
            settings,
            dep,
            pinned(dep.range_str),
            package,
            audit,
        )
    }

    fn examine(
        &self,
        settings: &Settings,
        dep: &DepEntry,
        package: &Reply<CachedPackage>,
        audit: &Reply<AuditResult>,
    ) -> (r: Step<Vec<CodeAction>>) {
        dep_actions(
            &self.uri,
            is_ignored(dep.name.as_str(), settings),
            settings,
            dep,
            &current_pinned(dep.range_str.as_str()),
            package,
            audit,
        )
    }

    proof fn asks_in_order(
        &self,
        settings: SettingsView,
        dep: DepView,
        package: ReplyView<PackageView>,
        audit: ReplyView<AuditView>,
    ) {
    }
}

// ---- Updates of all dependencies ----

/// Looks for the edit that updates a dependency within a tier.
pub struct EditsJob {
    pub tier: String,
}

/// The edit that writes the target of an upgrade in place of the version that
/// a dependency pins: there is one where it pins a version, the target is
/// newer, and it is not to be hidden.
pub open spec fn edit_of(
    settings: SettingsView,
    tier: Seq<char>,
    dep: DepView,
    current: Option<VersionView>,
    pkg: PackageView,
) -> Option<TextEditView> {
    match current {
        Some(c) => match newer_target(pkg.versions, c, tier) {
            Some(target) => if hidden(settings, dep.name, target) {
                None
            } else {
                Some(
                    TextEditView {
                        range: dep.value_range,
                        new_text: rewritten(dep, version_text(target)),
                    },
                )
            },
            None => None,
        },
        None => None,
    }
}

/// The edit that updates a dependency that pins `current` within a tier.
pub fn make_edit(
    settings: &Settings,
    tier: &str,
    dep: &DepEntry,
    current: &Option<Version>,
    pkg: &CachedPackage,
) -> (r: Option<TextEdit>)
    ensures
        r.deep_view() == edit_of(
            settings.deep_view(),
            tier@,
            dep.deep_view(),
            current.deep_view(),
            pkg.deep_view(),
        ),
{
    match current {
        Some(c) => match pick_newer_target(&pkg.versions, c, tier) {
            Some(target) => if version_ignored(dep.name.as_str(), &target, settings) {
                None
            } else {
                Some(
                    TextEdit {
                        range: dep.value_range,
                        new_text: rewrite(dep, target.to_string().as_str()),
                    },
                )
            },
            None => None,
        },
        None => None,
    }
}

/// The edit that updates a dependency that pins `current` within a tier; none
/// for one that is left alone, whose version string is no range, or whose
/// package the registry does not know.
pub open spec fn edits(
    left_alone: bool,
    settings: SettingsView,
    tier: Seq<char>,
    dep: DepView,
    current: Option<VersionView>,
    package: ReplyView<PackageView>,
) -> StepView<Seq<TextEditView>> {
    if left_alone || dep.range is None {
        StepView::Done(seq![])
    } else {
        match package {
            ReplyView::Unasked => StepView::FetchPackage(dep.name),
            ReplyView::Failed => StepView::Done(seq![]),
            ReplyView::Got(p) => if p.status != PackageStatus::Found {
                StepView::Done(seq![])
            } else {
                StepView::Done(at_most_one(edit_of(settings, tier, dep, current, p)))
            },
        }
    }
}

/// The edit that updates a dependency that pins `current` within a tier.
pub fn tier_edit(
    left_alone: bool,
    settings: &Settings,
    tier: &str,
    dep: &DepEntry,
    current: &Option<Version>,
    package: &Reply<CachedPackage>,
) -> (r: Step<Vec<TextEdit>>)
    ensures
        r.deep_view() == edits(
            left_alone,
            settings.deep_view(),
            tier@,
            dep.deep_view(),
            current.deep_view(),
            package.deep_view(),
        ),
{
    if left_alone || dep.range.is_none() {
        return Step::Done(to_list(None));
    }
    match package {
        Reply::Unasked => Step::FetchPackage(dep.name.clone()),
        Reply::Failed => Step::Done(to_list(None)),
        Reply::Got(p) => if p.status != PackageStatus::Found {
            Step::Done(to_list(None))
        } else {
            Step::Done(to_list(make_edit(settings, tier, dep, current, p)))
        },
    }
}

impl Job for EditsJob {
    type Item = TextEdit;

    open spec fn findings(
        &self,
        settings: SettingsView,
        dep: DepView,
        package: ReplyView<PackageView>,
        audit: ReplyView<AuditView>,
    ) -> StepView<Seq<TextEditView>> {
        edits(
            ignored(settings, dep.name),
            settings,
            self.tier@,
            dep,
            pinned(dep.range_str),
            package,
        )
    }

    fn examine(
        &self,
        settings: &Settings,
        dep: &DepEntry,
        package: &Reply<CachedPackage>,
        audit: &Reply<AuditResult>,
    ) -> (r: Step<Vec<TextEdit>>) {
        tier_edit(
            is_ignored(dep.name.as_str(), settings),
            settings,
            self.tier.as_str(),
            dep,
            &current_pinned(dep.range_str.as_str()),
            package,
        )
    }

    proof fn asks_in_order(
        &self,
        settings: SettingsView,
        dep: DepView,
        package: ReplyView<PackageView>,
        audit: ReplyView<AuditView>,
    ) {
    }
}

// ---- Laws ----

/// Of a package that is to be left alone nothing is remarked, nothing is shown
/// behind its version string, and updates of all dependencies pass it over;
/// nothing is asked about it for these. No offer for it changes the document,
/// and its advisories are not asked for.
pub proof fn law_ignored_packages_are_left_alone(
    settings: SettingsView,
    dep: DepView,
    package: ReplyView<PackageView>,
    audit: ReplyView<AuditView>,
    updates: EditsJob,
    actions: ActionsJob,
)
    requires
        ignored(settings, dep.name),
    ensures
        DiagnosticsJob.findings(settings, dep, package, audit) == StepView::Done(
            Seq::<DiagnosticView>::empty(),
        ),
        HintsJob.findings(settings, dep, package, audit) == StepView::Done(
            Seq::<InlayHintView>::empty(),
        ),
        updates.findings(settings, dep, package, audit) == StepView::Done(
            Seq::<TextEditView>::empty(),
        ),
        match actions.findings(settings, dep, package, audit) {
            StepView::FetchPackage(_) => true,
            StepView::FetchAudit(_, _) => false,
            StepView::Done(found) => forall|i: int|
                0 <= i < found.len() ==> (#[trigger] found[i]).edit is None,
        },
{
}

/// A version string that is no range is an error, whatever the registry says. A
/// package that the registry does not know is a warning. Of a package that it
/// knows, advisories are remarked, one remark for each, and then, in a hint,
/// that it can be upgraded; nothing else is a hint.
pub proof fn law_remarks_by_cause(
    settings: SettingsView,
    dep: DepView,
    package: ReplyView<PackageView>,
    audit: ReplyView<AuditView>,
    found: Seq<DiagnosticView>,
)
    requires
        !ignored(settings, dep.name),
        DiagnosticsJob.findings(settings, dep, package, audit) == StepView::Done(found),
    ensures
        dep.range is None ==> found.len() == 1 && found[0].severity == DiagnosticSeverity::Error
            && found[0].code == "invalid-semver"@,
        dep.range is Some ==> match package {
            ReplyView::Got(p) => match p.status {
                PackageStatus::NotFound => found.len() == 1 && found[0].severity
                    == DiagnosticSeverity::Warning && found[0].code == "not-found"@,
                PackageStatus::Found => match pinned(dep.range_str) {
                    Some(c) => {
                        let advisories = match audit {
                            ReplyView::Got(a) if settings.audit => a.advisories,
                            _ => seq![],
                        };
                        let n = advisories.len();
                        &&& forall|i: int|
                            0 <= i < n ==> (#[trigger] found[i]).code == advisories[i].id
                                && found[i].severity != DiagnosticSeverity::Hint
                        &&& if upgradable(settings, dep.name, p.versions, c) {
                            found.len() == n + 1 && found[n as int].severity
                                == DiagnosticSeverity::Hint
                        } else {
                            found.len() == n
                        }
                    },
                    None => found.len() == 0,
                },
            },
            _ => found.len() == 0,
        },
        forall|i: int| 0 <= i < found.len() ==> (#[trigger] found[i]).range == dep.value_range,
{
}

proof fn lemma_label_parts(texts: Seq<Option<Seq<char>>>, n: nat)
    requires
        n <= texts.len(),
    ensures
        label_parts(texts, n).len() > 0 <==> exists|i: int|
            0 <= i < n && (#[trigger] texts[i]) is Some,
    decreases n,
{
    if n > 0 {
        lemma_label_parts(texts, (n - 1) as nat);
        if texts[n - 1] is None {
            assert forall|i: int|
                0 <= i < n && (#[trigger] texts[i]) is Some implies i < n - 1 by {}
        }
    }
}

/// A label is shown exactly for a package that can be upgraded: one of the
/// tiers leads to a newer version that is not to be hidden.
pub proof fn law_outdated_packages_are_labelled(
    settings: SettingsView,
    name: Seq<char>,
    versions: Seq<VersionView>,
    current: VersionView,
)
    ensures
        upgrade_text(settings, name, versions, current) is Some <==> upgradable(
            settings,
            name,
            versions,
            current,
        ),
{
    let targets = newer_targets(versions, current);
    let shown = visible(targets, settings, name);
    let texts = distinct_texts(shown);
    law_distinct_texts(shown);
    lemma_label_parts(texts, texts.len());
    if upgradable(settings, name, versions, current) {
        let i = choose|i: int|
            0 <= i < 3 && (#[trigger] targets[i]) is Some && !hidden(settings, name, targets[i]->0);
        assert(shown[i] == targets[i]);
        assert(texts.contains(Some(version_text(shown[i]->0))));
    }
    if label_parts(texts, texts.len()).len() > 0 {
        let i = choose|i: int| 0 <= i < texts.len() && (#[trigger] texts[i]) is Some;
        assert(shown[i] is Some);
        assert(shown[i] == targets[i]);
    }
}

/// Whatever a tier leads to is one of the versions of the package, is no
/// pre-release, and is newer than the version that is pinned.
pub proof fn law_upgrades_lead_up(versions: Seq<VersionView>, current: VersionView, tier: Seq<char>)
    requires
        newer_target(versions, current, tier) is Some,
    ensures
        ({
            let target = newer_target(versions, current, tier)->0;
            &&& versions.contains(target)
            &&& target.pre_release.len() == 0
            &&& version_lt(current, target)
        }),
{
    law_tier_target_fits(versions, current, tier);
}

/// An update of all dependencies changes nothing of a dependency but the
/// version that it pins: it writes a newer version of the package, which is not
/// to be hidden, behind the operator.
pub proof fn law_update_changes_the_version_alone(
    settings: SettingsView,
    tier: Seq<char>,
    dep: DepView,
    current: Option<VersionView>,
    pkg: PackageView,
)
    requires
        edit_of(settings, tier, dep, current, pkg) is Some,
    ensures
        ({
            let edit = edit_of(settings, tier, dep, current, pkg)->0;
            &&& current is Some
            &&& edit.range == dep.value_range
            &&& range_prefix(edit.new_text) == range_prefix(dep.range_str)
            &&& exists|target: VersionView| #[trigger]
                pkg.versions.contains(target) && range_rest(edit.new_text) == version_text(target)
                    && target.pre_release.len() == 0 && version_lt(current->0, target) && !hidden(
                    settings,
                    dep.name,
                    target,
                )
        }),
{
    let c = current->0;
    let target = newer_target(pkg.versions, c, tier)->0;
    law_upgrades_lead_up(pkg.versions, c, tier);
    law_rewrite_keeps_operator(dep.range_str, target);
    assert(pkg.versions.contains(target));
}

/// A dependency that was updated pins the version that it was updated to, where
/// the versions of the package are read back from their own texts, as those
/// that the registry lists are.
pub proof fn law_updated_dependency_pins_the_target(
    settings: SettingsView,
    tier: Seq<char>,
    dep: DepView,
    current: Option<VersionView>,
    pkg: PackageView,
)
    requires
        edit_of(settings, tier, dep, current, pkg) is Some,
        forall|i: int|
            0 <= i < pkg.versions.len() ==> reads_back(#[trigger] pkg.versions[i]) && encode_utf8(
                version_text(pkg.versions[i]),
            ).len() <= 256,
    ensures
        ({
            let now = pinned((edit_of(settings, tier, dep, current, pkg)->0).new_text);
            &&& now is Some
            &&& pkg.versions.contains(now->0)
            &&& version_lt(current->0, now->0)
        }),
{
    let target = newer_target(pkg.versions, current->0, tier)->0;
    law_upgrades_lead_up(pkg.versions, current->0, tier);
    law_rewrite_keeps_operator(dep.range_str, target);
    let k = choose|k: int| 0 <= k < pkg.versions.len() && pkg.versions[k] == target;
    assert(reads_back(pkg.versions[k]));
}

/// An offer to change the document changes the version string of the
/// dependency and nothing else: it keeps the operator, and writes a version
/// that is newer than `current`, and not to be hidden unless it is `safe`.
pub open spec fn changes_version_alone(
    action: CodeActionView,
    uri: Seq<char>,
    settings: SettingsView,
    dep: DepView,
    current: Option<VersionView>,
    safe: Option<VersionView>,
) -> bool {
    match action.edit {
        Some(e) => {
            &&& e.uri == uri
            &&& e.edits.len() == 1
            &&& e.edits[0].range == dep.value_range
            &&& range_prefix(e.edits[0].new_text) == range_prefix(dep.range_str)
            &&& current is Some
            &&& exists|v: VersionView|
                range_rest(e.edits[0].new_text) == #[trigger] version_text(v) && version_lt(
                    current->0,
                    v,
                ) && (safe == Some(v) || !hidden(settings, dep.name, v))
        },
        None => true,
    }
}

proof fn lemma_upgrade_offers(
    uri: Seq<char>,
    settings: SettingsView,
    dep: DepView,
    current: VersionView,
    targets: Seq<Option<VersionView>>,
    preferred: Seq<char>,
    n: nat,
)
    requires
        n <= targets.len(),
        forall|i: int|
            0 <= i < targets.len() && (#[trigger] targets[i]) is Some ==> version_lt(
                current,
                targets[i]->0,
            ) && !hidden(settings, dep.name, targets[i]->0),
    ensures
        ({
            let all = upgrade_offers(uri, dep, distinct_texts(targets), preferred, n);
            forall|i: int|
                0 <= i < all.len() ==> changes_version_alone(
                    #[trigger] all[i],
                    uri,
                    settings,
                    dep,
                    Some(current),
                    None,
                )
        }),
    decreases n,
{
    if n > 0 {
        let texts = distinct_texts(targets);
        let before = upgrade_offers(uri, dep, texts, preferred, (n - 1) as nat);
        let all = upgrade_offers(uri, dep, texts, preferred, n);
        lemma_upgrade_offers(uri, settings, dep, current, targets, preferred, (n - 1) as nat);
        assert forall|i: int| 0 <= i < all.len() implies changes_version_alone(
            #[trigger] all[i],
            uri,
            settings,
            dep,
            Some(current),
            None,
        ) by {
            if i < before.len() {
                assert(all[i] == before[i]);
            } else {
                let target = targets[n - 1]->0;
                law_rewrite_keeps_operator(dep.range_str, target);
                assert(texts[n - 1] == Some(version_text(target)));
            }
        }
    }
}

/// Every offer for a dependency that changes the document changes the version
/// string of that dependency in that document and nothing else: it keeps the
/// operator, and writes a version that is newer than the one that is pinned. It
/// is not to be hidden, unless it is the one that resolves all advisories.
pub proof fn law_offers_change_the_version_alone(
    uri: Seq<char>,
    left_alone: bool,
    settings: SettingsView,
    dep: DepView,
    current: Option<VersionView>,
    pkg: PackageView,
    audit: Option<AuditView>,
)
    ensures
        forall|i: int|
            0 <= i < offers_of(uri, left_alone, settings, dep, current, pkg, audit).len()
                ==> changes_version_alone(
                #[trigger] offers_of(uri, left_alone, settings, dep, current, pkg, audit)[i],
                uri,
                settings,
                dep,
                current,
                match audit {
                    Some(a) => highest_fix(a.advisories),
                    None => None,
                },
            ),
{
    if let Some(c) = current {
        if let Some(latest) = pkg.latest {
            let targets = visible(newer_targets(pkg.versions, c), settings, dep.name);
            let preferred = kind_of_upgrade(current, latest);
            assert forall|i: int| 0 <= i < targets.len() && (
            #[trigger] targets[i]) is Some implies version_lt(c, targets[i]->0) && !hidden(
                settings,
                dep.name,
                targets[i]->0,
            ) by {
                assert(newer_targets(pkg.versions, c)[i] == targets[i]);
            }
            lemma_upgrade_offers(uri, settings, dep, c, targets, preferred, 3);
        }
        if let Some(a) = audit {
            if let Some(target) = highest_fix(a.advisories) {
                law_rewrite_keeps_operator(dep.range_str, target);
            }
        }
    }
}

proof fn lemma_completion_versions(versions: Seq<VersionView>, typed: Seq<char>)
    ensures
        completion_versions(versions, typed).len() <= COMPLETION_LIMIT,
        forall|i: int|
            0 <= i < completion_versions(versions, typed).len() ==> versions.contains(
                #[trigger] completion_versions(versions, typed)[i],
            ) && typed.is_prefix_of(version_text(completion_versions(versions, typed)[i])),
        completion_versions(versions, typed).len() < COMPLETION_LIMIT ==> forall|i: int|
            0 <= i < versions.len() && typed.is_prefix_of(version_text(#[trigger] versions[i]))
                ==> completion_versions(versions, typed).contains(versions[i]),
        sorted_newest_first(versions) ==> sorted_newest_first(completion_versions(versions, typed)),
    decreases versions.len(),
{
    if versions.len() > 0 {
        let rest = versions.drop_last();
        let last = versions.last();
        let before = completion_versions(rest, typed);
        let after = completion_versions(versions, typed);
        lemma_completion_versions(rest, typed);
        assert(versions[versions.len() - 1] == last);
        assert forall|i: int| 0 <= i < after.len() implies versions.contains(
            #[trigger] after[i],
        ) && typed.is_prefix_of(version_text(after[i])) by {
            if i < before.len() {
                assert(after[i] == before[i]);
                let k = choose|k: int| 0 <= k < rest.len() && rest[k] == before[i];
                assert(versions[k] == before[i]);
            }
        }
        if after.len() < COMPLETION_LIMIT {
            assert forall|i: int|
                0 <= i < versions.len() && typed.is_prefix_of(
                    version_text(#[trigger] versions[i]),
                ) implies after.contains(versions[i]) by {
                if i < rest.len() {
                    assert(rest[i] == versions[i]);
                    let k = choose|k: int| 0 <= k < before.len() && before[k] == versions[i];
                    assert(after[k] == versions[i]);
                } else {
                    assert(after[after.len() - 1] == versions[i]);
                }
            }
        }
        if sorted_newest_first(versions) {
            assert forall|i: int, j: int| 0 <= i < j < rest.len() implies !version_lt(
                #[trigger] rest[i],
                #[trigger] rest[j],
            ) by {
                assert(versions[i] == rest[i] && versions[j] == rest[j]);
            }
            assert forall|i: int, j: int| 0 <= i < j < after.len() implies !version_lt(
                #[trigger] after[i],
                #[trigger] after[j],
            ) by {
                assert(after[i] == before[i]);
                if j < before.len() {
                    assert(after[j] == before[j]);
                } else {
                    let k = choose|k: int| 0 <= k < rest.len() && rest[k] == before[i];
                    assert(versions[k] == before[i]);
                    assert(!version_lt(versions[k], versions[versions.len() - 1]));
                }
            }
        }
    }
}

/// A version string is completed to versions of the package that begin with
/// what was typed, and to no more than a fixed number of them; to all of them
/// where there are fewer. Each is written behind the operator, and the latest
/// one is marked.
pub proof fn law_completions_match(dep: DepView, pkg: PackageView)
    ensures
        completions_of(dep, pkg).len() <= COMPLETION_LIMIT,
        forall|i: int|
            0 <= i < completions_of(dep, pkg).len() ==> range_rest(dep.range_str).is_prefix_of(
                (#[trigger] completions_of(dep, pkg)[i]).label,
            ) && completions_of(dep, pkg)[i].text_edit.new_text == range_prefix(dep.range_str)
                + completions_of(dep, pkg)[i].label && (completions_of(dep, pkg)[i].description
                is Some <==> optional_text(pkg.latest) == Some(completions_of(dep, pkg)[i].label))
                && exists|v: VersionView| #[trigger]
                pkg.versions.contains(v) && version_text(v) == completions_of(dep, pkg)[i].label,
        completions_of(dep, pkg).len() < COMPLETION_LIMIT ==> forall|i: int|
            0 <= i < pkg.versions.len() && range_rest(dep.range_str).is_prefix_of(
                version_text(#[trigger] pkg.versions[i]),
            ) ==> exists|k: int|
                0 <= k < completions_of(dep, pkg).len() && (#[trigger] completions_of(
                    dep,
                    pkg,
                )[k]).label == version_text(pkg.versions[i]),
{
    let typed = range_rest(dep.range_str);
    let versions = completion_versions(pkg.versions, typed);
    let items = completions_of(dep, pkg);
    lemma_completion_versions(pkg.versions, typed);
    assert forall|i: int| 0 <= i < items.len() implies typed.is_prefix_of(
        (#[trigger] items[i]).label,
    ) && items[i].text_edit.new_text == range_prefix(dep.range_str) + items[i].label && (
    items[i].description is Some <==> optional_text(pkg.latest) == Some(items[i].label)) && exists|
        v: VersionView,
    | #[trigger]
        pkg.versions.contains(v) && version_text(v) == items[i].label by {
        assert(pkg.versions.contains(versions[i]));
    }
    if items.len() < COMPLETION_LIMIT {
        assert forall|i: int|
            0 <= i < pkg.versions.len() && typed.is_prefix_of(
                version_text(#[trigger] pkg.versions[i]),
            ) implies exists|k: int|
            0 <= k < items.len() && (#[trigger] items[k]).label == version_text(
                pkg.versions[i],
            ) by {
            let k = choose|k: int| 0 <= k < versions.len() && versions[k] == pkg.versions[i];
            assert(items[k].label == version_text(pkg.versions[i]));
        }
    }
}

/// An editor that sorts the offers by their sort texts shows them in the order
/// in which they are listed: the newest version first, where the versions of
/// the package stand newest first.
pub proof fn law_completions_are_sorted(dep: DepView, pkg: PackageView)
    ensures
        forall|i: int, j: int|
            0 <= i < j < completions_of(dep, pkg).len() ==> chars_lt(
                (#[trigger] completions_of(dep, pkg)[i]).sort_text,
                (#[trigger] completions_of(dep, pkg)[j]).sort_text,
            ),
        sorted_newest_first(pkg.versions) ==> sorted_newest_first(
            completion_versions(pkg.versions, range_rest(dep.range_str)),
        ),
{
    let items = completions_of(dep, pkg);
    lemma_completion_versions(pkg.versions, range_rest(dep.range_str));
    assert forall|i: int, j: int| 0 <= i < j < items.len() implies chars_lt(
        (#[trigger] items[i]).sort_text,
        (#[trigger] items[j]).sort_text,
    ) by {
        lemma_padded_order(i as nat, j as nat);
        let a = items[i].sort_text;
        let b = items[j].sort_text;
        reveal_with_fuel(chars_lt, 5);
    }
}

// ---- What the user sees of a dependency ----

/// Whatever is looked for in a dependency, its package is asked for first. Where
/// advisories are wanted, the registry knows the package and a version is
/// pinned, those for exactly that version are asked for next. Completions and
/// updates do without.
pub proof fn law_questions_are_asked(
    settings: SettingsView,
    dep: DepView,
    p: PackageView,
    actions: ActionsJob,
    updates: EditsJob,
)
    requires
        !ignored(settings, dep.name),
        dep.range is Some,
        p.status == PackageStatus::Found,
    ensures
        ({
            &&& DiagnosticsJob.findings(settings, dep, ReplyView::Unasked, ReplyView::Unasked)
                == StepView::<Seq<DiagnosticView>>::FetchPackage(dep.name)
            &&& HintsJob.findings(settings, dep, ReplyView::Unasked, ReplyView::Unasked)
                == StepView::<Seq<InlayHintView>>::FetchPackage(dep.name)
            &&& HoverJob.findings(settings, dep, ReplyView::Unasked, ReplyView::Unasked)
                == StepView::<Seq<HoverView>>::FetchPackage(dep.name)
            &&& CompletionsJob.findings(settings, dep, ReplyView::Unasked, ReplyView::Unasked)
                == StepView::<Seq<Seq<CompletionItemView>>>::FetchPackage(dep.name)
            &&& actions.findings(settings, dep, ReplyView::Unasked, ReplyView::Unasked)
                == StepView::<Seq<CodeActionView>>::FetchPackage(dep.name)
            &&& updates.findings(settings, dep, ReplyView::Unasked, ReplyView::Unasked)
                == StepView::<Seq<TextEditView>>::FetchPackage(dep.name)
        }),
        ({
            let known = ReplyView::Got(p);
            let wanted = settings.audit && pinned(dep.range_str) is Some;
            let c = pinned(dep.range_str)->0;
            &&& wanted ==> DiagnosticsJob.findings(settings, dep, known, ReplyView::Unasked)
                == StepView::<Seq<DiagnosticView>>::FetchAudit(dep.name, c)
            &&& wanted ==> HintsJob.findings(settings, dep, known, ReplyView::Unasked)
                == StepView::<Seq<InlayHintView>>::FetchAudit(dep.name, c)
            &&& wanted ==> HoverJob.findings(settings, dep, known, ReplyView::Unasked)
                == StepView::<Seq<HoverView>>::FetchAudit(dep.name, c)
            &&& wanted ==> actions.findings(settings, dep, known, ReplyView::Unasked)
                == StepView::<Seq<CodeActionView>>::FetchAudit(dep.name, c)
            &&& !wanted ==> DiagnosticsJob.findings(
                settings,
                dep,
                known,
                ReplyView::Unasked,
            ) is Done
            &&& !wanted ==> HintsJob.findings(settings, dep, known, ReplyView::Unasked) is Done
            &&& !wanted ==> HoverJob.findings(settings, dep, known, ReplyView::Unasked) is Done
            &&& !wanted ==> actions.findings(settings, dep, known, ReplyView::Unasked) is Done
            &&& CompletionsJob.findings(settings, dep, known, ReplyView::Unasked) is Done
            &&& updates.findings(settings, dep, known, ReplyView::Unasked) is Done
        }),
{
}

/// Nothing is shown, said, offered or changed where the registry did not answer,
/// and nothing but a remark where it does not know the package.
pub proof fn law_nothing_without_the_package(
    settings: SettingsView,
    dep: DepView,
    package: ReplyView<PackageView>,
    audit: ReplyView<AuditView>,
    actions: ActionsJob,
    updates: EditsJob,
)
    requires
        package == ReplyView::<PackageView>::Failed || (package matches ReplyView::Got(p)
            && p.status == PackageStatus::NotFound),
    ensures
        HintsJob.findings(settings, dep, package, audit) == StepView::Done(
            Seq::<InlayHintView>::empty(),
        ),
        HoverJob.findings(settings, dep, package, audit) == StepView::Done(
            Seq::<HoverView>::empty(),
        ),
        CompletionsJob.findings(settings, dep, package, audit) == StepView::Done(
            Seq::<Seq<CompletionItemView>>::empty(),
        ),
        actions.findings(settings, dep, package, audit) == StepView::Done(
            Seq::<CodeActionView>::empty(),
        ),
        updates.findings(settings, dep, package, audit) == StepView::Done(
            Seq::<TextEditView>::empty(),
        ),
        package is Failed && dep.range is Some ==> DiagnosticsJob.findings(
            settings,
            dep,
            package,
            audit,
        ) == StepView::Done(Seq::<DiagnosticView>::empty()),
{
}

/// The advisories that are known for a dependency, where they are wanted.
pub open spec fn known_advisories(settings: SettingsView, audit: ReplyView<AuditView>) -> Option<
    AuditView,
> {
    match audit {
        ReplyView::Got(a) if settings.audit => Some(a),
        _ => None,
    }
}

/// Every advisory for the version that is pinned is remarked, in the order in
/// which the database gives them: an error exactly where it is critical or high,
/// a warning exactly where it is moderate, and information otherwise. Behind
/// them a hint tells that the package is outdated, exactly where one of the
/// tiers leads to a version that is not hidden.
pub proof fn law_every_advisory_is_remarked(
    settings: SettingsView,
    dep: DepView,
    p: PackageView,
    audit: ReplyView<AuditView>,
    c: VersionView,
)
    requires
        !ignored(settings, dep.name),
        dep.range is Some,
        p.status == PackageStatus::Found,
        pinned(dep.range_str) == Some(c),
        settings.audit ==> audit !is Unasked,
    ensures
        ({
            let known = match known_advisories(settings, audit) {
                Some(a) => a.advisories,
                None => seq![],
            };
            let n = known.len() as int;
            let patch = newer_target(p.versions, c, "patch"@);
            let minor = newer_target(p.versions, c, "minor"@);
            let major = newer_target(p.versions, c, "major"@);
            &&& DiagnosticsJob.findings(
                settings,
                dep,
                ReplyView::Got(p),
                audit,
            ) matches StepView::Done(found) && {
                &&& forall|i: int|
                    0 <= i < n ==> {
                        let r = #[trigger] found[i];
                        &&& r.code == known[i].id
                        &&& r.range == dep.value_range
                        &&& r == advisory_remark(dep, known[i])
                        &&& r.severity == DiagnosticSeverity::Error <==> known[i].severity
                            == AdvisorySeverity::Critical || known[i].severity
                            == AdvisorySeverity::High
                        &&& r.severity == DiagnosticSeverity::Warning <==> known[i].severity
                            == AdvisorySeverity::Moderate
                        &&& r.severity == DiagnosticSeverity::Information <==> known[i].severity
                            == AdvisorySeverity::Low || known[i].severity
                            == AdvisorySeverity::Unknown
                    }
                &&& if (patch is Some && !hidden(settings, dep.name, patch->0)) || (minor is Some
                    && !hidden(settings, dep.name, minor->0)) || (major is Some && !hidden(
                    settings,
                    dep.name,
                    major->0,
                )) {
                    found.len() == n + 1 && found[n] == outdated_remark(dep)
                } else {
                    found.len() == n
                }
            }
        }),
{
    let known = match known_advisories(settings, audit) {
        Some(a) => a.advisories,
        None => seq![],
    };
    law_upgradable(settings, dep.name, p.versions, c);
    let found = advisory_remarks(dep, AuditView { advisories: known, fetched: 0 });
    assert forall|i: int| 0 <= i < known.len() implies #[trigger] found[i] == advisory_remark(
        dep,
        known[i],
    ) by {}
}

/// Behind the version string of a dependency stands what the tiers lead to and,
/// behind that, the badge for its advisories; nothing stands there exactly where
/// there is neither. The tooltip tells of the advisories.
pub proof fn law_hint_shows_upgrades_and_advisories(
    settings: SettingsView,
    dep: DepView,
    p: PackageView,
    audit: ReplyView<AuditView>,
)
    requires
        !ignored(settings, dep.name),
        dep.range is Some,
        p.status == PackageStatus::Found,
        settings.audit && pinned(dep.range_str) is Some ==> audit !is Unasked,
    ensures
        ({
            let known = if pinned(dep.range_str) is Some {
                known_advisories(settings, audit)
            } else {
                None
            };
            let upgrades = match pinned(dep.range_str) {
                Some(c) => upgrade_text(settings, dep.name, p.versions, c),
                None => None,
            };
            let badge = match known {
                Some(a) => badge_text(a.advisories),
                None => None,
            };
            &&& HintsJob.findings(
                settings,
                dep,
                ReplyView::Got(p),
                audit,
            ) matches StepView::Done(found) && {
                &&& found.len() == 0 <==> upgrades is None && badge is None
                &&& found.len() <= 1
                &&& found.len() == 1 ==> {
                    &&& found[0].position.line == dep.value_range.end.line
                    &&& dep.value_range.end.character < u32::MAX ==> found[0].position.character
                        == dep.value_range.end.character + 1
                    &&& found[0].tooltip == tooltip_text(dep.name, known)
                    &&& badge is None ==> found[0].label == upgrades->0
                    &&& upgrades is None ==> found[0].label == badge->0
                    &&& badge is Some && upgrades is Some ==> found[0].label == upgrades->0
                        + badge->0
                }
            }
        }),
{
}

/// A version string that is no range gets no hint and is not updated.
pub proof fn law_no_hint_without_a_range(
    settings: SettingsView,
    dep: DepView,
    package: ReplyView<PackageView>,
    audit: ReplyView<AuditView>,
    updates: EditsJob,
)
    requires
        dep.range is None,
    ensures
        HintsJob.findings(settings, dep, package, audit) == StepView::Done(
            Seq::<InlayHintView>::empty(),
        ),
        updates.findings(settings, dep, package, audit) == StepView::Done(
            Seq::<TextEditView>::empty(),
        ),
{
}

/// What is said of a dependency stands at its version string, and is what is
/// known of its package and of the advisories for the version that it pins.
pub proof fn law_hover_stands_at_the_version(
    settings: SettingsView,
    dep: DepView,
    p: PackageView,
    audit: ReplyView<AuditView>,
)
    requires
        p.status == PackageStatus::Found,
        settings.audit && pinned(dep.range_str) is Some ==> audit !is Unasked,
    ensures
        ({
            let known = if pinned(dep.range_str) is Some {
                known_advisories(settings, audit)
            } else {
                None
            };
            &&& HoverJob.findings(
                settings,
                dep,
                ReplyView::Got(p),
                audit,
            ) matches StepView::Done(found) && {
                &&& found.len() == 1
                &&& found[0].range == dep.value_range
                &&& found[0].value == markdown(dep.name, p, known, pinned(dep.range_str))
            }
        }),
{
}

/// Every completion replaces the version string of the dependency, from its
/// first character to its last, by the operator and a version of the package
/// that begins with what was typed behind the operator. It is listed and
/// filtered by that version, and the latest one is marked as such.
pub proof fn law_completions_replace_the_version(
    settings: SettingsView,
    dep: DepView,
    p: PackageView,
    audit: ReplyView<AuditView>,
)
    requires
        p.status == PackageStatus::Found,
    ensures
        CompletionsJob.findings(
            settings,
            dep,
            ReplyView::Got(p),
            audit,
        ) matches StepView::Done(found) && found.len() == 1 && {
            let items = found[0];
            &&& items == completions_of(dep, p)
            &&& items.len() <= 60
            &&& forall|i: int|
                0 <= i < items.len() ==> {
                    let item = #[trigger] items[i];
                    &&& item.text_edit.range.start == dep.value_range.start
                    &&& item.text_edit.range.end == dep.value_range.end
                    &&& item.text_edit.new_text == range_prefix(dep.range_str) + item.label
                    &&& range_rest(dep.range_str).is_prefix_of(item.label)
                    &&& item.filter_text == item.label
                    &&& value_of(item.sort_text) == i && item.sort_text.len() == 4
                    &&& item.description == (if p.latest is Some && version_text(p.latest->0)
                        == item.label {
                        Some("latest"@)
                    } else {
                        None
                    })
                }
        },
{
    let items = completions_of(dep, p);
    let versions = completion_versions(p.versions, range_rest(dep.range_str));
    lemma_completion_versions(p.versions, range_rest(dep.range_str));
    assert forall|i: int| 0 <= i < items.len() implies {
        let item = #[trigger] items[i];
        &&& value_of(item.sort_text) == i && item.sort_text.len() == 4
        &&& range_rest(dep.range_str).is_prefix_of(item.label)
    } by {
        law_decimal_stands_for_its_number(i as nat);
        law_padding_keeps_the_number(decimal(i as nat), 4);
        lemma_padded_order(i as nat, 99);
        assert(versions[i] == versions[i]);
    }
}

proof fn lemma_completions_in_order(versions: Seq<VersionView>, typed: Seq<char>) -> (at: Seq<int>)
    ensures
        at.len() == completion_versions(versions, typed).len(),
        forall|i: int|
            0 <= i < at.len() ==> 0 <= #[trigger] at[i] < versions.len() && versions[at[i]]
                == completion_versions(versions, typed)[i],
        forall|i: int, j: int| 0 <= i < j < at.len() ==> #[trigger] at[i] < #[trigger] at[j],
        forall|m: int|
            0 <= m < versions.len() && typed.is_prefix_of(version_text(#[trigger] versions[m]))
                ==> at.contains(m) || (at.len() == 60 && forall|i: int|
                0 <= i < at.len() ==> #[trigger] at[i] < m),
    decreases versions.len(),
{
    if versions.len() == 0 {
        seq![]
    } else {
        let rest = versions.drop_last();
        let n = versions.len() - 1;
        let before = lemma_completions_in_order(rest, typed);
        lemma_completion_versions(rest, typed);
        if completion_versions(rest, typed).len() < COMPLETION_LIMIT && typed.is_prefix_of(
            version_text(versions.last()),
        ) {
            let at = before.push(n);
            assert forall|m: int|
                0 <= m < versions.len() && typed.is_prefix_of(
                    version_text(#[trigger] versions[m]),
                ) implies at.contains(m) || (at.len() == 60 && forall|i: int|
                0 <= i < at.len() ==> #[trigger] at[i] < m) by {
                if m < n {
                    assert(rest[m] == versions[m]);
                    let k = choose|k: int| 0 <= k < before.len() && before[k] == m;
                    assert(at[k] == m);
                } else {
                    assert(at[before.len() as int] == m);
                }
            }
            at
        } else {
            assert forall|m: int|
                0 <= m < versions.len() && typed.is_prefix_of(
                    version_text(#[trigger] versions[m]),
                ) implies before.contains(m) || (before.len() == 60 && forall|i: int|
                0 <= i < before.len() ==> #[trigger] before[i] < m) by {
                if m < n {
                    assert(rest[m] == versions[m]);
                }
            }
            before
        }
    }
}

/// The versions that begin with what was typed are offered in the order of the
/// package, each where it stands there, and none is passed over before sixty of
/// them are offered.
pub proof fn law_completions_are_the_first_matches(dep: DepView, p: PackageView)
    ensures
        exists|at: Seq<int>|
            {
                &&& #[trigger] at.len() == completions_of(dep, p).len()
                &&& forall|i: int|
                    0 <= i < at.len() ==> 0 <= #[trigger] at[i] < p.versions.len() && version_text(
                        p.versions[at[i]],
                    ) == completions_of(dep, p)[i].label
                &&& forall|i: int, j: int|
                    0 <= i < j < at.len() ==> #[trigger] at[i] < #[trigger] at[j]
                &&& forall|m: int|
                    0 <= m < p.versions.len() && range_rest(dep.range_str).is_prefix_of(
                        version_text(#[trigger] p.versions[m]),
                    ) ==> at.contains(m) || (at.len() == 60 && forall|i: int|
                        0 <= i < at.len() ==> #[trigger] at[i] < m)
            },
{
    let at = lemma_completions_in_order(p.versions, range_rest(dep.range_str));
    assert(at.len() == completions_of(dep, p).len());
}

/// An update of all dependencies within a tier writes what the tier leads to
/// behind the operator, in place of the version string, wherever the tier leads
/// to a version that is not hidden; else it leaves the dependency as it is.
pub proof fn law_update_writes_the_target(
    settings: SettingsView,
    dep: DepView,
    p: PackageView,
    audit: ReplyView<AuditView>,
    updates: EditsJob,
)
    requires
        !ignored(settings, dep.name),
        dep.range is Some,
        p.status == PackageStatus::Found,
    ensures
        updates.findings(
            settings,
            dep,
            ReplyView::Got(p),
            audit,
        ) matches StepView::Done(found) && match pinned(dep.range_str) {
            Some(c) => match newer_target(p.versions, c, updates.tier@) {
                Some(t) => if hidden(settings, dep.name, t) {
                    found.len() == 0
                } else {
                    &&& found.len() == 1
                    &&& found[0].range == dep.value_range
                    &&& found[0].new_text == range_prefix(dep.range_str) + version_text(t)
                },
                None => found.len() == 0,
            },
            None => found.len() == 0,
        },
{
}

/// An offer that changes nothing, but opens an address.
pub open spec fn opens(action: CodeActionView, title: Seq<char>, url: Seq<char>) -> bool {
    &&& action.title == title
    &&& action.edit is None
    &&& action.command matches Some(c) && c.command == "package-json-upgrade.openUrl"@
        && c.arguments == seq![url]
}

/// For a dependency of a package of which the latest version is known, each tier
/// that leads to a version that is not hidden is offered, from the smallest step
/// to the largest, the same version once. Behind them the version that resolves
/// all advisories is offered, and then the pages about the package. Of the
/// upgrades the one of the step to the latest version is preferred.
pub proof fn law_offers_for_a_dependency(
    settings: SettingsView,
    dep: DepView,
    p: PackageView,
    audit: ReplyView<AuditView>,
    actions: ActionsJob,
    c: VersionView,
    latest: VersionView,
    patch: Option<Seq<char>>,
    minor: Option<Seq<char>>,
    major: Option<Seq<char>>,
)
    requires
        !ignored(settings, dep.name),
        p.status == PackageStatus::Found,
        p.latest == Some(latest),
        pinned(dep.range_str) == Some(c),
        settings.audit ==> audit !is Unasked,
        ({
            let a = newer_target(p.versions, c, "patch"@);
            let b = newer_target(p.versions, c, "minor"@);
            let j = newer_target(p.versions, c, "major"@);
            &&& patch is Some <==> a is Some && !hidden(settings, dep.name, a->0)
            &&& patch is Some ==> patch->0 == version_text(a->0)
            &&& minor is Some <==> b is Some && !hidden(settings, dep.name, b->0) && patch != Some(
                version_text(b->0),
            )
            &&& minor is Some ==> minor->0 == version_text(b->0)
            &&& major is Some <==> j is Some && !hidden(settings, dep.name, j->0) && patch != Some(
                version_text(j->0),
            ) && minor != Some(version_text(j->0))
            &&& major is Some ==> major->0 == version_text(j->0)
        }),
    ensures
        ({
            let uri = actions.uri.deep_view().text;
            let one: int = if patch is Some {
                1
            } else {
                0
            };
            let two: int = one + if minor is Some {
                1int
            } else {
                0
            };
            let three: int = two + if major is Some {
                1int
            } else {
                0
            };
            let safe = match known_advisories(settings, audit) {
                Some(a) => safe_offer(uri, dep, Some(c), a),
                None => None,
            };
            let four: int = three + if safe is Some {
                1int
            } else {
                0
            };
            let five: int = four + if p.homepage is Some {
                1int
            } else {
                0
            };
            let six: int = five + if changelog_of(p) is Some {
                1int
            } else {
                0
            };
            &&& actions.findings(
                settings,
                dep,
                ReplyView::Got(p),
                audit,
            ) matches StepView::Done(found) && {
                &&& found.len() == six
                &&& patch matches Some(t) ==> {
                    &&& writes_version(found[0], uri, dep, t)
                    &&& found[0].title == "Do patch upgrade to "@ + t
                    &&& found[0].is_preferred == Some(
                        c.major == latest.major && c.minor == latest.minor,
                    )
                }
                &&& minor matches Some(t) ==> {
                    &&& writes_version(found[one], uri, dep, t)
                    &&& found[one].title == "Do minor upgrade to "@ + t
                    &&& found[one].is_preferred == Some(
                        c.major == latest.major && c.minor != latest.minor,
                    )
                }
                &&& major matches Some(t) ==> {
                    &&& writes_version(found[two], uri, dep, t)
                    &&& found[two].title == "Do major upgrade to "@ + t
                    &&& found[two].is_preferred == Some(c.major != latest.major)
                }
                &&& safe matches Some(action) ==> found[three] == action
                &&& p.homepage matches Some(u) ==> opens(found[four], "Open homepage"@, u)
                &&& changelog_of(p) matches Some(u) ==> opens(found[five], "Open changelog"@, u)
            }
        }),
{
    let uri = actions.uri.deep_view().text;
    let all = newer_targets(p.versions, c);
    let shown = visible(all, settings, dep.name);
    let texts = distinct_texts(shown);
    let preferred = kind_of_upgrade(Some(c), latest);
    law_kinds_of_upgrades(Some(c), latest);
    law_targets_of_the_tiers(settings, dep.name, p.versions, c);
    law_smallest_step_keeps_the_text(shown, 0);
    law_smallest_step_keeps_the_text(shown, 1);
    law_smallest_step_keeps_the_text(shown, 2);
    if shown[0] is Some {
        assert(texts[0] == patch);
    }
    if let Some(m) = shown[1] {
        if patch == Some(version_text(m)) {
            assert(shown[0] is Some && version_text(shown[0]->0) == version_text(m));
        }
        assert(texts[1] == minor);
    }
    if let Some(j) = shown[2] {
        if patch == Some(version_text(j)) {
            assert(shown[0] is Some && version_text(shown[0]->0) == version_text(j));
        }
        if minor == Some(version_text(j)) {
            assert(shown[1] is Some && version_text(shown[1]->0) == version_text(j));
        }
        assert(texts[2] == major);
    }
    assert(texts =~= seq![patch, minor, major]);
    law_each_tier_is_offered(uri, dep, patch, minor, major, preferred);
    let upgrades = upgrade_offers(uri, dep, texts, preferred, 3);
    assert(visible_offers(settings, uri, dep, Some(c), p.versions, latest) == upgrades);
    law_pages_are_opened("Open homepage"@, p.homepage->0);
    law_pages_are_opened("Open changelog"@, changelog_of(p)->0);
}

/// One of the offers writes `version` behind the operator, and is a preferred
/// one.
pub open spec fn prefers_version(
    found: Seq<CodeActionView>,
    uri: Seq<char>,
    dep: DepView,
    version: Seq<char>,
) -> bool {
    exists|i: int|
        0 <= i < found.len() && writes_version(#[trigger] found[i], uri, dep, version)
            && found[i].is_preferred == Some(true)
}

/// Where the highest known fix of the advisories comes after the version that is
/// pinned, the offers for the dependency hold a preferred one that writes exactly
/// that fix behind the operator, whatever is hidden and however far the step is.
pub proof fn law_known_fix_is_offered(
    settings: SettingsView,
    dep: DepView,
    p: PackageView,
    a: AuditView,
    actions: ActionsJob,
    c: VersionView,
    k: int,
)
    requires
        !ignored(settings, dep.name),
        settings.audit,
        p.status == PackageStatus::Found,
        p.latest is Some,
        pinned(dep.range_str) == Some(c),
        0 <= k < a.advisories.len(),
        a.advisories[k].fixed_in is Some,
        version_lt(c, a.advisories[k].fixed_in->0),
        forall|i: int|
            0 <= i < a.advisories.len() && (#[trigger] a.advisories[i]).fixed_in is Some
                ==> !version_lt(a.advisories[k].fixed_in->0, a.advisories[i].fixed_in->0),
        forall|i: int|
            k < i < a.advisories.len() && (#[trigger] a.advisories[i]).fixed_in is Some
                ==> version_lt(a.advisories[i].fixed_in->0, a.advisories[k].fixed_in->0),
    ensures
        match actions.findings(settings, dep, ReplyView::Got(p), ReplyView::Got(a)) {
            StepView::Done(found) => prefers_version(
                found,
                actions.uri.deep_view().text,
                dep,
                version_text(a.advisories[k].fixed_in->0),
            ),
            _ => false,
        },
{
    let uri = actions.uri.deep_view().text;
    let latest = p.latest->0;
    law_safe_version_is_offered(uri, dep, Some(c), a, k);
    let upgrades = visible_offers(settings, uri, dep, Some(c), p.versions, latest);
    let found = offers_of(uri, false, settings, dep, Some(c), p, Some(a));
    let safe = safe_offer(uri, dep, Some(c), a)->0;
    let n = upgrades.len() as int;
    assert(actions.findings(settings, dep, ReplyView::Got(p), ReplyView::Got(a)) == StepView::Done(
        found,
    ));
    assert(n < found.len() && found[n] == safe);
    assert(found[n].is_preferred == Some(true));
    assert(writes_version(found[n], uri, dep, version_text(a.advisories[k].fixed_in->0)));
    assert(prefers_version(found, uri, dep, version_text(a.advisories[k].fixed_in->0)));
}

/// Nothing is offered where the registry names no latest version. For a
/// dependency that pins nothing the pages alone are offered, and so they are for
/// a package that is left alone.
pub proof fn law_pages_alone_are_offered(
    settings: SettingsView,
    dep: DepView,
    p: PackageView,
    audit: ReplyView<AuditView>,
    actions: ActionsJob,
)
    requires
        p.status == PackageStatus::Found,
        p.latest is None || ignored(settings, dep.name) || pinned(dep.range_str) is None,
        !ignored(settings, dep.name) && settings.audit && pinned(dep.range_str) is Some
            ==> audit !is Unasked,
    ensures
        actions.findings(
            settings,
            dep,
            ReplyView::Got(p),
            audit,
        ) matches StepView::Done(found) && if p.latest is None {
            found.len() == 0
        } else {
            let home: int = if p.homepage is Some {
                1
            } else {
                0
            };
            let releases: int = if changelog_of(p) is Some {
                1
            } else {
                0
            };
            &&& found.len() == home + releases
            &&& p.homepage matches Some(u) ==> opens(found[0], "Open homepage"@, u)
            &&& changelog_of(p) matches Some(u) ==> opens(found[home], "Open changelog"@, u)
        },
{
    law_pages_are_opened("Open homepage"@, p.homepage->0);
    law_pages_are_opened("Open changelog"@, changelog_of(p)->0);
}

/// What is said of a dependency and what its version string may be completed to
/// does not depend on whether its package is left alone, nor on whether its
/// version string is a range.
pub proof fn law_hover_and_completions_for_all(
    settings: SettingsView,
    dep: DepView,
    p: PackageView,
)
    requires
        p.status == PackageStatus::Found,
    ensures
        HoverJob.findings(settings, dep, ReplyView::Unasked, ReplyView::Unasked) == StepView::<
            Seq<HoverView>,
        >::FetchPackage(dep.name),
        CompletionsJob.findings(settings, dep, ReplyView::Unasked, ReplyView::Unasked)
            == StepView::<Seq<Seq<CompletionItemView>>>::FetchPackage(dep.name),
        settings.audit && pinned(dep.range_str) is Some ==> HoverJob.findings(
            settings,
            dep,
            ReplyView::Got(p),
            ReplyView::Unasked,
        ) == StepView::<Seq<HoverView>>::FetchAudit(dep.name, pinned(dep.range_str)->0),
{
}

/// A version string that is no range is remarked, and a package that the
/// registry does not know is, with the remark for it and no other.
pub proof fn law_single_remarks(
    settings: SettingsView,
    dep: DepView,
    package: ReplyView<PackageView>,
    audit: ReplyView<AuditView>,
)
    requires
        !ignored(settings, dep.name),
    ensures
        dep.range is None ==> DiagnosticsJob.findings(settings, dep, package, audit)
            == StepView::Done(seq![invalid_semver_remark(dep)]),
        dep.range is Some && (package matches ReplyView::Got(p) && p.status
            == PackageStatus::NotFound) ==> DiagnosticsJob.findings(settings, dep, package, audit)
            == StepView::Done(seq![not_found_remark(dep)]),
        dep.range is Some && pinned(dep.range_str) is None && (package matches ReplyView::Got(p)
            && p.status == PackageStatus::Found) ==> DiagnosticsJob.findings(
            settings,
            dep,
            package,
            audit,
        ) == StepView::Done(Seq::<DiagnosticView>::empty()),
{
}

} // verus!
