//! What the editor offers to do.

use vstd::prelude::*;
use vstd::string::*;

use crate::audit::{
    highest_fix, law_last_highest_fix, law_safe_target_resolves_all, AuditResult, AuditView,
};
use crate::document::{
    current_pinned, kind_of_upgrade, pinned, range_prefix, split_prefix, upgrade_kind, DepEntry,
    DepView,
};
use crate::lsp::{
    ActionKind, CodeAction, CodeActionView, Command, CommandView, LspRange, TextEdit, TextEditView,
    Url, WorkspaceEdit, WorkspaceEditView,
};
use crate::semver::{precedes, version_lt, version_text, Version, VersionView};
use crate::settings::{Settings, SettingsView};
use crate::text::str_eq;
use crate::views::util::{
    distinct_targets, distinct_texts, keep_visible, newer_targets, pick_newer_targets, tiers,
    visible,
};

verus! {

/// The command that opens an address in a browser.
pub const OPEN_URL: &'static str = "package-json-upgrade.openUrl";

/// The command that updates all dependencies of a document.
pub const UPDATE_ALL: &'static str = "package-json-upgrade.updateAll";

/// The kind of the actions that update all dependencies of a document.
pub const UPDATE_ALL_KIND: &'static str = "source.package-json-upgrade.updateAll";

/// New text for one piece of the document at `uri`.
pub open spec fn single_edit(
    uri: Seq<char>,
    range: LspRange,
    new_text: Seq<char>,
) -> WorkspaceEditView {
    WorkspaceEditView { uri, edits: seq![TextEditView { range, new_text }] }
}

/// New text for one piece of the document at `uri`.
pub fn workspace_edit(uri: &Url, range: LspRange, new_text: String) -> (r: WorkspaceEdit)
    ensures
        r.deep_view() == single_edit(uri.deep_view().text, range, new_text@),
{
    let mut edits: Vec<TextEdit> = Vec::new();
    edits.push(TextEdit { range, new_text });
    assert(edits.deep_view() =~= seq![TextEditView { range, new_text: new_text@ }]);
    WorkspaceEdit { uri: uri.text.clone(), edits }
}

/// The version string of a dependency with another version behind its operator.
pub open spec fn rewritten(dep: DepView, version: Seq<char>) -> Seq<char> {
    range_prefix(dep.range_str) + version
}

/// The version string of a dependency with another version behind its operator.
pub fn rewrite(dep: &DepEntry, version: &str) -> (r: String)
    ensures
        r@ == rewritten(dep.deep_view(), version@),
{
    let (prefix, _) = split_prefix(dep.range_str.as_str());
    let mut out = prefix.to_owned();
    out.append(version);
    out
}

// ---- Upgrades of one dependency ----

/// The title of an upgrade.
pub open spec fn upgrade_title(tier: Seq<char>, target: Seq<char>) -> Seq<char> {
    if tier == "patch"@ {
        "Do patch upgrade to "@ + target
    } else if tier == "minor"@ {
        "Do minor upgrade to "@ + target
    } else if tier == "major"@ {
        "Do major upgrade to "@ + target
    } else {
        "Update to "@ + target
    }
}

/// The offer to write `target` in place of the version of a dependency.
pub open spec fn fix_offer(
    title: Seq<char>,
    uri: Seq<char>,
    dep: DepView,
    target: Seq<char>,
    preferred: bool,
) -> CodeActionView {
    CodeActionView {
        title,
        kind: ActionKind::QuickFix,
        edit: Some(single_edit(uri, dep.value_range, rewritten(dep, target))),
        command: None,
        is_preferred: Some(preferred),
    }
}

/// The offer of an upgrade of the given tier.
pub open spec fn upgrade_offer(
    uri: Seq<char>,
    dep: DepView,
    tier: Seq<char>,
    target: Seq<char>,
    preferred: bool,
) -> CodeActionView {
    fix_offer(upgrade_title(tier, target), uri, dep, target, preferred)
}

/// The offer of an upgrade of the given tier.
pub fn upgrade_action(uri: &Url, dep: &DepEntry, tier: &str, target: &str, preferred: bool) -> (r:
    CodeAction)
    ensures
        r.deep_view() == upgrade_offer(
            uri.deep_view().text,
            dep.deep_view(),
            tier@,
            target@,
            preferred,
        ),
{
    let mut title = if str_eq(tier, "patch") {
        "Do patch upgrade to ".to_owned()
    } else if str_eq(tier, "minor") {
        "Do minor upgrade to ".to_owned()
    } else if str_eq(tier, "major") {
        "Do major upgrade to ".to_owned()
    } else {
        "Update to ".to_owned()
    };
    title.append(target);
    CodeAction {
        title,
        kind: ActionKind::QuickFix,
        edit: Some(workspace_edit(uri, dep.value_range, rewrite(dep, target))),
        command: None,
        is_preferred: Some(preferred),
    }
}

/// The offers for the first `n` of the tiers' targets. The one of the tier
/// `preferred` is the preferred one.
pub open spec fn upgrade_offers(
    uri: Seq<char>,
    dep: DepView,
    texts: Seq<Option<Seq<char>>>,
    preferred: Seq<char>,
    n: nat,
) -> Seq<CodeActionView>
    decreases n,
{
    if n == 0 {
        seq![]
    } else {
        let rest = upgrade_offers(uri, dep, texts, preferred, (n - 1) as nat);
        let tier = tiers()[n - 1];
        match texts[n - 1] {
            Some(t) => rest.push(upgrade_offer(uri, dep, tier, t, tier == preferred)),
            None => rest,
        }
    }
}

/// The offers for the tiers' targets, given as text.
pub fn offer_targets(uri: &Url, dep: &DepEntry, texts: &Vec<Option<String>>, preferred: &str) -> (r:
    Vec<CodeAction>)
    requires
        texts.len() <= 3,
    ensures
        r.deep_view() == upgrade_offers(
            uri.deep_view().text,
            dep.deep_view(),
            texts.deep_view(),
            preferred@,
            texts.len() as nat,
        ),
{
    let ghost all = texts.deep_view();
    let ghost u = uri.deep_view().text;
    let ghost d = dep.deep_view();
    let mut out: Vec<CodeAction> = Vec::new();
    let mut i: usize = 0;
    assert(out.deep_view() =~= upgrade_offers(u, d, all, preferred@, 0));
    while i < texts.len()
        invariant
            i <= texts.len() <= 3,
            all == texts.deep_view(),
            u == uri.deep_view().text,
            d == dep.deep_view(),
            out.deep_view() == upgrade_offers(u, d, all, preferred@, i as nat),
        decreases texts.len() - i,
    {
        assert(all[i as int] == texts@[i as int].deep_view());
        let tier = if i == 0 {
            "patch"
        } else if i == 1 {
            "minor"
        } else {
            "major"
        };
        assert(tier@ == tiers()[i as int]);
        if let Some(t) = &texts[i] {
            let ghost before = out.deep_view();
            let action = upgrade_action(uri, dep, tier, t.as_str(), str_eq(tier, preferred));
            let ghost view = action.deep_view();
            out.push(action);
            assert(out.deep_view() =~= before.push(view));
        }
        i = i + 1;
    }
    out
}

/// The offers for what the tiers lead to from `current`. The same version is
/// offered once.
pub open spec fn offers_for(
    uri: Seq<char>,
    dep: DepView,
    current: VersionView,
    targets: Seq<Option<VersionView>>,
    latest: VersionView,
) -> Seq<CodeActionView> {
    upgrade_offers(
        uri,
        dep,
        distinct_texts(targets),
        kind_of_upgrade(Some(current), latest),
        targets.len(),
    )
}

/// The offers for what the tiers lead to from `current`.
fn offer_all(
    uri: &Url,
    dep: &DepEntry,
    current: &Version,
    targets: &Vec<Option<Version>>,
    latest: &Version,
) -> (r: Vec<CodeAction>)
    requires
        targets.len() <= 3,
    ensures
        r.deep_view() == offers_for(
            uri.deep_view().text,
            dep.deep_view(),
            current.deep_view(),
            targets.deep_view(),
            latest.deep_view(),
        ),
{
    let texts = distinct_targets(targets);
    assert(texts.deep_view().len() == targets.deep_view().len());
    offer_targets(uri, dep, &texts, upgrade_kind(Some(current), latest))
}

/// The offers to upgrade a dependency that pins `current`.
pub open spec fn offers_from(
    uri: Seq<char>,
    dep: DepView,
    current: Option<VersionView>,
    versions: Seq<VersionView>,
    latest: VersionView,
) -> Seq<CodeActionView> {
    match current {
        Some(c) => offers_for(uri, dep, c, newer_targets(versions, c), latest),
        None => seq![],
    }
}

/// The offers to upgrade a dependency that pins `current`: for each tier the
/// highest version, if it is newer. The same version is offered once.
pub fn upgrade_actions_from(
    uri: &Url,
    dep: &DepEntry,
    current: &Option<Version>,
    versions: &Vec<Version>,
    latest: &Version,
) -> (r: Vec<CodeAction>)
    ensures
        r.deep_view() == offers_from(
            uri.deep_view().text,
            dep.deep_view(),
            current.deep_view(),
            versions.deep_view(),
            latest.deep_view(),
        ),
{
    match current {
        Some(c) => {
            let targets = pick_newer_targets(versions, c);
            assert(targets.deep_view().len() == 3);
            offer_all(uri, dep, c, &targets, latest)
        },
        None => {
            let none: Vec<CodeAction> = Vec::new();
            assert(none.deep_view() =~= seq![]);
            none
        },
    }
}

/// The offers to upgrade a dependency.
pub fn upgrade_actions(uri: &Url, dep: &DepEntry, versions: &Vec<Version>, latest: &Version) -> (r:
    Vec<CodeAction>)
    ensures
        r.deep_view() == offers_from(
            uri.deep_view().text,
            dep.deep_view(),
            pinned(dep.deep_view().range_str),
            versions.deep_view(),
            latest.deep_view(),
        ),
{
    upgrade_actions_from(uri, dep, &current_pinned(dep.range_str.as_str()), versions, latest)
}

/// The offers to upgrade a dependency that pins `current` to versions that are
/// not to be hidden.
pub open spec fn visible_offers(
    settings: SettingsView,
    uri: Seq<char>,
    dep: DepView,
    current: Option<VersionView>,
    versions: Seq<VersionView>,
    latest: VersionView,
) -> Seq<CodeActionView> {
    match current {
        Some(c) => offers_for(
            uri,
            dep,
            c,
            visible(newer_targets(versions, c), settings, dep.name),
            latest,
        ),
        None => seq![],
    }
}

/// The offers to upgrade a dependency that pins `current` to versions that are
/// not to be hidden.
pub fn visible_upgrade_actions(
    settings: &Settings,
    uri: &Url,
    dep: &DepEntry,
    current: &Option<Version>,
    versions: &Vec<Version>,
    latest: &Version,
) -> (r: Vec<CodeAction>)
    ensures
        r.deep_view() == visible_offers(
            settings.deep_view(),
            uri.deep_view().text,
            dep.deep_view(),
            current.deep_view(),
            versions.deep_view(),
            latest.deep_view(),
        ),
{
    match current {
        Some(c) => {
            let targets = pick_newer_targets(versions, c);
            let shown = keep_visible(&targets, dep.name.as_str(), settings);
            assert(shown.deep_view().len() == 3);
            offer_all(uri, dep, c, &shown, latest)
        },
        None => {
            let none: Vec<CodeAction> = Vec::new();
            assert(none.deep_view() =~= seq![]);
            none
        },
    }
}

/// The offer to go to the version that resolves all advisories, if it is newer
/// than `current`.
pub open spec fn safe_offer(
    uri: Seq<char>,
    dep: DepView,
    current: Option<VersionView>,
    audit: AuditView,
) -> Option<CodeActionView> {
    match (current, highest_fix(audit.advisories)) {
        (Some(c), Some(target)) => if version_lt(c, target) {
            Some(
                fix_offer(
                    "Update to first non-vulnerable version ("@ + version_text(target) + ")"@,
                    uri,
                    dep,
                    version_text(target),
                    true,
                ),
            )
        } else {
            None
        },
        _ => None,
    }
}

/// The offer to go to the version that resolves all advisories, for a
/// dependency that pins `current`.
pub fn safe_upgrade_action_from(
    uri: &Url,
    dep: &DepEntry,
    current: &Option<Version>,
    audit: &AuditResult,
) -> (r: Option<CodeAction>)
    ensures
        r.deep_view() == safe_offer(
            uri.deep_view().text,
            dep.deep_view(),
            current.deep_view(),
            audit.deep_view(),
        ),
{
    let target = audit.safe_target();
    match (current, &target) {
        (Some(c), Some(t)) => if precedes(c, t) {
            let text = t.to_string();
            let mut title = "Update to first non-vulnerable version (".to_owned();
            title.append(text.as_str());
            title.append(")");
            Some(
                CodeAction {
                    title,
                    kind: ActionKind::QuickFix,
                    edit: Some(
                        workspace_edit(uri, dep.value_range, rewrite(dep, text.as_str())),
                    ),
                    command: None,
                    is_preferred: Some(true),
                },
            )
        } else {
            None
        },
        _ => None,
    }
}

/// The offer to go to the version that resolves all advisories.
pub fn safe_upgrade_action(uri: &Url, dep: &DepEntry, audit: &AuditResult) -> (r: Option<
    CodeAction,
>)
    ensures
        r.deep_view() == safe_offer(
            uri.deep_view().text,
            dep.deep_view(),
            pinned(dep.deep_view().range_str),
            audit.deep_view(),
        ),
{
    safe_upgrade_action_from(uri, dep, &current_pinned(dep.range_str.as_str()), audit)
}

// ---- Other offers ----

/// The title of the update of all dependencies.
pub open spec fn bulk_title(tier: Seq<char>) -> Seq<char> {
    if tier == "patch"@ {
        "Update all dependencies (patch)"@
    } else if tier == "minor"@ {
        "Update all dependencies (minor)"@
    } else {
        "Update all dependencies (major)"@
    }
}

/// The offer to update all dependencies of the document at `uri`.
pub open spec fn bulk_offer(uri: Seq<char>, tier: Seq<char>) -> CodeActionView {
    CodeActionView {
        title: bulk_title(tier),
        kind: ActionKind::UpdateAll,
        edit: None,
        command: Some(
            CommandView {
                title: bulk_title(tier),
                command: UPDATE_ALL@,
                arguments: seq![uri, tier],
            },
        ),
        is_preferred: None,
    }
}

/// The offers to update all dependencies of the document at `uri`, one for each
/// tier.
pub open spec fn bulk_offers(uri: Seq<char>) -> Seq<CodeActionView> {
    tiers().map_values(|tier: Seq<char>| bulk_offer(uri, tier))
}

/// The offer to update all dependencies of a document.
fn bulk_update_action(uri: &Url, tier: &str) -> (r: CodeAction)
    ensures
        r.deep_view() == bulk_offer(uri.deep_view().text, tier@),
{
    let title = if str_eq(tier, "patch") {
        "Update all dependencies (patch)"
    } else if str_eq(tier, "minor") {
        "Update all dependencies (minor)"
    } else {
        "Update all dependencies (major)"
    };
    let mut arguments: Vec<String> = Vec::new();
    arguments.push(uri.text.clone());
    arguments.push(tier.to_owned());
    assert(arguments.deep_view() =~= seq![uri.deep_view().text, tier@]);
    CodeAction {
        title: title.to_owned(),
        kind: ActionKind::UpdateAll,
        edit: None,
        command: Some(
            Command { title: title.to_owned(), command: UPDATE_ALL.to_owned(), arguments },
        ),
        is_preferred: None,
    }
}

/// The offers to update all dependencies of a document, one for each tier.
pub fn bulk_update_actions(uri: &Url) -> (r: Vec<CodeAction>)
    ensures
        r.deep_view() == bulk_offers(uri.deep_view().text),
{
    let mut out: Vec<CodeAction> = Vec::new();
    out.push(bulk_update_action(uri, "patch"));
    out.push(bulk_update_action(uri, "minor"));
    out.push(bulk_update_action(uri, "major"));
    assert(out.deep_view() =~= bulk_offers(uri.deep_view().text));
    out
}

/// The offer to open an address in a browser.
pub open spec fn open_offer(title: Seq<char>, url: Seq<char>) -> CodeActionView {
    CodeActionView {
        title,
        kind: ActionKind::Empty,
        edit: None,
        command: Some(CommandView { title, command: OPEN_URL@, arguments: seq![url] }),
        is_preferred: None,
    }
}

/// The offer to open an address in a browser.
pub fn open_url_action(title: &str, url: String) -> (r: CodeAction)
    ensures
        r.deep_view() == open_offer(title@, url@),
{
    let mut arguments: Vec<String> = Vec::new();
    arguments.push(url);
    assert(arguments.deep_view() =~= seq![url@]);
    CodeAction {
        title: title.to_owned(),
        kind: ActionKind::Empty,
        edit: None,
        command: Some(
            Command { title: title.to_owned(), command: OPEN_URL.to_owned(), arguments },
        ),
        is_preferred: None,
    }
}

// ---- Laws ----

proof fn lemma_tiers_differ()
    ensures
        tiers()[0] != tiers()[1],
        tiers()[0] != tiers()[2],
        tiers()[1] != tiers()[2],
{
    reveal_strlit("patch");
    reveal_strlit("minor");
    reveal_strlit("major");
    assert("patch"@[0] != "minor"@[0]);
    assert("patch"@[0] != "major"@[0]);
    assert("minor"@[1] != "major"@[1]);
}

/// At most one of the upgrades that are offered is the preferred one: the one
/// of the tier that the step to the latest version belongs to.
pub proof fn law_one_upgrade_is_preferred(
    uri: Seq<char>,
    dep: DepView,
    texts: Seq<Option<Seq<char>>>,
    preferred: Seq<char>,
    n: nat,
)
    requires
        n <= 3,
        n <= texts.len(),
    ensures
        ({
            let all = upgrade_offers(uri, dep, texts, preferred, n);
            &&& forall|i: int, j: int|
                0 <= i < j < all.len() && (#[trigger] all[i]).is_preferred == Some(true) ==> (
                #[trigger] all[j]).is_preferred == Some(false)
            &&& forall|i: int|
                0 <= i < all.len() && (#[trigger] all[i]).is_preferred == Some(true) ==> exists|
                    k: int,
                |
                    0 <= k < n && #[trigger] tiers()[k] == preferred
        }),
    decreases n,
{
    if n > 0 {
        let before = upgrade_offers(uri, dep, texts, preferred, (n - 1) as nat);
        let all = upgrade_offers(uri, dep, texts, preferred, n);
        law_one_upgrade_is_preferred(uri, dep, texts, preferred, (n - 1) as nat);
        lemma_tiers_differ();
        assert forall|i: int, j: int|
            0 <= i < j < all.len() && (#[trigger] all[i]).is_preferred == Some(true) implies (
        #[trigger] all[j]).is_preferred == Some(false) by {
            assert(all[i] == before[i]);
            if j < before.len() {
                assert(all[j] == before[j]);
            } else {
                let k = choose|k: int| 0 <= k < n - 1 && #[trigger] tiers()[k] == preferred;
                assert(tiers()[n - 1] != tiers()[k]);
            }
        }
        assert forall|i: int|
            0 <= i < all.len() && (#[trigger] all[i]).is_preferred == Some(true) implies exists|
            k: int,
        |
            0 <= k < n && #[trigger] tiers()[k] == preferred by {
            if i < before.len() {
                assert(all[i] == before[i]);
            } else {
                assert(tiers()[n - 1] == preferred);
            }
        }
    }
}

/// The offer changes one thing: it writes `version` behind the operator, in place
/// of the version string of the dependency in the document at `uri`.
pub open spec fn writes_version(
    action: CodeActionView,
    uri: Seq<char>,
    dep: DepView,
    version: Seq<char>,
) -> bool {
    &&& action.kind == ActionKind::QuickFix
    &&& action.command is None
    &&& action.edit matches Some(e) && {
        &&& e.uri == uri
        &&& e.edits.len() == 1
        &&& e.edits[0].range == dep.value_range
        &&& e.edits[0].new_text == range_prefix(dep.range_str) + version
    }
}

/// An offer is made for what each tier leads to, from the smallest step to the
/// largest, and none besides. It tells the tier and the version, writes that
/// version, and is the preferred one where it is of the tier that is preferred.
pub proof fn law_each_tier_is_offered(
    uri: Seq<char>,
    dep: DepView,
    patch: Option<Seq<char>>,
    minor: Option<Seq<char>>,
    major: Option<Seq<char>>,
    preferred: Seq<char>,
)
    ensures
        ({
            let all = upgrade_offers(uri, dep, seq![patch, minor, major], preferred, 3);
            let p: int = if patch is Some {
                1
            } else {
                0
            };
            let m: int = if minor is Some {
                1
            } else {
                0
            };
            let j: int = if major is Some {
                1
            } else {
                0
            };
            &&& all.len() == p + m + j
            &&& patch matches Some(t) ==> {
                &&& writes_version(all[0], uri, dep, t)
                &&& all[0].title == "Do patch upgrade to "@ + t
                &&& all[0].is_preferred == Some(preferred == "patch"@)
            }
            &&& minor matches Some(t) ==> {
                &&& writes_version(all[p], uri, dep, t)
                &&& all[p].title == "Do minor upgrade to "@ + t
                &&& all[p].is_preferred == Some(preferred == "minor"@)
            }
            &&& major matches Some(t) ==> {
                &&& writes_version(all[p + m], uri, dep, t)
                &&& all[p + m].title == "Do major upgrade to "@ + t
                &&& all[p + m].is_preferred == Some(preferred == "major"@)
            }
        }),
{
    lemma_tiers_differ();
    reveal_with_fuel(upgrade_offers, 4);
}

/// Where a version is pinned, and the highest of the known fixes comes after it,
/// the offer that writes exactly that fix is made, and it is the preferred one;
/// of fixes of the same precedence the last one is meant. Nothing else about the
/// two versions matters. Where nothing is pinned, no fix is known or the highest
/// one is not newer, there is no such offer.
pub proof fn law_safe_version_is_offered(
    uri: Seq<char>,
    dep: DepView,
    current: Option<VersionView>,
    audit: AuditView,
    k: int,
)
    ensures
        current is None ==> safe_offer(uri, dep, current, audit) is None,
        (forall|i: int|
            0 <= i < audit.advisories.len() ==> (#[trigger] audit.advisories[i]).fixed_in is None)
            ==> safe_offer(uri, dep, current, audit) is None,
        0 <= k < audit.advisories.len() && current is Some && audit.advisories[k].fixed_in is Some
            && (forall|i: int|
            0 <= i < audit.advisories.len() && (#[trigger] audit.advisories[i]).fixed_in is Some
                ==> !version_lt(
                audit.advisories[k].fixed_in->0,
                audit.advisories[i].fixed_in->0,
            )) && (forall|i: int|
            k < i < audit.advisories.len() && (#[trigger] audit.advisories[i]).fixed_in is Some
                ==> version_lt(
                audit.advisories[i].fixed_in->0,
                audit.advisories[k].fixed_in->0,
            )) ==> {
            let fix = audit.advisories[k].fixed_in->0;
            if version_lt(current->0, fix) {
                &&& safe_offer(uri, dep, current, audit) matches Some(action) && {
                    &&& writes_version(action, uri, dep, version_text(fix))
                    &&& action.is_preferred == Some(true)
                    &&& action.title == "Update to first non-vulnerable version ("@ + version_text(
                        fix,
                    ) + ")"@
                }
            } else {
                safe_offer(uri, dep, current, audit) is None
            }
        },
{
    let s = audit.advisories;
    law_safe_target_resolves_all(s);
    if 0 <= k < s.len() && current is Some && s[k].fixed_in is Some && (forall|i: int|
        0 <= i < s.len() && (#[trigger] s[i]).fixed_in is Some ==> !version_lt(
            s[k].fixed_in->0,
            s[i].fixed_in->0,
        )) && (forall|i: int|
        k < i < s.len() && (#[trigger] s[i]).fixed_in is Some ==> version_lt(
            s[i].fixed_in->0,
            s[k].fixed_in->0,
        )) {
        law_last_highest_fix(s, k);
    }
}

/// The offers to update all dependencies are one for each tier, from the
/// smallest step to the largest. Each changes nothing by itself, but sends the
/// command that does, with the address of the document and the tier.
pub proof fn law_updates_of_all_are_offered(uri: Seq<char>, i: int)
    requires
        0 <= i < 3,
    ensures
        ({
            let tier = if i == 0 {
                "patch"@
            } else if i == 1 {
                "minor"@
            } else {
                "major"@
            };
            let offer = bulk_offers(uri)[i];
            &&& bulk_offers(uri).len() == 3
            &&& offer.title == "Update all dependencies ("@ + tier + ")"@
            &&& offer.kind == ActionKind::UpdateAll
            &&& offer.edit is None && offer.is_preferred is None
            &&& offer.command matches Some(c) && {
                &&& c.title == offer.title
                &&& c.command == "package-json-upgrade.updateAll"@
                &&& c.arguments == seq![uri, tier]
            }
        }),
{
    lemma_tiers_differ();
    reveal_strlit("patch");
    reveal_strlit("minor");
    reveal_strlit("major");
    reveal_strlit(")");
    reveal_strlit("Update all dependencies (");
    reveal_strlit("Update all dependencies (patch)");
    reveal_strlit("Update all dependencies (minor)");
    reveal_strlit("Update all dependencies (major)");
    assert("Update all dependencies (patch)"@ =~= "Update all dependencies ("@ + "patch"@ + ")"@);
    assert("Update all dependencies (minor)"@ =~= "Update all dependencies ("@ + "minor"@ + ")"@);
    assert("Update all dependencies (major)"@ =~= "Update all dependencies ("@ + "major"@ + ")"@);
}

/// The offer to open an address changes nothing, but sends the command that
/// opens exactly that address.
pub proof fn law_pages_are_opened(title: Seq<char>, url: Seq<char>)
    ensures
        ({
            let offer = open_offer(title, url);
            &&& offer.title == title
            &&& offer.kind == ActionKind::Empty
            &&& offer.edit is None && offer.is_preferred is None
            &&& offer.command matches Some(c) && {
                &&& c.title == title
                &&& c.command == "package-json-upgrade.openUrl"@
                &&& c.arguments == seq![url]
            }
        }),
{
}

/// A title tells the tier and the version; where nothing is pinned it tells the
/// version alone.
pub proof fn law_titles_tell_the_tier(tier: Seq<char>, target: Seq<char>)
    ensures
        upgrade_title("patch"@, target) == "Do patch upgrade to "@ + target,
        upgrade_title("minor"@, target) == "Do minor upgrade to "@ + target,
        upgrade_title("major"@, target) == "Do major upgrade to "@ + target,
        tier != "patch"@ && tier != "minor"@ && tier != "major"@ ==> upgrade_title(tier, target)
            == "Update to "@ + target,
{
    lemma_tiers_differ();
}

/// Where there is no rule for a package, nothing is hidden: its upgrades are
/// offered as they are without regard to the settings. Where nothing is pinned,
/// none are offered.
pub proof fn law_nothing_is_hidden_without_a_rule(
    settings: SettingsView,
    uri: Seq<char>,
    dep: DepView,
    current: Option<VersionView>,
    versions: Seq<VersionView>,
    latest: VersionView,
)
    requires
        !settings.ignore_versions.dom().contains(dep.name),
    ensures
        offers_from(uri, dep, current, versions, latest) == visible_offers(
            settings,
            uri,
            dep,
            current,
            versions,
            latest,
        ),
        current is None ==> offers_from(uri, dep, current, versions, latest).len() == 0,
{
    if let Some(c) = current {
        let all = newer_targets(versions, c);
        assert(visible(all, settings, dep.name) =~= all);
    }
}

} // verus!
