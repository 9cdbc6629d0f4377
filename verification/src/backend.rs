//! The state of the server, and what it does with what the editor tells it.

use dashmap::DashMap;
use std::hash::RandomState;

use vstd::prelude::*;
use vstd::string::*;

use crate::audit::{audit_step, new_auditor, AuditEvent, AuditStep, Auditor, AuditorView};
use crate::document::{
    current_pinned, document_deps, in_range, parse_package_json, pinned, position_in_range,
    positions_fit, DepEntry, DepView, DocState,
};
use crate::jobs::{
    at_most_one, ActionsJob, CompletionsJob, DiagnosticsJob, EditsJob, HintsJob, HoverJob,
};
use crate::json::Json;
use crate::lsp::{
    parsed_url, CodeAction, CodeActionView, CompletionItemView, DiagnosticView, HoverView,
    InlayHintView, LspRange, Position, TextEdit, TextEditView, Url, UrlView, WorkspaceEdit,
    WorkspaceEditView,
};
use crate::registry::{
    fetch_step, new_registry, FetchEvent, FetchStep, Registry, RegistryView,
};
use crate::semver::{Version, VersionView};
use crate::settings::{default_settings, Settings, SettingsView};
use crate::store::{holds_nothing, lookup};
use crate::survey::{fresh_survey, run, Job, Survey, SurveyActionView, SurveyView};
use crate::text::str_eq;
use crate::views::actions::{
    bulk_offer, bulk_offers, bulk_update_actions, open_offer, OPEN_URL, UPDATE_ALL,
};
use crate::views::util::{is_package_json, names_package_json};

verus! {

// ---- The documents ----

/// What a map of documents holds.
pub uninterp spec fn documents_in(map: DashMap<String, DocState, RandomState>) -> Map<
    Seq<char>,
    Seq<DepView>,
>;

/// An empty map: `DashMap::new`.
#[verifier::external_body]
fn new_documents() -> (r: DashMap<String, DocState, RandomState>)
    ensures
        holds_nothing(documents_in(r)),
{
    DashMap::new()
}

/// A copy of what a map holds under `uri`: `DashMap::get`.
#[verifier::external_body]
fn get_document(map: &DashMap<String, DocState, RandomState>, uri: &str) -> (r: Option<DocState>)
    ensures
        r.deep_view() == lookup(documents_in(*map), uri@),
{
    map.get(uri).map(|d| d.clone())
}

/// Puts a document under `uri`, in place of the one that was there:
/// `DashMap::insert`.
#[verifier::external_body]
fn put_document(map: &mut DashMap<String, DocState, RandomState>, uri: String, doc: DocState)
    ensures
        documents_in(*final(map)) == documents_in(*old(map)).insert(uri@, doc.deep_view()),
{
    map.insert(uri, doc);
}

/// Takes away what a map holds under `uri`, if it holds anything:
/// `DashMap::remove`.
#[verifier::external_body]
fn drop_document(map: &mut DashMap<String, DocState, RandomState>, uri: &str)
    ensures
        documents_in(*final(map)) == documents_in(*old(map)).remove(uri@),
{
    map.remove(uri);
}

/// The list names each key of the map once, and nothing else.
pub open spec fn lists_keys<V>(list: Seq<Seq<char>>, map: Map<Seq<char>, V>) -> bool {
    list.no_duplicates() && forall|k: Seq<char>| list.contains(k) <==> map.dom().contains(k)
}

/// The keys of a map, in some order: `DashMap::iter`.
#[verifier::external_body]
fn document_keys(map: &DashMap<String, DocState, RandomState>) -> (r: Vec<String>)
    ensures
        lists_keys(r.deep_view(), documents_in(*map)),
{
    map.iter().map(|e| e.key().clone()).collect()
}

/// The state of the server.
pub struct Backend {
    docs: DashMap<String, DocState, RandomState>,
    settings: Settings,
    registry: Registry,
    auditor: Auditor,
}

/// The model of a [`Backend`].
#[verifier::ext_equal]
pub struct BackendView {
    /// The open documents, by their addresses.
    pub docs: Map<Seq<char>, Seq<DepView>>,
    pub settings: SettingsView,
    pub registry: RegistryView,
    pub auditor: AuditorView,
}

impl View for Backend {
    type V = BackendView;

    closed spec fn view(&self) -> BackendView {
        BackendView {
            docs: documents_in(self.docs),
            settings: self.settings.deep_view(),
            registry: self.registry@,
            auditor: self.auditor@,
        }
    }
}

/// The server before it is told anything.
pub open spec fn new_backend() -> BackendView {
    BackendView {
        docs: Map::empty(),
        settings: default_settings(),
        registry: new_registry(),
        auditor: new_auditor(),
    }
}

// ---- What is asked for in advance ----

/// What is asked for in advance once a document is there.
#[derive(Debug)]
pub struct Prefetch {
    /// The packages that the registry is asked about.
    pub packages: Vec<String>,
    /// The versions that the advisory database is asked about.
    pub audits: Vec<(String, Version)>,
}

/// The model of a [`Prefetch`].
#[verifier::ext_equal]
pub struct PrefetchView {
    pub packages: Seq<Seq<char>>,
    pub audits: Seq<(Seq<char>, VersionView)>,
}

impl DeepView for Prefetch {
    type V = PrefetchView;

    open spec fn deep_view(&self) -> PrefetchView {
        PrefetchView { packages: self.packages.deep_view(), audits: self.audits.deep_view() }
    }
}

/// The names of some dependencies with the versions that they pin.
pub open spec fn pinned_versions(deps: Seq<DepView>) -> Seq<(Seq<char>, VersionView)>
    decreases deps.len(),
{
    if deps.len() == 0 {
        seq![]
    } else {
        let rest = pinned_versions(deps.drop_last());
        match pinned(deps.last().range_str) {
            Some(v) => rest.push((deps.last().name, v)),
            None => rest,
        }
    }
}

/// What is asked for in advance: every package, and the advisories for every
/// version that is pinned, where they are wanted.
pub open spec fn prefetch_of(deps: Seq<DepView>, want_audit: bool) -> PrefetchView {
    PrefetchView {
        packages: deps.map_values(|d: DepView| d.name),
        audits: if want_audit {
            pinned_versions(deps)
        } else {
            seq![]
        },
    }
}

/// What is asked for in advance.
pub fn plan_prefetch(doc: &DocState, want_audit: bool) -> (r: Prefetch)
    ensures
        r.deep_view() == prefetch_of(doc.deep_view(), want_audit),
{
    let ghost all = doc.deep_view();
    let mut packages: Vec<String> = Vec::new();
    let mut audits: Vec<(String, Version)> = Vec::new();
    let mut i: usize = 0;
    assert(audits.deep_view() =~= pinned_versions(all.take(0)));
    while i < doc.deps.len()
        invariant
            i <= doc.deps.len(),
            all == doc.deps.deep_view(),
            packages.len() == i,
            forall|j: int| 0 <= j < i ==> (#[trigger] packages@[j])@ == all[j].name,
            want_audit ==> audits.deep_view() == pinned_versions(all.take(i as int)),
            !want_audit ==> audits.deep_view() == Seq::<(Seq<char>, VersionView)>::empty(),
        decreases doc.deps.len() - i,
    {
        assert(all.take(i + 1).drop_last() =~= all.take(i as int));
        assert(all[i as int] == doc.deps@[i as int].deep_view());
        packages.push(doc.deps[i].name.clone());
        if want_audit {
            let ghost before = audits.deep_view();
            if let Some(v) = current_pinned(doc.deps[i].range_str.as_str()) {
                let ghost view = v.deep_view();
                audits.push((doc.deps[i].name.clone(), v));
                assert(audits.deep_view() =~= before.push((all[i as int].name, view)));
            }
        }
        i = i + 1;
    }
    assert(all.take(all.len() as int) =~= all);
    assert(packages.deep_view() =~= all.map_values(|d: DepView| d.name));
    Prefetch { packages, audits }
}

// ---- Places in a document ----

/// The dependencies whose version string is at `pos`.
pub open spec fn deps_around(deps: Seq<DepView>, pos: Position) -> Seq<DepView>
    decreases deps.len(),
{
    if deps.len() == 0 {
        seq![]
    } else {
        let rest = deps_around(deps.drop_last(), pos);
        if in_range(pos, deps.last().value_range) {
            rest.push(deps.last())
        } else {
            rest
        }
    }
}

/// The first dependency whose version string is at `pos`.
pub open spec fn first_around(deps: Seq<DepView>, pos: Position) -> Option<DepView> {
    let around = deps_around(deps, pos);
    if around.len() > 0 {
        Some(around[0])
    } else {
        None
    }
}

/// The dependencies whose version string is at `pos`.
pub fn pick_around(deps: &Vec<DepEntry>, pos: Position) -> (r: Vec<DepEntry>)
    ensures
        r.deep_view() == deps_around(deps.deep_view(), pos),
{
    let ghost all = deps.deep_view();
    let mut out: Vec<DepEntry> = Vec::new();
    let mut i: usize = 0;
    assert(out.deep_view() =~= deps_around(all.take(0), pos));
    while i < deps.len()
        invariant
            i <= deps.len(),
            all == deps.deep_view(),
            out.deep_view() == deps_around(all.take(i as int), pos),
        decreases deps.len() - i,
    {
        assert(all.take(i + 1).drop_last() =~= all.take(i as int));
        assert(all[i as int] == deps@[i as int].deep_view());
        if position_in_range(pos, deps[i].value_range) {
            let ghost before = out.deep_view();
            out.push(deps[i].clone());
            assert(out.deep_view() =~= before.push(all[i as int]));
        }
        i = i + 1;
    }
    assert(all.take(all.len() as int) =~= all);
    out
}

/// The dependencies of an open document.
pub open spec fn deps_of(s: BackendView, uri: Seq<char>) -> Seq<DepView> {
    match lookup(s.docs, uri) {
        Some(deps) => deps,
        None => seq![],
    }
}

/// The dependencies of an open document that the user is shown something of.
pub open spec fn shown_deps(s: BackendView, uri: Seq<char>) -> Seq<DepView> {
    if s.settings.show_updates {
        deps_of(s, uri)
    } else {
        seq![]
    }
}

/// The updates of all dependencies that the user is offered.
pub open spec fn shown_bulk(s: BackendView, uri: Seq<char>) -> Seq<CodeActionView> {
    if s.settings.show_updates {
        bulk_offers(uri)
    } else {
        seq![]
    }
}

// ---- What the editor tells the server ----

/// The server once the document at `uri` holds `text`.
pub open spec fn ingested(s: BackendView, uri: Seq<char>, text: Seq<char>) -> BackendView {
    BackendView {
        docs: s.docs.insert(uri, document_deps(text, s.settings.check_sections, 0)),
        ..s
    }
}

impl Backend {
    /// The server before it is told anything.
    pub fn new() -> (r: Backend)
        ensures
            r@ == new_backend(),
    {
        Backend {
            docs: new_documents(),
            settings: Settings::default(),
            registry: Registry::new(),
            auditor: Auditor::new(),
        }
    }

    /// Decides what is done next about a request for a package.
    pub fn fetch(&mut self, name: &str, now: u64, event: FetchEvent) -> (r: FetchStep)
        ensures
            final(self)@ == (BackendView {
                registry: fetch_step(old(self)@.registry, name@, now, event).0,
                ..old(self)@
            }),
            r.deep_view() == fetch_step(old(self)@.registry, name@, now, event).1,
    {
        self.registry.fetch(name, now, event)
    }

    /// Decides what is done next about the advisories for a version.
    pub fn audit(&mut self, name: &str, version: &Version, now: u64, event: AuditEvent) -> (r:
        AuditStep)
        ensures
            final(self)@ == (BackendView {
                auditor: audit_step(old(self)@.auditor, name@, version.deep_view(), now, event).0,
                ..old(self)@
            }),
            r.deep_view() == audit_step(
                old(self)@.auditor,
                name@,
                version.deep_view(),
                now,
                event,
            ).1,
    {
        self.auditor.audit(name, version, now, event)
    }

    /// Takes new settings.
    pub fn configure(&mut self, settings: Settings)
        ensures
            final(self)@ == (BackendView { settings: settings.deep_view(), ..old(self)@ }),
    {
        self.settings = settings;
    }

    /// Takes new settings, and tells which documents are open, in some order.
    pub fn did_change_configuration(&mut self, settings: Settings) -> (r: Vec<String>)
        ensures
            final(self)@ == (BackendView { settings: settings.deep_view(), ..old(self)@ }),
            lists_keys(r.deep_view(), old(self)@.docs),
    {
        self.settings = settings;
        document_keys(&self.docs)
    }

    /// Takes the text of a document, and tells what to ask for in advance.
    pub fn ingest(&mut self, uri: &Url, text: &str) -> (r: Prefetch)
        requires
            positions_fit(text@),
        ensures
            final(self)@ == ingested(old(self)@, uri.deep_view().text, text@),
            r.deep_view() == prefetch_of(
                document_deps(text@, old(self)@.settings.check_sections, 0),
                old(self)@.settings.audit,
            ),
    {
        let doc = parse_package_json(text, self.settings.check_sections.as_slice());
        let prefetch = plan_prefetch(&doc, self.settings.audit);
        put_document(&mut self.docs, uri.text.clone(), doc);
        prefetch
    }

    /// Takes the text of a document that was opened. One that is no
    /// `package.json` is passed over.
    pub fn did_open(&mut self, uri: &Url, text: &str) -> (r: Option<Prefetch>)
        requires
            positions_fit(text@),
        ensures
            names_package_json(uri.deep_view().path) ==> final(self)@ == ingested(
                old(self)@,
                uri.deep_view().text,
                text@,
            ) && r.deep_view() == Some(
                prefetch_of(
                    document_deps(text@, old(self)@.settings.check_sections, 0),
                    old(self)@.settings.audit,
                ),
            ),
            !names_package_json(uri.deep_view().path) ==> final(self)@ == old(self)@ && r is None,
    {
        if is_package_json(uri) {
            Some(self.ingest(uri, text))
        } else {
            None
        }
    }

    /// Takes the texts that a document was changed to: the last of them is what
    /// it holds. One that is no `package.json` is passed over, and so is a
    /// change without a text.
    pub fn did_change(&mut self, uri: &Url, changes: &Vec<String>) -> (r: Option<Prefetch>)
        requires
            changes.len() > 0 ==> positions_fit(changes@.last()@),
        ensures
            names_package_json(uri.deep_view().path) && changes.len() > 0 ==> final(self)@
                == ingested(old(self)@, uri.deep_view().text, changes@.last()@) && r.deep_view()
                == Some(
                prefetch_of(
                    document_deps(changes@.last()@, old(self)@.settings.check_sections, 0),
                    old(self)@.settings.audit,
                ),
            ),
            !names_package_json(uri.deep_view().path) || changes.len() == 0 ==> final(self)@
                == old(self)@ && r is None,
    {
        if is_package_json(uri) && changes.len() > 0 {
            Some(self.ingest(uri, changes[changes.len() - 1].as_str()))
        } else {
            None
        }
    }

    /// Forgets a document.
    pub fn did_close(&mut self, uri: &Url)
        ensures
            final(self)@ == (BackendView {
                docs: old(self)@.docs.remove(uri.deep_view().text),
                ..old(self)@
            }),
    {
        drop_document(&mut self.docs, uri.text.as_str());
    }

    // ---- What the editor asks the server ----

    /// The dependencies of an open document.
    fn deps(&self, uri: &Url) -> (r: Vec<DepEntry>)
        ensures
            r.deep_view() == deps_of(self@, uri.deep_view().text),
    {
        match get_document(&self.docs, uri.text.as_str()) {
            Some(doc) => doc.deps,
            None => {
                let none: Vec<DepEntry> = Vec::new();
                assert(none.deep_view() =~= seq![]);
                none
            },
        }
    }

    /// The dependencies of an open document that the user is shown something
    /// of.
    fn shown(&self, uri: &Url) -> (r: Vec<DepEntry>)
        ensures
            r.deep_view() == shown_deps(self@, uri.deep_view().text),
    {
        if self.settings.show_updates {
            self.deps(uri)
        } else {
            let none: Vec<DepEntry> = Vec::new();
            assert(none.deep_view() =~= seq![]);
            none
        }
    }

    /// The first dependency whose version string is at `pos`.
    pub fn dep_at(&self, uri: &Url, pos: Position) -> (r: Option<DepEntry>)
        ensures
            r.deep_view() == first_around(deps_of(self@, uri.deep_view().text), pos),
    {
        let mut around = pick_around(&self.deps(uri), pos);
        if around.len() > 0 {
            Some(around.remove(0))
        } else {
            None
        }
    }

    /// The first dependency whose version string is at `pos` and of which the
    /// user is shown something, as a list.
    fn shown_dep_at(&self, uri: &Url, pos: Position) -> (r: Vec<DepEntry>)
        ensures
            r.deep_view() == at_most_one(
                first_around(shown_deps(self@, uri.deep_view().text), pos),
            ),
    {
        let mut around = pick_around(&self.shown(uri), pos);
        let ghost all = around.deep_view();
        let mut out: Vec<DepEntry> = Vec::new();
        if around.len() > 0 {
            out.push(around.remove(0));
            assert(out.deep_view() =~= seq![all[0]]);
        } else {
            assert(out.deep_view() =~= seq![]);
        }
        out
    }

    /// Begins to look for what is wrong with the dependencies of a document.
    pub fn diagnostics_for(&self, uri: &Url) -> (r: Survey<DiagnosticsJob>)
        ensures
            r.job() == DiagnosticsJob,
            r.deep_view() == fresh_survey(
                self@.settings,
                shown_deps(self@, uri.deep_view().text),
                Seq::<DiagnosticView>::empty(),
            ),
            !self@.settings.show_updates ==> r.deep_view() == fresh_survey(
                self@.settings,
                Seq::<DepView>::empty(),
                Seq::<DiagnosticView>::empty(),
            ),
    {
        let r = Survey::new(DiagnosticsJob, self.settings.clone(), self.shown(uri), Vec::new());
        assert(r.deep_view().out =~= seq![]);
        r
    }

    /// Begins to look for what to show behind the version strings of a
    /// document.
    pub fn inlay_hints_for(&self, uri: &Url) -> (r: Survey<HintsJob>)
        ensures
            r.job() == HintsJob,
            r.deep_view() == fresh_survey(
                self@.settings,
                shown_deps(self@, uri.deep_view().text),
                Seq::<InlayHintView>::empty(),
            ),
            !self@.settings.show_updates ==> r.deep_view() == fresh_survey(
                self@.settings,
                Seq::<DepView>::empty(),
                Seq::<InlayHintView>::empty(),
            ),
    {
        let r = Survey::new(HintsJob, self.settings.clone(), self.shown(uri), Vec::new());
        assert(r.deep_view().out =~= seq![]);
        r
    }

    /// Begins to look for what the version string at `pos` may be completed to.
    pub fn completions_for(&self, uri: &Url, pos: Position) -> (r: Survey<CompletionsJob>)
        ensures
            r.job() == CompletionsJob,
            r.deep_view() == fresh_survey(
                self@.settings,
                at_most_one(first_around(shown_deps(self@, uri.deep_view().text), pos)),
                Seq::<Seq<CompletionItemView>>::empty(),
            ),
            !self@.settings.show_updates ==> r.deep_view() == fresh_survey(
                self@.settings,
                Seq::<DepView>::empty(),
                Seq::<Seq<CompletionItemView>>::empty(),
            ),
    {
        let deps = self.shown_dep_at(uri, pos);
        let r = Survey::new(CompletionsJob, self.settings.clone(), deps, Vec::new());
        assert(r.deep_view().out =~= seq![]);
        r
    }

    /// Begins to look for what to say about the dependency at `pos`.
    pub fn hover_for(&self, uri: &Url, pos: Position) -> (r: Survey<HoverJob>)
        ensures
            r.job() == HoverJob,
            r.deep_view() == fresh_survey(
                self@.settings,
                at_most_one(first_around(shown_deps(self@, uri.deep_view().text), pos)),
                Seq::<HoverView>::empty(),
            ),
            !self@.settings.show_updates ==> r.deep_view() == fresh_survey(
                self@.settings,
                Seq::<DepView>::empty(),
                Seq::<HoverView>::empty(),
            ),
    {
        let deps = self.shown_dep_at(uri, pos);
        let r = Survey::new(HoverJob, self.settings.clone(), deps, Vec::new());
        assert(r.deep_view().out =~= seq![]);
        r
    }

    /// Begins to look for what to offer at `cursor`: the updates of all
    /// dependencies, then what is offered for the dependencies at the cursor.
    pub fn code_actions_for(&self, uri: Url, cursor: Position) -> (r: Survey<ActionsJob>)
        ensures
            r.job().uri == uri,
            r.deep_view() == fresh_survey(
                self@.settings,
                deps_around(shown_deps(self@, uri.deep_view().text), cursor),
                shown_bulk(self@, uri.deep_view().text),
            ),
            !self@.settings.show_updates ==> r.deep_view() == fresh_survey(
                self@.settings,
                Seq::<DepView>::empty(),
                Seq::<CodeActionView>::empty(),
            ),
    {
        let bulk = if self.settings.show_updates {
            bulk_update_actions(&uri)
        } else {
            let none: Vec<CodeAction> = Vec::new();
            assert(none.deep_view() =~= seq![]);
            none
        };
        let deps = pick_around(&self.shown(&uri), cursor);
        Survey::new(ActionsJob { uri }, self.settings.clone(), deps, bulk)
    }

    /// Begins to look for what to show behind the version strings of a
    /// document, if it is a `package.json`.
    pub fn inlay_hint(&self, uri: &Url) -> (r: Option<Survey<HintsJob>>)
        ensures
            match r {
                Some(s) => names_package_json(uri.deep_view().path) && s.job() == HintsJob
                    && s.deep_view() == fresh_survey(
                    self@.settings,
                    shown_deps(self@, uri.deep_view().text),
                    Seq::<InlayHintView>::empty(),
                ),
                None => !names_package_json(uri.deep_view().path),
            },
    {
        if is_package_json(uri) {
            Some(self.inlay_hints_for(uri))
        } else {
            None
        }
    }

    /// Begins to look for what the version string at `pos` may be completed to
    /// in a document, if it is a `package.json`.
    pub fn completion(&self, uri: &Url, pos: Position) -> (r: Option<Survey<CompletionsJob>>)
        ensures
            match r {
                Some(s) => names_package_json(uri.deep_view().path) && s.job() == CompletionsJob
                    && s.deep_view() == fresh_survey(
                    self@.settings,
                    at_most_one(first_around(shown_deps(self@, uri.deep_view().text), pos)),
                    Seq::<Seq<CompletionItemView>>::empty(),
                ),
                None => !names_package_json(uri.deep_view().path),
            },
    {
        if is_package_json(uri) {
            Some(self.completions_for(uri, pos))
        } else {
            None
        }
    }

    /// Begins to look for what to say about the dependency at `pos` of a
    /// document, if it is a `package.json`.
    pub fn hover(&self, uri: &Url, pos: Position) -> (r: Option<Survey<HoverJob>>)
        ensures
            match r {
                Some(s) => names_package_json(uri.deep_view().path) && s.job() == HoverJob
                    && s.deep_view() == fresh_survey(
                    self@.settings,
                    at_most_one(first_around(shown_deps(self@, uri.deep_view().text), pos)),
                    Seq::<HoverView>::empty(),
                ),
                None => !names_package_json(uri.deep_view().path),
            },
    {
        if is_package_json(uri) {
            Some(self.hover_for(uri, pos))
        } else {
            None
        }
    }

    /// Begins to look for what to offer at `cursor` in a document, if it is a `package.json`.
    pub fn code_action(&self, uri: Url, cursor: Position) -> (r: Option<Survey<ActionsJob>>)
        ensures
            match r {
                Some(s) => names_package_json(uri.deep_view().path) && s.job().uri == uri
                    && s.deep_view() == fresh_survey(
                    self@.settings,
                    deps_around(shown_deps(self@, uri.deep_view().text), cursor),
                    shown_bulk(self@, uri.deep_view().text),
                ),
                None => !names_package_json(uri.deep_view().path),
            },
    {
        if is_package_json(&uri) {
            Some(self.code_actions_for(uri, cursor))
        } else {
            None
        }
    }

    /// Begins to look for the edits that update all dependencies of a document
    /// within a tier. Where updates are not to be shown, none are made.
    pub fn run_update_all(&self, uri: &Url, tier: String) -> (r: Survey<EditsJob>)
        ensures
            r.job().tier == tier,
            r.deep_view() == fresh_survey(
                self@.settings,
                shown_deps(self@, uri.deep_view().text),
                Seq::<TextEditView>::empty(),
            ),
            !self@.settings.show_updates ==> r.deep_view() == fresh_survey(
                self@.settings,
                Seq::<DepView>::empty(),
                Seq::<TextEditView>::empty(),
            ),
    {
        let r = Survey::new(EditsJob { tier }, self.settings.clone(), self.shown(uri), Vec::new());
        assert(r.deep_view().out =~= seq![]);
        r
    }
}

/// The change that some edits make to the document at `uri`; none where there
/// are no edits.
pub open spec fn combined_edit(uri: Seq<char>, edits: Seq<TextEditView>) -> Option<
    WorkspaceEditView,
> {
    if edits.len() == 0 {
        None
    } else {
        Some(WorkspaceEditView { uri, edits })
    }
}

/// The change that some edits make to a document; none where there are no
/// edits.
pub fn combine_edits(uri: &Url, edits: Vec<TextEdit>) -> (r: Option<WorkspaceEdit>)
    ensures
        r.deep_view() == combined_edit(uri.deep_view().text, edits.deep_view()),
{
    if edits.len() == 0 {
        None
    } else {
        Some(WorkspaceEdit { uri: uri.text.clone(), edits })
    }
}

// ---- Commands ----

/// What a command is to do.
#[derive(Debug, PartialEq, Eq)]
pub enum CommandPlan {
    /// Nothing.
    Nothing,
    /// Open an address in a browser.
    OpenUrl(Url),
    /// Update all dependencies of a document within a tier.
    UpdateAll(Url, String),
}

/// The model of a [`CommandPlan`].
#[verifier::ext_equal]
pub enum CommandPlanView {
    Nothing,
    OpenUrl(UrlView),
    UpdateAll(UrlView, Seq<char>),
}

impl DeepView for CommandPlan {
    type V = CommandPlanView;

    open spec fn deep_view(&self) -> CommandPlanView {
        match self {
            CommandPlan::Nothing => CommandPlanView::Nothing,
            CommandPlan::OpenUrl(url) => CommandPlanView::OpenUrl(url.deep_view()),
            CommandPlan::UpdateAll(url, tier) => CommandPlanView::UpdateAll(url.deep_view(), tier@),
        }
    }
}

/// The argument at the place `i`, if it is a string.
pub open spec fn text_argument(arguments: Seq<Json>, i: int) -> Option<Seq<char>> {
    if 0 <= i < arguments.len() {
        match arguments[i] {
            Json::Text(s) => Some(s@),
            _ => None,
        }
    } else {
        None
    }
}

/// What a command is to do, where the first argument stands for `address`. The
/// tier is the second argument; where it is no string, it is `major`.
pub open spec fn plan_with(
    command: Seq<char>,
    arguments: Seq<Json>,
    address: Option<UrlView>,
) -> CommandPlanView {
    match address {
        Some(url) => if command == OPEN_URL@ {
            CommandPlanView::OpenUrl(url)
        } else if command == UPDATE_ALL@ {
            CommandPlanView::UpdateAll(
                url,
                match text_argument(arguments, 1) {
                    Some(tier) => tier,
                    None => "major"@,
                },
            )
        } else {
            CommandPlanView::Nothing
        },
        None => CommandPlanView::Nothing,
    }
}

/// The address that the first argument is, if it is one.
pub open spec fn address_argument(arguments: Seq<Json>) -> Option<UrlView> {
    match text_argument(arguments, 0) {
        Some(text) => parsed_url(text),
        None => None,
    }
}

/// What a command is to do, where the first argument stands for `address`.
pub fn plan_for_address(command: &str, arguments: &Vec<Json>, address: Option<Url>) -> (r:
    CommandPlan)
    ensures
        r.deep_view() == plan_with(command@, arguments@, address.deep_view()),
{
    let url = match address {
        Some(url) => url,
        None => {
            return CommandPlan::Nothing;
        },
    };
    if str_eq(command, OPEN_URL) {
        CommandPlan::OpenUrl(url)
    } else if str_eq(command, UPDATE_ALL) {
        let tier = if arguments.len() > 1 {
            match &arguments[1] {
                Json::Text(s) => s.clone(),
                _ => "major".to_owned(),
            }
        } else {
            "major".to_owned()
        };
        CommandPlan::UpdateAll(url, tier)
    } else {
        CommandPlan::Nothing
    }
}

/// What a command is to do. One that is not known, or whose first argument is
/// no address, does nothing.
pub fn execute_command(command: &str, arguments: &Vec<Json>) -> (r: CommandPlan)
    ensures
        r.deep_view() == plan_with(command@, arguments@, address_argument(arguments@)),
{
    let address = if arguments.len() > 0 {
        match &arguments[0] {
            Json::Text(s) => Url::parse(s.as_str()),
            _ => None,
        }
    } else {
        None
    };
    plan_for_address(command, arguments, address)
}

// ---- Laws ----

/// What a document declares is what the server knows of it, until it is told of
/// another text, whatever else it is told in between: of other documents, of
/// settings, or of answers.
pub proof fn law_document_is_remembered(
    s: BackendView,
    uri: Seq<char>,
    text: Seq<char>,
    other: Seq<char>,
    other_text: Seq<char>,
    settings: SettingsView,
    registry: RegistryView,
    auditor: AuditorView,
)
    requires
        other != uri,
    ensures
        ({
            let after = ingested(s, uri, text);
            let deps = document_deps(text, s.settings.check_sections, 0);
            &&& deps_of(after, uri) == deps
            &&& deps_of(after, other) == deps_of(s, other)
            &&& deps_of(ingested(after, other, other_text), uri) == deps
            &&& deps_of(
                BackendView { docs: after.docs.remove(other), settings, registry, auditor },
                uri,
            ) == deps
        }),
{
}

/// Nothing is known of a document that was closed.
pub proof fn law_closed_document_is_forgotten(s: BackendView, uri: Seq<char>)
    ensures
        deps_of(BackendView { docs: s.docs.remove(uri), ..s }, uri) == Seq::<DepView>::empty(),
{
}

/// A walk through nothing is at its end at once, and has found nothing.
pub open spec fn is_silent<J: Job>(job: J, s: SurveyView<<J::Item as DeepView>::V>) -> bool {
    run(job, s) == (s, SurveyActionView::Finish) && s.out.len() == 0
}

/// Where updates are not to be shown, the server is silent: whatever the editor
/// asks for, diagnostics, hints, completions, a hover, code actions or an update
/// of all dependencies, nothing is asked and nothing is found.
pub proof fn law_silence(
    s: BackendView,
    uri: Seq<char>,
    pos: Position,
    actions: ActionsJob,
    updates: EditsJob,
)
    requires
        !s.settings.show_updates,
    ensures
        ({
            let all = shown_deps(s, uri);
            let one = at_most_one(first_around(all, pos));
            &&& is_silent(DiagnosticsJob, fresh_survey(s.settings, all, seq![]))
            &&& is_silent(HintsJob, fresh_survey(s.settings, all, seq![]))
            &&& is_silent(CompletionsJob, fresh_survey(s.settings, one, seq![]))
            &&& is_silent(HoverJob, fresh_survey(s.settings, one, seq![]))
            &&& is_silent(
                actions,
                fresh_survey(s.settings, deps_around(all, pos), shown_bulk(s, uri)),
            )
            &&& is_silent(updates, fresh_survey(s.settings, all, seq![]))
        }),
{
}

/// The dependencies at a place are those of the document whose version string
/// holds the place.
pub proof fn law_deps_around(deps: Seq<DepView>, pos: Position)
    ensures
        forall|d: DepView| #[trigger]
            deps_around(deps, pos).contains(d) <==> deps.contains(d) && in_range(
                pos,
                d.value_range,
            ),
        first_around(deps, pos) is None <==> forall|i: int|
            0 <= i < deps.len() ==> !in_range(pos, (#[trigger] deps[i]).value_range),
    decreases deps.len(),
{
    if deps.len() > 0 {
        let rest = deps.drop_last();
        let last = deps.last();
        let before = deps_around(rest, pos);
        let after = deps_around(deps, pos);
        law_deps_around(rest, pos);
        assert forall|d: DepView| #[trigger] after.contains(d) <==> deps.contains(d) && in_range(
            pos,
            d.value_range,
        ) by {
            if after.contains(d) {
                let k = choose|k: int| 0 <= k < after.len() && after[k] == d;
                if k < before.len() {
                    assert(before[k] == d);
                    assert(before.contains(d));
                    let m = choose|m: int| 0 <= m < rest.len() && rest[m] == d;
                    assert(deps[m] == d);
                } else {
                    assert(d == last);
                    assert(deps[deps.len() - 1] == d);
                }
            }
            if deps.contains(d) && in_range(pos, d.value_range) {
                let m = choose|m: int| 0 <= m < deps.len() && deps[m] == d;
                if m < rest.len() {
                    assert(rest[m] == d);
                    assert(before.contains(d));
                    let k = choose|k: int| 0 <= k < before.len() && before[k] == d;
                    assert(after[k] == d);
                } else {
                    assert(after[after.len() - 1] == d);
                }
            }
        }
        if after.len() == 0 {
            assert forall|i: int| 0 <= i < deps.len() implies !in_range(
                pos,
                (#[trigger] deps[i]).value_range,
            ) by {
                assert(deps.contains(deps[i]));
                assert(!after.contains(deps[i]));
            }
        } else {
            assert(after.contains(after[0]));
            let m = choose|m: int| 0 <= m < deps.len() && deps[m] == after[0];
            assert(in_range(pos, deps[m].value_range));
        }
    }
}

/// The dependency at a place is the first of the document whose version string
/// holds the place.
pub proof fn law_dep_at_is_first(deps: Seq<DepView>, pos: Position)
    requires
        first_around(deps, pos) is Some,
    ensures
        exists|i: int|
            0 <= i < deps.len() && (#[trigger] deps[i]) == first_around(deps, pos)->0 && in_range(
                pos,
                deps[i].value_range,
            ) && forall|j: int| 0 <= j < i ==> !in_range(pos, (#[trigger] deps[j]).value_range),
    decreases deps.len(),
{
    let rest = deps.drop_last();
    let n = deps.len() - 1;
    if first_around(rest, pos) is Some {
        law_dep_at_is_first(rest, pos);
        let i = choose|i: int|
            0 <= i < rest.len() && (#[trigger] rest[i]) == first_around(rest, pos)->0 && in_range(
                pos,
                rest[i].value_range,
            ) && forall|j: int| 0 <= j < i ==> !in_range(pos, (#[trigger] rest[j]).value_range);
        assert(deps[i] == rest[i]);
        assert forall|j: int| 0 <= j < i implies !in_range(
            pos,
            (#[trigger] deps[j]).value_range,
        ) by {
            assert(deps[j] == rest[j]);
        }
    } else {
        law_deps_around(rest, pos);
        assert forall|j: int| 0 <= j < n implies !in_range(
            pos,
            (#[trigger] deps[j]).value_range,
        ) by {
            assert(deps[j] == rest[j]);
        }
        assert(deps[n] == deps.last());
    }
}

/// What is asked for in advance is all that will be asked for: the package of
/// every dependency and, where advisories are wanted, those for every version
/// that is pinned.
pub proof fn law_prefetch_covers_all(deps: Seq<DepView>, want_audit: bool, i: int)
    requires
        0 <= i < deps.len(),
    ensures
        prefetch_of(deps, want_audit).packages.contains(deps[i].name),
        want_audit && pinned(deps[i].range_str) is Some ==> prefetch_of(
            deps,
            want_audit,
        ).audits.contains((deps[i].name, pinned(deps[i].range_str)->0)),
{
    let names = prefetch_of(deps, want_audit).packages;
    assert(names[i] == deps[i].name);
    if pinned(deps[i].range_str) is Some {
        lemma_pinned_versions(deps, i);
    }
}

proof fn lemma_pinned_versions(deps: Seq<DepView>, i: int)
    requires
        0 <= i < deps.len(),
        pinned(deps[i].range_str) is Some,
    ensures
        pinned_versions(deps).contains((deps[i].name, pinned(deps[i].range_str)->0)),
    decreases deps.len(),
{
    let found = (deps[i].name, pinned(deps[i].range_str)->0);
    let rest = deps.drop_last();
    let all = pinned_versions(deps);
    if i == deps.len() - 1 {
        assert(all[all.len() - 1] == found);
    } else {
        assert(rest[i] == deps[i]);
        lemma_pinned_versions(rest, i);
        let before = pinned_versions(rest);
        let k = choose|k: int| 0 <= k < before.len() && before[k] == found;
        assert(all[k] == found);
    }
}

/// The command that comes with the offer to update all dependencies updates all
/// dependencies of that document within that tier.
pub proof fn law_bulk_command(uri: Seq<char>, tier: Seq<char>, arguments: Seq<Json>, url: UrlView)
    requires
        ({
            let command = bulk_offer(uri, tier).command->0;
            &&& arguments.len() == command.arguments.len()
            &&& forall|i: int|
                0 <= i < arguments.len() ==> #[trigger] text_argument(arguments, i) == Some(
                    command.arguments[i],
                )
        }),
        parsed_url(uri) == Some(url),
    ensures
        plan_with(
            (bulk_offer(uri, tier).command->0).command,
            arguments,
            address_argument(arguments),
        ) == CommandPlanView::UpdateAll(url, tier),
{
    lemma_commands_differ();
    assert(text_argument(arguments, 0) == Some(uri));
    assert(text_argument(arguments, 1) == Some(tier));
}

/// The command that comes with the offer to open an address opens that address.
pub proof fn law_open_command(
    title: Seq<char>,
    address: Seq<char>,
    arguments: Seq<Json>,
    url: UrlView,
)
    requires
        text_argument(arguments, 0) == Some((open_offer(title, address).command->0).arguments[0]),
        parsed_url(address) == Some(url),
    ensures
        plan_with(
            (open_offer(title, address).command->0).command,
            arguments,
            address_argument(arguments),
        ) == CommandPlanView::OpenUrl(url),
{
}

proof fn lemma_commands_differ()
    ensures
        OPEN_URL@ != UPDATE_ALL@,
{
    reveal_strlit("package-json-upgrade.openUrl");
    reveal_strlit("package-json-upgrade.updateAll");
    assert(OPEN_URL@.len() != UPDATE_ALL@.len());
}

/// A text that the server is told of changes what it knows of that document, and
/// nothing of its settings and of what it remembers of packages and advisories.
pub proof fn law_ingesting_changes_the_document_alone(
    s: BackendView,
    uri: Seq<char>,
    text: Seq<char>,
)
    ensures
        ({
            let after = ingested(s, uri, text);
            &&& after.settings == s.settings
            &&& after.registry == s.registry
            &&& after.auditor == s.auditor
            &&& after.docs.dom() == s.docs.dom().insert(uri)
            &&& after.docs[uri] == document_deps(text, s.settings.check_sections, 0)
        }),
{
    assert(ingested(s, uri, text).docs.dom() =~= s.docs.dom().insert(uri));
}

/// A new server knows no document, no package and no advisory, and has the
/// settings of a user who has asked for nothing.
pub proof fn law_new_server_knows_nothing(uri: Seq<char>)
    ensures
        deps_of(new_backend(), uri).len() == 0,
        new_backend().docs.dom() == Set::<Seq<char>>::empty(),
        new_backend().registry.cache.dom() == Set::<Seq<char>>::empty(),
        new_backend().auditor.cache.dom() == Set::<Seq<char>>::empty(),
        new_backend().registry.in_flight == 0,
        new_backend().auditor.in_flight == 0,
        new_backend().settings == default_settings(),
{
    assert(new_backend().docs.dom() =~= Set::<Seq<char>>::empty());
    assert(new_backend().registry.cache.dom() =~= Set::<Seq<char>>::empty());
    assert(new_backend().auditor.cache.dom() =~= Set::<Seq<char>>::empty());
}

/// Where updates are to be shown, they are shown of all dependencies of an open
/// document, and of no document that is not open, and updates of all of them
/// are offered.
pub proof fn law_all_dependencies_are_shown(s: BackendView, uri: Seq<char>)
    requires
        s.settings.show_updates,
    ensures
        s.docs.dom().contains(uri) ==> shown_deps(s, uri) == s.docs[uri],
        !s.docs.dom().contains(uri) ==> shown_deps(s, uri).len() == 0,
        shown_bulk(s, uri) == bulk_offers(uri),
{
}

proof fn lemma_around_in_order(deps: Seq<DepView>, pos: Position) -> (at: Seq<int>)
    ensures
        at.len() == deps_around(deps, pos).len(),
        forall|i: int|
            0 <= i < at.len() ==> 0 <= #[trigger] at[i] < deps.len() && deps[at[i]] == deps_around(
                deps,
                pos,
            )[i] && in_range(pos, deps[at[i]].value_range),
        forall|i: int, j: int| 0 <= i < j < at.len() ==> #[trigger] at[i] < #[trigger] at[j],
        forall|k: int|
            0 <= k < deps.len() && in_range(pos, (#[trigger] deps[k]).value_range) ==> at.contains(
                k,
            ),
    decreases deps.len(),
{
    if deps.len() == 0 {
        seq![]
    } else {
        let rest = deps.drop_last();
        let n = deps.len() - 1;
        let before = lemma_around_in_order(rest, pos);
        if in_range(pos, deps.last().value_range) {
            let at = before.push(n);
            assert forall|k: int|
                0 <= k < deps.len() && in_range(
                    pos,
                    (#[trigger] deps[k]).value_range,
                ) implies at.contains(k) by {
                if k < n {
                    assert(rest[k] == deps[k]);
                    let m = choose|m: int| 0 <= m < before.len() && before[m] == k;
                    assert(at[m] == k);
                } else {
                    assert(at[before.len() as int] == k);
                }
            }
            at
        } else {
            assert forall|k: int|
                0 <= k < deps.len() && in_range(
                    pos,
                    (#[trigger] deps[k]).value_range,
                ) implies before.contains(k) by {
                assert(k < n);
                assert(rest[k] == deps[k]);
            }
            before
        }
    }
}

/// The dependencies at a place are listed in the order of the document, each of
/// them once.
pub proof fn law_deps_around_in_order(deps: Seq<DepView>, pos: Position)
    ensures
        exists|at: Seq<int>|
            {
                &&& #[trigger] at.len() == deps_around(deps, pos).len()
                &&& forall|i: int|
                    0 <= i < at.len() ==> 0 <= #[trigger] at[i] < deps.len() && deps[at[i]]
                        == deps_around(deps, pos)[i] && in_range(pos, deps[at[i]].value_range)
                &&& forall|i: int, j: int|
                    0 <= i < j < at.len() ==> #[trigger] at[i] < #[trigger] at[j]
                &&& forall|k: int|
                    0 <= k < deps.len() && in_range(pos, (#[trigger] deps[k]).value_range)
                        ==> at.contains(k)
            },
{
    let at = lemma_around_in_order(deps, pos);
    assert(at.len() == deps_around(deps, pos).len());
}

/// A place is at a version string where it does not come before its beginning
/// nor behind its end, line by line.
pub proof fn law_places_at_a_version_string(pos: Position, range: LspRange)
    ensures
        range.start.line < pos.line < range.end.line ==> in_range(pos, range),
        pos.line < range.start.line || pos.line > range.end.line ==> !in_range(pos, range),
        pos.line == range.start.line && pos.character < range.start.character ==> !in_range(
            pos,
            range,
        ),
        pos.line == range.end.line && pos.character > range.end.character ==> !in_range(pos, range),
        pos.line == range.start.line == range.end.line && range.start.character <= pos.character
            <= range.end.character ==> in_range(pos, range),
        pos.line == range.start.line && range.start.line < range.end.line && pos.character
            >= range.start.character ==> in_range(pos, range),
        pos.line == range.end.line && range.start.line < range.end.line && pos.character
            <= range.end.character ==> in_range(pos, range),
{
}

proof fn lemma_pinned_in_order(deps: Seq<DepView>) -> (at: Seq<int>)
    ensures
        at.len() == pinned_versions(deps).len(),
        forall|i: int|
            0 <= i < at.len() ==> 0 <= #[trigger] at[i] < deps.len() && pinned_versions(deps)[i].0
                == deps[at[i]].name && pinned(deps[at[i]].range_str) == Some(
                pinned_versions(deps)[i].1,
            ),
        forall|i: int, j: int| 0 <= i < j < at.len() ==> #[trigger] at[i] < #[trigger] at[j],
        forall|k: int|
            0 <= k < deps.len() && pinned((#[trigger] deps[k]).range_str) is Some ==> at.contains(
                k,
            ),
    decreases deps.len(),
{
    if deps.len() == 0 {
        seq![]
    } else {
        let rest = deps.drop_last();
        let n = deps.len() - 1;
        let before = lemma_pinned_in_order(rest);
        if pinned(deps.last().range_str) is Some {
            let at = before.push(n);
            assert forall|k: int|
                0 <= k < deps.len() && pinned(
                    (#[trigger] deps[k]).range_str,
                ) is Some implies at.contains(k) by {
                if k < n {
                    assert(rest[k] == deps[k]);
                    let m = choose|m: int| 0 <= m < before.len() && before[m] == k;
                    assert(at[m] == k);
                } else {
                    assert(at[before.len() as int] == k);
                }
            }
            at
        } else {
            assert forall|k: int|
                0 <= k < deps.len() && pinned(
                    (#[trigger] deps[k]).range_str,
                ) is Some implies before.contains(k) by {
                assert(k < n);
                assert(rest[k] == deps[k]);
            }
            before
        }
    }
}

/// What is asked for in advance is nothing but what will be asked for: one
/// package for each dependency, and the advisories for the version that it pins,
/// in the order of the document. Where advisories are not wanted, none are asked
/// for.
pub proof fn law_prefetch_asks_for_nothing_else(deps: Seq<DepView>, want_audit: bool)
    ensures
        ({
            let p = prefetch_of(deps, want_audit);
            &&& p.packages.len() == deps.len()
            &&& forall|i: int| 0 <= i < deps.len() ==> #[trigger] p.packages[i] == deps[i].name
            &&& !want_audit ==> p.audits.len() == 0
            &&& want_audit ==> exists|at: Seq<int>|
                {
                    &&& #[trigger] at.len() == p.audits.len()
                    &&& forall|i: int|
                        0 <= i < at.len() ==> 0 <= #[trigger] at[i] < deps.len() && p.audits[i].0
                            == deps[at[i]].name && pinned(deps[at[i]].range_str) == Some(
                            p.audits[i].1,
                        )
                    &&& forall|i: int, j: int|
                        0 <= i < j < at.len() ==> #[trigger] at[i] < #[trigger] at[j]
                    &&& forall|k: int|
                        0 <= k < deps.len() && pinned((#[trigger] deps[k]).range_str) is Some
                            ==> at.contains(k)
                }
        }),
{
    let at = lemma_pinned_in_order(deps);
    if want_audit {
        assert(at.len() == prefetch_of(deps, want_audit).audits.len());
    }
}

/// Some edits make one change to the document with all of them in their order,
/// and no change where there are none.
pub proof fn law_edits_make_one_change(uri: Seq<char>, edits: Seq<TextEditView>)
    ensures
        combined_edit(uri, edits) is None <==> edits.len() == 0,
        combined_edit(uri, edits) matches Some(e) ==> e.uri == uri && e.edits == edits,
{
}

/// A command opens the address that its first argument is, or updates the
/// document at that address within the tier that its second argument is, or
/// within the tier `major` where that is missing or no text. A command of another
/// name, or without an address, does nothing.
pub proof fn law_commands(command: Seq<char>, arguments: Seq<Json>, url: UrlView)
    ensures
        plan_with("package-json-upgrade.openUrl"@, arguments, Some(url))
            == CommandPlanView::OpenUrl(url),
        plan_with("package-json-upgrade.updateAll"@, arguments, Some(url)) matches
            CommandPlanView::UpdateAll(u, tier) && u == url && (if arguments.len() > 1
            && arguments[1] is Text {
            tier == (arguments[1]->Text_0)@
        } else {
            tier == "major"@
        }),
        command != "package-json-upgrade.openUrl"@ && command != "package-json-upgrade.updateAll"@
            ==> plan_with(command, arguments, Some(url)) == CommandPlanView::Nothing,
        plan_with(command, arguments, None) == CommandPlanView::Nothing,
        arguments.len() > 0 && arguments[0] is Text ==> address_argument(arguments) == parsed_url(
            (arguments[0]->Text_0)@,
        ),
        arguments.len() == 0 || arguments[0] !is Text ==> address_argument(arguments) is None,
{
    lemma_commands_differ();
}

} // verus!
