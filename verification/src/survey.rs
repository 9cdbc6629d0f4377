//! Going through the dependencies of a document, one after the other, and
//! asking the registry and the advisory database on the way.
//!
//! The asking is done elsewhere: a survey says what it needs to know next, and
//! goes on when it is told.

use vstd::prelude::*;
use vstd::string::*;

use crate::audit::{AuditResult, AuditView};
use crate::document::{DepEntry, DepView};
use crate::registry::{CachedPackage, PackageView};
use crate::semver::{Version, VersionView};
use crate::settings::{Settings, SettingsView};

verus! {

/// What has come of a question.
#[derive(Debug)]
pub enum Reply<T> {
    /// It was not asked yet.
    Unasked,
    /// There was no answer.
    Failed,
    /// This was the answer.
    Got(T),
}

/// The model of a [`Reply`].
#[verifier::ext_equal]
pub enum ReplyView<V> {
    Unasked,
    Failed,
    Got(V),
}

impl<T: DeepView> DeepView for Reply<T> {
    type V = ReplyView<T::V>;

    open spec fn deep_view(&self) -> ReplyView<T::V> {
        match self {
            Reply::Unasked => ReplyView::Unasked,
            Reply::Failed => ReplyView::Failed,
            Reply::Got(t) => ReplyView::Got(t.deep_view()),
        }
    }
}

/// What has come of a question that was asked.
pub open spec fn reply_of<V>(answer: Option<V>) -> ReplyView<V> {
    match answer {
        Some(v) => ReplyView::Got(v),
        None => ReplyView::Failed,
    }
}

/// What has come of a question that was asked.
fn settle<T: DeepView>(answer: Option<T>) -> (r: Reply<T>)
    ensures
        r.deep_view() == reply_of(answer.deep_view()),
{
    match answer {
        Some(t) => Reply::Got(t),
        None => Reply::Failed,
    }
}

/// What is needed next, or what was found.
#[derive(Debug)]
pub enum Step<T> {
    /// What the registry says of this package.
    FetchPackage(String),
    /// What the database says of this version of this package.
    FetchAudit(String, Version),
    /// Nothing: this was found.
    Done(T),
}

/// The model of a [`Step`].
#[verifier::ext_equal]
pub enum StepView<V> {
    FetchPackage(Seq<char>),
    FetchAudit(Seq<char>, VersionView),
    Done(V),
}

impl<T: DeepView> DeepView for Step<T> {
    type V = StepView<T::V>;

    open spec fn deep_view(&self) -> StepView<T::V> {
        match self {
            Step::FetchPackage(name) => StepView::FetchPackage(name@),
            Step::FetchAudit(name, version) => StepView::FetchAudit(name@, version.deep_view()),
            Step::Done(t) => StepView::Done(t.deep_view()),
        }
    }
}

/// What is looked for in the dependencies of a document.
pub trait Job: Sized {
    /// What is found.
    type Item: DeepView;

    /// What is found in one dependency, or what is needed to find it.
    spec fn findings(
        &self,
        settings: SettingsView,
        dep: DepView,
        package: ReplyView<PackageView>,
        audit: ReplyView<AuditView>,
    ) -> StepView<Seq<<Self::Item as DeepView>::V>>;

    /// What is found in one dependency, or what is needed to find it.
    fn examine(
        &self,
        settings: &Settings,
        dep: &DepEntry,
        package: &Reply<CachedPackage>,
        audit: &Reply<AuditResult>,
    ) -> (r: Step<Vec<Self::Item>>)
        ensures
            r.deep_view() == self.findings(
                settings.deep_view(),
                dep.deep_view(),
                package.deep_view(),
                audit.deep_view(),
            ),
    ;

    /// The package of the dependency is asked for once, then perhaps the
    /// advisories for one of its versions, and then no more.
    proof fn asks_in_order(
        &self,
        settings: SettingsView,
        dep: DepView,
        package: ReplyView<PackageView>,
        audit: ReplyView<AuditView>,
    )
        ensures
            match self.findings(settings, dep, package, audit) {
                StepView::FetchPackage(name) => name == dep.name && package is Unasked,
                StepView::FetchAudit(name, _) => name == dep.name && package !is Unasked
                    && audit is Unasked,
                StepView::Done(_) => true,
            },
    ;
}

/// What has happened to a survey.
pub enum SurveyEvent {
    /// It begins.
    Start,
    /// The registry has answered, or will not.
    Package(Option<CachedPackage>),
    /// The database has answered, or will not.
    Audit(Option<AuditResult>),
}

/// What a survey needs next.
#[derive(Debug)]
pub enum SurveyAction {
    /// What the registry says of this package.
    FetchPackage(String),
    /// What the database says of this version of this package.
    FetchAudit(String, Version),
    /// Nothing: it is at its end.
    Finish,
}

/// The model of a [`SurveyAction`].
#[verifier::ext_equal]
pub enum SurveyActionView {
    FetchPackage(Seq<char>),
    FetchAudit(Seq<char>, VersionView),
    Finish,
}

impl DeepView for SurveyAction {
    type V = SurveyActionView;

    open spec fn deep_view(&self) -> SurveyActionView {
        match self {
            SurveyAction::FetchPackage(name) => SurveyActionView::FetchPackage(name@),
            SurveyAction::FetchAudit(name, version) => SurveyActionView::FetchAudit(
                name@,
                version.deep_view(),
            ),
            SurveyAction::Finish => SurveyActionView::Finish,
        }
    }
}

/// A walk through some dependencies.
pub struct Survey<J: Job> {
    job: J,
    settings: Settings,
    deps: Vec<DepEntry>,
    next: usize,
    package: Reply<CachedPackage>,
    audit: Reply<AuditResult>,
    out: Vec<J::Item>,
}

/// The model of a [`Survey`].
#[verifier::ext_equal]
pub struct SurveyView<V> {
    /// The settings from when it began.
    pub settings: SettingsView,
    /// The dependencies that are still to be gone through.
    pub deps: Seq<DepView>,
    /// What is known for the first of them.
    pub package: ReplyView<PackageView>,
    pub audit: ReplyView<AuditView>,
    /// What was found.
    pub out: Seq<V>,
}

impl<J: Job> DeepView for Survey<J> {
    type V = SurveyView<<J::Item as DeepView>::V>;

    closed spec fn deep_view(&self) -> SurveyView<<J::Item as DeepView>::V> {
        SurveyView {
            settings: self.settings.deep_view(),
            deps: self.rest(),
            package: self.package.deep_view(),
            audit: self.audit.deep_view(),
            out: self.out.deep_view(),
        }
    }
}

/// A survey that has not begun. What is in `out` stands before what it finds.
pub open spec fn fresh_survey<V>(
    settings: SettingsView,
    deps: Seq<DepView>,
    out: Seq<V>,
) -> SurveyView<V> {
    SurveyView { settings, deps, package: ReplyView::Unasked, audit: ReplyView::Unasked, out }
}

/// The survey behind its first dependency, in which `found` was found.
pub open spec fn moved_on<V>(s: SurveyView<V>, found: Seq<V>) -> SurveyView<V> {
    SurveyView {
        settings: s.settings,
        deps: s.deps.drop_first(),
        package: ReplyView::Unasked,
        audit: ReplyView::Unasked,
        out: s.out + found,
    }
}

/// The survey as far as it goes with what is known, and what it needs then.
pub open spec fn run<J: Job>(job: J, s: SurveyView<<J::Item as DeepView>::V>) -> (
    SurveyView<<J::Item as DeepView>::V>,
    SurveyActionView,
)
    decreases s.deps.len(),
{
    if s.deps.len() == 0 {
        (s, SurveyActionView::Finish)
    } else {
        match job.findings(s.settings, s.deps[0], s.package, s.audit) {
            StepView::FetchPackage(name) => (s, SurveyActionView::FetchPackage(name)),
            StepView::FetchAudit(name, version) => (s, SurveyActionView::FetchAudit(name, version)),
            StepView::Done(found) => run(job, moved_on(s, found)),
        }
    }
}

/// The survey once it has been told what has happened.
pub open spec fn told<V>(s: SurveyView<V>, event: SurveyEvent) -> SurveyView<V> {
    match event {
        SurveyEvent::Start => s,
        SurveyEvent::Package(p) => SurveyView { package: reply_of(p.deep_view()), ..s },
        SurveyEvent::Audit(a) => SurveyView { audit: reply_of(a.deep_view()), ..s },
    }
}

impl<J: Job> Survey<J> {
    /// What is looked for.
    pub closed spec fn job(&self) -> J {
        self.job
    }

    /// The dependencies that are still to be gone through.
    closed spec fn rest(&self) -> Seq<DepView> {
        if self.next <= self.deps@.len() {
            self.deps.deep_view().skip(self.next as int)
        } else {
            seq![]
        }
    }

    /// A survey of some dependencies. What is in `out` stands before what it
    /// finds.
    pub fn new(job: J, settings: Settings, deps: Vec<DepEntry>, out: Vec<J::Item>) -> (r: Survey<J>)
        ensures
            r.job() == job,
            r.deep_view() == fresh_survey(
                settings.deep_view(),
                deps.deep_view(),
                out.deep_view(),
            ),
    {
        let r = Survey {
            job,
            settings,
            deps,
            next: 0,
            package: Reply::Unasked,
            audit: Reply::Unasked,
            out,
        };
        assert(r.deep_view().deps =~= deps.deep_view());
        r
    }

    /// Goes on, now that `event` has happened, and says what is needed next.
    pub fn advance(&mut self, event: SurveyEvent) -> (r: SurveyAction)
        ensures
            final(self).job() == old(self).job(),
            (final(self).deep_view(), r.deep_view()) == run(
                old(self).job(),
                told(old(self).deep_view(), event),
            ),
    {
        match event {
            SurveyEvent::Start => {},
            SurveyEvent::Package(p) => {
                self.package = settle(p);
            },
            SurveyEvent::Audit(a) => {
                self.audit = settle(a);
            },
        }
        let ghost begin = told(old(self).deep_view(), event);
        assert(self.deep_view() =~= begin);
        while self.next < self.deps.len()
            invariant
                self.job == old(self).job(),
                begin == told(old(self).deep_view(), event),
                run(self.job, self.deep_view()) == run(old(self).job(), begin),
            decreases self.deps@.len() - self.next,
        {
            let ghost now = self.deep_view();
            assert(now.deps[0] == self.deps@[self.next as int].deep_view());
            match self.job.examine(
                &self.settings,
                &self.deps[self.next],
                &self.package,
                &self.audit,
            ) {
                Step::FetchPackage(name) => {
                    return SurveyAction::FetchPackage(name);
                },
                Step::FetchAudit(name, version) => {
                    return SurveyAction::FetchAudit(name, version);
                },
                Step::Done(found) => {
                    let mut more: Vec<J::Item> = found;
                    let ghost all = found.deep_view();
                    self.out.append(&mut more);
                    self.next = self.next + 1;
                    self.package = Reply::Unasked;
                    self.audit = Reply::Unasked;
                    assert(self.deep_view().deps =~= now.deps.drop_first());
                    assert(self.deep_view().out =~= now.out + all);
                    assert(self.deep_view() =~= moved_on(now, all));
                },
            }
        }
        SurveyAction::Finish
    }

    /// The first thing that was found.
    pub fn finish_one(self) -> (r: Option<J::Item>)
        ensures
            r.deep_view() == (if self.deep_view().out.len() > 0 {
                Some(self.deep_view().out[0])
            } else {
                None
            }),
    {
        let mut out = self.out;
        if out.len() > 0 {
            Some(out.remove(0))
        } else {
            None
        }
    }

    /// What was found.
    pub fn finish(self) -> (r: Vec<J::Item>)
        ensures
            r.deep_view() == self.deep_view().out,
    {
        self.out
    }
}

// ---- The whole walk ----

/// What a survey finds when each of its questions is answered by `packages` and
/// `audits`; nothing where it asks more than `fuel` of them.
pub open spec fn conduct<J: Job>(
    job: J,
    s: SurveyView<<J::Item as DeepView>::V>,
    packages: spec_fn(Seq<char>) -> Option<PackageView>,
    audits: spec_fn(Seq<char>, VersionView) -> Option<AuditView>,
    fuel: nat,
) -> Option<Seq<<J::Item as DeepView>::V>>
    decreases fuel,
{
    let (t, action) = run(job, s);
    match action {
        SurveyActionView::Finish => Some(t.out),
        SurveyActionView::FetchPackage(name) => if fuel == 0 {
            None
        } else {
            conduct(
                job,
                SurveyView { package: reply_of(packages(name)), ..t },
                packages,
                audits,
                (fuel - 1) as nat,
            )
        },
        SurveyActionView::FetchAudit(name, version) => if fuel == 0 {
            None
        } else {
            conduct(
                job,
                SurveyView { audit: reply_of(audits(name, version)), ..t },
                packages,
                audits,
                (fuel - 1) as nat,
            )
        },
    }
}

/// What is found in one dependency, from what is known of it, when the further
/// questions are answered by `packages` and `audits`.
pub open spec fn found_in<J: Job>(
    job: J,
    settings: SettingsView,
    dep: DepView,
    package: ReplyView<PackageView>,
    audit: ReplyView<AuditView>,
    packages: spec_fn(Seq<char>) -> Option<PackageView>,
    audits: spec_fn(Seq<char>, VersionView) -> Option<AuditView>,
    fuel: nat,
) -> Seq<<J::Item as DeepView>::V>
    decreases fuel,
{
    match job.findings(settings, dep, package, audit) {
        StepView::Done(found) => found,
        StepView::FetchPackage(name) => if fuel == 0 {
            seq![]
        } else {
            found_in(
                job,
                settings,
                dep,
                reply_of(packages(name)),
                audit,
                packages,
                audits,
                (fuel - 1) as nat,
            )
        },
        StepView::FetchAudit(name, version) => if fuel == 0 {
            seq![]
        } else {
            found_in(
                job,
                settings,
                dep,
                package,
                reply_of(audits(name, version)),
                packages,
                audits,
                (fuel - 1) as nat,
            )
        },
    }
}

/// What is found in some dependencies, one after the other.
pub open spec fn found_in_all<J: Job>(
    job: J,
    settings: SettingsView,
    deps: Seq<DepView>,
    packages: spec_fn(Seq<char>) -> Option<PackageView>,
    audits: spec_fn(Seq<char>, VersionView) -> Option<AuditView>,
) -> Seq<<J::Item as DeepView>::V>
    decreases deps.len(),
{
    if deps.len() == 0 {
        seq![]
    } else {
        found_in(
            job,
            settings,
            deps[0],
            ReplyView::Unasked,
            ReplyView::Unasked,
            packages,
            audits,
            2,
        ) + found_in_all(job, settings, deps.drop_first(), packages, audits)
    }
}

/// How many questions may still be asked about a dependency.
pub open spec fn open_questions(
    package: ReplyView<PackageView>,
    audit: ReplyView<AuditView>,
) -> nat {
    (if package is Unasked {
        1nat
    } else {
        0nat
    }) + (if audit is Unasked {
        1nat
    } else {
        0nat
    })
}

proof fn lemma_conduct<J: Job>(
    job: J,
    s: SurveyView<<J::Item as DeepView>::V>,
    packages: spec_fn(Seq<char>) -> Option<PackageView>,
    audits: spec_fn(Seq<char>, VersionView) -> Option<AuditView>,
    fuel: nat,
    left: nat,
)
    requires
        s.deps.len() > 0,
        left >= open_questions(s.package, s.audit),
        fuel >= left + 2 * (s.deps.len() - 1),
    ensures
        conduct(job, s, packages, audits, fuel) == Some(
            s.out + found_in(
                job,
                s.settings,
                s.deps[0],
                s.package,
                s.audit,
                packages,
                audits,
                left,
            ) + found_in_all(job, s.settings, s.deps.drop_first(), packages, audits),
        ),
    decreases s.deps.len(), left,
{
    job.asks_in_order(s.settings, s.deps[0], s.package, s.audit);
    match job.findings(s.settings, s.deps[0], s.package, s.audit) {
        StepView::Done(found) => {
            let t = moved_on(s, found);
            assert(run(job, s) == run(job, t));
            if t.deps.len() == 0 {
                assert(t.out =~= s.out + found + Seq::empty());
            } else {
                lemma_conduct(job, t, packages, audits, fuel, 2);
                assert(s.out + found + found_in(
                    job,
                    t.settings,
                    t.deps[0],
                    t.package,
                    t.audit,
                    packages,
                    audits,
                    2,
                ) + found_in_all(job, t.settings, t.deps.drop_first(), packages, audits)
                    =~= s.out + found + found_in_all(job, s.settings, t.deps, packages, audits));
                lemma_conduct_same(job, s, t, packages, audits, fuel);
            }
        },
        StepView::FetchPackage(name) => {
            let t = SurveyView { package: reply_of(packages(name)), ..s };
            lemma_conduct(job, t, packages, audits, (fuel - 1) as nat, (left - 1) as nat);
        },
        StepView::FetchAudit(name, version) => {
            let t = SurveyView { audit: reply_of(audits(name, version)), ..s };
            lemma_conduct(job, t, packages, audits, (fuel - 1) as nat, (left - 1) as nat);
        },
    }
}

proof fn lemma_conduct_same<J: Job>(
    job: J,
    s: SurveyView<<J::Item as DeepView>::V>,
    t: SurveyView<<J::Item as DeepView>::V>,
    packages: spec_fn(Seq<char>) -> Option<PackageView>,
    audits: spec_fn(Seq<char>, VersionView) -> Option<AuditView>,
    fuel: nat,
)
    requires
        run(job, s) == run(job, t),
    ensures
        conduct(job, s, packages, audits, fuel) == conduct(job, t, packages, audits, fuel),
{
}

/// A survey finds in a document what is found in its dependencies, in their
/// order, each for itself, and asks at most two questions about each of them.
pub proof fn law_survey_goes_through_all<J: Job>(
    job: J,
    settings: SettingsView,
    deps: Seq<DepView>,
    out: Seq<<J::Item as DeepView>::V>,
    packages: spec_fn(Seq<char>) -> Option<PackageView>,
    audits: spec_fn(Seq<char>, VersionView) -> Option<AuditView>,
)
    ensures
        conduct(job, fresh_survey(settings, deps, out), packages, audits, 2 * deps.len()) == Some(
            out + found_in_all(job, settings, deps, packages, audits),
        ),
{
    let s = fresh_survey(settings, deps, out);
    if deps.len() > 0 {
        lemma_conduct(job, s, packages, audits, 2 * deps.len(), 2);
        assert(out + found_in(
            job,
            settings,
            deps[0],
            ReplyView::Unasked,
            ReplyView::Unasked,
            packages,
            audits,
            2,
        ) + found_in_all(job, settings, deps.drop_first(), packages, audits) =~= out + found_in_all(
            job,
            settings,
            deps,
            packages,
            audits,
        ));
    } else {
        assert(out + found_in_all(job, settings, deps, packages, audits) =~= out);
    }
}

/// What a survey is told changes what it knows of the dependency that it is at,
/// and nothing else: an answer of the registry is one about the package, an
/// answer of the database one about the advisories, and no answer is a failure.
pub proof fn law_answers_are_taken_in<V>(
    s: SurveyView<V>,
    p: Option<CachedPackage>,
    a: Option<AuditResult>,
)
    ensures
        told(s, SurveyEvent::Start) == s,
        ({
            let t = told(s, SurveyEvent::Package(p));
            &&& t.settings == s.settings && t.deps == s.deps && t.out == s.out && t.audit == s.audit
            &&& p matches Some(x) ==> t.package == ReplyView::Got(x.deep_view())
            &&& p is None ==> t.package == ReplyView::<PackageView>::Failed
        }),
        ({
            let t = told(s, SurveyEvent::Audit(a));
            &&& t.settings == s.settings && t.deps == s.deps && t.out == s.out && t.package
                == s.package
            &&& a matches Some(x) ==> t.audit == ReplyView::Got(x.deep_view())
            &&& a is None ==> t.audit == ReplyView::<AuditView>::Failed
        }),
{
}

/// A survey begins with nothing known, goes through all dependencies that it is
/// given, and keeps what was found before.
pub proof fn law_survey_begins_with_nothing<V>(
    settings: SettingsView,
    deps: Seq<DepView>,
    out: Seq<V>,
)
    ensures
        ({
            let s = fresh_survey(settings, deps, out);
            &&& s.settings == settings && s.deps == deps && s.out == out
            &&& s.package == ReplyView::<PackageView>::Unasked
            &&& s.audit == ReplyView::<AuditView>::Unasked
        }),
{
}

/// A survey asks what is needed for the dependency that it is at. When that is
/// found out, it goes on to the next with nothing known of it, and adds what was
/// found behind what was found before. It is at its end when no dependency is
/// left.
pub proof fn law_survey_goes_on<J: Job>(
    job: J,
    s: SurveyView<<J::Item as DeepView>::V>,
    found: Seq<<J::Item as DeepView>::V>,
    name: Seq<char>,
    version: VersionView,
)
    ensures
        s.deps.len() == 0 ==> run(job, s) == (s, SurveyActionView::Finish),
        s.deps.len() > 0 && job.findings(s.settings, s.deps[0], s.package, s.audit)
            == StepView::<Seq<<J::Item as DeepView>::V>>::FetchPackage(name) ==> run(job, s) == (
            s,
            SurveyActionView::FetchPackage(name),
        ),
        s.deps.len() > 0 && job.findings(s.settings, s.deps[0], s.package, s.audit)
            == StepView::<Seq<<J::Item as DeepView>::V>>::FetchAudit(name, version) ==> run(job, s)
            == (s, SurveyActionView::FetchAudit(name, version)),
        s.deps.len() > 0 && job.findings(s.settings, s.deps[0], s.package, s.audit)
            == StepView::Done(found) ==> run(job, s) == run(
            job,
            SurveyView {
                settings: s.settings,
                deps: s.deps.skip(1),
                package: ReplyView::Unasked,
                audit: ReplyView::Unasked,
                out: s.out + found,
            },
        ),
{
    assert(s.deps.len() > 0 ==> s.deps.skip(1) =~= s.deps.drop_first());
}

} // verus!
