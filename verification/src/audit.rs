//! What the OSV database says of a version of a package.

use dashmap::DashMap;
use std::hash::RandomState;

use vstd::prelude::*;
use vstd::string::*;

use crate::json::{
    as_array, as_str, as_string, field, field_of, get_in, items_of, target, text_of, Json,
};
use crate::registry::{copy_string, version_of};
use crate::semver::{
    copy_version, law_order_irreflexive, law_order_not_less_transitive, law_order_total,
    law_order_transitive, parsed_version, precedes, version_lt, version_text, Version, VersionView,
};
use crate::store::{fresh, holds_nothing, is_fresh, lookup};
use crate::text::{
    law_rests_make_up_the_text, law_upper_case, split_at_slashes, split_slash, starts_with, str_eq,
    strip_prefix, upper_eq, uppercased, without_prefix,
};

verus! {

/// Where the database is asked.
pub const OSV_QUERY: &'static str = "https://api.osv.dev/v1/query";

/// How long an answer is kept: six hours, in nanoseconds.
pub const CACHE_TTL: u64 = 21_600_000_000_000;

/// How many queries may be under way at a time.
pub const CONCURRENT_QUERIES: usize = 8;

/// How bad a vulnerability is.
#[derive(Debug, Clone, Copy, PartialEq, Eq, PartialOrd, Ord, Structural)]
pub enum AdvisorySeverity {
    Low,
    Moderate,
    High,
    Critical,
    Unknown,
}

/// A known vulnerability.
#[derive(Debug)]
pub struct Advisory {
    pub id: String,
    pub summary: String,
    pub severity: AdvisorySeverity,
    /// The version from which on the package is not affected.
    pub fixed_in: Option<Version>,
    pub url: Option<String>,
}

/// The model of an [`Advisory`].
#[verifier::ext_equal]
pub struct AdvisoryView {
    pub id: Seq<char>,
    pub summary: Seq<char>,
    pub severity: AdvisorySeverity,
    pub fixed_in: Option<VersionView>,
    pub url: Option<Seq<char>>,
}

impl DeepView for Advisory {
    type V = AdvisoryView;

    open spec fn deep_view(&self) -> AdvisoryView {
        AdvisoryView {
            id: self.id@,
            summary: self.summary@,
            severity: self.severity,
            fixed_in: self.fixed_in.deep_view(),
            url: self.url.deep_view(),
        }
    }
}

impl Clone for Advisory {
    fn clone(&self) -> (r: Self)
        ensures
            r.deep_view() == self.deep_view(),
    {
        Advisory {
            id: self.id.clone(),
            summary: self.summary.clone(),
            severity: self.severity,
            fixed_in: copy_version(&self.fixed_in),
            url: copy_string(&self.url),
        }
    }
}

/// What the database says of a version of a package, and when it said so.
#[derive(Debug)]
pub struct AuditResult {
    pub advisories: Vec<Advisory>,
    /// In nanoseconds of a clock that does not go back.
    pub fetched: u64,
}

/// The model of an [`AuditResult`].
#[verifier::ext_equal]
pub struct AuditView {
    pub advisories: Seq<AdvisoryView>,
    pub fetched: u64,
}

impl DeepView for AuditResult {
    type V = AuditView;

    open spec fn deep_view(&self) -> AuditView {
        AuditView { advisories: self.advisories.deep_view(), fetched: self.fetched }
    }
}

impl Clone for AuditResult {
    fn clone(&self) -> (r: Self)
        ensures
            r.deep_view() == self.deep_view(),
    {
        let mut out: Vec<Advisory> = Vec::new();
        let mut i: usize = 0;
        while i < self.advisories.len()
            invariant
                i <= self.advisories.len(),
                out.len() == i,
                forall|j: int|
                    0 <= j < i ==> out@[j].deep_view() == self.advisories@[j].deep_view(),
            decreases self.advisories.len() - i,
        {
            out.push(self.advisories[i].clone());
            i = i + 1;
        }
        assert(out.deep_view() =~= self.advisories.deep_view());
        AuditResult { advisories: out, fetched: self.fetched }
    }
}

/// How many advisories have the severity `severity`.
pub open spec fn count_of(s: Seq<AdvisoryView>, severity: AdvisorySeverity) -> nat
    decreases s.len(),
{
    if s.len() == 0 {
        0
    } else {
        count_of(s.drop_last(), severity) + (if s.last().severity == severity {
            1nat
        } else {
            0nat
        })
    }
}

/// Every advisory is counted under one severity.
pub proof fn law_counts_cover_all(s: Seq<AdvisoryView>)
    ensures
        count_of(s, AdvisorySeverity::Critical) + count_of(s, AdvisorySeverity::High) + count_of(
            s,
            AdvisorySeverity::Moderate,
        ) + count_of(s, AdvisorySeverity::Low) + count_of(s, AdvisorySeverity::Unknown) == s.len(),
    decreases s.len(),
{
    if s.len() > 0 {
        law_counts_cover_all(s.drop_last());
    }
}

/// The highest of the fixes; the last of those of the same precedence.
pub open spec fn highest_fix(s: Seq<AdvisoryView>) -> Option<VersionView>
    decreases s.len(),
{
    if s.len() == 0 {
        None
    } else {
        match (highest_fix(s.drop_last()), s.last().fixed_in) {
            (Some(h), Some(f)) => if version_lt(f, h) {
                Some(h)
            } else {
                Some(f)
            },
            (None, fix) => fix,
            (high, None) => high,
        }
    }
}

/// The version that is safe to go to resolves every advisory with a known fix:
/// it is the fix of one of them, and none has a later one. There is none
/// exactly where no advisory has a known fix.
pub proof fn law_safe_target_resolves_all(s: Seq<AdvisoryView>)
    ensures
        match highest_fix(s) {
            Some(h) => {
                &&& exists|i: int| 0 <= i < s.len() && (#[trigger] s[i]).fixed_in == Some(h)
                &&& forall|i: int|
                    0 <= i < s.len() ==> ((#[trigger] s[i]).fixed_in matches Some(f)
                        ==> !version_lt(h, f))
            },
            None => forall|i: int| 0 <= i < s.len() ==> (#[trigger] s[i]).fixed_in is None,
        },
    decreases s.len(),
{
    if s.len() > 0 {
        let t = s.drop_last();
        law_safe_target_resolves_all(t);
        let n = s.len() - 1;
        assert forall|i: int| 0 <= i < n implies #[trigger] s[i] == t[i] by {}
        if let Some(h) = highest_fix(s) {
            if let Some(p) = highest_fix(t) {
                let k = choose|k: int| 0 <= k < t.len() && (#[trigger] t[k]).fixed_in == Some(p);
                assert(s[k].fixed_in == Some(p));
                assert(s[n] == s.last());
                law_order_total(h, h);
                assert forall|i: int| 0 <= i < s.len() implies (
                (#[trigger] s[i]).fixed_in matches Some(f) ==> !version_lt(h, f)) by {
                    if let Some(f) = s[i].fixed_in {
                        if i < n {
                            assert(t[i].fixed_in == Some(f));
                            assert(!version_lt(p, f));
                            if h != p {
                                law_order_not_less_transitive(h, p, f);
                            }
                        } else if let Some(g) = s.last().fixed_in {
                            law_order_total(h, g);
                            if version_lt(g, p) {
                                if version_lt(p, g) {
                                    law_order_transitive(p, g, p);
                                    law_order_irreflexive(p);
                                }
                            }
                        }
                    }
                }
            } else {
                assert(s[n].fixed_in == Some(h));
                law_order_total(h, h);
            }
        }
    }
}

/// The fix that no other fix comes after, and that every fix behind it comes
/// before, is the version that is safe to go to.
pub proof fn law_last_highest_fix(s: Seq<AdvisoryView>, k: int)
    requires
        0 <= k < s.len(),
        s[k].fixed_in is Some,
        forall|i: int|
            0 <= i < s.len() && (#[trigger] s[i]).fixed_in is Some ==> !version_lt(
                s[k].fixed_in->0,
                s[i].fixed_in->0,
            ),
        forall|i: int|
            k < i < s.len() && (#[trigger] s[i]).fixed_in is Some ==> version_lt(
                s[i].fixed_in->0,
                s[k].fixed_in->0,
            ),
    ensures
        highest_fix(s) == s[k].fixed_in,
    decreases s.len(),
{
    let n = s.len() - 1;
    let rest = s.drop_last();
    let fix = s[k].fixed_in->0;
    assert(s[n] == s.last());
    if k < n {
        assert forall|i: int| 0 <= i < rest.len() implies #[trigger] rest[i] == s[i] by {}
        law_last_highest_fix(rest, k);
    } else {
        law_safe_target_resolves_all(rest);
        if let Some(h) = highest_fix(rest) {
            let j = choose|j: int| 0 <= j < rest.len() && (#[trigger] rest[j]).fixed_in == Some(h);
            assert(s[j].fixed_in == Some(h));
            assert(!version_lt(fix, h));
        }
    }
}

impl AuditResult {
    /// An answer without advisories.
    pub fn fresh(now: u64) -> (r: AuditResult)
        ensures
            r.deep_view() == (AuditView { advisories: seq![], fetched: now }),
    {
        let r = AuditResult { advisories: Vec::new(), fetched: now };
        assert(r.deep_view() =~= (AuditView { advisories: seq![], fetched: now }));
        r
    }

    /// How many advisories are critical, high, moderate, and low or of unknown
    /// severity.
    pub fn counts(&self) -> (r: (usize, usize, usize, usize))
        ensures
            r.0 == count_of(self.deep_view().advisories, AdvisorySeverity::Critical),
            r.1 == count_of(self.deep_view().advisories, AdvisorySeverity::High),
            r.2 == count_of(self.deep_view().advisories, AdvisorySeverity::Moderate),
            r.3 == count_of(self.deep_view().advisories, AdvisorySeverity::Low) + count_of(
                self.deep_view().advisories,
                AdvisorySeverity::Unknown,
            ),
    {
        let ghost all = self.advisories.deep_view();
        let mut critical: usize = 0;
        let mut high: usize = 0;
        let mut moderate: usize = 0;
        let mut low: usize = 0;
        let mut i: usize = 0;
        while i < self.advisories.len()
            invariant
                i <= self.advisories.len(),
                all == self.advisories.deep_view(),
                critical == count_of(all.take(i as int), AdvisorySeverity::Critical),
                high == count_of(all.take(i as int), AdvisorySeverity::High),
                moderate == count_of(all.take(i as int), AdvisorySeverity::Moderate),
                low == count_of(all.take(i as int), AdvisorySeverity::Low) + count_of(
                    all.take(i as int),
                    AdvisorySeverity::Unknown,
                ),
                critical + high + moderate + low == i,
            decreases self.advisories.len() - i,
        {
            assert(all.take(i + 1).drop_last() =~= all.take(i as int));
            match self.advisories[i].severity {
                AdvisorySeverity::Critical => {
                    critical = critical + 1;
                },
                AdvisorySeverity::High => {
                    high = high + 1;
                },
                AdvisorySeverity::Moderate => {
                    moderate = moderate + 1;
                },
                AdvisorySeverity::Low | AdvisorySeverity::Unknown => {
                    low = low + 1;
                },
            }
            i = i + 1;
        }
        assert(all.take(all.len() as int) =~= all);
        (critical, high, moderate, low)
    }

    /// The lowest version that resolves all advisories: the highest of their
    /// fixes. `None` where no advisory has a known fix.
    pub fn safe_target(&self) -> (r: Option<Version>)
        ensures
            r.deep_view() == highest_fix(self.deep_view().advisories),
    {
        let ghost all = self.advisories.deep_view();
        let mut best: Option<Version> = None;
        let mut i: usize = 0;
        while i < self.advisories.len()
            invariant
                i <= self.advisories.len(),
                all == self.advisories.deep_view(),
                best.deep_view() == highest_fix(all.take(i as int)),
            decreases self.advisories.len() - i,
        {
            assert(all.take(i + 1).drop_last() =~= all.take(i as int));
            if let Some(f) = &self.advisories[i].fixed_in {
                let keep: bool = match &best {
                    Some(h) => precedes(f, h),
                    None => false,
                };
                if !keep {
                    best = Some(f.clone());
                }
            }
            i = i + 1;
        }
        assert(all.take(all.len() as int) =~= all);
        best
    }
}

// ---- Severity ----

/// The severity that a label names.
pub open spec fn label_severity(label: Seq<char>) -> AdvisorySeverity {
    let l = uppercased(label);
    if l == "CRITICAL"@ {
        AdvisorySeverity::Critical
    } else if l == "HIGH"@ {
        AdvisorySeverity::High
    } else if l == "MODERATE"@ || l == "MEDIUM"@ {
        AdvisorySeverity::Moderate
    } else if l == "LOW"@ {
        AdvisorySeverity::Low
    } else {
        AdvisorySeverity::Unknown
    }
}

/// The severity that a label names, in upper or lower case.
pub fn severity_of_label(label: &str) -> (r: AdvisorySeverity)
    ensures
        r == label_severity(label@),
{
    if upper_eq(label, "CRITICAL") {
        AdvisorySeverity::Critical
    } else if upper_eq(label, "HIGH") {
        AdvisorySeverity::High
    } else if upper_eq(label, "MODERATE") || upper_eq(label, "MEDIUM") {
        AdvisorySeverity::Moderate
    } else if upper_eq(label, "LOW") {
        AdvisorySeverity::Low
    } else {
        AdvisorySeverity::Unknown
    }
}

/// The IEEE 754 bits of the score 9.0 in double precision.
pub const NINE: u64 = 0x4022_0000_0000_0000;

/// The bits of the score 7.0.
pub const SEVEN: u64 = 0x401c_0000_0000_0000;

/// The bits of the score 4.0.
pub const FOUR: u64 = 0x4010_0000_0000_0000;

/// The bits of positive infinity.
pub const INFINITY: u64 = 0x7ff0_0000_0000_0000;

/// The severity of a score, given by its bits. The bits of numbers that are not
/// negative have the order of the numbers; those behind infinity are no
/// number, or have the sign set.
pub open spec fn score_severity(bits: u64) -> AdvisorySeverity {
    if bits > INFINITY {
        AdvisorySeverity::Unknown
    } else if bits >= NINE {
        AdvisorySeverity::Critical
    } else if bits >= SEVEN {
        AdvisorySeverity::High
    } else if bits >= FOUR {
        AdvisorySeverity::Moderate
    } else if bits > 0 {
        AdvisorySeverity::Low
    } else {
        AdvisorySeverity::Unknown
    }
}

/// The severity of a score, given by its bits: critical from 9.0, high from
/// 7.0, moderate from 4.0, low above zero, and unknown otherwise.
pub fn severity_of_score(bits: u64) -> (r: AdvisorySeverity)
    ensures
        r == score_severity(bits),
{
    if bits > INFINITY {
        AdvisorySeverity::Unknown
    } else if bits >= NINE {
        AdvisorySeverity::Critical
    } else if bits >= SEVEN {
        AdvisorySeverity::High
    } else if bits >= FOUR {
        AdvisorySeverity::Moderate
    } else if bits > 0 {
        AdvisorySeverity::Low
    } else {
        AdvisorySeverity::Unknown
    }
}

/// What stands behind `B:` in the pieces that begin with it.
pub open spec fn base_metrics(pieces: Seq<Seq<char>>) -> Seq<Seq<char>>
    decreases pieces.len(),
{
    if pieces.len() == 0 {
        seq![]
    } else {
        match without_prefix(pieces.last(), "B:"@) {
            Some(rest) => base_metrics(pieces.drop_last()).push(rest),
            None => base_metrics(pieces.drop_last()),
        }
    }
}

/// The texts that may give the base score of a CVSS string, in the order in
/// which they are tried: the string itself, then its base metrics.
pub open spec fn score_candidates(vector: Seq<char>) -> Seq<Seq<char>> {
    seq![vector] + base_metrics(split_slash(vector))
}

/// The texts that may give the base score of a CVSS string: the first of them
/// that is a number is the score. The string is a bare number (`7.5`), or a
/// vector with the score among its metrics (`CVSS:3.1/AV:N/B:7.5`).
pub fn base_score_texts(vector: &str) -> (r: Vec<String>)
    ensures
        r.deep_view() == score_candidates(vector@),
{
    let mut out: Vec<String> = Vec::new();
    out.push(vector.to_owned());
    let pieces = split_at_slashes(vector);
    let ghost all = pieces.deep_view();
    let mut i: usize = 0;
    assert(out.deep_view() =~= seq![vector@] + base_metrics(all.take(0)));
    while i < pieces.len()
        invariant
            i <= pieces.len(),
            all == pieces.deep_view(),
            out.deep_view() == seq![vector@] + base_metrics(all.take(i as int)),
        decreases pieces.len() - i,
    {
        assert(all.take(i + 1).drop_last() =~= all.take(i as int));
        let ghost before = out.deep_view();
        if let Some(rest) = strip_prefix(pieces[i].as_str(), "B:") {
            out.push(rest.to_owned());
            assert(out.deep_view() =~= before.push(rest@));
            assert(out.deep_view() =~= seq![vector@] + base_metrics(all.take(i + 1)));
        }
        i = i + 1;
    }
    assert(all.take(all.len() as int) =~= all);
    out
}

/// The first of some scores that is there.
pub open spec fn first_score(scores: Seq<Option<u64>>) -> Option<u64>
    decreases scores.len(),
{
    if scores.len() == 0 {
        None
    } else if scores[0] is Some {
        scores[0]
    } else {
        first_score(scores.drop_first())
    }
}

/// The first of some scores that is there.
fn find_score(scores: &Vec<Option<u64>>) -> (r: Option<u64>)
    ensures
        r == first_score(scores@),
{
    let mut i: usize = 0;
    assert(scores@.skip(0) =~= scores@);
    while i < scores.len()
        invariant
            i <= scores.len(),
            first_score(scores@) == first_score(scores@.skip(i as int)),
        decreases scores.len() - i,
    {
        assert(scores@.skip(i as int).drop_first() =~= scores@.skip(i + 1));
        if let Some(bits) = scores[i] {
            return Some(bits);
        }
        i = i + 1;
    }
    None
}

/// A rating in the form of CVSS.
pub open spec fn is_cvss(e: Json) -> bool {
    match text_of(field(e, "type"@)) {
        Some(t) => "CVSS"@.is_prefix_of(t),
        None => false,
    }
}

/// Whether a rating has the form of CVSS.
fn matches_cvss_type(e: &Json) -> (r: bool)
    ensures
        r == is_cvss(*e),
{
    match as_str(e.get("type")) {
        Some(t) => starts_with(t, "CVSS"),
        None => false,
    }
}

/// The first of some ratings that has the form of CVSS.
pub open spec fn first_cvss(ratings: Seq<Json>) -> Option<Json>
    decreases ratings.len(),
{
    if ratings.len() == 0 {
        None
    } else if is_cvss(ratings[0]) {
        Some(ratings[0])
    } else {
        first_cvss(ratings.drop_first())
    }
}

/// The first of some ratings that has the form of CVSS.
fn find_cvss(ratings: &Vec<Json>) -> (r: Option<&Json>)
    ensures
        target(r) == first_cvss(ratings@),
{
    let mut i: usize = 0;
    assert(ratings@.skip(0) =~= ratings@);
    while i < ratings.len()
        invariant
            i <= ratings.len(),
            first_cvss(ratings@) == first_cvss(ratings@.skip(i as int)),
        decreases ratings.len() - i,
    {
        assert(ratings@.skip(i as int).drop_first() =~= ratings@.skip(i + 1));
        if matches_cvss_type(&ratings[i]) {
            return Some(&ratings[i]);
        }
        i = i + 1;
    }
    None
}

/// The label that the source of an advisory gives for its severity.
pub open spec fn severity_label(vuln: Json) -> Option<Seq<char>> {
    text_of(field_of(field(vuln, "database_specific"@), "severity"@))
}

/// The score of an advisory, as a CVSS string.
pub open spec fn cvss_string(vuln: Json) -> Option<Seq<char>> {
    match items_of(field(vuln, "severity"@)) {
        Some(ratings) => text_of(field_of(first_cvss(ratings), "score"@)),
        None => None,
    }
}

/// The score of an advisory, as a CVSS string.
fn cvss_text(vuln: &Json) -> (r: Option<&str>)
    ensures
        r.deep_view() == cvss_string(*vuln),
{
    match as_array(vuln.get("severity")) {
        Some(ratings) => as_str(get_in(find_cvss(ratings), "score")),
        None => None,
    }
}

/// The texts to be read as numbers for the severity of an advisory: none where
/// a label gives it, or there is no CVSS string.
pub open spec fn score_texts_of(vuln: Json) -> Seq<Seq<char>> {
    match (severity_label(vuln), cvss_string(vuln)) {
        (None, Some(vector)) => score_candidates(vector),
        _ => seq![],
    }
}

/// The texts to be read as numbers for the severity of an advisory.
pub fn score_texts(vuln: &Json) -> (r: Vec<String>)
    ensures
        r.deep_view() == score_texts_of(*vuln),
{
    if as_str(get_in(vuln.get("database_specific"), "severity")).is_none() {
        if let Some(vector) = cvss_text(vuln) {
            return base_score_texts(vector);
        }
    }
    let none: Vec<String> = Vec::new();
    assert(none.deep_view() =~= seq![]);
    none
}

/// The severity of an advisory: by its label, else by its score.
pub open spec fn severity_of(vuln: Json, scores: Seq<Option<u64>>) -> AdvisorySeverity {
    match severity_label(vuln) {
        Some(label) => label_severity(label),
        None => match (cvss_string(vuln), first_score(scores)) {
            (Some(_), Some(bits)) => score_severity(bits),
            _ => AdvisorySeverity::Unknown,
        },
    }
}

/// The severity of an advisory. `scores` gives for each of its score texts the
/// bits of the number that it is, if it is one.
pub fn parse_severity(vuln: &Json, scores: &Vec<Option<u64>>) -> (r: AdvisorySeverity)
    ensures
        r == severity_of(*vuln, scores@),
{
    if let Some(label) = as_str(get_in(vuln.get("database_specific"), "severity")) {
        return severity_of_label(label);
    }
    if cvss_text(vuln).is_some() {
        if let Some(bits) = find_score(scores) {
            return severity_of_score(bits);
        }
    }
    AdvisorySeverity::Unknown
}

// ---- Fixes ----

/// The fixes among the events of a range, in their order.
pub open spec fn event_fixes(events: Seq<Json>) -> Seq<VersionView>
    decreases events.len(),
{
    if events.len() == 0 {
        seq![]
    } else {
        match version_of(text_of(field(events.last(), "fixed"@))) {
            Some(v) => event_fixes(events.drop_last()).push(v),
            None => event_fixes(events.drop_last()),
        }
    }
}

/// The fixes in some ranges, in their order.
pub open spec fn range_fixes(ranges: Seq<Json>) -> Seq<VersionView>
    decreases ranges.len(),
{
    if ranges.len() == 0 {
        seq![]
    } else {
        range_fixes(ranges.drop_last()) + (match items_of(field(ranges.last(), "events"@)) {
            Some(events) => event_fixes(events),
            None => seq![],
        })
    }
}

/// The fixes in the affected packages that have the name `package`, in their
/// order.
pub open spec fn affected_fixes(affected: Seq<Json>, package: Seq<char>) -> Seq<VersionView>
    decreases affected.len(),
{
    if affected.len() == 0 {
        seq![]
    } else {
        affected_fixes(affected.drop_last(), package) + (if text_of(
            field_of(field(affected.last(), "package"@), "name"@),
        ) == Some(package) {
            match items_of(field(affected.last(), "ranges"@)) {
                Some(ranges) => range_fixes(ranges),
                None => seq![],
            }
        } else {
            seq![]
        })
    }
}

/// The highest of some versions; the first of those of the same precedence.
pub open spec fn highest(s: Seq<VersionView>) -> Option<VersionView>
    decreases s.len(),
{
    if s.len() == 0 {
        None
    } else {
        match highest(s.drop_last()) {
            Some(h) => if version_lt(h, s.last()) {
                Some(s.last())
            } else {
                Some(h)
            },
            None => Some(s.last()),
        }
    }
}

/// The highest fix for `package` that an advisory gives.
pub open spec fn fixed_version(vuln: Json, package: Seq<char>) -> Option<VersionView> {
    match items_of(field(vuln, "affected"@)) {
        Some(affected) => highest(affected_fixes(affected, package)),
        None => None,
    }
}

/// The highest of some versions is one of them, and none is higher. There is
/// none exactly where there are no versions.
pub proof fn law_highest(s: Seq<VersionView>)
    ensures
        match highest(s) {
            Some(h) => s.contains(h) && forall|i: int|
                0 <= i < s.len() ==> !version_lt(h, #[trigger] s[i]),
            None => s.len() == 0,
        },
    decreases s.len(),
{
    if s.len() > 0 {
        let rest = s.drop_last();
        let last = s.last();
        law_highest(rest);
        assert(s[s.len() - 1] == last);
        let h = highest(s)->0;
        if let Some(p) = highest(rest) {
            let k = choose|k: int| 0 <= k < rest.len() && rest[k] == p;
            assert(s[k] == p);
            assert forall|i: int| 0 <= i < s.len() implies !version_lt(h, #[trigger] s[i]) by {
                if i < rest.len() {
                    assert(rest[i] == s[i]);
                    if version_lt(p, last) && version_lt(last, s[i]) {
                        law_order_transitive(p, last, s[i]);
                    }
                } else {
                    law_order_irreflexive(last);
                }
            }
        } else {
            law_order_irreflexive(last);
        }
    }
}

/// Keeps `best` up to date with the fixes among some events.
fn scan_events(events: &Vec<Json>, Ghost(seen): Ghost<Seq<VersionView>>, best: &mut Option<Version>)
    requires
        old(best).deep_view() == highest(seen),
    ensures
        final(best).deep_view() == highest(seen + event_fixes(events@)),
{
    let mut i: usize = 0;
    assert(seen + event_fixes(events@.take(0)) =~= seen);
    while i < events.len()
        invariant
            i <= events.len(),
            best.deep_view() == highest(seen + event_fixes(events@.take(i as int))),
        decreases events.len() - i,
    {
        assert(events@.take(i + 1).drop_last() =~= events@.take(i as int));
        if let Some(text) = as_str(events[i].get("fixed")) {
            if let Some(v) = Version::parse(text) {
                let ghost now = seen + event_fixes(events@.take(i as int));
                let ghost view = v.deep_view();
                let better: bool = match &*best {
                    Some(h) => precedes(h, &v),
                    None => true,
                };
                if better {
                    *best = Some(v);
                }
                proof {
                    let next = seen + event_fixes(events@.take(i + 1));
                    assert(next =~= now.push(view));
                    assert(next.drop_last() =~= now);
                }
            }
        }
        i = i + 1;
    }
    assert(events@.take(events@.len() as int) =~= events@);
}

/// Keeps `best` up to date with the fixes in some ranges.
fn scan_ranges(ranges: &Vec<Json>, Ghost(seen): Ghost<Seq<VersionView>>, best: &mut Option<Version>)
    requires
        old(best).deep_view() == highest(seen),
    ensures
        final(best).deep_view() == highest(seen + range_fixes(ranges@)),
{
    let mut i: usize = 0;
    assert(seen + range_fixes(ranges@.take(0)) =~= seen);
    while i < ranges.len()
        invariant
            i <= ranges.len(),
            best.deep_view() == highest(seen + range_fixes(ranges@.take(i as int))),
        decreases ranges.len() - i,
    {
        assert(ranges@.take(i + 1).drop_last() =~= ranges@.take(i as int));
        let ghost now = seen + range_fixes(ranges@.take(i as int));
        if let Some(events) = as_array(ranges[i].get("events")) {
            scan_events(events, Ghost(now), best);
            assert(now + event_fixes(events@) =~= seen + range_fixes(ranges@.take(i + 1)));
        } else {
            assert(now =~= seen + range_fixes(ranges@.take(i + 1)));
        }
        i = i + 1;
    }
    assert(ranges@.take(ranges@.len() as int) =~= ranges@);
}

/// The highest fix for `package` that an advisory gives.
pub fn parse_fixed_in(vuln: &Json, package: &str) -> (r: Option<Version>)
    ensures
        r.deep_view() == fixed_version(*vuln, package@),
{
    let affected: &Vec<Json> = match as_array(vuln.get("affected")) {
        Some(a) => a,
        None => {
            return None;
        },
    };
    let mut best: Option<Version> = None;
    let mut i: usize = 0;
    while i < affected.len()
        invariant
            i <= affected.len(),
            best.deep_view() == highest(affected_fixes(affected@.take(i as int), package@)),
        decreases affected.len() - i,
    {
        assert(affected@.take(i + 1).drop_last() =~= affected@.take(i as int));
        let ghost now = affected_fixes(affected@.take(i as int), package@);
        let named: bool = match as_str(get_in(affected[i].get("package"), "name")) {
            Some(n) => str_eq(n, package),
            None => false,
        };
        if named {
            if let Some(ranges) = as_array(affected[i].get("ranges")) {
                scan_ranges(ranges, Ghost(now), &mut best);
            } else {
                assert(affected_fixes(affected@.take(i + 1), package@) =~= now);
            }
        } else {
            assert(affected_fixes(affected@.take(i + 1), package@) =~= now);
        }
        i = i + 1;
    }
    assert(affected@.take(affected@.len() as int) =~= affected@);
    best
}

// ---- Advisories ----

/// A reference to a page for readers.
pub open spec fn is_page(r: Json) -> bool {
    text_of(field(r, "type"@)) == Some("ADVISORY"@) || text_of(field(r, "type"@)) == Some("WEB"@)
}

/// The first of some references that is a page for readers.
pub open spec fn first_page(refs: Seq<Json>) -> Option<Json>
    decreases refs.len(),
{
    if refs.len() == 0 {
        None
    } else if is_page(refs[0]) {
        Some(refs[0])
    } else {
        first_page(refs.drop_first())
    }
}

/// The reference that is shown: the first page for readers, else the first.
pub open spec fn shown_reference(refs: Seq<Json>) -> Option<Json> {
    match first_page(refs) {
        Some(r) => Some(r),
        None => if refs.len() > 0 {
            Some(refs[0])
        } else {
            None
        },
    }
}

/// The reference that is shown: the first page for readers, else the first.
fn find_reference(refs: &Vec<Json>) -> (r: Option<&Json>)
    ensures
        target(r) == shown_reference(refs@),
{
    let mut i: usize = 0;
    assert(refs@.skip(0) =~= refs@);
    while i < refs.len()
        invariant
            i <= refs.len(),
            first_page(refs@) == first_page(refs@.skip(i as int)),
        decreases refs.len() - i,
    {
        assert(refs@.skip(i as int).drop_first() =~= refs@.skip(i + 1));
        let page: bool = match as_str(refs[i].get("type")) {
            Some(t) => str_eq(t, "ADVISORY") || str_eq(t, "WEB"),
            None => false,
        };
        if page {
            return Some(&refs[i]);
        }
        i = i + 1;
    }
    if refs.len() > 0 {
        Some(&refs[0])
    } else {
        None
    }
}

/// The address of a page about an advisory.
pub open spec fn reference_url(vuln: Json) -> Option<Seq<char>> {
    match items_of(field(vuln, "references"@)) {
        Some(refs) => text_of(field_of(shown_reference(refs), "url"@)),
        None => None,
    }
}

/// An advisory for `package`, if it has an identifier.
pub open spec fn advisory_of(
    vuln: Json,
    package: Seq<char>,
    scores: Seq<Option<u64>>,
) -> Option<AdvisoryView> {
    match text_of(field(vuln, "id"@)) {
        Some(id) => Some(
            AdvisoryView {
                id,
                summary: match text_of(field(vuln, "summary"@)) {
                    Some(s) => s,
                    None => "Vulnerability"@,
                },
                severity: severity_of(vuln, scores),
                fixed_in: fixed_version(vuln, package),
                url: reference_url(vuln),
            },
        ),
        None => None,
    }
}

/// Reads an advisory for `package`; there is none without an identifier.
/// `scores` gives for each of its score texts the bits of the number that it
/// is, if it is one.
pub fn parse_advisory(vuln: &Json, package: &str, scores: &Vec<Option<u64>>) -> (r: Option<
    Advisory,
>)
    ensures
        r.deep_view() == advisory_of(*vuln, package@, scores@),
{
    let id = match as_string(vuln.get("id")) {
        Some(id) => id,
        None => {
            return None;
        },
    };
    let summary = match as_string(vuln.get("summary")) {
        Some(s) => s,
        None => "Vulnerability".to_owned(),
    };
    let url = match as_array(vuln.get("references")) {
        Some(refs) => as_string(get_in(find_reference(refs), "url")),
        None => None,
    };
    Some(
        Advisory {
            id,
            summary,
            severity: parse_severity(vuln, scores),
            fixed_in: parse_fixed_in(vuln, package),
            url,
        },
    )
}

// ---- Answers ----

/// The advisories of an answer.
pub open spec fn vulns_of(body: Json) -> Seq<Json> {
    match items_of(field(body, "vulns"@)) {
        Some(vulns) => vulns,
        None => seq![],
    }
}

/// The score texts of each advisory of an answer.
pub open spec fn body_score_texts(body: Json) -> Seq<Seq<Seq<char>>> {
    vulns_of(body).map_values(|v: Json| score_texts_of(v))
}

/// The score texts of each advisory of an answer, to be read as numbers.
pub fn score_queries(body: &Json) -> (r: Vec<Vec<String>>)
    ensures
        r.deep_view() == body_score_texts(*body),
{
    let mut out: Vec<Vec<String>> = Vec::new();
    if let Some(vulns) = as_array(body.get("vulns")) {
        let mut i: usize = 0;
        while i < vulns.len()
            invariant
                i <= vulns.len(),
                out.len() == i,
                forall|j: int|
                    0 <= j < i ==> (#[trigger] out@[j]).deep_view() == score_texts_of(vulns@[j]),
            decreases vulns.len() - i,
        {
            out.push(score_texts(&vulns[i]));
            i = i + 1;
        }
    }
    assert(out.deep_view() =~= body_score_texts(*body));
    out
}

/// The scores of the advisory at the place `i`; none where none were given.
pub open spec fn scores_at(scores: Seq<Seq<Option<u64>>>, i: int) -> Seq<Option<u64>> {
    if 0 <= i < scores.len() {
        scores[i]
    } else {
        seq![]
    }
}

/// The first `n` of some advisories, for `package`; without those that have no
/// identifier.
pub open spec fn advisories_of(
    vulns: Seq<Json>,
    package: Seq<char>,
    scores: Seq<Seq<Option<u64>>>,
    n: nat,
) -> Seq<AdvisoryView>
    decreases n,
{
    if n == 0 {
        seq![]
    } else {
        let rest = advisories_of(vulns, package, scores, (n - 1) as nat);
        match advisory_of(vulns[n - 1], package, scores_at(scores, n - 1)) {
            Some(a) => rest.push(a),
            None => rest,
        }
    }
}

/// What an answer of the database says.
pub open spec fn audit_of(
    body: Json,
    package: Seq<char>,
    scores: Seq<Seq<Option<u64>>>,
    now: u64,
) -> AuditView {
    AuditView {
        advisories: advisories_of(vulns_of(body), package, scores, vulns_of(body).len()),
        fetched: now,
    }
}

/// Reads an answer of the database that came at `now`. `scores` gives for each
/// of its score texts the bits of the number that it is, if it is one.
pub fn parse_audit(body: &Json, package: &str, scores: &Vec<Vec<Option<u64>>>, now: u64) -> (r:
    AuditResult)
    ensures
        r.deep_view() == audit_of(*body, package@, scores.deep_view(), now),
{
    let mut result = AuditResult::fresh(now);
    if let Some(vulns) = as_array(body.get("vulns")) {
        let none: Vec<Option<u64>> = Vec::new();
        let ghost all = scores.deep_view();
        let mut i: usize = 0;
        while i < vulns.len()
            invariant
                i <= vulns.len(),
                all == scores.deep_view(),
                none@ == Seq::<Option<u64>>::empty(),
                result.fetched == now,
                result.advisories.deep_view() == advisories_of(
                    vulns@,
                    package@,
                    all,
                    i as nat,
                ),
            decreases vulns.len() - i,
        {
            let own: &Vec<Option<u64>> = if i < scores.len() {
                &scores[i]
            } else {
                &none
            };
            assert(own@ =~= own.deep_view());
            assert(own@ =~= scores_at(all, i as int));
            let ghost before = result.advisories.deep_view();
            if let Some(adv) = parse_advisory(&vulns[i], package, own) {
                let ghost view = adv.deep_view();
                result.advisories.push(adv);
                assert(result.advisories.deep_view() =~= before.push(view));
            }
            i = i + 1;
        }
    }
    result
}

// ---- The cache ----

/// What a map of answers holds.
pub uninterp spec fn audits_in(map: DashMap<String, AuditResult, RandomState>) -> Map<
    Seq<char>,
    AuditView,
>;

/// An empty map: `DashMap::new`.
#[verifier::external_body]
fn new_audits() -> (r: DashMap<String, AuditResult, RandomState>)
    ensures
        holds_nothing(audits_in(r)),
{
    DashMap::new()
}

/// A copy of what a map holds under `key`: `DashMap::get`.
#[verifier::external_body]
fn get_audit(map: &DashMap<String, AuditResult, RandomState>, key: &str) -> (r: Option<AuditResult>)
    ensures
        r.deep_view() == lookup(audits_in(*map), key@),
{
    map.get(key).map(|a| a.clone())
}

/// Puts an answer under `key`, in place of the one that was there:
/// `DashMap::insert`.
#[verifier::external_body]
fn put_audit(map: &mut DashMap<String, AuditResult, RandomState>, key: String, audit: AuditResult)
    ensures
        audits_in(*final(map)) == audits_in(*old(map)).insert(key@, audit.deep_view()),
{
    map.insert(key, audit);
}

/// What the database is asked: the package, its ecosystem and its version.
#[derive(Debug)]
pub struct Query {
    pub name: String,
    pub ecosystem: String,
    pub version: String,
}

/// The model of a [`Query`].
#[verifier::ext_equal]
pub struct QueryView {
    pub name: Seq<char>,
    pub ecosystem: Seq<char>,
    pub version: Seq<char>,
}

impl DeepView for Query {
    type V = QueryView;

    open spec fn deep_view(&self) -> QueryView {
        QueryView { name: self.name@, ecosystem: self.ecosystem@, version: self.version@ }
    }
}

/// What has happened to a query.
pub enum AuditEvent<'a> {
    /// The advisories are asked for.
    Start,
    /// The permit to send a query was granted, or will not be.
    Permit(bool),
    /// An answer with this status has come, or none will.
    Response(Option<u16>),
    /// The body of the answer was read, with the bits of its scores, or cannot
    /// be.
    Body(Option<(&'a Json, &'a Vec<Vec<Option<u64>>>)>),
    /// The query was sent, and nobody waits for its answer any more.
    Abandoned,
}

/// What is to be done next about a query.
#[derive(Debug)]
pub enum AuditStep {
    /// Wait for a permit.
    AcquirePermit,
    /// Send this query.
    Send(Query),
    /// Read the body of the answer.
    ReadBody,
    /// Nothing: this is the outcome.
    Done(Option<AuditResult>),
}

/// The model of an [`AuditStep`].
#[verifier::ext_equal]
pub enum AuditStepView {
    AcquirePermit,
    Send(QueryView),
    ReadBody,
    Done(Option<AuditView>),
}

impl DeepView for AuditStep {
    type V = AuditStepView;

    open spec fn deep_view(&self) -> AuditStepView {
        match self {
            AuditStep::AcquirePermit => AuditStepView::AcquirePermit,
            AuditStep::Send(query) => AuditStepView::Send(query.deep_view()),
            AuditStep::ReadBody => AuditStepView::ReadBody,
            AuditStep::Done(a) => AuditStepView::Done(a.deep_view()),
        }
    }
}

/// The key of a version of a package in the cache.
pub open spec fn audit_key(name: Seq<char>, version: VersionView) -> Seq<char> {
    name + "@"@ + version_text(version)
}

/// The answer about a version that is young enough to be used.
pub open spec fn cached_audit(
    cache: Map<Seq<char>, AuditView>,
    key: Seq<char>,
    now: u64,
) -> Option<AuditView> {
    match lookup(cache, key) {
        Some(a) => if fresh(a.fetched, now, CACHE_TTL) {
            Some(a)
        } else {
            None
        },
        None => None,
    }
}

/// What is remembered of the database, and how many queries are under way.
#[verifier::ext_equal]
pub struct AuditorView {
    pub cache: Map<Seq<char>, AuditView>,
    pub in_flight: nat,
}

/// A database of which nothing is remembered.
pub open spec fn new_auditor() -> AuditorView {
    AuditorView { cache: Map::empty(), in_flight: 0 }
}

/// One query more is under way.
pub open spec fn taken_off(s: AuditorView) -> AuditorView {
    AuditorView { in_flight: s.in_flight + 1, ..s }
}

/// One query less is under way.
pub open spec fn landed(s: AuditorView) -> AuditorView {
    AuditorView {
        in_flight: if s.in_flight > 0 {
            (s.in_flight - 1) as nat
        } else {
            0
        },
        ..s
    }
}

/// What is done next about a query, and what is remembered then. An answer in
/// the cache is used while it is young, and looked for again once a permit is
/// there. A query is sent while fewer than the limit are under way; else it
/// waits on. A failure is no answer, and leaves the cache as it was.
pub open spec fn audit_step(
    s: AuditorView,
    name: Seq<char>,
    version: VersionView,
    now: u64,
    event: AuditEvent,
) -> (AuditorView, AuditStepView) {
    let key = audit_key(name, version);
    match event {
        AuditEvent::Start => match cached_audit(s.cache, key, now) {
            Some(a) => (s, AuditStepView::Done(Some(a))),
            None => (s, AuditStepView::AcquirePermit),
        },
        AuditEvent::Permit(granted) => if !granted {
            (s, AuditStepView::Done(None))
        } else {
            match cached_audit(s.cache, key, now) {
                Some(a) => (s, AuditStepView::Done(Some(a))),
                None => if s.in_flight < CONCURRENT_QUERIES {
                    (
                        taken_off(s),
                        AuditStepView::Send(
                            QueryView { name, ecosystem: "npm"@, version: version_text(version) },
                        ),
                    )
                } else {
                    (s, AuditStepView::AcquirePermit)
                },
            }
        },
        AuditEvent::Response(status) => match status {
            Some(code) => if 200 <= code <= 299 {
                (s, AuditStepView::ReadBody)
            } else {
                (landed(s), AuditStepView::Done(None))
            },
            None => (landed(s), AuditStepView::Done(None)),
        },
        AuditEvent::Body(body) => match body {
            Some((b, scores)) => {
                let a = audit_of(*b, name, scores.deep_view(), now);
                (
                    AuditorView { cache: s.cache.insert(key, a), ..landed(s) },
                    AuditStepView::Done(Some(a)),
                )
            },
            None => (landed(s), AuditStepView::Done(None)),
        },
        AuditEvent::Abandoned => (landed(s), AuditStepView::Done(None)),
    }
}

/// The advisory database, as far as its answers are remembered.
pub struct Auditor {
    cache: DashMap<String, AuditResult, RandomState>,
    in_flight: usize,
}

impl View for Auditor {
    type V = AuditorView;

    closed spec fn view(&self) -> AuditorView {
        AuditorView { cache: audits_in(self.cache), in_flight: self.in_flight as nat }
    }
}

impl Auditor {
    /// A database of which nothing is remembered.
    pub fn new() -> (r: Auditor)
        ensures
            r@ == new_auditor(),
    {
        Auditor { cache: new_audits(), in_flight: 0 }
    }

    /// The answer about a version that is young enough to be used.
    fn cached(&self, key: &str, now: u64) -> (r: Option<AuditResult>)
        ensures
            r.deep_view() == cached_audit(self@.cache, key@, now),
    {
        match get_audit(&self.cache, key) {
            Some(a) => if is_fresh(a.fetched, now, CACHE_TTL) {
                Some(a)
            } else {
                None
            },
            None => None,
        }
    }

    /// Notes that a query is not under way any more.
    fn land(&mut self)
        ensures
            final(self)@ == landed(old(self)@),
    {
        if self.in_flight > 0 {
            self.in_flight = self.in_flight - 1;
        }
    }

    /// Decides what is done next about the advisories for the version `version`
    /// of the package `name`, now that `event` has happened at the time `now`.
    pub fn audit(&mut self, name: &str, version: &Version, now: u64, event: AuditEvent) -> (r:
        AuditStep)
        ensures
            (final(self)@, r.deep_view()) == audit_step(
                old(self)@,
                name@,
                version.deep_view(),
                now,
                event,
            ),
    {
        let version_name = version.to_string();
        let mut key = name.to_owned();
        key.append("@");
        key.append(version_name.as_str());
        match event {
            AuditEvent::Start => match self.cached(key.as_str(), now) {
                Some(a) => AuditStep::Done(Some(a)),
                None => AuditStep::AcquirePermit,
            },
            AuditEvent::Permit(granted) => if !granted {
                AuditStep::Done(None)
            } else {
                match self.cached(key.as_str(), now) {
                    Some(a) => AuditStep::Done(Some(a)),
                    None => if self.in_flight < CONCURRENT_QUERIES {
                        self.in_flight = self.in_flight + 1;
                        AuditStep::Send(
                            Query {
                                name: name.to_owned(),
                                ecosystem: "npm".to_owned(),
                                version: version_name,
                            },
                        )
                    } else {
                        AuditStep::AcquirePermit
                    },
                }
            },
            AuditEvent::Response(status) => match status {
                Some(code) => if 200 <= code && code <= 299 {
                    AuditStep::ReadBody
                } else {
                    self.land();
                    AuditStep::Done(None)
                },
                None => {
                    self.land();
                    AuditStep::Done(None)
                },
            },
            AuditEvent::Body(body) => match body {
                Some((b, scores)) => {
                    let a = parse_audit(b, name, scores, now);
                    self.land();
                    put_audit(&mut self.cache, key, a.clone());
                    AuditStep::Done(Some(a))
                },
                None => {
                    self.land();
                    AuditStep::Done(None)
                },
            },
            AuditEvent::Abandoned => {
                self.land();
                AuditStep::Done(None)
            },
        }
    }
}

/// The event ends a query that was sent.
pub open spec fn settles(event: AuditEvent) -> bool {
    match event {
        AuditEvent::Response(Some(code)) => !(200 <= code <= 299),
        AuditEvent::Response(None) | AuditEvent::Body(_) | AuditEvent::Abandoned => true,
        _ => false,
    }
}

/// A call of [`Auditor::audit`].
pub struct Call<'a> {
    pub name: Seq<char>,
    pub version: VersionView,
    pub now: u64,
    pub event: AuditEvent<'a>,
}

/// What a new database is after some calls, and how many of the queries that it
/// let go out have not come to an end.
pub open spec fn replay(calls: Seq<Call>) -> (AuditorView, int)
    decreases calls.len(),
{
    if calls.len() == 0 {
        (new_auditor(), 0)
    } else {
        let (s, open) = replay(calls.drop_last());
        let call = calls.last();
        let (t, step) = audit_step(s, call.name, call.version, call.now, call.event);
        (
            t,
            open + (if step is Send {
                1int
            } else {
                0int
            }) - (if settles(call.event) {
                1int
            } else {
                0int
            }),
        )
    }
}

/// No call tells of the end of a query where none is under way.
pub open spec fn in_order(calls: Seq<Call>) -> bool {
    forall|k: int|
        0 <= k < calls.len() && settles((#[trigger] calls[k]).event) ==> replay(calls.take(k)).1 > 0
}

/// However the calls for any number of versions are mixed, at every moment no
/// more queries are under way than the limit.
pub proof fn law_queries_are_capped(calls: Seq<Call>)
    requires
        in_order(calls),
    ensures
        0 <= replay(calls).1 <= CONCURRENT_QUERIES,
        replay(calls).1 == replay(calls).0.in_flight,
    decreases calls.len(),
{
    if calls.len() > 0 {
        let before = calls.drop_last();
        assert forall|k: int| 0 <= k < before.len() && settles(
            (#[trigger] before[k]).event,
        ) implies replay(before.take(k)).1 > 0 by {
            assert(before[k] == calls[k]);
            assert(before.take(k) =~= calls.take(k));
        }
        law_queries_are_capped(before);
        assert(calls.take(calls.len() - 1) =~= before);
        assert(calls[calls.len() - 1] == calls.last());
    }
}

/// An answer is served from the cache for six hours, without a query, and no
/// longer. A query that was waiting for its permit meanwhile is not sent either.
pub proof fn law_answers_are_kept_for_six_hours(
    s: AuditorView,
    name: Seq<char>,
    version: VersionView,
    then: u64,
    body: Json,
    scores: Vec<Vec<Option<u64>>>,
    now: u64,
)
    requires
        then <= now,
    ensures
        ({
            let event = AuditEvent::Body(Some((&body, &scores)));
            let (after, step) = audit_step(s, name, version, then, event);
            &&& audit_step(after, name, version, now, AuditEvent::Start) == (
                after,
                if now - then < CACHE_TTL {
                    step
                } else {
                    AuditStepView::AcquirePermit
                },
            )
            &&& now - then < CACHE_TTL ==> audit_step(
                after,
                name,
                version,
                now,
                AuditEvent::Permit(true),
            ) == (after, step)
        }),
{
}

/// A query takes at most four events, not counting the waiting: a permit is
/// asked for at the start at most, or again where the limit is reached; a query
/// is sent with the permit at most, the body is read behind the response at
/// most, and with the body it is settled.
pub proof fn law_queries_come_to_an_end(
    s: AuditorView,
    name: Seq<char>,
    version: VersionView,
    now: u64,
    event: AuditEvent,
)
    ensures
        match audit_step(s, name, version, now, event).1 {
            AuditStepView::AcquirePermit => event is Start || (event is Permit && s.in_flight
                >= CONCURRENT_QUERIES),
            AuditStepView::Send(_) => event is Permit,
            AuditStepView::ReadBody => event is Response,
            AuditStepView::Done(_) => true,
        },
{
}

/// A query changes what is remembered under its own key, and under no other.
pub proof fn law_audit_leaves_other_versions(
    s: AuditorView,
    name: Seq<char>,
    version: VersionView,
    now: u64,
    event: AuditEvent,
    other: Seq<char>,
)
    requires
        other != audit_key(name, version),
    ensures
        lookup(audit_step(s, name, version, now, event).0.cache, other) == lookup(s.cache, other),
{
}

/// A query that fails leaves the cache as it was.
pub proof fn law_failed_audit_changes_nothing(
    s: AuditorView,
    name: Seq<char>,
    version: VersionView,
    now: u64,
    event: AuditEvent,
)
    requires
        audit_step(s, name, version, now, event).1 == AuditStepView::Done(None),
    ensures
        audit_step(s, name, version, now, event).0.cache == s.cache,
{
}

// ---- What an answer says ----

proof fn lemma_labels_differ()
    ensures
        "CRITICAL"@ != "HIGH"@,
        "CRITICAL"@ != "MODERATE"@,
        "CRITICAL"@ != "MEDIUM"@,
        "CRITICAL"@ != "LOW"@,
        "HIGH"@ != "MODERATE"@,
        "HIGH"@ != "MEDIUM"@,
        "HIGH"@ != "LOW"@,
        "MODERATE"@ != "LOW"@,
        "MEDIUM"@ != "LOW"@,
{
    reveal_strlit("CRITICAL");
    reveal_strlit("HIGH");
    reveal_strlit("MODERATE");
    reveal_strlit("MEDIUM");
    reveal_strlit("LOW");
    assert("CRITICAL"@[0] == 'C');
    assert("HIGH"@[0] == 'H');
    assert("MODERATE"@[0] == 'M');
    assert("MEDIUM"@[0] == 'M');
    assert("LOW"@[0] == 'L');
}

/// A label names a severity in upper, lower or mixed case; medium is moderate.
/// Any other label names none.
pub proof fn law_labels_name_severities(label: Seq<char>)
    ensures
        label_severity(label) == AdvisorySeverity::Critical <==> uppercased(label) == "CRITICAL"@,
        label_severity(label) == AdvisorySeverity::High <==> uppercased(label) == "HIGH"@,
        label_severity(label) == AdvisorySeverity::Moderate <==> uppercased(label) == "MODERATE"@
            || uppercased(label) == "MEDIUM"@,
        label_severity(label) == AdvisorySeverity::Low <==> uppercased(label) == "LOW"@,
        label_severity(label) == label_severity(uppercased(label)),
{
    lemma_labels_differ();
    law_upper_case(label);
}

/// A severity as a number, the worst last.
pub open spec fn badness(severity: AdvisorySeverity) -> int {
    match severity {
        AdvisorySeverity::Unknown => 0,
        AdvisorySeverity::Low => 1,
        AdvisorySeverity::Moderate => 2,
        AdvisorySeverity::High => 3,
        AdvisorySeverity::Critical => 4,
    }
}

/// A higher score is at least as bad. It is critical from nine on, high from
/// seven, moderate from four, and low above zero. Zero, a negative number and
/// what is no number have no severity.
pub proof fn law_scores_grow_worse(a: u64, b: u64)
    ensures
        a <= b <= 0x7ff0_0000_0000_0000 ==> badness(score_severity(a)) <= badness(
            score_severity(b),
        ),
        score_severity(0x4022_0000_0000_0000) == AdvisorySeverity::Critical,
        score_severity(0x4021_ffff_ffff_ffff) == AdvisorySeverity::High,
        score_severity(0x401c_0000_0000_0000) == AdvisorySeverity::High,
        score_severity(0x401b_ffff_ffff_ffff) == AdvisorySeverity::Moderate,
        score_severity(0x4010_0000_0000_0000) == AdvisorySeverity::Moderate,
        score_severity(0x400f_ffff_ffff_ffff) == AdvisorySeverity::Low,
        score_severity(1) == AdvisorySeverity::Low,
        score_severity(0) == AdvisorySeverity::Unknown,
        score_severity(0x7ff0_0000_0000_0000) == AdvisorySeverity::Critical,
        a > 0x7ff0_0000_0000_0000 ==> score_severity(a) == AdvisorySeverity::Unknown,
{
}

proof fn lemma_base_metrics(pieces: Seq<Seq<char>>) -> (at: Seq<int>)
    ensures
        at.len() == base_metrics(pieces).len(),
        forall|i: int|
            0 <= i < at.len() ==> 0 <= #[trigger] at[i] < pieces.len() && pieces[at[i]] == "B:"@
                + base_metrics(pieces)[i],
        forall|i: int, j: int| 0 <= i < j < at.len() ==> #[trigger] at[i] < #[trigger] at[j],
        forall|k: int|
            0 <= k < pieces.len() && "B:"@.is_prefix_of(#[trigger] pieces[k]) ==> at.contains(k),
    decreases pieces.len(),
{
    if pieces.len() == 0 {
        seq![]
    } else {
        let rest = pieces.drop_last();
        let n = pieces.len() - 1;
        let before = lemma_base_metrics(rest);
        if let Some(x) = without_prefix(pieces.last(), "B:"@) {
            law_rests_make_up_the_text(pieces.last(), "B:"@, x);
            let at = before.push(n);
            assert forall|k: int|
                0 <= k < pieces.len() && "B:"@.is_prefix_of(
                    #[trigger] pieces[k],
                ) implies at.contains(k) by {
                if k < n {
                    assert(rest[k] == pieces[k]);
                    let m = choose|m: int| 0 <= m < before.len() && before[m] == k;
                    assert(at[m] == k);
                } else {
                    assert(at[before.len() as int] == k);
                }
            }
            at
        } else {
            assert forall|k: int|
                0 <= k < pieces.len() && "B:"@.is_prefix_of(
                    #[trigger] pieces[k],
                ) implies before.contains(k) by {
                assert(k < n);
                assert(rest[k] == pieces[k]);
            }
            before
        }
    }
}

/// The texts that may give the score of a CVSS string are the string itself and
/// then what stands behind `B:` in its pieces between slashes: each such piece
/// gives one, in their order, and no other piece does.
pub proof fn law_score_candidates(vector: Seq<char>)
    ensures
        score_candidates(vector).len() > 0,
        score_candidates(vector)[0] == vector,
        exists|at: Seq<int>|
            {
                &&& #[trigger] at.len() == score_candidates(vector).len() - 1
                &&& forall|i: int|
                    0 <= i < at.len() ==> 0 <= #[trigger] at[i] < split_slash(vector).len()
                        && split_slash(vector)[at[i]] == "B:"@ + score_candidates(vector)[i + 1]
                &&& forall|i: int, j: int|
                    0 <= i < j < at.len() ==> #[trigger] at[i] < #[trigger] at[j]
                &&& forall|k: int|
                    0 <= k < split_slash(vector).len() && "B:"@.is_prefix_of(
                        #[trigger] split_slash(vector)[k],
                    ) ==> at.contains(k)
            },
{
    let at = lemma_base_metrics(split_slash(vector));
    let all = score_candidates(vector);
    assert forall|i: int| 0 <= i < at.len() implies 0 <= #[trigger] at[i] < split_slash(
        vector,
    ).len() && split_slash(vector)[at[i]] == "B:"@ + all[i + 1] by {
        assert(all[i + 1] == base_metrics(split_slash(vector))[i]);
    }
    assert(at.len() == all.len() - 1);
}

/// The score is the first of the texts that is a number; there is none exactly
/// where none of them is.
pub proof fn law_first_number_is_the_score(scores: Seq<Option<u64>>)
    ensures
        match first_score(scores) {
            Some(bits) => exists|i: int|
                0 <= i < scores.len() && #[trigger] scores[i] == Some(bits) && forall|j: int|
                    0 <= j < i ==> (#[trigger] scores[j]) is None,
            None => forall|j: int| 0 <= j < scores.len() ==> (#[trigger] scores[j]) is None,
        },
    decreases scores.len(),
{
    if scores.len() > 0 {
        let rest = scores.drop_first();
        if scores[0] is Some {
            assert(scores[0] == first_score(scores));
        } else {
            law_first_number_is_the_score(rest);
            if let Some(bits) = first_score(scores) {
                let i = choose|i: int|
                    0 <= i < rest.len() && #[trigger] rest[i] == Some(bits) && forall|j: int|
                        0 <= j < i ==> (#[trigger] rest[j]) is None;
                assert(scores[i + 1] == Some(bits));
                assert forall|j: int| 0 <= j < i + 1 implies (#[trigger] scores[j]) is None by {
                    if j > 0 {
                        assert(scores[j] == rest[j - 1]);
                    }
                }
            } else {
                assert forall|j: int| 0 <= j < scores.len() implies (
                #[trigger] scores[j]) is None by {
                    if j > 0 {
                        assert(scores[j] == rest[j - 1]);
                    }
                }
            }
        }
    }
}

/// The rating that counts is the first whose type begins with `CVSS`; there is
/// none exactly where no rating has such a type.
pub proof fn law_first_cvss_rating_counts(ratings: Seq<Json>)
    ensures
        match first_cvss(ratings) {
            Some(r) => exists|i: int|
                0 <= i < ratings.len() && #[trigger] ratings[i] == r && has_cvss_type(ratings[i])
                    && forall|j: int| 0 <= j < i ==> !has_cvss_type(#[trigger] ratings[j]),
            None => forall|j: int|
                0 <= j < ratings.len() ==> !has_cvss_type(#[trigger] ratings[j]),
        },
    decreases ratings.len(),
{
    assert forall|e: Json| has_cvss_type(e) == is_cvss(e) by {
        if let Some(Json::Text(t)) = field(e, "type"@) {
            if has_cvss_type(e) {
                let rest = choose|rest: Seq<char>| t@ == #[trigger] ("CVSS"@ + rest);
                law_rests_make_up_the_text(t@, "CVSS"@, rest);
            }
            if is_cvss(e) {
                let rest = t@.skip("CVSS"@.len() as int);
                law_rests_make_up_the_text(t@, "CVSS"@, rest);
                assert(t@ == "CVSS"@ + rest);
            }
        }
    }
    if ratings.len() > 0 {
        let rest = ratings.drop_first();
        if is_cvss(ratings[0]) {
            assert(ratings[0] == first_cvss(ratings)->0);
        } else {
            law_first_cvss_rating_counts(rest);
            if let Some(r) = first_cvss(ratings) {
                let i = choose|i: int|
                    0 <= i < rest.len() && #[trigger] rest[i] == r && has_cvss_type(rest[i])
                        && forall|j: int| 0 <= j < i ==> !has_cvss_type(#[trigger] rest[j]);
                assert(ratings[i + 1] == r);
                assert forall|j: int| 0 <= j < i + 1 implies !has_cvss_type(
                    #[trigger] ratings[j],
                ) by {
                    if j > 0 {
                        assert(ratings[j] == rest[j - 1]);
                    }
                }
            } else {
                assert forall|j: int| 0 <= j < ratings.len() implies !has_cvss_type(
                    #[trigger] ratings[j],
                ) by {
                    if j > 0 {
                        assert(ratings[j] == rest[j - 1]);
                    }
                }
            }
        }
    }
}

/// The type of a rating is a text that begins with `CVSS`.
pub open spec fn has_cvss_type(e: Json) -> bool {
    field(e, "type"@) matches Some(Json::Text(t)) && exists|rest: Seq<char>|
        t@ == #[trigger] ("CVSS"@ + rest)
}

/// The label of an advisory gives its severity, whatever its scores are. Without
/// one the score of its CVSS rating does, and without either it is not known.
pub proof fn law_severity_by_label_then_score(vuln: Json, scores: Seq<Option<u64>>)
    ensures
        ({
            let label = match field(vuln, "database_specific"@) {
                Some(v) => text_of(field(v, "severity"@)),
                None => None,
            };
            let rating = match field(vuln, "severity"@) {
                Some(Json::Array(ratings)) => match first_cvss(ratings@) {
                    Some(r) => text_of(field(r, "score"@)),
                    None => None,
                },
                _ => None,
            };
            &&& label matches Some(l) ==> severity_of(vuln, scores) == label_severity(l)
                && score_texts_of(vuln).len() == 0
            &&& label is None && rating is None ==> severity_of(vuln, scores)
                == AdvisorySeverity::Unknown && score_texts_of(vuln).len() == 0
            &&& label is None && rating is Some ==> {
                &&& score_texts_of(vuln) == score_candidates(rating->0)
                &&& first_score(scores) matches Some(bits) ==> severity_of(vuln, scores)
                    == score_severity(bits)
                &&& first_score(scores) is None ==> severity_of(vuln, scores)
                    == AdvisorySeverity::Unknown
            }
        }),
{
}

/// The event at `k` of the range at `j` of the affected package at `i`, which is
/// `package`, gives `v` as a fix.
pub open spec fn fix_at(
    vuln: Json,
    package: Seq<char>,
    v: VersionView,
    i: int,
    j: int,
    k: int,
) -> bool {
    &&& field(vuln, "affected"@) matches Some(Json::Array(affected))
    &&& 0 <= i < affected@.len()
    &&& field(affected@[i], "package"@) matches Some(named)
    &&& field(named, "name"@) matches Some(Json::Text(name))
    &&& name@ == package
    &&& field(affected@[i], "ranges"@) matches Some(Json::Array(ranges))
    &&& 0 <= j < ranges@.len()
    &&& field(ranges@[j], "events"@) matches Some(Json::Array(events))
    &&& 0 <= k < events@.len()
    &&& field(events@[k], "fixed"@) matches Some(Json::Text(text))
    &&& parsed_version(text@) == Some(v)
}

/// One of the events gives `v` as a fix.
pub open spec fn event_gives(events: Seq<Json>, v: VersionView, k: int) -> bool {
    &&& 0 <= k < events.len()
    &&& field(events[k], "fixed"@) matches Some(Json::Text(text))
    &&& parsed_version(text@) == Some(v)
}

/// One of the events of one of the ranges gives `v` as a fix.
pub open spec fn range_gives(ranges: Seq<Json>, v: VersionView, j: int, k: int) -> bool {
    &&& 0 <= j < ranges.len()
    &&& field(ranges[j], "events"@) matches Some(Json::Array(events))
    &&& event_gives(events@, v, k)
}

proof fn lemma_event_fixes(events: Seq<Json>, v: VersionView)
    ensures
        event_fixes(events).contains(v) <==> exists|k: int| event_gives(events, v, k),
    decreases events.len(),
{
    if events.len() > 0 {
        let rest = events.drop_last();
        let n = events.len() - 1;
        let before = event_fixes(rest);
        let all = event_fixes(events);
        lemma_event_fixes(rest, v);
        assert(events[n] == events.last());
        if all.contains(v) {
            let m = choose|m: int| 0 <= m < all.len() && all[m] == v;
            if m < before.len() {
                assert(before[m] == v);
                let k = choose|k: int| event_gives(rest, v, k);
                assert(event_gives(events, v, k));
            } else {
                assert(event_gives(events, v, n));
            }
        }
        if exists|k: int| event_gives(events, v, k) {
            let k = choose|k: int| event_gives(events, v, k);
            if k < n {
                assert(event_gives(rest, v, k));
                let m = choose|m: int| 0 <= m < before.len() && before[m] == v;
                assert(all[m] == v);
            } else {
                assert(all[all.len() - 1] == v);
            }
        }
    }
}

proof fn lemma_range_fixes(ranges: Seq<Json>, v: VersionView)
    ensures
        range_fixes(ranges).contains(v) <==> exists|j: int, k: int| range_gives(ranges, v, j, k),
    decreases ranges.len(),
{
    if ranges.len() > 0 {
        let rest = ranges.drop_last();
        let n = ranges.len() - 1;
        let before = range_fixes(rest);
        let own = match items_of(field(ranges.last(), "events"@)) {
            Some(events) => event_fixes(events),
            None => seq![],
        };
        let all = range_fixes(ranges);
        assert(all == before + own);
        assert(ranges[n] == ranges.last());
        lemma_range_fixes(rest, v);
        if let Some(events) = items_of(field(ranges.last(), "events"@)) {
            lemma_event_fixes(events, v);
        }
        if all.contains(v) {
            let m = choose|m: int| 0 <= m < all.len() && all[m] == v;
            if m < before.len() {
                assert(before[m] == v);
                let (j, k) = choose|j: int, k: int| range_gives(rest, v, j, k);
                assert(range_gives(ranges, v, j, k));
            } else {
                assert(own[m - before.len()] == v);
                let events = items_of(field(ranges.last(), "events"@))->0;
                let k = choose|k: int| event_gives(events, v, k);
                assert(range_gives(ranges, v, n, k));
            }
        }
        if exists|j: int, k: int| range_gives(ranges, v, j, k) {
            let (j, k) = choose|j: int, k: int| range_gives(ranges, v, j, k);
            if j < n {
                assert(range_gives(rest, v, j, k));
                let m = choose|m: int| 0 <= m < before.len() && before[m] == v;
                assert(all[m] == v);
            } else {
                let events = items_of(field(ranges.last(), "events"@))->0;
                assert(event_gives(events, v, k));
                let m = choose|m: int| 0 <= m < own.len() && own[m] == v;
                assert(all[before.len() + m] == v);
            }
        }
    }
}

/// The affected package at `i` is `package`, and one of the events of one of its
/// ranges gives `v` as a fix.
pub open spec fn affected_gives(
    affected: Seq<Json>,
    package: Seq<char>,
    v: VersionView,
    i: int,
    j: int,
    k: int,
) -> bool {
    &&& 0 <= i < affected.len()
    &&& text_of(field_of(field(affected[i], "package"@), "name"@)) == Some(package)
    &&& field(affected[i], "ranges"@) matches Some(Json::Array(ranges))
    &&& range_gives(ranges@, v, j, k)
}

proof fn lemma_affected_fixes(affected: Seq<Json>, package: Seq<char>, v: VersionView)
    ensures
        affected_fixes(affected, package).contains(v) <==> exists|i: int, j: int, k: int|
            affected_gives(affected, package, v, i, j, k),
    decreases affected.len(),
{
    if affected.len() > 0 {
        let rest = affected.drop_last();
        let n = affected.len() - 1;
        let last = affected.last();
        let before = affected_fixes(rest, package);
        let named = text_of(field_of(field(last, "package"@), "name"@)) == Some(package);
        let own = if named {
            match items_of(field(last, "ranges"@)) {
                Some(ranges) => range_fixes(ranges),
                None => seq![],
            }
        } else {
            seq![]
        };
        let all = affected_fixes(affected, package);
        assert(all == before + own);
        assert(affected[n] == last);
        lemma_affected_fixes(rest, package, v);
        if let Some(ranges) = items_of(field(last, "ranges"@)) {
            lemma_range_fixes(ranges, v);
        }
        if all.contains(v) {
            let m = choose|m: int| 0 <= m < all.len() && all[m] == v;
            if m < before.len() {
                assert(before[m] == v);
                let (i, j, k) = choose|i: int, j: int, k: int|
                    affected_gives(rest, package, v, i, j, k);
                assert(affected_gives(affected, package, v, i, j, k));
            } else {
                assert(own[m - before.len()] == v);
                let ranges = items_of(field(last, "ranges"@))->0;
                let (j, k) = choose|j: int, k: int| range_gives(ranges, v, j, k);
                assert(affected_gives(affected, package, v, n, j, k));
            }
        }
        if exists|i: int, j: int, k: int| affected_gives(affected, package, v, i, j, k) {
            let (i, j, k) = choose|i: int, j: int, k: int|
                affected_gives(affected, package, v, i, j, k);
            if i < n {
                assert(affected_gives(rest, package, v, i, j, k));
                let m = choose|m: int| 0 <= m < before.len() && before[m] == v;
                assert(all[m] == v);
            } else {
                let ranges = items_of(field(last, "ranges"@))->0;
                assert(range_gives(ranges, v, j, k));
                let m = choose|m: int| 0 <= m < own.len() && own[m] == v;
                assert(all[before.len() + m] == v);
            }
        }
    }
}

/// The fix of an advisory is the highest of the versions that the events of all
/// ranges of the affected packages of that name give as fixes: it is one of
/// them, and none comes after it. There is none exactly where no event gives
/// one; what is said of other packages does not count.
pub proof fn law_fix_is_the_highest_given(vuln: Json, package: Seq<char>)
    ensures
        match fixed_version(vuln, package) {
            Some(h) => (exists|i: int, j: int, k: int| fix_at(vuln, package, h, i, j, k)) && forall|
                v: VersionView,
                i: int,
                j: int,
                k: int,
            | #[trigger]
                fix_at(vuln, package, v, i, j, k) ==> !version_lt(h, v),
            None => forall|v: VersionView, i: int, j: int, k: int|
                !#[trigger] fix_at(vuln, package, v, i, j, k),
        },
{
    if let Some(affected) = items_of(field(vuln, "affected"@)) {
        let fixes = affected_fixes(affected, package);
        law_highest(fixes);
        assert forall|v: VersionView, i: int, j: int, k: int|
            #[trigger] fix_at(vuln, package, v, i, j, k) implies fixes.contains(v) by {
            lemma_affected_fixes(affected, package, v);
            assert(affected_gives(affected, package, v, i, j, k));
        }
        if let Some(h) = fixed_version(vuln, package) {
            lemma_affected_fixes(affected, package, h);
            let (i, j, k) = choose|i: int, j: int, k: int|
                affected_gives(affected, package, h, i, j, k);
            assert(fix_at(vuln, package, h, i, j, k));
            assert forall|v: VersionView, i: int, j: int, k: int|
                #[trigger] fix_at(vuln, package, v, i, j, k) implies !version_lt(h, v) by {
                let m = choose|m: int| 0 <= m < fixes.len() && fixes[m] == v;
                assert(!version_lt(h, fixes[m]));
            }
        } else {
            assert forall|v: VersionView, i: int, j: int, k: int|
                !#[trigger] fix_at(vuln, package, v, i, j, k) by {
                if fix_at(vuln, package, v, i, j, k) {
                    assert(fixes.contains(v));
                }
            }
        }
    }
}

/// The type of a reference is `ADVISORY` or `WEB`.
pub open spec fn is_for_readers(r: Json) -> bool {
    field(r, "type"@) matches Some(Json::Text(t)) && (t@ == "ADVISORY"@ || t@ == "WEB"@)
}

/// The reference that is shown is the first of the type `ADVISORY` or `WEB`,
/// wherever it stands; where there is none, it is the first of all.
pub proof fn law_page_of_an_advisory(refs: Seq<Json>)
    ensures
        match shown_reference(refs) {
            Some(r) => exists|i: int|
                0 <= i < refs.len() && #[trigger] refs[i] == r && (is_for_readers(r) || i == 0)
                    && (is_for_readers(r) ==> forall|j: int|
                    0 <= j < i ==> !is_for_readers(#[trigger] refs[j])) && (!is_for_readers(r)
                    ==> forall|j: int| 0 <= j < refs.len() ==> !is_for_readers(#[trigger] refs[j])),
            None => refs.len() == 0,
        },
{
    lemma_first_page(refs);
    if let Some(r) = first_page(refs) {
        let i = choose|i: int|
            0 <= i < refs.len() && #[trigger] refs[i] == r && is_for_readers(r) && forall|j: int|
                0 <= j < i ==> !is_for_readers(#[trigger] refs[j]);
        assert(refs[i] == r);
    } else if refs.len() > 0 {
        assert(refs[0] == shown_reference(refs)->0);
    }
}

proof fn lemma_first_page(refs: Seq<Json>)
    ensures
        match first_page(refs) {
            Some(r) => exists|i: int|
                0 <= i < refs.len() && #[trigger] refs[i] == r && is_for_readers(r) && forall|
                    j: int,
                |
                    0 <= j < i ==> !is_for_readers(#[trigger] refs[j]),
            None => forall|j: int| 0 <= j < refs.len() ==> !is_for_readers(#[trigger] refs[j]),
        },
    decreases refs.len(),
{
    if refs.len() > 0 {
        let rest = refs.drop_first();
        assert(is_page(refs[0]) == is_for_readers(refs[0]));
        if is_page(refs[0]) {
            assert(refs[0] == first_page(refs)->0);
        } else {
            lemma_first_page(rest);
            if let Some(r) = first_page(refs) {
                let i = choose|i: int|
                    0 <= i < rest.len() && #[trigger] rest[i] == r && is_for_readers(r) && forall|
                        j: int,
                    |
                        0 <= j < i ==> !is_for_readers(#[trigger] rest[j]);
                assert(refs[i + 1] == r);
                assert forall|j: int| 0 <= j < i + 1 implies !is_for_readers(
                    #[trigger] refs[j],
                ) by {
                    if j > 0 {
                        assert(refs[j] == rest[j - 1]);
                    }
                }
            } else {
                assert forall|j: int| 0 <= j < refs.len() implies !is_for_readers(
                    #[trigger] refs[j],
                ) by {
                    if j > 0 {
                        assert(refs[j] == rest[j - 1]);
                    }
                }
            }
        }
    }
}

/// What is called a vulnerability with an identifier is an advisory of that
/// identifier, with its summary, or `Vulnerability` where it has none, its
/// severity, its fix for the package, and the address of its page. Without an
/// identifier it is none.
pub proof fn law_advisory_tells_the_vulnerability(
    vuln: Json,
    package: Seq<char>,
    scores: Seq<Option<u64>>,
)
    ensures
        match field(vuln, "id"@) {
            Some(Json::Text(id)) => advisory_of(vuln, package, scores) matches Some(a) && {
                &&& a.id == id@
                &&& match field(vuln, "summary"@) {
                    Some(Json::Text(t)) => a.summary == t@,
                    _ => a.summary == "Vulnerability"@,
                }
                &&& a.severity == severity_of(vuln, scores)
                &&& a.fixed_in == fixed_version(vuln, package)
                &&& match field(vuln, "references"@) {
                    Some(Json::Array(refs)) => match shown_reference(refs@) {
                        Some(r) => a.url == text_of(field(r, "url"@)),
                        None => a.url is None,
                    },
                    _ => a.url is None,
                }
            },
            _ => advisory_of(vuln, package, scores) is None,
        },
{
}

proof fn lemma_advisories_in_order(
    vulns: Seq<Json>,
    package: Seq<char>,
    scores: Seq<Seq<Option<u64>>>,
    n: nat,
) -> (at: Seq<int>)
    requires
        n <= vulns.len(),
    ensures
        at.len() == advisories_of(vulns, package, scores, n).len(),
        forall|i: int|
            0 <= i < at.len() ==> 0 <= #[trigger] at[i] < n && advisory_of(
                vulns[at[i]],
                package,
                scores_at(scores, at[i]),
            ) == Some(advisories_of(vulns, package, scores, n)[i]),
        forall|i: int, j: int| 0 <= i < j < at.len() ==> #[trigger] at[i] < #[trigger] at[j],
        forall|k: int|
            0 <= k < n && field(#[trigger] vulns[k], "id"@) is Some && field(
                vulns[k],
                "id"@,
            )->0 is Text ==> at.contains(k),
    decreases n,
{
    if n == 0 {
        seq![]
    } else {
        let before = lemma_advisories_in_order(vulns, package, scores, (n - 1) as nat);
        match advisory_of(vulns[n - 1], package, scores_at(scores, n - 1)) {
            Some(a) => {
                let at = before.push(n - 1);
                assert forall|k: int|
                    0 <= k < n && field(#[trigger] vulns[k], "id"@) is Some && field(
                        vulns[k],
                        "id"@,
                    )->0 is Text implies at.contains(k) by {
                    if k < n - 1 {
                        let m = choose|m: int| 0 <= m < before.len() && before[m] == k;
                        assert(at[m] == k);
                    } else {
                        assert(at[before.len() as int] == k);
                    }
                }
                at
            },
            None => before,
        }
    }
}

/// An answer is read as one advisory for each of its vulnerabilities that has an
/// identifier, in their order, each with its own scores, and as no others.
pub proof fn law_every_vulnerability_is_read(
    body: Json,
    package: Seq<char>,
    scores: Seq<Seq<Option<u64>>>,
    now: u64,
)
    ensures
        audit_of(body, package, scores, now).fetched == now,
        match field(body, "vulns"@) {
            Some(Json::Array(vulns)) => exists|at: Seq<int>|
                {
                    let found = audit_of(body, package, scores, now).advisories;
                    &&& #[trigger] at.len() == found.len()
                    &&& forall|i: int|
                        0 <= i < at.len() ==> 0 <= #[trigger] at[i] < vulns@.len() && advisory_of(
                            vulns@[at[i]],
                            package,
                            if at[i] < scores.len() {
                                scores[at[i]]
                            } else {
                                seq![]
                            },
                        ) == Some(found[i])
                    &&& forall|i: int, j: int|
                        0 <= i < j < at.len() ==> #[trigger] at[i] < #[trigger] at[j]
                    &&& forall|k: int|
                        0 <= k < vulns@.len() && field(#[trigger] vulns@[k], "id"@) is Some
                            && field(vulns@[k], "id"@)->0 is Text ==> at.contains(k)
                },
            _ => audit_of(body, package, scores, now).advisories.len() == 0,
        },
        match field(body, "vulns"@) {
            Some(Json::Array(vulns)) => body_score_texts(body).len() == vulns@.len() && forall|
                i: int,
            |
                0 <= i < vulns@.len() ==> #[trigger] body_score_texts(body)[i] == score_texts_of(
                    vulns@[i],
                ),
            _ => body_score_texts(body).len() == 0,
        },
{
    let vulns = vulns_of(body);
    let at = lemma_advisories_in_order(vulns, package, scores, vulns.len());
    assert(at.len() == audit_of(body, package, scores, now).advisories.len());
}

// ---- The course of a query ----

/// A query about a version of which no young answer is there goes out once a
/// permit is there and fewer than eight are under way: it asks about exactly
/// that version of that package of npm. What the answer says is remembered for
/// that version, and afterwards as many queries are under way as before.
pub proof fn law_course_of_a_query(
    s: AuditorView,
    name: Seq<char>,
    version: VersionView,
    start: u64,
    sent: u64,
    answered: u64,
    code: u16,
    body: Json,
    scores: Vec<Vec<Option<u64>>>,
)
    requires
        ({
            let key = name + "@"@ + version_text(version);
            !s.cache.dom().contains(key) || (s.cache[key].fetched <= start <= sent && start
                - s.cache[key].fetched >= 21_600_000_000_000)
        }),
        s.in_flight < 8,
    ensures
        audit_step(s, name, version, start, AuditEvent::Start) == (s, AuditStepView::AcquirePermit),
        audit_step(s, name, version, sent, AuditEvent::Permit(false)) == (
            s,
            AuditStepView::Done(None),
        ),
        audit_step(s, name, version, sent, AuditEvent::Permit(true)).1 matches AuditStepView::Send(
            query,
        ) && query.name == name && query.ecosystem == "npm"@ && query.version == version_text(
            version,
        ),
        ({
            let key = name + "@"@ + version_text(version);
            let t = audit_step(s, name, version, sent, AuditEvent::Permit(true)).0;
            let (u, step) = audit_step(
                t,
                name,
                version,
                answered,
                AuditEvent::Response(Some(code)),
            );
            let a = audit_of(body, name, scores.deep_view(), answered);
            &&& t.cache == s.cache
            &&& t.in_flight == s.in_flight + 1
            &&& step is ReadBody <==> 200 <= code < 300
            &&& step is ReadBody ==> u == t
            &&& !(200 <= code < 300) ==> u == s && step == AuditStepView::Done(None)
            &&& audit_step(t, name, version, answered, AuditEvent::Body(Some((&body, &scores))))
                == (
                AuditorView { cache: s.cache.insert(key, a), in_flight: s.in_flight },
                AuditStepView::Done(Some(a)),
            )
            &&& audit_step(t, name, version, answered, AuditEvent::Body(None)) == (
                s,
                AuditStepView::Done(None),
            )
            &&& audit_step(t, name, version, answered, AuditEvent::Response(None)) == (
                s,
                AuditStepView::Done(None),
            )
            &&& audit_step(t, name, version, answered, AuditEvent::Abandoned) == (
                s,
                AuditStepView::Done(None),
            )
        }),
{
    let t = audit_step(s, name, version, sent, AuditEvent::Permit(true)).0;
    assert(landed(t) =~= s);
}

/// While eight queries are under way, no further one goes out; it waits on.
pub proof fn law_queries_wait_their_turn(
    s: AuditorView,
    name: Seq<char>,
    version: VersionView,
    now: u64,
)
    requires
        s.in_flight >= 8,
        cached_audit(s.cache, name + "@"@ + version_text(version), now) is None,
    ensures
        audit_step(s, name, version, now, AuditEvent::Permit(true)) == (
            s,
            AuditStepView::AcquirePermit,
        ),
{
}

/// An answer is used for six hours from when it came, and no longer, whatever it
/// says.
pub proof fn law_answers_live_six_hours(
    cache: Map<Seq<char>, AuditView>,
    key: Seq<char>,
    a: AuditView,
    now: u64,
)
    requires
        a.fetched <= now,
    ensures
        cached_audit(cache.insert(key, a), key, now) == (if now - a.fetched < 21_600_000_000_000 {
            Some(a)
        } else {
            None
        }),
        !cache.dom().contains(key) ==> cached_audit(cache, key, now) is None,
{
}

/// What is known of one version of a package is not taken for what is known of
/// another: the keys of two versions differ where their texts do.
pub proof fn law_versions_have_their_own_keys(name: Seq<char>, a: VersionView, b: VersionView)
    requires
        version_text(a) != version_text(b),
    ensures
        audit_key(name, a) != audit_key(name, b),
{
    let n = (name + "@"@).len() as int;
    assert(audit_key(name, a).skip(n) =~= version_text(a));
    assert(audit_key(name, b).skip(n) =~= version_text(b));
}

/// Of versions of the same precedence the first one counts as the highest.
pub proof fn law_first_highest(s: Seq<VersionView>, k: int)
    requires
        0 <= k < s.len(),
        forall|i: int| 0 <= i < k ==> version_lt(#[trigger] s[i], s[k]),
        forall|i: int| k < i < s.len() ==> !version_lt(s[k], #[trigger] s[i]),
    ensures
        highest(s) == Some(s[k]),
    decreases s.len(),
{
    let n = s.len() - 1;
    let rest = s.drop_last();
    assert forall|i: int| 0 <= i < n implies #[trigger] rest[i] == s[i] by {}
    if k < n {
        law_first_highest(rest, k);
        assert(!version_lt(s[k], s[n]));
    } else {
        law_highest(rest);
        if let Some(h) = highest(rest) {
            let j = choose|j: int| 0 <= j < rest.len() && rest[j] == h;
            assert(version_lt(s[j], s[k]));
        }
    }
}

/// A young answer is given out at once, without a query, and changes nothing.
pub proof fn law_young_answers_are_given_out(
    s: AuditorView,
    name: Seq<char>,
    version: VersionView,
    now: u64,
    a: AuditView,
)
    requires
        s.cache.dom().contains(name + "@"@ + version_text(version)),
        s.cache[name + "@"@ + version_text(version)] == a,
        a.fetched <= now,
        now - a.fetched < 21_600_000_000_000,
    ensures
        audit_step(s, name, version, now, AuditEvent::Start) == (s, AuditStepView::Done(Some(a))),
        audit_step(s, name, version, now, AuditEvent::Permit(true)) == (
            s,
            AuditStepView::Done(Some(a)),
        ),
{
}

/// The number of advisories of a severity grows by one with each of that
/// severity, and with no other.
pub proof fn law_advisories_are_counted(
    s: Seq<AdvisoryView>,
    adv: AdvisoryView,
    severity: AdvisorySeverity,
)
    ensures
        count_of(Seq::<AdvisoryView>::empty(), severity) == 0,
        count_of(s.push(adv), severity) == count_of(s, severity) + (if adv.severity == severity {
            1nat
        } else {
            0nat
        }),
{
    assert(s.push(adv).drop_last() =~= s);
}

} // verus!
