//! Versions and ranges of versions. Parsing, ordering, printing and matching
//! are done by `nodejs_semver`; the types here hold what those calls are about
//! as plain values.

use vstd::prelude::*;
use vstd::string::*;
use vstd::utf8::encode_utf8;

use crate::text::decimal;

verus! {

/// One dot-separated part of a pre-release or of build metadata.
#[derive(Debug, PartialEq, Eq)]
pub enum Identifier {
    Numeric(u64),
    AlphaNumeric(String),
}

/// The model of an [`Identifier`].
pub enum IdentifierView {
    Numeric(u64),
    AlphaNumeric(Seq<char>),
}

impl DeepView for Identifier {
    type V = IdentifierView;

    open spec fn deep_view(&self) -> IdentifierView {
        match self {
            Identifier::Numeric(n) => IdentifierView::Numeric(*n),
            Identifier::AlphaNumeric(s) => IdentifierView::AlphaNumeric(s@),
        }
    }
}

impl Clone for Identifier {
    fn clone(&self) -> (r: Self)
        ensures
            r.deep_view() == self.deep_view(),
    {
        match self {
            Identifier::Numeric(n) => Identifier::Numeric(*n),
            Identifier::AlphaNumeric(s) => Identifier::AlphaNumeric(s.clone()),
        }
    }
}

/// A semantic version.
#[derive(Debug, PartialEq, Eq)]
pub struct Version {
    pub major: u64,
    pub minor: u64,
    pub patch: u64,
    pub pre_release: Vec<Identifier>,
    pub build: Vec<Identifier>,
}

/// The model of a [`Version`].
pub struct VersionView {
    pub major: u64,
    pub minor: u64,
    pub patch: u64,
    pub pre_release: Seq<IdentifierView>,
    pub build: Seq<IdentifierView>,
}

impl DeepView for Version {
    type V = VersionView;

    open spec fn deep_view(&self) -> VersionView {
        VersionView {
            major: self.major,
            minor: self.minor,
            patch: self.patch,
            pre_release: self.pre_release.deep_view(),
            build: self.build.deep_view(),
        }
    }
}

/// A copy of a list of identifiers.
fn copy_identifiers(list: &Vec<Identifier>) -> (r: Vec<Identifier>)
    ensures
        r.deep_view() == list.deep_view(),
{
    let mut out: Vec<Identifier> = Vec::new();
    let mut i: usize = 0;
    while i < list.len()
        invariant
            i <= list.len(),
            out.len() == i,
            forall|j: int| 0 <= j < i ==> out@[j].deep_view() == list@[j].deep_view(),
        decreases list.len() - i,
    {
        out.push(list[i].clone());
        i = i + 1;
    }
    assert(out.deep_view() =~= list.deep_view());
    out
}

impl Clone for Version {
    fn clone(&self) -> (r: Self)
        ensures
            r.deep_view() == self.deep_view(),
    {
        Version {
            major: self.major,
            minor: self.minor,
            patch: self.patch,
            pre_release: copy_identifiers(&self.pre_release),
            build: copy_identifiers(&self.build),
        }
    }
}

/// A copy of a list of versions.
pub fn copy_versions(list: &Vec<Version>) -> (r: Vec<Version>)
    ensures
        r.deep_view() == list.deep_view(),
{
    let mut out: Vec<Version> = Vec::new();
    let mut i: usize = 0;
    while i < list.len()
        invariant
            i <= list.len(),
            out.len() == i,
            forall|j: int| 0 <= j < i ==> out@[j].deep_view() == list@[j].deep_view(),
        decreases list.len() - i,
    {
        out.push(list[i].clone());
        i = i + 1;
    }
    assert(out.deep_view() =~= list.deep_view());
    out
}

/// A copy of an optional version.
pub fn copy_version(version: &Option<Version>) -> (r: Option<Version>)
    ensures
        r.deep_view() == version.deep_view(),
{
    match version {
        Some(v) => Some(v.clone()),
        None => None,
    }
}

// ---- Order ----

/// `a` comes before `b` in the lexicographic order of their characters.
pub open spec fn chars_lt(a: Seq<char>, b: Seq<char>) -> bool
    decreases a.len(),
{
    if b.len() == 0 {
        false
    } else if a.len() == 0 {
        true
    } else if a[0] != b[0] {
        a[0] < b[0]
    } else {
        chars_lt(a.drop_first(), b.drop_first())
    }
}

/// Numbers come before names, numbers by value, names by their characters.
pub open spec fn identifier_lt(a: IdentifierView, b: IdentifierView) -> bool {
    match (a, b) {
        (IdentifierView::Numeric(m), IdentifierView::Numeric(n)) => m < n,
        (IdentifierView::Numeric(_), IdentifierView::AlphaNumeric(_)) => true,
        (IdentifierView::AlphaNumeric(_), IdentifierView::Numeric(_)) => false,
        (IdentifierView::AlphaNumeric(s), IdentifierView::AlphaNumeric(t)) => chars_lt(s, t),
    }
}

/// Lexicographic order of lists of identifiers.
pub open spec fn identifiers_lt(a: Seq<IdentifierView>, b: Seq<IdentifierView>) -> bool
    decreases a.len(),
{
    if b.len() == 0 {
        false
    } else if a.len() == 0 {
        true
    } else if a[0] != b[0] {
        identifier_lt(a[0], b[0])
    } else {
        identifiers_lt(a.drop_first(), b.drop_first())
    }
}

/// The precedence of versions: major, minor and patch by value; then a
/// pre-release comes before the release that it leads to, and two pre-releases
/// are ordered by their identifiers. Build metadata has no part in it.
pub open spec fn version_lt(a: VersionView, b: VersionView) -> bool {
    if a.major != b.major {
        a.major < b.major
    } else if a.minor != b.minor {
        a.minor < b.minor
    } else if a.patch != b.patch {
        a.patch < b.patch
    } else if a.pre_release.len() == 0 {
        false
    } else if b.pre_release.len() == 0 {
        true
    } else {
        identifiers_lt(a.pre_release, b.pre_release)
    }
}

/// `a` and `b` differ in nothing but build metadata.
pub open spec fn same_precedence(a: VersionView, b: VersionView) -> bool {
    &&& a.major == b.major
    &&& a.minor == b.minor
    &&& a.patch == b.patch
    &&& a.pre_release == b.pre_release
}

/// Whether `a < b`: the order (`Ord`) of `nodejs_semver::Version`, which
/// compares major, minor and patch, puts a version with a pre-release before
/// one without, and compares two pre-releases as lists of identifiers in their
/// derived order. It does not look at build metadata.
#[verifier::external_body]
pub(crate) fn precedes(a: &Version, b: &Version) -> (r: bool)
    ensures
        r == version_lt(a.deep_view(), b.deep_view()),
{
    let id = |i: &Identifier| match i {
        Identifier::Numeric(n) => nodejs_semver::Identifier::Numeric(*n),
        Identifier::AlphaNumeric(s) => nodejs_semver::Identifier::AlphaNumeric(s.clone()),
    };
    let outside = |v: &Version| nodejs_semver::Version {
        major: v.major,
        minor: v.minor,
        patch: v.patch,
        pre_release: v.pre_release.iter().map(id).collect(),
        build: v.build.iter().map(id).collect(),
    };
    outside(a) < outside(b)
}

// ---- Text ----

/// An identifier as text.
pub open spec fn identifier_text(id: IdentifierView) -> Seq<char> {
    match id {
        IdentifierView::Numeric(n) => decimal(n as nat),
        IdentifierView::AlphaNumeric(s) => s,
    }
}

/// Identifiers as text: `first` before the first of them, a dot before each
/// of the others.
pub open spec fn identifiers_text(ids: Seq<IdentifierView>, first: char) -> Seq<char>
    decreases ids.len(),
{
    if ids.len() == 0 {
        seq![]
    } else {
        identifiers_text(ids.drop_last(), first) + (if ids.len() == 1 {
            seq![first]
        } else {
            seq!['.']
        }) + identifier_text(ids.last())
    }
}

/// A version as text.
pub open spec fn version_text(v: VersionView) -> Seq<char> {
    decimal(v.major as nat) + seq!['.'] + decimal(v.minor as nat) + seq!['.'] + decimal(
        v.patch as nat,
    ) + identifiers_text(v.pre_release, '-') + identifiers_text(v.build, '+')
}

/// A version as text: `Display` of `nodejs_semver::Version`, which writes
/// `major.minor.patch`, then the pre-release identifiers behind `-` and the
/// build identifiers behind `+`, each list separated by dots.
#[verifier::external_body]
fn version_string(v: &Version) -> (r: String)
    ensures
        r@ == version_text(v.deep_view()),
{
    let id = |i: &Identifier| match i {
        Identifier::Numeric(n) => nodejs_semver::Identifier::Numeric(*n),
        Identifier::AlphaNumeric(s) => nodejs_semver::Identifier::AlphaNumeric(s.clone()),
    };
    nodejs_semver::Version {
        major: v.major,
        minor: v.minor,
        patch: v.patch,
        pre_release: v.pre_release.iter().map(id).collect(),
        build: v.build.iter().map(id).collect(),
    }.to_string()
}

/// What `nodejs_semver` reads a text as, if it reads it as a version.
pub uninterp spec fn parsed_version(text: Seq<char>) -> Option<VersionView>;

/// The version is read back from its own text, unless that has more than 256
/// bytes.
pub open spec fn reads_back(v: VersionView) -> bool {
    encode_utf8(version_text(v)).len() <= 256 ==> parsed_version(version_text(v)) == Some(v)
}

/// A version that was read is read back from its own text.
pub open spec fn optional_reads_back(v: Option<VersionView>) -> bool {
    v is Some ==> reads_back(v->0)
}

/// Parses a version: `FromStr` of `nodejs_semver::Version`. Its result depends
/// on the text alone; no grammar is stated for it. A version that was read is
/// printed in the form that the parser asks for, and so is read back, unless
/// its text is longer than the 256 bytes that the parser takes.
#[verifier::external_body]
fn parse_version(text: &str) -> (r: Option<Version>)
    ensures
        r.deep_view() == parsed_version(text@),
        optional_reads_back(r.deep_view()),
{
    let id = |i: nodejs_semver::Identifier| match i {
        nodejs_semver::Identifier::Numeric(n) => Identifier::Numeric(n),
        nodejs_semver::Identifier::AlphaNumeric(s) => Identifier::AlphaNumeric(s),
    };
    text.parse::<nodejs_semver::Version>().ok().map(|v| Version {
        major: v.major,
        minor: v.minor,
        patch: v.patch,
        pre_release: v.pre_release.into_iter().map(id).collect(),
        build: v.build.into_iter().map(id).collect(),
    })
}

// ---- Ranges ----

/// `nodejs_semver` reads the text as a range of versions.
pub uninterp spec fn valid_range(text: Seq<char>) -> bool;

/// `nodejs_semver` reads the text as a range, and the range admits `version`.
pub uninterp spec fn range_admits(text: Seq<char>, version: VersionView) -> bool;

/// Whether a text is a range: `FromStr` of `nodejs_semver::Range`. Its success
/// depends on the text alone; no grammar is stated for it.
#[verifier::external_body]
fn parses_as_range(text: &str) -> (r: bool)
    ensures
        r == valid_range(text@),
{
    text.parse::<nodejs_semver::Range>().is_ok()
}

/// Whether a text is a range that admits `version`: `satisfies` of the
/// `nodejs_semver::Range` that the text is parsed as. A text that is no range
/// admits nothing.
#[verifier::external_body]
fn range_satisfied(text: &str, version: &Version) -> (r: bool)
    ensures
        r == range_admits(text@, version.deep_view()),
        r ==> valid_range(text@),
{
    let id = |i: &Identifier| match i {
        Identifier::Numeric(n) => nodejs_semver::Identifier::Numeric(*n),
        Identifier::AlphaNumeric(s) => nodejs_semver::Identifier::AlphaNumeric(s.clone()),
    };
    let outside = nodejs_semver::Version {
        major: version.major,
        minor: version.minor,
        patch: version.patch,
        pre_release: version.pre_release.iter().map(id).collect(),
        build: version.build.iter().map(id).collect(),
    };
    text.parse::<nodejs_semver::Range>().is_ok_and(|r| r.satisfies(&outside))
}

/// A range of versions, held as the text that it was parsed from.
#[derive(Debug, PartialEq, Eq)]
pub struct Range {
    source: String,
}

impl DeepView for Range {
    type V = Seq<char>;

    closed spec fn deep_view(&self) -> Seq<char> {
        self.source@
    }
}

impl Clone for Range {
    fn clone(&self) -> (r: Self)
        ensures
            r.deep_view() == self.deep_view(),
    {
        Range { source: self.source.clone() }
    }
}

/// The range that a text stands for, if it is one.
pub open spec fn parsed_range(text: Seq<char>) -> Option<Seq<char>> {
    if valid_range(text) {
        Some(text)
    } else {
        None
    }
}

impl Range {
    /// Parses a range.
    pub fn parse(text: &str) -> (r: Option<Range>)
        ensures
            r.deep_view() == parsed_range(text@),
    {
        if parses_as_range(text) {
            Some(Range { source: text.to_owned() })
        } else {
            None
        }
    }

    /// Whether the range admits `version`.
    pub fn satisfies(&self, version: &Version) -> (r: bool)
        ensures
            r == range_admits(self.deep_view(), version.deep_view()),
    {
        range_satisfied(self.source.as_str(), version)
    }
}

impl Version {
    /// Parses a version.
    pub fn parse(text: &str) -> (r: Option<Version>)
        ensures
            r.deep_view() == parsed_version(text@),
            optional_reads_back(r.deep_view()),
    {
        parse_version(text)
    }

    /// The version as text.
    pub fn to_string(&self) -> (r: String)
        ensures
            r@ == version_text(self.deep_view()),
    {
        version_string(self)
    }

    /// Whether the version has a pre-release part.
    pub fn is_prerelease(&self) -> (r: bool)
        ensures
            r == (self.deep_view().pre_release.len() > 0),
    {
        self.pre_release.len() > 0
    }
}

/// An optional version as text.
pub open spec fn optional_text(v: Option<VersionView>) -> Option<Seq<char>> {
    match v {
        Some(v) => Some(version_text(v)),
        None => None,
    }
}

/// An optional version as text.
pub fn optional_string(v: &Option<Version>) -> (r: Option<String>)
    ensures
        r.deep_view() == optional_text(v.deep_view()),
{
    match v {
        Some(v) => Some(v.to_string()),
        None => None,
    }
}

// ---- Laws of the order ----

proof fn lemma_chars_lt_irreflexive(a: Seq<char>)
    ensures
        !chars_lt(a, a),
    decreases a.len(),
{
    if a.len() > 0 {
        lemma_chars_lt_irreflexive(a.drop_first());
    }
}

proof fn lemma_chars_lt_transitive(a: Seq<char>, b: Seq<char>, c: Seq<char>)
    requires
        chars_lt(a, b),
        chars_lt(b, c),
    ensures
        chars_lt(a, c),
    decreases a.len(),
{
    if a.len() > 0 && a[0] == b[0] && b[0] == c[0] {
        lemma_chars_lt_transitive(a.drop_first(), b.drop_first(), c.drop_first());
    }
}

proof fn lemma_chars_lt_total(a: Seq<char>, b: Seq<char>)
    ensures
        chars_lt(a, b) || a == b || chars_lt(b, a),
    decreases a.len(),
{
    if a.len() == 0 || b.len() == 0 {
        if a.len() == b.len() {
            assert(a =~= b);
        }
    } else if a[0] == b[0] {
        lemma_chars_lt_total(a.drop_first(), b.drop_first());
        if a.drop_first() == b.drop_first() {
            assert(a =~= seq![a[0]] + a.drop_first());
            assert(b =~= seq![b[0]] + b.drop_first());
        }
    }
}

proof fn lemma_identifier_lt_irreflexive(a: IdentifierView)
    ensures
        !identifier_lt(a, a),
{
    if let IdentifierView::AlphaNumeric(s) = a {
        lemma_chars_lt_irreflexive(s);
    }
}

proof fn lemma_identifier_lt_transitive(a: IdentifierView, b: IdentifierView, c: IdentifierView)
    requires
        identifier_lt(a, b),
        identifier_lt(b, c),
    ensures
        identifier_lt(a, c),
{
    if let (
        IdentifierView::AlphaNumeric(x),
        IdentifierView::AlphaNumeric(y),
        IdentifierView::AlphaNumeric(z),
    ) = (a, b, c) {
        lemma_chars_lt_transitive(x, y, z);
    }
}

proof fn lemma_identifier_lt_total(a: IdentifierView, b: IdentifierView)
    ensures
        identifier_lt(a, b) || a == b || identifier_lt(b, a),
{
    if let (IdentifierView::AlphaNumeric(x), IdentifierView::AlphaNumeric(y)) = (a, b) {
        lemma_chars_lt_total(x, y);
    }
}

proof fn lemma_identifiers_lt_irreflexive(a: Seq<IdentifierView>)
    ensures
        !identifiers_lt(a, a),
    decreases a.len(),
{
    if a.len() > 0 {
        lemma_identifiers_lt_irreflexive(a.drop_first());
    }
}

proof fn lemma_identifiers_lt_transitive(
    a: Seq<IdentifierView>,
    b: Seq<IdentifierView>,
    c: Seq<IdentifierView>,
)
    requires
        identifiers_lt(a, b),
        identifiers_lt(b, c),
    ensures
        identifiers_lt(a, c),
    decreases a.len(),
{
    if a.len() > 0 {
        if a[0] == b[0] {
            if b[0] == c[0] {
                lemma_identifiers_lt_transitive(a.drop_first(), b.drop_first(), c.drop_first());
            }
        } else if b[0] != c[0] {
            lemma_identifier_lt_transitive(a[0], b[0], c[0]);
            lemma_identifier_lt_irreflexive(a[0]);
        }
    }
}

proof fn lemma_identifiers_lt_total(a: Seq<IdentifierView>, b: Seq<IdentifierView>)
    ensures
        identifiers_lt(a, b) || a == b || identifiers_lt(b, a),
    decreases a.len(),
{
    if a.len() == 0 || b.len() == 0 {
        if a.len() == b.len() {
            assert(a =~= b);
        }
    } else if a[0] == b[0] {
        lemma_identifiers_lt_total(a.drop_first(), b.drop_first());
        if a.drop_first() == b.drop_first() {
            assert(a =~= seq![a[0]] + a.drop_first());
            assert(b =~= seq![b[0]] + b.drop_first());
        }
    } else {
        lemma_identifier_lt_total(a[0], b[0]);
    }
}

/// No version comes before itself.
pub proof fn law_order_irreflexive(a: VersionView)
    ensures
        !version_lt(a, a),
{
    lemma_identifiers_lt_irreflexive(a.pre_release);
}

/// The order of versions is transitive.
pub proof fn law_order_transitive(a: VersionView, b: VersionView, c: VersionView)
    requires
        version_lt(a, b),
        version_lt(b, c),
    ensures
        version_lt(a, c),
{
    if a.pre_release.len() > 0 && b.pre_release.len() > 0 && c.pre_release.len() > 0 {
        if identifiers_lt(a.pre_release, b.pre_release) && identifiers_lt(
            b.pre_release,
            c.pre_release,
        ) {
            lemma_identifiers_lt_transitive(a.pre_release, b.pre_release, c.pre_release);
        }
    }
}

/// Of two versions one comes before the other, unless they differ in build
/// metadata at most; and then neither does.
pub proof fn law_order_total(a: VersionView, b: VersionView)
    ensures
        same_precedence(a, b) <==> !version_lt(a, b) && !version_lt(b, a),
{
    lemma_identifiers_lt_total(a.pre_release, b.pre_release);
    lemma_identifiers_lt_irreflexive(a.pre_release);
    if a.pre_release.len() == 0 && b.pre_release.len() == 0 {
        assert(a.pre_release =~= b.pre_release);
    }
}

/// If `a` does not come before `b`, and `b` not before `c`, then `a` does not
/// come before `c`.
pub proof fn law_order_not_less_transitive(a: VersionView, b: VersionView, c: VersionView)
    requires
        !version_lt(a, b),
        !version_lt(b, c),
    ensures
        !version_lt(a, c),
{
    law_order_total(a, b);
    law_order_total(b, c);
    if version_lt(a, c) {
        if version_lt(c, b) {
            law_order_transitive(a, c, b);
        }
    }
}

// ---- Sorting ----

/// No version in the list comes before a later one of the list.
pub open spec fn sorted_newest_first(s: Seq<VersionView>) -> bool {
    forall|i: int, j: int| 0 <= i < j < s.len() ==> !version_lt(#[trigger] s[i], #[trigger] s[j])
}

/// `x` put into `s` before the first version that is older than it.
pub open spec fn insert_newest(s: Seq<VersionView>, x: VersionView) -> Seq<VersionView>
    decreases s.len(),
{
    if s.len() == 0 {
        seq![x]
    } else if version_lt(s[0], x) {
        seq![x] + s
    } else {
        seq![s[0]] + insert_newest(s.drop_first(), x)
    }
}

/// The versions of `s`, newest first; those of the same precedence in the
/// order in which they stand in `s`.
pub open spec fn newest_first(s: Seq<VersionView>) -> Seq<VersionView>
    decreases s.len(),
{
    if s.len() == 0 {
        seq![]
    } else {
        insert_newest(newest_first(s.drop_last()), s.last())
    }
}

proof fn lemma_insert_newest_at(s: Seq<VersionView>, x: VersionView, at: int)
    requires
        0 <= at <= s.len(),
        forall|j: int| 0 <= j < at ==> !version_lt(#[trigger] s[j], x),
        at < s.len() ==> version_lt(s[at], x),
    ensures
        insert_newest(s, x) == s.insert(at, x),
    decreases s.len(),
{
    if s.len() == 0 {
        assert(s.insert(0, x) =~= seq![x]);
    } else if at == 0 {
        assert(s.insert(0, x) =~= seq![x] + s);
    } else {
        let rest = s.drop_first();
        assert forall|j: int| 0 <= j < at - 1 implies !version_lt(#[trigger] rest[j], x) by {
            assert(rest[j] == s[j + 1]);
        }
        lemma_insert_newest_at(rest, x, at - 1);
        assert(s.insert(at, x) =~= seq![s[0]] + rest.insert(at - 1, x));
    }
}

/// The index of the first version that is older than `x`.
spec fn insert_index(s: Seq<VersionView>, x: VersionView) -> int
    decreases s.len(),
{
    if s.len() == 0 || version_lt(s[0], x) {
        0
    } else {
        1 + insert_index(s.drop_first(), x)
    }
}

proof fn lemma_insert_index(s: Seq<VersionView>, x: VersionView)
    ensures
        0 <= insert_index(s, x) <= s.len(),
        forall|j: int| 0 <= j < insert_index(s, x) ==> !version_lt(#[trigger] s[j], x),
        insert_index(s, x) < s.len() ==> version_lt(s[insert_index(s, x)], x),
    decreases s.len(),
{
    if s.len() > 0 && !version_lt(s[0], x) {
        let rest = s.drop_first();
        lemma_insert_index(rest, x);
        assert forall|j: int| 0 <= j < insert_index(s, x) implies !version_lt(
            #[trigger] s[j],
            x,
        ) by {
            if j > 0 {
                assert(s[j] == rest[j - 1]);
            }
        }
    }
}

/// Sorting puts no version before a newer one.
pub proof fn law_newest_first_sorted(s: Seq<VersionView>)
    ensures
        sorted_newest_first(newest_first(s)),
    decreases s.len(),
{
    if s.len() > 0 {
        law_newest_first_sorted(s.drop_last());
        let t = newest_first(s.drop_last());
        let x = s.last();
        let at = insert_index(t, x);
        lemma_insert_index(t, x);
        lemma_insert_newest_at(t, x, at);
        let r = newest_first(s);
        assert(r == t.insert(at, x));
        assert forall|i: int, j: int| 0 <= i < j < r.len() implies !version_lt(
            #[trigger] r[i],
            #[trigger] r[j],
        ) by {
            if i < at && j > at {
                assert(r[i] == t[i] && r[j] == t[j - 1]);
            } else if i == at {
                assert(r[j] == t[j - 1]);
                if version_lt(x, t[j - 1]) {
                    law_order_transitive(t[at], x, t[j - 1]);
                    if at < j - 1 {
                        assert(!version_lt(t[at], t[j - 1]));
                    } else {
                        law_order_irreflexive(t[at]);
                    }
                }
            } else if i > at {
                assert(r[i] == t[i - 1] && r[j] == t[j - 1]);
            } else if j < at {
                assert(r[i] == t[i] && r[j] == t[j]);
            }
        }
    }
}

/// Sorting keeps every version as often as it was there, and adds none.
pub proof fn law_newest_first_keeps(s: Seq<VersionView>)
    ensures
        newest_first(s).to_multiset() == s.to_multiset(),
        newest_first(s).len() == s.len(),
    decreases s.len(),
{
    broadcast use vstd::seq_lib::group_to_multiset_ensures;

    if s.len() > 0 {
        law_newest_first_keeps(s.drop_last());
        let t = newest_first(s.drop_last());
        let x = s.last();
        let at = insert_index(t, x);
        lemma_insert_index(t, x);
        lemma_insert_newest_at(t, x, at);
        assert(s =~= s.drop_last().push(x));
        assert(newest_first(s).to_multiset() =~= t.to_multiset().insert(x));
        assert(s.to_multiset() =~= s.drop_last().to_multiset().insert(x));
    } else {
        assert(newest_first(s) =~= s);
    }
}

/// What is in the sorted list was in the list.
pub proof fn law_newest_first_contains(s: Seq<VersionView>, i: int)
    requires
        0 <= i < newest_first(s).len(),
    ensures
        s.contains(newest_first(s)[i]),
    decreases s.len(),
{
    let t = newest_first(s.drop_last());
    let x = s.last();
    let at = insert_index(t, x);
    lemma_insert_index(t, x);
    lemma_insert_newest_at(t, x, at);
    let r = newest_first(s);
    assert(r == t.insert(at, x));
    if i == at {
        assert(s[s.len() - 1] == r[i]);
    } else {
        let j = if i < at {
            i
        } else {
            i - 1
        };
        assert(r[i] == t[j]);
        law_newest_first_contains(s.drop_last(), j);
        let k = choose|k: int| 0 <= k < s.drop_last().len() && s.drop_last()[k] == r[i];
        assert(s[k] == r[i]);
    }
}

/// Sorts versions, newest first.
pub fn sort_newest_first(list: Vec<Version>) -> (r: Vec<Version>)
    ensures
        r.deep_view() == newest_first(list.deep_view()),
{
    let mut out: Vec<Version> = Vec::new();
    let mut i: usize = 0;
    assert(out.deep_view() =~= newest_first(list.deep_view().take(0)));
    while i < list.len()
        invariant
            i <= list.len(),
            out.deep_view() == newest_first(list.deep_view().take(i as int)),
        decreases list.len() - i,
    {
        let mut at: usize = 0;
        while at < out.len() && !precedes(&out[at], &list[i])
            invariant
                i < list.len(),
                at <= out.len(),
                forall|j: int|
                    0 <= j < at ==> !version_lt(
                        #[trigger] out.deep_view()[j],
                        list@[i as int].deep_view(),
                    ),
            decreases out.len() - at,
        {
            at = at + 1;
        }
        let ghost before = out.deep_view();
        let ghost x = list@[i as int].deep_view();
        out.insert(at, list[i].clone());
        proof {
            let done = list.deep_view().take(i as int);
            let next = list.deep_view().take(i + 1);
            assert(next.drop_last() =~= done);
            assert(next.last() == x);
            if at < before.len() {
                assert(version_lt(before[at as int], x));
            }
            lemma_insert_newest_at(before, x, at as int);
            assert(out.deep_view() =~= before.insert(at as int, x));
        }
        i = i + 1;
    }
    assert(list.deep_view().take(list.len() as int) =~= list.deep_view());
    out
}

/// The sorted list holds exactly what the list holds.
pub proof fn law_newest_first_has(s: Seq<VersionView>, v: VersionView)
    ensures
        newest_first(s).contains(v) <==> s.contains(v),
    decreases s.len(),
{
    if newest_first(s).contains(v) {
        let i = choose|i: int| 0 <= i < newest_first(s).len() && newest_first(s)[i] == v;
        law_newest_first_contains(s, i);
    }
    if s.contains(v) {
        let t = newest_first(s.drop_last());
        let x = s.last();
        let at = insert_index(t, x);
        lemma_insert_index(t, x);
        lemma_insert_newest_at(t, x, at);
        let r = newest_first(s);
        let k = choose|k: int| 0 <= k < s.len() && s[k] == v;
        if k == s.len() - 1 {
            assert(r[at] == v);
        } else {
            assert(s.drop_last()[k] == v);
            law_newest_first_has(s.drop_last(), v);
            let j = choose|j: int| 0 <= j < t.len() && t[j] == v;
            if j < at {
                assert(r[j] == v);
            } else {
                assert(r[j + 1] == v);
            }
        }
    }
}

/// The numbers of a version count before its pre-release: a higher major number
/// is newer, whatever the rest, then a higher minor number, then a higher patch
/// number. A release is newer than its pre-releases, and build metadata does not
/// matter.
pub proof fn law_order_of_numbers(a: VersionView, b: VersionView, c: VersionView)
    ensures
        a.major < b.major ==> version_lt(a, b),
        a.major == b.major && a.minor < b.minor ==> version_lt(a, b),
        a.major == b.major && a.minor == b.minor && a.patch < b.patch ==> version_lt(a, b),
        a.major == b.major && a.minor == b.minor && a.patch == b.patch && a.pre_release.len() > 0
            && b.pre_release.len() == 0 ==> version_lt(a, b) && !version_lt(b, a),
        same_precedence(b, c) ==> version_lt(a, b) == version_lt(a, c) && version_lt(b, a)
            == version_lt(c, a),
{
}

proof fn lemma_sorting_order(s: Seq<VersionView>) -> (at: Seq<int>)
    ensures
        at.len() == s.len(),
        newest_first(s).len() == s.len(),
        at.no_duplicates(),
        forall|i: int|
            0 <= i < at.len() ==> 0 <= #[trigger] at[i] < s.len() && newest_first(s)[i] == s[at[i]],
        forall|i: int, j: int|
            0 <= i < j < at.len() && same_precedence(
                newest_first(s)[i],
                newest_first(s)[j],
            ) ==> #[trigger] at[i] < #[trigger] at[j],
    decreases s.len(),
{
    if s.len() == 0 {
        seq![]
    } else {
        let rest = s.drop_last();
        let x = s.last();
        let n = s.len() - 1;
        let before = lemma_sorting_order(rest);
        let t = newest_first(rest);
        let r = newest_first(s);
        law_newest_first_sorted(rest);
        let k = insert_index(t, x);
        lemma_insert_index(t, x);
        lemma_insert_newest_at(t, x, k);
        let at = before.insert(k, n);
        assert(r == t.insert(k, x));
        assert forall|i: int| 0 <= i < at.len() implies 0 <= #[trigger] at[i] < s.len() && r[i]
            == s[at[i]] by {
            if i < k {
                assert(at[i] == before[i] && r[i] == t[i]);
            } else if i > k {
                assert(at[i] == before[i - 1] && r[i] == t[i - 1]);
            }
        }
        assert forall|i: int, j: int| 0 <= i < j < at.len() && same_precedence(
            r[i],
            r[j],
        ) implies #[trigger] at[i] < #[trigger] at[j] by {
            if i < k && j < k {
                assert(at[i] == before[i] && at[j] == before[j]);
                assert(r[i] == t[i] && r[j] == t[j]);
            } else if i < k && j == k {
                assert(at[i] == before[i]);
            } else if i < k {
                assert(at[i] == before[i] && at[j] == before[j - 1]);
                assert(r[i] == t[i] && r[j] == t[j - 1]);
            } else if i == k {
                assert(r[j] == t[j - 1]);
                assert(version_lt(t[k], x));
                law_order_total(x, t[j - 1]);
                if j - 1 > k {
                    assert(!version_lt(t[k], t[j - 1]));
                    law_order_not_less_transitive(t[k], t[j - 1], x);
                }
            } else {
                assert(at[i] == before[i - 1] && at[j] == before[j - 1]);
                assert(r[i] == t[i - 1] && r[j] == t[j - 1]);
            }
        }
        assert(at.no_duplicates()) by {
            assert forall|i: int, j: int|
                0 <= i < at.len() && 0 <= j < at.len() && i != j implies at[i] != at[j] by {
                let a = if i < k {
                    i
                } else {
                    i - 1
                };
                let b = if j < k {
                    j
                } else {
                    j - 1
                };
                if i != k {
                    assert(at[i] == before[a]);
                }
                if j != k {
                    assert(at[j] == before[b]);
                }
            }
        }
        at
    }
}

/// Sorting moves each version to a place of its own, and keeps the order of
/// those that differ in build metadata alone.
pub proof fn law_sorting_is_stable(s: Seq<VersionView>)
    ensures
        exists|at: Seq<int>|
            {
                &&& #[trigger] at.len() == s.len()
                &&& newest_first(s).len() == s.len()
                &&& at.no_duplicates()
                &&& forall|i: int|
                    0 <= i < at.len() ==> 0 <= #[trigger] at[i] < s.len() && newest_first(s)[i]
                        == s[at[i]]
                &&& forall|i: int, j: int|
                    0 <= i < j < at.len() && same_precedence(
                        newest_first(s)[i],
                        newest_first(s)[j],
                    ) ==> #[trigger] at[i] < #[trigger] at[j]
            },
{
    let at = lemma_sorting_order(s);
    assert(at.len() == s.len());
}

} // verus!
