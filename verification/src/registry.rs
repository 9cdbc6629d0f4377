//! What the npm registry says of a package.

use dashmap::DashMap;
use percent_encoding::{utf8_percent_encode, NON_ALPHANUMERIC};
use std::hash::RandomState;

use vstd::prelude::*;
use vstd::string::*;
use vstd::utf8::encode_utf8;

use crate::json::{
    as_str, as_string, field, field_of, get_in, member_names, names_of, text_of, Json,
};
use crate::semver::{
    copy_version, copy_versions, law_newest_first_contains, law_newest_first_has,
    law_newest_first_keeps, law_newest_first_sorted, newest_first, parsed_version, reads_back,
    sort_newest_first, sorted_newest_first, Version, VersionView,
};
use crate::store::{fresh, holds_nothing, is_fresh, lookup};
use crate::text::{
    contains, in_class, law_occurs_in, law_rests_make_up_the_text, law_trimmed_end_of_padded,
    law_trimmed_of_padded, law_trimming, lemma_regroup, occurs_in, strip_prefix, strip_suffix,
    trim, trim_end, trimmed, trimmed_end, white_space, without_prefix, without_suffix, CharClass,
};

verus! {

/// Where the registry is.
pub const REGISTRY: &'static str = "https://registry.npmjs.org";

/// How long an answer is kept: one hour, in nanoseconds.
pub const CACHE_TTL: u64 = 3_600_000_000_000;

/// How many requests may be under way at a time.
pub const CONCURRENT_FETCHES: usize = 8;

/// Whether the registry knows a package.
#[derive(Debug, Clone, Copy, PartialEq, Eq, Structural)]
pub enum PackageStatus {
    Found,
    NotFound,
}

/// What the registry says of a package, and when it said so.
#[derive(Debug)]
pub struct CachedPackage {
    /// In nanoseconds of a clock that does not go back.
    pub fetched: u64,
    pub status: PackageStatus,
    pub latest: Option<Version>,
    /// Newest first.
    pub versions: Vec<Version>,
    pub description: Option<String>,
    pub license: Option<String>,
    pub homepage: Option<String>,
    pub repository_url: Option<String>,
}

/// The model of a [`CachedPackage`].
#[verifier::ext_equal]
pub struct PackageView {
    pub fetched: u64,
    pub status: PackageStatus,
    pub latest: Option<VersionView>,
    pub versions: Seq<VersionView>,
    pub description: Option<Seq<char>>,
    pub license: Option<Seq<char>>,
    pub homepage: Option<Seq<char>>,
    pub repository_url: Option<Seq<char>>,
}

impl DeepView for CachedPackage {
    type V = PackageView;

    open spec fn deep_view(&self) -> PackageView {
        PackageView {
            fetched: self.fetched,
            status: self.status,
            latest: self.latest.deep_view(),
            versions: self.versions.deep_view(),
            description: self.description.deep_view(),
            license: self.license.deep_view(),
            homepage: self.homepage.deep_view(),
            repository_url: self.repository_url.deep_view(),
        }
    }
}

/// A copy of an optional string.
pub fn copy_string(s: &Option<String>) -> (r: Option<String>)
    ensures
        r.deep_view() == s.deep_view(),
{
    match s {
        Some(t) => Some(t.clone()),
        None => None,
    }
}

impl Clone for CachedPackage {
    fn clone(&self) -> (r: Self)
        ensures
            r.deep_view() == self.deep_view(),
    {
        CachedPackage {
            fetched: self.fetched,
            status: self.status,
            latest: copy_version(&self.latest),
            versions: copy_versions(&self.versions),
            description: copy_string(&self.description),
            license: copy_string(&self.license),
            homepage: copy_string(&self.homepage),
            repository_url: copy_string(&self.repository_url),
        }
    }
}

/// The record of a package that the registry does not know.
pub open spec fn unknown_package(now: u64) -> PackageView {
    PackageView {
        fetched: now,
        status: PackageStatus::NotFound,
        latest: None,
        versions: seq![],
        description: None,
        license: None,
        homepage: None,
        repository_url: None,
    }
}

impl CachedPackage {
    /// The record of a package that the registry does not know.
    pub fn not_found(now: u64) -> (r: CachedPackage)
        ensures
            r.deep_view() == unknown_package(now),
    {
        let r = CachedPackage {
            fetched: now,
            status: PackageStatus::NotFound,
            latest: None,
            versions: Vec::new(),
            description: None,
            license: None,
            homepage: None,
            repository_url: None,
        };
        assert(r.deep_view() =~= unknown_package(now));
        r
    }
}

// ---- Addresses ----

/// `s` without `prefix`, where it begins with it.
pub open spec fn drop_prefix(s: Seq<char>, prefix: Seq<char>) -> Seq<char> {
    match without_prefix(s, prefix) {
        Some(rest) => rest,
        None => s,
    }
}

/// `s` without `suffix`, where it ends with it.
pub open spec fn drop_suffix(s: Seq<char>, suffix: Seq<char>) -> Seq<char> {
    match without_suffix(s, suffix) {
        Some(rest) => rest,
        None => s,
    }
}

/// The address of a repository for a browser.
pub open spec fn normalized_url(raw: Seq<char>) -> Seq<char> {
    let s = drop_suffix(drop_prefix(trimmed(raw), "git+"@), ".git"@);
    match without_prefix(s, "git@github.com:"@) {
        Some(rest) => "https://github.com/"@ + rest,
        None => match without_prefix(s, "git://"@) {
            Some(rest) => "https://"@ + rest,
            None => match without_prefix(s, "ssh://git@"@) {
                Some(rest) => "https://"@ + rest,
                None => s,
            },
        },
    }
}

/// The address of a repository for a browser: no white space around it, no
/// `git+` before it, no `.git` behind it, and `https` in place of the ways that
/// only git understands.
pub fn normalize_repo_url(raw: &str) -> (r: String)
    ensures
        r@ == normalized_url(raw@),
{
    let mut s: &str = trim(raw);
    if let Some(rest) = strip_prefix(s, "git+") {
        s = rest;
    }
    if let Some(rest) = strip_suffix(s, ".git") {
        s = rest;
    }
    if let Some(rest) = strip_prefix(s, "git@github.com:") {
        "https://github.com/".to_owned().concat(rest)
    } else if let Some(rest) = strip_prefix(s, "git://") {
        "https://".to_owned().concat(rest)
    } else if let Some(rest) = strip_prefix(s, "ssh://git@") {
        "https://".to_owned().concat(rest)
    } else {
        s.to_owned()
    }
}

/// The page that lists the releases of a repository, where its host is known.
pub open spec fn releases_page(repo: Seq<char>) -> Option<Seq<char>> {
    let s = trimmed_end(repo, CharClass::Slash);
    if occurs_in(s, "github.com"@) {
        Some(s + "/releases"@)
    } else if occurs_in(s, "gitlab.com"@) {
        Some(s + "/-/releases"@)
    } else {
        None
    }
}

/// The page that lists the releases of a repository, where its host is known.
pub fn changelog_url(repo: &str) -> (r: Option<String>)
    ensures
        r.deep_view() == releases_page(repo@),
{
    let s: &str = trim_end(repo, CharClass::Slash);
    if contains(s, "github.com") {
        Some(s.to_owned().concat("/releases"))
    } else if contains(s, "gitlab.com") {
        Some(s.to_owned().concat("/-/releases"))
    } else {
        None
    }
}

/// An ASCII letter or digit.
pub open spec fn alphanumeric(b: u8) -> bool {
    0x30 <= b <= 0x39 || 0x41 <= b <= 0x5a || 0x61 <= b <= 0x7a
}

/// An upper-case hexadecimal digit.
pub open spec fn hex_digit(d: u8) -> char {
    if d < 10 {
        (0x30 + d) as char
    } else {
        (0x37 + d) as char
    }
}

/// Bytes in percent-encoding: letters and digits stand for themselves, any
/// other byte is written as `%` and two hexadecimal digits.
pub open spec fn percent_encoded(bytes: Seq<u8>) -> Seq<char>
    decreases bytes.len(),
{
    if bytes.len() == 0 {
        seq![]
    } else {
        let b = bytes.last();
        percent_encoded(bytes.drop_last()) + (if alphanumeric(b) {
            seq![b as char]
        } else {
            seq!['%', hex_digit(b / 16), hex_digit(b % 16)]
        })
    }
}

/// A text in percent-encoding: `percent_encoding::utf8_percent_encode` with
/// `NON_ALPHANUMERIC`, which encodes every byte of the UTF-8 form but ASCII
/// letters and digits.
#[verifier::external_body]
fn percent_encode(s: &str) -> (r: String)
    ensures
        r@ == percent_encoded(encode_utf8(s@)),
{
    utf8_percent_encode(s, NON_ALPHANUMERIC).to_string()
}

/// The name of a package in an address of the registry.
pub open spec fn encoded_name(name: Seq<char>) -> Seq<char> {
    match without_prefix(name, "@"@) {
        Some(rest) => "@"@ + percent_encoded(encode_utf8(rest)),
        None => percent_encoded(encode_utf8(name)),
    }
}

/// The name of a package in an address of the registry: percent-encoded, but
/// for the `@` that a scope begins with.
pub fn encode_pkg_name(name: &str) -> (r: String)
    ensures
        r@ == encoded_name(name@),
{
    if let Some(rest) = strip_prefix(name, "@") {
        "@".to_owned().concat(percent_encode(rest).as_str())
    } else {
        percent_encode(name)
    }
}

/// The address of a package in the registry.
pub open spec fn package_address(name: Seq<char>) -> Seq<char> {
    REGISTRY@ + "/"@ + encoded_name(name)
}

/// The address of a package in the registry.
pub fn package_url(name: &str) -> (r: String)
    ensures
        r@ == package_address(name@),
{
    let mut url = REGISTRY.to_owned();
    url.append("/");
    url.append(encode_pkg_name(name).as_str());
    url
}

/// Characters that stand for themselves in a segment of an address.
pub open spec fn segment_char(c: char) -> bool {
    '0' <= c <= '9' || 'A' <= c <= 'Z' || 'a' <= c <= 'z' || c == '%'
}

proof fn lemma_percent_encoded(bytes: Seq<u8>)
    ensures
        forall|i: int|
            0 <= i < percent_encoded(bytes).len() ==> segment_char(
                #[trigger] percent_encoded(bytes)[i],
            ),
    decreases bytes.len(),
{
    if bytes.len() > 0 {
        lemma_percent_encoded(bytes.drop_last());
        let b = bytes.last();
        assert(b / 16 < 16 && b % 16 < 16);
        let head = percent_encoded(bytes.drop_last());
        let tail = if alphanumeric(b) {
            seq![b as char]
        } else {
            seq!['%', hex_digit(b / 16), hex_digit(b % 16)]
        };
        assert forall|i: int| 0 <= i < percent_encoded(bytes).len() implies segment_char(
            #[trigger] percent_encoded(bytes)[i],
        ) by {
            if i < head.len() {
                assert(percent_encoded(bytes)[i] == head[i]);
            } else {
                assert(percent_encoded(bytes)[i] == tail[i - head.len()]);
            }
        }
    }
}

/// The encoded name of a package is one segment of an address: no slash, no
/// query and no fragment comes out of it, whatever the name. Apart from the `@`
/// of a scope it holds letters, digits and `%` alone.
pub proof fn law_encoded_name_is_one_segment(name: Seq<char>)
    ensures
        forall|i: int|
            0 <= i < encoded_name(name).len() ==> segment_char(#[trigger] encoded_name(name)[i])
                || (i == 0 && encoded_name(name)[0] == '@' && name.len() > 0 && name[0] == '@'),
{
    reveal_strlit("@");
    match without_prefix(name, "@"@) {
        Some(rest) => {
            lemma_percent_encoded(encode_utf8(rest));
            let tail = percent_encoded(encode_utf8(rest));
            assert forall|i: int| 0 < i < encoded_name(name).len() implies segment_char(
                #[trigger] encoded_name(name)[i],
            ) by {
                assert(encoded_name(name)[i] == tail[i - 1]);
            }
            assert(name[0] == "@"@[0]);
        },
        None => {
            lemma_percent_encoded(encode_utf8(name));
        },
    }
}

// ---- Answers ----

/// The texts that are versions, in their order.
pub open spec fn parsed_versions(names: Seq<Seq<char>>) -> Seq<VersionView>
    decreases names.len(),
{
    if names.len() == 0 {
        seq![]
    } else {
        match parsed_version(names.last()) {
            Some(v) => parsed_versions(names.drop_last()).push(v),
            None => parsed_versions(names.drop_last()),
        }
    }
}

/// A text as a version.
pub open spec fn version_of(text: Option<Seq<char>>) -> Option<VersionView> {
    match text {
        Some(t) => parsed_version(t),
        None => None,
    }
}

/// A license: a string, or an object that gives its type.
pub open spec fn license_of(value: Option<Json>) -> Option<Seq<char>> {
    match text_of(value) {
        Some(t) => Some(t),
        None => text_of(field_of(value, "type"@)),
    }
}

/// A repository: a string, or an object that gives its address.
pub open spec fn repository_of(value: Option<Json>) -> Option<Seq<char>> {
    let address = match value {
        Some(Json::Object(_)) => text_of(field_of(value, "url"@)),
        _ => text_of(value),
    };
    match address {
        Some(raw) => Some(normalized_url(raw)),
        None => None,
    }
}

/// What an answer of the registry says.
pub open spec fn package_of(body: Json, now: u64) -> PackageView {
    PackageView {
        fetched: now,
        status: PackageStatus::Found,
        latest: version_of(text_of(field_of(field(body, "dist-tags"@), "latest"@))),
        versions: newest_first(parsed_versions(names_of(field(body, "versions"@)))),
        description: text_of(field(body, "description"@)),
        license: license_of(field(body, "license"@)),
        homepage: text_of(field(body, "homepage"@)),
        repository_url: repository_of(field(body, "repository"@)),
    }
}

/// Reads texts as versions, leaving out those that are none.
fn parse_all(names: &Vec<String>) -> (r: Vec<Version>)
    ensures
        r.deep_view() == parsed_versions(names.deep_view()),
        forall|i: int| 0 <= i < r.len() ==> reads_back(#[trigger] r.deep_view()[i]),
{
    let ghost all = names.deep_view();
    let mut out: Vec<Version> = Vec::new();
    let mut i: usize = 0;
    assert(out.deep_view() =~= parsed_versions(all.take(0)));
    while i < names.len()
        invariant
            i <= names.len(),
            all == names.deep_view(),
            out.deep_view() == parsed_versions(all.take(i as int)),
            forall|j: int| 0 <= j < out.len() ==> reads_back(#[trigger] out.deep_view()[j]),
        decreases names.len() - i,
    {
        assert(all.take(i + 1).drop_last() =~= all.take(i as int));
        let ghost before = out.deep_view();
        if let Some(v) = Version::parse(names[i].as_str()) {
            let ghost view = v.deep_view();
            out.push(v);
            assert(out.deep_view() =~= before.push(view));
        }
        i = i + 1;
    }
    assert(all.take(all.len() as int) =~= all);
    out
}

/// Reads an answer of the registry that came at `now`.
pub fn parse_registry_doc(body: &Json, now: u64) -> (r: CachedPackage)
    ensures
        r.deep_view() == package_of(*body, now),
        forall|i: int|
            0 <= i < r.deep_view().versions.len() ==> reads_back(
                #[trigger] r.deep_view().versions[i],
            ),
{
    let latest = match as_str(get_in(body.get("dist-tags"), "latest")) {
        Some(t) => Version::parse(t),
        None => None,
    };
    let parsed = parse_all(&member_names(body.get("versions")));
    let ghost unsorted = parsed.deep_view();
    let versions = sort_newest_first(parsed);
    proof {
        assert forall|i: int| 0 <= i < versions.deep_view().len() implies reads_back(
            #[trigger] versions.deep_view()[i],
        ) by {
            law_newest_first_contains(unsorted, i);
            let k = choose|k: int|
                0 <= k < unsorted.len() && unsorted[k] == versions.deep_view()[i];
            assert(reads_back(unsorted[k]));
        }
    }
    let license_value = body.get("license");
    let license = match as_string(license_value) {
        Some(t) => Some(t),
        None => as_string(get_in(license_value, "type")),
    };
    let repository = body.get("repository");
    let address = match repository {
        Some(Json::Object(_)) => as_str(get_in(repository, "url")),
        _ => as_str(repository),
    };
    let repository_url = match address {
        Some(raw) => Some(normalize_repo_url(raw)),
        None => None,
    };
    CachedPackage {
        fetched: now,
        status: PackageStatus::Found,
        latest,
        versions,
        description: as_string(body.get("description")),
        license,
        homepage: as_string(body.get("homepage")),
        repository_url,
    }
}

// ---- The cache ----

/// What a map of packages holds.
pub uninterp spec fn packages_in(map: DashMap<String, CachedPackage, RandomState>) -> Map<
    Seq<char>,
    PackageView,
>;

/// An empty map: `DashMap::new`.
#[verifier::external_body]
fn new_packages() -> (r: DashMap<String, CachedPackage, RandomState>)
    ensures
        holds_nothing(packages_in(r)),
{
    DashMap::new()
}

/// A copy of what a map holds under `name`: `DashMap::get`.
#[verifier::external_body]
fn get_package(map: &DashMap<String, CachedPackage, RandomState>, name: &str) -> (r: Option<
    CachedPackage,
>)
    ensures
        r.deep_view() == lookup(packages_in(*map), name@),
{
    map.get(name).map(|p| p.clone())
}

/// Puts a record under `name`, in place of the one that was there:
/// `DashMap::insert`.
#[verifier::external_body]
fn put_package(
    map: &mut DashMap<String, CachedPackage, RandomState>,
    name: String,
    package: CachedPackage,
)
    ensures
        packages_in(*final(map)) == packages_in(*old(map)).insert(name@, package.deep_view()),
{
    map.insert(name, package);
}

/// What has happened to a request for a package.
pub enum FetchEvent<'a> {
    /// The package is asked for.
    Start,
    /// The permit to send a request was granted, or will not be.
    Permit(bool),
    /// An answer with this status has come, or none will.
    Response(Option<u16>),
    /// The body of the answer was read, or cannot be.
    Body(Option<&'a Json>),
    /// The request was sent, and nobody waits for its answer any more.
    Abandoned,
}

/// What is to be done next about a request for a package.
#[derive(Debug)]
pub enum FetchStep {
    /// Wait for a permit.
    AcquirePermit,
    /// Send a request to this address.
    Send(String),
    /// Read the body of the answer.
    ReadBody,
    /// Nothing: this is the outcome.
    Done(Option<CachedPackage>),
}

/// The model of a [`FetchStep`].
#[verifier::ext_equal]
pub enum FetchStepView {
    AcquirePermit,
    Send(Seq<char>),
    ReadBody,
    Done(Option<PackageView>),
}

impl DeepView for FetchStep {
    type V = FetchStepView;

    open spec fn deep_view(&self) -> FetchStepView {
        match self {
            FetchStep::AcquirePermit => FetchStepView::AcquirePermit,
            FetchStep::Send(url) => FetchStepView::Send(url@),
            FetchStep::ReadBody => FetchStepView::ReadBody,
            FetchStep::Done(p) => FetchStepView::Done(p.deep_view()),
        }
    }
}

/// The record of a package that is young enough to be used.
pub open spec fn cached_package(
    cache: Map<Seq<char>, PackageView>,
    name: Seq<char>,
    now: u64,
) -> Option<PackageView> {
    match lookup(cache, name) {
        Some(p) => if fresh(p.fetched, now, CACHE_TTL) {
            Some(p)
        } else {
            None
        },
        None => None,
    }
}

/// What is remembered of the registry, and how many requests are under way.
#[verifier::ext_equal]
pub struct RegistryView {
    pub cache: Map<Seq<char>, PackageView>,
    pub in_flight: nat,
}

/// A registry of which nothing is remembered.
pub open spec fn new_registry() -> RegistryView {
    RegistryView { cache: Map::empty(), in_flight: 0 }
}

/// One request more is under way.
pub open spec fn taken_off(s: RegistryView) -> RegistryView {
    RegistryView { in_flight: s.in_flight + 1, ..s }
}

/// One request less is under way.
pub open spec fn landed(s: RegistryView) -> RegistryView {
    RegistryView {
        in_flight: if s.in_flight > 0 {
            (s.in_flight - 1) as nat
        } else {
            0
        },
        ..s
    }
}

/// A record is remembered.
pub open spec fn remembered(
    s: RegistryView,
    name: Seq<char>,
    package: PackageView,
) -> RegistryView {
    RegistryView { cache: s.cache.insert(name, package), ..s }
}

/// What is done next about a request, and what is remembered then. A record in
/// the cache is used while it is young, and looked for again once a permit is
/// there. A request is sent while fewer than the limit are under way; else it
/// waits on. That a package is unknown is an answer too; any other failure is
/// none, and leaves the cache as it was.
pub open spec fn fetch_step(s: RegistryView, name: Seq<char>, now: u64, event: FetchEvent) -> (
    RegistryView,
    FetchStepView,
) {
    match event {
        FetchEvent::Start => match cached_package(s.cache, name, now) {
            Some(p) => (s, FetchStepView::Done(Some(p))),
            None => (s, FetchStepView::AcquirePermit),
        },
        FetchEvent::Permit(granted) => if !granted {
            (s, FetchStepView::Done(None))
        } else {
            match cached_package(s.cache, name, now) {
                Some(p) => (s, FetchStepView::Done(Some(p))),
                None => if s.in_flight < CONCURRENT_FETCHES {
                    (taken_off(s), FetchStepView::Send(package_address(name)))
                } else {
                    (s, FetchStepView::AcquirePermit)
                },
            }
        },
        FetchEvent::Response(status) => match status {
            Some(code) => if code == 404 {
                (
                    remembered(landed(s), name, unknown_package(now)),
                    FetchStepView::Done(Some(unknown_package(now))),
                )
            } else if 200 <= code <= 299 {
                (s, FetchStepView::ReadBody)
            } else {
                (landed(s), FetchStepView::Done(None))
            },
            None => (landed(s), FetchStepView::Done(None)),
        },
        FetchEvent::Body(body) => match body {
            Some(b) => (
                remembered(landed(s), name, package_of(*b, now)),
                FetchStepView::Done(Some(package_of(*b, now))),
            ),
            None => (landed(s), FetchStepView::Done(None)),
        },
        FetchEvent::Abandoned => (landed(s), FetchStepView::Done(None)),
    }
}

/// The registry, as far as its answers are remembered.
pub struct Registry {
    cache: DashMap<String, CachedPackage, RandomState>,
    in_flight: usize,
}

impl View for Registry {
    type V = RegistryView;

    closed spec fn view(&self) -> RegistryView {
        RegistryView { cache: packages_in(self.cache), in_flight: self.in_flight as nat }
    }
}

impl Registry {
    /// A registry of which nothing is remembered.
    pub fn new() -> (r: Registry)
        ensures
            r@ == new_registry(),
    {
        Registry { cache: new_packages(), in_flight: 0 }
    }

    /// The record of a package that is young enough to be used.
    fn cached(&self, name: &str, now: u64) -> (r: Option<CachedPackage>)
        ensures
            r.deep_view() == cached_package(self@.cache, name@, now),
    {
        match get_package(&self.cache, name) {
            Some(p) => if is_fresh(p.fetched, now, CACHE_TTL) {
                Some(p)
            } else {
                None
            },
            None => None,
        }
    }

    /// Remembers a record.
    fn remember(&mut self, name: &str, package: &CachedPackage)
        ensures
            final(self)@ == remembered(old(self)@, name@, package.deep_view()),
    {
        put_package(&mut self.cache, name.to_owned(), package.clone());
    }

    /// Notes that a request is not under way any more.
    fn land(&mut self)
        ensures
            final(self)@ == landed(old(self)@),
    {
        if self.in_flight > 0 {
            self.in_flight = self.in_flight - 1;
        }
    }

    /// Decides what is done next about a request for the package `name`, now
    /// that `event` has happened at the time `now`.
    pub fn fetch(&mut self, name: &str, now: u64, event: FetchEvent) -> (r: FetchStep)
        ensures
            (final(self)@, r.deep_view()) == fetch_step(old(self)@, name@, now, event),
    {
        match event {
            FetchEvent::Start => match self.cached(name, now) {
                Some(p) => FetchStep::Done(Some(p)),
                None => FetchStep::AcquirePermit,
            },
            FetchEvent::Permit(granted) => if !granted {
                FetchStep::Done(None)
            } else {
                match self.cached(name, now) {
                    Some(p) => FetchStep::Done(Some(p)),
                    None => if self.in_flight < CONCURRENT_FETCHES {
                        self.in_flight = self.in_flight + 1;
                        FetchStep::Send(package_url(name))
                    } else {
                        FetchStep::AcquirePermit
                    },
                }
            },
            FetchEvent::Response(status) => match status {
                Some(code) => if code == 404 {
                    let p = CachedPackage::not_found(now);
                    self.land();
                    self.remember(name, &p);
                    FetchStep::Done(Some(p))
                } else if 200 <= code && code <= 299 {
                    FetchStep::ReadBody
                } else {
                    self.land();
                    FetchStep::Done(None)
                },
                None => {
                    self.land();
                    FetchStep::Done(None)
                },
            },
            FetchEvent::Body(body) => match body {
                Some(b) => {
                    let p = parse_registry_doc(b, now);
                    self.land();
                    self.remember(name, &p);
                    FetchStep::Done(Some(p))
                },
                None => {
                    self.land();
                    FetchStep::Done(None)
                },
            },
            FetchEvent::Abandoned => {
                self.land();
                FetchStep::Done(None)
            },
        }
    }
}

/// The event ends a request that was sent.
pub open spec fn settles(event: FetchEvent) -> bool {
    match event {
        FetchEvent::Response(Some(code)) => !(200 <= code <= 299),
        FetchEvent::Response(None) | FetchEvent::Body(_) | FetchEvent::Abandoned => true,
        _ => false,
    }
}

/// A call of [`Registry::fetch`].
pub struct Call<'a> {
    pub name: Seq<char>,
    pub now: u64,
    pub event: FetchEvent<'a>,
}

/// What a new registry is after some calls, and how many of the requests that it
/// let go out have not come to an end.
pub open spec fn replay(calls: Seq<Call>) -> (RegistryView, int)
    decreases calls.len(),
{
    if calls.len() == 0 {
        (new_registry(), 0)
    } else {
        let (s, open) = replay(calls.drop_last());
        let call = calls.last();
        let (t, step) = fetch_step(s, call.name, call.now, call.event);
        (
            t,
            open + (if step is Send {
                1int
            } else {
                0int
            }) - (if settles(call.event) {
                1int
            } else {
                0int
            }),
        )
    }
}

/// No call tells of the end of a request where none is under way.
pub open spec fn in_order(calls: Seq<Call>) -> bool {
    forall|k: int|
        0 <= k < calls.len() && settles((#[trigger] calls[k]).event) ==> replay(calls.take(k)).1 > 0
}

/// However the calls for any number of packages are mixed, at every moment no
/// more requests are under way than the limit. A call that has waited for its
/// turn sends nothing where the cache has an answer by then.
pub proof fn law_requests_are_capped(calls: Seq<Call>)
    requires
        in_order(calls),
    ensures
        0 <= replay(calls).1 <= CONCURRENT_FETCHES,
        replay(calls).1 == replay(calls).0.in_flight,
        forall|name: Seq<char>, now: u64|
            cached_package(replay(calls).0.cache, name, now) is Some ==> (#[trigger] fetch_step(
                replay(calls).0,
                name,
                now,
                FetchEvent::Permit(true),
            )).1 is Done,
    decreases calls.len(),
{
    if calls.len() > 0 {
        let before = calls.drop_last();
        assert forall|k: int| 0 <= k < before.len() && settles(
            (#[trigger] before[k]).event,
        ) implies replay(before.take(k)).1 > 0 by {
            assert(before[k] == calls[k]);
            assert(before.take(k) =~= calls.take(k));
        }
        law_requests_are_capped(before);
        assert(calls.take(calls.len() - 1) =~= before);
        assert(calls[calls.len() - 1] == calls.last());
    }
}

/// An answer is served from the cache for an hour, without a request, and no
/// longer: whatever event settles a request at `then` with a record that is
/// dated `then`, asking again at `now` gives that record while less than an
/// hour has passed, and asks for a permit afterwards. A request that was
/// waiting for its permit meanwhile is not sent either.
pub proof fn law_answers_are_kept_for_an_hour(
    s: RegistryView,
    name: Seq<char>,
    then: u64,
    event: FetchEvent,
    package: PackageView,
    now: u64,
)
    requires
        event is Response || event is Body,
        fetch_step(s, name, then, event).1 == FetchStepView::Done(Some(package)),
        then <= now,
    ensures
        ({
            let after = fetch_step(s, name, then, event).0;
            &&& fetch_step(after, name, now, FetchEvent::Start) == (
                after,
                if now - then < CACHE_TTL {
                    FetchStepView::Done(Some(package))
                } else {
                    FetchStepView::AcquirePermit
                },
            )
            &&& now - then < CACHE_TTL ==> fetch_step(after, name, now, FetchEvent::Permit(true))
                == (after, FetchStepView::Done(Some(package)))
        }),
{
}

/// A request takes at most four events, not counting the waiting: a permit is
/// asked for at the start at most, or again where the limit is reached; a
/// request is sent with the permit at most, the body is read behind the response
/// at most, and with the body it is settled.
pub proof fn law_requests_come_to_an_end(
    s: RegistryView,
    name: Seq<char>,
    now: u64,
    event: FetchEvent,
)
    ensures
        match fetch_step(s, name, now, event).1 {
            FetchStepView::AcquirePermit => event is Start || (event is Permit && s.in_flight
                >= CONCURRENT_FETCHES),
            FetchStepView::Send(_) => event is Permit,
            FetchStepView::ReadBody => event is Response,
            FetchStepView::Done(_) => true,
        },
{
}

/// A request changes what is remembered of the package that it is for, and of
/// no other.
pub proof fn law_fetch_leaves_other_packages(
    s: RegistryView,
    name: Seq<char>,
    now: u64,
    event: FetchEvent,
    other: Seq<char>,
)
    requires
        other != name,
    ensures
        lookup(fetch_step(s, name, now, event).0.cache, other) == lookup(s.cache, other),
{
}

/// A request that fails leaves the cache as it was.
pub proof fn law_failed_fetch_changes_nothing(
    s: RegistryView,
    name: Seq<char>,
    now: u64,
    event: FetchEvent,
)
    requires
        fetch_step(s, name, now, event).1 == FetchStepView::Done(None),
    ensures
        fetch_step(s, name, now, event).0.cache == s.cache,
{
}

/// The versions of a record stand newest first.
pub proof fn law_versions_newest_first(body: Json, now: u64)
    ensures
        sorted_newest_first(package_of(body, now).versions),
{
    law_newest_first_sorted(parsed_versions(names_of(field(body, "versions"@))));
}

// ---- Addresses of repositories ----

/// White space around the address of a repository does not matter.
pub proof fn law_white_space_around_addresses(a: Seq<char>, raw: Seq<char>, b: Seq<char>)
    requires
        forall|i: int| 0 <= i < a.len() ==> white_space(#[trigger] a[i]),
        forall|i: int| 0 <= i < b.len() ==> white_space(#[trigger] b[i]),
    ensures
        normalized_url(a + raw + b) == normalized_url(raw),
{
    let t = trimmed(raw);
    law_trimming(raw, CharClass::White);
    let (x, y) = choose|x: Seq<char>, y: Seq<char>|
        raw == #[trigger] (x + t + y) && (forall|i: int|
            0 <= i < x.len() ==> white_space(#[trigger] x[i])) && (forall|i: int|
            0 <= i < y.len() ==> white_space(#[trigger] y[i]));
    let front = a + x;
    let back = y + b;
    assert(a + raw + b =~= front + t + back);
    assert forall|i: int| 0 <= i < front.len() implies white_space(#[trigger] front[i]) by {
        if i < a.len() {
            assert(front[i] == a[i]);
        } else {
            assert(front[i] == x[i - a.len()]);
        }
    }
    assert forall|i: int| 0 <= i < back.len() implies white_space(#[trigger] back[i]) by {
        if i < y.len() {
            assert(back[i] == y[i]);
        } else {
            assert(back[i] == b[i - y.len()]);
        }
    }
    law_trimmed_of_padded(front, t, back);
}

/// A text that can stand behind the scheme of an address: it is not empty, does
/// not end with white space, and does not end with `.git`.
pub open spec fn plain_rest(r: Seq<char>) -> bool {
    r.len() > 0 && !white_space(r.last()) && !".git"@.is_suffix_of(r)
}

proof fn lemma_no_git_behind(p: Seq<char>, r: Seq<char>)
    requires
        plain_rest(r),
        p.len() >= 4,
        p.last() != '.' && p.last() != 'g' && p.last() != 'i',
    ensures
        !".git"@.is_suffix_of(p + r),
{
    reveal_strlit(".git");
    let s = p + r;
    let git = ".git"@;
    if git.is_suffix_of(s) {
        let end = s.subrange(s.len() - 4, s.len() as int);
        assert(end =~= git);
        if r.len() >= 4 {
            assert(r.subrange(r.len() - 4, r.len() as int) =~= end);
        } else {
            let k = 3 - r.len();
            assert(end[k] == s[s.len() - 4 + k]);
            assert(s[s.len() - 4 + k] == p.last());
            assert(git[0] == '.' && git[1] == 'g' && git[2] == 'i');
        }
    }
}

proof fn lemma_cleaned(p: Seq<char>, r: Seq<char>)
    requires
        plain_rest(r),
        p.len() >= 4,
        !white_space(p[0]),
        p.last() != '.' && p.last() != 'g' && p.last() != 'i',
    ensures
        trimmed(p + r) == p + r,
        trimmed(p + r + ".git"@) == p + r + ".git"@,
        drop_suffix(p + r, ".git"@) == p + r,
        drop_suffix(p + r + ".git"@, ".git"@) == p + r,
{
    reveal_strlit(".git");
    let e = Seq::<char>::empty();
    let s = p + r;
    let g = s + ".git"@;
    assert(s[0] == p[0] && s.last() == r.last());
    assert(g[0] == p[0] && g.last() == 't');
    assert(e + s + e =~= s);
    assert(e + g + e =~= g);
    law_trimmed_of_padded(e, s, e);
    law_trimmed_of_padded(e, g, e);
    lemma_no_git_behind(p, r);
    law_rests_make_up_the_text(g, ".git"@, s);
}

proof fn lemma_begins_otherwise(s: Seq<char>, p: Seq<char>, i: int)
    requires
        0 <= i < p.len(),
        i < s.len(),
        s[i] != p[i],
    ensures
        without_prefix(s, p) is None,
{
    if p.is_prefix_of(s) {
        assert(s.subrange(0, p.len() as int)[i] == p[i]);
    }
}

/// The ways in which only git reaches a repository become addresses for a
/// browser: `git+` before an address and `.git` behind it go away, and so do
/// `git@github.com:`, `git://` and `ssh://git@` in favour of `https`. An address
/// for a browser stays as it is.
pub proof fn law_addresses_for_a_browser(r: Seq<char>)
    requires
        plain_rest(r),
    ensures
        normalized_url("https://"@ + r) == "https://"@ + r,
        normalized_url("https://"@ + r + ".git"@) == "https://"@ + r,
        normalized_url("git+https://"@ + r) == "https://"@ + r,
        normalized_url("git+https://"@ + r + ".git"@) == "https://"@ + r,
        normalized_url("git@github.com:"@ + r) == "https://github.com/"@ + r,
        normalized_url("git@github.com:"@ + r + ".git"@) == "https://github.com/"@ + r,
        normalized_url("git://"@ + r) == "https://"@ + r,
        normalized_url("git://"@ + r + ".git"@) == "https://"@ + r,
        normalized_url("ssh://git@"@ + r) == "https://"@ + r,
        normalized_url("ssh://git@"@ + r + ".git"@) == "https://"@ + r,
        normalized_url("git+ssh://git@"@ + r) == "https://"@ + r,
        normalized_url("git+ssh://git@"@ + r + ".git"@) == "https://"@ + r,
{
    reveal_strlit("git+");
    reveal_strlit(".git");
    reveal_strlit("https://");
    reveal_strlit("git@github.com:");
    reveal_strlit("git://");
    reveal_strlit("ssh://git@");
    reveal_strlit("git+https://");
    reveal_strlit("git+ssh://git@");
    assert("git+https://"@ =~= "git+"@ + "https://"@);
    assert("git+ssh://git@"@ =~= "git+"@ + "ssh://git@"@);
    lemma_address("https://"@, r);
    lemma_address("git@github.com:"@, r);
    lemma_address("git://"@, r);
    lemma_address("ssh://git@"@, r);
    let h = "https://"@ + r;
    lemma_begins_otherwise(h, "git@github.com:"@, 0);
    lemma_begins_otherwise(h, "git://"@, 0);
    lemma_begins_otherwise(h, "ssh://git@"@, 0);
    let g = "git@github.com:"@ + r;
    law_rests_make_up_the_text(g, "git@github.com:"@, r);
    let o = "git://"@ + r;
    lemma_begins_otherwise(o, "git@github.com:"@, 3);
    law_rests_make_up_the_text(o, "git://"@, r);
    let s = "ssh://git@"@ + r;
    lemma_begins_otherwise(s, "git@github.com:"@, 0);
    lemma_begins_otherwise(s, "git://"@, 0);
    law_rests_make_up_the_text(s, "ssh://git@"@, r);
    lemma_plus_address("https://"@, r);
    lemma_plus_address("ssh://git@"@, r);
}

/// The rest of what is done to an address, once it is clean.
spec fn rewritten_address(s: Seq<char>) -> Seq<char> {
    match without_prefix(s, "git@github.com:"@) {
        Some(rest) => "https://github.com/"@ + rest,
        None => match without_prefix(s, "git://"@) {
            Some(rest) => "https://"@ + rest,
            None => match without_prefix(s, "ssh://git@"@) {
                Some(rest) => "https://"@ + rest,
                None => s,
            },
        },
    }
}

proof fn lemma_address(p: Seq<char>, r: Seq<char>)
    requires
        plain_rest(r),
        p.len() >= 4,
        !white_space(p[0]),
        p[0] != 'g' || p[3] != '+',
        p.last() != '.' && p.last() != 'g' && p.last() != 'i',
    ensures
        normalized_url(p + r) == rewritten_address(p + r),
        normalized_url(p + r + ".git"@) == rewritten_address(p + r),
{
    reveal_strlit("git+");
    lemma_cleaned(p, r);
    let s = p + r;
    let g = s + ".git"@;
    assert(s[0] == p[0] && s[3] == p[3]);
    assert(g[0] == p[0] && g[3] == p[3]);
    let i: int = if p[0] != 'g' {
        0
    } else {
        3
    };
    lemma_begins_otherwise(s, "git+"@, i);
    lemma_begins_otherwise(g, "git+"@, i);
}

proof fn lemma_plus(x: Seq<char>)
    requires
        trimmed("git+"@ + x) == "git+"@ + x,
    ensures
        normalized_url("git+"@ + x) == rewritten_address(drop_suffix(x, ".git"@)),
{
    law_rests_make_up_the_text("git+"@ + x, "git+"@, x);
}

proof fn lemma_plus_address(p: Seq<char>, r: Seq<char>)
    requires
        plain_rest(r),
        p.len() >= 4,
        p.last() != '.' && p.last() != 'g' && p.last() != 'i',
    ensures
        normalized_url("git+"@ + p + r) == rewritten_address(p + r),
        normalized_url("git+"@ + p + r + ".git"@) == rewritten_address(p + r),
{
    let q = "git+"@ + p;
    let clean = p + r;
    let behind = clean + ".git"@;
    assert(q[0] == 'g' && q.last() == p.last()) by {
        reveal_strlit("git+");
    }
    lemma_cleaned(q, r);
    lemma_no_git_behind(p, r);
    lemma_regroup("git+"@, p, r);
    lemma_regroup("git+"@, clean, ".git"@);
    law_rests_make_up_the_text(behind, ".git"@, clean);
    lemma_plus(clean);
    lemma_plus(behind);
}

/// The page with the releases of a repository at GitHub or GitLab is found below
/// its address, however many slashes that ends with; where it names both, GitHub
/// counts. No other host has a known page.
pub proof fn law_releases_pages(base: Seq<char>, slashes: Seq<char>)
    requires
        base.len() > 0 ==> base.last() != '/',
        forall|i: int| 0 <= i < slashes.len() ==> #[trigger] slashes[i] == '/',
    ensures
        ({
            let github = exists|a: Seq<char>, b: Seq<char>| base == #[trigger] (a + "github.com"@
                + b);
            let gitlab = exists|a: Seq<char>, b: Seq<char>| base == #[trigger] (a + "gitlab.com"@
                + b);
            releases_page(base + slashes) == if github {
                Some(base + "/releases"@)
            } else if gitlab {
                Some(base + "/-/releases"@)
            } else {
                None
            }
        }),
{
    assert forall|i: int| 0 <= i < slashes.len() implies in_class(
        CharClass::Slash,
        #[trigger] slashes[i],
    ) by {}
    law_trimmed_end_of_padded(base, slashes, CharClass::Slash);
    law_occurs_in(base, "github.com"@);
    law_occurs_in(base, "gitlab.com"@);
}

/// The registry is asked about a package below its own address, under the name
/// of the package in percent-encoding; the `@` of a scope is not encoded.
pub proof fn law_package_addresses(rest: Seq<char>, name: Seq<char>)
    requires
        name.len() == 0 || name[0] != '@',
    ensures
        package_address("@"@ + rest) == "https://registry.npmjs.org/@"@ + percent_encoded(
            encode_utf8(rest),
        ),
        package_address(name) == "https://registry.npmjs.org/"@ + percent_encoded(
            encode_utf8(name),
        ),
{
    reveal_strlit("@");
    reveal_strlit("/");
    reveal_strlit("https://registry.npmjs.org");
    reveal_strlit("https://registry.npmjs.org/");
    reveal_strlit("https://registry.npmjs.org/@");
    assert("https://registry.npmjs.org/"@ =~= REGISTRY@ + "/"@);
    assert("https://registry.npmjs.org/@"@ =~= REGISTRY@ + "/"@ + "@"@);
    law_rests_make_up_the_text("@"@ + rest, "@"@, rest);
    if name.len() > 0 {
        lemma_begins_otherwise(name, "@"@, 0);
    }
    assert(package_address("@"@ + rest) =~= "https://registry.npmjs.org/@"@ + percent_encoded(
        encode_utf8(rest),
    ));
}

// ---- What an answer says ----

proof fn lemma_parsed_versions(names: Seq<Seq<char>>)
    ensures
        forall|v: VersionView|
            parsed_versions(names).contains(v) <==> exists|i: int|
                0 <= i < names.len() && parsed_version(#[trigger] names[i]) == Some(v),
        parsed_versions(names).len() <= names.len(),
        (forall|i: int| 0 <= i < names.len() ==> parsed_version(#[trigger] names[i]) is Some)
            ==> parsed_versions(names).len() == names.len(),
    decreases names.len(),
{
    if names.len() > 0 {
        let rest = names.drop_last();
        let n = names.len() - 1;
        let before = parsed_versions(rest);
        let all = parsed_versions(names);
        lemma_parsed_versions(rest);
        assert(names[n] == names.last());
        assert forall|i: int| 0 <= i < n implies #[trigger] rest[i] == names[i] by {}
        assert forall|v: VersionView|
            all.contains(v) <==> exists|i: int|
                0 <= i < names.len() && parsed_version(#[trigger] names[i]) == Some(v) by {
            if all.contains(v) {
                let k = choose|k: int| 0 <= k < all.len() && all[k] == v;
                if k < before.len() {
                    assert(before[k] == v);
                    assert(before.contains(v));
                    let i = choose|i: int|
                        0 <= i < rest.len() && parsed_version(#[trigger] rest[i]) == Some(v);
                    assert(names[i] == rest[i]);
                } else {
                    assert(parsed_version(names[n]) == Some(v));
                }
            }
            if exists|i: int|
                0 <= i < names.len() && parsed_version(#[trigger] names[i]) == Some(v) {
                let i = choose|i: int|
                    0 <= i < names.len() && parsed_version(#[trigger] names[i]) == Some(v);
                if i < n {
                    assert(rest[i] == names[i]);
                    assert(before.contains(v));
                    let k = choose|k: int| 0 <= k < before.len() && before[k] == v;
                    assert(all[k] == v);
                } else {
                    assert(all[all.len() - 1] == v);
                }
            }
        }
    }
}

/// A record lists exactly the versions that the answer names, newest first, and
/// none of them is lost where all of the names are versions. What the answer
/// names and is no version is left out.
pub proof fn law_record_lists_the_versions(body: Json, now: u64)
    ensures
        ({
            let names = names_of(field(body, "versions"@));
            let versions = package_of(body, now).versions;
            &&& sorted_newest_first(versions)
            &&& forall|v: VersionView|
                versions.contains(v) <==> exists|i: int|
                    0 <= i < names.len() && parsed_version(#[trigger] names[i]) == Some(v)
            &&& versions.len() <= names.len()
            &&& (forall|i: int|
                0 <= i < names.len() ==> parsed_version(#[trigger] names[i]) is Some)
                ==> versions.len() == names.len()
        }),
{
    let names = names_of(field(body, "versions"@));
    let all = parsed_versions(names);
    let versions = newest_first(all);
    lemma_parsed_versions(names);
    law_newest_first_sorted(all);
    law_newest_first_keeps(all);
    assert forall|v: VersionView| versions.contains(v) <==> all.contains(v) by {
        law_newest_first_has(all, v);
    }
}

/// A record tells what the answer tells: the latest version by its tag, the
/// description, the homepage, the license as a text or by its type, and the
/// repository as a text or by its address, made fit for a browser. What the
/// answer does not tell in one of these forms is not known.
pub proof fn law_record_tells_the_answer(body: Json, now: u64)
    ensures
        ({
            let p = package_of(body, now);
            &&& p.status == PackageStatus::Found
            &&& p.fetched == now
            &&& match field(body, "description"@) {
                Some(Json::Text(t)) => p.description == Some(t@),
                _ => p.description is None,
            }
            &&& match field(body, "homepage"@) {
                Some(Json::Text(t)) => p.homepage == Some(t@),
                _ => p.homepage is None,
            }
            &&& match field(body, "license"@) {
                Some(Json::Text(t)) => p.license == Some(t@),
                Some(v) => match field(v, "type"@) {
                    Some(Json::Text(t)) => p.license == Some(t@),
                    _ => p.license is None,
                },
                None => p.license is None,
            }
            &&& match field(body, "repository"@) {
                Some(Json::Text(t)) => p.repository_url == Some(normalized_url(t@)),
                Some(v) => match field(v, "url"@) {
                    Some(Json::Text(t)) => p.repository_url == Some(normalized_url(t@)),
                    _ => p.repository_url is None,
                },
                None => p.repository_url is None,
            }
            &&& match field(body, "dist-tags"@) {
                Some(tags) => match field(tags, "latest"@) {
                    Some(Json::Text(t)) => p.latest == parsed_version(t@),
                    _ => p.latest is None,
                },
                None => p.latest is None,
            }
        }),
{
}

// ---- The course of a request ----

/// A request for a package of which no young record is there goes out once a
/// permit is there and fewer than eight are under way, and its answer is what
/// the record says from then on. Afterwards as many requests are under way as
/// before.
pub proof fn law_course_of_a_request(
    s: RegistryView,
    name: Seq<char>,
    start: u64,
    sent: u64,
    answered: u64,
    code: u16,
    body: Json,
)
    requires
        !s.cache.dom().contains(name) || (s.cache[name].fetched <= start <= sent && start
            - s.cache[name].fetched >= 3_600_000_000_000),
        s.in_flight < 8,
    ensures
        fetch_step(s, name, start, FetchEvent::Start) == (s, FetchStepView::AcquirePermit),
        fetch_step(s, name, sent, FetchEvent::Permit(true)).1 == FetchStepView::Send(
            package_address(name),
        ),
        fetch_step(s, name, sent, FetchEvent::Permit(false)) == (s, FetchStepView::Done(None)),
        ({
            let t = fetch_step(s, name, sent, FetchEvent::Permit(true)).0;
            let (u, step) = fetch_step(t, name, answered, FetchEvent::Response(Some(code)));
            &&& t.cache == s.cache
            &&& t.in_flight == s.in_flight + 1
            &&& step is ReadBody <==> 200 <= code < 300
            &&& step is ReadBody ==> u == t
            &&& code == 404 ==> {
                &&& u.in_flight == s.in_flight
                &&& step matches FetchStepView::Done(Some(p)) && {
                    &&& p.status == PackageStatus::NotFound
                    &&& p.fetched == answered
                    &&& p.latest is None && p.versions.len() == 0
                    &&& u.cache == s.cache.insert(name, p)
                }
            }
            &&& code != 404 && !(200 <= code < 300) ==> u == s && step == FetchStepView::Done(None)
            &&& fetch_step(t, name, answered, FetchEvent::Body(Some(&body))) == (
                RegistryView {
                    cache: s.cache.insert(name, package_of(body, answered)),
                    in_flight: s.in_flight,
                },
                FetchStepView::Done(Some(package_of(body, answered))),
            )
            &&& fetch_step(t, name, answered, FetchEvent::Body(None)) == (
                s,
                FetchStepView::Done(None),
            )
            &&& fetch_step(t, name, answered, FetchEvent::Response(None)) == (
                s,
                FetchStepView::Done(None),
            )
            &&& fetch_step(t, name, answered, FetchEvent::Abandoned) == (
                s,
                FetchStepView::Done(None),
            )
        }),
{
    let t = fetch_step(s, name, sent, FetchEvent::Permit(true)).0;
    assert(landed(t) =~= s);
}

/// While eight requests are under way, no further one goes out; it waits on.
pub proof fn law_requests_wait_their_turn(s: RegistryView, name: Seq<char>, now: u64)
    requires
        s.in_flight >= 8,
        cached_package(s.cache, name, now) is None,
    ensures
        fetch_step(s, name, now, FetchEvent::Permit(true)) == (s, FetchStepView::AcquirePermit),
{
}

/// A record is used for an hour from when it was fetched, and no longer, whatever
/// it says.
pub proof fn law_records_live_an_hour(
    cache: Map<Seq<char>, PackageView>,
    name: Seq<char>,
    p: PackageView,
    now: u64,
)
    requires
        p.fetched <= now,
    ensures
        cached_package(cache.insert(name, p), name, now) == (if now - p.fetched
            < 3_600_000_000_000 {
            Some(p)
        } else {
            None
        }),
        !cache.dom().contains(name) ==> cached_package(cache, name, now) is None,
{
}

/// A young record is given out at once, without a request, and changes nothing.
pub proof fn law_young_records_are_given_out(
    s: RegistryView,
    name: Seq<char>,
    now: u64,
    p: PackageView,
)
    requires
        s.cache.dom().contains(name),
        s.cache[name] == p,
        p.fetched <= now,
        now - p.fetched < 3_600_000_000_000,
    ensures
        fetch_step(s, name, now, FetchEvent::Start) == (s, FetchStepView::Done(Some(p))),
        fetch_step(s, name, now, FetchEvent::Permit(true)) == (s, FetchStepView::Done(Some(p))),
{
}

/// Nothing is known of a package that the registry does not know, but when that
/// was found out.
pub proof fn law_unknown_packages(now: u64)
    ensures
        ({
            let p = unknown_package(now);
            &&& p.fetched == now && p.status == PackageStatus::NotFound
            &&& p.latest is None && p.versions.len() == 0
            &&& p.description is None && p.license is None
            &&& p.homepage is None && p.repository_url is None
        }),
{
}

} // verus!
