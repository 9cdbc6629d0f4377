//! The user's settings.

use vstd::prelude::*;
use vstd::string::*;

use crate::text::{copy_strings, str_eq};

verus! {

/// The rule that the last entry for `name` gives.
pub open spec fn rule_table(entries: Seq<(Seq<char>, Seq<char>)>) -> Map<Seq<char>, Seq<char>>
    decreases entries.len(),
{
    if entries.len() == 0 {
        Map::empty()
    } else {
        rule_table(entries.drop_last()).insert(entries.last().0, entries.last().1)
    }
}

/// For each of some packages, the range of versions that is not offered. Each
/// package has one rule at most: a new one takes the place of the old.
#[derive(Debug)]
pub struct VersionRules {
    entries: Vec<(String, String)>,
}

impl View for VersionRules {
    type V = Map<Seq<char>, Seq<char>>;

    closed spec fn view(&self) -> Map<Seq<char>, Seq<char>> {
        rule_table(self.entries.deep_view())
    }
}

impl VersionRules {
    /// No rules.
    pub fn new() -> (r: VersionRules)
        ensures
            r@ == Map::<Seq<char>, Seq<char>>::empty(),
    {
        VersionRules { entries: Vec::new() }
    }

    /// Sets the rule for `name`.
    pub fn insert(&mut self, name: String, rule: String)
        ensures
            final(self)@ == old(self)@.insert(name@, rule@),
    {
        let ghost before = self.entries.deep_view();
        self.entries.push((name, rule));
        assert(self.entries.deep_view().drop_last() =~= before);
    }

    /// The rules, in the order in which they were set: of two for the same
    /// package the later one counts.
    pub fn entries(&self) -> (r: Vec<(String, String)>)
        ensures
            rule_table(r.deep_view()) == self@,
    {
        let mut out: Vec<(String, String)> = Vec::new();
        let mut i: usize = 0;
        while i < self.entries.len()
            invariant
                i <= self.entries.len(),
                out.len() == i,
                forall|j: int|
                    0 <= j < i ==> (#[trigger] out@[j]).deep_view() == self.entries@[j].deep_view(),
            decreases self.entries.len() - i,
        {
            out.push((self.entries[i].0.clone(), self.entries[i].1.clone()));
            i = i + 1;
        }
        assert(out.deep_view() =~= self.entries.deep_view());
        out
    }

    /// The rule for `name`.
    pub fn get(&self, name: &str) -> (r: Option<&str>)
        ensures
            r.deep_view() == (if self@.dom().contains(name@) {
                Some(self@[name@])
            } else {
                None
            }),
    {
        let ghost all = self.entries.deep_view();
        let mut i: usize = self.entries.len();
        assert(all.take(i as int) =~= all);
        while i > 0
            invariant
                i <= self.entries.len(),
                all == self.entries.deep_view(),
                rule_table(all).dom().contains(name@) == rule_table(
                    all.take(i as int),
                ).dom().contains(name@),
                rule_table(all.take(i as int)).dom().contains(name@) ==> rule_table(all)[name@]
                    == rule_table(all.take(i as int))[name@],
            decreases i,
        {
            assert(all.take(i as int).drop_last() =~= all.take(i - 1));
            i = i - 1;
            if str_eq(self.entries[i].0.as_str(), name) {
                return Some(self.entries[i].1.as_str());
            }
        }
        None
    }
}

impl Clone for VersionRules {
    fn clone(&self) -> (r: Self)
        ensures
            r@ == self@,
    {
        VersionRules { entries: self.entries() }
    }
}

/// What the user has asked for.
#[derive(Debug)]
pub struct Settings {
    /// Regular expressions for the names of packages to leave alone.
    pub ignore_patterns: Vec<String>,
    /// Versions that are not offered.
    pub ignore_versions: VersionRules,
    /// The sections of a document that hold dependencies.
    pub check_sections: Vec<String>,
    /// Whether updates are shown at all.
    pub show_updates: bool,
    /// Whether known vulnerabilities are looked up.
    pub audit: bool,
}

/// The model of [`Settings`].
#[verifier::ext_equal]
pub struct SettingsView {
    pub ignore_patterns: Seq<Seq<char>>,
    pub ignore_versions: Map<Seq<char>, Seq<char>>,
    pub check_sections: Seq<Seq<char>>,
    pub show_updates: bool,
    pub audit: bool,
}

impl DeepView for Settings {
    type V = SettingsView;

    open spec fn deep_view(&self) -> SettingsView {
        SettingsView {
            ignore_patterns: self.ignore_patterns.deep_view(),
            ignore_versions: self.ignore_versions@,
            check_sections: self.check_sections.deep_view(),
            show_updates: self.show_updates,
            audit: self.audit,
        }
    }
}

impl Clone for Settings {
    fn clone(&self) -> (r: Self)
        ensures
            r.deep_view() == self.deep_view(),
    {
        Settings {
            ignore_patterns: copy_strings(&self.ignore_patterns),
            ignore_versions: self.ignore_versions.clone(),
            check_sections: copy_strings(&self.check_sections),
            show_updates: self.show_updates,
            audit: self.audit,
        }
    }
}

/// The settings of a user who has asked for nothing.
pub open spec fn default_settings() -> SettingsView {
    SettingsView {
        ignore_patterns: seq![],
        ignore_versions: Map::empty(),
        check_sections: seq!["dependencies"@, "devDependencies"@],
        show_updates: true,
        audit: true,
    }
}

impl Default for Settings {
    fn default() -> (r: Settings)
        ensures
            r.deep_view() == default_settings(),
    {
        let mut sections: Vec<String> = Vec::new();
        sections.push("dependencies".to_owned());
        sections.push("devDependencies".to_owned());
        let patterns: Vec<String> = Vec::new();
        assert(patterns.deep_view() =~= Seq::<Seq<char>>::empty());
        assert(sections.deep_view() =~= seq!["dependencies"@, "devDependencies"@]);
        Settings {
            ignore_patterns: patterns,
            ignore_versions: VersionRules::new(),
            check_sections: sections,
            show_updates: true,
            audit: true,
        }
    }
}

// ---- Laws ----

/// The rule for a package is the one that was set last.
pub proof fn law_last_rule_counts(entries: Seq<(Seq<char>, Seq<char>)>, name: Seq<char>, i: int)
    requires
        0 <= i < entries.len(),
        entries[i].0 == name,
        forall|j: int| i < j < entries.len() ==> (#[trigger] entries[j]).0 != name,
    ensures
        rule_table(entries).dom().contains(name),
        rule_table(entries)[name] == entries[i].1,
    decreases entries.len(),
{
    let n = entries.len() - 1;
    if i < n {
        assert(entries[n].0 != name);
        law_last_rule_counts(entries.drop_last(), name, i);
    }
}

/// A package for which no rule was set has none.
pub proof fn law_no_rule_without_an_entry(entries: Seq<(Seq<char>, Seq<char>)>, name: Seq<char>)
    requires
        forall|j: int| 0 <= j < entries.len() ==> (#[trigger] entries[j]).0 != name,
    ensures
        !rule_table(entries).dom().contains(name),
    decreases entries.len(),
{
    if entries.len() > 0 {
        let rest = entries.drop_last();
        assert forall|j: int| 0 <= j < rest.len() implies (#[trigger] rest[j]).0 != name by {
            assert(rest[j] == entries[j]);
        }
        law_no_rule_without_an_entry(rest, name);
        assert(entries[entries.len() - 1].0 != name);
    }
}

/// A user who has asked for nothing is shown the updates and the known
/// vulnerabilities of the dependencies and the development dependencies, and
/// nothing is left alone.
pub proof fn law_default_settings()
    ensures
        default_settings().show_updates,
        default_settings().audit,
        forall|name: Seq<char>|
            default_settings().check_sections.contains(name) <==> name == "dependencies"@ || name
                == "devDependencies"@,
        default_settings().ignore_patterns.len() == 0,
        forall|name: Seq<char>| !default_settings().ignore_versions.dom().contains(name),
{
    let sections = default_settings().check_sections;
    assert(sections[0] == "dependencies"@);
    assert(sections[1] == "devDependencies"@);
}

} // verus!
