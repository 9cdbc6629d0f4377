//! Remarks on version strings.

use vstd::prelude::*;
use vstd::string::*;

use crate::audit::{Advisory, AdvisorySeverity, AdvisoryView};
use crate::document::{DepEntry, DepView};
use crate::lsp::{
    parsed_url, Diagnostic, DiagnosticSeverity, DiagnosticView, Url, UrlView,
};
use crate::semver::{optional_string, optional_text, version_text};
use crate::text::{append_wrapped, wrapped};

verus! {

/// The remark that a version string is no range.
pub open spec fn invalid_semver_remark(dep: DepView) -> DiagnosticView {
    DiagnosticView {
        range: dep.value_range,
        severity: DiagnosticSeverity::Error,
        code: "invalid-semver"@,
        code_description: None,
        source: "package-json-upgrade"@,
        message: "Invalid semver range: \""@ + dep.range_str + "\""@,
    }
}

/// The remark that a version string is no range.
pub fn invalid_semver(dep: &DepEntry) -> (r: Diagnostic)
    ensures
        r.deep_view() == invalid_semver_remark(dep.deep_view()),
{
    let mut message = "Invalid semver range: \"".to_owned();
    message.append(dep.range_str.as_str());
    message.append("\"");
    Diagnostic {
        range: dep.value_range,
        severity: DiagnosticSeverity::Error,
        code: "invalid-semver".to_owned(),
        code_description: None,
        source: "package-json-upgrade".to_owned(),
        message,
    }
}

/// The remark that the registry does not know a package.
pub open spec fn not_found_remark(dep: DepView) -> DiagnosticView {
    DiagnosticView {
        range: dep.value_range,
        severity: DiagnosticSeverity::Warning,
        code: "not-found"@,
        code_description: None,
        source: "package-json-upgrade"@,
        message: "Package \""@ + dep.name + "\" not found in npm registry"@,
    }
}

/// The remark that the registry does not know a package.
pub fn not_found(dep: &DepEntry) -> (r: Diagnostic)
    ensures
        r.deep_view() == not_found_remark(dep.deep_view()),
{
    let mut message = "Package \"".to_owned();
    message.append(dep.name.as_str());
    message.append("\" not found in npm registry");
    Diagnostic {
        range: dep.value_range,
        severity: DiagnosticSeverity::Warning,
        code: "not-found".to_owned(),
        code_description: None,
        source: "package-json-upgrade".to_owned(),
        message,
    }
}

/// The remark that a dependency is outdated.
pub open spec fn outdated_remark(dep: DepView) -> DiagnosticView {
    DiagnosticView {
        range: dep.value_range,
        severity: DiagnosticSeverity::Hint,
        code: "outdated"@,
        code_description: None,
        source: "package-json-upgrade"@,
        message: "A newer version of \""@ + dep.name + "\" is available"@,
    }
}

/// The remark that a dependency is outdated. What it can be upgraded to is
/// shown behind the version string.
pub fn outdated(dep: &DepEntry) -> (r: Diagnostic)
    ensures
        r.deep_view() == outdated_remark(dep.deep_view()),
{
    let mut message = "A newer version of \"".to_owned();
    message.append(dep.name.as_str());
    message.append("\" is available");
    Diagnostic {
        range: dep.value_range,
        severity: DiagnosticSeverity::Hint,
        code: "outdated".to_owned(),
        code_description: None,
        source: "package-json-upgrade".to_owned(),
        message,
    }
}

/// How much a remark on an advisory matters.
pub open spec fn remark_severity(severity: AdvisorySeverity) -> DiagnosticSeverity {
    match severity {
        AdvisorySeverity::Critical | AdvisorySeverity::High => DiagnosticSeverity::Error,
        AdvisorySeverity::Moderate => DiagnosticSeverity::Warning,
        _ => DiagnosticSeverity::Information,
    }
}

/// The remark on an advisory, with the page about it.
pub open spec fn linked_remark(
    dep: DepView,
    adv: AdvisoryView,
    page: Option<UrlView>,
) -> DiagnosticView {
    DiagnosticView {
        range: dep.value_range,
        severity: remark_severity(adv.severity),
        code: adv.id,
        code_description: match page {
            Some(url) => Some(url.text),
            None => None,
        },
        source: "package-json-upgrade/audit"@,
        message: "["@ + adv.id + "] "@ + adv.summary + wrapped(
            " — fixed in "@,
            optional_text(adv.fixed_in),
            ""@,
        ),
    }
}

/// The remark on an advisory, with the page about it.
pub fn advisory_linked(dep: &DepEntry, adv: &Advisory, page: Option<Url>) -> (r: Diagnostic)
    ensures
        r.deep_view() == linked_remark(dep.deep_view(), adv.deep_view(), page.deep_view()),
{
    let severity = match adv.severity {
        AdvisorySeverity::Critical | AdvisorySeverity::High => DiagnosticSeverity::Error,
        AdvisorySeverity::Moderate => DiagnosticSeverity::Warning,
        _ => DiagnosticSeverity::Information,
    };
    let mut message = "[".to_owned();
    message.append(adv.id.as_str());
    message.append("] ");
    message.append(adv.summary.as_str());
    append_wrapped(&mut message, " — fixed in ", &optional_string(&adv.fixed_in), "");
    Diagnostic {
        range: dep.value_range,
        severity,
        code: adv.id.clone(),
        code_description: match page {
            Some(url) => Some(url.text),
            None => None,
        },
        source: "package-json-upgrade/audit".to_owned(),
        message,
    }
}

/// The page about an advisory, if it gives an address.
pub open spec fn advisory_page(adv: AdvisoryView) -> Option<UrlView> {
    match adv.url {
        Some(text) => parsed_url(text),
        None => None,
    }
}

/// The remark on an advisory.
pub open spec fn advisory_remark(dep: DepView, adv: AdvisoryView) -> DiagnosticView {
    linked_remark(dep, adv, advisory_page(adv))
}

/// The remark on an advisory.
pub fn advisory(dep: &DepEntry, adv: &Advisory) -> (r: Diagnostic)
    ensures
        r.deep_view() == advisory_remark(dep.deep_view(), adv.deep_view()),
{
    let page = match &adv.url {
        Some(text) => Url::parse(text.as_str()),
        None => None,
    };
    advisory_linked(dep, adv, page)
}

// ---- Laws ----

/// The remark on an advisory is an error exactly where the advisory is critical
/// or high, a warning exactly where it is moderate, and information otherwise,
/// whatever its fix, its page and its summary are.
pub proof fn law_severity_of_remarks(dep: DepView, adv: AdvisoryView, page: Option<UrlView>)
    ensures
        linked_remark(dep, adv, page).severity == DiagnosticSeverity::Error <==> adv.severity
            == AdvisorySeverity::Critical || adv.severity == AdvisorySeverity::High,
        linked_remark(dep, adv, page).severity == DiagnosticSeverity::Warning <==> adv.severity
            == AdvisorySeverity::Moderate,
        linked_remark(dep, adv, page).severity == DiagnosticSeverity::Information <==> adv.severity
            == AdvisorySeverity::Low || adv.severity == AdvisorySeverity::Unknown,
        advisory_remark(dep, adv).severity == linked_remark(dep, adv, page).severity,
{
}

/// A remark on an advisory stands at the version string, is known by the
/// identifier of the advisory, says what it says and, where that is known, from
/// which version on it is fixed, and leads to its page where its address is one.
pub proof fn law_remark_tells_the_advisory(dep: DepView, adv: AdvisoryView)
    ensures
        ({
            let r = advisory_remark(dep, adv);
            &&& r.range == dep.value_range
            &&& r.code == adv.id
            &&& r.source == "package-json-upgrade/audit"@
            &&& adv.fixed_in is None ==> r.message == "["@ + adv.id + "] "@ + adv.summary
            &&& adv.fixed_in matches Some(v) ==> r.message == "["@ + adv.id + "] "@ + adv.summary
                + " — fixed in "@ + version_text(v)
            &&& adv.url is None ==> r.code_description is None
            &&& adv.url matches Some(address) ==> match parsed_url(address) {
                Some(page) => r.code_description == Some(page.text),
                None => r.code_description is None,
            }
        }),
{
    reveal_strlit("");
    let head = "["@ + adv.id + "] "@ + adv.summary;
    let r = advisory_remark(dep, adv);
    match adv.fixed_in {
        Some(v) => {
            assert(r.message =~= head + " — fixed in "@ + version_text(v));
        },
        None => {
            assert(r.message =~= head);
        },
    }
}

/// The other remarks stand at the version string too, and name what they are
/// about: the version string that is no range is an error, the package that is
/// not known a warning, and the one that is outdated a hint.
pub proof fn law_remarks_name_their_cause(dep: DepView)
    ensures
        ({
            let r = invalid_semver_remark(dep);
            &&& r.range == dep.value_range && r.severity == DiagnosticSeverity::Error
            &&& r.code == "invalid-semver"@ && r.code_description is None
            &&& r.source == "package-json-upgrade"@
            &&& r.message == "Invalid semver range: \""@ + dep.range_str + "\""@
        }),
        ({
            let r = not_found_remark(dep);
            &&& r.range == dep.value_range && r.severity == DiagnosticSeverity::Warning
            &&& r.code == "not-found"@ && r.code_description is None
            &&& r.source == "package-json-upgrade"@
            &&& r.message == "Package \""@ + dep.name + "\" not found in npm registry"@
        }),
        ({
            let r = outdated_remark(dep);
            &&& r.range == dep.value_range && r.severity == DiagnosticSeverity::Hint
            &&& r.code == "outdated"@ && r.code_description is None
            &&& r.source == "package-json-upgrade"@
            &&& r.message == "A newer version of \""@ + dep.name + "\" is available"@
        }),
{
}

} // verus!
