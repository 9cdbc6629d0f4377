//! What the editor is told, as plain values.

use vstd::prelude::*;
use vstd::string::*;

verus! {

/// A place in a document: a line, and a column in UTF-16 code units.
#[derive(Debug, Clone, Copy, PartialEq, Eq, Structural)]
pub struct Position {
    pub line: u32,
    pub character: u32,
}

/// The text between two places of a document.
#[derive(Debug, Clone, Copy, PartialEq, Eq, Structural)]
pub struct LspRange {
    pub start: Position,
    pub end: Position,
}

/// The address of a document or of a page, normalised, with the path in it.
#[derive(Debug, PartialEq, Eq)]
pub struct Url {
    /// The whole address.
    pub text: String,
    /// Its path, percent-encoded as it stands in the address.
    pub path: String,
}

/// The model of a [`Url`].
#[verifier::ext_equal]
pub struct UrlView {
    pub text: Seq<char>,
    pub path: Seq<char>,
}

impl DeepView for Url {
    type V = UrlView;

    open spec fn deep_view(&self) -> UrlView {
        UrlView { text: self.text@, path: self.path@ }
    }
}

/// What a text is as an address, if it is one.
pub uninterp spec fn parsed_url(text: Seq<char>) -> Option<UrlView>;

/// Parses an absolute address: `Url::parse`, of which `as_str` and `path` are
/// kept. Its result depends on the text alone; no grammar is stated for it.
#[verifier::external_body]
fn parse_url(text: &str) -> (r: Option<Url>)
    ensures
        r.deep_view() == parsed_url(text@),
{
    tower_lsp::lsp_types::Url::parse(text).ok().map(
        |u| Url { text: u.as_str().to_string(), path: u.path().to_string() },
    )
}

impl Url {
    /// Parses an absolute address.
    pub fn parse(text: &str) -> (r: Option<Url>)
        ensures
            r.deep_view() == parsed_url(text@),
    {
        parse_url(text)
    }
}

/// How much a diagnostic matters.
#[derive(Debug, Clone, Copy, PartialEq, Eq, Structural)]
pub enum DiagnosticSeverity {
    Error,
    Warning,
    Information,
    Hint,
}

/// A remark on a piece of a document.
#[derive(Debug, PartialEq, Eq)]
pub struct Diagnostic {
    pub range: LspRange,
    pub severity: DiagnosticSeverity,
    pub code: String,
    /// The address of a page about the code.
    pub code_description: Option<String>,
    pub source: String,
    pub message: String,
}

/// The model of a [`Diagnostic`].
#[verifier::ext_equal]
pub struct DiagnosticView {
    pub range: LspRange,
    pub severity: DiagnosticSeverity,
    pub code: Seq<char>,
    pub code_description: Option<Seq<char>>,
    pub source: Seq<char>,
    pub message: Seq<char>,
}

impl DeepView for Diagnostic {
    type V = DiagnosticView;

    open spec fn deep_view(&self) -> DiagnosticView {
        DiagnosticView {
            range: self.range,
            severity: self.severity,
            code: self.code@,
            code_description: self.code_description.deep_view(),
            source: self.source@,
            message: self.message@,
        }
    }
}

/// New text for a piece of a document.
#[derive(Debug, PartialEq, Eq)]
pub struct TextEdit {
    pub range: LspRange,
    pub new_text: String,
}

/// The model of a [`TextEdit`].
#[verifier::ext_equal]
pub struct TextEditView {
    pub range: LspRange,
    pub new_text: Seq<char>,
}

impl DeepView for TextEdit {
    type V = TextEditView;

    open spec fn deep_view(&self) -> TextEditView {
        TextEditView { range: self.range, new_text: self.new_text@ }
    }
}

/// Edits to the document at `uri`, and to no other.
#[derive(Debug, PartialEq, Eq)]
pub struct WorkspaceEdit {
    pub uri: String,
    pub edits: Vec<TextEdit>,
}

/// The model of a [`WorkspaceEdit`].
#[verifier::ext_equal]
pub struct WorkspaceEditView {
    pub uri: Seq<char>,
    pub edits: Seq<TextEditView>,
}

impl DeepView for WorkspaceEdit {
    type V = WorkspaceEditView;

    open spec fn deep_view(&self) -> WorkspaceEditView {
        WorkspaceEditView { uri: self.uri@, edits: self.edits.deep_view() }
    }
}

/// A command that the server runs on request.
#[derive(Debug, PartialEq, Eq)]
pub struct Command {
    pub title: String,
    pub command: String,
    pub arguments: Vec<String>,
}

/// The model of a [`Command`].
#[verifier::ext_equal]
pub struct CommandView {
    pub title: Seq<char>,
    pub command: Seq<char>,
    pub arguments: Seq<Seq<char>>,
}

impl DeepView for Command {
    type V = CommandView;

    open spec fn deep_view(&self) -> CommandView {
        CommandView {
            title: self.title@,
            command: self.command@,
            arguments: self.arguments.deep_view(),
        }
    }
}

/// The kinds of code action that are offered.
#[derive(Debug, Clone, Copy, PartialEq, Eq, Structural)]
pub enum ActionKind {
    /// A quick fix for one dependency.
    QuickFix,
    /// A change to all dependencies of a document.
    UpdateAll,
    /// An action of no particular kind.
    Empty,
}

/// Something that the editor offers to do.
#[derive(Debug, PartialEq, Eq)]
pub struct CodeAction {
    pub title: String,
    pub kind: ActionKind,
    pub edit: Option<WorkspaceEdit>,
    pub command: Option<Command>,
    pub is_preferred: Option<bool>,
}

/// The model of a [`CodeAction`].
#[verifier::ext_equal]
pub struct CodeActionView {
    pub title: Seq<char>,
    pub kind: ActionKind,
    pub edit: Option<WorkspaceEditView>,
    pub command: Option<CommandView>,
    pub is_preferred: Option<bool>,
}

impl DeepView for CodeAction {
    type V = CodeActionView;

    open spec fn deep_view(&self) -> CodeActionView {
        CodeActionView {
            title: self.title@,
            kind: self.kind,
            edit: self.edit.deep_view(),
            command: self.command.deep_view(),
            is_preferred: self.is_preferred,
        }
    }
}

/// A label shown inside the text of a document, with space before it.
#[derive(Debug, PartialEq, Eq)]
pub struct InlayHint {
    pub position: Position,
    pub label: String,
    pub tooltip: String,
}

/// The model of an [`InlayHint`].
#[verifier::ext_equal]
pub struct InlayHintView {
    pub position: Position,
    pub label: Seq<char>,
    pub tooltip: Seq<char>,
}

impl DeepView for InlayHint {
    type V = InlayHintView;

    open spec fn deep_view(&self) -> InlayHintView {
        InlayHintView { position: self.position, label: self.label@, tooltip: self.tooltip@ }
    }
}

/// Markdown about a piece of a document.
#[derive(Debug, PartialEq, Eq)]
pub struct Hover {
    pub value: String,
    pub range: LspRange,
}

/// The model of a [`Hover`].
#[verifier::ext_equal]
pub struct HoverView {
    pub value: Seq<char>,
    pub range: LspRange,
}

impl DeepView for Hover {
    type V = HoverView;

    open spec fn deep_view(&self) -> HoverView {
        HoverView { value: self.value@, range: self.range }
    }
}

/// A version offered for a version string.
#[derive(Debug, PartialEq, Eq)]
pub struct CompletionItem {
    pub label: String,
    pub description: Option<String>,
    pub sort_text: String,
    pub filter_text: String,
    pub text_edit: TextEdit,
}

/// The model of a [`CompletionItem`].
#[verifier::ext_equal]
pub struct CompletionItemView {
    pub label: Seq<char>,
    pub description: Option<Seq<char>>,
    pub sort_text: Seq<char>,
    pub filter_text: Seq<char>,
    pub text_edit: TextEditView,
}

impl DeepView for CompletionItem {
    type V = CompletionItemView;

    open spec fn deep_view(&self) -> CompletionItemView {
        CompletionItemView {
            label: self.label@,
            description: self.description.deep_view(),
            sort_text: self.sort_text@,
            filter_text: self.filter_text@,
            text_edit: self.text_edit.deep_view(),
        }
    }
}

} // verus!
