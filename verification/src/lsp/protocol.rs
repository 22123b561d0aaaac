//! The editor protocol's data, as plain values.

use crate::types::Severity;
use vstd::prelude::*;

verus! {

/// A place in a document: a line and a column, both counted from 0.
#[derive(Clone, Copy, Debug, PartialEq, Eq, Structural)]
pub struct Position {
    pub line: u32,
    pub character: u32,
}

impl Position {
    /// The position at a line and a column.
    pub fn new(line: u32, character: u32) -> (r: Position)
        ensures
            r == (Position { line, character }),
    {
        Position { line, character }
    }
}

/// The text from `start` up to, not including, `end`.
#[derive(Clone, Copy, Debug, PartialEq, Eq, Structural)]
pub struct Range {
    pub start: Position,
    pub end: Position,
}

/// The replacement of a range by a text.
#[derive(Debug, PartialEq, Eq)]
pub struct TextEdit {
    pub range: Range,
    pub new_text: String,
}

/// What a text edit stands for in contracts.
pub struct TextEditView {
    pub range: Range,
    pub new_text: Seq<char>,
}

impl View for TextEdit {
    type V = TextEditView;

    open spec fn view(&self) -> TextEditView {
        TextEditView { range: self.range, new_text: self.new_text@ }
    }
}

impl Clone for TextEdit {
    fn clone(&self) -> (r: Self)
        ensures
            r@ == self@,
    {
        TextEdit { range: self.range, new_text: self.new_text.clone() }
    }
}

/// An issue as the editor shows it.
#[derive(Debug, PartialEq, Eq)]
pub struct Diagnostic {
    pub range: Range,
    pub severity: Severity,
    /// The identifier of the rule that reported the issue.
    pub code: String,
    /// The name of the tool that reported it.
    pub source: String,
    pub message: String,
}

/// What a diagnostic stands for in contracts.
pub struct DiagnosticView {
    pub range: Range,
    pub severity: Severity,
    pub code: Seq<char>,
    pub source: Seq<char>,
    pub message: Seq<char>,
}

impl View for Diagnostic {
    type V = DiagnosticView;

    open spec fn view(&self) -> DiagnosticView {
        DiagnosticView {
            range: self.range,
            severity: self.severity,
            code: self.code@,
            source: self.source@,
            message: self.message@,
        }
    }
}

impl Clone for Diagnostic {
    fn clone(&self) -> (r: Self)
        ensures
            r@ == self@,
    {
        Diagnostic {
            range: self.range,
            severity: self.severity,
            code: self.code.clone(),
            source: self.source.clone(),
            message: self.message.clone(),
        }
    }
}

/// The view of an optional diagnostic.
pub open spec fn diagnostic_view(o: Option<Diagnostic>) -> Option<DiagnosticView> {
    match o {
        Some(d) => Some(d@),
        None => None,
    }
}

/// What kind of action the editor is offered.
#[derive(Clone, Copy, Debug, PartialEq, Eq, Structural)]
pub enum CodeActionKind {
    /// The repair of one issue.
    QuickFix,
    /// The repair of every issue of a document.
    SourceFixAll,
}

/// A command that the editor sends back to the server.
#[derive(Debug, PartialEq, Eq)]
pub struct Command {
    pub title: String,
    pub command: String,
    /// The document the command is about.
    pub argument: String,
}

/// What a command stands for in contracts.
pub struct CommandView {
    pub title: Seq<char>,
    pub command: Seq<char>,
    pub argument: Seq<char>,
}

impl View for Command {
    type V = CommandView;

    open spec fn view(&self) -> CommandView {
        CommandView { title: self.title@, command: self.command@, argument: self.argument@ }
    }
}

/// Edits to one document.
#[derive(Debug, PartialEq, Eq)]
pub struct WorkspaceEdit {
    pub uri: String,
    pub edits: Vec<TextEdit>,
}

/// What a workspace edit stands for in contracts.
pub struct WorkspaceEditView {
    pub uri: Seq<char>,
    pub edits: Seq<TextEditView>,
}

impl View for WorkspaceEdit {
    type V = WorkspaceEditView;

    open spec fn view(&self) -> WorkspaceEditView {
        WorkspaceEditView {
            uri: self.uri@,
            edits: Seq::new(self.edits@.len(), |i: int| self.edits@[i]@),
        }
    }
}

/// An action offered to the user: an edit, a command, or both.
#[derive(Debug, PartialEq, Eq)]
pub struct CodeAction {
    pub title: String,
    pub kind: CodeActionKind,
    pub edit: Option<WorkspaceEdit>,
    pub command: Option<Command>,
    /// The diagnostic that the action resolves.
    pub diagnostic: Option<Diagnostic>,
}

/// What a code action stands for in contracts.
pub struct CodeActionView {
    pub title: Seq<char>,
    pub kind: CodeActionKind,
    pub edit: Option<WorkspaceEditView>,
    pub command: Option<CommandView>,
    pub diagnostic: Option<DiagnosticView>,
}

impl View for CodeAction {
    type V = CodeActionView;

    open spec fn view(&self) -> CodeActionView {
        CodeActionView {
            title: self.title@,
            kind: self.kind,
            edit: match self.edit {
                Some(e) => Some(e@),
                None => None,
            },
            command: match self.command {
                Some(c) => Some(c@),
                None => None,
            },
            diagnostic: diagnostic_view(self.diagnostic),
        }
    }
}

/// The views of a list of actions.
pub open spec fn actions_view(v: Seq<CodeAction>) -> Seq<CodeActionView> {
    Seq::new(v.len(), |i: int| v[i]@)
}

} // verus!
