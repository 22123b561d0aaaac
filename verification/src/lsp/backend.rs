//! What the server decides on the editor's events.
//!
//! The server keeps the open documents, the configuration cache and the
//! pending timers. Each event changes that state and answers with the
//! actions that the caller is to take: to lint a document, to start or stop
//! a timer, to clear the diagnostics of a document. Talking to the editor,
//! reading files and keeping time are the caller's part.

use crate::engine::{lint_document, lint_result};
use crate::fixes::{apply_fixes, fixed};
use crate::lines::{content_lines, lines_of};
use crate::lsp::code_actions::{fix_action, fix_to_code_action, primary_name};
use crate::lsp::config::{
    CANDIDATE_COUNT, Config, ConfigManager, candidate_name, candidate_names,
    config_view, dirs_view, no_entries,
};
use crate::lsp::diagnostics::{diagnostic_of, diagnostics_for, diagnostics_view};
use crate::lsp::document::{Document, DocumentManager, DocumentView};
use crate::lsp::protocol::{
    CodeAction, CodeActionKind, CodeActionView, Command, CommandView, Diagnostic, actions_view,
};
use crate::lsp::utils::{Debouncer, clamp_u32, fires, to_u32, zero_based};
use crate::rules::selected;
use crate::text::{
    append, append_str, chars_of, decimal, decimal_of, join, joined, same, string_of,
};
use crate::types::{LintError, LintErrorView, issues_view, texts_view};
use vstd::prelude::*;

verus! {

/// The name of the command that fixes every issue of a document.
pub const FIX_ALL_COMMAND: &'static str = "mkdlint.fixAll";

/// The quiet interval of the debouncer, in milliseconds.
pub const QUIET_MILLIS: u64 = 300;

/// Something that the caller is to do.
#[derive(Debug, PartialEq, Eq)]
pub enum Action {
    /// Lint the document and publish its diagnostics.
    Lint(String),
    /// Start a timer that, after `millis` milliseconds, reports to
    /// `timer_fired` with the URI and the token.
    StartTimer { uri: String, token: u64, millis: u64 },
    /// Stop the timer with the token.
    StopTimer(u64),
    /// Publish an empty list of diagnostics for the document.
    ClearDiagnostics(String),
}

/// What an action stands for in contracts.
pub enum ActionView {
    Lint(Seq<char>),
    StartTimer { uri: Seq<char>, token: u64, millis: u64 },
    StopTimer(u64),
    ClearDiagnostics(Seq<char>),
}

impl View for Action {
    type V = ActionView;

    open spec fn view(&self) -> ActionView {
        match self {
            Action::Lint(uri) => ActionView::Lint(uri@),
            Action::StartTimer { uri, token, millis } => ActionView::StartTimer {
                uri: uri@,
                token: *token,
                millis: *millis,
            },
            Action::StopTimer(token) => ActionView::StopTimer(*token),
            Action::ClearDiagnostics(uri) => ActionView::ClearDiagnostics(uri@),
        }
    }
}

/// The views of the actions.
pub open spec fn todo_view(v: Seq<Action>) -> Seq<ActionView> {
    Seq::new(v.len(), |i: int| v[i]@)
}

/// The action that stops a timer, if there is one to stop.
pub open spec fn stop(token: Option<u64>) -> Seq<ActionView> {
    match token {
        Some(t) => seq![ActionView::StopTimer(t)],
        None => Seq::empty(),
    }
}

/// The token of the timer that is pending for a key.
pub open spec fn pending_for(pending: Map<Seq<char>, u64>, uri: Seq<char>) -> Option<u64> {
    if pending.contains_key(uri) {
        Some(pending[uri])
    } else {
        None
    }
}

/// The state of the language server.
pub struct MkdlintLanguageServer {
    pub documents: DocumentManager,
    pub configs: ConfigManager,
    pub debouncer: Debouncer,
}

/// The workspace roots that the editor names: its folders that are
/// directories, and without any its root where that is a directory.
pub open spec fn workspace_roots_of(
    folders: Seq<Option<Vec<String>>>,
    root: Option<Vec<String>>,
) -> Seq<Seq<Seq<char>>> {
    let named = named_folders(folders);
    if named.len() > 0 {
        named
    } else {
        match root {
            Some(dir) => seq![texts_view(dir@)],
            None => Seq::empty(),
        }
    }
}

/// The folders that are directories.
pub open spec fn named_folders(folders: Seq<Option<Vec<String>>>) -> Seq<Seq<Seq<char>>>
    decreases folders.len(),
{
    if folders.len() == 0 {
        Seq::empty()
    } else {
        match folders.last() {
            Some(dir) => named_folders(folders.drop_last()).push(texts_view(dir@)),
            None => named_folders(folders.drop_last()),
        }
    }
}

/// The patterns of the files whose changes the server wants to hear of:
/// each candidate name in any directory.
pub open spec fn watched_patterns() -> Seq<Seq<char>> {
    Seq::new(CANDIDATE_COUNT as nat, |i: int| "**/"@ + candidate_names()[i])
}

/// The patterns of the files whose changes the server wants to hear of.
pub fn watch_patterns() -> (r: Vec<String>)
    ensures
        texts_view(r@) == watched_patterns(),
{
    let mut r: Vec<String> = Vec::new();
    let mut i: usize = 0;
    while i < CANDIDATE_COUNT
        invariant
            i <= CANDIDATE_COUNT,
            r@.len() == i,
            forall|k: int| 0 <= k < i ==> r@[k]@ == "**/"@ + candidate_names()[k],
        decreases CANDIDATE_COUNT - i,
    {
        let mut pattern = chars_of("**/");
        append_str(&mut pattern, candidate_name(i));
        r.push(string_of(pattern.as_slice()));
        i += 1;
    }
    assert(texts_view(r@) =~= watched_patterns());
    r
}

/// Whether a command is the one that fixes every issue of a document.
pub fn is_fix_all(command: &str) -> (r: bool)
    ensures
        r == (command@ == FIX_ALL_COMMAND@),
{
    same(chars_of(command).as_slice(), chars_of(FIX_ALL_COMMAND).as_slice())
}

/// `value` between `before` and `after`, or nothing.
pub open spec fn framed(before: Seq<char>, value: Option<Seq<char>>, after: Seq<char>) -> Seq<char> {
    match value {
        Some(v) => before + v + after,
        None => Seq::empty(),
    }
}

/// The heading of a hover section: the rule's identifier and alias, and
/// its description.
pub open spec fn hover_head(issue: LintErrorView) -> Seq<char> {
    let id = primary_name(issue);
    let alias = if issue.rule_names.len() > 1 {
        issue.rule_names[1]
    } else {
        id
    };
    "### "@ + id + " / "@ + alias + "\n\n"@ + issue.rule_description + "\n"@
}

/// The note that an issue can be fixed.
pub open spec fn hover_fix(issue: LintErrorView) -> Seq<char> {
    if issue.fix_info is Some {
        "\n*Auto-fixable* \u{1f527}\n"@
    } else {
        Seq::empty()
    }
}

/// The section of a hover text for one issue: its heading, then its
/// detail, its suggestion, the note that it can be fixed and the link to
/// its documentation, as far as it has them.
pub open spec fn hover_section(issue: LintErrorView) -> Seq<char> {
    hover_head(issue) + framed("\n**Detail:** "@, issue.error_detail, "\n"@) + framed(
        "\n**Suggestion:** "@,
        issue.suggestion,
        "\n"@,
    ) + hover_fix(issue) + framed("\n[Documentation]("@, issue.rule_information, ")\n"@)
}

/// Whether an issue is on the editor's line `line`, counted from 0.
pub open spec fn is_on_line(issue: LintErrorView, line: u32) -> bool {
    issue.line_number == line + 1
}

/// The hover text for a line: the sections of the issues on that line,
/// with a rule between them; none where the line has no issue.
pub open spec fn hover_text(issues: Seq<LintErrorView>, line: u32) -> Option<Seq<char>> {
    let found = selected(issues.len() as int, |i: int| is_on_line(issues[i], line));
    if found.len() == 0 {
        None
    } else {
        Some(joined(Seq::new(found.len(), |k: int| hover_section(issues[found[k]])), "\n---\n\n"@))
    }
}

/// `value` between `before` and `after`, or nothing.
fn frame(before: &str, value: &Option<String>, after: &str) -> (r: Vec<char>)
    ensures
        r@ == framed(before@, crate::types::text_view(*value), after@),
{
    let mut r: Vec<char> = Vec::new();
    match value {
        Some(v) => {
            append_str(&mut r, before);
            append_str(&mut r, v.as_str());
            append_str(&mut r, after);
        },
        None => {},
    }
    r
}

/// The heading of a hover section.
fn head_for(issue: &LintError) -> (r: Vec<char>)
    ensures
        r@ == hover_head(issue@),
{
    let unknown = string_of(chars_of("unknown").as_slice());
    let id: &String = if issue.rule_names.len() > 0 { &issue.rule_names[0] } else { &unknown };
    let alias: &String = if issue.rule_names.len() > 1 { &issue.rule_names[1] } else { id };
    let mut r: Vec<char> = Vec::new();
    append_str(&mut r, "### ");
    append_str(&mut r, id.as_str());
    append_str(&mut r, " / ");
    append_str(&mut r, alias.as_str());
    append_str(&mut r, "\n\n");
    append_str(&mut r, issue.rule_description.as_str());
    append_str(&mut r, "\n");
    r
}

/// The section of a hover text for one issue.
pub fn section_for(issue: &LintError) -> (r: Vec<char>)
    ensures
        r@ == hover_section(issue@),
{
    let mut r = head_for(issue);
    append(&mut r, frame("\n**Detail:** ", &issue.error_detail, "\n").as_slice());
    append(&mut r, frame("\n**Suggestion:** ", &issue.suggestion, "\n").as_slice());
    if issue.fix_info.is_some() {
        append_str(&mut r, "\n*Auto-fixable* \u{1f527}\n");
    }
    assert(r@ =~= hover_head(issue@) + framed("\n**Detail:** "@, issue@.error_detail, "\n"@)
        + framed("\n**Suggestion:** "@, issue@.suggestion, "\n"@) + hover_fix(issue@));
    append(&mut r, frame("\n[Documentation](", &issue.rule_information, ")\n").as_slice());
    r
}

/// The hover text for a line of a document with the given issues.
pub fn hover_for(errors: &Vec<LintError>, line: u32) -> (r: Option<String>)
    ensures
        crate::types::text_view(r) == hover_text(issues_view(errors@), line),
{
    let ghost issues = issues_view(errors@);
    let ghost wanted = |i: int| is_on_line(issues[i], line);
    let mut sections: Vec<Vec<char>> = Vec::new();
    let mut i: usize = 0;
    while i < errors.len()
        invariant
            i <= errors.len(),
            issues == issues_view(errors@),
            wanted == (|i: int| is_on_line(issues[i], line)),
            sections@.len() == selected(i as int, wanted).len(),
            forall|k: int|
                0 <= k < sections@.len() ==> sections@[k]@ == hover_section(
                    issues[selected(i as int, wanted)[k]],
                ),
        decreases errors.len() - i,
    {
        let error = &errors[i];
        assert(issues[i as int] == error@);
        if error.line_number > 0 && error.line_number - 1 == line as usize {
            sections.push(section_for(error));
        }
        i += 1;
    }
    if sections.len() == 0 {
        return None;
    }
    let separator = chars_of("\n---\n\n");
    let text = join(&sections, separator.as_slice());
    assert(Seq::new(sections@.len(), |k: int| sections@[k]@) =~= Seq::new(
        selected(issues.len() as int, wanted).len(),
        |k: int| hover_section(issues[selected(issues.len() as int, wanted)[k]]),
    ));
    Some(string_of(text.as_slice()))
}

/// Whether an issue has a fix and lies on one of the editor's lines from
/// `first` to `last`.
pub open spec fn is_fixable_in(issue: LintErrorView, first: u32, last: u32) -> bool {
    issue.fix_info is Some && first <= clamp_u32(zero_based(issue.line_number as int)) <= last
}

/// The quick fixes of the first `n` issues that lie in the lines from
/// `first` to `last`.
pub open spec fn quick_fixes(
    uri: Seq<char>,
    issues: Seq<LintErrorView>,
    content: Seq<char>,
    first: u32,
    last: u32,
    n: int,
) -> Seq<CodeActionView>
    decreases n,
{
    if n <= 0 || n > issues.len() {
        Seq::empty()
    } else {
        let before = quick_fixes(uri, issues, content, first, last, n - 1);
        if is_fixable_in(issues[n - 1], first, last) {
            match fix_action(uri, issues[n - 1], content, None) {
                Some(action) => before.push(action),
                None => before,
            }
        } else {
            before
        }
    }
}

/// The number of issues that have a fix.
pub open spec fn fixable_count(issues: Seq<LintErrorView>) -> nat
    decreases issues.len(),
{
    if issues.len() == 0 {
        0
    } else {
        fixable_count(issues.drop_last()) + if issues.last().fix_info is Some {
            1nat
        } else {
            0nat
        }
    }
}

/// The action that fixes every issue of a document at once.
pub open spec fn fix_all_action(uri: Seq<char>, count: nat) -> CodeActionView {
    CodeActionView {
        title: "Fix all mkdlint issues ("@ + decimal(count) + " fixes)"@,
        kind: CodeActionKind::SourceFixAll,
        edit: None,
        command: Some(
            CommandView { title: "Fix all"@, command: FIX_ALL_COMMAND@, argument: uri },
        ),
        diagnostic: None,
    }
}

/// The actions offered for the lines from `first` to `last` of a
/// document: the quick fixes of the issues there and, where any issue of
/// the document has a fix, the action that fixes them all. None where
/// there is nothing to offer.
pub open spec fn offered_actions(document: DocumentView, first: u32, last: u32) -> Option<
    Seq<CodeActionView>,
> {
    let quick = quick_fixes(
        document.uri,
        document.cached_errors,
        document.content,
        first,
        last,
        document.cached_errors.len() as int,
    );
    let count = fixable_count(document.cached_errors);
    if count > 0 {
        Some(quick.push(fix_all_action(document.uri, count)))
    } else if quick.len() > 0 {
        Some(quick)
    } else {
        None
    }
}

/// The actions offered for the lines from `first` to `last` of a document.
pub fn actions_for(document: &Document, first: u32, last: u32) -> (r: Option<Vec<CodeAction>>)
    ensures
        match r {
            Some(actions) => offered_actions(document@, first, last) == Some(
                actions_view(actions@),
            ),
            None => offered_actions(document@, first, last) is None,
        },
{
    let ghost issues = document@.cached_errors;
    let errors = &document.cached_errors;
    let mut actions: Vec<CodeAction> = Vec::new();
    let mut fixable: usize = 0;
    let mut i: usize = 0;
    assert(issues.take(0) =~= Seq::<LintErrorView>::empty());
    while i < errors.len()
        invariant
            i <= errors.len(),
            issues == issues_view(errors@),
            issues == document@.cached_errors,
            fixable == fixable_count(issues.take(i as int)),
            fixable <= i,
            actions_view(actions@) == quick_fixes(
                document@.uri,
                issues,
                document@.content,
                first,
                last,
                i as int,
            ),
        decreases errors.len() - i,
    {
        let error = &errors[i];
        assert(issues[i as int] == error@);
        assert(issues.take(i + 1).drop_last() =~= issues.take(i as int));
        if error.fix_info.is_some() {
            fixable += 1;
            let idx: usize = if error.line_number > 0 { error.line_number - 1 } else { 0 };
            let error_line = to_u32(idx);
            if error_line >= first && error_line <= last {
                match fix_to_code_action(
                    document.uri.as_str(),
                    error,
                    document.content.as_str(),
                    None,
                ) {
                    Some(action) => {
                        let ghost before = actions_view(actions@);
                        let ghost view = action@;
                        actions.push(action);
                        assert(actions_view(actions@) =~= before.push(view));
                    },
                    None => {},
                }
            }
        }
        i += 1;
    }
    assert(issues.take(i as int) =~= issues);
    if fixable > 0 {
        let mut title = chars_of("Fix all mkdlint issues (");
        append(&mut title, decimal_of(fixable).as_slice());
        append_str(&mut title, " fixes)");
        let ghost before = actions_view(actions@);
        let action = CodeAction {
            title: string_of(title.as_slice()),
            kind: CodeActionKind::SourceFixAll,
            edit: None,
            command: Some(
                Command {
                    title: string_of(chars_of("Fix all").as_slice()),
                    command: string_of(chars_of(FIX_ALL_COMMAND).as_slice()),
                    argument: document.uri.clone(),
                },
            ),
            diagnostic: None,
        };
        assert(action@ == fix_all_action(document@.uri, fixable as nat));
        actions.push(action);
        assert(actions_view(actions@) =~= before.push(fix_all_action(document@.uri, fixable as nat)));
    }
    if actions.len() == 0 {
        None
    } else {
        Some(actions)
    }
}

/// A rewrite of a document that waits for the editor's confirmation.
#[derive(Debug, PartialEq, Eq)]
pub struct FixProposal {
    pub uri: String,
    /// The document with its fixes applied.
    pub content: String,
    /// The version of the document that was rewritten.
    pub version: i32,
}

/// The version that follows `version`.
pub open spec fn next_version(version: i32) -> i32 {
    if version < i32::MAX {
        (version + 1) as i32
    } else {
        version
    }
}

impl MkdlintLanguageServer {
    /// A server without documents, workspace roots or timers.
    pub fn new() -> (r: Self)
        ensures
            r.documents.documents() == Map::<Seq<char>, DocumentView>::empty(),
            r.configs.cached() == no_entries(),
            r.configs.roots() == Seq::<Seq<Seq<char>>>::empty(),
            r.debouncer.pending() == Map::<Seq<char>, u64>::empty(),
            r.debouncer.quiet() == QUIET_MILLIS,
    {
        let roots: Vec<Vec<String>> = Vec::new();
        assert(dirs_view(roots@) =~= Seq::<Seq<Seq<char>>>::empty());
        MkdlintLanguageServer {
            documents: DocumentManager::new(),
            configs: ConfigManager::new(roots),
            debouncer: Debouncer::new(QUIET_MILLIS),
        }
    }

    /// Takes the workspace roots that the editor names and begins with an
    /// empty configuration cache. Returns the number of roots.
    pub fn initialize(&mut self, folders: Vec<Option<Vec<String>>>, root: Option<Vec<String>>) -> (n:
        usize)
        ensures
            final(self).documents == old(self).documents,
            final(self).debouncer == old(self).debouncer,
            final(self).configs.roots() == workspace_roots_of(folders@, root),
            final(self).configs.cached() == no_entries(),
            n == workspace_roots_of(folders@, root).len(),
    {
        let mut roots: Vec<Vec<String>> = Vec::new();
        let mut folders = folders;
        let ghost all = folders@;
        let mut i: usize = 0;
        assert(all.take(0) =~= Seq::<Option<Vec<String>>>::empty());
        assert(dirs_view(roots@) =~= Seq::<Seq<Seq<char>>>::empty());
        while i < folders.len()
            invariant
                i <= folders@.len(),
                folders@ == all,
                dirs_view(roots@) == named_folders(all.take(i as int)),
            decreases folders.len() - i,
        {
            assert(all.take(i + 1).drop_last() =~= all.take(i as int));
            match &folders[i] {
                Some(dir) => {
                    let ghost before = dirs_view(roots@);
                    roots.push(crate::types::clone_texts(dir));
                    assert(dirs_view(roots@) =~= before.push(texts_view(dir@)));
                },
                None => {},
            }
            i += 1;
        }
        assert(all.take(i as int) =~= all);
        if roots.len() == 0 {
            match root {
                Some(dir) => {
                    roots.push(dir);
                    assert(dirs_view(roots@) =~= seq![texts_view(dir@)]);
                },
                None => {},
            }
        }
        let n = roots.len();
        self.configs = ConfigManager::new(roots);
        n
    }

    /// A document was opened: it is stored and linted at once.
    pub fn did_open(&mut self, uri: String, content: String, version: i32) -> (todo: Vec<Action>)
        ensures
            final(self).configs == old(self).configs,
            final(self).debouncer == old(self).debouncer,
            final(self).documents.documents() == old(self).documents.documents().insert(
                uri@,
                DocumentView { uri: uri@, content: content@, version, cached_errors: Seq::empty() },
            ),
            final(self).documents.uris() == if old(self).documents.documents().contains_key(
                uri@,
            ) {
                old(self).documents.uris()
            } else {
                old(self).documents.uris().push(uri@)
            },
            todo_view(todo@) == seq![ActionView::Lint(uri@)],
    {
        let key = uri.clone();
        self.documents.insert(uri, content, version);
        let mut todo: Vec<Action> = Vec::new();
        todo.push(Action::Lint(key));
        assert(todo_view(todo@) =~= seq![ActionView::Lint(uri@)]);
        todo
    }

    /// A document was changed: its new text, if the editor sent one, is
    /// stored, and a timer is started in place of the one that is pending
    /// for the document.
    pub fn did_change(&mut self, uri: &str, version: i32, content: Option<String>) -> (todo: Vec<
        Action,
    >)
        ensures
            final(self).configs == old(self).configs,
            final(self).documents.uris() == old(self).documents.uris(),
            final(self).debouncer.quiet() == old(self).debouncer.quiet(),
            final(self).debouncer.next_token() == if content is Some && old(
                self,
            ).debouncer.next_token() < u64::MAX {
                (old(self).debouncer.next_token() + 1) as u64
            } else {
                old(self).debouncer.next_token()
            },
            match content {
                None => final(self).documents == old(self).documents && final(self).debouncer
                    == old(self).debouncer && todo@.len() == 0,
                Some(text) => {
                    let known = old(self).documents.documents().contains_key(uri@);
                    &&& final(self).documents.documents() == if known {
                        old(self).documents.documents().insert(
                            uri@,
                            DocumentView {
                                content: text@,
                                version,
                                ..old(self).documents.documents()[uri@]
                            },
                        )
                    } else {
                        old(self).documents.documents()
                    }
                    &&& if old(self).debouncer.next_token() < u64::MAX {
                        let token = old(self).debouncer.next_token();
                        &&& final(self).debouncer.pending() == old(self).debouncer.pending().insert(
                            uri@,
                            token,
                        )
                        &&& todo_view(todo@) == stop(
                            pending_for(old(self).debouncer.pending(), uri@),
                        ).push(
                            ActionView::StartTimer {
                                uri: uri@,
                                token,
                                millis: old(self).debouncer.quiet(),
                            },
                        )
                    } else {
                        &&& final(self).debouncer.pending() == old(self).debouncer.pending()
                        &&& todo_view(todo@) == seq![ActionView::Lint(uri@)]
                    }
                },
            },
    {
        let mut todo: Vec<Action> = Vec::new();
        let text = match content {
            Some(text) => text,
            None => { return todo; },
        };
        let _ = self.documents.update(uri, text, version);
        match self.debouncer.schedule(uri) {
            Some(scheduled) => {
                match scheduled.superseded {
                    Some(old_token) => {
                        todo.push(Action::StopTimer(old_token));
                    },
                    None => {},
                }
                let ghost before = todo_view(todo@);
                todo.push(
                    Action::StartTimer {
                        uri: string_of(chars_of(uri).as_slice()),
                        token: scheduled.token,
                        millis: self.debouncer.quiet_interval(),
                    },
                );
                assert(todo_view(todo@) =~= stop(
                    pending_for(old(self).debouncer.pending(), uri@),
                ).push(
                    ActionView::StartTimer {
                        uri: uri@,
                        token: scheduled.token,
                        millis: old(self).debouncer.quiet(),
                    },
                ));
            },
            None => {
                todo.push(Action::Lint(string_of(chars_of(uri).as_slice())));
                assert(todo_view(todo@) =~= seq![ActionView::Lint(uri@)]);
            },
        }
        todo
    }

    /// The quiet interval of a timer is over: the document is linted where
    /// the timer is still the pending one of the document.
    pub fn timer_fired(&mut self, uri: &str, token: u64) -> (todo: Vec<Action>)
        ensures
            final(self).configs == old(self).configs,
            final(self).documents == old(self).documents,
            final(self).debouncer.next_token() == old(self).debouncer.next_token(),
            final(self).debouncer.quiet() == old(self).debouncer.quiet(),
            if fires(old(self).debouncer.pending(), uri@, token) {
                &&& final(self).debouncer.pending() == old(self).debouncer.pending().remove(uri@)
                &&& todo_view(todo@) == seq![ActionView::Lint(uri@)]
            } else {
                &&& final(self).debouncer.pending() == old(self).debouncer.pending()
                &&& todo@.len() == 0
            },
    {
        let mut todo: Vec<Action> = Vec::new();
        if self.debouncer.fire(uri, token) {
            todo.push(Action::Lint(string_of(chars_of(uri).as_slice())));
            assert(todo_view(todo@) =~= seq![ActionView::Lint(uri@)]);
        }
        todo
    }

    /// A document was saved: its pending timer is stopped and the document
    /// is linted at once.
    pub fn did_save(&mut self, uri: &str) -> (todo: Vec<Action>)
        ensures
            final(self).configs == old(self).configs,
            final(self).documents == old(self).documents,
            final(self).debouncer.pending() == old(self).debouncer.pending().remove(uri@),
            final(self).debouncer.next_token() == old(self).debouncer.next_token(),
            final(self).debouncer.quiet() == old(self).debouncer.quiet(),
            todo_view(todo@) == stop(pending_for(old(self).debouncer.pending(), uri@)).push(
                ActionView::Lint(uri@),
            ),
    {
        let mut todo: Vec<Action> = Vec::new();
        match self.debouncer.cancel(uri) {
            Some(token) => {
                todo.push(Action::StopTimer(token));
            },
            None => {},
        }
        todo.push(Action::Lint(string_of(chars_of(uri).as_slice())));
        assert(todo_view(todo@) =~= stop(pending_for(old(self).debouncer.pending(), uri@)).push(
            ActionView::Lint(uri@),
        ));
        todo
    }

    /// A document was closed: it is forgotten, its pending timer is
    /// stopped and its diagnostics are cleared.
    pub fn did_close(&mut self, uri: &str) -> (todo: Vec<Action>)
        ensures
            final(self).configs == old(self).configs,
            final(self).documents.documents() == old(self).documents.documents().remove(uri@),
            final(self).documents.uris() == old(self).documents.uris().filter(
                crate::table::other_than(uri@),
            ),
            final(self).debouncer.pending() == old(self).debouncer.pending().remove(uri@),
            final(self).debouncer.next_token() == old(self).debouncer.next_token(),
            final(self).debouncer.quiet() == old(self).debouncer.quiet(),
            todo_view(todo@) == stop(pending_for(old(self).debouncer.pending(), uri@)).push(
                ActionView::ClearDiagnostics(uri@),
            ),
    {
        let mut todo: Vec<Action> = Vec::new();
        let _ = self.documents.remove(uri);
        match self.debouncer.cancel(uri) {
            Some(token) => {
                todo.push(Action::StopTimer(token));
            },
            None => {},
        }
        todo.push(Action::ClearDiagnostics(string_of(chars_of(uri).as_slice())));
        assert(todo_view(todo@) =~= stop(pending_for(old(self).debouncer.pending(), uri@)).push(
            ActionView::ClearDiagnostics(uri@),
        ));
        todo
    }

    /// A configuration file changed: the cache is emptied and every open
    /// document is linted again.
    pub fn did_change_watched_files(&mut self) -> (todo: Vec<Action>)
        ensures
            final(self).documents == old(self).documents,
            final(self).debouncer == old(self).debouncer,
            final(self).configs.roots() == old(self).configs.roots(),
            final(self).configs.cached() == no_entries(),
            todo_view(todo@) == Seq::new(
                old(self).documents.uris().len(),
                |i: int| ActionView::Lint(old(self).documents.uris()[i]),
            ),
    {
        self.configs.clear_cache();
        let uris = self.documents.all_uris();
        let mut todo: Vec<Action> = Vec::new();
        let mut i: usize = 0;
        while i < uris.len()
            invariant
                i <= uris@.len(),
                todo@.len() == i,
                forall|k: int| 0 <= k < i ==> todo@[k]@ == ActionView::Lint(uris@[k]@),
            decreases uris.len() - i,
        {
            todo.push(Action::Lint(uris[i].clone()));
            i += 1;
        }
        assert(todo_view(todo@) =~= Seq::new(
            old(self).documents.uris().len(),
            |i: int| ActionView::Lint(old(self).documents.uris()[i]),
        ));
        todo
    }

    /// Lints an open document under the configuration discovered for it,
    /// keeps the issues with the document and returns the diagnostics to
    /// publish. Nothing happens where the document is not open.
    pub fn lint(&mut self, uri: &str, file_name: &str, config: &Option<Config>) -> (r: Option<
        Vec<Diagnostic>,
    >)
        ensures
            final(self).configs == old(self).configs,
            final(self).debouncer == old(self).debouncer,
            final(self).documents.uris() == old(self).documents.uris(),
            match r {
                None => !old(self).documents.documents().contains_key(uri@) && final(self).documents.documents() == old(self).documents.documents(),
                Some(diagnostics) => {
                    let document = old(self).documents.documents()[uri@];
                    let issues = lint_result(document.content, config_view(*config));
                    &&& old(self).documents.documents().contains_key(uri@)
                    &&& final(self).documents.documents() == old(self).documents.documents().insert(
                        uri@,
                        DocumentView { cached_errors: issues, ..document },
                    )
                    &&& diagnostics_view(diagnostics@) == Seq::new(
                        issues.len(),
                        |i: int| diagnostic_of(issues[i], lines_of(document.content)),
                    )
                },
            },
    {
        let document = match self.documents.get(uri) {
            Some(d) => d,
            None => { return None; },
        };
        let errors = lint_document(file_name, document.content.as_str(), config);
        let lines = content_lines(document.content.as_str());
        let diagnostics = diagnostics_for(&errors, &lines);
        let ghost issues = issues_view(errors@);
        assert(diagnostics_view(diagnostics@) =~= Seq::new(
            issues.len(),
            |i: int| diagnostic_of(issues[i], lines_of(document@.content)),
        ));
        let _ = self.documents.update_errors(uri, errors);
        Some(diagnostics)
    }

    /// The hover text for a line of an open document.
    pub fn hover(&self, uri: &str, line: u32) -> (r: Option<String>)
        ensures
            crate::types::text_view(r) == if self.documents.documents().contains_key(uri@) {
                hover_text(self.documents.documents()[uri@].cached_errors, line)
            } else {
                None
            },
    {
        match self.documents.get(uri) {
            Some(document) => hover_for(&document.cached_errors, line),
            None => None,
        }
    }

    /// The actions offered for the lines from `first` to `last` of an open
    /// document.
    pub fn code_action(&self, uri: &str, first: u32, last: u32) -> (r: Option<Vec<CodeAction>>)
        ensures
            match r {
                Some(actions) => self.documents.documents().contains_key(uri@) && offered_actions(
                    self.documents.documents()[uri@],
                    first,
                    last,
                ) == Some(actions_view(actions@)),
                None => !self.documents.documents().contains_key(uri@) || offered_actions(
                    self.documents.documents()[uri@],
                    first,
                    last,
                ) is None,
            },
    {
        match self.documents.get(uri) {
            Some(document) => actions_for(&document, first, last),
            None => None,
        }
    }

    /// Computes the rewrite of an open document that applies its fixes. The
    /// state is not changed: the rewrite is a proposal to the editor.
    pub fn propose_fix_all(&self, uri: &str) -> (r: Option<FixProposal>)
        ensures
            match r {
                Some(proposal) => {
                    let document = self.documents.documents()[uri@];
                    &&& self.documents.documents().contains_key(uri@)
                    &&& proposal.uri@ == uri@
                    &&& proposal.content@ == fixed(document.content, document.cached_errors)
                    &&& proposal.version == document.version
                },
                None => !self.documents.documents().contains_key(uri@),
            },
    {
        match self.documents.get(uri) {
            Some(document) => {
                let content = apply_fixes(
                    document.content.as_str(),
                    document.cached_errors.as_slice(),
                );
                Some(
                    FixProposal {
                        uri: string_of(chars_of(uri).as_slice()),
                        content,
                        version: document.version,
                    },
                )
            },
            None => None,
        }
    }

    /// Concludes a proposal once the editor has answered. Where the editor
    /// applied the rewrite, the document takes the new text and the next
    /// version, and is linted again. Where it did not, nothing changes.
    pub fn conclude_fix_all(&mut self, proposal: FixProposal, applied: bool) -> (todo: Vec<Action>)
        ensures
            final(self).configs == old(self).configs,
            final(self).debouncer == old(self).debouncer,
            final(self).documents.uris() == old(self).documents.uris(),
            if applied {
                let known = old(self).documents.documents().contains_key(proposal.uri@);
                &&& final(self).documents.documents() == if known {
                    old(self).documents.documents().insert(
                        proposal.uri@,
                        DocumentView {
                            content: proposal.content@,
                            version: next_version(proposal.version),
                            ..old(self).documents.documents()[proposal.uri@]
                        },
                    )
                } else {
                    old(self).documents.documents()
                }
                &&& todo_view(todo@) == seq![ActionView::Lint(proposal.uri@)]
            } else {
                &&& final(self).documents == old(self).documents
                &&& todo@.len() == 0
            },
    {
        let mut todo: Vec<Action> = Vec::new();
        if applied {
            let version = if proposal.version < i32::MAX {
                proposal.version + 1
            } else {
                proposal.version
            };
            let _ = self.documents.update(proposal.uri.as_str(), proposal.content, version);
            todo.push(Action::Lint(proposal.uri));
            assert(todo_view(todo@) =~= seq![ActionView::Lint(proposal.uri@)]);
        }
        todo
    }
}

} // verus!
