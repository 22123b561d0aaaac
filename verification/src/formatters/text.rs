//! The report as text, one line for each issue and a summary, with colours
//! from the `colored` crate.
//!
//! Whether `colored` paints at all depends on the terminal and on the
//! environment, so nothing here says what a painted piece looks like: only
//! that, where the piece holds no escape character, the painted piece
//! holds it unchanged between what the crate adds.

use crate::results::{FileIssuesView, LintResults, count_all, files_with_issues, in_file_order};
use crate::rules::md046::clamp_usize;
use crate::text::{append, append_str, chars_of, decimal, decimal_of, join, joined, string_of};
use crate::types::{LintError, LintErrorView, Severity, texts_view};
use colored::Colorize;
use vstd::prelude::*;

verus! {

/// Whether `painted` is `text` with something before it and behind it.
pub open spec fn encloses(painted: Seq<char>, text: Seq<char>) -> bool {
    exists|before: Seq<char>, behind: Seq<char>| painted == before + text + behind
}

/// Whether `painted` may be what painting `text` gives.
pub open spec fn may_paint(painted: Seq<char>, text: Seq<char>) -> bool {
    !text.contains('\u{1b}') ==> encloses(painted, text)
}

/// `Colorize::red` and `to_string`: the text in red, or the text as it is
/// where colours are off.
#[verifier::external_body]
fn paint_red(text: &str) -> (r: String)
    ensures
        may_paint(r@, text@),
{
    text.red().to_string()
}

/// `Colorize::yellow` and `to_string`: the text in yellow, or the text as
/// it is where colours are off.
#[verifier::external_body]
fn paint_yellow(text: &str) -> (r: String)
    ensures
        may_paint(r@, text@),
{
    text.yellow().to_string()
}

/// `Colorize::cyan` and `to_string`: the text in cyan, or the text as it
/// is where colours are off.
#[verifier::external_body]
fn paint_cyan(text: &str) -> (r: String)
    ensures
        may_paint(r@, text@),
{
    text.cyan().to_string()
}

/// `Colorize::dimmed` and `to_string`: the text dimmed, or the text as it
/// is where colours are off.
#[verifier::external_body]
fn paint_dimmed(text: &str) -> (r: String)
    ensures
        may_paint(r@, text@),
{
    text.dimmed().to_string()
}

/// `Colorize::bold` and `to_string`: the text in bold, or the text as it
/// is where colours are off.
#[verifier::external_body]
fn paint_bold(text: &str) -> (r: String)
    ensures
        may_paint(r@, text@),
{
    text.bold().to_string()
}

/// The names of a rule as one word.
pub open spec fn moniker(names: Seq<Seq<char>>) -> Seq<char> {
    joined(names, "/"@)
}

/// A detail as it is shown.
pub open spec fn detail_note(detail: Seq<char>) -> Seq<char> {
    "["@ + detail + "]"@
}

/// A context as it is shown.
pub open spec fn context_note(context: Seq<char>) -> Seq<char> {
    "[Context: \""@ + context + "\"]"@
}

/// `note` behind a space, or nothing.
pub open spec fn trailing_note(note: Option<Seq<char>>) -> Seq<char> {
    match note {
        Some(n) => " "@ + n,
        None => Seq::empty(),
    }
}

/// What an issue says: its rule, the rule's description, and its detail
/// and context where it has them.
pub open spec fn issue_text(issue: LintErrorView) -> Seq<char> {
    moniker(issue.rule_names) + " "@ + issue.rule_description + trailing_note(
        match issue.error_detail {
            Some(d) => Some(detail_note(d)),
            None => None,
        },
    ) + trailing_note(
        match issue.error_context {
            Some(c) => Some(context_note(c)),
            None => None,
        },
    )
}

/// The pieces of a report line.
pub struct LinePieces {
    pub file: Seq<char>,
    pub line: Seq<char>,
    pub rule: Seq<char>,
    pub description: Seq<char>,
    pub detail: Option<Seq<char>>,
    pub context: Option<Seq<char>>,
}

/// The report line made of the pieces.
pub open spec fn line_of(pieces: LinePieces) -> Seq<char> {
    pieces.file + ": "@ + pieces.line + ": "@ + pieces.rule + " "@ + pieces.description
        + trailing_note(pieces.detail) + trailing_note(pieces.context)
}

/// The pieces of the line of an issue, unpainted.
pub open spec fn plain_pieces(file: Seq<char>, issue: LintErrorView) -> LinePieces {
    LinePieces {
        file,
        line: decimal(issue.line_number as nat),
        rule: moniker(issue.rule_names),
        description: issue.rule_description,
        detail: match issue.error_detail {
            Some(d) => Some(detail_note(d)),
            None => None,
        },
        context: match issue.error_context {
            Some(c) => Some(context_note(c)),
            None => None,
        },
    }
}

/// Whether a note may be what painting `plain` gives.
pub open spec fn may_paint_note(painted: Option<Seq<char>>, plain: Option<Seq<char>>) -> bool {
    match (painted, plain) {
        (Some(p), Some(q)) => may_paint(p, q),
        (None, None) => true,
        _ => false,
    }
}

/// Whether `line` is the line of an issue with its pieces painted. The
/// description is never painted.
pub open spec fn is_painted_line(line: Seq<char>, file: Seq<char>, issue: LintErrorView) -> bool {
    exists|painted: LinePieces|
        {
            let plain = plain_pieces(file, issue);
            &&& line == #[trigger] line_of(painted)
            &&& may_paint(painted.file, plain.file)
            &&& may_paint(painted.line, plain.line)
            &&& may_paint(painted.rule, plain.rule)
            &&& painted.description == plain.description
            &&& may_paint_note(painted.detail, plain.detail)
            &&& may_paint_note(painted.context, plain.context)
        }
}

/// An unpainted line is a file, a line number and what the issue says.
pub proof fn lemma_plain_line(file: Seq<char>, issue: LintErrorView)
    ensures
        line_of(plain_pieces(file, issue)) == file + ": "@ + decimal(issue.line_number as nat)
            + ": "@ + issue_text(issue),
        is_painted_line(line_of(plain_pieces(file, issue)), file, issue),
{
    let plain = plain_pieces(file, issue);
    assert(line_of(plain) =~= file + ": "@ + decimal(issue.line_number as nat) + ": "@
        + issue_text(issue));
    assert forall|t: Seq<char>| encloses(t, t) by {
        assert(t =~= Seq::<char>::empty() + t + Seq::<char>::empty());
    }
    assert(line_of(plain) == line_of(plain));
}

/// The summary of a report.
pub open spec fn summary_text(errors: nat, warnings: nat, files: nat) -> Seq<char> {
    decimal(errors) + " error(s), "@ + decimal(warnings) + " warning(s) in "@ + decimal(files)
        + " file(s)"@
}

/// An issue with the file it is in.
pub struct Located {
    pub file: Seq<char>,
    pub issue: LintErrorView,
}

/// The issues of a file with the file.
pub open spec fn located(entry: FileIssuesView) -> Seq<Located> {
    Seq::new(entry.errors.len(), |k: int| Located { file: entry.file, issue: entry.errors[k] })
}

/// The issues of all files, in the order of the files.
pub open spec fn all_located(entries: Seq<FileIssuesView>) -> Seq<Located>
    decreases entries.len(),
{
    if entries.len() == 0 {
        Seq::empty()
    } else {
        all_located(entries.drop_last()) + located(entries.last())
    }
}

/// Whether `lines` are the lines of a report on `entries`: one painted
/// line for each issue, in order, and, where there are issues, an empty
/// line and the painted summary.
pub open spec fn is_report(entries: Seq<FileIssuesView>, lines: Seq<Seq<char>>) -> bool {
    let issues = all_located(entries);
    let errors = clamp_usize(count_all(entries, Severity::Error));
    let warnings = clamp_usize(count_all(entries, Severity::Warning));
    &&& forall|k: int|
        0 <= k < issues.len() && k < lines.len() ==> is_painted_line(
            #[trigger] lines[k],
            issues[k].file,
            issues[k].issue,
        )
    &&& if errors > 0 || warnings > 0 {
        &&& lines.len() == issues.len() + 2
        &&& lines[issues.len() as int].len() == 0
        &&& may_paint(
            lines[issues.len() as int + 1],
            summary_text(errors as nat, warnings as nat, files_with_issues(entries).len()),
        )
    } else {
        lines.len() == issues.len()
    }
}

/// The report line made of pieces that are painted already.
pub fn issue_line(
    file: &str,
    line: &str,
    rule: &str,
    description: &str,
    detail: Option<&str>,
    context: Option<&str>,
) -> (r: Vec<char>)
    ensures
        r@ == line_of(
            LinePieces {
                file: file@,
                line: line@,
                rule: rule@,
                description: description@,
                detail: match detail {
                    Some(d) => Some(d@),
                    None => None,
                },
                context: match context {
                    Some(c) => Some(c@),
                    None => None,
                },
            },
        ),
{
    let mut r: Vec<char> = Vec::new();
    append_str(&mut r, file);
    append_str(&mut r, ": ");
    append_str(&mut r, line);
    append_str(&mut r, ": ");
    append_str(&mut r, rule);
    append_str(&mut r, " ");
    append_str(&mut r, description);
    match detail {
        Some(d) => {
            append_str(&mut r, " ");
            append_str(&mut r, d);
        },
        None => {},
    }
    match context {
        Some(c) => {
            append_str(&mut r, " ");
            append_str(&mut r, c);
        },
        None => {},
    }
    assert(r@ =~= line_of(
        LinePieces {
            file: file@,
            line: line@,
            rule: rule@,
            description: description@,
            detail: match detail {
                Some(d) => Some(d@),
                None => None,
            },
            context: match context {
                Some(c) => Some(c@),
                None => None,
            },
        },
    ));
    r
}

/// The names of a rule as one word.
pub fn rule_moniker(names: &Vec<String>) -> (r: Vec<char>)
    ensures
        r@ == moniker(texts_view(names@)),
{
    let parts = crate::rules::line_chars(names);
    let slash = chars_of("/");
    let r = join(&parts, slash.as_slice());
    assert(Seq::new(parts@.len(), |i: int| parts@[i]@) =~= texts_view(names@));
    r
}

/// What an issue says.
pub fn issue_message(issue: &LintError) -> (r: String)
    ensures
        r@ == issue_text(issue@),
{
    let mut r = rule_moniker(&issue.rule_names);
    append_str(&mut r, " ");
    append_str(&mut r, issue.rule_description.as_str());
    match &issue.error_detail {
        Some(d) => {
            append_str(&mut r, " [");
            append_str(&mut r, d.as_str());
            append_str(&mut r, "]");
        },
        None => {},
    }
    match &issue.error_context {
        Some(c) => {
            append_str(&mut r, " [Context: \"");
            append_str(&mut r, c.as_str());
            append_str(&mut r, "\"]");
        },
        None => {},
    }
    proof {
        reveal_strlit(" ");
        reveal_strlit("[");
        reveal_strlit(" [");
        reveal_strlit("[Context: \"");
        reveal_strlit(" [Context: \"");
    }
    assert(" ["@ =~= " "@ + "["@);
    assert(" [Context: \""@ =~= " "@ + "[Context: \""@);
    assert(r@ =~= issue_text(issue@));
    string_of(r.as_slice())
}

/// A string slice of an optional string.
fn as_text(o: &Option<String>) -> (r: Option<&str>)
    ensures
        match r {
            Some(s) => *o matches Some(t) && t@ == s@,
            None => *o is None,
        },
{
    match o {
        Some(s) => Some(s.as_str()),
        None => None,
    }
}

/// A note in brackets, painted.
fn painted_note(open: &str, note: &Option<String>, close: &str) -> (r: Option<String>)
    ensures
        may_paint_note(
            crate::types::text_view(r),
            match *note {
                Some(n) => Some(open@ + n@ + close@),
                None => None,
            },
        ),
{
    match note {
        Some(n) => {
            let mut text: Vec<char> = Vec::new();
            append_str(&mut text, open);
            append_str(&mut text, n.as_str());
            append_str(&mut text, close);
            Some(paint_dimmed(string_of(text.as_slice()).as_str()))
        },
        None => None,
    }
}

/// The painted line of an issue of a file.
fn painted_line(file: &str, error: &LintError) -> (r: Vec<char>)
    ensures
        is_painted_line(r@, file@, error@),
{
    let rule_moniker = string_of(rule_moniker(&error.rule_names).as_slice());
    let colored_rule = match error.severity {
        Severity::Error => paint_red(rule_moniker.as_str()),
        Severity::Warning => paint_yellow(rule_moniker.as_str()),
    };
    let colored_file = paint_cyan(file);
    let colored_line = paint_yellow(string_of(decimal_of(error.line_number).as_slice()).as_str());
    let detail = painted_note("[", &error.error_detail, "]");
    let context = painted_note("[Context: \"", &error.error_context, "\"]");
    let r = issue_line(
        colored_file.as_str(),
        colored_line.as_str(),
        colored_rule.as_str(),
        error.rule_description.as_str(),
        as_text(&detail),
        as_text(&context),
    );
    proof {
        let painted = LinePieces {
            file: colored_file@,
            line: colored_line@,
            rule: colored_rule@,
            description: error.rule_description@,
            detail: crate::types::text_view(detail),
            context: crate::types::text_view(context),
        };
        assert(r@ == line_of(painted));
    }
    r
}

/// The views of the lines.
pub open spec fn rows(v: Seq<Vec<char>>) -> Seq<Seq<char>> {
    Seq::new(v.len(), |i: int| v[i]@)
}

/// The issues of the first files go before those of the next.
proof fn lemma_all_located_step(entries: Seq<FileIssuesView>, f: int)
    requires
        0 <= f < entries.len(),
    ensures
        all_located(entries.take(f + 1)) == all_located(entries.take(f)) + located(entries[f]),
{
    assert(entries.take(f + 1).drop_last() =~= entries.take(f));
}

/// Formats the results as a report: for each file, in the order of the
/// file names, and each of its issues a line that gives the file, the line
/// number, the rule, the rule's description and, in brackets, the detail
/// and the context; then, where there are issues, an empty line and a
/// summary of their numbers. The lines are joined by newlines.
pub fn format_text(results: &LintResults) -> (r: String)
    ensures
        in_file_order(results.entries()),
        exists|lines: Seq<Seq<char>>|
            is_report(results.entries(), lines) && r@ == #[trigger] joined(lines, "\n"@),
{
    let ghost entries = results.entries();
    let _ = results.len();
    let mut output: Vec<Vec<char>> = Vec::new();
    let mut f: usize = 0;
    assert(entries.take(0) =~= Seq::<FileIssuesView>::empty());
    while f < results.len()
        invariant
            f <= results.entries().len(),
            entries == results.entries(),
            output@.len() == all_located(entries.take(f as int)).len(),
            forall|k: int|
                0 <= k < output@.len() ==> is_painted_line(
                    #[trigger] output@[k]@,
                    all_located(entries.take(f as int))[k].file,
                    all_located(entries.take(f as int))[k].issue,
                ),
        decreases results.entries().len() - f,
    {
        let entry = results.entry(f);
        let ghost done = all_located(entries.take(f as int));
        let ghost these = located(entry@);
        proof {
            lemma_all_located_step(entries, f as int);
        }
        let mut e: usize = 0;
        while e < entry.errors.len()
            invariant
                e <= entry.errors@.len(),
                these == located(entry@),
                these.len() == entry.errors@.len(),
                output@.len() == done.len() + e,
                forall|k: int|
                    0 <= k < output@.len() ==> is_painted_line(
                        #[trigger] output@[k]@,
                        (done + these)[k].file,
                        (done + these)[k].issue,
                    ),
            decreases entry.errors.len() - e,
        {
            let line = painted_line(entry.file.as_str(), &entry.errors[e]);
            assert((done + these)[done.len() + e] == these[e as int]);
            output.push(line);
            e += 1;
        }
        f += 1;
    }
    assert(entries.take(f as int) =~= entries);
    let ghost issues = all_located(entries);
    let error_count = results.error_count();
    let warning_count = results.warning_count();
    let file_count = results.files_with_errors().len();
    if error_count > 0 || warning_count > 0 {
        output.push(Vec::new());
        let mut summary = decimal_of(error_count);
        append_str(&mut summary, " error(s), ");
        append(&mut summary, decimal_of(warning_count).as_slice());
        append_str(&mut summary, " warning(s) in ");
        append(&mut summary, decimal_of(file_count).as_slice());
        append_str(&mut summary, " file(s)");
        assert(summary@ =~= summary_text(
            error_count as nat,
            warning_count as nat,
            files_with_issues(entries).len(),
        ));
        output.push(chars_of(paint_bold(string_of(summary.as_slice()).as_str()).as_str()));
    }
    let newline = chars_of("\n");
    let text = join(&output, newline.as_slice());
    proof {
        let lines = rows(output@);
        assert(lines =~= Seq::new(output@.len(), |i: int| output@[i]@));
        assert forall|k: int| 0 <= k < issues.len() && k < lines.len() implies is_painted_line(
            #[trigger] lines[k],
            issues[k].file,
            issues[k].issue,
        ) by {
            assert(lines[k] == output@[k]@);
        }
        assert(is_report(entries, lines));
        assert(text@ == joined(lines, "\n"@));
    }
    string_of(text.as_slice())
}

} // verus!
