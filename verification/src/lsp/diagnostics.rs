//! Issues as the editor shows them.
//!
//! Rules count lines and columns from 1, in characters. The editor counts
//! from 0, and columns in UTF-16 code units: a character beyond the basic
//! plane counts for two.

use crate::formatters::text::{issue_message, issue_text};
use crate::lsp::code_actions::primary_name;
use crate::lsp::protocol::{Diagnostic, DiagnosticView, Position, Range};
use crate::lsp::utils::{clamp_u32, to_u32, zero_based};
use crate::text::{chars_of, string_of};
use crate::types::{LintError, LintErrorView, texts_view};
use vstd::prelude::*;

verus! {

/// The number of UTF-16 code units that a character takes.
pub open spec fn utf16_len(c: char) -> nat {
    if (c as u32) >= 0x10000 {
        2
    } else {
        1
    }
}

/// The number of UTF-16 code units that a text takes.
pub open spec fn utf16_width(s: Seq<char>) -> nat
    decreases s.len(),
{
    if s.len() == 0 {
        0
    } else {
        utf16_width(s.drop_last()) + utf16_len(s.last())
    }
}

/// The editor's column for the 1-based column `column` of `line`: the
/// number of code units of the characters before it. A column beyond the
/// end of the line is the end of the line.
pub open spec fn utf16_column(line: Seq<char>, column: int) -> nat {
    let before = zero_based(column);
    if before <= line.len() {
        utf16_width(line.take(before))
    } else {
        utf16_width(line)
    }
}

/// The line of an issue among the lines of its document; an empty line
/// where the document has no such line.
pub open spec fn issue_line(issue: LintErrorView, lines: Seq<Seq<char>>) -> Seq<char> {
    let idx = zero_based(issue.line_number as int);
    if idx < lines.len() {
        lines[idx]
    } else {
        Seq::empty()
    }
}

/// The range of an issue: from its start column to its end column where
/// it has them, else its whole line.
pub open spec fn diagnostic_range(issue: LintErrorView, lines: Seq<Seq<char>>) -> Range {
    let line = clamp_u32(zero_based(issue.line_number as int));
    let text = issue_line(issue, lines);
    match issue.error_range {
        Some((start, end)) => Range {
            start: Position { line, character: clamp_u32(utf16_column(text, start as int) as int) },
            end: Position { line, character: clamp_u32(utf16_column(text, end as int) as int) },
        },
        None => Range {
            start: Position { line, character: 0 },
            end: Position { line, character: clamp_u32(utf16_width(text) as int) },
        },
    }
}

/// The diagnostic of an issue.
pub open spec fn diagnostic_of(issue: LintErrorView, lines: Seq<Seq<char>>) -> DiagnosticView {
    DiagnosticView {
        range: diagnostic_range(issue, lines),
        severity: issue.severity,
        code: primary_name(issue),
        source: "mkdlint"@,
        message: issue_text(issue),
    }
}

/// The number of UTF-16 code units of the first `n` characters of `s`, or
/// the largest number where there are more.
pub fn units_before(s: &[char], n: usize) -> (r: usize)
    requires
        n <= s.len(),
    ensures
        r == if utf16_width(s@.take(n as int)) <= usize::MAX {
            utf16_width(s@.take(n as int)) as usize
        } else {
            usize::MAX
        },
{
    let mut units: usize = 0;
    let mut i: usize = 0;
    assert(s@.take(0) =~= Seq::<char>::empty());
    while i < n
        invariant
            i <= n <= s.len(),
            units == if utf16_width(s@.take(i as int)) <= usize::MAX {
                utf16_width(s@.take(i as int)) as usize
            } else {
                usize::MAX
            },
        decreases n - i,
    {
        assert(s@.take(i + 1).drop_last() =~= s@.take(i as int));
        let k: usize = if s[i] as u32 >= 0x10000 { 2 } else { 1 };
        units = units.saturating_add(k);
        i += 1;
    }
    units
}

/// The editor's column for a 1-based column of a line.
pub fn column_of(line: &[char], column: usize) -> (r: u32)
    ensures
        r == clamp_u32(utf16_column(line@, column as int) as int),
{
    let before: usize = if column > 0 { column - 1 } else { 0 };
    assert(line@.take(line@.len() as int) =~= line@);
    if before <= line.len() {
        to_u32(units_before(line, before))
    } else {
        to_u32(units_before(line, line.len()))
    }
}

/// Converts an issue to the diagnostic that the editor shows for it.
pub fn lint_error_to_diagnostic(error: &LintError, lines: &Vec<String>) -> (r: Diagnostic)
    ensures
        r@ == diagnostic_of(error@, texts_view(lines@)),
{
    let idx: usize = if error.line_number > 0 { error.line_number - 1 } else { 0 };
    let line = to_u32(idx);
    let text = if idx < lines.len() { chars_of(lines[idx].as_str()) } else { Vec::new() };
    assert(text@ == issue_line(error@, texts_view(lines@)));
    assert(text@.take(text@.len() as int) =~= text@);
    let range = match error.error_range {
        Some((start, end)) => Range {
            start: Position { line, character: column_of(text.as_slice(), start) },
            end: Position { line, character: column_of(text.as_slice(), end) },
        },
        None => Range {
            start: Position { line, character: 0 },
            end: Position { line, character: to_u32(units_before(text.as_slice(), text.len())) },
        },
    };
    let code = if error.rule_names.len() > 0 {
        error.rule_names[0].clone()
    } else {
        string_of(chars_of("unknown").as_slice())
    };
    Diagnostic {
        range,
        severity: error.severity,
        code,
        source: string_of(chars_of("mkdlint").as_slice()),
        message: issue_message(error),
    }
}

/// The views of the diagnostics.
pub open spec fn diagnostics_view(v: Seq<Diagnostic>) -> Seq<DiagnosticView> {
    Seq::new(v.len(), |i: int| v[i]@)
}

/// The diagnostics of the issues of a document, in the order of the
/// issues.
pub fn diagnostics_for(errors: &Vec<LintError>, lines: &Vec<String>) -> (r: Vec<Diagnostic>)
    ensures
        diagnostics_view(r@) == Seq::new(
            errors@.len(),
            |i: int| diagnostic_of(errors@[i]@, texts_view(lines@)),
        ),
{
    let mut r: Vec<Diagnostic> = Vec::new();
    let mut i: usize = 0;
    while i < errors.len()
        invariant
            i <= errors.len(),
            r.len() == i,
            forall|k: int| 0 <= k < i ==> r@[k]@ == diagnostic_of(errors@[k]@, texts_view(lines@)),
        decreases errors.len() - i,
    {
        r.push(lint_error_to_diagnostic(&errors[i], lines));
        i += 1;
    }
    assert(diagnostics_view(r@) =~= Seq::new(
        errors@.len(),
        |i: int| diagnostic_of(errors@[i]@, texts_view(lines@)),
    ));
    r
}

} // verus!
