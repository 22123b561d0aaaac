//! Lint rules and what they have in common.

pub mod footnotes;
pub mod kmd001;
pub mod kmd002;
pub mod kmd003;
pub mod kmd004;
pub mod kmd005;
pub mod md046;

use crate::helpers::rows_view;
use crate::text::{chars_of, content_len, occurs_at, slice_of, starts_with, without_terminator};
use crate::types::{LintError, LintErrorView, Severity, texts_view};
use vstd::prelude::*;

verus! {

/// What a rule reads of a document besides its lines.
#[derive(Clone, Copy, Debug, PartialEq, Eq, Structural)]
pub enum ParserType {
    /// The rule reads the lines only.
    NoParser,
    /// The rule reads the token stream of a Markdown parser.
    Tokens,
}

/// What a rule is given to lint.
#[derive(Debug, PartialEq, Eq)]
pub struct RuleParams {
    /// The name of the document.
    pub name: String,
    /// The version of the linter.
    pub version: String,
    /// The lines of the document, each with its terminator.
    pub lines: Vec<String>,
    /// The lines of the document's front matter.
    pub front_matter_lines: Vec<String>,
    /// The options set for the rule: names and values.
    pub config: Vec<(String, String)>,
}

/// A unit of the linter: it names itself and reports the issues of a
/// document.
pub trait Rule {
    /// The rule's names: its stable identifier first, then its alias.
    fn names(&self) -> Vec<String>;

    /// What the rule asks for, in a sentence.
    fn description(&self) -> String;

    /// The groups that the rule belongs to.
    fn tags(&self) -> Vec<String>;

    /// What the rule reads besides the lines.
    fn parser_type(&self) -> ParserType;

    /// Whether the rule runs where the configuration does not name it.
    fn is_enabled_by_default(&self) -> bool;

    /// Where the rule is documented.
    fn information(&self) -> Option<String>;

    /// The issues of a document, in the order of its lines.
    fn lint(&self, params: &RuleParams) -> Vec<LintError>;
}

/// Whether a line without its terminator opens or closes a fenced code
/// block.
pub open spec fn is_fence(trimmed: Seq<char>) -> bool {
    occurs_at(trimmed, "```"@, 0) || occurs_at(trimmed, "~~~"@, 0)
}

/// Whether a fenced code block is open behind the first `n` lines.
pub open spec fn in_code_after(lines: Seq<Seq<char>>, n: int) -> bool
    decreases n,
{
    if n <= 0 || n > lines.len() {
        false
    } else if is_fence(without_terminator(lines[n - 1])) {
        !in_code_after(lines, n - 1)
    } else {
        in_code_after(lines, n - 1)
    }
}

/// Whether line `i` is text outside fenced code: it is no fence and no
/// fenced block is open before it.
pub open spec fn is_prose(lines: Seq<Seq<char>>, i: int) -> bool {
    0 <= i < lines.len() && !is_fence(without_terminator(lines[i])) && !in_code_after(lines, i)
}

/// Whether a fenced code block is open behind the first `n` lines, of
/// which `fences` tells whether each is a fence.
pub open spec fn open_after(fences: Seq<bool>, n: int) -> bool
    decreases n,
{
    if n <= 0 || n > fences.len() {
        false
    } else if fences[n - 1] {
        !open_after(fences, n - 1)
    } else {
        open_after(fences, n - 1)
    }
}

/// Whether line `i` is text outside fenced code.
pub open spec fn unfenced(fences: Seq<bool>, i: int) -> bool {
    0 <= i < fences.len() && !fences[i] && !open_after(fences, i)
}

/// The numbers below `n` for which `wanted` holds, in increasing order.
pub open spec fn selected(n: int, wanted: spec_fn(int) -> bool) -> Seq<int>
    decreases n,
{
    if n <= 0 {
        Seq::empty()
    } else if wanted(n - 1) {
        selected(n - 1, wanted).push(n - 1)
    } else {
        selected(n - 1, wanted)
    }
}

/// The selected numbers are below `n`, hold `wanted`, and increase.
pub proof fn lemma_selected(n: int, wanted: spec_fn(int) -> bool)
    ensures
        forall|k: int|
            0 <= k < selected(n, wanted).len() ==> 0 <= #[trigger] selected(n, wanted)[k] < n
                && wanted(selected(n, wanted)[k]),
        forall|k: int, m: int|
            0 <= k < m < selected(n, wanted).len() ==> selected(n, wanted)[k] < selected(
                n,
                wanted,
            )[m],
        forall|i: int| 0 <= i < n && wanted(i) ==> selected(n, wanted).contains(i),
    decreases n,
{
    if n > 0 {
        lemma_selected(n - 1, wanted);
        let before = selected(n - 1, wanted);
        let now = selected(n, wanted);
        assert forall|i: int| 0 <= i < n && wanted(i) implies now.contains(i) by {
            if i < n - 1 {
                assert(before.contains(i));
                let k = choose|k: int| 0 <= k < before.len() && before[k] == i;
                assert(now[k] == i);
            } else {
                assert(now[now.len() - 1] == i);
            }
        }
    }
}

/// An issue of severity `Error` that carries a detail and nothing else.
pub open spec fn plain_issue(
    names: Seq<Seq<char>>,
    description: Seq<char>,
    line_number: int,
    detail: Seq<char>,
) -> LintErrorView {
    LintErrorView {
        line_number: line_number as usize,
        rule_names: names,
        rule_description: description,
        error_detail: Some(detail),
        error_context: None,
        rule_information: None,
        error_range: None,
        fix_info: None,
        suggestion: None,
        severity: Severity::Error,
        fix_only: false,
    }
}

/// Builds an issue of severity `Error` that carries a detail and nothing
/// else.
pub fn make_issue(names: Vec<String>, description: String, line_number: usize, detail: String) -> (r:
    LintError)
    ensures
        r@ == plain_issue(texts_view(names@), description@, line_number as int, detail@),
{
    LintError {
        line_number,
        rule_names: names,
        rule_description: description,
        error_detail: Some(detail),
        error_context: None,
        rule_information: None,
        error_range: None,
        fix_info: None,
        suggestion: None,
        severity: Severity::Error,
        fix_only: false,
    }
}

/// The lines of a document as character sequences.
pub fn line_chars(lines: &Vec<String>) -> (r: Vec<Vec<char>>)
    ensures
        rows_view(r@) == texts_view(lines@),
{
    let mut r: Vec<Vec<char>> = Vec::new();
    let mut i: usize = 0;
    while i < lines.len()
        invariant
            i <= lines.len(),
            r.len() == i,
            forall|k: int| 0 <= k < i ==> r@[k]@ == lines@[k]@,
        decreases lines.len() - i,
    {
        r.push(chars_of(lines[i].as_str()));
        i += 1;
    }
    assert(rows_view(r@) =~= texts_view(lines@));
    r
}

/// A line without its terminator.
pub fn strip_terminator(line: &[char]) -> (r: Vec<char>)
    ensures
        r@ == without_terminator(line@),
{
    let n = content_len(line);
    let r = slice_of(line, 0, n);
    assert(r@ =~= line@.take(n as int));
    r
}

/// Whether a line without its terminator opens or closes a fenced code
/// block.
pub fn fence_line(trimmed: &[char]) -> (r: bool)
    ensures
        r == is_fence(trimmed@),
{
    let ticks = chars_of("```");
    let tildes = chars_of("~~~");
    starts_with(trimmed, ticks.as_slice()) || starts_with(trimmed, tildes.as_slice())
}

/// A list of strings from string literals.
pub fn strings(items: Vec<&'static str>) -> (r: Vec<String>)
    ensures
        r@.len() == items@.len(),
        forall|k: int| 0 <= k < r@.len() ==> r@[k]@ == items@[k]@,
{
    let mut r: Vec<String> = Vec::new();
    let mut i: usize = 0;
    while i < items.len()
        invariant
            i <= items.len(),
            r.len() == i,
            forall|k: int| 0 <= k < i ==> r@[k]@ == items@[k]@,
        decreases items.len() - i,
    {
        r.push(crate::text::string_of(chars_of(items[i]).as_slice()));
        i += 1;
    }
    r
}

} // verus!
