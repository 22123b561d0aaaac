//! KMD001: the terms of a definition list must have definitions.
//!
//! A definition list is a term on a line of its own, followed by a line
//! that begins with a colon and a space. The rule reports a line that
//! looks like a term and is followed by no such line, in a document that
//! holds a definition somewhere.

use crate::helpers::rows_view;
use crate::rules::{
    ParserType, Rule, RuleParams, fence_line, in_code_after, is_fence, is_prose, line_chars,
    make_issue, plain_issue, selected, strings, strip_terminator,
};
use crate::text::{
    chars_of, occurs_at, same, starts_with, string_of, trim_start, trimmed_start,
    without_terminator,
};
use crate::types::{LintError, LintErrorView, issues_view, texts_view};
use vstd::prelude::*;

verus! {

/// The rule that asks for a definition behind every term.
pub struct KMD001;

/// Whether a character marks a block when a line begins with it.
pub open spec fn is_block_marker(c: char) -> bool {
    c == ':' || c == '#' || c == '-' || c == '*' || c == '+' || c == '>' || c == '`' || c == '~'
        || c == '|' || c == '!'
}

/// Whether a line looks like the term of a definition list: it is not
/// empty, not indented, and begins with nothing that marks a block.
pub open spec fn is_dl_term(line: Seq<char>) -> bool {
    let trimmed = without_terminator(line);
    &&& trimmed.len() > 0
    &&& line[0] != ' '
    &&& line[0] != '\t'
    &&& !is_block_marker(trimmed[0])
    &&& !is_fence(trimmed)
    &&& !occurs_at(trimmed, "<!--"@, 0)
    &&& trimmed[0] != '['
    &&& !occurs_at(trimmed, "---"@, 0)
    &&& !occurs_at(trimmed, "==="@, 0)
    &&& !occurs_at(trimmed, "***"@, 0)
}

/// Whether a line is a definition: behind its indentation it begins with a
/// colon and a space, or is a colon and nothing else.
pub open spec fn is_definition(line: Seq<char>) -> bool {
    let trimmed = trim_start(line);
    occurs_at(trimmed, ": "@, 0) || trimmed == ":"@
}

/// Whether a definition follows line `i`: whether the first line behind
/// it that is not empty is a definition and one of the next three lines.
pub open spec fn definition_follows(lines: Seq<Seq<char>>, i: int, j: int) -> bool
    decreases lines.len() - j,
{
    if j >= lines.len() || j > i + 3 {
        false
    } else if is_definition(lines[j]) {
        true
    } else if without_terminator(lines[j]).len() == 0 {
        definition_follows(lines, i, j + 1)
    } else {
        false
    }
}

/// Whether the document holds a definition.
pub open spec fn has_definition(lines: Seq<Seq<char>>) -> bool {
    exists|k: int| 0 <= k < lines.len() && is_definition(#[trigger] lines[k])
}

/// Whether line `i` is a term without a definition.
pub open spec fn is_orphan_term(lines: Seq<Seq<char>>, i: int) -> bool {
    &&& is_prose(lines, i)
    &&& is_dl_term(lines[i])
    &&& !definition_follows(lines, i, i + 1)
    &&& has_definition(lines)
}

/// The rule's names.
pub open spec fn kmd001_names() -> Seq<Seq<char>> {
    seq!["KMD001"@, "definition-list-term-has-definition"@]
}

/// The issues of a document: one for each term without a definition, in
/// the order of the lines.
pub open spec fn kmd001_issues(lines: Seq<Seq<char>>) -> Seq<LintErrorView> {
    let found = selected(lines.len() as int, |i: int| is_orphan_term(lines, i));
    Seq::new(
        found.len(),
        |k: int|
            plain_issue(
                kmd001_names(),
                "Definition list terms must be followed by a definition"@,
                found[k] + 1,
                "Term has no definition"@,
            ),
    )
}

/// Whether a line looks like the term of a definition list.
pub fn looks_like_dl_term(line: &str) -> (r: bool)
    ensures
        r == is_dl_term(line@),
{
    let l = chars_of(line);
    dl_term(l.as_slice())
}

/// Whether a line looks like the term of a definition list.
fn dl_term(line: &[char]) -> (r: bool)
    ensures
        r == is_dl_term(line@),
{
    let trimmed = strip_terminator(line);
    if trimmed.len() == 0 {
        return false;
    }
    proof {
        crate::text::lemma_trimmed_end_len_bound(line@, '\n');
        crate::text::lemma_trimmed_end_len_bound(crate::text::trim_end_char(line@, '\n'), '\r');
    }
    if line[0] == ' ' || line[0] == '\t' {
        return false;
    }
    let first = trimmed[0];
    let marker = first == ':' || first == '#' || first == '-' || first == '*' || first == '+'
        || first == '>' || first == '`' || first == '~' || first == '|' || first == '!';
    !marker && !fence_line(trimmed.as_slice()) && !starts_with(
        trimmed.as_slice(),
        chars_of("<!--").as_slice(),
    ) && first != '[' && !starts_with(trimmed.as_slice(), chars_of("---").as_slice())
        && !starts_with(trimmed.as_slice(), chars_of("===").as_slice()) && !starts_with(
        trimmed.as_slice(),
        chars_of("***").as_slice(),
    )
}

/// Whether a line is a definition.
pub fn is_definition_line(line: &str) -> (r: bool)
    ensures
        r == is_definition(line@),
{
    let l = chars_of(line);
    definition_line(l.as_slice())
}

/// Whether a line is a definition.
fn definition_line(line: &[char]) -> (r: bool)
    ensures
        r == is_definition(line@),
{
    let trimmed = trimmed_start(line);
    starts_with(trimmed.as_slice(), chars_of(": ").as_slice()) || same(
        trimmed.as_slice(),
        chars_of(":").as_slice(),
    )
}

/// Whether the document holds a definition.
fn any_definition(lines: &Vec<Vec<char>>) -> (r: bool)
    ensures
        r == has_definition(rows_view(lines@)),
{
    let mut k: usize = 0;
    while k < lines.len()
        invariant
            k <= lines.len(),
            forall|j: int| 0 <= j < k ==> !is_definition(#[trigger] rows_view(lines@)[j]),
        decreases lines.len() - k,
    {
        if definition_line(lines[k].as_slice()) {
            assert(is_definition(rows_view(lines@)[k as int]));
            return true;
        }
        k += 1;
    }
    false
}

/// Whether a definition follows line `i`.
fn followed_by_definition(lines: &Vec<Vec<char>>, i: usize) -> (r: bool)
    requires
        i < lines.len(),
    ensures
        r == definition_follows(rows_view(lines@), i as int, i + 1),
{
    let ghost all = rows_view(lines@);
    let mut j: usize = i + 1;
    while j < lines.len() && j - i <= 3
        invariant
            i < j <= lines.len(),
            all == rows_view(lines@),
            definition_follows(all, i as int, i + 1) == definition_follows(all, i as int, j as int),
        decreases lines.len() - j,
    {
        if definition_line(lines[j].as_slice()) {
            return true;
        }
        let next = strip_terminator(lines[j].as_slice());
        if next.len() != 0 {
            return false;
        }
        j += 1;
    }
    false
}

impl Rule for KMD001 {
    fn names(&self) -> (r: Vec<String>)
        ensures
            texts_view(r@) == kmd001_names(),
    {
        let r = strings(vec!["KMD001", "definition-list-term-has-definition"]);
        assert(texts_view(r@) =~= kmd001_names());
        r
    }

    fn description(&self) -> (r: String)
        ensures
            r@ == "Definition list terms must be followed by a definition"@,
    {
        string_of(chars_of("Definition list terms must be followed by a definition").as_slice())
    }

    fn tags(&self) -> (r: Vec<String>)
        ensures
            texts_view(r@) == seq!["kramdown"@, "definition-lists"@],
    {
        let r = strings(vec!["kramdown", "definition-lists"]);
        assert(texts_view(r@) =~= seq!["kramdown"@, "definition-lists"@]);
        r
    }

    fn parser_type(&self) -> (r: ParserType)
        ensures
            r == ParserType::NoParser,
    {
        ParserType::NoParser
    }

    fn is_enabled_by_default(&self) -> (r: bool)
        ensures
            !r,
    {
        false
    }

    fn information(&self) -> (r: Option<String>)
        ensures
            r is None,
    {
        None
    }

    fn lint(&self, params: &RuleParams) -> (errors: Vec<LintError>)
        ensures
            issues_view(errors@) == kmd001_issues(texts_view(params.lines@)),
    {
        let lines = line_chars(&params.lines);
        let ghost all = rows_view(lines@);
        let ghost wanted = |i: int| is_orphan_term(all, i);
        let doc_has_any_dl = any_definition(&lines);
        let mut errors: Vec<LintError> = Vec::new();
        let mut in_code_block = false;
        let mut i: usize = 0;
        while i < lines.len()
            invariant
                i <= lines.len(),
                all == rows_view(lines@),
                all == texts_view(params.lines@),
                wanted == (|i: int| is_orphan_term(all, i)),
                doc_has_any_dl == has_definition(all),
                in_code_block == in_code_after(all, i as int),
                errors@.len() == selected(i as int, wanted).len(),
                forall|k: int|
                    0 <= k < errors@.len() ==> errors@[k]@ == plain_issue(
                        kmd001_names(),
                        "Definition list terms must be followed by a definition"@,
                        selected(i as int, wanted)[k] + 1,
                        "Term has no definition"@,
                    ),
            decreases lines.len() - i,
        {
            let trimmed = strip_terminator(lines[i].as_slice());
            assert(all[i as int] == lines@[i as int]@);
            let fence = fence_line(trimmed.as_slice());
            let mut flagged = false;
            if !fence && !in_code_block {
                if dl_term(lines[i].as_slice()) {
                    if !followed_by_definition(&lines, i) && doc_has_any_dl {
                        flagged = true;
                        errors.push(
                            make_issue(
                                self.names(),
                                self.description(),
                                i + 1,
                                string_of(chars_of("Term has no definition").as_slice()),
                            ),
                        );
                    }
                }
            }
            assert(flagged == wanted(i as int));
            if fence {
                in_code_block = !in_code_block;
            }
            i += 1;
        }
        assert(issues_view(errors@) =~= kmd001_issues(all));
        errors
    }
}

} // verus!
