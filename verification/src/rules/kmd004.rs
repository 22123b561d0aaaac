//! KMD004: abbreviation definitions should be used.
//!
//! An abbreviation is defined by a line of the form `*[TERM]: expansion`.
//! The rule reports a definition whose term occurs nowhere in the lines
//! that are not themselves definitions.

use crate::patterns::{Matcher, first_match, group, group_of, matches_in};
use crate::rules::{
    ParserType, Rule, RuleParams, fence_line, is_fence, make_issue, open_after, plain_issue,
    selected, strings, strip_terminator, unfenced,
};
use crate::text::{
    append_str, chars_of, contains, join, joined, occurs_in, string_of,
    without_terminator,
};
use crate::types::{LintError, LintErrorView, issues_view, text_view, texts_view};
use vstd::prelude::*;

verus! {

/// The rule that asks for a use of every abbreviation defined.
pub struct KMD004;

/// The pattern of an abbreviation definition.
pub const ABBREVIATION_PATTERN: &'static str = "^\\*\\[([^\\]]+)\\]:";

/// What one line holds for the rule.
#[derive(Debug, PartialEq, Eq)]
pub struct AbbreviationLine {
    /// Whether the line opens or closes a fenced code block.
    pub fence: bool,
    /// The term that the line defines.
    pub term: Option<String>,
    /// Whether the line is a definition.
    pub is_definition: bool,
    /// The line without its terminator.
    pub text: String,
}

/// What an abbreviation line stands for in contracts.
pub struct AbbreviationLineView {
    pub fence: bool,
    pub term: Option<Seq<char>>,
    pub is_definition: bool,
    pub text: Seq<char>,
}

impl View for AbbreviationLine {
    type V = AbbreviationLineView;

    open spec fn view(&self) -> AbbreviationLineView {
        AbbreviationLineView {
            fence: self.fence,
            term: text_view(self.term),
            is_definition: self.is_definition,
            text: self.text@,
        }
    }
}

/// The views of the lines.
pub open spec fn abbreviation_view(v: Seq<AbbreviationLine>) -> Seq<AbbreviationLineView> {
    Seq::new(v.len(), |i: int| v[i]@)
}

/// What a line holds for the rule.
pub open spec fn abbreviation_line(line: Seq<char>) -> AbbreviationLineView {
    AbbreviationLineView {
        fence: is_fence(without_terminator(line)),
        term: match first_match(ABBREVIATION_PATTERN@, line) {
            Some(groups) => group_of(groups, 1),
            None => None,
        },
        is_definition: matches_in(ABBREVIATION_PATTERN@, line),
        text: without_terminator(line),
    }
}

/// What the lines of a document hold for the rule.
pub open spec fn abbreviation_lines(lines: Seq<Seq<char>>) -> Seq<AbbreviationLineView> {
    Seq::new(lines.len(), |i: int| abbreviation_line(lines[i]))
}

/// Whether each line is a fence.
pub open spec fn fences_of(facts: Seq<AbbreviationLineView>) -> Seq<bool> {
    Seq::new(facts.len(), |i: int| facts[i].fence)
}

/// The texts of the first `n` lines that are not definitions.
pub open spec fn body_parts(facts: Seq<AbbreviationLineView>, n: int) -> Seq<Seq<char>>
    decreases n,
{
    if n <= 0 || n > facts.len() {
        Seq::empty()
    } else if facts[n - 1].is_definition {
        body_parts(facts, n - 1)
    } else {
        body_parts(facts, n - 1).push(facts[n - 1].text)
    }
}

/// The text of the document without its definitions: the lines that are
/// not definitions, with a newline between them.
pub open spec fn body_of(facts: Seq<AbbreviationLineView>) -> Seq<char> {
    joined(body_parts(facts, facts.len() as int), seq!['\n'])
}

/// Whether line `i` defines a term, outside fenced code, that the body does
/// not hold.
pub open spec fn is_unused_definition(facts: Seq<AbbreviationLineView>, i: int) -> bool {
    &&& unfenced(fences_of(facts), i)
    &&& facts[i].term is Some
    &&& !occurs_in(body_of(facts), facts[i].term->0)
}

/// The rule's names.
pub open spec fn kmd004_names() -> Seq<Seq<char>> {
    seq!["KMD004"@, "abbreviation-defs-used"@]
}

/// The issues of a document: one for each definition of a term that is not
/// used, in the order of the lines.
pub open spec fn kmd004_issues(facts: Seq<AbbreviationLineView>) -> Seq<LintErrorView> {
    let found = selected(facts.len() as int, |i: int| is_unused_definition(facts, i));
    Seq::new(
        found.len(),
        |k: int|
            plain_issue(
                kmd004_names(),
                "Abbreviation definitions should be used in document text"@,
                found[k] + 1,
                "Abbreviation '"@ + facts[found[k]].term->0 + "' is defined but never used in text"@,
            ),
    )
}

/// Reads what the lines of a document hold for the rule.
pub fn scan_abbreviations(lines: &Vec<String>) -> (r: Vec<AbbreviationLine>)
    ensures
        abbreviation_view(r@) == abbreviation_lines(texts_view(lines@)),
{
    let pattern = Matcher::new(ABBREVIATION_PATTERN);
    let mut r: Vec<AbbreviationLine> = Vec::new();
    let mut i: usize = 0;
    while i < lines.len()
        invariant
            i <= lines.len(),
            r.len() == i,
            pattern@ == ABBREVIATION_PATTERN@,
            forall|k: int| 0 <= k < i ==> r@[k]@ == abbreviation_line(lines@[k]@),
        decreases lines.len() - i,
    {
        let line = lines[i].as_str();
        let trimmed = strip_terminator(chars_of(line).as_slice());
        let term = match pattern.first(line) {
            Some(groups) => match group(&groups, 1) {
                Some(t) => Some(t.clone()),
                None => None,
            },
            None => None,
        };
        r.push(
            AbbreviationLine {
                fence: fence_line(trimmed.as_slice()),
                term,
                is_definition: pattern.matches(line),
                text: string_of(trimmed.as_slice()),
            },
        );
        i += 1;
    }
    assert(abbreviation_view(r@) =~= abbreviation_lines(texts_view(lines@)));
    r
}

/// The text of the document without its definitions.
pub fn body_text(facts: &Vec<AbbreviationLine>) -> (r: Vec<char>)
    ensures
        r@ == body_of(abbreviation_view(facts@)),
{
    let ghost all = abbreviation_view(facts@);
    let mut parts: Vec<Vec<char>> = Vec::new();
    let mut i: usize = 0;
    while i < facts.len()
        invariant
            i <= facts.len(),
            all == abbreviation_view(facts@),
            Seq::new(parts@.len(), |k: int| parts@[k]@) == body_parts(all, i as int),
        decreases facts.len() - i,
    {
        assert(all[i as int] == facts@[i as int]@);
        if !facts[i].is_definition {
            let ghost before = Seq::new(parts@.len(), |k: int| parts@[k]@);
            parts.push(chars_of(facts[i].text.as_str()));
            assert(Seq::new(parts@.len(), |k: int| parts@[k]@) =~= before.push(
                facts@[i as int].text@,
            ));
        }
        i += 1;
    }
    let newline: Vec<char> = vec!['\n'];
    assert(newline@ =~= seq!['\n']);
    join(&parts, newline.as_slice())
}

/// The issues that follow from what the lines hold.
pub fn unused_abbreviations(facts: &Vec<AbbreviationLine>) -> (errors: Vec<LintError>)
    ensures
        issues_view(errors@) == kmd004_issues(abbreviation_view(facts@)),
{
    let ghost all = abbreviation_view(facts@);
    let ghost wanted = |i: int| is_unused_definition(all, i);
    let body = body_text(facts);
    let mut errors: Vec<LintError> = Vec::new();
    let mut in_code = false;
    let mut i: usize = 0;
    while i < facts.len()
        invariant
            i <= facts.len(),
            all == abbreviation_view(facts@),
            wanted == (|i: int| is_unused_definition(all, i)),
            body@ == body_of(all),
            in_code == open_after(fences_of(all), i as int),
            errors@.len() == selected(i as int, wanted).len(),
            forall|k: int|
                0 <= k < errors@.len() ==> errors@[k]@ == plain_issue(
                    kmd004_names(),
                    "Abbreviation definitions should be used in document text"@,
                    selected(i as int, wanted)[k] + 1,
                    "Abbreviation '"@ + all[selected(i as int, wanted)[k]].term->0
                        + "' is defined but never used in text"@,
                ),
        decreases facts.len() - i,
    {
        let fact = &facts[i];
        assert(all[i as int] == fact@);
        let mut flagged = false;
        if !fact.fence && !in_code {
            match &fact.term {
                Some(term) => {
                    if !contains(body.as_slice(), chars_of(term.as_str()).as_slice()) {
                        flagged = true;
                        let mut detail: Vec<char> = Vec::new();
                        append_str(&mut detail, "Abbreviation '");
                        append_str(&mut detail, term.as_str());
                        append_str(&mut detail, "' is defined but never used in text");
                        let names = strings(vec!["KMD004", "abbreviation-defs-used"]);
                        assert(texts_view(names@) =~= kmd004_names());
                        errors.push(
                            make_issue(
                                names,
                                string_of(
                                    chars_of(
                                        "Abbreviation definitions should be used in document text",
                                    ).as_slice(),
                                ),
                                i + 1,
                                string_of(detail.as_slice()),
                            ),
                        );
                    }
                },
                None => {},
            }
        }
        assert(flagged == wanted(i as int));
        if fact.fence {
            in_code = !in_code;
        }
        i += 1;
    }
    assert(issues_view(errors@) =~= kmd004_issues(all));
    errors
}

impl Rule for KMD004 {
    fn names(&self) -> (r: Vec<String>)
        ensures
            texts_view(r@) == kmd004_names(),
    {
        let r = strings(vec!["KMD004", "abbreviation-defs-used"]);
        assert(texts_view(r@) =~= kmd004_names());
        r
    }

    fn description(&self) -> (r: String)
        ensures
            r@ == "Abbreviation definitions should be used in document text"@,
    {
        string_of(chars_of("Abbreviation definitions should be used in document text").as_slice())
    }

    fn tags(&self) -> (r: Vec<String>)
        ensures
            texts_view(r@) == seq!["kramdown"@, "abbreviations"@],
    {
        let r = strings(vec!["kramdown", "abbreviations"]);
        assert(texts_view(r@) =~= seq!["kramdown"@, "abbreviations"@]);
        r
    }

    fn parser_type(&self) -> (r: ParserType)
        ensures
            r == ParserType::NoParser,
    {
        ParserType::NoParser
    }

    fn is_enabled_by_default(&self) -> (r: bool)
        ensures
            !r,
    {
        false
    }

    fn information(&self) -> (r: Option<String>)
        ensures
            r is None,
    {
        None
    }

    fn lint(&self, params: &RuleParams) -> (errors: Vec<LintError>)
        ensures
            issues_view(errors@) == kmd004_issues(abbreviation_lines(texts_view(params.lines@))),
    {
        let facts = scan_abbreviations(&params.lines);
        unused_abbreviations(&facts)
    }
}

} // verus!
