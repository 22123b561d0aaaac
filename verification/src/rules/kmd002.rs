//! KMD002: footnote references must have matching definitions.
//!
//! The rule reports, once for each label, the first reference to a footnote
//! that the document does not define.

use crate::rules::footnotes::{
    FootnoteLineView, collect_mentions, definitions_in, footnote_lines, references_in,
    report_unmatched, scan_footnotes, unmatched_issues,
};
use crate::rules::{ParserType, Rule, RuleParams, strings};
use crate::text::{chars_of, string_of};
use crate::types::{LintError, LintErrorView, issues_view, texts_view};
use vstd::prelude::*;

verus! {

/// The rule that asks for a definition of every footnote referred to.
pub struct KMD002;

/// The rule's names.
pub open spec fn kmd002_names() -> Seq<Seq<char>> {
    seq!["KMD002"@, "footnote-refs-defined"@]
}

/// The issues of a document: one for each label that is referred to and not
/// defined, on the line of the first reference, in the order of the lines.
pub open spec fn kmd002_issues(facts: Seq<FootnoteLineView>) -> Seq<LintErrorView> {
    unmatched_issues(
        references_in(facts, facts.len() as int),
        definitions_in(facts, facts.len() as int),
        kmd002_names(),
        "Footnote references must have matching definitions"@,
        "Footnote reference '[^"@,
        "]' has no definition"@,
    )
}

impl Rule for KMD002 {
    fn names(&self) -> (r: Vec<String>)
        ensures
            texts_view(r@) == kmd002_names(),
    {
        let r = strings(vec!["KMD002", "footnote-refs-defined"]);
        assert(texts_view(r@) =~= kmd002_names());
        r
    }

    fn description(&self) -> (r: String)
        ensures
            r@ == "Footnote references must have matching definitions"@,
    {
        string_of(chars_of("Footnote references must have matching definitions").as_slice())
    }

    fn tags(&self) -> (r: Vec<String>)
        ensures
            texts_view(r@) == seq!["kramdown"@, "footnotes"@],
    {
        let r = strings(vec!["kramdown", "footnotes"]);
        assert(texts_view(r@) =~= seq!["kramdown"@, "footnotes"@]);
        r
    }

    fn parser_type(&self) -> (r: ParserType)
        ensures
            r == ParserType::NoParser,
    {
        ParserType::NoParser
    }

    fn is_enabled_by_default(&self) -> (r: bool)
        ensures
            !r,
    {
        false
    }

    fn information(&self) -> (r: Option<String>)
        ensures
            r is None,
    {
        None
    }

    fn lint(&self, params: &RuleParams) -> (errors: Vec<LintError>)
        ensures
            issues_view(errors@) == kmd002_issues(footnote_lines(texts_view(params.lines@))),
    {
        let facts = scan_footnotes(&params.lines);
        let (references, definitions) = collect_mentions(&facts);
        report_unmatched(
            &references,
            &definitions,
            &self.names(),
            "Footnote references must have matching definitions",
            "Footnote reference '[^",
            "]' has no definition",
        )
    }
}

} // verus!
