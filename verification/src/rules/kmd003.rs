//! KMD003: footnote definitions must be referenced.
//!
//! The rule reports, once for each label, the first definition of a footnote
//! to which the document does not refer.

use crate::rules::footnotes::{
    FootnoteLineView, collect_mentions, definitions_in, footnote_lines, references_in,
    report_unmatched, scan_footnotes, unmatched_issues,
};
use crate::rules::{ParserType, Rule, RuleParams, strings};
use crate::text::{chars_of, string_of};
use crate::types::{LintError, LintErrorView, issues_view, texts_view};
use vstd::prelude::*;

verus! {

/// The rule that asks for a reference to every footnote defined.
pub struct KMD003;

/// The rule's names.
pub open spec fn kmd003_names() -> Seq<Seq<char>> {
    seq!["KMD003"@, "footnote-defs-used"@]
}

/// The issues of a document: one for each label that is defined and not
/// referred to, on the line of the first definition, in the order of the
/// lines.
pub open spec fn kmd003_issues(facts: Seq<FootnoteLineView>) -> Seq<LintErrorView> {
    unmatched_issues(
        definitions_in(facts, facts.len() as int),
        references_in(facts, facts.len() as int),
        kmd003_names(),
        "Footnote definitions must be referenced in the document"@,
        "Footnote definition '[^"@,
        "]' is never referenced"@,
    )
}

impl Rule for KMD003 {
    fn names(&self) -> (r: Vec<String>)
        ensures
            texts_view(r@) == kmd003_names(),
    {
        let r = strings(vec!["KMD003", "footnote-defs-used"]);
        assert(texts_view(r@) =~= kmd003_names());
        r
    }

    fn description(&self) -> (r: String)
        ensures
            r@ == "Footnote definitions must be referenced in the document"@,
    {
        string_of(chars_of("Footnote definitions must be referenced in the document").as_slice())
    }

    fn tags(&self) -> (r: Vec<String>)
        ensures
            texts_view(r@) == seq!["kramdown"@, "footnotes"@],
    {
        let r = strings(vec!["kramdown", "footnotes"]);
        assert(texts_view(r@) =~= seq!["kramdown"@, "footnotes"@]);
        r
    }

    fn parser_type(&self) -> (r: ParserType)
        ensures
            r == ParserType::NoParser,
    {
        ParserType::NoParser
    }

    fn is_enabled_by_default(&self) -> (r: bool)
        ensures
            !r,
    {
        false
    }

    fn information(&self) -> (r: Option<String>)
        ensures
            r is None,
    {
        None
    }

    fn lint(&self, params: &RuleParams) -> (errors: Vec<LintError>)
        ensures
            issues_view(errors@) == kmd003_issues(footnote_lines(texts_view(params.lines@))),
    {
        let facts = scan_footnotes(&params.lines);
        let (references, definitions) = collect_mentions(&facts);
        report_unmatched(
            &definitions,
            &references,
            &self.names(),
            "Footnote definitions must be referenced in the document",
            "Footnote definition '[^",
            "]' is never referenced",
        )
    }
}

} // verus!
