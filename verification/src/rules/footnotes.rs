//! What the footnote rules read of a document.
//!
//! A footnote is referred to by `[^label]` and defined by a line that
//! begins with `[^label]:`. Labels are compared in lowercase.

use crate::patterns::{Matcher, all_matches, first_match, group, group_of, matches_in};
use crate::rules::{fence_line, is_fence, make_issue, plain_issue, selected};
use crate::text::{append_str, chars_of, string_of, without_terminator};
use crate::types::{LintError, LintErrorView, issues_view, text_view, texts_view};
use crate::unicode::{lowercase, to_lowercase};
use vstd::prelude::*;

verus! {

/// The pattern of a footnote definition at the beginning of a line.
pub const DEFINITION_PATTERN: &'static str = "^\\[\\^([^\\]]+)\\]:";

/// The pattern of a footnote label anywhere in a line.
pub const REFERENCE_PATTERN: &'static str = "\\[\\^([^\\]]+)\\]";

/// What one line holds for the footnote rules.
#[derive(Debug, PartialEq, Eq)]
pub struct FootnoteLine {
    /// Whether the line opens or closes a fenced code block.
    pub fence: bool,
    /// The label that the line defines.
    pub definition: Option<String>,
    /// Whether the line is a definition.
    pub is_definition: bool,
    /// The labels that the line refers to.
    pub references: Vec<String>,
}

/// What a footnote line stands for in contracts.
pub struct FootnoteLineView {
    pub fence: bool,
    pub definition: Option<Seq<char>>,
    pub is_definition: bool,
    pub references: Seq<Seq<char>>,
}

impl View for FootnoteLine {
    type V = FootnoteLineView;

    open spec fn view(&self) -> FootnoteLineView {
        FootnoteLineView {
            fence: self.fence,
            definition: text_view(self.definition),
            is_definition: self.is_definition,
            references: texts_view(self.references@),
        }
    }
}

/// The views of the lines.
pub open spec fn facts_view(v: Seq<FootnoteLine>) -> Seq<FootnoteLineView> {
    Seq::new(v.len(), |i: int| v[i]@)
}

/// The label of a match: its first group in lowercase.
pub open spec fn label_of(groups: Seq<Option<Seq<char>>>) -> Option<Seq<char>> {
    match group_of(groups, 1) {
        Some(label) => Some(lowercase(label)),
        None => None,
    }
}

/// The labels of the matches that have one.
pub open spec fn labels_of(found: Seq<Seq<Option<Seq<char>>>>) -> Seq<Seq<char>>
    decreases found.len(),
{
    if found.len() == 0 {
        Seq::empty()
    } else {
        match label_of(found.last()) {
            Some(label) => labels_of(found.drop_last()).push(label),
            None => labels_of(found.drop_last()),
        }
    }
}

/// What a line holds for the footnote rules. The references of a line
/// that is a definition are not counted.
pub open spec fn footnote_line(line: Seq<char>) -> FootnoteLineView {
    let is_definition = matches_in(DEFINITION_PATTERN@, line);
    FootnoteLineView {
        fence: is_fence(without_terminator(line)),
        definition: match first_match(DEFINITION_PATTERN@, line) {
            Some(groups) => label_of(groups),
            None => None,
        },
        is_definition,
        references: if is_definition {
            Seq::empty()
        } else {
            labels_of(all_matches(REFERENCE_PATTERN@, line))
        },
    }
}

/// What the lines of a document hold for the footnote rules.
pub open spec fn footnote_lines(lines: Seq<Seq<char>>) -> Seq<FootnoteLineView> {
    Seq::new(lines.len(), |i: int| footnote_line(lines[i]))
}

/// The label of a match.
pub fn match_label(groups: &Vec<Option<String>>) -> (r: Option<String>)
    ensures
        text_view(r) == label_of(crate::patterns::groups_view(groups@)),
{
    match group(groups, 1) {
        Some(label) => Some(to_lowercase(label.as_str())),
        None => None,
    }
}

/// The labels of the matches that have one.
pub fn match_labels(found: &Vec<Vec<Option<String>>>) -> (r: Vec<String>)
    ensures
        texts_view(r@) == labels_of(crate::patterns::matches_view(found@)),
{
    let ghost all = crate::patterns::matches_view(found@);
    let mut r: Vec<String> = Vec::new();
    let mut i: usize = 0;
    assert(all.take(0) =~= Seq::empty());
    while i < found.len()
        invariant
            i <= found.len(),
            all == crate::patterns::matches_view(found@),
            texts_view(r@) == labels_of(all.take(i as int)),
        decreases found.len() - i,
    {
        assert(all.take(i + 1).drop_last() =~= all.take(i as int));
        assert(all.take(i + 1).last() == crate::patterns::groups_view(found@[i as int]@));
        let ghost before = texts_view(r@);
        match match_label(&found[i]) {
            Some(label) => {
                r.push(label);
                assert(texts_view(r@) =~= before.push(label@));
            },
            None => {},
        }
        i += 1;
    }
    assert(all.take(i as int) =~= all);
    r
}

/// Reads what the lines of a document hold for the footnote rules.
pub fn scan_footnotes(lines: &Vec<String>) -> (r: Vec<FootnoteLine>)
    ensures
        facts_view(r@) == footnote_lines(texts_view(lines@)),
{
    let definition_pattern = Matcher::new(DEFINITION_PATTERN);
    let reference_pattern = Matcher::new(REFERENCE_PATTERN);
    let mut r: Vec<FootnoteLine> = Vec::new();
    let mut i: usize = 0;
    while i < lines.len()
        invariant
            i <= lines.len(),
            r.len() == i,
            definition_pattern@ == DEFINITION_PATTERN@,
            reference_pattern@ == REFERENCE_PATTERN@,
            forall|k: int| 0 <= k < i ==> r@[k]@ == footnote_line(lines@[k]@),
        decreases lines.len() - i,
    {
        let line = lines[i].as_str();
        let chars = chars_of(line);
        let trimmed = crate::rules::strip_terminator(chars.as_slice());
        let definition = match definition_pattern.first(line) {
            Some(groups) => match_label(&groups),
            None => None,
        };
        let is_definition = definition_pattern.matches(line);
        let references = if is_definition {
            Vec::new()
        } else {
            match_labels(&reference_pattern.all(line))
        };
        let fact = FootnoteLine {
            fence: fence_line(trimmed.as_slice()),
            definition,
            is_definition,
            references,
        };
        assert(fact@.references =~= footnote_line(line@).references);
        r.push(fact);
        i += 1;
    }
    assert(facts_view(r@) =~= footnote_lines(texts_view(lines@)));
    r
}

/// A label with the number of the line it stands on.
pub struct Mention {
    pub label: Seq<char>,
    pub line_number: int,
}

/// Whether a fenced code block is open behind the first `n` lines.
pub open spec fn fenced_after(facts: Seq<FootnoteLineView>, n: int) -> bool
    decreases n,
{
    if n <= 0 || n > facts.len() {
        false
    } else if facts[n - 1].fence {
        !fenced_after(facts, n - 1)
    } else {
        fenced_after(facts, n - 1)
    }
}

/// Whether line `i` is text outside fenced code.
pub open spec fn outside_code(facts: Seq<FootnoteLineView>, i: int) -> bool {
    0 <= i < facts.len() && !facts[i].fence && !fenced_after(facts, i)
}

/// The labels with line `line_number`.
pub open spec fn mentions_of(labels: Seq<Seq<char>>, line_number: int) -> Seq<Mention> {
    Seq::new(labels.len(), |k: int| Mention { label: labels[k], line_number })
}

/// The references of the first `n` lines outside fenced code, in order.
pub open spec fn references_in(facts: Seq<FootnoteLineView>, n: int) -> Seq<Mention>
    decreases n,
{
    if n <= 0 || n > facts.len() {
        Seq::empty()
    } else if outside_code(facts, n - 1) {
        references_in(facts, n - 1) + mentions_of(facts[n - 1].references, n)
    } else {
        references_in(facts, n - 1)
    }
}

/// The definitions of the first `n` lines outside fenced code, in order.
pub open spec fn definitions_in(facts: Seq<FootnoteLineView>, n: int) -> Seq<Mention>
    decreases n,
{
    if n <= 0 || n > facts.len() {
        Seq::empty()
    } else if outside_code(facts, n - 1) && facts[n - 1].definition is Some {
        definitions_in(facts, n - 1).push(
            Mention { label: facts[n - 1].definition->0, line_number: n },
        )
    } else {
        definitions_in(facts, n - 1)
    }
}

/// Whether a label is among the mentions.
pub open spec fn mentioned(mentions: Seq<Mention>, label: Seq<char>) -> bool {
    exists|k: int| 0 <= k < mentions.len() && (#[trigger] mentions[k]).label == label
}

/// Whether mention `j` is the first of its label.
pub open spec fn is_first_mention(mentions: Seq<Mention>, j: int) -> bool {
    forall|k: int| 0 <= k < j ==> (#[trigger] mentions[k]).label != mentions[j].label
}

/// The mentions that are the first of their label and whose label is not
/// among `known`, by their positions, in order.
pub open spec fn unmatched(mentions: Seq<Mention>, known: Seq<Mention>) -> Seq<int> {
    selected(
        mentions.len() as int,
        |j: int| is_first_mention(mentions, j) && !mentioned(known, mentions[j].label),
    )
}

/// One issue for each unmatched mention, on the line of the mention, with
/// the label between `before` and `after` as its detail.
pub open spec fn unmatched_issues(
    mentions: Seq<Mention>,
    known: Seq<Mention>,
    names: Seq<Seq<char>>,
    description: Seq<char>,
    before: Seq<char>,
    after: Seq<char>,
) -> Seq<LintErrorView> {
    let found = unmatched(mentions, known);
    Seq::new(
        found.len(),
        |k: int|
            plain_issue(
                names,
                description,
                mentions[found[k]].line_number,
                before + mentions[found[k]].label + after,
            ),
    )
}

/// A label with the number of the line it stands on.
pub struct Label {
    pub label: String,
    pub line_number: usize,
}

impl View for Label {
    type V = Mention;

    open spec fn view(&self) -> Mention {
        Mention { label: self.label@, line_number: self.line_number as int }
    }
}

/// The views of the labels.
pub open spec fn labels_view(v: Seq<Label>) -> Seq<Mention> {
    Seq::new(v.len(), |i: int| v[i]@)
}

/// The references and the definitions of a document outside fenced code.
pub fn collect_mentions(facts: &Vec<FootnoteLine>) -> (r: (Vec<Label>, Vec<Label>))
    ensures
        labels_view(r.0@) == references_in(facts_view(facts@), facts@.len() as int),
        labels_view(r.1@) == definitions_in(facts_view(facts@), facts@.len() as int),
{
    let ghost all = facts_view(facts@);
    let mut references: Vec<Label> = Vec::new();
    let mut definitions: Vec<Label> = Vec::new();
    let mut in_code = false;
    let mut i: usize = 0;
    while i < facts.len()
        invariant
            i <= facts.len(),
            all == facts_view(facts@),
            in_code == fenced_after(all, i as int),
            labels_view(references@) == references_in(all, i as int),
            labels_view(definitions@) == definitions_in(all, i as int),
        decreases facts.len() - i,
    {
        let fact = &facts[i];
        assert(all[i as int] == fact@);
        if fact.fence {
            in_code = !in_code;
        } else if !in_code {
            match &fact.definition {
                Some(label) => {
                    let ghost before = labels_view(definitions@);
                    definitions.push(Label { label: label.clone(), line_number: i + 1 });
                    assert(labels_view(definitions@) =~= before.push(
                        Mention { label: label@, line_number: i + 1 },
                    ));
                },
                None => {},
            }
            let ghost start = labels_view(references@);
            let mut k: usize = 0;
            while k < fact.references.len()
                invariant
                    k <= fact.references.len(),
                    i < facts.len(),
                    labels_view(references@) == start + mentions_of(
                        fact@.references.take(k as int),
                        i + 1,
                    ),
                decreases fact.references.len() - k,
            {
                let ghost before = labels_view(references@);
                references.push(Label { label: fact.references[k].clone(), line_number: i + 1 });
                assert(labels_view(references@) =~= before.push(
                    Mention { label: fact.references@[k as int]@, line_number: i + 1 },
                ));
                k += 1;
                assert(labels_view(references@) =~= start + mentions_of(
                    fact@.references.take(k as int),
                    i + 1,
                ));
            }
            assert(fact@.references.take(k as int) =~= fact@.references);
        }
        i += 1;
    }
    (references, definitions)
}

/// Whether a label is among `known`.
pub fn is_known(known: &Vec<Label>, label: &String) -> (r: bool)
    ensures
        r == mentioned(labels_view(known@), label@),
{
    let mut k: usize = 0;
    while k < known.len()
        invariant
            k <= known.len(),
            forall|j: int| 0 <= j < k ==> (#[trigger] labels_view(known@)[j]).label != label@,
        decreases known.len() - k,
    {
        if known[k].label == *label {
            assert(labels_view(known@)[k as int].label == label@);
            return true;
        }
        k += 1;
    }
    false
}

/// Reports the mentions that are the first of their label and whose label
/// is not among `known`.
pub fn report_unmatched(
    mentions: &Vec<Label>,
    known: &Vec<Label>,
    names: &Vec<String>,
    description: &str,
    before: &str,
    after: &str,
) -> (errors: Vec<LintError>)
    ensures
        issues_view(errors@) == unmatched_issues(
            labels_view(mentions@),
            labels_view(known@),
            texts_view(names@),
            description@,
            before@,
            after@,
        ),
{
    let ghost all = labels_view(mentions@);
    let ghost others = labels_view(known@);
    let ghost wanted = |j: int| is_first_mention(all, j) && !mentioned(others, all[j].label);
    let mut errors: Vec<LintError> = Vec::new();
    let mut j: usize = 0;
    while j < mentions.len()
        invariant
            j <= mentions.len(),
            all == labels_view(mentions@),
            others == labels_view(known@),
            wanted == (|j: int| is_first_mention(all, j) && !mentioned(others, all[j].label)),
            errors@.len() == selected(j as int, wanted).len(),
            forall|k: int|
                0 <= k < errors@.len() ==> errors@[k]@ == plain_issue(
                    texts_view(names@),
                    description@,
                    all[selected(j as int, wanted)[k]].line_number,
                    before@ + all[selected(j as int, wanted)[k]].label + after@,
                ),
        decreases mentions.len() - j,
    {
        let mention = &mentions[j];
        assert(all[j as int] == mention@);
        let mut first = true;
        let mut k: usize = 0;
        while k < j
            invariant
                k <= j < mentions.len(),
                all == labels_view(mentions@),
                all[j as int] == mention@,
                first == (forall|m: int|
                    0 <= m < k ==> (#[trigger] all[m]).label != all[j as int].label),
            decreases j - k,
        {
            assert(all[k as int] == mentions@[k as int]@);
            if mentions[k].label == mention.label {
                first = false;
            }
            k += 1;
        }
        if first && !is_known(known, &mention.label) {
            let mut detail: Vec<char> = Vec::new();
            append_str(&mut detail, before);
            append_str(&mut detail, mention.label.as_str());
            append_str(&mut detail, after);
            errors.push(
                make_issue(
                    crate::types::clone_texts(names),
                    string_of(chars_of(description).as_slice()),
                    mention.line_number,
                    string_of(detail.as_slice()),
                ),
            );
        }
        j += 1;
    }
    assert(issues_view(errors@) =~= unmatched_issues(
        all,
        others,
        texts_view(names@),
        description@,
        before@,
        after@,
    ));
    errors
}

} // verus!
