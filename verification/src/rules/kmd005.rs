//! KMD005: heading identifiers must be unique.
//!
//! A heading gets its identifier from an attribute `{#id}` or, without
//! one, from its text. The rule reports a heading whose identifier an
//! earlier heading of the document has.

use crate::patterns::{Matcher, first_match, group, group_of, with_replaced};
use crate::rules::footnotes::{Label, Mention, is_first_mention, labels_view};
use crate::rules::{
    ParserType, Rule, RuleParams, fence_line, is_fence, make_issue, plain_issue, selected, strings,
    strip_terminator,
};
use crate::helpers::{trim_char, trim_matches};
use crate::text::{
    append, append_str, chars_of, decimal, decimal_of, last_index_of, rfind, slice_of, string_of,
    trim, trimmed, without_terminator,
};
use crate::types::{LintError, LintErrorView, issues_view, text_view, texts_view};
use crate::unicode::{alphanumeric, char_lowercase, char_to_lowercase, is_alphanumeric};
use vstd::prelude::*;

verus! {

/// The rule that asks for heading identifiers that differ.
pub struct KMD005;

/// The pattern of a heading that begins with number signs, with the
/// attributes that may follow it.
pub const ATX_PATTERN: &'static str = "^(#{1,6})\\s+(.+?)(?:\\s*\\{[^}]*\\})?\\s*$";

/// The pattern of attributes that give an identifier.
pub const EXPLICIT_ID_PATTERN: &'static str = "\\{[^}]*#([A-Za-z][\\w-]*)[^}]*\\}";

/// The pattern of two hyphens or more.
pub const HYPHENS_PATTERN: &'static str = "-{2,}";

/// A heading's text without the attributes at its end: where the text
/// ends with `}`, what stands before the last `{`, without the whitespace
/// around it.
pub open spec fn without_attributes(text: Seq<char>) -> Seq<char> {
    match last_index_of(text, '{') {
        Some(at) => if text.last() == '}' {
            trim(text.take(at))
        } else {
            text
        },
        None => text,
    }
}

/// The characters of a slug before hyphens are merged: alphanumeric
/// characters in lowercase, a hyphen for each space and hyphen, nothing for
/// anything else.
pub open spec fn slug_chars(text: Seq<char>) -> Seq<char>
    decreases text.len(),
{
    if text.len() == 0 {
        Seq::empty()
    } else {
        let before = slug_chars(text.drop_last());
        let ch = text.last();
        if alphanumeric(ch) {
            before + char_lowercase(ch)
        } else if ch == ' ' || ch == '-' {
            before.push('-')
        } else {
            before
        }
    }
}

/// The identifier made from a heading's text: its slug characters with
/// runs of hyphens merged into one, without hyphens at either end.
pub open spec fn slug_of(text: Seq<char>) -> Seq<char> {
    trim_char(with_replaced(HYPHENS_PATTERN@, slug_chars(without_attributes(text)), "-"@), '-')
}

/// Makes the identifier of a heading from its text.
pub fn kramdown_slug(text: &str) -> (r: String)
    ensures
        r@ == slug_of(text@),
{
    slug_with(text, &Matcher::new(HYPHENS_PATTERN))
}

/// Makes the identifier of a heading from its text, with the pattern of
/// hyphens compiled.
fn slug_with(text: &str, hyphens: &Matcher) -> (r: String)
    requires
        hyphens@ == HYPHENS_PATTERN@,
    ensures
        r@ == slug_of(text@),
{
    let all = chars_of(text);
    let text = match rfind(all.as_slice(), '{') {
        Some(at) => {
            if all[all.len() - 1] == '}' {
                let head = slice_of(all.as_slice(), 0, at);
                assert(head@ =~= all@.take(at as int));
                trimmed(head.as_slice())
            } else {
                all
            }
        },
        None => all,
    };
    let mut slug: Vec<char> = Vec::new();
    let mut i: usize = 0;
    assert(text@.take(0) =~= Seq::<char>::empty());
    while i < text.len()
        invariant
            i <= text.len(),
            slug@ == slug_chars(text@.take(i as int)),
        decreases text.len() - i,
    {
        assert(text@.take(i + 1).drop_last() =~= text@.take(i as int));
        let ch = text[i];
        if is_alphanumeric(ch) {
            let lower = char_to_lowercase(ch);
            append(&mut slug, lower.as_slice());
        } else if ch == ' ' || ch == '-' {
            slug.push('-');
        }
        i += 1;
    }
    assert(text@.take(i as int) =~= text@);
    let merged = hyphens.replace_every(string_of(slug.as_slice()).as_str(), "-");
    let r = trim_matches(chars_of(merged.as_str()).as_slice(), '-');
    string_of(r.as_slice())
}

/// What one line holds for the rule.
#[derive(Debug, PartialEq, Eq)]
pub struct HeadingLine {
    /// Whether the line opens or closes a fenced code block.
    pub fence: bool,
    /// Whether the line is empty.
    pub blank: bool,
    /// Whether the line underlines a heading: whether it is made of equals
    /// signs, or of two hyphens or more.
    pub underline: bool,
    /// The identifier of the heading that the line is, where it begins
    /// with number signs.
    pub atx_id: Option<String>,
    /// The identifier of the heading whose text the line is, where the
    /// next line underlines it.
    pub text_id: String,
}

/// What a heading line stands for in contracts.
pub struct HeadingLineView {
    pub fence: bool,
    pub blank: bool,
    pub underline: bool,
    pub atx_id: Option<Seq<char>>,
    pub text_id: Seq<char>,
}

impl View for HeadingLine {
    type V = HeadingLineView;

    open spec fn view(&self) -> HeadingLineView {
        HeadingLineView {
            fence: self.fence,
            blank: self.blank,
            underline: self.underline,
            atx_id: text_view(self.atx_id),
            text_id: self.text_id@,
        }
    }
}

/// The views of the lines.
pub open spec fn headings_view(v: Seq<HeadingLine>) -> Seq<HeadingLineView> {
    Seq::new(v.len(), |i: int| v[i]@)
}

/// Whether every character of `s` is `c`.
pub open spec fn all_are(s: Seq<char>, c: char) -> bool {
    forall|i: int| 0 <= i < s.len() ==> s[i] == c
}

/// Whether a line without its terminator underlines a heading.
pub open spec fn is_underline(trimmed: Seq<char>) -> bool {
    (trimmed.len() > 0 && all_are(trimmed, '=')) || (trimmed.len() >= 2 && all_are(trimmed, '-'))
}

/// The identifier that the attributes in `trimmed` give.
pub open spec fn explicit_id(trimmed: Seq<char>) -> Option<Seq<char>> {
    match first_match(EXPLICIT_ID_PATTERN@, trimmed) {
        Some(groups) => group_of(groups, 1),
        None => None,
    }
}

/// The identifier of a heading with the text `text` in the line `trimmed`:
/// the one that the line's attributes give, else the slug of the text.
pub open spec fn heading_id(trimmed: Seq<char>, text: Seq<char>) -> Seq<char> {
    match explicit_id(trimmed) {
        Some(id) => id,
        None => slug_of(text),
    }
}

/// What a line holds for the rule.
pub open spec fn heading_line(line: Seq<char>) -> HeadingLineView {
    let trimmed = without_terminator(line);
    HeadingLineView {
        fence: is_fence(trimmed),
        blank: trimmed.len() == 0,
        underline: is_underline(trimmed),
        atx_id: match first_match(ATX_PATTERN@, trimmed) {
            Some(groups) => match group_of(groups, 2) {
                Some(text) => Some(heading_id(trimmed, trim(text))),
                None => None,
            },
            None => None,
        },
        text_id: heading_id(trimmed, trimmed),
    }
}

/// What the lines of a document hold for the rule.
pub open spec fn heading_lines(lines: Seq<Seq<char>>) -> Seq<HeadingLineView> {
    Seq::new(lines.len(), |i: int| heading_line(lines[i]))
}

/// Whether every character of `s` is `c`.
pub fn all_chars(s: &[char], c: char) -> (r: bool)
    ensures
        r == all_are(s@, c),
{
    let mut i: usize = 0;
    while i < s.len()
        invariant
            i <= s.len(),
            forall|k: int| 0 <= k < i ==> s@[k] == c,
        decreases s.len() - i,
    {
        if s[i] != c {
            return false;
        }
        i += 1;
    }
    true
}

/// The identifier of a heading with the text `text` in the line `trimmed`.
fn id_of(trimmed: &str, text: &[char], explicit_id: &Matcher, hyphens: &Matcher) -> (r: String)
    requires
        explicit_id@ == EXPLICIT_ID_PATTERN@,
        hyphens@ == HYPHENS_PATTERN@,
    ensures
        r@ == heading_id(trimmed@, text@),
{
    let explicit = match explicit_id.first(trimmed) {
        Some(groups) => match group(&groups, 1) {
            Some(id) => Some(id.clone()),
            None => None,
        },
        None => None,
    };
    match explicit {
        Some(id) => id,
        None => slug_with(string_of(text).as_str(), hyphens),
    }
}

/// Reads what the lines of a document hold for the rule.
pub fn scan_headings(lines: &Vec<String>) -> (r: Vec<HeadingLine>)
    ensures
        headings_view(r@) == heading_lines(texts_view(lines@)),
{
    let atx = Matcher::new(ATX_PATTERN);
    let explicit_id = Matcher::new(EXPLICIT_ID_PATTERN);
    let hyphens = Matcher::new(HYPHENS_PATTERN);
    let mut r: Vec<HeadingLine> = Vec::new();
    let mut i: usize = 0;
    while i < lines.len()
        invariant
            i <= lines.len(),
            r.len() == i,
            atx@ == ATX_PATTERN@,
            explicit_id@ == EXPLICIT_ID_PATTERN@,
            hyphens@ == HYPHENS_PATTERN@,
            forall|k: int| 0 <= k < i ==> r@[k]@ == heading_line(lines@[k]@),
        decreases lines.len() - i,
    {
        let trimmed = strip_terminator(chars_of(lines[i].as_str()).as_slice());
        let line = string_of(trimmed.as_slice());
        let underline = (trimmed.len() > 0 && all_chars(trimmed.as_slice(), '=')) || (trimmed.len()
            >= 2 && all_chars(trimmed.as_slice(), '-'));
        let atx_id = match atx.first(line.as_str()) {
            Some(groups) => match group(&groups, 2) {
                Some(text) => {
                    let heading = trimmed_text(text);
                    Some(id_of(line.as_str(), heading.as_slice(), &explicit_id, &hyphens))
                },
                None => None,
            },
            None => None,
        };
        r.push(
            HeadingLine {
                fence: fence_line(trimmed.as_slice()),
                blank: trimmed.len() == 0,
                underline,
                atx_id,
                text_id: id_of(line.as_str(), trimmed.as_slice(), &explicit_id, &hyphens),
            },
        );
        i += 1;
    }
    assert(headings_view(r@) =~= heading_lines(texts_view(lines@)));
    r
}

/// A text without the whitespace at its two ends.
fn trimmed_text(text: &String) -> (r: Vec<char>)
    ensures
        r@ == trim(text@),
{
    trimmed(chars_of(text.as_str()).as_slice())
}

/// The state of the search for headings: whether a fenced code block is
/// open, the line that may be the text of an underlined heading, and the
/// headings found, each with its identifier and its line.
pub struct HeadingScan {
    pub in_code: bool,
    pub previous: Option<int>,
    pub headings: Seq<Mention>,
}

/// `headings` with one more, unless its identifier is empty.
pub open spec fn with_heading(headings: Seq<Mention>, id: Seq<char>, line_number: int) -> Seq<
    Mention,
> {
    if id.len() > 0 {
        headings.push(Mention { label: id, line_number })
    } else {
        headings
    }
}

/// The state after the first `n` lines.
///
/// A fence opens or closes a code block, and nothing in a code block
/// counts. An underline makes a heading of the line before it, where that
/// line is text. A line that begins with number signs is a heading. Any
/// other line that is not empty may be the text of an underlined heading.
pub open spec fn heading_scan(facts: Seq<HeadingLineView>, n: int) -> HeadingScan
    decreases n,
{
    if n <= 0 || n > facts.len() {
        HeadingScan { in_code: false, previous: None, headings: Seq::empty() }
    } else {
        let before = heading_scan(facts, n - 1);
        let fact = facts[n - 1];
        if fact.fence {
            HeadingScan { in_code: !before.in_code, previous: None, headings: before.headings }
        } else if before.in_code {
            before
        } else if fact.underline && before.previous is Some {
            let at = before.previous->0;
            HeadingScan {
                in_code: false,
                previous: None,
                headings: with_heading(before.headings, facts[at].text_id, at + 1),
            }
        } else if fact.atx_id is Some {
            HeadingScan {
                in_code: false,
                previous: None,
                headings: with_heading(before.headings, fact.atx_id->0, n),
            }
        } else {
            HeadingScan {
                in_code: false,
                previous: if fact.blank {
                    None
                } else {
                    Some(n - 1)
                },
                headings: before.headings,
            }
        }
    }
}

/// The headings of a document, each with its identifier and its line.
pub open spec fn headings_of(facts: Seq<HeadingLineView>) -> Seq<Mention> {
    heading_scan(facts, facts.len() as int).headings
}

/// The line of the first heading with the identifier `id`.
pub open spec fn first_line_of(headings: Seq<Mention>, id: Seq<char>) -> int
    decreases headings.len(),
{
    if headings.len() == 0 {
        0
    } else if headings[0].label == id {
        headings[0].line_number
    } else {
        first_line_of(headings.drop_first(), id)
    }
}

/// The rule's names.
pub open spec fn kmd005_names() -> Seq<Seq<char>> {
    seq!["KMD005"@, "no-duplicate-heading-ids"@]
}

/// The issues of the headings: one for each heading whose identifier an
/// earlier heading has, on its line, naming the line of the first.
pub open spec fn duplicate_issues(headings: Seq<Mention>) -> Seq<LintErrorView> {
    let found = selected(headings.len() as int, |j: int| !is_first_mention(headings, j));
    Seq::new(
        found.len(),
        |k: int|
            plain_issue(
                kmd005_names(),
                "Heading IDs must be unique within the document"@,
                headings[found[k]].line_number,
                "Duplicate heading ID '"@ + headings[found[k]].label
                    + "' (first defined on line "@ + decimal(
                    first_line_of(headings, headings[found[k]].label) as nat,
                ) + ")"@,
            ),
    )
}

/// The first heading with an identifier gives `first_line_of` its line.
pub proof fn lemma_first_line_of(headings: Seq<Mention>, id: Seq<char>, k: int)
    requires
        0 <= k < headings.len(),
        headings[k].label == id,
        forall|m: int| 0 <= m < k ==> (#[trigger] headings[m]).label != id,
    ensures
        first_line_of(headings, id) == headings[k].line_number,
    decreases k,
{
    if k > 0 {
        assert(headings[0].label != id);
        let rest = headings.drop_first();
        assert(rest[k - 1] == headings[k]);
        assert forall|m: int| 0 <= m < k - 1 implies (#[trigger] rest[m]).label != id by {
            assert(rest[m] == headings[m + 1]);
        }
        lemma_first_line_of(rest, id, k - 1);
    }
}

/// Finds the headings of a document.
pub fn find_headings(facts: &Vec<HeadingLine>) -> (r: Vec<Label>)
    ensures
        labels_view(r@) == headings_of(headings_view(facts@)),
{
    let ghost all = headings_view(facts@);
    let mut headings: Vec<Label> = Vec::new();
    let mut in_code = false;
    let mut previous: Option<usize> = None;
    let mut i: usize = 0;
    while i < facts.len()
        invariant
            i <= facts.len(),
            all == headings_view(facts@),
            in_code == heading_scan(all, i as int).in_code,
            match previous {
                Some(at) => at < i && heading_scan(all, i as int).previous == Some(at as int),
                None => heading_scan(all, i as int).previous is None,
            },
            labels_view(headings@) == heading_scan(all, i as int).headings,
        decreases facts.len() - i,
    {
        let fact = &facts[i];
        assert(all[i as int] == fact@);
        let ghost before = labels_view(headings@);
        if fact.fence {
            in_code = !in_code;
            previous = None;
        } else if in_code {
        } else if fact.underline && previous.is_some() {
            let at = previous.unwrap();
            assert(all[at as int] == facts@[at as int]@);
            let id = &facts[at].text_id;
            if id.as_str().unicode_len() > 0 {
                headings.push(Label { label: id.clone(), line_number: at + 1 });
                assert(labels_view(headings@) =~= before.push(
                    Mention { label: id@, line_number: at + 1 },
                ));
            }
            previous = None;
        } else if fact.atx_id.is_some() {
            match &fact.atx_id {
                Some(id) => {
                    if id.as_str().unicode_len() > 0 {
                        headings.push(Label { label: id.clone(), line_number: i + 1 });
                        assert(labels_view(headings@) =~= before.push(
                            Mention { label: id@, line_number: i + 1 },
                        ));
                    }
                },
                None => {},
            }
            previous = None;
        } else {
            previous = if fact.blank { None } else { Some(i) };
        }
        i += 1;
    }
    headings
}

/// Reports the headings whose identifier an earlier heading has.
pub fn report_duplicates(headings: &Vec<Label>) -> (errors: Vec<LintError>)
    ensures
        issues_view(errors@) == duplicate_issues(labels_view(headings@)),
{
    let ghost all = labels_view(headings@);
    let ghost wanted = |j: int| !is_first_mention(all, j);
    let mut errors: Vec<LintError> = Vec::new();
    let mut j: usize = 0;
    while j < headings.len()
        invariant
            j <= headings.len(),
            all == labels_view(headings@),
            wanted == (|j: int| !is_first_mention(all, j)),
            errors@.len() == selected(j as int, wanted).len(),
            forall|k: int|
                0 <= k < errors@.len() ==> errors@[k]@ == plain_issue(
                    kmd005_names(),
                    "Heading IDs must be unique within the document"@,
                    all[selected(j as int, wanted)[k]].line_number,
                    "Duplicate heading ID '"@ + all[selected(j as int, wanted)[k]].label
                        + "' (first defined on line "@ + decimal(
                        first_line_of(all, all[selected(j as int, wanted)[k]].label) as nat,
                    ) + ")"@,
                ),
        decreases headings.len() - j,
    {
        let heading = &headings[j];
        assert(all[j as int] == heading@);
        let mut first: Option<usize> = None;
        let mut k: usize = 0;
        while k < j && first.is_none()
            invariant
                k <= j < headings.len(),
                all == labels_view(headings@),
                all[j as int] == heading@,
                forall|m: int|
                    0 <= m < (match first {
                        Some(at) => at as int,
                        None => k as int,
                    }) ==> (#[trigger] all[m]).label != all[j as int].label,
                match first {
                    Some(at) => at < j && all[at as int].label == all[j as int].label,
                    None => true,
                },
            decreases j - k,
        {
            assert(all[k as int] == headings@[k as int]@);
            if headings[k].label == heading.label {
                first = Some(k);
            }
            k += 1;
        }
        match first {
            Some(at) => {
                assert(all[at as int] == headings@[at as int]@);
                proof {
                    lemma_first_line_of(all, all[j as int].label, at as int);
                }
                let mut detail: Vec<char> = Vec::new();
                append_str(&mut detail, "Duplicate heading ID '");
                append_str(&mut detail, heading.label.as_str());
                append_str(&mut detail, "' (first defined on line ");
                append(&mut detail, decimal_of(headings[at].line_number).as_slice());
                append_str(&mut detail, ")");
                let names = strings(vec!["KMD005", "no-duplicate-heading-ids"]);
                assert(texts_view(names@) =~= kmd005_names());
                errors.push(
                    make_issue(
                        names,
                        string_of(
                            chars_of("Heading IDs must be unique within the document").as_slice(),
                        ),
                        heading.line_number,
                        string_of(detail.as_slice()),
                    ),
                );
                assert(wanted(j as int));
            },
            None => {
                assert(!wanted(j as int));
            },
        }
        j += 1;
    }
    assert(issues_view(errors@) =~= duplicate_issues(all));
    errors
}

impl Rule for KMD005 {
    fn names(&self) -> (r: Vec<String>)
        ensures
            texts_view(r@) == kmd005_names(),
    {
        let r = strings(vec!["KMD005", "no-duplicate-heading-ids"]);
        assert(texts_view(r@) =~= kmd005_names());
        r
    }

    fn description(&self) -> (r: String)
        ensures
            r@ == "Heading IDs must be unique within the document"@,
    {
        string_of(chars_of("Heading IDs must be unique within the document").as_slice())
    }

    fn tags(&self) -> (r: Vec<String>)
        ensures
            texts_view(r@) == seq!["kramdown"@, "headings"@, "ids"@],
    {
        let r = strings(vec!["kramdown", "headings", "ids"]);
        assert(texts_view(r@) =~= seq!["kramdown"@, "headings"@, "ids"@]);
        r
    }

    fn parser_type(&self) -> (r: ParserType)
        ensures
            r == ParserType::NoParser,
    {
        ParserType::NoParser
    }

    fn is_enabled_by_default(&self) -> (r: bool)
        ensures
            !r,
    {
        false
    }

    fn information(&self) -> (r: Option<String>)
        ensures
            r is None,
    {
        None
    }

    fn lint(&self, params: &RuleParams) -> (errors: Vec<LintError>)
        ensures
            issues_view(errors@) == duplicate_issues(
                headings_of(heading_lines(texts_view(params.lines@))),
            ),
    {
        let facts = scan_headings(&params.lines);
        let headings = find_headings(&facts);
        report_duplicates(&headings)
    }
}

} // verus!
