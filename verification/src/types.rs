//! The data that rules report and that the editor integration consumes.

use vstd::prelude::*;

verus! {

/// How serious a reported issue is.
#[derive(Clone, Copy, Debug, PartialEq, Eq, Structural)]
pub enum Severity {
    Error,
    Warning,
}

/// The view of an optional string.
pub open spec fn text_view(o: Option<String>) -> Option<Seq<char>> {
    match o {
        Some(s) => Some(s@),
        None => None,
    }
}

/// The view of a list of strings.
pub open spec fn texts_view(v: Seq<String>) -> Seq<Seq<char>> {
    Seq::new(v.len(), |i: int| v[i]@)
}

/// A copy of an optional string.
pub fn clone_text(o: &Option<String>) -> (r: Option<String>)
    ensures
        text_view(r) == text_view(*o),
{
    match o {
        Some(s) => Some(s.clone()),
        None => None,
    }
}

/// A copy of a list of strings.
pub fn clone_texts(v: &Vec<String>) -> (r: Vec<String>)
    ensures
        texts_view(r@) == texts_view(v@),
{
    let mut r: Vec<String> = Vec::new();
    let mut i: usize = 0;
    while i < v.len()
        invariant
            i <= v.len(),
            r.len() == i,
            forall|k: int| 0 <= k < i ==> r@[k]@ == v@[k]@,
        decreases v.len() - i,
    {
        r.push(v[i].clone());
        i += 1;
    }
    assert(texts_view(r@) =~= texts_view(v@));
    r
}

/// A textual change that repairs an issue.
///
/// `delete_count` of `-1` deletes the whole target line with its terminator
/// and ignores `edit_column`; a positive count deletes that many characters
/// from `edit_column` on; anything else only inserts.
#[derive(Debug, PartialEq, Eq)]
pub struct FixInfo {
    /// The 1-based line to edit, where it is not the issue's own line.
    pub line_number: Option<usize>,
    /// The 1-based column at which the edit begins.
    pub edit_column: Option<usize>,
    pub delete_count: Option<i32>,
    pub insert_text: Option<String>,
}

/// What a fix stands for in contracts.
pub struct FixInfoView {
    pub line_number: Option<usize>,
    pub edit_column: Option<usize>,
    pub delete_count: Option<i32>,
    pub insert_text: Option<Seq<char>>,
}

impl View for FixInfo {
    type V = FixInfoView;

    open spec fn view(&self) -> FixInfoView {
        FixInfoView {
            line_number: self.line_number,
            edit_column: self.edit_column,
            delete_count: self.delete_count,
            insert_text: text_view(self.insert_text),
        }
    }
}

impl Default for FixInfo {
    fn default() -> (r: Self)
        ensures
            r@ == (FixInfoView {
                line_number: None,
                edit_column: None,
                delete_count: None,
                insert_text: None,
            }),
    {
        FixInfo { line_number: None, edit_column: None, delete_count: None, insert_text: None }
    }
}

impl Clone for FixInfo {
    fn clone(&self) -> (r: Self)
        ensures
            r@ == self@,
    {
        FixInfo {
            line_number: self.line_number,
            edit_column: self.edit_column,
            delete_count: self.delete_count,
            insert_text: clone_text(&self.insert_text),
        }
    }
}

/// The view of an optional fix.
pub open spec fn fix_view(o: Option<FixInfo>) -> Option<FixInfoView> {
    match o {
        Some(f) => Some(f@),
        None => None,
    }
}

/// One issue reported by a rule.
#[derive(Debug, PartialEq, Eq)]
pub struct LintError {
    /// The 1-based line the issue is on.
    pub line_number: usize,
    /// The rule's names: its stable identifier first, then its alias.
    pub rule_names: Vec<String>,
    pub rule_description: String,
    pub error_detail: Option<String>,
    /// The offending text.
    pub error_context: Option<String>,
    /// Where the rule is documented.
    pub rule_information: Option<String>,
    /// The 1-based columns at which the issue starts and ends within its line.
    pub error_range: Option<(usize, usize)>,
    pub fix_info: Option<FixInfo>,
    pub suggestion: Option<String>,
    pub severity: Severity,
    /// Whether the issue exists only to carry its fix.
    pub fix_only: bool,
}

/// What an issue stands for in contracts.
pub struct LintErrorView {
    pub line_number: usize,
    pub rule_names: Seq<Seq<char>>,
    pub rule_description: Seq<char>,
    pub error_detail: Option<Seq<char>>,
    pub error_context: Option<Seq<char>>,
    pub rule_information: Option<Seq<char>>,
    pub error_range: Option<(usize, usize)>,
    pub fix_info: Option<FixInfoView>,
    pub suggestion: Option<Seq<char>>,
    pub severity: Severity,
    pub fix_only: bool,
}

impl View for LintError {
    type V = LintErrorView;

    open spec fn view(&self) -> LintErrorView {
        LintErrorView {
            line_number: self.line_number,
            rule_names: texts_view(self.rule_names@),
            rule_description: self.rule_description@,
            error_detail: text_view(self.error_detail),
            error_context: text_view(self.error_context),
            rule_information: text_view(self.rule_information),
            error_range: self.error_range,
            fix_info: fix_view(self.fix_info),
            suggestion: text_view(self.suggestion),
            severity: self.severity,
            fix_only: self.fix_only,
        }
    }
}

impl Default for LintError {
    fn default() -> (r: Self)
        ensures
            r@ == (LintErrorView {
                line_number: 0,
                rule_names: Seq::empty(),
                rule_description: Seq::empty(),
                error_detail: None,
                error_context: None,
                rule_information: None,
                error_range: None,
                fix_info: None,
                suggestion: None,
                severity: Severity::Error,
                fix_only: false,
            }),
    {
        let r = LintError {
            line_number: 0,
            rule_names: Vec::new(),
            rule_description: String::new(),
            error_detail: None,
            error_context: None,
            rule_information: None,
            error_range: None,
            fix_info: None,
            suggestion: None,
            severity: Severity::Error,
            fix_only: false,
        };
        assert(texts_view(r.rule_names@) =~= Seq::empty());
        r
    }
}

impl Clone for LintError {
    fn clone(&self) -> (r: Self)
        ensures
            r@ == self@,
    {
        let fix_info = match &self.fix_info {
            Some(f) => Some(f.clone()),
            None => None,
        };
        LintError {
            line_number: self.line_number,
            rule_names: clone_texts(&self.rule_names),
            rule_description: self.rule_description.clone(),
            error_detail: clone_text(&self.error_detail),
            error_context: clone_text(&self.error_context),
            rule_information: clone_text(&self.rule_information),
            error_range: self.error_range,
            fix_info,
            suggestion: clone_text(&self.suggestion),
            severity: self.severity,
            fix_only: self.fix_only,
        }
    }
}

/// The views of a list of issues.
pub open spec fn issues_view(v: Seq<LintError>) -> Seq<LintErrorView> {
    Seq::new(v.len(), |i: int| v[i]@)
}

/// A copy of a list of issues.
pub fn clone_issues(v: &Vec<LintError>) -> (r: Vec<LintError>)
    ensures
        issues_view(r@) == issues_view(v@),
{
    let mut r: Vec<LintError> = Vec::new();
    let mut i: usize = 0;
    while i < v.len()
        invariant
            i <= v.len(),
            r.len() == i,
            forall|k: int| 0 <= k < i ==> r@[k]@ == v@[k]@,
        decreases v.len() - i,
    {
        r.push(v[i].clone());
        i += 1;
    }
    assert(issues_view(r@) =~= issues_view(v@));
    r
}

} // verus!
