use mkdlint::formatters::text::{format_text, issue_line, issue_message, rule_moniker};
use mkdlint::lsp::diagnostics::{column_of, diagnostics_for, lint_error_to_diagnostic};
use mkdlint::lsp::protocol::{Position, Range};
use mkdlint::results::{less, LintResults};
use mkdlint::types::{LintError, Severity};

fn lines(text: &[&str]) -> Vec<String> {
    text.iter().map(|s| s.to_string()).collect()
}

fn chars(s: &str) -> Vec<char> {
    s.chars().collect()
}

fn text(v: Vec<char>) -> String {
    v.into_iter().collect()
}

#[test]
fn test_diagnostic_defaults_to_the_whole_line() {
    let error = LintError {
        line_number: 2,
        rule_names: vec!["MD001".to_string(), "heading-increment".to_string()],
        rule_description: "Heading levels should increment by one".to_string(),
        severity: Severity::Warning,
        ..Default::default()
    };
    let d = lint_error_to_diagnostic(&error, &lines(&["# A", "### B"]));
    assert_eq!(d.range, Range { start: Position::new(1, 0), end: Position::new(1, 5) });
    assert_eq!(d.severity, Severity::Warning);
    assert_eq!(d.code, "MD001");
    assert_eq!(d.source, "mkdlint");
    assert_eq!(d.message, "MD001/heading-increment Heading levels should increment by one");
}

#[test]
fn test_diagnostic_range_in_utf16_units() {
    let error = LintError {
        line_number: 1,
        rule_names: vec!["X".to_string()],
        error_range: Some((3, 5)),
        ..Default::default()
    };
    let d = lint_error_to_diagnostic(&error, &lines(&["a😀bcd"]));
    assert_eq!(d.range, Range { start: Position::new(0, 3), end: Position::new(0, 5) });
    let d = lint_error_to_diagnostic(&error, &lines(&["éèbcd"]));
    assert_eq!(d.range, Range { start: Position::new(0, 2), end: Position::new(0, 4) });
    let whole = LintError { line_number: 1, ..Default::default() };
    let d = lint_error_to_diagnostic(&whole, &lines(&["a😀b"]));
    assert_eq!(d.range.end, Position::new(0, 4));
}

#[test]
fn test_diagnostic_columns_beyond_the_line() {
    assert_eq!(column_of(&chars("abc"), 1), 0);
    assert_eq!(column_of(&chars("abc"), 0), 0);
    assert_eq!(column_of(&chars("abc"), 4), 3);
    assert_eq!(column_of(&chars("abc"), 99), 3);
    assert_eq!(column_of(&chars("😀😀"), 2), 2);
    assert_eq!(column_of(&chars("😀😀"), 3), 4);
    assert_eq!(column_of(&chars(""), 5), 0);
}

#[test]
fn test_diagnostic_for_a_line_that_does_not_exist() {
    let error = LintError { line_number: 9, error_range: Some((2, 4)), ..Default::default() };
    let d = lint_error_to_diagnostic(&error, &lines(&["one"]));
    assert_eq!(d.range, Range { start: Position::new(8, 0), end: Position::new(8, 0) });
    assert_eq!(d.code, "unknown");
    let zero = LintError { line_number: 0, ..Default::default() };
    let d = lint_error_to_diagnostic(&zero, &lines(&["one"]));
    assert_eq!(d.range, Range { start: Position::new(0, 0), end: Position::new(0, 3) });
}

#[test]
fn test_diagnostic_message_has_detail_and_context() {
    let error = LintError {
        line_number: 1,
        rule_names: vec!["MD051".to_string(), "link-fragments".to_string()],
        rule_description: "Link fragments should be valid".to_string(),
        error_detail: Some("No matching heading".to_string()),
        error_context: Some("[a](#b)".to_string()),
        severity: Severity::Error,
        ..Default::default()
    };
    assert_eq!(
        issue_message(&error),
        "MD051/link-fragments Link fragments should be valid [No matching heading] [Context: \"[a](#b)\"]"
    );
    let only_context = LintError { error_detail: None, ..error.clone() };
    assert_eq!(
        issue_message(&only_context),
        "MD051/link-fragments Link fragments should be valid [Context: \"[a](#b)\"]"
    );
    assert_eq!(text(rule_moniker(&vec![])), "");
    assert_eq!(text(rule_moniker(&vec!["A".to_string()])), "A");
}

#[test]
fn test_diagnostics_keep_the_order_of_the_issues() {
    let errors = vec![
        LintError { line_number: 2, rule_names: vec!["B".to_string()], ..Default::default() },
        LintError { line_number: 1, rule_names: vec!["A".to_string()], ..Default::default() },
    ];
    let diagnostics = diagnostics_for(&errors, &lines(&["x", "yy"]));
    assert_eq!(diagnostics.len(), 2);
    assert_eq!(diagnostics[0].code, "B");
    assert_eq!(diagnostics[0].range.end, Position::new(1, 2));
    assert_eq!(diagnostics[1].code, "A");
    assert!(diagnostics_for(&vec![], &lines(&[])).is_empty());
}

#[test]
fn test_format_text_empty() {
    let results = LintResults::new();
    assert_eq!(format_text(&results), "");
}

#[test]
fn test_format_text_with_errors() {
    colored::control::set_override(false);
    let mut results = LintResults::new();
    results.add(
        "test.md".to_string(),
        vec![LintError {
            line_number: 1,
            rule_names: vec!["MD001".to_string(), "heading-increment".to_string()],
            rule_description: "Heading levels should increment by one".to_string(),
            severity: Severity::Error,
            ..Default::default()
        }],
    );
    let output = format_text(&results);
    assert!(output.contains("test.md"));
    assert!(output.contains("MD001"));
}

#[test]
fn test_format_text_summary() {
    colored::control::set_override(false);
    let mut results = LintResults::new();
    results.add(
        "test.md".to_string(),
        vec![
            LintError {
                line_number: 1,
                rule_names: vec!["MD001".to_string()],
                rule_description: "test".to_string(),
                severity: Severity::Error,
                ..Default::default()
            },
            LintError {
                line_number: 2,
                rule_names: vec!["MD059".to_string()],
                rule_description: "test".to_string(),
                severity: Severity::Warning,
                ..Default::default()
            },
        ],
    );
    let output = format_text(&results);
    assert!(output.contains("1 error(s), 1 warning(s) in 1 file(s)"));
}

#[test]
fn test_format_text_lines_when_unpainted() {
    colored::control::set_override(false);
    let mut results = LintResults::new();
    results.add(
        "b.md".to_string(),
        vec![LintError {
            line_number: 12,
            rule_names: vec!["MD009".to_string(), "no-trailing-spaces".to_string()],
            rule_description: "Trailing spaces".to_string(),
            error_detail: Some("Expected: 0; Actual: 2".to_string()),
            error_context: Some("text  ".to_string()),
            severity: Severity::Warning,
            ..Default::default()
        }],
    );
    results.add(
        "a.md".to_string(),
        vec![LintError {
            line_number: 3,
            rule_names: vec!["MD001".to_string()],
            rule_description: "Heading".to_string(),
            severity: Severity::Error,
            ..Default::default()
        }],
    );
    results.add("empty.md".to_string(), vec![]);
    assert_eq!(
        format_text(&results),
        "a.md: 3: MD001 Heading\n\
         b.md: 12: MD009/no-trailing-spaces Trailing spaces [Expected: 0; Actual: 2] [Context: \"text  \"]\n\
         \n\
         1 error(s), 1 warning(s) in 2 file(s)"
    );
}

#[test]
fn test_format_text_paints_when_colours_are_on() {
    colored::control::set_override(true);
    let mut results = LintResults::new();
    results.add(
        "a.md".to_string(),
        vec![LintError {
            line_number: 3,
            rule_names: vec!["MD001".to_string()],
            rule_description: "Heading".to_string(),
            severity: Severity::Error,
            ..Default::default()
        }],
    );
    let output = format_text(&results);
    colored::control::set_override(false);
    assert!(output.contains('\u{1b}'));
    assert!(output.contains("a.md"));
    assert!(output.contains("MD001"));
    assert!(output.contains(" Heading"));
    assert!(output.contains("1 error(s), 0 warning(s) in 1 file(s)"));
}

#[test]
fn test_issue_line_from_given_pieces() {
    assert_eq!(
        text(issue_line("<f>", "<7>", "<r>", "desc", Some("<d>"), Some("<c>"))),
        "<f>: <7>: <r> desc <d> <c>"
    );
    assert_eq!(text(issue_line("f", "7", "r", "desc", None, Some("c"))), "f: 7: r desc c");
    assert_eq!(text(issue_line("", "", "", "", None, None)), ": :  ");
}

#[test]
fn test_results_are_kept_in_file_order() {
    let mut results = LintResults::new();
    assert!(results.is_empty());
    let one = LintError { line_number: 1, severity: Severity::Error, ..Default::default() };
    let two = LintError { line_number: 2, severity: Severity::Warning, ..Default::default() };
    results.add("b.md".to_string(), vec![one.clone()]);
    results.add("a.md".to_string(), vec![two.clone(), two.clone()]);
    results.add("c.md".to_string(), vec![]);
    results.add("ab.md".to_string(), vec![one.clone()]);
    assert_eq!(results.len(), 4);
    assert_eq!(results.entry(0).file, "a.md");
    assert_eq!(results.entry(1).file, "ab.md");
    assert_eq!(results.entry(2).file, "b.md");
    assert_eq!(results.entry(3).file, "c.md");
    assert_eq!(results.error_count(), 2);
    assert_eq!(results.warning_count(), 2);
    assert_eq!(
        results.files_with_errors(),
        vec!["a.md".to_string(), "ab.md".to_string(), "b.md".to_string()]
    );
    assert!(!results.is_empty());
    results.add("b.md".to_string(), vec![]);
    assert_eq!(results.len(), 4);
    assert_eq!(results.error_count(), 1);
    assert_eq!(results.get("a.md").unwrap().len(), 2);
    assert!(results.get("b.md").unwrap().is_empty());
    assert!(results.get("z.md").is_none());
}

#[test]
fn test_order_of_strings() {
    assert!(less(&chars("a"), &chars("b")));
    assert!(!less(&chars("b"), &chars("a")));
    assert!(less(&chars(""), &chars("a")));
    assert!(!less(&chars(""), &chars("")));
    assert!(!less(&chars("a"), &chars("a")));
    assert!(less(&chars("a"), &chars("ab")));
    assert!(less(&chars("Z"), &chars("a")));
    assert!(less(&chars("z"), &chars("é")));
}
