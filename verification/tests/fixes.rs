use mkdlint::fixes::apply_fixes;
use mkdlint::types::{FixInfo, LintError, Severity};

fn issue(line: usize, fix: Option<FixInfo>) -> LintError {
    LintError {
        line_number: line,
        rule_names: vec!["MD000".to_string(), "test".to_string()],
        rule_description: "Test".to_string(),
        error_detail: None,
        error_context: None,
        rule_information: None,
        error_range: None,
        fix_info: fix,
        suggestion: None,
        severity: Severity::Warning,
        fix_only: false,
    }
}

fn fix(line: Option<usize>, column: Option<usize>, delete: Option<i32>, insert: Option<&str>) -> FixInfo {
    FixInfo {
        line_number: line,
        edit_column: column,
        delete_count: delete,
        insert_text: insert.map(|s| s.to_string()),
    }
}

#[test]
fn test_apply_insert_fix() {
    let errors = vec![issue(1, Some(fix(None, Some(3), None, Some(" "))))];
    assert_eq!(apply_fixes("# Test\n", &errors), "#  Test\n");
}

#[test]
fn test_apply_whole_line_delete() {
    let errors = vec![issue(1, Some(fix(Some(2), Some(1), Some(-1), None)))];
    assert_eq!(apply_fixes("> line 1\n\n> line 2\n", &errors), "> line 1\n> line 2\n");
}

#[test]
fn test_apply_delete_and_replace() {
    let errors = vec![issue(1, Some(fix(None, Some(3), Some(2), None)))];
    assert_eq!(apply_fixes("#  Test\n", &errors), "# est\n");
    let errors = vec![issue(1, Some(fix(None, Some(2), Some(1), None)))];
    assert_eq!(apply_fixes("#  Test\n", &errors), "# Test\n");
    let errors = vec![issue(1, Some(fix(None, Some(1), Some(9), Some("## Heading"))))];
    assert_eq!(apply_fixes("_Heading_\n", &errors), "## Heading\n");
}

#[test]
fn test_apply_no_fixes_keeps_content() {
    assert_eq!(apply_fixes("a\nb\n", &[]), "a\nb\n");
    assert_eq!(apply_fixes("a\nb\n", &[issue(1, None), issue(2, None)]), "a\nb\n");
    assert_eq!(apply_fixes("", &[issue(1, Some(fix(None, Some(1), None, Some("x"))))]), "");
}

#[test]
fn test_apply_fixes_on_several_lines_in_any_order() {
    let content = "one\ntwo\nthree\n";
    let errors = vec![
        issue(3, Some(fix(None, Some(1), Some(5), Some("3")))),
        issue(1, Some(fix(None, Some(4), None, Some("!")))),
        issue(2, Some(fix(None, None, Some(-1), None))),
    ];
    assert_eq!(apply_fixes(content, &errors), "one!\n3\n");
}

#[test]
fn test_overlapping_fixes_first_wins() {
    let content = "abcdef\n";
    let errors = vec![
        issue(1, Some(fix(None, Some(2), Some(3), Some("X")))),
        issue(1, Some(fix(None, Some(4), Some(2), Some("Y")))),
    ];
    assert_eq!(apply_fixes(content, &errors), "aXef\n");
    let swapped = vec![
        issue(1, Some(fix(None, Some(4), Some(2), Some("Y")))),
        issue(1, Some(fix(None, Some(2), Some(3), Some("X")))),
    ];
    assert_eq!(apply_fixes(content, &swapped), "abcYf\n");
}

#[test]
fn test_fixes_at_the_same_place_first_wins() {
    let content = "abc\n";
    let errors = vec![
        issue(1, Some(fix(None, Some(2), None, Some("1")))),
        issue(1, Some(fix(None, Some(2), None, Some("2")))),
        issue(1, Some(fix(None, Some(2), Some(1), None))),
    ];
    assert_eq!(apply_fixes(content, &errors), "a1bc\n");
}

#[test]
fn test_adjacent_fixes_are_both_applied() {
    let content = "abcdef\n";
    let errors = vec![
        issue(1, Some(fix(None, Some(1), Some(2), Some("X")))),
        issue(1, Some(fix(None, Some(3), Some(2), Some("Y")))),
        issue(1, Some(fix(None, Some(7), None, Some("!")))),
    ];
    assert_eq!(apply_fixes(content, &errors), "XYef!\n");
}

#[test]
fn test_line_delete_collides_with_edit_in_that_line() {
    let content = "keep\ndrop me\nkeep\n";
    let errors = vec![
        issue(2, Some(fix(None, None, Some(-1), None))),
        issue(2, Some(fix(None, Some(3), Some(1), None))),
        issue(3, Some(fix(None, Some(1), None, Some("> ")))),
    ];
    assert_eq!(apply_fixes(content, &errors), "keep\n> keep\n");
}

#[test]
fn test_fix_that_leaves_its_line_is_not_applied() {
    let content = "ab\ncd\n";
    let errors = vec![
        issue(1, Some(fix(None, Some(2), Some(2), Some("X")))),
        issue(1, Some(fix(None, Some(4), None, Some("Y")))),
        issue(9, Some(fix(None, Some(1), None, Some("Z")))),
        issue(2, Some(fix(None, None, Some(3), None))),
    ];
    assert_eq!(apply_fixes(content, &errors), "ab\ncd\n");
    let within = vec![issue(1, Some(fix(None, Some(2), Some(1), Some("X"))))];
    assert_eq!(apply_fixes(content, &within), "aX\ncd\n");
    let at_end = vec![issue(1, Some(fix(None, Some(3), None, Some("Y"))))];
    assert_eq!(apply_fixes(content, &at_end), "abY\ncd\n");
}

#[test]
fn test_delete_last_line_without_terminator() {
    let errors = vec![issue(2, Some(fix(None, None, Some(-1), None)))];
    assert_eq!(apply_fixes("first\nlast", &errors), "first\n");
    assert_eq!(apply_fixes("first\nlast\n", &errors), "first\n");
    let only = vec![issue(1, Some(fix(None, None, Some(-1), None)))];
    assert_eq!(apply_fixes("only", &only), "");
}

#[test]
fn test_fixes_keep_carriage_returns() {
    let content = "a b\r\nc\r\n";
    let errors = vec![
        issue(1, Some(fix(None, Some(2), Some(1), Some("-")))),
        issue(2, Some(fix(None, Some(2), None, Some("!")))),
    ];
    assert_eq!(apply_fixes(content, &errors), "a-b\r\nc!\r\n");
    let beyond = vec![issue(1, Some(fix(None, Some(4), Some(1), None)))];
    assert_eq!(apply_fixes(content, &beyond), content);
    let line = vec![issue(1, Some(fix(None, None, Some(-1), None)))];
    assert_eq!(apply_fixes(content, &line), "c\r\n");
}

#[test]
fn test_columns_count_characters() {
    let content = "é—x\n";
    let errors = vec![issue(1, Some(fix(None, Some(3), Some(1), Some("y"))))];
    assert_eq!(apply_fixes(content, &errors), "é—y\n");
}

#[test]
fn test_apply_fixes_is_a_function_of_its_input() {
    let content = "# Title\n\n\ntext  \n";
    let errors = vec![
        issue(3, Some(fix(None, None, Some(-1), None))),
        issue(4, Some(fix(None, Some(5), Some(2), None))),
    ];
    let once = apply_fixes(content, &errors);
    let again = apply_fixes(content, &errors);
    assert_eq!(once, "# Title\n\ntext\n");
    assert_eq!(once, again);
    assert_eq!(errors[0].fix_info.as_ref().unwrap().delete_count, Some(-1));
}
