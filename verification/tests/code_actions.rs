use mkdlint::lsp::code_actions::{
    calculate_text_edit, create_delete_line_edit, edit_distance, fix_to_code_action,
    md051_code_actions, rank_candidates,
};
use mkdlint::lsp::protocol::{CodeActionKind, Diagnostic, Position, Range};
use mkdlint::types::{FixInfo, LintError, Severity};

fn create_test_error_with_fix(fix_info: FixInfo) -> LintError {
    LintError {
        line_number: 1,
        rule_names: vec!["MD001".to_string()],
        rule_description: "Test rule".to_string(),
        error_detail: None,
        error_context: None,
        rule_information: None,
        error_range: None,
        fix_info: Some(fix_info),
        suggestion: Some("Apply fix".to_string()),
        severity: Severity::Error,
        fix_only: false,
    }
}

fn md051_error(line_number: usize, detail: Option<&str>, context: Option<&str>) -> LintError {
    LintError {
        line_number,
        rule_names: vec!["MD051".to_string(), "link-fragments".to_string()],
        rule_description: "Link fragments should be valid".to_string(),
        error_detail: detail.map(|s| s.to_string()),
        error_context: context.map(|s| s.to_string()),
        rule_information: None,
        error_range: None,
        fix_info: None,
        suggestion: None,
        severity: Severity::Error,
        fix_only: false,
    }
}

#[test]
fn test_insert_text_fix() {
    let fix_info = FixInfo {
        line_number: None,
        edit_column: Some(3),
        delete_count: None,
        insert_text: Some(" ".to_string()),
    };

    let error = create_test_error_with_fix(fix_info);
    let content = "# Test\n";
    let uri = "file:///tmp/test.md";

    let action = fix_to_code_action(uri, &error, content, None);
    assert!(action.is_some());

    let ca = action.unwrap();
    assert_eq!(ca.kind, CodeActionKind::QuickFix);
    assert!(ca.title.contains("Test rule"));

    let edit = ca.edit.unwrap();
    assert_eq!(edit.uri, uri);
    let text_edits = edit.edits;
    assert_eq!(text_edits.len(), 1);

    let text_edit = &text_edits[0];
    assert_eq!(text_edit.range.start, Position::new(0, 2));
    assert_eq!(text_edit.range.end, Position::new(0, 2));
    assert_eq!(text_edit.new_text, " ");
}

#[test]
fn test_delete_chars_fix() {
    let fix_info = FixInfo {
        line_number: None,
        edit_column: Some(3),
        delete_count: Some(2),
        insert_text: None,
    };

    let error = create_test_error_with_fix(fix_info);
    let content = "#  Test\n";
    let uri = "file:///tmp/test.md";

    let action = fix_to_code_action(uri, &error, content, None);
    assert!(action.is_some());

    let ca = action.unwrap();
    let edit = ca.edit.unwrap();
    let text_edit = &edit.edits[0];

    assert_eq!(text_edit.range.start, Position::new(0, 2));
    assert_eq!(text_edit.range.end, Position::new(0, 4));
    assert_eq!(text_edit.new_text, "");
}

#[test]
fn test_replace_text_fix() {
    let fix_info = FixInfo {
        line_number: None,
        edit_column: Some(1),
        delete_count: Some(9),
        insert_text: Some("## Heading".to_string()),
    };

    let error = create_test_error_with_fix(fix_info);
    let content = "_Heading_\n";
    let uri = "file:///tmp/test.md";

    let action = fix_to_code_action(uri, &error, content, None);
    assert!(action.is_some());

    let ca = action.unwrap();
    let edit = ca.edit.unwrap();
    let text_edit = &edit.edits[0];

    assert_eq!(text_edit.range.start, Position::new(0, 0));
    assert_eq!(text_edit.range.end, Position::new(0, 9));
    assert_eq!(text_edit.new_text, "## Heading");
}

#[test]
fn test_delete_line_fix() {
    let fix_info = FixInfo {
        line_number: Some(2),
        edit_column: Some(1),
        delete_count: Some(-1),
        insert_text: None,
    };

    let error = create_test_error_with_fix(fix_info);
    let content = "> line 1\n\n> line 2\n";
    let uri = "file:///tmp/test.md";

    let action = fix_to_code_action(uri, &error, content, None);
    assert!(action.is_some());

    let ca = action.unwrap();
    let edit = ca.edit.unwrap();
    let text_edit = &edit.edits[0];

    assert_eq!(text_edit.range.start, Position::new(1, 0));
    assert_eq!(text_edit.range.end, Position::new(2, 0));
    assert_eq!(text_edit.new_text, "");
}

#[test]
fn test_no_fix_info() {
    let mut error = create_test_error_with_fix(FixInfo {
        line_number: None,
        edit_column: None,
        delete_count: None,
        insert_text: None,
    });
    error.fix_info = None;

    let content = "# Test\n";
    let uri = "file:///tmp/test.md";

    let action = fix_to_code_action(uri, &error, content, None);
    assert!(action.is_none());
}

#[test]
fn test_edit_distance() {
    assert_eq!(edit_distance("", ""), 0);
    assert_eq!(edit_distance("abc", "abc"), 0);
    assert_eq!(edit_distance("kitten", "sitting"), 3);
    assert_eq!(edit_distance("introductoin", "introduction"), 2);
    assert_eq!(edit_distance("", "abc"), 3);
    assert_eq!(edit_distance("abc", ""), 3);
}

#[test]
fn test_md051_code_actions_same_file() {
    let uri = "file:///tmp/test.md";
    let error = md051_error(
        3,
        Some("No matching heading for fragment: #introductoin"),
        Some("[link](#introductoin)"),
    );
    let content = "# Introduction\n\n[link](#introductoin)\n";
    let headings = vec![
        "introduction".to_string(),
        "getting-started".to_string(),
        "api-reference".to_string(),
    ];

    let actions = md051_code_actions(uri, &error, content, &headings, None, 3);
    assert!(!actions.is_empty(), "Should produce code actions");

    let ca = &actions[0];
    assert!(
        ca.title.contains("introduction"),
        "First action should suggest 'introduction', got: {}",
        ca.title
    );
    let edit = ca.edit.as_ref().unwrap();
    assert_eq!(edit.edits[0].new_text, "introduction");
}

#[test]
fn test_md051_code_actions_no_context() {
    let uri = "file:///tmp/test.md";
    let error = md051_error(1, None, None);
    let actions = md051_code_actions(uri, &error, "# Test\n", &vec!["test".to_string()], None, 3);
    assert!(actions.is_empty(), "No context should produce no actions");
}

#[test]
fn test_md051_code_actions_empty_headings() {
    let uri = "file:///tmp/test.md";
    let error = md051_error(
        1,
        Some("No matching heading for fragment: #broken"),
        Some("[link](#broken)"),
    );
    let actions = md051_code_actions(uri, &error, "[link](#broken)\n", &vec![], None, 3);
    assert!(actions.is_empty(), "Empty headings should produce no actions");
}

#[test]
fn test_fix_title_names_the_rule() {
    let error = create_test_error_with_fix(FixInfo {
        line_number: None,
        edit_column: Some(1),
        delete_count: None,
        insert_text: Some("x".to_string()),
    });
    let action = fix_to_code_action("file:///a.md", &error, "abc\n", None).unwrap();
    assert_eq!(action.title, "Fix: Test rule (MD001)");
    assert!(action.command.is_none());
    assert!(action.diagnostic.is_none());

    let mut nameless = create_test_error_with_fix(FixInfo {
        line_number: None,
        edit_column: Some(1),
        delete_count: None,
        insert_text: None,
    });
    nameless.rule_names = vec![];
    let action = fix_to_code_action("file:///a.md", &nameless, "abc\n", None).unwrap();
    assert_eq!(action.title, "Fix: Test rule (unknown)");
}

#[test]
fn test_fix_action_carries_the_diagnostic() {
    let error = create_test_error_with_fix(FixInfo {
        line_number: None,
        edit_column: Some(1),
        delete_count: None,
        insert_text: Some("x".to_string()),
    });
    let diagnostic = Diagnostic {
        range: Range { start: Position::new(0, 0), end: Position::new(0, 3) },
        severity: Severity::Error,
        code: "MD001".to_string(),
        source: "mkdlint".to_string(),
        message: "m".to_string(),
    };
    let action =
        fix_to_code_action("file:///a.md", &error, "abc\n", Some(diagnostic.clone())).unwrap();
    assert_eq!(action.diagnostic, Some(diagnostic));
}

#[test]
fn test_fix_on_missing_line_gives_nothing() {
    let mut error = create_test_error_with_fix(FixInfo {
        line_number: Some(3),
        edit_column: Some(1),
        delete_count: None,
        insert_text: Some("x".to_string()),
    });
    assert!(fix_to_code_action("file:///a.md", &error, "a\nb\n", None).is_none());
    error.fix_info.as_mut().unwrap().line_number = Some(2);
    assert!(fix_to_code_action("file:///a.md", &error, "a\nb\n", None).is_some());
    assert!(fix_to_code_action("file:///a.md", &error, "", None).is_none());
}

#[test]
fn test_fix_without_column_gives_nothing() {
    let error = create_test_error_with_fix(FixInfo {
        line_number: None,
        edit_column: None,
        delete_count: Some(2),
        insert_text: None,
    });
    let fix = error.fix_info.clone().unwrap();
    assert!(calculate_text_edit(&error, &fix, "abc\n").is_none());
}

#[test]
fn test_zero_and_negative_delete_counts_only_insert() {
    let error = create_test_error_with_fix(FixInfo {
        line_number: None,
        edit_column: Some(2),
        delete_count: Some(0),
        insert_text: Some("x".to_string()),
    });
    let fix = error.fix_info.clone().unwrap();
    let edit = calculate_text_edit(&error, &fix, "abc\n").unwrap();
    assert_eq!(edit.range.start, Position::new(0, 1));
    assert_eq!(edit.range.end, Position::new(0, 1));

    let mut fix = fix;
    fix.delete_count = Some(-7);
    let edit = calculate_text_edit(&error, &fix, "abc\n").unwrap();
    assert_eq!(edit.range.start, edit.range.end);
}

#[test]
fn test_delete_last_line_ends_at_end_of_line() {
    let edit = create_delete_line_edit(3, 3);
    assert_eq!(edit.range.start, Position::new(2, 0));
    assert_eq!(edit.range.end, Position::new(2, u32::MAX));
    assert_eq!(edit.new_text, "");

    let edit = create_delete_line_edit(1, 3);
    assert_eq!(edit.range.start, Position::new(0, 0));
    assert_eq!(edit.range.end, Position::new(1, 0));
}

#[test]
fn test_edit_distance_counts_characters() {
    assert_eq!(edit_distance("é", "e"), 1);
    assert_eq!(edit_distance("naïve", "naive"), 1);
    assert_eq!(edit_distance("日本語", "日本"), 1);
    assert_eq!(edit_distance("a", "é"), 1);
    assert_eq!(edit_distance("flaw", "lawn"), 2);
    assert_eq!(edit_distance("saturday", "sunday"), 3);
    assert_eq!(edit_distance("sunday", "saturday"), 3);
}

#[test]
fn test_ranking_is_stable_and_limited() {
    let fragment: Vec<char> = "abc".chars().collect();
    let candidates = vec![
        "xbc".to_string(),
        "abc".to_string(),
        "abd".to_string(),
        "zzzzzz".to_string(),
        "ab".to_string(),
    ];
    assert_eq!(rank_candidates(&fragment, &candidates, 10), vec![1, 0, 2, 4, 3]);
    assert_eq!(rank_candidates(&fragment, &candidates, 2), vec![1, 0]);
    assert_eq!(rank_candidates(&fragment, &candidates, 0), Vec::<usize>::new());
    assert_eq!(rank_candidates(&fragment, &vec![], 3), Vec::<usize>::new());
}

#[test]
fn test_md051_suggestions_replace_only_the_fragment() {
    let uri = "file:///tmp/test.md";
    let error = md051_error(3, None, Some("[link](#introductoin)"));
    let content = "# Introduction\n\n[link](#introductoin)\n";
    let headings = vec![
        "getting-started".to_string(),
        "api-reference".to_string(),
        "introduction".to_string(),
    ];
    let actions = md051_code_actions(uri, &error, content, &headings, None, 2);
    assert_eq!(actions.len(), 2);
    assert_eq!(actions[0].title, "MD051: Replace with #introduction");
    assert_eq!(actions[0].kind, CodeActionKind::QuickFix);
    let edit = actions[0].edit.as_ref().unwrap();
    assert_eq!(edit.uri, uri);
    assert_eq!(edit.edits.len(), 1);
    assert_eq!(edit.edits[0].range.start, Position::new(2, 8));
    assert_eq!(edit.edits[0].range.end, Position::new(2, 20));
    assert_eq!(actions[1].edit.as_ref().unwrap().edits[0].new_text, "api-reference");
}

#[test]
fn test_md051_cross_file_fragment_and_missing_line() {
    let uri = "file:///tmp/test.md";
    let headings = vec!["setup".to_string()];
    let error = md051_error(1, None, Some("[x](other.md#setpu)"));
    let actions = md051_code_actions(uri, &error, "see [x](other.md#setpu)\n", &headings, None, 3);
    assert_eq!(actions.len(), 1);
    let edit = &actions[0].edit.as_ref().unwrap().edits[0];
    assert_eq!(edit.range.start, Position::new(0, 17));
    assert_eq!(edit.range.end, Position::new(0, 22));

    let beyond = md051_error(5, None, Some("[x](other.md#setpu)"));
    assert!(md051_code_actions(uri, &beyond, "one line\n", &headings, None, 3).is_empty());

    let absent = md051_error(1, None, Some("[x](#gone)"));
    assert!(md051_code_actions(uri, &absent, "nothing here\n", &headings, None, 3).is_empty());

    let no_hash = md051_error(1, None, Some("[x](plain)"));
    assert!(md051_code_actions(uri, &no_hash, "[x](plain)\n", &headings, None, 3).is_empty());

    let empty = md051_error(1, None, Some("[x](#)"));
    assert!(md051_code_actions(uri, &empty, "[x](#)\n", &headings, None, 3).is_empty());
}

#[test]
fn test_md051_columns_count_utf16_units() {
    let uri = "file:///tmp/test.md";
    let headings = vec!["été".to_string()];
    let error = md051_error(1, None, Some("[é](#éte)"));
    let actions = md051_code_actions(uri, &error, "é [é](#éte)\n", &headings, None, 1);
    assert_eq!(actions.len(), 1);
    let edit = &actions[0].edit.as_ref().unwrap().edits[0];
    assert_eq!(edit.range.start, Position::new(0, 7));
    assert_eq!(edit.range.end, Position::new(0, 10));

    let error = md051_error(1, None, Some("[x](#a😀b)"));
    let actions = md051_code_actions(uri, &error, "😀 [x](#a😀b)\n", &headings, None, 1);
    assert_eq!(actions.len(), 1);
    let edit = &actions[0].edit.as_ref().unwrap().edits[0];
    assert_eq!(edit.range.start, Position::new(0, 8));
    assert_eq!(edit.range.end, Position::new(0, 12));
}

#[test]
fn test_md051_fragment_ends_at_the_next_bracket() {
    let uri = "file:///tmp/test.md";
    let headings = vec!["flag".to_string()];
    let error = md051_error(1, None, Some("[a](#frag) and more"));
    let actions =
        md051_code_actions(uri, &error, "[a](#frag) and more\n", &headings, None, 1);
    assert_eq!(actions.len(), 1);
    let edit = &actions[0].edit.as_ref().unwrap().edits[0];
    assert_eq!(edit.new_text, "flag");
    assert_eq!(edit.range.start, Position::new(0, 5));
    assert_eq!(edit.range.end, Position::new(0, 9));

    let nested = md051_error(1, None, Some("[a](#one)) (two)"));
    let actions = md051_code_actions(uri, &nested, "[a](#one)) (two)\n", &headings, None, 1);
    assert_eq!(actions.len(), 1);
    let edit = &actions[0].edit.as_ref().unwrap().edits[0];
    assert_eq!(edit.range.start, Position::new(0, 5));
    assert_eq!(edit.range.end, Position::new(0, 8));

    let open = md051_error(1, None, Some("see #tail"));
    let actions = md051_code_actions(uri, &open, "see #tail\n", &headings, None, 1);
    assert_eq!(actions.len(), 1);
    let edit = &actions[0].edit.as_ref().unwrap().edits[0];
    assert_eq!(edit.range.start, Position::new(0, 5));
    assert_eq!(edit.range.end, Position::new(0, 9));

    let at_once = md051_error(1, None, Some("[a](#)rest"));
    assert!(md051_code_actions(uri, &at_once, "[a](#)rest\n", &headings, None, 1).is_empty());
}
