use mkdlint::rules::kmd002::KMD002;
use mkdlint::rules::{Rule, RuleParams};
use mkdlint::types::LintError;

fn kmd002_lint(content: &str) -> Vec<LintError> {
    let lines: Vec<String> = content.split_inclusive('\n').map(|s| s.to_string()).collect();
    let rule = KMD002;
    rule.lint(&RuleParams {
        name: "test.md".to_string(),
        version: "0".to_string(),
        lines,
        front_matter_lines: vec![],
        config: vec![],
    })
}

#[test]
fn test_kmd002_ref_defined_ok() {
    let errors = kmd002_lint("# H\n\nText[^1] here.\n\n[^1]: The note.\n");
    assert!(errors.is_empty(), "should not fire when ref has definition");
}

#[test]
fn test_kmd002_ref_undefined() {
    let errors = kmd002_lint("# H\n\nText[^1] here.\n");
    assert!(
        errors.iter().any(|e| e.rule_names[0] == "KMD002"),
        "should fire when footnote ref is undefined"
    );
}

#[test]
fn test_kmd002_no_footnotes_ok() {
    let errors = kmd002_lint("# H\n\nPlain paragraph.\n");
    assert!(errors.is_empty(), "should not fire when no footnotes");
}

#[test]
fn test_kmd002_ref_in_code_block_ignored() {
    let errors = kmd002_lint("# H\n\n```\n[^1] inside code\n```\n");
    assert!(errors.is_empty(), "should not fire for refs in code blocks");
}

#[test]
fn test_kmd002_reports_each_label_once_in_line_order() {
    let errors = kmd002_lint("a[^B] b[^a]\n\nagain[^b] and [^c]\n\n[^C]: defined\n");
    assert_eq!(errors.len(), 2);
    assert_eq!(errors[0].line_number, 1);
    assert_eq!(
        errors[0].error_detail,
        Some("Footnote reference '[^b]' has no definition".to_string())
    );
    assert_eq!(errors[1].line_number, 1);
    assert_eq!(
        errors[1].error_detail,
        Some("Footnote reference '[^a]' has no definition".to_string())
    );
    assert_eq!(errors[0].rule_description, "Footnote references must have matching definitions");
    assert_eq!(
        errors[0].rule_names,
        vec!["KMD002".to_string(), "footnote-refs-defined".to_string()]
    );
}

#[test]
fn test_kmd002_definition_in_code_block_does_not_count() {
    let errors = kmd002_lint("see[^1]\n\n~~~\n[^1]: in code\n~~~\n");
    assert_eq!(errors.len(), 1);
    assert_eq!(errors[0].line_number, 1);
}

#[test]
fn test_kmd002_metadata() {
    let rule = KMD002;
    assert_eq!(rule.tags(), vec!["kramdown".to_string(), "footnotes".to_string()]);
    assert!(!rule.is_enabled_by_default());
    assert!(rule.information().is_none());
    assert_eq!(rule.description(), "Footnote references must have matching definitions");
}
