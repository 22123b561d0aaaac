use mkdlint::rules::kmd004::KMD004;
use mkdlint::rules::{Rule, RuleParams};
use mkdlint::types::LintError;
use mkdlint::rules::kmd004::{scan_abbreviations, unused_abbreviations, AbbreviationLine};
fn kmd004_lint(content: &str) -> Vec<LintError> {
    let lines: Vec<String> = content.split_inclusive('\n').map(|s| s.to_string()).collect();
    let rule = KMD004;
    rule.lint(&RuleParams {
        name: "test.md".to_string(),
        version: "0".to_string(),
        lines,
        front_matter_lines: vec![],
        config: vec![],
    })
}

#[test]
fn test_kmd004_abbr_used_ok() {
    let errors = kmd004_lint("# H\n\nHTML is great.\n\n*[HTML]: HyperText Markup Language\n");
    assert!(errors.is_empty(), "should not fire when abbreviation is used");
}

#[test]
fn test_kmd004_abbr_unused() {
    let errors = kmd004_lint("# H\n\nSome text.\n\n*[HTML]: HyperText Markup Language\n");
    assert!(
        errors.iter().any(|e| e.rule_names[0] == "KMD004"),
        "should fire when abbreviation is never used"
    );
}

#[test]
fn test_kmd004_no_abbr_ok() {
    let errors = kmd004_lint("# H\n\nPlain paragraph.\n");
    assert!(errors.is_empty(), "should not fire when no abbreviations");
}

#[test]
fn test_kmd004_reports_each_unused_definition() {
    let errors = kmd004_lint("CSS only.\n*[HTML]: one\n*[CSS]: two\n*[HTML]: again\n");
    assert_eq!(errors.len(), 2);
    assert_eq!(errors[0].line_number, 2);
    assert_eq!(errors[1].line_number, 4);
    assert_eq!(
        errors[0].error_detail,
        Some("Abbreviation 'HTML' is defined but never used in text".to_string())
    );
    assert_eq!(errors[0].rule_description, "Abbreviation definitions should be used in document text");
}

#[test]
fn test_kmd004_use_in_another_definition_does_not_count() {
    let errors = kmd004_lint("*[A]: uses B\n*[B]: expansion\n");
    assert_eq!(errors.len(), 2);
}

#[test]
fn test_kmd004_definition_in_code_is_ignored_but_code_is_text() {
    assert!(kmd004_lint("```\n*[HTML]: in code\n```\n").is_empty());
    assert!(kmd004_lint("```\nHTML\n```\n\n*[HTML]: defined\n").is_empty());
}

#[test]
fn test_kmd004_from_given_lines() {
    let line = |fence: bool, term: Option<&str>, is_definition: bool, text: &str| AbbreviationLine {
        fence,
        term: term.map(|s| s.to_string()),
        is_definition,
        text: text.to_string(),
    };
    let facts = vec![
        line(false, None, false, "uses AB"),
        line(false, Some("AB"), true, "*[AB]: x"),
        line(false, Some("CD"), true, "*[CD]: y"),
    ];
    let errors = unused_abbreviations(&facts);
    assert_eq!(errors.len(), 1);
    assert_eq!(errors[0].line_number, 3);
    let scanned = scan_abbreviations(&vec!["uses AB\n".to_string(), "*[AB]: x\n".to_string()]);
    assert_eq!(scanned, vec![line(false, None, false, "uses AB"), line(false, Some("AB"), true, "*[AB]: x")]);
}
