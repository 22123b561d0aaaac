use mkdlint::rules::kmd001::{is_definition_line, looks_like_dl_term, KMD001};
use mkdlint::rules::{ParserType, Rule, RuleParams};
use mkdlint::types::{LintError, Severity};

fn kmd001_lint(content: &str) -> Vec<LintError> {
    let lines: Vec<String> = content.split_inclusive('\n').map(|s| s.to_string()).collect();
    let rule = KMD001;
    rule.lint(&RuleParams {
        name: "test.md".to_string(),
        version: "0".to_string(),
        lines,
        front_matter_lines: vec![],
        config: vec![],
    })
}

#[test]
fn test_kmd001_term_with_definition_ok() {
    let errors = kmd001_lint("# H\n\nterm\n: definition\n");
    assert!(errors.is_empty(), "should not fire when term has definition");
}

#[test]
fn test_kmd001_term_no_definition() {
    let errors = kmd001_lint("# H\n\nterm without def\n\nother paragraph\n: orphan def\n");
    assert!(
        errors.iter().any(|e| e.rule_names[0] == "KMD001"),
        "should fire when DL term has no definition"
    );
}

#[test]
fn test_kmd001_no_dl_no_error() {
    let errors = kmd001_lint("# H\n\nPlain paragraph.\n");
    assert!(errors.is_empty(), "should not fire when no DL in document");
}

#[test]
fn test_kmd001_in_code_block_ignored() {
    let errors = kmd001_lint("# H\n\n```\nterm\n: def inside code\n```\n");
    assert!(errors.is_empty(), "should not fire inside code blocks");
}

#[test]
fn test_kmd001_reports_the_term_line() {
    let errors = kmd001_lint("# H\n\nterm without def\n\nother paragraph\n: orphan def\n");
    assert_eq!(errors.len(), 1);
    assert_eq!(errors[0].line_number, 3);
    assert_eq!(
        errors[0].rule_names,
        vec!["KMD001".to_string(), "definition-list-term-has-definition".to_string()]
    );
    assert_eq!(
        errors[0].rule_description,
        "Definition list terms must be followed by a definition"
    );
    assert_eq!(errors[0].error_detail, Some("Term has no definition".to_string()));
    assert_eq!(errors[0].severity, Severity::Error);
    assert!(errors[0].fix_info.is_none());
}

#[test]
fn test_kmd001_definition_within_three_lines() {
    assert!(kmd001_lint("term\n\n\n: def\n").is_empty());
    let far = kmd001_lint("term\n\n\n\n: def\n");
    assert_eq!(far.len(), 1);
    assert_eq!(far[0].line_number, 1);
}

#[test]
fn test_kmd001_metadata() {
    let rule = KMD001;
    assert_eq!(rule.names()[0], "KMD001");
    assert_eq!(rule.tags(), vec!["kramdown".to_string(), "definition-lists".to_string()]);
    assert_eq!(rule.parser_type(), ParserType::NoParser);
    assert!(!rule.is_enabled_by_default());
    assert!(rule.information().is_none());
}

#[test]
fn test_looks_like_dl_term() {
    assert!(looks_like_dl_term("term\n"));
    assert!(looks_like_dl_term("term"));
    assert!(!looks_like_dl_term("\n"));
    assert!(!looks_like_dl_term(""));
    assert!(!looks_like_dl_term(" indented\n"));
    assert!(!looks_like_dl_term("\tindented\n"));
    assert!(!looks_like_dl_term("# heading\n"));
    assert!(!looks_like_dl_term("- item\n"));
    assert!(!looks_like_dl_term(": def\n"));
    assert!(!looks_like_dl_term("[link]\n"));
    assert!(!looks_like_dl_term("<!-- c -->\n"));
    assert!(!looks_like_dl_term("===\n"));
    assert!(looks_like_dl_term("<b>bold</b>\n"));
    assert!(looks_like_dl_term("=\n"));
}

#[test]
fn test_is_definition_line() {
    assert!(is_definition_line(": def\n"));
    assert!(is_definition_line("   : def\n"));
    assert!(is_definition_line(":"));
    assert!(is_definition_line("  :"));
    assert!(!is_definition_line(":def\n"));
    assert!(!is_definition_line("term\n"));
    assert!(!is_definition_line(""));
}
