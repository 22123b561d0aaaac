use mkdlint::rules::kmd003::KMD003;
use mkdlint::rules::{Rule, RuleParams};
use mkdlint::types::LintError;
use mkdlint::rules::footnotes::{scan_footnotes, FootnoteLine};
fn kmd003_lint(content: &str) -> Vec<LintError> {
    let lines: Vec<String> = content.split_inclusive('\n').map(|s| s.to_string()).collect();
    let rule = KMD003;
    rule.lint(&RuleParams {
        name: "test.md".to_string(),
        version: "0".to_string(),
        lines,
        front_matter_lines: vec![],
        config: vec![],
    })
}

#[test]
fn test_kmd003_def_used_ok() {
    let errors = kmd003_lint("# H\n\nText[^1] here.\n\n[^1]: The note.\n");
    assert!(errors.is_empty(), "should not fire when def is referenced");
}

#[test]
fn test_kmd003_def_unused() {
    let errors = kmd003_lint("# H\n\nText here.\n\n[^1]: An unused note.\n");
    assert!(
        errors.iter().any(|e| e.rule_names[0] == "KMD003"),
        "should fire when footnote def is never referenced"
    );
}

#[test]
fn test_kmd003_no_footnotes_ok() {
    let errors = kmd003_lint("# H\n\nPlain paragraph.\n");
    assert!(errors.is_empty(), "should not fire when no footnotes");
}

#[test]
fn test_kmd003_def_in_code_block_ignored() {
    let errors = kmd003_lint("# H\n\n```\n[^1]: inside code\n```\n");
    assert!(errors.is_empty(), "should not fire for defs in code blocks");
}

#[test]
fn test_kmd003_reports_the_first_definition_of_a_label() {
    let errors = kmd003_lint("[^Note]: one\n[^note]: two\n[^used]: three\n\ntext[^USED]\n");
    assert_eq!(errors.len(), 1);
    assert_eq!(errors[0].line_number, 1);
    assert_eq!(
        errors[0].error_detail,
        Some("Footnote definition '[^note]' is never referenced".to_string())
    );
    assert_eq!(errors[0].rule_names[1], "footnote-defs-used");
}

#[test]
fn test_scan_footnotes_reads_labels() {
    let lines = vec![
        "text[^A] and [^b]\n".to_string(),
        "[^A]: with [^c] inside\n".to_string(),
        "```\n".to_string(),
        "plain\n".to_string(),
    ];
    let facts = scan_footnotes(&lines);
    assert_eq!(
        facts,
        vec![
            FootnoteLine {
                fence: false,
                definition: None,
                is_definition: false,
                references: vec!["a".to_string(), "b".to_string()],
            },
            FootnoteLine {
                fence: false,
                definition: Some("a".to_string()),
                is_definition: true,
                references: vec![],
            },
            FootnoteLine { fence: true, definition: None, is_definition: false, references: vec![] },
            FootnoteLine { fence: false, definition: None, is_definition: false, references: vec![] },
        ]
    );
}
