use mkdlint::rules::kmd005::KMD005;
use mkdlint::rules::{Rule, RuleParams};
use mkdlint::types::LintError;
use mkdlint::rules::kmd005::{find_headings, kramdown_slug, scan_headings, HeadingLine};
fn kmd005_lint(content: &str) -> Vec<LintError> {
    let lines: Vec<String> = content.split_inclusive('\n').map(|s| s.to_string()).collect();
    let rule = KMD005;
    rule.lint(&RuleParams {
        name: "test.md".to_string(),
        version: "0".to_string(),
        lines,
        front_matter_lines: vec![],
        config: vec![],
    })
}

#[test]
fn test_kmd005_unique_headings_ok() {
    let errors = kmd005_lint("# Intro\n\n## Setup\n\n## Usage\n");
    assert!(errors.is_empty(), "unique headings should not fire");
}

#[test]
fn test_kmd005_duplicate_auto_slug() {
    let errors = kmd005_lint("# Setup\n\n## Setup\n");
    assert!(
        errors.iter().any(|e| e.rule_names[0] == "KMD005"),
        "should fire when two headings produce the same auto-slug"
    );
}

#[test]
fn test_kmd005_explicit_id_duplicate() {
    let errors = kmd005_lint("# Title {#intro}\n\n## Other {#intro}\n");
    assert!(
        errors.iter().any(|e| e.rule_names[0] == "KMD005"),
        "should fire when two headings share an explicit ID"
    );
}

#[test]
fn test_kmd005_kramdown_slug_generation() {
    assert_eq!(kramdown_slug("Hello World"), "hello-world");
    assert_eq!(kramdown_slug("Setup & Config!"), "setup-config");
    assert_eq!(kramdown_slug("  Leading spaces  "), "leading-spaces");
}

#[test]
fn test_kmd005_setext_duplicate() {
    let errors = kmd005_lint("Title\n=====\n\nTitle\n=====\n");
    assert!(
        errors.iter().any(|e| e.rule_names[0] == "KMD005"),
        "should fire on duplicate setext headings"
    );
}

#[test]
fn test_kmd005_setext_atx_collision() {
    let errors = kmd005_lint("# Title\n\nTitle\n-----\n");
    assert!(
        errors.iter().any(|e| e.rule_names[0] == "KMD005"),
        "should fire when setext and ATX heading share the same slug"
    );
}

#[test]
fn test_kmd005_setext_thematic_break_ok() {
    let errors = kmd005_lint("# Intro\n\n---\n\nParagraph\n");
    assert!(
        errors.is_empty(),
        "bare --- after blank line should not be treated as setext heading"
    );
}

#[test]
fn test_kmd005_names_the_first_line() {
    let errors = kmd005_lint("# Setup\n\ntext\n\n## Setup\n\nSetup\n=====\n");
    assert_eq!(errors.len(), 2);
    assert_eq!(errors[0].line_number, 5);
    assert_eq!(
        errors[0].error_detail,
        Some("Duplicate heading ID 'setup' (first defined on line 1)".to_string())
    );
    assert_eq!(errors[1].line_number, 7);
    assert_eq!(errors[0].rule_description, "Heading IDs must be unique within the document");
}

#[test]
fn test_kmd005_line_numbers_with_several_digits() {
    let mut content = String::new();
    for _ in 0..11 {
        content.push_str("text\n\n");
    }
    content.push_str("# Same\n\n# Same\n");
    let errors = kmd005_lint(&content);
    assert_eq!(errors.len(), 1);
    assert_eq!(errors[0].line_number, 25);
    assert_eq!(
        errors[0].error_detail,
        Some("Duplicate heading ID 'same' (first defined on line 23)".to_string())
    );
}

#[test]
fn test_kmd005_headings_in_code_are_ignored() {
    assert!(kmd005_lint("# A\n\n```\n# A\n```\n").is_empty());
}

#[test]
fn test_kramdown_slug_attributes_and_hyphens() {
    assert_eq!(kramdown_slug("Title {#custom}"), "title");
    assert_eq!(kramdown_slug("a -- b"), "a-b");
    assert_eq!(kramdown_slug("Été 2024"), "été-2024");
    assert_eq!(kramdown_slug("{"), "");
    assert_eq!(kramdown_slug("open { brace"), "open-brace");
    assert_eq!(kramdown_slug(""), "");
}

#[test]
fn test_find_headings_from_given_lines() {
    let line = |fence: bool, blank: bool, underline: bool, atx: Option<&str>, text: &str| HeadingLine {
        fence,
        blank,
        underline,
        atx_id: atx.map(|s| s.to_string()),
        text_id: text.to_string(),
    };
    let facts = vec![
        line(false, false, false, Some("one"), "one"),
        line(false, false, false, None, "two"),
        line(false, false, true, None, ""),
        line(false, false, true, None, ""),
        line(false, false, false, Some(""), "x"),
        line(true, false, false, None, "fence"),
        line(false, false, false, Some("hidden"), "hidden"),
    ];
    let headings = find_headings(&facts);
    let found: Vec<(String, usize)> =
        headings.into_iter().map(|h| (h.label, h.line_number)).collect();
    assert_eq!(found, vec![("one".to_string(), 1), ("two".to_string(), 2)]);
    let scanned = scan_headings(&vec!["## Two words {#id}\n".to_string(), "---\n".to_string()]);
    assert_eq!(scanned[0], line(false, false, false, Some("id"), "id"));
    assert_eq!(scanned[1], line(false, false, true, None, ""));
}
