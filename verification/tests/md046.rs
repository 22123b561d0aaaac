use mkdlint::rules::md046::{
    blocks_of, find_code_blocks, BlockLine, BlockStyle, CodeBlock, FenceMark, MD046,
};
use mkdlint::rules::{Rule, RuleParams};
use mkdlint::types::LintError;

fn md046_lint(lines: &[&str], config: Vec<(String, String)>) -> Vec<LintError> {
    MD046.lint(&RuleParams {
        name: "test.md".to_string(),
        version: "0.1.0".to_string(),
        lines: lines.iter().map(|s| s.to_string()).collect(),
        front_matter_lines: vec![],
        config,
    })
}

fn style(value: &str) -> Vec<(String, String)> {
    vec![("style".to_string(), value.to_string())]
}

#[test]
fn test_md046_fenced_only() {
    let lines = vec!["# Title\n", "\n", "```\n", "code\n", "```\n"];
    let errors = md046_lint(&lines, vec![]);
    assert_eq!(errors.len(), 0, "Fenced-only should not trigger MD046");
}

#[test]
fn test_md046_indented_only() {
    let lines = vec!["# Title\n", "\n", "    code block\n", "    more code\n"];
    let errors = md046_lint(&lines, vec![]);
    assert_eq!(errors.len(), 0, "Indented-only should not trigger MD046");
}

#[test]
fn test_md046_mixed_styles_consistent() {
    let lines = vec![
        "# Title\n",
        "\n",
        "```\n",
        "fenced code\n",
        "```\n",
        "\n",
        "    indented code\n",
    ];
    let errors = md046_lint(&lines, vec![]);
    assert_eq!(errors.len(), 1, "Mixed styles should report indented block");
    assert_eq!(errors[0].line_number, 7);
    assert_eq!(errors[0].error_detail, Some("Expected: fenced; Actual: indented".to_string()));
}

#[test]
fn test_md046_style_fenced() {
    let lines = vec!["# Title\n", "\n", "    indented code\n"];
    let errors = md046_lint(&lines, style("fenced"));
    assert_eq!(errors.len(), 1);
    assert_eq!(errors[0].line_number, 3);
}

#[test]
fn test_md046_style_indented() {
    let lines = vec!["# Title\n", "\n", "```\n", "code\n", "```\n"];
    let errors = md046_lint(&lines, style("indented"));
    assert_eq!(errors.len(), 1);
    assert_eq!(errors[0].line_number, 3);
}

#[test]
fn test_md046_tilde_fenced() {
    let lines = vec!["~~~\n", "code\n", "~~~\n", "\n", "    indented\n"];
    let errors = md046_lint(&lines, vec![]);
    assert_eq!(errors.len(), 1, "Tilde fenced + indented should trigger mixed style error");
    assert_eq!(errors[0].line_number, 5);
}

#[test]
fn test_md046_no_code_blocks() {
    let lines = vec!["# Title\n", "\n", "Just a paragraph.\n"];
    let errors = md046_lint(&lines, vec![]);
    assert_eq!(errors.len(), 0, "No code blocks should not trigger MD046");
}

#[test]
fn test_md046_indented_needs_blank_before() {
    let lines = vec!["# Title\n", "Some text\n", "    not code\n"];
    let errors = md046_lint(&lines, vec![]);
    assert_eq!(errors.len(), 0);
}

#[test]
fn test_md046_multiple_blocks() {
    let lines = vec![
        "# Title\n",
        "\n",
        "    indented 1\n",
        "\n",
        "paragraph\n",
        "\n",
        "    indented 2\n",
        "\n",
        "```\n",
        "fenced\n",
        "```\n",
    ];
    let errors = md046_lint(&lines, style("fenced"));
    assert_eq!(errors.len(), 2, "Both indented blocks should be flagged");
}

#[test]
fn test_md046_no_fix_info() {
    let lines = vec!["```\n", "code\n", "```\n", "\n", "    indented\n"];
    let errors = md046_lint(&lines, vec![]);
    assert_eq!(errors.len(), 1);
    assert!(errors[0].fix_info.is_none(), "MD046 should not have fix_info");
}

#[test]
fn test_md046_issue_fields() {
    let lines = vec!["    indented\n", "\n", "```\n", "code\n", "```\n"];
    let errors = md046_lint(&lines, vec![]);
    assert_eq!(errors.len(), 1);
    assert_eq!(errors[0].line_number, 3);
    assert_eq!(errors[0].rule_names, vec!["MD046".to_string(), "code-block-style".to_string()]);
    assert_eq!(errors[0].rule_description, "Code block style");
    assert_eq!(errors[0].error_detail, Some("Expected: indented; Actual: fenced".to_string()));
    assert_eq!(errors[0].suggestion, Some("Use indented code block style".to_string()));
    assert_eq!(
        errors[0].rule_information,
        Some("https://github.com/DavidAnson/markdownlint/blob/main/doc/md046.md".to_string())
    );
    assert!(MD046.is_enabled_by_default());
    assert_eq!(MD046.tags(), vec!["code".to_string()]);
}

#[test]
fn test_md046_unknown_style_means_consistent() {
    let lines = vec!["```\n", "code\n", "```\n", "\n", "    indented\n"];
    assert_eq!(md046_lint(&lines, style("consistent")).len(), 1);
    assert_eq!(md046_lint(&lines, style("whatever")).len(), 1);
    let other = vec![("other".to_string(), "fenced".to_string()), ("style".to_string(), "indented".to_string())];
    let errors = md046_lint(&lines, other);
    assert_eq!(errors.len(), 1);
    assert_eq!(errors[0].line_number, 1);
}

#[test]
fn test_find_code_blocks() {
    let lines: Vec<String> = [
        "    first\n",
        "text\n",
        "\n",
        "````\n",
        "```\n",
        "    inside\n",
        "``````\n",
        "\n",
        "    last\n",
    ]
    .iter()
    .map(|s| s.to_string())
    .collect();
    assert_eq!(
        find_code_blocks(&lines),
        vec![
            CodeBlock { style: BlockStyle::Indented, start_line: 1 },
            CodeBlock { style: BlockStyle::Fenced, start_line: 4 },
            CodeBlock { style: BlockStyle::Indented, start_line: 9 },
        ]
    );
    assert_eq!(find_code_blocks(&vec![]), vec![]);
}

#[test]
fn test_fence_closes_only_with_same_mark_and_indent() {
    let lines: Vec<String> = ["  ```\n", "~~~\n", "   ```\n", "```\n", "```\n"]
        .iter()
        .map(|s| s.to_string())
        .collect();
    assert_eq!(
        find_code_blocks(&lines),
        vec![
            CodeBlock { style: BlockStyle::Fenced, start_line: 1 },
            CodeBlock { style: BlockStyle::Fenced, start_line: 5 },
        ]
    );
    let deep: Vec<String> = ["     ```\n", "text\n"].iter().map(|s| s.to_string()).collect();
    assert_eq!(find_code_blocks(&deep), vec![]);
}

#[test]
fn test_blocks_of_given_lines() {
    let plain = BlockLine { fence: None, blank: false, indented: false, whitespace_only: false };
    let empty = BlockLine { fence: None, blank: true, indented: false, whitespace_only: true };
    let code = BlockLine { fence: None, blank: false, indented: true, whitespace_only: false };
    let fence = |indent: usize, mark: char, length: usize| BlockLine {
        fence: Some(FenceMark { indent, mark, length }),
        blank: false,
        indented: false,
        whitespace_only: false,
    };
    assert_eq!(
        blocks_of(&vec![plain, code, empty, code, empty, code, fence(0, '`', 3)]),
        vec![
            CodeBlock { style: BlockStyle::Indented, start_line: 4 },
            CodeBlock { style: BlockStyle::Fenced, start_line: 7 },
        ]
    );
    assert_eq!(
        blocks_of(&vec![fence(0, '~', 4), fence(0, '~', 3), fence(1, '~', 4), fence(0, '~', 5), code]),
        vec![CodeBlock { style: BlockStyle::Fenced, start_line: 1 }]
    );
}
