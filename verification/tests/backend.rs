use mkdlint::engine::lint_document;
use mkdlint::lines::{content_lines, terminated_lines};
use mkdlint::lsp::backend::{
    actions_for, hover_for, is_fix_all, watch_patterns, Action, MkdlintLanguageServer,
    FIX_ALL_COMMAND,
};
use mkdlint::lsp::config::{Config, RuleSetting};
use mkdlint::lsp::document::Document;
use mkdlint::lsp::protocol::{CodeActionKind, Position};
use mkdlint::types::{FixInfo, LintError, Severity};

fn fixable(line: usize, column: usize, insert: &str) -> LintError {
    LintError {
        line_number: line,
        rule_names: vec!["MD018".to_string(), "no-missing-space-atx".to_string()],
        rule_description: "No space after hash".to_string(),
        fix_info: Some(FixInfo {
            line_number: None,
            edit_column: Some(column),
            delete_count: None,
            insert_text: Some(insert.to_string()),
        }),
        severity: Severity::Warning,
        ..Default::default()
    }
}

fn plain(line: usize) -> LintError {
    LintError {
        line_number: line,
        rule_names: vec!["MD000".to_string()],
        rule_description: "Plain".to_string(),
        severity: Severity::Error,
        ..Default::default()
    }
}

fn enable(names: &[&str]) -> Option<Config> {
    Some(Config {
        rules: names
            .iter()
            .map(|n| RuleSetting { name: n.to_string(), enabled: true, style: None })
            .collect(),
    })
}

#[test]
fn test_open_lints_at_once() {
    let mut server = MkdlintLanguageServer::new();
    let todo = server.did_open("u".to_string(), "# A\n".to_string(), 1);
    assert_eq!(todo, vec![Action::Lint("u".to_string())]);
    assert_eq!(server.documents.get("u").unwrap().content, "# A\n");
}

#[test]
fn test_change_is_debounced() {
    let mut server = MkdlintLanguageServer::new();
    server.did_open("u".to_string(), "a".to_string(), 1);
    let first = server.did_change("u", 2, Some("ab".to_string()));
    assert_eq!(first, vec![Action::StartTimer { uri: "u".to_string(), token: 0, millis: 300 }]);
    let second = server.did_change("u", 3, Some("abc".to_string()));
    assert_eq!(
        second,
        vec![
            Action::StopTimer(0),
            Action::StartTimer { uri: "u".to_string(), token: 1, millis: 300 },
        ]
    );
    assert_eq!(server.documents.get("u").unwrap().content, "abc");
    assert_eq!(server.documents.get("u").unwrap().version, 3);
    assert!(server.timer_fired("u", 0).is_empty());
    assert_eq!(server.timer_fired("u", 1), vec![Action::Lint("u".to_string())]);
    assert!(server.timer_fired("u", 1).is_empty());
}

#[test]
fn test_change_without_text_does_nothing() {
    let mut server = MkdlintLanguageServer::new();
    server.did_open("u".to_string(), "a".to_string(), 1);
    assert!(server.did_change("u", 2, None).is_empty());
    assert_eq!(server.documents.get("u").unwrap().version, 1);
    assert_eq!(server.debouncer.pending_token("u"), None);
}

#[test]
fn test_save_bypasses_the_debounce() {
    let mut server = MkdlintLanguageServer::new();
    server.did_open("u".to_string(), "a".to_string(), 1);
    server.did_change("u", 2, Some("ab".to_string()));
    let todo = server.did_save("u");
    assert_eq!(todo, vec![Action::StopTimer(0), Action::Lint("u".to_string())]);
    assert!(server.timer_fired("u", 0).is_empty());
    assert_eq!(server.did_save("u"), vec![Action::Lint("u".to_string())]);
}

#[test]
fn test_close_stops_the_timer_and_clears() {
    let mut server = MkdlintLanguageServer::new();
    server.did_open("u".to_string(), "a".to_string(), 1);
    server.did_change("u", 2, Some("ab".to_string()));
    let todo = server.did_close("u");
    assert_eq!(todo, vec![Action::StopTimer(0), Action::ClearDiagnostics("u".to_string())]);
    assert!(server.documents.get("u").is_none());
    assert!(server.timer_fired("u", 0).is_empty());
    assert_eq!(server.did_close("u"), vec![Action::ClearDiagnostics("u".to_string())]);
}

#[test]
fn test_config_change_relints_every_document() {
    let mut server = MkdlintLanguageServer::new();
    server.did_open("a".to_string(), "1".to_string(), 1);
    server.did_open("b".to_string(), "2".to_string(), 1);
    let _ = server.configs.discover_in(&vec!["ws".to_string(), "f.md".to_string()], &vec![]);
    assert_eq!(server.configs.cache_size(), 1);
    let todo = server.did_change_watched_files();
    assert_eq!(todo, vec![Action::Lint("a".to_string()), Action::Lint("b".to_string())]);
    assert_eq!(server.configs.cache_size(), 0);
}

#[test]
fn test_initialize_takes_folders_before_the_root() {
    let dir = |parts: &[&str]| -> Vec<String> { parts.iter().map(|s| s.to_string()).collect() };
    let mut server = MkdlintLanguageServer::new();
    let n = server.initialize(vec![Some(dir(&["a"])), None, Some(dir(&["b", "c"]))], Some(dir(&["r"])));
    assert_eq!(n, 2);
    assert_eq!(server.configs.workspace_roots, vec![dir(&["a"]), dir(&["b", "c"])]);
    let n = server.initialize(vec![None], Some(dir(&["r"])));
    assert_eq!(n, 1);
    assert_eq!(server.configs.workspace_roots, vec![dir(&["r"])]);
    let n = server.initialize(vec![], None);
    assert_eq!(n, 0);
    assert!(server.configs.workspace_roots.is_empty());
}

#[test]
fn test_watch_patterns_follow_the_candidates() {
    assert_eq!(
        watch_patterns(),
        vec![
            "**/.markdownlint.json".to_string(),
            "**/.markdownlint.jsonc".to_string(),
            "**/.markdownlint.yaml".to_string(),
            "**/.markdownlint.yml".to_string(),
            "**/.markdownlintrc".to_string(),
        ]
    );
    assert!(is_fix_all("mkdlint.fixAll"));
    assert!(is_fix_all(FIX_ALL_COMMAND));
    assert!(!is_fix_all("mkdlint.fixall"));
    assert!(!is_fix_all(""));
}

#[test]
fn test_lint_keeps_issues_and_returns_diagnostics() {
    let mut server = MkdlintLanguageServer::new();
    server.did_open("u".to_string(), "# Setup\n\n## Setup\n".to_string(), 1);
    let diagnostics = server.lint("u", "doc.md", &enable(&["KMD005"])).unwrap();
    assert_eq!(diagnostics.len(), 1);
    assert_eq!(diagnostics[0].code, "KMD005");
    assert_eq!(diagnostics[0].range.start, Position::new(2, 0));
    assert_eq!(diagnostics[0].range.end, Position::new(2, 8));
    let doc = server.documents.get("u").unwrap();
    assert_eq!(doc.cached_errors.len(), 1);
    assert_eq!(doc.cached_errors[0].line_number, 3);
    assert!(server.lint("missing", "m.md", &None).is_none());
    let again = server.lint("u", "doc.md", &None).unwrap();
    assert!(again.is_empty());
    assert!(server.documents.get("u").unwrap().cached_errors.is_empty());
}

#[test]
fn test_hover_text() {
    let mut second = fixable(2, 2, " ");
    second.error_detail = Some("detail".to_string());
    second.suggestion = Some("do this".to_string());
    second.rule_information = Some("https://example.com/doc".to_string());
    let errors = vec![plain(1), second, plain(2)];
    assert_eq!(hover_for(&errors, 0), Some("### MD000 / MD000\n\nPlain\n".to_string()));
    assert_eq!(
        hover_for(&errors, 1),
        Some(
            "### MD018 / no-missing-space-atx\n\nNo space after hash\n\
             \n**Detail:** detail\n\
             \n**Suggestion:** do this\n\
             \n*Auto-fixable* \u{1f527}\n\
             \n[Documentation](https://example.com/doc)\n\
             \n---\n\n\
             ### MD000 / MD000\n\nPlain\n"
                .to_string()
        )
    );
    assert_eq!(hover_for(&errors, 2), None);
    assert_eq!(hover_for(&vec![], 0), None);
    let mut nameless = plain(1);
    nameless.rule_names = vec![];
    assert_eq!(hover_for(&vec![nameless], 0), Some("### unknown / unknown\n\nPlain\n".to_string()));
    let zero = plain(0);
    assert_eq!(hover_for(&vec![zero], 0), None);
}

#[test]
fn test_hover_needs_an_open_document() {
    let mut server = MkdlintLanguageServer::new();
    assert_eq!(server.hover("u", 0), None);
    server.did_open("u".to_string(), "#A\n".to_string(), 1);
    server.documents.update_errors("u", vec![plain(1)]);
    assert!(server.hover("u", 0).is_some());
    assert!(server.hover("u", 1).is_none());
}

#[test]
fn test_code_actions_offer_fixes_in_range_and_fix_all() {
    let document = Document {
        uri: "file:///d.md".to_string(),
        content: "#A\n#B\n#C\n".to_string(),
        version: 1,
        cached_errors: vec![fixable(1, 2, " "), plain(2), fixable(3, 2, " "), fixable(9, 2, " ")],
    };
    let actions = actions_for(&document, 0, 1).unwrap();
    assert_eq!(actions.len(), 2);
    assert_eq!(actions[0].kind, CodeActionKind::QuickFix);
    assert_eq!(actions[0].title, "Fix: No space after hash (MD018)");
    assert_eq!(actions[0].edit.as_ref().unwrap().edits[0].range.start, Position::new(0, 1));
    assert_eq!(actions[1].kind, CodeActionKind::SourceFixAll);
    assert_eq!(actions[1].title, "Fix all mkdlint issues (3 fixes)");
    let command = actions[1].command.as_ref().unwrap();
    assert_eq!(command.title, "Fix all");
    assert_eq!(command.command, "mkdlint.fixAll");
    assert_eq!(command.argument, "file:///d.md");
    assert!(actions[1].edit.is_none());

    let all = actions_for(&document, 0, 100).unwrap();
    assert_eq!(all.len(), 3);
    let none_in_range = actions_for(&document, 1, 1).unwrap();
    assert_eq!(none_in_range.len(), 1);
    assert_eq!(none_in_range[0].kind, CodeActionKind::SourceFixAll);

    let unfixable = Document {
        uri: "u".to_string(),
        content: "#A\n".to_string(),
        version: 1,
        cached_errors: vec![plain(1)],
    };
    assert!(actions_for(&unfixable, 0, 10).is_none());
}

#[test]
fn test_fix_all_waits_for_confirmation() {
    let mut server = MkdlintLanguageServer::new();
    assert!(server.propose_fix_all("u").is_none());
    server.did_open("u".to_string(), "#A\n#B\n".to_string(), 4);
    server.documents.update_errors("u", vec![fixable(1, 2, " "), fixable(2, 2, " ")]);
    let proposal = server.propose_fix_all("u").unwrap();
    assert_eq!(proposal.content, "# A\n# B\n");
    assert_eq!(proposal.version, 4);
    assert_eq!(server.documents.get("u").unwrap().content, "#A\n#B\n");

    let rejected = server.propose_fix_all("u").unwrap();
    assert!(server.conclude_fix_all(rejected, false).is_empty());
    let doc = server.documents.get("u").unwrap();
    assert_eq!(doc.content, "#A\n#B\n");
    assert_eq!(doc.version, 4);
    assert_eq!(doc.cached_errors.len(), 2);

    let todo = server.conclude_fix_all(proposal, true);
    assert_eq!(todo, vec![Action::Lint("u".to_string())]);
    let doc = server.documents.get("u").unwrap();
    assert_eq!(doc.content, "# A\n# B\n");
    assert_eq!(doc.version, 5);
}

#[test]
fn test_fix_all_at_the_last_version() {
    let mut server = MkdlintLanguageServer::new();
    server.did_open("u".to_string(), "#A\n".to_string(), i32::MAX);
    server.documents.update_errors("u", vec![fixable(1, 2, " ")]);
    let proposal = server.propose_fix_all("u").unwrap();
    server.conclude_fix_all(proposal, true);
    assert_eq!(server.documents.get("u").unwrap().version, i32::MAX);
}

#[test]
fn test_engine_runs_enabled_rules_in_order() {
    let content = "# Same\n\n# Same\n\ntext[^1]\n\n    code\n\n```\nfenced\n```\n";
    assert!(lint_document("d.md", content, &None).iter().all(|e| e.rule_names[0] == "MD046"));
    let errors = lint_document("d.md", content, &enable(&["KMD005", "footnote-refs-defined"]));
    let names: Vec<&str> = errors.iter().map(|e| e.rule_names[0].as_str()).collect();
    assert_eq!(names, vec!["MD046", "KMD002", "KMD005"]);
    assert_eq!(errors[0].line_number, 9);
    assert_eq!(errors[1].line_number, 5);
    assert_eq!(errors[2].line_number, 3);

    let off = Some(Config {
        rules: vec![RuleSetting { name: "MD046".to_string(), enabled: false, style: None }],
    });
    assert!(lint_document("d.md", content, &off).is_empty());
    let styled = Some(Config {
        rules: vec![RuleSetting {
            name: "code-block-style".to_string(),
            enabled: true,
            style: Some("fenced".to_string()),
        }],
    });
    let errors = lint_document("d.md", content, &styled);
    assert_eq!(errors.len(), 1);
    assert_eq!(errors[0].line_number, 7);
    assert!(lint_document("d.md", "", &enable(&["KMD001", "KMD002", "KMD003", "KMD004", "KMD005"])).is_empty());
}

#[test]
fn test_lines_of_a_document() {
    let own = |v: &[&str]| -> Vec<String> { v.iter().map(|s| s.to_string()).collect() };
    assert_eq!(content_lines("a\nb\r\nc"), own(&["a", "b", "c"]));
    assert_eq!(content_lines("a\n\nb\n"), own(&["a", "", "b"]));
    assert_eq!(content_lines(""), own(&[]));
    assert_eq!(content_lines("\n"), own(&[""]));
    assert_eq!(content_lines("a\r"), own(&["a\r"]));
    assert_eq!(content_lines("\r\n"), own(&[""]));
    assert_eq!(terminated_lines("a\nb\r\nc"), own(&["a\n", "b\r\n", "c"]));
    assert_eq!(terminated_lines("a\n\n"), own(&["a\n", "\n"]));
    assert_eq!(terminated_lines(""), own(&[]));
    for text in ["a\nb\r\nc", "x\n\n", "", "\n", "a\r", "tail\n", "\r\n\r\n"] {
        let expected: Vec<String> = text.lines().map(|s| s.to_string()).collect();
        assert_eq!(content_lines(text), expected);
        let inclusive: Vec<String> = text.split_inclusive('\n').map(|s| s.to_string()).collect();
        assert_eq!(terminated_lines(text), inclusive);
    }
}
