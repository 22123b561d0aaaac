use mkdlint::lsp::document::DocumentManager;
use mkdlint::lsp::utils::{to_position, to_u32, Debouncer, Scheduled};
use mkdlint::lsp::protocol::Position;
use mkdlint::types::{LintError, Severity};

fn issue(line: usize) -> LintError {
    LintError {
        line_number: line,
        rule_names: vec!["MD001".to_string()],
        rule_description: "d".to_string(),
        severity: Severity::Warning,
        ..Default::default()
    }
}

#[test]
fn test_document_insert_and_get() {
    let mut docs = DocumentManager::new();
    assert!(docs.get("file:///a.md").is_none());
    docs.insert("file:///a.md".to_string(), "# A\n".to_string(), 1);
    let doc = docs.get("file:///a.md").unwrap();
    assert_eq!(doc.uri, "file:///a.md");
    assert_eq!(doc.content, "# A\n");
    assert_eq!(doc.version, 1);
    assert!(doc.cached_errors.is_empty());
    assert_eq!(docs.all_uris(), vec!["file:///a.md".to_string()]);
}

#[test]
fn test_document_update_is_last_writer_wins() {
    let mut docs = DocumentManager::new();
    docs.insert("u".to_string(), "one".to_string(), 5);
    assert!(docs.update_errors("u", vec![issue(1)]));
    assert!(docs.update("u", "two".to_string(), 3));
    let doc = docs.get("u").unwrap();
    assert_eq!(doc.content, "two");
    assert_eq!(doc.version, 3);
    assert_eq!(doc.cached_errors, vec![issue(1)]);
    assert!(!docs.update("other", "x".to_string(), 1));
    assert!(docs.get("other").is_none());
    assert_eq!(docs.all_uris().len(), 1);
}

#[test]
fn test_document_update_errors_replaces_all() {
    let mut docs = DocumentManager::new();
    docs.insert("u".to_string(), "text".to_string(), 1);
    assert!(docs.update_errors("u", vec![issue(1), issue(2)]));
    assert!(docs.update_errors("u", vec![issue(3)]));
    assert_eq!(docs.get("u").unwrap().cached_errors, vec![issue(3)]);
    assert!(!docs.update_errors("missing", vec![issue(1)]));
    assert!(docs.update_errors("u", vec![]));
    assert!(docs.get("u").unwrap().cached_errors.is_empty());
}

#[test]
fn test_document_reopen_clears_issues_and_keeps_place() {
    let mut docs = DocumentManager::new();
    docs.insert("a".to_string(), "1".to_string(), 1);
    docs.insert("b".to_string(), "2".to_string(), 1);
    docs.update_errors("a", vec![issue(1)]);
    docs.insert("a".to_string(), "3".to_string(), 2);
    assert!(docs.get("a").unwrap().cached_errors.is_empty());
    assert_eq!(docs.get("a").unwrap().content, "3");
    assert_eq!(docs.all_uris(), vec!["a".to_string(), "b".to_string()]);
    docs.update("a", "4".to_string(), 3);
    assert_eq!(docs.all_uris(), vec!["a".to_string(), "b".to_string()]);
}

#[test]
fn test_document_remove() {
    let mut docs = DocumentManager::new();
    docs.insert("a".to_string(), "1".to_string(), 1);
    docs.insert("b".to_string(), "2".to_string(), 1);
    docs.insert("c".to_string(), "3".to_string(), 1);
    let removed = docs.remove("b").unwrap();
    assert_eq!(removed.content, "2");
    assert!(docs.remove("b").is_none());
    assert!(docs.get("b").is_none());
    assert_eq!(docs.all_uris(), vec!["a".to_string(), "c".to_string()]);
    assert_eq!(docs.get("c").unwrap().content, "3");
}

#[test]
fn test_debounce_coalesces_two_schedules() {
    let mut debouncer = Debouncer::new(300);
    assert_eq!(debouncer.quiet_interval(), 300);
    let first = debouncer.schedule("doc").unwrap();
    let second = debouncer.schedule("doc").unwrap();
    assert_eq!(first, Scheduled { token: 0, superseded: None });
    assert_eq!(second, Scheduled { token: 1, superseded: Some(0) });
    assert_eq!(debouncer.pending_token("doc"), Some(1));
    assert!(!debouncer.fire("doc", first.token));
    assert!(debouncer.fire("doc", second.token));
    assert!(!debouncer.fire("doc", second.token));
    assert_eq!(debouncer.pending_token("doc"), None);
}

#[test]
fn test_debounce_fires_in_either_order() {
    let mut debouncer = Debouncer::new(10);
    let first = debouncer.schedule("doc").unwrap();
    let second = debouncer.schedule("doc").unwrap();
    assert!(debouncer.fire("doc", second.token));
    assert!(!debouncer.fire("doc", first.token));
}

#[test]
fn test_debounce_cancel_suppresses_the_timer() {
    let mut debouncer = Debouncer::new(10);
    let scheduled = debouncer.schedule("doc").unwrap();
    assert_eq!(debouncer.cancel("doc"), Some(scheduled.token));
    assert_eq!(debouncer.cancel("doc"), None);
    assert!(!debouncer.fire("doc", scheduled.token));
    let next = debouncer.schedule("doc").unwrap();
    assert_eq!(next.superseded, None);
    assert!(next.token != scheduled.token);
}

#[test]
fn test_debounce_keys_are_independent() {
    let mut debouncer = Debouncer::new(10);
    let a = debouncer.schedule("a").unwrap();
    let b = debouncer.schedule("b").unwrap();
    assert!(a.token != b.token);
    assert_eq!(debouncer.cancel("a"), Some(a.token));
    assert_eq!(debouncer.pending_token("b"), Some(b.token));
    assert!(!debouncer.fire("a", b.token));
    assert!(!debouncer.fire("b", a.token));
    assert!(debouncer.fire("b", b.token));
}

#[test]
fn test_task_that_runs_is_not_touched_by_a_new_schedule() {
    let mut debouncer = Debouncer::new(10);
    let first = debouncer.schedule("doc").unwrap();
    assert!(debouncer.fire("doc", first.token));
    let second = debouncer.schedule("doc").unwrap();
    assert_eq!(second.superseded, None);
    assert!(debouncer.fire("doc", second.token));
}

#[test]
fn test_to_position() {
    assert_eq!(to_position(1, 1), Position::new(0, 0));
    assert_eq!(to_position(3, 7), Position::new(2, 6));
    assert_eq!(to_position(0, 0), Position::new(0, 0));
    assert_eq!(to_u32(7), 7);
    assert_eq!(to_u32(u32::MAX as usize), u32::MAX);
    assert_eq!(to_u32(usize::MAX), u32::MAX);
}
