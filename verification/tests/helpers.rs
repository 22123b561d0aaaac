use mkdlint::helpers::{
    detect_line_ending, heading_to_anchor_id, is_code_fence, is_empty_string, is_url, split_lines,
};

#[test]
fn test_is_url() {
    assert!(is_url("https://example.com"));
    assert!(is_url("http://example.com"));
    assert!(!is_url("example.com"));
    assert!(!is_url("not a url"));
}

#[test]
fn test_detect_line_ending() {
    assert_eq!(detect_line_ending("line1\nline2"), "\n");
    assert_eq!(detect_line_ending("line1\r\nline2"), "\r\n");
}

#[test]
fn test_is_url_needs_the_whole_scheme() {
    assert!(!is_url(""));
    assert!(!is_url("http:/"));
    assert!(!is_url(" http://example.com"));
    assert!(is_url("http://"));
}

#[test]
fn test_is_empty_string() {
    assert!(is_empty_string(""));
    assert!(!is_empty_string(" "));
    assert!(!is_empty_string("a"));
}

#[test]
fn test_detect_line_ending_without_any() {
    assert_eq!(detect_line_ending(""), "\n");
    assert_eq!(detect_line_ending("one line"), "\n");
    assert_eq!(detect_line_ending("a\rb"), "\n");
    assert_eq!(detect_line_ending("a\nb\r\nc"), "\r\n");
}

#[test]
fn test_is_code_fence() {
    assert!(is_code_fence("```"));
    assert!(is_code_fence("```rust"));
    assert!(is_code_fence("~~~"));
    assert!(is_code_fence("~~~~ text"));
    assert!(!is_code_fence("``"));
    assert!(!is_code_fence(" ```"));
    assert!(!is_code_fence("~~`"));
    assert!(!is_code_fence(""));
}

#[test]
fn test_heading_to_anchor_id() {
    assert_eq!(heading_to_anchor_id("Hello World"), "hello-world");
    assert_eq!(heading_to_anchor_id("What's New?"), "whats-new");
    assert_eq!(heading_to_anchor_id("Getting   Started"), "getting-started");
    assert_eq!(heading_to_anchor_id("a - b"), "a-b");
    assert_eq!(heading_to_anchor_id("--Title--"), "title");
    assert_eq!(heading_to_anchor_id("  Leading spaces  "), "leading-spaces");
    assert_eq!(heading_to_anchor_id(""), "");
    assert_eq!(heading_to_anchor_id("!!!"), "");
    assert_eq!(heading_to_anchor_id("API v2.0"), "api-v20");
}

#[test]
fn test_heading_to_anchor_id_lowercases_beyond_ascii() {
    assert_eq!(heading_to_anchor_id("Über Uns"), "über-uns");
    assert_eq!(heading_to_anchor_id("ÉTÉ"), "été");
}

#[test]
fn test_split_lines() {
    assert_eq!(split_lines("a\nb"), vec!["a".to_string(), "b".to_string()]);
    assert_eq!(split_lines("a\nb\n"), vec!["a".to_string(), "b".to_string(), String::new()]);
    assert_eq!(split_lines(""), vec![String::new()]);
    assert_eq!(split_lines("a\r\nb\r\n"), vec!["a".to_string(), "b".to_string(), String::new()]);
    assert_eq!(split_lines("a\r\nb\nc"), vec!["a".to_string(), "b\nc".to_string()]);
    assert_eq!(split_lines("\n\n"), vec![String::new(), String::new(), String::new()]);
}
