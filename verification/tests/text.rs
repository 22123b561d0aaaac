use mkdlint::helpers::{leading_len, split, trim_matches};
use mkdlint::lines::index_lines;
use mkdlint::lsp::code_actions::distance;
use mkdlint::lsp::diagnostics::units_before;
use mkdlint::table::Table;
use mkdlint::text::{
    append, append_str, chars_of, contains, content_len, decimal_of, find, join, len_before,
    matches_at, rfind, same, slice_of, starts_with, string_of, trim_end_len, trimmed,
    trimmed_start, width,
};
use mkdlint::unicode::is_whitespace;

fn c(s: &str) -> Vec<char> {
    s.chars().collect()
}

#[test]
fn test_chars_and_strings_round_trip() {
    for text in ["", "abc", "é—😀", "a\nb\r\n"] {
        assert_eq!(chars_of(text), c(text));
        assert_eq!(string_of(&c(text)), text);
    }
    let mut out = c("ab");
    append(&mut out, &c("cd"));
    append_str(&mut out, "é");
    append(&mut out, &[]);
    assert_eq!(out, c("abcdé"));
    assert_eq!(slice_of(&c("abcdef"), 2, 4), c("cd"));
    assert_eq!(slice_of(&c("abc"), 3, 3), c(""));
}

#[test]
fn test_find_and_contains() {
    assert_eq!(find(&c("abcabc"), &c("bc")), Some(1));
    assert_eq!(find(&c("abcabc"), &c("")), Some(0));
    assert_eq!(find(&c(""), &c("")), Some(0));
    assert_eq!(find(&c("abc"), &c("abcd")), None);
    assert_eq!(find(&c("abc"), &c("c")), Some(2));
    assert_eq!(find(&c("aab"), &c("ab")), Some(1));
    assert!(contains(&c("a\r\nb"), &c("\r\n")));
    assert!(!contains(&c("a\rb\n"), &c("\r\n")));
    assert!(matches_at(&c("abc"), &c("bc"), 1));
    assert!(!matches_at(&c("abc"), &c("bc"), 2));
    assert!(!matches_at(&c("abc"), &c("bc"), usize::MAX));
    assert!(matches_at(&c("abc"), &c(""), 3));
    assert!(!matches_at(&c("abc"), &c(""), 4));
    assert!(starts_with(&c("abc"), &c("ab")));
    assert!(!starts_with(&c("abc"), &c("bc")));
    assert!(same(&c("abc"), &c("abc")));
    assert!(!same(&c("abc"), &c("abd")));
    assert!(!same(&c("abc"), &c("ab")));
    assert_eq!(rfind(&c("a#b#c"), '#'), Some(3));
    assert_eq!(rfind(&c("abc"), '#'), None);
    assert_eq!(rfind(&c("#"), '#'), Some(0));
}

#[test]
fn test_trimming() {
    assert_eq!(trim_end_len(&c("ab))"), 4, ')'), 2);
    assert_eq!(trim_end_len(&c("ab))"), 3, ')'), 2);
    assert_eq!(trim_end_len(&c(")))"), 3, ')'), 0);
    assert_eq!(trim_end_len(&c("abc"), 3, ')'), 3);
    assert_eq!(content_len(&c("ab\r\n")), 2);
    assert_eq!(content_len(&c("ab\n\n")), 2);
    assert_eq!(content_len(&c("ab\r")), 2);
    assert_eq!(content_len(&c("ab\n\r")), 3);
    assert_eq!(content_len(&c("")), 0);
    assert_eq!(trimmed(&c("  a b \t\n")), c("a b"));
    assert_eq!(trimmed(&c("\u{a0}x\u{2003}")), c("x"));
    assert_eq!(trimmed(&c("   ")), c(""));
    assert_eq!(trimmed_start(&c("  a ")), c("a "));
    assert_eq!(trim_matches(&c("--a-b--"), '-'), c("a-b"));
    assert_eq!(trim_matches(&c("---"), '-'), c(""));
    assert_eq!(leading_len(&c("--a-"), '-'), 2);
}

#[test]
fn test_split_and_join() {
    let parts = |v: &[&str]| -> Vec<Vec<char>> { v.iter().map(|s| c(s)).collect() };
    assert_eq!(split(&c("a,b,,c"), &c(",")), parts(&["a", "b", "", "c"]));
    assert_eq!(split(&c("a--b-c"), &c("--")), parts(&["a", "b-c"]));
    assert_eq!(split(&c(""), &c(",")), parts(&[""]));
    assert_eq!(split(&c(","), &c(",")), parts(&["", ""]));
    assert_eq!(split(&c("aaa"), &c("aa")), parts(&["", "a"]));
    assert_eq!(join(&parts(&["a", "b", "", "c"]), &c(",")), c("a,b,,c"));
    assert_eq!(join(&parts(&[]), &c(",")), c(""));
    assert_eq!(join(&parts(&["x"]), &c(", ")), c("x"));
    for text in ["a,b,,c", "", ",", "no separator"] {
        assert_eq!(join(&split(&c(text), &c(",")), &c(",")), c(text));
    }
}

#[test]
fn test_decimal() {
    assert_eq!(decimal_of(0), c("0"));
    assert_eq!(decimal_of(7), c("7"));
    assert_eq!(decimal_of(10), c("10"));
    assert_eq!(decimal_of(1234567890), c("1234567890"));
    assert_eq!(string_of(&decimal_of(usize::MAX)), usize::MAX.to_string());
}

#[test]
fn test_widths() {
    assert_eq!(width(&c("")), 0);
    assert_eq!(width(&c("abc")), 3);
    assert_eq!(width(&c("é")), 2);
    assert_eq!(width(&c("—")), 3);
    assert_eq!(width(&c("😀")), 4);
    assert_eq!(width(&c("aé—😀")), "aé—😀".len());
    assert_eq!(units_before(&c("a😀b"), 0), 0);
    assert_eq!(units_before(&c("a😀b"), 2), 3);
    assert_eq!(units_before(&c("a😀b"), 3), "a😀b".encode_utf16().count());
    assert_eq!(units_before(&c("\u{ffff}\u{10000}"), 2), 3);
}

#[test]
fn test_line_starts() {
    assert_eq!(index_lines(&c("")), Vec::<usize>::new());
    assert_eq!(index_lines(&c("abc")), vec![0]);
    assert_eq!(index_lines(&c("a\nb\n")), vec![0, 2]);
    assert_eq!(index_lines(&c("a\n\nb")), vec![0, 2, 3]);
    assert_eq!(index_lines(&c("\n")), vec![0]);
    assert_eq!(index_lines(&c("\n\n")), vec![0, 1]);
}

#[test]
fn test_distance_is_symmetric_and_bounded() {
    let words = ["", "a", "ab", "ba", "abc", "kitten", "sitting", "héllo", "hello"];
    for a in words {
        for b in words {
            let d = distance(&c(a), &c(b));
            assert_eq!(d, distance(&c(b), &c(a)));
            assert!(d <= c(a).len().max(c(b).len()));
            assert_eq!(d == 0, a == b);
        }
    }
    assert_eq!(distance(&c("héllo"), &c("hello")), 1);
    assert_eq!(distance(&c("ab"), &c("ba")), 2);
}

#[test]
fn test_table() {
    let mut table: Table<u32> = Table::new();
    assert_eq!(table.len(), 0);
    assert_eq!(table.get("a"), None);
    assert_eq!(table.set("a".to_string(), 1), None);
    assert_eq!(table.set("b".to_string(), 2), None);
    assert_eq!(table.set("a".to_string(), 3), Some(1));
    assert_eq!(table.get("a"), Some(&3));
    assert_eq!(table.get("b"), Some(&2));
    assert_eq!(table.key_list(), vec!["a".to_string(), "b".to_string()]);
    assert_eq!(table.remove("a"), Some(3));
    assert_eq!(table.remove("a"), None);
    assert_eq!(table.key_list(), vec!["b".to_string()]);
    assert_eq!(table.len(), 1);
    assert_eq!(table.set("".to_string(), 9), None);
    assert_eq!(table.get(""), Some(&9));
}

#[test]
fn test_len_before() {
    assert_eq!(len_before(&c("frag) and more"), ')'), 4);
    assert_eq!(len_before(&c(")x"), ')'), 0);
    assert_eq!(len_before(&c("none"), ')'), 4);
    assert_eq!(len_before(&c(""), ')'), 0);
    assert_eq!(len_before(&c("a))"), ')'), 1);
}

#[test]
fn test_whitespace_is_the_white_space_property() {
    let mut count = 0;
    for u in 0..=0x10ffffu32 {
        if let Some(ch) = char::from_u32(u) {
            assert_eq!(is_whitespace(ch), ch.is_whitespace(), "U+{:04X}", u);
            if is_whitespace(ch) {
                count += 1;
            }
        }
    }
    assert_eq!(count, 25);
}
