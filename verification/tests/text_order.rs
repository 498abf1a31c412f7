use agentloop::text::{
    trim_bytes, split_lines, join_bytes, find_bytes, contains_bytes, replace_bytes, starts_with,
    bytes_eq,
};
use agentloop::order::{lex_le_bytes, sort_byte_strings};

fn b(s: &str) -> Vec<u8> {
    s.as_bytes().to_vec()
}

#[test]
fn trimming_strips_ascii_whitespace() {
    assert_eq!(trim_bytes(&b("  a b \t\r\n")), b("a b"));
    assert_eq!(trim_bytes(&b("")), b(""));
    assert_eq!(trim_bytes(&b(" \n ")), b(""));
    assert_eq!(trim_bytes(&b("x")), b("x"));
}

#[test]
fn line_splitting_follows_the_text_rules() {
    let ls = split_lines(&b("a\nb\nc"));
    assert_eq!(ls, vec![b("a"), b("b"), b("c")]);
    // No empty line after a trailing newline.
    assert_eq!(split_lines(&b("a\n")), vec![b("a")]);
    // A CR before the LF is dropped.
    assert_eq!(split_lines(&b("a\r\nb")), vec![b("a"), b("b")]);
    // Empty text has no lines; a lone newline has one empty line.
    assert_eq!(split_lines(&b("")).len(), 0);
    assert_eq!(split_lines(&b("\n")), vec![b("")]);
}

#[test]
fn joining_is_the_inverse_of_splitting_without_final_newline() {
    let parts = vec![b("a"), b(""), b("c")];
    assert_eq!(join_bytes(&parts, &b("\n")), b("a\n\nc"));
    assert_eq!(join_bytes(&Vec::new(), &b("\n")), b(""));
}

#[test]
fn searching_finds_the_first_occurrence() {
    assert_eq!(find_bytes(&b("abcabc"), &b("bc"), 0), Some(1));
    assert_eq!(find_bytes(&b("abcabc"), &b("bc"), 2), Some(4));
    assert_eq!(find_bytes(&b("abc"), &b("zz"), 0), None);
    assert!(contains_bytes(&b("hay needle stack"), &b("needle")));
    assert!(!contains_bytes(&b("haystack"), &b("needle")));
}

#[test]
fn replacement_is_leftmost_and_non_overlapping() {
    assert_eq!(replace_bytes(&b("aaa"), &b("aa"), &b("b")), b("ba"));
    assert_eq!(replace_bytes(&b("xyx"), &b("y"), &b("yy")), b("xyyx"));
    assert_eq!(replace_bytes(&b("none"), &b("zz"), &b("w")), b("none"));
}

#[test]
fn prefix_and_equality_checks() {
    assert!(starts_with(&b("TOOL: x"), &b("TOOL:")));
    assert!(!starts_with(&b("TOO"), &b("TOOL:")));
    assert!(bytes_eq(&b("same"), &b("same")));
    assert!(!bytes_eq(&b("same"), &b("Same")));
}

#[test]
fn lexicographic_order_on_bytes() {
    assert!(lex_le_bytes(&b("abc"), &b("abd")));
    assert!(lex_le_bytes(&b("ab"), &b("abc")));
    assert!(!lex_le_bytes(&b("abc"), &b("ab")));
    assert!(lex_le_bytes(&b(""), &b("")));
}

#[test]
fn sorting_orders_and_keeps_all_elements() {
    let v = vec![b("pear"), b("apple"), b("pea"), b("apple")];
    let sorted = sort_byte_strings(v);
    assert_eq!(sorted, vec![b("apple"), b("apple"), b("pea"), b("pear")]);
}
