use agentloop::patch::{parse_blocks, apply_blocks, applied_message, PatchError};

fn b(s: &str) -> Vec<u8> {
    s.as_bytes().to_vec()
}

fn block(search: &str, replace: &str) -> Vec<u8> {
    let mut out = Vec::new();
    out.extend_from_slice(b"<<<<<<< SEARCH\n");
    out.extend_from_slice(search.as_bytes());
    out.extend_from_slice(b"\n=======\n");
    out.extend_from_slice(replace.as_bytes());
    out.extend_from_slice(b"\n>>>>>>> REPLACE");
    out
}

#[test]
fn single_block_applies_and_counts_one() {
    let text = block("ab", "xy");
    let blocks = parse_blocks(&text).unwrap();
    assert_eq!(blocks.len(), 1);
    let out = apply_blocks(&b("ab\ncd"), &blocks).unwrap();
    assert_eq!(out, b("xy\ncd"));
    let msg = applied_message(blocks.len(), &b("f.txt"));
    assert_eq!(msg, b("Applied 1 block(s) to f.txt"));
}

#[test]
fn replacement_is_global() {
    let text = block("a", "b");
    let blocks = parse_blocks(&text).unwrap();
    let out = apply_blocks(&b("a a a"), &blocks).unwrap();
    assert_eq!(out, b("b b b"));
}

#[test]
fn second_block_missing_fails_and_content_stays() {
    let mut text = block("ab", "xy");
    text.push(b'\n');
    text.extend_from_slice(&block("zz", "ww"));
    let blocks = parse_blocks(&text).unwrap();
    assert_eq!(blocks.len(), 2);
    let content = b("ab\ncd");
    let r = apply_blocks(&content, &blocks);
    match r {
        Err(search) => assert_eq!(search, b("zz")),
        Ok(_) => panic!("expected a failed patch"),
    }
    // The call is pure: the content handed in is untouched, so nothing
    // was ever there to write back.
    assert_eq!(content, b("ab\ncd"));
}

#[test]
fn blocks_apply_in_parsed_order() {
    let mut text = block("ab", "cd");
    text.push(b'\n');
    text.extend_from_slice(&block("cd", "ef"));
    let blocks = parse_blocks(&text).unwrap();
    let out = apply_blocks(&b("ab"), &blocks).unwrap();
    assert_eq!(out, b("ef"));
}

#[test]
fn search_and_replacement_are_trimmed() {
    let text = b("<<<<<<< SEARCH\n  ab  \n=======\n  xy  \n>>>>>>> REPLACE");
    let blocks = parse_blocks(&text).unwrap();
    assert_eq!(blocks[0].search, b("ab"));
    assert_eq!(blocks[0].replace, b("xy"));
}

#[test]
fn text_before_the_first_marker_is_ignored() {
    let mut text = b("some preamble\n");
    text.extend_from_slice(&block("a", "b"));
    let blocks = parse_blocks(&text).unwrap();
    assert_eq!(blocks.len(), 1);
}

#[test]
fn missing_separator_is_a_syntax_error() {
    let text = b("<<<<<<< SEARCH\nab\n>>>>>>> REPLACE");
    match parse_blocks(&text) {
        Err(e) => assert_eq!(e.message(), b("Missing =======")),
        Ok(_) => panic!("expected a syntax error"),
    }
}

#[test]
fn missing_end_marker_is_a_syntax_error() {
    let text = b("<<<<<<< SEARCH\nab\n=======\nxy");
    match parse_blocks(&text) {
        Err(e) => assert_eq!(e.message(), b("Missing >>>>>>> REPLACE")),
        Ok(_) => panic!("expected a syntax error"),
    }
}

#[test]
fn no_blocks_at_all_is_refused() {
    match parse_blocks(&b("nothing here")) {
        Err(e) => assert_eq!(e.message(), b("No valid search/replace blocks found")),
        Ok(_) => panic!("expected a refusal"),
    }
}

#[test]
fn not_found_failure_quotes_the_search_text() {
    let e = PatchError::NotFound { file: b("f.txt"), search: b("a\nb") };
    assert_eq!(e.message(), b("Search string not found in f.txt: \"a\\nb\""));
}

#[test]
fn empty_search_interleaves_the_replacement() {
    let text = b("<<<<<<< SEARCH\n=======\nX\n>>>>>>> REPLACE");
    let blocks = parse_blocks(&text).unwrap();
    assert_eq!(blocks[0].search, b(""));
    let out = apply_blocks(&b("ab"), &blocks).unwrap();
    assert_eq!(out, b("XaXbX"));
}
