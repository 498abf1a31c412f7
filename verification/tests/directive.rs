use agentloop::directive::parse_invocations;

fn b(s: &str) -> Vec<u8> {
    s.as_bytes().to_vec()
}

#[test]
fn no_marker_lines_yield_empty_list() {
    let text = b("hello there\njust prose\n\nno tools here");
    let invs = parse_invocations(&text);
    assert_eq!(invs.len(), 0);
}

#[test]
fn empty_message_yields_empty_list() {
    let invs = parse_invocations(&b(""));
    assert_eq!(invs.len(), 0);
}

#[test]
fn parsing_is_idempotent() {
    let text = b("intro\nTOOL: read_file a.txt\nbody line\nTOOL: run_command ls");
    let first = parse_invocations(&text);
    let second = parse_invocations(&text);
    assert_eq!(first.len(), second.len());
    for (x, y) in first.iter().zip(second.iter()) {
        assert_eq!(x.name, y.name);
        assert_eq!(x.arg, y.arg);
    }
}

#[test]
fn fragment_and_body_join_with_newline() {
    let text = b("TOOL: foo bar\nbaz\nqux");
    let invs = parse_invocations(&text);
    assert_eq!(invs.len(), 1);
    assert_eq!(invs[0].name, b("foo"));
    assert_eq!(invs[0].arg, b("bar\nbaz\nqux"));
}

#[test]
fn empty_fragment_gives_body_alone() {
    let text = b("TOOL: foo\nbaz");
    let invs = parse_invocations(&text);
    assert_eq!(invs.len(), 1);
    assert_eq!(invs[0].name, b("foo"));
    assert_eq!(invs[0].arg, b("baz"));
}

#[test]
fn empty_body_gives_fragment_alone() {
    let text = b("TOOL: foo bar");
    let invs = parse_invocations(&text);
    assert_eq!(invs.len(), 1);
    assert_eq!(invs[0].name, b("foo"));
    assert_eq!(invs[0].arg, b("bar"));
}

#[test]
fn multiple_invocations_keep_textual_order() {
    let text = b("TOOL: first one\nTOOL: second two\nextra\nTOOL: third");
    let invs = parse_invocations(&text);
    assert_eq!(invs.len(), 3);
    assert_eq!(invs[0].name, b("first"));
    assert_eq!(invs[0].arg, b("one"));
    assert_eq!(invs[1].name, b("second"));
    assert_eq!(invs[1].arg, b("two\nextra"));
    assert_eq!(invs[2].name, b("third"));
    assert_eq!(invs[2].arg, b(""));
}

#[test]
fn marker_line_may_be_indented() {
    let text = b("  TOOL: foo bar");
    let invs = parse_invocations(&text);
    assert_eq!(invs.len(), 1);
    assert_eq!(invs[0].name, b("foo"));
    assert_eq!(invs[0].arg, b("bar"));
}

#[test]
fn body_lines_are_kept_verbatim() {
    let text = b("TOOL: write_file out.txt\n  indented\n\ntrailing");
    let invs = parse_invocations(&text);
    assert_eq!(invs.len(), 1);
    assert_eq!(invs[0].arg, b("out.txt\n  indented\n\ntrailing"));
}

#[test]
fn prose_before_and_between_markers_is_ignored() {
    let text = b("I will now run a tool.\nTOOL: run_command ls\nSome explanation after.");
    let invs = parse_invocations(&text);
    assert_eq!(invs.len(), 1);
    assert_eq!(invs[0].name, b("run_command"));
    assert_eq!(invs[0].arg, b("ls\nSome explanation after."));
}

#[test]
fn fragment_keeps_extra_spaces_after_first_split() {
    let text = b("TOOL: foo  bar");
    let invs = parse_invocations(&text);
    assert_eq!(invs.len(), 1);
    assert_eq!(invs[0].name, b("foo"));
    assert_eq!(invs[0].arg, b(" bar"));
}

#[test]
fn crlf_lines_lose_their_carriage_returns() {
    let text = b("TOOL: foo bar\r\nbaz\r\n");
    let invs = parse_invocations(&text);
    assert_eq!(invs.len(), 1);
    assert_eq!(invs[0].arg, b("bar\nbaz"));
}
