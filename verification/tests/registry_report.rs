use agentloop::registry::{ToolKind, lookup, dispatch_lookup, catalog_text};
use agentloop::report::{
    ToolResult, status_line, fold_results, dir_created_message, file_written_message,
    not_directory_message, missing_path_message, format_listing,
};
use agentloop::text::split_first_line;

fn b(s: &str) -> Vec<u8> {
    s.as_bytes().to_vec()
}

#[test]
fn every_tool_name_resolves() {
    assert_eq!(lookup(b"list_files"), Some(ToolKind::ListFiles));
    assert_eq!(lookup(b"read_file"), Some(ToolKind::ReadFile));
    assert_eq!(lookup(b"create_directory"), Some(ToolKind::CreateDirectory));
    assert_eq!(lookup(b"apply_search_replace"), Some(ToolKind::ApplySearchReplace));
    assert_eq!(lookup(b"run_command"), Some(ToolKind::RunCommand));
    assert_eq!(lookup(b"write_file"), Some(ToolKind::WriteFile));
    assert_eq!(lookup(b"search_web"), Some(ToolKind::SearchWeb));
    assert_eq!(lookup(b"fetch_url"), Some(ToolKind::FetchUrl));
    assert_eq!(lookup(b"frobnicate"), None);
    assert_eq!(lookup(b""), None);
}

#[test]
fn unknown_names_fail_with_the_unknown_tool_text() {
    match dispatch_lookup(b"frobnicate") {
        Err(m) => assert_eq!(m, b("Unknown tool: frobnicate")),
        Ok(_) => panic!("expected an unknown tool"),
    }
    assert!(dispatch_lookup(b"read_file").is_ok());
}

#[test]
fn catalog_is_sorted_by_name() {
    let text = catalog_text();
    let rendered = String::from_utf8(text).unwrap();
    let lines: Vec<&str> = rendered.lines().collect();
    assert_eq!(lines.len(), 8);
    let mut sorted = lines.clone();
    sorted.sort();
    assert_eq!(lines, sorted);
    assert!(lines[0].starts_with("- apply_search_replace : "));
    assert!(lines[7].starts_with("- write_file : "));
}

#[test]
fn read_file_status_names_the_path() {
    let s = status_line(ToolKind::ReadFile, &b("src/main.rs\nrest"), &b("whatever"));
    assert_eq!(s, b("Read file at src/main.rs"));
}

#[test]
fn read_file_status_without_a_path_shows_a_question_mark() {
    let s = status_line(ToolKind::ReadFile, &b(""), &b(""));
    assert_eq!(s, b("Read file at ?"));
}

#[test]
fn list_files_status_counts_lines() {
    let s = status_line(ToolKind::ListFiles, &b("somedir"), &b("a\nb\nc"));
    assert_eq!(s, b("Listed 3 files in somedir"));
}

#[test]
fn patch_and_mkdir_statuses_echo_the_output() {
    let s = status_line(ToolKind::ApplySearchReplace, &b("x"), &b("Applied 2 block(s) to x"));
    assert_eq!(s, b("Applied 2 block(s) to x"));
    let s2 = status_line(ToolKind::CreateDirectory, &b("d"), &b("Directory created: d"));
    assert_eq!(s2, b("Directory created: d"));
}

#[test]
fn run_command_status_reads_the_exit_code() {
    let ok = status_line(ToolKind::RunCommand, &b("ls"), &b("EXIT_CODE:0\nstdout:\nhi"));
    assert_eq!(ok, b("Command succeeded (exit code: 0)"));
    let bad = status_line(ToolKind::RunCommand, &b("ls"), &b("EXIT_CODE:3\nstderr:\nno"));
    assert_eq!(bad, b("Command failed (exit code: 3)"));
    let odd = status_line(ToolKind::RunCommand, &b("ls"), &b("garbage"));
    assert_eq!(odd, b("Command failed (exit code: -1)"));
}

#[test]
fn other_tools_report_execution() {
    let s = status_line(ToolKind::WriteFile, &b("f"), &b("File written: f"));
    assert_eq!(s, b("Executed tool: write_file"));
}

#[test]
fn results_fold_into_the_follow_up_prompt() {
    let rs = vec![
        ToolResult { name: b("read_file"), ok: true, text: b("contents") },
        ToolResult { name: b("run_command"), ok: false, text: b("Unknown tool: x") },
    ];
    let prompt = fold_results(&rs);
    assert_eq!(
        prompt,
        b("TOOL RESULT for read_file:\ncontents\n\nTOOL run_command failed: Unknown tool: x\n\nContinue with the next step or provide the final answer.")
    );
}

#[test]
fn simple_tool_messages() {
    assert_eq!(dir_created_message(&b("d/e")), b("Directory created: d/e"));
    assert_eq!(file_written_message(&b("f.txt")), b("File written: f.txt"));
    assert_eq!(not_directory_message(&b("nope")), b("Not a directory: nope"));
    assert_eq!(missing_path_message(), b("Missing file path"));
}

#[test]
fn listings_are_sorted_lines() {
    let names = vec![b("zeta"), b("alpha"), b("midway")];
    assert_eq!(format_listing(names), b("alpha\nmidway\nzeta"));
}

#[test]
fn empty_directory_lists_nothing() {
    assert_eq!(format_listing(Vec::new()), b(""));
}

#[test]
fn write_file_arguments_split_at_the_first_line() {
    match split_first_line(&b("out.txt\nline one\nline two")) {
        Some((path, content)) => {
            assert_eq!(path, b("out.txt"));
            assert_eq!(content, b("line one\nline two"));
        },
        None => panic!("expected a path"),
    }
    match split_first_line(&b("only_path")) {
        Some((path, content)) => {
            assert_eq!(path, b("only_path"));
            assert_eq!(content, b(""));
        },
        None => panic!("expected a path"),
    }
    assert!(split_first_line(&b("")).is_none());
}
