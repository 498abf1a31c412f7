//! Reporting: the local status line printed after each tool call, the
//! per-call result entries, and the synthetic follow-up prompt that feeds
//! the collected results back into the conversation.

use vstd::prelude::*;
use vstd::string::StringSliceAdditionalSpecFns;
use crate::text::{views, lines_of, join_with, has_prefix, push_all, split_lines, starts_with};
use crate::numfmt::{dec_digits, dec_int, parse_i32_spec, parse_i32};
use crate::order::sort_lex;
use crate::registry::{ToolKind, tool_name_spec, tool_name};

verus! {

/// What one tool call came to: the tool's name, whether it succeeded,
/// and its output or failure text. Consumed within the same turn.
pub struct ToolResult {
    pub name: Vec<u8>,
    pub ok: bool,
    pub text: Vec<u8>,
}

/// The first line of an argument, or `?` when it has none.
pub open spec fn first_line_or_q(arg: Seq<u8>) -> Seq<u8> {
    if lines_of(arg).len() == 0 {
        "?".spec_bytes()
    } else {
        lines_of(arg)[0]
    }
}

fn first_line_or_q_bytes(arg: &[u8]) -> (r: Vec<u8>)
    ensures
        r@ == first_line_or_q(arg@),
{
    let lines = split_lines(arg);
    let mut out: Vec<u8> = Vec::new();
    if lines.len() == 0 {
        push_all(&mut out, "?".as_bytes());
    } else {
        push_all(&mut out, lines[0].as_slice());
        proof {
            assert(lines@[0]@ == views(lines@)[0]);
        }
    }
    out
}

/// The exit code read back out of a command envelope: the number after
/// `EXIT_CODE:` on the first line, or `-1` when it cannot be read.
pub open spec fn envelope_exit_code(output: Seq<u8>) -> int {
    if !has_prefix(output, "EXIT_CODE:".spec_bytes()) {
        -1
    } else if lines_of(output).len() == 0 {
        -1
    } else {
        let l0 = lines_of(output)[0];
        if has_prefix(l0, "EXIT_CODE:".spec_bytes()) {
            match parse_i32_spec(l0.skip(10)) {
                Some(v) => v as int,
                None => -1,
            }
        } else {
            -1
        }
    }
}

proof fn lemma_exit_prefix_len()
    ensures
        "EXIT_CODE:".spec_bytes().len() == 10,
{
    reveal_strlit("EXIT_CODE:");
    broadcast use vstd::string::is_ascii_spec_bytes;

    assert(vstd::string::is_ascii("EXIT_CODE:"));
}

fn envelope_exit_code_bytes(output: &[u8]) -> (r: i32)
    ensures
        r as int == envelope_exit_code(output@),
{
    proof {
        lemma_exit_prefix_len();
    }
    let prefix = "EXIT_CODE:".as_bytes();
    if !starts_with(output, prefix) {
        return -1;
    }
    let lines = split_lines(output);
    if lines.len() == 0 {
        return -1;
    }
    let l0 = &lines[0];
    proof {
        assert(lines@[0]@ == views(lines@)[0]);
    }
    if !starts_with(l0.as_slice(), prefix) {
        return -1;
    }
    let ll = l0.len();
    proof {
        assert(l0@.subrange(10, ll as int) =~= lines_of(output@)[0].skip(10));
    }
    match parse_i32(&l0.as_slice()[10..ll]) {
        Some(v) => v,
        None => -1,
    }
}

/// The status line echoed locally after a successful tool call.
pub open spec fn status_line_spec(k: ToolKind, arg: Seq<u8>, output: Seq<u8>) -> Seq<u8> {
    match k {
        ToolKind::ReadFile => "Read file at ".spec_bytes() + first_line_or_q(arg),
        ToolKind::ApplySearchReplace => output,
        ToolKind::CreateDirectory => output,
        ToolKind::ListFiles => "Listed ".spec_bytes() + dec_digits(lines_of(output).len())
            + " files in ".spec_bytes() + first_line_or_q(arg),
        ToolKind::RunCommand => if envelope_exit_code(output) == 0 {
            "Command succeeded (exit code: 0)".spec_bytes()
        } else {
            "Command failed (exit code: ".spec_bytes() + dec_int(envelope_exit_code(output))
                + ")".spec_bytes()
        },
        _ => "Executed tool: ".spec_bytes() + tool_name_spec(k),
    }
}

/// Build the status line for a successful call of tool `k`.
pub fn status_line(k: ToolKind, arg: &[u8], output: &[u8]) -> (r: Vec<u8>)
    ensures
        r@ == status_line_spec(k, arg@, output@),
{
    let mut out: Vec<u8> = Vec::new();
    match k {
        ToolKind::ReadFile => {
            push_all(&mut out, "Read file at ".as_bytes());
            let fl = first_line_or_q_bytes(arg);
            push_all(&mut out, fl.as_slice());
        },
        ToolKind::ApplySearchReplace => {
            push_all(&mut out, output);
        },
        ToolKind::CreateDirectory => {
            push_all(&mut out, output);
        },
        ToolKind::ListFiles => {
            push_all(&mut out, "Listed ".as_bytes());
            let lines = split_lines(output);
            let count = crate::numfmt::fmt_u64(lines.len() as u64);
            proof {
                assert(views(lines@).len() == lines_of(output@).len());
            }
            push_all(&mut out, count.as_slice());
            push_all(&mut out, " files in ".as_bytes());
            let fl = first_line_or_q_bytes(arg);
            push_all(&mut out, fl.as_slice());
        },
        ToolKind::RunCommand => {
            let code = envelope_exit_code_bytes(output);
            if code == 0 {
                push_all(&mut out, "Command succeeded (exit code: 0)".as_bytes());
            } else {
                push_all(&mut out, "Command failed (exit code: ".as_bytes());
                let digits = crate::numfmt::fmt_i32(code);
                push_all(&mut out, digits.as_slice());
                push_all(&mut out, ")".as_bytes());
            }
        },
        _ => {
            push_all(&mut out, "Executed tool: ".as_bytes());
            let name = tool_name(k);
            push_all(&mut out, name.as_slice());
        },
    }
    proof {
        assert(out@ =~= status_line_spec(k, arg@, output@));
    }
    out
}

/// The conversation entry of one tool result: the labelled output of a
/// success, or the labelled failure text.
pub open spec fn result_entry(name: Seq<u8>, ok: bool, text: Seq<u8>) -> Seq<u8> {
    if ok {
        "TOOL RESULT for ".spec_bytes() + name + ":\n".spec_bytes() + text
    } else {
        "TOOL ".spec_bytes() + name + " failed: ".spec_bytes() + text
    }
}

/// The entries of a result list.
pub open spec fn result_entries(rs: Seq<ToolResult>) -> Seq<Seq<u8>> {
    Seq::new(rs.len(), |i: int| result_entry(rs[i].name@, rs[i].ok, rs[i].text@))
}

pub open spec fn continuation_suffix() -> Seq<u8> {
    "\n\nContinue with the next step or provide the final answer.".spec_bytes()
}

/// The synthetic follow-up prompt: every entry, blank-line separated,
/// then the fixed continuation instruction.
pub open spec fn follow_up_prompt(rs: Seq<ToolResult>) -> Seq<u8> {
    join_with(result_entries(rs), "\n\n".spec_bytes()) + continuation_suffix()
}

/// Render one result entry.
pub fn render_result_entry(r: &ToolResult) -> (out: Vec<u8>)
    ensures
        out@ == result_entry(r.name@, r.ok, r.text@),
{
    let mut out: Vec<u8> = Vec::new();
    if r.ok {
        push_all(&mut out, "TOOL RESULT for ".as_bytes());
        push_all(&mut out, r.name.as_slice());
        push_all(&mut out, ":\n".as_bytes());
        push_all(&mut out, r.text.as_slice());
    } else {
        push_all(&mut out, "TOOL ".as_bytes());
        push_all(&mut out, r.name.as_slice());
        push_all(&mut out, " failed: ".as_bytes());
        push_all(&mut out, r.text.as_slice());
    }
    proof {
        assert(out@ =~= result_entry(r.name@, r.ok, r.text@));
    }
    out
}

/// Fold the collected results of one message's invocations into the
/// follow-up prompt.
pub fn fold_results(rs: &Vec<ToolResult>) -> (out: Vec<u8>)
    ensures
        out@ == follow_up_prompt(rs@),
{
    let mut entries: Vec<Vec<u8>> = Vec::new();
    let mut i: usize = 0;
    while i < rs.len()
        invariant
            0 <= i <= rs@.len(),
            views(entries@) =~~= result_entries(rs@).take(i as int),
        decreases rs.len() - i,
    {
        let e = render_result_entry(&rs[i]);
        let ghost prev = entries@;
        let ghost ev = e@;
        entries.push(e);
        proof {
            assert(views(entries@) =~~= views(prev) + seq![ev]);
            assert(result_entries(rs@).take(i + 1) =~~= result_entries(rs@).take(i as int)
                + seq![result_entry(rs@[i as int].name@, rs@[i as int].ok, rs@[i as int].text@)]);
            assert(views(entries@) =~~= result_entries(rs@).take(i + 1));
        }
        i = i + 1;
    }
    proof {
        assert(views(entries@) =~~= result_entries(rs@));
    }
    let mut out = crate::text::join_bytes(&entries, "\n\n".as_bytes());
    push_all(&mut out, "\n\nContinue with the next step or provide the final answer.".as_bytes());
    proof {
        assert(out@ =~= follow_up_prompt(rs@));
    }
    out
}

/// The success output of `create_directory`.
pub open spec fn msg_dir_created(arg: Seq<u8>) -> Seq<u8> {
    "Directory created: ".spec_bytes() + arg
}

pub fn dir_created_message(arg: &[u8]) -> (r: Vec<u8>)
    ensures
        r@ == msg_dir_created(arg@),
{
    let mut out: Vec<u8> = Vec::new();
    push_all(&mut out, "Directory created: ".as_bytes());
    push_all(&mut out, arg);
    proof {
        assert(out@ =~= msg_dir_created(arg@));
    }
    out
}

/// The success output of `write_file`.
pub open spec fn msg_file_written(path: Seq<u8>) -> Seq<u8> {
    "File written: ".spec_bytes() + path
}

pub fn file_written_message(path: &[u8]) -> (r: Vec<u8>)
    ensures
        r@ == msg_file_written(path@),
{
    let mut out: Vec<u8> = Vec::new();
    push_all(&mut out, "File written: ".as_bytes());
    push_all(&mut out, path);
    proof {
        assert(out@ =~= msg_file_written(path@));
    }
    out
}

/// The failure text of `list_files` on a path that is no directory.
pub open spec fn msg_not_directory(arg: Seq<u8>) -> Seq<u8> {
    "Not a directory: ".spec_bytes() + arg
}

pub fn not_directory_message(arg: &[u8]) -> (r: Vec<u8>)
    ensures
        r@ == msg_not_directory(arg@),
{
    let mut out: Vec<u8> = Vec::new();
    push_all(&mut out, "Not a directory: ".as_bytes());
    push_all(&mut out, arg);
    proof {
        assert(out@ =~= msg_not_directory(arg@));
    }
    out
}

/// The failure text of a tool whose argument has no first line.
pub open spec fn msg_missing_path() -> Seq<u8> {
    "Missing file path".spec_bytes()
}

pub fn missing_path_message() -> (r: Vec<u8>)
    ensures
        r@ == msg_missing_path(),
{
    let mut out: Vec<u8> = Vec::new();
    push_all(&mut out, "Missing file path".as_bytes());
    out
}

/// The output of `list_files`: the entry names sorted, one per line.
pub open spec fn listing_spec(names: Seq<Seq<u8>>) -> Seq<u8> {
    join_with(sort_lex(names), seq![10u8])
}

/// Sort directory entry names and join them, one per line.
pub fn format_listing(names: Vec<Vec<u8>>) -> (r: Vec<u8>)
    ensures
        r@ == listing_spec(views(names@)),
{
    let sorted = crate::order::sort_byte_strings(names);
    let mut sep: Vec<u8> = Vec::new();
    sep.push(10);
    let out = crate::text::join_bytes(&sorted, sep.as_slice());
    proof {
        assert(sep@ =~= seq![10u8]);
    }
    out
}

} // verus!
