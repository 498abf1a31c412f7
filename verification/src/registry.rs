//! The tool registry: the closed set of tools, the name each one answers
//! to, its one-line usage description, and the catalog rendering that is
//! embedded in the instruction preamble. The registry is a fixed mapping;
//! looking a name up is a pure function, and the catalog is rendered
//! sorted by name so that the preamble is deterministic.

use vstd::prelude::*;
use vstd::string::StringSliceAdditionalSpecFns;
use crate::text::{views, join_with, bytes_eq, push_all};
use crate::order::{sort_lex, sorted_lex, sort_byte_strings, lemma_sort_lex_sorted};

verus! {

/// The closed set of tools the dispatcher knows.
#[derive(Clone, Copy, PartialEq, Eq, Structural, Debug)]
pub enum ToolKind {
    ListFiles,
    ReadFile,
    CreateDirectory,
    ApplySearchReplace,
    RunCommand,
    WriteFile,
    SearchWeb,
    FetchUrl,
}

/// The name a tool answers to on a marker line.
pub open spec fn tool_name_spec(k: ToolKind) -> Seq<u8> {
    match k {
        ToolKind::ListFiles => "list_files".spec_bytes(),
        ToolKind::ReadFile => "read_file".spec_bytes(),
        ToolKind::CreateDirectory => "create_directory".spec_bytes(),
        ToolKind::ApplySearchReplace => "apply_search_replace".spec_bytes(),
        ToolKind::RunCommand => "run_command".spec_bytes(),
        ToolKind::WriteFile => "write_file".spec_bytes(),
        ToolKind::SearchWeb => "search_web".spec_bytes(),
        ToolKind::FetchUrl => "fetch_url".spec_bytes(),
    }
}

/// The registry as a function from name to tool, absent names excluded.
pub open spec fn lookup_spec(name: Seq<u8>) -> Option<ToolKind> {
    if name == "list_files".spec_bytes() {
        Some(ToolKind::ListFiles)
    } else if name == "read_file".spec_bytes() {
        Some(ToolKind::ReadFile)
    } else if name == "create_directory".spec_bytes() {
        Some(ToolKind::CreateDirectory)
    } else if name == "apply_search_replace".spec_bytes() {
        Some(ToolKind::ApplySearchReplace)
    } else if name == "run_command".spec_bytes() {
        Some(ToolKind::RunCommand)
    } else if name == "write_file".spec_bytes() {
        Some(ToolKind::WriteFile)
    } else if name == "search_web".spec_bytes() {
        Some(ToolKind::SearchWeb)
    } else if name == "fetch_url".spec_bytes() {
        Some(ToolKind::FetchUrl)
    } else {
        None
    }
}

/// The name of a tool, as bytes.
pub fn tool_name(k: ToolKind) -> (r: Vec<u8>)
    ensures
        r@ == tool_name_spec(k),
{
    let mut out: Vec<u8> = Vec::new();
    match k {
        ToolKind::ListFiles => push_all(&mut out, "list_files".as_bytes()),
        ToolKind::ReadFile => push_all(&mut out, "read_file".as_bytes()),
        ToolKind::CreateDirectory => push_all(&mut out, "create_directory".as_bytes()),
        ToolKind::ApplySearchReplace => push_all(&mut out, "apply_search_replace".as_bytes()),
        ToolKind::RunCommand => push_all(&mut out, "run_command".as_bytes()),
        ToolKind::WriteFile => push_all(&mut out, "write_file".as_bytes()),
        ToolKind::SearchWeb => push_all(&mut out, "search_web".as_bytes()),
        ToolKind::FetchUrl => push_all(&mut out, "fetch_url".as_bytes()),
    }
    proof {
        assert(out@ =~= tool_name_spec(k));
    }
    out
}

/// Look a tool name up in the registry.
pub fn lookup(name: &[u8]) -> (r: Option<ToolKind>)
    ensures
        r == lookup_spec(name@),
{
    if bytes_eq(name, "list_files".as_bytes()) {
        Some(ToolKind::ListFiles)
    } else if bytes_eq(name, "read_file".as_bytes()) {
        Some(ToolKind::ReadFile)
    } else if bytes_eq(name, "create_directory".as_bytes()) {
        Some(ToolKind::CreateDirectory)
    } else if bytes_eq(name, "apply_search_replace".as_bytes()) {
        Some(ToolKind::ApplySearchReplace)
    } else if bytes_eq(name, "run_command".as_bytes()) {
        Some(ToolKind::RunCommand)
    } else if bytes_eq(name, "write_file".as_bytes()) {
        Some(ToolKind::WriteFile)
    } else if bytes_eq(name, "search_web".as_bytes()) {
        Some(ToolKind::SearchWeb)
    } else if bytes_eq(name, "fetch_url".as_bytes()) {
        Some(ToolKind::FetchUrl)
    } else {
        None
    }
}

pub open spec fn msg_unknown_tool(name: Seq<u8>) -> Seq<u8> {
    "Unknown tool: ".spec_bytes() + name
}

/// Decide which tool a name denotes. A name that is not in the registry
/// fails, and only such a name fails, with the unknown-tool text.
pub fn dispatch_lookup(name: &[u8]) -> (r: Result<ToolKind, Vec<u8>>)
    ensures
        match r {
            Ok(k) => lookup_spec(name@) == Some(k),
            Err(m) => lookup_spec(name@) is None && m@ == msg_unknown_tool(name@),
        },
{
    match lookup(name) {
        Some(k) => Ok(k),
        None => {
            let mut m: Vec<u8> = Vec::new();
            push_all(&mut m, "Unknown tool: ".as_bytes());
            push_all(&mut m, name);
            proof {
                assert(m@ =~= msg_unknown_tool(name@));
            }
            Err(m)
        },
    }
}

/// One-line usage of a tool, as shown in the catalog.
pub open spec fn tool_usage_spec(k: ToolKind) -> Seq<u8> {
    match k {
        ToolKind::ListFiles => "list_files <directory> : lists all files and directories in the given directory (non-recursive)".spec_bytes(),
        ToolKind::ReadFile => "read_file <file_path> : outputs the text contents of a file".spec_bytes(),
        ToolKind::CreateDirectory => "create_directory <dir> : creates a directory (and any missing parents)".spec_bytes(),
        ToolKind::ApplySearchReplace => "apply_search_replace <file_path> : applies search/replace blocks from the following lines to a file; each block is <<<<<<< SEARCH, the text to find, =======, the replacement, >>>>>>> REPLACE, and the search text must match exactly".spec_bytes(),
        ToolKind::RunCommand => "run_command <command_string> : runs a shell command using the system's default shell and returns its stdout/stderr. Use with caution.".spec_bytes(),
        ToolKind::WriteFile => "write_file <file_path> : writes the content on the following lines to the file, creating missing parent directories and overwriting an existing file".spec_bytes(),
        ToolKind::SearchWeb => "search_web <query> : performs a web search using DuckDuckGo and returns a list of results with titles, URLs, and snippets".spec_bytes(),
        ToolKind::FetchUrl => "fetch_url <url> : fetches the content from the given URL and returns it as text (HTML, JSON, etc.)".spec_bytes(),
    }
}

/// The one-line usage of a tool.
pub fn tool_usage(k: ToolKind) -> (r: Vec<u8>)
    ensures
        r@ == tool_usage_spec(k),
{
    let mut out: Vec<u8> = Vec::new();
    match k {
        ToolKind::ListFiles => push_all(&mut out, "list_files <directory> : lists all files and directories in the given directory (non-recursive)".as_bytes()),
        ToolKind::ReadFile => push_all(&mut out, "read_file <file_path> : outputs the text contents of a file".as_bytes()),
        ToolKind::CreateDirectory => push_all(&mut out, "create_directory <dir> : creates a directory (and any missing parents)".as_bytes()),
        ToolKind::ApplySearchReplace => push_all(&mut out, "apply_search_replace <file_path> : applies search/replace blocks from the following lines to a file; each block is <<<<<<< SEARCH, the text to find, =======, the replacement, >>>>>>> REPLACE, and the search text must match exactly".as_bytes()),
        ToolKind::RunCommand => push_all(&mut out, "run_command <command_string> : runs a shell command using the system's default shell and returns its stdout/stderr. Use with caution.".as_bytes()),
        ToolKind::WriteFile => push_all(&mut out, "write_file <file_path> : writes the content on the following lines to the file, creating missing parent directories and overwriting an existing file".as_bytes()),
        ToolKind::SearchWeb => push_all(&mut out, "search_web <query> : performs a web search using DuckDuckGo and returns a list of results with titles, URLs, and snippets".as_bytes()),
        ToolKind::FetchUrl => push_all(&mut out, "fetch_url <url> : fetches the content from the given URL and returns it as text (HTML, JSON, etc.)".as_bytes()),
    }
    proof {
        assert(out@ =~= tool_usage_spec(k));
    }
    out
}

/// The catalog line of one tool.
pub open spec fn catalog_line(k: ToolKind) -> Seq<u8> {
    "- ".spec_bytes() + tool_name_spec(k) + " : ".spec_bytes() + tool_usage_spec(k)
}

/// Every tool's catalog line, in declaration order.
pub open spec fn catalog_entries() -> Seq<Seq<u8>> {
    seq![
        catalog_line(ToolKind::ListFiles),
        catalog_line(ToolKind::ReadFile),
        catalog_line(ToolKind::CreateDirectory),
        catalog_line(ToolKind::ApplySearchReplace),
        catalog_line(ToolKind::RunCommand),
        catalog_line(ToolKind::WriteFile),
        catalog_line(ToolKind::SearchWeb),
        catalog_line(ToolKind::FetchUrl),
    ]
}

/// The rendered catalog: one line per tool, sorted, joined by newlines.
pub open spec fn catalog_text_spec() -> Seq<u8> {
    join_with(sort_lex(catalog_entries()), seq![10u8])
}

fn one_catalog_line(k: ToolKind) -> (r: Vec<u8>)
    ensures
        r@ == catalog_line(k),
{
    let mut out: Vec<u8> = Vec::new();
    push_all(&mut out, "- ".as_bytes());
    let name = tool_name(k);
    push_all(&mut out, name.as_slice());
    push_all(&mut out, " : ".as_bytes());
    let usage = tool_usage(k);
    push_all(&mut out, usage.as_slice());
    proof {
        assert(out@ =~= catalog_line(k));
    }
    out
}

/// Render the tool catalog, sorted by line (and so by tool name, since a
/// line starts with the name) for a deterministic preamble.
pub fn catalog_text() -> (r: Vec<u8>)
    ensures
        r@ == catalog_text_spec(),
{
    let mut entries: Vec<Vec<u8>> = Vec::new();
    entries.push(one_catalog_line(ToolKind::ListFiles));
    entries.push(one_catalog_line(ToolKind::ReadFile));
    entries.push(one_catalog_line(ToolKind::CreateDirectory));
    entries.push(one_catalog_line(ToolKind::ApplySearchReplace));
    entries.push(one_catalog_line(ToolKind::RunCommand));
    entries.push(one_catalog_line(ToolKind::WriteFile));
    entries.push(one_catalog_line(ToolKind::SearchWeb));
    entries.push(one_catalog_line(ToolKind::FetchUrl));
    proof {
        assert(views(entries@) =~~= catalog_entries());
    }
    let sorted = sort_byte_strings(entries);
    let mut sep: Vec<u8> = Vec::new();
    sep.push(10);
    proof {
        assert(sep@ =~= seq![10u8]);
    }
    crate::text::join_bytes(&sorted, sep.as_slice())
}

/// The rendered catalog is in sorted order, whatever the declaration
/// order of the tools.
pub proof fn lemma_catalog_is_sorted()
    ensures
        sorted_lex(sort_lex(catalog_entries())),
{
    lemma_sort_lex_sorted(catalog_entries());
}

} // verus!
