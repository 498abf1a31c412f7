//! The tool directive parser. An assistant message is scanned line by
//! line; a line whose trimmed form starts with the `TOOL:` marker opens an
//! invocation, named by the first word after the marker. The lines up to
//! the next marker line form the body; the argument is the first-line
//! fragment and the body joined by a newline, with no spurious leading
//! newline when either part is empty. Lines outside any invocation are
//! ignored. Parsing is pure: the same text always yields the same list.

use vstd::prelude::*;
use vstd::string::StringSliceAdditionalSpecFns;
use crate::text::{
    trim, has_prefix, lines_of, views, join_with, find_in, trim_bytes, starts_with, split_lines,
    find_bytes, push_all, join_bytes_range, lemma_find_from,
};

verus! {

/// One parsed tool invocation: the tool's name and its argument payload.
pub struct Invocation {
    pub name: Vec<u8>,
    pub arg: Vec<u8>,
}

/// The line marker that opens an invocation.
pub open spec fn tool_marker() -> Seq<u8> {
    "TOOL:".spec_bytes()
}

pub proof fn lemma_tool_marker_len()
    ensures
        tool_marker().len() == 5,
{
    reveal_strlit("TOOL:");
    broadcast use vstd::string::is_ascii_spec_bytes;

    assert(vstd::string::is_ascii("TOOL:"));
}

/// A line opens an invocation when its trimmed form starts with the marker.
pub open spec fn is_marker_line(l: Seq<u8>) -> bool {
    has_prefix(trim(l), tool_marker())
}

/// Split the trimmed text after the marker at its first space: the part
/// before is the name, the part after is the first-line fragment.
pub open spec fn name_and_fragment(tl: Seq<u8>) -> (Seq<u8>, Seq<u8>) {
    match find_in(tl, seq![32u8]) {
        Some(k) => (tl.take(k), tl.skip(k + 1)),
        None => (tl, Seq::empty()),
    }
}

/// The final argument: fragment alone when the body is empty, body alone
/// when the fragment is empty, otherwise both joined by a newline.
pub open spec fn full_arg(fragment: Seq<u8>, body: Seq<u8>) -> Seq<u8> {
    if body.len() == 0 {
        fragment
    } else if fragment.len() == 0 {
        body
    } else {
        fragment + seq![10u8] + body
    }
}

/// Index of the next marker line at or after `j`, or the line count.
pub open spec fn next_marker(ls: Seq<Seq<u8>>, j: int) -> int
    decreases ls.len() - j,
{
    if j < 0 || j >= ls.len() {
        ls.len() as int
    } else if is_marker_line(ls[j]) {
        j
    } else {
        next_marker(ls, j + 1)
    }
}

pub proof fn lemma_next_marker(ls: Seq<Seq<u8>>, j: int)
    requires
        0 <= j <= ls.len(),
    ensures
        j <= next_marker(ls, j) <= ls.len(),
        forall|k: int| j <= k < next_marker(ls, j) ==> !is_marker_line(ls[k]),
        next_marker(ls, j) < ls.len() ==> is_marker_line(ls[next_marker(ls, j)]),
    decreases ls.len() - j,
{
    if j < ls.len() && !is_marker_line(ls[j]) {
        lemma_next_marker(ls, j + 1);
    }
}

proof fn lemma_next_marker_at(ls: Seq<Seq<u8>>, j: int, e: int)
    requires
        0 <= j <= e <= ls.len(),
        forall|k: int| j <= k < e ==> !is_marker_line(ls[k]),
        e < ls.len() ==> is_marker_line(ls[e]),
    ensures
        next_marker(ls, j) == e,
{
    lemma_next_marker(ls, j);
    if next_marker(ls, j) < e {
        assert(is_marker_line(ls[next_marker(ls, j)]));
    }
    if next_marker(ls, j) > e {
        assert(!is_marker_line(ls[e]));
    }
}

/// Parse the invocation list from line `i` on.
pub open spec fn parse_from_line(ls: Seq<Seq<u8>>, i: int) -> Seq<(Seq<u8>, Seq<u8>)>
    decreases ls.len() - i, 1int via parse_from_line_dec
{
    if i < 0 || i >= ls.len() {
        Seq::empty()
    } else if !is_marker_line(ls[i]) {
        parse_from_line(ls, i + 1)
    } else {
        let tl = trim(trim(ls[i]).skip(tool_marker().len() as int));
        let pair = name_and_fragment(tl);
        let e = next_marker(ls, i + 1);
        let body = join_with(ls.subrange(i + 1, e), seq![10u8]);
        seq![(pair.0, full_arg(pair.1, body))] + parse_from_line(ls, e)
    }
}

#[via_fn]
proof fn parse_from_line_dec(ls: Seq<Seq<u8>>, i: int) {
    if 0 <= i < ls.len() && is_marker_line(ls[i]) {
        lemma_next_marker(ls, i + 1);
    }
}

/// The invocations of a whole message, in textual order.
pub open spec fn parse_invocations_spec(text: Seq<u8>) -> Seq<(Seq<u8>, Seq<u8>)> {
    parse_from_line(lines_of(text), 0)
}

/// The name/argument pairs of a parsed invocation list.
pub open spec fn invocation_views(s: Seq<Invocation>) -> Seq<(Seq<u8>, Seq<u8>)> {
    Seq::new(s.len(), |i: int| (s[i].name@, s[i].arg@))
}

/// Parse every tool invocation out of an assistant message. A message
/// without marker lines yields the empty list; parsing the same text
/// twice yields the same list, since the result is a function of the
/// text alone.
pub fn parse_invocations(text: &[u8]) -> (r: Vec<Invocation>)
    ensures
        invocation_views(r@) == parse_invocations_spec(text@),
{
    let lines = split_lines(text);
    let ghost ls = lines_of(text@);
    let mut r: Vec<Invocation> = Vec::new();
    let mut i: usize = 0;
    proof {
        lemma_tool_marker_len();
        assert(invocation_views(r@) =~~= Seq::<(Seq<u8>, Seq<u8>)>::empty());
    }
    let marker = "TOOL:".as_bytes();
    let mut space: Vec<u8> = Vec::new();
    space.push(32);
    proof {
        assert(space@ =~= seq![32u8]);
    }
    while i < lines.len()
        invariant
            0 <= i <= lines@.len(),
            ls == lines_of(text@),
            views(lines@) == ls,
            space@ == seq![32u8],
            marker@ == tool_marker(),
            tool_marker().len() == 5,
            parse_from_line(ls, 0) =~~= invocation_views(r@) + parse_from_line(ls, i as int),
        decreases lines.len() - i,
    {
        let trimmed = trim_bytes(lines[i].as_slice());
        proof {
            assert(lines@[i as int]@ == ls[i as int]);
        }
        if starts_with(trimmed.as_slice(), marker) {
            // The name and the first-line fragment.
            let stripped = trim_bytes(&trimmed[5..trimmed.len()]);
            let ghost tl = trim(trim(ls[i as int]).skip(5));
            proof {
                assert(trimmed@.subrange(5, trimmed@.len() as int) =~= trim(
                    ls[i as int],
                ).skip(5));
            }
            let mut name: Vec<u8> = Vec::new();
            let mut fragment: Vec<u8> = Vec::new();
            match find_bytes(stripped.as_slice(), space.as_slice(), 0) {
                Some(k) => {
                    let sl = stripped.len();
                    proof {
                        lemma_find_from(tl, seq![32u8], 0);
                        assert(k + 1 <= sl);
                    }
                    push_all(&mut name, &stripped[0..k]);
                    push_all(&mut fragment, &stripped[k + 1..sl]);
                    proof {
                        assert(name@ =~= tl.take(k as int));
                        assert(fragment@ =~= tl.skip(k + 1));
                    }
                },
                None => {
                    push_all(&mut name, stripped.as_slice());
                },
            }
            // The body: every line up to the next marker line.
            let mut j: usize = i + 1;
            while j < lines.len() && !starts_with(
                trim_bytes(lines[j].as_slice()).as_slice(),
                marker,
            )
                invariant
                    i + 1 <= j <= lines@.len(),
                    ls == lines_of(text@),
                    views(lines@) == ls,
                    marker@ == tool_marker(),
                    forall|k: int| i + 1 <= k < j ==> !is_marker_line(ls[k]),
                decreases lines.len() - j,
            {
                proof {
                    assert(lines@[j as int]@ == ls[j as int]);
                }
                j = j + 1;
            }
            proof {
                if j < lines.len() {
                    assert(lines@[j as int]@ == ls[j as int]);
                }
                lemma_next_marker_at(ls, i + 1, j as int);
            }
            let mut sep: Vec<u8> = Vec::new();
            sep.push(10);
            let body = join_bytes_range(&lines, sep.as_slice(), i + 1, j);
            proof {
                assert(sep@ =~= seq![10u8]);
                assert(views(lines@).subrange(i + 1, j as int) =~= ls.subrange(i + 1, j as int));
            }
            // The final argument.
            let arg: Vec<u8> = if body.len() == 0 {
                fragment
            } else if fragment.len() == 0 {
                body
            } else {
                let mut a = fragment;
                a.push(10);
                let mut a2 = a;
                push_all(&mut a2, body.as_slice());
                proof {
                    assert(a2@ =~= full_arg(name_and_fragment(tl).1, join_with(
                        ls.subrange(i + 1, j as int),
                        seq![10u8],
                    )));
                }
                a2
            };
            let ghost before = r@;
            r.push(Invocation { name, arg });
            proof {
                let pair = name_and_fragment(tl);
                let e = next_marker(ls, i + 1);
                let bodyspec = join_with(ls.subrange(i + 1, e), seq![10u8]);
                assert(r@[r@.len() - 1].name@ == pair.0);
                assert(r@[r@.len() - 1].arg@ == full_arg(pair.1, bodyspec));
                assert(invocation_views(r@) =~~= invocation_views(before) + seq![
                    (pair.0, full_arg(pair.1, bodyspec)),
                ]);
                assert(parse_from_line(ls, 0) =~~= invocation_views(r@) + parse_from_line(
                    ls,
                    j as int,
                ));
            }
            i = j;
        } else {
            i = i + 1;
        }
    }
    proof {
        assert(parse_from_line(ls, i as int) =~~= Seq::<(Seq<u8>, Seq<u8>)>::empty());
        assert(invocation_views(r@) =~~= parse_from_line(ls, 0));
    }
    r
}

/// A message with no marker line parses to the empty invocation list.
pub proof fn lemma_no_marker_no_invocations(text: Seq<u8>)
    requires
        forall|k: int|
            0 <= k < lines_of(text).len() ==> !is_marker_line(#[trigger] lines_of(text)[k]),
    ensures
        parse_invocations_spec(text) =~~= Seq::<(Seq<u8>, Seq<u8>)>::empty(),
{
    lemma_parse_skips(lines_of(text), 0);
}

proof fn lemma_parse_skips(ls: Seq<Seq<u8>>, i: int)
    requires
        0 <= i <= ls.len(),
        forall|k: int| 0 <= k < ls.len() ==> !is_marker_line(#[trigger] ls[k]),
    ensures
        parse_from_line(ls, i) =~~= Seq::<(Seq<u8>, Seq<u8>)>::empty(),
    decreases ls.len() - i,
{
    if i < ls.len() {
        lemma_parse_skips(ls, i + 1);
    }
}

/// Parsing is a pure function of the message text: two parses of equal
/// texts are equal invocation lists.
pub proof fn lemma_parse_deterministic(t1: Seq<u8>, t2: Seq<u8>)
    requires
        t1 == t2,
    ensures
        parse_invocations_spec(t1) == parse_invocations_spec(t2),
{
}

} // verus!
