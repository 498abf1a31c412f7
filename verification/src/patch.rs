//! The search/replace patch engine. A patch argument carries one or more
//! edit blocks between three literal markers; blocks are parsed in textual
//! order and applied in that order, each replacing every occurrence of its
//! search text in the current content.

use vstd::prelude::*;
use vstd::string::StringSliceAdditionalSpecFns;
use crate::text::{
    find_in, occurs, trim, replace_all, lemma_find_from, lemma_find_shift, lemma_find_shift_none,
    find_bytes, trim_bytes, contains_bytes, push_all,
};
use crate::numfmt::dec_digits;

verus! {

/// One parsed edit block: replace `search` by `replace`.
#[derive(Debug)]
pub struct EditBlock {
    pub search: Vec<u8>,
    pub replace: Vec<u8>,
}

/// How a patch call fails: the block text is malformed, or a block's
/// search text does not occur in the file content.
#[derive(Debug)]
pub enum PatchError {
    Syntax { reason: Vec<u8> },
    NotFound { file: Vec<u8>, search: Vec<u8> },
}

/// Marker that opens an edit block.
pub open spec fn begin_marker() -> Seq<u8> {
    "<<<<<<< SEARCH".spec_bytes()
}

/// Marker between the search text and the replacement text.
pub open spec fn separator_marker() -> Seq<u8> {
    "=======".spec_bytes()
}

/// Marker that closes an edit block.
pub open spec fn end_marker() -> Seq<u8> {
    ">>>>>>> REPLACE".spec_bytes()
}

pub open spec fn msg_missing_separator() -> Seq<u8> {
    "Missing =======".spec_bytes()
}

pub open spec fn msg_missing_end() -> Seq<u8> {
    "Missing >>>>>>> REPLACE".spec_bytes()
}

pub open spec fn msg_no_blocks() -> Seq<u8> {
    "No valid search/replace blocks found".spec_bytes()
}

/// The three markers have their literal lengths.
pub proof fn lemma_marker_lens()
    ensures
        begin_marker().len() == 14,
        separator_marker().len() == 7,
        end_marker().len() == 15,
{
    reveal_strlit("<<<<<<< SEARCH");
    reveal_strlit("=======");
    reveal_strlit(">>>>>>> REPLACE");
    broadcast use vstd::string::is_ascii_spec_bytes;

    assert(vstd::string::is_ascii("<<<<<<< SEARCH"));
    assert(vstd::string::is_ascii("======="));
    assert(vstd::string::is_ascii(">>>>>>> REPLACE"));
}

/// The search/replace pairs of a block list.
pub open spec fn block_views(bs: Seq<EditBlock>) -> Seq<(Seq<u8>, Seq<u8>)> {
    Seq::new(bs.len(), |i: int| (bs[i].search@, bs[i].replace@))
}

/// Parse edit blocks from `t`: repeatedly take the text between the next
/// begin marker and the following separator as the (trimmed) search text,
/// and the text between that separator and the following end marker as the
/// (trimmed) replacement. A begin marker whose separator or end marker is
/// missing is malformed; text before a begin marker is ignored.
pub open spec fn parse_blocks_rec(t: Seq<u8>) -> Result<Seq<(Seq<u8>, Seq<u8>)>, Seq<u8>>
    decreases t.len() via parse_blocks_rec_dec
{
    match find_in(t, begin_marker()) {
        None => Ok(Seq::empty()),
        Some(ib) => {
            let a = t.skip(ib + begin_marker().len());
            match find_in(a, separator_marker()) {
                None => Err(msg_missing_separator()),
                Some(isep) => {
                    let search = trim(a.take(isep));
                    let b = a.skip(isep + separator_marker().len());
                    match find_in(b, end_marker()) {
                        None => Err(msg_missing_end()),
                        Some(ie) => {
                            let rep = trim(b.take(ie));
                            match parse_blocks_rec(b.skip(ie + end_marker().len())) {
                                Ok(rest) => Ok(seq![(search, rep)] + rest),
                                Err(e) => Err(e),
                            }
                        },
                    }
                },
            }
        },
    }
}

#[via_fn]
proof fn parse_blocks_rec_dec(t: Seq<u8>) {
    lemma_marker_lens();
    if find_in(t, begin_marker()) is Some {
        lemma_find_from(t, begin_marker(), 0);
        let ib = find_in(t, begin_marker())->Some_0;
        let a = t.skip(ib + begin_marker().len());
        if find_in(a, separator_marker()) is Some {
            lemma_find_from(a, separator_marker(), 0);
            let isep = find_in(a, separator_marker())->Some_0;
            let b = a.skip(isep + separator_marker().len());
            if find_in(b, end_marker()) is Some {
                lemma_find_from(b, end_marker(), 0);
            }
        }
    }
}

/// The full parse: as `parse_blocks_rec`, but a text without a single
/// block is refused.
pub open spec fn parse_blocks_spec(t: Seq<u8>) -> Result<Seq<(Seq<u8>, Seq<u8>)>, Seq<u8>> {
    match parse_blocks_rec(t) {
        Ok(bs) => if bs.len() == 0 {
            Err(msg_no_blocks())
        } else {
            Ok(bs)
        },
        Err(e) => Err(e),
    }
}

fn parse_from(t: &[u8], pos: usize) -> (r: Result<Vec<EditBlock>, Vec<u8>>)
    requires
        pos <= t@.len(),
    ensures
        match r {
            Ok(bs) => parse_blocks_rec(t@.skip(pos as int)) == Ok::<_, Seq<u8>>(block_views(bs@)),
            Err(e) => parse_blocks_rec(t@.skip(pos as int)) == Err::<Seq<(Seq<u8>, Seq<u8>)>,
                _,
            >(e@),
        },
    decreases t@.len() - pos,
{
    let ghost rem = t@.skip(pos as int);
    let n = t.len();
    proof {
        lemma_marker_lens();
        assert(t@.len() == n);
    }
    let begin = "<<<<<<< SEARCH".as_bytes();
    match find_bytes(t, begin, pos) {
        None => {
            proof {
                lemma_find_shift_none(t@, begin_marker(), pos as int);
                assert(block_views(Seq::<EditBlock>::empty()) =~~= Seq::<(Seq<u8>,
                    Seq<u8>,
                )>::empty());
            }
            Ok(Vec::new())
        },
        Some(ib) => {
            proof {
                lemma_find_from(t@, begin_marker(), pos as int);
                lemma_find_shift(t@, begin_marker(), pos as int, ib as int);
            }
            let a_start = ib + begin.len();
            let ghost a = t@.skip(a_start as int);
            proof {
                assert(rem.skip(ib - pos + begin_marker().len()) =~= a);
            }
            let sep = "=======".as_bytes();
            match find_bytes(t, sep, a_start) {
                None => {
                    proof {
                        lemma_find_shift_none(t@, separator_marker(), a_start as int);
                    }
                    let mut e: Vec<u8> = Vec::new();
                    push_all(&mut e, "Missing =======".as_bytes());
                    Err(e)
                },
                Some(isep) => {
                    proof {
                        lemma_find_from(t@, separator_marker(), a_start as int);
                        lemma_find_shift(t@, separator_marker(), a_start as int, isep as int);
                    }
                    let search = trim_bytes(&t[a_start..isep]);
                    proof {
                        assert(a.take(isep - a_start) =~= t@.subrange(
                            a_start as int,
                            isep as int,
                        ));
                    }
                    let rs_start = isep + sep.len();
                    let ghost b = t@.skip(rs_start as int);
                    proof {
                        assert(a.skip(isep - a_start + separator_marker().len()) =~= b);
                    }
                    let endm = ">>>>>>> REPLACE".as_bytes();
                    match find_bytes(t, endm, rs_start) {
                        None => {
                            proof {
                                lemma_find_shift_none(t@, end_marker(), rs_start as int);
                            }
                            let mut e: Vec<u8> = Vec::new();
                            push_all(&mut e, "Missing >>>>>>> REPLACE".as_bytes());
                            Err(e)
                        },
                        Some(ie) => {
                            proof {
                                lemma_find_from(t@, end_marker(), rs_start as int);
                                lemma_find_shift(t@, end_marker(), rs_start as int, ie as int);
                            }
                            let rep = trim_bytes(&t[rs_start..ie]);
                            proof {
                                assert(b.take(ie - rs_start) =~= t@.subrange(
                                    rs_start as int,
                                    ie as int,
                                ));
                            }
                            let next = ie + endm.len();
                            proof {
                                assert(b.skip(ie - rs_start + end_marker().len()) =~= t@.skip(
                                    next as int,
                                ));
                            }
                            match parse_from(t, next) {
                                Err(e) => Err(e),
                                Ok(mut rest) => {
                                    let ghost rest0 = rest@;
                                    let mut bs: Vec<EditBlock> = Vec::new();
                                    bs.push(EditBlock { search, replace: rep });
                                    bs.append(&mut rest);
                                    proof {
                                        assert(block_views(bs@) =~~= seq![
                                            (bs@[0].search@, bs@[0].replace@),
                                        ] + block_views(rest0));
                                    }
                                    Ok(bs)
                                },
                            }
                        },
                    }
                },
            }
        },
    }
}

/// Parse the edit blocks of a patch argument body. Malformed block text,
/// or text without a single block, fails with the syntax error whose
/// reason `parse_blocks_spec` gives.
pub fn parse_blocks(t: &[u8]) -> (r: Result<Vec<EditBlock>, PatchError>)
    ensures
        match r {
            Ok(bs) => parse_blocks_spec(t@) == Ok::<_, Seq<u8>>(block_views(bs@)) && bs@.len()
                > 0,
            Err(e) => e matches PatchError::Syntax { reason } && parse_blocks_spec(t@)
                == Err::<Seq<(Seq<u8>, Seq<u8>)>, _>(reason@),
        },
{
    proof {
        assert(t@.skip(0) =~= t@);
    }
    match parse_from(t, 0) {
        Ok(bs) => {
            if bs.len() == 0 {
                let mut reason: Vec<u8> = Vec::new();
                push_all(&mut reason, "No valid search/replace blocks found".as_bytes());
                Err(PatchError::Syntax { reason })
            } else {
                Ok(bs)
            }
        },
        Err(e) => Err(PatchError::Syntax { reason: e }),
    }
}

/// Apply the blocks in order. Each block's search text must occur in the
/// current content; every occurrence is replaced. The first block whose
/// search text is absent stops the call with that text as the error.
pub open spec fn apply_blocks_spec(content: Seq<u8>, bs: Seq<(Seq<u8>, Seq<u8>)>) -> Result<
    Seq<u8>,
    Seq<u8>,
>
    decreases bs.len(),
{
    if bs.len() == 0 {
        Ok(content)
    } else if !occurs(content, bs[0].0) {
        Err(bs[0].0)
    } else {
        apply_blocks_spec(replace_all(content, bs[0].0, bs[0].1), bs.skip(1))
    }
}

/// Apply parsed blocks to `content`, in order, replacing globally.
/// `Err` carries the search text of the first block that did not match;
/// nothing is written anywhere by this function — the caller decides what
/// to do with the new content.
pub fn apply_blocks(content: &[u8], blocks: &Vec<EditBlock>) -> (r: Result<Vec<u8>, Vec<u8>>)
    ensures
        match r {
            Ok(out) => apply_blocks_spec(content@, block_views(blocks@)) == Ok::<_, Seq<u8>>(
                out@,
            ),
            Err(s) => apply_blocks_spec(content@, block_views(blocks@)) == Err::<Seq<u8>, _>(s@),
        },
{
    let mut cur: Vec<u8> = Vec::new();
    push_all(&mut cur, content);
    let ghost all = block_views(blocks@);
    let mut i: usize = 0;
    proof {
        assert(all.skip(0) =~~= all);
    }
    while i < blocks.len()
        invariant
            0 <= i <= blocks@.len(),
            all == block_views(blocks@),
            apply_blocks_spec(content@, all) == apply_blocks_spec(cur@, all.skip(i as int)),
        decreases blocks.len() - i,
    {
        let blk = &blocks[i];
        let ghost pair = all[i as int];
        proof {
            assert(all.skip(i as int)[0] == pair);
            assert(pair.0 == blocks@[i as int].search@);
        }
        if !contains_bytes(cur.as_slice(), blk.search.as_slice()) {
            let mut s: Vec<u8> = Vec::new();
            push_all(&mut s, blk.search.as_slice());
            return Err(s);
        }
        let next = crate::text::replace_bytes(cur.as_slice(), blk.search.as_slice(),
            blk.replace.as_slice());
        proof {
            assert(all.skip(i as int).skip(1) =~~= all.skip(i + 1));
        }
        cur = next;
        i = i + 1;
    }
    proof {
        assert(all.skip(i as int) =~~= Seq::<(Seq<u8>, Seq<u8>)>::empty());
    }
    Ok(cur)
}

/// A byte inside a reported search text: quote and backslash are escaped,
/// and so are newline, carriage return and tab; other bytes stand as
/// themselves.
pub open spec fn quote_byte(b: u8) -> Seq<u8> {
    if b == 34 {
        seq![92u8, 34u8]
    } else if b == 92 {
        seq![92u8, 92u8]
    } else if b == 10 {
        seq![92u8, 110u8]
    } else if b == 13 {
        seq![92u8, 114u8]
    } else if b == 9 {
        seq![92u8, 116u8]
    } else {
        seq![b]
    }
}

pub open spec fn quoted_body(s: Seq<u8>) -> Seq<u8>
    decreases s.len(),
{
    if s.len() == 0 {
        Seq::empty()
    } else {
        quoted_body(s.take(s.len() - 1)) + quote_byte(s[s.len() - 1])
    }
}

/// A search text as it is reported: between double quotes, with the
/// escapes of `quote_byte`.
pub open spec fn quoted(s: Seq<u8>) -> Seq<u8> {
    seq![34u8] + quoted_body(s) + seq![34u8]
}

fn push_quoted_byte(out: &mut Vec<u8>, b: u8)
    ensures
        final(out)@ == old(out)@ + quote_byte(b),
{
    if b == 34 {
        out.push(92);
        out.push(34);
    } else if b == 92 {
        out.push(92);
        out.push(92);
    } else if b == 10 {
        out.push(92);
        out.push(110);
    } else if b == 13 {
        out.push(92);
        out.push(114);
    } else if b == 9 {
        out.push(92);
        out.push(116);
    } else {
        out.push(b);
    }
    proof {
        assert(out@ =~= old(out)@ + quote_byte(b));
    }
}

/// Append `quoted(s@)` to `out`.
fn push_quoted(out: &mut Vec<u8>, s: &[u8])
    ensures
        final(out)@ == old(out)@ + quoted(s@),
{
    out.push(34);
    let ghost base = out@;
    let mut i: usize = 0;
    while i < s.len()
        invariant
            0 <= i <= s@.len(),
            out@ =~= base + quoted_body(s@.take(i as int)),
        decreases s.len() - i,
    {
        let b = s[i];
        push_quoted_byte(out, b);
        proof {
            let p = s@.take(i + 1);
            assert(p.take(i as int) =~= s@.take(i as int));
            assert(p[i as int] == s@[i as int]);
            assert(out@ =~= base + quoted_body(p));
        }
        i = i + 1;
    }
    out.push(34);
    proof {
        assert(s@.take(s@.len() as int) =~= s@);
        assert(out@ =~= old(out)@ + quoted(s@));
    }
}

/// The text of the not-found failure, file name and quoted search text.
pub open spec fn msg_not_found(file: Seq<u8>, search: Seq<u8>) -> Seq<u8> {
    "Search string not found in ".spec_bytes() + file + ": ".spec_bytes() + quoted(search)
}

/// The success report: how many blocks were applied to which file.
pub open spec fn msg_applied(count: nat, file: Seq<u8>) -> Seq<u8> {
    "Applied ".spec_bytes() + dec_digits(count) + " block(s) to ".spec_bytes() + file
}

/// Build the success report for `count` applied blocks.
pub fn applied_message(count: usize, file: &[u8]) -> (r: Vec<u8>)
    ensures
        r@ == msg_applied(count as nat, file@),
{
    let mut out: Vec<u8> = Vec::new();
    push_all(&mut out, "Applied ".as_bytes());
    let digits = crate::numfmt::fmt_u64(count as u64);
    push_all(&mut out, digits.as_slice());
    push_all(&mut out, " block(s) to ".as_bytes());
    push_all(&mut out, file);
    proof {
        assert(out@ =~= msg_applied(count as nat, file@));
    }
    out
}

impl PatchError {
    /// The failure text that is reported to the model and echoed locally.
    pub fn message(&self) -> (r: Vec<u8>)
        ensures
            r@ == (match self {
                PatchError::Syntax { reason } => reason@,
                PatchError::NotFound { file, search } => msg_not_found(file@, search@),
            }),
    {
        match self {
            PatchError::Syntax { reason } => {
                let mut out: Vec<u8> = Vec::new();
                push_all(&mut out, reason.as_slice());
                out
            },
            PatchError::NotFound { file, search } => {
                let mut out: Vec<u8> = Vec::new();
                push_all(&mut out, "Search string not found in ".as_bytes());
                push_all(&mut out, file.as_slice());
                push_all(&mut out, ": ".as_bytes());
                push_quoted(&mut out, search.as_slice());
                proof {
                    assert(out@ =~= msg_not_found(file@, search@));
                }
                out
            },
        }
    }
}

} // verus!
