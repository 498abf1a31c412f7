//! Byte-level text utilities: trimming, prefix tests and byte equality.
//! Assistant messages and file contents are modelled as byte sequences.

use vstd::prelude::*;

verus! {

/// ASCII whitespace: tab, LF, vertical tab, form feed, CR, space.
pub open spec fn is_space(b: u8) -> bool {
    b == 9 || b == 10 || b == 11 || b == 12 || b == 13 || b == 32
}

/// `s` with leading whitespace removed.
pub open spec fn trim_start(s: Seq<u8>) -> Seq<u8>
    decreases s.len(),
{
    if s.len() == 0 || !is_space(s[0]) {
        s
    } else {
        trim_start(s.skip(1))
    }
}

/// `s` with trailing whitespace removed.
pub open spec fn trim_end(s: Seq<u8>) -> Seq<u8>
    decreases s.len(),
{
    if s.len() == 0 || !is_space(s[s.len() - 1]) {
        s
    } else {
        trim_end(s.take(s.len() - 1))
    }
}

/// `s` with leading and trailing whitespace removed.
pub open spec fn trim(s: Seq<u8>) -> Seq<u8> {
    trim_end(trim_start(s))
}

/// A run of leading whitespace of length `k` pins down `trim_start`.
proof fn lemma_trim_start_at(s: Seq<u8>, k: int)
    requires
        0 <= k <= s.len(),
        forall|i: int| 0 <= i < k ==> is_space(s[i]),
        k < s.len() ==> !is_space(s[k]),
    ensures
        trim_start(s) =~= s.skip(k),
    decreases k,
{
    if k == 0 {
        if s.len() > 0 {
            assert(!is_space(s[0]));
        }
    } else {
        assert(is_space(s[0]));
        lemma_trim_start_at(s.skip(1), k - 1);
        assert(s.skip(1).skip(k - 1) =~= s.skip(k));
    }
}

/// A run of trailing whitespace of length `s.len() - h` pins down `trim_end`.
proof fn lemma_trim_end_at(s: Seq<u8>, h: int)
    requires
        0 <= h <= s.len(),
        forall|i: int| h <= i < s.len() ==> is_space(s[i]),
        h > 0 ==> !is_space(s[h - 1]),
    ensures
        trim_end(s) =~= s.take(h),
    decreases s.len(),
{
    if h == s.len() {
        if s.len() > 0 {
            assert(!is_space(s[s.len() - 1]));
        }
    } else {
        assert(is_space(s[s.len() - 1]));
        lemma_trim_end_at(s.take(s.len() - 1), h);
        assert(s.take(s.len() - 1).take(h) =~= s.take(h));
    }
}

fn is_space_byte(b: u8) -> (r: bool)
    ensures
        r == is_space(b),
{
    b == 9 || b == 10 || b == 11 || b == 12 || b == 13 || b == 32
}

/// Remove leading and trailing ASCII whitespace from `s`.
pub fn trim_bytes(s: &[u8]) -> (r: Vec<u8>)
    ensures
        r@ == trim(s@),
{
    let mut lo: usize = 0;
    while lo < s.len() && is_space_byte(s[lo])
        invariant
            0 <= lo <= s.len(),
            forall|i: int| 0 <= i < lo ==> is_space(s@[i]),
        decreases s.len() - lo,
    {
        lo = lo + 1;
    }
    proof {
        lemma_trim_start_at(s@, lo as int);
    }
    let mut hi: usize = s.len();
    while hi > lo && is_space_byte(s[hi - 1])
        invariant
            lo <= hi <= s.len(),
            forall|i: int| hi <= i < s.len() ==> is_space(s@[i]),
        decreases hi,
    {
        hi = hi - 1;
    }
    proof {
        let tail = s@.skip(lo as int);
        assert(forall|i: int| hi - lo <= i < tail.len() ==> is_space(tail[i]));
        if hi > lo {
            assert(!is_space(tail[hi - lo - 1]));
        }
        lemma_trim_end_at(tail, hi - lo);
    }
    let mut r: Vec<u8> = Vec::new();
    let mut i: usize = lo;
    while i < hi
        invariant
            lo <= i <= hi <= s.len(),
            r@ =~= s@.subrange(lo as int, i as int),
        decreases hi - i,
    {
        let b = s[i];
        r.push(b);
        proof {
            assert(r@ =~= s@.subrange(lo as int, i + 1));
        }
        i = i + 1;
    }
    proof {
        assert(r@ =~= s@.skip(lo as int).take(hi - lo as int));
    }
    r
}

/// Index of the first LF byte of `s`, or `s.len()` when there is none.
pub open spec fn first_nl(s: Seq<u8>) -> nat
    decreases s.len(),
{
    if s.len() == 0 || s[0] == 10 {
        0
    } else {
        1 + first_nl(s.skip(1))
    }
}

/// A line with a trailing CR removed.
pub open spec fn strip_cr(l: Seq<u8>) -> Seq<u8> {
    if l.len() > 0 && l[l.len() - 1] == 13 {
        l.take(l.len() - 1)
    } else {
        l
    }
}

/// The lines of `s`: split at LF, each line stripped of a trailing CR,
/// no empty line after a trailing LF.
pub open spec fn lines_of(s: Seq<u8>) -> Seq<Seq<u8>>
    decreases s.len(),
{
    if s.len() == 0 {
        Seq::empty()
    } else {
        let n = first_nl(s) as int;
        if n >= s.len() {
            seq![strip_cr(s)]
        } else {
            seq![strip_cr(s.take(n))] + lines_of(s.skip(n + 1))
        }
    }
}

/// The views of a sequence of byte vectors.
pub open spec fn views(v: Seq<Vec<u8>>) -> Seq<Seq<u8>> {
    Seq::new(v.len(), |i: int| v[i]@)
}

proof fn lemma_first_nl(s: Seq<u8>)
    ensures
        first_nl(s) <= s.len(),
        forall|i: int| 0 <= i < first_nl(s) ==> s[i] != 10,
        first_nl(s) < s.len() ==> s[first_nl(s) as int] == 10,
    decreases s.len(),
{
    if s.len() != 0 && s[0] != 10 {
        lemma_first_nl(s.skip(1));
        assert forall|i: int| 0 <= i < first_nl(s) implies s[i] != 10 by {
            if i > 0 {
                assert(s.skip(1)[i - 1] == s[i]);
            }
        }
        if first_nl(s) < s.len() {
            assert(s.skip(1)[first_nl(s) - 1] == s[first_nl(s) as int]);
        }
    }
}

proof fn lemma_first_nl_at(s: Seq<u8>, k: int)
    requires
        0 <= k <= s.len(),
        forall|i: int| 0 <= i < k ==> s[i] != 10,
        k < s.len() ==> s[k] == 10,
    ensures
        first_nl(s) == k,
{
    lemma_first_nl(s);
    if first_nl(s) < k {
        assert(s[first_nl(s) as int] != 10);
    }
    if first_nl(s) > k {
        assert(s[k] != 10);
    }
}

/// Split `s` into lines: at each LF, with a trailing CR removed from each
/// line, and without a final empty line when `s` ends in LF.
pub fn split_lines(s: &[u8]) -> (r: Vec<Vec<u8>>)
    ensures
        views(r@) == lines_of(s@),
{
    let mut r: Vec<Vec<u8>> = Vec::new();
    let mut start: usize = 0;
    proof {
        assert(s@.skip(0) =~= s@);
        assert(views(r@) =~~= Seq::<Seq<u8>>::empty());
    }
    while start < s.len()
        invariant
            0 <= start <= s.len(),
            lines_of(s@) =~~= views(r@) + lines_of(s@.skip(start as int)),
        decreases s.len() - start,
    {
        // Find the next LF at or after `start`.
        let ghost tail = s@.skip(start as int);
        let mut j: usize = start;
        while j < s.len() && s[j] != 10
            invariant
                start <= j <= s.len(),
                forall|i: int| start <= i < j ==> s@[i] != 10,
            decreases s.len() - j,
        {
            j = j + 1;
        }
        proof {
            assert(forall|i: int| 0 <= i < j - start ==> tail[i] == s@[i + start]);
            lemma_first_nl_at(tail, j - start);
        }
        // The raw line is s[start..j]; drop a trailing CR.
        let end: usize = if j > start && s[j - 1] == 13 {
            j - 1
        } else {
            j
        };
        let mut line: Vec<u8> = Vec::new();
        let mut i: usize = start;
        while i < end
            invariant
                start <= i <= end <= s.len(),
                line@ =~= s@.subrange(start as int, i as int),
            decreases end - i,
        {
            let b = s[i];
            line.push(b);
            proof {
                assert(line@ =~= s@.subrange(start as int, i + 1));
            }
            i = i + 1;
        }
        proof {
            let n = first_nl(tail) as int;
            assert(tail.take(n) =~= s@.subrange(start as int, j as int));
            assert(line@ =~= strip_cr(tail.take(n)));
            if n == tail.len() {
                assert(strip_cr(tail) == strip_cr(tail.take(n)));
                assert(lines_of(tail) =~~= seq![line@]);
            } else {
                assert(tail.skip(n + 1) =~= s@.skip(j + 1));
            }
            assert(views(r@.push(line)) =~~= views(r@) + seq![line@]);
        }
        r.push(line);
        if j >= s.len() {
            start = s.len();
            proof {
                assert(lines_of(s@.skip(start as int)) =~~= Seq::<Seq<u8>>::empty());
                assert(lines_of(s@) =~~= views(r@));
            }
        } else {
            start = j + 1;
        }
    }
    proof {
        assert(lines_of(s@.skip(start as int)) =~~= Seq::<Seq<u8>>::empty());
        assert(views(r@) =~~= lines_of(s@));
    }
    r
}

/// The elements of `v` joined with the separator `sep` between them.
pub open spec fn join_with(v: Seq<Seq<u8>>, sep: Seq<u8>) -> Seq<u8>
    decreases v.len(),
{
    if v.len() == 0 {
        Seq::empty()
    } else if v.len() == 1 {
        v[0]
    } else {
        v[0] + sep + join_with(v.skip(1), sep)
    }
}

/// Append all of `src` to `dst`.
pub fn push_all(dst: &mut Vec<u8>, src: &[u8])
    ensures
        final(dst)@ == old(dst)@ + src@,
{
    let mut i: usize = 0;
    while i < src.len()
        invariant
            0 <= i <= src.len(),
            dst@ =~= old(dst)@ + src@.take(i as int),
        decreases src.len() - i,
    {
        let b = src[i];
        dst.push(b);
        proof {
            assert(dst@ =~= old(dst)@ + src@.take(i + 1));
        }
        i = i + 1;
    }
    proof {
        assert(dst@ =~= old(dst)@ + src@);
    }
}

/// Join byte vectors with `sep` between consecutive elements.
pub fn join_bytes(v: &Vec<Vec<u8>>, sep: &[u8]) -> (r: Vec<u8>)
    ensures
        r@ == join_with(views(v@), sep@),
{
    let mut r: Vec<u8> = Vec::new();
    let mut i: usize = 0;
    while i < v.len()
        invariant
            0 <= i <= v.len(),
            i == 0 ==> r@ =~= Seq::<u8>::empty(),
            i > 0 ==> join_with(views(v@), sep@) =~= r@ + join_sep_rest(views(v@), sep@, i as int),
        decreases v.len() - i,
    {
        if i > 0 {
            push_all(&mut r, sep);
        }
        let ghost pre = r@;
        push_all(&mut r, v[i].as_slice());
        proof {
            lemma_join_step(views(v@), sep@, i as int);
            if i == 0 {
                assert(r@ =~= views(v@)[0]);
            }
        }
        i = i + 1;
    }
    proof {
        if v.len() == 0 {
            assert(r@ =~= join_with(views(v@), sep@));
        } else {
            lemma_join_end(views(v@), sep@);
        }
    }
    r
}

/// What remains of a join after the first `i` elements have been emitted:
/// separator, element `i`, separator, element `i+1`, and so on.
pub open spec fn join_sep_rest(v: Seq<Seq<u8>>, sep: Seq<u8>, i: int) -> Seq<u8>
    decreases v.len() - i,
{
    if i < 0 || i >= v.len() {
        Seq::empty()
    } else {
        sep + v[i] + join_sep_rest(v, sep, i + 1)
    }
}

proof fn lemma_join_step(v: Seq<Seq<u8>>, sep: Seq<u8>, i: int)
    requires
        0 <= i < v.len(),
    ensures
        i == 0 ==> join_with(v, sep) =~= v[0] + join_sep_rest(v, sep, 1),
        i > 0 ==> join_sep_rest(v, sep, i) =~= sep + v[i] + join_sep_rest(v, sep, i + 1),
    decreases i,
{
    if i == 0 {
        lemma_join_unroll(v, sep, 0);
        assert(v.skip(0) =~= v);
    }
}

/// `join_with(v.skip(k), sep)` spelled with `join_sep_rest`.
proof fn lemma_join_unroll(v: Seq<Seq<u8>>, sep: Seq<u8>, k: int)
    requires
        0 <= k < v.len(),
    ensures
        join_with(v.skip(k), sep) =~= v[k] + join_sep_rest(v, sep, k + 1),
    decreases v.len() - k,
{
    if k + 1 < v.len() {
        lemma_join_unroll(v, sep, k + 1);
        assert(v.skip(k).skip(1) =~= v.skip(k + 1));
        assert(v.skip(k)[0] == v[k]);
        assert(join_with(v.skip(k), sep) =~= v[k] + sep + join_with(v.skip(k + 1), sep));
    } else {
        assert(v.skip(k).len() == 1);
        assert(v.skip(k)[0] == v[k]);
    }
}

proof fn lemma_join_end(v: Seq<Seq<u8>>, sep: Seq<u8>)
    requires
        v.len() > 0,
    ensures
        join_sep_rest(v, sep, v.len() as int) =~= Seq::<u8>::empty(),
{
}

/// True when `p` is a prefix of `s`.
pub open spec fn has_prefix(s: Seq<u8>, p: Seq<u8>) -> bool {
    p.len() <= s.len() && s.take(p.len() as int) =~= p
}

/// Test whether `s` starts with `p`.
pub fn starts_with(s: &[u8], p: &[u8]) -> (r: bool)
    ensures
        r == has_prefix(s@, p@),
{
    if p.len() > s.len() {
        return false;
    }
    let mut i: usize = 0;
    while i < p.len()
        invariant
            0 <= i <= p.len() <= s.len(),
            forall|j: int| 0 <= j < i ==> s@[j] == p@[j],
        decreases p.len() - i,
    {
        if s[i] != p[i] {
            assert(s@.take(p@.len() as int)[i as int] != p@[i as int]);
            return false;
        }
        i = i + 1;
    }
    proof {
        assert(s@.take(p@.len() as int) =~= p@);
    }
    true
}

/// `p` occurs in `s` at position `i`.
pub open spec fn occurs_at(s: Seq<u8>, p: Seq<u8>, i: int) -> bool {
    0 <= i && i + p.len() <= s.len() && (forall|j: int| 0 <= j < p.len() ==> s[i + j] == p[j])
}

/// `p` occurs somewhere in `s`.
pub open spec fn occurs(s: Seq<u8>, p: Seq<u8>) -> bool {
    exists|i: int| occurs_at(s, p, i)
}

/// Position of the first occurrence of `p` at or after `from`, if any.
pub open spec fn find_from(s: Seq<u8>, p: Seq<u8>, from: int) -> Option<int>
    decreases s.len() - from,
{
    if from < 0 || from + p.len() > s.len() {
        None
    } else if occurs_at(s, p, from) {
        Some(from)
    } else {
        find_from(s, p, from + 1)
    }
}

/// Position of the first occurrence of `p` in `s`, if any.
pub open spec fn find_in(s: Seq<u8>, p: Seq<u8>) -> Option<int> {
    find_from(s, p, 0)
}

/// `find_from` finds exactly the first occurrence at or after `from`.
pub proof fn lemma_find_from(s: Seq<u8>, p: Seq<u8>, from: int)
    requires
        0 <= from,
    ensures
        match find_from(s, p, from) {
            Some(i) => occurs_at(s, p, i) && from <= i && (forall|k: int|
                from <= k < i ==> !occurs_at(s, p, k)),
            None => forall|k: int| k >= from ==> !occurs_at(s, p, k),
        },
    decreases s.len() - from,
{
    if from + p.len() > s.len() {
        assert forall|k: int| k >= from implies !occurs_at(s, p, k) by {}
    } else if occurs_at(s, p, from) {
    } else {
        lemma_find_from(s, p, from + 1);
    }
}

fn match_at(s: &[u8], p: &[u8], i: usize) -> (r: bool)
    requires
        i + p@.len() <= s@.len(),
    ensures
        r == occurs_at(s@, p@, i as int),
{
    let n = s.len();
    let mut j: usize = 0;
    while j < p.len()
        invariant
            0 <= j <= p.len(),
            i + p@.len() <= n == s@.len(),
            forall|k: int| 0 <= k < j ==> s@[i + k] == p@[k],
        decreases p.len() - j,
    {
        if s[i + j] != p[j] {
            return false;
        }
        j = j + 1;
    }
    true
}

/// Find the first occurrence of `p` in `s` at or after `from`.
pub fn find_bytes(s: &[u8], p: &[u8], from: usize) -> (r: Option<usize>)
    ensures
        match r {
            Some(i) => Some(i as int) == find_from(s@, p@, from as int),
            None => find_from(s@, p@, from as int) is None,
        },
{
    if p.len() > s.len() || from > s.len() - p.len() {
        proof {
            lemma_find_none_short(s@, p@, from as int);
        }
        return None;
    }
    if p.len() == 0 {
        proof {
            assert(occurs_at(s@, p@, from as int));
            lemma_find_some(s@, p@, from as int, from as int);
        }
        return Some(from);
    }
    let n = s.len();
    let last = n - p.len();
    let mut i: usize = from;
    while i <= last
        invariant
            from <= i,
            1 <= p@.len() <= s@.len(),
            n == s@.len(),
            last == s@.len() - p@.len(),
            i <= last + 1,
            forall|k: int| from <= k < i ==> !occurs_at(s@, p@, k),
        decreases last + 1 - i,
    {
        if match_at(s, p, i) {
            proof {
                lemma_find_some(s@, p@, from as int, i as int);
            }
            return Some(i);
        }
        i = i + 1;
    }
    proof {
        lemma_find_none(s@, p@, from as int, i as int);
    }
    None
}

proof fn lemma_find_none_short(s: Seq<u8>, p: Seq<u8>, from: int)
    requires
        from >= 0,
        from + p.len() > s.len(),
    ensures
        find_from(s, p, from) is None,
{
}

proof fn lemma_find_some(s: Seq<u8>, p: Seq<u8>, from: int, i: int)
    requires
        0 <= from <= i,
        occurs_at(s, p, i),
        forall|k: int| from <= k < i ==> !occurs_at(s, p, k),
    ensures
        find_from(s, p, from) == Some(i),
    decreases i - from,
{
    if from < i {
        lemma_find_some(s, p, from + 1, i);
    }
}

proof fn lemma_find_none(s: Seq<u8>, p: Seq<u8>, from: int, i: int)
    requires
        0 <= from <= i,
        i + p.len() > s.len(),
        forall|k: int| from <= k < i ==> !occurs_at(s, p, k),
    ensures
        find_from(s, p, from) is None,
    decreases i - from,
{
    if from < i && from + p.len() <= s.len() {
        lemma_find_none(s, p, from + 1, i);
    }
}

/// Test whether `p` occurs in `s`.
pub fn contains_bytes(s: &[u8], p: &[u8]) -> (r: bool)
    ensures
        r == occurs(s@, p@),
{
    proof {
        lemma_find_from(s@, p@, 0);
    }
    match find_bytes(s, p, 0) {
        Some(_) => true,
        None => {
            proof {
                assert forall|i: int| !occurs_at(s@, p@, i) by {
                    if occurs_at(s@, p@, i) {
                        assert(i >= 0);
                    }
                }
            }
            false
        },
    }
}

/// `r` interleaved around every byte of `c`: what replacing the empty
/// pattern by `r` leaves behind.
pub open spec fn interleave(c: Seq<u8>, r: Seq<u8>) -> Seq<u8>
    decreases c.len(),
{
    if c.len() == 0 {
        r
    } else {
        r + seq![c[0]] + interleave(c.skip(1), r)
    }
}

/// `c` with every non-overlapping occurrence of `s`, found left to right,
/// replaced by `r`. With an empty `s` the replacement lands before every
/// byte and once more at the end.
pub open spec fn replace_all(c: Seq<u8>, s: Seq<u8>, r: Seq<u8>) -> Seq<u8>
    decreases c.len() via replace_all_decreases
{
    if s.len() == 0 {
        interleave(c, r)
    } else {
        match find_in(c, s) {
            None => c,
            Some(i) => c.take(i) + r + replace_all(c.skip(i + s.len()), s, r),
        }
    }
}

#[via_fn]
proof fn replace_all_decreases(c: Seq<u8>, s: Seq<u8>, r: Seq<u8>) {
    if s.len() > 0 && find_in(c, s) is Some {
        lemma_find_from(c, s, 0);
    }
}

/// Replace every occurrence of `s` in `c` by `r`, left to right and
/// without overlap.
pub fn replace_bytes(c: &[u8], s: &[u8], r: &[u8]) -> (out: Vec<u8>)
    ensures
        out@ == replace_all(c@, s@, r@),
{
    if s.len() == 0 {
        let mut out: Vec<u8> = Vec::new();
        push_all(&mut out, r);
        proof {
            lemma_interleave_unroll(c@, r@, 0);
            assert(c@.skip(0) =~= c@);
        }
        let mut i: usize = 0;
        while i < c.len()
            invariant
                0 <= i <= c@.len(),
                interleave(c@, r@) =~= out@ + interleave_rest(c@, r@, i as int),
            decreases c.len() - i,
        {
            proof {
                lemma_interleave_step(c@, r@, i as int);
            }
            let b = c[i];
            out.push(b);
            push_all(&mut out, r);
            i = i + 1;
        }
        proof {
            assert(out@ =~= interleave(c@, r@));
        }
        return out;
    }
    let mut out: Vec<u8> = Vec::new();
    let mut pos: usize = 0;
    proof {
        assert(c@.skip(0) =~= c@);
        assert(Seq::<u8>::empty() + replace_all(c@, s@, r@) =~= replace_all(c@, s@, r@));
    }
    while pos < c.len()
        invariant
            s@.len() > 0,
            0 <= pos <= c@.len(),
            replace_all(c@, s@, r@) =~= out@ + replace_all(c@.skip(pos as int), s@, r@),
        decreases c.len() - pos,
    {
        let ghost tail = c@.skip(pos as int);
        match find_bytes(c, s, pos) {
            Some(i) => {
                proof {
                    lemma_find_from(c@, s@, pos as int);
                    lemma_find_shift(c@, s@, pos as int, i as int);
                }
                // Copy the bytes before the match, then the replacement.
                let mut k: usize = pos;
                let ghost out0 = out@;
                while k < i
                    invariant
                        pos <= k <= i,
                        i <= c@.len(),
                        out@ =~= out0 + c@.subrange(pos as int, k as int),
                    decreases i - k,
                {
                    let b = c[k];
                    out.push(b);
                    proof {
                        assert(out@ =~= out0 + c@.subrange(pos as int, k + 1));
                    }
                    k = k + 1;
                }
                push_all(&mut out, r);
                proof {
                    assert(tail.take(i - pos as int) =~= c@.subrange(pos as int, i as int));
                    assert(tail.skip(i - pos + s@.len() as int) =~= c@.skip(
                        i + s@.len() as int));
                }
                pos = i + s.len();
            },
            None => {
                proof {
                    lemma_find_from(c@, s@, pos as int);
                    assert(find_in(tail, s@) is None) by {
                        lemma_find_from(tail, s@, 0);
                        if find_in(tail, s@) is Some {
                            let j = find_in(tail, s@)->Some_0;
                            assert(occurs_at(tail, s@, j));
                            lemma_occurs_unshift(c@, s@, pos as int, j);
                        }
                    }
                }
                let ghost out0 = out@;
                let mut k: usize = pos;
                while k < c.len()
                    invariant
                        pos <= k <= c@.len(),
                        out@ =~= out0 + c@.subrange(pos as int, k as int),
                    decreases c.len() - k,
                {
                    let b = c[k];
                    out.push(b);
                    proof {
                        assert(out@ =~= out0 + c@.subrange(pos as int, k + 1));
                    }
                    k = k + 1;
                }
                proof {
                    assert(c@.subrange(pos as int, c@.len() as int) =~= tail);
                    assert(out@ =~= replace_all(c@, s@, r@));
                }
                return out;
            },
        }
    }
    proof {
        assert(c@.skip(pos as int) =~= Seq::<u8>::empty());
        assert(replace_all(Seq::<u8>::empty(), s@, r@) =~= Seq::<u8>::empty());
        assert(out@ =~= replace_all(c@, s@, r@));
    }
    out
}

/// What remains of an interleave after the first `i` bytes of `c` have
/// been emitted.
pub open spec fn interleave_rest(c: Seq<u8>, r: Seq<u8>, i: int) -> Seq<u8>
    decreases c.len() - i,
{
    if i < 0 || i >= c.len() {
        Seq::empty()
    } else {
        seq![c[i]] + r + interleave_rest(c, r, i + 1)
    }
}

proof fn lemma_interleave_step(c: Seq<u8>, r: Seq<u8>, i: int)
    requires
        0 <= i < c.len(),
    ensures
        interleave_rest(c, r, i) =~= seq![c[i]] + r + interleave_rest(c, r, i + 1),
{
}

/// `interleave(c, r)` unrolled from position `k` on.
proof fn lemma_interleave_unroll(c: Seq<u8>, r: Seq<u8>, k: int)
    requires
        0 <= k <= c.len(),
    ensures
        interleave(c.skip(k), r) =~= r + interleave_rest(c, r, k),
    decreases c.len() - k,
{
    if k < c.len() {
        lemma_interleave_unroll(c, r, k + 1);
        assert(c.skip(k).skip(1) =~= c.skip(k + 1));
        assert(c.skip(k)[0] == c[k]);
    } else {
        assert(c.skip(k) =~= Seq::<u8>::empty());
    }
}

/// An occurrence of `s` in `c` at `i` is an occurrence in `c.skip(pos)`
/// at `i - pos`, and the other way round.
pub proof fn lemma_occurs_shift(c: Seq<u8>, s: Seq<u8>, pos: int, i: int)
    requires
        0 <= pos <= i,
        occurs_at(c, s, i),
    ensures
        occurs_at(c.skip(pos), s, i - pos),
{
    let tail = c.skip(pos);
    assert forall|q: int| 0 <= q < s.len() implies tail[i - pos + q] == #[trigger] s[q] by {
        assert(c[i + q] == s[q]);
        assert(tail[i - pos + q] == c[i + q]);
    }
}

pub proof fn lemma_occurs_unshift(c: Seq<u8>, s: Seq<u8>, pos: int, k: int)
    requires
        0 <= pos,
        pos <= c.len(),
        occurs_at(c.skip(pos), s, k),
    ensures
        occurs_at(c, s, pos + k),
{
    let tail = c.skip(pos);
    assert forall|q: int| 0 <= q < s.len() implies c[pos + k + q] == #[trigger] s[q] by {
        assert(tail[k + q] == s[q]);
        assert(tail[k + q] == c[pos + k + q]);
    }
}

/// The first occurrence at or after `pos` in `c`, moved to the tail
/// `c.skip(pos)`.
pub proof fn lemma_find_shift(c: Seq<u8>, s: Seq<u8>, pos: int, i: int)
    requires
        0 <= pos <= i,
        find_from(c, s, pos) == Some(i),
    ensures
        find_in(c.skip(pos), s) == Some(i - pos),
{
    lemma_find_from(c, s, pos);
    let tail = c.skip(pos);
    lemma_occurs_shift(c, s, pos, i);
    assert forall|k: int| 0 <= k < i - pos implies !occurs_at(tail, s, k) by {
        if occurs_at(tail, s, k) {
            lemma_occurs_unshift(c, s, pos, k);
        }
    }
    lemma_find_from(tail, s, 0);
    if find_in(tail, s) is None {
        assert(!occurs_at(tail, s, i - pos));
    } else {
        let j = find_in(tail, s)->Some_0;
        if j < i - pos {
            assert(!occurs_at(tail, s, j));
        }
        if j > i - pos {
            assert(!occurs_at(tail, s, i - pos));
        }
    }
}

/// No occurrence at or after `pos` means none in the tail either.
pub proof fn lemma_find_shift_none(c: Seq<u8>, s: Seq<u8>, pos: int)
    requires
        0 <= pos <= c.len(),
        find_from(c, s, pos) is None,
    ensures
        find_in(c.skip(pos), s) is None,
{
    lemma_find_from(c, s, pos);
    let tail = c.skip(pos);
    lemma_find_from(tail, s, 0);
    if find_in(tail, s) is Some {
        let j = find_in(tail, s)->Some_0;
        assert(occurs_at(tail, s, j));
        lemma_occurs_unshift(c, s, pos, j);
    }
}

/// Join the byte vectors from index `from` on, with `sep` between
/// consecutive elements.
pub fn join_bytes_from(v: &Vec<Vec<u8>>, sep: &[u8], from: usize) -> (r: Vec<u8>)
    requires
        from <= v@.len(),
    ensures
        r@ == join_with(views(v@).skip(from as int), sep@),
{
    let ghost w = views(v@).skip(from as int);
    let mut r: Vec<u8> = Vec::new();
    let mut i: usize = from;
    while i < v.len()
        invariant
            from <= i <= v@.len(),
            w == views(v@).skip(from as int),
            i == from ==> r@ =~= Seq::<u8>::empty(),
            i > from ==> join_with(w, sep@) =~= r@ + join_sep_rest(w, sep@, i - from),
        decreases v.len() - i,
    {
        if i > from {
            push_all(&mut r, sep);
        }
        push_all(&mut r, v[i].as_slice());
        proof {
            assert(w[i - from] == v@[i as int]@);
            lemma_join_step(w, sep@, i - from);
            if i == from {
                assert(r@ =~= w[0]);
            }
        }
        i = i + 1;
    }
    proof {
        if i == from {
            assert(w =~~= Seq::<Seq<u8>>::empty());
            assert(r@ =~= join_with(w, sep@));
        } else {
            assert(join_sep_rest(w, sep@, i - from) =~= Seq::<u8>::empty());
            assert(r@ =~= join_with(w, sep@));
        }
    }
    r
}

/// Join the byte vectors with indices in `from..to`, with `sep` between
/// consecutive elements.
pub fn join_bytes_range(v: &Vec<Vec<u8>>, sep: &[u8], from: usize, to: usize) -> (r: Vec<u8>)
    requires
        from <= to <= v@.len(),
    ensures
        r@ == join_with(views(v@).subrange(from as int, to as int), sep@),
{
    let ghost w = views(v@).subrange(from as int, to as int);
    let mut r: Vec<u8> = Vec::new();
    let mut i: usize = from;
    while i < to
        invariant
            from <= i <= to <= v@.len(),
            w == views(v@).subrange(from as int, to as int),
            i == from ==> r@ =~= Seq::<u8>::empty(),
            i > from ==> join_with(w, sep@) =~= r@ + join_sep_rest(w, sep@, i - from),
        decreases to - i,
    {
        if i > from {
            push_all(&mut r, sep);
        }
        push_all(&mut r, v[i].as_slice());
        proof {
            assert(w[i - from] == v@[i as int]@);
            lemma_join_step(w, sep@, i - from);
            if i == from {
                assert(r@ =~= w[0]);
            }
        }
        i = i + 1;
    }
    proof {
        if i == from {
            assert(w =~~= Seq::<Seq<u8>>::empty());
            assert(r@ =~= join_with(w, sep@));
        } else {
            assert(join_sep_rest(w, sep@, i - from) =~= Seq::<u8>::empty());
            assert(r@ =~= join_with(w, sep@));
        }
    }
    r
}

/// Split an argument at its first line: the head line and the remaining
/// lines joined back with LF. `None` when the text has no lines at all.
pub fn split_first_line(arg: &[u8]) -> (r: Option<(Vec<u8>, Vec<u8>)>)
    ensures
        match r {
            None => lines_of(arg@).len() == 0,
            Some(p) => lines_of(arg@).len() > 0 && p.0@ == lines_of(arg@)[0] && p.1@ == join_with(
                lines_of(arg@).skip(1),
                seq![10u8],
            ),
        },
{
    let lines = split_lines(arg);
    if lines.len() == 0 {
        return None;
    }
    let mut head: Vec<u8> = Vec::new();
    push_all(&mut head, lines[0].as_slice());
    let mut sep: Vec<u8> = Vec::new();
    sep.push(10);
    let rest = join_bytes_from(&lines, sep.as_slice(), 1);
    proof {
        assert(head@ =~= views(lines@)[0]);
        assert(sep@ =~= seq![10u8]);
    }
    Some((head, rest))
}

/// Test whether two byte strings hold the same bytes.
pub fn bytes_eq(a: &[u8], b: &[u8]) -> (r: bool)
    ensures
        r == (a@ =~= b@),
{
    if a.len() != b.len() {
        return false;
    }
    let mut i: usize = 0;
    while i < a.len()
        invariant
            0 <= i <= a.len() == b.len(),
            forall|j: int| 0 <= j < i ==> a@[j] == b@[j],
        decreases a.len() - i,
    {
        if a[i] != b[i] {
            return false;
        }
        i = i + 1;
    }
    true
}

} // verus!
