//! Byte-wise lexicographic order and a sort used for directory listings
//! and for the tool catalog, whose rendering must be deterministic.

use vstd::prelude::*;
use vstd::multiset::Multiset;
use crate::text::views;

verus! {

/// `a` is lexicographically at or before `b`, byte by byte; a proper
/// prefix comes first.
pub open spec fn lex_le(a: Seq<u8>, b: Seq<u8>) -> bool
    decreases a.len(),
{
    if a.len() == 0 {
        true
    } else if b.len() == 0 {
        false
    } else if a[0] < b[0] {
        true
    } else if a[0] > b[0] {
        false
    } else {
        lex_le(a.skip(1), b.skip(1))
    }
}

/// The order is total.
pub proof fn lemma_lex_total(a: Seq<u8>, b: Seq<u8>)
    ensures
        lex_le(a, b) || lex_le(b, a),
    decreases a.len(),
{
    if a.len() > 0 && b.len() > 0 && a[0] == b[0] {
        lemma_lex_total(a.skip(1), b.skip(1));
    }
}

/// The order is transitive.
pub proof fn lemma_lex_trans(a: Seq<u8>, b: Seq<u8>, c: Seq<u8>)
    requires
        lex_le(a, b),
        lex_le(b, c),
    ensures
        lex_le(a, c),
    decreases a.len(),
{
    if a.len() > 0 && b.len() > 0 && c.len() > 0 && a[0] == b[0] && b[0] == c[0] {
        lemma_lex_trans(a.skip(1), b.skip(1), c.skip(1));
    }
}

/// The order is reflexive.
pub proof fn lemma_lex_refl(a: Seq<u8>)
    ensures
        lex_le(a, a),
    decreases a.len(),
{
    if a.len() > 0 {
        lemma_lex_refl(a.skip(1));
    }
}

/// Comparing while a common prefix lasts compares the tails.
proof fn lemma_lex_skip(a: Seq<u8>, b: Seq<u8>, i: int)
    requires
        0 <= i <= a.len(),
        i <= b.len(),
        forall|k: int| 0 <= k < i ==> a[k] == b[k],
    ensures
        lex_le(a, b) == lex_le(a.skip(i), b.skip(i)),
    decreases i,
{
    if i == 0 {
        assert(a.skip(0) =~= a);
        assert(b.skip(0) =~= b);
    } else {
        assert(a[0] == b[0]);
        assert(a.skip(1).skip(i - 1) =~= a.skip(i));
        assert(b.skip(1).skip(i - 1) =~= b.skip(i));
        lemma_lex_skip(a.skip(1), b.skip(1), i - 1);
    }
}

/// Decide `lex_le` on byte strings.
pub fn lex_le_bytes(a: &[u8], b: &[u8]) -> (r: bool)
    ensures
        r == lex_le(a@, b@),
{
    let mut i: usize = 0;
    while i < a.len() && i < b.len()
        invariant
            0 <= i <= a@.len(),
            i <= b@.len(),
            forall|k: int| 0 <= k < i ==> a@[k] == b@[k],
        decreases a.len() - i,
    {
        if a[i] < b[i] {
            proof {
                lemma_lex_skip(a@, b@, i as int);
            }
            return true;
        }
        if a[i] > b[i] {
            proof {
                lemma_lex_skip(a@, b@, i as int);
            }
            return false;
        }
        i = i + 1;
    }
    proof {
        lemma_lex_skip(a@, b@, i as int);
    }
    i == a.len()
}

/// `x` placed into an already sorted sequence, before the first element
/// it is at or before.
pub open spec fn insert_sorted(x: Seq<u8>, v: Seq<Seq<u8>>) -> Seq<Seq<u8>>
    decreases v.len(),
{
    if v.len() == 0 {
        seq![x]
    } else if lex_le(x, v[0]) {
        seq![x] + v
    } else {
        seq![v[0]] + insert_sorted(x, v.skip(1))
    }
}

/// Insertion sort of a sequence of byte strings.
pub open spec fn sort_lex(v: Seq<Seq<u8>>) -> Seq<Seq<u8>>
    decreases v.len(),
{
    if v.len() == 0 {
        Seq::empty()
    } else {
        insert_sorted(v[0], sort_lex(v.skip(1)))
    }
}

/// Non-decreasing under `lex_le`.
pub open spec fn sorted_lex(v: Seq<Seq<u8>>) -> bool {
    forall|i: int, j: int| 0 <= i <= j < v.len() ==> lex_le(#[trigger] v[i], #[trigger] v[j])
}

/// Inserting `x` at the found position is `insert_sorted`.
proof fn lemma_insert_at(x: Seq<u8>, v: Seq<Seq<u8>>, p: int)
    requires
        0 <= p <= v.len(),
        forall|k: int| 0 <= k < p ==> !lex_le(x, #[trigger] v[k]),
        p < v.len() ==> lex_le(x, v[p]),
    ensures
        insert_sorted(x, v) =~~= v.take(p) + seq![x] + v.skip(p),
    decreases p,
{
    if p == 0 {
        if v.len() == 0 {
            assert(insert_sorted(x, v) =~~= seq![x]);
        }
    } else {
        assert(!lex_le(x, v[0]));
        lemma_insert_at(x, v.skip(1), p - 1);
        assert(v.skip(1).take(p - 1) =~= v.take(p).skip(1));
        assert(v.skip(1).skip(p - 1) =~= v.skip(p));
    }
}

/// Insertion keeps a sorted sequence sorted.
pub proof fn lemma_insert_sorted_keeps(x: Seq<u8>, v: Seq<Seq<u8>>)
    requires
        sorted_lex(v),
    ensures
        sorted_lex(insert_sorted(x, v)),
    decreases v.len(),
{
    if v.len() == 0 {
        lemma_lex_refl(x);
        let out = insert_sorted(x, v);
        assert(out =~~= seq![x]);
        assert forall|i: int, j: int| 0 <= i <= j < out.len() implies lex_le(out[i], out[j]) by {
            assert(out[i] == x && out[j] == x);
        }
    } else if lex_le(x, v[0]) {
        let out = seq![x] + v;
        assert forall|i: int, j: int| 0 <= i <= j < out.len() implies lex_le(out[i], out[j]) by {
            if i == j {
                lemma_lex_refl(out[i]);
            } else if i == 0 && j > 0 {
                lemma_lex_trans(x, v[0], v[j - 1]);
            }
        }
    } else {
        let rest = insert_sorted(x, v.skip(1));
        assert(sorted_lex(v.skip(1))) by {
            assert(forall|i: int, j: int|
                0 <= i <= j < v.skip(1).len() ==> lex_le(
                    #[trigger] v.skip(1)[i],
                    #[trigger] v.skip(1)[j],
                ));
        }
        lemma_insert_sorted_keeps(x, v.skip(1));
        lemma_lex_total(x, v[0]);
        let out = seq![v[0]] + rest;
        assert forall|i: int, j: int| 0 <= i <= j < out.len() implies lex_le(out[i], out[j]) by {
            if i == j {
                lemma_lex_refl(out[i]);
            } else if i == 0 && j > 0 {
                // The head is at or before everything inserted behind it:
                // before each old element, and before `x` itself.
                lemma_insert_head_bound(x, v, j - 1);
            }
        }
    }
}

/// Every element of `insert_sorted(x, v.skip(1))` is at or after `v[0]`,
/// when `v` is sorted and `v[0]` comes before `x`.
proof fn lemma_insert_head_bound(x: Seq<u8>, v: Seq<Seq<u8>>, j: int)
    requires
        v.len() > 0,
        sorted_lex(v),
        !lex_le(x, v[0]),
        0 <= j < insert_sorted(x, v.skip(1)).len(),
    ensures
        lex_le(v[0], insert_sorted(x, v.skip(1))[j]),
    decreases v.len(),
{
    lemma_lex_total(x, v[0]);
    let tail = v.skip(1);
    let rest = insert_sorted(x, tail);
    if tail.len() == 0 {
        assert(rest =~~= seq![x]);
    } else if lex_le(x, tail[0]) {
        assert(rest =~~= seq![x] + tail);
        if j == 0 {
        } else {
            assert(rest[j] == tail[j - 1]);
            assert(lex_le(v[0], v[j]));
        }
    } else {
        assert(rest =~~= seq![tail[0]] + insert_sorted(x, tail.skip(1)));
        if j == 0 {
            assert(lex_le(v[0], v[1]));
        } else {
            assert(sorted_lex(tail)) by {
                assert(forall|a: int, b: int|
                    0 <= a <= b < tail.len() ==> lex_le(
                        #[trigger] tail[a],
                        #[trigger] tail[b],
                    ));
            }
            assert(!lex_le(x, tail[0]));
            lemma_insert_head_bound(x, tail, j - 1);
            assert(lex_le(v[0], v[1]));
            lemma_lex_trans(v[0], tail[0], insert_sorted(x, tail.skip(1))[j - 1]);
        }
    }
}

/// The sort sorts.
pub proof fn lemma_sort_lex_sorted(v: Seq<Seq<u8>>)
    ensures
        sorted_lex(sort_lex(v)),
    decreases v.len(),
{
    if v.len() > 0 {
        lemma_sort_lex_sorted(v.skip(1));
        lemma_insert_sorted_keeps(v[0], sort_lex(v.skip(1)));
    }
}

/// The sort keeps exactly the elements it was given.
pub proof fn lemma_sort_lex_multiset(v: Seq<Seq<u8>>)
    ensures
        sort_lex(v).to_multiset() =~= v.to_multiset(),
    decreases v.len(),
{
    broadcast use vstd::seq_lib::group_to_multiset_ensures;

    if v.len() > 0 {
        lemma_sort_lex_multiset(v.skip(1));
        lemma_insert_multiset(v[0], sort_lex(v.skip(1)));
        assert(v =~~= seq![v[0]] + v.skip(1));
        vstd::seq_lib::lemma_multiset_commutative(seq![v[0]], v.skip(1));
        assert(seq![v[0]].to_multiset() =~= Multiset::<Seq<u8>>::empty().insert(v[0])) by {
            assert(seq![v[0]] =~~= Seq::<Seq<u8>>::empty().push(v[0]));
        }
    }
}

proof fn lemma_insert_multiset(x: Seq<u8>, v: Seq<Seq<u8>>)
    ensures
        insert_sorted(x, v).to_multiset() =~= v.to_multiset().insert(x),
    decreases v.len(),
{
    broadcast use vstd::seq_lib::group_to_multiset_ensures;

    if v.len() == 0 {
        assert(seq![x] =~~= Seq::<Seq<u8>>::empty().push(x));
    } else if lex_le(x, v[0]) {
        vstd::seq_lib::lemma_multiset_commutative(seq![x], v);
        assert(seq![x].to_multiset() =~= Multiset::<Seq<u8>>::empty().insert(x)) by {
            assert(seq![x] =~~= Seq::<Seq<u8>>::empty().push(x));
        }
    } else {
        lemma_insert_multiset(x, v.skip(1));
        vstd::seq_lib::lemma_multiset_commutative(seq![v[0]], insert_sorted(x, v.skip(1)));
        vstd::seq_lib::lemma_multiset_commutative(seq![v[0]], v.skip(1));
        assert(v =~~= seq![v[0]] + v.skip(1));
        assert(seq![v[0]].to_multiset() =~= Multiset::<Seq<u8>>::empty().insert(v[0])) by {
            assert(seq![v[0]] =~~= Seq::<Seq<u8>>::empty().push(v[0]));
        }
    }
}

fn insert_lex(x: Vec<u8>, v: Vec<Vec<u8>>) -> (r: Vec<Vec<u8>>)
    ensures
        views(r@) == insert_sorted(x@, views(v@)),
{
    let ghost w = views(v@);
    let mut p: usize = 0;
    while p < v.len() && !lex_le_bytes(x.as_slice(), v[p].as_slice())
        invariant
            0 <= p <= v@.len(),
            w == views(v@),
            forall|k: int| 0 <= k < p ==> !lex_le(x@, #[trigger] w[k]),
        decreases v.len() - p,
    {
        p = p + 1;
    }
    proof {
        lemma_insert_at(x@, w, p as int);
    }
    let mut out = v;
    out.insert(p, x);
    proof {
        assert(views(out@) =~~= w.take(p as int) + seq![x@] + w.skip(p as int));
    }
    out
}

/// Sort byte strings lexicographically; the result is exactly
/// `sort_lex` of the input views.
pub fn sort_byte_strings(v: Vec<Vec<u8>>) -> (r: Vec<Vec<u8>>)
    ensures
        views(r@) == sort_lex(views(v@)),
{
    let ghost w = views(v@);
    let mut out: Vec<Vec<u8>> = Vec::new();
    let mut idx: usize = v.len();
    proof {
        assert(views(out@) =~~= sort_lex(w.skip(idx as int)));
    }
    let mut v = v;
    while idx > 0
        invariant
            0 <= idx <= v@.len(),
            w == views(v@),
            views(out@) == sort_lex(w.skip(idx as int)),
        decreases idx,
    {
        idx = idx - 1;
        let mut x: Vec<u8> = Vec::new();
        crate::text::push_all(&mut x, v[idx].as_slice());
        let next = insert_lex(x, out);
        proof {
            assert(w.skip(idx as int)[0] == w[idx as int]);
            assert(w.skip(idx as int).skip(1) =~~= w.skip(idx + 1));
        }
        out = next;
    }
    proof {
        assert(w.skip(0) =~~= w);
    }
    out
}

} // verus!
