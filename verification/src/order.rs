//! Stable sorting, stated as insertion into an already sorted sequence.

use vstd::prelude::*;

verus! {

/// Where `x` goes in `s`: after every element that `x` does not sort
/// strictly before, looking from the back. For a sorted `s` this keeps
/// equal elements in their arrival order.
pub open spec fn insert_pos<V>(s: Seq<V>, x: V, lt: spec_fn(V, V) -> bool) -> int
    decreases s.len(),
{
    if s.len() == 0 {
        0
    } else if lt(x, s.last()) {
        insert_pos(s.drop_last(), x, lt)
    } else {
        s.len() as int
    }
}

/// `s` with `x` inserted at its place.
pub open spec fn insert_sorted<V>(s: Seq<V>, x: V, lt: spec_fn(V, V) -> bool) -> Seq<V> {
    s.insert(insert_pos(s, x, lt), x)
}

/// The stable sort of `s` by the strict order `lt` (what `sort_by` and
/// `sort_by_key` produce).
pub open spec fn sort_by<V>(s: Seq<V>, lt: spec_fn(V, V) -> bool) -> Seq<V>
    decreases s.len(),
{
    if s.len() == 0 {
        s
    } else {
        insert_sorted(sort_by(s.drop_last(), lt), s.last(), lt)
    }
}

pub proof fn lemma_insert_pos_bounds<V>(s: Seq<V>, x: V, lt: spec_fn(V, V) -> bool)
    ensures
        0 <= insert_pos(s, x, lt) <= s.len(),
    decreases s.len(),
{
    if s.len() > 0 && lt(x, s.last()) {
        lemma_insert_pos_bounds(s.drop_last(), x, lt);
    }
}

/// Sorting keeps exactly the items it was given.
pub proof fn lemma_sort_permutes<V>(s: Seq<V>, lt: spec_fn(V, V) -> bool)
    ensures
        sort_by(s, lt).to_multiset() == s.to_multiset(),
        sort_by(s, lt).len() == s.len(),
    decreases s.len(),
{
    if s.len() > 0 {
        let t = sort_by(s.drop_last(), lt);
        lemma_sort_permutes(s.drop_last(), lt);
        lemma_insert_pos_bounds(t, s.last(), lt);
        vstd::seq_lib::to_multiset_insert(t, insert_pos(t, s.last(), lt), s.last());
        vstd::seq_lib::to_multiset_build(s.drop_last(), s.last());
        assert(s.drop_last().push(s.last()) =~= s);
    }
}

/// Scanning `s` back from `j` while `x` sorts before the element in front
/// ends at `insert_pos`.
pub proof fn lemma_insert_pos_step<V>(s: Seq<V>, x: V, lt: spec_fn(V, V) -> bool, j: int)
    requires
        0 < j <= s.len(),
        lt(x, s[j - 1]),
    ensures
        insert_pos(s.take(j), x, lt) == insert_pos(s.take(j - 1), x, lt),
{
    assert(s.take(j).drop_last() =~= s.take(j - 1));
}

pub proof fn lemma_insert_pos_stop<V>(s: Seq<V>, x: V, lt: spec_fn(V, V) -> bool, j: int)
    requires
        0 <= j <= s.len(),
        j == 0 || !lt(x, s[j - 1]),
    ensures
        insert_pos(s.take(j), x, lt) == j,
{
}

/// No element of `s` sorts strictly before an element in front of it.
pub open spec fn sorted_by<V>(s: Seq<V>, lt: spec_fn(V, V) -> bool) -> bool {
    forall|i: int, j: int| 0 <= i < j < s.len() ==> !lt(#[trigger] s[j], #[trigger] s[i])
}

/// `lt` is a strict weak order: asymmetric, and "not before" is transitive.
pub open spec fn strict_weak_order<V>(lt: spec_fn(V, V) -> bool) -> bool {
    &&& forall|a: V, b: V| #[trigger] lt(a, b) ==> !lt(b, a)
    &&& forall|a: V, b: V, c: V| #![trigger lt(a, b), lt(b, c)] !lt(a, b) && !lt(b, c) ==> !lt(a, c)
}

proof fn lemma_insert_pos_props<V>(s: Seq<V>, x: V, lt: spec_fn(V, V) -> bool)
    ensures
        0 <= insert_pos(s, x, lt) <= s.len(),
        forall|k: int| insert_pos(s, x, lt) <= k < s.len() ==> lt(x, #[trigger] s[k]),
        insert_pos(s, x, lt) > 0 ==> !lt(x, s[insert_pos(s, x, lt) - 1]),
    decreases s.len(),
{
    if s.len() > 0 && lt(x, s.last()) {
        let t = s.drop_last();
        lemma_insert_pos_props(t, x, lt);
        assert forall|k: int| insert_pos(s, x, lt) <= k < s.len() implies lt(x, #[trigger] s[k]) by {
            if k < s.len() - 1 {
                assert(s[k] == t[k]);
            }
        }
    }
}

/// Inserting at its place keeps a sorted sequence sorted.
pub proof fn lemma_insert_sorted_sorted<V>(s: Seq<V>, x: V, lt: spec_fn(V, V) -> bool)
    requires
        strict_weak_order(lt),
        sorted_by(s, lt),
    ensures
        sorted_by(insert_sorted(s, x, lt), lt),
{
    lemma_insert_pos_props(s, x, lt);
    let p = insert_pos(s, x, lt);
    let r = s.insert(p, x);
    assert forall|i: int, j: int| 0 <= i < j < r.len() implies !lt(#[trigger] r[j], #[trigger] r[i]) by {
        if j < p {
            assert(r[i] == s[i] && r[j] == s[j]);
        } else if j == p {
            assert(r[i] == s[i]);
            assert(!lt(x, s[p - 1]));
            if i < p - 1 {
                assert(!lt(s[p - 1], s[i]));
            }
        } else if i == p {
            assert(r[j] == s[j - 1]);
            assert(lt(x, s[j - 1]));
        } else if i < p {
            assert(r[i] == s[i] && r[j] == s[j - 1]);
        } else {
            assert(r[i] == s[i - 1] && r[j] == s[j - 1]);
        }
    }
}

/// The stable sort by a strict weak order is sorted.
pub proof fn lemma_sort_sorted<V>(s: Seq<V>, lt: spec_fn(V, V) -> bool)
    requires
        strict_weak_order(lt),
    ensures
        sorted_by(sort_by(s, lt), lt),
    decreases s.len(),
{
    if s.len() > 0 {
        lemma_sort_sorted(s.drop_last(), lt);
        lemma_insert_sorted_sorted(sort_by(s.drop_last(), lt), s.last(), lt);
    }
}

} // verus!
