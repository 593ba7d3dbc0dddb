//! Insertion order over sequences: the mathematical definition of a stable
//! sort by a strict "goes before" relation, with its permutation and order laws.

use vstd::prelude::*;

verus! {

/// Inserts `x` in front of the first element it goes before (after all
/// elements it does not go before), keeping equal elements in arrival order.
pub open spec fn insert_by<T>(s: Seq<T>, x: T, before: spec_fn(T, T) -> bool) -> Seq<T>
    decreases s.len(),
{
    if s.len() == 0 {
        seq![x]
    } else if before(x, s[0]) {
        seq![x] + s
    } else {
        seq![s[0]] + insert_by(s.drop_first(), x, before)
    }
}

/// Stable insertion sort of `s` by `before`.
pub open spec fn sort_by<T>(s: Seq<T>, before: spec_fn(T, T) -> bool) -> Seq<T>
    decreases s.len(),
{
    if s.len() == 0 {
        Seq::empty()
    } else {
        insert_by(sort_by(s.drop_last(), before), s.last(), before)
    }
}

/// Inserting at the first position whose element `x` goes before is `insert_by`.
pub proof fn lemma_insert_by_at<T>(s: Seq<T>, x: T, before: spec_fn(T, T) -> bool, j: int)
    requires
        0 <= j <= s.len(),
        forall|k: int| 0 <= k < j ==> !before(x, #[trigger] s[k]),
        j < s.len() ==> before(x, s[j]),
    ensures
        insert_by(s, x, before) == s.insert(j, x),
    decreases s.len(),
{
    if s.len() == 0 {
        assert(s.insert(j, x) =~= seq![x]);
    } else if j == 0 {
        assert(s.insert(0, x) =~= seq![x] + s);
    } else {
        let t = s.drop_first();
        assert forall|k: int| 0 <= k < j - 1 implies !before(x, #[trigger] t[k]) by {
            assert(t[k] == s[k + 1]);
        }
        if j - 1 < t.len() {
            assert(t[j - 1] == s[j]);
        }
        lemma_insert_by_at(t, x, before, j - 1);
        assert(seq![s[0]] + t.insert(j - 1, x) =~= s.insert(j, x));
    }
}

/// `insert_by` adds exactly one copy of `x`.
pub proof fn lemma_insert_by_multiset<T>(s: Seq<T>, x: T, before: spec_fn(T, T) -> bool)
    ensures
        insert_by(s, x, before).to_multiset() == s.to_multiset().insert(x),
        insert_by(s, x, before).len() == s.len() + 1,
    decreases s.len(),
{
    broadcast use vstd::seq_lib::group_to_multiset_ensures;
    broadcast use vstd::seq_lib::lemma_multiset_commutative;

    if s.len() == 0 {
        assert(seq![x] =~= Seq::<T>::empty().push(x));
    } else if before(x, s[0]) {
        assert(seq![x] =~= Seq::<T>::empty().push(x));
        assert((seq![x] + s).to_multiset() == seq![x].to_multiset().add(s.to_multiset()));
    } else {
        let t = s.drop_first();
        lemma_insert_by_multiset(t, x, before);
        assert(seq![s[0]] =~= Seq::<T>::empty().push(s[0]));
        assert(s =~= seq![s[0]] + t);
        assert((seq![s[0]] + t).to_multiset() == seq![s[0]].to_multiset().add(t.to_multiset()));
        assert((seq![s[0]] + insert_by(t, x, before)).to_multiset() == seq![s[0]].to_multiset().add(
            insert_by(t, x, before).to_multiset(),
        ));
    }
}

/// Sorting permutes: same multiset, same length.
pub proof fn lemma_sort_by_multiset<T>(s: Seq<T>, before: spec_fn(T, T) -> bool)
    ensures
        sort_by(s, before).to_multiset() == s.to_multiset(),
        sort_by(s, before).len() == s.len(),
    decreases s.len(),
{
    broadcast use vstd::seq_lib::group_to_multiset_ensures;

    if s.len() == 0 {
    } else {
        lemma_sort_by_multiset(s.drop_last(), before);
        lemma_insert_by_multiset(sort_by(s.drop_last(), before), s.last(), before);
        assert(s =~= s.drop_last().push(s.last()));
    }
}

/// Elements of `insert_by` are `x` or elements of `s`.
pub proof fn lemma_insert_by_contains<T>(s: Seq<T>, x: T, before: spec_fn(T, T) -> bool, y: T)
    ensures
        insert_by(s, x, before).contains(y) <==> (y == x || s.contains(y)),
{
    broadcast use vstd::seq_lib::group_to_multiset_ensures;
    broadcast use vstd::multiset::group_multiset_axioms;

    lemma_insert_by_multiset(s, x, before);
    let r = insert_by(s, x, before);
    assert(r.contains(y) <==> r.to_multiset().count(y) > 0);
    assert(s.contains(y) <==> s.to_multiset().count(y) > 0);
}

/// Ascending order of integers, as a "goes before" relation.
pub open spec fn u32_less() -> spec_fn(u32, u32) -> bool {
    |a: u32, b: u32| a < b
}

/// A sequence of `u32` in non-decreasing order.
pub open spec fn ascending(s: Seq<u32>) -> bool {
    forall|i: int, j: int| 0 <= i < j < s.len() ==> s[i] <= s[j]
}

proof fn lemma_insert_ascending(s: Seq<u32>, x: u32)
    requires
        ascending(s),
    ensures
        ascending(insert_by(s, x, u32_less())),
    decreases s.len(),
{
    if s.len() == 0 {
    } else if x < s[0] {
        let r = seq![x] + s;
        assert forall|i: int, j: int| 0 <= i < j < r.len() implies r[i] <= r[j] by {
            if i == 0 {
                assert(s[0] <= s[j - 1]);
            }
        }
    } else {
        let t = s.drop_first();
        assert(ascending(t));
        lemma_insert_ascending(t, x);
        let it = insert_by(t, x, u32_less());
        let r = seq![s[0]] + it;
        assert forall|i: int, j: int| 0 <= i < j < r.len() implies r[i] <= r[j] by {
            if i == 0 {
                lemma_insert_by_contains(t, x, u32_less(), it[j - 1]);
                if it[j - 1] != x {
                    let k = choose|k: int| 0 <= k < t.len() && t[k] == it[j - 1];
                    assert(s[0] <= s[k + 1]);
                }
            }
        }
    }
}

/// Sorting by `<` yields an ascending sequence.
pub proof fn lemma_sort_ascending(s: Seq<u32>)
    ensures
        ascending(sort_by(s, u32_less())),
    decreases s.len(),
{
    if s.len() > 0 {
        lemma_sort_ascending(s.drop_last());
        lemma_insert_ascending(sort_by(s.drop_last(), u32_less()), s.last());
    }
}

/// Sorts `v` ascending (stable insertion sort).
pub fn sort_u32(v: &Vec<u32>) -> (r: Vec<u32>)
    ensures
        r@ == sort_by(v@, u32_less()),
{
    let mut out: Vec<u32> = Vec::new();
    let n = v.len();
    for i in 0..n
        invariant
            n == v.len(),
            out@ == sort_by(v@.take(i as int), u32_less()),
    {
        let x = v[i];
        let mut j: usize = 0;
        while j < out.len() && !(x < out[j])
            invariant
                j <= out.len(),
                forall|k: int| 0 <= k < j ==> !(u32_less())(x, #[trigger] out@[k]),
            decreases out.len() - j,
        {
            j = j + 1;
        }
        proof {
            lemma_insert_by_at(out@, x, u32_less(), j as int);
            assert(v@.take(i + 1).drop_last() =~= v@.take(i as int));
            assert(v@.take(i + 1).last() == x);
        }
        out.insert(j, x);
    }
    assert(v@.take(n as int) =~= v@);
    out
}

} // verus!
