//! Stable sorting, stated as insertion sort: an element is placed before
//! the first element it may precede, so elements that compare equal keep
//! their order.
use vstd::prelude::*;

verus! {

/// Inserts `x` before the first element `y` with `le(x, y)`.
pub open spec fn insert_sorted<A>(x: A, s: Seq<A>, le: spec_fn(A, A) -> bool) -> Seq<A>
    decreases s.len(),
{
    if s.len() == 0 {
        seq![x]
    } else if le(x, s[0]) {
        seq![x] + s
    } else {
        seq![s[0]] + insert_sorted(x, s.drop_first(), le)
    }
}

/// The stable sort of `s` by `le`.
pub open spec fn stable_sort<A>(s: Seq<A>, le: spec_fn(A, A) -> bool) -> Seq<A>
    decreases s.len(),
{
    if s.len() == 0 {
        s
    } else {
        insert_sorted(s[0], stable_sort(s.drop_first(), le), le)
    }
}

/// Inserting at the first position `k` where `le(x, s[k])` holds.
pub proof fn lemma_insert_sorted_at<A>(x: A, s: Seq<A>, le: spec_fn(A, A) -> bool, k: int)
    requires
        0 <= k <= s.len(),
        forall|m: int| 0 <= m < k ==> !le(x, #[trigger] s[m]),
        k < s.len() ==> le(x, s[k]),
    ensures
        insert_sorted(x, s, le) == s.take(k) + seq![x] + s.skip(k),
    decreases s.len(),
{
    if s.len() == 0 {
        assert(s.take(k) + seq![x] + s.skip(k) =~= seq![x]);
    } else if k == 0 {
        assert(s.take(0) + seq![x] + s.skip(0) =~= seq![x] + s);
    } else {
        assert(!le(x, s[0]));
        assert forall|m: int| 0 <= m < k - 1 implies !le(x, #[trigger] s.drop_first()[m]) by {
            assert(s.drop_first()[m] == s[m + 1]);
        }
        lemma_insert_sorted_at(x, s.drop_first(), le, k - 1);
        assert(s.take(k) + seq![x] + s.skip(k) =~= seq![s[0]] + (s.drop_first().take(k - 1)
            + seq![x] + s.drop_first().skip(k - 1)));
    }
}

/// Sorting keeps exactly the elements it was given.
pub proof fn lemma_stable_sort_permutes<A>(s: Seq<A>, le: spec_fn(A, A) -> bool)
    ensures
        stable_sort(s, le).to_multiset() == s.to_multiset(),
    decreases s.len(),
{
    broadcast use vstd::seq_lib::group_to_multiset_ensures;

    if s.len() > 0 {
        lemma_stable_sort_permutes(s.drop_first(), le);
        lemma_insert_sorted_permutes(s[0], stable_sort(s.drop_first(), le), le);
        assert(s == seq![s[0]] + s.drop_first());
        vstd::seq_lib::lemma_multiset_commutative(seq![s[0]], s.drop_first());
    }
}

proof fn lemma_insert_sorted_permutes<A>(x: A, s: Seq<A>, le: spec_fn(A, A) -> bool)
    ensures
        insert_sorted(x, s, le).to_multiset() == s.to_multiset().insert(x),
    decreases s.len(),
{
    broadcast use vstd::seq_lib::group_to_multiset_ensures;

    if s.len() == 0 {
        assert(seq![x] == Seq::<A>::empty().push(x));
    } else if le(x, s[0]) {
        vstd::seq_lib::lemma_multiset_commutative(seq![x], s);
        assert(seq![x] == Seq::<A>::empty().push(x));
    } else {
        lemma_insert_sorted_permutes(x, s.drop_first(), le);
        vstd::seq_lib::lemma_multiset_commutative(
            seq![s[0]],
            insert_sorted(x, s.drop_first(), le),
        );
        vstd::seq_lib::lemma_multiset_commutative(seq![s[0]], s.drop_first());
        assert(s == seq![s[0]] + s.drop_first());
        assert(seq![s[0]] == Seq::<A>::empty().push(s[0]));
    }
}

/// With a total preorder, the sorted sequence is in order.
pub proof fn lemma_stable_sort_sorted<A>(s: Seq<A>, le: spec_fn(A, A) -> bool)
    requires
        forall|a: A, b: A| #[trigger] le(a, b) || le(b, a),
        forall|a: A, b: A, c: A| #[trigger] le(a, b) && #[trigger] le(b, c) ==> le(a, c),
    ensures
        forall|i: int, j: int|
            0 <= i < j < stable_sort(s, le).len() ==> le(
                #[trigger] stable_sort(s, le)[i],
                #[trigger] stable_sort(s, le)[j],
            ),
    decreases s.len(),
{
    if s.len() > 0 {
        lemma_stable_sort_sorted(s.drop_first(), le);
        lemma_insert_keeps_sorted(s[0], stable_sort(s.drop_first(), le), le);
    }
}

proof fn lemma_insert_keeps_sorted<A>(x: A, s: Seq<A>, le: spec_fn(A, A) -> bool)
    requires
        forall|a: A, b: A| #[trigger] le(a, b) || le(b, a),
        forall|a: A, b: A, c: A| #[trigger] le(a, b) && #[trigger] le(b, c) ==> le(a, c),
        forall|i: int, j: int| 0 <= i < j < s.len() ==> le(#[trigger] s[i], #[trigger] s[j]),
    ensures
        forall|i: int, j: int|
            0 <= i < j < insert_sorted(x, s, le).len() ==> le(
                #[trigger] insert_sorted(x, s, le)[i],
                #[trigger] insert_sorted(x, s, le)[j],
            ),
    decreases s.len(),
{
    let r = insert_sorted(x, s, le);
    if s.len() == 0 {
    } else if le(x, s[0]) {
        assert forall|i: int, j: int| 0 <= i < j < r.len() implies le(
            #[trigger] r[i],
            #[trigger] r[j],
        ) by {
            if i == 0 {
                if j > 1 {
                    assert(le(s[0], s[j - 1]));
                }
            } else {
                assert(r[i] == s[i - 1] && r[j] == s[j - 1]);
            }
        }
    } else {
        let t = s.drop_first();
        lemma_insert_keeps_sorted(x, t, le);
        let rt = insert_sorted(x, t, le);
        lemma_insert_sorted_permutes(x, t, le);
        assert forall|k: int| 0 <= k < rt.len() implies le(s[0], #[trigger] rt[k]) by {
            assert(rt.to_multiset().count(rt[k]) > 0) by {
                broadcast use vstd::seq_lib::group_to_multiset_ensures;

                assert(rt.contains(rt[k]));
            }
            broadcast use vstd::seq_lib::group_to_multiset_ensures;

            if rt[k] == x {
                assert(le(s[0], x));
            } else {
                assert(t.to_multiset().count(rt[k]) > 0);
                assert(t.contains(rt[k]));
                let m = choose|m: int| 0 <= m < t.len() && t[m] == rt[k];
                assert(le(s[0], s[m + 1]));
            }
        }
        assert forall|i: int, j: int| 0 <= i < j < r.len() implies le(
            #[trigger] r[i],
            #[trigger] r[j],
        ) by {
            if i == 0 {
                assert(r[j] == rt[j - 1]);
            } else {
                assert(r[i] == rt[i - 1] && r[j] == rt[j - 1]);
            }
        }
    }
}

} // verus!
