//! Stable insertion order: the specification shared by every sort in the crate.

use vstd::prelude::*;

verus! {

/// Inserts `x` into `t` after every trailing element that `le(_, x)` accepts,
/// i.e. after the last run of elements that are not greater than `x`. Applied
/// to a sorted `t` this keeps elements that compare equal in arrival order.
pub open spec fn insert_sorted<T>(t: Seq<T>, x: T, le: spec_fn(T, T) -> bool) -> Seq<T>
    decreases t.len(),
{
    if t.len() == 0 {
        seq![x]
    } else if le(t.last(), x) {
        t.push(x)
    } else {
        insert_sorted(t.drop_last(), x, le).push(t.last())
    }
}

/// The stable sort of `s` by `le`: insertion of each element in turn.
pub open spec fn stable_sort<T>(s: Seq<T>, le: spec_fn(T, T) -> bool) -> Seq<T>
    decreases s.len(),
{
    if s.len() == 0 {
        Seq::empty()
    } else {
        insert_sorted(stable_sort(s.drop_last(), le), s.last(), le)
    }
}

/// Inserting past a suffix of elements that are all greater than `x` leaves
/// that suffix in place.
pub proof fn lemma_insert_sorted_split<T>(t: Seq<T>, x: T, le: spec_fn(T, T) -> bool, j: int)
    requires
        0 <= j <= t.len(),
        forall|k: int| j <= k < t.len() ==> !le(#[trigger] t[k], x),
    ensures
        insert_sorted(t, x, le) == insert_sorted(t.take(j), x, le) + t.skip(j),
    decreases t.len() - j,
{
    if j == t.len() {
        assert(t.take(j) == t);
        assert(t.skip(j) =~= Seq::<T>::empty());
        assert(insert_sorted(t, x, le) + Seq::<T>::empty() =~= insert_sorted(t, x, le));
    } else {
        assert(!le(t.last(), x));
        lemma_insert_sorted_split(t.drop_last(), x, le, j);
        assert(t.drop_last().take(j) =~= t.take(j));
        assert(t.drop_last().skip(j).push(t.last()) =~= t.skip(j));
        assert((insert_sorted(t.take(j), x, le) + t.drop_last().skip(j)).push(t.last())
            =~= insert_sorted(t.take(j), x, le) + t.skip(j));
    }
}

/// The length of an insertion.
pub proof fn lemma_insert_sorted_len<T>(t: Seq<T>, x: T, le: spec_fn(T, T) -> bool)
    ensures
        insert_sorted(t, x, le).len() == t.len() + 1,
    decreases t.len(),
{
    if t.len() > 0 && !le(t.last(), x) {
        lemma_insert_sorted_len(t.drop_last(), x, le);
    }
}

/// Sorting keeps the length.
pub proof fn lemma_stable_sort_len<T>(s: Seq<T>, le: spec_fn(T, T) -> bool)
    ensures
        stable_sort(s, le).len() == s.len(),
    decreases s.len(),
{
    if s.len() > 0 {
        lemma_stable_sort_len(s.drop_last(), le);
        lemma_insert_sorted_len(stable_sort(s.drop_last(), le), s.last(), le);
    }
}

/// A sequence holds `y` exactly when its front part or its last element is `y`.
proof fn lemma_contains_split_last<T>(t: Seq<T>, y: T)
    requires
        t.len() > 0,
    ensures
        t.contains(y) <==> (t.drop_last().contains(y) || t.last() == y),
{
    broadcast use vstd::seq_lib::lemma_seq_contains_after_push;

    assert(t.drop_last().push(t.last()) =~= t);
}

/// Inserting keeps every element and adds `x`.
pub proof fn lemma_insert_sorted_contains<T>(t: Seq<T>, x: T, le: spec_fn(T, T) -> bool, y: T)
    ensures
        insert_sorted(t, x, le).contains(y) <==> (t.contains(y) || y == x),
    decreases t.len(),
{
    broadcast use vstd::seq_lib::lemma_seq_contains_after_push;

    if t.len() == 0 {
        assert(seq![x] =~= Seq::<T>::empty().push(x));
    } else {
        lemma_contains_split_last(t, y);
        if !le(t.last(), x) {
            lemma_insert_sorted_contains(t.drop_last(), x, le, y);
        }
    }
}

/// Sorting keeps exactly the elements it was given.
pub proof fn lemma_stable_sort_contains<T>(s: Seq<T>, le: spec_fn(T, T) -> bool, y: T)
    ensures
        stable_sort(s, le).contains(y) <==> s.contains(y),
    decreases s.len(),
{
    if s.len() > 0 {
        lemma_stable_sort_contains(s.drop_last(), le, y);
        lemma_insert_sorted_contains(stable_sort(s.drop_last(), le), s.last(), le, y);
        lemma_contains_split_last(s, y);
    }
}

/// `le` orders every pair and is transitive.
pub open spec fn is_total_preorder<T>(le: spec_fn(T, T) -> bool) -> bool {
    &&& forall|a: T, b: T| #[trigger] le(a, b) || le(b, a)
    &&& forall|a: T, b: T, c: T| #[trigger] le(a, b) && #[trigger] le(b, c) ==> le(a, c)
}

/// `le` is a total preorder that holds both ways only of equal elements.
pub open spec fn is_total_order<T>(le: spec_fn(T, T) -> bool) -> bool {
    &&& is_total_preorder(le)
    &&& forall|a: T, b: T| #[trigger] le(a, b) && le(b, a) ==> a == b
}

/// Every element is `le` every later one.
pub open spec fn sorted_by<T>(s: Seq<T>, le: spec_fn(T, T) -> bool) -> bool {
    forall|i: int, j: int| 0 <= i < j < s.len() ==> le(#[trigger] s[i], #[trigger] s[j])
}

/// Inserting adds exactly `x` to the elements.
proof fn lemma_insert_sorted_multiset<T>(t: Seq<T>, x: T, le: spec_fn(T, T) -> bool)
    ensures
        insert_sorted(t, x, le).to_multiset() =~= t.to_multiset().insert(x),
    decreases t.len(),
{
    broadcast use vstd::seq_lib::group_to_multiset_ensures;

    if t.len() == 0 {
        assert(seq![x] =~= Seq::<T>::empty().push(x));
    } else if !le(t.last(), x) {
        lemma_insert_sorted_multiset(t.drop_last(), x, le);
        assert(t.drop_last().push(t.last()) =~= t);
    }
}

/// Sorting keeps the elements, with their multiplicities.
pub proof fn lemma_stable_sort_multiset<T>(s: Seq<T>, le: spec_fn(T, T) -> bool)
    ensures
        stable_sort(s, le).to_multiset() =~= s.to_multiset(),
    decreases s.len(),
{
    broadcast use vstd::seq_lib::group_to_multiset_ensures;

    if s.len() > 0 {
        lemma_stable_sort_multiset(s.drop_last(), le);
        lemma_insert_sorted_multiset(stable_sort(s.drop_last(), le), s.last(), le);
        assert(s.drop_last().push(s.last()) =~= s);
    }
}

/// Inserting into a sorted sequence keeps it sorted.
proof fn lemma_insert_sorted_sorted<T>(t: Seq<T>, x: T, le: spec_fn(T, T) -> bool)
    requires
        is_total_preorder(le),
        sorted_by(t, le),
    ensures
        sorted_by(insert_sorted(t, x, le), le),
    decreases t.len(),
{
    if t.len() == 0 {
    } else if le(t.last(), x) {
        let r = t.push(x);
        assert forall|i: int, j: int| 0 <= i < j < r.len() implies le(#[trigger] r[i], #[trigger] r[j]) by {
            if j == t.len() {
                if i < t.len() - 1 {
                    assert(le(t[i], t[t.len() - 1]));
                }
            } else {
                assert(le(t[i], t[j]));
            }
        }
    } else {
        let rest = t.drop_last();
        assert(sorted_by(rest, le)) by {
            assert forall|i: int, j: int| 0 <= i < j < rest.len() implies le(#[trigger] rest[i], #[trigger] rest[j]) by {
                assert(le(t[i], t[j]));
            }
        }
        lemma_insert_sorted_sorted(rest, x, le);
        let m = insert_sorted(rest, x, le);
        lemma_insert_sorted_len(rest, x, le);
        let r = m.push(t.last());
        assert(le(x, t.last()));
        assert forall|i: int, j: int| 0 <= i < j < r.len() implies le(#[trigger] r[i], #[trigger] r[j]) by {
            if j == m.len() {
                assert(m.contains(m[i]));
                lemma_insert_sorted_contains(rest, x, le, m[i]);
                if m[i] != x {
                    let k = choose|k: int| 0 <= k < rest.len() && rest[k] == m[i];
                    assert(le(t[k], t[t.len() - 1]));
                }
            } else {
                assert(le(m[i], m[j]));
            }
        }
    }
}

/// Under a total preorder, the sort's result is sorted.
pub proof fn lemma_stable_sort_sorted<T>(s: Seq<T>, le: spec_fn(T, T) -> bool)
    requires
        is_total_preorder(le),
    ensures
        sorted_by(stable_sort(s, le), le),
    decreases s.len(),
{
    if s.len() > 0 {
        lemma_stable_sort_sorted(s.drop_last(), le);
        lemma_insert_sorted_sorted(stable_sort(s.drop_last(), le), s.last(), le);
    }
}

/// Under a total order, two sorted sequences with the same elements are
/// the same sequence.
proof fn lemma_sorted_unique<T>(a: Seq<T>, b: Seq<T>, le: spec_fn(T, T) -> bool)
    requires
        is_total_order(le),
        sorted_by(a, le),
        sorted_by(b, le),
        a.to_multiset() == b.to_multiset(),
    ensures
        a == b,
    decreases a.len(),
{
    broadcast use vstd::seq_lib::group_to_multiset_ensures;

    assert(a.len() == a.to_multiset().len());
    assert(b.len() == b.to_multiset().len());
    if a.len() > 0 {
        let n = a.len() - 1;
        let x = a.last();
        let y = b.last();
        assert(a.contains(x));
        assert(a.to_multiset().count(x) > 0);
        assert(b.contains(x));
        let i = choose|i: int| 0 <= i < b.len() && b[i] == x;
        if i < n {
            assert(le(b[i], b[n]));
        } else {
            assert(le(x, x) || le(x, x));
        }
        assert(le(x, y));
        assert(b.contains(y));
        assert(b.to_multiset().count(y) > 0);
        assert(a.contains(y));
        let j = choose|j: int| 0 <= j < a.len() && a[j] == y;
        if j < n {
            assert(le(a[j], a[n]));
        } else {
            assert(le(y, y) || le(y, y));
        }
        assert(le(y, x));
        assert(x == y);
        assert(a.remove(n) =~= a.drop_last());
        assert(b.remove(n) =~= b.drop_last());
        assert(a.drop_last().to_multiset() =~= b.drop_last().to_multiset());
        assert(sorted_by(a.drop_last(), le)) by {
            assert forall|p: int, q: int| 0 <= p < q < a.drop_last().len() implies le(
                #[trigger] a.drop_last()[p],
                #[trigger] a.drop_last()[q],
            ) by {
                assert(le(a[p], a[q]));
            }
        }
        assert(sorted_by(b.drop_last(), le)) by {
            assert forall|p: int, q: int| 0 <= p < q < b.drop_last().len() implies le(
                #[trigger] b.drop_last()[p],
                #[trigger] b.drop_last()[q],
            ) by {
                assert(le(b[p], b[q]));
            }
        }
        lemma_sorted_unique(a.drop_last(), b.drop_last(), le);
        assert(a =~= a.drop_last().push(x));
        assert(b =~= b.drop_last().push(y));
    } else {
        assert(a =~= b);
    }
}

/// Under a total order, sorting forgets the order of its input: inputs with
/// the same elements sort to the same sequence.
pub proof fn lemma_stable_sort_permutation<T>(s1: Seq<T>, s2: Seq<T>, le: spec_fn(T, T) -> bool)
    requires
        is_total_order(le),
        s1.to_multiset() == s2.to_multiset(),
    ensures
        stable_sort(s1, le) == stable_sort(s2, le),
{
    lemma_stable_sort_multiset(s1, le);
    lemma_stable_sort_multiset(s2, le);
    lemma_stable_sort_sorted(s1, le);
    lemma_stable_sort_sorted(s2, le);
    lemma_sorted_unique(stable_sort(s1, le), stable_sort(s2, le), le);
}

} // verus!
