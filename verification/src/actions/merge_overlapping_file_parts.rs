//! Merges overlapping code regions before they are cut out of a file.

use vstd::prelude::*;

use crate::data_types::{part_le, part_less_or_equal, Part};
use crate::utils::sorting::{
    insert_sorted, is_total_order, lemma_insert_sorted_split, lemma_stable_sort_permutation, stable_sort,
};

verus! {

/// `p` ends no earlier than it starts, so it is a region of the file.
pub open spec fn is_region(p: Part) -> bool {
    p.line_end > p.line_start || (p.line_end == p.line_start && p.col_end >= p.col_start)
}

/// True if `bigger` fully contains `smaller`: `smaller` is a region that
/// starts no earlier than `bigger` starts and ends no later than `bigger`
/// ends.
pub open spec fn spec_does_include(bigger: Part, smaller: Part) -> bool {
    is_region(smaller) && !begins_before(smaller, bigger) && ends_not_before(bigger, smaller)
}

/// `a` begins strictly before `b`.
pub open spec fn begins_before(a: Part, b: Part) -> bool {
    (a.line_start < b.line_start) || (a.line_start == b.line_start && a.col_start < b.col_start)
}

/// (the part that begins first, the other part); on a tie, the first argument comes first.
pub open spec fn spec_sort_parts(bigger: Part, smaller: Part) -> (Part, Part) {
    if begins_before(smaller, bigger) {
        (smaller, bigger)
    } else {
        (bigger, smaller)
    }
}

/// The first part (in begin order) runs past the start of the second.
pub open spec fn spec_does_overlap(p1: Part, p2: Part) -> bool {
    let (b, s) = spec_sort_parts(p1, p2);
    (b.line_end > s.line_start) || (b.line_end == s.line_start && b.col_end > s.col_start)
}

/// The union of two overlapping parts: it starts where the earlier one
/// starts and ends where the one with the later end line ends (on equal end
/// lines, at the larger end column).
pub open spec fn spec_merge_parts(p1: Part, p2: Part) -> Option<Part> {
    let (a, b) = spec_sort_parts(p1, p2);
    if (a.line_end > b.line_start) || (a.line_end == b.line_start && a.col_end > b.col_start) {
        let (line_end, col_end) = if a.line_end > b.line_end {
            (a.line_end, a.col_end)
        } else if a.line_end < b.line_end {
            (b.line_end, b.col_end)
        } else {
            (a.line_end, if a.col_end >= b.col_end { a.col_end } else { b.col_end })
        };
        Some(Part { line_start: a.line_start, line_end, col_start: a.col_start, col_end })
    } else {
        None
    }
}

pub fn does_include(bigger: Part, smaller: Part) -> (r: bool)
    ensures
        r == spec_does_include(bigger, smaller),
{
    let region = (smaller.line_end > smaller.line_start) || (smaller.line_end
        == smaller.line_start && smaller.col_end >= smaller.col_start);
    let starts_earlier = (bigger.line_start < smaller.line_start) || (bigger.line_start
        == smaller.line_start && bigger.col_start <= smaller.col_start);
    let ends_later = (bigger.line_end > smaller.line_end) || (bigger.line_end
        == smaller.line_end && bigger.col_end >= smaller.col_end);
    region && starts_earlier && ends_later
}

/// Returns (part that begins first, the other part).
pub fn sort_parts(bigger: Part, smaller: Part) -> (r: (Part, Part))
    ensures
        r == spec_sort_parts(bigger, smaller),
{
    if (smaller.line_start < bigger.line_start) || (smaller.line_start == bigger.line_start
        && smaller.col_start < bigger.col_start) {
        (smaller, bigger)
    } else {
        (bigger, smaller)
    }
}

pub fn does_overlap(p1: Part, p2: Part) -> (r: bool)
    ensures
        r == spec_does_overlap(p1, p2),
{
    let (b, s) = sort_parts(p1, p2);
    (b.line_end > s.line_start) || (b.line_end == s.line_start && b.col_end > s.col_start)
}

pub fn merge_parts(p1: Part, p2: Part) -> (r: Option<Part>)
    ensures
        r == spec_merge_parts(p1, p2),
{
    let (a, b) = sort_parts(p1, p2);
    if (a.line_end > b.line_start) || (a.line_end == b.line_start && a.col_end > b.col_start) {
        let line_start = a.line_start;
        let col_start = a.col_start;
        let (line_end, col_end) = if a.line_end > b.line_end {
            (a.line_end, a.col_end)
        } else if a.line_end < b.line_end {
            (b.line_end, b.col_end)
        } else {
            (a.line_end, if a.col_end >= b.col_end { a.col_end } else { b.col_end })
        };
        Some(Part::new(line_start, line_end, col_start, col_end))
    } else {
        None
    }
}

/// The order in which parts are processed.
pub open spec fn part_order() -> spec_fn(Part, Part) -> bool {
    |a: Part, b: Part| part_le(a, b)
}

/// The index of the first kept part that either contains `p` or overlaps it.
pub open spec fn first_touching(kept: Seq<Part>, p: Part, from: int) -> Option<int>
    decreases kept.len() - from,
{
    if from < 0 || from >= kept.len() {
        None
    } else if spec_does_include(kept[from], p) || spec_does_overlap(kept[from], p) {
        Some(from)
    } else {
        first_touching(kept, p, from + 1)
    }
}

/// A found index is in range.
pub proof fn lemma_first_touching_in_range(kept: Seq<Part>, p: Part, from: int)
    ensures
        first_touching(kept, p, from) matches Some(j) ==> from <= j < kept.len()
            && (spec_does_include(kept[j], p) || spec_does_overlap(kept[j], p)),
    decreases kept.len() - from,
{
    if 0 <= from < kept.len() {
        lemma_first_touching_in_range(kept, p, from + 1);
    }
}

/// One step of the merge: a part contained in the first part it touches is
/// dropped; one that overlaps it replaces that part by their union, moved to
/// the end; one that touches nothing is appended.
pub open spec fn merge_step(kept: Seq<Part>, p: Part) -> Seq<Part> {
    match first_touching(kept, p, 0) {
        None => kept.push(p),
        Some(j) => if spec_does_include(kept[j], p) {
            kept
        } else {
            match spec_merge_parts(kept[j], p) {
                Some(merged) => kept.remove(j).push(merged),
                None => kept.push(p),
            }
        },
    }
}

/// Folds `merge_step` over `parts`.
pub open spec fn merge_all(parts: Seq<Part>) -> Seq<Part>
    decreases parts.len(),
{
    if parts.len() == 0 {
        Seq::empty()
    } else {
        merge_step(merge_all(parts.drop_last()), parts.last())
    }
}

/// What `merge_overlapping_file_parts` returns: the merge of the parts in sorted order.
pub open spec fn spec_merge_overlapping_file_parts(parts: Seq<Part>) -> Seq<Part> {
    merge_all(stable_sort(parts, part_order()))
}

/// Sorts parts into the order of parts.
pub fn sorted_parts(parts: &[Part]) -> (r: Vec<Part>)
    ensures
        r@ == stable_sort(parts@, part_order()),
{
    let mut v: Vec<Part> = Vec::new();
    for i in 0..parts.len()
        invariant
            v@ == stable_sort(parts@.take(i as int), part_order()),
    {
        let x = parts[i];
        let ghost t = v@;
        assert(parts@.take(i + 1).drop_last() =~= parts@.take(i as int));
        v.push(x);
        let mut j = v.len() - 1;
        while j > 0 && !part_less_or_equal(v[j - 1], x)
            invariant
                0 <= j < v.len(),
                v.len() == t.len() + 1,
                v@ == t.take(j as int).push(x) + t.skip(j as int),
                forall|k: int| j <= k < t.len() ==> !part_le(#[trigger] t[k], x),
            decreases j,
        {
            let prev = v[j - 1];
            assert(prev == t[j - 1]);
            v.set(j - 1, x);
            v.set(j, prev);
            j = j - 1;
            assert(v@ =~= t.take(j as int).push(x) + t.skip(j as int));
        }
        proof {
            lemma_insert_sorted_split(t, x, part_order(), j as int);
            if j > 0 {
                assert(t.take(j as int).last() == t[j - 1]);
            }
            assert(insert_sorted(t.take(j as int), x, part_order()) == t.take(j as int).push(x));
        }
    }
    assert(parts@.take(parts.len() as int) =~= parts@);
    v
}

/// Finds the first kept part that contains or overlaps `p`.
fn find_first_touching(kept: &Vec<Part>, p: Part) -> (r: Option<usize>)
    ensures
        r matches Some(j) ==> first_touching(kept@, p, 0) == Some(j as int),
        r is None ==> first_touching(kept@, p, 0) is None,
{
    let mut j: usize = 0;
    while j < kept.len()
        invariant
            j <= kept.len(),
            first_touching(kept@, p, 0) == first_touching(kept@, p, j as int),
        decreases kept.len() - j,
    {
        if does_include(kept[j], p) || does_overlap(kept[j], p) {
            return Some(j);
        }
        j = j + 1;
    }
    None
}

/// Sorts `overlapping_file_parts` and folds them into a list of parts in
/// which no part contains or overlaps an earlier one it touched first.
pub fn merge_overlapping_file_parts(overlapping_file_parts: &[Part]) -> (r: Vec<Part>)
    ensures
        r@ == spec_merge_overlapping_file_parts(overlapping_file_parts@),
{
    let sorted = sorted_parts(overlapping_file_parts);
    let mut non_overlapping: Vec<Part> = Vec::new();
    for i in 0..sorted.len()
        invariant
            non_overlapping@ == merge_all(sorted@.take(i as int)),
    {
        let p1 = sorted[i];
        assert(sorted@.take(i + 1).drop_last() =~= sorted@.take(i as int));
        proof {
            lemma_first_touching_in_range(non_overlapping@, p1, 0);
        }
        match find_first_touching(&non_overlapping, p1) {
            None => {
                non_overlapping.push(p1);
            },
            Some(j) => {
                if does_include(non_overlapping[j], p1) {
                } else {
                    match merge_parts(non_overlapping[j], p1) {
                        Some(merged) => {
                            non_overlapping.remove(j);
                            non_overlapping.push(merged);
                        },
                        None => {
                            non_overlapping.push(p1);
                        },
                    }
                }
            },
        }
    }
    assert(sorted@.take(sorted.len() as int) =~= sorted@);
    non_overlapping
}

/// Two parts merge exactly when they overlap.
pub proof fn law_merge_exactly_when_overlapping(p1: Part, p2: Part)
    ensures
        spec_merge_parts(p1, p2) is Some <==> spec_does_overlap(p1, p2),
{
}

/// The end position (line, column) of `a` is not before that of `b`.
pub open spec fn ends_not_before(a: Part, b: Part) -> bool {
    a.line_end > b.line_end || (a.line_end == b.line_end && a.col_end >= b.col_end)
}

/// A merged part starts where the earlier of the two starts (the first
/// argument on a tie) and ends no earlier than either of them.
pub proof fn law_merged_part_covers_both(p1: Part, p2: Part)
    requires
        spec_does_overlap(p1, p2),
    ensures
        spec_merge_parts(p1, p2) matches Some(m) && {
            let first = spec_sort_parts(p1, p2).0;
            &&& m.line_start == first.line_start
            &&& m.col_start == first.col_start
            &&& !begins_before(p1, m) && !begins_before(p2, m)
            &&& ends_not_before(m, p1) && ends_not_before(m, p2)
        },
{
}

/// Overlap does not depend on the order of the arguments when the two parts
/// begin at different positions.
pub proof fn law_overlap_symmetric(p1: Part, p2: Part)
    requires
        p1.line_start != p2.line_start || p1.col_start != p2.col_start,
    ensures
        spec_does_overlap(p1, p2) == spec_does_overlap(p2, p1),
{
}

/// Merging does not depend on the order of the arguments when the two parts
/// begin at different positions.
pub proof fn law_merge_commutative(p1: Part, p2: Part)
    requires
        p1.line_start != p2.line_start || p1.col_start != p2.col_start,
    ensures
        spec_merge_parts(p1, p2) == spec_merge_parts(p2, p1),
{
}

/// `s` is in the order of parts.
pub open spec fn parts_sorted(s: Seq<Part>) -> bool {
    forall|i: int, j: int| 0 <= i < j < s.len() ==> part_le(#[trigger] s[i], #[trigger] s[j])
}

/// No part of `s` contains or overlaps a later one.
pub open spec fn parts_apart(s: Seq<Part>) -> bool {
    forall|i: int, j: int|
        0 <= i < j < s.len() ==> !spec_does_include(#[trigger] s[i], #[trigger] s[j])
            && !spec_does_overlap(s[i], s[j])
}

proof fn lemma_sorted_is_fixed(s: Seq<Part>)
    requires
        parts_sorted(s),
    ensures
        stable_sort(s, part_order()) == s,
    decreases s.len(),
{
    if s.len() > 0 {
        let t = s.drop_last();
        assert(parts_sorted(t));
        lemma_sorted_is_fixed(t);
        if t.len() > 0 {
            assert(part_le(t.last(), s.last()));
        }
        assert(t.push(s.last()) =~= s);
    }
}

proof fn lemma_untouched(kept: Seq<Part>, p: Part, from: int)
    requires
        0 <= from,
        forall|k: int|
            0 <= k < kept.len() ==> !spec_does_include(#[trigger] kept[k], p)
                && !spec_does_overlap(kept[k], p),
    ensures
        first_touching(kept, p, from) is None,
    decreases kept.len() - from,
{
    if from < kept.len() {
        lemma_untouched(kept, p, from + 1);
    }
}

proof fn lemma_apart_is_fixed(s: Seq<Part>)
    requires
        parts_apart(s),
    ensures
        merge_all(s) == s,
    decreases s.len(),
{
    if s.len() > 0 {
        let t = s.drop_last();
        assert(parts_apart(t));
        lemma_apart_is_fixed(t);
        assert forall|k: int| 0 <= k < t.len() implies !spec_does_include(#[trigger] t[k], s.last())
            && !spec_does_overlap(t[k], s.last()) by {
            assert(t[k] == s[k]);
            assert(s.last() == s[s.len() - 1]);
        }
        lemma_untouched(t, s.last(), 0);
        assert(t.push(s.last()) =~= s);
    }
}

/// Parts that are already in order and of which none contains or overlaps a
/// later one come back unchanged.
pub proof fn law_apart_parts_unchanged(s: Seq<Part>)
    requires
        parts_sorted(s),
        parts_apart(s),
    ensures
        spec_merge_overlapping_file_parts(s) == s,
{
    lemma_sorted_is_fixed(s);
    lemma_apart_is_fixed(s);
}

/// The order of parts is a total order.
pub proof fn lemma_part_order_total()
    ensures
        is_total_order(part_order()),
{
    assert forall|a: Part, b: Part| #[trigger] part_order()(a, b) && part_order()(b, a) implies a == b by {
        assert(part_le(a, b) && part_le(b, a));
    }
}

/// The order in which the parts are given does not matter: the same parts,
/// given in any order, merge to the same parts.
pub proof fn law_merge_ignores_part_order(p1: Seq<Part>, p2: Seq<Part>)
    requires
        p1.to_multiset() == p2.to_multiset(),
    ensures
        spec_merge_overlapping_file_parts(p1) == spec_merge_overlapping_file_parts(p2),
{
    lemma_part_order_total();
    lemma_stable_sort_permutation(p1, p2, part_order());
}

} // verus!
