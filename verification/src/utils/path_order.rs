//! The order of paths as `Path`'s `Ord` has it: component by component,
//! with the root before `.` before `..` before any name, and names in the
//! order of their characters.

use vstd::prelude::*;

use crate::utils::name_set::{
    char_lt, chars_less, lemma_char_lt_irreflexive, lemma_char_lt_total, lemma_char_lt_transitive,
};
use crate::utils::path_utils::{components, parent_dir, path_components};
use crate::utils::sorting::{
    insert_sorted, is_total_preorder, lemma_insert_sorted_split, lemma_stable_sort_len,
    lemma_stable_sort_sorted, sorted_by, stable_sort,
};
use crate::utils::text::{char_views, chars_eq, chars_of, string_views};

verus! {

/// A path's components as `Path::components` yields them, each with its
/// rank: the root of an absolute path, a leading `.` of a relative path,
/// then the pieces between separators that are neither empty nor `.`.
pub open spec fn ranked_components(path: Seq<char>) -> Seq<(int, Seq<char>)> {
    let lead: Seq<(int, Seq<char>)> = if path.len() > 0 && path[0] == '/' {
        seq![(0int, Seq::<char>::empty())]
    } else if path.len() > 0 && path[0] == '.' && (path.len() == 1 || path[1] == '/') {
        seq![(1int, Seq::<char>::empty())]
    } else {
        Seq::empty()
    };
    lead + path_components(path).map_values(
        |c: Seq<char>|
            if c == parent_dir() {
                (2int, Seq::<char>::empty())
            } else {
                (3int, c)
            },
    )
}

/// One ranked component sorts before another.
pub open spec fn component_lt(a: (int, Seq<char>), b: (int, Seq<char>)) -> bool {
    a.0 < b.0 || (a.0 == b.0 && char_lt(a.1, b.1))
}

/// Lexicographic order on ranked components.
pub open spec fn components_lt(a: Seq<(int, Seq<char>)>, b: Seq<(int, Seq<char>)>) -> bool
    decreases a.len(),
{
    if a.len() == 0 {
        b.len() > 0
    } else if b.len() == 0 {
        false
    } else if a[0] != b[0] {
        component_lt(a[0], b[0])
    } else {
        components_lt(a.drop_first(), b.drop_first())
    }
}

/// No ranked component sorts before itself.
proof fn lemma_component_lt_irreflexive(a: (int, Seq<char>))
    ensures
        !component_lt(a, a),
{
    lemma_char_lt_irreflexive(a.1);
}

/// The order on ranked components is transitive.
proof fn lemma_component_lt_transitive(a: (int, Seq<char>), b: (int, Seq<char>), c: (int, Seq<char>))
    requires
        component_lt(a, b),
        component_lt(b, c),
    ensures
        component_lt(a, c),
{
    if a.0 == b.0 && b.0 == c.0 {
        lemma_char_lt_transitive(a.1, b.1, c.1);
    }
}

/// Of two different ranked components, one sorts before the other.
proof fn lemma_component_lt_total(a: (int, Seq<char>), b: (int, Seq<char>))
    ensures
        a == b || component_lt(a, b) || component_lt(b, a),
{
    lemma_char_lt_total(a.1, b.1);
}

/// No component sequence sorts before itself.
pub proof fn lemma_components_lt_irreflexive(a: Seq<(int, Seq<char>)>)
    ensures
        !components_lt(a, a),
    decreases a.len(),
{
    if a.len() > 0 {
        lemma_components_lt_irreflexive(a.drop_first());
    }
}

/// The order on component sequences is transitive.
pub proof fn lemma_components_lt_transitive(
    a: Seq<(int, Seq<char>)>,
    b: Seq<(int, Seq<char>)>,
    c: Seq<(int, Seq<char>)>,
)
    requires
        components_lt(a, b),
        components_lt(b, c),
    ensures
        components_lt(a, c),
    decreases a.len(),
{
    if a.len() > 0 && b.len() > 0 && c.len() > 0 {
        if a[0] == b[0] && b[0] == c[0] {
            lemma_components_lt_transitive(a.drop_first(), b.drop_first(), c.drop_first());
        } else if a[0] != b[0] && b[0] != c[0] {
            lemma_component_lt_transitive(a[0], b[0], c[0]);
            if a[0] == c[0] {
                lemma_component_lt_transitive(a[0], b[0], a[0]);
                lemma_component_lt_irreflexive(a[0]);
            }
        }
    }
}

/// Of two different component sequences, one sorts before the other.
pub proof fn lemma_components_lt_total(a: Seq<(int, Seq<char>)>, b: Seq<(int, Seq<char>)>)
    ensures
        a == b || components_lt(a, b) || components_lt(b, a),
    decreases a.len(),
{
    if a.len() > 0 && b.len() > 0 {
        if a[0] == b[0] {
            lemma_components_lt_total(a.drop_first(), b.drop_first());
            if a.drop_first() == b.drop_first() {
                assert(a =~= b) by {
                    assert(a.len() == a.drop_first().len() + 1);
                    assert(b.len() == b.drop_first().len() + 1);
                    assert forall|i: int| 0 <= i < a.len() implies a[i] == b[i] by {
                        if i > 0 {
                            assert(a[i] == a.drop_first()[i - 1]);
                            assert(b[i] == b.drop_first()[i - 1]);
                        }
                    }
                }
            }
        } else {
            lemma_component_lt_total(a[0], b[0]);
        }
    } else if a.len() == 0 && b.len() == 0 {
        assert(a =~= b);
    }
}

/// The path `a` sorts before the path `b`.
pub open spec fn path_lt(a: Seq<char>, b: Seq<char>) -> bool {
    components_lt(ranked_components(a), ranked_components(b))
}

/// The two paths have the same components.
pub open spec fn path_eq(a: Seq<char>, b: Seq<char>) -> bool {
    ranked_components(a) == ranked_components(b)
}

/// A path's ranked components, as ranks and names.
fn ranked(path: &str) -> (r: (Vec<u8>, Vec<Vec<char>>))
    ensures
        r.0@.len() == r.1@.len(),
        r.0@.len() == ranked_components(path@).len(),
        forall|i: int|
            0 <= i < r.0@.len() ==> (#[trigger] ranked_components(path@)[i]) == (
            r.0@[i] as int,
            r.1@[i]@,
            ),
{
    let p = chars_of(path);
    let comps = components(p.as_slice());
    let ghost cv = char_views(comps@);
    let mut ranks: Vec<u8> = Vec::new();
    let mut names: Vec<Vec<char>> = Vec::new();
    let ghost lead: Seq<(int, Seq<char>)> = if p@.len() > 0 && p@[0] == '/' {
        seq![(0int, Seq::<char>::empty())]
    } else if p@.len() > 0 && p@[0] == '.' && (p@.len() == 1 || p@[1] == '/') {
        seq![(1int, Seq::<char>::empty())]
    } else {
        Seq::empty()
    };
    if p.len() > 0 && p[0] == '/' {
        ranks.push(0);
        names.push(Vec::new());
    } else if p.len() > 0 && p[0] == '.' && (p.len() == 1 || p[1] == '/') {
        ranks.push(1);
        names.push(Vec::new());
    }
    let ghost target = ranked_components(path@);
    assert(target =~= lead + cv.map_values(
        |c: Seq<char>|
            if c == parent_dir() {
                (2int, Seq::<char>::empty())
            } else {
                (3int, c)
            },
    ));
    let dd = vec!['.', '.'];
    assert(dd@ =~= parent_dir());
    for i in 0..comps.len()
        invariant
            cv == char_views(comps@),
            dd@ == parent_dir(),
            target == ranked_components(path@),
            target =~= lead + cv.map_values(
                |c: Seq<char>|
                    if c == parent_dir() {
                        (2int, Seq::<char>::empty())
                    } else {
                        (3int, c)
                    },
            ),
            ranks@.len() == names@.len(),
            ranks@.len() == lead.len() + i,
            forall|k: int| 0 <= k < ranks@.len() ==> (#[trigger] target[k]) == (ranks@[k] as int, names@[k]@),
    {
        if chars_eq(comps[i].as_slice(), dd.as_slice()) {
            ranks.push(2);
            names.push(Vec::new());
        } else {
            ranks.push(3);
            names.push(comps[i].clone());
        }
        assert(target[lead.len() + i] == (ranks@[lead.len() + i] as int, names@[lead.len() + i]@));
    }
    (ranks, names)
}

/// Whether the path `a` sorts before the path `b`, and whether they have
/// the same components.
pub fn path_compare(a: &str, b: &str) -> (r: (bool, bool))
    ensures
        r.0 == path_lt(a@, b@),
        r.1 == path_eq(a@, b@),
{
    let (ra, na) = ranked(a);
    let (rb, nb) = ranked(b);
    let ghost ca = ranked_components(a@);
    let ghost cb = ranked_components(b@);
    let mut i: usize = 0;
    assert(ca.skip(0) =~= ca && cb.skip(0) =~= cb);
    while i < ra.len() && i < rb.len() && ra[i] == rb[i] && chars_eq(na[i].as_slice(), nb[i].as_slice())
        invariant
            ra@.len() == na@.len() == ca.len(),
            rb@.len() == nb@.len() == cb.len(),
            forall|k: int| 0 <= k < ca.len() ==> (#[trigger] ca[k]) == (ra@[k] as int, na@[k]@),
            forall|k: int| 0 <= k < cb.len() ==> (#[trigger] cb[k]) == (rb@[k] as int, nb@[k]@),
            i <= ca.len(),
            i <= cb.len(),
            ca.take(i as int) == cb.take(i as int),
            components_lt(ca, cb) == components_lt(ca.skip(i as int), cb.skip(i as int)),
        decreases ca.len() - i,
    {
        assert(ca[i as int] == cb[i as int]);
        assert(ca.skip(i as int).drop_first() =~= ca.skip(i + 1));
        assert(cb.skip(i as int).drop_first() =~= cb.skip(i + 1));
        assert(ca.take(i + 1) =~= ca.take(i as int).push(ca[i as int]));
        assert(cb.take(i + 1) =~= cb.take(i as int).push(cb[i as int]));
        i = i + 1;
    }
    let ghost sa = ca.skip(i as int);
    let ghost sb = cb.skip(i as int);
    if i == ra.len() || i == rb.len() {
        let lt = i == ra.len() && i < rb.len();
        let eq = i == ra.len() && i == rb.len();
        proof {
            if eq {
                assert(ca =~= ca.take(i as int));
                assert(cb =~= cb.take(i as int));
            } else if i < ca.len() || i < cb.len() {
                assert(ca.len() != cb.len());
            }
        }
        (lt, eq)
    } else {
        assert(sa[0] == ca[i as int] && sb[0] == cb[i as int]);
        assert(ca[i as int] != cb[i as int]);
        let lt = ra[i] < rb[i] || (ra[i] == rb[i] && chars_less(na[i].as_slice(), nb[i].as_slice()));
        proof {
            assert(ca[i as int] != cb[i as int] ==> ca != cb);
        }
        (lt, false)
    }
}


/// `a` may stand before `b`: `b` does not sort before it.
pub open spec fn path_le() -> spec_fn(Seq<char>, Seq<char>) -> bool {
    |a: Seq<char>, b: Seq<char>| !path_lt(b, a)
}

/// `path_le` orders any two paths and is transitive.
pub proof fn lemma_path_le_total_preorder()
    ensures
        is_total_preorder(path_le()),
{
    let le = path_le();
    assert forall|a: Seq<char>, b: Seq<char>| #[trigger] le(a, b) || le(b, a) by {
        if path_lt(a, b) && path_lt(b, a) {
            lemma_components_lt_transitive(
                ranked_components(a),
                ranked_components(b),
                ranked_components(a),
            );
            lemma_components_lt_irreflexive(ranked_components(a));
        }
    }
    assert forall|a: Seq<char>, b: Seq<char>, c: Seq<char>|
        #[trigger] le(a, b) && #[trigger] le(b, c) implies le(a, c) by {
        let ra = ranked_components(a);
        let rb = ranked_components(b);
        let rc = ranked_components(c);
        lemma_components_lt_total(ra, rb);
        if components_lt(rc, ra) && components_lt(ra, rb) {
            lemma_components_lt_transitive(rc, ra, rb);
        }
    }
}

/// The paths in `Path`'s order, equal ones in their given order (the
/// order in which tach domain files are merged).
pub fn sort_paths(paths: Vec<String>) -> (r: Vec<String>)
    ensures
        string_views(r@) == stable_sort(string_views(paths@), path_le()),
        sorted_by(string_views(r@), path_le()),
{
    let ghost pv = string_views(paths@);
    let ghost le = path_le();
    let n = paths.len();
    let mut rest = paths;
    let mut out: Vec<String> = Vec::new();
    let mut i: usize = 0;
    assert(pv.skip(0) =~= pv);
    while i < n
        invariant
            i <= n,
            n == pv.len(),
            le == path_le(),
            rest@.len() == n - i,
            string_views(rest@) == pv.skip(i as int),
            string_views(out@) == stable_sort(pv.take(i as int), le),
        decreases n - i,
    {
        let ghost r0 = rest@;
        let x = rest.remove(0);
        assert(x@ == string_views(r0)[0]);
        assert(string_views(rest@) =~= string_views(r0).skip(1));
        assert(pv.skip(i as int).skip(1) =~= pv.skip(i + 1));
        assert(x@ == pv[i as int]);
        let ghost t = string_views(out@);
        proof {
            lemma_stable_sort_len(pv.take(i as int), le);
        }
        let mut j = out.len();
        while j > 0 && path_compare(x.as_str(), out[j - 1].as_str()).0
            invariant
                0 <= j <= out.len(),
                t == string_views(out@),
                le == path_le(),
                forall|k: int| j <= k < t.len() ==> !le(#[trigger] t[k], x@),
            decreases j,
        {
            j = j - 1;
        }
        proof {
            lemma_insert_sorted_split(t, x@, le, j as int);
            if j > 0 {
                assert(le(t[j - 1], x@));
                assert(t.take(j as int).last() == t[j - 1]);
            }
            assert(insert_sorted(t.take(j as int), x@, le) =~= t.take(j as int).push(x@));
        }
        out.insert(j, x);
        assert(string_views(out@) =~= t.take(j as int).push(x@) + t.skip(j as int));
        assert(pv.take(i + 1).drop_last() =~= pv.take(i as int));
        assert(pv.take(i + 1).last() == x@);
        i = i + 1;
    }
    assert(pv.take(n as int) =~= pv);
    proof {
        lemma_path_le_total_preorder();
        lemma_stable_sort_sorted(pv, le);
    }
    out
}

} // verus!
