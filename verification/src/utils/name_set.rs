//! Character-wise lexicographic order on strings, and a set of names kept
//! sorted in that order.

use vstd::prelude::*;

use crate::utils::text::{chars_of, string_views};

verus! {

/// `a` sorts strictly before `b`, comparing characters by code point and a
/// proper prefix before its extensions (the order of `str`'s `Ord`).
pub open spec fn char_lt(a: Seq<char>, b: Seq<char>) -> bool
    decreases a.len(),
{
    if a.len() == 0 {
        b.len() > 0
    } else if b.len() == 0 {
        false
    } else if a[0] != b[0] {
        a[0] < b[0]
    } else {
        char_lt(a.drop_first(), b.drop_first())
    }
}

/// Nothing sorts before itself.
pub proof fn lemma_char_lt_irreflexive(a: Seq<char>)
    ensures
        !char_lt(a, a),
    decreases a.len(),
{
    if a.len() > 0 {
        lemma_char_lt_irreflexive(a.drop_first());
    }
}

/// The order is transitive.
pub proof fn lemma_char_lt_transitive(a: Seq<char>, b: Seq<char>, c: Seq<char>)
    requires
        char_lt(a, b),
        char_lt(b, c),
    ensures
        char_lt(a, c),
    decreases a.len(),
{
    if a.len() > 0 && b.len() > 0 && c.len() > 0 && a[0] == b[0] && b[0] == c[0] {
        lemma_char_lt_transitive(a.drop_first(), b.drop_first(), c.drop_first());
    }
}

/// Two different strings are ordered one way or the other.
pub proof fn lemma_char_lt_total(a: Seq<char>, b: Seq<char>)
    ensures
        a == b || char_lt(a, b) || char_lt(b, a),
    decreases a.len(),
{
    if a.len() > 0 && b.len() > 0 && a[0] == b[0] {
        lemma_char_lt_total(a.drop_first(), b.drop_first());
        if a.drop_first() == b.drop_first() {
            assert(a =~= seq![a[0]] + a.drop_first());
            assert(b =~= seq![b[0]] + b.drop_first());
        }
    } else if a.len() > 0 && b.len() > 0 {
    } else if a.len() == 0 && b.len() == 0 {
        assert(a =~= b);
    }
}

/// Whether `a` sorts strictly before `b`.
pub fn chars_less(a: &[char], b: &[char]) -> (r: bool)
    ensures
        r == char_lt(a@, b@),
{
    let mut i: usize = 0;
    assert(a@.skip(0) =~= a@ && b@.skip(0) =~= b@);
    while i < a.len() && i < b.len() && a[i] == b[i]
        invariant
            i <= a.len(),
            i <= b.len(),
            char_lt(a@, b@) == char_lt(a@.skip(i as int), b@.skip(i as int)),
        decreases a.len() - i,
    {
        assert(a@.skip(i as int).drop_first() =~= a@.skip(i + 1));
        assert(b@.skip(i as int).drop_first() =~= b@.skip(i + 1));
        i = i + 1;
    }
    let ghost sa = a@.skip(i as int);
    let ghost sb = b@.skip(i as int);
    assert(sa.len() == a.len() - i && sb.len() == b.len() - i);
    if i < a.len() && i < b.len() {
        assert(sa[0] == a@[i as int] && sb[0] == b@[i as int]);
    }
    if i == a.len() {
        assert(char_lt(sa, sb) == (sb.len() > 0));
        i < b.len()
    } else if i == b.len() {
        assert(!char_lt(sa, sb));
        false
    } else {
        assert(sa[0] != sb[0]);
        a[i] < b[i]
    }
}

/// A set of names, held sorted and without repetitions.
pub struct NameSet {
    names: Vec<String>,
}

impl NameSet {
    /// The names held.
    pub closed spec fn set(&self) -> Set<Seq<char>> {
        string_views(self.names@).to_set()
    }

    /// Strictly increasing.
    #[verifier::type_invariant]
    closed spec fn sorted(&self) -> bool {
        forall|i: int, j: int|
            0 <= i < j < self.names@.len() ==> char_lt(
                #[trigger] self.names@[i]@,
                #[trigger] self.names@[j]@,
            )
    }

    pub fn new() -> (r: Self)
        ensures
            r.set() == Set::<Seq<char>>::empty(),
    {
        let r = NameSet { names: Vec::new() };
        assert(r.set() =~= Set::<Seq<char>>::empty());
        r
    }

    /// The first position whose name does not sort before `x`.
    fn lower_bound(&self, x: &[char]) -> (r: usize)
        ensures
            r <= self.names@.len(),
            forall|k: int| 0 <= k < r ==> char_lt(#[trigger] self.names@[k]@, x@),
            forall|k: int| r <= k < self.names@.len() ==> !char_lt(#[trigger] self.names@[k]@, x@),
    {
        proof {
            use_type_invariant(self);
        }
        let mut lo: usize = 0;
        let mut hi: usize = self.names.len();
        while lo < hi
            invariant
                lo <= hi <= self.names@.len(),
                self.sorted(),
                forall|k: int| 0 <= k < lo ==> char_lt(#[trigger] self.names@[k]@, x@),
                forall|k: int| hi <= k < self.names@.len() ==> !char_lt(#[trigger] self.names@[k]@, x@),
            decreases hi - lo,
        {
            let mid = lo + (hi - lo) / 2;
            let m = chars_of(self.names[mid].as_str());
            if chars_less(m.as_slice(), x) {
                assert forall|k: int| 0 <= k <= mid implies char_lt(#[trigger] self.names@[k]@, x@) by {
                    if k < mid {
                        lemma_char_lt_transitive(self.names@[k]@, self.names@[mid as int]@, x@);
                    }
                }
                lo = mid + 1;
            } else {
                assert forall|k: int| mid <= k < self.names@.len() implies !char_lt(
                    #[trigger] self.names@[k]@,
                    x@,
                ) by {
                    if k > mid && char_lt(self.names@[k]@, x@) {
                        lemma_char_lt_transitive(self.names@[mid as int]@, self.names@[k]@, x@);
                    }
                }
                hi = mid;
            }
        }
        lo
    }

    /// Whether `name` is in the set.
    pub fn contains(&self, name: &str) -> (r: bool)
        ensures
            r == self.set().contains(name@),
    {
        proof {
            use_type_invariant(self);
        }
        let x = chars_of(name);
        let i = self.lower_bound(x.as_slice());
        let found = i < self.names.len() && self.names[i] == name.to_owned();
        proof {
            if found {
                assert(string_views(self.names@)[i as int] == name@);
            } else if self.set().contains(name@) {
                let k = choose|k: int| 0 <= k < self.names@.len() && string_views(self.names@)[k] == name@;
                assert(self.names@[k]@ == name@);
                lemma_char_lt_irreflexive(name@);
                assert(k >= i);
                assert(i < self.names@.len());
                lemma_char_lt_total(self.names@[i as int]@, x@);
                assert(self.names@[i as int]@ != x@);
                assert(char_lt(x@, self.names@[i as int]@));
                assert(k > i);
                lemma_char_lt_transitive(x@, self.names@[i as int]@, self.names@[k]@);
                assert(false);
            }
        }
        found
    }

    /// Adds `name` to the set.
    pub fn insert(&mut self, name: &str)
        ensures
            final(self).set() == old(self).set().insert(name@),
    {
        proof {
            use_type_invariant(&*self);
        }
        let x = chars_of(name);
        let i = self.lower_bound(x.as_slice());
        if i < self.names.len() && self.names[i] == name.to_owned() {
            proof {
                assert(string_views(self.names@)[i as int] == name@);
                assert(self.set().insert(name@) =~= self.set());
            }
            return;
        }
        let ghost old_names = self.names@;
        proof {
            if i < old_names.len() {
                lemma_char_lt_total(old_names[i as int]@, x@);
            }
        }
        let s = name.to_owned();
        let mut names = Vec::new();
        std::mem::swap(&mut names, &mut self.names);
        names.insert(i, s);
        assert(names@ == old_names.insert(i as int, s));
        proof {
            assert forall|a: int, b: int| 0 <= a < b < names@.len() implies char_lt(
                #[trigger] names@[a]@,
                #[trigger] names@[b]@,
            ) by {
                if a < i && b == i {
                } else if a < i && b > i {
                    assert(names@[b] == old_names[b - 1]);
                } else if a == i {
                    assert(names@[b] == old_names[b - 1]);
                    if b - 1 > i {
                        lemma_char_lt_transitive(x@, old_names[i as int]@, old_names[b - 1]@);
                    }
                } else if a > i {
                    assert(names@[a] == old_names[a - 1]);
                    assert(names@[b] == old_names[b - 1]);
                }
            }
            assert(string_views(names@).to_set() =~= string_views(old_names).to_set().insert(name@)) by {
                assert forall|v: Seq<char>| #[trigger] string_views(names@).to_set().contains(v) implies string_views(
                    old_names,
                ).to_set().insert(name@).contains(v) by {
                    let k = choose|k: int| 0 <= k < names@.len() && string_views(names@)[k] == v;
                    if k < i {
                        assert(string_views(old_names)[k] == v);
                    } else if k > i {
                        assert(string_views(old_names)[k - 1] == v);
                    }
                }
                assert forall|v: Seq<char>| #[trigger] string_views(old_names).to_set().insert(
                    name@,
                ).contains(v) implies string_views(names@).to_set().contains(v) by {
                    if v == name@ {
                        assert(string_views(names@)[i as int] == v);
                    } else {
                        let k = choose|k: int| 0 <= k < old_names.len() && string_views(old_names)[k] == v;
                        if k < i {
                            assert(string_views(names@)[k] == v);
                        } else {
                            assert(string_views(names@)[k + 1] == v);
                        }
                    }
                }
            }
        }
        self.names = names;
    }
}

} // verus!
