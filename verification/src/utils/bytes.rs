//! Byte-string helpers with Python's `bytes` semantics (ASCII whitespace only).

use vstd::prelude::*;

verus! {

/// Python's `bytes.strip()` whitespace set: space, tab, LF, CR, VT and FF.
pub open spec fn is_py_ws(b: u8) -> bool {
    b == 32u8 || b == 9u8 || b == 10u8 || b == 13u8 || b == 11u8 || b == 12u8
}

pub fn is_py_whitespace(b: u8) -> (r: bool)
    ensures
        r == is_py_ws(b),
{
    b == 32u8 || b == 9u8 || b == 10u8 || b == 13u8 || b == 11u8 || b == 12u8
}

/// The index of the first non-whitespace byte of `s` at or after `i` (`s.len()` if none).
pub open spec fn first_non_ws(s: Seq<u8>, i: int) -> int
    decreases s.len() - i,
{
    if i < 0 || i >= s.len() {
        s.len() as int
    } else if is_py_ws(s[i]) {
        first_non_ws(s, i + 1)
    } else {
        i
    }
}

/// The end of `s.take(j)` once its trailing whitespace is dropped.
pub open spec fn content_end(s: Seq<u8>, j: int) -> int
    decreases j,
{
    if j <= 0 || j > s.len() {
        0
    } else if is_py_ws(s[j - 1]) {
        content_end(s, j - 1)
    } else {
        j
    }
}

/// `bytes.lstrip()`.
pub open spec fn spec_lstrip(s: Seq<u8>) -> Seq<u8> {
    s.skip(first_non_ws(s, 0))
}

/// `bytes.rstrip()`.
pub open spec fn spec_rstrip(s: Seq<u8>) -> Seq<u8> {
    s.take(content_end(s, s.len() as int))
}

/// `bytes.strip()`.
pub open spec fn spec_strip(s: Seq<u8>) -> Seq<u8> {
    spec_rstrip(spec_lstrip(s))
}

/// `s` starts with `p`.
pub open spec fn starts_with(s: Seq<u8>, p: Seq<u8>) -> bool {
    p.len() <= s.len() && s.take(p.len() as int) == p
}

/// `s` ends with `p`.
pub open spec fn ends_with(s: Seq<u8>, p: Seq<u8>) -> bool {
    p.len() <= s.len() && s.skip(s.len() - p.len()) == p
}

pub proof fn lemma_first_non_ws_bounds(s: Seq<u8>, i: int)
    requires
        0 <= i <= s.len(),
    ensures
        i <= first_non_ws(s, i) <= s.len(),
        forall|k: int| i <= k < first_non_ws(s, i) ==> is_py_ws(#[trigger] s[k]),
        first_non_ws(s, i) < s.len() ==> !is_py_ws(s[first_non_ws(s, i)]),
    decreases s.len() - i,
{
    if i < s.len() && is_py_ws(s[i]) {
        lemma_first_non_ws_bounds(s, i + 1);
    }
}

pub proof fn lemma_content_end_bounds(s: Seq<u8>, j: int)
    requires
        0 <= j <= s.len(),
    ensures
        0 <= content_end(s, j) <= j,
        forall|k: int| content_end(s, j) <= k < j ==> is_py_ws(#[trigger] s[k]),
        content_end(s, j) > 0 ==> !is_py_ws(s[content_end(s, j) - 1]),
    decreases j,
{
    if j > 0 && is_py_ws(s[j - 1]) {
        lemma_content_end_bounds(s, j - 1);
    }
}

/// The number of leading whitespace bytes.
pub fn leading_ws_len(s: &[u8]) -> (n: usize)
    ensures
        n == first_non_ws(s@, 0),
        n <= s.len(),
{
    let mut i: usize = 0;
    while i < s.len() && is_py_whitespace(s[i])
        invariant
            i <= s.len(),
            first_non_ws(s@, 0) == first_non_ws(s@, i as int),
        decreases s.len() - i,
    {
        i = i + 1;
    }
    proof {
        lemma_first_non_ws_bounds(s@, i as int);
    }
    i
}

/// The end of the content once trailing whitespace is dropped.
pub fn content_end_of(s: &[u8]) -> (n: usize)
    ensures
        n == content_end(s@, s@.len() as int),
        n <= s.len(),
{
    let mut j: usize = s.len();
    while j > 0 && is_py_whitespace(s[j - 1])
        invariant
            j <= s.len(),
            content_end(s@, s@.len() as int) == content_end(s@, j as int),
        decreases j,
    {
        j = j - 1;
    }
    proof {
        lemma_content_end_bounds(s@, j as int);
    }
    j
}

/// A copy of `s[from..to]`.
pub fn bytes_range(s: &[u8], from: usize, to: usize) -> (r: Vec<u8>)
    requires
        from <= to <= s.len(),
    ensures
        r@ == s@.subrange(from as int, to as int),
{
    let mut r: Vec<u8> = Vec::new();
    let mut i = from;
    while i < to
        invariant
            from <= i <= to <= s.len(),
            r@ == s@.subrange(from as int, i as int),
        decreases to - i,
    {
        r.push(s[i]);
        i = i + 1;
        assert(r@ =~= s@.subrange(from as int, i as int));
    }
    r
}

/// A copy of `s`.
pub fn copy_bytes(s: &[u8]) -> (r: Vec<u8>)
    ensures
        r@ == s@,
{
    let r = bytes_range(s, 0, s.len());
    assert(s@.subrange(0, s@.len() as int) =~= s@);
    r
}

pub fn lstrip(s: &[u8]) -> (r: Vec<u8>)
    ensures
        r@ == spec_lstrip(s@),
{
    let n = leading_ws_len(s);
    bytes_range(s, n, s.len())
}

pub fn rstrip(s: &[u8]) -> (r: Vec<u8>)
    ensures
        r@ == spec_rstrip(s@),
{
    let n = content_end_of(s);
    bytes_range(s, 0, n)
}

pub fn strip(s: &[u8]) -> (r: Vec<u8>)
    ensures
        r@ == spec_strip(s@),
{
    let l = lstrip(s);
    rstrip(l.as_slice())
}

/// `a + b`.
pub fn concat(a: &[u8], b: &[u8]) -> (r: Vec<u8>)
    ensures
        r@ == a@ + b@,
{
    let mut r = copy_bytes(a);
    let mut i: usize = 0;
    while i < b.len()
        invariant
            i <= b.len(),
            r@ == a@ + b@.take(i as int),
        decreases b.len() - i,
    {
        r.push(b[i]);
        i = i + 1;
        assert(r@ =~= a@ + b@.take(i as int));
    }
    assert(b@.take(b.len() as int) =~= b@);
    r
}

/// `s` starts with `p`.
pub fn bytes_starts_with(s: &[u8], p: &[u8]) -> (r: bool)
    ensures
        r == starts_with(s@, p@),
{
    if p.len() > s.len() {
        return false;
    }
    let mut i: usize = 0;
    while i < p.len()
        invariant
            p.len() <= s.len(),
            i <= p.len(),
            forall|k: int| 0 <= k < i ==> s@[k] == p@[k],
        decreases p.len() - i,
    {
        if s[i] != p[i] {
            assert(s@.take(p.len() as int)[i as int] != p@[i as int]);
            return false;
        }
        i = i + 1;
    }
    assert(s@.take(p.len() as int) =~= p@);
    true
}

/// `s` ends with `p`.
pub fn bytes_ends_with(s: &[u8], p: &[u8]) -> (r: bool)
    ensures
        r == ends_with(s@, p@),
{
    if p.len() > s.len() {
        return false;
    }
    let off = s.len() - p.len();
    let mut i: usize = 0;
    while i < p.len()
        invariant
            p.len() <= s.len(),
            off == s.len() - p.len(),
            i <= p.len(),
            forall|k: int| 0 <= k < i ==> s@[off + k] == p@[k],
        decreases p.len() - i,
    {
        if s[off + i] != p[i] {
            assert(s@.skip(off as int)[i as int] != p@[i as int]);
            return false;
        }
        i = i + 1;
    }
    assert(s@.skip(off as int) =~= p@);
    true
}

/// `a == b`.
pub fn bytes_eq(a: &[u8], b: &[u8]) -> (r: bool)
    ensures
        r == (a@ == b@),
{
    if a.len() != b.len() {
        return false;
    }
    let r = bytes_starts_with(a, b);
    proof {
        if r {
            assert(a@.take(b.len() as int) =~= a@);
        } else {
            assert(a@.take(b.len() as int) =~= a@);
        }
    }
    r
}

/// A byte vector's deep view is its view.
pub proof fn lemma_bytes_deep_view(v: &Vec<u8>)
    ensures
        v.deep_view() == v@,
{
    assert(v.deep_view() =~= v@);
}

/// `s.split(|b| b == sep)`: the pieces between separators (always at least one).
pub open spec fn split_on(s: Seq<u8>, sep: u8) -> Seq<Seq<u8>>
    decreases s.len(),
{
    if s.len() == 0 {
        seq![Seq::empty()]
    } else {
        let pieces = split_on(s.drop_last(), sep);
        if s.last() == sep {
            pieces.push(Seq::empty())
        } else {
            pieces.update(pieces.len() - 1, pieces.last().push(s.last()))
        }
    }
}

/// The pieces with `sep` between consecutive ones.
pub open spec fn join_on(pieces: Seq<Seq<u8>>, sep: u8) -> Seq<u8>
    decreases pieces.len(),
{
    if pieces.len() == 0 {
        Seq::empty()
    } else if pieces.len() == 1 {
        pieces[0]
    } else {
        join_on(pieces.drop_last(), sep).push(sep) + pieces.last()
    }
}

/// The views of some byte vectors.
pub open spec fn views(v: Seq<Vec<u8>>) -> Seq<Seq<u8>> {
    v.map_values(|x: Vec<u8>| x@)
}

/// Splits `s` at every `sep`.
pub fn split_bytes(s: &[u8], sep: u8) -> (r: Vec<Vec<u8>>)
    ensures
        views(r@) == split_on(s@, sep),
{
    let mut done: Vec<Vec<u8>> = Vec::new();
    let mut cur: Vec<u8> = Vec::new();
    for i in 0..s.len()
        invariant
            views(done@).push(cur@) == split_on(s@.take(i as int), sep),
    {
        assert(s@.take(i + 1).drop_last() =~= s@.take(i as int));
        assert(s@.take(i + 1).last() == s@[i as int]);
        let ghost before = views(done@);
        let ghost cur_before = cur@;
        if s[i] == sep {
            let finished = cur;
            cur = Vec::new();
            done.push(finished);
            assert(views(done@) =~= before.push(cur_before));
            assert(views(done@).push(cur@) =~= before.push(cur_before).push(Seq::empty()));
        } else {
            cur.push(s[i]);
            assert(views(done@).push(cur@) =~= before.push(cur_before).update(
                before.len() as int,
                cur_before.push(s@[i as int]),
            ));
        }
    }
    assert(s@.take(s.len() as int) =~= s@);
    let ghost before = views(done@);
    done.push(cur);
    assert(views(done@) =~= before.push(cur@));
    done
}

/// Joins the pieces with `sep`.
pub fn join_bytes(pieces: &Vec<Vec<u8>>, sep: u8) -> (r: Vec<u8>)
    ensures
        r@ == join_on(views(pieces@), sep),
{
    let mut out: Vec<u8> = Vec::new();
    for i in 0..pieces.len()
        invariant
            out@ == join_on(views(pieces@).take(i as int), sep),
    {
        assert(views(pieces@).take(i + 1).drop_last() =~= views(pieces@).take(i as int));
        assert(views(pieces@).take(i + 1).last() == pieces@[i as int]@);
        if i != 0 {
            out.push(sep);
        }
        let next = concat(out.as_slice(), pieces[i].as_slice());
        out = next;
        proof {
            if i == 0 {
                assert(views(pieces@).take(1) =~= seq![pieces@[0]@]);
                assert(out@ =~= pieces@[0]@);
            }
        }
    }
    assert(views(pieces@).take(pieces.len() as int) =~= views(pieces@));
    out
}

/// Splitting gives at most one more piece than there are bytes.
pub proof fn lemma_split_on_len(s: Seq<u8>, sep: u8)
    ensures
        1 <= split_on(s, sep).len() <= s.len() + 1,
    decreases s.len(),
{
    if s.len() > 0 {
        lemma_split_on_len(s.drop_last(), sep);
    }
}

} // verus!
