//! Path helpers on `/`-separated paths: components, lexical resolution and ancestors.
//!
//! A path is read as its components: the pieces between `/` separators,
//! with empty pieces and `.` pieces left out; a leading `/` makes it
//! absolute.

use vstd::prelude::*;

use crate::utils::text::{
    char_views, chars_eq, chars_of, push_chars, split_chars, split_chars_on, string_from_chars,
};

verus! {

/// `..` as characters.
pub open spec fn parent_dir() -> Seq<char> {
    seq!['.', '.']
}

/// A piece that names a component (not empty, not `.`).
pub open spec fn is_component(piece: Seq<char>) -> bool {
    piece.len() > 0 && piece != seq!['.']
}

/// The components of a list of pieces.
pub open spec fn components_of_pieces(pieces: Seq<Seq<char>>) -> Seq<Seq<char>>
    decreases pieces.len(),
{
    if pieces.len() == 0 {
        Seq::empty()
    } else if is_component(pieces.last()) {
        components_of_pieces(pieces.drop_last()).push(pieces.last())
    } else {
        components_of_pieces(pieces.drop_last())
    }
}

/// The components of a path.
pub open spec fn path_components(path: Seq<char>) -> Seq<Seq<char>> {
    components_of_pieces(split_chars_on(path, '/'))
}

/// The path starts at the root.
pub open spec fn is_absolute(path: Seq<char>) -> bool {
    path.len() > 0 && path[0] == '/'
}

/// Lexical normalization: `..` removes the component before it unless that
/// is itself `..` (or there is none, at the root), in which case it is kept.
pub open spec fn normalize(comps: Seq<Seq<char>>) -> Seq<Seq<char>>
    decreases comps.len(),
{
    if comps.len() == 0 {
        Seq::empty()
    } else {
        let out = normalize(comps.drop_last());
        let c = comps.last();
        if c == parent_dir() {
            if out.len() > 0 && out.last() != parent_dir() {
                out.drop_last()
            } else {
                out.push(parent_dir())
            }
        } else {
            out.push(c)
        }
    }
}

/// The components joined with `/`.
pub open spec fn join_components(comps: Seq<Seq<char>>) -> Seq<char>
    decreases comps.len(),
{
    if comps.len() == 0 {
        Seq::empty()
    } else if comps.len() == 1 {
        comps[0]
    } else {
        join_components(comps.drop_last()).push('/') + comps.last()
    }
}

/// The text of a path with the given components (`/` alone for the root).
pub open spec fn render_path(absolute: bool, comps: Seq<Seq<char>>) -> Seq<char> {
    if absolute {
        seq!['/'] + join_components(comps)
    } else {
        join_components(comps)
    }
}

/// The components of `path` resolved against the working directory `cwd`:
/// an absolute path stands alone, a relative one is appended to `cwd`; then
/// `.` and `..` are removed lexically (symbolic links are not followed).
pub open spec fn resolved_components(cwd: Seq<char>, path: Seq<char>) -> Seq<Seq<char>> {
    if is_absolute(path) {
        normalize(path_components(path))
    } else {
        normalize(path_components(cwd) + path_components(path))
    }
}

/// `Path.resolve()` done lexically, as text.
pub open spec fn spec_resolve_path(cwd: Seq<char>, path: Seq<char>) -> Seq<char> {
    render_path(is_absolute(path) || is_absolute(cwd), resolved_components(cwd, path))
}

/// The components of a path.
pub fn components(path: &[char]) -> (r: Vec<Vec<char>>)
    ensures
        char_views(r@) == path_components(path@),
{
    let pieces = split_chars(path, '/');
    let ghost pv = char_views(pieces@);
    let mut out: Vec<Vec<char>> = Vec::new();
    let dot = vec!['.'];
    assert(dot@ =~= seq!['.']);
    for i in 0..pieces.len()
        invariant
            pv == char_views(pieces@),
            pv == split_chars_on(path@, '/'),
            dot@ == seq!['.'],
            char_views(out@) == components_of_pieces(pv.take(i as int)),
    {
        assert(pv.take(i + 1).drop_last() =~= pv.take(i as int));
        assert(pv.take(i + 1).last() == pieces@[i as int]@);
        let p = &pieces[i];
        if p.len() > 0 && !chars_eq(p.as_slice(), dot.as_slice()) {
            let ghost before = char_views(out@);
            let c = p.clone();
            assert(c@ == p@);
            out.push(c);
            assert(char_views(out@) =~= before.push(pieces@[i as int]@));
        }
    }
    assert(pv.take(pieces.len() as int) =~= pv);
    out
}

fn is_parent_dir(c: &Vec<char>) -> (r: bool)
    ensures
        r == (c@ == parent_dir()),
{
    let dd = vec!['.', '.'];
    assert(dd@ =~= parent_dir());
    chars_eq(c.as_slice(), dd.as_slice())
}

/// Normalizes components lexically.
pub fn normalize_components(comps: Vec<Vec<char>>) -> (r: Vec<Vec<char>>)
    ensures
        char_views(r@) == normalize(char_views(comps@)),
{
    let ghost cv = char_views(comps@);
    let mut out: Vec<Vec<char>> = Vec::new();
    for i in 0..comps.len()
        invariant
            cv == char_views(comps@),
            char_views(out@) == normalize(cv.take(i as int)),
    {
        assert(cv.take(i + 1).drop_last() =~= cv.take(i as int));
        assert(cv.take(i + 1).last() == comps@[i as int]@);
        let ghost before = char_views(out@);
        let c = comps[i].clone();
        assert(c@ == comps@[i as int]@);
        if is_parent_dir(&c) {
            if out.len() > 0 && !is_parent_dir(&out[out.len() - 1]) {
                out.pop();
                assert(char_views(out@) =~= before.drop_last());
            } else {
                out.push(c);
                assert(char_views(out@) =~= before.push(parent_dir()));
            }
        } else {
            out.push(c);
            assert(char_views(out@) =~= before.push(comps@[i as int]@));
        }
    }
    assert(cv.take(comps.len() as int) =~= cv);
    out
}

/// Renders components as a path.
pub fn render(absolute: bool, comps: &Vec<Vec<char>>) -> (r: Vec<char>)
    ensures
        r@ == render_path(absolute, char_views(comps@)),
{
    let ghost cv = char_views(comps@);
    let mut joined: Vec<char> = Vec::new();
    for i in 0..comps.len()
        invariant
            cv == char_views(comps@),
            joined@ == join_components(cv.take(i as int)),
    {
        assert(cv.take(i + 1).drop_last() =~= cv.take(i as int));
        assert(cv.take(i + 1).last() == comps@[i as int]@);
        if i != 0 {
            joined.push('/');
        }
        push_chars(&mut joined, comps[i].as_slice());
        proof {
            if i == 0 {
                assert(cv.take(1) =~= seq![comps@[0]@]);
                assert(joined@ =~= comps@[0]@);
            }
        }
    }
    assert(cv.take(comps.len() as int) =~= cv);
    if absolute {
        let mut out = vec!['/'];
        push_chars(&mut out, joined.as_slice());
        assert(out@ =~= seq!['/'] + joined@);
        out
    } else {
        joined
    }
}

/// The resolved components of `path` against `cwd`.
pub fn resolve_components(cwd: &str, path: &str) -> (r: Vec<Vec<char>>)
    ensures
        char_views(r@) == resolved_components(cwd@, path@),
{
    let p = chars_of(path);
    let path_comps = components(p.as_slice());
    if p.len() > 0 && p[0] == '/' {
        normalize_components(path_comps)
    } else {
        let c = chars_of(cwd);
        let mut all = components(c.as_slice());
        let ghost a = char_views(all@);
        let mut rest = path_comps;
        let ghost b = char_views(rest@);
        all.append(&mut rest);
        assert(char_views(all@) =~= a + b);
        normalize_components(all)
    }
}

/// `Path.resolve()`-equivalent: makes the path absolute (relative to the
/// working directory `cwd`) and lexically collapses `.`/`..` components.
/// Symbolic links are not resolved, and the path need not exist.
pub fn resolve_path(cwd: &str, path: &str) -> (r: String)
    ensures
        r@ == spec_resolve_path(cwd@, path@),
{
    let comps = resolve_components(cwd, path);
    let p = chars_of(path);
    let c = chars_of(cwd);
    let absolute = (p.len() > 0 && p[0] == '/') || (c.len() > 0 && c[0] == '/');
    let out = render(absolute, &comps);
    string_from_chars(out.as_slice())
}

/// The strict ancestors of a path, nearest first (`Path.parents`), each
/// rendered from the path's components.
pub open spec fn spec_strict_ancestors(path: Seq<char>) -> Seq<Seq<char>> {
    let comps = path_components(path);
    Seq::new(
        comps.len(),
        |k: int| render_path(is_absolute(path), comps.take(comps.len() - 1 - k)),
    )
}

/// The strict ancestors of `path` (excluding `path` itself), nearest first.
pub fn strict_ancestors(path: &str) -> (r: Vec<String>)
    ensures
        r@.map_values(|s: String| s@) == spec_strict_ancestors(path@),
{
    let p = chars_of(path);
    let comps = components(p.as_slice());
    let absolute = p.len() > 0 && p[0] == '/';
    let ghost cv = char_views(comps@);
    let ghost target = spec_strict_ancestors(path@);
    let mut out: Vec<String> = Vec::new();
    let n = comps.len();
    for k in 0..n
        invariant
            n == comps.len(),
            cv == char_views(comps@),
            cv == path_components(path@),
            absolute == is_absolute(path@),
            p@ == path@,
            target == spec_strict_ancestors(path@),
            out@.map_values(|s: String| s@) == target.take(k as int),
    {
        let keep = n - 1 - k;
        let mut prefix: Vec<Vec<char>> = Vec::new();
        for j in 0..keep
            invariant
                keep <= n,
                n == comps.len(),
                cv == char_views(comps@),
                char_views(prefix@) == cv.take(j as int),
        {
            let ghost before = char_views(prefix@);
            let c = comps[j].clone();
            assert(c@ == comps@[j as int]@);
            let ghost cview = c@;
            prefix.push(c);
            assert(char_views(prefix@) =~= before.push(cview));
            assert(cv.take(j + 1) =~= cv.take(j as int).push(cv[j as int]));
            assert(char_views(prefix@) =~= cv.take(j + 1));
        }
        let rendered = render(absolute, &prefix);
        let s = string_from_chars(rendered.as_slice());
        let ghost before = out@.map_values(|s: String| s@);
        out.push(s);
        assert(out@.map_values(|s: String| s@) =~= before.push(target[k as int]));
        assert(target.take(k + 1) =~= target.take(k as int).push(target[k as int]));
    }
    assert(target.take(n as int) =~= target);
    out
}

} // verus!
