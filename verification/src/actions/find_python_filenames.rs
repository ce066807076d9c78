//! Which paths the file search keeps, skips or descends into.

use vstd::prelude::*;

use crate::actions::parse_tach_config::{spec_is_outside, spec_is_unchecked, TachIndex};
use crate::data_types::Args;
use crate::utils::fnmatch::{match_any, spec_match_any};
use crate::utils::path_utils::resolved_components;
use crate::utils::text::{chars_of, chars_range, string_from_chars, string_views, str_eq};
use crate::visitor::code_item::{path_as_posix, spec_as_posix};
use crate::visitor::dead_code_visitor::last_dot;
use crate::visitor::ignore::{file_name, spec_file_name};

verus! {

/// What the file system says a path is.
#[derive(Debug, Clone, Copy, PartialEq, Eq, Structural)]
pub enum PathKind {
    File,
    Dir,
    /// Nothing exists at the path.
    Missing,
    /// Something else exists there.
    Other,
}

/// What the search does with a path.
#[derive(Debug)]
pub enum PathDecision {
    /// It matches `--exclude`.
    Excluded,
    /// It belongs to a tach project but lies outside its source roots.
    OutsideSourceRoots,
    /// It is a Python file of an unchecked tach module.
    UncheckedModule,
    /// It is a Python file to analyse, named with forward slashes.
    PythonFile(String),
    /// It is a directory whose entries are searched.
    Descend,
    /// Nothing exists at the path.
    NotFound,
    /// Anything else.
    Skip,
}

/// `Path::extension`: the part of the file name after its last `.`, unless
/// the name has no `.` or its only `.` is its first character.
pub open spec fn spec_extension(path: Seq<char>) -> Option<Seq<char>> {
    match spec_file_name(path) {
        None => None,
        Some(name) => match last_dot(name) {
            None => None,
            Some(k) => if k == 0 {
                None
            } else {
                Some(name.skip(k + 1))
            },
        },
    }
}

/// A file whose extension is `py`.
pub open spec fn is_py_file(path: Seq<char>, kind: PathKind) -> bool {
    kind == PathKind::File && spec_extension(path) == Some("py"@)
}

/// What the search does with `path` of the given kind: excluded by
/// `--exclude`, then outside a tach project's source roots, then a Python
/// file (unless its tach module is unchecked), then a directory to search;
/// a missing path is reported as not found.
pub open spec fn spec_decision_matches(
    r: PathDecision,
    args: Args,
    tach: TachIndex,
    cwd: Seq<char>,
    path: Seq<char>,
    kind: PathKind,
) -> bool {
    if spec_match_any(spec_as_posix(path), string_views(args.exclude@), true) {
        r is Excluded
    } else if spec_is_outside(tach.configs(), resolved_components(cwd, path)) {
        r is OutsideSourceRoots
    } else if is_py_file(path, kind) {
        if spec_is_unchecked(tach.configs(), cwd, path) {
            r is UncheckedModule
        } else {
            r matches PathDecision::PythonFile(p) && p@ == spec_as_posix(path)
        }
    } else if kind == PathKind::Dir {
        r is Descend
    } else if kind == PathKind::Missing {
        r is NotFound
    } else {
        r is Skip
    }
}

/// Whether a path's extension is `py`.
fn has_py_extension(path: &str) -> (r: bool)
    ensures
        r == (spec_extension(path@) == Some("py"@)),
{
    let name = match file_name(path) {
        Some(n) => n,
        None => return false,
    };
    let cs = chars_of(name.as_str());
    let mut k = cs.len();
    assert(cs@.take(k as int) =~= cs@);
    while k > 0 && cs[k - 1] != '.'
        invariant
            k <= cs.len(),
            last_dot(cs@) == last_dot(cs@.take(k as int)),
        decreases k,
    {
        assert(cs@.take(k as int).drop_last() =~= cs@.take(k - 1));
        k = k - 1;
    }
    if k == 0 {
        return false;
    }
    assert(cs@.take(k as int).drop_last() =~= cs@.take(k - 1));
    if k == 1 {
        return false;
    }
    let ext = chars_range(cs.as_slice(), k, cs.len());
    assert(ext@ =~= cs@.skip(k as int));
    let e = string_from_chars(ext.as_slice());
    str_eq(e.as_str(), "py")
}

/// Decides what the search does with one path (see `spec_decision_matches`).
pub fn classify_path(args: &Args, tach_index: &TachIndex, cwd: &str, path: &str, kind: PathKind) -> (r:
    PathDecision)
    ensures
        spec_decision_matches(r, *args, *tach_index, cwd@, path@, kind),
{
    let posix = path_as_posix(path);
    if match_any(posix.as_str(), args.exclude.as_slice(), true) {
        return PathDecision::Excluded;
    }
    if tach_index.is_outside_source_roots(cwd, path) {
        return PathDecision::OutsideSourceRoots;
    }
    if kind == PathKind::File && has_py_extension(path) {
        if tach_index.is_unchecked(cwd, path) {
            return PathDecision::UncheckedModule;
        }
        return PathDecision::PythonFile(posix);
    }
    if kind == PathKind::Dir {
        PathDecision::Descend
    } else if kind == PathKind::Missing {
        PathDecision::NotFound
    } else {
        PathDecision::Skip
    }
}

} // verus!
