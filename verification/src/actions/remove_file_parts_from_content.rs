//! Cuts code regions out of a file's lines, repairing what the cuts leave behind.
//!
//! Two repairs go beyond plain cutting: an import statement whose names were
//! all removed is deleted as a whole (it would otherwise remain as `import`,
//! `from x import` or an empty `from x import (...)` block), and every
//! single-line part on a line is applied, right to left, so that
//! `import os, sys` with both names unused loses both.

use vstd::prelude::*;

use crate::actions::merge_overlapping_file_parts::{lemma_part_order_total, part_order, sorted_parts};
use crate::data_types::Part;
use crate::utils::bytes::{
    bytes_ends_with, bytes_eq, bytes_range, bytes_starts_with, concat, copy_bytes, ends_with,
    first_non_ws, is_py_ws, leading_ws_len, lemma_bytes_deep_view, lstrip, rstrip, spec_lstrip,
    spec_rstrip, spec_strip, starts_with, strip,
};
use crate::utils::sorting::{
    insert_sorted, lemma_insert_sorted_split, lemma_stable_sort_permutation, stable_sort,
};

verus! {

/// `line[:idx]` with Python's forgiving slice bounds.
pub open spec fn spec_slice_to(line: Seq<u8>, idx: u32) -> Seq<u8> {
    if idx as int <= line.len() {
        line.take(idx as int)
    } else {
        line
    }
}

/// `line[idx:]` with Python's forgiving slice bounds.
pub open spec fn spec_slice_from(line: Seq<u8>, idx: u32) -> Seq<u8> {
    if idx as int <= line.len() {
        line.skip(idx as int)
    } else {
        Seq::empty()
    }
}

/// The stripped line ends with `:` (it opens a block).
pub open spec fn spec_ends_with_colon(line: Seq<u8>) -> bool {
    let s = spec_strip(line);
    s.len() > 0 && s.last() == 58u8
}

/// The leading whitespace of a line.
pub open spec fn spec_indentation(line: Seq<u8>) -> Seq<u8> {
    line.take(first_non_ws(line, 0))
}

/// The current line is not indented deeper than the previous one.
pub open spec fn spec_indentation_is_not_childs(previous: Seq<u8>, current: Seq<u8>) -> bool {
    first_non_ws(previous, 0) >= first_non_ws(current, 0)
}

/// `as` as bytes.
pub open spec fn kw_as() -> Seq<u8> {
    seq![97u8, 115u8]
}

/// Drops a trailing ` as` keyword (with the whitespace before it) that a cut left stranded.
pub open spec fn spec_remove_as_from_end(line: Seq<u8>) -> Seq<u8> {
    let r = spec_rstrip(line);
    if !ends_with(r, kw_as()) {
        line
    } else {
        let truncated = r.take(r.len() - 2);
        let without_as = spec_rstrip(truncated);
        if truncated != without_as {
            without_as
        } else {
            line
        }
    }
}

/// Drops a leading `,` (and the whitespace around it) that a cut left stranded.
pub open spec fn spec_remove_comma_from_beginning(line: Seq<u8>) -> Seq<u8> {
    let stripped = spec_lstrip(line);
    if !starts_with(stripped, seq![44u8]) {
        line
    } else {
        spec_lstrip(stripped.skip(1))
    }
}

/// Cuts `[from_col, to_col)` out of one line: a leftover leading `=` means
/// the whole assignment tail goes, otherwise a stranded trailing `as` and
/// leading `,` are tidied away.
pub open spec fn spec_splice_out(line: Seq<u8>, from_col: u32, to_col: u32) -> Seq<u8> {
    let head = spec_slice_to(line, from_col);
    let tail = spec_slice_from(line, to_col);
    let combined = head + tail;
    if starts_with(spec_strip(combined), seq![61u8]) {
        head
    } else {
        spec_remove_as_from_end(head) + spec_remove_comma_from_beginning(tail)
    }
}

/// The index of the first `#` at or after `i` (`line.len()` if none).
pub open spec fn first_hash(line: Seq<u8>, i: int) -> int
    decreases line.len() - i,
{
    if i < 0 || i >= line.len() {
        line.len() as int
    } else if line[i] == 35u8 {
        i
    } else {
        first_hash(line, i + 1)
    }
}

/// Everything before the first `#`.
pub open spec fn spec_strip_trailing_comment(line: Seq<u8>) -> Seq<u8> {
    line.take(first_hash(line, 0))
}

/// What an import statement looks like once every one of its names has been removed.
#[derive(Debug, Clone, Copy, PartialEq, Eq, Structural)]
pub enum ImportStub {
    /// `import` / `from x import` with nothing following: always dead.
    Bare,
    /// `from x import (`: dead only if the parenthesized list is now empty.
    OpenParen,
    NotAStub,
}

pub open spec fn kw_import() -> Seq<u8> {
    seq![105u8, 109u8, 112u8, 111u8, 114u8, 116u8]
}

pub open spec fn kw_from() -> Seq<u8> {
    seq![102u8, 114u8, 111u8, 109u8]
}

pub open spec fn kw_import_paren() -> Seq<u8> {
    seq![105u8, 109u8, 112u8, 111u8, 114u8, 116u8, 40u8]
}

pub open spec fn kw_import_space_paren() -> Seq<u8> {
    seq![105u8, 109u8, 112u8, 111u8, 114u8, 116u8, 32u8, 40u8]
}

/// Classifies a line (its comment dropped, then stripped) as an emptied import statement or not.
pub open spec fn spec_classify_import_stub(line: Seq<u8>) -> ImportStub {
    let s = spec_strip(spec_strip_trailing_comment(line));
    if s == kw_import() {
        ImportStub::Bare
    } else if !starts_with(s, kw_from()) {
        ImportStub::NotAStub
    } else if ends_with(s, kw_import()) {
        ImportStub::Bare
    } else if ends_with(s, kw_import_paren()) || ends_with(s, kw_import_space_paren()) {
        ImportStub::OpenParen
    } else {
        ImportStub::NotAStub
    }
}

/// Scanning from line `j` on: skips blank and comment-only lines; the first
/// other line closes an empty block if it is `)` alone (its comment dropped).
pub open spec fn paren_block_close_from(lines: Seq<Seq<u8>>, j: int) -> Option<int>
    decreases lines.len() - j,
{
    if j < 0 || j >= lines.len() {
        None
    } else {
        let s = spec_strip(spec_strip_trailing_comment(lines[j]));
        if s.len() == 0 {
            paren_block_close_from(lines, j + 1)
        } else if s[0] == 41u8 {
            if spec_strip(s.skip(1)).len() == 0 {
                Some(j)
            } else {
                None
            }
        } else {
            None
        }
    }
}

/// For a `from x import (` on line `open_index`: the line of its `)` when the
/// list between them holds no names, else `None`.
pub open spec fn spec_empty_paren_block_end(lines: Seq<Seq<u8>>, open_index: int) -> Option<int> {
    paren_block_close_from(lines, open_index + 1)
}

/// The lines from `index` on, with every emptied import statement dropped.
pub open spec fn without_dangling_from(lines: Seq<Seq<u8>>, index: int) -> Seq<Seq<u8>>
    decreases lines.len() - index,
{
    if index < 0 || index >= lines.len() {
        Seq::empty()
    } else {
        match spec_classify_import_stub(lines[index]) {
            ImportStub::Bare => without_dangling_from(lines, index + 1),
            ImportStub::OpenParen => match spec_empty_paren_block_end(lines, index) {
                Some(close) => if index < close < lines.len() {
                    without_dangling_from(lines, close + 1)
                } else {
                    seq![lines[index]] + without_dangling_from(lines, index + 1)
                },
                None => seq![lines[index]] + without_dangling_from(lines, index + 1),
            },
            ImportStub::NotAStub => seq![lines[index]] + without_dangling_from(lines, index + 1),
        }
    }
}

/// The bookkeeping carried from one line to the next while parts are removed.
pub struct RemovalState {
    pub updated: Seq<Seq<u8>>,
    pub part_index: int,
    pub previous_non_removed_line: Seq<u8>,
    pub was_block_removed: bool,
    pub indentation_of_first_removed_line: Seq<u8>,
    pub empty_lines_in_a_row: Seq<Seq<u8>>,
    pub empty_lines_before_removed_block: Seq<Seq<u8>>,
}

pub open spec fn initial_state() -> RemovalState {
    RemovalState {
        updated: Seq::empty(),
        part_index: 0,
        previous_non_removed_line: Seq::empty(),
        was_block_removed: false,
        indentation_of_first_removed_line: Seq::empty(),
        empty_lines_in_a_row: Seq::empty(),
        empty_lines_before_removed_block: Seq::empty(),
    }
}

/// The number of consecutive single-line parts on line `lineno` from index `i` on.
pub open spec fn same_line_run(parts: Seq<Part>, i: int, lineno: int) -> int
    decreases parts.len() - i,
{
    if 0 <= i < parts.len() && parts[i].line_start == lineno && parts[i].line_end == lineno {
        1 + same_line_run(parts, i + 1, lineno)
    } else {
        0
    }
}

/// Column spans in descending order of their start column (stable).
pub open spec fn span_order() -> spec_fn((u32, u32), (u32, u32)) -> bool {
    |a: (u32, u32), b: (u32, u32)| a.0 >= b.0
}

/// The (col_start, col_end) spans of some parts.
pub open spec fn spans_of(parts: Seq<Part>) -> Seq<(u32, u32)> {
    parts.map_values(|p: Part| (p.col_start, p.col_end))
}

/// Applies the spans to a line, one after the other.
pub open spec fn splice_all(line: Seq<u8>, spans: Seq<(u32, u32)>) -> Seq<u8>
    decreases spans.len(),
{
    if spans.len() == 0 {
        line
    } else {
        let last = spans.last();
        spec_splice_out(splice_all(line, spans.drop_last()), last.0, last.1)
    }
}

/// `pass` and a newline.
pub open spec fn pass_line() -> Seq<u8> {
    seq![112u8, 97u8, 115u8, 115u8, 10u8]
}

/// One line of the removal.
pub open spec fn line_step(s: RemovalState, parts: Seq<Part>, lineno: int, raw: Seq<u8>) -> RemovalState {
    let has = 0 <= s.part_index < parts.len();
    let p = parts[s.part_index];
    let from_line: int = if has { p.line_start as int } else { 0 };
    let to_line: int = if has { p.line_end as int } else { 0 };
    if lineno > from_line && lineno < to_line {
        s
    } else if lineno == from_line {
        let indentation = spec_indentation(raw);
        let single = from_line == to_line;
        let run = same_line_run(parts, s.part_index, lineno);
        let spans = stable_sort(
            spans_of(parts.subrange(s.part_index, s.part_index + run)),
            span_order(),
        );
        let line = if single {
            splice_all(raw, spans)
        } else {
            spec_slice_to(raw, p.col_start)
        };
        let part_index = if single {
            s.part_index + run
        } else {
            s.part_index
        };
        let emptied = single && spec_strip(line).len() == 0;
        let keep = spec_strip(line).len() > 0 && !starts_with(line, seq![35u8]);
        RemovalState {
            updated: if keep {
                s.updated.push(line)
            } else {
                s.updated
            },
            part_index,
            previous_non_removed_line: if keep {
                line
            } else {
                s.previous_non_removed_line
            },
            was_block_removed: s.was_block_removed || emptied,
            indentation_of_first_removed_line: indentation,
            empty_lines_in_a_row: if emptied {
                s.empty_lines_before_removed_block
            } else {
                s.empty_lines_in_a_row
            },
            empty_lines_before_removed_block: if emptied {
                s.empty_lines_in_a_row
            } else {
                s.empty_lines_before_removed_block
            },
        }
    } else if lineno == to_line {
        let cut = spec_slice_from(raw, p.col_end);
        let line = if starts_with(spec_lstrip(cut), seq![44u8]) {
            spec_lstrip(spec_lstrip(cut).skip(1))
        } else {
            cut
        };
        let keep = spec_strip(line).len() > 0 && !starts_with(line, seq![35u8]);
        RemovalState {
            updated: if keep {
                s.updated.push(line)
            } else {
                s.updated
            },
            part_index: s.part_index + 1,
            was_block_removed: true,
            empty_lines_in_a_row: s.empty_lines_before_removed_block,
            empty_lines_before_removed_block: s.empty_lines_in_a_row,
            ..s
        }
    } else if spec_strip(raw).len() == 0 {
        RemovalState { empty_lines_in_a_row: s.empty_lines_in_a_row.push(raw), ..s }
    } else {
        let updated = if !s.was_block_removed {
            s.updated + s.empty_lines_in_a_row
        } else if spec_ends_with_colon(s.previous_non_removed_line) {
            if spec_indentation_is_not_childs(s.previous_non_removed_line, raw) {
                s.updated.push(s.indentation_of_first_removed_line + pass_line())
                    + s.empty_lines_in_a_row
            } else {
                s.updated + s.empty_lines_before_removed_block
            }
        } else {
            s.updated + s.empty_lines_before_removed_block
        };
        let empties_before = if !s.was_block_removed {
            s.empty_lines_before_removed_block
        } else {
            Seq::empty()
        };
        RemovalState {
            updated: updated.push(raw),
            previous_non_removed_line: raw,
            was_block_removed: false,
            empty_lines_in_a_row: Seq::empty(),
            empty_lines_before_removed_block: empties_before,
            ..s
        }
    }
}

/// The state after the first `n` lines.
pub open spec fn run_lines(lines: Seq<Seq<u8>>, parts: Seq<Part>, n: int) -> RemovalState
    decreases n,
{
    if n <= 0 {
        initial_state()
    } else {
        line_step(run_lines(lines, parts, n - 1), parts, n, lines[n - 1])
    }
}

/// The lines kept once every line was seen: a block left empty by the last
/// removal gets a `pass`.
pub open spec fn finish(s: RemovalState) -> Seq<Seq<u8>> {
    if s.was_block_removed && spec_ends_with_colon(s.previous_non_removed_line) {
        s.updated.push(s.indentation_of_first_removed_line + pass_line())
    } else {
        s.updated
    }
}

/// What `remove_file_parts_from_content` returns.
pub open spec fn spec_remove_file_parts_from_content(lines: Seq<Seq<u8>>, parts: Seq<Part>) -> Seq<
    Seq<u8>,
> {
    let sorted = stable_sort(parts, part_order());
    without_dangling_from(finish(run_lines(lines, sorted, lines.len() as int)), 0)
}

fn slice_to(line: &[u8], idx: u32) -> (r: Vec<u8>)
    ensures
        r@ == spec_slice_to(line@, idx),
{
    if (idx as usize) <= line.len() {
        bytes_range(line, 0, idx as usize)
    } else {
        copy_bytes(line)
    }
}

fn slice_from(line: &[u8], idx: u32) -> (r: Vec<u8>)
    ensures
        r@ == spec_slice_from(line@, idx),
{
    if (idx as usize) <= line.len() {
        bytes_range(line, idx as usize, line.len())
    } else {
        Vec::new()
    }
}

fn ends_with_colon(line: &[u8]) -> (r: bool)
    ensures
        r == spec_ends_with_colon(line@),
{
    let s = strip(line);
    s.len() > 0 && s[s.len() - 1] == 58u8
}

fn get_indentation(line: &[u8]) -> (r: Vec<u8>)
    ensures
        r@ == spec_indentation(line@),
{
    let n = leading_ws_len(line);
    bytes_range(line, 0, n)
}

fn indentation_is_not_childs(previous_line: &[u8], current_line: &[u8]) -> (r: bool)
    ensures
        r == spec_indentation_is_not_childs(previous_line@, current_line@),
{
    leading_ws_len(previous_line) >= leading_ws_len(current_line)
}

fn remove_as_from_end(line: &[u8]) -> (r: Vec<u8>)
    ensures
        r@ == spec_remove_as_from_end(line@),
{
    let line_rstrip = rstrip(line);
    let kw = vec![97u8, 115u8];
    assert(kw@ =~= kw_as());
    if !bytes_ends_with(line_rstrip.as_slice(), kw.as_slice()) {
        return copy_bytes(line);
    }
    let truncated = bytes_range(line_rstrip.as_slice(), 0, line_rstrip.len() - 2);
    assert(truncated@ =~= line_rstrip@.take(line_rstrip@.len() - 2));
    let line_with_removed_as = rstrip(truncated.as_slice());
    if !bytes_eq(truncated.as_slice(), line_with_removed_as.as_slice()) {
        line_with_removed_as
    } else {
        copy_bytes(line)
    }
}

fn remove_comma_from_beginning(line: &[u8]) -> (r: Vec<u8>)
    ensures
        r@ == spec_remove_comma_from_beginning(line@),
{
    let stripped = lstrip(line);
    let comma = vec![44u8];
    assert(comma@ =~= seq![44u8]);
    if !bytes_starts_with(stripped.as_slice(), comma.as_slice()) {
        return copy_bytes(line);
    }
    let rest = bytes_range(stripped.as_slice(), 1, stripped.len());
    assert(rest@ =~= stripped@.skip(1));
    lstrip(rest.as_slice())
}

fn splice_out(line: &[u8], from_col: u32, to_col: u32) -> (r: Vec<u8>)
    ensures
        r@ == spec_splice_out(line@, from_col, to_col),
{
    let head = slice_to(line, from_col);
    let tail = slice_from(line, to_col);
    let combined = concat(head.as_slice(), tail.as_slice());
    let stripped = strip(combined.as_slice());
    let eq = vec![61u8];
    assert(eq@ =~= seq![61u8]);
    if bytes_starts_with(stripped.as_slice(), eq.as_slice()) {
        head
    } else {
        let a = remove_as_from_end(head.as_slice());
        let b = remove_comma_from_beginning(tail.as_slice());
        concat(a.as_slice(), b.as_slice())
    }
}

/// Drops everything from the first `#` onward.
fn strip_trailing_comment(line: &[u8]) -> (r: Vec<u8>)
    ensures
        r@ == spec_strip_trailing_comment(line@),
{
    let mut i: usize = 0;
    while i < line.len() && line[i] != 35u8
        invariant
            i <= line.len(),
            first_hash(line@, 0) == first_hash(line@, i as int),
        decreases line.len() - i,
    {
        i = i + 1;
    }
    bytes_range(line, 0, i)
}

/// Classifies a line as an emptied import statement or not.
pub fn classify_import_stub(line: &[u8]) -> (r: ImportStub)
    ensures
        r == spec_classify_import_stub(line@),
{
    let no_comment = strip_trailing_comment(line);
    let s = strip(no_comment.as_slice());
    let import_kw = vec![105u8, 109u8, 112u8, 111u8, 114u8, 116u8];
    let from_kw = vec![102u8, 114u8, 111u8, 109u8];
    let import_paren = vec![105u8, 109u8, 112u8, 111u8, 114u8, 116u8, 40u8];
    let import_space_paren = vec![105u8, 109u8, 112u8, 111u8, 114u8, 116u8, 32u8, 40u8];
    assert(import_kw@ =~= kw_import());
    assert(from_kw@ =~= kw_from());
    assert(import_paren@ =~= kw_import_paren());
    assert(import_space_paren@ =~= kw_import_space_paren());
    if bytes_eq(s.as_slice(), import_kw.as_slice()) {
        return ImportStub::Bare;
    }
    if !bytes_starts_with(s.as_slice(), from_kw.as_slice()) {
        return ImportStub::NotAStub;
    }
    if bytes_ends_with(s.as_slice(), import_kw.as_slice()) {
        return ImportStub::Bare;
    }
    if bytes_ends_with(s.as_slice(), import_paren.as_slice()) || bytes_ends_with(
        s.as_slice(),
        import_space_paren.as_slice(),
    ) {
        return ImportStub::OpenParen;
    }
    ImportStub::NotAStub
}

proof fn lemma_paren_block_close_after(lines: Seq<Seq<u8>>, j: int)
    requires
        0 <= j,
    ensures
        paren_block_close_from(lines, j) matches Some(c) ==> j <= c < lines.len(),
    decreases lines.len() - j,
{
    if j < lines.len() {
        lemma_paren_block_close_after(lines, j + 1);
    }
}

/// For a `from x import (` opened on line `open_index`: the line of its
/// closing `)` when the list between them holds no names, else `None`.
fn empty_paren_block_end(lines: &[Vec<u8>], open_index: usize) -> (r: Option<usize>)
    requires
        open_index < lines.len(),
    ensures
        r matches Some(c) ==> spec_empty_paren_block_end(lines.deep_view(), open_index as int)
            == Some(c as int),
        r is None ==> spec_empty_paren_block_end(lines.deep_view(), open_index as int) is None,
{
    let ghost dv = lines.deep_view();
    let mut index = open_index + 1;
    while index < lines.len()
        invariant
            open_index < index <= lines.len(),
            dv == lines.deep_view(),
            dv.len() == lines.len(),
            paren_block_close_from(dv, open_index + 1) == paren_block_close_from(dv, index as int),
        decreases lines.len() - index,
    {
        assert(dv[index as int] == lines[index as int]@);
        let no_comment = strip_trailing_comment(lines[index].as_slice());
        let stripped = strip(no_comment.as_slice());
        if stripped.len() == 0 {
            index = index + 1;
            continue;
        }
        if stripped[0] == 41u8 {
            let after = bytes_range(stripped.as_slice(), 1, stripped.len());
            assert(after@ =~= stripped@.skip(1));
            let rest = strip(after.as_slice());
            if rest.len() == 0 {
                return Some(index);
            } else {
                return None;
            }
        }
        return None;
    }
    None
}

/// Removes import statements whose names were all deleted.
fn remove_dangling_import_statements(lines: Vec<Vec<u8>>) -> (r: Vec<Vec<u8>>)
    ensures
        r.deep_view() == without_dangling_from(lines.deep_view(), 0),
{
    let ghost dv = lines.deep_view();
    let mut kept: Vec<Vec<u8>> = Vec::new();
    let mut index: usize = 0;
    while index < lines.len()
        invariant
            index <= lines.len(),
            dv == lines.deep_view(),
            dv.len() == lines.len(),
            kept.deep_view() + without_dangling_from(dv, index as int) == without_dangling_from(
                dv,
                0,
            ),
        decreases lines.len() - index,
    {
        assert(dv[index as int] == lines[index as int]@);
        let ghost before = kept.deep_view();
        match classify_import_stub(lines[index].as_slice()) {
            ImportStub::Bare => {
                index = index + 1;
            },
            ImportStub::OpenParen => {
                proof {
                    lemma_paren_block_close_after(dv, index + 1);
                }
                match empty_paren_block_end(lines.as_slice(), index) {
                    Some(close_index) => {
                        index = close_index + 1;
                    },
                    None => {
                        let line = copy_bytes(lines[index].as_slice());
                        kept.push(line);
                        assert(kept.deep_view() =~= before.push(dv[index as int]));
                        assert(kept.deep_view() + without_dangling_from(dv, index + 1) =~= before
                            + (seq![dv[index as int]] + without_dangling_from(dv, index + 1)));
                        index = index + 1;
                    },
                }
            },
            ImportStub::NotAStub => {
                let line = copy_bytes(lines[index].as_slice());
                kept.push(line);
                assert(kept.deep_view() =~= before.push(dv[index as int]));
                assert(kept.deep_view() + without_dangling_from(dv, index + 1) =~= before + (
                seq![dv[index as int]] + without_dangling_from(dv, index + 1)));
                index = index + 1;
            },
        }
    }
    assert(without_dangling_from(dv, index as int) =~= Seq::<Seq<u8>>::empty());
    assert(kept.deep_view() + Seq::<Seq<u8>>::empty() =~= kept.deep_view());
    kept
}

/// Sorts column spans by descending start column, keeping ties in order.
fn sorted_spans(spans: &Vec<(u32, u32)>) -> (r: Vec<(u32, u32)>)
    ensures
        r@ == stable_sort(spans@, span_order()),
{
    let mut v: Vec<(u32, u32)> = Vec::new();
    for i in 0..spans.len()
        invariant
            v@ == stable_sort(spans@.take(i as int), span_order()),
    {
        let x = spans[i];
        let ghost t = v@;
        assert(spans@.take(i + 1).drop_last() =~= spans@.take(i as int));
        v.push(x);
        let mut j = v.len() - 1;
        while j > 0 && !(v[j - 1].0 >= x.0)
            invariant
                0 <= j < v.len(),
                v.len() == t.len() + 1,
                v@ == t.take(j as int).push(x) + t.skip(j as int),
                forall|k: int| j <= k < t.len() ==> !((#[trigger] t[k]).0 >= x.0),
            decreases j,
        {
            let prev = v[j - 1];
            assert(prev == t[j - 1]);
            v.set(j - 1, x);
            v.set(j, prev);
            j = j - 1;
            assert(v@ =~= t.take(j as int).push(x) + t.skip(j as int));
        }
        proof {
            lemma_insert_sorted_split(t, x, span_order(), j as int);
            if j > 0 {
                assert(t.take(j as int).last() == t[j - 1]);
            }
            assert(insert_sorted(t.take(j as int), x, span_order()) == t.take(j as int).push(x));
        }
    }
    assert(spans@.take(spans.len() as int) =~= spans@);
    v
}

/// `pass` and a newline, after the given indentation.
fn pass_statement(indentation: &[u8]) -> (r: Vec<u8>)
    ensures
        r@ == indentation@ + pass_line(),
{
    let pass = vec![112u8, 97u8, 115u8, 115u8, 10u8];
    assert(pass@ =~= pass_line());
    concat(indentation, pass.as_slice())
}

/// The line is kept: it has content and does not start with `#`.
fn is_kept(line: &[u8]) -> (r: bool)
    ensures
        r == (spec_strip(line@).len() > 0 && !starts_with(line@, seq![35u8])),
{
    let hash = vec![35u8];
    assert(hash@ =~= seq![35u8]);
    strip(line).len() > 0 && !bytes_starts_with(line, hash.as_slice())
}

/// Removes the given parts from a file's lines (each line keeping its line
/// ending), repairing the text around each cut:
/// - a line emptied by its cuts, and every line strictly inside a multi-line
///   part, is dropped, as is a kept line that would start with `#`;
/// - a stranded `as` or `,` next to a cut, and an assignment left as `= ...`,
///   go with the cut;
/// - a block left empty gets an indented `pass`;
/// - the blank lines before a removed block are kept, those after it dropped
///   (or the reverse when a `pass` was inserted);
/// - import statements emptied by the cuts are deleted.
/// Parts are taken in sorted order, so their input order does not matter.
pub fn remove_file_parts_from_content(content_lines: &[Vec<u8>], unused_file_parts: &[Part]) -> (r:
    Vec<Vec<u8>>)
    requires
        content_lines.len() < u32::MAX,
    ensures
        r.deep_view() == spec_remove_file_parts_from_content(
            content_lines.deep_view(),
            unused_file_parts@,
        ),
{
    let parts = sorted_parts(unused_file_parts);
    let ghost lines = content_lines.deep_view();
    let mut updated: Vec<Vec<u8>> = Vec::new();
    let mut part_index: usize = 0;
    let mut previous_non_removed_line: Vec<u8> = Vec::new();
    let mut was_block_removed = false;
    let mut indentation_of_first_removed_line: Vec<u8> = Vec::new();
    let mut empty_lines_in_a_row: Vec<Vec<u8>> = Vec::new();
    let mut empty_lines_before_removed_block: Vec<Vec<u8>> = Vec::new();
    assert(updated.deep_view() =~= Seq::<Seq<u8>>::empty());
    assert(empty_lines_in_a_row.deep_view() =~= Seq::<Seq<u8>>::empty());
    assert(empty_lines_before_removed_block.deep_view() =~= Seq::<Seq<u8>>::empty());
    for i in 0..content_lines.len()
        invariant
            lines == content_lines.deep_view(),
            lines.len() == content_lines.len(),
            content_lines.len() < u32::MAX,
            part_index <= parts.len(),
            run_lines(lines, parts@, i as int) == (RemovalState {
                updated: updated.deep_view(),
                part_index: part_index as int,
                previous_non_removed_line: previous_non_removed_line@,
                was_block_removed,
                indentation_of_first_removed_line: indentation_of_first_removed_line@,
                empty_lines_in_a_row: empty_lines_in_a_row.deep_view(),
                empty_lines_before_removed_block: empty_lines_before_removed_block.deep_view(),
            }),
    {
        let current_lineno = (i + 1) as u32;
        let raw = content_lines[i].as_slice();
        assert(lines[i as int] == raw@);
        let ghost st = run_lines(lines, parts@, i as int);
        let ghost before_updated = updated.deep_view();
        let ghost before_empties = empty_lines_in_a_row.deep_view();
        let ghost before_empties_before = empty_lines_before_removed_block.deep_view();
        let (from_line, to_line, from_col, to_col) = if part_index < parts.len() {
            let p = parts[part_index];
            (p.line_start, p.line_end, p.col_start, p.col_end)
        } else {
            (0u32, 0u32, 0u32, 0u32)
        };
        if current_lineno > from_line && current_lineno < to_line {
            // strictly inside a multi-line part: dropped
        } else if current_lineno == from_line {
            indentation_of_first_removed_line = get_indentation(raw);
            let single = from_line == to_line;
            let line = if single {
                let start = part_index;
                let mut spans: Vec<(u32, u32)> = Vec::new();
                while part_index < parts.len() && parts[part_index].line_start == current_lineno
                    && parts[part_index].line_end == current_lineno
                    invariant
                        start <= part_index <= parts.len(),
                        spans@ == spans_of(parts@.subrange(start as int, part_index as int)),
                        same_line_run(parts@, start as int, current_lineno as int) == (
                        part_index - start) + same_line_run(
                            parts@,
                            part_index as int,
                            current_lineno as int,
                        ),
                    decreases parts.len() - part_index,
                {
                    let p = parts[part_index];
                    spans.push((p.col_start, p.col_end));
                    part_index = part_index + 1;
                    assert(spans@ =~= spans_of(parts@.subrange(start as int, part_index as int)));
                }
                let sorted = sorted_spans(&spans);
                let mut line = copy_bytes(raw);
                for k in 0..sorted.len()
                    invariant
                        line@ == splice_all(raw@, sorted@.take(k as int)),
                {
                    assert(sorted@.take(k + 1).drop_last() =~= sorted@.take(k as int));
                    line = splice_out(line.as_slice(), sorted[k].0, sorted[k].1);
                }
                assert(sorted@.take(sorted.len() as int) =~= sorted@);
                if strip(line.as_slice()).len() == 0 {
                    std::mem::swap(&mut empty_lines_before_removed_block, &mut empty_lines_in_a_row);
                    was_block_removed = true;
                }
                line
            } else {
                slice_to(raw, from_col)
            };
            if is_kept(line.as_slice()) {
                previous_non_removed_line = copy_bytes(line.as_slice());
                proof {
                    lemma_bytes_deep_view(&line);
                }
                updated.push(line);
                assert(updated.deep_view() =~= before_updated.push(previous_non_removed_line@));
            }
        } else if current_lineno == to_line {
            let mut line = slice_from(raw, to_col);
            let ls = lstrip(line.as_slice());
            let comma = vec![44u8];
            assert(comma@ =~= seq![44u8]);
            if bytes_starts_with(ls.as_slice(), comma.as_slice()) {
                let rest = bytes_range(ls.as_slice(), 1, ls.len());
                assert(rest@ =~= ls@.skip(1));
                line = lstrip(rest.as_slice());
            }
            part_index = part_index + 1;
            if is_kept(line.as_slice()) {
                let ghost l = line@;
                proof {
                    lemma_bytes_deep_view(&line);
                }
                updated.push(line);
                assert(updated.deep_view() =~= before_updated.push(l));
            }
            std::mem::swap(&mut empty_lines_before_removed_block, &mut empty_lines_in_a_row);
            was_block_removed = true;
        } else if strip(raw).len() == 0 {
            empty_lines_in_a_row.push(copy_bytes(raw));
            assert(empty_lines_in_a_row.deep_view() =~= before_empties.push(raw@));
        } else {
            if !was_block_removed {
                updated.append(&mut empty_lines_in_a_row);
                assert(updated.deep_view() =~= before_updated + before_empties);
            } else if ends_with_colon(previous_non_removed_line.as_slice()) {
                if indentation_is_not_childs(previous_non_removed_line.as_slice(), raw) {
                    let pass = pass_statement(indentation_of_first_removed_line.as_slice());
                    let ghost pass_view = pass@;
                    proof {
                        lemma_bytes_deep_view(&pass);
                    }
                    updated.push(pass);
                    assert(updated.deep_view() =~= before_updated.push(pass_view));
                    updated.append(&mut empty_lines_in_a_row);
                    assert(updated.deep_view() =~= before_updated.push(pass_view)
                        + before_empties);
                    empty_lines_before_removed_block.clear();
                } else {
                    updated.append(&mut empty_lines_before_removed_block);
                    assert(updated.deep_view() =~= before_updated + before_empties_before);
                    empty_lines_in_a_row.clear();
                }
            } else {
                updated.append(&mut empty_lines_before_removed_block);
                assert(updated.deep_view() =~= before_updated + before_empties_before);
                empty_lines_in_a_row.clear();
            }
            let ghost mid = updated.deep_view();
            was_block_removed = false;
            previous_non_removed_line = copy_bytes(raw);
            updated.push(copy_bytes(raw));
            assert(updated.deep_view() =~= mid.push(raw@));
            assert(empty_lines_in_a_row.deep_view() =~= Seq::<Seq<u8>>::empty());
            assert(!st.was_block_removed ==> empty_lines_before_removed_block.deep_view()
                =~= before_empties_before);
            assert(st.was_block_removed ==> empty_lines_before_removed_block.deep_view()
                =~= Seq::<Seq<u8>>::empty());
        }
    }
    if was_block_removed && ends_with_colon(previous_non_removed_line.as_slice()) {
        let ghost before_updated = updated.deep_view();
        let pass = pass_statement(indentation_of_first_removed_line.as_slice());
        let ghost pass_view = pass@;
        proof {
            lemma_bytes_deep_view(&pass);
        }
        updated.push(pass);
        assert(updated.deep_view() =~= before_updated.push(pass_view));
    }
    remove_dangling_import_statements(updated)
}

/// The order in which the parts to remove are given does not matter: the
/// same parts, given in any order, leave the same lines.
pub proof fn law_removal_ignores_part_order(lines: Seq<Seq<u8>>, p1: Seq<Part>, p2: Seq<Part>)
    requires
        p1.to_multiset() == p2.to_multiset(),
    ensures
        spec_remove_file_parts_from_content(lines, p1) == spec_remove_file_parts_from_content(lines, p2),
{
    lemma_part_order_total();
    lemma_stable_sort_permutation(p1, p2, part_order());
}

/// The number of lines up to and including the last one that is not blank
/// (a blank line holds only whitespace).
pub open spec fn content_end(lines: Seq<Seq<u8>>) -> int
    decreases lines.len(),
{
    if lines.len() == 0 {
        0
    } else if spec_strip(lines.last()).len() == 0 {
        content_end(lines.drop_last())
    } else {
        lines.len() as int
    }
}

/// `content_end` is the position after the last line that is not blank.
proof fn lemma_content_end(lines: Seq<Seq<u8>>)
    ensures
        0 <= content_end(lines) <= lines.len(),
        content_end(lines) > 0 ==> spec_strip(lines[content_end(lines) - 1]).len() > 0,
        forall|i: int|
            content_end(lines) <= i < lines.len() ==> spec_strip(#[trigger] lines[i]).len() == 0,
    decreases lines.len(),
{
    if lines.len() > 0 && spec_strip(lines.last()).len() == 0 {
        let t = lines.drop_last();
        lemma_content_end(t);
        assert forall|i: int| content_end(lines) <= i < lines.len() implies spec_strip(
            #[trigger] lines[i],
        ).len() == 0 by {
            if i < t.len() {
                assert(lines[i] == t[i]);
            }
        }
        if content_end(t) > 0 {
            assert(lines[content_end(t) - 1] == t[content_end(t) - 1]);
        }
    }
}

/// With no parts to remove, the first `n` lines are kept up to the last one
/// that is not blank, and the blank lines after it wait in the state.
proof fn lemma_run_lines_without_parts(lines: Seq<Seq<u8>>, n: int)
    requires
        0 <= n <= lines.len(),
    ensures
        run_lines(lines, Seq::empty(), n).updated == lines.take(content_end(lines.take(n))),
        run_lines(lines, Seq::empty(), n).updated + run_lines(lines, Seq::empty(), n).empty_lines_in_a_row
            == lines.take(n),
        !run_lines(lines, Seq::empty(), n).was_block_removed,
    decreases n,
{
    lemma_content_end(lines.take(n));
    if n > 0 {
        lemma_run_lines_without_parts(lines, n - 1);
        let s = run_lines(lines, Seq::empty(), n - 1);
        let raw = lines[n - 1];
        assert(lines.take(n).drop_last() =~= lines.take(n - 1));
        assert(lines.take(n) =~= lines.take(n - 1).push(raw));
        assert(lines.take(n).last() == raw);
        if spec_strip(raw).len() == 0 {
            assert(content_end(lines.take(n)) == content_end(lines.take(n - 1)));
            assert(s.updated + s.empty_lines_in_a_row.push(raw) =~= (s.updated
                + s.empty_lines_in_a_row).push(raw));
        } else {
            assert(content_end(lines.take(n)) == n);
            assert((s.updated + s.empty_lines_in_a_row).push(raw) + Seq::<Seq<u8>>::empty()
                =~= lines.take(n));
            assert(lines.take(n).take(n) =~= lines.take(n));
        }
    } else {
        assert(lines.take(0) =~= Seq::<Seq<u8>>::empty());
    }
}

/// Where no line from `index` on is an emptied import statement, nothing is dropped.
proof fn lemma_no_stubs_kept(lines: Seq<Seq<u8>>, index: int)
    requires
        0 <= index <= lines.len(),
        forall|i: int|
            index <= i < lines.len() ==> spec_classify_import_stub(#[trigger] lines[i])
                == ImportStub::NotAStub,
    ensures
        without_dangling_from(lines, index) == lines.skip(index),
    decreases lines.len() - index,
{
    if index < lines.len() {
        lemma_no_stubs_kept(lines, index + 1);
        assert(seq![lines[index]] + lines.skip(index + 1) =~= lines.skip(index));
    } else {
        assert(lines.skip(index) =~= Seq::<Seq<u8>>::empty());
    }
}

/// Removing no parts from lines none of which is an emptied import
/// statement keeps every line as it is, up to the last line that is not
/// blank: only the blank lines at the end are dropped.
pub proof fn law_removing_nothing_keeps_the_lines(lines: Seq<Seq<u8>>)
    requires
        forall|i: int|
            0 <= i < lines.len() ==> spec_classify_import_stub(#[trigger] lines[i])
                == ImportStub::NotAStub,
    ensures
        spec_remove_file_parts_from_content(lines, Seq::empty()) == lines.take(content_end(lines)),
        content_end(lines) > 0 ==> spec_strip(lines[content_end(lines) - 1]).len() > 0,
        forall|i: int|
            content_end(lines) <= i < lines.len() ==> spec_strip(#[trigger] lines[i]).len() == 0,
{
    let n = lines.len() as int;
    assert(lines.take(n) =~= lines);
    lemma_run_lines_without_parts(lines, n);
    lemma_content_end(lines);
    assert(stable_sort(Seq::<Part>::empty(), part_order()) =~= Seq::<Part>::empty());
    let kept = lines.take(content_end(lines));
    assert forall|i: int| 0 <= i < kept.len() implies spec_classify_import_stub(#[trigger] kept[i])
        == ImportStub::NotAStub by {
        assert(kept[i] == lines[i]);
    }
    lemma_no_stubs_kept(kept, 0);
    assert(kept.skip(0) =~= kept);
}

/// The bytes of `line` before `k` are whitespace, and at `k` the line ends
/// or a comment starts.
pub open spec fn whitespace_then_comment(line: Seq<u8>, k: int) -> bool {
    &&& 0 <= k <= line.len()
    &&& forall|i: int| 0 <= i < k ==> is_py_ws(#[trigger] line[i])
    &&& (k == line.len() || line[k] == 35u8)
}

/// A line holding nothing but whitespace and, perhaps, a comment.
pub open spec fn is_blank_or_comment_line(line: Seq<u8>) -> bool {
    exists|k: int| #[trigger] whitespace_then_comment(line, k)
}

/// A line holding a `)` after whitespace, then nothing but whitespace and,
/// perhaps, a comment.
pub open spec fn is_closing_paren_line(line: Seq<u8>) -> bool {
    exists|k: int|
        #![trigger line[k]]
        0 <= k < line.len() && (forall|i: int| 0 <= i < k ==> is_py_ws(#[trigger] line[i]))
            && line[k] == 41u8 && is_blank_or_comment_line(line.skip(k + 1))
}

proof fn lemma_first_hash_from(line: Seq<u8>, i: int, k: int)
    requires
        0 <= i <= k <= line.len(),
        forall|j: int| i <= j < k ==> line[j] != 35u8,
        k == line.len() || line[k] == 35u8,
    ensures
        first_hash(line, i) == k,
    decreases k - i,
{
    if i < k {
        lemma_first_hash_from(line, i + 1, k);
    }
}

proof fn lemma_first_non_ws_all(s: Seq<u8>, i: int)
    requires
        0 <= i <= s.len(),
        forall|j: int| i <= j < s.len() ==> is_py_ws(#[trigger] s[j]),
    ensures
        crate::utils::bytes::first_non_ws(s, i) == s.len(),
    decreases s.len() - i,
{
    if i < s.len() {
        lemma_first_non_ws_all(s, i + 1);
    }
}

proof fn lemma_content_end_all_ws(s: Seq<u8>, j: int, j0: int)
    requires
        0 <= j0 <= j <= s.len(),
        forall|i: int| j0 <= i < j ==> is_py_ws(#[trigger] s[i]),
    ensures
        crate::utils::bytes::content_end(s, j) == crate::utils::bytes::content_end(s, j0),
    decreases j,
{
    if j > j0 {
        lemma_content_end_all_ws(s, j - 1, j0);
    }
}

/// Once its comment is cut off, a blank or comment-only line strips to nothing.
proof fn lemma_blank_or_comment_strips_to_nothing(line: Seq<u8>)
    requires
        is_blank_or_comment_line(line),
    ensures
        spec_strip(spec_strip_trailing_comment(line)).len() == 0,
{
    let k = choose|k: int| #[trigger] whitespace_then_comment(line, k);
    lemma_first_hash_from(line, 0, k);
    let t = spec_strip_trailing_comment(line);
    assert(t =~= line.take(k));
    lemma_first_non_ws_all(t, 0);
    assert(crate::utils::bytes::spec_lstrip(t) =~= Seq::<u8>::empty());
}

/// Once its comment is cut off, a closing-paren line strips to a lone `)`.
proof fn lemma_closing_paren_line_strips(line: Seq<u8>)
    requires
        is_closing_paren_line(line),
    ensures
        ({
            let s = spec_strip(spec_strip_trailing_comment(line));
            s.len() > 0 && s[0] == 41u8 && spec_strip(s.skip(1)).len() == 0
        }),
{
    let k = choose|k: int|
        #![trigger line[k]]
        0 <= k < line.len() && (forall|i: int| 0 <= i < k ==> is_py_ws(#[trigger] line[i]))
            && line[k] == 41u8 && is_blank_or_comment_line(line.skip(k + 1));
    let rest = line.skip(k + 1);
    let m = choose|m: int| #[trigger] whitespace_then_comment(rest, m);
    let h = k + 1 + m;
    assert forall|j: int| 0 <= j < h implies line[j] != 35u8 by {
        if j < k {
            assert(is_py_ws(line[j]));
        } else if j > k {
            assert(line[j] == rest[j - k - 1]);
            assert(is_py_ws(rest[j - k - 1]));
        }
    }
    if h < line.len() {
        assert(line[h] == rest[m]);
    }
    lemma_first_hash_from(line, 0, h);
    let t = spec_strip_trailing_comment(line);
    assert(t =~= line.take(h));
    // Leading whitespace stops at the `)`.
    assert(crate::utils::bytes::first_non_ws(t, k) == k);
    assert forall|j: int| 0 <= j <= k implies crate::utils::bytes::first_non_ws(t, j)
        == crate::utils::bytes::first_non_ws(t, k) by {
        lemma_first_non_ws_to(t, j, k);
    }
    let l = crate::utils::bytes::spec_lstrip(t);
    assert(l =~= t.skip(k));
    assert(l[0] == 41u8);
    assert forall|i: int| 1 <= i < l.len() implies is_py_ws(#[trigger] l[i]) by {
        assert(l[i] == rest[i - 1]);
    }
    lemma_content_end_all_ws(l, l.len() as int, 1);
    let st = spec_strip(t);
    assert(st =~= l.take(1));
    assert(st.skip(1) =~= Seq::<u8>::empty());
}

proof fn lemma_first_non_ws_to(t: Seq<u8>, j: int, k: int)
    requires
        0 <= j <= k <= t.len(),
        forall|i: int| j <= i < k ==> is_py_ws(#[trigger] t[i]),
    ensures
        crate::utils::bytes::first_non_ws(t, j) == crate::utils::bytes::first_non_ws(t, k),
    decreases k - j,
{
    if j < k {
        lemma_first_non_ws_to(t, j + 1, k);
    }
}

proof fn lemma_block_closes_at(lines: Seq<Seq<u8>>, i: int, c: int)
    requires
        0 <= i <= c < lines.len(),
        forall|j: int| i <= j < c ==> is_blank_or_comment_line(#[trigger] lines[j]),
        is_closing_paren_line(lines[c]),
    ensures
        paren_block_close_from(lines, i) == Some(c),
    decreases c - i,
{
    if i < c {
        lemma_blank_or_comment_strips_to_nothing(lines[i]);
        lemma_block_closes_at(lines, i + 1, c);
    } else {
        lemma_closing_paren_line_strips(lines[c]);
    }
}

/// An import `from x import (` whose parentheses now hold nothing but blank
/// or comment-only lines is dropped whole, through its closing `)` line:
/// the tidied lines from it on are those from after the `)` on.
pub proof fn law_emptied_paren_import_is_dropped(lines: Seq<Seq<u8>>, open: int, close: int)
    requires
        0 <= open < close < lines.len(),
        spec_classify_import_stub(lines[open]) == ImportStub::OpenParen,
        forall|i: int| open < i < close ==> is_blank_or_comment_line(#[trigger] lines[i]),
        is_closing_paren_line(lines[close]),
    ensures
        without_dangling_from(lines, open) == without_dangling_from(lines, close + 1),
{
    lemma_block_closes_at(lines, open + 1, close);
}

/// No line of the tidied result is an import with no names left (`import`
/// or `from x import` alone).
proof fn lemma_no_bare_import_from(lines: Seq<Seq<u8>>, index: int)
    ensures
        forall|i: int|
            0 <= i < without_dangling_from(lines, index).len() ==> spec_classify_import_stub(
                #[trigger] without_dangling_from(lines, index)[i],
            ) != ImportStub::Bare,
    decreases lines.len() - index,
{
    if 0 <= index < lines.len() {
        lemma_no_bare_import_from(lines, index + 1);
        match spec_classify_import_stub(lines[index]) {
            ImportStub::Bare => {},
            ImportStub::OpenParen => {
                match spec_empty_paren_block_end(lines, index) {
                    Some(close) => {
                        if index < close < lines.len() {
                            lemma_no_bare_import_from(lines, close + 1);
                        }
                    },
                    None => {},
                }
            },
            ImportStub::NotAStub => {},
        }
    }
}

/// Removing parts never leaves an import with no names (`import` or
/// `from x import` alone) in the file.
pub proof fn law_no_bare_import_is_left(lines: Seq<Seq<u8>>, parts: Seq<Part>)
    ensures
        forall|i: int|
            0 <= i < spec_remove_file_parts_from_content(lines, parts).len()
                ==> spec_classify_import_stub(
                #[trigger] spec_remove_file_parts_from_content(lines, parts)[i],
            ) != ImportStub::Bare,
{
    let sorted = stable_sort(parts, part_order());
    lemma_no_bare_import_from(finish(run_lines(lines, sorted, lines.len() as int)), 0);
}

} // verus!
