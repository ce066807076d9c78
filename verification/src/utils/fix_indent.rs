//! Dedents a block of text by the indentation common to its lines.

use vstd::prelude::*;

use crate::utils::bytes::{
    bytes_range, first_non_ws, join_bytes, join_on, leading_ws_len, lemma_first_non_ws_bounds,
    split_bytes, split_on, views,
};

verus! {

/// The text of `doc` from byte `i` on, tabs expanded (tab stops every 8
/// columns, the column counted from the last newline), `col` being the
/// column at byte `i` modulo 8.
pub open spec fn expand_tabs_from(doc: Seq<u8>, i: int, col: nat) -> Seq<u8>
    decreases doc.len() - i,
{
    if i < 0 || i >= doc.len() {
        Seq::empty()
    } else if doc[i] == 9u8 {
        let spaces = (8 - col % 8) as nat;
        Seq::new(spaces, |k: int| 32u8) + expand_tabs_from(doc, i + 1, 0)
    } else if doc[i] == 10u8 {
        seq![10u8] + expand_tabs_from(doc, i + 1, 0)
    } else {
        seq![doc[i]] + expand_tabs_from(doc, i + 1, (col + 1) % 8)
    }
}

/// `bytes.expandtabs()`.
pub open spec fn spec_expand_tabs(doc: Seq<u8>) -> Seq<u8> {
    expand_tabs_from(doc, 0, 0)
}

/// The line has a non-whitespace byte.
pub open spec fn has_content(line: Seq<u8>) -> bool {
    first_non_ws(line, 0) < line.len()
}

/// The smallest indentation of a line with content (`None` if there is none).
pub open spec fn margin(lines: Seq<Seq<u8>>) -> Option<nat>
    decreases lines.len(),
{
    if lines.len() == 0 {
        None
    } else {
        let rest = margin(lines.drop_last());
        let line = lines.last();
        if has_content(line) {
            let indent = first_non_ws(line, 0) as nat;
            match rest {
                None => Some(indent),
                Some(m) => Some(if indent < m { indent } else { m }),
            }
        } else {
            rest
        }
    }
}

/// A line after the first, with the margin removed (emptied if shorter than the margin).
pub open spec fn dedent_line(line: Seq<u8>, m: Option<nat>) -> Seq<u8> {
    match m {
        None => line,
        Some(m) => if m <= line.len() {
            line.skip(m as int)
        } else {
            Seq::empty()
        },
    }
}

/// The lines dedented: the first loses all its leading whitespace, the
/// others the margin.
pub open spec fn dedented(lines: Seq<Seq<u8>>) -> Seq<Seq<u8>> {
    let m = margin(lines);
    Seq::new(
        lines.len(),
        |k: int|
            if k == 0 {
                lines[0].skip(first_non_ws(lines[0], 0))
            } else {
                dedent_line(lines[k], m)
            },
    )
}

/// The lines without their leading empty ones.
pub open spec fn drop_leading_empty(lines: Seq<Seq<u8>>) -> Seq<Seq<u8>>
    decreases lines.len(),
{
    if lines.len() > 0 && lines[0].len() == 0 {
        drop_leading_empty(lines.drop_first())
    } else {
        lines
    }
}

/// What `fix_indent` returns.
pub open spec fn spec_fix_indent(doc: Seq<u8>) -> Seq<u8> {
    join_on(drop_leading_empty(dedented(split_on(spec_expand_tabs(doc), 10u8))), 10u8)
}

fn expand_tabs(doc: &[u8]) -> (r: Vec<u8>)
    ensures
        r@ == spec_expand_tabs(doc@),
{
    let mut out: Vec<u8> = Vec::new();
    let mut col: usize = 0;
    let mut i: usize = 0;
    while i < doc.len()
        invariant
            i <= doc.len(),
            col < 8,
            out@ + expand_tabs_from(doc@, i as int, col as nat) == expand_tabs_from(doc@, 0, 0),
        decreases doc.len() - i,
    {
        let b = doc[i];
        let ghost before = out@;
        if b == 9u8 {
            let spaces = 8 - (col % 8);
            let mut k: usize = 0;
            while k < spaces
                invariant
                    k <= spaces,
                    out@ == before + Seq::new(k as nat, |j: int| 32u8),
                decreases spaces - k,
            {
                out.push(32u8);
                k = k + 1;
                assert(out@ =~= before + Seq::new(k as nat, |j: int| 32u8));
            }
            assert(out@ + expand_tabs_from(doc@, i + 1, 0) =~= before + expand_tabs_from(
                doc@,
                i as int,
                col as nat,
            ));
            col = 0;
            i = i + 1;
        } else if b == 10u8 {
            out.push(b);
            assert(out@ + expand_tabs_from(doc@, i + 1, 0) =~= before + expand_tabs_from(
                doc@,
                i as int,
                col as nat,
            ));
            col = 0;
            i = i + 1;
        } else {
            out.push(b);
            assert(out@ + expand_tabs_from(doc@, i + 1, ((col + 1) % 8) as nat) =~= before
                + expand_tabs_from(doc@, i as int, col as nat));
            col = (col + 1) % 8;
            i = i + 1;
        }
    }
    assert(out@ + Seq::<u8>::empty() =~= out@);
    out
}

/// Removes the indentation of the first line and the smallest indentation
/// of any line with content from all following lines (shorter lines become
/// empty), after expanding tabs; leading empty lines are dropped, trailing
/// ones kept. Always `Some`.
pub fn fix_indent(doc: &[u8]) -> (r: Option<Vec<u8>>)
    ensures
        r matches Some(v) && v@ == spec_fix_indent(doc@),
{
    let expanded = expand_tabs(doc);
    let lines = split_bytes(expanded.as_slice(), 10u8);
    let ghost ls = split_on(expanded@, 10u8);
    let mut m: Option<usize> = None;
    for i in 0..lines.len()
        invariant
            views(lines@) == ls,
            match m {
                None => margin(ls.take(i as int)) is None,
                Some(x) => margin(ls.take(i as int)) == Some(x as nat),
            },
    {
        assert(ls.take(i + 1).drop_last() =~= ls.take(i as int));
        assert(ls.take(i + 1).last() == lines@[i as int]@);
        let lead = leading_ws_len(lines[i].as_slice());
        proof {
            lemma_first_non_ws_bounds(lines@[i as int]@, 0);
        }
        if lead < lines[i].len() {
            m = match m {
                None => Some(lead),
                Some(x) => Some(if lead < x { lead } else { x }),
            };
        }
    }
    assert(ls.take(lines.len() as int) =~= ls);
    let ghost target = dedented(ls);
    let mut fixed: Vec<Vec<u8>> = Vec::new();
    for k in 0..lines.len()
        invariant
            views(lines@) == ls,
            target == dedented(ls),
            match m {
                None => margin(ls) is None,
                Some(x) => margin(ls) == Some(x as nat),
            },
            views(fixed@) == target.take(k as int),
    {
        let line = lines[k].as_slice();
        assert(line@ == ls[k as int]);
        let new_line = if k == 0 {
            let lead = leading_ws_len(line);
            bytes_range(line, lead, line.len())
        } else {
            match m {
                None => bytes_range(line, 0, line.len()),
                Some(x) => if x <= line.len() {
                    bytes_range(line, x, line.len())
                } else {
                    Vec::new()
                },
            }
        };
        assert(new_line@ =~= target[k as int]);
        let ghost before = views(fixed@);
        let ghost nl = new_line@;
        fixed.push(new_line);
        assert(views(fixed@) =~= before.push(nl));
        assert(target.take(k + 1) =~= target.take(k as int).push(target[k as int]));
    }
    assert(target.take(lines.len() as int) =~= target);
    let mut start: usize = 0;
    while start < fixed.len() && fixed[start].len() == 0
        invariant
            start <= fixed.len(),
            drop_leading_empty(views(fixed@)) == drop_leading_empty(views(fixed@).skip(
                start as int,
            )),
        decreases fixed.len() - start,
    {
        assert(views(fixed@).skip(start as int).drop_first() =~= views(fixed@).skip(start + 1));
        start = start + 1;
    }
    let mut kept: Vec<Vec<u8>> = Vec::new();
    for k in start..fixed.len()
        invariant
            start <= fixed.len(),
            views(kept@) == views(fixed@).subrange(start as int, k as int),
    {
        let ghost before = views(kept@);
        let c = bytes_range(fixed[k].as_slice(), 0, fixed[k].len());
        let ghost cv = c@;
        assert(cv =~= fixed@[k as int]@);
        kept.push(c);
        assert(views(kept@) =~= before.push(cv));
        assert(views(fixed@).subrange(start as int, k + 1) =~= views(fixed@).subrange(
            start as int,
            k as int,
        ).push(fixed@[k as int]@));
    }
    assert(views(fixed@).subrange(start as int, fixed.len() as int) =~= views(fixed@).skip(
        start as int,
    ));
    assert(drop_leading_empty(views(fixed@).skip(start as int)) == views(fixed@).skip(
        start as int,
    ));
    Some(join_bytes(&kept, 10u8))
}

} // verus!
