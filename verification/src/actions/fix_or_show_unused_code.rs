//! What `--fix` and `--dry` do to each file holding unused code: the parts
//! to remove are grouped by file, and for each file the new content is
//! computed and either written, shown as a unified diff, or (when nothing
//! but whitespace is left) the file is removed.

use vstd::prelude::*;

use crate::actions::merge_overlapping_file_parts::{
    law_merge_ignores_part_order, merge_overlapping_file_parts, spec_merge_overlapping_file_parts,
};
use crate::actions::remove_file_parts_from_content::{
    remove_file_parts_from_content, spec_remove_file_parts_from_content,
};
use crate::data_types::{Args, Part};
use crate::utils::add_colors_to_diff::{add_colors_to_diff, spec_add_colors_to_diff};
use crate::utils::bytes::{join_bytes, join_on, lemma_bytes_deep_view, views};
use crate::utils::fnmatch::{match_any, spec_match_any};
use crate::utils::name_set::{
    char_lt, chars_less, lemma_char_lt_irreflexive, lemma_char_lt_total,
    lemma_char_lt_transitive,
};
use crate::utils::text::{chars_of, string_views, utf8_lossy, utf8_lossy_result};
use crate::visitor::code_item::{path_as_posix, spec_as_posix, CodeItem};

verus! {

/// The lines of a text as `readlines()` gives them: each keeps its `\n`,
/// the last one may lack it.
pub open spec fn spec_readlines(content: Seq<u8>) -> Seq<Seq<u8>>
    decreases content.len(),
{
    if content.len() == 0 {
        Seq::empty()
    } else {
        let prev = spec_readlines(content.drop_last());
        let starts_line = content.len() == 1 || content[content.len() - 2] == 10u8;
        if starts_line {
            prev.push(seq![content.last()])
        } else {
            prev.update(prev.len() - 1, prev.last().push(content.last()))
        }
    }
}

/// There are no more lines than bytes.
pub proof fn lemma_readlines_len(content: Seq<u8>)
    ensures
        spec_readlines(content).len() <= content.len(),
        content.len() > 0 ==> spec_readlines(content).len() > 0,
    decreases content.len(),
{
    if content.len() > 0 {
        lemma_readlines_len(content.drop_last());
    }
}

/// Splits raw bytes into lines the way Python's `readlines()` does.
pub fn readlines(content: &[u8]) -> (r: Vec<Vec<u8>>)
    ensures
        views(r@) == spec_readlines(content@),
{
    let mut lines: Vec<Vec<u8>> = Vec::new();
    let mut cur: Vec<u8> = Vec::new();
    for i in 0..content.len()
        invariant
            spec_readlines(content@.take(i as int)) == views(lines@) + if cur@.len() > 0 {
                seq![cur@]
            } else {
                Seq::empty()
            },
            cur@.len() > 0 ==> i > 0 && content@[i - 1] != 10u8,
            cur@.len() == 0 ==> (i == 0 || content@[i - 1] == 10u8),
    {
        let ghost t = content@.take(i + 1);
        assert(t.drop_last() =~= content@.take(i as int));
        assert(t.last() == content@[i as int]);
        proof {
            lemma_readlines_len(content@.take(i as int));
        }
        let ghost before = views(lines@);
        let ghost cv = cur@;
        proof {
            if cv.len() > 0 {
                assert(views(lines@) + seq![cv] =~= before.push(cv));
                assert(t[t.len() - 2] == content@[i - 1]);
            } else {
                assert(views(lines@) + Seq::<Seq<u8>>::empty() =~= before);
                if i > 0 {
                    assert(t[t.len() - 2] == content@[i - 1]);
                }
            }
        }
        cur.push(content[i]);
        assert(spec_readlines(t) =~~= before.push(cur@));
        if content[i] == 10u8 {
            let line = cur;
            cur = Vec::new();
            lines.push(line);
            assert(views(lines@) =~= before.push(cv.push(content@[i as int])));
            assert(spec_readlines(t) =~= views(lines@) + Seq::<Seq<u8>>::empty());
        }
    }
    if cur.len() > 0 {
        let ghost before = views(lines@);
        let ghost cv = cur@;
        lines.push(cur);
        assert(views(lines@) =~= before + seq![cv]);
    } else {
        assert(views(lines@) + Seq::<Seq<u8>>::empty() =~= views(lines@));
    }
    assert(content@.take(content.len() as int) =~= content@);
    lines
}

/// The lines one after the other.
pub open spec fn concat_lines(lines: Seq<Seq<u8>>) -> Seq<u8>
    decreases lines.len(),
{
    if lines.len() == 0 {
        Seq::empty()
    } else {
        concat_lines(lines.drop_last()) + lines.last()
    }
}

/// Whitespace as `bytes.strip()` has it (with vertical tab and form feed).
pub open spec fn is_blank_byte(b: u8) -> bool {
    b == 32u8 || b == 9u8 || b == 10u8 || b == 13u8 || b == 11u8 || b == 12u8
}

/// Nothing but whitespace.
pub open spec fn is_blank(content: Seq<u8>) -> bool {
    forall|i: int| 0 <= i < content.len() ==> is_blank_byte(#[trigger] content[i])
}

/// What `similar` writes for `TextDiff::from_lines(old, new)` as a unified
/// diff with three lines of context and `header` as both file names, as
/// UTF-8 bytes.
pub uninterp spec fn unified_diff_result(old: Seq<char>, new: Seq<char>, header: Seq<char>) -> Seq<u8>;

/// Calls `similar::TextDiff::from_lines(old, new)`, then
/// `unified_diff().context_radius(3).header(header, header)` and renders it.
/// The contract claims only that the diff is determined by the three texts
/// (no deadline is set, so the diff does not depend on time).
#[verifier::external_body]
fn unified_diff(old: &str, new: &str, header: &str) -> (r: Vec<u8>)
    ensures
        r@ == unified_diff_result(old@, new@, header@),
{
    similar::TextDiff::from_lines(old, new).unified_diff().context_radius(3).header(
        header,
        header,
    ).to_string().into_bytes()
}

/// The content of a file once the given parts are removed.
pub open spec fn updated_content(parts: Seq<Part>, original: Seq<u8>) -> Seq<u8> {
    concat_lines(
        spec_remove_file_parts_from_content(
            spec_readlines(original),
            spec_merge_overlapping_file_parts(parts),
        ),
    )
}

/// What to do with one file.
#[derive(Debug)]
pub enum FileFix {
    /// Nothing but whitespace is left: remove the file.
    Remove,
    /// Write the new content (`--fix`).
    Write(Vec<u8>),
    /// Show this diff (`--dry`).
    Show(Vec<u8>),
    /// Leave the file alone.
    Keep,
}

/// The diff shown for a file under `--dry`, colored unless `--no-color`.
pub open spec fn shown_diff(filename: Seq<char>, original: Seq<u8>, updated: Seq<u8>, no_color: bool) -> Seq<u8> {
    let diff = unified_diff_result(utf8_lossy_result(original), utf8_lossy_result(updated), filename);
    if no_color {
        diff
    } else {
        spec_add_colors_to_diff(diff)
    }
}

/// What happens to the file `filename` holding `original` when `parts` are
/// removed: removal when only whitespace is left; otherwise, for a file that
/// `--only` admits, the diff under `--dry` or the new content under `--fix`.
pub open spec fn file_fix_matches(
    r: FileFix,
    filename: Seq<char>,
    parts: Seq<Part>,
    original: Seq<u8>,
    args: Args,
) -> bool {
    let updated = updated_content(parts, original);
    if is_blank(updated) {
        r is Remove
    } else if args.only@.len() > 0 && !spec_match_any(filename, string_views(args.only@), true) {
        r is Keep
    } else if args.dry {
        r matches FileFix::Show(d) && d@ == shown_diff(filename, original, updated, args.no_color)
    } else if args.fix {
        r matches FileFix::Write(c) && c@ == updated
    } else {
        r is Keep
    }
}

/// Decides what happens to one file (see `file_fix_matches`).
pub fn plan_file_fix(filename: &str, parts: &[Part], original: &[u8], args: &Args) -> (r: FileFix)
    requires
        original@.len() < u32::MAX,
    ensures
        file_fix_matches(r, filename@, parts@, original@, *args),
{
    let merged = merge_overlapping_file_parts(parts);
    let lines = readlines(original);
    proof {
        lemma_readlines_len(original@);
        lemma_lines_deep_view(&lines);
    }
    let updated_lines = remove_file_parts_from_content(lines.as_slice(), merged.as_slice());
    proof {
        lemma_lines_deep_view(&updated_lines);
    }
    let ghost ul = views(updated_lines@);
    let mut updated: Vec<u8> = Vec::new();
    for i in 0..updated_lines.len()
        invariant
            ul == views(updated_lines@),
            updated@ == concat_lines(ul.take(i as int)),
    {
        assert(ul.take(i + 1).drop_last() =~= ul.take(i as int));
        assert(ul.take(i + 1).last() == updated_lines@[i as int]@);
        let ghost before = updated@;
        let line = &updated_lines[i];
        for k in 0..line.len()
            invariant
                updated@ == before + line@.take(k as int),
        {
            updated.push(line[k]);
            assert(line@.take(k + 1) =~= line@.take(k as int).push(line@[k as int]));
            assert(updated@ =~= before + line@.take(k + 1));
        }
        assert(line@.take(line.len() as int) =~= line@);
    }
    assert(ul.take(updated_lines.len() as int) =~= ul);
    let mut blank = true;
    for i in 0..updated.len()
        invariant
            blank == forall|j: int| 0 <= j < i ==> is_blank_byte(#[trigger] updated@[j]),
    {
        let b = updated[i];
        if !(b == 32u8 || b == 9u8 || b == 10u8 || b == 13u8 || b == 11u8 || b == 12u8) {
            blank = false;
        }
    }
    if blank {
        return FileFix::Remove;
    }
    if args.only.len() > 0 && !match_any(filename, args.only.as_slice(), true) {
        return FileFix::Keep;
    }
    if args.dry {
        let old_text = utf8_lossy(original);
        let new_text = utf8_lossy(updated.as_slice());
        let diff = unified_diff(old_text.as_str(), new_text.as_str(), filename);
        if args.no_color {
            FileFix::Show(diff)
        } else {
            FileFix::Show(add_colors_to_diff(diff.as_slice()))
        }
    } else if args.fix {
        FileFix::Write(updated)
    } else {
        FileFix::Keep
    }
}

/// The deep view of some lines is their views.
proof fn lemma_lines_deep_view(v: &Vec<Vec<u8>>)
    ensures
        v.deep_view() == views(v@),
{
    assert forall|i: int| 0 <= i < v@.len() implies v.deep_view()[i] == views(v@)[i] by {
        lemma_bytes_deep_view(&v@[i]);
    }
    assert(v.deep_view() =~= views(v@));
}

/// The parts of the items whose file (with forward slashes) is `file`, in
/// order.
pub open spec fn parts_of_file(items: Seq<CodeItem>, file: Seq<char>) -> Seq<Part>
    decreases items.len(),
{
    if items.len() == 0 {
        Seq::empty()
    } else {
        parts_of_file(items.drop_last(), file) + if spec_as_posix(items.last().filename@) == file {
            items.last().code_parts@
        } else {
            Seq::empty()
        }
    }
}

/// The grouping of the items by file: the files (with forward slashes), in
/// increasing order and each once, with the parts of each.
pub open spec fn groups_of(groups: Seq<(Seq<char>, Seq<Part>)>, items: Seq<CodeItem>) -> bool {
    &&& forall|a: int, b: int|
        0 <= a < b < groups.len() ==> char_lt(#[trigger] groups[a].0, #[trigger] groups[b].0)
    &&& forall|k: int| 0 <= k < groups.len() ==> (#[trigger] groups[k]).1 == parts_of_file(items, groups[k].0)
    &&& forall|f: Seq<char>|
        #![trigger has_group(groups, f)]
        #![trigger has_item_in(items, f)]
        has_group(groups, f) <==> has_item_in(items, f)
}

/// Some group is for the file `f`.
pub open spec fn has_group(groups: Seq<(Seq<char>, Seq<Part>)>, f: Seq<char>) -> bool {
    exists|k: int| 0 <= k < groups.len() && #[trigger] groups[k].0 == f
}

/// Some item is in the file `f` (with forward slashes).
pub open spec fn has_item_in(items: Seq<CodeItem>, f: Seq<char>) -> bool {
    exists|i: int| 0 <= i < items.len() && spec_as_posix(#[trigger] items[i].filename@) == f
}

/// The groups as values.
pub open spec fn group_views(groups: Seq<(String, Vec<Part>)>) -> Seq<(Seq<char>, Seq<Part>)> {
    groups.map_values(|g: (String, Vec<Part>)| (g.0@, g.1@))
}

/// Groups the parts of the items by file (see `groups_of`).
pub fn group_parts_by_file(items: &[CodeItem]) -> (r: Vec<(String, Vec<Part>)>)
    ensures
        groups_of(group_views(r@), items@),
{
    let mut groups: Vec<(String, Vec<Part>)> = Vec::new();
    for i in 0..items.len()
        invariant
            groups_of(group_views(groups@), items@.take(i as int)),
    {
        let ghost t = items@.take(i + 1);
        assert(t.drop_last() =~= items@.take(i as int));
        assert(t.last() == items@[i as int]);
        let key = path_as_posix(items[i].filename.as_str());
        let kc = chars_of(key.as_str());
        let ghost gv = group_views(groups@);
        let mut j: usize = 0;
        let mut found = false;
        let mut stop = false;
        while j < groups.len() && !stop
            invariant
                gv == group_views(groups@),
                j <= groups.len(),
                kc@ == key@,
                forall|k: int| 0 <= k < j ==> char_lt(#[trigger] gv[k].0, key@),
                found ==> stop,
                stop ==> j < groups.len(),
                stop && found ==> gv[j as int].0 == key@,
                stop && !found ==> char_lt(key@, gv[j as int].0),
            decreases groups.len() - j, (if stop { 0int } else { 1int }),
        {
            let g = chars_of(groups[j].0.as_str());
            assert(g@ == gv[j as int].0);
            if chars_less(g.as_slice(), kc.as_slice()) {
                j = j + 1;
            } else if groups[j].0 == key {
                found = true;
                stop = true;
            } else {
                proof {
                    lemma_char_lt_total(gv[j as int].0, key@);
                }
                stop = true;
            }
        }
        let ghost items_i = items@.take(i as int);
        assert(items_i.push(items@[i as int]) =~= t);
        if found {
            let ghost old_parts = groups@[j as int].1@;
            let ghost gb = groups@;
            assert(gv[j as int] == (gb[j as int].0@, gb[j as int].1@));
            let mut entry = groups.remove(j);
            assert(entry == gb[j as int]);
            let ghost after_remove = groups@;
            let n = items[i].code_parts.len();
            for k in 0..n
                invariant
                    i < items.len(),
                    n == items@[i as int].code_parts@.len(),
                    entry.0@ == key@,
                    entry.1@ == old_parts + items@[i as int].code_parts@.take(k as int),
            {
                entry.1.push(items[i].code_parts[k]);
                assert(items@[i as int].code_parts@.take(k + 1) =~= items@[i as int].code_parts@.take(
                    k as int,
                ).push(items@[i as int].code_parts@[k as int]));
            }
            assert(items@[i as int].code_parts@.take(items@[i as int].code_parts.len() as int)
                =~= items@[i as int].code_parts@);
            let ghost ev = (entry.0@, entry.1@);
            assert(ev.0 == key@);
            assert(old_parts == parts_of_file(items_i, key@));
            assert(parts_of_file(t, key@) =~= parts_of_file(items_i, key@) + items@[i as int].code_parts@);
            assert(ev.1 == parts_of_file(t, key@));
            groups.insert(j, entry);
            assert(groups@ =~= after_remove.insert(j as int, entry));
            assert(group_views(groups@) =~= gv.update(
                j as int,
                (key@, parts_of_file(t, key@)),
            ));
            proof {
                lemma_groups_step(gv, items_i, items@[i as int], key@, j as int, true);
            }
        } else {
            let mut parts: Vec<Part> = Vec::new();
            let n = items[i].code_parts.len();
            for k in 0..n
                invariant
                    i < items.len(),
                    n == items@[i as int].code_parts@.len(),
                    parts@ == items@[i as int].code_parts@.take(k as int),
            {
                parts.push(items[i].code_parts[k]);
                assert(items@[i as int].code_parts@.take(k + 1) =~= items@[i as int].code_parts@.take(
                    k as int,
                ).push(items@[i as int].code_parts@[k as int]));
            }
            assert(items@[i as int].code_parts@.take(items@[i as int].code_parts.len() as int)
                =~= items@[i as int].code_parts@);
            groups.insert(j, (key, parts));
            assert(group_views(groups@) =~= gv.insert(j as int, (key@, items@[i as int].code_parts@)));
            proof {
                lemma_groups_step(gv, items_i, items@[i as int], key@, j as int, false);
            }
        }
    }
    assert(items@.take(items.len() as int) =~= items@);
    groups
}

/// Adding one item to a grouping: its parts join its file's group, or a
/// new group for its file goes in at its place.
proof fn lemma_groups_step(
    gv: Seq<(Seq<char>, Seq<Part>)>,
    items: Seq<CodeItem>,
    item: CodeItem,
    key: Seq<char>,
    j: int,
    found: bool,
)
    requires
        groups_of(gv, items),
        key == spec_as_posix(item.filename@),
        0 <= j <= gv.len(),
        forall|k: int| 0 <= k < j ==> char_lt(#[trigger] gv[k].0, key),
        found ==> j < gv.len() && gv[j].0 == key,
        !found && j < gv.len() ==> char_lt(key, gv[j].0),
    ensures
        groups_of(
            if found {
                gv.update(j, (key, parts_of_file(items.push(item), key)))
            } else {
                gv.insert(j, (key, item.code_parts@))
            },
            items.push(item),
        ),
{
    let t = items.push(item);
    assert(t.drop_last() =~= items);
    assert forall|f: Seq<char>| f != key implies parts_of_file(t, f) == parts_of_file(items, f) by {
        assert(parts_of_file(items, f) + Seq::<Part>::empty() =~= parts_of_file(items, f));
    }
    if found {
        let g = gv.update(j, (key, parts_of_file(t, key)));
        assert forall|f: Seq<char>| has_group(g, f) <==> has_item_in(t, f) by {
            if has_group(g, f) {
                let k = choose|k: int| 0 <= k < g.len() && #[trigger] g[k].0 == f;
                if k == j {
                    assert(spec_as_posix(t[items.len() as int].filename@) == f);
                } else {
                    assert(gv[k].0 == f);
                    assert(has_group(gv, f));
                    let i = choose|i: int| 0 <= i < items.len() && spec_as_posix(#[trigger] items[i].filename@) == f;
                    assert(t[i] == items[i]);
                }
            }
            if has_item_in(t, f) {
                let i = choose|i: int| 0 <= i < t.len() && spec_as_posix(#[trigger] t[i].filename@) == f;
                if i == items.len() {
                    assert(g[j].0 == f);
                } else {
                    assert(items[i] == t[i]);
                    assert(has_item_in(items, f));
                    let k = choose|k: int| 0 <= k < gv.len() && #[trigger] gv[k].0 == f;
                    assert(g[k].0 == f);
                }
            }
        }
        assert forall|k: int| 0 <= k < g.len() implies (#[trigger] g[k]).1 == parts_of_file(t, g[k].0) by {
            if k != j {
                assert(gv[k].0 != key) by {
                    lemma_char_lt_irreflexive(key);
                    if k > j {
                        assert(char_lt(gv[j].0, gv[k].0));
                    }
                }
            }
        }
    } else {
        let g = gv.insert(j, (key, item.code_parts@));
        assert(forall|k: int| 0 <= k < gv.len() ==> #[trigger] gv[k].0 != key) by {
            assert forall|k: int| 0 <= k < gv.len() implies #[trigger] gv[k].0 != key by {
                lemma_char_lt_irreflexive(key);
                if k > j {
                    lemma_char_lt_transitive(key, gv[j].0, gv[k].0);
                }
            }
        }
        assert(forall|i: int| 0 <= i < items.len() ==> spec_as_posix(#[trigger] items[i].filename@) != key) by {
            assert forall|i: int| 0 <= i < items.len() implies spec_as_posix(#[trigger] items[i].filename@) != key by {
                if spec_as_posix(items[i].filename@) == key {
                    assert(has_item_in(items, key));
                    let k = choose|k: int| 0 <= k < gv.len() && #[trigger] gv[k].0 == key;
                }
            }
        }
        assert(parts_of_file(items, key) =~= Seq::<Part>::empty()) by {
            lemma_parts_of_absent_file(items, key);
        }
        assert(parts_of_file(t, key) =~= item.code_parts@);
        assert forall|a: int, b: int| 0 <= a < b < g.len() implies char_lt(#[trigger] g[a].0, #[trigger] g[b].0) by {
            if a < j && b < j {
                assert(g[a] == gv[a] && g[b] == gv[b]);
            } else if a < j && b == j {
            } else if a < j && b > j {
                assert(g[b] == gv[b - 1]);
            } else if a == j {
                assert(g[b] == gv[b - 1]);
                if b - 1 > j {
                    lemma_char_lt_transitive(key, gv[j].0, gv[b - 1].0);
                }
            } else {
                assert(g[a] == gv[a - 1]);
                assert(g[b] == gv[b - 1]);
            }
        }
        assert forall|k: int| 0 <= k < g.len() implies (#[trigger] g[k]).1 == parts_of_file(t, g[k].0) by {
            if k < j {
                assert(g[k] == gv[k]);
            } else if k > j {
                assert(g[k] == gv[k - 1]);
            }
        }
        assert forall|f: Seq<char>| has_group(g, f) <==> has_item_in(t, f) by {
            if has_group(g, f) {
                let k = choose|k: int| 0 <= k < g.len() && #[trigger] g[k].0 == f;
                if k == j {
                    assert(spec_as_posix(t[items.len() as int].filename@) == f);
                } else {
                    let kk = if k < j { k } else { k - 1 };
                    assert(gv[kk].0 == f);
                    assert(has_group(gv, f));
                    let i = choose|i: int| 0 <= i < items.len() && spec_as_posix(#[trigger] items[i].filename@) == f;
                    assert(t[i] == items[i]);
                }
            }
            if has_item_in(t, f) {
                let i = choose|i: int| 0 <= i < t.len() && spec_as_posix(#[trigger] t[i].filename@) == f;
                if i == items.len() {
                    assert(g[j].0 == f);
                } else {
                    assert(items[i] == t[i]);
                    assert(has_item_in(items, f));
                    let k = choose|k: int| 0 <= k < gv.len() && #[trigger] gv[k].0 == f;
                    if k < j {
                        assert(g[k].0 == f);
                    } else {
                        assert(g[k + 1].0 == f);
                    }
                }
            }
        }
    }
}

/// No item is in a file: it has no parts there.
proof fn lemma_parts_of_absent_file(items: Seq<CodeItem>, file: Seq<char>)
    requires
        forall|i: int| 0 <= i < items.len() ==> spec_as_posix(#[trigger] items[i].filename@) != file,
    ensures
        parts_of_file(items, file) == Seq::<Part>::empty(),
    decreases items.len(),
{
    if items.len() > 0 {
        let rest = items.drop_last();
        assert forall|i: int| 0 <= i < rest.len() implies spec_as_posix(#[trigger] rest[i].filename@) != file by {
            assert(rest[i] == items[i]);
        }
        lemma_parts_of_absent_file(rest, file);
        assert(spec_as_posix(items.last().filename@) != file);
        assert(parts_of_file(items, file) =~= Seq::<Part>::empty());
    }
}

/// The shown diffs, one after the other with a newline between, as text
/// (empty when there are none).
pub fn join_diffs(diffs: &Vec<Vec<u8>>) -> (r: String)
    ensures
        r@ == if diffs@.len() == 0 {
            Seq::empty()
        } else {
            utf8_lossy_result(join_on(views(diffs@), 10u8))
        },
{
    if diffs.len() == 0 {
        return String::new();
    }
    let joined = join_bytes(diffs, 10u8);
    utf8_lossy(joined.as_slice())
}

/// What a fix leaves of a file does not depend on the order in which the
/// unused parts are given.
pub proof fn law_fix_ignores_part_order(original: Seq<u8>, p1: Seq<Part>, p2: Seq<Part>)
    requires
        p1.to_multiset() == p2.to_multiset(),
    ensures
        updated_content(p1, original) == updated_content(p2, original),
{
    law_merge_ignores_part_order(p1, p2);
}

} // verus!
