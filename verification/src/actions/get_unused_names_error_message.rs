//! The report printed for the unused code that was found.

use vstd::prelude::*;

use crate::constants::{spec_display_name, spec_error_code, UnusedCodeType};
use crate::data_types::Args;
use crate::utils::fnmatch::{match_any, spec_match_any};
use crate::utils::text::{
    chars_of, chars_start_with, join, join_chars, push_decimal, push_str, remove_all, remove_all_occurrences,
    spec_decimal, string_from_chars, string_views,
};
use crate::visitor::code_item::{
    path_as_posix, spec_as_posix, spec_filename_with_position, CodeItem,
};

verus! {

/// The ANSI sequence for bright red text.
pub open spec fn ansi_red() -> Seq<char> {
    seq!['\x1b', '[', '9', '1', 'm']
}

/// The ANSI sequence for bold text.
pub open spec fn ansi_bold() -> Seq<char> {
    seq!['\x1b', '[', '1', 'm']
}

/// The ANSI sequence that resets the text style.
pub open spec fn ansi_reset() -> Seq<char> {
    seq!['\x1b', '[', '0', 'm']
}

/// The report line for one item, in color:
/// `file:line:col: <red>DCxx<reset> <message>`, where the message is the
/// item's own or "<Kind> `<bold>name<reset>` is never used".
pub open spec fn colored_item_message(item: CodeItem) -> Seq<char> {
    spec_filename_with_position(item.filename@, item.name_line, item.name_column) + seq![' ']
        + ansi_red() + spec_error_code(item.type_) + ansi_reset() + seq![' '] + if item.message@.len()
        > 0 {
        item.message@
    } else {
        spec_display_name(item.type_) + seq![' ', '`'] + ansi_bold() + item.name@ + ansi_reset()
            + "` is never used"@
    }
}

/// The report line for one item, its color sequences removed when `no_color`.
pub open spec fn item_message(item: CodeItem, no_color: bool) -> Seq<char> {
    if no_color {
        remove_all(
            remove_all(remove_all(colored_item_message(item), ansi_red()), ansi_bold()),
            ansi_reset(),
        )
    } else {
        colored_item_message(item)
    }
}

/// The item's file matches `--only` (or `--only` is not given).
pub open spec fn is_reported(item: CodeItem, only: Seq<String>) -> bool {
    only.len() == 0 || spec_match_any(spec_as_posix(item.filename@), string_views(only), true)
}

/// The report lines of the reported items, in order.
pub open spec fn report_lines(items: Seq<CodeItem>, only: Seq<String>, no_color: bool) -> Seq<
    Seq<char>,
>
    decreases items.len(),
{
    if items.len() == 0 {
        Seq::empty()
    } else {
        let rest = report_lines(items.drop_last(), only, no_color);
        if is_reported(items.last(), only) {
            rest.push(item_message(items.last(), no_color))
        } else {
            rest
        }
    }
}

/// `\nRemoved <bold>n<reset> unused code item(s)!`, colors removed when `no_color`.
pub open spec fn removed_message(n: nat, no_color: bool) -> Seq<char> {
    let colored = "\nRemoved "@ + ansi_bold() + spec_decimal(n) + ansi_reset()
        + " unused code item"@ + if n > 1 {
        seq!['s']
    } else {
        Seq::empty()
    } + seq!['!'];
    if no_color {
        remove_all(remove_all(colored, ansi_bold()), ansi_reset())
    } else {
        colored
    }
}

/// What `get_unused_names_error_message` returns: nothing when there is
/// nothing to report; an empty report under `--quiet`; the count under
/// `--count`; else one line per reported item, then, under `--fix`, the
/// number of removed items.
pub open spec fn spec_error_message(items: Seq<CodeItem>, args: Args) -> Option<Seq<char>> {
    if items.len() == 0 {
        None
    } else if args.quiet {
        Some(Seq::empty())
    } else if args.count {
        Some(spec_decimal(items.len()))
    } else {
        let lines = report_lines(items, args.only@, args.no_color);
        let all = if args.fix {
            lines.push(removed_message(lines.len(), args.no_color))
        } else {
            lines
        };
        Some(join(all, seq!['\n']))
    }
}

fn push_ansi_red(v: &mut Vec<char>)
    ensures
        final(v)@ == old(v)@ + ansi_red(),
{
    v.push('\x1b');
    v.push('[');
    v.push('9');
    v.push('1');
    v.push('m');
    assert(v@ =~= old(v)@ + ansi_red());
}

fn push_ansi_bold(v: &mut Vec<char>)
    ensures
        final(v)@ == old(v)@ + ansi_bold(),
{
    v.push('\x1b');
    v.push('[');
    v.push('1');
    v.push('m');
    assert(v@ =~= old(v)@ + ansi_bold());
}

fn push_ansi_reset(v: &mut Vec<char>)
    ensures
        final(v)@ == old(v)@ + ansi_reset(),
{
    v.push('\x1b');
    v.push('[');
    v.push('0');
    v.push('m');
    assert(v@ =~= old(v)@ + ansi_reset());
}

fn ansi_vec(which: u8) -> (r: Vec<char>)
    ensures
        which == 0 ==> r@ == ansi_red(),
        which == 1 ==> r@ == ansi_bold(),
        which >= 2 ==> r@ == ansi_reset(),
{
    let mut v: Vec<char> = Vec::new();
    if which == 0 {
        push_ansi_red(&mut v);
    } else if which == 1 {
        push_ansi_bold(&mut v);
    } else {
        push_ansi_reset(&mut v);
    }
    assert(v@ =~= Seq::<char>::empty() + v@);
    v
}

/// The report line for one item.
fn build_item_message(item: &CodeItem, no_color: bool) -> (r: Vec<char>)
    ensures
        r@ == item_message(*item, no_color),
{
    let position = item.filename_with_position();
    let mut m = chars_of(position.as_str());
    m.push(' ');
    push_ansi_red(&mut m);
    push_str(&mut m, item.error_code());
    push_ansi_reset(&mut m);
    m.push(' ');
    let ghost head = m@;
    if !item.message.as_str().is_empty() {
        push_str(&mut m, item.message.as_str());
    } else {
        let ghost h = m@;
        push_str(&mut m, item.type_.display_name());
        m.push(' ');
        m.push('`');
        push_ansi_bold(&mut m);
        push_str(&mut m, item.name.as_str());
        push_ansi_reset(&mut m);
        push_str(&mut m, "` is never used");
        assert(m@ =~= h + (spec_display_name(item.type_) + seq![' ', '`'] + ansi_bold()
            + item.name@ + ansi_reset() + "` is never used"@));
    }
    assert(m@ =~= colored_item_message(*item));
    if no_color {
        let red = ansi_vec(0);
        let bold = ansi_vec(1);
        let reset = ansi_vec(2);
        let a = remove_all_occurrences(m.as_slice(), red.as_slice());
        let b = remove_all_occurrences(a.as_slice(), bold.as_slice());
        remove_all_occurrences(b.as_slice(), reset.as_slice())
    } else {
        m
    }
}

fn build_removed_message(n: usize, no_color: bool) -> (r: Vec<char>)
    ensures
        r@ == removed_message(n as nat, no_color),
{
    let mut m: Vec<char> = Vec::new();
    push_str(&mut m, "\nRemoved ");
    push_ansi_bold(&mut m);
    push_decimal(&mut m, n as u64);
    push_ansi_reset(&mut m);
    push_str(&mut m, " unused code item");
    if n > 1 {
        m.push('s');
    }
    m.push('!');
    assert(m@ =~= "\nRemoved "@ + ansi_bold() + spec_decimal(n as nat) + ansi_reset()
        + " unused code item"@ + (if n > 1 {
        seq!['s']
    } else {
        Seq::<char>::empty()
    }) + seq!['!']);
    if no_color {
        let bold = ansi_vec(1);
        let reset = ansi_vec(2);
        let a = remove_all_occurrences(m.as_slice(), bold.as_slice());
        remove_all_occurrences(a.as_slice(), reset.as_slice())
    } else {
        m
    }
}

/// `None` when nothing is unused; `Some("")` under `--quiet` (a finding was
/// made, but nothing is printed); the number of findings under `--count`;
/// else one line per finding in a file that `--only` selects, followed,
/// under `--fix`, by how many items were removed.
pub fn get_unused_names_error_message(unused_names: &[CodeItem], args: &Args) -> (r: Option<
    String,
>)
    ensures
        match (r, spec_error_message(unused_names@, *args)) {
            (None, None) => true,
            (Some(s), Some(t)) => s@ == t,
            _ => false,
        },
{
    if unused_names.len() == 0 {
        return None;
    }
    if args.quiet {
        let e: Vec<char> = Vec::new();
        return Some(string_from_chars(e.as_slice()));
    }
    if args.count {
        let mut c: Vec<char> = Vec::new();
        push_decimal(&mut c, unused_names.len() as u64);
        assert(c@ =~= spec_decimal(unused_names@.len()));
        return Some(string_from_chars(c.as_slice()));
    }
    let mut messages: Vec<Vec<char>> = Vec::new();
    for i in 0..unused_names.len()
        invariant
            messages@.map_values(|p: Vec<char>| p@) == report_lines(
                unused_names@.take(i as int),
                args.only@,
                args.no_color,
            ),
    {
        let item = &unused_names[i];
        assert(unused_names@.take(i + 1).drop_last() =~= unused_names@.take(i as int));
        assert(unused_names@.take(i + 1).last() == *item);
        let ghost before = messages@;
        let posix = path_as_posix(item.filename.as_str());
        if args.only.len() == 0 || match_any(posix.as_str(), args.only.as_slice(), true) {
            let m = build_item_message(item, args.no_color);
            messages.push(m);
            assert(messages@.map_values(|p: Vec<char>| p@) =~= before.map_values(
                |p: Vec<char>| p@,
            ).push(item_message(*item, args.no_color)));
        }
    }
    assert(unused_names@.take(unused_names.len() as int) =~= unused_names@);
    if args.fix {
        let ghost before = messages@;
        let n = messages.len();
        let m = build_removed_message(n, args.no_color);
        messages.push(m);
        assert(messages@.map_values(|p: Vec<char>| p@) =~= before.map_values(|p: Vec<char>| p@).push(
            removed_message(n as nat, args.no_color),
        ));
    }
    let sep = vec!['\n'];
    assert(sep@ =~= seq!['\n']);
    let joined = join_chars(&messages, sep.as_slice());
    Some(string_from_chars(joined.as_slice()))
}

/// `s` holds no escape character.
pub open spec fn escape_free(s: Seq<char>) -> bool {
    forall|i: int| 0 <= i < s.len() ==> s[i] != '\x1b'
}

/// `s` with the red, bold and reset sequences removed, in that order.
pub open spec fn without_colors(s: Seq<char>) -> Seq<char> {
    remove_all(remove_all(remove_all(s, ansi_red()), ansi_bold()), ansi_reset())
}

/// One of the three color sequences.
spec fn is_color(x: Seq<char>) -> bool {
    x == ansi_red() || x == ansi_bold() || x == ansi_reset()
}

/// Nothing escape-free starts a color sequence, so removal passes over it.
proof fn lemma_remove_after_free(a: Seq<char>, b: Seq<char>, pat: Seq<char>)
    requires
        escape_free(a),
        is_color(pat),
    ensures
        remove_all(a + b, pat) == a + remove_all(b, pat),
    decreases a.len(),
{
    if a.len() > 0 {
        assert((a + b)[0] == a[0]);
        assert(!chars_start_with(a + b, pat)) by {
            if chars_start_with(a + b, pat) {
                assert((a + b).take(pat.len() as int)[0] == pat[0]);
            }
        }
        assert((a + b).skip(1) =~= a.skip(1) + b);
        lemma_remove_after_free(a.skip(1), b, pat);
        assert(seq![a[0]] + (a.skip(1) + remove_all(b, pat)) =~= a + remove_all(b, pat));
    } else {
        assert(a + b =~= b);
    }
}

/// A color sequence is removed from the front; another one is passed over.
proof fn lemma_remove_color(x: Seq<char>, b: Seq<char>, pat: Seq<char>)
    requires
        is_color(x),
        is_color(pat),
    ensures
        x == pat ==> remove_all(x + b, pat) == remove_all(b, pat),
        x != pat ==> remove_all(x + b, pat) == x + remove_all(b, pat),
{
    assert((x + b).len() > 0);
    if x == pat {
        assert((x + b).take(pat.len() as int) =~= pat);
        assert((x + b).skip(pat.len() as int) =~= b);
    } else {
        assert((x + b)[2] == x[2]);
        assert(!chars_start_with(x + b, pat)) by {
            if chars_start_with(x + b, pat) {
                assert((x + b).take(pat.len() as int)[2] == pat[2]);
            }
        }
        assert((x + b).skip(1) =~= x.skip(1) + b);
        lemma_remove_after_free(x.skip(1), b, pat);
        assert(seq![x[0]] + (x.skip(1) + remove_all(b, pat)) =~= x + remove_all(b, pat));
    }
}

/// Text without escape characters is kept as it is.
proof fn lemma_without_colors_free(a: Seq<char>, b: Seq<char>)
    requires
        escape_free(a),
    ensures
        without_colors(a + b) == a + without_colors(b),
{
    lemma_remove_after_free(a, b, ansi_red());
    lemma_remove_after_free(a, remove_all(b, ansi_red()), ansi_bold());
    lemma_remove_after_free(
        a,
        remove_all(remove_all(b, ansi_red()), ansi_bold()),
        ansi_reset(),
    );
}

/// A color sequence at the front is removed.
proof fn lemma_without_colors_color(x: Seq<char>, b: Seq<char>)
    requires
        is_color(x),
    ensures
        without_colors(x + b) == without_colors(b),
{
    let r1 = remove_all(b, ansi_red());
    let r2 = remove_all(r1, ansi_bold());
    lemma_remove_color(x, b, ansi_red());
    if x == ansi_red() {
    } else {
        lemma_remove_color(x, r1, ansi_bold());
        if x == ansi_bold() {
        } else {
            lemma_remove_color(x, r2, ansi_reset());
        }
    }
}

proof fn lemma_without_colors_empty()
    ensures
        without_colors(Seq::empty()) == Seq::<char>::empty(),
{
}

/// Decimal numbers hold no escape character.
proof fn lemma_decimal_escape_free(n: nat)
    ensures
        escape_free(spec_decimal(n)),
    decreases n,
{
    if n >= 10 {
        lemma_decimal_escape_free(n / 10);
    }
}

/// The kinds' names and codes hold no escape character.
proof fn lemma_kind_texts_escape_free(t: UnusedCodeType)
    ensures
        escape_free(spec_display_name(t)),
        escape_free(spec_error_code(t)),
{
    match t {
        UnusedCodeType::Attribute => {
            reveal_strlit("Attribute");
            reveal_strlit("DC05");
        },
        UnusedCodeType::Class => {
            reveal_strlit("Class");
            reveal_strlit("DC03");
        },
        UnusedCodeType::Function => {
            reveal_strlit("Function");
            reveal_strlit("DC02");
        },
        UnusedCodeType::Import => {
            reveal_strlit("Import");
            reveal_strlit("DC07");
        },
        UnusedCodeType::Method => {
            reveal_strlit("Method");
            reveal_strlit("DC04");
        },
        UnusedCodeType::Property => {
            reveal_strlit("Property");
            reveal_strlit("DC08");
        },
        UnusedCodeType::Variable => {
            reveal_strlit("Variable");
            reveal_strlit("DC01");
        },
        UnusedCodeType::UnreachableCode => {
            reveal_strlit("Unreachable code");
            reveal_strlit("DC09");
        },
        UnusedCodeType::Name => {
            reveal_strlit("Name");
            reveal_strlit("DC06");
        },
        UnusedCodeType::UnusedFile => {
            reveal_strlit("Unused file");
            reveal_strlit("DC11");
        },
        UnusedCodeType::CommentedOutCode => {
            reveal_strlit("Commented out code");
            reveal_strlit("DC12");
        },
        UnusedCodeType::IgnoreExpression => {
            reveal_strlit("Ignore expression");
            reveal_strlit("DC13");
        },
    }
}

/// An item's texts hold no escape character.
pub open spec fn item_escape_free(item: CodeItem) -> bool {
    escape_free(item.name@) && escape_free(item.filename@) && escape_free(item.message@)
}

/// What follows the code in an item's colored report line.
spec fn colored_tail(item: CodeItem) -> Seq<char> {
    if item.message@.len() > 0 {
        item.message@
    } else {
        spec_display_name(item.type_) + seq![' ', '`'] + ansi_bold() + item.name@ + ansi_reset()
            + "` is never used"@
    }
}

/// What follows the code in an item's plain report line.
spec fn plain_tail(item: CodeItem) -> Seq<char> {
    if item.message@.len() > 0 {
        item.message@
    } else {
        spec_display_name(item.type_) + seq![' ', '`'] + item.name@ + "` is never used"@
    }
}

/// The item's report line without color sequences.
spec fn plain_item_message(item: CodeItem) -> Seq<char> {
    spec_filename_with_position(item.filename@, item.name_line, item.name_column) + seq![' ']
        + spec_error_code(item.type_) + seq![' '] + plain_tail(item)
}

/// Removing the colors of the colored tail followed by `rest`.
#[verifier::spinoff_prover]
proof fn lemma_item_tail(item: CodeItem, rest: Seq<char>)
    requires
        item_escape_free(item),
    ensures
        without_colors(colored_tail(item) + rest) == plain_tail(item) + without_colors(rest),
        escape_free(plain_tail(item)),
{
    lemma_kind_texts_escape_free(item.type_);
    reveal_strlit("` is never used");
    let never = "` is never used"@;
    if item.message@.len() > 0 {
        lemma_without_colors_free(item.message@, rest);
    } else {
        let a3 = spec_display_name(item.type_) + seq![' ', '`'];
        lemma_without_colors_free(never, rest);
        lemma_without_colors_color(ansi_reset(), never + rest);
        lemma_without_colors_free(item.name@, ansi_reset() + (never + rest));
        lemma_without_colors_color(ansi_bold(), item.name@ + (ansi_reset() + (never + rest)));
        lemma_without_colors_free(a3, ansi_bold() + (item.name@ + (ansi_reset() + (never + rest))));
        assert(a3 + (ansi_bold() + (item.name@ + (ansi_reset() + (never + rest)))) =~= colored_tail(
            item,
        ) + rest);
        assert(a3 + (item.name@ + (never + without_colors(rest))) =~= plain_tail(item)
            + without_colors(rest));
    }
}

/// Removing the colors of an item's colored line followed by `rest` gives
/// its plain line followed by `rest` without colors.
#[verifier::spinoff_prover]
proof fn lemma_item_line_with(item: CodeItem, rest: Seq<char>)
    requires
        item_escape_free(item),
    ensures
        without_colors(colored_item_message(item) + rest) == plain_item_message(item)
            + without_colors(rest),
        escape_free(plain_item_message(item)),
{
    let pos = spec_filename_with_position(item.filename@, item.name_line, item.name_column);
    assert(escape_free(pos)) by {
        assert(escape_free(spec_as_posix(item.filename@)));
        if item.name_line is Some {
            lemma_decimal_escape_free(item.name_line->0 as nat);
            if item.name_column is Some {
                lemma_decimal_escape_free(item.name_column->0 as nat);
            }
        }
    }
    lemma_kind_texts_escape_free(item.type_);
    lemma_item_tail(item, rest);
    let code = spec_error_code(item.type_);
    let a1 = pos + seq![' '];
    let t = colored_tail(item) + rest;
    assert(colored_item_message(item) == a1 + ansi_red() + code + ansi_reset() + seq![' ']
        + colored_tail(item));
    lemma_without_colors_free(seq![' '], t);
    lemma_without_colors_color(ansi_reset(), seq![' '] + t);
    lemma_without_colors_free(code, ansi_reset() + (seq![' '] + t));
    lemma_without_colors_color(ansi_red(), code + (ansi_reset() + (seq![' '] + t)));
    lemma_without_colors_free(a1, ansi_red() + (code + (ansi_reset() + (seq![' '] + t))));
    assert(colored_item_message(item) + rest =~= a1 + (ansi_red() + (code + (ansi_reset() + (seq![
        ' ',
    ] + t)))));
    assert(a1 + (code + (seq![' '] + (plain_tail(item) + without_colors(rest))))
        =~= plain_item_message(item) + without_colors(rest));
}

/// Removing the colors of an item's colored line, and of whatever follows it,
/// gives its plain line, which holds no escape character, and the rest with
/// its colors removed.
proof fn lemma_item_line(item: CodeItem, rest: Seq<char>)
    requires
        item_escape_free(item),
    ensures
        without_colors(colored_item_message(item) + rest) == item_message(item, true)
            + without_colors(rest),
        escape_free(item_message(item, true)),
{
    lemma_item_line_with(item, rest);
    lemma_item_line_with(item, Seq::empty());
    lemma_without_colors_empty();
    assert(colored_item_message(item) + Seq::<char>::empty() =~= colored_item_message(item));
    assert(plain_item_message(item) + Seq::<char>::empty() =~= plain_item_message(item));
}

/// Removing the colors of the joined colored report lines, and of whatever
/// follows them, gives the joined plain report lines, which hold no escape
/// character, and the rest without colors.
#[verifier::spinoff_prover]
proof fn lemma_report_join(items: Seq<CodeItem>, only: Seq<String>, rest: Seq<char>)
    requires
        forall|i: int| 0 <= i < items.len() ==> item_escape_free(#[trigger] items[i]),
    ensures
        report_lines(items, only, true).len() == report_lines(items, only, false).len(),
        without_colors(join(report_lines(items, only, false), seq!['\n']) + rest) == join(
            report_lines(items, only, true),
            seq!['\n'],
        ) + without_colors(rest),
        escape_free(join(report_lines(items, only, true), seq!['\n'])),
    decreases items.len(),
{
    let nl = seq!['\n'];
    if items.len() == 0 {
        assert(Seq::<char>::empty() + rest =~= rest);
        assert(Seq::<char>::empty() + without_colors(rest) =~= without_colors(rest));
    } else {
        let d = items.drop_last();
        let last = items.last();
        assert(item_escape_free(last)) by {
            assert(last == items[items.len() - 1]);
        }
        assert forall|i: int| 0 <= i < d.len() implies item_escape_free(#[trigger] d[i]) by {
            assert(d[i] == items[i]);
        }
        let lc = report_lines(d, only, false);
        let lp = report_lines(d, only, true);
        if is_reported(last, only) {
            let c = colored_item_message(last);
            let pm = item_message(last, true);
            assert(report_lines(items, only, false) == lc.push(c));
            assert(report_lines(items, only, true) == lp.push(pm));
            assert(lc.push(c).drop_last() =~= lc);
            assert(lp.push(pm).drop_last() =~= lp);
            lemma_report_join(d, only, nl + (c + rest));
            lemma_item_line(last, rest);
            if lc.len() == 0 {
                assert(join(lc.push(c), nl) == c);
                assert(join(lp.push(pm), nl) == pm);
            } else {
                assert(join(lc.push(c), nl) == join(lc, nl) + nl + c);
                assert(join(lp.push(pm), nl) == join(lp, nl) + nl + pm);
                assert(join(lc, nl) + nl + c + rest =~= join(lc, nl) + (nl + (c + rest)));
                assert('\n' != '\x1b');
                lemma_without_colors_free(nl, c + rest);
                assert(join(lp, nl) + (nl + (pm + without_colors(rest))) =~= join(lp, nl) + nl + pm
                    + without_colors(rest));
                let whole = join(lp, nl) + nl + pm;
                assert forall|i: int| 0 <= i < whole.len() implies whole[i] != '\x1b' by {
                    if i < join(lp, nl).len() {
                        assert(whole[i] == join(lp, nl)[i]);
                    } else if i > join(lp, nl).len() {
                        assert(whole[i] == pm[i - join(lp, nl).len() - 1]);
                    }
                }
            }
        } else {
            lemma_report_join(d, only, rest);
        }
    }
}

/// Removing the colors of the colored count of removed items, and of
/// whatever follows it, gives the plain count and the rest without colors.
#[verifier::spinoff_prover]
proof fn lemma_removed_message(n: nat, rest: Seq<char>)
    ensures
        without_colors(removed_message(n, false) + rest) == removed_message(n, true)
            + without_colors(rest),
        escape_free(removed_message(n, true)),
{
    reveal_strlit("\nRemoved ");
    reveal_strlit(" unused code item");
    let h = "\nRemoved "@;
    let dec = spec_decimal(n);
    let tail = " unused code item"@ + if n > 1 {
        seq!['s']
    } else {
        Seq::empty()
    } + seq!['!'];
    lemma_decimal_escape_free(n);
    assert(escape_free(h));
    assert(escape_free(tail));
    let colored = removed_message(n, false);
    assert(colored =~= h + (ansi_bold() + (dec + (ansi_reset() + tail))));
    // The plain message: bold, then reset, removed.
    lemma_remove_after_free(tail, Seq::empty(), ansi_bold());
    assert(tail + Seq::<char>::empty() =~= tail);
    lemma_remove_color(ansi_reset(), tail, ansi_bold());
    lemma_remove_after_free(dec, ansi_reset() + tail, ansi_bold());
    lemma_remove_color(ansi_bold(), dec + (ansi_reset() + tail), ansi_bold());
    lemma_remove_after_free(h, ansi_bold() + (dec + (ansi_reset() + tail)), ansi_bold());
    let once = h + (dec + (ansi_reset() + tail));
    assert(remove_all(colored, ansi_bold()) == once);
    lemma_remove_after_free(tail, Seq::empty(), ansi_reset());
    lemma_remove_color(ansi_reset(), tail, ansi_reset());
    lemma_remove_after_free(dec, ansi_reset() + tail, ansi_reset());
    lemma_remove_after_free(h, dec + (ansi_reset() + tail), ansi_reset());
    let plain = h + (dec + tail);
    assert(removed_message(n, true) == plain);
    assert forall|i: int| 0 <= i < plain.len() implies plain[i] != '\x1b' by {
        if i < h.len() {
            assert(plain[i] == h[i]);
        } else if i < h.len() + dec.len() {
            assert(plain[i] == dec[i - h.len()]);
        } else {
            assert(plain[i] == tail[i - h.len() - dec.len()]);
        }
    }
    // The colored message followed by `rest`.
    lemma_without_colors_free(tail, rest);
    lemma_without_colors_color(ansi_reset(), tail + rest);
    lemma_without_colors_free(dec, ansi_reset() + (tail + rest));
    lemma_without_colors_color(ansi_bold(), dec + (ansi_reset() + (tail + rest)));
    lemma_without_colors_free(h, ansi_bold() + (dec + (ansi_reset() + (tail + rest))));
    assert(colored + rest =~= h + (ansi_bold() + (dec + (ansi_reset() + (tail + rest)))));
    assert(h + (dec + (tail + without_colors(rest))) =~= plain + without_colors(rest));
}

/// The plain report (`--no-color`) is the colored report with its red, bold
/// and reset sequences removed, and it holds no escape character, provided
/// no item's name, file name or message holds one; both reports are made
/// for the same items and the same options otherwise.
#[verifier::spinoff_prover]
pub proof fn law_plain_report_is_colored_report_without_colors(
    items: Seq<CodeItem>,
    plain: Args,
    colored: Args,
)
    requires
        forall|i: int| 0 <= i < items.len() ==> item_escape_free(#[trigger] items[i]),
        plain.no_color,
        !colored.no_color,
        plain.quiet == colored.quiet,
        plain.count == colored.count,
        plain.fix == colored.fix,
        plain.only@ == colored.only@,
    ensures
        match (spec_error_message(items, plain), spec_error_message(items, colored)) {
            (Some(p), Some(c)) => p == without_colors(c) && escape_free(p),
            (None, None) => true,
            _ => false,
        },
{
    let only = plain.only@;
    let nl = seq!['\n'];
    lemma_without_colors_empty();
    if items.len() == 0 || plain.quiet {
    } else if plain.count {
        lemma_decimal_escape_free(items.len());
        lemma_without_colors_free(spec_decimal(items.len()), Seq::empty());
        assert(spec_decimal(items.len()) + Seq::<char>::empty() =~= spec_decimal(items.len()));
    } else {
        let lc = report_lines(items, only, false);
        let lp = report_lines(items, only, true);
        lemma_report_join(items, only, Seq::empty());
        assert(join(lc, nl) + Seq::<char>::empty() =~= join(lc, nl));
        assert(join(lp, nl) + Seq::<char>::empty() =~= join(lp, nl));
        if plain.fix {
            let n = lc.len();
            let rc = removed_message(n, false);
            let rp = removed_message(n, true);
            assert(lc.push(rc).drop_last() =~= lc);
            assert(lp.push(rp).drop_last() =~= lp);
            lemma_removed_message(n, Seq::empty());
            assert(rc + Seq::<char>::empty() =~= rc);
            assert(rp + Seq::<char>::empty() =~= rp);
            if n == 0 {
                assert(join(lc.push(rc), nl) == rc);
                assert(join(lp.push(rp), nl) == rp);
            } else {
                assert(join(lc.push(rc), nl) == join(lc, nl) + nl + rc);
                assert(join(lp.push(rp), nl) == join(lp, nl) + nl + rp);
                lemma_report_join(items, only, nl + rc);
                assert(join(lc, nl) + nl + rc =~= join(lc, nl) + (nl + rc));
                assert('\n' != '\x1b');
                lemma_without_colors_free(nl, rc);
                assert(join(lp, nl) + (nl + rp) =~= join(lp, nl) + nl + rp);
                let whole = join(lp, nl) + nl + rp;
                assert forall|i: int| 0 <= i < whole.len() implies whole[i] != '\x1b' by {
                    if i < join(lp, nl).len() {
                        assert(whole[i] == join(lp, nl)[i]);
                    } else if i > join(lp, nl).len() {
                        assert(whole[i] == rp[i - join(lp, nl).len() - 1]);
                    }
                }
            }
        }
    }
}

} // verus!
