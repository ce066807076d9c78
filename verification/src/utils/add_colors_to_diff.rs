//! Colors the removed (`-`) and added (`+`) lines of a unified diff.

use vstd::prelude::*;

use crate::utils::bytes::{
    bytes_starts_with, concat, join_bytes, join_on, split_bytes, split_on, starts_with, views,
};

verus! {

/// ESC `[31m`: red text.
pub open spec fn ansi_red() -> Seq<u8> {
    seq![27u8, 91u8, 51u8, 49u8, 109u8]
}

/// ESC `[32m`: green text.
pub open spec fn ansi_green() -> Seq<u8> {
    seq![27u8, 91u8, 51u8, 50u8, 109u8]
}

/// ESC `[0m`: reset.
pub open spec fn ansi_reset() -> Seq<u8> {
    seq![27u8, 91u8, 48u8, 109u8]
}

/// A line starting with `-` is wrapped in red, one starting with `+` in green.
pub open spec fn colored_line(line: Seq<u8>) -> Seq<u8> {
    if starts_with(line, seq![45u8]) {
        ansi_red() + line + ansi_reset()
    } else if starts_with(line, seq![43u8]) {
        ansi_green() + line + ansi_reset()
    } else {
        line
    }
}

/// The diff with each of its lines colored.
pub open spec fn spec_add_colors_to_diff(diff: Seq<u8>) -> Seq<u8> {
    join_on(split_on(diff, 10u8).map_values(|l: Seq<u8>| colored_line(l)), 10u8)
}

fn wrap(prefix: &[u8], content: &[u8], suffix: &[u8]) -> (r: Vec<u8>)
    ensures
        r@ == prefix@ + content@ + suffix@,
{
    let a = concat(prefix, content);
    concat(a.as_slice(), suffix)
}

/// Wraps every line of `diff` that starts with `-` in red and every line
/// that starts with `+` in green; other lines and the newlines are kept.
pub fn add_colors_to_diff(diff: &[u8]) -> (r: Vec<u8>)
    ensures
        r@ == spec_add_colors_to_diff(diff@),
{
    let lines = split_bytes(diff, 10u8);
    let red_seq = vec![27u8, 91u8, 51u8, 49u8, 109u8];
    let green_seq = vec![27u8, 91u8, 51u8, 50u8, 109u8];
    let reset_seq = vec![27u8, 91u8, 48u8, 109u8];
    let minus = vec![45u8];
    let plus = vec![43u8];
    assert(red_seq@ =~= ansi_red());
    assert(green_seq@ =~= ansi_green());
    assert(reset_seq@ =~= ansi_reset());
    assert(minus@ =~= seq![45u8]);
    assert(plus@ =~= seq![43u8]);
    let ghost target = split_on(diff@, 10u8).map_values(|l: Seq<u8>| colored_line(l));
    let mut colorful_lines: Vec<Vec<u8>> = Vec::new();
    for i in 0..lines.len()
        invariant
            views(lines@) == split_on(diff@, 10u8),
            target == split_on(diff@, 10u8).map_values(|l: Seq<u8>| colored_line(l)),
            red_seq@ == ansi_red(),
            green_seq@ == ansi_green(),
            reset_seq@ == ansi_reset(),
            minus@ == seq![45u8],
            plus@ == seq![43u8],
            views(colorful_lines@) == target.take(i as int),
    {
        let line = lines[i].as_slice();
        assert(line@ == split_on(diff@, 10u8)[i as int]);
        let colorful = if bytes_starts_with(line, minus.as_slice()) {
            wrap(red_seq.as_slice(), line, reset_seq.as_slice())
        } else if bytes_starts_with(line, plus.as_slice()) {
            wrap(green_seq.as_slice(), line, reset_seq.as_slice())
        } else {
            concat(line, &[])
        };
        let ghost before = views(colorful_lines@);
        let ghost c = colorful@;
        colorful_lines.push(colorful);
        assert(views(colorful_lines@) =~= before.push(c));
        assert(target.take(i + 1) =~= target.take(i as int).push(target[i as int]));
    }
    assert(target.take(lines.len() as int) =~= target);
    join_bytes(&colorful_lines, 10u8)
}

} // verus!
