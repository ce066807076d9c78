//! The decisions of a run of the command-line tool: whether it only answers
//! `--version`, what it prints, and with which exit code it ends.

use vstd::prelude::*;

use crate::utils::text::{push_str, str_eq, string_from_chars, string_views};

verus! {

/// The version that `--version` reports: the package version in Cargo.toml.
pub const VERSION: &'static str = "0.1.0";

/// Some argument is `--version`.
pub open spec fn has_version_flag(argv: Seq<Seq<char>>) -> bool {
    exists|i: int| 0 <= i < argv.len() && argv[i] == "--version"@
}

/// Whether some argument is `--version`.
pub fn contains_version_flag(argv: &[String]) -> (r: bool)
    ensures
        r == has_version_flag(string_views(argv@)),
{
    for i in 0..argv.len()
        invariant
            forall|k: int| 0 <= k < i ==> argv@[k]@ != "--version"@,
    {
        if str_eq(argv[i].as_str(), "--version") {
            assert(string_views(argv@)[i as int] == "--version"@);
            return true;
        }
    }
    assert forall|k: int| 0 <= k < argv.len() implies string_views(argv@)[k] != "--version"@ by {
        assert(string_views(argv@)[k] == argv@[k]@);
    }
    false
}

/// A run answers only with the version when `--version` is among the given
/// arguments or among the process's own.
pub fn requests_version(command_line_args: Option<&[String]>, real_argv: &[String]) -> (r: bool)
    ensures
        r == ((match command_line_args {
            Some(a) => has_version_flag(string_views(a@)),
            None => false,
        }) || has_version_flag(string_views(real_argv@))),
{
    let given = match command_line_args {
        Some(a) => contains_version_flag(a),
        None => false,
    };
    given || contains_version_flag(real_argv)
}

/// Whether the exit code is that of a version answer: the given arguments
/// hold `--version` or, without given arguments, the process's own do.
pub fn is_version_request(command_line_args: Option<&[String]>, real_argv: &[String]) -> (r: bool)
    ensures
        r == match command_line_args {
            Some(a) => has_version_flag(string_views(a@)),
            None => has_version_flag(string_views(real_argv@)),
        },
{
    match command_line_args {
        Some(a) => contains_version_flag(a),
        None => contains_version_flag(real_argv),
    }
}

/// What a run prints: the report, followed after a blank line by the diffs
/// of `--dry` when there are any. Without a report, a run in which some file
/// could not be parsed still fails, with nothing printed; otherwise it is
/// clean.
pub open spec fn spec_run_output(
    error_message: Option<Seq<char>>,
    file_diff: Seq<char>,
    parse_failed: bool,
) -> Option<Seq<char>> {
    match error_message {
        None => if parse_failed {
            Some(Seq::empty())
        } else {
            None
        },
        Some(m) => Some(
            if file_diff.len() == 0 {
                m
            } else {
                m + seq!['\n', '\n'] + file_diff
            },
        ),
    }
}

/// Puts the report and the diffs together (see `spec_run_output`).
pub fn run_output(error_message: Option<String>, file_diff: &str, parse_failed: bool) -> (r: Option<String>)
    ensures
        match r {
            None => spec_run_output(
                match error_message {
                    Some(m) => Some(m@),
                    None => None,
                },
                file_diff@,
                parse_failed,
            ) is None,
            Some(s) => spec_run_output(
                match error_message {
                    Some(m) => Some(m@),
                    None => None,
                },
                file_diff@,
                parse_failed,
            ) == Some(s@),
        },
{
    match error_message {
        None => if parse_failed {
            Some(String::new())
        } else {
            None
        },
        Some(m) => {
            let d = crate::utils::text::chars_of(file_diff);
            if d.len() == 0 {
                Some(m)
            } else {
                let mut out = crate::utils::text::chars_of(m.as_str());
                out.push('\n');
                out.push('\n');
                push_str(&mut out, file_diff);
                Some(string_from_chars(out.as_slice()))
            }
        },
    }
}

/// How a run ends.
#[derive(Debug)]
pub enum ExitDecision {
    /// Nothing to print; exit 0.
    Clean,
    /// Print `stdout` (when not empty), then exit with `code`.
    Print { stdout: String, code: i32 },
}

/// A run with output ends with code 1 (even when the output is empty, as
/// under `--quiet`), but a version answer ends with 0; a run without
/// output is clean.
pub fn exit_decision(result: Option<String>, is_version_request: bool) -> (r: ExitDecision)
    ensures
        match result {
            None => r is Clean,
            Some(s) => r matches ExitDecision::Print { stdout, code } && stdout@ == s@ && code == (
            if is_version_request {
                0i32
            } else {
                1i32
            }),
        },
{
    match result {
        None => ExitDecision::Clean,
        Some(s) => ExitDecision::Print { stdout: s, code: if is_version_request { 0 } else { 1 } },
    }
}

} // verus!
