//! Glob-style matching (`*`, `?`, `[seq]`, `[!seq]`) with Python's `fnmatch`
//! semantics: a pattern is translated into an anchored regular expression,
//! which the `regex` crate runs.

use vstd::prelude::*;

use crate::utils::regex_support::{
    regex_escape, regex_search, regex_search_result, spec_regex_escape,
};
use crate::utils::text::{
    chars_of, chars_range, push_chars, push_str, string_from_chars, string_views,
};

verus! {

/// The index of the first `]` at or after `j` (`chars.len()` if none).
pub open spec fn first_close_bracket(chars: Seq<char>, j: int) -> int
    decreases chars.len() - j,
{
    if j < 0 || j >= chars.len() {
        chars.len() as int
    } else if chars[j] == ']' {
        j
    } else {
        first_close_bracket(chars, j + 1)
    }
}

/// Where the `]` closing a class opened at `i - 1` is looked for: past a
/// leading `!` and then a leading `]` (both belong to the class).
pub open spec fn class_scan_start(chars: Seq<char>, i: int) -> int {
    let j1 = if i < chars.len() && chars[i] == '!' {
        i + 1
    } else {
        i
    };
    if j1 < chars.len() && chars[j1] == ']' {
        j1 + 1
    } else {
        j1
    }
}

/// `s` with every backslash doubled.
pub open spec fn double_backslashes(s: Seq<char>) -> Seq<char>
    decreases s.len(),
{
    if s.len() == 0 {
        Seq::empty()
    } else if s.last() == '\\' {
        double_backslashes(s.drop_last()) + seq!['\\', '\\']
    } else {
        double_backslashes(s.drop_last()).push(s.last())
    }
}

/// The regex for a character class whose text (between `[` and `]`) is `stuff`.
pub open spec fn class_regex(stuff: Seq<char>) -> Seq<char> {
    let negate = stuff.len() > 0 && stuff[0] == '!';
    let body = double_backslashes(
        if negate {
            stuff.skip(1)
        } else {
            stuff
        },
    );
    if body.len() == 0 {
        if negate {
            seq!['.']
        } else {
            seq!['[', '^', '\\', 's', '\\', 'S', ']']
        }
    } else {
        let open: Seq<char> = if negate {
            seq!['[', '^']
        } else {
            seq!['[']
        };
        let guard: Seq<char> = if body[0] == '^' || body[0] == ']' {
            seq!['\\']
        } else {
            Seq::empty()
        };
        open + guard + body + seq![']']
    }
}

/// The regex for the pattern characters from `i` on.
pub open spec fn translate_from(chars: Seq<char>, i: int) -> Seq<char>
    decreases chars.len() - i,
{
    if i < 0 || i >= chars.len() {
        Seq::empty()
    } else {
        let c = chars[i];
        if c == '*' {
            seq!['.', '*'] + translate_from(chars, i + 1)
        } else if c == '?' {
            seq!['.'] + translate_from(chars, i + 1)
        } else if c == '[' {
            let j = first_close_bracket(chars, class_scan_start(chars, i + 1));
            if j >= chars.len() {
                seq!['\\', '['] + translate_from(chars, i + 1)
            } else if j >= i + 1 {
                class_regex(chars.subrange(i + 1, j)) + translate_from(chars, j + 1)
            } else {
                Seq::empty()
            }
        } else {
            spec_regex_escape(seq![c]) + translate_from(chars, i + 1)
        }
    }
}

/// The anchored, dot-matches-newline regex for a glob pattern.
pub open spec fn spec_translate(pattern: Seq<char>) -> Seq<char> {
    seq!['(', '?', 's', ')', '^'] + translate_from(pattern, 0) + seq!['$']
}

/// A regex that can never match.
pub open spec fn never_match_regex() -> Seq<char> {
    seq!['[', '^', '\\', 's', '\\', 'S', ']']
}

/// The regex run for a pattern: case-insensitive ones get the `(?i)` flag.
pub open spec fn pattern_regex(pattern: Seq<char>, case_sensitive: bool) -> Seq<char> {
    if case_sensitive {
        spec_translate(pattern)
    } else {
        seq!['(', '?', 'i', ')'] + spec_translate(pattern)
    }
}

/// Whether `name` matches `pattern`: the regex engine's answer for the
/// translated pattern, or, should that not compile, its answer for a regex
/// that never matches.
pub open spec fn spec_glob_match(name: Seq<char>, pattern: Seq<char>, case_sensitive: bool) -> bool {
    match regex_search_result(pattern_regex(pattern, case_sensitive), name) {
        Some(b) => b,
        None => regex_search_result(never_match_regex(), name) == Some(true),
    }
}

/// Appends the regex for a character class.
fn push_class_regex(out: &mut Vec<char>, stuff: &[char])
    ensures
        final(out)@ == old(out)@ + class_regex(stuff@),
{
    let negate = stuff.len() > 0 && stuff[0] == '!';
    let start: usize = if negate {
        1
    } else {
        0
    };
    let mut body: Vec<char> = Vec::new();
    let mut k = start;
    let ghost src = if negate {
        stuff@.skip(1)
    } else {
        stuff@
    };
    assert(stuff@.subrange(start as int, start as int) =~= Seq::<char>::empty());
    while k < stuff.len()
        invariant
            start <= k <= stuff.len(),
            src == stuff@.subrange(start as int, stuff.len() as int),
            body@ == double_backslashes(stuff@.subrange(start as int, k as int)),
        decreases stuff.len() - k,
    {
        let c = stuff[k];
        if c == '\\' {
            body.push('\\');
            body.push('\\');
        } else {
            body.push(c);
        }
        k = k + 1;
        assert(stuff@.subrange(start as int, k as int).drop_last() =~= stuff@.subrange(
            start as int,
            (k - 1) as int,
        ));
        assert(body@ =~= double_backslashes(stuff@.subrange(start as int, k as int)));
    }
    assert(src =~= stuff@.subrange(start as int, stuff.len() as int));
    if body.len() == 0 {
        if negate {
            out.push('.');
            assert(out@ =~= old(out)@ + class_regex(stuff@));
        } else {
            let ghost o = out@;
            out.push('[');
            out.push('^');
            out.push('\\');
            out.push('s');
            out.push('\\');
            out.push('S');
            out.push(']');
            assert(out@ =~= o + class_regex(stuff@));
        }
    } else {
        let ghost o = out@;
        out.push('[');
        if negate {
            out.push('^');
        }
        if body[0] == '^' || body[0] == ']' {
            out.push('\\');
        }
        let ghost mid = out@;
        push_chars(out, body.as_slice());
        out.push(']');
        assert(out@ =~= o + class_regex(stuff@));
    }
}

/// Translates a glob pattern into an anchored regex: `*` becomes `.*`, `?`
/// becomes `.`, a closed `[...]` becomes a character class (`[!...]`
/// negated, an empty one never matching), an unclosed `[` a literal `[`,
/// and every other character itself, escaped.
pub fn translate(pattern: &str) -> (r: String)
    ensures
        r@ == spec_translate(pattern@),
{
    let chars = chars_of(pattern);
    let n = chars.len();
    let mut out: Vec<char> = Vec::new();
    out.push('(');
    out.push('?');
    out.push('s');
    out.push(')');
    out.push('^');
    let mut i: usize = 0;
    assert(out@ =~= seq!['(', '?', 's', ')', '^']);
    while i < n
        invariant
            n == chars.len(),
            chars@ == pattern@,
            i <= n,
            out@ + translate_from(chars@, i as int) == seq!['(', '?', 's', ')', '^']
                + translate_from(chars@, 0),
        decreases n - i,
    {
        let ghost before = out@;
        let c = chars[i];
        if c == '*' {
            out.push('.');
            out.push('*');
            i = i + 1;
            assert(out@ + translate_from(chars@, i as int) =~= before + translate_from(
                chars@,
                (i - 1) as int,
            ));
        } else if c == '?' {
            out.push('.');
            i = i + 1;
            assert(out@ + translate_from(chars@, i as int) =~= before + translate_from(
                chars@,
                (i - 1) as int,
            ));
        } else if c == '[' {
            let i1 = i + 1;
            let mut j = i1;
            if j < n && chars[j] == '!' {
                j = j + 1;
            }
            if j < n && chars[j] == ']' {
                j = j + 1;
            }
            let ghost scan = j;
            assert(scan == class_scan_start(chars@, i1 as int));
            while j < n && chars[j] != ']'
                invariant
                    i1 <= scan <= j <= n,
                    i1 == i + 1,
                    n == chars.len(),
                    first_close_bracket(chars@, scan as int) == first_close_bracket(
                        chars@,
                        j as int,
                    ),
                decreases n - j,
            {
                j = j + 1;
            }
            if j >= n {
                assert(first_close_bracket(chars@, j as int) == n);
                out.push('\\');
                out.push('[');
                i = i1;
                assert(out@ + translate_from(chars@, i as int) =~= before + translate_from(
                    chars@,
                    (i - 1) as int,
                ));
            } else {
                assert(first_close_bracket(chars@, j as int) == j);
                let stuff = chars_range(chars.as_slice(), i1, j);
                push_class_regex(&mut out, stuff.as_slice());
                let ghost old_i = i;
                i = j + 1;
                assert(out@ + translate_from(chars@, i as int) =~= before + translate_from(
                    chars@,
                    old_i as int,
                ));
            }
        } else {
            let one = vec![c];
            let s = string_from_chars(one.as_slice());
            let escaped = regex_escape(s.as_str());
            assert(one@ =~= seq![c]);
            push_str(&mut out, escaped.as_str());
            i = i + 1;
            assert(out@ + translate_from(chars@, i as int) =~= before + translate_from(
                chars@,
                (i - 1) as int,
            ));
        }
    }
    out.push('$');
    string_from_chars(out.as_slice())
}

pub fn never_match() -> (r: String)
    ensures
        r@ == never_match_regex(),
{
    let v = vec!['[', '^', '\\', 's', '\\', 'S', ']'];
    assert(v@ =~= never_match_regex());
    string_from_chars(v.as_slice())
}

fn glob_match(name: &str, pattern: &str, case_sensitive: bool) -> (r: bool)
    ensures
        r == spec_glob_match(name@, pattern@, case_sensitive),
{
    let translated = translate(pattern);
    let regex = if case_sensitive {
        translated
    } else {
        let mut v = vec!['(', '?', 'i', ')'];
        assert(v@ =~= seq!['(', '?', 'i', ')']);
        let t = chars_of(translated.as_str());
        push_chars(&mut v, t.as_slice());
        string_from_chars(v.as_slice())
    };
    match regex_search(regex.as_str(), name) {
        Some(b) => b,
        None => {
            let fallback = never_match();
            match regex_search(fallback.as_str(), name) {
                Some(b) => b,
                None => false,
            }
        },
    }
}

/// `fnmatch.fnmatchcase(name, pattern)`: case-sensitive glob match.
pub fn fnmatchcase(name: &str, pattern: &str) -> (r: bool)
    ensures
        r == spec_glob_match(name@, pattern@, true),
{
    glob_match(name, pattern, true)
}

/// `fnmatch.fnmatch(name, pattern)`: case-insensitive glob match.
pub fn fnmatch(name: &str, pattern: &str) -> (r: bool)
    ensures
        r == spec_glob_match(name@, pattern@, false),
{
    glob_match(name, pattern, false)
}

/// `name` matches at least one of `patterns`.
pub open spec fn spec_match_any(name: Seq<char>, patterns: Seq<Seq<char>>, case_sensitive: bool) -> bool {
    exists|i: int| 0 <= i < patterns.len() && spec_glob_match(name, #[trigger] patterns[i], case_sensitive)
}

/// True if `name` matches ANY of `patterns`.
pub fn match_any(name: &str, patterns: &[String], case_sensitive: bool) -> (r: bool)
    ensures
        r == spec_match_any(name@, string_views(patterns@), case_sensitive),
{
    let mut i: usize = 0;
    while i < patterns.len()
        invariant
            i <= patterns.len(),
            forall|k: int| 0 <= k < i ==> !spec_glob_match(name@, #[trigger] patterns@[k]@, case_sensitive),
        decreases patterns.len() - i,
    {
        assert(string_views(patterns@)[i as int] == patterns@[i as int]@);
        let m = if case_sensitive {
            fnmatchcase(name, patterns[i].as_str())
        } else {
            fnmatch(name, patterns[i].as_str())
        };
        if m {
            return true;
        }
        i = i + 1;
    }
    assert forall|k: int| 0 <= k < patterns.len() implies !spec_glob_match(
        name@,
        #[trigger] string_views(patterns@)[k],
        case_sensitive,
    ) by {
        assert(string_views(patterns@)[k] == patterns@[k]@);
    }
    false
}

/// Some name of `names` matches some pattern of `patterns`.
pub open spec fn spec_match_many(names: Seq<Seq<char>>, patterns: Seq<Seq<char>>, case_sensitive: bool) -> bool {
    exists|i: int| 0 <= i < names.len() && spec_match_any(#[trigger] names[i], patterns, case_sensitive)
}

/// True if ANY of `names` matches ANY of `patterns`.
pub fn match_many(names: &[String], patterns: &[String], case_sensitive: bool) -> (r: bool)
    ensures
        r == spec_match_many(string_views(names@), string_views(patterns@), case_sensitive),
{
    let mut i: usize = 0;
    while i < names.len()
        invariant
            i <= names.len(),
            forall|k: int| 0 <= k < i ==> !spec_match_any(#[trigger] names@[k]@, string_views(patterns@), case_sensitive),
        decreases names.len() - i,
    {
        assert(string_views(names@)[i as int] == names@[i as int]@);
        if match_any(names[i].as_str(), patterns, case_sensitive) {
            return true;
        }
        i = i + 1;
    }
    assert forall|k: int| 0 <= k < names.len() implies !spec_match_any(
        #[trigger] string_views(names@)[k],
        string_views(patterns@),
        case_sensitive,
    ) by {
        assert(string_views(names@)[k] == names@[k]@);
    }
    false
}

} // verus!
