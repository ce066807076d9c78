//! `# noqa` comments: which lines suppress which error codes.

use vstd::prelude::*;

use crate::utils::bytes::{split_bytes, split_on, views};
use crate::utils::regex_support::{regex_capture, regex_capture_result};
use crate::utils::text::{str_eq, trim, spec_trim, utf8_lossy, utf8_lossy_result};

verus! {

/// The `# noqa[: CODE[,CODE...]]` comment, case-insensitive, with the codes
/// captured as the group `codes`.
pub open spec fn noqa_pattern() -> Seq<char> {
    "(?i)# noqa(?::[\\s]?(?P<codes>([A-Z]+[0-9]+(?:[,\\s]+)?)+))?"@
}

/// Maps a code written in a `noqa` comment to deadcode's own: flake8's
/// F401 (unused import) and F841 (unused local variable), and the
/// three-digit `DC0xx` spellings; any other code stands for itself.
pub open spec fn spec_noqa_code_map(code: Seq<char>) -> Seq<char> {
    if code == "F401"@ {
        "DC07"@
    } else if code == "F841"@ {
        "DC01"@
    } else if code == "DC001"@ {
        "DC01"@
    } else if code == "DC002"@ {
        "DC02"@
    } else if code == "DC003"@ {
        "DC03"@
    } else if code == "DC004"@ {
        "DC04"@
    } else if code == "DC005"@ {
        "DC05"@
    } else if code == "DC006"@ {
        "DC06"@
    } else if code == "DC007"@ {
        "DC07"@
    } else if code == "DC008"@ {
        "DC08"@
    } else if code == "DC009"@ {
        "DC09"@
    } else if code == "DC011"@ {
        "DC11"@
    } else if code == "DC012"@ {
        "DC12"@
    } else if code == "DC013"@ {
        "DC13"@
    } else {
        code
    }
}

/// `all` as bytes: what a bare `# noqa` suppresses.
pub open spec fn all_bytes() -> Seq<u8> {
    seq![97u8, 108u8, 108u8]
}

/// The codes of the comma-separated chunks (decoded, trimmed, empty ones
/// dropped, then mapped).
pub open spec fn codes_of_chunks(chunks: Seq<Seq<u8>>) -> Seq<Seq<char>>
    decreases chunks.len(),
{
    if chunks.len() == 0 {
        Seq::empty()
    } else {
        let rest = codes_of_chunks(chunks.drop_last());
        let t = spec_trim(utf8_lossy_result(chunks.last()));
        if t.len() > 0 {
            rest.push(spec_noqa_code_map(t))
        } else {
            rest
        }
    }
}

/// The codes a line's `noqa` comment suppresses (`all` for a bare one; none
/// without a comment).
pub open spec fn line_codes(line: Seq<u8>) -> Seq<Seq<char>> {
    match regex_capture_result(noqa_pattern(), line, "codes"@) {
        None => Seq::empty(),
        Some(cap) => {
            let raw = match cap {
                Some(b) => b,
                None => all_bytes(),
            };
            codes_of_chunks(split_on(raw, 44u8))
        },
    }
}

/// The lines (1-based) on which each error code is suppressed.
pub struct NoqaLines {
    entries: Vec<(String, Vec<u32>)>,
}

impl NoqaLines {
    /// Line `line` suppresses `code`.
    pub closed spec fn suppresses(&self, code: Seq<char>, line: u32) -> bool {
        exists|i: int|
            0 <= i < self.entries@.len() && (#[trigger] self.entries@[i]).0@ == code
                && self.entries@[i].1@.contains(line)
    }

    pub fn new() -> (r: Self)
        ensures
            forall|c: Seq<char>, n: u32| !r.suppresses(c, n),
    {
        NoqaLines { entries: Vec::new() }
    }

    /// Records that line `line` suppresses `code`.
    pub fn add(&mut self, code: String, line: u32)
        ensures
            forall|c: Seq<char>, n: u32|
                final(self).suppresses(c, n) <==> (old(self).suppresses(c, n) || (c == code@ && n
                    == line)),
    {
        let mut i: usize = 0;
        while i < self.entries.len()
            invariant
                i <= self.entries.len(),
                self.entries@ == old(self).entries@,
                forall|k: int| 0 <= k < i ==> (#[trigger] self.entries@[k]).0@ != code@,
            decreases self.entries.len() - i,
        {
            if str_eq(self.entries[i].0.as_str(), code.as_str()) {
                let ghost before = self.entries@;
                let (key, mut lines) = self.entries.remove(i);
                lines.push(line);
                self.entries.insert(i, (key, lines));
                assert forall|c: Seq<char>, n: u32|
                    self.suppresses(c, n) <==> (old(self).suppresses(c, n) || (c == code@ && n
                        == line)) by {
                    if old(self).suppresses(c, n) {
                        let j = choose|j: int|
                            0 <= j < before.len() && (#[trigger] before[j]).0@ == c
                                && before[j].1@.contains(n);
                        if j == i {
                            assert(self.entries@[j].1@ == before[j].1@.push(line));
                            assert(self.entries@[j].1@[before[j].1@.index_of(n)] == n);
                        } else {
                            assert(self.entries@[j] == before[j]);
                        }
                    }
                    if c == code@ && n == line {
                        assert(self.entries@[i as int].1@.last() == line);
                    }
                    if self.suppresses(c, n) {
                        let j = choose|j: int|
                            0 <= j < self.entries@.len() && (#[trigger] self.entries@[j]).0@ == c
                                && self.entries@[j].1@.contains(n);
                        if j != i {
                            assert(self.entries@[j] == before[j]);
                        } else {
                            let at = self.entries@[j].1@.index_of(n);
                            if at < before[j].1@.len() {
                                assert(before[j].1@[at] == n);
                            }
                        }
                    }
                }
                return ;
            }
            i = i + 1;
        }
        let ghost before = self.entries@;
        let mut lines: Vec<u32> = Vec::new();
        lines.push(line);
        self.entries.push((code, lines));
        assert forall|c: Seq<char>, n: u32|
            self.suppresses(c, n) <==> (old(self).suppresses(c, n) || (c == code@ && n
                == line)) by {
            if old(self).suppresses(c, n) {
                let j = choose|j: int|
                    0 <= j < before.len() && (#[trigger] before[j]).0@ == c
                        && before[j].1@.contains(n);
                assert(self.entries@[j] == before[j]);
            }
            if c == code@ && n == line {
                assert(self.entries@[before.len() as int].1@[0] == line);
            }
            if self.suppresses(c, n) {
                let j = choose|j: int|
                    0 <= j < self.entries@.len() && (#[trigger] self.entries@[j]).0@ == c
                        && self.entries@[j].1@.contains(n);
                if j < before.len() {
                    assert(self.entries@[j] == before[j]);
                }
            }
        }
    }
}

/// Maps a code written in a `noqa` comment to deadcode's own.
pub fn noqa_code_map(code: &str) -> (r: String)
    ensures
        r@ == spec_noqa_code_map(code@),
{
    let mapped = if str_eq(code, "F401") {
        "DC07"
    } else if str_eq(code, "F841") {
        "DC01"
    } else if str_eq(code, "DC001") {
        "DC01"
    } else if str_eq(code, "DC002") {
        "DC02"
    } else if str_eq(code, "DC003") {
        "DC03"
    } else if str_eq(code, "DC004") {
        "DC04"
    } else if str_eq(code, "DC005") {
        "DC05"
    } else if str_eq(code, "DC006") {
        "DC06"
    } else if str_eq(code, "DC007") {
        "DC07"
    } else if str_eq(code, "DC008") {
        "DC08"
    } else if str_eq(code, "DC009") {
        "DC09"
    } else if str_eq(code, "DC011") {
        "DC11"
    } else if str_eq(code, "DC012") {
        "DC12"
    } else if str_eq(code, "DC013") {
        "DC13"
    } else {
        code
    };
    mapped.to_owned()
}

/// The codes of a `noqa` comment's captured text (`all` when there is none).
fn parse_error_codes(codes_capture: Option<Vec<u8>>) -> (r: Vec<String>)
    ensures
        r@.map_values(|s: String| s@) == codes_of_chunks(
            split_on(
                match codes_capture {
                    Some(b) => b@,
                    None => all_bytes(),
                },
                44u8,
            ),
        ),
{
    let raw = match codes_capture {
        Some(b) => b,
        None => {
            let a = vec![97u8, 108u8, 108u8];
            assert(a@ =~= all_bytes());
            a
        },
    };
    let chunks = split_bytes(raw.as_slice(), 44u8);
    let ghost cv = views(chunks@);
    let mut out: Vec<String> = Vec::new();
    for i in 0..chunks.len()
        invariant
            cv == views(chunks@),
            out@.map_values(|s: String| s@) == codes_of_chunks(cv.take(i as int)),
    {
        assert(cv.take(i + 1).drop_last() =~= cv.take(i as int));
        assert(cv.take(i + 1).last() == chunks@[i as int]@);
        let decoded = utf8_lossy(chunks[i].as_slice());
        let t = trim(decoded.as_str());
        if !t.as_str().is_empty() {
            let ghost before = out@.map_values(|s: String| s@);
            let m = noqa_code_map(t.as_str());
            out.push(m);
            assert(out@.map_values(|s: String| s@) =~= before.push(spec_noqa_code_map(t@)));
        }
    }
    assert(cv.take(chunks.len() as int) =~= cv);
    out
}

/// Line `n` (1-based) of `code` suppresses `c`.
pub open spec fn noqa_on_line(code: Seq<u8>, c: Seq<char>, n: u32) -> bool {
    let lines = split_on(code, 10u8);
    1 <= n <= lines.len() && line_codes(lines[n - 1]).contains(c)
}

/// Maps each error code (e.g. `DC01`, or `all`) to the 1-based lines on
/// which a `# noqa[: CODE[,CODE...]]` comment suppresses it.
pub fn parse_noqa(code: &[u8]) -> (r: NoqaLines)
    requires
        code.len() < u32::MAX,
    ensures
        forall|c: Seq<char>, n: u32| r.suppresses(c, n) <==> noqa_on_line(code@, c, n),
{
    let lines = split_bytes(code, 10u8);
    let ghost lv = views(lines@);
    proof {
        crate::utils::bytes::lemma_split_on_len(code@, 10u8);
    }
    let mut noqa = NoqaLines::new();
    let pattern = "(?i)# noqa(?::[\\s]?(?P<codes>([A-Z]+[0-9]+(?:[,\\s]+)?)+))?";
    for i in 0..lines.len()
        invariant
            lv == views(lines@),
            lv == split_on(code@, 10u8),
            lines.len() <= code.len() + 1,
            code.len() < u32::MAX,
            pattern@ == noqa_pattern(),
            forall|c: Seq<char>, n: u32|
                noqa.suppresses(c, n) <==> (1 <= n <= i && line_codes(lv[n - 1]).contains(c)),
    {
        let lineno = (i + 1) as u32;
        let line = lines[i].as_slice();
        assert(line@ == lv[i as int]);
        let outcome = regex_capture(pattern, line, "codes");
        match outcome {
            None => {
                assert(line_codes(lv[i as int]) =~= Seq::<Seq<char>>::empty());
                assert forall|c: Seq<char>, n: u32|
                    noqa.suppresses(c, n) <==> (1 <= n <= i + 1 && line_codes(lv[n - 1]).contains(
                        c,
                    )) by {
                    if n == i + 1 {
                        assert(!line_codes(lv[i as int]).contains(c));
                    }
                }
            },
            Some(cap) => {
                let codes = parse_error_codes(cap);
                let ghost cs = codes@.map_values(|s: String| s@);
                assert(cs == line_codes(lv[i as int]));
                let ghost start = noqa;
                let mut j: usize = 0;
                while j < codes.len()
                    invariant
                        j <= codes.len(),
                        cs == codes@.map_values(|s: String| s@),
                        forall|c: Seq<char>, n: u32|
                            noqa.suppresses(c, n) <==> (start.suppresses(c, n) || (n == lineno
                                && cs.take(j as int).contains(c))),
                    decreases codes.len() - j,
                {
                    let ghost before = noqa;
                    noqa.add(codes[j].clone(), lineno);
                    assert forall|c: Seq<char>, n: u32|
                        noqa.suppresses(c, n) <==> (start.suppresses(c, n) || (n == lineno
                            && cs.take(j + 1).contains(c))) by {
                        assert(cs.take(j + 1) =~= cs.take(j as int).push(cs[j as int]));
                        if cs.take(j + 1).contains(c) && !cs.take(j as int).contains(c) {
                            assert(c == cs[j as int]);
                        }
                        if c == cs[j as int] {
                            assert(cs.take(j + 1)[j as int] == c);
                        }
                        if cs.take(j as int).contains(c) {
                            let k = cs.take(j as int).index_of(c);
                            assert(cs.take(j + 1)[k] == c);
                        }
                    }
                    j = j + 1;
                }
                assert(cs.take(codes.len() as int) =~= cs);
            },
        }
    }
    noqa
}

/// Whether line `lineno` carries a `# noqa` comment that suppresses
/// `error_code` (naming it, or bare).
pub fn ignore_line(noqa_lines: &NoqaLines, lineno: u32, error_code: &str) -> (r: bool)
    ensures
        r == (noqa_lines.suppresses(error_code@, lineno) || noqa_lines.suppresses("all"@, lineno)),
{
    noqa_lines.has(error_code, lineno) || noqa_lines.has("all", lineno)
}

impl NoqaLines {
    /// Line `line` suppresses `code`.
    pub fn has(&self, code: &str, line: u32) -> (r: bool)
        ensures
            r == self.suppresses(code@, line),
    {
        let mut i: usize = 0;
        while i < self.entries.len()
            invariant
                i <= self.entries.len(),
                forall|k: int|
                    0 <= k < i ==> !((#[trigger] self.entries@[k]).0@ == code@
                        && self.entries@[k].1@.contains(line)),
            decreases self.entries.len() - i,
        {
            if str_eq(self.entries[i].0.as_str(), code) {
                let ls = &self.entries[i].1;
                let mut j: usize = 0;
                while j < ls.len()
                    invariant
                        j <= ls.len(),
                        i < self.entries.len(),
                        self.entries@[i as int].0@ == code@,
                        ls@ == self.entries@[i as int].1@,
                        forall|k: int| 0 <= k < j ==> ls@[k] != line,
                    decreases ls.len() - j,
                {
                    if ls[j] == line {
                        assert(self.entries@[i as int].1@[j as int] == line);
                        assert(self.entries@[i as int].1@.contains(line));
                        return true;
                    }
                    j = j + 1;
                }
            }
            i = i + 1;
        }
        false
    }
}

/// Each chunk that is not blank once trimmed contributes its mapped code.
proof fn lemma_codes_of_chunks_contains(chunks: Seq<Seq<u8>>, k: int)
    requires
        0 <= k < chunks.len(),
        spec_trim(utf8_lossy_result(chunks[k])).len() > 0,
    ensures
        codes_of_chunks(chunks).contains(spec_noqa_code_map(spec_trim(utf8_lossy_result(chunks[k])))),
    decreases chunks.len(),
{
    let rest = codes_of_chunks(chunks.drop_last());
    let t = spec_trim(utf8_lossy_result(chunks.last()));
    let x = spec_noqa_code_map(spec_trim(utf8_lossy_result(chunks[k])));
    if k < chunks.len() - 1 {
        assert(chunks.drop_last()[k] == chunks[k]);
        lemma_codes_of_chunks_contains(chunks.drop_last(), k);
        let i = rest.index_of(x);
        if t.len() > 0 {
            assert(rest.push(spec_noqa_code_map(t))[i] == x);
        }
    } else {
        assert(rest.push(x)[rest.len() as int] == x);
    }
}

/// The codes that `noqa` comments map: flake8's and the three-digit spellings.
proof fn lemma_noqa_code_map_values(written: Seq<char>)
    ensures
        written == "F841"@ ==> spec_noqa_code_map(written) == "DC01"@,
        written == "F401"@ ==> spec_noqa_code_map(written) == "DC07"@,
        written == "DC001"@ ==> spec_noqa_code_map(written) == "DC01"@,
        written == "DC002"@ ==> spec_noqa_code_map(written) == "DC02"@,
        written == "DC003"@ ==> spec_noqa_code_map(written) == "DC03"@,
        written == "DC004"@ ==> spec_noqa_code_map(written) == "DC04"@,
        written == "DC005"@ ==> spec_noqa_code_map(written) == "DC05"@,
        written == "DC006"@ ==> spec_noqa_code_map(written) == "DC06"@,
        written == "DC007"@ ==> spec_noqa_code_map(written) == "DC07"@,
        written == "DC008"@ ==> spec_noqa_code_map(written) == "DC08"@,
        written == "DC009"@ ==> spec_noqa_code_map(written) == "DC09"@,
        written == "DC011"@ ==> spec_noqa_code_map(written) == "DC11"@,
        written == "DC012"@ ==> spec_noqa_code_map(written) == "DC12"@,
        written == "DC013"@ ==> spec_noqa_code_map(written) == "DC13"@,
        (written == "DC01"@ || written == "DC02"@ || written == "DC03"@ || written == "DC04"@ || written == "DC05"@ || written == "DC06"@ || written == "DC07"@ || written == "DC08"@ || written == "DC09"@ || written == "DC11"@ || written == "DC12"@ || written == "DC13"@) ==> spec_noqa_code_map(written) == written,
        (written == "F401"@ || written == "F841"@ || written == "DC001"@ || written == "DC002"@ || written == "DC003"@ || written == "DC004"@ || written == "DC005"@ || written == "DC006"@ || written == "DC007"@ || written == "DC008"@ || written == "DC009"@ || written == "DC011"@ || written == "DC012"@ || written == "DC013"@ || written == "DC01"@ || written == "DC02"@ || written == "DC03"@ || written == "DC04"@ || written == "DC05"@ || written == "DC06"@ || written == "DC07"@ || written == "DC08"@ || written == "DC09"@ || written == "DC11"@ || written == "DC12"@ || written == "DC13"@) ==> written.len() > 0,
{
    reveal_strlit("F401");
    reveal_strlit("F841");
    reveal_strlit("DC001");
    reveal_strlit("DC002");
    reveal_strlit("DC003");
    reveal_strlit("DC004");
    reveal_strlit("DC005");
    reveal_strlit("DC006");
    reveal_strlit("DC007");
    reveal_strlit("DC008");
    reveal_strlit("DC009");
    reveal_strlit("DC011");
    reveal_strlit("DC012");
    reveal_strlit("DC013");
    reveal_strlit("DC01");
    reveal_strlit("DC02");
    reveal_strlit("DC03");
    reveal_strlit("DC04");
    reveal_strlit("DC05");
    reveal_strlit("DC06");
    reveal_strlit("DC07");
    reveal_strlit("DC08");
    reveal_strlit("DC09");
    reveal_strlit("DC11");
    reveal_strlit("DC12");
    reveal_strlit("DC13");
    if written == "F401"@ {
        assert(written.len() == 4);
        assert(written[0] == 'F'); assert(written[1] == '4'); assert(written[2] == '0'); assert(written[3] == '1');
    }
    if written == "F841"@ {
        assert(written.len() == 4);
        assert(written[0] == 'F'); assert(written[1] == '8'); assert(written[2] == '4'); assert(written[3] == '1');
    }
    if written == "DC001"@ {
        assert(written.len() == 5);
        assert(written[0] == 'D'); assert(written[1] == 'C'); assert(written[2] == '0'); assert(written[3] == '0'); assert(written[4] == '1');
    }
    if written == "DC002"@ {
        assert(written.len() == 5);
        assert(written[0] == 'D'); assert(written[1] == 'C'); assert(written[2] == '0'); assert(written[3] == '0'); assert(written[4] == '2');
    }
    if written == "DC003"@ {
        assert(written.len() == 5);
        assert(written[0] == 'D'); assert(written[1] == 'C'); assert(written[2] == '0'); assert(written[3] == '0'); assert(written[4] == '3');
    }
    if written == "DC004"@ {
        assert(written.len() == 5);
        assert(written[0] == 'D'); assert(written[1] == 'C'); assert(written[2] == '0'); assert(written[3] == '0'); assert(written[4] == '4');
    }
    if written == "DC005"@ {
        assert(written.len() == 5);
        assert(written[0] == 'D'); assert(written[1] == 'C'); assert(written[2] == '0'); assert(written[3] == '0'); assert(written[4] == '5');
    }
    if written == "DC006"@ {
        assert(written.len() == 5);
        assert(written[0] == 'D'); assert(written[1] == 'C'); assert(written[2] == '0'); assert(written[3] == '0'); assert(written[4] == '6');
    }
    if written == "DC007"@ {
        assert(written.len() == 5);
        assert(written[0] == 'D'); assert(written[1] == 'C'); assert(written[2] == '0'); assert(written[3] == '0'); assert(written[4] == '7');
    }
    if written == "DC008"@ {
        assert(written.len() == 5);
        assert(written[0] == 'D'); assert(written[1] == 'C'); assert(written[2] == '0'); assert(written[3] == '0'); assert(written[4] == '8');
    }
    if written == "DC009"@ {
        assert(written.len() == 5);
        assert(written[0] == 'D'); assert(written[1] == 'C'); assert(written[2] == '0'); assert(written[3] == '0'); assert(written[4] == '9');
    }
    if written == "DC011"@ {
        assert(written.len() == 5);
        assert(written[0] == 'D'); assert(written[1] == 'C'); assert(written[2] == '0'); assert(written[3] == '1'); assert(written[4] == '1');
    }
    if written == "DC012"@ {
        assert(written.len() == 5);
        assert(written[0] == 'D'); assert(written[1] == 'C'); assert(written[2] == '0'); assert(written[3] == '1'); assert(written[4] == '2');
    }
    if written == "DC013"@ {
        assert(written.len() == 5);
        assert(written[0] == 'D'); assert(written[1] == 'C'); assert(written[2] == '0'); assert(written[3] == '1'); assert(written[4] == '3');
    }
    if written == "DC01"@ {
        assert(written.len() == 4);
        assert(written[0] == 'D'); assert(written[1] == 'C'); assert(written[2] == '0'); assert(written[3] == '1');
    }
    if written == "DC02"@ {
        assert(written.len() == 4);
        assert(written[0] == 'D'); assert(written[1] == 'C'); assert(written[2] == '0'); assert(written[3] == '2');
    }
    if written == "DC03"@ {
        assert(written.len() == 4);
        assert(written[0] == 'D'); assert(written[1] == 'C'); assert(written[2] == '0'); assert(written[3] == '3');
    }
    if written == "DC04"@ {
        assert(written.len() == 4);
        assert(written[0] == 'D'); assert(written[1] == 'C'); assert(written[2] == '0'); assert(written[3] == '4');
    }
    if written == "DC05"@ {
        assert(written.len() == 4);
        assert(written[0] == 'D'); assert(written[1] == 'C'); assert(written[2] == '0'); assert(written[3] == '5');
    }
    if written == "DC06"@ {
        assert(written.len() == 4);
        assert(written[0] == 'D'); assert(written[1] == 'C'); assert(written[2] == '0'); assert(written[3] == '6');
    }
    if written == "DC07"@ {
        assert(written.len() == 4);
        assert(written[0] == 'D'); assert(written[1] == 'C'); assert(written[2] == '0'); assert(written[3] == '7');
    }
    if written == "DC08"@ {
        assert(written.len() == 4);
        assert(written[0] == 'D'); assert(written[1] == 'C'); assert(written[2] == '0'); assert(written[3] == '8');
    }
    if written == "DC09"@ {
        assert(written.len() == 4);
        assert(written[0] == 'D'); assert(written[1] == 'C'); assert(written[2] == '0'); assert(written[3] == '9');
    }
    if written == "DC11"@ {
        assert(written.len() == 4);
        assert(written[0] == 'D'); assert(written[1] == 'C'); assert(written[2] == '1'); assert(written[3] == '1');
    }
    if written == "DC12"@ {
        assert(written.len() == 4);
        assert(written[0] == 'D'); assert(written[1] == 'C'); assert(written[2] == '1'); assert(written[3] == '2');
    }
    if written == "DC13"@ {
        assert(written.len() == 4);
        assert(written[0] == 'D'); assert(written[1] == 'C'); assert(written[2] == '1'); assert(written[3] == '3');
    }
}

/// A `# noqa:` comment suppresses, on its own line, the deadcode findings
/// that its codes name: flake8's F841 (local variable assigned but never
/// used) names DC01, flake8's F401 (imported but unused) names DC07, a
/// three-digit `DC0xx` names `DCxx`, and a `DCxx` code names itself.
/// `raw` is what the comment lists after `noqa:`, and `written` one of its
/// comma-separated codes, trimmed.
pub proof fn law_noqa_codes_suppress_matching_findings(
    code: Seq<u8>,
    n: u32,
    raw: Seq<u8>,
    k: int,
    written: Seq<char>,
)
    requires
        1 <= n <= split_on(code, 10u8).len(),
        regex_capture_result(noqa_pattern(), split_on(code, 10u8)[n - 1], "codes"@) == Some(
            Some(raw),
        ),
        0 <= k < split_on(raw, 44u8).len(),
        spec_trim(utf8_lossy_result(split_on(raw, 44u8)[k])) == written,
    ensures
        written == "F841"@ ==> noqa_on_line(code, "DC01"@, n),
        written == "F401"@ ==> noqa_on_line(code, "DC07"@, n),
        written == "DC001"@ ==> noqa_on_line(code, "DC01"@, n),
        written == "DC002"@ ==> noqa_on_line(code, "DC02"@, n),
        written == "DC003"@ ==> noqa_on_line(code, "DC03"@, n),
        written == "DC004"@ ==> noqa_on_line(code, "DC04"@, n),
        written == "DC005"@ ==> noqa_on_line(code, "DC05"@, n),
        written == "DC006"@ ==> noqa_on_line(code, "DC06"@, n),
        written == "DC007"@ ==> noqa_on_line(code, "DC07"@, n),
        written == "DC008"@ ==> noqa_on_line(code, "DC08"@, n),
        written == "DC009"@ ==> noqa_on_line(code, "DC09"@, n),
        written == "DC011"@ ==> noqa_on_line(code, "DC11"@, n),
        written == "DC012"@ ==> noqa_on_line(code, "DC12"@, n),
        written == "DC013"@ ==> noqa_on_line(code, "DC13"@, n),
        (written == "DC01"@ || written == "DC02"@ || written == "DC03"@ || written == "DC04"@ || written == "DC05"@ || written == "DC06"@ || written == "DC07"@ || written == "DC08"@ || written == "DC09"@ || written == "DC11"@ || written == "DC12"@ || written == "DC13"@) ==> noqa_on_line(code, written, n),
{
    lemma_noqa_code_map_values(written);
    let lines = split_on(code, 10u8);
    assert(line_codes(lines[n - 1]) == codes_of_chunks(split_on(raw, 44u8)));
    if written.len() > 0 {
        lemma_codes_of_chunks_contains(split_on(raw, 44u8), k);
    }
}

} // verus!
