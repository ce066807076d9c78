//! Converts byte offsets into (line, column) positions: 1-based lines,
//! 0-based columns, both counted in UTF-8 bytes.

use vstd::prelude::*;
use vstd::string::StringSliceAdditionalSpecFns;

verus! {

/// The byte offset at which each line of `bytes` starts: 0, then one past each newline.
pub open spec fn line_starts_of(bytes: Seq<u8>) -> Seq<u32>
    decreases bytes.len(),
{
    if bytes.len() == 0 {
        seq![0u32]
    } else if bytes.last() == 10u8 {
        line_starts_of(bytes.drop_last()).push(bytes.len() as u32)
    } else {
        line_starts_of(bytes.drop_last())
    }
}

/// The number of line starts at or before `offset` in an increasing
/// sequence of starts: the (1-based) line that holds the offset.
pub open spec fn line_of(starts: Seq<u32>, offset: u32) -> int
    decreases starts.len(),
{
    if starts.len() == 0 {
        0
    } else if starts.last() <= offset {
        starts.len() as int
    } else {
        line_of(starts.drop_last(), offset)
    }
}

/// The line whose start is the last one at or before the offset is the
/// count of starts at or before it.
proof fn lemma_line_of(starts: Seq<u32>, offset: u32, l: int)
    requires
        forall|i: int, j: int| 0 <= i < j < starts.len() ==> starts[i] < starts[j],
        1 <= l <= starts.len(),
        starts[l - 1] <= offset,
        l < starts.len() ==> offset < starts[l],
    ensures
        line_of(starts, offset) == l,
    decreases starts.len(),
{
    if l < starts.len() {
        assert(starts.last() >= starts[l]);
        lemma_line_of(starts.drop_last(), offset, l);
    }
}

/// There is at most one line start per byte, plus the first.
pub proof fn lemma_line_starts_len(bytes: Seq<u8>)
    ensures
        1 <= line_starts_of(bytes).len() <= bytes.len() + 1,
    decreases bytes.len(),
{
    if bytes.len() > 0 {
        lemma_line_starts_len(bytes.drop_last());
    }
}

/// The start offsets of every line of a source text.
pub struct LineIndex {
    line_starts: Vec<u32>,
}

impl LineIndex {
    /// The start offset of each line.
    pub closed spec fn starts(&self) -> Seq<u32> {
        self.line_starts@
    }

    /// The first line starts at 0 and the starts strictly increase.
    pub open spec fn wf(&self) -> bool {
        &&& self.starts().len() >= 1
        &&& self.starts()[0] == 0
        &&& forall|i: int, j: int|
            0 <= i < j < self.starts().len() ==> self.starts()[i] < self.starts()[j]
    }

    pub fn new(source: &str) -> (idx: Self)
        requires
            source.spec_bytes().len() <= u32::MAX,
        ensures
            idx.wf(),
            idx.starts() == line_starts_of(source.spec_bytes()),
    {
        Self::from_bytes(source.as_bytes())
    }

    /// The index of a source text given as UTF-8 bytes.
    pub fn from_bytes(bytes: &[u8]) -> (idx: Self)
        requires
            bytes@.len() <= u32::MAX,
        ensures
            idx.wf(),
            idx.starts() == line_starts_of(bytes@),
    {
        let mut line_starts: Vec<u32> = Vec::new();
        line_starts.push(0);
        for i in 0..bytes.len()
            invariant
                bytes.len() <= u32::MAX,
                line_starts@ == line_starts_of(bytes@.take(i as int)),
                line_starts@.len() >= 1,
                line_starts@[0] == 0,
                forall|a: int, b: int|
                    0 <= a < b < line_starts@.len() ==> line_starts@[a] < line_starts@[b],
                forall|a: int| 0 <= a < line_starts@.len() ==> line_starts@[a] <= i,
        {
            assert(bytes@.take(i + 1).drop_last() =~= bytes@.take(i as int));
            if bytes[i] == 10u8 {
                line_starts.push((i + 1) as u32);
            }
        }
        assert(bytes@.take(bytes.len() as int) =~= bytes@);
        LineIndex { line_starts }
    }

    /// Returns (1-indexed line, 0-indexed byte column) for a byte offset: the
    /// line is the last one starting at or before `offset`.
    pub fn line_col(&self, offset: u32) -> (r: (usize, usize))
        requires
            self.wf(),
        ensures
            1 <= r.0 <= self.starts().len(),
            r.0 == line_of(self.starts(), offset),
            self.starts()[r.0 - 1] <= offset,
            r.0 < self.starts().len() ==> offset < self.starts()[r.0 as int],
            r.1 == offset - self.starts()[r.0 - 1],
    {
        let starts = &self.line_starts;
        let mut lo: usize = 1;
        let mut hi: usize = starts.len();
        while lo < hi
            invariant
                1 <= lo <= hi <= starts.len(),
                starts@ == self.starts(),
                self.wf(),
                forall|k: int| 0 <= k < lo ==> starts@[k] <= offset,
                forall|k: int| hi <= k < starts.len() ==> offset < starts@[k],
            decreases hi - lo,
        {
            let mid = lo + (hi - lo) / 2;
            if starts[mid] <= offset {
                lo = mid + 1;
            } else {
                hi = mid;
            }
        }
        let line_idx = lo - 1;
        proof {
            lemma_line_of(self.starts(), offset, lo as int);
        }
        (line_idx + 1, (offset - starts[line_idx]) as usize)
    }
}

} // verus!
