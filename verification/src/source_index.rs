//! Source position lookup: for any offset into the stripped buffer, the
//! 1-based line number and the `[start, end)` range of the line holding that
//! offset.  Every failing stage formats its position through `locate`, so all
//! error messages share one presentation contract.

use vstd::prelude::*;

verus! {

/// Number of `'\n'` characters strictly before `off`.
pub open spec fn newlines_upto(s: Seq<char>, off: int) -> nat
    decreases off,
    when off <= s.len()
{
    if off <= 0 {
        0
    } else {
        newlines_upto(s, off - 1) + (if s[off - 1] == '\n' {
            1nat
        } else {
            0nat
        })
    }
}

/// 1-based line number of the line holding `off`.
pub open spec fn line_number(s: Seq<char>, off: int) -> nat {
    newlines_upto(s, off) + 1
}

/// Offset of the first character of the line holding `off`.
pub open spec fn line_start(s: Seq<char>, off: int) -> int
    decreases off,
    when off <= s.len()
{
    if off <= 0 {
        0
    } else if s[off - 1] == '\n' {
        off
    } else {
        line_start(s, off - 1)
    }
}

/// Offset just past the last character of the line holding `off`: the next
/// `'\n'` at or after `off`, or the end of the buffer.
pub open spec fn line_end(s: Seq<char>, off: int) -> int
    decreases s.len() - off,
    when 0 <= off <= s.len()
{
    if off >= s.len() {
        s.len() as int
    } else if s[off] == '\n' {
        off
    } else {
        line_end(s, off + 1)
    }
}

proof fn lemma_line_start_bounds(s: Seq<char>, off: int)
    requires
        0 <= off <= s.len(),
    ensures
        0 <= line_start(s, off) <= off,
    decreases off,
{
    if off > 0 && s[off - 1] != '\n' {
        lemma_line_start_bounds(s, off - 1);
    }
}

pub proof fn lemma_line_end_bounds(s: Seq<char>, off: int)
    requires
        0 <= off <= s.len(),
    ensures
        off <= line_end(s, off) <= s.len(),
    decreases s.len() - off,
{
    if off < s.len() && s[off] != '\n' {
        lemma_line_end_bounds(s, off + 1);
    }
}

/// `locate(buffer, offset)` returns `(line, lstart, lend)`: the 1-based line
/// number and the `[lstart, lend)` character range of the line holding
/// `offset`.
pub fn locate(buf: &Vec<char>, offset: usize) -> (r: (usize, usize, usize))
    requires
        offset <= buf@.len(),
        buf@.len() < usize::MAX,
    ensures
        r.0 == line_number(buf@, offset as int),
        r.1 == line_start(buf@, offset as int),
        r.2 == line_end(buf@, offset as int),
        r.1 <= offset <= r.2 <= buf@.len(),
{
    let mut count: usize = 0;
    let mut k: usize = 0;
    while k < offset
        invariant
            k <= offset <= buf@.len(),
            count == newlines_upto(buf@, k as int),
            count <= k,
        decreases offset - k,
    {
        if buf[k] == '\n' {
            count = count + 1;
        }
        k = k + 1;
    }
    let mut j: usize = offset;
    while j > 0 && buf[j - 1] != '\n'
        invariant
            j <= offset <= buf@.len(),
            line_start(buf@, offset as int) == line_start(buf@, j as int),
        decreases j,
    {
        j = j - 1;
    }
    let mut e: usize = offset;
    while e < buf.len() && buf[e] != '\n'
        invariant
            offset <= e <= buf@.len(),
            line_end(buf@, offset as int) == line_end(buf@, e as int),
        decreases buf@.len() - e,
    {
        e = e + 1;
    }
    proof {
        lemma_line_start_bounds(buf@, offset as int);
        lemma_line_end_bounds(buf@, offset as int);
    }
    (count + 1, j, e)
}

/// The offsets at which the lines of the first `k` characters of `s` begin:
/// offset 0, and the offset after each `'\n'`.
pub open spec fn starts_upto(s: Seq<char>, k: int) -> Seq<usize>
    decreases k,
    when k <= s.len()
{
    if k <= 0 {
        seq![0usize]
    } else if s[k - 1] == '\n' {
        starts_upto(s, k - 1).push(k as usize)
    } else {
        starts_upto(s, k - 1)
    }
}

/// The per-buffer index artifact carried in the driver: the offset of every
/// line start of the stripped buffer, in order.
pub struct SourceIndex {
    pub line_starts: Vec<usize>,
}

impl SourceIndex {
    /// Whether this index describes the buffer `s`.
    pub open spec fn wf(&self, s: Seq<char>) -> bool {
        self.line_starts@ == starts_upto(s, s.len() as int)
    }

    /// Builds the index for a buffer.
    pub fn new(buf: &Vec<char>) -> (r: SourceIndex)
        requires
            buf@.len() < usize::MAX,
        ensures
            r.wf(buf@),
    {
        let mut starts: Vec<usize> = Vec::new();
        starts.push(0);
        let mut k: usize = 0;
        while k < buf.len()
            invariant
                k <= buf@.len() < usize::MAX,
                starts@ == starts_upto(buf@, k as int),
            decreases buf@.len() - k,
        {
            if buf[k] == '\n' {
                starts.push(k + 1);
            }
            k = k + 1;
        }
        SourceIndex { line_starts: starts }
    }
}

} // verus!
