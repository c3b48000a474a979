//! Stage 3 of the pipeline: within each compacted line, merge equal
//! adjacent pairs once, left to right, doubling the survivor and zeroing the
//! consumed cell.

use vstd::prelude::*;

use crate::{clone_lines, lemma_sum4, seq_sum, NumConstraintSystem, SynthesisError};

verus! {

/// One pair test of the merge chain: `(2a, 0)` when the cells are equal,
/// the pair unchanged otherwise.
pub open spec fn merge_pair(a: u64, b: u64) -> (u64, u64) {
    if a == b {
        ((2 * a) as u64, 0u64)
    } else {
        (a, b)
    }
}

/// A line through the three sequential pair tests `(0,1)`, `(1,2)`, `(2,3)`,
/// where each test sees the right cell as the previous test left it.  This
/// gives the single-pass 2048 rule: a cell zeroed by a merge takes part in
/// the next test as zero, so chains such as `2 2 2 2` become `4 0 4 0`.
pub open spec fn merge_line(s: Seq<u64>) -> Seq<u64> {
    let p0 = merge_pair(s[0], s[1]);
    let p1 = merge_pair(p0.1, s[2]);
    let p2 = merge_pair(p1.1, s[3]);
    seq![p0.0, p1.0, p2.0, p2.1]
}

/// All zero cells of `s` stand behind all non-zero cells.
pub open spec fn zeros_last(s: Seq<u64>) -> bool {
    forall|i: int, j: int| 0 <= i < j < s.len() && #[trigger] s[i] == 0 ==> #[trigger] s[j] == 0
}

/// Merging never changes the sum of a line.
pub proof fn lemma_merge_preserves_sum(s: Seq<u64>)
    requires
        s.len() == 4,
        forall|i: int| 0 <= i < 4 ==> #[trigger] s[i] <= u64::MAX / 2,
    ensures
        seq_sum(merge_line(s)) == seq_sum(s),
{
    lemma_sum4(s);
    lemma_sum4(merge_line(s));
}

/// After a merge pass over a compacted line, no two adjacent cells hold the
/// same non-zero value, provided no input cell already equals the doubled
/// value that the pass writes next to it.
pub proof fn lemma_merge_no_adjacent_equal(s: Seq<u64>)
    requires
        s.len() == 4,
        forall|i: int| 0 <= i < 4 ==> #[trigger] s[i] <= u64::MAX / 2,
        zeros_last(s),
        !(s[0] != s[1] && s[1] == s[2] && s[1] != 0 && s[0] == 2 * s[1]),
        !(s[0] != s[1] && s[1] != s[2] && s[2] == s[3] && s[2] != 0 && s[1] == 2 * s[2]),
    ensures
        !(merge_line(s)[0] == merge_line(s)[1] && merge_line(s)[0] != 0),
        !(merge_line(s)[1] == merge_line(s)[2] && merge_line(s)[1] != 0),
        !(merge_line(s)[2] == merge_line(s)[3] && merge_line(s)[2] != 0),
{
    assert(s[0] == 0 ==> s[1] == 0);
    assert(s[1] == 0 ==> s[2] == 0);
    assert(s[2] == 0 ==> s[3] == 0);
}

/// The merge comparator as synthesized: an equality bit gates the doubling
/// of the left cell and the zeroing of the right one.
fn merge_pair_cells(a: u64, b: u64) -> (r: (u64, u64))
    requires
        a <= u64::MAX / 2,
    ensures
        r == merge_pair(a, b),
{
    let bit = a.is_equal(&b);
    if bit == 1 {
        (a * 2, 0)
    } else {
        (a, b)
    }
}

pub struct Merge {
    pub sorted_lines: Vec<Vec<u64>>,
    pub merged_lines: Vec<Vec<u64>>,
}

impl Merge {
    pub fn new(sorted_lines: &Vec<Vec<u64>>) -> (r: Self)
        requires
            sorted_lines@.len() == 4,
            forall|i: int| 0 <= i < 4 ==> (#[trigger] sorted_lines@[i])@.len() == 4,
        ensures
            r.sorted_lines@.len() == 4,
            forall|i: int| 0 <= i < 4 ==> (#[trigger] r.sorted_lines@[i])@ == sorted_lines@[i]@,
            r.merged_lines@.len() == 0,
    {
        Self { sorted_lines: clone_lines(sorted_lines), merged_lines: Vec::new() }
    }

    /// Runs the merge chain over each line.  Synthesis itself cannot fail:
    /// each pair test constrains freshly allocated wires, so every input
    /// line admits the honest witness.
    pub fn synthesize(&mut self) -> (r: Result<(), SynthesisError>)
        requires
            old(self).sorted_lines@.len() == 4,
            forall|i: int| 0 <= i < 4 ==> (#[trigger] old(self).sorted_lines@[i])@.len() == 4,
            forall|i: int, j: int|
                0 <= i < 4 && 0 <= j < 4 ==> #[trigger] (old(self).sorted_lines@[i]@[j])
                    <= u64::MAX / 2,
        ensures
            final(self).sorted_lines@ == old(self).sorted_lines@,
            r is Ok,
            final(self).merged_lines@.len() == 4,
            forall|i: int| 0 <= i < 4 ==> (#[trigger] final(self).merged_lines@[i])@ == merge_line(
                old(self).sorted_lines@[i]@,
            ),
    {
        let mut merged_lines: Vec<Vec<u64>> = Vec::new();
        let mut i: usize = 0;
        while i < 4
            invariant
                0 <= i <= 4,
                self == old(self),
                old(self).sorted_lines@.len() == 4,
                forall|k: int| 0 <= k < 4 ==> (#[trigger] old(self).sorted_lines@[k])@.len() == 4,
                forall|k: int, j: int|
                    0 <= k < 4 && 0 <= j < 4 ==> #[trigger] (old(self).sorted_lines@[k]@[j])
                        <= u64::MAX / 2,
                merged_lines@.len() == i,
                forall|k: int| 0 <= k < i ==> (#[trigger] merged_lines@[k])@ == merge_line(
                    old(self).sorted_lines@[k]@,
                ),
            decreases 4 - i,
        {
            let line = &self.sorted_lines[i];
            let (n0, n1) = merge_pair_cells(line[0], line[1]);
            let (n1, n2) = merge_pair_cells(n1, line[2]);
            let (n2, n3) = merge_pair_cells(n2, line[3]);
            let merged = crate::quad(n0, n1, n2, n3);
            proof {
                assert(merged@ =~= merge_line(old(self).sorted_lines@[i as int]@));
            }
            merged_lines.push(merged);
            i = i + 1;
        }
        self.merged_lines = merged_lines;
        Ok(())
    }
}

} // verus!
