//! Stage 5 of the pipeline: scatter the four lines back into a 16-cell
//! board, undoing the reorientation of stage 1 for the active direction.

use vstd::prelude::*;

use crate::direction_chooser::{orient_index, oriented_lines};
use crate::{
    clone_lines, dir_index, is_lines, is_one_hot, lemma_dot4, lemma_one_hot_select, lemma_sum4,
    lemma_sum16, lines_view, quad, seq_sum, NumConstraintSystem, SynthesisError, MAX_BOARD_SUM,
};

verus! {

/// Line that holds the cell of board row `r`, column `c` under direction
/// `dir` (0 = up, 1 = down, 2 = left, 3 = right).
pub open spec fn restore_line(dir: int, r: int, c: int) -> int {
    if dir == 0 || dir == 1 {
        c
    } else {
        r
    }
}

/// Position within that line of the cell of board row `r`, column `c`.
pub open spec fn restore_pos(dir: int, r: int, c: int) -> int {
    if dir == 0 {
        r
    } else if dir == 1 {
        3 - r
    } else if dir == 2 {
        c
    } else {
        3 - c
    }
}

/// The board scattered back from `ls` for direction `dir`: the exact
/// inverse of the reading order of `oriented_lines`.
pub open spec fn restored_board(ls: Seq<Seq<u64>>, dir: int) -> Seq<u64> {
    Seq::new(
        16,
        |idx: int| ls[restore_line(dir, idx / 4, idx % 4)][restore_pos(dir, idx / 4, idx % 4)],
    )
}

/// Restoring is the exact left-inverse of the direction chooser's
/// permutation: reading the lines off a board and scattering them back
/// reproduces the board, for every direction.
pub proof fn lemma_restore_inverts_chooser(b: Seq<u64>, dir: int)
    requires
        b.len() == 16,
        0 <= dir < 4,
    ensures
        restored_board(oriented_lines(b, dir), dir) == b,
{
    assert forall|idx: int| 0 <= idx < 16 implies restored_board(oriented_lines(b, dir), dir)[idx]
        == b[idx] by {
        let r = idx / 4;
        let c = idx % 4;
        assert(0 <= r < 4 && 0 <= c < 4 && idx == 4 * r + c);
        assert(orient_index(dir, restore_line(dir, r, c), restore_pos(dir, r, c)) == idx);
    }
    assert(restored_board(oriented_lines(b, dir), dir) =~= b);
}

/// Scattering is a permutation: the restored board's sum is the sum of the
/// four line sums, for every direction.
pub proof fn lemma_restored_sum(ls: Seq<Seq<u64>>, dir: int)
    requires
        is_lines(ls),
        0 <= dir < 4,
    ensures
        seq_sum(restored_board(ls, dir)) == seq_sum(ls[0]) + seq_sum(ls[1]) + seq_sum(ls[2])
            + seq_sum(ls[3]),
{
    lemma_sum16(restored_board(ls, dir));
    lemma_sum4(ls[0]);
    lemma_sum4(ls[1]);
    lemma_sum4(ls[2]);
    lemma_sum4(ls[3]);
}

/// The matching fact for stage 1: reading the lines off a board preserves
/// the board's sum, for every direction.
pub proof fn lemma_oriented_sum(b: Seq<u64>, dir: int)
    requires
        b.len() == 16,
        0 <= dir < 4,
    ensures
        seq_sum(oriented_lines(b, dir)[0]) + seq_sum(oriented_lines(b, dir)[1]) + seq_sum(
            oriented_lines(b, dir)[2],
        ) + seq_sum(oriented_lines(b, dir)[3]) == seq_sum(b),
{
    lemma_sum16(b);
    lemma_sum4(oriented_lines(b, dir)[0]);
    lemma_sum4(oriented_lines(b, dir)[1]);
    lemma_sum4(oriented_lines(b, dir)[2]);
    lemma_sum4(oriented_lines(b, dir)[3]);
}

pub struct Restore {
    pub lines: Vec<Vec<u64>>,
    pub direction: Vec<u64>,
    pub board: Vec<u64>,
}

impl Restore {
    pub fn new(lines: &Vec<Vec<u64>>, direction: &Vec<u64>) -> (r: Self)
        requires
            lines@.len() == 4,
            forall|i: int| 0 <= i < 4 ==> (#[trigger] lines@[i])@.len() == 4,
            direction@.len() == 4,
        ensures
            r.lines@.len() == 4,
            forall|i: int| 0 <= i < 4 ==> (#[trigger] r.lines@[i])@ == lines@[i]@,
            r.direction@ == direction@,
            r.board@.len() == 0,
    {
        Self { lines: clone_lines(lines), direction: direction.clone(), board: Vec::new() }
    }

    /// Selects each board cell out of its four candidate line cells.  The
    /// direction wires were already constrained one-hot by stage 1, so this
    /// stage only selects and cannot fail.
    pub fn synthesize(&mut self) -> (r: Result<(), SynthesisError>)
        requires
            old(self).lines@.len() == 4,
            forall|i: int| 0 <= i < 4 ==> (#[trigger] old(self).lines@[i])@.len() == 4,
            forall|i: int, j: int|
                0 <= i < 4 && 0 <= j < 4 ==> #[trigger] (old(self).lines@[i]@[j]) <= 2
                    * MAX_BOARD_SUM,
            is_one_hot(old(self).direction@),
        ensures
            final(self).lines@ == old(self).lines@,
            final(self).direction@ == old(self).direction@,
            r is Ok,
            final(self).board@ == restored_board(
                lines_view(old(self).lines@),
                dir_index(old(self).direction@),
            ),
    {
        let ghost ls = lines_view(old(self).lines@);
        let ghost d = dir_index(old(self).direction@);
        let mut board: Vec<u64> = Vec::new();
        let mut idx: usize = 0;
        while idx < 16
            invariant
                0 <= idx <= 16,
                self == old(self),
                old(self).lines@.len() == 4,
                forall|k: int| 0 <= k < 4 ==> (#[trigger] old(self).lines@[k])@.len() == 4,
                forall|k: int, j: int|
                    0 <= k < 4 && 0 <= j < 4 ==> #[trigger] (old(self).lines@[k]@[j]) <= 2
                        * MAX_BOARD_SUM,
                is_one_hot(old(self).direction@),
                ls == lines_view(old(self).lines@),
                d == dir_index(old(self).direction@),
                board@.len() == idx,
                forall|k: int| 0 <= k < idx ==> board@[k] == restored_board(ls, d)[k],
            decreases 16 - idx,
        {
            let r = idx / 4;
            let c = idx % 4;
            let q = quad(
                self.lines[c][r],
                self.lines[c][3 - r],
                self.lines[r][c],
                self.lines[r][3 - c],
            );
            proof {
                lemma_dot4(q@, old(self).direction@);
                assert(forall|x: u64, y: u64| y <= 1 ==> #[trigger] (x * y) <= x)
                    by (nonlinear_arith);
                lemma_one_hot_select(q@, old(self).direction@);
            }
            let cell = u64::product_sum(&q, &self.direction);
            proof {
                assert(cell == restored_board(ls, d)[idx as int]);
            }
            board.push(cell);
            idx = idx + 1;
        }
        self.board = board;
        proof {
            assert(board@ =~= restored_board(ls, d));
        }
        Ok(())
    }
}

} // verus!
