//! Stage 1 of the pipeline: reorient the board into four lines so that
//! "slide toward the chosen edge" always means "slide toward index 0".

use vstd::prelude::*;

use crate::{
    dir_index, dot, is_one_hot, lemma_dot4, lemma_one_hot_select, lemma_sum4, lemma_term_le_sum,
    lines_view, quad, seq_sum, NumConstraintSystem, SynthesisError, MAX_BOARD_SUM,
};

verus! {

/// Board index that feeds position `j` of line `i` when sliding in
/// direction `dir` (0 = up, 1 = down, 2 = left, 3 = right).  Position 0 of a
/// line is the edge-most cell for that direction: up reads column `i` top to
/// bottom, down reads it bottom to top, left reads row `i` left to right,
/// right reads it right to left.
pub open spec fn orient_index(dir: int, i: int, j: int) -> int {
    if dir == 0 {
        4 * j + i
    } else if dir == 1 {
        4 * (3 - j) + i
    } else if dir == 2 {
        4 * i + j
    } else {
        4 * i + (3 - j)
    }
}

/// The four lines read off board `b` for direction `dir`.
pub open spec fn oriented_lines(b: Seq<u64>, dir: int) -> Seq<Seq<u64>> {
    Seq::new(4, |i: int| Seq::new(4, |j: int| b[orient_index(dir, i, j)]))
}

pub struct DirectionChooser {
    pub board: Vec<u64>,
    pub lines: Vec<Vec<u64>>,
    pub direction: Vec<u64>,
}

impl DirectionChooser {
    pub fn new(board: &Vec<u64>, direction: &Vec<u64>) -> (r: Self)
        requires
            board@.len() == 16,
            direction@.len() == 4,
        ensures
            r.board@ == board@,
            r.direction@ == direction@,
            r.lines@.len() == 0,
    {
        Self { board: board.clone(), lines: Vec::new(), direction: direction.clone() }
    }

    /// Constrains the direction wires to a one-hot vector, then selects each
    /// line cell out of its four candidate board cells.  In the circuit a
    /// direction that is not one-hot makes the system unsatisfiable; the
    /// model surfaces that as `Err(Unsatisfiable)`.
    pub fn synthesize(&mut self) -> (r: Result<(), SynthesisError>)
        requires
            old(self).board@.len() == 16,
            old(self).direction@.len() == 4,
            seq_sum(old(self).board@) <= MAX_BOARD_SUM,
        ensures
            final(self).board@ == old(self).board@,
            final(self).direction@ == old(self).direction@,
            r is Ok <==> is_one_hot(old(self).direction@),
            r is Ok ==> lines_view(final(self).lines@) == oriented_lines(
                old(self).board@,
                dir_index(old(self).direction@),
            ),
    {
        let mut booleans_hold = true;
        let mut i: usize = 0;
        while i < 4
            invariant
                0 <= i <= 4,
                self == old(self),
                old(self).direction@.len() == 4,
                booleans_hold <==> (forall|k: int| 0 <= k < i ==> old(self).direction@[k] <= 1),
            decreases 4 - i,
        {
            if !self.direction[i].apply_bool_constraint() {
                booleans_hold = false;
            }
            i = i + 1;
        }
        if !booleans_hold {
            return Err(SynthesisError::Unsatisfiable);
        }
        proof {
            lemma_sum4(self.direction@);
        }
        let sum_direction = u64::sum(&self.direction);
        if sum_direction != 1 {
            return Err(SynthesisError::Unsatisfiable);
        }
        let ghost d = dir_index(self.direction@);
        let ghost b = self.board@;

        let mut lines: Vec<Vec<u64>> = Vec::new();
        let mut i: usize = 0;
        while i < 4
            invariant
                0 <= i <= 4,
                self == old(self),
                old(self).board@.len() == 16,
                is_one_hot(old(self).direction@),
                d == dir_index(old(self).direction@),
                b == old(self).board@,
                seq_sum(b) <= MAX_BOARD_SUM,
                lines@.len() == i,
                forall|ii: int| 0 <= ii < i ==> (#[trigger] lines@[ii])@ == oriented_lines(b, d)[ii],
            decreases 4 - i,
        {
            let mut line: Vec<u64> = Vec::new();
            let mut j: usize = 0;
            while j < 4
                invariant
                    0 <= j <= 4,
                    0 <= i < 4,
                    self == old(self),
                    old(self).board@.len() == 16,
                    is_one_hot(old(self).direction@),
                    d == dir_index(old(self).direction@),
                    b == old(self).board@,
                    seq_sum(b) <= MAX_BOARD_SUM,
                    line@.len() == j,
                    forall|jj: int| 0 <= jj < j ==> line@[jj] == oriented_lines(b, d)[i as int][jj],
                decreases 4 - j,
            {
                let q = quad(
                    self.board[4 * j + i],
                    self.board[4 * (3 - j) + i],
                    self.board[4 * i + j],
                    self.board[4 * i + (3 - j)],
                );
                proof {
                    lemma_dot4(q@, old(self).direction@);
                    lemma_term_le_sum(b, orient_index(0, i as int, j as int));
                    lemma_term_le_sum(b, orient_index(1, i as int, j as int));
                    lemma_term_le_sum(b, orient_index(2, i as int, j as int));
                    lemma_term_le_sum(b, orient_index(3, i as int, j as int));
                    assert(forall|x: u64, y: u64| y <= 1 ==> #[trigger] (x * y) <= x)
                        by (nonlinear_arith);
                    lemma_one_hot_select(q@, old(self).direction@);
                }
                let cell = u64::product_sum(&q, &self.direction);
                assert(cell == b[orient_index(d, i as int, j as int)]);
                line.push(cell);
                j = j + 1;
            }
            proof {
                assert(line@ =~= oriented_lines(b, d)[i as int]);
            }
            lines.push(line);
            i = i + 1;
        }
        self.lines = lines;
        proof {
            assert(lines_view(self.lines@) =~~= oriented_lines(b, d));
        }
        Ok(())
    }
}

} // verus!
