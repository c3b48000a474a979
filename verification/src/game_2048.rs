//! The step circuit: a fixed batch of 2048 moves, each a run of the whole
//! pipeline — orient, compact, merge, re-compact, restore, spawn — on a
//! 16-cell board.

use vstd::prelude::*;

use crate::direction_chooser::{oriented_lines, DirectionChooser};
use crate::gen_next::{next_board, GenNext};
use crate::merge::{lemma_merge_preserves_sum, merge_line, Merge};
use crate::restore::{lemma_oriented_sum, lemma_restored_sum, restored_board, Restore};
use crate::sort::{compact_line, lemma_compact_preserves_sum, lemma_nonzeros_len, SortByZero};
use crate::{
    clone_lines, count_zeros, dir_index, is_one_hot, lemma_one_hot_select, lemma_sum_to_nonneg,
    lemma_term_le_sum, lines_view, seq_sum, SynthesisError, MAX_BOARD_SUM,
};

verus! {

/// The four lines of board `b` after orient, compact, merge and re-compact,
/// for direction index `dir`.
pub open spec fn slid_lines(b: Seq<u64>, dir: int) -> Seq<Seq<u64>> {
    Seq::new(4, |i: int| compact_line(merge_line(compact_line(oriented_lines(b, dir)[i]))))
}

/// The board after the slide-and-merge pass for direction index `dir`,
/// before the spawn stage.
pub open spec fn slide_board(b: Seq<u64>, dir: int) -> Seq<u64> {
    restored_board(slid_lines(b, dir), dir)
}

/// One full move for the one-hot direction vector `d`: slide, merge, then
/// spawn into the board that the move produced.
pub open spec fn step_board(b: Seq<u64>, d: Seq<u64>) -> Seq<u64> {
    next_board(slide_board(b, dir_index(d)), 1)
}

/// The board after a sequence of moves.
pub open spec fn steps_board(b: Seq<u64>, dirs: Seq<Seq<u64>>) -> Seq<u64>
    decreases dirs.len(),
{
    if dirs.len() == 0 {
        b
    } else {
        steps_board(step_board(b, dirs.first()), dirs.drop_first())
    }
}

pub open spec fn all_one_hot(dirs: Seq<Seq<u64>>) -> bool {
    forall|i: int| 0 <= i < dirs.len() ==> is_one_hot(#[trigger] dirs[i])
}

proof fn lemma_steps_snoc(b: Seq<u64>, dirs: Seq<Seq<u64>>, d: Seq<u64>)
    ensures
        steps_board(b, dirs.push(d)) == step_board(steps_board(b, dirs), d),
    decreases dirs.len(),
{
    if dirs.len() == 0 {
        assert(dirs.push(d).first() == d);
        assert(dirs.push(d).drop_first() =~= Seq::<Seq<u64>>::empty());
        assert(steps_board(b, dirs.push(d)) == steps_board(
            step_board(b, d),
            Seq::<Seq<u64>>::empty(),
        ));
    } else {
        assert(dirs.push(d).first() == dirs.first());
        assert(dirs.push(d).drop_first() =~= dirs.drop_first().push(d));
        lemma_steps_snoc(step_board(b, dirs.first()), dirs.drop_first(), d);
        assert(steps_board(b, dirs.push(d)) == steps_board(
            step_board(b, dirs.first()),
            dirs.drop_first().push(d),
        ));
        assert(steps_board(b, dirs) == steps_board(step_board(b, dirs.first()), dirs.drop_first()));
    }
}

/// Shapes and cell bounds of every intermediate line of one move: each
/// stage keeps four lines of four cells, and every cell stays below the
/// line's sum, which the stages preserve.
proof fn lemma_stage_bounds(b: Seq<u64>, dir: int)
    requires
        b.len() == 16,
        0 <= dir < 4,
        seq_sum(b) <= MAX_BOARD_SUM,
    ensures
        forall|i: int| 0 <= i < 4 ==> (#[trigger] oriented_lines(b, dir)[i]).len() == 4,
        forall|i: int| 0 <= i < 4 ==> (#[trigger] compact_line(oriented_lines(b, dir)[i])).len()
            == 4,
        forall|i: int| 0 <= i < 4 ==> (#[trigger] merge_line(
            compact_line(oriented_lines(b, dir)[i]),
        )).len() == 4,
        forall|i: int| 0 <= i < 4 ==> (#[trigger] slid_lines(b, dir)[i]).len() == 4,
        forall|i: int, j: int|
            0 <= i < 4 && 0 <= j < 4 ==> #[trigger] (compact_line(oriented_lines(b, dir)[i])[j])
                <= MAX_BOARD_SUM,
        forall|i: int, j: int|
            0 <= i < 4 && 0 <= j < 4 ==> #[trigger] (slid_lines(b, dir)[i][j]) <= MAX_BOARD_SUM,
        forall|i: int| 0 <= i < 4 ==> seq_sum(#[trigger] slid_lines(b, dir)[i]) == seq_sum(
            oriented_lines(b, dir)[i],
        ),
{
    let ls = oriented_lines(b, dir);
    lemma_oriented_sum(b, dir);
    assert forall|i: int| 0 <= i < 4 implies seq_sum(#[trigger] ls[i]) <= seq_sum(b) by {
        lemma_sum_to_nonneg(ls[0], 4);
        lemma_sum_to_nonneg(ls[1], 4);
        lemma_sum_to_nonneg(ls[2], 4);
        lemma_sum_to_nonneg(ls[3], 4);
    }
    assert forall|i: int| 0 <= i < 4 implies (#[trigger] compact_line(ls[i])).len() == 4
        && seq_sum(compact_line(ls[i])) == seq_sum(ls[i]) by {
        lemma_nonzeros_len(ls[i]);
        lemma_compact_preserves_sum(ls[i]);
    }
    assert forall|i: int, j: int|
        0 <= i < 4 && 0 <= j < 4 implies #[trigger] (compact_line(ls[i])[j])
        <= MAX_BOARD_SUM by {
        lemma_term_le_sum(compact_line(ls[i]), j);
    }
    assert forall|i: int| 0 <= i < 4 implies seq_sum(#[trigger] merge_line(compact_line(ls[i])))
        == seq_sum(compact_line(ls[i])) by {
        lemma_merge_preserves_sum(compact_line(ls[i]));
    }
    assert forall|i: int| 0 <= i < 4 implies (#[trigger] slid_lines(b, dir)[i]).len() == 4
        && seq_sum(slid_lines(b, dir)[i]) == seq_sum(merge_line(compact_line(ls[i]))) by {
        lemma_nonzeros_len(merge_line(compact_line(ls[i])));
        lemma_compact_preserves_sum(merge_line(compact_line(ls[i])));
    }
    assert forall|i: int, j: int|
        0 <= i < 4 && 0 <= j < 4 implies #[trigger] (slid_lines(b, dir)[i][j])
        <= MAX_BOARD_SUM by {
        lemma_term_le_sum(slid_lines(b, dir)[i], j);
    }
}

/// The slide-and-merge pass is conservative: orientation and restoration
/// permute the cells, compaction and merging preserve each line's sum.
pub proof fn lemma_slide_preserves_sum(b: Seq<u64>, dir: int)
    requires
        b.len() == 16,
        0 <= dir < 4,
        seq_sum(b) <= MAX_BOARD_SUM,
    ensures
        slide_board(b, dir).len() == 16,
        seq_sum(slide_board(b, dir)) == seq_sum(b),
{
    lemma_stage_bounds(b, dir);
    lemma_oriented_sum(b, dir);
    lemma_restored_sum(slid_lines(b, dir), dir);
}

/// Conservation across a whole move: the board sum grows by exactly the
/// spawned tile — 2 or 4 — and stays unchanged exactly when the move left
/// no empty cell to spawn into.
pub proof fn lemma_step_conservation(b: Seq<u64>, d: Seq<u64>)
    requires
        b.len() == 16,
        is_one_hot(d),
        seq_sum(b) <= MAX_BOARD_SUM,
    ensures
        step_board(b, d).len() == 16,
        seq_sum(b) <= seq_sum(step_board(b, d)) <= seq_sum(b) + 4,
        seq_sum(step_board(b, d)) == seq_sum(b) || seq_sum(step_board(b, d)) == seq_sum(b) + 2
            || seq_sum(step_board(b, d)) == seq_sum(b) + 4,
        seq_sum(step_board(b, d)) == seq_sum(b) <==> count_zeros(slide_board(b, dir_index(d)))
            == 0,
{
    lemma_one_hot_select(d, d);
    lemma_slide_preserves_sum(b, dir_index(d));
    crate::gen_next::lemma_next_board_sum(slide_board(b, dir_index(d)), 1);
    crate::gen_next::lemma_zeros_to_bounds(slide_board(b, dir_index(d)), 16);
}

/// One step circuit, carrying the fixed sequence of one-hot direction
/// vectors that it plays on the input board.
pub struct Game2048Circuit {
    pub directions: Vec<Vec<u64>>,
}

impl Game2048Circuit {
    pub fn new(directions: &Vec<Vec<u64>>) -> (r: Self)
        requires
            forall|i: int| 0 <= i < directions@.len() ==> (#[trigger] directions@[i])@.len() == 4,
        ensures
            r.directions@.len() == directions@.len(),
            forall|i: int| 0 <= i < directions@.len() ==> (#[trigger] r.directions@[i])@
                == directions@[i]@,
    {
        Self { directions: clone_lines(directions) }
    }

    /// The input vector length of the step: one 4×4 board.
    pub fn arity(&self) -> (r: usize)
        ensures
            r == 16,
    {
        16
    }

    /// Plays each configured move on the board in turn.  Synthesis succeeds
    /// exactly when every direction vector is one-hot; a vector that is not
    /// leaves the built constraint system unsatisfiable, which the model
    /// surfaces as `Err(Unsatisfiable)`.
    pub fn synthesize(&self, z: &Vec<u64>) -> (r: Result<Vec<u64>, SynthesisError>)
        requires
            z@.len() == 16,
            forall|i: int| 0 <= i < self.directions@.len() ==> (#[trigger] self.directions@[i])@
                .len() == 4,
            seq_sum(z@) + 4 * self.directions@.len() <= MAX_BOARD_SUM,
        ensures
            r is Ok <==> all_one_hot(lines_view(self.directions@)),
            r matches Ok(out) ==> out@ == steps_board(z@, lines_view(self.directions@)),
    {
        let ghost dirs = lines_view(self.directions@);
        let mut board = z.clone();
        let mut i: usize = 0;
        while i < self.directions.len()
            invariant
                0 <= i <= dirs.len(),
                dirs == lines_view(self.directions@),
                dirs.len() == self.directions@.len(),
                forall|k: int| 0 <= k < dirs.len() ==> (#[trigger] self.directions@[k])@.len()
                    == 4,
                z@.len() == 16,
                seq_sum(z@) + 4 * dirs.len() <= MAX_BOARD_SUM,
                forall|k: int| 0 <= k < i ==> is_one_hot(#[trigger] dirs[k]),
                board@.len() == 16,
                board@ == steps_board(z@, dirs.subrange(0, i as int)),
                seq_sum(board@) <= seq_sum(z@) + 4 * i,
            decreases dirs.len() - i,
        {
            proof {
                lemma_sum_to_nonneg(z@, 16);
            }
            let direction = self.directions[i].clone();
            proof {
                assert(dirs[i as int] == self.directions@[i as int]@);
            }

            let mut step_1 = DirectionChooser::new(&board, &direction);
            if let Err(e) = step_1.synthesize() {
                return Err(e);
            }
            let ghost dir = dir_index(dirs[i as int]);
            proof {
                lemma_one_hot_select(dirs[i as int], dirs[i as int]);
                lemma_stage_bounds(board@, dir);
                assert(step_1.lines@.len() == lines_view(step_1.lines@).len());
                assert forall|k: int| 0 <= k < 4 implies (#[trigger] step_1.lines@[k])@
                    == oriented_lines(board@, dir)[k] by {
                    assert((step_1.lines@[k])@ == lines_view(step_1.lines@)[k]);
                }
            }

            let mut step_2 = SortByZero::new(&step_1.lines, 0);
            if let Err(e) = step_2.synthesize() {
                return Err(e);
            }
            proof {
                assert(forall|k: int| 0 <= k < 4 ==> (#[trigger] step_2.sorted_lines@[k])@
                    == compact_line(oriented_lines(board@, dir)[k]));
            }

            let mut step_3 = Merge::new(&step_2.sorted_lines);
            if let Err(e) = step_3.synthesize() {
                return Err(e);
            }
            proof {
                assert(forall|k: int| 0 <= k < 4 ==> (#[trigger] step_3.merged_lines@[k])@
                    == merge_line(compact_line(oriented_lines(board@, dir)[k])));
            }

            let mut step_4 = SortByZero::new(&step_3.merged_lines, step_2.namespace_index);
            if let Err(e) = step_4.synthesize() {
                return Err(e);
            }
            proof {
                assert(forall|k: int| 0 <= k < 4 ==> (#[trigger] step_4.sorted_lines@[k])@
                    == slid_lines(board@, dir)[k]);
            }

            let mut step_5 = Restore::new(&step_4.sorted_lines, &direction);
            proof {
                assert(lines_view(step_5.lines@) =~~= slid_lines(board@, dir));
            }
            if let Err(e) = step_5.synthesize() {
                return Err(e);
            }
            proof {
                lemma_slide_preserves_sum(board@, dir);
                assert(step_5.board@ == slide_board(board@, dir));
            }

            let moveable: u64 = 1;
            let mut step_6 = GenNext::new(&step_5.board, &moveable);
            if let Err(e) = step_6.synthesize() {
                return Err(e);
            }
            proof {
                crate::gen_next::lemma_next_board_sum(slide_board(board@, dir), 1);
                crate::gen_next::lemma_zeros_to_bounds(slide_board(board@, dir), 16);
                assert(step_6.new_board@ == step_board(board@, dirs[i as int]));
                lemma_steps_snoc(z@, dirs.subrange(0, i as int), dirs[i as int]);
                assert(dirs.subrange(0, i as int).push(dirs[i as int]) =~= dirs.subrange(
                    0,
                    i as int + 1,
                ));
            }
            board = step_6.new_board;
            i = i + 1;
        }
        proof {
            assert(dirs.subrange(0, dirs.len() as int) =~= dirs);
        }
        Ok(board)
    }
}

} // verus!
