//! Stage 6 of the pipeline: deterministically pick one empty cell, if any,
//! and write a 2 or a 4 into it.  The pseudo-random source is the sum of
//! the board cells, reduced by big-integer division; when the board is
//! full, or the move changed nothing, the stage writes nothing.

use vstd::prelude::*;

use crate::{
    count_zeros, lemma_sum16, seq_sum, zeros_to, NumConstraintSystem, SynthesisError,
    MAX_BOARD_SUM,
};

verus! {

/// The 1-based rank of cell `i` among the empty cells if cell `i` is empty,
/// 0 otherwise.  This is the witness on the `candidates` wires.
pub open spec fn candidate_rank(b: Seq<u64>, i: int) -> int {
    if b[i] == 0 {
        zeros_to(b, i + 1)
    } else {
        0
    }
}

/// The pseudo-random source: the sum of the board cells.
pub open spec fn rand_source(b: Seq<u64>) -> int {
    seq_sum(b)
}

/// 1-based slot of the empty cell that receives the spawned tile.  On a
/// full board the modulus is substituted by 1 to keep the witness defined;
/// no cell carries a rank then, so nothing is written.
pub open spec fn spawn_position(b: Seq<u64>) -> int {
    if count_zeros(b) == 0 {
        rand_source(b) % 1 + 1
    } else {
        rand_source(b) % count_zeros(b) + 1
    }
}

/// The spawned tile value: 2 when the source is even, 4 when it is odd.
pub open spec fn spawn_value(b: Seq<u64>) -> u64 {
    (2 * (rand_source(b) % 2 + 1)) as u64
}

/// The board after the spawn stage: unchanged unless the move changed the
/// board (`moveable == 1`) and an empty cell exists, in which case exactly
/// the empty cell whose rank equals the spawn position receives the value.
pub open spec fn next_board(b: Seq<u64>, moveable: u64) -> Seq<u64> {
    Seq::new(
        16,
        |i: int|
            if moveable == 1 && count_zeros(b) > 0 && b[i] == 0 && zeros_to(b, i + 1)
                == spawn_position(b) {
                spawn_value(b)
            } else {
                b[i]
            },
    )
}

pub proof fn lemma_zeros_to_bounds(s: Seq<u64>, n: int)
    requires
        0 <= n <= s.len(),
    ensures
        0 <= zeros_to(s, n) <= n,
    decreases n,
{
    if n > 0 {
        lemma_zeros_to_bounds(s, n - 1);
    }
}

pub proof fn lemma_zeros_to_mono(s: Seq<u64>, m: int, n: int)
    requires
        0 <= m <= n <= s.len(),
    ensures
        zeros_to(s, m) <= zeros_to(s, n),
    decreases n,
{
    if m < n {
        lemma_zeros_to_mono(s, m, n - 1);
    }
}

/// Distinct empty cells carry distinct ranks, in increasing order.
pub proof fn lemma_rank_strictly_increasing(s: Seq<u64>, i: int, j: int)
    requires
        0 <= i < j < s.len(),
        s[i] == 0,
        s[j] == 0,
    ensures
        zeros_to(s, i + 1) < zeros_to(s, j + 1),
{
    lemma_zeros_to_mono(s, i + 1, j);
}

/// Every slot from 1 to the number of empty cells is the rank of some
/// empty cell.
pub proof fn lemma_rank_exists(s: Seq<u64>, p: int, n: int)
    requires
        0 < n <= s.len(),
        1 <= p <= zeros_to(s, n),
    ensures
        exists|i: int| 0 <= i < n && s[i] == 0 && #[trigger] zeros_to(s, i + 1) == p,
    decreases n,
{
    lemma_zeros_to_bounds(s, n - 1);
    if p <= zeros_to(s, n - 1) {
        lemma_rank_exists(s, p, n - 1);
        let i = choose|i: int| 0 <= i < n - 1 && s[i] == 0 && #[trigger] zeros_to(s, i + 1) == p;
        assert(0 <= i < n && s[i] == 0 && zeros_to(s, i + 1) == p);
    } else {
        assert(s[n - 1] == 0 && zeros_to(s, (n - 1) + 1) == p);
    }
}

/// The spawn stage adds exactly the spawned value — a 2 or a 4 — to the
/// board sum when the move changed the board and an empty cell exists, and
/// nothing otherwise.
pub proof fn lemma_next_board_sum(b: Seq<u64>, moveable: u64)
    requires
        b.len() == 16,
    ensures
        spawn_value(b) == 2 || spawn_value(b) == 4,
        seq_sum(next_board(b, moveable)) == seq_sum(b) + if moveable == 1 && count_zeros(b) > 0 {
            spawn_value(b) as int
        } else {
            0int
        },
{
    let nb = next_board(b, moveable);
    lemma_sum16(b);
    lemma_sum16(nb);
    lemma_zeros_to_bounds(b, 16);
    if moveable == 1 && count_zeros(b) > 0 {
        let p = spawn_position(b);
        assert(1 <= p <= count_zeros(b));
        lemma_rank_exists(b, p, 16);
        let i0 = choose|i: int| 0 <= i < 16 && b[i] == 0 && #[trigger] zeros_to(b, i + 1) == p;
        assert(nb[i0] == spawn_value(b) && b[i0] == 0);
        assert forall|k: int| 0 <= k < 16 && k != i0 implies nb[k] == b[k] by {
            if b[k] == 0 && zeros_to(b, k + 1) == p {
                if k < i0 {
                    lemma_rank_strictly_increasing(b, k, i0);
                } else {
                    lemma_rank_strictly_increasing(b, i0, k);
                }
            }
        }
    }
}

/// Relies on num_integer's `Integer::div_rem` for `num_bigint::BigUint`:
/// division with remainder on big integers, here applied to values that fit
/// in a `u64`.  The circuit reduces its pseudo-random source this way to
/// pick the spawn slot and the spawn value.
#[verifier::external_body]
fn div_rem_u64(n: u64, m: u64) -> (r: (u64, u64))
    requires
        m != 0,
    ensures
        r.0 == n / m,
        r.1 == n % m,
{
    let big_n = num_bigint::BigUint::from(n);
    let big_m = num_bigint::BigUint::from(m);
    let (quotient, remainder) = num_integer::Integer::div_rem(&big_n, &big_m);
    (u64::try_from(quotient).unwrap(), u64::try_from(remainder).unwrap())
}

pub struct GenNext {
    pub old_board: Vec<u64>,
    pub moveable_flag: u64,
    pub new_board: Vec<u64>,
}

impl GenNext {
    pub fn new(old_board: &Vec<u64>, moveable_flag: &u64) -> (r: Self)
        requires
            old_board@.len() == 16,
        ensures
            r.old_board@ == old_board@,
            r.moveable_flag == moveable_flag,
            r.new_board@.len() == 0,
    {
        Self { old_board: old_board.clone(), moveable_flag: *moveable_flag, new_board: Vec::new() }
    }

    /// Ranks the empty cells, reduces the pseudo-random source, gates the
    /// spawned value by the moveable and game-over flags, and adds it to
    /// the one selected cell.  Exactly one selection bit fires — on a full
    /// board the substituted rank of cell 0 — so the circuit's `sum of
    /// bits = 1` constraint holds and synthesis cannot fail.
    pub fn synthesize(&mut self) -> (r: Result<(), SynthesisError>)
        requires
            old(self).old_board@.len() == 16,
            old(self).moveable_flag <= 1,
            seq_sum(old(self).old_board@) <= MAX_BOARD_SUM,
        ensures
            final(self).old_board@ == old(self).old_board@,
            final(self).moveable_flag == old(self).moveable_flag,
            r is Ok,
            final(self).new_board@ == next_board(old(self).old_board@, old(self).moveable_flag),
    {
        let ghost b = old(self).old_board@;
        proof {
            lemma_sum16(b);
        }

        let mut flipped_bits: Vec<u64> = Vec::new();
        let mut i: usize = 0;
        while i < 16
            invariant
                0 <= i <= 16,
                self == old(self),
                b == old(self).old_board@,
                b.len() == 16,
                flipped_bits@.len() == i,
                forall|k: int| 0 <= k < i ==> #[trigger] flipped_bits@[k] == if b[k] == 0 {
                    1u64
                } else {
                    0u64
                },
            decreases 16 - i,
        {
            flipped_bits.push(self.old_board[i].is_equal_to_zero());
            i = i + 1;
        }

        let mut candidates: Vec<u64> = Vec::new();
        let mut num_candidates = u64::zero();
        let mut i: usize = 0;
        while i < 16
            invariant
                0 <= i <= 16,
                self == old(self),
                b == old(self).old_board@,
                b.len() == 16,
                flipped_bits@.len() == 16,
                forall|k: int| 0 <= k < 16 ==> #[trigger] flipped_bits@[k] == if b[k] == 0 {
                    1u64
                } else {
                    0u64
                },
                num_candidates == zeros_to(b, i as int),
                candidates@.len() == i,
                forall|k: int| 0 <= k < i ==> #[trigger] candidates@[k] == candidate_rank(b, k),
            decreases 16 - i,
        {
            proof {
                lemma_zeros_to_bounds(b, i as int);
                assert(num_candidates <= 15);
                assert(flipped_bits@[i as int] <= 1);
                assert(forall|x: u64, y: u64| y <= 1 ==> #[trigger] (x * y) <= x)
                    by (nonlinear_arith);
            }
            num_candidates = num_candidates + flipped_bits[i];
            candidates.push(num_candidates * flipped_bits[i]);
            i = i + 1;
        }
        proof {
            lemma_zeros_to_bounds(b, 16);
        }

        let n = u64::sum(&self.old_board);
        assert(n == rand_source(b));

        let game_over_flag = num_candidates.is_not_equal_to_zero();
        if game_over_flag == 0 {
            // Substitute witnesses that keep the selection satisfiable on a
            // full board; the spawned value is zeroed below, so the board
            // still comes through unchanged.
            candidates.set(0, 1);
            num_candidates = 1;
        }

        let (_quotient, remainder) = div_rem_u64(n, num_candidates);
        let position = remainder + 1;
        assert(position == spawn_position(b));

        let two: u64 = 2;
        let (_quotient_for_new, remainder_for_new) = div_rem_u64(n, two);
        let mut new_number = 2 * (remainder_for_new + 1);
        assert(new_number == spawn_value(b));
        proof {
            assert(forall|x: u64, y: u64| y <= 1 ==> #[trigger] (x * y) <= x)
                by (nonlinear_arith);
            assert(forall|x: u64, y: u64| y == 1 ==> #[trigger] (x * y) == x)
                by (nonlinear_arith);
            assert(forall|x: u64, y: u64| y == 0 ==> #[trigger] (x * y) == 0)
                by (nonlinear_arith);
        }
        new_number = new_number * self.moveable_flag;
        new_number = new_number * game_over_flag;
        proof {
            if count_zeros(b) > 0 {
                assert(new_number == spawn_value(b) * old(self).moveable_flag);
            } else {
                assert(new_number == 0);
            }
        }

        let mut bits: Vec<u64> = Vec::new();
        let mut i: usize = 0;
        while i < 16
            invariant
                0 <= i <= 16,
                self == old(self),
                candidates@.len() == 16,
                bits@.len() == i,
                forall|k: int| 0 <= k < i ==> #[trigger] bits@[k] == if candidates@[k] == position {
                    1u64
                } else {
                    0u64
                },
            decreases 16 - i,
        {
            // The circuit subtracts `position` in the field and tests the
            // difference for zero; on witness values that is an equality
            // test against `position`.
            bits.push(candidates[i].is_equal(&position));
            i = i + 1;
        }

        // Exactly one selection bit fires: ranks of empty cells are
        // pairwise distinct and some cell carries rank `position` (cell 0
        // by substitution when the board is full).
        proof {
            lemma_sum16(bits@);
            let p = position as int;
            if count_zeros(b) == 0 {
                assert forall|k: int| 0 <= k < 16 implies candidate_rank(b, k) == 0 by {
                    if b[k] == 0 {
                        lemma_zeros_to_bounds(b, k + 1);
                        lemma_zeros_to_mono(b, k + 1, 16);
                    }
                }
                assert(rand_source(b) % 1 == 0) by (nonlinear_arith);
                assert(position == 1);
                assert(candidates@[0] == 1);
                assert(bits@[0] == 1);
                assert forall|k: int| 1 <= k < 16 implies bits@[k] == 0 by {
                    assert(candidates@[k] == candidate_rank(b, k));
                }
            } else {
                lemma_rank_exists(b, p, 16);
                let i0 = choose|i: int|
                    0 <= i < 16 && b[i] == 0 && #[trigger] zeros_to(b, i + 1) == p;
                assert(candidates@[i0] == candidate_rank(b, i0));
                assert(bits@[i0] == 1);
                assert forall|k: int| 0 <= k < 16 && k != i0 implies bits@[k] == 0 by {
                    assert(candidates@[k] == candidate_rank(b, k));
                    if b[k] == 0 {
                        if k < i0 {
                            lemma_rank_strictly_increasing(b, k, i0);
                        } else {
                            lemma_rank_strictly_increasing(b, i0, k);
                        }
                    }
                }
            }
        }
        let sum_bits = u64::sum(&bits);
        assert(sum_bits == 1);

        let mut new_board: Vec<u64> = Vec::new();
        let mut i: usize = 0;
        while i < 16
            invariant
                0 <= i <= 16,
                self == old(self),
                b == old(self).old_board@,
                b.len() == 16,
                seq_sum(b) <= MAX_BOARD_SUM,
                old(self).moveable_flag <= 1,
                bits@.len() == 16,
                candidates@.len() == 16,
                new_number <= 4,
                position >= 1,
                count_zeros(b) > 0 ==> forall|k: int| 0 <= k < 16 ==> #[trigger] candidates@[k]
                    == candidate_rank(b, k),
                count_zeros(b) > 0 ==> new_number == spawn_value(b) * old(self).moveable_flag,
                count_zeros(b) == 0 ==> new_number == 0,
                forall|k: int| 0 <= k < 16 ==> #[trigger] bits@[k] == if candidates@[k] == position {
                    1u64
                } else {
                    0u64
                },
                position == spawn_position(b),
                new_board@.len() == i,
                forall|k: int| 0 <= k < i ==> #[trigger] new_board@[k] == next_board(
                    b,
                    old(self).moveable_flag,
                )[k],
            decreases 16 - i,
        {
            proof {
                lemma_zeros_to_bounds(b, 16);
                crate::lemma_term_le_sum(b, i as int);
                assert(b[i as int] <= seq_sum(b));
                assert(forall|x: u64, y: u64| y <= 1 && x <= 4 ==> #[trigger] (x * y) <= 4)
                    by (nonlinear_arith);
                assert(forall|x: u64, y: u64| y == 1 ==> #[trigger] (x * y) == x)
                    by (nonlinear_arith);
                assert(forall|x: u64, y: u64| y == 0 ==> #[trigger] (x * y) == 0)
                    by (nonlinear_arith);
                assert(forall|x: u64, y: u64| x == 1 ==> #[trigger] (x * y) == y)
                    by (nonlinear_arith);
                assert(forall|x: u64, y: u64| x == 0 ==> #[trigger] (x * y) == 0)
                    by (nonlinear_arith);
                let k = i as int;
                let cell_spec = next_board(b, old(self).moveable_flag)[k];
                if old(self).moveable_flag == 1 && count_zeros(b) > 0 && b[k] == 0 && zeros_to(
                    b,
                    k + 1,
                ) == spawn_position(b) {
                    assert(candidates@[k] == candidate_rank(b, k));
                    assert(candidates@[k] == position);
                    assert(bits@[k] == 1);
                    assert(new_number == spawn_value(b));
                    assert(cell_spec == spawn_value(b));
                    assert(b[k] + new_number * bits@[k] == cell_spec);
                } else {
                    assert(cell_spec == b[k]);
                    if count_zeros(b) == 0 {
                        assert(new_number * bits@[k] == 0);
                    } else if old(self).moveable_flag == 0 {
                        assert(new_number == 0);
                        assert(new_number * bits@[k] == 0);
                    } else {
                        assert(candidates@[k] == candidate_rank(b, k));
                        assert(bits@[k] == 0);
                        assert(new_number * bits@[k] == 0);
                    }
                    assert(b[k] + new_number * bits@[k] == cell_spec);
                }
            }
            new_board.push(self.old_board[i] + new_number * bits[i]);
            i = i + 1;
        }
        self.new_board = new_board;
        proof {
            assert(self.new_board@ =~= next_board(b, old(self).moveable_flag));
        }
        Ok(())
    }
}

} // verus!
