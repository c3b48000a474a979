//! The "moveable" flag: 1 exactly when the slide-and-merge pass changed the
//! board, computed by comparing the input board to the restored board cell
//! by cell.

use vstd::prelude::*;

use crate::{lemma_sum16, NumConstraintSystem, SynthesisError};

verus! {

pub struct CanMove {
    pub old_board: Vec<u64>,
    pub restored_board: Vec<u64>,
}

impl CanMove {
    pub fn new(old_board: &Vec<u64>, restored_board: &Vec<u64>) -> (r: Self)
        requires
            old_board@.len() == 16,
        ensures
            r.old_board@ == old_board@,
            r.restored_board@ == restored_board@,
    {
        Self { old_board: old_board.clone(), restored_board: restored_board.clone() }
    }

    /// An equality bit per cell; their sum reaches 16 exactly when the two
    /// boards agree everywhere, and the flag is that comparison inverted.
    pub fn synthesize(&self) -> (r: Result<u64, SynthesisError>)
        requires
            self.old_board@.len() == 16,
            self.restored_board@.len() == 16,
        ensures
            r is Ok,
            r matches Ok(flag) ==> flag == if self.old_board@ == self.restored_board@ {
                0u64
            } else {
                1u64
            },
    {
        let mut diff_bits: Vec<u64> = Vec::new();
        let mut i: usize = 0;
        while i < 16
            invariant
                0 <= i <= 16,
                self.old_board@.len() == 16,
                self.restored_board@.len() == 16,
                diff_bits@.len() == i,
                forall|k: int| 0 <= k < i ==> diff_bits@[k] == if self.old_board@[k]
                    == self.restored_board@[k] {
                    1u64
                } else {
                    0u64
                },
            decreases 16 - i,
        {
            diff_bits.push(self.old_board[i].is_equal(&self.restored_board[i]));
            i = i + 1;
        }
        proof {
            lemma_sum16(diff_bits@);
        }
        let sum_diff_bits = u64::sum(&diff_bits);
        let sixteen: u64 = 16;
        let all_equal = sum_diff_bits.is_equal(&sixteen);
        proof {
            if self.old_board@ == self.restored_board@ {
                assert(sum_diff_bits == 16);
            }
            if sum_diff_bits == 16 {
                assert(forall|k: int| 0 <= k < 16 ==> #[trigger] diff_bits@[k] == 1);
                assert(self.old_board@ =~= self.restored_board@);
            }
        }
        if all_equal == 1 {
            Ok(0)
        } else {
            Ok(1)
        }
    }
}

} // verus!
