//! Stages 2 and 4 of the pipeline: stable compaction of each line, pushing
//! every zero cell behind the non-zero cells without reordering the latter.

use vstd::prelude::*;

use crate::{
    lemma_sum_concat, lemma_sum_front, quad, seq_sum, NumConstraintSystem, SynthesisError,
};

verus! {

/// The non-zero cells of `s`, in their original order.
pub open spec fn nonzeros(s: Seq<u64>) -> Seq<u64>
    decreases s.len(),
{
    if s.len() == 0 {
        Seq::empty()
    } else if s.first() != 0 {
        seq![s.first()] + nonzeros(s.drop_first())
    } else {
        nonzeros(s.drop_first())
    }
}

/// Number of occurrences of `v` in `s`.
pub open spec fn count_val(s: Seq<u64>, v: u64) -> int
    decreases s.len(),
{
    if s.len() == 0 {
        0
    } else {
        (if s.first() == v {
            1int
        } else {
            0int
        }) + count_val(s.drop_first(), v)
    }
}

pub proof fn lemma_nonzeros_len(s: Seq<u64>)
    ensures
        nonzeros(s).len() <= s.len(),
    decreases s.len(),
{
    if s.len() > 0 {
        lemma_nonzeros_len(s.drop_first());
    }
}

/// `s` stably compacted: its non-zero cells first, then zeros.
pub open spec fn compact_line(s: Seq<u64>) -> Seq<u64> {
    nonzeros(s) + Seq::new((s.len() - nonzeros(s).len()) as nat, |i: int| 0u64)
}

pub proof fn lemma_nonzeros_all_nonzero(s: Seq<u64>)
    ensures
        forall|i: int| 0 <= i < nonzeros(s).len() ==> #[trigger] nonzeros(s)[i] != 0,
    decreases s.len(),
{
    if s.len() > 0 {
        lemma_nonzeros_all_nonzero(s.drop_first());
        if s.first() != 0 {
            assert(forall|i: int| 1 <= i < nonzeros(s).len() ==> #[trigger] nonzeros(s)[i]
                == nonzeros(s.drop_first())[i - 1]);
        }
    }
}

/// The non-zero cells and the zero cells together account for all of `s`.
pub proof fn lemma_nonzeros_zero_count(s: Seq<u64>)
    ensures
        nonzeros(s).len() + count_val(s, 0) == s.len(),
    decreases s.len(),
{
    if s.len() > 0 {
        lemma_nonzeros_zero_count(s.drop_first());
    }
}

proof fn lemma_count_concat(a: Seq<u64>, b: Seq<u64>, v: u64)
    ensures
        count_val(a + b, v) == count_val(a, v) + count_val(b, v),
    decreases a.len(),
{
    if a.len() == 0 {
        assert(a + b =~= b);
    } else {
        assert((a + b).drop_first() =~= a.drop_first() + b);
        lemma_count_concat(a.drop_first(), b, v);
    }
}

proof fn lemma_count_zero_pad(n: nat, v: u64)
    ensures
        count_val(Seq::new(n, |i: int| 0u64), v) == if v == 0 {
            n as int
        } else {
            0int
        },
    decreases n,
{
    if n > 0 {
        let s = Seq::new(n, |i: int| 0u64);
        assert(s.drop_first() =~= Seq::new((n - 1) as nat, |i: int| 0u64));
        lemma_count_zero_pad((n - 1) as nat, v);
    }
}

proof fn lemma_count_nonzeros(s: Seq<u64>, v: u64)
    requires
        v != 0,
    ensures
        count_val(nonzeros(s), v) == count_val(s, v),
    decreases s.len(),
{
    if s.len() > 0 {
        lemma_count_nonzeros(s.drop_first(), v);
        if s.first() != 0 {
            assert((seq![s.first()] + nonzeros(s.drop_first())).drop_first() =~= nonzeros(
                s.drop_first(),
            ));
        }
    }
}

/// Compaction is a permutation of the line: every value, zero included,
/// occurs in `compact_line(s)` exactly as often as in `s`.
pub proof fn lemma_compact_counts(s: Seq<u64>, v: u64)
    ensures
        count_val(compact_line(s), v) == count_val(s, v),
{
    let pad = Seq::new((s.len() - nonzeros(s).len()) as nat, |i: int| 0u64);
    lemma_nonzeros_len(s);
    lemma_count_concat(nonzeros(s), pad, v);
    lemma_count_zero_pad(pad.len(), v);
    if v == 0 {
        lemma_nonzeros_zero_count(s);
        lemma_count_nonzeros_zero(s);
    } else {
        lemma_count_nonzeros(s, v);
    }
}

proof fn lemma_count_nonzeros_zero(s: Seq<u64>)
    ensures
        count_val(nonzeros(s), 0) == 0,
    decreases s.len(),
{
    if s.len() > 0 {
        lemma_count_nonzeros_zero(s.drop_first());
        if s.first() != 0 {
            assert((seq![s.first()] + nonzeros(s.drop_first())).drop_first() =~= nonzeros(
                s.drop_first(),
            ));
        }
    }
}

proof fn lemma_nonzeros_sum(s: Seq<u64>)
    ensures
        seq_sum(nonzeros(s)) == seq_sum(s),
    decreases s.len(),
{
    if s.len() > 0 {
        lemma_sum_front(s);
        lemma_nonzeros_sum(s.drop_first());
        if s.first() != 0 {
            lemma_sum_front(seq![s.first()] + nonzeros(s.drop_first()));
            assert((seq![s.first()] + nonzeros(s.drop_first())).drop_first() =~= nonzeros(
                s.drop_first(),
            ));
        }
    }
}

proof fn lemma_zero_pad_sum(n: nat)
    ensures
        seq_sum(Seq::new(n, |i: int| 0u64)) == 0,
    decreases n,
{
    if n > 0 {
        let s = Seq::new(n, |i: int| 0u64);
        lemma_sum_front(s);
        assert(s.drop_first() =~= Seq::new((n - 1) as nat, |i: int| 0u64));
        lemma_zero_pad_sum((n - 1) as nat);
    }
}

/// Compaction never changes the sum of a line.
pub proof fn lemma_compact_preserves_sum(s: Seq<u64>)
    ensures
        seq_sum(compact_line(s)) == seq_sum(s),
{
    let pad = Seq::new((s.len() - nonzeros(s).len()) as nat, |i: int| 0u64);
    lemma_nonzeros_len(s);
    lemma_sum_concat(nonzeros(s), pad);
    lemma_zero_pad_sum(pad.len());
    lemma_nonzeros_sum(s);
}

/// The comparator of the sorting network: hand the pair through unchanged
/// unless the left cell is zero, in which case reverse it.
fn swap(a: u64, b: u64) -> (r: (u64, u64))
    ensures
        r == if a == 0 {
            (b, a)
        } else {
            (a, b)
        },
{
    let bit = a.is_equal_to_zero_bit();
    if bit {
        (b, a)
    } else {
        (a, b)
    }
}

/// One line through the six-comparator network
/// `(0,1)(0,2)(0,3)(1,2)(1,3)(2,3)`.
fn sort_line(line: &Vec<u64>) -> (r: Vec<u64>)
    requires
        line@.len() == 4,
    ensures
        r@ == compact_line(line@),
{
    let (s0, s1) = swap(line[0], line[1]);
    let (s0, s2) = swap(s0, line[2]);
    let (s0, s3) = swap(s0, line[3]);
    let (s1, s2) = swap(s1, s2);
    let (s1, s3) = swap(s1, s3);
    let (s2, s3) = swap(s2, s3);
    let r = quad(s0, s1, s2, s3);
    proof {
        reveal_with_fuel(nonzeros, 6);
        assert(line@ =~= seq![line@[0], line@[1], line@[2], line@[3]]);
        assert(r@ =~= compact_line(line@));
    }
    r
}

pub struct SortByZero {
    pub lines: Vec<Vec<u64>>,
    pub sorted_lines: Vec<Vec<u64>>,
    pub namespace_index: usize,
}

impl SortByZero {
    pub fn new(lines: &Vec<Vec<u64>>, namespace_index: usize) -> (r: Self)
        requires
            lines@.len() == 4,
            forall|i: int| 0 <= i < 4 ==> (#[trigger] lines@[i])@.len() == 4,
        ensures
            r.lines@.len() == 4,
            forall|i: int| 0 <= i < 4 ==> (#[trigger] r.lines@[i])@ == lines@[i]@,
            forall|i: int| 0 <= i < 4 ==> (#[trigger] r.lines@[i])@.len() == 4,
            r.sorted_lines@.len() == 0,
            r.namespace_index == namespace_index,
    {
        Self { lines: crate::clone_lines(lines), sorted_lines: Vec::new(), namespace_index }
    }

    /// Compacts each of the four lines.  Synthesis itself cannot fail: the
    /// comparators constrain freshly allocated wires, so every input line
    /// admits the honest witness.
    pub fn synthesize(&mut self) -> (r: Result<(), SynthesisError>)
        requires
            old(self).lines@.len() == 4,
            forall|i: int| 0 <= i < 4 ==> (#[trigger] old(self).lines@[i])@.len() == 4,
            old(self).namespace_index + 24 <= usize::MAX,
        ensures
            final(self).lines@ == old(self).lines@,
            final(self).namespace_index == old(self).namespace_index + 24,
            r is Ok,
            final(self).sorted_lines@.len() == 4,
            forall|i: int| 0 <= i < 4 ==> (#[trigger] final(self).sorted_lines@[i])@
                == compact_line(old(self).lines@[i]@),
    {
        let mut sorted_lines: Vec<Vec<u64>> = Vec::new();
        let mut i: usize = 0;
        while i < 4
            invariant
                0 <= i <= 4,
                self == old(self),
                old(self).lines@.len() == 4,
                forall|k: int| 0 <= k < 4 ==> (#[trigger] old(self).lines@[k])@.len() == 4,
                sorted_lines@.len() == i,
                forall|k: int| 0 <= k < i ==> (#[trigger] sorted_lines@[k])@ == compact_line(
                    old(self).lines@[k]@,
                ),
            decreases 4 - i,
        {
            let sorted = sort_line(&self.lines[i]);
            sorted_lines.push(sorted);
            i = i + 1;
        }
        self.sorted_lines = sorted_lines;
        self.namespace_index = self.namespace_index + 24;
        Ok(())
    }
}

} // verus!
