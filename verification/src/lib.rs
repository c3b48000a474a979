//! Witness-level model of a 2048 step circuit.
//!
//! One step of the 2048 sliding-tile game is arithmetised elsewhere as a
//! rank-1 constraint system over a prime field; every decision in the game
//! rule ("slide, merge equal neighbours once, spawn a tile") is encoded
//! branch-free through zero-test and selection gadgets.  This crate verifies
//! the logic of that encoding: each module mirrors one stage of the circuit
//! pipeline and computes, on plain `u64` cell values, exactly the witness
//! that the honest prover assigns to the stage's wires.  The contracts pin
//! those values down, and the proof functions establish the game-level laws
//! (the orientation round-trip, compaction stability, merge conservation,
//! and conservation of the board sum across a step).
//!
//! Constraint emission itself is generic over a foreign field and constraint
//! system and lives outside this crate; the spawn stage's big-integer
//! division is the one foreign call made here, behind a trusted wrapper.

use vstd::prelude::*;

pub mod can_move;
pub mod direction_chooser;
pub mod game_2048;
pub mod gen_next;
pub mod merge;
pub mod restore;
pub mod sort;

verus! {

/// Bound on the sum of a board's cells, so that every intermediate value of
/// the pipeline (doubled cells, dot products with boolean selectors, running
/// sums over 16 cells) fits in a `u64`.
pub const MAX_BOARD_SUM: u64 = 0x1000_0000_0000_0000;

/// The one failure synthesis can surface: the built constraint system would
/// not be satisfiable by any witness (a direction vector that is not one-hot).
/// Backend allocation errors have no counterpart in this model.
#[derive(Clone, Copy, Debug, PartialEq, Eq, Structural)]
pub enum SynthesisError {
    Unsatisfiable,
}

/// Sum of the first `n` entries of `s`, as an unbounded integer.
pub open spec fn sum_to(s: Seq<u64>, n: int) -> int
    decreases n,
{
    if n <= 0 {
        0
    } else {
        sum_to(s, n - 1) + s[n - 1]
    }
}

/// Sum of all entries of `s`.
pub open spec fn seq_sum(s: Seq<u64>) -> int {
    sum_to(s, s.len() as int)
}

/// Dot product of the first `n` entries of `a` and `b`.
pub open spec fn dot_to(a: Seq<u64>, b: Seq<u64>, n: int) -> int
    decreases n,
{
    if n <= 0 {
        0
    } else {
        dot_to(a, b, n - 1) + a[n - 1] * b[n - 1]
    }
}

/// Dot product of `a` and `b` (used with sequences of equal length).
pub open spec fn dot(a: Seq<u64>, b: Seq<u64>) -> int {
    dot_to(a, b, a.len() as int)
}

/// Number of zero entries among the first `n` entries of `s`.
pub open spec fn zeros_to(s: Seq<u64>, n: int) -> int
    decreases n,
{
    if n <= 0 {
        0
    } else {
        zeros_to(s, n - 1) + if s[n - 1] == 0 {
            1int
        } else {
            0int
        }
    }
}

/// Number of zero entries of `s`.
pub open spec fn count_zeros(s: Seq<u64>) -> int {
    zeros_to(s, s.len() as int)
}

/// Four lines of four cells each.
pub open spec fn is_lines(ls: Seq<Seq<u64>>) -> bool {
    ls.len() == 4 && forall|i: int| 0 <= i < 4 ==> (#[trigger] ls[i]).len() == 4
}

/// Mathematical view of a vector of lines.
pub open spec fn lines_view(ls: Seq<Vec<u64>>) -> Seq<Seq<u64>> {
    ls.map_values(|v: Vec<u64>| v@)
}

/// A direction vector is boolean in each coordinate and sums to one:
/// exactly one of (up, down, left, right) is active.
pub open spec fn is_one_hot(d: Seq<u64>) -> bool {
    &&& d.len() == 4
    &&& forall|i: int| 0 <= i < 4 ==> #[trigger] d[i] <= 1
    &&& seq_sum(d) == 1
}

/// Index of the active coordinate of a one-hot direction vector:
/// 0 = up, 1 = down, 2 = left, 3 = right.
pub open spec fn dir_index(d: Seq<u64>) -> int {
    if d[0] == 1 {
        0
    } else if d[1] == 1 {
        1
    } else if d[2] == 1 {
        2
    } else {
        3
    }
}

pub proof fn lemma_sum_to_nonneg(s: Seq<u64>, n: int)
    requires
        n <= s.len(),
    ensures
        0 <= sum_to(s, n),
    decreases n,
{
    if n > 0 {
        lemma_sum_to_nonneg(s, n - 1);
    }
}

pub proof fn lemma_sum_to_mono(s: Seq<u64>, m: int, n: int)
    requires
        0 <= m <= n <= s.len(),
    ensures
        sum_to(s, m) <= sum_to(s, n),
    decreases n,
{
    if m < n {
        lemma_sum_to_mono(s, m, n - 1);
    }
}

proof fn lemma_sum_to_front(s: Seq<u64>, n: int)
    requires
        0 < n <= s.len(),
    ensures
        sum_to(s, n) == s[0] + sum_to(s.drop_first(), n - 1),
    decreases n,
{
    reveal_with_fuel(sum_to, 3);
    if n > 1 {
        lemma_sum_to_front(s, n - 1);
        assert(s.drop_first()[n - 2] == s[n - 1]);
        assert(sum_to(s, n) == sum_to(s, n - 1) + s[n - 1]);
        assert(sum_to(s.drop_first(), n - 1) == sum_to(s.drop_first(), n - 2) + s.drop_first()[n
            - 2]);
    } else {
        assert(sum_to(s, 1) == sum_to(s, 0) + s[0]);
        assert(sum_to(s.drop_first(), 0) == 0);
    }
}

/// Peeling the first cell off a sum.
pub proof fn lemma_sum_front(s: Seq<u64>)
    requires
        s.len() > 0,
    ensures
        seq_sum(s) == s[0] + seq_sum(s.drop_first()),
{
    lemma_sum_to_front(s, s.len() as int);
}

/// Sums distribute over concatenation.
pub proof fn lemma_sum_concat(a: Seq<u64>, b: Seq<u64>)
    ensures
        seq_sum(a + b) == seq_sum(a) + seq_sum(b),
    decreases a.len(),
{
    if a.len() == 0 {
        assert(a + b =~= b);
    } else {
        assert((a + b).drop_first() =~= a.drop_first() + b);
        lemma_sum_front(a + b);
        lemma_sum_front(a);
        lemma_sum_concat(a.drop_first(), b);
    }
}

/// Every cell is at most the sum of all cells.
pub proof fn lemma_term_le_sum(s: Seq<u64>, i: int)
    requires
        0 <= i < s.len(),
    ensures
        s[i] <= seq_sum(s),
{
    lemma_sum_to_nonneg(s, i);
    lemma_sum_to_mono(s, i + 1, s.len() as int);
}

/// Unfolding of `seq_sum` for a line of four cells.
pub proof fn lemma_sum4(s: Seq<u64>)
    requires
        s.len() == 4,
    ensures
        seq_sum(s) == s[0] + s[1] + s[2] + s[3],
{
    reveal_with_fuel(sum_to, 5);
}

/// Unfolding of `seq_sum` for a full board.
pub proof fn lemma_sum16(s: Seq<u64>)
    requires
        s.len() == 16,
    ensures
        seq_sum(s) == s[0] + s[1] + s[2] + s[3] + s[4] + s[5] + s[6] + s[7] + s[8] + s[9] + s[10]
            + s[11] + s[12] + s[13] + s[14] + s[15],
{
    reveal_with_fuel(sum_to, 17);
}

/// Unfolding of `dot` for quadruples, as used by the one-hot selections.
pub proof fn lemma_dot4(a: Seq<u64>, b: Seq<u64>)
    requires
        a.len() == 4,
    ensures
        dot(a, b) == a[0] * b[0] + a[1] * b[1] + a[2] * b[2] + a[3] * b[3],
{
    reveal_with_fuel(dot_to, 5);
}

/// With a one-hot selector, the dot product picks out the active entry.
pub proof fn lemma_one_hot_select(a: Seq<u64>, d: Seq<u64>)
    requires
        a.len() == 4,
        is_one_hot(d),
    ensures
        0 <= dir_index(d) < 4,
        dot(a, d) == a[dir_index(d)],
{
    lemma_dot4(a, d);
    lemma_sum4(d);
    assert(forall|x: u64, y: u64| y == 0 ==> #[trigger] (x * y) == 0) by (nonlinear_arith);
    assert(forall|x: u64, y: u64| y == 1 ==> #[trigger] (x * y) == x) by (nonlinear_arith);
}

/// The gadget catalog shared by all stages.  In the circuit these operations
/// allocate wires and append constraints; the model keeps only the witness
/// value each gadget carries, so a wire is a plain `u64` and every method
/// returns the value the honest prover would assign.
pub trait NumConstraintSystem {
    /// The witness value carried by this wire.
    spec fn value(&self) -> u64;

    /// The "zero" wire.
    fn zero() -> (r: u64)
        ensures
            r == 0,
    ;

    /// 1 if and only if `self` equals `other`, otherwise 0.
    fn is_equal(&self, other: &Self) -> (r: u64)
        ensures
            r == if self.value() == other.value() {
                1u64
            } else {
                0u64
            },
    ;

    /// 1 if and only if `self` equals 0, otherwise 0.
    fn is_equal_to_zero(&self) -> (r: u64)
        ensures
            r == if self.value() == 0 {
                1u64
            } else {
                0u64
            },
    ;

    /// The same test carried on a boolean wire.
    fn is_equal_to_zero_bit(&self) -> (r: bool)
        ensures
            r <==> self.value() == 0,
    ;

    /// 0 if and only if `self` equals 0, otherwise 1.
    fn is_not_equal_to_zero(&self) -> (r: u64)
        ensures
            r == if self.value() == 0 {
                0u64
            } else {
                1u64
            },
    ;

    /// Difference of two wires.  The circuit subtracts in the field; the
    /// model keeps the difference only where it is a natural number.
    fn sub(&self, other: &Self) -> (r: u64)
        requires
            other.value() <= self.value(),
        ensures
            r == self.value() - other.value(),
    ;

    /// Whether the boolean constraint `self * (1 - self) = 0` holds.
    fn apply_bool_constraint(&self) -> (r: bool)
        ensures
            r <==> (self.value() == 0 || self.value() == 1),
    ;

    /// Sum of a collection of wires.
    fn sum(vars: &Vec<u64>) -> (r: u64)
        requires
            seq_sum(vars@) <= u64::MAX,
        ensures
            r == seq_sum(vars@),
    ;

    /// Pairwise product of two collections of wires.
    fn product(a: &Vec<u64>, b: &Vec<u64>) -> (r: Vec<u64>)
        requires
            a@.len() == b@.len(),
            forall|i: int| 0 <= i < a@.len() ==> #[trigger] (a@[i] * b@[i]) <= u64::MAX,
        ensures
            r@.len() == a@.len(),
            forall|i: int| 0 <= i < a@.len() ==> r@[i] == #[trigger] (a@[i] * b@[i]),
    ;

    /// Pairwise product followed by a sum: with a one-hot `b` this selects
    /// one entry of `a`.
    fn product_sum(a: &Vec<u64>, b: &Vec<u64>) -> (r: u64)
        requires
            a@.len() == b@.len(),
            dot(a@, b@) <= u64::MAX,
        ensures
            r == dot(a@, b@),
    ;
}

impl NumConstraintSystem for u64 {
    open spec fn value(&self) -> u64 {
        *self
    }

    fn zero() -> (r: u64) {
        0
    }

    fn is_equal(&self, other: &Self) -> (r: u64) {
        if *self == *other {
            1
        } else {
            0
        }
    }

    fn is_equal_to_zero(&self) -> (r: u64) {
        if *self == 0 {
            1
        } else {
            0
        }
    }

    fn is_equal_to_zero_bit(&self) -> (r: bool) {
        *self == 0
    }

    fn is_not_equal_to_zero(&self) -> (r: u64) {
        if *self == 0 {
            0
        } else {
            1
        }
    }

    fn sub(&self, other: &Self) -> (r: u64) {
        *self - *other
    }

    fn apply_bool_constraint(&self) -> (r: bool) {
        *self == 0 || *self == 1
    }

    fn sum(vars: &Vec<u64>) -> (r: u64) {
        let mut acc: u64 = 0;
        let mut i: usize = 0;
        while i < vars.len()
            invariant
                0 <= i <= vars@.len(),
                acc == sum_to(vars@, i as int),
                seq_sum(vars@) <= u64::MAX,
            decreases vars@.len() - i,
        {
            proof {
                lemma_sum_to_nonneg(vars@, i as int);
                lemma_sum_to_mono(vars@, i + 1, vars@.len() as int);
            }
            acc = acc + vars[i];
            i = i + 1;
        }
        acc
    }

    fn product(a: &Vec<u64>, b: &Vec<u64>) -> (r: Vec<u64>) {
        let mut r: Vec<u64> = Vec::new();
        let mut i: usize = 0;
        while i < a.len()
            invariant
                0 <= i <= a@.len(),
                a@.len() == b@.len(),
                r@.len() == i,
                forall|j: int| 0 <= j < i ==> r@[j] == #[trigger] (a@[j] * b@[j]),
                forall|j: int| 0 <= j < a@.len() ==> #[trigger] (a@[j] * b@[j]) <= u64::MAX,
            decreases a@.len() - i,
        {
            r.push(a[i] * b[i]);
            i = i + 1;
        }
        r
    }

    fn product_sum(a: &Vec<u64>, b: &Vec<u64>) -> (r: u64) {
        let mut acc: u64 = 0;
        let mut i: usize = 0;
        while i < a.len()
            invariant
                0 <= i <= a@.len(),
                a@.len() == b@.len(),
                acc == dot_to(a@, b@, i as int),
                dot(a@, b@) <= u64::MAX,
            decreases a@.len() - i,
        {
            proof {
                lemma_dot_to_nonneg(a@, b@, i as int);
                lemma_dot_to_mono(a@, b@, i + 1, a@.len() as int);
            }
            acc = acc + a[i] * b[i];
            i = i + 1;
        }
        acc
    }
}

/// Builds the quadruple handed to a one-hot selection: one candidate cell
/// per direction, in the order (up, down, left, right).
pub(crate) fn quad(u: u64, d: u64, l: u64, r: u64) -> (q: Vec<u64>)
    ensures
        q@ =~= seq![u, d, l, r],
{
    let mut q: Vec<u64> = Vec::new();
    q.push(u);
    q.push(d);
    q.push(l);
    q.push(r);
    q
}

/// Copies a stage's input lines into the stage's own storage.
pub(crate) fn clone_lines(lines: &Vec<Vec<u64>>) -> (r: Vec<Vec<u64>>)
    ensures
        r@.len() == lines@.len(),
        forall|k: int| 0 <= k < lines@.len() ==> (#[trigger] r@[k])@ == lines@[k]@,
{
    let mut own: Vec<Vec<u64>> = Vec::new();
    let mut i: usize = 0;
    while i < lines.len()
        invariant
            0 <= i <= lines@.len(),
            own@.len() == i,
            forall|k: int| 0 <= k < i ==> (#[trigger] own@[k])@ == lines@[k]@,
        decreases lines@.len() - i,
    {
        own.push(lines[i].clone());
        i = i + 1;
    }
    own
}

pub proof fn lemma_dot_to_nonneg(a: Seq<u64>, b: Seq<u64>, n: int)
    requires
        n <= a.len(),
        n <= b.len(),
    ensures
        0 <= dot_to(a, b, n),
    decreases n,
{
    if n > 0 {
        lemma_dot_to_nonneg(a, b, n - 1);
    }
}

pub proof fn lemma_dot_to_mono(a: Seq<u64>, b: Seq<u64>, m: int, n: int)
    requires
        0 <= m <= n <= a.len(),
        n <= b.len(),
    ensures
        dot_to(a, b, m) <= dot_to(a, b, n),
    decreases n,
{
    if m < n {
        lemma_dot_to_mono(a, b, m, n - 1);
    }
}

} // verus!
