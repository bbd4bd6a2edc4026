use vstd::prelude::*;

use crate::field::{is_felt, m31_step, step_spec};
use crate::trace::{fib_cell, fib_row};

verus! {

/// A row satisfies the recurrence: each cell past the seeds is the sum of the
/// squares of the two before it.
pub open spec fn row_ok(row: Seq<u32>) -> bool {
    forall|i: int| 2 <= i < row.len() ==> #[trigger] row[i] == step_spec(row[i - 2], row[i - 1])
}

/// Every cell of the row is a field element.
pub open spec fn row_felts(row: Seq<u32>) -> bool {
    forall|i: int| 0 <= i < row.len() ==> is_felt(#[trigger] row[i])
}

/// One declared identity `c - (a^2 + b^2) = 0` over the mask cells `a`, `b`, `c`
/// of a row.
#[derive(Clone, Copy, Debug, PartialEq, Eq)]
pub struct Constraint {
    pub a: usize,
    pub b: usize,
    pub c: usize,
}

/// The identities that `FibAir::evaluate` declares for rows of `n_cols` cells.
pub open spec fn declared(n_cols: nat) -> Seq<Constraint> {
    Seq::new(
        if n_cols >= 2 { (n_cols - 2) as nat } else { 0 },
        |k: int| Constraint { a: k as usize, b: (k + 1) as usize, c: (k + 2) as usize },
    )
}

/// Every mask index of every constraint lies inside a row of `n` cells.
pub open spec fn in_row(cs: Seq<Constraint>, n: nat) -> bool {
    forall|k: int| 0 <= k < cs.len() ==> {
        &&& (#[trigger] cs[k]).a < n
        &&& cs[k].b < n
        &&& cs[k].c < n
    }
}

/// The concrete row meets every constraint of `cs`.
pub open spec fn holds_all(cs: Seq<Constraint>, row: Seq<u32>) -> bool {
    forall|k: int| 0 <= k < cs.len() ==> #[trigger] row[cs[k].c as int] == step_spec(
        row[cs[k].a as int],
        row[cs[k].b as int],
    )
}

/// The squared-Fibonacci AIR: `n_cols` columns, trace height `2^log_n_rows`.
#[derive(Clone, Copy, Debug, PartialEq, Eq)]
pub struct FibAir {
    pub log_n_rows: u32,
    pub n_cols: usize,
}

impl FibAir {
    /// The trace height exponent.
    pub fn log_size(&self) -> (r: u32)
        ensures
            r == self.log_n_rows,
    {
        self.log_n_rows
    }

    /// One bit of headroom above the trace height for the squaring.
    pub fn max_constraint_log_degree_bound(&self) -> (r: u32)
        requires
            self.log_n_rows < u32::MAX,
        ensures
            r == self.log_n_rows + 1,
    {
        self.log_n_rows + 1
    }

    /// The constraint declaration, read mask by mask: `a` and `b`, then for
    /// each further column one more mask `c`, the identity over `(a, b, c)`,
    /// and the shift `(a, b) <- (b, c)`. The prover checks every row against
    /// this list and the verifier checks the sampled rows against the same
    /// list, with the one evaluator `check_row`.
    pub fn evaluate(&self) -> (r: Vec<Constraint>)
        ensures
            r@ == declared(self.n_cols as nat),
    {
        let mut out: Vec<Constraint> = Vec::new();
        if self.n_cols < 2 {
            assert(out@ =~= declared(self.n_cols as nat));
            return out;
        }
        let mut next: usize = 0;
        let mut a = next;
        next = next + 1;
        let mut b = next;
        next = next + 1;
        while next < self.n_cols
            invariant
                2 <= next <= self.n_cols,
                a == next - 2,
                b == next - 1,
                out@ =~= declared(next as nat),
            decreases self.n_cols - next,
        {
            let c = next;
            next = next + 1;
            out.push(Constraint { a, b, c });
            a = b;
            b = c;
        }
        out
    }
}

/// The checking evaluator: substitutes the concrete cells of `row` into each
/// declared identity.
pub fn check_row(cs: &Vec<Constraint>, row: &Vec<u32>) -> (r: bool)
    requires
        in_row(cs@, row@.len()),
        row_felts(row@),
    ensures
        r == holds_all(cs@, row@),
{
    let mut k: usize = 0;
    while k < cs.len()
        invariant
            k <= cs@.len(),
            in_row(cs@, row@.len()),
            row_felts(row@),
            holds_all(cs@.take(k as int), row@),
        decreases cs@.len() - k,
    {
        let con = cs[k];
        let v = m31_step(row[con.a], row[con.b]);
        if row[con.c] != v {
            assert(!holds_all(cs@, row@)) by {
                assert(row@[cs@[k as int].c as int] != step_spec(
                    row@[cs@[k as int].a as int],
                    row@[cs@[k as int].b as int],
                ));
            }
            return false;
        }
        assert forall|j: int| 0 <= j < k + 1 implies #[trigger] row@[cs@.take(k + 1)[j].c as int]
            == step_spec(row@[cs@.take(k + 1)[j].a as int], row@[cs@.take(k + 1)[j].b as int]) by {
            if j < k {
                assert(cs@.take(k as int)[j] == cs@.take(k + 1)[j]);
            }
        }
        k = k + 1;
    }
    assert(cs@.take(k as int) =~= cs@);
    true
}

/// The declared identities lie inside a row of `n_cols` cells, and a row of
/// that width meets them exactly when it satisfies the recurrence.
pub proof fn lemma_declared_means_row_ok(n_cols: nat, row: Seq<u32>)
    requires
        row.len() == n_cols,
        n_cols <= usize::MAX,
    ensures
        in_row(declared(n_cols), n_cols),
        holds_all(declared(n_cols), row) <==> row_ok(row),
{
    let cs = declared(n_cols);
    assert forall|k: int| 0 <= k < cs.len() implies (#[trigger] cs[k]).a == k && cs[k].b == k + 1
        && cs[k].c == k + 2 by {}
    if holds_all(cs, row) {
        assert forall|i: int| 2 <= i < row.len() implies #[trigger] row[i] == step_spec(
            row[i - 2],
            row[i - 1],
        ) by {
            let k = i - 2;
            assert(row[cs[k].c as int] == step_spec(row[cs[k].a as int], row[cs[k].b as int]));
        }
    }
    if row_ok(row) {
        assert forall|k: int| 0 <= k < cs.len() implies #[trigger] row[cs[k].c as int] == step_spec(
            row[cs[k].a as int],
            row[cs[k].b as int],
        ) by {
            assert(row[k + 2] == step_spec(row[k + 2 - 2], row[k + 2 - 1]));
        }
    }
}

/// Every row that the trace generator builds satisfies the recurrence.
pub proof fn lemma_generated_row_ok(a: u32, b: u32, n_cols: nat)
    ensures
        row_ok(fib_row(a, b, n_cols)),
{
    let row = fib_row(a, b, n_cols);
    assert forall|i: int| 2 <= i < row.len() implies #[trigger] row[i] == step_spec(
        row[i - 2],
        row[i - 1],
    ) by {
        assert(row[i] == fib_cell(a, b, i as nat));
    }
}

} // verus!
