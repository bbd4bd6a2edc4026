use vstd::prelude::*;

use crate::field::{is_felt, m31_step, step_spec, lemma_ops_are_felts};

verus! {

/// The tallest trace: the circle group of the base field has order 2^31,
/// and the evaluation domain takes one more bit than the trace.
pub const MAX_LOG_N_ROWS: u32 = 30;

/// 2^e as a natural number.
pub open spec fn two_pow(e: nat) -> nat
    decreases e,
{
    if e == 0 {
        1
    } else {
        2 * two_pow((e - 1) as nat)
    }
}

/// Row counts up to `MAX_LOG_N_ROWS` fit comfortably in a machine word.
pub proof fn lemma_two_pow_bound(e: nat)
    requires
        e <= 30,
    ensures
        1 <= two_pow(e) <= 0x4000_0000,
{
    reveal_with_fuel(two_pow, 31);
    assert(two_pow(30) == 0x4000_0000);
    lemma_two_pow_mono(e, 30);
    lemma_two_pow_pos(e);
}

/// `two_pow` is monotone.
pub proof fn lemma_two_pow_mono(a: nat, b: nat)
    requires
        a <= b,
    ensures
        two_pow(a) <= two_pow(b),
    decreases b,
{
    if a < b {
        lemma_two_pow_mono(a, (b - 1) as nat);
        lemma_two_pow_pos((b - 1) as nat);
    }
}

/// `two_pow` is positive.
pub proof fn lemma_two_pow_pos(e: nat)
    ensures
        two_pow(e) >= 1,
    decreases e,
{
    if e > 0 {
        lemma_two_pow_pos((e - 1) as nat);
    }
}

/// The row count of a trace of height exponent `log_n_rows`.
pub fn n_rows_of(log_n_rows: u32) -> (r: usize)
    requires
        log_n_rows <= MAX_LOG_N_ROWS,
    ensures
        r as nat == two_pow(log_n_rows as nat),
{
    let mut n: usize = 1;
    let mut i: u32 = 0;
    while i < log_n_rows
        invariant
            i <= log_n_rows <= MAX_LOG_N_ROWS,
            n as nat == two_pow(i as nat),
        decreases log_n_rows - i,
    {
        proof {
            lemma_two_pow_bound(i as nat);
        }
        n = n * 2;
        i = i + 1;
    }
    n
}

/// Cell `i` of a row of the squared-Fibonacci recurrence seeded with `(a, b)`.
pub open spec fn fib_cell(a: u32, b: u32, i: nat) -> u32
    decreases i,
{
    if i == 0 {
        a
    } else if i == 1 {
        b
    } else {
        step_spec(fib_cell(a, b, (i - 2) as nat), fib_cell(a, b, (i - 1) as nat))
    }
}

/// The row of `n_cols` cells seeded with `(a, b)`.
pub open spec fn fib_row(a: u32, b: u32, n_cols: nat) -> Seq<u32> {
    Seq::new(n_cols, |i: int| fib_cell(a, b, i as nat))
}

/// The seed pair of one row.
#[derive(Clone, Copy, Debug, PartialEq, Eq)]
pub struct FibInput {
    pub a: u32,
    pub b: u32,
}

/// Why a trace could not be generated.
#[derive(Clone, Copy, Debug, PartialEq, Eq)]
pub enum TraceError {
    /// The height exponent exceeds `MAX_LOG_N_ROWS`.
    TooTall,
    /// The number of seed pairs is not the row count.
    SeedCount,
}

/// A rectangular matrix of field elements, stored row by row.
#[derive(Debug)]
pub struct Trace {
    pub log_n_rows: u32,
    pub n_cols: usize,
    pub rows: Vec<Vec<u32>>,
}

impl Trace {
    /// The cells of the trace, row by row.
    pub open spec fn cells(&self) -> Seq<Seq<u32>> {
        self.rows@.map_values(|r: Vec<u32>| r@)
    }

    /// Shape invariant: `2^log_n_rows` rows of `n_cols` field elements each.
    pub open spec fn wf(&self) -> bool {
        &&& self.log_n_rows <= MAX_LOG_N_ROWS
        &&& self.rows@.len() == two_pow(self.log_n_rows as nat)
        &&& forall|r: int| 0 <= r < self.rows@.len() ==> #[trigger] self.rows@[r]@.len() == self.n_cols
        &&& forall|r: int, i: int|
            0 <= r < self.rows@.len() && 0 <= i < self.n_cols ==> is_felt(#[trigger] self.rows@[r]@[i])
    }

    /// The row count.
    pub fn n_rows(&self) -> (r: usize)
        ensures
            r == self.rows@.len(),
    {
        self.rows.len()
    }
}

/// One row of the recurrence: the seeds, then `prev2^2 + prev1^2` per column.
pub fn gen_row(a: u32, b: u32, n_cols: usize) -> (r: Vec<u32>)
    requires
        is_felt(a),
        is_felt(b),
        2 <= n_cols,
    ensures
        r@ == fib_row(a, b, n_cols as nat),
{
    let mut row: Vec<u32> = Vec::with_capacity(n_cols);
    row.push(a);
    row.push(b);
    let mut i: usize = 2;
    while i < n_cols
        invariant
            2 <= i <= n_cols,
            row@.len() == i,
            forall|j: int| 0 <= j < i ==> row@[j] == fib_cell(a, b, j as nat),
            forall|j: int| 0 <= j < i ==> is_felt(#[trigger] row@[j]),
        decreases n_cols - i,
    {
        let c = m31_step(row[i - 2], row[i - 1]);
        row.push(c);
        i = i + 1;
    }
    assert(row@ =~= fib_row(a, b, n_cols as nat));
    row
}

/// Seeds in the field give cells in the field.
pub proof fn lemma_fib_cells_are_felts(a: u32, b: u32, i: nat)
    requires
        is_felt(a),
        is_felt(b),
    ensures
        is_felt(fib_cell(a, b, i)),
{
    if i >= 2 {
        lemma_ops_are_felts(fib_cell(a, b, (i - 2) as nat), fib_cell(a, b, (i - 1) as nat));
    }
}

/// Builds the trace of `2^log_n_rows` rows, row `r` seeded by `inputs[r]`.
pub fn gen_trace(log_n_rows: u32, n_cols: usize, inputs: &Vec<FibInput>) -> (res: Result<Trace, TraceError>)
    requires
        2 <= n_cols,
        forall|r: int| 0 <= r < inputs@.len() ==> is_felt(#[trigger] inputs@[r].a) && is_felt(inputs@[r].b),
    ensures
        log_n_rows > MAX_LOG_N_ROWS ==> res == Err::<Trace, TraceError>(TraceError::TooTall),
        log_n_rows <= MAX_LOG_N_ROWS && inputs@.len() != two_pow(log_n_rows as nat)
            ==> res == Err::<Trace, TraceError>(TraceError::SeedCount),
        log_n_rows <= MAX_LOG_N_ROWS && inputs@.len() == two_pow(log_n_rows as nat) ==> res is Ok,
        res matches Ok(t) ==> {
            &&& t.wf()
            &&& t.log_n_rows == log_n_rows
            &&& t.n_cols == n_cols
            &&& forall|r: int| 0 <= r < inputs@.len()
                ==> #[trigger] t.cells()[r] == fib_row(inputs@[r].a, inputs@[r].b, n_cols as nat)
        },
{
    if log_n_rows > MAX_LOG_N_ROWS {
        return Err(TraceError::TooTall);
    }
    let n = n_rows_of(log_n_rows);
    if inputs.len() != n {
        return Err(TraceError::SeedCount);
    }
    let mut rows: Vec<Vec<u32>> = Vec::with_capacity(n);
    let mut r: usize = 0;
    while r < n
        invariant
            r <= n == inputs@.len(),
            2 <= n_cols,
            forall|k: int| 0 <= k < inputs@.len() ==> is_felt(#[trigger] inputs@[k].a) && is_felt(inputs@[k].b),
            rows@.len() == r,
            forall|k: int| 0 <= k < r
                ==> #[trigger] rows@[k]@ == fib_row(inputs@[k].a, inputs@[k].b, n_cols as nat),
        decreases n - r,
    {
        let inp = inputs[r];
        let row = gen_row(inp.a, inp.b, n_cols);
        rows.push(row);
        r = r + 1;
    }
    let t = Trace { log_n_rows, n_cols, rows };
    assert forall|k: int, i: int| 0 <= k < t.rows@.len() && 0 <= i < t.n_cols implies is_felt(
        #[trigger] t.rows@[k]@[i],
    ) by {
        lemma_fib_cells_are_felts(inputs@[k].a, inputs@[k].b, i as nat);
    }
    Ok(t)
}

} // verus!
