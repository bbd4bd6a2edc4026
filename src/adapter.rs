use vstd::prelude::*;

use crate::field::{is_felt, P};
use crate::air::FibAir;
use crate::orders::{Order, Side};
use crate::stark::{
    all_rows_ok, lemma_generated_trace_ok, lemma_honest_proof_verifies, lemma_public_rows_bound,
    proof_valid, prove,
    public_row, public_rows_hold, seed_felts, trace_fits, Proof, ProveError, PublicRows,
};
use crate::trace::{
    fib_row, gen_trace, lemma_two_pow_bound, n_rows_of, two_pow, FibInput, Trace,
    MAX_LOG_N_ROWS,
};

verus! {

/// The reduction of a word into the field.
pub open spec fn felt_of(x: u32) -> u32 {
    (x as int % P as int) as u32
}

/// The time of an order reduced into the field.
pub open spec fn time_felt(t: u64) -> int {
    t as int % P as int
}

/// The seeds of the row that stands for one order: the price with the side
/// in its low bit, and the amount with the time above its low 24 bits.
pub open spec fn op_seed(o: Order) -> FibInput {
    FibInput {
        a: ((2 * felt_of(o.price) as int + if o.side == Side::Sell { 1int } else { 0int }) % P as int) as u32,
        b: ((felt_of(o.amount) as int + 16777216 * time_felt(o.time)) % P as int) as u32,
    }
}

/// The number of rows that carry the final state, two elements per row.
pub open spec fn state_rows(n: nat) -> nat {
    (n + 1) / 2
}

/// The seeds of row `j` of the final state: elements `2j` and `2j + 1`, the
/// latter 0 past the end.
pub open spec fn state_seed(fs: Seq<u32>, j: int) -> FibInput {
    FibInput {
        a: felt_of(fs[2 * j]),
        b: if 2 * j + 1 < fs.len() { felt_of(fs[2 * j + 1]) } else { 0 },
    }
}

/// The seeds of the adapted trace of `total` rows: one row per order, then
/// the final state, then rows of zeros.
pub open spec fn adapted_seeds(log: Seq<Order>, fs: Seq<u32>, total: nat) -> Seq<FibInput> {
    Seq::new(
        total,
        |r: int|
            if r < log.len() {
                op_seed(log[r])
            } else if r < log.len() + state_rows(fs.len()) {
                state_seed(fs, r - log.len())
            } else {
                FibInput { a: 0, b: 0 }
            },
    )
}

/// `e` is the least height exponent whose row count holds `used` rows.
pub open spec fn least_height(e: u32, used: nat) -> bool {
    &&& two_pow(e as nat) >= used
    &&& (e == 0 || two_pow((e - 1) as nat) < used)
}

/// Why an order log could not be turned into a trace.
#[derive(Clone, Copy, Debug, PartialEq, Eq)]
pub enum AdaptError {
    /// The log and the final state need more than `2^MAX_LOG_N_ROWS` rows.
    TooTall,
}

/// The least height exponent whose row count holds `used` rows, if one up to
/// `MAX_LOG_N_ROWS` does.
pub fn height_for(used: usize) -> (r: Option<u32>)
    ensures
        r is None <==> used > two_pow(MAX_LOG_N_ROWS as nat),
        r matches Some(e) ==> e <= MAX_LOG_N_ROWS && least_height(e, used as nat),
{
    let mut e: u32 = 0;
    while e <= MAX_LOG_N_ROWS
        invariant
            e <= MAX_LOG_N_ROWS + 1,
            e == 0 || two_pow((e - 1) as nat) < used,
        decreases MAX_LOG_N_ROWS + 1 - e,
    {
        let n = n_rows_of(e);
        if n >= used {
            proof {
                crate::trace::lemma_two_pow_mono(e as nat, MAX_LOG_N_ROWS as nat);
            }
            return Some(e);
        }
        e = e + 1;
    }
    None
}

/// The seeds of row `j` of the final state.
fn state_seed_at(fs: &Vec<u32>, j: usize) -> (r: FibInput)
    requires
        j < state_rows(fs@.len()),
    ensures
        r == state_seed(fs@, j as int),
        is_felt(r.a) && is_felt(r.b),
{
    let fl = fs.len();
    assert(2 * j < fl);
    let i: usize = j + j;
    let a = reduce(fs[i]);
    let b = if i + 1 < fl {
        reduce(fs[i + 1])
    } else {
        0
    };
    FibInput { a, b }
}

fn reduce(x: u32) -> (r: u32)
    ensures
        r == felt_of(x),
        is_felt(r),
{
    x % P
}

/// Folds an order log and its final state into a trace of `n_cols` columns
/// for the squared-Fibonacci AIR: one row per order, seeded by `op_seed`, then
/// the final state two elements per row, then rows of zeros up to the least
/// power of two.
pub fn adapt(log: &Vec<Order>, final_state: &Vec<u32>, n_cols: usize) -> (res: Result<Trace, AdaptError>)
    requires
        2 <= n_cols,
    ensures
        res is Err <==> log@.len() + state_rows(final_state@.len()) > two_pow(MAX_LOG_N_ROWS as nat),
        res matches Ok(t) ==> {
            let used = log@.len() + state_rows(final_state@.len());
            let seeds = adapted_seeds(log@, final_state@, t.rows@.len());
            &&& t.wf()
            &&& t.n_cols == n_cols
            &&& least_height(t.log_n_rows, used)
            &&& forall|r: int| 0 <= r < t.rows@.len()
                ==> #[trigger] t.cells()[r] == fib_row(seeds[r].a, seeds[r].b, n_cols as nat)
        },
{
    proof {
        lemma_two_pow_bound(MAX_LOG_N_ROWS as nat);
    }
    if log.len() > n_rows_of(MAX_LOG_N_ROWS) || final_state.len() / 2 > n_rows_of(MAX_LOG_N_ROWS) {
        return Err(AdaptError::TooTall);
    }
    let n_state = (final_state.len() + 1) / 2;
    let used = log.len() + n_state;
    let e = match height_for(used) {
        Some(e) => e,
        None => {
            return Err(AdaptError::TooTall);
        },
    };
    let total = n_rows_of(e);
    let ghost want = adapted_seeds(log@, final_state@, total as nat);
    let mut seeds: Vec<FibInput> = Vec::with_capacity(total);
    let mut r: usize = 0;
    while r < total
        invariant
            r <= total,
            used == log@.len() + n_state,
            n_state == state_rows(final_state@.len()),
            used <= total,
            want == adapted_seeds(log@, final_state@, total as nat),
            seeds@ == want.take(r as int),
            forall|k: int| 0 <= k < r ==> is_felt(#[trigger] seeds@[k].a) && is_felt(seeds@[k].b),
        decreases total - r,
    {
        let s = if r < log.len() {
            let o = log[r];
            let bit: u32 = match o.side {
                Side::Sell => 1,
                Side::Buy => 0,
            };
            let p = reduce(o.price);
            let a: u64 = (2 * (p as u64) + bit as u64) % (P as u64);
            let t: u64 = o.time % (P as u64);
            let b: u64 = (reduce(o.amount) as u64 + 16777216 * t) % (P as u64);
            FibInput { a: a as u32, b: b as u32 }
        } else if r < used {
            state_seed_at(final_state, r - log.len())
        } else {
            FibInput { a: 0, b: 0 }
        };
        assert(s == want[r as int]);
        seeds.push(s);
        r = r + 1;
        assert(seeds@ =~= want.take(r as int));
    }
    assert(seeds@ =~= want);
    match gen_trace(e, n_cols, &seeds) {
        Ok(t) => Ok(t),
        Err(_) => Err(AdaptError::TooTall),
    }
}

/// The public rows that carry the final state of a log of `log_len` orders:
/// they start right after the order rows.
pub fn state_claim(log_len: usize, final_state: &Vec<u32>) -> (pr: PublicRows)
    ensures
        pr.offset == log_len,
        pr.seeds@.len() == state_rows(final_state@.len()),
        forall|j: int| 0 <= j < pr.seeds@.len() ==> #[trigger] pr.seeds@[j] == state_seed(final_state@, j),
{
    let n_state = final_state.len() / 2 + final_state.len() % 2;
    let mut seeds: Vec<FibInput> = Vec::with_capacity(n_state);
    let mut j: usize = 0;
    while j < n_state
        invariant
            n_state == state_rows(final_state@.len()),
            j <= n_state,
            seeds@.len() == j,
            forall|i: int| 0 <= i < j ==> #[trigger] seeds@[i] == state_seed(final_state@, i),
        decreases n_state - j,
    {
        seeds.push(state_seed_at(final_state, j));
        j = j + 1;
    }
    PublicRows { offset: log_len, seeds }
}

/// Folds an order log and its final state into a trace, and proves it with
/// the final state as public rows. Returns the trace height exponent, the
/// public rows and the proof, which `verify` accepts for them.
pub fn prove_order_log(log: &Vec<Order>, final_state: &Vec<u32>, n_cols: usize) -> (res: Result<
    (u32, PublicRows, Proof),
    AdaptError,
>)
    requires
        2 <= n_cols,
    ensures
        res is Err <==> log@.len() + state_rows(final_state@.len()) > two_pow(MAX_LOG_N_ROWS as nat),
        res matches Ok((log_n_rows, pr, p)) ==> {
            &&& pr.offset == log@.len()
            &&& pr.seeds@.len() == state_rows(final_state@.len())
            &&& forall|j: int| 0 <= j < pr.seeds@.len() ==> #[trigger] pr.seeds@[j] == state_seed(
                final_state@,
                j,
            )
            &&& least_height(log_n_rows, log@.len() + state_rows(final_state@.len()))
            &&& proof_valid(FibAir { log_n_rows, n_cols }, pr, p)
        },
{
    let t = match adapt(log, final_state, n_cols) {
        Ok(t) => t,
        Err(e) => {
            return Err(e);
        },
    };
    let pr = state_claim(log.len(), final_state);
    let air = FibAir { log_n_rows: t.log_n_rows, n_cols };
    let ghost seeds = adapted_seeds(log@, final_state@, t.rows@.len());
    proof {
        lemma_generated_trace_ok(t, seeds);
        assert forall|j: int| 0 <= j < pr.seeds@.len() implies #[trigger] seed_felts(pr.seeds@[j]) by {
            assert(pr.seeds@[j] == state_seed(final_state@, j));
        }
        assert forall|j: int| 0 <= j < pr.seeds@.len() implies #[trigger] t.cells()[pr.offset + j]
            == public_row(air, pr, j) by {
            let r = pr.offset + j;
            assert(seeds[r] == state_seed(final_state@, j));
        }
        assert(public_rows_hold(air, pr, t.cells()));
    }
    match prove(&air, &pr, &t) {
        Ok(p) => {
            proof {
                lemma_honest_proof_verifies(air, pr, t, p);
            }
            Ok((t.log_n_rows, pr, p))
        },
        Err(e) => {
            proof {
                assert(trace_fits(air, t) && all_rows_ok(t.cells()));
                assert(public_rows_hold(air, pr, t.cells()));
                match e {
                    ProveError::ShapeMismatch => {},
                    ProveError::ConstraintViolation => {},
                    ProveError::PublicRowsMismatch => {},
                }
                assert(false);
            }
            Err(AdaptError::TooTall)
        },
    }
}

/// A proof fixes the final state: if one proof is accepted with the public
/// rows of two final states of the same length after the same log, the two
/// states are equal as field elements.
pub proof fn lemma_final_state_bound(
    air: FibAir,
    log_len: usize,
    fs1: Seq<u32>,
    fs2: Seq<u32>,
    pr1: PublicRows,
    pr2: PublicRows,
    p: Proof,
)
    requires
        fs1.len() == fs2.len(),
        pr1.offset == log_len && pr2.offset == log_len,
        pr1.seeds@.len() == state_rows(fs1.len()),
        pr2.seeds@.len() == state_rows(fs2.len()),
        forall|j: int| 0 <= j < pr1.seeds@.len() ==> #[trigger] pr1.seeds@[j] == state_seed(fs1, j),
        forall|j: int| 0 <= j < pr2.seeds@.len() ==> #[trigger] pr2.seeds@[j] == state_seed(fs2, j),
        proof_valid(air, pr1, p),
        proof_valid(air, pr2, p),
    ensures
        forall|i: int| 0 <= i < fs1.len() ==> #[trigger] felt_of(fs1[i]) == felt_of(fs2[i]),
{
    lemma_public_rows_bound(air, pr1, pr2, p);
    assert forall|i: int| 0 <= i < fs1.len() implies #[trigger] felt_of(fs1[i]) == felt_of(fs2[i]) by {
        let j = i / 2;
        assert(pr1.seeds@[j] == pr2.seeds@[j]);
        assert(state_seed(fs1, j) == state_seed(fs2, j));
    }
}

} // verus!
