use vstd::prelude::*;

use crate::air::{
    check_row, lemma_declared_means_row_ok, lemma_generated_row_ok, row_felts, row_ok, FibAir,
};
use crate::channel::{drawn_word, draw_state, mix_commitment_spec, zero_state, Channel};
use crate::field::is_felt;
use crate::hash::{blake2s, blake2s_of, encode_row, row_bytes};
use crate::merkle::{
    fold_path, lemma_path_len, lemma_path_reaches_root, merkle_path, merkle_root, path_of, root_of,
    strs, verify_path,
};
use crate::trace::{fib_row, gen_row, n_rows_of, two_pow, FibInput, Trace, MAX_LOG_N_ROWS};

verus! {

/// How many rows the verifier samples.
pub const N_QUERIES: usize = 16;

/// The Merkle root of one committed tree and the log size of its domain.
#[derive(Clone, Debug)]
pub struct Commitment {
    pub root: Vec<u8>,
    pub domain_log_size: u32,
}

/// One sampled row of the main trace with its authentication path.
#[derive(Clone, Debug)]
pub struct Query {
    pub index: usize,
    pub row: Vec<u32>,
    pub path: Vec<Vec<u8>>,
}

/// The commitments (preprocessed, then main), the rows sampled by the
/// channel, and the openings of the public rows.
#[derive(Clone, Debug)]
pub struct Proof {
    pub commitments: Vec<Commitment>,
    pub queries: Vec<Query>,
    pub openings: Vec<Query>,
}

/// Rows whose seeds are public: row `offset + j` of the trace must be the
/// row of the recurrence seeded by `seeds[j]`. Both prover and verifier take
/// it, and the proof opens each such row at its fixed index.
#[derive(Clone, Debug)]
pub struct PublicRows {
    pub offset: usize,
    pub seeds: Vec<FibInput>,
}

/// Why the prover gave up.
#[derive(Clone, Copy, Debug, PartialEq, Eq)]
pub enum ProveError {
    /// The trace does not have the shape that the AIR declares.
    ShapeMismatch,
    /// Some row of the trace violates the declared recurrence.
    ConstraintViolation,
    /// The public rows lie outside the trace or differ from its rows.
    PublicRowsMismatch,
}

/// Why a proof was rejected.
#[derive(Clone, Copy, Debug, PartialEq, Eq)]
pub enum VerifyError {
    /// Wrong number of commitments or queries, or an unusable height.
    Malformed,
    /// A commitment's domain size differs from the claimed trace height.
    ParameterMismatch,
    /// A query is not at the row that the transcript selects.
    QueryIndex,
    /// An opened row has the wrong width or holds a non-field value.
    RowShape,
    /// An opened row violates the declared recurrence.
    Constraint,
    /// An authentication path does not lead to the main root.
    Merkle,
    /// The preprocessed root is not the root of the empty preprocessed trace.
    Preprocessed,
    /// The public rows lie outside the trace, or their openings do not show
    /// the rows that the public seeds give.
    PublicRows,
}

/// The leaf that commits to a row.
pub open spec fn leaf_hash(row: Seq<u32>) -> Seq<u8> {
    blake2s_of(row_bytes(row))
}

/// The leaves over the rows of a trace.
pub open spec fn leaves_of(cells: Seq<Seq<u32>>) -> Seq<Seq<u8>> {
    cells.map_values(|r: Seq<u32>| leaf_hash(r))
}

/// The leaves of the preprocessed trace, which has no columns.
pub open spec fn empty_leaves(n: nat) -> Seq<Seq<u8>> {
    Seq::new(n, |i: int| blake2s_of(Seq::<u8>::empty()))
}

/// The channel state after both commitments of `p` were absorbed.
pub open spec fn transcript_of(p: Proof) -> Seq<u8> {
    let c0 = p.commitments@[0];
    let c1 = p.commitments@[1];
    mix_commitment_spec(
        mix_commitment_spec(zero_state(), c0.root@, c0.domain_log_size),
        c1.root@,
        c1.domain_log_size,
    )
}

/// The row that query `k` samples among `n` rows, given the channel state `s`.
pub open spec fn query_index(s: Seq<u8>, k: nat, n: nat) -> nat {
    (drawn_word(s, k) as nat) % n
}

/// The query sits at row `expected`, opens a row of field elements that
/// satisfies the recurrence, and its path leads to `root`.
#[verifier::opaque]
pub open spec fn query_fits(air: FibAir, root: Seq<u8>, expected: nat, q: Query) -> bool {
    &&& q.index as nat == expected
    &&& q.row@.len() == air.n_cols
    &&& row_felts(q.row@)
    &&& row_ok(q.row@)
    &&& q.path@.len() == air.log_n_rows
    &&& fold_path(leaf_hash(q.row@), q.index as nat, strs(q.path@)) == root
}

/// The seeds of the public rows are field elements and the rows fit in a
/// trace of `air`.
pub open spec fn public_rows_fit(air: FibAir, pr: PublicRows) -> bool {
    &&& pr.offset + pr.seeds@.len() <= two_pow(air.log_n_rows as nat)
    &&& (pr.seeds@.len() > 0 ==> air.n_cols >= 2)
    &&& forall|j: int| 0 <= j < pr.seeds@.len() ==> #[trigger] seed_felts(pr.seeds@[j])
}

/// Both seeds are field elements.
pub open spec fn seed_felts(s: FibInput) -> bool {
    is_felt(s.a) && is_felt(s.b)
}

/// The row that public seed `j` gives.
pub open spec fn public_row(air: FibAir, pr: PublicRows, j: int) -> Seq<u32> {
    fib_row(pr.seeds@[j].a, pr.seeds@[j].b, air.n_cols as nat)
}

/// Opening `j` shows the public row `j` at its index, under `root`.
pub open spec fn opening_ok(air: FibAir, pr: PublicRows, root: Seq<u8>, q: Query, j: int) -> bool {
    &&& q.index == pr.offset + j
    &&& q.row@ == public_row(air, pr, j)
    &&& q.path@.len() == air.log_n_rows
    &&& fold_path(leaf_hash(q.row@), q.index as nat, strs(q.path@)) == root
}

/// Query `k` of `p` is at the row that the transcript selects and checks out.
pub open spec fn query_ok(air: FibAir, p: Proof, k: int) -> bool {
    query_fits(
        air,
        p.commitments@[1].root@,
        query_index(transcript_of(p), k as nat, two_pow(air.log_n_rows as nat)),
        p.queries@[k],
    )
}

/// The shape of a proof for `air`: two commitments over the trace domain,
/// `N_QUERIES` queries.
pub open spec fn proof_shape_ok(air: FibAir, p: Proof) -> bool {
    &&& air.log_n_rows <= MAX_LOG_N_ROWS
    &&& p.commitments@.len() == 2
    &&& p.queries@.len() == N_QUERIES
}

/// The root of the preprocessed tree for a trace of height `2^log`: the
/// preprocessed trace has no columns.
pub open spec fn preprocessed_root(log: u32) -> Seq<u8> {
    root_of(empty_leaves(two_pow(log as nat)), log as nat)
}

/// The proof is accepted for `air` and the public rows `pr`.
pub open spec fn proof_valid(air: FibAir, pr: PublicRows, p: Proof) -> bool {
    &&& proof_shape_ok(air, p)
    &&& p.commitments@[0].domain_log_size == air.log_n_rows
    &&& p.commitments@[1].domain_log_size == air.log_n_rows
    &&& p.commitments@[0].root@ == preprocessed_root(air.log_n_rows)
    &&& forall|k: int| 0 <= k < N_QUERIES ==> #[trigger] query_ok(air, p, k)
    &&& public_rows_fit(air, pr)
    &&& p.openings@.len() == pr.seeds@.len()
    &&& forall|j: int| 0 <= j < pr.seeds@.len() ==> #[trigger] opening_ok(
        air,
        pr,
        p.commitments@[1].root@,
        p.openings@[j],
        j,
    )
}

/// The trace's rows at the public positions are the rows that the public
/// seeds give.
pub open spec fn public_rows_hold(air: FibAir, pr: PublicRows, cells: Seq<Seq<u32>>) -> bool {
    &&& public_rows_fit(air, pr)
    &&& forall|j: int| 0 <= j < pr.seeds@.len() ==> #[trigger] cells[pr.offset + j] == public_row(
        air,
        pr,
        j,
    )
}

/// The trace has the shape that `air` declares.
pub open spec fn trace_fits(air: FibAir, t: Trace) -> bool {
    &&& t.wf()
    &&& t.log_n_rows == air.log_n_rows
    &&& t.n_cols == air.n_cols
}

/// Every row of the trace satisfies the recurrence.
pub open spec fn all_rows_ok(cells: Seq<Seq<u32>>) -> bool {
    forall|r: int| 0 <= r < cells.len() ==> #[trigger] row_ok(cells[r])
}

/// `p` is the proof that the prover makes for `air` and the public rows `pr`
/// on the rows `cells`.
pub open spec fn honest(air: FibAir, pr: PublicRows, cells: Seq<Seq<u32>>, p: Proof) -> bool {
    let log = air.log_n_rows;
    let n = two_pow(log as nat);
    &&& p.openings@.len() == pr.seeds@.len()
    &&& forall|j: int| 0 <= j < pr.seeds@.len() ==> {
        let q = #[trigger] p.openings@[j];
        &&& q.index == pr.offset + j
        &&& q.row@ == cells[q.index as int]
        &&& strs(q.path@) == path_of(leaves_of(cells), q.index as nat, log as nat)
    }
    &&& p.commitments@.len() == 2
    &&& p.commitments@[0].root@ == root_of(empty_leaves(n), log as nat)
    &&& p.commitments@[0].domain_log_size == log
    &&& p.commitments@[1].root@ == root_of(leaves_of(cells), log as nat)
    &&& p.commitments@[1].domain_log_size == log
    &&& p.queries@.len() == N_QUERIES
    &&& forall|k: int| 0 <= k < N_QUERIES ==> {
        let q = #[trigger] p.queries@[k];
        &&& q.index as nat == query_index(transcript_of(p), k as nat, n)
        &&& q.row@ == cells[q.index as int]
        &&& strs(q.path@) == path_of(leaves_of(cells), q.index as nat, log as nat)
    }
}

/// The leaf of a row.
fn hash_row(row: &Vec<u32>) -> (r: Vec<u8>)
    ensures
        r@ == leaf_hash(row@),
{
    let bytes = encode_row(row);
    blake2s(&bytes)
}

/// Whether the trace has the declared shape.
fn check_shape(air: &FibAir, t: &Trace) -> (r: bool)
    ensures
        r == trace_fits(*air, *t),
{
    if t.log_n_rows > MAX_LOG_N_ROWS || t.log_n_rows != air.log_n_rows || t.n_cols != air.n_cols {
        return false;
    }
    let n = n_rows_of(t.log_n_rows);
    if t.rows.len() != n {
        return false;
    }
    let mut r: usize = 0;
    while r < n
        invariant
            r <= n == t.rows@.len(),
            forall|k: int| 0 <= k < r ==> #[trigger] t.rows@[k]@.len() == t.n_cols,
            forall|k: int, i: int| 0 <= k < r && 0 <= i < t.n_cols ==> is_felt(#[trigger] t.rows@[k]@[i]),
        decreases n - r,
    {
        let row = &t.rows[r];
        if row.len() != t.n_cols {
            return false;
        }
        let mut i: usize = 0;
        while i < row.len()
            invariant
                i <= row@.len() == t.n_cols,
                r < n == t.rows@.len(),
                row == t.rows@[r as int],
                forall|j: int| 0 <= j < i ==> is_felt(#[trigger] row@[j]),
            decreases row@.len() - i,
        {
            if row[i] >= crate::field::P {
                assert(!is_felt(t.rows@[r as int]@[i as int]));
                return false;
            }
            i = i + 1;
        }
        r = r + 1;
    }
    true
}

/// The root of the preprocessed tree, which commits to no columns.
fn empty_tree_root(log: u32) -> (r: Vec<u8>)
    requires
        log <= MAX_LOG_N_ROWS,
    ensures
        r@ == preprocessed_root(log),
{
    let n = n_rows_of(log);
    let empty: Vec<u8> = Vec::new();
    let empty_leaf = blake2s(&empty);
    let mut pre_leaves: Vec<Vec<u8>> = Vec::with_capacity(n);
    let mut r: usize = 0;
    while r < n
        invariant
            r <= n,
            n as nat == two_pow(log as nat),
            empty_leaf@ == blake2s_of(Seq::<u8>::empty()),
            pre_leaves@.len() == r,
            forall|k: int| 0 <= k < r ==> (#[trigger] pre_leaves@[k])@ == blake2s_of(Seq::<u8>::empty()),
        decreases n - r,
    {
        pre_leaves.push(empty_leaf.clone());
        r = r + 1;
    }
    assert(strs(pre_leaves@) =~= empty_leaves(n as nat));
    assert(empty@ =~= Seq::<u8>::empty());
    merkle_root(&pre_leaves, log)
}

/// Whether the trace's rows at the public positions are the public rows.
fn check_public_rows(air: &FibAir, pr: &PublicRows, t: &Trace) -> (r: bool)
    requires
        trace_fits(*air, *t),
    ensures
        r == public_rows_hold(*air, *pr, t.cells()),
{
    let n = n_rows_of(air.log_n_rows);
    if !check_public_seeds(air, pr, n) {
        return false;
    }
    let mut j: usize = 0;
    while j < pr.seeds.len()
        invariant
            trace_fits(*air, *t),
            public_rows_fit(*air, *pr),
            n == t.rows@.len(),
            j <= pr.seeds@.len(),
            forall|i: int| 0 <= i < j ==> #[trigger] t.cells()[pr.offset + i] == public_row(*air, *pr, i),
        decreases pr.seeds@.len() - j,
    {
        let seed = pr.seeds[j];
        assert(seed_felts(pr.seeds@[j as int]));
        let want = gen_row(seed.a, seed.b, air.n_cols);
        if !words_eq(&t.rows[pr.offset + j], &want) {
            assert(t.cells()[pr.offset + j] != public_row(*air, *pr, j as int));
            return false;
        }
        j = j + 1;
    }
    true
}

/// Whether the public seeds are field elements and their rows fit in `n` rows.
fn check_public_seeds(air: &FibAir, pr: &PublicRows, n: usize) -> (r: bool)
    requires
        n as nat == two_pow(air.log_n_rows as nat),
    ensures
        r == public_rows_fit(*air, *pr),
{
    if pr.offset > n || pr.seeds.len() > n - pr.offset {
        return false;
    }
    if pr.seeds.len() > 0 && air.n_cols < 2 {
        return false;
    }
    let mut j: usize = 0;
    while j < pr.seeds.len()
        invariant
            n as nat == two_pow(air.log_n_rows as nat),
            pr.offset + pr.seeds@.len() <= n,
            pr.seeds@.len() > 0 ==> air.n_cols >= 2,
            j <= pr.seeds@.len(),
            forall|i: int| 0 <= i < j ==> #[trigger] seed_felts(pr.seeds@[i]),
        decreases pr.seeds@.len() - j,
    {
        let sd = pr.seeds[j];
        if sd.a >= crate::field::P || sd.b >= crate::field::P {
            assert(!seed_felts(pr.seeds@[j as int]));
            return false;
        }
        assert(seed_felts(pr.seeds@[j as int]));
        j = j + 1;
    }
    true
}

/// Whether two rows are equal.
fn words_eq(a: &Vec<u32>, b: &Vec<u32>) -> (r: bool)
    ensures
        r == (a@ == b@),
{
    if a.len() != b.len() {
        return false;
    }
    let mut i: usize = 0;
    while i < a.len()
        invariant
            i <= a@.len() == b@.len(),
            forall|j: int| 0 <= j < i ==> a@[j] == b@[j],
        decreases a@.len() - i,
    {
        if a[i] != b[i] {
            return false;
        }
        i = i + 1;
    }
    assert(a@ =~= b@);
    true
}

/// Proves that `trace` satisfies `air` and holds the public rows `pr`:
/// commits to the empty preprocessed trace and to the main trace, draws the
/// query rows from the channel, and opens them and the public rows with their
/// Merkle paths. The proof carries no low-degree (FRI) argument and no
/// evaluations at out-of-domain points: soundness rests on the sampled rows
/// alone. Fails when the trace does not fit the AIR, breaks the recurrence
/// somewhere, or differs from the public rows.
pub fn prove(air: &FibAir, pr: &PublicRows, trace: &Trace) -> (res: Result<Proof, ProveError>)
    ensures
        !trace_fits(*air, *trace) <==> res == Err::<Proof, ProveError>(ProveError::ShapeMismatch),
        trace_fits(*air, *trace) && !all_rows_ok(trace.cells())
            <==> res == Err::<Proof, ProveError>(ProveError::ConstraintViolation),
        trace_fits(*air, *trace) && all_rows_ok(trace.cells()) && !public_rows_hold(
            *air,
            *pr,
            trace.cells(),
        ) <==> res == Err::<Proof, ProveError>(ProveError::PublicRowsMismatch),
        res matches Ok(p) ==> honest(*air, *pr, trace.cells(), p),
{
    if !check_shape(air, trace) {
        return Err(ProveError::ShapeMismatch);
    }
    let log = air.log_n_rows;
    let n = n_rows_of(log);
    let cs = air.evaluate();
    let ghost cells = trace.cells();
    let mut leaves: Vec<Vec<u8>> = Vec::with_capacity(n);
    let mut r: usize = 0;
    while r < n
        invariant
            trace_fits(*air, *trace),
            cells == trace.cells(),
            n == trace.rows@.len(),
            cs@ == crate::air::declared(air.n_cols as nat),
            r <= n,
            leaves@.len() == r,
            forall|k: int| 0 <= k < r ==> #[trigger] row_ok(cells[k]),
            forall|k: int| 0 <= k < r ==> (#[trigger] leaves@[k])@ == leaf_hash(cells[k]),
        decreases n - r,
    {
        let row = &trace.rows[r];
        proof {
            lemma_declared_means_row_ok(air.n_cols as nat, row@);
            assert(cells[r as int] == row@);
        }
        if !check_row(&cs, row) {
            return Err(ProveError::ConstraintViolation);
        }
        leaves.push(hash_row(row));
        r = r + 1;
    }
    assert(strs(leaves@) =~= leaves_of(cells));
    if !check_public_rows(air, pr, trace) {
        return Err(ProveError::PublicRowsMismatch);
    }
    let pre_root = empty_tree_root(log);
    let main_root = merkle_root(&leaves, log);
    let mut ch = Channel::new();
    ch.mix_commitment(&pre_root, log);
    ch.mix_commitment(&main_root, log);
    let commitments = vec![
        Commitment { root: pre_root, domain_log_size: log },
        Commitment { root: main_root, domain_log_size: log },
    ];
    let ghost s = ch.state@;
    proof {
        crate::trace::lemma_two_pow_pos(log as nat);
    }
    let mut queries: Vec<Query> = Vec::with_capacity(N_QUERIES);
    let mut k: usize = 0;
    while k < N_QUERIES
        invariant
            trace_fits(*air, *trace),
            cells == trace.cells(),
            n == trace.rows@.len(),
            n as nat == two_pow(log as nat),
            n >= 1,
            log == air.log_n_rows,
            strs(leaves@) == leaves_of(cells),
            leaves@.len() == n,
            k <= N_QUERIES,
            ch.state@ == draw_state(s, k as nat),
            queries@.len() == k,
            forall|j: int| 0 <= j < k ==> {
                let q = #[trigger] queries@[j];
                &&& q.index as nat == query_index(s, j as nat, n as nat)
                &&& q.row@ == cells[q.index as int]
                &&& strs(q.path@) == path_of(leaves_of(cells), q.index as nat, log as nat)
            },
        decreases N_QUERIES - k,
    {
        let w = ch.draw_word();
        let i: usize = (w as usize) % n;
        let row = trace.rows[i].clone();
        assert(row@ == cells[i as int]);
        let path = merkle_path(&leaves, i, log);
        queries.push(Query { index: i, row, path });
        k = k + 1;
    }
    let mut openings: Vec<Query> = Vec::with_capacity(pr.seeds.len());
    let mut j: usize = 0;
    while j < pr.seeds.len()
        invariant
            trace_fits(*air, *trace),
            public_rows_hold(*air, *pr, cells),
            cells == trace.cells(),
            n == trace.rows@.len(),
            n as nat == two_pow(log as nat),
            log == air.log_n_rows,
            strs(leaves@) == leaves_of(cells),
            leaves@.len() == n,
            j <= pr.seeds@.len(),
            openings@.len() == j,
            forall|i: int| 0 <= i < j ==> {
                let q = #[trigger] openings@[i];
                &&& q.index == pr.offset + i
                &&& q.row@ == cells[q.index as int]
                &&& strs(q.path@) == path_of(leaves_of(cells), q.index as nat, log as nat)
            },
        decreases pr.seeds@.len() - j,
    {
        let i = pr.offset + j;
        let row = trace.rows[i].clone();
        let path = merkle_path(&leaves, i, log);
        openings.push(Query { index: i, row, path });
        j = j + 1;
    }
    let p = Proof { commitments, queries, openings };
    assert(transcript_of(p) == s);
    Ok(p)
}

/// Whether every cell of the row is a field element.
fn check_felts(row: &Vec<u32>) -> (r: bool)
    ensures
        r == row_felts(row@),
{
    let mut i: usize = 0;
    while i < row.len()
        invariant
            i <= row@.len(),
            forall|j: int| 0 <= j < i ==> is_felt(#[trigger] row@[j]),
        decreases row@.len() - i,
    {
        if row[i] >= crate::field::P {
            return false;
        }
        i = i + 1;
    }
    true
}

/// Checks one query against the main root and the row the channel drew.
fn check_query(air: &FibAir, cs: &Vec<crate::air::Constraint>, root: &Vec<u8>, expected: usize, q: &Query) -> (r: Result<(), VerifyError>)
    requires
        cs@ == crate::air::declared(air.n_cols as nat),
    ensures
        r is Ok <==> query_fits(*air, root@, expected as nat, *q),
        r != Err::<(), VerifyError>(VerifyError::Malformed),
        r != Err::<(), VerifyError>(VerifyError::ParameterMismatch),
{
    proof {
        reveal(query_fits);
    }
    if q.index != expected {
        return Err(VerifyError::QueryIndex);
    }
    if q.row.len() != air.n_cols || !check_felts(&q.row) || q.path.len() != air.log_n_rows as usize {
        return Err(VerifyError::RowShape);
    }
    proof {
        lemma_declared_means_row_ok(air.n_cols as nat, q.row@);
    }
    if !check_row(cs, &q.row) {
        return Err(VerifyError::Constraint);
    }
    let leaf = hash_row(&q.row);
    if !verify_path(root, &leaf, q.index, &q.path) {
        return Err(VerifyError::Merkle);
    }
    Ok(())
}

/// Checks an opening of public row `j` against the main root.
fn check_opening(air: &FibAir, pr: &PublicRows, root: &Vec<u8>, q: &Query, j: usize) -> (r: bool)
    requires
        public_rows_fit(*air, *pr),
        j < pr.seeds@.len(),
    ensures
        r == opening_ok(*air, *pr, root@, *q, j as int),
{
    let seed = pr.seeds[j];
    assert(seed_felts(pr.seeds@[j as int]));
    let want = gen_row(seed.a, seed.b, air.n_cols);
    if q.index < j || q.index - j != pr.offset || !words_eq(&q.row, &want) || q.path.len() != air.log_n_rows as usize {
        return false;
    }
    let leaf = hash_row(&q.row);
    verify_path(root, &leaf, q.index, &q.path)
}

/// Checks a proof against `air` and the public rows `pr` alone: checks the
/// preprocessed root, replays the channel over the two commitments, checks
/// that each query sits at the drawn row, meets the declared identities and
/// leads to the main root, and that each public row is opened at its index
/// with the row its seeds give.
pub fn verify(air: &FibAir, pr: &PublicRows, proof: &Proof) -> (r: Result<(), VerifyError>)
    ensures
        r is Ok <==> proof_valid(*air, *pr, *proof),
        !proof_shape_ok(*air, *proof) <==> r == Err::<(), VerifyError>(VerifyError::Malformed),
        proof_shape_ok(*air, *proof) && (proof.commitments@[0].domain_log_size != air.log_n_rows
            || proof.commitments@[1].domain_log_size != air.log_n_rows)
            <==> r == Err::<(), VerifyError>(VerifyError::ParameterMismatch),
{
    if air.log_n_rows > MAX_LOG_N_ROWS || proof.commitments.len() != 2 || proof.queries.len()
        != N_QUERIES {
        return Err(VerifyError::Malformed);
    }
    let log = air.log_n_rows;
    let c0 = &proof.commitments[0];
    let c1 = &proof.commitments[1];
    if c0.domain_log_size != log || c1.domain_log_size != log {
        return Err(VerifyError::ParameterMismatch);
    }
    let pre_root = empty_tree_root(log);
    if !crate::hash::bytes_eq(&c0.root, &pre_root) {
        return Err(VerifyError::Preprocessed);
    }
    let n = n_rows_of(log);
    let cs = air.evaluate();
    let mut ch = Channel::new();
    ch.mix_commitment(&c0.root, c0.domain_log_size);
    ch.mix_commitment(&c1.root, c1.domain_log_size);
    let ghost s = ch.state@;
    assert(s == transcript_of(*proof));
    let mut k: usize = 0;
    while k < N_QUERIES
        invariant
            proof_shape_ok(*air, *proof),
            log == air.log_n_rows,
            c1 == proof.commitments@[1],
            proof.commitments@[0].domain_log_size == log,
            proof.commitments@[1].domain_log_size == log,
            proof.commitments@[0].root@ == preprocessed_root(log),
            n as nat == two_pow(log as nat),
            cs@ == crate::air::declared(air.n_cols as nat),
            s == transcript_of(*proof),
            k <= N_QUERIES,
            ch.state@ == draw_state(s, k as nat),
            forall|j: int| 0 <= j < k ==> #[trigger] query_ok(*air, *proof, j),
        decreases N_QUERIES - k,
    {
        proof {
            crate::trace::lemma_two_pow_pos(log as nat);
        }
        let w = ch.draw_word();
        assert(ch.state@ == draw_state(s, (k + 1) as nat));
        assert(w == drawn_word(s, k as nat));
        let expected: usize = (w as usize) % n;
        let q = &proof.queries[k];
        assert(q == proof.queries@[k as int]);
        let checked = check_query(air, &cs, &c1.root, expected, q);
        if checked.is_err() {
            assert(!query_ok(*air, *proof, k as int));
            return checked;
        }
        k = k + 1;
    }
    if !check_public_seeds(air, pr, n) || proof.openings.len() != pr.seeds.len() {
        return Err(VerifyError::PublicRows);
    }
    let mut j: usize = 0;
    while j < pr.seeds.len()
        invariant
            proof_shape_ok(*air, *proof),
            public_rows_fit(*air, *pr),
            proof.openings@.len() == pr.seeds@.len(),
            c1 == proof.commitments@[1],
            proof.commitments@[0].domain_log_size == air.log_n_rows,
            proof.commitments@[1].domain_log_size == air.log_n_rows,
            j <= pr.seeds@.len(),
            forall|i: int| 0 <= i < j ==> #[trigger] opening_ok(
                *air,
                *pr,
                proof.commitments@[1].root@,
                proof.openings@[i],
                i,
            ),
        decreases pr.seeds@.len() - j,
    {
        let q = &proof.openings[j];
        if !check_opening(air, pr, &c1.root, q, j) {
            return Err(VerifyError::PublicRows);
        }
        j = j + 1;
    }
    Ok(())
}

/// Completeness: for every trace that fits the AIR, satisfies the
/// recurrence and holds the public rows, the proof that `prove` makes of it
/// is accepted by `verify`.
pub proof fn lemma_honest_proof_verifies(air: FibAir, pr: PublicRows, t: Trace, p: Proof)
    requires
        trace_fits(air, t),
        all_rows_ok(t.cells()),
        public_rows_hold(air, pr, t.cells()),
        honest(air, pr, t.cells(), p),
    ensures
        proof_valid(air, pr, p),
{
    let cells = t.cells();
    let log = air.log_n_rows;
    let n = two_pow(log as nat);
    let leaves = leaves_of(cells);
    crate::trace::lemma_two_pow_pos(log as nat);
    reveal(query_fits);
    assert forall|k: int| 0 <= k < N_QUERIES implies #[trigger] query_ok(air, p, k) by {
        let q = p.queries@[k];
        let i = q.index as int;
        assert(0 <= i < n);
        assert(cells[i] == t.rows@[i]@);
        assert(row_ok(cells[i]));
        assert(leaves[i] == leaf_hash(cells[i]));
        lemma_path_len(leaves, i as nat, log as nat);
        lemma_path_reaches_root(leaves, i as nat, log as nat);
    }
    assert forall|j: int| 0 <= j < pr.seeds@.len() implies #[trigger] opening_ok(
        air,
        pr,
        p.commitments@[1].root@,
        p.openings@[j],
        j,
    ) by {
        let q = p.openings@[j];
        let i = q.index as int;
        assert(cells[pr.offset + j] == public_row(air, pr, j));
        assert(leaves[i] == leaf_hash(cells[i]));
        lemma_path_len(leaves, i as nat, log as nat);
        lemma_path_reaches_root(leaves, i as nat, log as nat);
    }
}

/// A proof binds its public rows: if one proof is accepted for two sets of
/// public seeds at the same positions, the seeds are equal.
pub proof fn lemma_public_rows_bound(air: FibAir, pr1: PublicRows, pr2: PublicRows, p: Proof)
    requires
        proof_valid(air, pr1, p),
        proof_valid(air, pr2, p),
        pr1.offset == pr2.offset,
        pr1.seeds@.len() == pr2.seeds@.len(),
    ensures
        pr1.seeds@ == pr2.seeds@,
{
    assert forall|j: int| 0 <= j < pr1.seeds@.len() implies pr1.seeds@[j] == pr2.seeds@[j] by {
        assert(opening_ok(air, pr1, p.commitments@[1].root@, p.openings@[j], j));
        assert(opening_ok(air, pr2, p.commitments@[1].root@, p.openings@[j], j));
        let r1 = public_row(air, pr1, j);
        let r2 = public_row(air, pr2, j);
        assert(r1[0] == r2[0] && r1[1] == r2[1]);
    }
    assert(pr1.seeds@ =~= pr2.seeds@);
}

/// Every trace that the generator builds from seed pairs satisfies the
/// recurrence in each row, so `prove` accepts it whenever it fits the AIR.
pub proof fn lemma_generated_trace_ok(t: Trace, inputs: Seq<FibInput>)
    requires
        t.rows@.len() == inputs.len(),
        forall|r: int| 0 <= r < inputs.len()
            ==> #[trigger] t.cells()[r] == fib_row(inputs[r].a, inputs[r].b, t.n_cols as nat),
    ensures
        all_rows_ok(t.cells()),
{
    assert forall|r: int| 0 <= r < t.cells().len() implies #[trigger] row_ok(t.cells()[r]) by {
        lemma_generated_row_ok(inputs[r].a, inputs[r].b, t.n_cols as nat);
    }
}

/// Determinism: two runs of `prove` on the same AIR and the same trace give
/// the same commitments and the same openings.
pub proof fn lemma_prove_deterministic(
    air: FibAir,
    pr: PublicRows,
    cells: Seq<Seq<u32>>,
    first: Proof,
    second: Proof,
)
    requires
        honest(air, pr, cells, first),
        honest(air, pr, cells, second),
    ensures
        first.commitments@.len() == second.commitments@.len(),
        forall|c: int| 0 <= c < first.commitments@.len() ==> {
            &&& (#[trigger] first.commitments@[c]).root@ == second.commitments@[c].root@
            &&& first.commitments@[c].domain_log_size == second.commitments@[c].domain_log_size
        },
        first.queries@.len() == second.queries@.len(),
        forall|k: int| 0 <= k < first.queries@.len() ==> {
            &&& (#[trigger] first.queries@[k]).index == second.queries@[k].index
            &&& first.queries@[k].row@ == second.queries@[k].row@
            &&& strs(first.queries@[k].path@) == strs(second.queries@[k].path@)
        },
        first.openings@.len() == second.openings@.len(),
        forall|j: int| 0 <= j < first.openings@.len() ==> {
            &&& (#[trigger] first.openings@[j]).index == second.openings@[j].index
            &&& first.openings@[j].row@ == second.openings@[j].row@
            &&& strs(first.openings@[j].path@) == strs(second.openings@[j].path@)
        },
{
    assert(transcript_of(first) == transcript_of(second));
    assert forall|k: int| 0 <= k < first.queries@.len() implies (#[trigger] first.queries@[k]).index
        == second.queries@[k].index by {
        let ia = first.queries@[k].index;
        let ib = second.queries@[k].index;
        assert(ia as nat == ib as nat);
    }
}

/// A proof accepted for one trace height is rejected for every other height.
pub proof fn lemma_height_mismatch_rejected(
    air: FibAir,
    pr: PublicRows,
    p: Proof,
    claimed_log_n_rows: u32,
)
    requires
        proof_valid(air, pr, p),
        claimed_log_n_rows != air.log_n_rows,
    ensures
        !proof_valid(FibAir { log_n_rows: claimed_log_n_rows, n_cols: air.n_cols }, pr, p),
{
}

} // verus!
