use stark_recursion::adapter::{adapt, height_for, prove_order_log, state_claim, AdaptError};
use stark_recursion::air::{check_row, Constraint, FibAir};
use stark_recursion::channel::Channel;
use stark_recursion::driver::{select_mode, ConfigError, Mode};
use stark_recursion::field::{m31_add, m31_mul, m31_step, P};
use stark_recursion::hash::{bytes_eq, encode_row, push_le_bytes, read_le_word};
use stark_recursion::merkle::{hash_node, merkle_path, merkle_root, verify_path};
use stark_recursion::orders::{
    order_pair, synthetic_order_log, Order, PairDraw, Side, MAX_AMOUNT, MAX_PRICE, MAX_TIME_STEP,
    MIN_AMOUNT, MIN_PRICE,
};
use stark_recursion::shim::{result_byte, verify_with_height};
use stark_recursion::stark::{
    prove, verify, Proof, ProveError, PublicRows, VerifyError, N_QUERIES,
};
use stark_recursion::trace::{gen_row, gen_trace, n_rows_of, FibInput, Trace, TraceError};

const N_COLS: usize = 100;

fn seeded_inputs(log_n_rows: u32) -> Vec<FibInput> {
    (0..(1u32 << log_n_rows)).map(|r| FibInput { a: 1, b: r }).collect()
}

fn seeded_trace() -> Trace {
    gen_trace(6, N_COLS, &seeded_inputs(6)).unwrap()
}

fn seeded_proof() -> Proof {
    let air = FibAir { log_n_rows: 6, n_cols: N_COLS };
    prove(&air, &no_public(), &seeded_trace()).unwrap()
}

fn no_public() -> PublicRows {
    PublicRows { offset: 0, seeds: Vec::new() }
}

fn height_bytes(log_n_rows: u32) -> Vec<u8> {
    log_n_rows.to_le_bytes().to_vec()
}

#[test]
fn field_add_wraps_at_modulus() {
    assert_eq!(m31_add(P - 1, 1), 0);
    assert_eq!(m31_add(P - 1, P - 1), P - 2);
    assert_eq!(m31_add(3, 4), 7);
}

#[test]
fn field_mul_reduces() {
    assert_eq!(m31_mul(1 << 16, 1 << 16), 2);
    assert_eq!(m31_mul(P - 1, P - 1), 1);
    assert_eq!(m31_mul(6, 7), 42);
}

#[test]
fn field_step_is_sum_of_squares() {
    assert_eq!(m31_step(3, 4), 25);
    assert_eq!(m31_step(0, 0), 0);
    assert_eq!(m31_step(P - 1, 0), 1);
}

#[test]
fn row_follows_recurrence() {
    assert_eq!(gen_row(1, 2, 5), vec![1, 2, 5, 29, 866]);
    assert_eq!(gen_row(1, 0, 2), vec![1, 0]);
}

#[test]
fn row_count_is_power_of_two() {
    assert_eq!(n_rows_of(0), 1);
    assert_eq!(n_rows_of(6), 64);
    assert_eq!(n_rows_of(30), 1 << 30);
}

#[test]
fn trace_has_seeds_and_recurrence() {
    let t = seeded_trace();
    assert_eq!(t.n_rows(), 64);
    assert_eq!(t.n_cols, N_COLS);
    for (r, row) in t.rows.iter().enumerate() {
        assert_eq!(row.len(), N_COLS);
        assert_eq!(row[0], 1);
        assert_eq!(row[1], r as u32);
        for i in 2..N_COLS {
            assert_eq!(row[i], m31_step(row[i - 2], row[i - 1]));
        }
    }
    assert_eq!(t.rows[3][2], 10);
}

#[test]
fn trace_rejects_wrong_seed_count() {
    let r = gen_trace(6, N_COLS, &seeded_inputs(5));
    assert!(matches!(r, Err(TraceError::SeedCount)));
    let r = gen_trace(6, N_COLS, &Vec::new());
    assert!(matches!(r, Err(TraceError::SeedCount)));
}

#[test]
fn trace_rejects_too_tall() {
    let r = gen_trace(31, N_COLS, &Vec::new());
    assert!(matches!(r, Err(TraceError::TooTall)));
}

#[test]
fn air_sizes() {
    let air = FibAir { log_n_rows: 6, n_cols: N_COLS };
    assert_eq!(air.log_size(), 6);
    assert_eq!(air.max_constraint_log_degree_bound(), 7);
}

#[test]
fn air_declares_shifted_triples() {
    let air = FibAir { log_n_rows: 3, n_cols: 5 };
    let cs = air.evaluate();
    assert_eq!(
        cs,
        vec![
            Constraint { a: 0, b: 1, c: 2 },
            Constraint { a: 1, b: 2, c: 3 },
            Constraint { a: 2, b: 3, c: 4 },
        ]
    );
    assert!(FibAir { log_n_rows: 3, n_cols: 2 }.evaluate().is_empty());
}

#[test]
fn check_evaluator_tests_rows() {
    let cs = FibAir { log_n_rows: 3, n_cols: 5 }.evaluate();
    assert!(check_row(&cs, &vec![1, 2, 5, 29, 866]));
    assert!(!check_row(&cs, &vec![1, 2, 5, 29, 867]));
    assert!(!check_row(&cs, &vec![1, 2, 6, 29, 866]));
}

#[test]
fn le_bytes_round_trip() {
    let mut out = Vec::new();
    push_le_bytes(&mut out, 0x0403_0201);
    assert_eq!(out, vec![1, 2, 3, 4]);
    assert_eq!(read_le_word(&out), 0x0403_0201);
    assert_eq!(encode_row(&vec![1, 256]), vec![1, 0, 0, 0, 0, 1, 0, 0]);
    assert!(bytes_eq(&vec![1, 2], &vec![1, 2]));
    assert!(!bytes_eq(&vec![1, 2], &vec![1, 3]));
    assert!(!bytes_eq(&vec![1, 2], &vec![1]));
}

#[test]
fn node_hash_is_blake2s() {
    let h = hash_node(&Vec::new(), &Vec::new());
    let expected: Vec<u8> = vec![
        0x69, 0x21, 0x7a, 0x30, 0x79, 0x90, 0x80, 0x94, 0xe1, 0x11, 0x21, 0xd0, 0x42, 0x35, 0x4a,
        0x7c, 0x1f, 0x55, 0xb6, 0x48, 0x2c, 0xa1, 0xa5, 0x1e, 0x1b, 0x25, 0x0d, 0xfd, 0x1e, 0xd0,
        0xee, 0xf9,
    ];
    assert_eq!(h, expected);
    assert_ne!(hash_node(&vec![1], &vec![2]), hash_node(&vec![2], &vec![1]));
}

#[test]
fn merkle_paths_lead_to_root() {
    let leaves: Vec<Vec<u8>> = (0u8..8).map(|i| vec![i; 4]).collect();
    let root = merkle_root(&leaves, 3);
    let l01 = hash_node(&leaves[0], &leaves[1]);
    let l23 = hash_node(&leaves[2], &leaves[3]);
    let l45 = hash_node(&leaves[4], &leaves[5]);
    let l67 = hash_node(&leaves[6], &leaves[7]);
    let expected = hash_node(&hash_node(&l01, &l23), &hash_node(&l45, &l67));
    assert_eq!(root, expected);
    for i in 0..8 {
        let path = merkle_path(&leaves, i, 3);
        assert_eq!(path.len(), 3);
        assert!(verify_path(&root, &leaves[i], i, &path));
        assert!(!verify_path(&root, &leaves[i], i ^ 1, &path));
    }
    assert_eq!(merkle_root(&leaves[..1].to_vec(), 0), leaves[0]);
}

#[test]
fn channel_is_deterministic_and_order_sensitive() {
    let a = vec![1u8; 32];
    let b = vec![2u8; 32];
    let mut c1 = Channel::new();
    assert_eq!(c1.state, vec![0u8; 32]);
    c1.mix_commitment(&a, 6);
    c1.mix_commitment(&b, 6);
    let mut c2 = Channel::new();
    c2.mix_commitment(&a, 6);
    c2.mix_commitment(&b, 6);
    let mut c3 = Channel::new();
    c3.mix_commitment(&b, 6);
    c3.mix_commitment(&a, 6);
    assert_eq!(c1.state, c2.state);
    assert_ne!(c1.state, c3.state);
    let w1 = c1.draw_word();
    let w2 = c2.draw_word();
    assert_eq!(w1, w2);
    assert_eq!(w1, read_le_word(&c1.state));
    assert_ne!(c1.draw_word(), w1);
}

#[test]
fn seeded_trace_outputs_one() {
    let proof = seeded_proof();
    assert_eq!(proof.commitments.len(), 2);
    assert_eq!(proof.queries.len(), N_QUERIES);
    assert_eq!(proof.commitments[1].domain_log_size, 6);
    assert_eq!(verify_with_height(&height_bytes(6), N_COLS, &no_public(), &proof), Some(1));
}

#[test]
fn proof_opens_trace_rows() {
    let t = seeded_trace();
    let proof = seeded_proof();
    for q in &proof.queries {
        assert!(q.index < 64);
        assert_eq!(q.row, t.rows[q.index]);
        assert_eq!(q.path.len(), 6);
    }
}

#[test]
fn flipped_root_bit_outputs_zero() {
    let mut proof = seeded_proof();
    proof.commitments[1].root[5] ^= 0x10;
    assert_eq!(verify_with_height(&height_bytes(6), N_COLS, &no_public(), &proof), Some(0));
    let mut proof = seeded_proof();
    proof.commitments[0].root[0] ^= 0x01;
    assert_eq!(verify_with_height(&height_bytes(6), N_COLS, &no_public(), &proof), Some(0));
}

#[test]
fn every_generated_trace_verifies() {
    for log in 0u32..5 {
        for n_cols in [2usize, 3, 17] {
            let inputs: Vec<FibInput> = (0..(1u32 << log)).map(|r| FibInput { a: r * 7 + 3, b: P - 1 - r }).collect();
            let t = gen_trace(log, n_cols, &inputs).unwrap();
            let air = FibAir { log_n_rows: log, n_cols };
            let proof = prove(&air, &no_public(), &t).unwrap();
            assert!(verify(&air, &no_public(), &proof).is_ok());
        }
    }
}

#[test]
fn mutated_cell_is_never_proved() {
    let air = FibAir { log_n_rows: 6, n_cols: N_COLS };
    for (r, i) in [(0usize, 0usize), (5, 2), (63, 99), (17, 50)] {
        let mut t = seeded_trace();
        t.rows[r][i] = (t.rows[r][i] + 1) % P;
        assert!(matches!(prove(&air, &no_public(), &t), Err(ProveError::ConstraintViolation)));
    }
}

#[test]
fn malformed_trace_is_refused() {
    let air = FibAir { log_n_rows: 6, n_cols: N_COLS };
    let mut t = seeded_trace();
    t.rows[3][0] = P;
    assert!(matches!(prove(&air, &no_public(), &t), Err(ProveError::ShapeMismatch)));
    let mut t = seeded_trace();
    t.rows.pop();
    assert!(matches!(prove(&air, &no_public(), &t), Err(ProveError::ShapeMismatch)));
    let t = seeded_trace();
    let other = FibAir { log_n_rows: 6, n_cols: 99 };
    assert!(matches!(prove(&other, &no_public(), &t), Err(ProveError::ShapeMismatch)));
}

#[test]
fn tampered_opening_is_rejected() {
    let air = FibAir { log_n_rows: 6, n_cols: N_COLS };
    let mut proof = seeded_proof();
    proof.queries[0].row[7] = (proof.queries[0].row[7] + 1) % P;
    assert!(matches!(verify(&air, &no_public(), &proof), Err(VerifyError::Constraint)));
    let mut proof = seeded_proof();
    proof.queries[2].path[1][0] ^= 1;
    assert!(matches!(verify(&air, &no_public(), &proof), Err(VerifyError::Merkle)));
    let mut proof = seeded_proof();
    proof.queries[1].index = (proof.queries[1].index + 1) % 64;
    assert!(matches!(verify(&air, &no_public(), &proof), Err(VerifyError::QueryIndex)));
    let mut proof = seeded_proof();
    proof.queries[3].row.pop();
    assert!(matches!(verify(&air, &no_public(), &proof), Err(VerifyError::RowShape)));
    let mut proof = seeded_proof();
    proof.queries.pop();
    assert!(matches!(verify(&air, &no_public(), &proof), Err(VerifyError::Malformed)));
}

#[test]
fn prove_is_deterministic() {
    let a = seeded_proof();
    let b = seeded_proof();
    assert_eq!(format!("{:?}", a), format!("{:?}", b));
    let air = FibAir { log_n_rows: 6, n_cols: N_COLS };
    assert_eq!(verify(&air, &no_public(), &a), verify(&air, &no_public(), &a));
    let mut bad = seeded_proof();
    bad.commitments[1].root[0] ^= 1;
    assert_eq!(verify(&air, &no_public(), &bad), verify(&air, &no_public(), &bad));
}

#[test]
fn swapped_phases_are_rejected() {
    let air = FibAir { log_n_rows: 6, n_cols: N_COLS };
    let mut proof = seeded_proof();
    proof.commitments.swap(0, 1);
    assert!(verify(&air, &no_public(), &proof).is_err());
    assert_eq!(verify_with_height(&height_bytes(6), N_COLS, &no_public(), &proof), Some(0));
}

#[test]
fn height_mismatch_is_rejected() {
    let proof = seeded_proof();
    let air7 = FibAir { log_n_rows: 7, n_cols: N_COLS };
    assert_eq!(verify(&air7, &no_public(), &proof), Err(VerifyError::ParameterMismatch));
    assert_eq!(verify_with_height(&height_bytes(7), N_COLS, &no_public(), &proof), Some(0));
    assert_eq!(verify_with_height(&height_bytes(31), N_COLS, &no_public(), &proof), Some(0));
}

#[test]
fn truncated_height_commits_nothing() {
    let proof = seeded_proof();
    assert_eq!(verify_with_height(&vec![6, 0, 0], N_COLS, &no_public(), &proof), None);
    assert_eq!(verify_with_height(&vec![6, 0, 0, 0, 0], N_COLS, &no_public(), &proof), None);
}

#[test]
fn result_byte_values() {
    assert_eq!(result_byte(&Ok(())), 1);
    assert_eq!(result_byte(&Err(VerifyError::Merkle)), 0);
}

#[test]
fn mode_selection() {
    assert_eq!(select_mode(true, false), Ok(Mode::Execute));
    assert_eq!(select_mode(false, true), Ok(Mode::Prove));
    assert_eq!(select_mode(true, true), Err(ConfigError::NeitherOrBoth));
    assert_eq!(select_mode(false, false), Err(ConfigError::NeitherOrBoth));
}

#[test]
fn order_pair_advances_clock() {
    let mut log = Vec::new();
    let d = PairDraw { time_step: 3, buy_amount: 100000, buy_price: 1000000, sell_amount: 200000, sell_price: 1000990 };
    let t = order_pair(&mut log, 1, d);
    assert_eq!(t, 4);
    assert_eq!(
        log,
        vec![
            Order { side: Side::Buy, amount: 100000, price: 1000000, time: 4 },
            Order { side: Side::Sell, amount: 200000, price: 1000990, time: 4 },
        ]
    );
}

#[test]
fn synthetic_log_shape() {
    let log = synthetic_order_log(128);
    assert_eq!(log.len(), 256);
    let mut prev = 1u64;
    for k in 0..128 {
        let (b, s) = (log[2 * k], log[2 * k + 1]);
        assert_eq!(b.side, Side::Buy);
        assert_eq!(s.side, Side::Sell);
        assert_eq!(b.time, s.time);
        assert!(b.time > prev && b.time - prev <= MAX_TIME_STEP);
        prev = b.time;
        for o in [b, s] {
            assert!(MIN_AMOUNT <= o.amount && o.amount <= MAX_AMOUNT);
            assert!(MIN_PRICE <= o.price && o.price <= MAX_PRICE);
        }
    }
    assert!(synthetic_order_log(0).is_empty());
}

#[test]
fn height_for_picks_least_power() {
    assert_eq!(height_for(0), Some(0));
    assert_eq!(height_for(1), Some(0));
    assert_eq!(height_for(2), Some(1));
    assert_eq!(height_for(257), Some(9));
    assert_eq!(height_for(1 << 30), Some(30));
    assert_eq!(height_for((1 << 30) + 1), None);
}

#[test]
fn adapter_lays_out_rows() {
    let log = vec![
        Order { side: Side::Buy, amount: 5, price: 7, time: 2 },
        Order { side: Side::Sell, amount: 6, price: 8, time: 2 },
    ];
    let fs = vec![9, 10, 11];
    let t = adapt(&log, &fs, 4).unwrap();
    assert_eq!(t.log_n_rows, 2);
    assert_eq!(t.rows[0][..2], [14, 5 + (2 << 24)]);
    assert_eq!(t.rows[1][..2], [17, 6 + (2 << 24)]);
    assert_eq!(t.rows[2][..2], [9, 10]);
    assert_eq!(t.rows[3][..2], [11, 0]);
    assert_eq!(t.rows[0][2], m31_step(14, 5 + (2 << 24)));
    let t = adapt(&Vec::new(), &Vec::new(), 3).unwrap();
    assert_eq!(t.log_n_rows, 0);
    assert_eq!(t.rows, vec![vec![0, 0, 0]]);
}

#[test]
fn adapter_reduces_into_field() {
    let log = vec![Order { side: Side::Sell, amount: u32::MAX, price: P, time: 1 }];
    let t = adapt(&log, &vec![P + 3], 2).unwrap();
    assert_eq!(t.rows[0], vec![1, 1 + (1 << 24)]);
    assert_eq!(t.rows[1], vec![3, 0]);
    let _ = AdaptError::TooTall;
}

#[test]
fn order_log_round_trip() {
    let log = synthetic_order_log(128);
    let final_state: Vec<u32> = (0u32..10).map(|i| i * 1000 + 1).collect();
    let (log_n_rows, public, proof) = prove_order_log(&log, &final_state, N_COLS).unwrap();
    assert_eq!(log_n_rows, 9);
    assert_eq!(public.offset, 256);
    assert_eq!(public.seeds.len(), 5);
    assert_eq!(proof.openings.len(), 5);
    assert_eq!(verify_with_height(&height_bytes(9), N_COLS, &public, &proof), Some(1));

    let mut tampered = adapt(&log, &final_state, N_COLS).unwrap();
    tampered.rows[256][0] = (tampered.rows[256][0] + 1) % P;
    let air = FibAir { log_n_rows: 9, n_cols: N_COLS };
    assert!(matches!(prove(&air, &public, &tampered), Err(ProveError::ConstraintViolation)));
}

#[test]
fn tampered_final_state_outputs_zero() {
    let log = synthetic_order_log(128);
    let final_state: Vec<u32> = (0u32..10).map(|i| i * 1000 + 1).collect();
    let (log_n_rows, _, proof) = prove_order_log(&log, &final_state, N_COLS).unwrap();
    for k in [0usize, 5, 9] {
        let mut other = final_state.clone();
        other[k] += 1;
        let claimed = state_claim(log.len(), &other);
        let air = FibAir { log_n_rows, n_cols: N_COLS };
        assert_eq!(verify(&air, &claimed, &proof), Err(VerifyError::PublicRows));
        assert_eq!(verify_with_height(&height_bytes(9), N_COLS, &claimed, &proof), Some(0));
    }
    let shorter = state_claim(log.len(), &final_state[..8].to_vec());
    assert_eq!(verify_with_height(&height_bytes(9), N_COLS, &shorter, &proof), Some(0));
    let shifted = state_claim(log.len() + 1, &final_state);
    assert_eq!(verify_with_height(&height_bytes(9), N_COLS, &shifted, &proof), Some(0));
}

#[test]
fn prover_refuses_wrong_public_rows() {
    let log = synthetic_order_log(4);
    let final_state = vec![7, 8, 9];
    let t = adapt(&log, &final_state, N_COLS).unwrap();
    let air = FibAir { log_n_rows: t.log_n_rows, n_cols: N_COLS };
    let good = state_claim(log.len(), &final_state);
    assert!(prove(&air, &good, &t).is_ok());
    let bad = state_claim(log.len(), &vec![7, 8, 10]);
    assert!(matches!(prove(&air, &bad, &t), Err(ProveError::PublicRowsMismatch)));
    let outside = PublicRows { offset: 1 << t.log_n_rows, seeds: vec![FibInput { a: 0, b: 0 }] };
    assert!(matches!(prove(&air, &outside, &t), Err(ProveError::PublicRowsMismatch)));
}

#[test]
fn flipped_preprocessed_root_is_rejected() {
    let air = FibAir { log_n_rows: 6, n_cols: N_COLS };
    for byte in [0usize, 17, 31] {
        let mut proof = seeded_proof();
        proof.commitments[0].root[byte] ^= 0x20;
        assert_eq!(verify(&air, &no_public(), &proof), Err(VerifyError::Preprocessed));
    }
}

#[test]
fn short_paths_are_rejected() {
    let air = FibAir { log_n_rows: 6, n_cols: N_COLS };
    let mut proof = seeded_proof();
    proof.queries[0].path.pop();
    assert_eq!(verify(&air, &no_public(), &proof), Err(VerifyError::RowShape));
}
