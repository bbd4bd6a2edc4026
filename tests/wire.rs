use stark_recursion::adapter::{prove_order_log, state_claim};
use stark_recursion::air::FibAir;
use stark_recursion::orders::synthetic_order_log;
use stark_recursion::codec::{decode_proof, encode_proof};
use stark_recursion::stark::{prove, verify, Commitment, Proof, PublicRows, Query};
use stark_recursion::shim::verify_encoded;
use stark_recursion::trace::{gen_trace, FibInput};

const N_COLS: usize = 100;

fn no_public() -> PublicRows {
    PublicRows { offset: 0, seeds: Vec::new() }
}

fn proof_for(log_n_rows: u32) -> Proof {
    let inputs: Vec<FibInput> = (0..(1u32 << log_n_rows)).map(|r| FibInput { a: 1, b: r }).collect();
    let t = gen_trace(log_n_rows, N_COLS, &inputs).unwrap();
    prove(&FibAir { log_n_rows, n_cols: N_COLS }, &no_public(), &t).unwrap()
}

fn guest_input(log_n_rows: u32, wire: &[u8]) -> Vec<u8> {
    let mut v = log_n_rows.to_le_bytes().to_vec();
    v.extend_from_slice(wire);
    v
}

#[test]
fn small_proof_wire_layout() {
    let p = Proof {
        commitments: vec![
            Commitment { root: vec![0xaa], domain_log_size: 1 },
            Commitment { root: vec![], domain_log_size: 2 },
        ],
        queries: vec![Query { index: 3, row: vec![5], path: vec![vec![7, 8]] }],
        openings: vec![Query { index: 9, row: vec![], path: vec![] }],
    };
    let wire = encode_proof(&p).unwrap();
    let expected: Vec<u8> = vec![
        1, 0, 0, 0, 0xaa, 1, 0, 0, 0, // preprocessed commitment
        0, 0, 0, 0, 2, 0, 0, 0, // main commitment
        1, 0, 0, 0, // one query
        3, 0, 0, 0, 1, 0, 0, 0, 5, 0, 0, 0, // index, row
        1, 0, 0, 0, 2, 0, 0, 0, 7, 8, // path
        1, 0, 0, 0, // one opening
        9, 0, 0, 0, 0, 0, 0, 0, 0, 0, 0, 0, // index, empty row, empty path
    ];
    assert_eq!(wire, expected);
    let back = decode_proof(&wire).unwrap();
    assert_eq!(format!("{:?}", back), format!("{:?}", p));
}

#[test]
fn proof_round_trips_through_wire() {
    let p = proof_for(6);
    let wire = encode_proof(&p).unwrap();
    let back = decode_proof(&wire).unwrap();
    assert_eq!(format!("{:?}", back), format!("{:?}", p));
    assert_eq!(encode_proof(&back).unwrap(), wire);
    let air = FibAir { log_n_rows: 6, n_cols: N_COLS };
    assert!(verify(&air, &no_public(), &back).is_ok());
}

#[test]
fn oversized_fields_are_not_encoded() {
    let p = Proof { commitments: vec![], queries: vec![], openings: vec![] };
    assert!(encode_proof(&p).is_none());
    let q = Query { index: (u32::MAX as usize) + 1, row: vec![], path: vec![] };
    let p = Proof {
        commitments: vec![
            Commitment { root: vec![], domain_log_size: 0 },
            Commitment { root: vec![], domain_log_size: 0 },
        ],
        queries: vec![],
        openings: vec![q],
    };
    assert!(encode_proof(&p).is_none());
}

#[test]
fn public_rows_survive_the_wire() {
    let log = synthetic_order_log(8);
    let fs = vec![3, 1, 4, 1, 5];
    let (log_n_rows, public, proof) = prove_order_log(&log, &fs, N_COLS).unwrap();
    let wire = encode_proof(&proof).unwrap();
    assert_eq!(verify_encoded(&guest_input(log_n_rows, &wire), N_COLS, &public), Some(1));
    let other = state_claim(log.len(), &vec![3, 1, 4, 1, 6]);
    assert_eq!(verify_encoded(&guest_input(log_n_rows, &wire), N_COLS, &other), Some(0));
}

#[test]
fn wire_form_is_deterministic() {
    assert_eq!(encode_proof(&proof_for(6)).unwrap(), encode_proof(&proof_for(6)).unwrap());
}

#[test]
fn serialized_proof_outputs_one() {
    let wire = encode_proof(&proof_for(6)).unwrap();
    assert_eq!(verify_encoded(&guest_input(6, &wire), N_COLS, &no_public()), Some(1));
    assert_eq!(verify_encoded(&guest_input(7, &wire), N_COLS, &no_public()), Some(0));
}

#[test]
fn flipped_bit_in_serialized_root_outputs_zero() {
    let wire = encode_proof(&proof_for(6)).unwrap();
    // The main root starts after the preprocessed commitment (4 + 32 + 4
    // bytes) and its own length word.
    for offset in [0usize, 13, 31] {
        let mut bad = wire.clone();
        bad[44 + offset] ^= 0x04;
        assert_eq!(verify_encoded(&guest_input(6, &bad), N_COLS, &no_public()), Some(0));
    }
    let mut bad = wire.clone();
    bad[4] ^= 0x80;
    assert_eq!(verify_encoded(&guest_input(6, &bad), N_COLS, &no_public()), Some(0));
}

#[test]
fn malformed_wire_commits_nothing() {
    let wire = encode_proof(&proof_for(3)).unwrap();
    assert_eq!(verify_encoded(&vec![3, 0, 0], N_COLS, &no_public()), None);
    assert_eq!(verify_encoded(&guest_input(3, &wire[..wire.len() - 1]), N_COLS, &no_public()), None);
    let mut longer = wire.clone();
    longer.push(0);
    assert_eq!(verify_encoded(&guest_input(3, &longer), N_COLS, &no_public()), None);
    assert!(decode_proof(&Vec::new()).is_none());
    let mut huge = wire.clone();
    huge[0] = 0xff;
    assert!(decode_proof(&huge).is_none());
}
