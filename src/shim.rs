use vstd::prelude::*;

use crate::air::FibAir;
use crate::hash::{le_word, read_le_word};
use crate::codec::{decode_proof, decode_spec, decoded};
use crate::stark::{proof_valid, verify, Proof, PublicRows, VerifyError};

verus! {

/// The byte that the guest commits for a verification outcome: 1 for an
/// accepted proof, 0 for any rejection.
pub fn result_byte(r: &Result<(), VerifyError>) -> (b: u8)
    ensures
        b == (if r is Ok { 1u8 } else { 0u8 }),
{
    if r.is_ok() {
        1
    } else {
        0
    }
}

/// The guest program's work on its inputs: the trace height as four
/// little-endian bytes, and the proof. Gives `None` when the height bytes are
/// truncated or overlong (the host aborts then, committing nothing), else the
/// output byte of verifying the proof for an AIR of that height and `n_cols`
/// columns, with the public rows `public`.
pub fn verify_with_height(height: &Vec<u8>, n_cols: usize, public: &PublicRows, proof: &Proof) -> (out: Option<u8>)
    ensures
        height@.len() != 4 <==> out is None,
        height@.len() == 4 ==> out == Some(
            if proof_valid(FibAir { log_n_rows: le_word(height@), n_cols }, *public, *proof) {
                1u8
            } else {
                0u8
            },
        ),
{
    if height.len() != 4 {
        return None;
    }
    let air = FibAir { log_n_rows: read_le_word(height), n_cols };
    let r = verify(&air, public, proof);
    Some(result_byte(&r))
}

/// The guest program's work on a single input buffer: the trace height as
/// four little-endian bytes, then the proof in its wire form. Gives `None`
/// when the buffer is truncated or malformed (the host aborts then,
/// committing nothing), else the output byte of verifying the decoded proof
/// for an AIR of that height and `n_cols` columns, with the public rows
/// `public`.
pub fn verify_encoded(input: &Vec<u8>, n_cols: usize, public: &PublicRows) -> (out: Option<u8>)
    ensures
        input@.len() < 4 || decode_spec(input@.skip(4)) is None <==> out is None,
        out matches Some(b) ==> exists|p: Proof| {
            &&& #[trigger] decoded(input@.skip(4), p)
            &&& b == if proof_valid(FibAir { log_n_rows: le_word(input@), n_cols }, *public, p) {
                1u8
            } else {
                0u8
            }
        },
{
    if input.len() < 4 {
        return None;
    }
    let mut body: Vec<u8> = Vec::new();
    let mut j: usize = 4;
    while j < input.len()
        invariant
            4 <= j <= input@.len(),
            body@ == input@.subrange(4, j as int),
        decreases input@.len() - j,
    {
        body.push(input[j]);
        j = j + 1;
        assert(body@ =~= input@.subrange(4, j as int));
    }
    assert(body@ =~= input@.skip(4));
    let proof = match decode_proof(&body) {
        Some(p) => p,
        None => {
            return None;
        },
    };
    let air = FibAir { log_n_rows: read_le_word(input), n_cols };
    let r = verify(&air, public, &proof);
    let b = result_byte(&r);
    assert(decoded(input@.skip(4), proof));
    Some(b)
}

} // verus!
