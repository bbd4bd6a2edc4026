use vstd::prelude::*;

use blake2::Digest;

verus! {

/// The Blake2s-256 digest of a byte string.
pub uninterp spec fn blake2s_of(data: Seq<u8>) -> Seq<u8>;

/// Relies on blake2::Blake2s256 through digest::Digest::digest: a 32-byte
/// digest that depends on the input bytes alone.
#[verifier::external_body]
pub(crate) fn blake2s(data: &Vec<u8>) -> (r: Vec<u8>)
    ensures
        r@ == blake2s_of(data@),
        r@.len() == 32,
{
    blake2::Blake2s256::digest(data.as_slice()).to_vec()
}

/// The little-endian bytes of a 32-bit word.
pub open spec fn le_bytes(v: u32) -> Seq<u8> {
    seq![
        (v % 256) as u8,
        ((v / 256) % 256) as u8,
        ((v / 65536) % 256) as u8,
        ((v / 16777216) % 256) as u8,
    ]
}

/// The 32-bit word held little-endian in the first four bytes of `s`.
pub open spec fn le_word(s: Seq<u8>) -> u32 {
    (s[0] as int + 256 * s[1] as int + 65536 * s[2] as int + 16777216 * s[3] as int) as u32
}

/// The bytes of a row: each cell as four little-endian bytes, in order.
pub open spec fn row_bytes(row: Seq<u32>) -> Seq<u8>
    decreases row.len(),
{
    if row.len() == 0 {
        Seq::<u8>::empty()
    } else {
        row_bytes(row.drop_last()) + le_bytes(row.last())
    }
}

/// Appends the little-endian bytes of `v` to `out`.
pub fn push_le_bytes(out: &mut Vec<u8>, v: u32)
    ensures
        final(out)@ == old(out)@ + le_bytes(v),
{
    out.push((v % 256) as u8);
    out.push(((v / 256) % 256) as u8);
    out.push(((v / 65536) % 256) as u8);
    out.push(((v / 16777216) % 256) as u8);
    assert(final(out)@ =~= old(out)@ + le_bytes(v));
}

/// Reads the little-endian word in the first four bytes.
pub fn read_le_word(s: &Vec<u8>) -> (r: u32)
    requires
        s@.len() >= 4,
    ensures
        r == le_word(s@),
{
    let w: u64 = s[0] as u64 + 256 * (s[1] as u64) + 65536 * (s[2] as u64) + 16777216 * (s[3] as u64);
    w as u32
}

/// The bytes of a row, as `row_bytes` gives them.
pub fn encode_row(row: &Vec<u32>) -> (r: Vec<u8>)
    ensures
        r@ == row_bytes(row@),
{
    let mut out: Vec<u8> = Vec::new();
    let mut i: usize = 0;
    while i < row.len()
        invariant
            i <= row@.len(),
            out@ == row_bytes(row@.take(i as int)),
        decreases row@.len() - i,
    {
        proof {
            assert(row@.take(i + 1).drop_last() =~= row@.take(i as int));
        }
        push_le_bytes(&mut out, row[i]);
        i = i + 1;
    }
    assert(row@.take(i as int) =~= row@);
    out
}

/// Whether two byte strings are equal.
pub fn bytes_eq(a: &Vec<u8>, b: &Vec<u8>) -> (r: bool)
    ensures
        r == (a@ == b@),
{
    if a.len() != b.len() {
        return false;
    }
    let mut i: usize = 0;
    while i < a.len()
        invariant
            i <= a@.len() == b@.len(),
            forall|j: int| 0 <= j < i ==> a@[j] == b@[j],
        decreases a@.len() - i,
    {
        if a[i] != b[i] {
            return false;
        }
        i = i + 1;
    }
    assert(a@ =~= b@);
    true
}

} // verus!
