use vstd::prelude::*;

use crate::hash::{blake2s, blake2s_of, le_bytes, le_word, push_le_bytes, read_le_word};

verus! {

/// The state of a fresh channel: 32 zero bytes.
pub open spec fn zero_state() -> Seq<u8> {
    Seq::new(32, |i: int| 0u8)
}

/// The state after absorbing a commitment (its root, then its domain size).
pub open spec fn mix_commitment_spec(s: Seq<u8>, root: Seq<u8>, log_size: u32) -> Seq<u8> {
    blake2s_of(s + (root + le_bytes(log_size)))
}

/// The state after `k` draws from state `s`.
pub open spec fn draw_state(s: Seq<u8>, k: nat) -> Seq<u8>
    decreases k,
{
    if k == 0 {
        s
    } else {
        blake2s_of(draw_state(s, (k - 1) as nat).push(0u8))
    }
}

/// The word handed out by draw number `k` (counting from 0) from state `s`.
pub open spec fn drawn_word(s: Seq<u8>, k: nat) -> u32 {
    le_word(draw_state(s, k + 1))
}

/// A Fiat-Shamir channel: a running Blake2s state that absorbs the prover's
/// messages and derives the verifier's challenges from all of them in order.
#[derive(Debug)]
pub struct Channel {
    pub state: Vec<u8>,
}

impl Channel {
    /// A fresh channel.
    pub fn new() -> (r: Channel)
        ensures
            r.state@ == zero_state(),
    {
        let mut state: Vec<u8> = Vec::new();
        let mut i: usize = 0;
        while i < 32
            invariant
                i <= 32,
                state@ == Seq::new(i as nat, |j: int| 0u8),
            decreases 32 - i,
        {
            state.push(0u8);
            i = i + 1;
            assert(state@ =~= Seq::new(i as nat, |j: int| 0u8));
        }
        Channel { state }
    }

    /// Absorbs a commitment: its root, then its domain size.
    pub fn mix_commitment(&mut self, root: &Vec<u8>, log_size: u32)
        ensures
            final(self).state@ == mix_commitment_spec(old(self).state@, root@, log_size),
    {
        let mut buf: Vec<u8> = self.state.clone();
        let mut j: usize = 0;
        while j < root.len()
            invariant
                j <= root@.len(),
                buf@ == old(self).state@ + root@.take(j as int),
            decreases root@.len() - j,
        {
            buf.push(root[j]);
            j = j + 1;
            assert(buf@ =~= old(self).state@ + root@.take(j as int));
        }
        assert(root@.take(j as int) =~= root@);
        push_le_bytes(&mut buf, log_size);
        assert(buf@ =~= old(self).state@ + (root@ + le_bytes(log_size)));
        self.state = blake2s(&buf);
    }

    /// Derives the next challenge word.
    pub fn draw_word(&mut self) -> (r: u32)
        ensures
            final(self).state@ == blake2s_of(old(self).state@.push(0u8)),
            r == le_word(final(self).state@),
    {
        let mut buf: Vec<u8> = self.state.clone();
        buf.push(0u8);
        self.state = blake2s(&buf);
        read_le_word(&self.state)
    }
}

} // verus!
