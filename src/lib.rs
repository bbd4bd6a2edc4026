//! Proving and checking that a row-based trace satisfies the squared-Fibonacci
//! recurrence: trace generation over the Mersenne-31 field, the constraint
//! declaration shared by prover and verifier, a Blake2s Merkle commitment
//! driven by a Fiat-Shamir channel, the prover and verifier, the guest-side
//! verification step, and the adapter that folds an order log into a trace.
//!
//! The proof opens sampled rows and the public rows with Merkle paths. It has
//! no low-degree (FRI) argument and no evaluations at out-of-domain points, so
//! a trace that breaks the recurrence only in rows that are never sampled is
//! caught by the prover, which checks every row, and not by the verifier.

pub mod field;
pub mod trace;
pub mod air;
pub mod hash;
pub mod merkle;
pub mod channel;
pub mod stark;
pub mod shim;
pub mod orders;
pub mod adapter;
pub mod driver;
pub mod codec;
