//! Challenge derivation and synthetic proof storage for a Proof-of-Replication
//! scheme: which leaves of a sealed sector must be proven, how the precomputed
//! inclusion proofs are laid out in a randomly addressable store, how the proofs
//! a verifier asks for are picked out of it, and how they are handed to the
//! prover in batches of bounded size.

pub mod errors;
pub mod geometry;
pub mod defaults;
pub mod challenges;
pub mod tracker;
pub mod layout;
pub mod record;
pub mod store;
pub mod bundle;
pub mod extract;
pub mod assembler;
pub mod nodes;
pub mod temporary_aux;
