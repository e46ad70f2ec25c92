//! The account and transition engine of a batched, proof-backed ledger: a
//! Merkle tree of accounts, signed transfers checked and applied against it
//! with the witnesses a prover needs, and the block circuit's constraints
//! evaluated on those witnesses.
pub mod circuit;
pub mod crypto;
pub mod engine;
pub mod field;
pub mod ledger;
pub mod model;
pub mod testdata;
pub mod tree;
