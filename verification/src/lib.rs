//! The block validation core of an Ethereum-family node: header and
//! parent-linkage rules, the difficulty retarget with its bomb schedule,
//! gas-limit drift bounds, proof-of-work boundary checking, re-execution
//! bookkeeping (receipts, gas, logs bloom), reward schedules, and an
//! append-only header chain, all stated and proved over plain models.
//! Keccak-256, the RLP digests and trie roots, and per-transaction
//! signature validity come from outside crates behind trusted contracts;
//! the Ethash DAG and the virtual machine stay outside and hand their
//! outputs in.

pub mod u256;
pub mod types;
pub mod bloom;
pub mod rules;
pub mod model;
pub mod digests;
pub mod validator;
pub mod chain;
pub mod processor;
pub mod laws;
