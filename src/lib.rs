//! The consensus and persistent-state core of a sharded BFT layer-2 network, verified with
//! Verus: content-addressed blocks and quorum certificates, proposal validation, the
//! three-chain commit rule, the transaction pool's lifecycle, substate versioning and locking,
//! per-shard state transition logs, state tree diffs, and the in-memory stores they run on.

pub mod hash;
pub mod model;
pub mod validation;
pub mod store;
pub mod pool;
pub mod substate;
pub mod chain;
pub mod memory;
pub mod accounts;
pub mod votes;
pub mod models;
pub mod state_tree;
pub mod transaction;
pub mod records;
pub mod pending;
pub mod working;
pub mod diffs;
