//! Consensus core of a proof-of-work ledger node: the ledger store, the
//! consensus rules, the pool of unconfirmed transactions, chain
//! synchronisation with peers and the coordination of mining.
//!
//! Every function is verified against the contract written on it. Contracts
//! speak of the views of the data types: a chain is a sequence of block
//! views, a pool a sequence of transaction views.
//!
//! What only the surroundings can do is done by the caller and enters as
//! plain values: a block carries the digest of its contents, a transaction
//! the proof verifier's verdict, and whatever depends on the time takes the
//! time as an argument. [`node::Node`] owns the ledger and the pool, so that
//! a commit and an admission are each one step for whoever holds it.

pub mod address;
pub mod consensus;
pub mod coordinator;
pub mod errors;
pub mod fork;
pub mod ledger;
pub mod lists;
pub mod mempool;
pub mod miner;
pub mod node;
pub mod params;
pub mod peers;
pub mod sync;
pub mod types;
