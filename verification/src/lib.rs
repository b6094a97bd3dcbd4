//! A verified single-winner prize pool.
//!
//! A manager opens a pool funded with an initial stake; participants join,
//! each adding a fixed entry fee to the pot; the manager issues a one-shot
//! request to an external randomness oracle; once the oracle's fulfillment
//! is observed, the winner is drawn as `random_value mod participants`, and
//! the winner alone may claim the whole custodied balance, which destroys
//! the record. Every operation either fully applies or reports an error and
//! leaves the record unchanged.
//!
//! The ledger that custodies the funds, the signature checks, and the oracle
//! itself are outside collaborators: this crate holds the state machine over
//! plain values, and an unverified shell performs the transfers and the
//! oracle calls atomically with the transitions decided here.

pub mod errors;
pub mod pool;
pub mod laws;
pub mod store;
pub mod codec;
