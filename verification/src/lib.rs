//! Core of a hierarchical inter-subnet communication protocol: a gateway
//! actor that keeps the subnet registry, the checkpoint ledger, the
//! cross-message queues and the postbox, and a subnet actor that keeps the
//! validator book and the checkpoint vote tally.

pub mod address;
pub mod checkpoint;
pub mod cross;
pub mod encode;
pub mod errors;
pub mod gateway;
pub mod hashing;
pub mod subnet_actor;

use vstd::prelude::*;

verus! {

/// Fixed charge deducted from every cross-subnet message, in nano-tokens.
pub const CROSS_MSG_FEE: u64 = 100;

/// Collateral, in nano-tokens, below which a subnet is not active.
pub const MIN_COLLATERAL_AMOUNT: u64 = 1_000_000_000;

} // verus!
