//! Error taxonomy of the two actors.

use vstd::prelude::*;

verus! {

/// Failure kinds surfaced by the gateway and the subnet actor.
///
/// `IllegalArgument` covers malformed inputs: an unknown subnet on a registry
/// operation, a zero value where a positive one is required, a duplicate
/// child checkpoint inside one window, a destination equal to the current
/// network, or a cross-message that does not belong on this network.
///
/// `IllegalState` covers invariant violations: a nonce gap or repeat, a
/// commit for an inactive subnet, releasing more stake than is held, a
/// propagation by a non-owner, a missing or owner-less postbox entry, a
/// duplicate vote, a caller that is not a validator, or killing a subnet
/// that still holds circulating supply.
///
/// `InsufficientFunds` is returned when an attached value does not exceed
/// the cross-message fee.
#[derive(Clone, Copy, Debug, PartialEq, Eq, Structural)]
pub enum ActorError {
    IllegalArgument,
    IllegalState,
    InsufficientFunds,
}

} // verus!
