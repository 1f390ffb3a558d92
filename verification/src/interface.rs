//! Interfaces of the external collaborators the pool instructs.
//!
//! The pool itself never moves the base asset: a successful withdrawal
//! hands back the amount to pay out, and the surrounding layer performs
//! the transfer through this interface.  The payout is fire-and-forget
//! from the pool's perspective.

use vstd::prelude::*;

verus! {

/// The asset-transfer collaborator: pays `amount` of the base asset out to
/// `receiver_id`, with an optional transfer memo.
pub trait FungibleToken {
    fn ft_transfer(&mut self, receiver_id: String, amount: u128, memo: Option<String>);
}

} // verus!
