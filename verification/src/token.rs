//! Token transfers.

use vstd::prelude::*;

use crate::address::Address;

verus! {

/// A transfer that the ledger's token contract `token` is asked to make.
#[derive(Clone, Copy, Debug, PartialEq, Eq)]
pub struct Transfer {
    pub token: Address,
    pub from: Address,
    pub to: Address,
    pub amount: i128,
}

} // verus!
