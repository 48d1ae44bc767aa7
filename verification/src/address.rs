//! Addresses of accounts and contracts.

use vstd::prelude::*;

use crate::bytes;
use crate::bytes::{lex_rank, Rank};
use crate::sorted_map::Key;

verus! {

/// An account or a contract on the ledger.
#[derive(Clone, Copy, Debug, PartialEq, Eq)]
pub enum Address {
    /// An account, by its Ed25519 public key.
    Account([u8; 32]),
    /// A contract, by its id.
    Contract([u8; 32]),
}

/// Accounts come before contracts; within a kind, bytes decide.
impl Key for Address {
    open spec fn before(self, other: Self) -> bool {
        match (self, other) {
            (Address::Account(a), Address::Account(b)) => bytes::lex_before(a@, b@),
            (Address::Account(_), Address::Contract(_)) => true,
            (Address::Contract(_), Address::Account(_)) => false,
            (Address::Contract(a), Address::Contract(b)) => bytes::lex_before(a@, b@),
        }
    }

    proof fn irreflexive(a: Self) {
        match a {
            Address::Account(x) => bytes::lemma_lex_irreflexive(x@),
            Address::Contract(x) => bytes::lemma_lex_irreflexive(x@),
        }
    }

    proof fn transitive(a: Self, b: Self, c: Self) {
        match (a, b, c) {
            (Address::Account(x), Address::Account(y), Address::Account(z)) => {
                bytes::lemma_lex_transitive(x@, y@, z@);
            },
            (Address::Contract(x), Address::Contract(y), Address::Contract(z)) => {
                bytes::lemma_lex_transitive(x@, y@, z@);
            },
            _ => {},
        }
    }

    fn rank(&self, other: &Self) -> (rank: Rank) {
        match (self, other) {
            (Address::Account(a), Address::Account(b)) => lex_rank(a, b),
            (Address::Account(_), Address::Contract(_)) => Rank::Less,
            (Address::Contract(_), Address::Account(_)) => Rank::Greater,
            (Address::Contract(a), Address::Contract(b)) => lex_rank(a, b),
        }
    }
}

/// Whether two addresses are the same.
pub fn same_address(a: &Address, b: &Address) -> (same: bool)
    ensures
        same == (*a == *b),
{
    match a.rank(b) {
        Rank::Equal => true,
        _ => {
            proof {
                Address::irreflexive(*a);
            }
            false
        },
    }
}

/// Accounts come before contracts; of two accounts, and of two contracts, the
/// one with the smaller byte at the first difference comes first.
pub proof fn law_address_order(a: [u8; 32], b: [u8; 32])
    ensures
        Address::Account(a).before(Address::Contract(b)),
        !Address::Contract(a).before(Address::Account(b)),
        Address::Account(a).before(Address::Account(b)) <==> exists|k: int|
            0 <= k < 32 && a@[k] < b@[k] && #[trigger] a@.take(k) == b@.take(k),
        Address::Contract(a).before(Address::Contract(b)) <==> exists|k: int|
            0 <= k < 32 && a@[k] < b@[k] && #[trigger] a@.take(k) == b@.take(k),
{
    bytes::law_lex_order(a@, b@);
}

} // verus!
