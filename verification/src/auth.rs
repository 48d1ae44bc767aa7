//! Authorization of a call by its parties.

use vstd::prelude::*;

use crate::address::{same_address, Address};

verus! {

/// Whether `who` is among the addresses that authorized the call.
pub fn has_authorized(auths: &Vec<Address>, who: &Address) -> (authorized: bool)
    ensures
        authorized == auths@.contains(*who),
{
    let mut i: usize = 0;
    while i < auths.len()
        invariant
            i <= auths@.len(),
            forall|j: int| 0 <= j < i ==> auths@[j] != *who,
        decreases auths@.len() - i,
    {
        if same_address(&auths[i], who) {
            assert(auths@[i as int] == *who);
            return true;
        }
        i += 1;
    }
    false
}

/// Traps unless `who` authorized the call.
pub(crate) fn require_auth(auths: &Vec<Address>, who: &Address)
    requires
        auths@.contains(*who),
{
    if !has_authorized(auths, who) {
        vstd::pervasive::unreached()
    }
}

} // verus!
