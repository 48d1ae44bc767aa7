//! The cross-chain verifier bridge: it keeps the guardian sets that an admin
//! installs and admits the messages that a stored set has signed.
//!
//! A [`CrossChainBridge`] holds what the contract finds in its storage. What
//! the ledger has to write on its account is appended to
//! [`CrossChainBridge::writes`], in order; a refused call changes nothing.

use vstd::prelude::*;

use crate::address::{same_address, Address};
use crate::auth::{has_authorized, require_auth};
use crate::error::Error;
use crate::sorted_map;
use crate::sorted_map::SortedMap;

verus! {

/// Under what the contract's storage keeps a value.
#[derive(Clone, Copy, Debug, PartialEq, Eq)]
pub enum DataKey {
    Admin,
    GuardianSet(u32),
    CurrentGuardianSetIndex,
}

/// A set of guardians, by the index that its messages refer to.
#[derive(Clone, Debug, PartialEq, Eq)]
pub struct GuardianSet<G> {
    pub index: u32,
    pub guardians: Vec<G>,
}

/// A signed message, taken apart.
#[derive(Clone, Debug, PartialEq, Eq)]
pub struct ParsedVaa<S, B> {
    /// The set whose guardians signed the message.
    pub guardian_set_index: u32,
    pub signatures: Vec<S>,
    pub body: B,
}

/// The bridge's storage.
#[derive(Clone, Debug, PartialEq, Eq)]
pub struct CrossChainBridge<G> {
    /// The addresses that authorized the call.
    pub auths: Vec<Address>,
    pub admin: Option<Address>,
    pub current_index: Option<u32>,
    pub guardian_sets: SortedMap<u32, GuardianSet<G>>,
    /// The keys whose values the ledger has to write, in order.
    pub writes: Vec<DataKey>,
}

/// What a [`CrossChainBridge`] says.
#[verifier::ext_equal]
pub struct BridgeView<G> {
    pub auths: Seq<Address>,
    pub admin: Option<Address>,
    pub current_index: Option<u32>,
    pub guardian_sets: Map<u32, GuardianSet<G>>,
    pub writes: Seq<DataKey>,
}

impl<G> View for CrossChainBridge<G> {
    type V = BridgeView<G>;

    open spec fn view(&self) -> BridgeView<G> {
        BridgeView {
            auths: self.auths@,
            admin: self.admin,
            current_index: self.current_index,
            guardian_sets: self.guardian_sets.to_map(),
            writes: self.writes@,
        }
    }
}

/// What `initialize` returns.
pub open spec fn initialize_result<G>(bridge: BridgeView<G>) -> Result<(), Error> {
    if bridge.admin is Some {
        Err(Error::AlreadyInitialized)
    } else {
        Ok(())
    }
}

/// `bridge` after a successful `initialize`.
pub open spec fn initialized<G>(bridge: BridgeView<G>, admin: Address) -> BridgeView<G> {
    BridgeView {
        admin: Some(admin),
        current_index: Some(0),
        writes: bridge.writes + seq![DataKey::Admin, DataKey::CurrentGuardianSetIndex],
        ..bridge
    }
}

/// What `set_guardian_set` returns.
pub open spec fn set_result<G>(bridge: BridgeView<G>, admin: Address) -> Result<(), Error> {
    match bridge.admin {
        None => Err(Error::NotInitialized),
        Some(stored) => if admin == stored {
            Ok(())
        } else {
            Err(Error::Unauthorized)
        },
    }
}

/// `bridge` after a successful `set_guardian_set`.
pub open spec fn installed<G>(bridge: BridgeView<G>, set: GuardianSet<G>) -> BridgeView<G> {
    BridgeView {
        current_index: Some(set.index),
        guardian_sets: bridge.guardian_sets.insert(set.index, set),
        writes: bridge.writes + seq![
            DataKey::GuardianSet(set.index),
            DataKey::CurrentGuardianSetIndex,
        ],
        ..bridge
    }
}

/// The index of the active set.
pub open spec fn current_index<G>(bridge: BridgeView<G>) -> u32 {
    match bridge.current_index {
        Some(index) => index,
        None => 0,
    }
}

/// What `verify_and_parse_vaa` returns for a message that is taken apart as
/// `parsed`, where `verified` says what its guardian set makes of it.
pub open spec fn admission<G, S, B>(
    bridge: BridgeView<G>,
    parsed: Result<ParsedVaa<S, B>, Error>,
    verified: Result<(), Error>,
) -> Result<B, Error> {
    match parsed {
        Err(error) => Err(error),
        Ok(vaa) => if !bridge.guardian_sets.contains_key(vaa.guardian_set_index) {
            Err(Error::RootNotFound)
        } else {
            match verified {
                Err(error) => Err(error),
                Ok(()) => Ok(vaa.body),
            }
        },
    }
}

impl<G> CrossChainBridge<G> {
    /// The guardian sets are in order.
    pub open spec fn wf(self) -> bool {
        self.guardian_sets.wf()
    }

    /// Initialize the cross-chain verifier bridge contract with an admin.
    pub fn initialize(&mut self, admin: Address) -> (outcome: Result<(), Error>)
        requires
            old(self).wf(),
        ensures
            final(self).wf(),
            outcome == initialize_result(old(self)@),
            outcome is Ok ==> final(self)@ == initialized(old(self)@, admin),
            outcome is Err ==> *final(self) == *old(self),
    {
        if self.admin.is_some() {
            return Err(Error::AlreadyInitialized);
        }
        let ghost goal = initialized(self@, admin);
        self.admin = Some(admin);
        self.current_index = Some(0);
        self.writes.push(DataKey::Admin);
        self.writes.push(DataKey::CurrentGuardianSetIndex);
        assert(self@ =~= goal);
        Ok(())
    }

    /// Set an active guardian set (admin only). The call traps unless `admin`
    /// authorized it; [`CrossChainBridge::try_set_guardian_set`] is for calls of
    /// which that is not known.
    pub fn set_guardian_set(&mut self, admin: Address, set: GuardianSet<G>) -> (outcome: Result<
        (),
        Error,
    >)
        requires
            old(self).wf(),
            old(self)@.auths.contains(admin),
        ensures
            final(self).wf(),
            outcome == set_result(old(self)@, admin),
            outcome is Ok ==> final(self)@ == installed(old(self)@, set),
            outcome is Err ==> *final(self) == *old(self),
    {
        require_auth(&self.auths, &admin);
        let stored_admin = match self.get_admin() {
            Err(error) => {
                return Err(error);
            },
            Ok(stored_admin) => stored_admin,
        };
        if !same_address(&admin, &stored_admin) {
            return Err(Error::Unauthorized);
        }
        let ghost goal = installed(self@, set);
        let index: u32 = set.index;
        self.guardian_sets.set(index, set);
        self.current_index = Some(index);
        self.writes.push(DataKey::GuardianSet(index));
        self.writes.push(DataKey::CurrentGuardianSetIndex);
        assert(self@ =~= goal);
        Ok(())
    }

    /// [`CrossChainBridge::set_guardian_set`] for any call: `None` is the trap
    /// that a call runs into that `admin` did not authorize.
    pub fn try_set_guardian_set(&mut self, admin: Address, set: GuardianSet<G>) -> (outcome: Option<
        Result<(), Error>,
    >)
        requires
            old(self).wf(),
        ensures
            final(self).wf(),
            outcome == if old(self)@.auths.contains(admin) {
                Some(set_result(old(self)@, admin))
            } else {
                None::<Result<(), Error>>
            },
            outcome == Some(Ok::<(), Error>(())) ==> final(self)@ == installed(old(self)@, set),
            outcome != Some(Ok::<(), Error>(())) ==> *final(self) == *old(self),
    {
        if !has_authorized(&self.auths, &admin) {
            return None;
        }
        Some(self.set_guardian_set(admin, set))
    }

    /// Get a stored guardian set by index.
    pub fn get_guardian_set(&self, index: u32) -> (set: Option<&GuardianSet<G>>)
        requires
            self.wf(),
        ensures
            match set {
                Some(set) => self@.guardian_sets.contains_key(index) && *set
                    == self@.guardian_sets[index],
                None => !self@.guardian_sets.contains_key(index),
            },
    {
        self.guardian_sets.get(&index)
    }

    /// Get the current active guardian set index.
    pub fn get_current_guardian_set_index(&self) -> (index: u32)
        ensures
            index == current_index(self@),
    {
        match self.current_index {
            Some(index) => index,
            None => 0,
        }
    }

    /// Verify a signed message and extract its cross-chain payload. `parse`
    /// takes a message apart, and `verify` holds it against the guardian set
    /// that it names.
    pub fn verify_and_parse_vaa<S, B, P, V>(
        &self,
        vaa_bytes: &[u8],
        parse: P,
        verify: V,
    ) -> (outcome: Result<B, Error>) where
        P: FnOnce(&[u8]) -> Result<ParsedVaa<S, B>, Error>,
        V: FnOnce(&ParsedVaa<S, B>, &GuardianSet<G>) -> Result<(), Error>,

        requires
            self.wf(),
            call_requires(parse, (vaa_bytes,)),
            forall|vaa: ParsedVaa<S, B>|
                call_ensures(parse, (vaa_bytes,), Ok(vaa)) && #[trigger]
                self@.guardian_sets.contains_key(vaa.guardian_set_index) ==> call_requires(
                    verify,
                    (&vaa, &self@.guardian_sets[vaa.guardian_set_index]),
                ),
        ensures
            exists|parsed: Result<ParsedVaa<S, B>, Error>, verified: Result<(), Error>|
                {
                    &&& call_ensures(parse, (vaa_bytes,), parsed)
                    &&& parsed is Ok && self@.guardian_sets.contains_key(
                        parsed->Ok_0.guardian_set_index,
                    ) ==> call_ensures(
                        verify,
                        (
                            &parsed->Ok_0,
                            &self@.guardian_sets[parsed->Ok_0.guardian_set_index],
                        ),
                        verified,
                    )
                    &&& outcome == #[trigger] admission(self@, parsed, verified)
                },
    {
        let parsed = parse(vaa_bytes);
        let ghost whole = parsed;
        let vaa = match parsed {
            Err(error) => {
                assert(admission(self@, whole, Ok(())) == Err::<B, Error>(error));
                return Err(error);
            },
            Ok(vaa) => vaa,
        };
        let set = match self.get_guardian_set(vaa.guardian_set_index) {
            None => {
                assert(admission(self@, whole, Ok(())) == Err::<B, Error>(Error::RootNotFound));
                return Err(Error::RootNotFound);
            },
            Some(set) => set,
        };
        let verified = verify(&vaa, set);
        let ghost verdict = verified;
        match verified {
            Err(error) => {
                assert(admission(self@, whole, verdict) == Err::<B, Error>(error));
                Err(error)
            },
            Ok(()) => {
                assert(admission(self@, whole, verdict) == Ok::<B, Error>(vaa.body));
                Ok(vaa.body)
            },
        }
    }

    /// Get the contract admin address.
    pub fn get_admin(&self) -> (admin: Result<Address, Error>)
        ensures
            admin == match self@.admin {
                Some(admin) => Ok::<Address, Error>(admin),
                None => Err(Error::NotInitialized),
            },
    {
        match self.admin {
            Some(admin) => Ok(admin),
            None => Err(Error::NotInitialized),
        }
    }
}

/// The admin is set once: from then on `initialize` is refused, and installing
/// guardian sets does not change who the admin is.
pub proof fn law_admin_is_set_once<G>(
    bridge: BridgeView<G>,
    admin: Address,
    set: GuardianSet<G>,
)
    ensures
        bridge.admin is Some ==> initialize_result(bridge) == Err::<(), Error>(
            Error::AlreadyInitialized,
        ),
        initialized(bridge, admin).admin == Some(admin),
        installed(bridge, set).admin == bridge.admin,
        bridge.admin is Some ==> initialize_result(installed(bridge, set)) is Err,
{
}

/// A fresh bridge has the active index 0, and `initialize` stores no guardian
/// set.
pub proof fn law_initialized_bridge<G>(bridge: BridgeView<G>, admin: Address)
    ensures
        current_index(initialized(bridge, admin)) == 0,
        initialized(bridge, admin).guardian_sets == bridge.guardian_sets,
{
}

/// Only the admin installs guardian sets.
pub proof fn law_only_admin_installs<G>(bridge: BridgeView<G>, caller: Address)
    ensures
        set_result(bridge, caller) is Ok <==> bridge.admin == Some(caller),
{
}

/// An installed set is read back under its own index and becomes the active
/// one; every other set stays as it was.
pub proof fn law_installed_set_read_back<G>(
    bridge: BridgeView<G>,
    set: GuardianSet<G>,
    other: u32,
)
    ensures
        ({
            let after = installed(bridge, set);
            &&& after.guardian_sets.contains_key(set.index)
            &&& after.guardian_sets[set.index] == set
            &&& current_index(after) == set.index
            &&& other != set.index ==> {
                &&& after.guardian_sets.contains_key(other) == bridge.guardian_sets.contains_key(
                    other,
                )
                &&& bridge.guardian_sets.contains_key(other) ==> after.guardian_sets[other]
                    == bridge.guardian_sets[other]
            }
        }),
{
}

/// Every stored set stands under its own index.
pub open spec fn filed_by_index<G>(bridge: BridgeView<G>) -> bool {
    forall|index: u32| #[trigger]
        bridge.guardian_sets.contains_key(index) ==> bridge.guardian_sets[index].index == index
}

/// Every stored set stands under its own index: `initialize` and
/// `set_guardian_set` keep it so.
pub proof fn law_sets_filed_by_index<G>(
    bridge: BridgeView<G>,
    admin: Address,
    set: GuardianSet<G>,
)
    requires
        filed_by_index(bridge),
    ensures
        filed_by_index(initialized(bridge, admin)),
        filed_by_index(installed(bridge, set)),
{
}

/// No message is admitted without the consent of a stored guardian set, and
/// what is admitted is the body of the message.
pub proof fn law_admission_needs_a_stored_set<G, S, B>(
    bridge: BridgeView<G>,
    parsed: Result<ParsedVaa<S, B>, Error>,
    verified: Result<(), Error>,
)
    ensures
        admission(bridge, parsed, verified) is Ok <==> {
            &&& parsed is Ok
            &&& bridge.guardian_sets.contains_key(parsed->Ok_0.guardian_set_index)
            &&& verified is Ok
        },
        admission(bridge, parsed, verified) matches Ok(body) ==> body == parsed->Ok_0.body,
{
}

/// What `initialize` answers and leaves: it is refused exactly when there is an
/// admin already; else it sets the admin and the active index 0, writes both,
/// and changes nothing else.
pub proof fn law_initialize<G>(bridge: BridgeView<G>, admin: Address)
    ensures
        bridge.admin is Some ==> initialize_result(bridge) == Err::<(), Error>(
            Error::AlreadyInitialized,
        ),
        bridge.admin is None ==> initialize_result(bridge) == Ok::<(), Error>(()),
        ({
            let after = initialized(bridge, admin);
            &&& after.admin == Some(admin)
            &&& after.current_index == Some(0u32)
            &&& after.guardian_sets == bridge.guardian_sets
            &&& after.auths == bridge.auths
            &&& after.writes == bridge.writes.push(DataKey::Admin).push(
                DataKey::CurrentGuardianSetIndex,
            )
        }),
{
    assert(initialized(bridge, admin).writes =~= bridge.writes.push(DataKey::Admin).push(
        DataKey::CurrentGuardianSetIndex,
    ));
}

/// What `set_guardian_set` answers and leaves: it is refused without an admin,
/// and to everyone but the admin; else it puts the set under its own index,
/// makes that the active one, writes both, and changes nothing else.
pub proof fn law_set_guardian_set<G>(bridge: BridgeView<G>, caller: Address, set: GuardianSet<G>)
    ensures
        bridge.admin is None ==> set_result(bridge, caller) == Err::<(), Error>(
            Error::NotInitialized,
        ),
        bridge.admin is Some && bridge.admin != Some(caller) ==> set_result(bridge, caller)
            == Err::<(), Error>(Error::Unauthorized),
        bridge.admin == Some(caller) ==> set_result(bridge, caller) == Ok::<(), Error>(()),
        ({
            let after = installed(bridge, set);
            &&& after.admin == bridge.admin
            &&& after.current_index == Some(set.index)
            &&& after.guardian_sets == bridge.guardian_sets.insert(set.index, set)
            &&& after.auths == bridge.auths
            &&& after.writes == bridge.writes.push(DataKey::GuardianSet(set.index)).push(
                DataKey::CurrentGuardianSetIndex,
            )
        }),
{
    assert(installed(bridge, set).writes =~= bridge.writes.push(
        DataKey::GuardianSet(set.index),
    ).push(DataKey::CurrentGuardianSetIndex));
}

/// The active index is the stored one or, where none is stored, 0.
pub proof fn law_active_index<G>(bridge: BridgeView<G>)
    ensures
        bridge.current_index matches Some(index) ==> current_index(bridge) == index,
        bridge.current_index is None ==> current_index(bridge) == 0,
{
}

/// Which refusal a message is answered with: the one that taking it apart gave,
/// then `RootNotFound` where its guardian set is not stored, then the one that
/// its guardian set gave.
pub proof fn law_admission_refusals<G, S, B>(
    bridge: BridgeView<G>,
    parsed: Result<ParsedVaa<S, B>, Error>,
    verified: Result<(), Error>,
)
    ensures
        ({
            let answer = admission(bridge, parsed, verified);
            let stored = parsed is Ok && bridge.guardian_sets.contains_key(
                parsed->Ok_0.guardian_set_index,
            );
            &&& parsed is Err ==> answer == Err::<B, Error>(parsed->Err_0)
            &&& parsed is Ok && !stored ==> answer == Err::<B, Error>(Error::RootNotFound)
            &&& stored && verified is Err ==> answer == Err::<B, Error>(verified->Err_0)
            &&& stored && verified is Ok ==> answer == Ok::<B, Error>(parsed->Ok_0.body)
        }),
{
}

/// The view of a bridge tells every field.
pub proof fn law_bridge_told<G>(bridge: CrossChainBridge<G>, i: int)
    requires
        bridge.wf(),
    ensures
        bridge@.auths == bridge.auths@,
        bridge@.admin == bridge.admin,
        bridge@.current_index == bridge.current_index,
        bridge@.writes == bridge.writes@,
        0 <= i < bridge.guardian_sets@.len() ==> {
            let (index, set) = bridge.guardian_sets@[i];
            bridge@.guardian_sets.contains_key(index) && bridge@.guardian_sets[index] == set
        },
        forall|index: u32| #[trigger]
            bridge@.guardian_sets.contains_key(index) ==> exists|k: int|
                0 <= k < bridge.guardian_sets@.len() && (#[trigger] bridge.guardian_sets@[k]).0
                    == index,
{
    if 0 <= i < bridge.guardian_sets@.len() {
        sorted_map::lemma_lookup_at(bridge.guardian_sets@, i);
    }
    assert forall|index: u32| #[trigger]
        bridge@.guardian_sets.contains_key(index) implies exists|k: int|
        0 <= k < bridge.guardian_sets@.len() && (#[trigger] bridge.guardian_sets@[k]).0
            == index by {
        let k = choose|k: int| sorted_map::entry_at(bridge.guardian_sets@, index, k);
        assert(bridge.guardian_sets@[k].0 == index);
    }
}

/// All that is asked of a bridge: guardian sets stand in the order of their
/// indices.
pub proof fn law_what_is_asked<G>(bridge: CrossChainBridge<G>)
    ensures
        bridge.wf() <==> sorted_map::sorted(bridge.guardian_sets@),
{
}

} // verus!
