use accensa_contracts::address::Address;
use accensa_contracts::cross_chain::{CrossChainBridge, DataKey, GuardianSet, ParsedVaa};
use accensa_contracts::error::Error;
use accensa_contracts::sorted_map::SortedMap;

const ADMIN: Address = Address::Account([1; 32]);
const OTHER: Address = Address::Account([2; 32]);

fn fresh() -> CrossChainBridge<u8> {
    CrossChainBridge {
        auths: vec![ADMIN, OTHER],
        admin: None,
        current_index: None,
        guardian_sets: SortedMap::new(),
        writes: Vec::new(),
    }
}

fn set_of(index: u32, guardian: u8) -> GuardianSet<u8> {
    GuardianSet {
        index,
        guardians: vec![guardian],
    }
}

/// A message is the index of a set, a signature and a body.
fn parse(bytes: &[u8]) -> Result<ParsedVaa<u8, u8>, Error> {
    if bytes.len() == 3 {
        Ok(ParsedVaa {
            guardian_set_index: bytes[0] as u32,
            signatures: vec![bytes[1]],
            body: bytes[2],
        })
    } else {
        Err(Error::InvalidAmount)
    }
}

/// A guardian signs with their own number.
fn verify(vaa: &ParsedVaa<u8, u8>, set: &GuardianSet<u8>) -> Result<(), Error> {
    if set.index == vaa.guardian_set_index && set.guardians == vaa.signatures {
        Ok(())
    } else {
        Err(Error::Unauthorized)
    }
}

#[test]
fn a_bridge_is_initialized_once() {
    let mut bridge = fresh();
    assert_eq!(bridge.get_admin(), Err(Error::NotInitialized));
    assert_eq!(bridge.initialize(ADMIN), Ok(()));
    assert_eq!(bridge.get_admin(), Ok(ADMIN));
    assert_eq!(bridge.get_current_guardian_set_index(), 0);
    assert_eq!(
        bridge.writes,
        vec![DataKey::Admin, DataKey::CurrentGuardianSetIndex]
    );
    let before = bridge.clone();
    assert_eq!(bridge.initialize(OTHER), Err(Error::AlreadyInitialized));
    assert_eq!(bridge, before);
}

#[test]
fn only_the_admin_installs_guardian_sets() {
    let mut bridge = fresh();
    assert_eq!(
        bridge.set_guardian_set(ADMIN, set_of(1, 9)),
        Err(Error::NotInitialized)
    );
    bridge.initialize(ADMIN).unwrap();
    assert_eq!(
        bridge.set_guardian_set(OTHER, set_of(1, 9)),
        Err(Error::Unauthorized)
    );
    assert_eq!(bridge.get_guardian_set(1), None);
    assert_eq!(bridge.set_guardian_set(ADMIN, set_of(1, 9)), Ok(()));
    assert_eq!(bridge.get_guardian_set(1), Some(&set_of(1, 9)));
}

#[test]
fn the_last_installed_set_is_the_active_one() {
    let mut bridge = fresh();
    assert_eq!(bridge.get_current_guardian_set_index(), 0);
    bridge.initialize(ADMIN).unwrap();
    bridge.set_guardian_set(ADMIN, set_of(4, 9)).unwrap();
    assert_eq!(bridge.get_current_guardian_set_index(), 4);
    bridge.set_guardian_set(ADMIN, set_of(2, 8)).unwrap();
    assert_eq!(bridge.get_current_guardian_set_index(), 2);
    bridge.set_guardian_set(ADMIN, set_of(4, 7)).unwrap();
    assert_eq!(bridge.get_current_guardian_set_index(), 4);
    assert_eq!(bridge.get_guardian_set(4), Some(&set_of(4, 7)));
    assert_eq!(bridge.get_guardian_set(2), Some(&set_of(2, 8)));
    assert_eq!(
        bridge.writes[2..4],
        [DataKey::GuardianSet(4), DataKey::CurrentGuardianSetIndex]
    );
}

#[test]
fn a_message_signed_by_a_stored_set_is_admitted() {
    let mut bridge = fresh();
    bridge.initialize(ADMIN).unwrap();
    bridge.set_guardian_set(ADMIN, set_of(1, 9)).unwrap();
    bridge.set_guardian_set(ADMIN, set_of(2, 8)).unwrap();

    // An earlier set than the active one is still held against its messages.
    assert_eq!(
        bridge.verify_and_parse_vaa(&[1, 9, 77], parse, verify),
        Ok(77)
    );
    assert_eq!(
        bridge.verify_and_parse_vaa(&[2, 8, 78], parse, verify),
        Ok(78)
    );
}

#[test]
fn messages_are_refused_in_order() {
    let mut bridge = fresh();
    bridge.initialize(ADMIN).unwrap();
    bridge.set_guardian_set(ADMIN, set_of(1, 9)).unwrap();
    assert_eq!(
        bridge.verify_and_parse_vaa(&[1, 9], parse, verify),
        Err(Error::InvalidAmount)
    );
    assert_eq!(
        bridge.verify_and_parse_vaa(&[2, 9, 77], parse, verify),
        Err(Error::RootNotFound)
    );
    assert_eq!(
        bridge.verify_and_parse_vaa(&[1, 8, 77], parse, verify),
        Err(Error::Unauthorized)
    );
}

#[test]
fn an_unauthorized_bridge_call_changes_nothing() {
    let mut bridge = fresh();
    bridge.initialize(ADMIN).unwrap();
    bridge.auths = vec![OTHER];
    let before = bridge.clone();
    assert_eq!(bridge.try_set_guardian_set(ADMIN, set_of(1, 9)), None);
    assert_eq!(bridge, before);
    assert_eq!(
        bridge.try_set_guardian_set(OTHER, set_of(1, 9)),
        Some(Err(Error::Unauthorized))
    );
    bridge.auths.push(ADMIN);
    assert_eq!(
        bridge.try_set_guardian_set(ADMIN, set_of(1, 9)),
        Some(Ok(()))
    );
    assert_eq!(bridge.get_guardian_set(1), Some(&set_of(1, 9)));
}
