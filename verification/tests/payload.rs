use accensa_contracts::address::Address;
use accensa_contracts::multi_asset::{state_payload, MultiAssetState};
use accensa_contracts::sorted_map::SortedMap;
use soroban_sdk::testutils::EnvTestConfig;
use soroban_sdk::xdr::{AccountId, ContractId, PublicKey, ScAddress, ToXdr, Uint256};
use soroban_sdk::{Bytes, Env, TryFromVal};

fn ledger() -> Env {
    Env::new_with_config(EnvTestConfig {
        capture_snapshot_at_drop: false,
    })
}

fn on_ledger(env: &Env, address: &Address) -> soroban_sdk::Address {
    let value = match address {
        Address::Account(key) => {
            ScAddress::Account(AccountId(PublicKey::PublicKeyTypeEd25519(Uint256(*key))))
        }
        Address::Contract(id) => ScAddress::Contract(ContractId(soroban_sdk::xdr::Hash(*id))),
    };
    soroban_sdk::Address::try_from_val(env, &value).unwrap()
}

/// The payload as the ledger encodes its parts.
fn ledger_payload(
    contract: &Address,
    channel_id: u64,
    nonce: u64,
    balances: &[(Address, i128)],
) -> Vec<u8> {
    let env = ledger();
    let mut map: soroban_sdk::Map<soroban_sdk::Address, i128> = soroban_sdk::Map::new(&env);
    for (asset, balance) in balances.iter() {
        map.set(on_ledger(&env, asset), *balance);
    }
    let mut buf = Bytes::from_slice(&env, b"accensa-ma-channel-v1");
    buf.append(&on_ledger(&env, contract).to_xdr(&env));
    buf.extend_from_slice(&channel_id.to_be_bytes());
    buf.extend_from_slice(&nonce.to_be_bytes());
    buf.append(&map.to_xdr(&env));
    buf.iter().collect()
}

fn payload(
    contract: &Address,
    channel_id: u64,
    nonce: u64,
    balances: &[(Address, i128)],
) -> Vec<u8> {
    let mut map: SortedMap<Address, i128> = SortedMap::new();
    for (asset, balance) in balances.iter() {
        map.set(*asset, *balance);
    }
    state_payload(
        contract,
        channel_id,
        &MultiAssetState {
            nonce,
            balances: map,
        },
    )
}

fn samples() -> Vec<(Address, u64, u64, Vec<(Address, i128)>)> {
    let (account, contract) = (Address::Account([5; 32]), Address::Contract([6; 32]));
    vec![
        (contract, 1, 1, vec![]),
        (contract, 1, 2, vec![(contract, 0)]),
        (account, 0, u64::MAX, vec![(account, -1), (contract, 1)]),
        (
            contract,
            0x0102_0304_0506_0708,
            0x1112_1314_1516_1718,
            vec![
                (Address::Contract([0xff; 32]), i128::MAX),
                (Address::Contract([0x7f; 32]), i128::MIN),
                (Address::Contract([0x80; 32]), 1 << 64),
                (Address::Account([0xff; 32]), -(1 << 64)),
                (Address::Account([0; 32]), (1 << 64) - 1),
            ],
        ),
    ]
}

#[test]
fn the_payload_is_what_the_ledger_encodes() {
    for (contract, id, nonce, balances) in samples().iter() {
        assert_eq!(
            payload(contract, *id, *nonce, balances),
            ledger_payload(contract, *id, *nonce, balances)
        );
    }
}

#[test]
fn no_two_states_share_a_payload() {
    let all: Vec<Vec<u8>> = samples()
        .iter()
        .map(|(contract, id, nonce, balances)| payload(contract, *id, *nonce, balances))
        .collect();
    for i in 0..all.len() {
        for j in 0..i {
            assert_ne!(all[i], all[j]);
        }
    }
    let (a, b) = (Address::Contract([1; 32]), Address::Account([1; 32]));
    let base = payload(&a, 1, 1, &[(a, 1)]);
    assert_ne!(base, payload(&b, 1, 1, &[(a, 1)]));
    assert_ne!(base, payload(&a, 2, 1, &[(a, 1)]));
    assert_ne!(base, payload(&a, 1, 2, &[(a, 1)]));
    assert_ne!(base, payload(&a, 1, 1, &[(b, 1)]));
    assert_ne!(base, payload(&a, 1, 1, &[(a, 2)]));
}

#[test]
fn a_payload_has_known_bytes() {
    let contract = Address::Contract([0xaa; 32]);
    let token = Address::Account([0xbb; 32]);
    let mut expected: Vec<u8> = b"accensa-ma-channel-v1".to_vec();
    expected.extend_from_slice(&[0, 0, 0, 18, 0, 0, 0, 1]);
    expected.extend_from_slice(&[0xaa; 32]);
    expected.extend_from_slice(&[0, 0, 0, 0, 0, 0, 0, 3]);
    expected.extend_from_slice(&[0, 0, 0, 0, 0, 0, 1, 0]);
    expected.extend_from_slice(&[0, 0, 0, 17, 0, 0, 0, 1, 0, 0, 0, 1]);
    expected.extend_from_slice(&[0, 0, 0, 18, 0, 0, 0, 0, 0, 0, 0, 0]);
    expected.extend_from_slice(&[0xbb; 32]);
    expected.extend_from_slice(&[0, 0, 0, 10]);
    expected.extend_from_slice(&[0xff; 15]);
    expected.push(0xfe);
    assert_eq!(payload(&contract, 3, 256, &[(token, -2)]), expected);
}

#[test]
fn the_order_of_keys_is_the_ledgers() {
    let env = ledger();
    let addresses = [
        Address::Account([0; 32]),
        Address::Account([0xff; 32]),
        Address::Contract([0; 32]),
        Address::Contract([0x80; 32]),
        Address::Contract([0xff; 32]),
    ];
    for (i, a) in addresses.iter().enumerate() {
        for (j, b) in addresses.iter().enumerate() {
            assert_eq!(on_ledger(&env, a) < on_ledger(&env, b), i < j);
        }
    }
    let mut map: SortedMap<Address, usize> = SortedMap::new();
    for (i, address) in addresses.iter().enumerate().rev() {
        map.set(*address, i);
    }
    for i in 0..addresses.len() {
        assert_eq!(*map.entry(i), (addresses[i], i));
    }
}
