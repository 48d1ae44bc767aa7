use accensa_contracts::address::{same_address, Address};
use accensa_contracts::xdr::{decode_address, encode_address};

#[test]
fn addresses_are_read_back() {
    for address in [
        Address::Account([0; 32]),
        Address::Account([0xab; 32]),
        Address::Contract([0; 32]),
        Address::Contract([0xab; 32]),
    ] {
        let data = encode_address(&address);
        assert_eq!(decode_address(&data), Some(address));
        assert_eq!(decode_address(&data[..data.len() - 1]), None);
        for i in 0..8 {
            let mut wrong = data.clone();
            wrong[i] ^= 2;
            assert_eq!(decode_address(&wrong), None);
        }
    }
    assert_eq!(decode_address(&[]), None);
}

#[test]
fn an_account_is_no_contract() {
    let (a, b) = (Address::Account([7; 32]), Address::Contract([7; 32]));
    assert!(same_address(&a, &a));
    assert!(!same_address(&a, &b));
    assert_ne!(encode_address(&a), encode_address(&b));
}
