use accensa_contracts::address::Address;
use accensa_contracts::auth::has_authorized;

#[test]
fn only_listed_addresses_have_authorized() {
    let (a, b) = (Address::Account([1; 32]), Address::Contract([1; 32]));
    assert!(!has_authorized(&vec![], &a));
    assert!(has_authorized(&vec![b, a], &a));
    assert!(!has_authorized(&vec![b, b], &a));
}
