//! The XDR encoding of the values that a signed payload holds.

use soroban_sdk::xdr::{
    AccountId, ContractId, Limits, PublicKey, ScAddress, ScMap, ScMapEntry, ScVal, Uint256,
    WriteXdr,
};
use vstd::arithmetic::power2::*;
use vstd::prelude::*;

use crate::address::Address;
use crate::bytes;

verus! {

/// An address value: its kind, then its 32 bytes.
pub open spec fn xdr_address(address: Address) -> Seq<u8> {
    match address {
        Address::Account(key) => seq![0u8, 0, 0, 18, 0, 0, 0, 0, 0, 0, 0, 0] + key@,
        Address::Contract(id) => seq![0u8, 0, 0, 18, 0, 0, 0, 1] + id@,
    }
}

/// The number that stands for `value` in sixteen bytes, in two's complement.
pub open spec fn twos_complement(value: i128) -> nat {
    (if value >= 0 {
        value as int
    } else {
        value + 0x1_0000_0000_0000_0000_0000_0000_0000_0000
    }) as nat
}

/// A 128-bit integer value: sixteen bytes in two's complement.
pub open spec fn xdr_i128(value: i128) -> Seq<u8> {
    seq![0u8, 0, 0, 10] + bytes::be_bytes(twos_complement(value), 16)
}

/// The entries of a map value, each the key and then its value.
pub open spec fn xdr_entries(entries: Seq<(Address, i128)>) -> Seq<u8>
    decreases entries.len(),
{
    if entries.len() == 0 {
        seq![]
    } else {
        xdr_address(entries[0].0) + xdr_i128(entries[0].1) + xdr_entries(entries.skip(1))
    }
}

/// A map value: the number of entries, then the entries.
pub open spec fn xdr_balances(entries: Seq<(Address, i128)>) -> Seq<u8> {
    seq![0u8, 0, 0, 17, 0, 0, 0, 1] + bytes::be_bytes(entries.len(), 4) + xdr_entries(entries)
}

/// `soroban_sdk::xdr::WriteXdr::to_xdr` on an address value: the bytes are
/// those of [`xdr_address`].
#[verifier::external_body]
pub(crate) fn address_to_xdr(address: &Address) -> (out: Vec<u8>)
    ensures
        out@ == xdr_address(*address),
{
    let value = match address {
        Address::Account(key) => ScAddress::Account(
            AccountId(PublicKey::PublicKeyTypeEd25519(Uint256(*key))),
        ),
        Address::Contract(id) => ScAddress::Contract(ContractId(soroban_sdk::xdr::Hash(*id))),
    };
    ScVal::Address(value).to_xdr(Limits::none()).unwrap()
}

/// `soroban_sdk::xdr::WriteXdr::to_xdr` on a map value from addresses to
/// 128-bit integers: the bytes are those of [`xdr_balances`]. A map value has
/// at most `u32::MAX` entries.
#[verifier::external_body]
pub(crate) fn balances_to_xdr(entries: &Vec<(Address, i128)>) -> (out: Vec<u8>)
    requires
        entries@.len() <= u32::MAX,
    ensures
        out@ == xdr_balances(entries@),
{
    let values: Vec<ScMapEntry> = entries.iter().map(|(asset, balance)| ScMapEntry {
        key: ScVal::Address(match asset {
            Address::Account(key) => ScAddress::Account(
                AccountId(PublicKey::PublicKeyTypeEd25519(Uint256(*key))),
            ),
            Address::Contract(id) => ScAddress::Contract(ContractId(soroban_sdk::xdr::Hash(*id))),
        }),
        val: ScVal::from(*balance),
    }).collect();
    ScVal::Map(Some(ScMap(values.try_into().unwrap()))).to_xdr(Limits::none()).unwrap()
}

/// The encoding of an address.
pub fn encode_address(address: &Address) -> (out: Vec<u8>)
    ensures
        out@ == xdr_address(*address),
{
    address_to_xdr(address)
}

/// The 32 bytes of `data` from position `from` on.
fn take_32(data: &[u8], from: usize) -> (out: [u8; 32])
    requires
        from + 32 <= data@.len(),
    ensures
        out@ == data@.subrange(from as int, from + 32),
{
    let len: usize = data.len();
    let mut out = [0u8; 32];
    let mut i: usize = 0;
    while i < 32
        invariant
            i <= 32,
            from + 32 <= len,
            len == data@.len(),
            forall|j: int| 0 <= j < i ==> out@[j] == data@[from + j],
        decreases 32 - i,
    {
        out[i] = data[from + i];
        i += 1;
    }
    assert(out@ =~= data@.subrange(from as int, from + 32));
    out
}

/// The address that `data` encodes, if it encodes one.
pub fn decode_address(data: &[u8]) -> (address: Option<Address>)
    ensures
        match address {
            Some(address) => data@ == xdr_address(address),
            None => forall|address: Address| data@ != #[trigger] xdr_address(address),
        },
{
    if data.len() < 40 || data[0] != 0 || data[1] != 0 || data[2] != 0 || data[3] != 18 || data[4]
        != 0 || data[5] != 0 || data[6] != 0 {
        return None;
    }
    if data.len() == 44 && data[7] == 0 && data[8] == 0 && data[9] == 0 && data[10] == 0 && data[11]
        == 0 {
        let key = take_32(data, 12);
        assert(data@ =~= xdr_address(Address::Account(key)));
        return Some(Address::Account(key));
    }
    if data.len() == 40 && data[7] == 1 {
        let id = take_32(data, 8);
        assert(data@ =~= xdr_address(Address::Contract(id)));
        return Some(Address::Contract(id));
    }
    None
}

/// Two encodings that start alike start with the same address.
pub proof fn lemma_address_prefix(a: Address, b: Address, x: Seq<u8>, y: Seq<u8>)
    requires
        xdr_address(a) + x == xdr_address(b) + y,
    ensures
        a == b,
        x == y,
{
    let p = xdr_address(a);
    let q = xdr_address(b);
    let whole = p + x;
    assert(whole[7] == p[7]);
    assert(whole[7] == q[7]);
    assert(p.len() == q.len());
    assert(p =~= whole.take(p.len() as int));
    assert(q =~= whole.take(p.len() as int));
    assert(x =~= whole.skip(p.len() as int));
    assert(y =~= whole.skip(p.len() as int));
    match (a, b) {
        (Address::Account(k), Address::Account(l)) => {
            assert(k@ =~= p.skip(12));
            assert(l@ =~= p.skip(12));
            assert(k =~= l);
        },
        (Address::Contract(k), Address::Contract(l)) => {
            assert(k@ =~= p.skip(8));
            assert(l@ =~= p.skip(8));
            assert(k =~= l);
        },
        _ => {},
    }
}

/// Every address is read back from its own encoding, and from no other's.
pub proof fn law_address_read_back(a: Address, b: Address)
    ensures
        xdr_address(a) == xdr_address(b) <==> a == b,
{
    if xdr_address(a) == xdr_address(b) {
        assert(xdr_address(a) + seq![] =~= xdr_address(b) + seq![]);
        lemma_address_prefix(a, b, seq![], seq![]);
    }
}

/// Integers are told apart by their encodings.
proof fn lemma_i128_injective(a: i128, b: i128)
    requires
        xdr_i128(a) == xdr_i128(b),
    ensures
        a == b,
{
    let x = twos_complement(a);
    let y = twos_complement(b);
    assert(bytes::be_bytes(x, 16) =~= xdr_i128(a).skip(4));
    assert(bytes::be_bytes(y, 16) =~= xdr_i128(b).skip(4));
    assert(bytes::byte_range(16) == 0x1_0000_0000_0000_0000_0000_0000_0000_0000) by {
        reveal_with_fuel(bytes::byte_range, 17);
    }
    bytes::lemma_be_bytes_injective(x, y, 16);
}

proof fn lemma_entries_injective(a: Seq<(Address, i128)>, b: Seq<(Address, i128)>)
    requires
        a.len() == b.len(),
        xdr_entries(a) == xdr_entries(b),
    ensures
        a == b,
    decreases a.len(),
{
    if a.len() > 0 {
        let (x, y) = (xdr_i128(a[0].1), xdr_i128(b[0].1));
        let (s, t) = (xdr_entries(a.skip(1)), xdr_entries(b.skip(1)));
        assert(xdr_entries(a) =~= xdr_address(a[0].0) + (x + s));
        assert(xdr_entries(b) =~= xdr_address(b[0].0) + (y + t));
        lemma_address_prefix(a[0].0, b[0].0, x + s, y + t);
        lemma_i128_len(a[0].1);
        lemma_i128_len(b[0].1);
        assert(x =~= (x + s).take(20));
        assert(y =~= (y + t).take(20));
        lemma_i128_injective(a[0].1, b[0].1);
        assert(s =~= (x + s).skip(20));
        assert(t =~= (y + t).skip(20));
        lemma_entries_injective(a.skip(1), b.skip(1));
        assert forall|i: int| 0 <= i < a.len() implies a[i] == b[i] by {
            if i > 0 {
                assert(a.skip(1)[i - 1] == b.skip(1)[i - 1]);
            }
        }
    }
    assert(a =~= b);
}

proof fn lemma_i128_len(value: i128)
    ensures
        xdr_i128(value).len() == 20,
{
    bytes::lemma_be_bytes_len(twos_complement(value), 16);
}

/// Balances are told apart by their encodings.
pub proof fn lemma_balances_injective(a: Seq<(Address, i128)>, b: Seq<(Address, i128)>)
    requires
        a.len() <= u32::MAX,
        b.len() <= u32::MAX,
        xdr_balances(a) == xdr_balances(b),
    ensures
        a == b,
{
    bytes::lemma_be_bytes_len(a.len(), 4);
    bytes::lemma_be_bytes_len(b.len(), 4);
    assert(bytes::be_bytes(a.len(), 4) =~= xdr_balances(a).subrange(8, 12));
    assert(bytes::be_bytes(b.len(), 4) =~= xdr_balances(b).subrange(8, 12));
    assert(bytes::byte_range(4) == 0x1_0000_0000) by {
        reveal_with_fuel(bytes::byte_range, 5);
    }
    bytes::lemma_be_bytes_injective(a.len(), b.len(), 4);
    assert(xdr_entries(a) =~= xdr_balances(a).skip(12));
    assert(xdr_entries(b) =~= xdr_balances(b).skip(12));
    lemma_entries_injective(a, b);
}

/// The bytes of an address: the type of the value, the kind of the address, the
/// type of the key where it is an account, and then the 32 bytes themselves.
pub proof fn law_address_bytes(id: [u8; 32], i: int)
    requires
        0 <= i < 32,
    ensures
        xdr_address(Address::Account(id)).len() == 44,
        xdr_address(Address::Account(id)).take(12) == seq![0u8, 0, 0, 18, 0, 0, 0, 0, 0, 0, 0, 0],
        xdr_address(Address::Account(id))[12 + i] == id@[i],
        xdr_address(Address::Contract(id)).len() == 40,
        xdr_address(Address::Contract(id)).take(8) == seq![0u8, 0, 0, 18, 0, 0, 0, 1],
        xdr_address(Address::Contract(id))[8 + i] == id@[i],
{
    assert(xdr_address(Address::Account(id)).take(12) =~= seq![
        0u8,
        0,
        0,
        18,
        0,
        0,
        0,
        0,
        0,
        0,
        0,
        0,
    ]);
    assert(xdr_address(Address::Contract(id)).take(8) =~= seq![0u8, 0, 0, 18, 0, 0, 0, 1]);
}

/// The bytes of a 128-bit integer: the type of the value, and then the sixteen
/// digits of the number itself or, where it is negative, of `2^128` more.
pub proof fn law_i128_bytes(value: i128, i: int)
    requires
        0 <= i < 16,
    ensures
        ({
            let number = if value >= 0 {
                value as int
            } else {
                value + pow2(128)
            };
            &&& xdr_i128(value).len() == 20
            &&& xdr_i128(value).take(4) == seq![0u8, 0, 0, 10]
            &&& xdr_i128(value)[4 + i] == (number / pow2((8 * (15 - i)) as nat) as int) % 256
        }),
{
    assert(pow2(128) == 0x1_0000_0000_0000_0000_0000_0000_0000_0000) by {
        lemma2_to64();
        lemma_pow2_adds(64, 64);
    }
    lemma_i128_len(value);
    bytes::law_be_digits(twos_complement(value), 16, i);
    assert(xdr_i128(value).take(4) =~= seq![0u8, 0, 0, 10]);
}

/// The bytes of a map of balances: the type of the value, its presence, the
/// number of entries in four bytes, and the entries one after the other, each an
/// address and a 128-bit integer.
pub proof fn law_balances_bytes(
    first: (Address, i128),
    rest: Seq<(Address, i128)>,
    entries: Seq<(Address, i128)>,
)
    ensures
        xdr_entries(Seq::empty()) == Seq::<u8>::empty(),
        xdr_entries(seq![first] + rest) == xdr_address(first.0) + xdr_i128(first.1) + xdr_entries(
            rest,
        ),
        xdr_balances(entries).take(8) == seq![0u8, 0, 0, 17, 0, 0, 0, 1],
        xdr_balances(entries).subrange(8, 12) == bytes::be_bytes(entries.len(), 4),
        xdr_balances(entries).skip(12) == xdr_entries(entries),
{
    assert((seq![first] + rest).skip(1) =~= rest);
    bytes::lemma_be_bytes_len(entries.len(), 4);
    assert(xdr_balances(entries).take(8) =~= seq![0u8, 0, 0, 17, 0, 0, 0, 1]);
    assert(xdr_balances(entries).subrange(8, 12) =~= bytes::be_bytes(entries.len(), 4));
    assert(xdr_balances(entries).skip(12) =~= xdr_entries(entries));
}

} // verus!
