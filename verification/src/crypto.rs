//! Canonical Ed25519 signature checks.
//!
//! An Ed25519 signature is `R || s`, where `s` is a scalar that must be
//! reduced modulo the prime group order
//! `L = 2^252 + 27742317777372353535851937790883648493`. The verification
//! equation only depends on `s mod L`, so `(R, s + L)` would verify under a
//! lenient verifier wherever `(R, s)` does. Every signature is required to
//! carry a canonical `s < L` before it is verified.

use ed25519_dalek::{Signature, VerifyingKey};
use vstd::arithmetic::power2::*;
use vstd::prelude::*;

use crate::error::Error;

verus! {

/// The Ed25519 group order `L`, little-endian (the encoding `s` uses).
pub const ED25519_ORDER_LE: [u8; 32] = [
    0xed, 0xd3, 0xf5, 0x5c, 0x1a, 0x63, 0x12, 0x58, 0xd6, 0x9c, 0xf7, 0xa2, 0xde, 0xf9, 0xde, 0x14,
    0x00, 0x00, 0x00, 0x00, 0x00, 0x00, 0x00, 0x00, 0x00, 0x00, 0x00, 0x00, 0x00, 0x00, 0x00, 0x10,
];

/// The group order `L`.
pub open spec fn group_order() -> nat {
    pow2(252) + 27742317777372353535851937790883648493nat
}

/// The number that a little-endian byte string encodes.
pub open spec fn le_value(s: Seq<u8>) -> nat
    decreases s.len(),
{
    if s.len() == 0 {
        0
    } else {
        s[0] as nat + 256 * le_value(s.skip(1))
    }
}

/// The little-endian scalar `s` is strictly below the group order.
pub open spec fn canonical(s: Seq<u8>) -> bool {
    le_value(s) < group_order()
}

/// The `s` half of a signature.
pub open spec fn s_half(signature: Seq<u8>) -> Seq<u8> {
    signature.subrange(32, 64)
}

/// The most significant byte in which two numbers differ decides.
proof fn lemma_le_value_order(a: Seq<u8>, b: Seq<u8>, k: int)
    requires
        a.len() == b.len(),
        0 <= k < a.len(),
        a[k] < b[k],
        forall|j: int| k < j < a.len() ==> a[j] == b[j],
    ensures
        le_value(a) < le_value(b),
    decreases k,
{
    let x = a.skip(1);
    let y = b.skip(1);
    if k == 0 {
        assert(x =~= y);
    } else {
        lemma_le_value_order(x, y, k - 1);
    }
}

/// Byte strings of one length that encode one number are the same.
pub proof fn lemma_le_value_injective(a: Seq<u8>, b: Seq<u8>)
    requires
        a.len() == b.len(),
        le_value(a) == le_value(b),
    ensures
        a == b,
    decreases a.len(),
{
    if a.len() > 0 {
        lemma_le_value_injective(a.skip(1), b.skip(1));
        assert forall|i: int| 0 <= i < a.len() implies a[i] == b[i] by {
            if i > 0 {
                assert(a.skip(1)[i - 1] == b.skip(1)[i - 1]);
            }
        }
    }
    assert(a =~= b);
}

/// The number that the bytes from position `k` on encode.
proof fn lemma_le_suffix(s: Seq<u8>, k: int)
    requires
        0 <= k < s.len(),
    ensures
        le_value(s.skip(k)) == s[k] as nat + 256 * le_value(s.skip(k + 1)),
{
    assert(s.skip(k).skip(1) =~= s.skip(k + 1));
}

/// The constant encodes the group order.
proof fn lemma_order_value()
    ensures
        le_value(ED25519_ORDER_LE@) == group_order(),
{
    let l = ED25519_ORDER_LE@;
    assert(pow2(252) == 0x1000000000000000000000000000000000000000000000000000000000000000nat) by {
        lemma2_to64_rest();
        lemma_pow2_adds(63, 63);
        assert(pow2(126) == 0x40000000000000000000000000000000nat);
        lemma_pow2_adds(126, 126);
    }
    assert forall|k: int| 0 <= k < 32 implies le_value(#[trigger] l.skip(k)) == l[k] as nat + 256
        * le_value(l.skip(k + 1)) by {
        lemma_le_suffix(l, k);
    }
    assert(l.skip(0) =~= l);
    assert(l.skip(32).len() == 0);
}

/// True if the little-endian scalar `s` is strictly below the group order.
pub fn is_canonical_scalar(s: &[u8; 32]) -> (below: bool)
    ensures
        below == canonical(s@),
{
    let order: [u8; 32] = ED25519_ORDER_LE;
    proof {
        lemma_order_value();
    }
    // Compare from the most significant byte down.
    let mut i: usize = 32;
    while i > 0
        invariant
            i <= 32,
            order == ED25519_ORDER_LE,
            le_value(order@) == group_order(),
            forall|j: int| i <= j < 32 ==> s@[j] == order@[j],
        decreases i,
    {
        i -= 1;
        if s[i] != order[i] {
            proof {
                if s@[i as int] < order@[i as int] {
                    lemma_le_value_order(s@, order@, i as int);
                } else {
                    lemma_le_value_order(order@, s@, i as int);
                }
            }
            return s[i] < order[i];
        }
    }
    // s == L
    assert(s@ =~= order@);
    false
}

/// Reject a signature whose `s` half (bytes 32..64) is not canonical.
pub fn ensure_canonical_signature(signature: &[u8; 64]) -> (checked: Result<(), Error>)
    ensures
        checked == if canonical(s_half(signature@)) {
            Ok::<(), Error>(())
        } else {
            Err(Error::NonCanonicalSignature)
        },
{
    let mut s = [0u8; 32];
    let mut i: usize = 0;
    while i < 32
        invariant
            i <= 32,
            forall|j: int| 0 <= j < i ==> s@[j] == signature@[32 + j],
        decreases 32 - i,
    {
        s[i] = signature[32 + i];
        i += 1;
    }
    assert(s@ =~= s_half(signature@));
    if is_canonical_scalar(&s) {
        Ok(())
    } else {
        Err(Error::NonCanonicalSignature)
    }
}

/// `signature` is a strict Ed25519 signature of `message` under `public_key`.
pub uninterp spec fn ed25519_valid(
    public_key: Seq<u8>,
    message: Seq<u8>,
    signature: Seq<u8>,
) -> bool;

/// `ed25519_dalek::VerifyingKey::from_bytes` and `VerifyingKey::verify_strict`:
/// whether the key decodes and the signature verifies is a function of the
/// three byte strings alone.
#[verifier::external_body]
pub(crate) fn ed25519_verify(public_key: &[u8; 32], message: &[u8], signature: &[u8; 64]) -> (valid:
    bool)
    ensures
        valid == ed25519_valid(public_key@, message@, signature@),
{
    match VerifyingKey::from_bytes(public_key) {
        Ok(key) => key.verify_strict(message, &Signature::from_bytes(signature)).is_ok(),
        Err(_) => false,
    }
}

/// Canonical-check `signature`, then accept it as verified. The call traps on
/// an invalid signature, so a canonical one has to be valid here;
/// [`try_verify_ed25519_canonical`] is for signatures of which that is not known.
pub fn verify_ed25519_canonical(
    public_key: &[u8; 32],
    message: &[u8],
    signature: &[u8; 64],
) -> (checked: Result<(), Error>)
    requires
        canonical(s_half(signature@)) ==> ed25519_valid(public_key@, message@, signature@),
    ensures
        checked == if canonical(s_half(signature@)) {
            Ok::<(), Error>(())
        } else {
            Err(Error::NonCanonicalSignature)
        },
{
    match ensure_canonical_signature(signature) {
        Err(error) => Err(error),
        Ok(()) => if ed25519_verify(public_key, message, signature) {
            Ok(())
        } else {
            vstd::pervasive::unreached()
        },
    }
}

/// [`verify_ed25519_canonical`] for any signature: `None` is the trap that a
/// canonical but invalid signature runs into.
pub fn try_verify_ed25519_canonical(
    public_key: &[u8; 32],
    message: &[u8],
    signature: &[u8; 64],
) -> (outcome: Option<Result<(), Error>>)
    ensures
        outcome == if !canonical(s_half(signature@)) {
            Some(Err::<(), Error>(Error::NonCanonicalSignature))
        } else if ed25519_valid(public_key@, message@, signature@) {
            Some(Ok(()))
        } else {
            None
        },
{
    match ensure_canonical_signature(signature) {
        Err(error) => Some(Err(error)),
        Ok(()) => if ed25519_verify(public_key, message, signature) {
            Some(verify_ed25519_canonical(public_key, message, signature))
        } else {
            None
        },
    }
}

/// Adding the group order to a scalar never gives a canonical one.
pub proof fn law_malleated_scalar_rejected(s: Seq<u8>, twin: Seq<u8>)
    requires
        le_value(twin) == le_value(s) + group_order(),
    ensures
        !canonical(twin),
{
}

/// Of all scalars that verify alike, exactly one encoding is canonical.
pub proof fn law_canonical_scalar_unique(a: Seq<u8>, b: Seq<u8>)
    requires
        a.len() == 32,
        b.len() == 32,
        canonical(a),
        canonical(b),
        le_value(a) % group_order() == le_value(b) % group_order(),
    ensures
        a == b,
{
    vstd::arithmetic::div_mod::lemma_small_mod(le_value(a), group_order());
    vstd::arithmetic::div_mod::lemma_small_mod(le_value(b), group_order());
    lemma_le_value_injective(a, b);
}

/// A scalar is canonical exactly when the number that it encodes is below the
/// group order, written out.
pub proof fn law_canonical_iff(s: Seq<u8>)
    ensures
        canonical(s) <==> le_value(s)
            < 0x1000000000000000000000000000000014def9dea2f79cd65812631a5cf5d3ednat,
{
    assert(pow2(252) == 0x1000000000000000000000000000000000000000000000000000000000000000nat) by {
        lemma2_to64_rest();
        lemma_pow2_adds(63, 63);
        assert(pow2(126) == 0x40000000000000000000000000000000nat);
        lemma_pow2_adds(126, 126);
    }
}

/// The byte behind `n` others counts `2^(8 n)` times its value.
pub proof fn law_le_value_grows(s: Seq<u8>, high: u8)
    ensures
        le_value(Seq::empty()) == 0,
        le_value(s.push(high)) == le_value(s) + high * pow2(8 * s.len()),
    decreases s.len(),
{
    let t = s.push(high);
    lemma2_to64();
    if s.len() == 0 {
        assert(t.skip(1) =~= Seq::empty());
        assert(pow2(0) == 1);
        assert(high * pow2(8 * s.len()) == high) by {
            assert(8 * s.len() == 0);
        }
    } else {
        let below = s.skip(1);
        law_le_value_grows(below, high);
        assert(t.skip(1) =~= below.push(high));
        lemma_pow2_adds(8, 8 * below.len());
        assert(8 + 8 * below.len() == 8 * s.len());
        assert(pow2(8) == 256);
        assert(256 * (high * pow2(8 * below.len())) == high * (256 * pow2(8 * below.len())))
            by (nonlinear_arith);
    }
}

/// The `s` half of a signature is its last 32 bytes.
pub proof fn law_s_half(signature: Seq<u8>, i: int)
    requires
        signature.len() == 64,
        0 <= i < 32,
    ensures
        s_half(signature).len() == 32,
        s_half(signature)[i] == signature[32 + i],
{
}

} // verus!
