use accensa_contracts::crypto::{
    ensure_canonical_signature, is_canonical_scalar, try_verify_ed25519_canonical,
    verify_ed25519_canonical, ED25519_ORDER_LE,
};
use accensa_contracts::error::Error;
use ed25519_dalek::{Signer, SigningKey};

/// Little-endian 256-bit addition (no overflow for the values used here).
fn add_le(a: &[u8; 32], b: &[u8; 32]) -> [u8; 32] {
    let mut out = [0u8; 32];
    let mut carry: u16 = 0;
    for i in 0..32 {
        let sum: u16 = a[i] as u16 + b[i] as u16 + carry;
        out[i] = sum as u8;
        carry = sum >> 8;
    }
    out
}

/// `(public_key, message, signature)` for a fixed key and message.
fn signed() -> ([u8; 32], Vec<u8>, [u8; 64]) {
    let sk = SigningKey::from_bytes(&[7u8; 32]);
    let msg = b"accensa multisig payload";
    let sig = sk.sign(msg).to_bytes();
    (sk.verifying_key().to_bytes(), msg.to_vec(), sig)
}

/// `(R, s + L)`: the classic malleated twin of a valid signature.
fn malleate(sig: &[u8; 64]) -> [u8; 64] {
    let mut s = [0u8; 32];
    s.copy_from_slice(&sig[32..]);
    let mut out = *sig;
    out[32..].copy_from_slice(&add_le(&s, &ED25519_ORDER_LE));
    out
}

#[test]
fn scalar_boundaries() {
    let mut l_minus_one = ED25519_ORDER_LE;
    l_minus_one[0] -= 1;
    let mut l_plus_one = ED25519_ORDER_LE;
    l_plus_one[0] += 1;

    assert!(is_canonical_scalar(&[0u8; 32]));
    assert!(is_canonical_scalar(&l_minus_one));
    assert!(!is_canonical_scalar(&ED25519_ORDER_LE));
    assert!(!is_canonical_scalar(&l_plus_one));
    assert!(!is_canonical_scalar(&[0xff; 32]));
}

#[test]
fn valid_signature_verifies() {
    let (pk, msg, sig) = signed();
    assert!(is_canonical_scalar(&sig[32..].try_into().unwrap()));
    assert_eq!(verify_ed25519_canonical(&pk, &msg, &sig), Ok(()));
    assert_eq!(try_verify_ed25519_canonical(&pk, &msg, &sig), Some(Ok(())));
}

#[test]
fn malleated_signature_is_rejected() {
    let (pk, msg, sig) = signed();
    let malleated = malleate(&sig);
    assert_eq!(
        verify_ed25519_canonical(&pk, &msg, &malleated),
        Err(Error::NonCanonicalSignature)
    );
    assert_eq!(
        try_verify_ed25519_canonical(&pk, &msg, &malleated),
        Some(Err(Error::NonCanonicalSignature))
    );
}

#[test]
fn s_equal_to_order_is_rejected() {
    let (pk, msg, sig) = signed();
    let mut forged = sig;
    forged[32..].copy_from_slice(&ED25519_ORDER_LE);
    assert_eq!(
        verify_ed25519_canonical(&pk, &msg, &forged),
        Err(Error::NonCanonicalSignature)
    );
}

#[test]
#[should_panic]
fn canonical_but_invalid_signature_traps() {
    let (pk, msg, mut sig) = signed();
    sig[0] ^= 0x01;
    let _ = verify_ed25519_canonical(&pk, &msg, &sig);
}

#[test]
fn a_trap_is_told_apart_from_a_refusal() {
    let (pk, msg, sig) = signed();
    let mut wrong_r = sig;
    wrong_r[0] ^= 0x01;
    assert_eq!(try_verify_ed25519_canonical(&pk, &msg, &wrong_r), None);

    let mut wrong_message = msg.clone();
    wrong_message.push(0);
    assert_eq!(
        try_verify_ed25519_canonical(&pk, &wrong_message, &sig),
        None
    );

    let other = SigningKey::from_bytes(&[8u8; 32])
        .verifying_key()
        .to_bytes();
    assert_eq!(try_verify_ed25519_canonical(&other, &msg, &sig), None);
}

#[test]
fn only_the_s_half_decides_canonicity() {
    let mut sig = [0xffu8; 64];
    assert_eq!(
        ensure_canonical_signature(&sig),
        Err(Error::NonCanonicalSignature)
    );
    sig[32..].copy_from_slice(&[0u8; 32]);
    assert_eq!(ensure_canonical_signature(&sig), Ok(()));
}

#[test]
fn a_smaller_high_byte_outweighs_larger_low_bytes() {
    let mut s = [0xffu8; 32];
    s[31] = 0x0f;
    assert!(is_canonical_scalar(&s));
    let mut t = [0u8; 32];
    t[31] = 0x11;
    assert!(!is_canonical_scalar(&t));
}
