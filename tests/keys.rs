use safetalk_core::{
    base64_decode, base64_encode, create_pre_key_bundle, random_bytes, CryptoError, IdentityKeyPair,
    PreKeyBundle, SignedPreKey, X25519KeyPair,
};

fn hex(s: &str) -> Vec<u8> {
    (0..s.len()).step_by(2).map(|i| u8::from_str_radix(&s[i..i + 2], 16).unwrap()).collect()
}

#[test]
fn test_identity_keypair() {
    let keypair = IdentityKeyPair::new();
    let message = b"test message";
    let signature = keypair.sign(message);

    assert!(IdentityKeyPair::verify_signature(&keypair.public_key_bytes(), message, &signature));
}

#[test]
fn test_x25519_dh() {
    let alice = X25519KeyPair::new();
    let bob = X25519KeyPair::new();

    let alice_shared = alice.diffie_hellman(&bob.public_key_bytes()).unwrap();
    let bob_shared = bob.diffie_hellman(&alice.public_key_bytes()).unwrap();

    assert_eq!(alice_shared, bob_shared);
}

#[test]
fn signature_known_answer() {
    let keypair = IdentityKeyPair::from_bytes(&[0x11u8; 32]).unwrap();
    assert_eq!(
        keypair.public_key_bytes(),
        hex("d04ab232742bb4ab3a1368bd4615e4e6d0224ab71a016baf8520a332c9778737")
    );
    let sig = keypair.sign(b"test message");
    assert_eq!(
        sig,
        hex("f77feacf05a75b7028b640388cab204e17e00ad73c8236ae5b280781dde927ae2622f8cfc48d8d8f1cf01edf226f294234922346c3e4421322380abacd068008")
    );
    assert_eq!(keypair.private_key_bytes(), vec![0x11u8; 32]);
}

#[test]
fn mutated_message_or_signature_does_not_verify() {
    let keypair = IdentityKeyPair::from_bytes(&[0x22u8; 32]).unwrap();
    let public = keypair.public_key_bytes();
    let sig = keypair.sign(b"hello");
    assert!(IdentityKeyPair::verify_signature(&public, b"hello", &sig));
    assert!(!IdentityKeyPair::verify_signature(&public, b"hellp", &sig));
    let mut bad = sig.clone();
    bad[5] ^= 0x01;
    assert!(!IdentityKeyPair::verify_signature(&public, b"hello", &bad));
}

#[test]
fn malformed_verification_inputs_give_false() {
    let keypair = IdentityKeyPair::new();
    let sig = keypair.sign(b"m");
    assert!(!IdentityKeyPair::verify_signature(&keypair.public_key_bytes()[..31], b"m", &sig));
    assert!(!IdentityKeyPair::verify_signature(&keypair.public_key_bytes(), b"m", &sig[..63]));
}

#[test]
fn key_pairs_reject_wrong_lengths() {
    assert_eq!(IdentityKeyPair::from_bytes(&[1u8; 31]).err(), Some(CryptoError::Malformed));
    assert_eq!(X25519KeyPair::from_bytes(&[1u8; 33]).err(), Some(CryptoError::Malformed));
    let pair = X25519KeyPair::from_bytes(&[1u8; 32]).unwrap();
    assert_eq!(pair.diffie_hellman(&[0u8; 16]).unwrap_err(), CryptoError::Malformed);
}

#[test]
fn restored_pairs_agree_with_fixed_secrets() {
    let alice = X25519KeyPair::from_bytes(&[0x33u8; 32]).unwrap();
    let bob = X25519KeyPair::from_bytes(&[0x44u8; 32]).unwrap();
    assert_eq!(alice.private_key_bytes(), vec![0x33u8; 32]);
    let ab = alice.diffie_hellman(&bob.public_key_bytes()).unwrap();
    let ba = bob.diffie_hellman(&alice.public_key_bytes()).unwrap();
    assert_eq!(ab, ba);
    assert_eq!(ab.len(), 32);
    assert_ne!(alice.public_key_bytes(), vec![0x33u8; 32]);
}

#[test]
fn base64_encodings() {
    assert_eq!(base64_encode(b"hello"), "aGVsbG8=");
    assert_eq!(base64_decode("aGVsbG8=").unwrap(), b"hello".to_vec());
    assert_eq!(base64_decode("aGVsbG8").unwrap_err(), CryptoError::Malformed);
    assert_eq!(base64_decode("!!!!").unwrap_err(), CryptoError::Malformed);
    let keypair = IdentityKeyPair::from_bytes(&[0x11u8; 32]).unwrap();
    assert_eq!(keypair.public_key_base64(), "0EqyMnQrtKs6E2i9RhXk5tAiSrcaAWuvhSCjMsl3hzc=");
    assert_eq!(base64_decode(&keypair.public_key_base64()).unwrap(), keypair.public_key_bytes());
}

#[test]
fn random_bytes_have_the_asked_length() {
    assert_eq!(random_bytes(0).len(), 0);
    assert_eq!(random_bytes(48).len(), 48);
}

#[test]
fn bundle_keeps_one_time_prekey_only_with_both_parts() {
    let with = create_pre_key_bundle(&[1u8; 32], 7, &[2u8; 32], &[3u8; 64], 1000, Some(9), Some(vec![4u8; 32]));
    assert_eq!(with.identity_key, vec![1u8; 32]);
    assert_eq!(with.signed_pre_key.key_id, 7);
    assert_eq!(with.signed_pre_key.timestamp, 1000);
    let otpk = with.one_time_pre_key.as_ref().unwrap();
    assert_eq!(otpk.key_id, 9);
    assert_eq!(otpk.public_key, vec![4u8; 32]);
    let without = create_pre_key_bundle(&[1u8; 32], 7, &[2u8; 32], &[3u8; 64], 1000, Some(9), None);
    assert!(without.one_time_pre_key.is_none());
    let spk = SignedPreKey { key_id: 1, public_key: vec![5u8; 32], signature: vec![6u8; 64], timestamp: 2 };
    let bundle = PreKeyBundle::new(vec![0xffu8; 32], spk, None);
    assert_eq!(bundle.identity_key_base64(), base64_encode(&[0xffu8; 32]));
}
