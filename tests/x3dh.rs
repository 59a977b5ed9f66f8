use safetalk_core::convert::{ed25519_private_to_x25519_private, ed25519_public_to_x25519_public};
use safetalk_core::{sign_pre_key, CryptoError, IdentityKeyPair, X25519KeyPair, X3DH};

fn hex(s: &str) -> Vec<u8> {
    (0..s.len()).step_by(2).map(|i| u8::from_str_radix(&s[i..i + 2], 16).unwrap()).collect()
}

#[test]
fn test_x3dh_key_exchange() {
    let alice_identity = IdentityKeyPair::new();

    let bob_identity = IdentityKeyPair::new();
    let bob_signed_prekey = X25519KeyPair::new();
    let bob_one_time_prekey = X25519KeyPair::new();

    let bob_spk_signature =
        sign_pre_key(&bob_identity.private_key_bytes(), &bob_signed_prekey.public_key_bytes()).unwrap();

    let alice_output = X3DH::initiator_calculate(
        &alice_identity.private_key_bytes(),
        &bob_identity.public_key_bytes(),
        &bob_signed_prekey.public_key_bytes(),
        &bob_spk_signature,
        Some(bob_one_time_prekey.public_key_bytes()),
        Some(1),
    )
    .unwrap();

    let bob_shared = X3DH::responder_calculate(
        &bob_identity.private_key_bytes(),
        &bob_signed_prekey.private_key_bytes(),
        Some(bob_one_time_prekey.private_key_bytes()),
        &alice_identity.public_key_bytes(),
        &alice_output.ephemeral_public_key,
    )
    .unwrap();

    assert_eq!(alice_output.shared_secret, bob_shared);
}

struct Fixture {
    alice: IdentityKeyPair,
    bob: IdentityKeyPair,
    spk: X25519KeyPair,
    opk: X25519KeyPair,
    signature: Vec<u8>,
}

fn fixture() -> Fixture {
    let alice = IdentityKeyPair::from_bytes(&[0x11u8; 32]).unwrap();
    let bob = IdentityKeyPair::from_bytes(&[0x22u8; 32]).unwrap();
    let spk = X25519KeyPair::from_bytes(&[0x33u8; 32]).unwrap();
    let opk = X25519KeyPair::from_bytes(&[0x44u8; 32]).unwrap();
    let signature = bob.sign(&spk.public_key_bytes());
    Fixture { alice, bob, spk, opk, signature }
}

#[test]
fn fixed_seeds_agree_with_one_time_prekey() {
    let f = fixture();
    let out = X3DH::initiator_calculate_with_ephemeral(
        &[0x55u8; 32],
        &f.alice.private_key_bytes(),
        &f.bob.public_key_bytes(),
        &f.spk.public_key_bytes(),
        &f.signature,
        Some(f.opk.public_key_bytes()),
        Some(42),
    )
    .unwrap();
    assert_eq!(out.shared_secret, hex("a43b04e94dd4bb77092dc0825d17aece39c51b092deb7270d5e962766dd86329"));
    assert_eq!(out.ephemeral_public_key, hex("38ab664bd86f77d7e66bdd9ae0792913a94fd8b33a1260027e4b46c1f4884c67"));
    assert_eq!(out.used_one_time_prekey_id(), Some(42));
    let bob_secret = X3DH::responder_calculate(
        &f.bob.private_key_bytes(),
        &f.spk.private_key_bytes(),
        Some(f.opk.private_key_bytes()),
        &f.alice.public_key_bytes(),
        &out.ephemeral_public_key(),
    )
    .unwrap();
    assert_eq!(bob_secret, out.shared_secret());
    assert_eq!(bob_secret.len(), 32);
}

#[test]
fn fixed_seeds_agree_without_one_time_prekey() {
    let f = fixture();
    let out = X3DH::initiator_calculate_with_ephemeral(
        &[0x55u8; 32],
        &f.alice.private_key_bytes(),
        &f.bob.public_key_bytes(),
        &f.spk.public_key_bytes(),
        &f.signature,
        None,
        Some(42),
    )
    .unwrap();
    assert_eq!(out.shared_secret, hex("27ea8177bb6db58b432bc16094d7cf36f70e0d381551cdca8b48cf5f852b1216"));
    assert_eq!(out.used_one_time_prekey_id, None);
    let bob_secret = X3DH::responder_calculate(
        &f.bob.private_key_bytes(),
        &f.spk.private_key_bytes(),
        None,
        &f.alice.public_key_bytes(),
        &out.ephemeral_public_key,
    )
    .unwrap();
    assert_eq!(bob_secret, out.shared_secret);
}

#[test]
fn fresh_ephemeral_still_agrees() {
    let f = fixture();
    let out = X3DH::initiator_calculate(
        &f.alice.private_key_bytes(),
        &f.bob.public_key_bytes(),
        &f.spk.public_key_bytes(),
        &f.signature,
        None,
        None,
    )
    .unwrap();
    let bob_secret = X3DH::responder_calculate(
        &f.bob.private_key_bytes(),
        &f.spk.private_key_bytes(),
        None,
        &f.alice.public_key_bytes(),
        &out.ephemeral_public_key,
    )
    .unwrap();
    assert_eq!(bob_secret, out.shared_secret);
}

#[test]
fn tampered_prekey_signature_is_rejected() {
    let f = fixture();
    let mut signature = f.signature.clone();
    signature[0] ^= 0x01;
    let result = X3DH::initiator_calculate(
        &f.alice.private_key_bytes(),
        &f.bob.public_key_bytes(),
        &f.spk.public_key_bytes(),
        &signature,
        Some(f.opk.public_key_bytes()),
        Some(1),
    );
    assert_eq!(result.err().unwrap(), CryptoError::BadPreKeySignature);
}

#[test]
fn malformed_initiator_inputs() {
    let f = fixture();
    let short_sig = X3DH::initiator_calculate(
        &f.alice.private_key_bytes(),
        &f.bob.public_key_bytes(),
        &f.spk.public_key_bytes(),
        &f.signature[..63],
        None,
        None,
    );
    assert_eq!(short_sig.err().unwrap(), CryptoError::Malformed);
    let short_private = X3DH::initiator_calculate(
        &f.alice.private_key_bytes()[..16],
        &f.bob.public_key_bytes(),
        &f.spk.public_key_bytes(),
        &f.signature,
        None,
        None,
    );
    assert_eq!(short_private.err().unwrap(), CryptoError::Malformed);
    let short_opk = X3DH::initiator_calculate(
        &f.alice.private_key_bytes(),
        &f.bob.public_key_bytes(),
        &f.spk.public_key_bytes(),
        &f.signature,
        Some(vec![1u8; 5]),
        Some(3),
    );
    assert_eq!(short_opk.err().unwrap(), CryptoError::Malformed);
}

#[test]
fn malformed_responder_inputs() {
    let f = fixture();
    let r = X3DH::responder_calculate(
        &f.bob.private_key_bytes(),
        &f.spk.private_key_bytes(),
        None,
        &f.alice.public_key_bytes(),
        &[1u8; 31],
    );
    assert_eq!(r.unwrap_err(), CryptoError::Malformed);
    let r = X3DH::responder_calculate(&f.bob.private_key_bytes()[..3], &f.spk.private_key_bytes(), None, &f.alice.public_key_bytes(), &[1u8; 32]);
    assert_eq!(r.unwrap_err(), CryptoError::Malformed);
}

#[test]
fn signed_prekey_verification() {
    let f = fixture();
    let spk_pub = f.spk.public_key_bytes();
    assert_eq!(X3DH::verify_signed_prekey(&f.bob.public_key_bytes(), &spk_pub, &f.signature), Ok(true));
    assert_eq!(X3DH::verify_signed_prekey(&f.alice.public_key_bytes(), &spk_pub, &f.signature), Ok(false));
    assert_eq!(X3DH::verify_signed_prekey(&[0u8; 3], &spk_pub, &f.signature), Err(CryptoError::Malformed));
    assert_eq!(sign_pre_key(&[0u8; 31], &spk_pub).unwrap_err(), CryptoError::Malformed);
    assert_eq!(sign_pre_key(&f.bob.private_key_bytes(), &spk_pub).unwrap(), f.signature);
}

#[test]
fn private_key_conversion_known_answer() {
    let converted = ed25519_private_to_x25519_private(&[0x11u8; 32]).unwrap();
    assert_eq!(converted, hex("805b920bda4cd49d251d3329144a0cf8bdaaa07502626fa87f08e80faedab15f"));
    assert_eq!(converted[0] & 7, 0);
    assert_eq!(converted[31] & 0xc0, 0x40);
    assert_eq!(ed25519_private_to_x25519_private(&[0u8; 12]).unwrap_err(), CryptoError::Malformed);
}

#[test]
fn conversions_agree_on_both_sides() {
    let bob = IdentityKeyPair::from_bytes(&[0x22u8; 32]).unwrap();
    let converted_public = ed25519_public_to_x25519_public(&bob.public_key_bytes()).unwrap();
    assert_eq!(converted_public, hex("9d8d78b9c9e6661e552f2f1af02095ee2f8743fa2e6183f41bb7077ef51b5379"));
    let converted_private = ed25519_private_to_x25519_private(&bob.private_key_bytes()).unwrap();
    let pair = X25519KeyPair::from_bytes(&converted_private).unwrap();
    assert_eq!(pair.public_key_bytes(), converted_public);
    let other = X25519KeyPair::from_bytes(&[0x33u8; 32]).unwrap();
    assert_eq!(
        other.diffie_hellman(&converted_public).unwrap(),
        pair.diffie_hellman(&other.public_key_bytes()).unwrap()
    );
}

#[test]
fn public_key_conversion_rejects_bad_input() {
    assert_eq!(ed25519_public_to_x25519_public(&[1u8; 31]).unwrap_err(), CryptoError::Malformed);
    let mut invalid = 0;
    for y in 2u8..64 {
        let mut candidate = [0u8; 32];
        candidate[0] = y;
        match ed25519_public_to_x25519_public(&candidate) {
            Err(e) => {
                assert_eq!(e, CryptoError::InvalidKey);
                invalid += 1;
            }
            Ok(u) => assert_eq!(u.len(), 32),
        }
    }
    assert!(invalid > 0);
}

#[test]
fn initial_message_carries_its_fields() {
    let msg = X3DH::create_initial_message(&[1u8; 32], &[2u8; 32], Some(5));
    assert_eq!(msg.sender_identity_key(), vec![1u8; 32]);
    assert_eq!(msg.ephemeral_key(), vec![2u8; 32]);
    assert_eq!(msg.one_time_prekey_id(), Some(5));
    assert_eq!(msg.sender_identity_key_base64(), safetalk_core::base64_encode(&[1u8; 32]));
}
