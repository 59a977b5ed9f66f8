use safetalk_core::{CryptoError, RatchetMessage, RatchetSession, X25519KeyPair};

fn hex(s: &str) -> Vec<u8> {
    (0..s.len()).step_by(2).map(|i| u8::from_str_radix(&s[i..i + 2], 16).unwrap()).collect()
}

fn pair() -> (RatchetSession, RatchetSession) {
    let shared_secret = [9u8; 32];
    let bob_spk = X25519KeyPair::new();
    let alice = RatchetSession::init_as_alice(&shared_secret, &bob_spk.public_key_bytes()).unwrap();
    let bob = RatchetSession::init_as_bob(&shared_secret, &bob_spk.private_key_bytes(), &bob_spk.public_key_bytes())
        .unwrap();
    (alice, bob)
}

#[test]
fn test_double_ratchet() {
    let shared_secret = [0u8; 32];
    let bob_spk = X25519KeyPair::new();

    let mut alice = RatchetSession::init_as_alice(&shared_secret, &bob_spk.public_key_bytes()).unwrap();

    let mut bob = RatchetSession::init_as_bob(
        &shared_secret,
        &bob_spk.private_key_bytes(),
        &bob_spk.public_key_bytes(),
    )
    .unwrap();

    let msg1 = alice.encrypt(b"Hello Bob!").unwrap();
    let decrypted1 = bob.decrypt(&msg1).unwrap();
    assert_eq!(decrypted1, b"Hello Bob!");

    let msg2 = bob.encrypt(b"Hi Alice!").unwrap();
    let decrypted2 = alice.decrypt(&msg2).unwrap();
    assert_eq!(decrypted2, b"Hi Alice!");

    let msg3 = alice.encrypt(b"Message 3").unwrap();
    let msg4 = alice.encrypt(b"Message 4").unwrap();

    let d3 = bob.decrypt(&msg3).unwrap();
    let d4 = bob.decrypt(&msg4).unwrap();
    assert_eq!(d3, b"Message 3");
    assert_eq!(d4, b"Message 4");
}

#[test]
fn first_message_known_answer() {
    let shared = hex("a43b04e94dd4bb77092dc0825d17aece39c51b092deb7270d5e962766dd86329");
    let spk = X25519KeyPair::from_bytes(&[0x33u8; 32]).unwrap();
    let mut alice = RatchetSession::init_as_alice_with_secret(&shared, &spk.public_key_bytes(), &[0x66u8; 32]).unwrap();
    assert_eq!(alice.my_public_key(), hex("219e4d800da968d2a5fcb009c784f4746c7138edb9ee4844b739e830b05cf424"));
    let msg = alice.encrypt_with_nonce(b"Hello Bob!", &[0x77u8; 12]).unwrap();
    assert_eq!(msg.ciphertext(), hex("84d7535cc151718f2a2cfa1ee69a4b201d9f598fffea0ccc7cf9"));
    assert_eq!(msg.dh_public(), alice.my_public_key());
    assert_eq!(msg.prev_chain_count(), 0);
    assert_eq!(msg.message_number(), 0);
    assert_eq!(msg.nonce(), vec![0x77u8; 12]);
    let mut bob = RatchetSession::init_as_bob(&shared, &spk.private_key_bytes(), &spk.public_key_bytes()).unwrap();
    assert_eq!(bob.decrypt(&msg).unwrap(), b"Hello Bob!".to_vec());
    let second = alice.encrypt_with_nonce(b"again", &[0x77u8; 12]).unwrap();
    assert_eq!(second.message_number(), 1);
    assert_ne!(second.ciphertext()[..5], msg.ciphertext()[..5]);
}

#[test]
fn ping_pong_after_key_agreement() {
    let (mut alice, mut bob) = pair();
    let m1 = alice.encrypt(b"Hello Bob!").unwrap();
    assert_eq!(bob.decrypt(&m1).unwrap(), b"Hello Bob!".to_vec());
    let m2 = bob.encrypt(b"Hi Alice!").unwrap();
    assert_eq!(alice.decrypt(&m2).unwrap(), b"Hi Alice!".to_vec());
    let m3 = alice.encrypt(b"M3").unwrap();
    let m4 = alice.encrypt(b"M4").unwrap();
    assert_eq!(bob.decrypt(&m3).unwrap(), b"M3".to_vec());
    assert_eq!(bob.decrypt(&m4).unwrap(), b"M4".to_vec());
    assert_eq!(m4.prev_chain_count(), 1);
    assert_eq!(m4.message_number(), 1);
}

#[test]
fn long_mixed_exchange_in_order() {
    let (mut alice, mut bob) = pair();
    let first = alice.encrypt(b"start").unwrap();
    assert_eq!(bob.decrypt(&first).unwrap(), b"start".to_vec());
    for round in 0u32..60 {
        let streak = (round % 4) + 1;
        for k in 0..streak {
            let text = format!("round {} message {}", round, k);
            if round % 2 == 0 {
                let m = alice.encrypt(text.as_bytes()).unwrap();
                assert_eq!(bob.decrypt(&m).unwrap(), text.as_bytes().to_vec());
            } else {
                let m = bob.encrypt(text.as_bytes()).unwrap();
                assert_eq!(alice.decrypt(&m).unwrap(), text.as_bytes().to_vec());
            }
        }
    }
    assert_eq!(alice.skipped_key_count(), 0);
    assert_eq!(bob.skipped_key_count(), 0);
}

#[test]
fn out_of_order_delivery_empties_the_store() {
    let (mut alice, mut bob) = pair();
    let m1 = alice.encrypt(b"one").unwrap();
    let m2 = alice.encrypt(b"two").unwrap();
    let m3 = alice.encrypt(b"three").unwrap();
    assert_eq!(m3.message_number(), 2);
    assert_eq!(bob.decrypt(&m3).unwrap(), b"three".to_vec());
    assert_eq!(bob.skipped_key_count(), 2);
    assert_eq!(bob.decrypt(&m1).unwrap(), b"one".to_vec());
    assert_eq!(bob.decrypt(&m2).unwrap(), b"two".to_vec());
    assert_eq!(bob.skipped_key_count(), 0);
}

#[test]
fn reversed_delivery_across_a_ratchet() {
    let (mut alice, mut bob) = pair();
    let m0 = alice.encrypt(b"hello").unwrap();
    assert_eq!(bob.decrypt(&m0).unwrap(), b"hello".to_vec());
    let reply = bob.encrypt(b"reply").unwrap();
    let late: Vec<RatchetMessage> = (0..5).map(|i| alice.encrypt(format!("old {}", i).as_bytes()).unwrap()).collect();
    assert_eq!(alice.decrypt(&reply).unwrap(), b"reply".to_vec());
    let fresh: Vec<RatchetMessage> = (0..5).map(|i| alice.encrypt(format!("new {}", i).as_bytes()).unwrap()).collect();
    for (i, m) in fresh.iter().enumerate().rev() {
        assert_eq!(bob.decrypt(m).unwrap(), format!("new {}", i).as_bytes().to_vec());
    }
    for (i, m) in late.iter().enumerate().rev() {
        assert_eq!(bob.decrypt(m).unwrap(), format!("old {}", i).as_bytes().to_vec());
    }
    assert_eq!(bob.skipped_key_count(), 0);
}

#[test]
fn skipping_past_the_bound_is_refused() {
    let (mut alice, mut bob) = pair();
    let mut sent = Vec::new();
    for i in 0..1002u32 {
        sent.push(alice.encrypt(format!("m{}", i).as_bytes()).unwrap());
    }
    assert_eq!(bob.decrypt(&sent[1001]).unwrap_err(), CryptoError::TooManySkipped);
    assert_eq!(bob.decrypt(&sent[3]).unwrap(), b"m3".to_vec());
    assert_eq!(bob.decrypt(&sent[1000]).unwrap(), b"m1000".to_vec());
    assert_eq!(bob.decrypt(&sent[1001]).unwrap(), b"m1001".to_vec());
    assert_eq!(bob.decrypt(&sent[500]).unwrap(), b"m500".to_vec());
}

#[test]
fn responder_cannot_send_first() {
    let (_alice, mut bob) = pair();
    assert_eq!(bob.encrypt(b"too early").err(), Some(CryptoError::NoSendingChain));
}

#[test]
fn tampered_message_fails_authentication() {
    let (mut alice, mut bob) = pair();
    let m = alice.encrypt(b"secret").unwrap();
    let mut ct = m.ciphertext();
    ct[0] ^= 0x10;
    let tampered = RatchetMessage {
        dh_public: m.dh_public(),
        prev_chain_count: m.prev_chain_count(),
        message_number: m.message_number(),
        ciphertext: ct,
        nonce: m.nonce(),
    };
    assert_eq!(bob.decrypt(&tampered).unwrap_err(), CryptoError::DecryptAuth);
}

#[test]
fn malformed_messages_and_inputs() {
    let (mut alice, mut bob) = pair();
    let m = alice.encrypt(b"x").unwrap();
    let short_key = RatchetMessage {
        dh_public: vec![1u8; 31],
        prev_chain_count: 0,
        message_number: 0,
        ciphertext: m.ciphertext(),
        nonce: m.nonce(),
    };
    assert_eq!(bob.decrypt(&short_key).unwrap_err(), CryptoError::Malformed);
    assert_eq!(bob.decrypt(&m).unwrap(), b"x".to_vec());
    assert_eq!(RatchetSession::init_as_alice(&[0u8; 31], &[0u8; 32]).err(), Some(CryptoError::Malformed));
    assert_eq!(RatchetSession::init_as_bob(&[0u8; 32], &[0u8; 32], &[0u8; 5]).err(), Some(CryptoError::Malformed));
}

#[test]
fn wire_form_round_trip() {
    let (mut alice, _bob) = pair();
    let _ = alice.encrypt(b"first").unwrap();
    let m = alice.encrypt(b"second message").unwrap();
    let bytes = m.to_bytes().unwrap();
    assert_eq!(bytes.len(), 32 + 12 + 12 + 4 + m.ciphertext().len());
    assert_eq!(bytes[..32].to_vec(), m.dh_public());
    assert_eq!(bytes[36..40].to_vec(), vec![0, 0, 0, 1]);
    assert_eq!(bytes[40..44].to_vec(), vec![0, 0, 0, 12]);
    let back = RatchetMessage::from_bytes(&bytes).unwrap();
    assert_eq!(back.dh_public(), m.dh_public());
    assert_eq!(back.message_number(), 1);
    assert_eq!(back.prev_chain_count(), 0);
    assert_eq!(back.nonce(), m.nonce());
    assert_eq!(back.ciphertext(), m.ciphertext());
    assert_eq!(back.dh_public_base64(), m.dh_public_base64());
    assert_eq!(RatchetMessage::from_bytes(&bytes[..bytes.len() - 1]).err(), Some(CryptoError::SerializationError));
    let mut longer = bytes.clone();
    longer.push(0);
    assert_eq!(RatchetMessage::from_bytes(&longer).err(), Some(CryptoError::SerializationError));
    let bad = RatchetMessage { dh_public: vec![0u8; 3], prev_chain_count: 0, message_number: 0, ciphertext: vec![], nonce: vec![] };
    assert_eq!(bad.to_bytes().unwrap_err(), CryptoError::SerializationError);
}

#[test]
fn session_blob_round_trip_keeps_behaviour() {
    let (mut alice, mut bob) = pair();
    let m1 = alice.encrypt(b"one").unwrap();
    let m2 = alice.encrypt(b"two").unwrap();
    let m3 = alice.encrypt(b"three").unwrap();
    assert_eq!(bob.decrypt(&m3).unwrap(), b"three".to_vec());
    let blob = bob.serialize().unwrap();
    assert_eq!(blob[0], 1);
    assert_eq!(blob.len(), 212 + 116 * 2);
    let mut restored = RatchetSession::deserialize(&blob).unwrap();
    assert_eq!(restored.serialize().unwrap(), blob);
    assert_eq!(restored.my_public_key(), bob.my_public_key());
    assert_eq!(restored.my_public_key_base64(), bob.my_public_key_base64());
    assert_eq!(restored.skipped_key_count(), 2);
    assert_eq!(restored.decrypt(&m1).unwrap(), b"one".to_vec());
    assert_eq!(restored.decrypt(&m2).unwrap(), b"two".to_vec());
    let reply = restored.encrypt(b"reply").unwrap();
    assert_eq!(alice.decrypt(&reply).unwrap(), b"reply".to_vec());
    let alice_blob = alice.serialize().unwrap();
    let mut alice2 = RatchetSession::deserialize(&alice_blob).unwrap();
    let m4 = alice2.encrypt(b"four").unwrap();
    assert_eq!(restored.decrypt(&m4).unwrap(), b"four".to_vec());
}

#[test]
fn corrupt_blobs_are_refused() {
    let (alice, _bob) = pair();
    let blob = alice.serialize().unwrap();
    assert_eq!(blob.len(), 212);
    assert_eq!(RatchetSession::deserialize(&blob[..100]).err(), Some(CryptoError::SerializationError));
    let mut wrong_version = blob.clone();
    wrong_version[0] = 2;
    assert_eq!(RatchetSession::deserialize(&wrong_version).err(), Some(CryptoError::SerializationError));
    let mut bad_tag = blob.clone();
    bad_tag[65] = 7;
    assert_eq!(RatchetSession::deserialize(&bad_tag).err(), Some(CryptoError::SerializationError));
    let mut bad_count = blob.clone();
    bad_count[211] = 1;
    assert_eq!(RatchetSession::deserialize(&bad_count).err(), Some(CryptoError::SerializationError));
}

#[test]
fn exhausted_sending_chain_is_refused() {
    let (alice, _bob) = pair();
    let mut blob = alice.serialize().unwrap();
    for b in &mut blob[196..200] {
        *b = 0xff;
    }
    let mut restored = RatchetSession::deserialize(&blob).unwrap();
    assert_eq!(restored.encrypt(b"one too many").err(), Some(CryptoError::ChainExhausted));
}

#[test]
fn ratchet_keys_do_not_depend_on_old_chain_keys() {
    let (mut alice, mut bob) = pair();
    let m1 = alice.encrypt(b"m1").unwrap();
    assert_eq!(bob.decrypt(&m1).unwrap(), b"m1".to_vec());
    let r1 = bob.encrypt(b"r1").unwrap();
    assert_eq!(alice.decrypt(&r1).unwrap(), b"r1".to_vec());
    let m2 = alice.encrypt(b"m2").unwrap();
    let mut blob = bob.serialize().unwrap();
    for b in &mut blob[131..163] {
        *b ^= 0x5a;
    }
    for b in &mut blob[164..196] {
        *b ^= 0xa5;
    }
    let mut bob_other = RatchetSession::deserialize(&blob).unwrap();
    assert_eq!(bob.decrypt_with_secret(&m2, &[0x99u8; 32]).unwrap(), b"m2".to_vec());
    assert_eq!(bob_other.decrypt_with_secret(&m2, &[0x99u8; 32]).unwrap(), b"m2".to_vec());
    let after = bob.serialize().unwrap();
    let after_other = bob_other.serialize().unwrap();
    assert_eq!(after[98..196].to_vec(), after_other[98..196].to_vec());
    assert_ne!(after[131..163].to_vec(), blob[131..163].to_vec());
}
