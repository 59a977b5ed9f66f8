use safetalk_core::{aes_decrypt, aes_decrypt_bytes, aes_encrypt, AesGcmCipher, CryptoError, EncryptedMessage};

fn hex(s: &str) -> Vec<u8> {
    (0..s.len()).step_by(2).map(|i| u8::from_str_radix(&s[i..i + 2], 16).unwrap()).collect()
}

#[test]
fn test_aes_encrypt_decrypt() {
    let key = [0u8; 32];
    let plaintext = b"Hello, SafeTalk!";

    let cipher = AesGcmCipher::new(&key).unwrap();
    let encrypted = cipher.encrypt(plaintext).unwrap();
    let decrypted = cipher.decrypt(&encrypted).unwrap();

    assert_eq!(plaintext.to_vec(), decrypted);
}

#[test]
fn test_aes_with_aad() {
    let key = [0u8; 32];
    let plaintext = b"Secret message";
    let aad = b"conversation_id_123";

    let cipher = AesGcmCipher::new(&key).unwrap();
    let encrypted = cipher.encrypt_with_aad(plaintext, aad).unwrap();
    let decrypted = cipher.decrypt_with_aad(&encrypted, aad).unwrap();

    assert_eq!(plaintext.to_vec(), decrypted);

    let wrong_aad = b"wrong_id";
    assert!(cipher.decrypt_with_aad(&encrypted, wrong_aad).is_err());
}

#[test]
fn test_encrypted_message_serialization() {
    let key = [0u8; 32];
    let plaintext = b"Test";

    let encrypted = aes_encrypt(&key, plaintext).unwrap();
    let bytes = encrypted.to_bytes();
    let restored = EncryptedMessage::from_bytes(&bytes).unwrap();

    let decrypted = aes_decrypt(&key, &restored).unwrap();
    assert_eq!(plaintext.to_vec(), decrypted);
}

#[test]
fn known_answer_with_fixed_nonce() {
    let cipher = AesGcmCipher::new(&[0u8; 32]).unwrap();
    let sealed = cipher.encrypt_with_nonce(&[0u8; 12], b"Hello", &[]).unwrap();
    assert_eq!(sealed.ciphertext(), hex("86c22c51222be010dfb13840e9a38f1fa10a1bd5fe"));
    assert_eq!(sealed.nonce(), vec![0u8; 12]);
    assert_eq!(cipher.decrypt(&sealed).unwrap(), b"Hello".to_vec());
}

#[test]
fn known_answer_with_associated_data() {
    let cipher = AesGcmCipher::new(&[0u8; 32]).unwrap();
    let sealed = cipher.encrypt_with_nonce(&[1u8; 12], b"Secret", b"conversation_123").unwrap();
    assert_eq!(sealed.ciphertext(), hex("2625a0181ffdc826d61f2a78427e7c45e5cab43bfceb"));
    assert_eq!(cipher.decrypt_with_aad(&sealed, b"conversation_123").unwrap(), b"Secret".to_vec());
    assert_eq!(cipher.decrypt_with_aad(&sealed, b"other").unwrap_err(), CryptoError::DecryptAuth);
}

#[test]
fn flipped_bits_fail_authentication() {
    let cipher = AesGcmCipher::new(&[7u8; 32]).unwrap();
    let sealed = cipher.encrypt_with_aad(b"payload", b"aad").unwrap();
    let mut ct = sealed.ciphertext();
    ct[0] ^= 1;
    let tampered = EncryptedMessage::from_parts(sealed.nonce(), ct);
    assert_eq!(cipher.decrypt_with_aad(&tampered, b"aad").unwrap_err(), CryptoError::DecryptAuth);
    let mut nonce = sealed.nonce();
    nonce[11] ^= 0x80;
    let tampered = EncryptedMessage::from_parts(nonce, sealed.ciphertext());
    assert_eq!(cipher.decrypt_with_aad(&tampered, b"aad").unwrap_err(), CryptoError::DecryptAuth);
    assert_eq!(cipher.decrypt_with_aad(&sealed, b"aae").unwrap_err(), CryptoError::DecryptAuth);
}

#[test]
fn empty_plaintext_round_trip() {
    let cipher = AesGcmCipher::new(&[3u8; 32]).unwrap();
    let sealed = cipher.encrypt(&[]).unwrap();
    assert_eq!(sealed.ciphertext().len(), 16);
    assert_eq!(cipher.decrypt(&sealed).unwrap(), Vec::<u8>::new());
}

#[test]
fn wrong_key_length_is_malformed() {
    assert_eq!(AesGcmCipher::new(&[0u8; 31]).err(), Some(CryptoError::Malformed));
    assert_eq!(aes_encrypt(&[0u8; 33], b"x").err(), Some(CryptoError::Malformed));
}

#[test]
fn short_record_is_malformed() {
    assert_eq!(EncryptedMessage::from_bytes(&[0u8; 11]).err(), Some(CryptoError::Malformed));
    assert_eq!(aes_decrypt_bytes(&[0u8; 32], &[0u8; 11]).unwrap_err(), CryptoError::Malformed);
    let record = EncryptedMessage::from_bytes(&[9u8; 12]).unwrap();
    assert_eq!(record.nonce(), vec![9u8; 12]);
    assert!(record.ciphertext().is_empty());
}

#[test]
fn wrong_nonce_length_is_malformed() {
    let cipher = AesGcmCipher::new(&[0u8; 32]).unwrap();
    let record = EncryptedMessage::from_parts(vec![0u8; 8], vec![0u8; 20]);
    assert_eq!(cipher.decrypt(&record).unwrap_err(), CryptoError::Malformed);
    assert_eq!(cipher.encrypt_with_nonce(&[0u8; 8], b"x", &[]).err(), Some(CryptoError::Malformed));
}

#[test]
fn flat_form_is_nonce_then_ciphertext() {
    let record = EncryptedMessage::from_parts(vec![1u8; 12], vec![2u8, 3, 4]);
    let mut expected = vec![1u8; 12];
    expected.extend_from_slice(&[2, 3, 4]);
    assert_eq!(record.to_bytes(), expected);
    let encrypted = aes_encrypt(&[5u8; 32], b"flat").unwrap();
    assert_eq!(aes_decrypt_bytes(&[5u8; 32], &encrypted.to_bytes()).unwrap(), b"flat".to_vec());
}

#[test]
fn sealed_length_is_plaintext_plus_tag() {
    let cipher = AesGcmCipher::new(&[4u8; 32]).unwrap();
    for len in [0usize, 1, 15, 16, 100] {
        let pt = vec![0xabu8; len];
        assert_eq!(cipher.encrypt_with_aad(&pt, b"aad").unwrap().ciphertext().len(), len + 16);
        assert_eq!(cipher.encrypt(&pt).unwrap().ciphertext().len(), len + 16);
        assert_eq!(aes_encrypt(&[4u8; 32], &pt).unwrap().ciphertext().len(), len + 16);
    }
}
