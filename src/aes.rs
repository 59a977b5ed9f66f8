//! AES-256-GCM payload encryption with 12-byte nonces and optional associated data.
use vstd::prelude::*;

use crate::bytes::{append_bytes, copy_bytes, copy_range};
use crate::error::{bytes_result, CryptoError};
use crate::primitives::{aes_gcm_open, aes_gcm_seal, gcm_max_len, gcm_open, gcm_seal, os_random};

verus! {

/// Nonce length of AES-256-GCM.
pub const NONCE_SIZE: usize = 12;

/// Key length of AES-256-GCM.
pub const KEY_SIZE: usize = 32;

/// What an encrypted record holds: the nonce and the ciphertext with its tag.
pub struct EncryptedView {
    pub nonce: Seq<u8>,
    pub ciphertext: Seq<u8>,
}

/// An encrypted record: the nonce and the ciphertext with its tag.
pub struct EncryptedMessage {
    ciphertext: Vec<u8>,
    nonce: Vec<u8>,
}

impl View for EncryptedMessage {
    type V = EncryptedView;

    closed spec fn view(&self) -> EncryptedView {
        EncryptedView { nonce: self.nonce@, ciphertext: self.ciphertext@ }
    }
}

impl EncryptedMessage {
    /// A record from its nonce and ciphertext.
    pub fn from_parts(nonce: Vec<u8>, ciphertext: Vec<u8>) -> (r: EncryptedMessage)
        ensures
            r@.nonce == nonce@,
            r@.ciphertext == ciphertext@,
    {
        EncryptedMessage { ciphertext, nonce }
    }

    /// The ciphertext with its tag.
    pub fn ciphertext(&self) -> (r: Vec<u8>)
        ensures
            r@ == self@.ciphertext,
    {
        copy_bytes(self.ciphertext.as_slice())
    }

    /// The nonce.
    pub fn nonce(&self) -> (r: Vec<u8>)
        ensures
            r@ == self@.nonce,
    {
        copy_bytes(self.nonce.as_slice())
    }

    /// The flat form `nonce || ciphertext`.
    pub fn to_bytes(&self) -> (r: Vec<u8>)
        ensures
            r@ == self@.nonce + self@.ciphertext,
    {
        let mut r = copy_bytes(self.nonce.as_slice());
        append_bytes(&mut r, self.ciphertext.as_slice());
        r
    }

    /// Splits the flat form back into nonce and ciphertext; fewer than 12 bytes
    /// is `Malformed`.
    pub fn from_bytes(bytes: &[u8]) -> (r: Result<EncryptedMessage, CryptoError>)
        ensures
            bytes@.len() < NONCE_SIZE <==> r is Err,
            r is Err ==> r->Err_0 == CryptoError::Malformed,
            r is Ok ==> r->Ok_0@.nonce == bytes@.subrange(0, NONCE_SIZE as int) && r->Ok_0@.ciphertext
                == bytes@.subrange(NONCE_SIZE as int, bytes@.len() as int),
    {
        if bytes.len() < NONCE_SIZE {
            return Err(CryptoError::Malformed);
        }
        Ok(EncryptedMessage {
            nonce: copy_range(bytes, 0, NONCE_SIZE),
            ciphertext: copy_range(bytes, NONCE_SIZE, bytes.len()),
        })
    }
}

/// An AES-256-GCM cipher under one 32-byte key. It holds no other state.
pub struct AesGcmCipher {
    key: Vec<u8>,
}

impl View for AesGcmCipher {
    type V = Seq<u8>;

    closed spec fn view(&self) -> Seq<u8> {
        self.key@
    }
}

impl AesGcmCipher {
    #[verifier::type_invariant]
    spec fn key_has_size(&self) -> bool {
        self.key@.len() == KEY_SIZE
    }

    /// The cipher under `key`; any length but 32 is `Malformed`.
    pub fn new(key: &[u8]) -> (r: Result<AesGcmCipher, CryptoError>)
        ensures
            key@.len() != KEY_SIZE <==> r is Err,
            r is Err ==> r->Err_0 == CryptoError::Malformed,
            r is Ok ==> r->Ok_0@ == key@,
    {
        if key.len() != KEY_SIZE {
            return Err(CryptoError::Malformed);
        }
        Ok(AesGcmCipher { key: copy_bytes(key) })
    }

    /// Seals `plaintext` and `aad` under the given nonce. A nonce that is not 12
    /// bytes, or a plaintext or `aad` over 2^36 bytes, is `Malformed`.
    pub fn encrypt_with_nonce(&self, nonce: &[u8], plaintext: &[u8], aad: &[u8]) -> (r: Result<
        EncryptedMessage,
        CryptoError,
    >)
        ensures
            r is Ok <==> nonce@.len() == NONCE_SIZE && plaintext@.len() <= gcm_max_len()
                && aad@.len() <= gcm_max_len(),
            r is Err ==> r->Err_0 == CryptoError::Malformed,
            r is Ok ==> r->Ok_0@.nonce == nonce@ && r->Ok_0@.ciphertext == aes_gcm_seal(
                self@,
                nonce@,
                plaintext@,
                aad@,
            ),
            r is Ok ==> r->Ok_0@.ciphertext.len() == plaintext@.len() + 16,
    {
        proof {
            use_type_invariant(self);
        }
        if nonce.len() != NONCE_SIZE {
            return Err(CryptoError::Malformed);
        }
        match gcm_seal(self.key.as_slice(), nonce, plaintext, aad) {
            Some(ciphertext) => Ok(EncryptedMessage { ciphertext, nonce: copy_bytes(nonce) }),
            None => Err(CryptoError::Malformed),
        }
    }

    /// Encrypts with a fresh random nonce and associated data `aad`.
    pub fn encrypt_with_aad(&self, plaintext: &[u8], aad: &[u8]) -> (r: Result<
        EncryptedMessage,
        CryptoError,
    >)
        ensures
            r is Ok <==> plaintext@.len() <= gcm_max_len() && aad@.len() <= gcm_max_len(),
            r is Err ==> r->Err_0 == CryptoError::Malformed,
            r is Ok ==> r->Ok_0@.nonce.len() == NONCE_SIZE && r->Ok_0@.ciphertext == aes_gcm_seal(
                self@,
                r->Ok_0@.nonce,
                plaintext@,
                aad@,
            ),
            r is Ok ==> r->Ok_0@.ciphertext.len() == plaintext@.len() + 16,
    {
        let nonce = os_random(NONCE_SIZE);
        self.encrypt_with_nonce(nonce.as_slice(), plaintext, aad)
    }

    /// Encrypts with a fresh random nonce and no associated data.
    pub fn encrypt(&self, plaintext: &[u8]) -> (r: Result<EncryptedMessage, CryptoError>)
        ensures
            r is Ok <==> plaintext@.len() <= gcm_max_len(),
            r is Err ==> r->Err_0 == CryptoError::Malformed,
            r is Ok ==> r->Ok_0@.nonce.len() == NONCE_SIZE && r->Ok_0@.ciphertext == aes_gcm_seal(
                self@,
                r->Ok_0@.nonce,
                plaintext@,
                Seq::empty(),
            ),
            r is Ok ==> r->Ok_0@.ciphertext.len() == plaintext@.len() + 16,
    {
        let aad: Vec<u8> = Vec::new();
        self.encrypt_with_aad(plaintext, aad.as_slice())
    }

    /// Opens a record with associated data `aad`. A nonce that is not 12 bytes is
    /// `Malformed`; a tag that does not verify is `DecryptAuth`. A record sealed
    /// under this key with the same nonce and `aad` opens to its plaintext.
    pub fn decrypt_with_aad(&self, encrypted: &EncryptedMessage, aad: &[u8]) -> (r: Result<
        Vec<u8>,
        CryptoError,
    >)
        ensures
            encrypted@.nonce.len() != NONCE_SIZE ==> bytes_result(r) == Err::<Seq<u8>, CryptoError>(
                CryptoError::Malformed,
            ),
            encrypted@.nonce.len() == NONCE_SIZE ==> bytes_result(r) == match aes_gcm_open(
                self@,
                encrypted@.nonce,
                encrypted@.ciphertext,
                aad@,
            ) {
                Some(m) => Ok(m),
                None => Err(CryptoError::DecryptAuth),
            },
            r is Ok ==> aes_gcm_seal(self@, encrypted@.nonce, r->Ok_0@, aad@)
                == encrypted@.ciphertext,
            forall|m: Seq<u8>|
                m.len() <= gcm_max_len() && aad@.len() <= gcm_max_len() && encrypted@.nonce.len()
                    == NONCE_SIZE && #[trigger] aes_gcm_seal(self@, encrypted@.nonce, m, aad@)
                    == encrypted@.ciphertext ==> bytes_result(r) == Ok::<Seq<u8>, CryptoError>(m),
    {
        proof {
            use_type_invariant(self);
        }
        if encrypted.nonce.len() != NONCE_SIZE {
            return Err(CryptoError::Malformed);
        }
        match gcm_open(self.key.as_slice(), encrypted.nonce.as_slice(), encrypted.ciphertext.as_slice(), aad) {
            Some(m) => Ok(m),
            None => Err(CryptoError::DecryptAuth),
        }
    }

    /// Opens a record that has no associated data; see `decrypt_with_aad`.
    pub fn decrypt(&self, encrypted: &EncryptedMessage) -> (r: Result<Vec<u8>, CryptoError>)
        ensures
            encrypted@.nonce.len() != NONCE_SIZE ==> bytes_result(r) == Err::<Seq<u8>, CryptoError>(
                CryptoError::Malformed,
            ),
            encrypted@.nonce.len() == NONCE_SIZE ==> bytes_result(r) == match aes_gcm_open(
                self@,
                encrypted@.nonce,
                encrypted@.ciphertext,
                Seq::empty(),
            ) {
                Some(m) => Ok(m),
                None => Err(CryptoError::DecryptAuth),
            },
            forall|m: Seq<u8>|
                m.len() <= gcm_max_len() && encrypted@.nonce.len() == NONCE_SIZE
                    && #[trigger] aes_gcm_seal(self@, encrypted@.nonce, m, Seq::empty())
                    == encrypted@.ciphertext ==> bytes_result(r) == Ok::<Seq<u8>, CryptoError>(m),
    {
        let aad: Vec<u8> = Vec::new();
        self.decrypt_with_aad(encrypted, aad.as_slice())
    }
}

/// Encrypts `plaintext` under `key` with a fresh nonce; a key that is not 32
/// bytes, or a plaintext over 2^36 bytes, is `Malformed`.
pub fn aes_encrypt(key: &[u8], plaintext: &[u8]) -> (r: Result<EncryptedMessage, CryptoError>)
    ensures
        r is Ok <==> key@.len() == KEY_SIZE && plaintext@.len() <= gcm_max_len(),
        r is Err ==> r->Err_0 == CryptoError::Malformed,
        r is Ok ==> r->Ok_0@.nonce.len() == NONCE_SIZE && r->Ok_0@.ciphertext == aes_gcm_seal(
            key@,
            r->Ok_0@.nonce,
            plaintext@,
            Seq::empty(),
        ),
        r is Ok ==> r->Ok_0@.ciphertext.len() == plaintext@.len() + 16,
{
    let cipher = AesGcmCipher::new(key)?;
    cipher.encrypt(plaintext)
}

/// Decrypts a record under `key` with no associated data. A key that is not 32
/// bytes, or a nonce that is not 12, is `Malformed`; a failed tag is `DecryptAuth`.
pub fn aes_decrypt(key: &[u8], encrypted: &EncryptedMessage) -> (r: Result<Vec<u8>, CryptoError>)
    ensures
        key@.len() != KEY_SIZE || encrypted@.nonce.len() != NONCE_SIZE ==> bytes_result(r) == Err::<
            Seq<u8>,
            CryptoError,
        >(CryptoError::Malformed),
        key@.len() == KEY_SIZE && encrypted@.nonce.len() == NONCE_SIZE ==> bytes_result(r)
            == match aes_gcm_open(key@, encrypted@.nonce, encrypted@.ciphertext, Seq::empty()) {
            Some(m) => Ok(m),
            None => Err(CryptoError::DecryptAuth),
        },
        forall|m: Seq<u8>|
            m.len() <= gcm_max_len() && key@.len() == KEY_SIZE && encrypted@.nonce.len() == NONCE_SIZE
                && #[trigger] aes_gcm_seal(key@, encrypted@.nonce, m, Seq::empty())
                == encrypted@.ciphertext ==> bytes_result(r) == Ok::<Seq<u8>, CryptoError>(m),
{
    let cipher = AesGcmCipher::new(key)?;
    cipher.decrypt(encrypted)
}

/// Decrypts the flat form `nonce || ciphertext` under `key`; under 12 bytes is
/// `Malformed`, otherwise as `aes_decrypt`.
pub fn aes_decrypt_bytes(key: &[u8], encrypted_bytes: &[u8]) -> (r: Result<Vec<u8>, CryptoError>)
    ensures
        encrypted_bytes@.len() < NONCE_SIZE || key@.len() != KEY_SIZE ==> bytes_result(r) == Err::<
            Seq<u8>,
            CryptoError,
        >(CryptoError::Malformed),
        encrypted_bytes@.len() >= NONCE_SIZE && key@.len() == KEY_SIZE ==> bytes_result(r)
            == match aes_gcm_open(
            key@,
            encrypted_bytes@.subrange(0, NONCE_SIZE as int),
            encrypted_bytes@.subrange(NONCE_SIZE as int, encrypted_bytes@.len() as int),
            Seq::empty(),
        ) {
            Some(m) => Ok(m),
            None => Err(CryptoError::DecryptAuth),
        },
{
    let encrypted = EncryptedMessage::from_bytes(encrypted_bytes)?;
    aes_decrypt(key, &encrypted)
}

} // verus!
