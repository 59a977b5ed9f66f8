//! Signal-style secure messaging core: X3DH key agreement, a Double Ratchet
//! session and AES-256-GCM payload encryption, with their contracts proved.
use vstd::prelude::*;

pub mod aes;
pub mod bytes;
pub mod convert;
pub mod error;
pub mod guarantees;
pub mod keys;
pub mod primitives;
pub mod ratchet;
pub mod x3dh;

pub use aes::{aes_decrypt, aes_decrypt_bytes, aes_encrypt, AesGcmCipher, EncryptedMessage};
pub use error::CryptoError;
pub use keys::{
    create_pre_key_bundle, IdentityKeyPair, OneTimePreKey, PreKeyBundle, SignedPreKey, X25519KeyPair,
};
pub use ratchet::{RatchetMessage, RatchetSession};
pub use x3dh::{sign_pre_key, X3DHInitialMessage, X3DHSenderOutput, X3DH};

use crate::primitives::{base64_decode_standard, base64_encode_standard, base64_of, os_random};

verus! {

/// `len` random bytes from the operating system.
pub fn random_bytes(len: usize) -> (r: Vec<u8>)
    ensures
        r@.len() == len,
{
    os_random(len)
}

/// Standard base64 with padding.
pub fn base64_encode(data: &[u8]) -> (r: String)
    ensures
        r@ == base64_of(data@),
{
    base64_encode_standard(data)
}

/// Decodes standard padded base64; anything that is not the encoding of some
/// bytes is `Malformed`.
pub fn base64_decode(data: &str) -> (r: Result<Vec<u8>, CryptoError>)
    ensures
        r is Err ==> r->Err_0 == CryptoError::Malformed,
        r is Ok ==> base64_of(r->Ok_0@) == data@,
        forall|b: Seq<u8>| data@ == #[trigger] base64_of(b) ==> r is Ok && r->Ok_0@ == b,
{
    match base64_decode_standard(data) {
        Some(v) => Ok(v),
        None => Err(CryptoError::Malformed),
    }
}

} // verus!
