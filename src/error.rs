use vstd::prelude::*;

verus! {

/// The error kinds surfaced by every fallible operation of the library.
#[derive(Clone, Copy, Debug, PartialEq, Eq, Structural)]
pub enum CryptoError {
    /// An input has the wrong length or cannot be decoded.
    Malformed,
    /// A public key is not a valid curve point.
    InvalidKey,
    /// The signed prekey's signature does not verify under the identity key.
    BadPreKeySignature,
    /// The AEAD tag does not match: wrong key, wrong associated data or tampering.
    DecryptAuth,
    /// The session has no sending chain yet.
    NoSendingChain,
    /// A message lies further than the skip bound ahead of the receiving chain.
    TooManySkipped,
    /// A chain counter would pass its largest value.
    ChainExhausted,
    /// A session blob or a wire message cannot be encoded or decoded.
    SerializationError,
}

/// The view of a fallible byte result.
pub open spec fn bytes_result(r: Result<Vec<u8>, CryptoError>) -> Result<Seq<u8>, CryptoError> {
    match r {
        Ok(v) => Ok(v@),
        Err(e) => Err(e),
    }
}

impl CryptoError {
    /// A short human-readable description of the error.
    pub fn message(&self) -> (r: String) {
        match self {
            CryptoError::Malformed => "malformed input".to_owned(),
            CryptoError::InvalidKey => "invalid key".to_owned(),
            CryptoError::BadPreKeySignature => "invalid signed prekey signature".to_owned(),
            CryptoError::DecryptAuth => "decryption failed".to_owned(),
            CryptoError::NoSendingChain => "no sending chain key".to_owned(),
            CryptoError::TooManySkipped => "too many skipped messages".to_owned(),
            CryptoError::ChainExhausted => "chain counter exhausted".to_owned(),
            CryptoError::SerializationError => "serialization failed".to_owned(),
        }
    }
}

} // verus!
