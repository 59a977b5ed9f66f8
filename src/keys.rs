//! Identity keys (Ed25519), Diffie-Hellman keys (X25519) and prekey bundles.
use vstd::prelude::*;

use crate::bytes::copy_bytes;
use crate::error::{bytes_result, CryptoError};
use crate::primitives::{
    base64_encode_standard, base64_of, ed25519_public, ed25519_public_of, ed25519_random_seed,
    ed25519_sign, ed25519_signature, ed25519_verdict, ed25519_verify, x25519_diffie_hellman,
    x25519_public, x25519_public_of, x25519_random_secret, x25519_shared,
};

verus! {

/// A long-term Ed25519 identity key pair, held as its 32-byte seed.
pub struct IdentityKeyPair {
    seed: Vec<u8>,
    public: Vec<u8>,
}

impl View for IdentityKeyPair {
    type V = Seq<u8>;

    /// The private seed.
    closed spec fn view(&self) -> Seq<u8> {
        self.seed@
    }
}

impl IdentityKeyPair {
    #[verifier::type_invariant]
    spec fn well_formed(&self) -> bool {
        &&& self.seed@.len() == 32
        &&& self.public@ == ed25519_public_of(self.seed@)
        &&& self.public@.len() == 32
    }

    /// A fresh key pair from the operating system's random source.
    pub fn new() -> (r: IdentityKeyPair)
        ensures
            r@.len() == 32,
    {
        let seed = ed25519_random_seed();
        let public = ed25519_public(seed.as_slice());
        IdentityKeyPair { seed, public }
    }

    /// The key pair of a 32-byte seed; any other length is `Malformed`.
    pub fn from_bytes(bytes: &[u8]) -> (r: Result<IdentityKeyPair, CryptoError>)
        ensures
            bytes@.len() != 32 <==> r is Err,
            r is Err ==> r->Err_0 == CryptoError::Malformed,
            r is Ok ==> r->Ok_0@ == bytes@,
    {
        if bytes.len() != 32 {
            return Err(CryptoError::Malformed);
        }
        let seed = copy_bytes(bytes);
        let public = ed25519_public(seed.as_slice());
        Ok(IdentityKeyPair { seed, public })
    }

    /// The public key in standard base64.
    pub fn public_key_base64(&self) -> (r: String)
        ensures
            r@ == base64_of(ed25519_public_of(self@)),
    {
        proof {
            use_type_invariant(self);
        }
        base64_encode_standard(self.public.as_slice())
    }

    /// The 32-byte public key.
    pub fn public_key_bytes(&self) -> (r: Vec<u8>)
        ensures
            r@ == ed25519_public_of(self@),
            r@.len() == 32,
            self@.len() == 32,
    {
        proof {
            use_type_invariant(self);
        }
        copy_bytes(self.public.as_slice())
    }

    /// The 32-byte private seed.
    pub fn private_key_bytes(&self) -> (r: Vec<u8>)
        ensures
            r@ == self@,
            r@.len() == 32,
    {
        proof {
            use_type_invariant(self);
        }
        copy_bytes(self.seed.as_slice())
    }

    /// The 64-byte signature of `message`.
    pub fn sign(&self, message: &[u8]) -> (r: Vec<u8>)
        ensures
            r@ == ed25519_signature(self@, message@),
            r@.len() == 64,
    {
        proof {
            use_type_invariant(self);
        }
        ed25519_sign(self.seed.as_slice(), message)
    }

    /// Whether `signature` is a valid signature of `message` under `public_key`.
    /// Wrong lengths and keys that are not curve points give `false`. The
    /// signature that a seed makes on a message verifies under that seed's
    /// public key.
    pub fn verify_signature(public_key: &[u8], message: &[u8], signature: &[u8]) -> (r: bool)
        ensures
            r == (public_key@.len() == 32 && signature@.len() == 64 && ed25519_verdict(
                public_key@,
                message@,
                signature@,
            ) == Some(true)),
            forall|seed: Seq<u8>|
                seed.len() == 32 && public_key@.len() == 32 && signature@.len() == 64 && public_key@
                    == #[trigger] ed25519_public_of(seed) && signature@ == ed25519_signature(
                    seed,
                    message@,
                ) ==> r,
    {
        if public_key.len() != 32 || signature.len() != 64 {
            return false;
        }
        match ed25519_verify(public_key, message, signature) {
            Some(valid) => valid,
            None => false,
        }
    }
}

impl Default for IdentityKeyPair {
    fn default() -> (r: IdentityKeyPair)
        ensures
            r@.len() == 32,
    {
        IdentityKeyPair::new()
    }
}

/// An X25519 key pair, held as its 32-byte secret.
pub struct X25519KeyPair {
    secret: Vec<u8>,
    public: Vec<u8>,
}

impl View for X25519KeyPair {
    type V = Seq<u8>;

    /// The private scalar bytes.
    closed spec fn view(&self) -> Seq<u8> {
        self.secret@
    }
}

impl X25519KeyPair {
    #[verifier::type_invariant]
    spec fn well_formed(&self) -> bool {
        &&& self.secret@.len() == 32
        &&& self.public@ == x25519_public_of(self.secret@)
        &&& self.public@.len() == 32
    }

    /// A fresh key pair from the operating system's random source.
    pub fn new() -> (r: X25519KeyPair)
        ensures
            r@.len() == 32,
    {
        let secret = x25519_random_secret();
        let public = x25519_public(secret.as_slice());
        X25519KeyPair { secret, public }
    }

    /// The key pair of a 32-byte secret; any other length is `Malformed`.
    pub fn from_bytes(bytes: &[u8]) -> (r: Result<X25519KeyPair, CryptoError>)
        ensures
            bytes@.len() != 32 <==> r is Err,
            r is Err ==> r->Err_0 == CryptoError::Malformed,
            r is Ok ==> r->Ok_0@ == bytes@,
    {
        if bytes.len() != 32 {
            return Err(CryptoError::Malformed);
        }
        let secret = copy_bytes(bytes);
        let public = x25519_public(secret.as_slice());
        Ok(X25519KeyPair { secret, public })
    }

    /// The public key in standard base64.
    pub fn public_key_base64(&self) -> (r: String)
        ensures
            r@ == base64_of(x25519_public_of(self@)),
    {
        proof {
            use_type_invariant(self);
        }
        base64_encode_standard(self.public.as_slice())
    }

    /// The 32-byte public key.
    pub fn public_key_bytes(&self) -> (r: Vec<u8>)
        ensures
            r@ == x25519_public_of(self@),
            r@.len() == 32,
            self@.len() == 32,
    {
        proof {
            use_type_invariant(self);
        }
        copy_bytes(self.public.as_slice())
    }

    /// The 32-byte secret.
    pub fn private_key_bytes(&self) -> (r: Vec<u8>)
        ensures
            r@ == self@,
            r@.len() == 32,
    {
        proof {
            use_type_invariant(self);
        }
        copy_bytes(self.secret.as_slice())
    }

    /// The shared secret with a peer's 32-byte public key; any other length is
    /// `Malformed`. Both ends of an exchange get the same bytes: when
    /// `their_public` is the public key of a secret `k`, the result is what `k`
    /// computes against this pair's public key.
    pub fn diffie_hellman(&self, their_public: &[u8]) -> (r: Result<Vec<u8>, CryptoError>)
        ensures
            their_public@.len() != 32 <==> r is Err,
            r is Err ==> r->Err_0 == CryptoError::Malformed,
            r is Ok ==> r->Ok_0@ == x25519_shared(self@, their_public@) && r->Ok_0@.len() == 32,
            forall|k: Seq<u8>|
                k.len() == 32 && their_public@.len() == 32 && their_public@ == #[trigger] x25519_public_of(k)
                    ==> bytes_result(r) == Ok::<Seq<u8>, CryptoError>(
                    x25519_shared(k, x25519_public_of(self@)),
                ),
    {
        proof {
            use_type_invariant(self);
        }
        if their_public.len() != 32 {
            return Err(CryptoError::Malformed);
        }
        Ok(x25519_diffie_hellman(self.secret.as_slice(), their_public))
    }
}

impl Default for X25519KeyPair {
    fn default() -> (r: X25519KeyPair)
        ensures
            r@.len() == 32,
    {
        X25519KeyPair::new()
    }
}

/// A medium-lived X25519 prekey, signed by the identity key.
#[derive(Clone)]
pub struct SignedPreKey {
    pub key_id: u32,
    pub public_key: Vec<u8>,
    pub signature: Vec<u8>,
    pub timestamp: u64,
}

/// A single-use X25519 prekey.
#[derive(Clone)]
pub struct OneTimePreKey {
    pub key_id: u32,
    pub public_key: Vec<u8>,
}

/// What a recipient publishes so that others can start sessions with it.
#[derive(Clone)]
pub struct PreKeyBundle {
    /// Ed25519 identity public key.
    pub identity_key: Vec<u8>,
    pub signed_pre_key: SignedPreKey,
    pub one_time_pre_key: Option<OneTimePreKey>,
}

impl PreKeyBundle {
    /// A bundle from its parts.
    pub fn new(
        identity_key: Vec<u8>,
        signed_pre_key: SignedPreKey,
        one_time_pre_key: Option<OneTimePreKey>,
    ) -> (r: PreKeyBundle)
        ensures
            r.identity_key == identity_key,
            r.signed_pre_key == signed_pre_key,
            r.one_time_pre_key == one_time_pre_key,
    {
        PreKeyBundle { identity_key, signed_pre_key, one_time_pre_key }
    }

    /// The identity key in standard base64.
    pub fn identity_key_base64(&self) -> (r: String)
        ensures
            r@ == base64_of(self.identity_key@),
    {
        base64_encode_standard(self.identity_key.as_slice())
    }
}

/// Assembles a bundle; the one-time prekey is present only when both its id and
/// its public key are given.
pub fn create_pre_key_bundle(
    identity_key: &[u8],
    signed_pre_key_id: u32,
    signed_pre_key_public: &[u8],
    signed_pre_key_signature: &[u8],
    signed_pre_key_timestamp: u64,
    one_time_pre_key_id: Option<u32>,
    one_time_pre_key_public: Option<Vec<u8>>,
) -> (r: PreKeyBundle)
    ensures
        r.identity_key@ == identity_key@,
        r.signed_pre_key.key_id == signed_pre_key_id,
        r.signed_pre_key.public_key@ == signed_pre_key_public@,
        r.signed_pre_key.signature@ == signed_pre_key_signature@,
        r.signed_pre_key.timestamp == signed_pre_key_timestamp,
        r.one_time_pre_key is Some <==> one_time_pre_key_id is Some && one_time_pre_key_public is Some,
        r.one_time_pre_key is Some ==> r.one_time_pre_key->Some_0.key_id == one_time_pre_key_id->Some_0
            && r.one_time_pre_key->Some_0.public_key == one_time_pre_key_public->Some_0,
{
    let signed_pre_key = SignedPreKey {
        key_id: signed_pre_key_id,
        public_key: copy_bytes(signed_pre_key_public),
        signature: copy_bytes(signed_pre_key_signature),
        timestamp: signed_pre_key_timestamp,
    };
    let one_time_pre_key = match (one_time_pre_key_id, one_time_pre_key_public) {
        (Some(key_id), Some(public_key)) => Some(OneTimePreKey { key_id, public_key }),
        _ => None,
    };
    PreKeyBundle::new(copy_bytes(identity_key), signed_pre_key, one_time_pre_key)
}

} // verus!
