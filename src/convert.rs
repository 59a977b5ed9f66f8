//! Mapping Ed25519 identity keys to X25519 keys, so that one identity key both
//! signs and takes part in Diffie-Hellman.
use vstd::prelude::*;

use crate::error::{bytes_result, CryptoError};
use crate::primitives::{
    ed25519_public_of, edwards_to_montgomery, montgomery_of_edwards, sha512, sha512_of,
    x25519_public_of,
};

verus! {

/// Curve25519 clamping: clear the low three bits, clear the top bit, set bit 254.
pub open spec fn clamp(b: Seq<u8>) -> Seq<u8>
    recommends
        b.len() == 32,
{
    b.update(0, b[0] & 248u8).update(31, (b[31] & 127u8) | 64u8)
}

/// The first 32 bytes of a byte string.
pub open spec fn first_32(b: Seq<u8>) -> Seq<u8> {
    Seq::new(32, |i: int| b[i])
}

/// The X25519 secret that an Ed25519 seed stands for: the clamped first half
/// of the seed's SHA-512 digest.
pub open spec fn x25519_scalar_from_seed(seed: Seq<u8>) -> Seq<u8> {
    clamp(first_32(sha512_of(seed)))
}

/// Converts an Ed25519 private seed into the X25519 secret it stands for.
/// Only a 32-byte seed is accepted.
pub fn ed25519_private_to_x25519_private(seed: &[u8]) -> (r: Result<Vec<u8>, CryptoError>)
    ensures
        seed@.len() == 32 <==> r is Ok,
        r is Err ==> r->Err_0 == CryptoError::Malformed,
        r is Ok ==> r->Ok_0@ == x25519_scalar_from_seed(seed@) && r->Ok_0@.len() == 32,
{
    if seed.len() != 32 {
        return Err(CryptoError::Malformed);
    }
    let digest = sha512(seed);
    let mut out: Vec<u8> = Vec::new();
    let mut i: usize = 0;
    while i < 32
        invariant
            i <= 32,
            digest@.len() == 64,
            out@ == digest@.subrange(0, i as int),
        decreases 32 - i,
    {
        out.push(digest[i]);
        i += 1;
    }
    assert(out@ == first_32(digest@));
    let first = out[0] & 248u8;
    out.set(0, first);
    let last = (out[31] & 127u8) | 64u8;
    out.set(31, last);
    Ok(out)
}

/// Converts an Ed25519 public key into the X25519 public key of the same
/// identity. Fails with `Malformed` on a wrong length and `InvalidKey` when the
/// bytes are not a curve point. For the public key of a seed, the result is the
/// X25519 public key of the secret that `ed25519_private_to_x25519_private`
/// gives for that seed, so both ends of an exchange agree.
pub fn ed25519_public_to_x25519_public(public: &[u8]) -> (r: Result<Vec<u8>, CryptoError>)
    ensures
        public@.len() != 32 ==> r == Err::<Vec<u8>, CryptoError>(CryptoError::Malformed),
        public@.len() == 32 ==> bytes_result(r) == match montgomery_of_edwards(public@) {
            Some(u) => Ok(u),
            None => Err(CryptoError::InvalidKey),
        },
        r is Ok ==> r->Ok_0@.len() == 32,
        forall|seed: Seq<u8>|
            seed.len() == 32 && public@.len() == 32 && public@ == #[trigger] ed25519_public_of(seed)
                ==> bytes_result(r) == Ok::<Seq<u8>, CryptoError>(
                x25519_public_of(x25519_scalar_from_seed(seed)),
            ),
{
    if public.len() != 32 {
        return Err(CryptoError::Malformed);
    }
    match edwards_to_montgomery(public) {
        Some(u) => Ok(u),
        None => Err(CryptoError::InvalidKey),
    }
}

} // verus!
