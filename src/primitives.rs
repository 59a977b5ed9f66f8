//! The calls into the outside cryptographic crates, each behind a small
//! trusted function whose contract states what that crate provides.
//!
//! Results that only the outside algorithm defines (a digest, a signature, a
//! curve point) are named by uninterpreted spec functions: the same inputs give
//! the same output, and nothing else is assumed of them unless stated below.
use aes_gcm::aead::{Aead, KeyInit, Payload};
use aes_gcm::{Aes256Gcm, Key, Nonce};
use base64::engine::general_purpose::STANDARD;
use base64::Engine;
use curve25519_dalek::edwards::CompressedEdwardsY;
use ed25519_dalek::{Signature, Signer, SigningKey, Verifier, VerifyingKey};
use hkdf::Hkdf;
use hmac::{Hmac, Mac};
use rand::rngs::OsRng;
use rand::RngCore;
use sha2::{Digest, Sha256, Sha512};
use vstd::prelude::*;
use x25519_dalek::{PublicKey, StaticSecret};

use crate::convert::x25519_scalar_from_seed;

verus! {

/// The largest message or associated-data length AES-GCM accepts (2^36 bytes).
pub open spec fn gcm_max_len() -> nat {
    68719476736
}

/// The largest output length HKDF-SHA256 can expand to (255 blocks of 32 bytes).
pub open spec fn hkdf_max_len() -> nat {
    8160
}

/// The view of an optional byte vector.
pub open spec fn opt_bytes(o: Option<Vec<u8>>) -> Option<Seq<u8>> {
    match o {
        Some(v) => Some(v@),
        None => None,
    }
}

/// AES-256-GCM sealing: ciphertext followed by the 16-byte tag.
pub uninterp spec fn aes_gcm_seal(key: Seq<u8>, nonce: Seq<u8>, msg: Seq<u8>, aad: Seq<u8>) -> Seq<u8>;

/// AES-256-GCM opening: the message, or `None` when the tag does not verify.
pub uninterp spec fn aes_gcm_open(key: Seq<u8>, nonce: Seq<u8>, sealed: Seq<u8>, aad: Seq<u8>) -> Option<Seq<u8>>;

/// The X25519 public key of a 32-byte secret.
pub uninterp spec fn x25519_public_of(secret: Seq<u8>) -> Seq<u8>;

/// The X25519 shared secret of a 32-byte secret and a 32-byte public key.
pub uninterp spec fn x25519_shared(secret: Seq<u8>, public: Seq<u8>) -> Seq<u8>;

/// The Ed25519 public key of a 32-byte seed.
pub uninterp spec fn ed25519_public_of(seed: Seq<u8>) -> Seq<u8>;

/// The Ed25519 signature of a message under a 32-byte seed.
pub uninterp spec fn ed25519_signature(seed: Seq<u8>, msg: Seq<u8>) -> Seq<u8>;

/// Ed25519 verification: `None` when the public key is not a curve point,
/// otherwise whether the signature is valid.
pub uninterp spec fn ed25519_verdict(public: Seq<u8>, msg: Seq<u8>, sig: Seq<u8>) -> Option<bool>;

/// The Montgomery-u encoding of a compressed Edwards point, or `None` when the
/// bytes do not decompress.
pub uninterp spec fn montgomery_of_edwards(public: Seq<u8>) -> Option<Seq<u8>>;

/// SHA-512 digest.
pub uninterp spec fn sha512_of(data: Seq<u8>) -> Seq<u8>;

/// HMAC-SHA256 tag.
pub uninterp spec fn hmac_sha256(key: Seq<u8>, data: Seq<u8>) -> Seq<u8>;

/// HKDF-SHA256 extract-then-expand output of `len` bytes; no salt means 32 zero bytes.
pub uninterp spec fn hkdf_sha256(salt: Option<Seq<u8>>, ikm: Seq<u8>, info: Seq<char>, len: nat) -> Seq<u8>;

/// Standard base64 with padding.
pub uninterp spec fn base64_of(data: Seq<u8>) -> Seq<char>;

/// Relies on rand's `OsRng::fill_bytes`: `len` bytes from the operating system.
#[verifier::external_body]
pub(crate) fn os_random(len: usize) -> (r: Vec<u8>)
    ensures
        r@.len() == len,
{
    let mut bytes = vec![0u8; len];
    OsRng.fill_bytes(&mut bytes);
    bytes
}

/// Relies on aes_gcm's `Aes256Gcm::encrypt` with a `Payload`: it refuses only a
/// message or associated data longer than 2^36 bytes, and appends a 16-byte tag.
#[verifier::external_body]
pub(crate) fn gcm_seal(key: &[u8], nonce: &[u8], msg: &[u8], aad: &[u8]) -> (r: Option<Vec<u8>>)
    requires
        key@.len() == 32,
        nonce@.len() == 12,
    ensures
        r is Some == (msg@.len() <= gcm_max_len() && aad@.len() <= gcm_max_len()),
        r is Some ==> r->Some_0@ == aes_gcm_seal(key@, nonce@, msg@, aad@),
        r is Some ==> r->Some_0@.len() == msg@.len() + 16,
{
    let cipher = Aes256Gcm::new(Key::<Aes256Gcm>::from_slice(key));
    cipher.encrypt(Nonce::from_slice(nonce), Payload { msg, aad }).ok()
}

/// Relies on aes_gcm's `Aes256Gcm::decrypt` with a `Payload`. GCM is
/// deterministic for a key and nonce: what opens is exactly what seals to the
/// input, and a sealed message within the length bounds opens to itself.
#[verifier::external_body]
pub(crate) fn gcm_open(key: &[u8], nonce: &[u8], sealed: &[u8], aad: &[u8]) -> (r: Option<Vec<u8>>)
    requires
        key@.len() == 32,
        nonce@.len() == 12,
    ensures
        opt_bytes(r) == aes_gcm_open(key@, nonce@, sealed@, aad@),
        r is Some ==> aes_gcm_seal(key@, nonce@, r->Some_0@, aad@) == sealed@,
        forall|m: Seq<u8>|
            m.len() <= gcm_max_len() && aad@.len() <= gcm_max_len() && #[trigger] aes_gcm_seal(
                key@,
                nonce@,
                m,
                aad@,
            ) == sealed@ ==> opt_bytes(r) == Some(m),
{
    let cipher = Aes256Gcm::new(Key::<Aes256Gcm>::from_slice(key));
    cipher.decrypt(Nonce::from_slice(nonce), Payload { msg: sealed, aad }).ok()
}

/// Relies on x25519_dalek's `StaticSecret::random_from_rng(OsRng)`: 32 random bytes.
#[verifier::external_body]
pub(crate) fn x25519_random_secret() -> (r: Vec<u8>)
    ensures
        r@.len() == 32,
{
    StaticSecret::random_from_rng(OsRng).to_bytes().to_vec()
}

/// Relies on x25519_dalek's `PublicKey::from(&StaticSecret::from(secret))`.
#[verifier::external_body]
pub(crate) fn x25519_public(secret: &[u8]) -> (r: Vec<u8>)
    requires
        secret@.len() == 32,
    ensures
        r@ == x25519_public_of(secret@),
        r@.len() == 32,
{
    let mut bytes = [0u8; 32];
    bytes.copy_from_slice(secret);
    PublicKey::from(&StaticSecret::from(bytes)).as_bytes().to_vec()
}

/// Relies on x25519_dalek's `StaticSecret::diffie_hellman`. Both public keys and
/// shared secrets are multiples of one base point by clamped scalars
/// (`mul_base_clamped`, `mul_clamped`), so each side of an exchange gets the
/// same bytes: a secret `k` whose public key is `public` shares with `secret`
/// what `secret` shares with `k`.
#[verifier::external_body]
pub(crate) fn x25519_diffie_hellman(secret: &[u8], public: &[u8]) -> (r: Vec<u8>)
    requires
        secret@.len() == 32,
        public@.len() == 32,
    ensures
        r@ == x25519_shared(secret@, public@),
        r@.len() == 32,
        forall|k: Seq<u8>|
            k.len() == 32 && public@ == #[trigger] x25519_public_of(k) ==> r@ == x25519_shared(
                k,
                x25519_public_of(secret@),
            ),
{
    let mut secret_bytes = [0u8; 32];
    secret_bytes.copy_from_slice(secret);
    let mut public_bytes = [0u8; 32];
    public_bytes.copy_from_slice(public);
    let shared = StaticSecret::from(secret_bytes).diffie_hellman(&PublicKey::from(public_bytes));
    shared.as_bytes().to_vec()
}

/// Relies on ed25519_dalek's `SigningKey::generate(&mut OsRng)`: a random 32-byte seed.
#[verifier::external_body]
pub(crate) fn ed25519_random_seed() -> (r: Vec<u8>)
    ensures
        r@.len() == 32,
{
    SigningKey::generate(&mut OsRng).to_bytes().to_vec()
}

/// Relies on ed25519_dalek's `SigningKey::from_bytes(seed).verifying_key()`.
#[verifier::external_body]
pub(crate) fn ed25519_public(seed: &[u8]) -> (r: Vec<u8>)
    requires
        seed@.len() == 32,
    ensures
        r@ == ed25519_public_of(seed@),
        r@.len() == 32,
{
    let mut bytes = [0u8; 32];
    bytes.copy_from_slice(seed);
    SigningKey::from_bytes(&bytes).verifying_key().to_bytes().to_vec()
}

/// Relies on ed25519_dalek's `SigningKey::sign`: a 64-byte deterministic signature.
#[verifier::external_body]
pub(crate) fn ed25519_sign(seed: &[u8], msg: &[u8]) -> (r: Vec<u8>)
    requires
        seed@.len() == 32,
    ensures
        r@ == ed25519_signature(seed@, msg@),
        r@.len() == 64,
{
    let mut bytes = [0u8; 32];
    bytes.copy_from_slice(seed);
    SigningKey::from_bytes(&bytes).sign(msg).to_bytes().to_vec()
}

/// Relies on ed25519_dalek's `VerifyingKey::from_bytes` (which fails when the
/// key does not decompress) and `Verifier::verify`, which accepts the
/// signature that `SigningKey::sign` made for the matching key and message.
#[verifier::external_body]
pub(crate) fn ed25519_verify(public: &[u8], msg: &[u8], sig: &[u8]) -> (r: Option<bool>)
    requires
        public@.len() == 32,
        sig@.len() == 64,
    ensures
        r == ed25519_verdict(public@, msg@, sig@),
        forall|seed: Seq<u8>|
            seed.len() == 32 && public@ == #[trigger] ed25519_public_of(seed) && sig@
                == ed25519_signature(seed, msg@) ==> r == Some(true),
{
    let mut public_bytes = [0u8; 32];
    public_bytes.copy_from_slice(public);
    let mut sig_bytes = [0u8; 64];
    sig_bytes.copy_from_slice(sig);
    match VerifyingKey::from_bytes(&public_bytes) {
        Ok(key) => Some(key.verify(msg, &Signature::from_bytes(&sig_bytes)).is_ok()),
        Err(_) => None,
    }
}

/// Relies on curve25519_dalek's `CompressedEdwardsY::decompress` and
/// `EdwardsPoint::to_montgomery`. For an Ed25519 public key, ed25519_dalek
/// documents (`VerifyingKey::to_montgomery`) that the result is the X25519 public
/// key of the seed's scalar bytes, the first half of its SHA-512 digest; X25519
/// clamps a scalar before use, so the clamped bytes give the same public key.
#[verifier::external_body]
pub(crate) fn edwards_to_montgomery(public: &[u8]) -> (r: Option<Vec<u8>>)
    requires
        public@.len() == 32,
    ensures
        opt_bytes(r) == montgomery_of_edwards(public@),
        r is Some ==> r->Some_0@.len() == 32,
        forall|seed: Seq<u8>|
            seed.len() == 32 && public@ == #[trigger] ed25519_public_of(seed) ==> opt_bytes(r) == Some(
                x25519_public_of(x25519_scalar_from_seed(seed)),
            ),
{
    let mut bytes = [0u8; 32];
    bytes.copy_from_slice(public);
    match CompressedEdwardsY(bytes).decompress() {
        Some(point) => Some(point.to_montgomery().to_bytes().to_vec()),
        None => None,
    }
}

/// Relies on sha2's `Sha512::digest`: a 64-byte digest.
#[verifier::external_body]
pub(crate) fn sha512(data: &[u8]) -> (r: Vec<u8>)
    ensures
        r@ == sha512_of(data@),
        r@.len() == 64,
{
    Sha512::digest(data).to_vec()
}

/// Relies on hmac's `Hmac::<Sha256>`: `new_from_slice` accepts keys of any
/// length, and `finalize` gives a 32-byte tag.
#[verifier::external_body]
pub(crate) fn hmac_sha256_tag(key: &[u8], data: &[u8]) -> (r: Vec<u8>)
    ensures
        r@ == hmac_sha256(key@, data@),
        r@.len() == 32,
{
    let mut mac = match <Hmac<Sha256> as Mac>::new_from_slice(key) {
        Ok(mac) => mac,
        Err(_) => return Vec::new(),
    };
    mac.update(data);
    mac.finalize().into_bytes().to_vec()
}

/// Relies on hkdf's `Hkdf::<Sha256>::new(salt, ikm).expand(info, ..)`, which
/// fails only for outputs longer than 255 * 32 bytes.
#[verifier::external_body]
pub(crate) fn hkdf_sha256_expand(salt: Option<&[u8]>, ikm: &[u8], info: &str, len: usize) -> (r: Vec<u8>)
    requires
        len <= hkdf_max_len(),
    ensures
        r@ == hkdf_sha256(
            match salt {
                Some(s) => Some(s@),
                None => None,
            },
            ikm@,
            info@,
            len as nat,
        ),
        r@.len() == len,
{
    let mut okm = vec![0u8; len];
    let _ = Hkdf::<Sha256>::new(salt, ikm).expand(info.as_bytes(), &mut okm);
    okm
}

/// Relies on base64's `STANDARD.encode`.
#[verifier::external_body]
pub(crate) fn base64_encode_standard(data: &[u8]) -> (r: String)
    ensures
        r@ == base64_of(data@),
{
    STANDARD.encode(data)
}

/// Relies on base64's `STANDARD.decode`. That engine requires canonical padding
/// and rejects trailing bits, so it accepts exactly the encodings of byte strings.
#[verifier::external_body]
pub(crate) fn base64_decode_standard(text: &str) -> (r: Option<Vec<u8>>)
    ensures
        r is Some ==> base64_of(r->Some_0@) == text@,
        forall|b: Seq<u8>| text@ == #[trigger] base64_of(b) ==> opt_bytes(r) == Some(b),
{
    STANDARD.decode(text).ok()
}

} // verus!
