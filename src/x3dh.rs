//! X3DH: the initiator and responder derivations of the initial shared secret,
//! and the signing of prekeys.
use vstd::prelude::*;

use crate::bytes::{append_bytes, copy_bytes};
use crate::convert::{
    ed25519_private_to_x25519_private, ed25519_public_to_x25519_public, x25519_scalar_from_seed,
};
use crate::error::CryptoError;
use crate::primitives::{
    base64_encode_standard, base64_of, ed25519_public_of, ed25519_sign, ed25519_signature,
    ed25519_verdict, ed25519_verify, hkdf_sha256, hkdf_sha256_expand, montgomery_of_edwards,
    opt_bytes, x25519_diffie_hellman, x25519_public, x25519_public_of, x25519_random_secret,
    x25519_shared,
};

verus! {

/// HKDF info string of the X3DH key derivation.
pub const X3DH_INFO: &'static str = "SafeTalk_X3DH";

/// The X3DH key derivation: HKDF-SHA256 with no salt, 32 bytes out.
pub open spec fn x3dh_kdf(ikm: Seq<u8>) -> Seq<u8> {
    hkdf_sha256(None, ikm, X3DH_INFO@, 32)
}

/// `DH1 || DH2 || DH3 || DH4?` as the initiator computes it, from its X25519
/// identity secret `ika`, the recipient's converted identity key `ikb_public`,
/// signed prekey `spk_public`, optional one-time prekey and ephemeral secret `ek`.
pub open spec fn initiator_concat(
    ika: Seq<u8>,
    ikb_public: Seq<u8>,
    spk_public: Seq<u8>,
    opk_public: Option<Seq<u8>>,
    ek: Seq<u8>,
) -> Seq<u8> {
    let base = x25519_shared(ika, spk_public) + x25519_shared(ek, ikb_public) + x25519_shared(
        ek,
        spk_public,
    );
    match opk_public {
        Some(opk) => base + x25519_shared(ek, opk),
        None => base,
    }
}

/// `DH1 || DH2 || DH3 || DH4?` as the responder computes it, from the sender's
/// converted identity key `ika_public` and ephemeral key `ek_public`, and its own
/// X25519 identity secret `ikb`, signed prekey secret and optional one-time
/// prekey secret.
pub open spec fn responder_concat(
    ikb: Seq<u8>,
    spk: Seq<u8>,
    opk: Option<Seq<u8>>,
    ika_public: Seq<u8>,
    ek_public: Seq<u8>,
) -> Seq<u8> {
    let base = x25519_shared(spk, ika_public) + x25519_shared(ikb, ek_public) + x25519_shared(
        spk,
        ek_public,
    );
    match opk {
        Some(o) => base + x25519_shared(o, ek_public),
        None => base,
    }
}

/// The secret both ends of an exchange agree on, written from the key material
/// of both: the two identity seeds, the signed prekey secret, the one-time
/// prekey's public key if one is used, and the initiator's ephemeral secret.
pub open spec fn x3dh_agreed_secret(
    alice_seed: Seq<u8>,
    bob_seed: Seq<u8>,
    spk: Seq<u8>,
    opk_public: Option<Seq<u8>>,
    ek: Seq<u8>,
) -> Seq<u8> {
    x3dh_kdf(
        initiator_concat(
            x25519_scalar_from_seed(alice_seed),
            x25519_public_of(x25519_scalar_from_seed(bob_seed)),
            x25519_public_of(spk),
            opk_public,
            ek,
        ),
    )
}

/// The public key of an optional secret.
pub open spec fn opt_public(secret: Option<Seq<u8>>) -> Option<Seq<u8>> {
    match secret {
        Some(s) => Some(x25519_public_of(s)),
        None => None,
    }
}

/// The error of signed-prekey verification, if any: wrong lengths are
/// `Malformed`, an identity key that is not a point is `InvalidKey`.
pub open spec fn prekey_check_failure(identity_public: Seq<u8>, prekey_public: Seq<u8>, signature: Seq<u8>) -> Option<CryptoError> {
    if identity_public.len() != 32 || signature.len() != 64 {
        Some(CryptoError::Malformed)
    } else if ed25519_verdict(identity_public, prekey_public, signature) is None {
        Some(CryptoError::InvalidKey)
    } else {
        None
    }
}

/// The initiator's error, if any, in the order the steps are taken.
pub open spec fn initiator_failure(
    sender_identity_private: Seq<u8>,
    identity_public: Seq<u8>,
    spk_public: Seq<u8>,
    signature: Seq<u8>,
    opk_public: Option<Seq<u8>>,
    ephemeral_ok: bool,
) -> Option<CryptoError> {
    if prekey_check_failure(identity_public, spk_public, signature) is Some {
        prekey_check_failure(identity_public, spk_public, signature)
    } else if ed25519_verdict(identity_public, spk_public, signature) == Some(false) {
        Some(CryptoError::BadPreKeySignature)
    } else if !ephemeral_ok || sender_identity_private.len() != 32 {
        Some(CryptoError::Malformed)
    } else if montgomery_of_edwards(identity_public) is None {
        Some(CryptoError::InvalidKey)
    } else if spk_public.len() != 32 || (opk_public is Some && opk_public->Some_0.len() != 32) {
        Some(CryptoError::Malformed)
    } else {
        None
    }
}

/// The responder's error, if any, in the order the steps are taken.
pub open spec fn responder_failure(
    identity_private: Seq<u8>,
    spk: Seq<u8>,
    opk: Option<Seq<u8>>,
    sender_identity_public: Seq<u8>,
    sender_ephemeral_public: Seq<u8>,
) -> Option<CryptoError> {
    if identity_private.len() != 32 || spk.len() != 32 || sender_identity_public.len() != 32 {
        Some(CryptoError::Malformed)
    } else if montgomery_of_edwards(sender_identity_public) is None {
        Some(CryptoError::InvalidKey)
    } else if sender_ephemeral_public.len() != 32 || (opk is Some && opk->Some_0.len() != 32) {
        Some(CryptoError::Malformed)
    } else {
        None
    }
}

/// What the initiator hands on: the shared secret, its ephemeral public key and
/// the id of the one-time prekey it used.
pub struct X3DHSenderOutput {
    pub shared_secret: Vec<u8>,
    pub ephemeral_public_key: Vec<u8>,
    pub used_one_time_prekey_id: Option<u32>,
}

impl X3DHSenderOutput {
    /// The 32-byte shared secret.
    pub fn shared_secret(&self) -> (r: Vec<u8>)
        ensures
            r@ == self.shared_secret@,
    {
        copy_bytes(self.shared_secret.as_slice())
    }

    /// The initiator's ephemeral public key.
    pub fn ephemeral_public_key(&self) -> (r: Vec<u8>)
        ensures
            r@ == self.ephemeral_public_key@,
    {
        copy_bytes(self.ephemeral_public_key.as_slice())
    }

    /// The id of the one-time prekey used, if any.
    pub fn used_one_time_prekey_id(&self) -> (r: Option<u32>)
        ensures
            r == self.used_one_time_prekey_id,
    {
        self.used_one_time_prekey_id
    }
}

/// The metadata sent with the first message so that the responder can run X3DH.
pub struct X3DHInitialMessage {
    pub sender_identity_key: Vec<u8>,
    pub ephemeral_key: Vec<u8>,
    pub one_time_prekey_id: Option<u32>,
}

impl X3DHInitialMessage {
    /// The sender's Ed25519 identity public key.
    pub fn sender_identity_key(&self) -> (r: Vec<u8>)
        ensures
            r@ == self.sender_identity_key@,
    {
        copy_bytes(self.sender_identity_key.as_slice())
    }

    /// The sender's ephemeral X25519 public key.
    pub fn ephemeral_key(&self) -> (r: Vec<u8>)
        ensures
            r@ == self.ephemeral_key@,
    {
        copy_bytes(self.ephemeral_key.as_slice())
    }

    /// The id of the one-time prekey the sender used, if any.
    pub fn one_time_prekey_id(&self) -> (r: Option<u32>)
        ensures
            r == self.one_time_prekey_id,
    {
        self.one_time_prekey_id
    }

    /// The sender's identity key in standard base64.
    pub fn sender_identity_key_base64(&self) -> (r: String)
        ensures
            r@ == base64_of(self.sender_identity_key@),
    {
        base64_encode_standard(self.sender_identity_key.as_slice())
    }
}

/// The X3DH key agreement.
pub struct X3DH;

impl X3DH {
    /// Checks the signature of a signed prekey under an identity key: wrong
    /// lengths are `Malformed`, an identity key that is not a point is
    /// `InvalidKey`, otherwise whether the signature is valid.
    pub fn verify_signed_prekey(identity_public: &[u8], prekey_public: &[u8], signature: &[u8]) -> (r: Result<bool, CryptoError>)
        ensures
            r is Err <==> prekey_check_failure(identity_public@, prekey_public@, signature@) is Some,
            r is Err ==> Some(r->Err_0) == prekey_check_failure(identity_public@, prekey_public@, signature@),
            r is Ok ==> ed25519_verdict(identity_public@, prekey_public@, signature@) == Some(r->Ok_0),
            forall|seed: Seq<u8>|
                seed.len() == 32 && identity_public@.len() == 32 && signature@.len() == 64
                    && identity_public@ == #[trigger] ed25519_public_of(seed) && signature@
                    == ed25519_signature(seed, prekey_public@) ==> r == Ok::<bool, CryptoError>(true),
    {
        if identity_public.len() != 32 || signature.len() != 64 {
            return Err(CryptoError::Malformed);
        }
        match ed25519_verify(identity_public, prekey_public, signature) {
            Some(valid) => Ok(valid),
            None => Err(CryptoError::InvalidKey),
        }
    }

    /// HKDF-SHA256 over the concatenated DH outputs.
    fn kdf(input: &[u8]) -> (r: Vec<u8>)
        ensures
            r@ == x3dh_kdf(input@),
            r@.len() == 32,
    {
        hkdf_sha256_expand(None, input, X3DH_INFO, 32)
    }

    /// The initiator's derivation with a given ephemeral secret. Steps, each
    /// failing with its own error: verify the signed prekey (`BadPreKeySignature`
    /// when the signature is wrong), convert the sender's identity secret and the
    /// recipient's identity key, then concatenate the three or four DH outputs
    /// and derive the secret. When the recipient's keys are those of a seed
    /// `bob_seed` and a prekey secret `spk`, the secret is the one the responder
    /// derives from them.
    pub fn initiator_calculate_with_ephemeral(
        ephemeral_private: &[u8],
        sender_identity_private: &[u8],
        recipient_identity_public: &[u8],
        recipient_signed_prekey_public: &[u8],
        recipient_signed_prekey_signature: &[u8],
        recipient_one_time_prekey_public: Option<Vec<u8>>,
        recipient_one_time_prekey_id: Option<u32>,
    ) -> (r: Result<X3DHSenderOutput, CryptoError>)
        ensures
            r is Err <==> initiator_failure(
                sender_identity_private@,
                recipient_identity_public@,
                recipient_signed_prekey_public@,
                recipient_signed_prekey_signature@,
                opt_bytes(recipient_one_time_prekey_public),
                ephemeral_private@.len() == 32,
            ) is Some,
            r is Err ==> Some(r->Err_0) == initiator_failure(
                sender_identity_private@,
                recipient_identity_public@,
                recipient_signed_prekey_public@,
                recipient_signed_prekey_signature@,
                opt_bytes(recipient_one_time_prekey_public),
                ephemeral_private@.len() == 32,
            ),
            r is Ok ==> r->Ok_0.shared_secret@ == x3dh_kdf(
                initiator_concat(
                    x25519_scalar_from_seed(sender_identity_private@),
                    montgomery_of_edwards(recipient_identity_public@)->Some_0,
                    recipient_signed_prekey_public@,
                    opt_bytes(recipient_one_time_prekey_public),
                    ephemeral_private@,
                ),
            ),
            r is Ok ==> r->Ok_0.shared_secret@.len() == 32,
            r is Ok ==> r->Ok_0.ephemeral_public_key@ == x25519_public_of(ephemeral_private@),
            r is Ok ==> r->Ok_0.ephemeral_public_key@.len() == 32,
            r is Ok ==> r->Ok_0.used_one_time_prekey_id == (if recipient_one_time_prekey_public is Some {
                recipient_one_time_prekey_id
            } else {
                None
            }),
            forall|bob_seed: Seq<u8>, spk: Seq<u8>|
                #![trigger ed25519_public_of(bob_seed), x25519_public_of(spk)]
                r is Ok && bob_seed.len() == 32 && spk.len() == 32 && recipient_identity_public@
                    == ed25519_public_of(bob_seed) && recipient_signed_prekey_public@
                    == x25519_public_of(spk) ==> r->Ok_0.shared_secret@ == x3dh_agreed_secret(
                    sender_identity_private@,
                    bob_seed,
                    spk,
                    opt_bytes(recipient_one_time_prekey_public),
                    ephemeral_private@,
                ),
    {
        let valid = X3DH::verify_signed_prekey(
            recipient_identity_public,
            recipient_signed_prekey_public,
            recipient_signed_prekey_signature,
        )?;
        if !valid {
            return Err(CryptoError::BadPreKeySignature);
        }
        if ephemeral_private.len() != 32 {
            return Err(CryptoError::Malformed);
        }
        let ika = ed25519_private_to_x25519_private(sender_identity_private)?;
        let ikb = ed25519_public_to_x25519_public(recipient_identity_public)?;
        if recipient_signed_prekey_public.len() != 32 {
            return Err(CryptoError::Malformed);
        }
        let dh1 = x25519_diffie_hellman(ika.as_slice(), recipient_signed_prekey_public);
        let dh2 = x25519_diffie_hellman(ephemeral_private, ikb.as_slice());
        let dh3 = x25519_diffie_hellman(ephemeral_private, recipient_signed_prekey_public);
        let mut concat = dh1;
        append_bytes(&mut concat, dh2.as_slice());
        append_bytes(&mut concat, dh3.as_slice());
        let used_id = match &recipient_one_time_prekey_public {
            Some(opk) => {
                if opk.len() != 32 {
                    return Err(CryptoError::Malformed);
                }
                let dh4 = x25519_diffie_hellman(ephemeral_private, opk.as_slice());
                append_bytes(&mut concat, dh4.as_slice());
                recipient_one_time_prekey_id
            },
            None => None,
        };
        let shared_secret = X3DH::kdf(concat.as_slice());
        let ephemeral_public_key = x25519_public(ephemeral_private);
        Ok(X3DHSenderOutput { shared_secret, ephemeral_public_key, used_one_time_prekey_id: used_id })
    }

    /// The initiator's derivation with a fresh ephemeral key; see
    /// `initiator_calculate_with_ephemeral`.
    pub fn initiator_calculate(
        sender_identity_private: &[u8],
        recipient_identity_public: &[u8],
        recipient_signed_prekey_public: &[u8],
        recipient_signed_prekey_signature: &[u8],
        recipient_one_time_prekey_public: Option<Vec<u8>>,
        recipient_one_time_prekey_id: Option<u32>,
    ) -> (r: Result<X3DHSenderOutput, CryptoError>)
        ensures
            r is Err <==> initiator_failure(
                sender_identity_private@,
                recipient_identity_public@,
                recipient_signed_prekey_public@,
                recipient_signed_prekey_signature@,
                opt_bytes(recipient_one_time_prekey_public),
                true,
            ) is Some,
            r is Err ==> Some(r->Err_0) == initiator_failure(
                sender_identity_private@,
                recipient_identity_public@,
                recipient_signed_prekey_public@,
                recipient_signed_prekey_signature@,
                opt_bytes(recipient_one_time_prekey_public),
                true,
            ),
            r is Ok ==> exists|ek: Seq<u8>|
                ek.len() == 32 && r->Ok_0.ephemeral_public_key@ == #[trigger] x25519_public_of(ek)
                    && r->Ok_0.shared_secret@ == x3dh_kdf(
                    initiator_concat(
                        x25519_scalar_from_seed(sender_identity_private@),
                        montgomery_of_edwards(recipient_identity_public@)->Some_0,
                        recipient_signed_prekey_public@,
                        opt_bytes(recipient_one_time_prekey_public),
                        ek,
                    ),
                ),
            r is Ok ==> r->Ok_0.shared_secret@.len() == 32,
            r is Ok ==> r->Ok_0.ephemeral_public_key@.len() == 32,
            r is Ok ==> r->Ok_0.used_one_time_prekey_id == (if recipient_one_time_prekey_public is Some {
                recipient_one_time_prekey_id
            } else {
                None
            }),
    {
        let ephemeral = x25519_random_secret();
        X3DH::initiator_calculate_with_ephemeral(
            ephemeral.as_slice(),
            sender_identity_private,
            recipient_identity_public,
            recipient_signed_prekey_public,
            recipient_signed_prekey_signature,
            recipient_one_time_prekey_public,
            recipient_one_time_prekey_id,
        )
    }

    /// The responder's derivation: the same DH outputs from the other side, in
    /// the same order. When the sender's keys are those of a seed `alice_seed`
    /// and an ephemeral secret `ek`, the secret is the one the initiator derived.
    pub fn responder_calculate(
        recipient_identity_private: &[u8],
        recipient_signed_prekey_private: &[u8],
        recipient_one_time_prekey_private: Option<Vec<u8>>,
        sender_identity_public: &[u8],
        sender_ephemeral_public: &[u8],
    ) -> (r: Result<Vec<u8>, CryptoError>)
        ensures
            r is Err <==> responder_failure(
                recipient_identity_private@,
                recipient_signed_prekey_private@,
                opt_bytes(recipient_one_time_prekey_private),
                sender_identity_public@,
                sender_ephemeral_public@,
            ) is Some,
            r is Err ==> Some(r->Err_0) == responder_failure(
                recipient_identity_private@,
                recipient_signed_prekey_private@,
                opt_bytes(recipient_one_time_prekey_private),
                sender_identity_public@,
                sender_ephemeral_public@,
            ),
            r is Ok ==> r->Ok_0@ == x3dh_kdf(
                responder_concat(
                    x25519_scalar_from_seed(recipient_identity_private@),
                    recipient_signed_prekey_private@,
                    opt_bytes(recipient_one_time_prekey_private),
                    montgomery_of_edwards(sender_identity_public@)->Some_0,
                    sender_ephemeral_public@,
                ),
            ),
            r is Ok ==> r->Ok_0@.len() == 32,
            forall|alice_seed: Seq<u8>, ek: Seq<u8>|
                #![trigger ed25519_public_of(alice_seed), x25519_public_of(ek)]
                r is Ok && alice_seed.len() == 32 && ek.len() == 32 && sender_identity_public@
                    == ed25519_public_of(alice_seed) && sender_ephemeral_public@ == x25519_public_of(ek)
                    ==> r->Ok_0@ == x3dh_agreed_secret(
                    alice_seed,
                    recipient_identity_private@,
                    recipient_signed_prekey_private@,
                    opt_public(opt_bytes(recipient_one_time_prekey_private)),
                    ek,
                ),
    {
        let ikb = ed25519_private_to_x25519_private(recipient_identity_private)?;
        if recipient_signed_prekey_private.len() != 32 {
            return Err(CryptoError::Malformed);
        }
        let ika = ed25519_public_to_x25519_public(sender_identity_public)?;
        if sender_ephemeral_public.len() != 32 {
            return Err(CryptoError::Malformed);
        }
        let dh1 = x25519_diffie_hellman(recipient_signed_prekey_private, ika.as_slice());
        let dh2 = x25519_diffie_hellman(ikb.as_slice(), sender_ephemeral_public);
        let dh3 = x25519_diffie_hellman(recipient_signed_prekey_private, sender_ephemeral_public);
        let dh4: Option<Vec<u8>> = match &recipient_one_time_prekey_private {
            Some(opk) => {
                if opk.len() != 32 {
                    return Err(CryptoError::Malformed);
                }
                Some(x25519_diffie_hellman(opk.as_slice(), sender_ephemeral_public))
            },
            None => None,
        };
        let mut concat = copy_bytes(dh1.as_slice());
        append_bytes(&mut concat, dh2.as_slice());
        append_bytes(&mut concat, dh3.as_slice());
        match &dh4 {
            Some(d) => append_bytes(&mut concat, d.as_slice()),
            None => {},
        }
        proof {
            let spk = recipient_signed_prekey_private@;
            let opk = opt_bytes(recipient_one_time_prekey_private);
            assert forall|alice_seed: Seq<u8>, ek: Seq<u8>|
                #![trigger ed25519_public_of(alice_seed), x25519_public_of(ek)]
                alice_seed.len() == 32 && ek.len() == 32 && sender_identity_public@
                    == ed25519_public_of(alice_seed) && sender_ephemeral_public@ == x25519_public_of(ek)
                    implies concat@ == initiator_concat(
                    x25519_scalar_from_seed(alice_seed),
                    x25519_public_of(x25519_scalar_from_seed(recipient_identity_private@)),
                    x25519_public_of(spk),
                    opt_public(opk),
                    ek,
                ) by {
                let ka = x25519_scalar_from_seed(alice_seed);
                assert(ika@ == x25519_public_of(ka));
                assert(dh1@ == x25519_shared(ka, x25519_public_of(spk)));
                assert(dh2@ == x25519_shared(ek, x25519_public_of(ikb@)));
                assert(dh3@ == x25519_shared(ek, x25519_public_of(spk)));
                if opk is Some {
                    assert(dh4->Some_0@ == x25519_shared(ek, x25519_public_of(opk->Some_0)));
                }
            }
        }
        Ok(X3DH::kdf(concat.as_slice()))
    }

    /// The metadata that accompanies the first message.
    pub fn create_initial_message(
        sender_identity_public: &[u8],
        ephemeral_public: &[u8],
        one_time_prekey_id: Option<u32>,
    ) -> (r: X3DHInitialMessage)
        ensures
            r.sender_identity_key@ == sender_identity_public@,
            r.ephemeral_key@ == ephemeral_public@,
            r.one_time_prekey_id == one_time_prekey_id,
    {
        X3DHInitialMessage {
            sender_identity_key: copy_bytes(sender_identity_public),
            ephemeral_key: copy_bytes(ephemeral_public),
            one_time_prekey_id,
        }
    }
}

/// Signs a prekey's public bytes with an identity seed; a seed that is not 32
/// bytes is `Malformed`.
pub fn sign_pre_key(identity_private: &[u8], prekey_public: &[u8]) -> (r: Result<Vec<u8>, CryptoError>)
    ensures
        identity_private@.len() != 32 <==> r is Err,
        r is Err ==> r->Err_0 == CryptoError::Malformed,
        r is Ok ==> r->Ok_0@ == ed25519_signature(identity_private@, prekey_public@) && r->Ok_0@.len()
            == 64,
{
    if identity_private.len() != 32 {
        return Err(CryptoError::Malformed);
    }
    Ok(ed25519_sign(identity_private, prekey_public))
}

} // verus!
