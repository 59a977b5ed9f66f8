//! The Double Ratchet session: chain stepping, the DH ratchet, the store of
//! skipped message keys, and the session's byte encoding.
use vstd::prelude::*;

use crate::aes::{AesGcmCipher, EncryptedMessage};
use crate::bytes::{
    append_bytes, be32, be32_at, bytes_equal, copy_bytes, copy_range, lemma_be32_read, lemma_be32_window,
    push_be32, read_be32,
};
use crate::error::{bytes_result, CryptoError};
use crate::primitives::{
    aes_gcm_open, aes_gcm_seal, base64_encode_standard, base64_of, gcm_max_len, hkdf_sha256, opt_bytes,
    hkdf_sha256_expand, hmac_sha256, hmac_sha256_tag, os_random, x25519_diffie_hellman,
    x25519_public, x25519_public_of, x25519_random_secret, x25519_shared,
};

verus! {

/// How far ahead of the receiving chain a message may be.
pub const MAX_SKIP: u32 = 1000;

/// HKDF info string of the root-key derivation.
pub const RATCHET_INFO: &'static str = "SafeTalk_Ratchet";

/// HKDF info string of the message-key derivation.
pub const MESSAGE_KEYS_INFO: &'static str = "SafeTalk_MessageKeys";

/// `n` bytes of `b` from `start`.
pub open spec fn bytes_at(b: Seq<u8>, start: int, n: nat) -> Seq<u8> {
    Seq::new(n, |i: int| b[start + i])
}

/// KDF_RK, new root key: the first half of HKDF-SHA256(salt = root key, ikm = DH output).
pub open spec fn kdf_root(root_key: Seq<u8>, dh_out: Seq<u8>) -> Seq<u8> {
    bytes_at(hkdf_sha256(Some(root_key), dh_out, RATCHET_INFO@, 64), 0, 32)
}

/// KDF_RK, new chain key: the second half of the same HKDF output.
pub open spec fn kdf_chain(root_key: Seq<u8>, dh_out: Seq<u8>) -> Seq<u8> {
    bytes_at(hkdf_sha256(Some(root_key), dh_out, RATCHET_INFO@, 64), 32, 32)
}

/// The next chain key: HMAC-SHA256(chain key, 0x03).
pub open spec fn chain_step(chain_key: Seq<u8>) -> Seq<u8> {
    hmac_sha256(chain_key, seq![3u8])
}

/// The cipher key of a chain key: HMAC-SHA256(chain key, 0x01).
pub open spec fn message_cipher_key(chain_key: Seq<u8>) -> Seq<u8> {
    hmac_sha256(chain_key, seq![1u8])
}

/// What a message key triple holds.
pub struct KeysView {
    pub cipher_key: Seq<u8>,
    pub mac_key: Seq<u8>,
    pub iv: Seq<u8>,
}

/// KDF_CK: cipher key, MAC key HMAC-SHA256(chain key, 0x02), and a 16-byte IV
/// expanded from the cipher key.
pub open spec fn message_keys(chain_key: Seq<u8>) -> KeysView {
    KeysView {
        cipher_key: message_cipher_key(chain_key),
        mac_key: hmac_sha256(chain_key, seq![2u8]),
        iv: hkdf_sha256(None, message_cipher_key(chain_key), MESSAGE_KEYS_INFO@, 16),
    }
}

/// The keys for one message. Only the cipher key is used by AES-GCM; the MAC
/// key and IV are derived alongside it.
pub struct MessageKeys {
    cipher_key: Vec<u8>,
    mac_key: Vec<u8>,
    iv: Vec<u8>,
}

impl View for MessageKeys {
    type V = KeysView;

    closed spec fn view(&self) -> KeysView {
        KeysView { cipher_key: self.cipher_key@, mac_key: self.mac_key@, iv: self.iv@ }
    }
}

/// A Diffie-Hellman key pair of the session.
struct DhKeyPair {
    public: Vec<u8>,
    private: Vec<u8>,
}

impl DhKeyPair {
    /// The pair of a 32-byte secret.
    fn from_secret(private: Vec<u8>) -> (r: DhKeyPair)
        requires
            private@.len() == 32,
        ensures
            r.private@ == private@,
            r.public@ == x25519_public_of(private@),
            r.public@.len() == 32,
    {
        let public = x25519_public(private.as_slice());
        DhKeyPair { public, private }
    }

    /// The shared secret with a peer's 32-byte public key.
    fn diffie_hellman(&self, their_public: &[u8]) -> (r: Vec<u8>)
        requires
            self.private@.len() == 32,
            their_public@.len() == 32,
        ensures
            r@ == x25519_shared(self.private@, their_public@),
            r@.len() == 32,
            forall|k: Seq<u8>|
                k.len() == 32 && their_public@ == #[trigger] x25519_public_of(k) ==> r@ == x25519_shared(
                    k,
                    x25519_public_of(self.private@),
                ),
    {
        x25519_diffie_hellman(self.private.as_slice(), their_public)
    }
}

/// A stored key for a message that has not arrived yet.
pub struct SkippedView {
    pub dh_public: Seq<u8>,
    pub number: u32,
    pub keys: KeysView,
}

struct SkippedKey {
    dh_public: Vec<u8>,
    number: u32,
    keys: MessageKeys,
}

impl View for SkippedKey {
    type V = SkippedView;

    closed spec fn view(&self) -> SkippedView {
        SkippedView { dh_public: self.dh_public@, number: self.number, keys: self.keys@ }
    }
}

/// Whether entry `i` is stored under (`dh_public`, `number`).
pub open spec fn stored_at(s: Seq<SkippedView>, i: int, dh_public: Seq<u8>, number: u32) -> bool {
    s[i].dh_public == dh_public && s[i].number == number
}

/// Whether a key is stored under (`dh_public`, `number`).
pub open spec fn has_skipped(s: Seq<SkippedView>, dh_public: Seq<u8>, number: u32) -> bool {
    exists|i: int| 0 <= i < s.len() && #[trigger] stored_at(s, i, dh_public, number)
}

/// The position of the key stored under (`dh_public`, `number`).
pub open spec fn skipped_pos(s: Seq<SkippedView>, dh_public: Seq<u8>, number: u32) -> int {
    choose|i: int| 0 <= i < s.len() && #[trigger] stored_at(s, i, dh_public, number)
}

/// No two stored keys share a (public key, number) pair.
pub open spec fn skipped_unique(s: Seq<SkippedView>) -> bool {
    forall|i: int, j: int|
        #![trigger s[i], s[j]]
        0 <= i < s.len() && 0 <= j < s.len() && i != j ==> !(s[i].dh_public == s[j].dh_public
            && s[i].number == s[j].number)
}

/// Stores `e`, replacing a key stored under the same pair.
pub open spec fn insert_skipped(s: Seq<SkippedView>, e: SkippedView) -> Seq<SkippedView> {
    if has_skipped(s, e.dh_public, e.number) {
        s.update(skipped_pos(s, e.dh_public, e.number), e)
    } else {
        s.push(e)
    }
}

/// The key material a session holds.
pub struct SessionView {
    pub dh_self_private: Seq<u8>,
    pub dh_self_public: Seq<u8>,
    pub dh_remote: Option<Seq<u8>>,
    pub root_key: Seq<u8>,
    pub chain_key_send: Option<Seq<u8>>,
    pub chain_key_recv: Option<Seq<u8>>,
    pub send_count: u32,
    pub recv_count: u32,
    pub prev_send_count: u32,
    pub skipped: Seq<SkippedView>,
}

/// An optional key has 32 bytes.
pub open spec fn opt_key_ok(k: Option<Seq<u8>>) -> bool {
    k matches Some(b) ==> b.len() == 32
}

/// A stored key has its sizes: a 32-byte peer key, 32-byte cipher and MAC keys
/// and a 16-byte IV.
pub open spec fn entry_sized(e: SkippedView) -> bool {
    e.dh_public.len() == 32 && e.keys.cipher_key.len() == 32 && e.keys.mac_key.len() == 32
        && e.keys.iv.len() == 16
}

/// The session invariant: keys have their sizes, a receiving chain exists only
/// with a known peer key, and the store holds at most one key per pair.
pub open spec fn session_wf(v: SessionView) -> bool {
    &&& v.dh_self_private.len() == 32
    &&& v.dh_self_public.len() == 32
    &&& v.root_key.len() == 32
    &&& opt_key_ok(v.dh_remote)
    &&& opt_key_ok(v.chain_key_send)
    &&& opt_key_ok(v.chain_key_recv)
    &&& (v.chain_key_recv is Some ==> v.dh_remote is Some)
    &&& skipped_unique(v.skipped)
    &&& forall|i: int|
        0 <= i < v.skipped.len() ==> entry_sized(#[trigger] v.skipped[i])
}

/// The session of the initiator, from the X3DH secret, the responder's signed
/// prekey and the initiator's first ratchet secret.
pub open spec fn alice_start(shared_secret: Seq<u8>, remote: Seq<u8>, secret: Seq<u8>) -> SessionView {
    let dh_out = x25519_shared(secret, remote);
    SessionView {
        dh_self_private: secret,
        dh_self_public: x25519_public_of(secret),
        dh_remote: Some(remote),
        root_key: kdf_root(shared_secret, dh_out),
        chain_key_send: Some(kdf_chain(shared_secret, dh_out)),
        chain_key_recv: None,
        send_count: 0,
        recv_count: 0,
        prev_send_count: 0,
        skipped: Seq::empty(),
    }
}

/// The session of the responder, from the X3DH secret and its signed prekey.
pub open spec fn bob_start(shared_secret: Seq<u8>, spk_private: Seq<u8>, spk_public: Seq<u8>) -> SessionView {
    SessionView {
        dh_self_private: spk_private,
        dh_self_public: spk_public,
        dh_remote: None,
        root_key: shared_secret,
        chain_key_send: None,
        chain_key_recv: None,
        send_count: 0,
        recv_count: 0,
        prev_send_count: 0,
        skipped: Seq::empty(),
    }
}

/// What a message on the wire holds.
pub struct MessageView {
    pub dh_public: Seq<u8>,
    pub prev_chain_count: u32,
    pub message_number: u32,
    pub ciphertext: Seq<u8>,
    pub nonce: Seq<u8>,
}

/// Sending: the session after the send, and the message or the error. The
/// plaintext is sealed under the current chain's message key with `nonce`.
pub open spec fn send_step(v: SessionView, plaintext: Seq<u8>, nonce: Seq<u8>) -> (SessionView, Result<MessageView, CryptoError>) {
    match v.chain_key_send {
        None => (v, Err(CryptoError::NoSendingChain)),
        Some(ck) => if v.send_count == u32::MAX {
            (v, Err(CryptoError::ChainExhausted))
        } else if plaintext.len() > gcm_max_len() || nonce.len() != 12 {
            (v, Err(CryptoError::Malformed))
        } else {
            (
                SessionView { chain_key_send: Some(chain_step(ck)), send_count: (v.send_count + 1) as u32, ..v },
                Ok(
                    MessageView {
                        dh_public: v.dh_self_public,
                        prev_chain_count: v.prev_send_count,
                        message_number: v.send_count,
                        ciphertext: aes_gcm_seal(message_cipher_key(ck), nonce, plaintext, Seq::empty()),
                        nonce,
                    },
                ),
            )
        },
    }
}

/// The peer key under which the current receiving chain's skipped keys are stored.
pub open spec fn remote_id(v: SessionView) -> Seq<u8> {
    match v.dh_remote {
        Some(r) => r,
        None => Seq::empty(),
    }
}

/// Stores the keys of messages `from .. until` of a chain that starts at `chain_key`,
/// and gives the store and the chain key that follows.
pub open spec fn skip_chain(
    s: Seq<SkippedView>,
    remote: Seq<u8>,
    chain_key: Seq<u8>,
    from: nat,
    until: nat,
) -> (Seq<SkippedView>, Seq<u8>)
    decreases until - from,
{
    if from >= until {
        (s, chain_key)
    } else {
        skip_chain(
            insert_skipped(
                s,
                SkippedView { dh_public: remote, number: from as u32, keys: message_keys(chain_key) },
            ),
            remote,
            chain_step(chain_key),
            from + 1,
            until,
        )
    }
}

/// Skipping the receiving chain up to message `until`: without a receiving
/// chain nothing happens; more than `MAX_SKIP` ahead is `TooManySkipped`.
pub open spec fn skip_to(v: SessionView, until: u32) -> Result<SessionView, CryptoError> {
    match v.chain_key_recv {
        None => Ok(v),
        Some(ck) => if v.recv_count + MAX_SKIP < until {
            Err(CryptoError::TooManySkipped)
        } else if until <= v.recv_count {
            Ok(v)
        } else {
            let (s, next) = skip_chain(v.skipped, remote_id(v), ck, v.recv_count as nat, until as nat);
            Ok(SessionView { skipped: s, chain_key_recv: Some(next), recv_count: until, ..v })
        },
    }
}

/// The DH ratchet on a new peer key, with `fresh` as the next ratchet secret: a
/// receiving chain from the old key pair, then a sending chain from the new one.
pub open spec fn ratchet_step(v: SessionView, remote: Seq<u8>, fresh: Seq<u8>) -> SessionView {
    let dh_recv = x25519_shared(v.dh_self_private, remote);
    let root = kdf_root(v.root_key, dh_recv);
    let dh_send = x25519_shared(fresh, remote);
    SessionView {
        dh_self_private: fresh,
        dh_self_public: x25519_public_of(fresh),
        dh_remote: Some(remote),
        root_key: kdf_root(root, dh_send),
        chain_key_send: Some(kdf_chain(root, dh_send)),
        chain_key_recv: Some(kdf_chain(v.root_key, dh_recv)),
        send_count: 0,
        recv_count: 0,
        prev_send_count: v.send_count,
        skipped: v.skipped,
    }
}

/// Opening a message's payload under a cipher key.
pub open spec fn open_payload(cipher_key: Seq<u8>, m: MessageView) -> Result<Seq<u8>, CryptoError> {
    match aes_gcm_open(cipher_key, m.nonce, m.ciphertext, Seq::empty()) {
        Some(p) => Ok(p),
        None => Err(CryptoError::DecryptAuth),
    }
}

/// Receiving after any skipping: the session once the receiving chain has
/// stepped, and the cipher key of the message, derived from that chain.
pub open spec fn receive_in_chain(w: SessionView) -> (SessionView, Result<Seq<u8>, CryptoError>) {
    match w.chain_key_recv {
        None => (w, Err(CryptoError::DecryptAuth)),
        Some(ck) => if w.recv_count == u32::MAX {
            (w, Err(CryptoError::ChainExhausted))
        } else {
            (
                SessionView { chain_key_recv: Some(chain_step(ck)), recv_count: (w.recv_count + 1) as u32, ..w },
                Ok(message_cipher_key(ck)),
            )
        },
    }
}

/// Receiving up to the opening of the payload: the session after the call, and
/// the cipher key the message is to be opened with, or the error, with `fresh`
/// as the ratchet secret should a DH ratchet happen. A stored key is used and
/// dropped; otherwise a new peer key closes the current receiving chain
/// (storing its remaining keys) and ratchets, and the new chain is skipped up to
/// the message. A message with a wrong-size key or nonce, or a `fresh` that is
/// not 32 bytes, is `Malformed` and changes nothing.
pub open spec fn receive_keyed(v: SessionView, m: MessageView, fresh: Seq<u8>) -> (SessionView, Result<Seq<u8>, CryptoError>) {
    if m.dh_public.len() != 32 || m.nonce.len() != 12 || fresh.len() != 32 {
        (v, Err(CryptoError::Malformed))
    } else if has_skipped(v.skipped, m.dh_public, m.message_number) {
        let i = skipped_pos(v.skipped, m.dh_public, m.message_number);
        (SessionView { skipped: v.skipped.remove(i), ..v }, Ok(v.skipped[i].keys.cipher_key))
    } else {
        let ratchet = v.dh_remote != Some(m.dh_public);
        let closed = if ratchet {
            skip_to(v, m.prev_chain_count)
        } else {
            Ok(v)
        };
        match closed {
            Err(e) => (v, Err(e)),
            Ok(w) => {
                let w2 = if ratchet {
                    ratchet_step(w, m.dh_public, fresh)
                } else {
                    w
                };
                match skip_to(w2, m.message_number) {
                    Err(e) => (w2, Err(e)),
                    Ok(w3) => receive_in_chain(w3),
                }
            },
        }
    }
}

/// Whether receiving `m` performs a DH ratchet: a well-formed message with a new
/// peer key, no stored key for it, and the current receiving chain closed
/// within the skip bound.
pub open spec fn receive_ratchets(v: SessionView, m: MessageView, fresh: Seq<u8>) -> bool {
    &&& m.dh_public.len() == 32
    &&& m.nonce.len() == 12
    &&& fresh.len() == 32
    &&& !has_skipped(v.skipped, m.dh_public, m.message_number)
    &&& v.dh_remote != Some(m.dh_public)
    &&& skip_to(v, m.prev_chain_count) is Ok
}

/// Receiving: the session after the call, and the plaintext or the error. The
/// payload is opened under the key `receive_keyed` selects.
pub open spec fn receive_step(v: SessionView, m: MessageView, fresh: Seq<u8>) -> (SessionView, Result<Seq<u8>, CryptoError>) {
    let (w, key) = receive_keyed(v, m, fresh);
    (
        w,
        match key {
            Ok(k) => open_payload(k, m),
            Err(e) => Err(e),
        },
    )
}

/// The wire layout of a message: `dh_public[32] || prev_chain_count ||
/// message_number || nonce_length || nonce || ciphertext_length || ciphertext`,
/// integers as big-endian `u32`.
pub open spec fn message_wire(m: MessageView) -> Seq<u8> {
    m.dh_public + be32(m.prev_chain_count) + be32(m.message_number) + be32(m.nonce.len() as u32) + m.nonce
        + be32(m.ciphertext.len() as u32) + m.ciphertext
}

/// A message fits the wire layout: a 32-byte key and lengths that fit a `u32`.
pub open spec fn wire_encodable(m: MessageView) -> bool {
    m.dh_public.len() == 32 && m.nonce.len() <= u32::MAX && m.ciphertext.len() <= u32::MAX
}

/// Version byte that leads a session blob.
pub const SESSION_VERSION: u8 = 1;

/// 32 zero bytes.
pub open spec fn zeros32() -> Seq<u8> {
    Seq::new(32, |i: int| 0u8)
}

/// An optional 32-byte key as a tag byte (1 present, 0 absent) and 32 bytes
/// (zero when absent).
pub open spec fn slot_bytes(k: Option<Seq<u8>>) -> Seq<u8> {
    match k {
        Some(key) => seq![1u8] + key,
        None => seq![0u8] + zeros32(),
    }
}

/// A stored key: peer key, big-endian number, cipher key, MAC key, IV (116 bytes).
pub open spec fn entry_bytes(e: SkippedView) -> Seq<u8> {
    e.dh_public + be32(e.number) + e.keys.cipher_key + e.keys.mac_key + e.keys.iv
}

/// The stored keys one after another, in store order.
pub open spec fn entries_bytes(s: Seq<SkippedView>) -> Seq<u8>
    decreases s.len(),
{
    if s.len() == 0 {
        Seq::empty()
    } else {
        entries_bytes(s.drop_last()) + entry_bytes(s.last())
    }
}

/// The fixed 212-byte head of a session blob: version, own key pair, peer key
/// slot, root key, sending and receiving chain slots, the three counters and
/// the number of stored keys, integers as big-endian `u32`.
pub open spec fn session_header(v: SessionView) -> Seq<u8> {
    seq![SESSION_VERSION] + v.dh_self_private + v.dh_self_public + slot_bytes(v.dh_remote) + v.root_key
        + slot_bytes(v.chain_key_send) + slot_bytes(v.chain_key_recv) + be32(v.send_count) + be32(
        v.recv_count,
    ) + be32(v.prev_send_count) + be32(v.skipped.len() as u32)
}

/// A session blob: the head, then the stored keys.
pub open spec fn session_bytes(v: SessionView) -> Seq<u8> {
    session_header(v) + entries_bytes(v.skipped)
}

/// The stored keys of a blob are 116 bytes each, entry `i` at `116 * i`.
pub proof fn lemma_entries_bytes(s: Seq<SkippedView>)
    requires
        forall|i: int| 0 <= i < s.len() ==> entry_sized(#[trigger] s[i]),
    ensures
        entries_bytes(s).len() == 116 * s.len(),
        forall|i: int|
            0 <= i < s.len() ==> entries_bytes(s).subrange(116 * i, 116 * i + 116) == entry_bytes(
                #[trigger] s[i],
            ),
    decreases s.len(),
{
    if s.len() > 0 {
        let t = s.drop_last();
        assert forall|i: int| 0 <= i < t.len() implies entry_sized(#[trigger] t[i]) by {
            assert(t[i] == s[i]);
        }
        lemma_entries_bytes(t);
        let e = s.last();
        assert(entry_sized(s[s.len() - 1]));
        assert(entry_bytes(e).len() == 116);
        let all = entries_bytes(s);
        assert(all == entries_bytes(t) + entry_bytes(e));
        assert forall|i: int| 0 <= i < s.len() implies all.subrange(116 * i, 116 * i + 116) == entry_bytes(
            #[trigger] s[i],
        ) by {
            if i < t.len() {
                assert(t[i] == s[i]);
                assert(all.subrange(116 * i, 116 * i + 116) =~= entries_bytes(t).subrange(116 * i, 116 * i + 116));
            } else {
                assert(all.subrange(116 * i, 116 * i + 116) =~= entry_bytes(e));
            }
        }
    }
}

/// A blob that encodes a well-formed session.
pub open spec fn encodes(b: Seq<u8>, v: SessionView) -> bool {
    session_wf(v) && v.skipped.len() <= u32::MAX && session_bytes(v) == b
}

/// Where each field of a session sits in its blob.
proof fn lemma_blob_fields(b: Seq<u8>, v: SessionView)
    requires
        encodes(b, v),
    ensures
        b.len() == 212 + 116 * v.skipped.len(),
        b[0] == SESSION_VERSION,
        b.subrange(1, 33) == v.dh_self_private,
        b.subrange(33, 65) == v.dh_self_public,
        b.subrange(65, 98) == slot_bytes(v.dh_remote),
        b.subrange(98, 130) == v.root_key,
        b.subrange(130, 163) == slot_bytes(v.chain_key_send),
        b.subrange(163, 196) == slot_bytes(v.chain_key_recv),
        b.subrange(196, 200) == be32(v.send_count),
        b.subrange(200, 204) == be32(v.recv_count),
        b.subrange(204, 208) == be32(v.prev_send_count),
        b.subrange(208, 212) == be32(v.skipped.len() as u32),
        forall|i: int|
            0 <= i < v.skipped.len() ==> b.subrange(212 + 116 * i, 212 + 116 * i + 116) == entry_bytes(
                #[trigger] v.skipped[i],
            ),
{
    let h = session_header(v);
    lemma_entries_bytes(v.skipped);
    let es = entries_bytes(v.skipped);
    assert(slot_bytes(v.dh_remote).len() == 33);
    assert(slot_bytes(v.chain_key_send).len() == 33);
    assert(slot_bytes(v.chain_key_recv).len() == 33);
    assert(h.len() == 212);
    assert(b.subrange(0, 212) =~= h);
    assert(h[0] == SESSION_VERSION);
    assert(h.subrange(1, 33) =~= v.dh_self_private);
    assert(h.subrange(33, 65) =~= v.dh_self_public);
    assert(h.subrange(65, 98) =~= slot_bytes(v.dh_remote));
    assert(h.subrange(98, 130) =~= v.root_key);
    assert(h.subrange(130, 163) =~= slot_bytes(v.chain_key_send));
    assert(h.subrange(163, 196) =~= slot_bytes(v.chain_key_recv));
    assert(h.subrange(196, 200) =~= be32(v.send_count));
    assert(h.subrange(200, 204) =~= be32(v.recv_count));
    assert(h.subrange(204, 208) =~= be32(v.prev_send_count));
    assert(h.subrange(208, 212) =~= be32(v.skipped.len() as u32));
    assert(b.subrange(1, 33) =~= h.subrange(1, 33));
    assert(b.subrange(33, 65) =~= h.subrange(33, 65));
    assert(b.subrange(65, 98) =~= h.subrange(65, 98));
    assert(b.subrange(98, 130) =~= h.subrange(98, 130));
    assert(b.subrange(130, 163) =~= h.subrange(130, 163));
    assert(b.subrange(163, 196) =~= h.subrange(163, 196));
    assert(b.subrange(196, 200) =~= h.subrange(196, 200));
    assert(b.subrange(200, 204) =~= h.subrange(200, 204));
    assert(b.subrange(204, 208) =~= h.subrange(204, 208));
    assert(b.subrange(208, 212) =~= h.subrange(208, 212));
    assert forall|i: int| 0 <= i < v.skipped.len() implies b.subrange(212 + 116 * i, 212 + 116 * i + 116)
        == entry_bytes(#[trigger] v.skipped[i]) by {
        assert(b.subrange(212 + 116 * i, 212 + 116 * i + 116) =~= es.subrange(116 * i, 116 * i + 116));
    }
}

/// What every well-formed session encoded by `b` has in common with `b`: its
/// length, version byte, fields and stored keys at their places.
proof fn lemma_blob_facts(b: Seq<u8>)
    ensures
        forall|v: SessionView|
            #[trigger] encodes(b, v) ==> {
                &&& session_wf(v)
                &&& b.len() == 212 + 116 * v.skipped.len()
                &&& b[0] == SESSION_VERSION
                &&& b.subrange(1, 33) == v.dh_self_private
                &&& b.subrange(33, 65) == v.dh_self_public
                &&& b.subrange(65, 98) == slot_bytes(v.dh_remote)
                &&& b.subrange(98, 130) == v.root_key
                &&& b.subrange(130, 163) == slot_bytes(v.chain_key_send)
                &&& b.subrange(163, 196) == slot_bytes(v.chain_key_recv)
                &&& be32_at(b, 196) == v.send_count
                &&& be32_at(b, 200) == v.recv_count
                &&& be32_at(b, 204) == v.prev_send_count
                &&& be32_at(b, 208) == v.skipped.len()
                &&& b.subrange(212, b.len() as int) == entries_bytes(v.skipped)
            },
{
    assert forall|v: SessionView| #[trigger] encodes(b, v) implies {
        &&& session_wf(v)
        &&& b.len() == 212 + 116 * v.skipped.len()
        &&& b[0] == SESSION_VERSION
        &&& b.subrange(1, 33) == v.dh_self_private
        &&& b.subrange(33, 65) == v.dh_self_public
        &&& b.subrange(65, 98) == slot_bytes(v.dh_remote)
        &&& b.subrange(98, 130) == v.root_key
        &&& b.subrange(130, 163) == slot_bytes(v.chain_key_send)
        &&& b.subrange(163, 196) == slot_bytes(v.chain_key_recv)
        &&& be32_at(b, 196) == v.send_count
        &&& be32_at(b, 200) == v.recv_count
        &&& be32_at(b, 204) == v.prev_send_count
        &&& be32_at(b, 208) == v.skipped.len()
        &&& b.subrange(212, b.len() as int) == entries_bytes(v.skipped)
    } by {
        lemma_blob_fields(b, v);
        lemma_be32_window(b, 196, v.send_count);
        lemma_be32_window(b, 200, v.recv_count);
        lemma_be32_window(b, 204, v.prev_send_count);
        lemma_be32_window(b, 208, v.skipped.len() as u32);
        assert(b.subrange(212, b.len() as int) =~= entries_bytes(v.skipped));
    }
}

/// The session blob is lossless: two well-formed sessions with the same blob
/// are the same session. With `deserialize` reading any blob back as the session
/// it encodes, a restored session holds exactly the state that was saved, and
/// every step on it (`send_step`, `receive_step`) is the step of the saved session.
pub proof fn lemma_session_blob_lossless(v: SessionView, w: SessionView)
    requires
        session_wf(v),
        session_wf(w),
        v.skipped.len() <= u32::MAX,
        w.skipped.len() <= u32::MAX,
        session_bytes(v) == session_bytes(w),
    ensures
        v == w,
{
    let b = session_bytes(v);
    lemma_blob_fields(b, v);
    lemma_blob_fields(b, w);
    lemma_be32_window(b, 196, v.send_count);
    lemma_be32_window(b, 196, w.send_count);
    lemma_be32_window(b, 200, v.recv_count);
    lemma_be32_window(b, 200, w.recv_count);
    lemma_be32_window(b, 204, v.prev_send_count);
    lemma_be32_window(b, 204, w.prev_send_count);
    lemma_be32_window(b, 208, v.skipped.len() as u32);
    lemma_be32_window(b, 208, w.skipped.len() as u32);
    lemma_slot_injective(v.dh_remote, w.dh_remote);
    lemma_slot_injective(v.chain_key_send, w.chain_key_send);
    lemma_slot_injective(v.chain_key_recv, w.chain_key_recv);
    assert forall|i: int| 0 <= i < v.skipped.len() implies v.skipped[i] == w.skipped[i] by {
        assert(entry_sized(v.skipped[i]) && entry_sized(w.skipped[i]));
        lemma_entry_injective(v.skipped[i], w.skipped[i]);
    }
    assert(v.skipped =~= w.skipped);
}

/// Equal slots hold equal optional keys.
proof fn lemma_slot_injective(a: Option<Seq<u8>>, b: Option<Seq<u8>>)
    requires
        opt_key_ok(a),
        opt_key_ok(b),
        slot_bytes(a) == slot_bytes(b),
    ensures
        a == b,
{
    let sa = slot_bytes(a);
    assert(sa[0] == slot_bytes(b)[0]);
    if a is Some && b is Some {
        assert(sa.subrange(1, 33) =~= a->Some_0);
        assert(slot_bytes(b).subrange(1, 33) =~= b->Some_0);
    }
}

/// Equal entry bytes hold equal stored keys.
proof fn lemma_entry_injective(a: SkippedView, b: SkippedView)
    requires
        entry_sized(a),
        entry_sized(b),
        entry_bytes(a) == entry_bytes(b),
    ensures
        a == b,
{
    let ea = entry_bytes(a);
    let eb = entry_bytes(b);
    assert(ea.subrange(0, 32) =~= a.dh_public);
    assert(eb.subrange(0, 32) =~= b.dh_public);
    assert(ea.subrange(32, 36) =~= be32(a.number));
    assert(eb.subrange(32, 36) =~= be32(b.number));
    lemma_be32_window(ea, 32, a.number);
    lemma_be32_window(ea, 32, b.number);
    assert(ea.subrange(36, 68) =~= a.keys.cipher_key);
    assert(eb.subrange(36, 68) =~= b.keys.cipher_key);
    assert(ea.subrange(68, 100) =~= a.keys.mac_key);
    assert(eb.subrange(68, 100) =~= b.keys.mac_key);
    assert(ea.subrange(100, 116) =~= a.keys.iv);
    assert(eb.subrange(100, 116) =~= b.keys.iv);
}

/// A message of the Double Ratchet on the wire.
pub struct RatchetMessage {
    pub dh_public: Vec<u8>,
    pub prev_chain_count: u32,
    pub message_number: u32,
    pub ciphertext: Vec<u8>,
    pub nonce: Vec<u8>,
}

impl View for RatchetMessage {
    type V = MessageView;

    open spec fn view(&self) -> MessageView {
        MessageView {
            dh_public: self.dh_public@,
            prev_chain_count: self.prev_chain_count,
            message_number: self.message_number,
            ciphertext: self.ciphertext@,
            nonce: self.nonce@,
        }
    }
}

impl RatchetMessage {
    /// The sender's current ratchet public key.
    pub fn dh_public(&self) -> (r: Vec<u8>)
        ensures
            r@ == self.dh_public@,
    {
        copy_bytes(self.dh_public.as_slice())
    }

    /// The length of the sender's previous sending chain.
    pub fn prev_chain_count(&self) -> (r: u32)
        ensures
            r == self.prev_chain_count,
    {
        self.prev_chain_count
    }

    /// The message's number in its chain.
    pub fn message_number(&self) -> (r: u32)
        ensures
            r == self.message_number,
    {
        self.message_number
    }

    /// The ciphertext with its tag.
    pub fn ciphertext(&self) -> (r: Vec<u8>)
        ensures
            r@ == self.ciphertext@,
    {
        copy_bytes(self.ciphertext.as_slice())
    }

    /// The AES-GCM nonce.
    pub fn nonce(&self) -> (r: Vec<u8>)
        ensures
            r@ == self.nonce@,
    {
        copy_bytes(self.nonce.as_slice())
    }

    /// The wire form of the message; a key that is not 32 bytes, or a nonce or
    /// ciphertext too long for a `u32` length, is `SerializationError`.
    pub fn to_bytes(&self) -> (r: Result<Vec<u8>, CryptoError>)
        ensures
            r is Ok <==> wire_encodable(self@),
            r is Err ==> r->Err_0 == CryptoError::SerializationError,
            r is Ok ==> r->Ok_0@ == message_wire(self@),
    {
        if self.dh_public.len() != 32 || self.nonce.len() as u64 > u32::MAX as u64
            || self.ciphertext.len() as u64 > u32::MAX as u64 {
            return Err(CryptoError::SerializationError);
        }
        let mut out = copy_bytes(self.dh_public.as_slice());
        push_be32(&mut out, self.prev_chain_count);
        push_be32(&mut out, self.message_number);
        push_be32(&mut out, self.nonce.len() as u32);
        append_bytes(&mut out, self.nonce.as_slice());
        push_be32(&mut out, self.ciphertext.len() as u32);
        append_bytes(&mut out, self.ciphertext.as_slice());
        Ok(out)
    }

    /// Reads the wire form back. Anything that is not exactly the wire form of a
    /// message is `SerializationError`; the wire form of a message reads back
    /// as that message.
    pub fn from_bytes(bytes: &[u8]) -> (r: Result<RatchetMessage, CryptoError>)
        ensures
            r is Err ==> r->Err_0 == CryptoError::SerializationError,
            r is Ok ==> wire_encodable(r->Ok_0@) && message_wire(r->Ok_0@) == bytes@,
            forall|m: MessageView|
                wire_encodable(m) && #[trigger] message_wire(m) == bytes@ ==> r is Ok && r->Ok_0@ == m,
    {
        let n = bytes.len();
        proof {
            assert forall|m: MessageView| wire_encodable(m) && #[trigger] message_wire(m) == bytes@ implies
                n as int == 48 + m.nonce.len() + m.ciphertext.len()
                && bytes@.subrange(0, 32) == m.dh_public
                && bytes@.subrange(32, 36) == be32(m.prev_chain_count)
                && bytes@.subrange(36, 40) == be32(m.message_number)
                && bytes@.subrange(40, 44) == be32(m.nonce.len() as u32)
                && bytes@.subrange(44, 44 + m.nonce.len() as int) == m.nonce
                && bytes@.subrange(44 + m.nonce.len() as int, 48 + m.nonce.len() as int) == be32(
                m.ciphertext.len() as u32,
            ) && bytes@.subrange(48 + m.nonce.len() as int, n as int) == m.ciphertext by {
                let w = message_wire(m);
                let nl = m.nonce.len() as int;
                assert(w.subrange(0, 32) =~= m.dh_public);
                assert(w.subrange(32, 36) =~= be32(m.prev_chain_count));
                assert(w.subrange(36, 40) =~= be32(m.message_number));
                assert(w.subrange(40, 44) =~= be32(m.nonce.len() as u32));
                assert(w.subrange(44, 44 + nl) =~= m.nonce);
                assert(w.subrange(44 + nl, 48 + nl) =~= be32(m.ciphertext.len() as u32));
                assert(w.subrange(48 + nl, w.len() as int) =~= m.ciphertext);
            }
        }
        if n < 44 {
            return Err(CryptoError::SerializationError);
        }
        let nonce_len = read_be32(bytes, 40);
        proof {
            assert forall|m: MessageView| wire_encodable(m) && #[trigger] message_wire(m) == bytes@ implies
                m.nonce.len() == nonce_len by {
                lemma_be32_window(bytes@, 40, m.nonce.len() as u32);
            }
        }
        if (n as u64) < 48 + nonce_len as u64 {
            return Err(CryptoError::SerializationError);
        }
        let nonce_end = 44 + nonce_len as usize;
        let ciphertext_len = read_be32(bytes, nonce_end);
        proof {
            assert forall|m: MessageView| wire_encodable(m) && #[trigger] message_wire(m) == bytes@ implies
                m.ciphertext.len() == ciphertext_len by {
                lemma_be32_window(bytes@, nonce_end as int, m.ciphertext.len() as u32);
            }
        }
        if n as u64 != 48 + nonce_len as u64 + ciphertext_len as u64 {
            return Err(CryptoError::SerializationError);
        }
        let prev_chain_count = read_be32(bytes, 32);
        let message_number = read_be32(bytes, 36);
        let message = RatchetMessage {
            dh_public: copy_range(bytes, 0, 32),
            prev_chain_count,
            message_number,
            nonce: copy_range(bytes, 44, nonce_end),
            ciphertext: copy_range(bytes, nonce_end + 4, n),
        };
        proof {
            lemma_be32_read(bytes@, 32);
            lemma_be32_read(bytes@, 36);
            lemma_be32_read(bytes@, 40);
            lemma_be32_read(bytes@, nonce_end as int);
            let b = bytes@;
            let ne = nonce_end as int;
            assert(b =~= b.subrange(0, 32) + b.subrange(32, 36) + b.subrange(36, 40) + b.subrange(40, 44)
                + b.subrange(44, ne) + b.subrange(ne, ne + 4) + b.subrange(ne + 4, n as int));
            assert(message_wire(message@) == b);
            assert forall|m: MessageView| wire_encodable(m) && #[trigger] message_wire(m) == bytes@ implies
                message@ == m by {
                lemma_be32_window(bytes@, 32, m.prev_chain_count);
                lemma_be32_window(bytes@, 36, m.message_number);
            }
        }
        Ok(message)
    }

    /// The sender's ratchet public key in standard base64.
    pub fn dh_public_base64(&self) -> (r: String)
        ensures
            r@ == base64_of(self.dh_public@),
    {
        base64_encode_standard(self.dh_public.as_slice())
    }
}

/// A Double Ratchet session with one peer.
pub struct RatchetSession {
    dh_self: DhKeyPair,
    dh_remote: Option<Vec<u8>>,
    root_key: Vec<u8>,
    chain_key_send: Option<Vec<u8>>,
    chain_key_recv: Option<Vec<u8>>,
    send_count: u32,
    recv_count: u32,
    prev_send_count: u32,
    skipped_keys: Vec<SkippedKey>,
}

/// The views of the stored keys.
closed spec fn skipped_views(s: Seq<SkippedKey>) -> Seq<SkippedView> {
    Seq::new(s.len(), |i: int| s[i]@)
}

impl View for RatchetSession {
    type V = SessionView;

    closed spec fn view(&self) -> SessionView {
        SessionView {
            dh_self_private: self.dh_self.private@,
            dh_self_public: self.dh_self.public@,
            dh_remote: match self.dh_remote {
                Some(r) => Some(r@),
                None => None,
            },
            root_key: self.root_key@,
            chain_key_send: match self.chain_key_send {
                Some(k) => Some(k@),
                None => None,
            },
            chain_key_recv: match self.chain_key_recv {
                Some(k) => Some(k@),
                None => None,
            },
            send_count: self.send_count,
            recv_count: self.recv_count,
            prev_send_count: self.prev_send_count,
            skipped: skipped_views(self.skipped_keys@),
        }
    }
}

/// The position of the key stored under (`dh_public`, `number`), if any.
fn find_skipped(entries: &Vec<SkippedKey>, dh_public: &[u8], number: u32) -> (r: Option<usize>)
    requires
        skipped_unique(skipped_views(entries@)),
    ensures
        r is Some <==> has_skipped(skipped_views(entries@), dh_public@, number),
        r is Some ==> r->Some_0 == skipped_pos(skipped_views(entries@), dh_public@, number),
{
    let ghost s = skipped_views(entries@);
    let mut i: usize = 0;
    while i < entries.len()
        invariant
            i <= entries@.len(),
            s == skipped_views(entries@),
            skipped_unique(s),
            forall|j: int| 0 <= j < i ==> !#[trigger] stored_at(s, j, dh_public@, number),
        decreases entries@.len() - i,
    {
        let entry = &entries[i];
        assert(s[i as int] == entry@);
        if entry.number == number && bytes_equal(entry.dh_public.as_slice(), dh_public) {
            proof {
                assert(stored_at(s, i as int, dh_public@, number));
                let p = skipped_pos(s, dh_public@, number);
                assert(0 <= p < s.len() && stored_at(s, p, dh_public@, number));
                assert(s[p].dh_public == s[i as int].dh_public && s[p].number == s[i as int].number);
            }
            return Some(i);
        }
        i += 1;
    }
    proof {
        assert forall|j: int| 0 <= j < s.len() implies !#[trigger] stored_at(s, j, dh_public@, number) by {
        }
    }
    None
}

/// Stores a key, replacing one stored under the same pair.
fn store_skipped(entries: &mut Vec<SkippedKey>, e: SkippedKey)
    requires
        skipped_unique(skipped_views(old(entries)@)),
    ensures
        skipped_views(final(entries)@) == insert_skipped(skipped_views(old(entries)@), e@),
        skipped_unique(skipped_views(final(entries)@)),
{
    let ghost s = skipped_views(entries@);
    let ghost ev = e@;
    match find_skipped(entries, e.dh_public.as_slice(), e.number) {
        Some(i) => {
            entries.set(i, e);
            assert(skipped_views(entries@) =~= s.update(i as int, ev));
            let ghost t = skipped_views(entries@);
            assert forall|a: int, b: int|
                #![trigger t[a], t[b]]
                0 <= a < t.len() && 0 <= b < t.len() && a != b implies !(t[a].dh_public == t[b].dh_public
                && t[a].number == t[b].number) by {
                assert(s[a] == s[a] && s[b] == s[b]);
                assert(s[i as int] == s[i as int]);
            }
        },
        None => {
            entries.push(e);
            assert(skipped_views(entries@) =~= s.push(ev));
            let ghost t = skipped_views(entries@);
            assert forall|a: int, b: int|
                #![trigger t[a], t[b]]
                0 <= a < t.len() && 0 <= b < t.len() && a != b implies !(t[a].dh_public == t[b].dh_public
                && t[a].number == t[b].number) by {
                assert(s[a] == s[a] && s[b] == s[b]);
                if a == s.len() {
                    assert(!stored_at(s, b, ev.dh_public, ev.number));
                }
                if b == s.len() {
                    assert(!stored_at(s, a, ev.dh_public, ev.number));
                }
            }
        },
    }
}

/// Appends an optional key as a slot.
fn push_slot(out: &mut Vec<u8>, k: &Option<Vec<u8>>)
    requires
        opt_key_ok(opt_bytes(*k)),
    ensures
        final(out)@ == old(out)@ + slot_bytes(opt_bytes(*k)),
{
    match k {
        Some(key) => {
            out.push(1u8);
            append_bytes(out, key.as_slice());
            assert(final(out)@ =~= old(out)@ + slot_bytes(opt_bytes(*k)));
        },
        None => {
            out.push(0u8);
            let mut i: usize = 0;
            while i < 32
                invariant
                    i <= 32,
                    out@ == old(out)@ + seq![0u8] + Seq::new(i as nat, |j: int| 0u8),
                decreases 32 - i,
            {
                out.push(0u8);
                i += 1;
                assert(out@ =~= old(out)@ + seq![0u8] + Seq::new(i as nat, |j: int| 0u8));
            }
            assert(final(out)@ =~= old(out)@ + slot_bytes(opt_bytes(*k)));
        },
    }
}

/// Reads the slot at `off`: tag 1 and a key, or tag 0 and 32 zero bytes;
/// anything else is `SerializationError`.
fn read_slot(bytes: &[u8], off: usize) -> (r: Result<Option<Vec<u8>>, CryptoError>)
    requires
        off + 33 <= bytes@.len(),
    ensures
        r is Err ==> r->Err_0 == CryptoError::SerializationError,
        r is Ok ==> bytes@.subrange(off as int, off + 33) == slot_bytes(opt_bytes(r->Ok_0))
            && opt_key_ok(opt_bytes(r->Ok_0)),
        forall|k: Option<Seq<u8>>|
            opt_key_ok(k) && bytes@.subrange(off as int, off + 33) == #[trigger] slot_bytes(k) ==> r is Ok
                && opt_bytes(r->Ok_0) == k,
{
    let ghost w = bytes@.subrange(off as int, off + 33);
    proof {
        assert forall|k: Option<Seq<u8>>| opt_key_ok(k) && w == #[trigger] slot_bytes(k) implies
            (k is Some ==> w[0] == 1u8 && w.subrange(1, 33) == k->Some_0)
            && (k is None ==> w[0] == 0u8 && w.subrange(1, 33) == zeros32()) by {
            if k is Some {
                assert(w.subrange(1, 33) =~= k->Some_0);
            } else {
                assert(w.subrange(1, 33) =~= zeros32());
            }
        }
    }
    let tag = bytes[off];
    if tag == 1u8 {
        let key = copy_range(bytes, off + 1, off + 33);
        assert(w =~= slot_bytes(Some(key@)));
        Ok(Some(key))
    } else if tag == 0u8 {
        let end = off + 33;
        let mut i: usize = off + 1;
        while i < end
            invariant
                end == off + 33,
                off + 1 <= i <= end,
                end <= bytes@.len(),
                w == bytes@.subrange(off as int, off + 33),
                w[0] == 0u8,
                forall|k: Option<Seq<u8>>| opt_key_ok(k) && w == #[trigger] slot_bytes(k) ==> k is None
                    && w.subrange(1, 33) == zeros32(),
                forall|j: int| off + 1 <= j < i ==> bytes@[j] == 0u8,
            decreases end - i,
        {
            if bytes[i] != 0u8 {
                proof {
                    assert(w[i - off] != 0u8);
                    assert forall|k: Option<Seq<u8>>| opt_key_ok(k) && w == #[trigger] slot_bytes(k) implies false by {
                        assert(w.subrange(1, 33)[i - off - 1] == w[i - off]);
                    }
                }
                return Err(CryptoError::SerializationError);
            }
            i += 1;
        }
        assert(w =~= slot_bytes(None));
        Ok(None)
    } else {
        Err(CryptoError::SerializationError)
    }
}

/// Appends a stored key.
fn push_entry(out: &mut Vec<u8>, e: &SkippedKey)
    ensures
        final(out)@ == old(out)@ + entry_bytes(e@),
{
    append_bytes(out, e.dh_public.as_slice());
    push_be32(out, e.number);
    append_bytes(out, e.keys.cipher_key.as_slice());
    append_bytes(out, e.keys.mac_key.as_slice());
    append_bytes(out, e.keys.iv.as_slice());
    assert(final(out)@ =~= old(out)@ + entry_bytes(e@));
}

/// Reads the stored key at `off`.
fn read_entry(bytes: &[u8], off: usize) -> (r: SkippedKey)
    requires
        off + 116 <= bytes@.len(),
    ensures
        entry_bytes(r@) == bytes@.subrange(off as int, off + 116),
        entry_sized(r@),
        forall|e: SkippedView|
            entry_sized(e) && #[trigger] entry_bytes(e) == bytes@.subrange(off as int, off + 116) ==> r@ == e,
{
    let _n = bytes.len();
    let number = read_be32(bytes, off + 32);
    let r = SkippedKey {
        dh_public: copy_range(bytes, off, off + 32),
        number,
        keys: MessageKeys {
            cipher_key: copy_range(bytes, off + 36, off + 68),
            mac_key: copy_range(bytes, off + 68, off + 100),
            iv: copy_range(bytes, off + 100, off + 116),
        },
    };
    proof {
        let w = bytes@.subrange(off as int, off + 116);
        lemma_be32_read(bytes@, off + 32);
        assert(entry_bytes(r@) =~= w);
        assert forall|e: SkippedView| entry_sized(e) && #[trigger] entry_bytes(e) == w implies r@ == e by {
            let eb = entry_bytes(e);
            assert(eb.subrange(0, 32) =~= e.dh_public);
            assert(eb.subrange(32, 36) =~= be32(e.number));
            assert(eb.subrange(36, 68) =~= e.keys.cipher_key);
            assert(eb.subrange(68, 100) =~= e.keys.mac_key);
            assert(eb.subrange(100, 116) =~= e.keys.iv);
            assert(bytes@.subrange(off + 32, off + 36) =~= w.subrange(32, 36));
            lemma_be32_window(bytes@, off + 32, e.number);
            assert(r@.dh_public =~= e.dh_public);
            assert(r@.keys.cipher_key =~= e.keys.cipher_key);
            assert(r@.keys.mac_key =~= e.keys.mac_key);
            assert(r@.keys.iv =~= e.keys.iv);
        }
    }
    r
}

/// Reads `total` stored keys after the 212-byte head. A key stored twice is
/// `SerializationError`; the bytes of a duplicate-free list read back as it.
fn read_entries(bytes: &[u8], total: usize) -> (r: Result<Vec<SkippedKey>, CryptoError>)
    requires
        bytes@.len() == 212 + 116 * total,
    ensures
        r is Err ==> r->Err_0 == CryptoError::SerializationError,
        r is Ok ==> skipped_unique(skipped_views(r->Ok_0@)) && r->Ok_0@.len() == total
            && (forall|j: int| 0 <= j < total ==> entry_sized(#[trigger] skipped_views(r->Ok_0@)[j]))
            && entries_bytes(skipped_views(r->Ok_0@)) == bytes@.subrange(212, bytes@.len() as int),
        forall|s: Seq<SkippedView>|
            skipped_unique(s) && s.len() == total && (forall|j: int| 0 <= j < s.len() ==> entry_sized(#[trigger] s[j]))
                && #[trigger] entries_bytes(s) == bytes@.subrange(212, bytes@.len() as int) ==> r is Ok
                && skipped_views(r->Ok_0@) == s,
{
    let ghost b = bytes@;
    let n = bytes.len();
    proof {
        assert forall|s: Seq<SkippedView>|
            skipped_unique(s) && s.len() == total && (forall|j: int| 0 <= j < s.len() ==> entry_sized(#[trigger] s[j]))
                && #[trigger] entries_bytes(s) == b.subrange(212, n as int) implies forall|i: int| 0 <= i < total ==>
                b.subrange(212 + 116 * i, 212 + 116 * i + 116) == entry_bytes(#[trigger] s[i]) by {
            lemma_entries_bytes(s);
            assert forall|i: int| 0 <= i < total implies b.subrange(212 + 116 * i, 212 + 116 * i + 116)
                == entry_bytes(#[trigger] s[i]) by {
                assert(b.subrange(212 + 116 * i, 212 + 116 * i + 116) =~= entries_bytes(s).subrange(116 * i, 116 * i + 116));
            }
        }
    }
    let mut entries: Vec<SkippedKey> = Vec::new();
    let mut i: usize = 0;
    while i < total
        invariant
            b == bytes@,
            n == b.len(),
            n == 212 + 116 * total,
            i <= total,
            entries@.len() == i,
            skipped_unique(skipped_views(entries@)),
            forall|j: int| 0 <= j < i ==> entry_sized(#[trigger] skipped_views(entries@)[j]),
            entries_bytes(skipped_views(entries@)) == b.subrange(212, 212 + 116 * i),
            forall|s: Seq<SkippedView>|
                skipped_unique(s) && s.len() == total && (forall|j: int| 0 <= j < s.len() ==> entry_sized(#[trigger] s[j]))
                    && #[trigger] entries_bytes(s) == b.subrange(212, n as int) ==> (forall|k: int| 0 <= k < total ==>
                    b.subrange(212 + 116 * k, 212 + 116 * k + 116) == entry_bytes(#[trigger] s[k]))
                    && skipped_views(entries@) == s.subrange(0, i as int),
        decreases total - i,
    {
        let off = 212 + 116 * i;
        let e = read_entry(bytes, off);
        let ghost before = skipped_views(entries@);
        if find_skipped(&entries, e.dh_public.as_slice(), e.number).is_some() {
            proof {
                assert forall|s: Seq<SkippedView>|
                    skipped_unique(s) && s.len() == total && (forall|j: int| 0 <= j < s.len() ==> entry_sized(#[trigger] s[j]))
                        && #[trigger] entries_bytes(s) == b.subrange(212, n as int) implies false by {
                    assert(entry_sized(s[i as int]));
                    assert(e@ == s[i as int]);
                    let p = skipped_pos(before, e@.dh_public, e@.number);
                    assert(before[p] == s[p]);
                }
            }
            return Err(CryptoError::SerializationError);
        }
        entries.push(e);
        proof {
            let t = skipped_views(entries@);
            assert(t =~= before.push(e@));
            assert(t.drop_last() =~= before);
            assert(b.subrange(212, off + 116) =~= b.subrange(212, off as int) + b.subrange(off as int, off + 116));
            assert forall|x: int, y: int|
                #![trigger t[x], t[y]]
                0 <= x < t.len() && 0 <= y < t.len() && x != y implies !(t[x].dh_public == t[y].dh_public
                && t[x].number == t[y].number) by {
                if x == i {
                    assert(!stored_at(before, y, e@.dh_public, e@.number));
                }
                if y == i {
                    assert(!stored_at(before, x, e@.dh_public, e@.number));
                }
                if x < i && y < i {
                    assert(before[x] == t[x] && before[y] == t[y]);
                }
            }
            assert forall|j: int| 0 <= j < i + 1 implies entry_sized(#[trigger] t[j]) by {
                if j < i {
                    assert(before[j] == t[j]);
                }
            }
            assert forall|s: Seq<SkippedView>|
                skipped_unique(s) && s.len() == total && (forall|j: int| 0 <= j < s.len() ==> entry_sized(#[trigger] s[j]))
                    && #[trigger] entries_bytes(s) == b.subrange(212, n as int) implies t == s.subrange(0, i + 1) by {
                assert(entry_sized(s[i as int]));
                assert(e@ == s[i as int]);
                assert(t =~= s.subrange(0, i + 1));
            }
        }
        i += 1;
    }
    proof {
        assert(b.subrange(212, 212 + 116 * total) =~= b.subrange(212, n as int));
        assert forall|s: Seq<SkippedView>|
            skipped_unique(s) && s.len() == total && (forall|j: int| 0 <= j < s.len() ==> entry_sized(#[trigger] s[j]))
                && #[trigger] entries_bytes(s) == b.subrange(212, n as int) implies skipped_views(entries@) == s by {
            assert(s.subrange(0, total as int) =~= s);
        }
    }
    Ok(entries)
}

impl RatchetSession {
    /// The session invariant.
    pub open spec fn wf(&self) -> bool {
        session_wf(self@)
    }

    /// KDF_RK: the new root key and chain key from a root key and a DH output.
    fn kdf_rk(root_key: &[u8], dh_output: &[u8]) -> (r: (Vec<u8>, Vec<u8>))
        ensures
            r.0@ == kdf_root(root_key@, dh_output@),
            r.1@ == kdf_chain(root_key@, dh_output@),
            r.0@.len() == 32,
            r.1@.len() == 32,
    {
        let output = hkdf_sha256_expand(Some(root_key), dh_output, RATCHET_INFO, 64);
        let new_root = copy_range(output.as_slice(), 0, 32);
        let chain_key = copy_range(output.as_slice(), 32, 64);
        assert(new_root@ =~= kdf_root(root_key@, dh_output@));
        assert(chain_key@ =~= kdf_chain(root_key@, dh_output@));
        (new_root, chain_key)
    }

    /// KDF_CK: the message keys of a chain key.
    fn kdf_ck(chain_key: &[u8]) -> (r: MessageKeys)
        ensures
            r@ == message_keys(chain_key@),
            r@.cipher_key.len() == 32,
            r@.mac_key.len() == 32,
            r@.iv.len() == 16,
    {
        let mut one: Vec<u8> = Vec::new();
        one.push(1u8);
        let mut two: Vec<u8> = Vec::new();
        two.push(2u8);
        assert(one@ == seq![1u8]);
        assert(two@ == seq![2u8]);
        let cipher_key = hmac_sha256_tag(chain_key, one.as_slice());
        let mac_key = hmac_sha256_tag(chain_key, two.as_slice());
        let iv = hkdf_sha256_expand(None, cipher_key.as_slice(), MESSAGE_KEYS_INFO, 16);
        MessageKeys { cipher_key, mac_key, iv }
    }

    /// The next chain key.
    fn chain_key_step(chain_key: &[u8]) -> (r: Vec<u8>)
        ensures
            r@ == chain_step(chain_key@),
            r@.len() == 32,
    {
        let mut three: Vec<u8> = Vec::new();
        three.push(3u8);
        assert(three@ == seq![3u8]);
        hmac_sha256_tag(chain_key, three.as_slice())
    }

    /// The initiator's session, with a given first ratchet secret. A shared
    /// secret, peer key or ratchet secret that is not 32 bytes is `Malformed`.
    pub fn init_as_alice_with_secret(shared_secret: &[u8], remote_public_key: &[u8], ratchet_secret: &[u8]) -> (r: Result<RatchetSession, CryptoError>)
        ensures
            r is Ok <==> shared_secret@.len() == 32 && remote_public_key@.len() == 32
                && ratchet_secret@.len() == 32,
            r is Err ==> r->Err_0 == CryptoError::Malformed,
            r is Ok ==> r->Ok_0.wf() && r->Ok_0@ == alice_start(shared_secret@, remote_public_key@, ratchet_secret@),
    {
        if shared_secret.len() != 32 || remote_public_key.len() != 32 || ratchet_secret.len() != 32 {
            return Err(CryptoError::Malformed);
        }
        let dh_self = DhKeyPair::from_secret(copy_bytes(ratchet_secret));
        let dh_output = dh_self.diffie_hellman(remote_public_key);
        let (root_key, chain_key) = RatchetSession::kdf_rk(shared_secret, dh_output.as_slice());
        let session = RatchetSession {
            dh_self,
            dh_remote: Some(copy_bytes(remote_public_key)),
            root_key,
            chain_key_send: Some(chain_key),
            chain_key_recv: None,
            send_count: 0,
            recv_count: 0,
            prev_send_count: 0,
            skipped_keys: Vec::new(),
        };
        assert(session@.skipped =~= Seq::<SkippedView>::empty());
        Ok(session)
    }

    /// The initiator's session with a fresh ratchet key pair; see
    /// `init_as_alice_with_secret`.
    pub fn init_as_alice(shared_secret: &[u8], remote_public_key: &[u8]) -> (r: Result<RatchetSession, CryptoError>)
        ensures
            r is Ok <==> shared_secret@.len() == 32 && remote_public_key@.len() == 32,
            r is Err ==> r->Err_0 == CryptoError::Malformed,
            r is Ok ==> r->Ok_0.wf() && exists|secret: Seq<u8>|
                secret.len() == 32 && r->Ok_0@ == #[trigger] alice_start(shared_secret@, remote_public_key@, secret),
    {
        let secret = x25519_random_secret();
        RatchetSession::init_as_alice_with_secret(shared_secret, remote_public_key, secret.as_slice())
    }

    /// The responder's session: the X3DH secret becomes the root key and the
    /// signed prekey the first ratchet key pair. Keys that are not 32 bytes are
    /// `Malformed`.
    pub fn init_as_bob(shared_secret: &[u8], signed_prekey_private: &[u8], signed_prekey_public: &[u8]) -> (r: Result<RatchetSession, CryptoError>)
        ensures
            r is Ok <==> shared_secret@.len() == 32 && signed_prekey_private@.len() == 32
                && signed_prekey_public@.len() == 32,
            r is Err ==> r->Err_0 == CryptoError::Malformed,
            r is Ok ==> r->Ok_0.wf() && r->Ok_0@ == bob_start(shared_secret@, signed_prekey_private@, signed_prekey_public@),
    {
        if shared_secret.len() != 32 || signed_prekey_private.len() != 32 || signed_prekey_public.len() != 32 {
            return Err(CryptoError::Malformed);
        }
        let session = RatchetSession {
            dh_self: DhKeyPair { public: copy_bytes(signed_prekey_public), private: copy_bytes(signed_prekey_private) },
            dh_remote: None,
            root_key: copy_bytes(shared_secret),
            chain_key_send: None,
            chain_key_recv: None,
            send_count: 0,
            recv_count: 0,
            prev_send_count: 0,
            skipped_keys: Vec::new(),
        };
        assert(session@.skipped =~= Seq::<SkippedView>::empty());
        Ok(session)
    }

    /// Encrypts with a given nonce: derives the message key from the sending
    /// chain, steps the chain, seals the plaintext and numbers the message. No
    /// sending chain is `NoSendingChain`; a full chain is `ChainExhausted`; a
    /// plaintext over 2^36 bytes or a nonce that is not 12 bytes is `Malformed`.
    /// On an error the session is unchanged.
    pub fn encrypt_with_nonce(&mut self, plaintext: &[u8], nonce: &[u8]) -> (r: Result<RatchetMessage, CryptoError>)
        requires
            old(self).wf(),
        ensures
            final(self).wf(),
            final(self)@ == send_step(old(self)@, plaintext@, nonce@).0,
            match send_step(old(self)@, plaintext@, nonce@).1 {
                Ok(m) => r is Ok && r->Ok_0@ == m,
                Err(e) => r == Err::<RatchetMessage, CryptoError>(e),
            },
    {
        let chain_key = match &self.chain_key_send {
            Some(k) => copy_bytes(k.as_slice()),
            None => return Err(CryptoError::NoSendingChain),
        };
        if self.send_count == u32::MAX {
            return Err(CryptoError::ChainExhausted);
        }
        if nonce.len() != 12 {
            return Err(CryptoError::Malformed);
        }
        let message_keys = RatchetSession::kdf_ck(chain_key.as_slice());
        let cipher = match AesGcmCipher::new(message_keys.cipher_key.as_slice()) {
            Ok(c) => c,
            Err(e) => return Err(e),
        };
        let encrypted = match cipher.encrypt_with_nonce(nonce, plaintext, Vec::new().as_slice()) {
            Ok(m) => m,
            Err(e) => return Err(e),
        };
        self.chain_key_send = Some(RatchetSession::chain_key_step(chain_key.as_slice()));
        let message = RatchetMessage {
            dh_public: copy_bytes(self.dh_self.public.as_slice()),
            prev_chain_count: self.prev_send_count,
            message_number: self.send_count,
            ciphertext: encrypted.ciphertext(),
            nonce: encrypted.nonce(),
        };
        self.send_count = self.send_count + 1;
        Ok(message)
    }

    /// Encrypts with a fresh random nonce; see `encrypt_with_nonce`.
    pub fn encrypt(&mut self, plaintext: &[u8]) -> (r: Result<RatchetMessage, CryptoError>)
        requires
            old(self).wf(),
        ensures
            final(self).wf(),
            exists|nonce: Seq<u8>|
                nonce.len() == 12 && final(self)@ == (#[trigger] send_step(old(self)@, plaintext@, nonce)).0
                    && match send_step(old(self)@, plaintext@, nonce).1 {
                    Ok(m) => r is Ok && r->Ok_0@ == m,
                    Err(e) => r == Err::<RatchetMessage, CryptoError>(e),
                },
    {
        let nonce = os_random(12);
        self.encrypt_with_nonce(plaintext, nonce.as_slice())
    }

    /// Stores the keys of the receiving chain from `recv_count` up to `until`
    /// and moves the chain past them; see `skip_to`. On an error nothing changes.
    fn skip_message_keys(&mut self, until: u32) -> (r: Result<(), CryptoError>)
        requires
            old(self).wf(),
        ensures
            final(self).wf(),
            match skip_to(old(self)@, until) {
                Ok(w) => r is Ok && final(self)@ == w,
                Err(e) => r == Err::<(), CryptoError>(e) && final(self)@ == old(self)@,
            },
    {
        let chain_key = match &self.chain_key_recv {
            Some(k) => copy_bytes(k.as_slice()),
            None => return Ok(()),
        };
        if (self.recv_count as u64) + (MAX_SKIP as u64) < (until as u64) {
            return Err(CryptoError::TooManySkipped);
        }
        let remote = match &self.dh_remote {
            Some(pk) => copy_bytes(pk.as_slice()),
            None => Vec::new(),
        };
        let ghost v0 = self@;
        let ghost ck0 = chain_key@;
        let mut current = chain_key;
        while self.recv_count < until
            invariant
                session_wf(v0),
                v0.chain_key_recv == Some(ck0),
                remote@ == remote_id(v0),
                remote@.len() == 32,
                current@.len() == 32,
                v0.recv_count <= self.recv_count,
                self@ == (SessionView { skipped: self@.skipped, recv_count: self@.recv_count, ..v0 }),
                session_wf(self@),
                v0.recv_count < until ==> self.recv_count <= until,
                v0.recv_count < until ==> skip_chain(self@.skipped, remote@, current@, self.recv_count as nat, until as nat)
                    == skip_chain(v0.skipped, remote@, ck0, v0.recv_count as nat, until as nat),
                v0.recv_count >= until ==> self@ == v0 && current@ == ck0,
            decreases until - self.recv_count,
        {
            let keys = RatchetSession::kdf_ck(current.as_slice());
            let entry = SkippedKey { dh_public: copy_bytes(remote.as_slice()), number: self.recv_count, keys };
            let ghost before = self@.skipped;
            store_skipped(&mut self.skipped_keys, entry);
            current = RatchetSession::chain_key_step(current.as_slice());
            self.recv_count = self.recv_count + 1;
            proof {
                let t = self@.skipped;
                assert forall|i: int| 0 <= i < t.len() implies entry_sized(#[trigger] t[i]) by {
                    if i < before.len() {
                        assert(before[i] == before[i]);
                    }
                }
            }
        }
        self.chain_key_recv = Some(current);
        Ok(())
    }

    /// The DH ratchet on a new peer key with `fresh` as the next ratchet secret;
    /// see `ratchet_step`.
    fn dh_ratchet(&mut self, their_public: &[u8], fresh: &[u8])
        requires
            old(self).wf(),
            their_public@.len() == 32,
            fresh@.len() == 32,
        ensures
            final(self).wf(),
            final(self)@ == ratchet_step(old(self)@, their_public@, fresh@),
            forall|k: Seq<u8>|
                k.len() == 32 && their_public@ == #[trigger] x25519_public_of(k) ==> x25519_shared(
                    old(self)@.dh_self_private,
                    their_public@,
                ) == x25519_shared(k, x25519_public_of(old(self)@.dh_self_private)),
    {
        self.prev_send_count = self.send_count;
        self.send_count = 0;
        self.recv_count = 0;
        self.dh_remote = Some(copy_bytes(their_public));
        let dh_output = self.dh_self.diffie_hellman(their_public);
        let (root_key, chain_key_recv) = RatchetSession::kdf_rk(self.root_key.as_slice(), dh_output.as_slice());
        self.root_key = root_key;
        self.chain_key_recv = Some(chain_key_recv);
        self.dh_self = DhKeyPair::from_secret(copy_bytes(fresh));
        let dh_output = self.dh_self.diffie_hellman(their_public);
        let (root_key, chain_key_send) = RatchetSession::kdf_rk(self.root_key.as_slice(), dh_output.as_slice());
        self.root_key = root_key;
        self.chain_key_send = Some(chain_key_send);
    }

    /// Opens a message's payload under a cipher key.
    fn decrypt_with_keys(cipher_key: &[u8], message: &RatchetMessage) -> (r: Result<Vec<u8>, CryptoError>)
        requires
            cipher_key@.len() == 32,
            message.nonce@.len() == 12,
        ensures
            bytes_result(r) == open_payload(cipher_key@, message@),
            forall|pt: Seq<u8>|
                pt.len() <= gcm_max_len() && #[trigger] aes_gcm_seal(cipher_key@, message.nonce@, pt, Seq::empty())
                    == message.ciphertext@ ==> bytes_result(r) == Ok::<Seq<u8>, CryptoError>(pt),
    {
        let cipher = match AesGcmCipher::new(cipher_key) {
            Ok(c) => c,
            Err(e) => return Err(e),
        };
        let encrypted = EncryptedMessage::from_parts(copy_bytes(message.nonce.as_slice()), copy_bytes(message.ciphertext.as_slice()));
        cipher.decrypt(&encrypted)
    }

    /// Decrypts with `ratchet_secret` as the next ratchet secret should the
    /// message carry a new peer key; see `receive_step`.
    pub fn decrypt_with_secret(&mut self, message: &RatchetMessage, ratchet_secret: &[u8]) -> (r: Result<Vec<u8>, CryptoError>)
        requires
            old(self).wf(),
        ensures
            final(self).wf(),
            final(self)@ == receive_step(old(self)@, message@, ratchet_secret@).0,
            bytes_result(r) == receive_step(old(self)@, message@, ratchet_secret@).1,
            forall|pt: Seq<u8>|
                receive_keyed(old(self)@, message@, ratchet_secret@).1 is Ok && pt.len() <= gcm_max_len()
                    && #[trigger] aes_gcm_seal(
                    receive_keyed(old(self)@, message@, ratchet_secret@).1->Ok_0,
                    message.nonce@,
                    pt,
                    Seq::empty(),
                ) == message.ciphertext@ ==> bytes_result(r) == Ok::<Seq<u8>, CryptoError>(pt),
            receive_ratchets(old(self)@, message@, ratchet_secret@) ==> forall|k: Seq<u8>|
                k.len() == 32 && message.dh_public@ == #[trigger] x25519_public_of(k) ==> x25519_shared(
                    old(self)@.dh_self_private,
                    message.dh_public@,
                ) == x25519_shared(k, x25519_public_of(old(self)@.dh_self_private)),
    {
        if message.dh_public.len() != 32 || message.nonce.len() != 12 || ratchet_secret.len() != 32 {
            return Err(CryptoError::Malformed);
        }
        match find_skipped(&self.skipped_keys, message.dh_public.as_slice(), message.message_number) {
            Some(i) => {
                let ghost v0 = self@;
                let entry = self.skipped_keys.remove(i);
                proof {
                    assert(skipped_views(self.skipped_keys@) =~= v0.skipped.remove(i as int));
                    assert(entry@ == v0.skipped[i as int]);
                    let t = self@.skipped;
                    assert forall|a: int, b: int|
                        #![trigger t[a], t[b]]
                        0 <= a < t.len() && 0 <= b < t.len() && a != b implies !(t[a].dh_public == t[b].dh_public
                        && t[a].number == t[b].number) by {
                        let a0 = if a < i { a } else { a + 1 };
                        let b0 = if b < i { b } else { b + 1 };
                        assert(v0.skipped[a0] == t[a] && v0.skipped[b0] == t[b]);
                    }
                    assert forall|a: int| 0 <= a < t.len() implies entry_sized(#[trigger] t[a]) by {
                        let a0 = if a < i { a } else { a + 1 };
                        assert(v0.skipped[a0] == t[a]);
                    }
                }
                return RatchetSession::decrypt_with_keys(entry.keys.cipher_key.as_slice(), message);
            },
            None => {},
        }
        let ratchet = match &self.dh_remote {
            None => true,
            Some(remote) => !bytes_equal(remote.as_slice(), message.dh_public.as_slice()),
        };
        if ratchet {
            match self.skip_message_keys(message.prev_chain_count) {
                Ok(()) => {},
                Err(e) => return Err(e),
            }
            self.dh_ratchet(message.dh_public.as_slice(), ratchet_secret);
        }
        match self.skip_message_keys(message.message_number) {
            Ok(()) => {},
            Err(e) => return Err(e),
        }
        let chain_key = match &self.chain_key_recv {
            Some(k) => copy_bytes(k.as_slice()),
            None => return Err(CryptoError::DecryptAuth),
        };
        if self.recv_count == u32::MAX {
            return Err(CryptoError::ChainExhausted);
        }
        let message_keys = RatchetSession::kdf_ck(chain_key.as_slice());
        self.chain_key_recv = Some(RatchetSession::chain_key_step(chain_key.as_slice()));
        self.recv_count = self.recv_count + 1;
        RatchetSession::decrypt_with_keys(message_keys.cipher_key.as_slice(), message)
    }

    /// Decrypts a message, drawing a fresh ratchet key pair for a DH ratchet;
    /// see `decrypt_with_secret`.
    pub fn decrypt(&mut self, message: &RatchetMessage) -> (r: Result<Vec<u8>, CryptoError>)
        requires
            old(self).wf(),
        ensures
            final(self).wf(),
            exists|fresh: Seq<u8>|
                fresh.len() == 32 && final(self)@ == (#[trigger] receive_step(old(self)@, message@, fresh)).0
                    && bytes_result(r) == receive_step(old(self)@, message@, fresh).1 && (forall|pt: Seq<u8>|
                    receive_keyed(old(self)@, message@, fresh).1 is Ok && pt.len() <= gcm_max_len()
                        && #[trigger] aes_gcm_seal(
                        receive_keyed(old(self)@, message@, fresh).1->Ok_0,
                        message.nonce@,
                        pt,
                        Seq::empty(),
                    ) == message.ciphertext@ ==> bytes_result(r) == Ok::<Seq<u8>, CryptoError>(pt)) && (
                receive_ratchets(old(self)@, message@, fresh) ==> forall|k: Seq<u8>|
                    k.len() == 32 && message.dh_public@ == #[trigger] x25519_public_of(k) ==> x25519_shared(
                        old(self)@.dh_self_private,
                        message.dh_public@,
                    ) == x25519_shared(k, x25519_public_of(old(self)@.dh_self_private))),
    {
        let fresh = x25519_random_secret();
        self.decrypt_with_secret(message, fresh.as_slice())
    }

    /// The session as a blob (see `session_bytes`): all key material, counters
    /// and stored keys. More stored keys than a `u32` counts is `SerializationError`.
    pub fn serialize(&self) -> (r: Result<Vec<u8>, CryptoError>)
        requires
            self.wf(),
        ensures
            r is Ok <==> self@.skipped.len() <= u32::MAX,
            r is Err ==> r->Err_0 == CryptoError::SerializationError,
            r is Ok ==> r->Ok_0@ == session_bytes(self@),
    {
        let count = self.skipped_keys.len();
        if count as u64 > u32::MAX as u64 {
            return Err(CryptoError::SerializationError);
        }
        let ghost v = self@;
        let mut out: Vec<u8> = Vec::new();
        out.push(SESSION_VERSION);
        append_bytes(&mut out, self.dh_self.private.as_slice());
        append_bytes(&mut out, self.dh_self.public.as_slice());
        push_slot(&mut out, &self.dh_remote);
        append_bytes(&mut out, self.root_key.as_slice());
        push_slot(&mut out, &self.chain_key_send);
        push_slot(&mut out, &self.chain_key_recv);
        push_be32(&mut out, self.send_count);
        push_be32(&mut out, self.recv_count);
        push_be32(&mut out, self.prev_send_count);
        push_be32(&mut out, count as u32);
        assert(out@ =~= session_header(v));
        let mut i: usize = 0;
        while i < count
            invariant
                count == self.skipped_keys@.len(),
                v == self@,
                i <= count,
                out@ == session_header(v) + entries_bytes(v.skipped.subrange(0, i as int)),
            decreases count - i,
        {
            let ghost before = out@;
            push_entry(&mut out, &self.skipped_keys[i]);
            proof {
                let t = v.skipped.subrange(0, i + 1);
                assert(t.drop_last() =~= v.skipped.subrange(0, i as int));
                assert(t.last() == self.skipped_keys@[i as int]@);
            }
            i += 1;
        }
        assert(v.skipped.subrange(0, count as int) =~= v.skipped);
        Ok(out)
    }

    /// Restores a session from a blob. Anything that is not exactly the blob of
    /// a well-formed session is `SerializationError`; the blob of a session
    /// restores that session.
    #[verifier::rlimit(40)]
    pub fn deserialize(bytes: &[u8]) -> (r: Result<RatchetSession, CryptoError>)
        ensures
            r is Err ==> r->Err_0 == CryptoError::SerializationError,
            r is Ok ==> r->Ok_0.wf() && session_bytes(r->Ok_0@) == bytes@,
            forall|v: SessionView| #[trigger] encodes(bytes@, v) ==> r is Ok && r->Ok_0@ == v,
    {
        let n = bytes.len();
        let ghost b = bytes@;
        proof {
            lemma_blob_facts(b);
        }
        if n < 212 || bytes[0] != SESSION_VERSION {
            return Err(CryptoError::SerializationError);
        }
        let private = copy_range(bytes, 1, 33);
        let public = copy_range(bytes, 33, 65);
        let root_key = copy_range(bytes, 98, 130);
        let dh_remote = match read_slot(bytes, 65) {
            Ok(k) => k,
            Err(e) => return Err(e),
        };
        let chain_key_send = match read_slot(bytes, 130) {
            Ok(k) => k,
            Err(e) => return Err(e),
        };
        let chain_key_recv = match read_slot(bytes, 163) {
            Ok(k) => k,
            Err(e) => return Err(e),
        };
        if chain_key_recv.is_some() && dh_remote.is_none() {
            return Err(CryptoError::SerializationError);
        }
        let send_count = read_be32(bytes, 196);
        let recv_count = read_be32(bytes, 200);
        let prev_send_count = read_be32(bytes, 204);
        let count = read_be32(bytes, 208);
        if n as u64 != 212 + 116 * (count as u64) {
            return Err(CryptoError::SerializationError);
        }
        let total = count as usize;
        let entries = match read_entries(bytes, total) {
            Ok(es) => es,
            Err(e) => {
                proof {
                    assert forall|v: SessionView| #[trigger] encodes(b, v) implies false by {
                        assert(forall|j: int| 0 <= j < v.skipped.len() ==> entry_sized(#[trigger] v.skipped[j]));
                    }
                }
                return Err(e);
            },
        };
        let session = RatchetSession {
            dh_self: DhKeyPair { public, private },
            dh_remote,
            root_key,
            chain_key_send,
            chain_key_recv,
            send_count,
            recv_count,
            prev_send_count,
            skipped_keys: entries,
        };
        proof {
            let w = session@;
            lemma_be32_read(b, 196);
            lemma_be32_read(b, 200);
            lemma_be32_read(b, 204);
            lemma_be32_read(b, 208);
            assert(w.skipped.len() == count);
            assert(session_header(w) =~= b.subrange(0, 1) + b.subrange(1, 33) + b.subrange(33, 65) + b.subrange(65, 98)
                + b.subrange(98, 130) + b.subrange(130, 163) + b.subrange(163, 196) + b.subrange(196, 200)
                + b.subrange(200, 204) + b.subrange(204, 208) + b.subrange(208, 212));
            assert(b =~= session_header(w) + b.subrange(212, n as int));
            assert forall|v: SessionView| #[trigger] encodes(b, v) implies w == v by {
                assert(forall|j: int| 0 <= j < v.skipped.len() ==> entry_sized(#[trigger] v.skipped[j]));
            }
        }
        Ok(session)
    }

    /// How many skipped message keys the session holds.
    pub fn skipped_key_count(&self) -> (r: usize)
        ensures
            r == self@.skipped.len(),
    {
        self.skipped_keys.len()
    }

    /// This side's current ratchet public key.
    pub fn my_public_key(&self) -> (r: Vec<u8>)
        ensures
            r@ == self@.dh_self_public,
    {
        copy_bytes(self.dh_self.public.as_slice())
    }

    /// This side's current ratchet public key in standard base64.
    pub fn my_public_key_base64(&self) -> (r: String)
        ensures
            r@ == base64_of(self@.dh_self_public),
    {
        base64_encode_standard(self.dh_self.public.as_slice())
    }
}

} // verus!
