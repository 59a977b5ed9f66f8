//! What the Double Ratchet guarantees, stated over the session model and proved:
//! how the store of skipped keys evolves, that a decrypted message leaves no key
//! behind, that a DH ratchet forgets the old chains, and that a receiver in step
//! with a sender opens each message under the key it was sealed with, in order
//! or not.
use vstd::prelude::*;

use crate::error::CryptoError;
use crate::primitives::{aes_gcm_seal, x25519_public_of, x25519_shared};
use crate::ratchet::{
    alice_start, bob_start, chain_step, has_skipped, insert_skipped, kdf_chain, kdf_root,
    message_cipher_key, message_keys, ratchet_step, receive_keyed, receive_ratchets, receive_step,
    remote_id, send_step, session_wf, skip_chain, skip_to, skipped_pos, skipped_unique, stored_at,
    MessageView, SessionView, SkippedView, MAX_SKIP,
};

verus! {

/// The chain key `n` steps after `chain_key`.
pub open spec fn chain_key_at(chain_key: Seq<u8>, n: nat) -> Seq<u8>
    decreases n,
{
    if n == 0 {
        chain_key
    } else {
        chain_key_at(chain_step(chain_key), (n - 1) as nat)
    }
}

/// The stored key for (`dh_public`, `number`).
pub open spec fn stored_entry(s: Seq<SkippedView>, dh_public: Seq<u8>, number: u32) -> SkippedView {
    s[skipped_pos(s, dh_public, number)]
}

/// Storing a key keeps the pairs distinct, adds its pair, and leaves the keys
/// stored under other pairs as they were.
pub proof fn lemma_insert_skipped(s: Seq<SkippedView>, e: SkippedView, dh_public: Seq<u8>, number: u32)
    requires
        skipped_unique(s),
    ensures
        skipped_unique(insert_skipped(s, e)),
        has_skipped(insert_skipped(s, e), dh_public, number) == (has_skipped(s, dh_public, number) || (
        e.dh_public == dh_public && e.number == number)),
        has_skipped(insert_skipped(s, e), dh_public, number) ==> stored_entry(
            insert_skipped(s, e),
            dh_public,
            number,
        ) == (if e.dh_public == dh_public && e.number == number {
            e
        } else {
            stored_entry(s, dh_public, number)
        }),
{
    let t = insert_skipped(s, e);
    if has_skipped(s, e.dh_public, e.number) {
        let p = skipped_pos(s, e.dh_public, e.number);
        assert(stored_at(s, p, e.dh_public, e.number));
        assert forall|a: int, b: int|
            #![trigger t[a], t[b]]
            0 <= a < t.len() && 0 <= b < t.len() && a != b implies !(t[a].dh_public == t[b].dh_public
            && t[a].number == t[b].number) by {
            assert(s[a] == s[a] && s[b] == s[b] && s[p] == s[p]);
        }
    } else {
        assert forall|a: int, b: int|
            #![trigger t[a], t[b]]
            0 <= a < t.len() && 0 <= b < t.len() && a != b implies !(t[a].dh_public == t[b].dh_public
            && t[a].number == t[b].number) by {
            assert(s[a] == s[a] && s[b] == s[b]);
            if a == s.len() {
                assert(!stored_at(s, b, e.dh_public, e.number));
            }
            if b == s.len() {
                assert(!stored_at(s, a, e.dh_public, e.number));
            }
        }
    }
    if has_skipped(t, dh_public, number) {
        let q = skipped_pos(t, dh_public, number);
        assert(stored_at(t, q, dh_public, number));
        if has_skipped(s, e.dh_public, e.number) {
            let p = skipped_pos(s, e.dh_public, e.number);
            if q != p {
                assert(stored_at(s, q, dh_public, number));
            }
        } else if q < s.len() {
            assert(stored_at(s, q, dh_public, number));
        }
        if !(e.dh_public == dh_public && e.number == number) {
            let q0 = skipped_pos(s, dh_public, number);
            assert(stored_at(s, q0, dh_public, number));
            assert(t[q0] == t[q0] && t[q] == t[q]);
            assert(s[q0] == s[q0]);
        } else {
            if has_skipped(s, e.dh_public, e.number) {
                let p = skipped_pos(s, e.dh_public, e.number);
                assert(stored_at(t, p, dh_public, number));
                assert(t[p] == t[p] && t[q] == t[q]);
            } else {
                assert(stored_at(t, s.len() as int, dh_public, number));
                assert(t[s.len() as int] == t[s.len() as int] && t[q] == t[q]);
            }
        }
    } else {
        if has_skipped(s, dh_public, number) {
            let q0 = skipped_pos(s, dh_public, number);
            assert(stored_at(s, q0, dh_public, number));
            if has_skipped(s, e.dh_public, e.number) {
                let p = skipped_pos(s, e.dh_public, e.number);
                if q0 != p {
                    assert(stored_at(t, q0, dh_public, number));
                } else {
                    assert(stored_at(t, p, e.dh_public, e.number));
                }
            } else {
                assert(stored_at(t, q0, dh_public, number));
            }
        }
        if e.dh_public == dh_public && e.number == number {
            if has_skipped(s, e.dh_public, e.number) {
                let p = skipped_pos(s, e.dh_public, e.number);
                assert(stored_at(t, p, dh_public, number));
            } else {
                assert(stored_at(t, s.len() as int, dh_public, number));
            }
        }
    }
}

/// Skipping a chain from message `from` to `until` stores, under the peer key,
/// the keys of exactly the messages in between (the key of message `n` derived
/// from the chain key `n - from` steps on), keeps every other stored key, and
/// ends `until - from` steps along the chain.
pub proof fn lemma_skip_chain(
    s: Seq<SkippedView>,
    remote: Seq<u8>,
    chain_key: Seq<u8>,
    from: nat,
    until: nat,
)
    requires
        skipped_unique(s),
        from <= until <= u32::MAX,
    ensures
        skipped_unique(skip_chain(s, remote, chain_key, from, until).0),
        skip_chain(s, remote, chain_key, from, until).1 == chain_key_at(chain_key, (until - from) as nat),
        forall|dh: Seq<u8>, n: u32|
            #[trigger] has_skipped(skip_chain(s, remote, chain_key, from, until).0, dh, n) == (has_skipped(s, dh, n)
                || (dh == remote && from <= n < until)),
        forall|dh: Seq<u8>, n: u32|
            #[trigger] has_skipped(skip_chain(s, remote, chain_key, from, until).0, dh, n) ==> stored_entry(
                skip_chain(s, remote, chain_key, from, until).0,
                dh,
                n,
            ) == (if dh == remote && from <= n < until {
                SkippedView {
                    dh_public: remote,
                    number: n,
                    keys: message_keys(chain_key_at(chain_key, (n - from) as nat)),
                }
            } else {
                stored_entry(s, dh, n)
            }),
    decreases until - from,
{
    if from < until {
        let e = SkippedView { dh_public: remote, number: from as u32, keys: message_keys(chain_key) };
        let s1 = insert_skipped(s, e);
        lemma_insert_skipped(s, e, remote, from as u32);
        lemma_skip_chain(s1, remote, chain_step(chain_key), from + 1, until);
        let t = skip_chain(s, remote, chain_key, from, until).0;
        assert(t == skip_chain(s1, remote, chain_step(chain_key), from + 1, until).0);
        assert(chain_key_at(chain_key, (until - from) as nat) == chain_key_at(
            chain_step(chain_key),
            (until - (from + 1)) as nat,
        ));
        assert forall|dh: Seq<u8>, n: u32|
            #[trigger] has_skipped(t, dh, n) == (has_skipped(s, dh, n) || (dh == remote && from <= n < until)) by {
            lemma_insert_skipped(s, e, dh, n);
        }
        assert forall|dh: Seq<u8>, n: u32| #[trigger] has_skipped(t, dh, n) implies stored_entry(t, dh, n) == (
        if dh == remote && from <= n < until {
            SkippedView {
                dh_public: remote,
                number: n,
                keys: message_keys(chain_key_at(chain_key, (n - from) as nat)),
            }
        } else {
            stored_entry(s, dh, n)
        }) by {
            lemma_insert_skipped(s, e, dh, n);
            if dh == remote && from + 1 <= n < until {
                assert(chain_key_at(chain_key, (n - from) as nat) == chain_key_at(
                    chain_step(chain_key),
                    (n - (from + 1)) as nat,
                ));
            }
        }
    }
}

/// The store after a successful skip: the skipped messages' keys under the peer
/// key, every other key kept.
pub proof fn lemma_skip_to(v: SessionView, until: u32)
    requires
        skipped_unique(v.skipped),
        skip_to(v, until) is Ok,
    ensures
        forall|dh: Seq<u8>, n: u32|
            #[trigger] has_skipped(skip_to(v, until)->Ok_0.skipped, dh, n) == (has_skipped(v.skipped, dh, n) || (
            v.chain_key_recv is Some && dh == remote_id(v) && v.recv_count <= n < until)),
        forall|dh: Seq<u8>, n: u32|
            #[trigger] has_skipped(skip_to(v, until)->Ok_0.skipped, dh, n) ==> stored_entry(
                skip_to(v, until)->Ok_0.skipped,
                dh,
                n,
            ) == (if v.chain_key_recv is Some && dh == remote_id(v) && v.recv_count <= n < until {
                SkippedView {
                    dh_public: dh,
                    number: n,
                    keys: message_keys(chain_key_at(v.chain_key_recv->Some_0, (n - v.recv_count) as nat)),
                }
            } else {
                stored_entry(v.skipped, dh, n)
            }),
        skipped_unique(skip_to(v, until)->Ok_0.skipped),
{
    if v.chain_key_recv is Some && v.recv_count < until {
        lemma_skip_chain(v.skipped, remote_id(v), v.chain_key_recv->Some_0, v.recv_count as nat, until as nat);
    }
}

/// Once a message has been decrypted, the session keeps no key for it: nothing
/// is stored under its (peer key, number), whether its key came from the store
/// or from the receiving chain, and in the latter case the receiving chain has
/// moved one step past the chain key the message key came from.
pub proof fn lemma_decrypted_key_not_retained(v: SessionView, m: MessageView, fresh: Seq<u8>)
    requires
        session_wf(v),
        receive_step(v, m, fresh).1 is Ok,
    ensures
        !has_skipped(receive_step(v, m, fresh).0.skipped, m.dh_public, m.message_number),
        !has_skipped(v.skipped, m.dh_public, m.message_number) ==> exists|ck: Seq<u8>|
            receive_keyed(v, m, fresh).1 == Ok::<Seq<u8>, CryptoError>(#[trigger] message_cipher_key(ck))
                && receive_step(v, m, fresh).0.chain_key_recv == Some(chain_step(ck)),
{
    let w = receive_step(v, m, fresh).0;
    if has_skipped(v.skipped, m.dh_public, m.message_number) {
        let i = skipped_pos(v.skipped, m.dh_public, m.message_number);
        assert(stored_at(v.skipped, i, m.dh_public, m.message_number));
        let t = v.skipped.remove(i);
        assert(w.skipped == t);
        if has_skipped(t, m.dh_public, m.message_number) {
            let j = choose|j: int| 0 <= j < t.len() && #[trigger] stored_at(t, j, m.dh_public, m.message_number);
            let j0 = if j < i { j } else { j + 1 };
            assert(t[j] == v.skipped[j0]);
            assert(v.skipped[j0] == v.skipped[j0] && v.skipped[i] == v.skipped[i]);
        }
    } else {
        let ratchet = v.dh_remote != Some(m.dh_public);
        let closed = if ratchet {
            skip_to(v, m.prev_chain_count)
        } else {
            Ok(v)
        };
        let w1 = closed->Ok_0;
        if ratchet {
            lemma_skip_to(v, m.prev_chain_count);
            assert(!has_skipped(w1.skipped, m.dh_public, m.message_number));
        }
        let w2 = if ratchet {
            ratchet_step(w1, m.dh_public, fresh)
        } else {
            w1
        };
        assert(skipped_unique(w2.skipped)) by {
            if ratchet {
                lemma_skip_to(v, m.prev_chain_count);
            }
        }
        lemma_skip_to(w2, m.message_number);
        let w3 = skip_to(w2, m.message_number)->Ok_0;
        assert(!has_skipped(w3.skipped, m.dh_public, m.message_number));
        let ck = w3.chain_key_recv->Some_0;
        assert(receive_keyed(v, m, fresh).1 == Ok::<Seq<u8>, CryptoError>(message_cipher_key(ck)));
    }
}

/// A DH ratchet forgets the old chains: the new root key and both new chain keys
/// depend only on the old root key, this side's ratchet secret, the fresh secret
/// and the peer's key, each new chain coming from a fresh DH output. Two sessions
/// that agree on those end with the same keys, whatever their earlier chain
/// keys, counters and stored keys were.
pub proof fn lemma_ratchet_forgets_old_chains(v: SessionView, w: SessionView, remote: Seq<u8>, fresh: Seq<u8>)
    requires
        v.root_key == w.root_key,
        v.dh_self_private == w.dh_self_private,
    ensures
        ratchet_step(v, remote, fresh).root_key == ratchet_step(w, remote, fresh).root_key,
        ratchet_step(v, remote, fresh).chain_key_send == ratchet_step(w, remote, fresh).chain_key_send,
        ratchet_step(v, remote, fresh).chain_key_recv == ratchet_step(w, remote, fresh).chain_key_recv,
        ratchet_step(v, remote, fresh).chain_key_recv == Some(
            kdf_chain(v.root_key, x25519_shared(v.dh_self_private, remote)),
        ),
        ratchet_step(v, remote, fresh).chain_key_send == Some(
            kdf_chain(
                kdf_root(v.root_key, x25519_shared(v.dh_self_private, remote)),
                x25519_shared(fresh, remote),
            ),
        ),
{
}

/// The receiver is in step with the sender: its receiving chain is the
/// sender's sending chain at the same position, and it knows the sender's
/// ratchet key.
pub open spec fn in_step(sender: SessionView, receiver: SessionView) -> bool {
    &&& sender.chain_key_send is Some
    &&& receiver.chain_key_recv == sender.chain_key_send
    &&& receiver.recv_count == sender.send_count
    &&& receiver.dh_remote == Some(sender.dh_self_public)
    &&& sender.dh_self_public.len() == 32
}

/// In-order delivery within a chain: when the receiver is in step with the
/// sender and holds no stored key for the next message, the message the sender
/// produces is opened under the very key it was sealed with, the store is left
/// alone, and the two stay in step.
pub proof fn lemma_in_order_delivery(
    sender: SessionView,
    receiver: SessionView,
    plaintext: Seq<u8>,
    nonce: Seq<u8>,
    fresh: Seq<u8>,
)
    requires
        in_step(sender, receiver),
        send_step(sender, plaintext, nonce).1 is Ok,
        fresh.len() == 32,
        !has_skipped(receiver.skipped, sender.dh_self_public, sender.send_count),
    ensures
        ({
            let next_sender = send_step(sender, plaintext, nonce).0;
            let m = send_step(sender, plaintext, nonce).1->Ok_0;
            let key = message_cipher_key(sender.chain_key_send->Some_0);
            &&& m.ciphertext == aes_gcm_seal(key, m.nonce, plaintext, Seq::empty())
            &&& receive_keyed(receiver, m, fresh).1 == Ok::<Seq<u8>, CryptoError>(key)
            &&& receive_step(receiver, m, fresh).0.skipped == receiver.skipped
            &&& in_step(next_sender, receive_step(receiver, m, fresh).0)
        }),
{
}

/// Each message sent moves the sending chain one step: the chain `i` steps on
/// from the new sending chain key is the one `i + 1` steps on from the old.
pub proof fn lemma_sending_walks_the_chain(sender: SessionView, plaintext: Seq<u8>, nonce: Seq<u8>, i: nat)
    requires
        send_step(sender, plaintext, nonce).1 is Ok,
    ensures
        send_step(sender, plaintext, nonce).1->Ok_0.message_number == sender.send_count,
        chain_key_at(send_step(sender, plaintext, nonce).0.chain_key_send->Some_0, i) == chain_key_at(
            sender.chain_key_send->Some_0,
            i + 1,
        ),
{
}

/// Out-of-order delivery within a chain. For a message `j` positions ahead of
/// the receiving chain, from the peer whose chain it is: beyond `MAX_SKIP` it
/// is refused with `TooManySkipped`; otherwise it opens under the key `j` steps
/// along the chain, and the key of each message passed over is stored under
/// the peer's key, each the key `n` steps along for the message `n` positions
/// ahead, so that message opens under it when it arrives.
pub proof fn lemma_out_of_order_delivery(receiver: SessionView, m: MessageView, fresh: Seq<u8>)
    requires
        skipped_unique(receiver.skipped),
        receiver.chain_key_recv is Some,
        receiver.dh_remote == Some(m.dh_public),
        m.dh_public.len() == 32,
        m.nonce.len() == 12,
        fresh.len() == 32,
        !has_skipped(receiver.skipped, m.dh_public, m.message_number),
        receiver.recv_count <= m.message_number < u32::MAX,
    ensures
        m.message_number > receiver.recv_count + MAX_SKIP ==> receive_keyed(receiver, m, fresh).1 == Err::<
            Seq<u8>,
            CryptoError,
        >(CryptoError::TooManySkipped),
        m.message_number <= receiver.recv_count + MAX_SKIP ==> ({
            let ck = receiver.chain_key_recv->Some_0;
            let w = receive_keyed(receiver, m, fresh).0;
            &&& receive_keyed(receiver, m, fresh).1 == Ok::<Seq<u8>, CryptoError>(
                message_cipher_key(chain_key_at(ck, (m.message_number - receiver.recv_count) as nat)),
            )
            &&& forall|n: u32|
                receiver.recv_count <= n < m.message_number ==> #[trigger] has_skipped(w.skipped, m.dh_public, n)
                    && stored_entry(w.skipped, m.dh_public, n).keys == message_keys(
                    chain_key_at(ck, (n - receiver.recv_count) as nat),
                )
        }),
{
    if m.message_number <= receiver.recv_count + MAX_SKIP {
        lemma_skip_to(receiver, m.message_number);
        let w3 = skip_to(receiver, m.message_number)->Ok_0;
        if receiver.recv_count < m.message_number {
            lemma_skip_chain(
                receiver.skipped,
                remote_id(receiver),
                receiver.chain_key_recv->Some_0,
                receiver.recv_count as nat,
                m.message_number as nat,
            );
        }
        assert(w3.chain_key_recv == Some(
            chain_key_at(receiver.chain_key_recv->Some_0, (m.message_number - receiver.recv_count) as nat),
        ));
    }
}

/// A stored key is used for its message: a message for which the store holds a
/// key opens under that key's cipher key, and the key leaves the store.
pub proof fn lemma_stored_key_used(v: SessionView, m: MessageView, fresh: Seq<u8>)
    requires
        skipped_unique(v.skipped),
        has_skipped(v.skipped, m.dh_public, m.message_number),
        m.dh_public.len() == 32,
        m.nonce.len() == 12,
        fresh.len() == 32,
    ensures
        receive_keyed(v, m, fresh).1 == Ok::<Seq<u8>, CryptoError>(
            stored_entry(v.skipped, m.dh_public, m.message_number).keys.cipher_key,
        ),
        !has_skipped(receive_keyed(v, m, fresh).0.skipped, m.dh_public, m.message_number),
{
    let i = skipped_pos(v.skipped, m.dh_public, m.message_number);
    assert(stored_at(v.skipped, i, m.dh_public, m.message_number));
    let t = v.skipped.remove(i);
    if has_skipped(t, m.dh_public, m.message_number) {
        let j = choose|j: int| 0 <= j < t.len() && #[trigger] stored_at(t, j, m.dh_public, m.message_number);
        let j0 = if j < i { j } else { j + 1 };
        assert(t[j] == v.skipped[j0]);
        assert(v.skipped[j0] == v.skipped[j0] && v.skipped[i] == v.skipped[i]);
    }
}

/// The two ends after `sender` has spoken last and `receiver` has received
/// everything: the receiver is in step with the sender's sending chain; it has
/// already derived its next root key and sending chain from the sender's root
/// key and the DH output of its own ratchet key with the sender's, and has not
/// sent on that chain yet; both ratchet public keys belong to their secrets;
/// the sender has received all of the receiver's previous sending chain; and
/// nothing is stored on either side.
pub open spec fn turn_state(sender: SessionView, receiver: SessionView) -> bool {
    &&& in_step(sender, receiver)
    &&& receiver.root_key == kdf_root(
        sender.root_key,
        x25519_shared(receiver.dh_self_private, sender.dh_self_public),
    )
    &&& receiver.chain_key_send == Some(
        kdf_chain(sender.root_key, x25519_shared(receiver.dh_self_private, sender.dh_self_public)),
    )
    &&& receiver.send_count == 0
    &&& sender.dh_self_public == x25519_public_of(sender.dh_self_private)
    &&& receiver.dh_self_public == x25519_public_of(receiver.dh_self_private)
    &&& (sender.chain_key_recv is Some ==> receiver.prev_send_count <= sender.recv_count)
    &&& sender.skipped.len() == 0
    &&& receiver.skipped.len() == 0
}

/// The first message of a session: the responder, whose signed prekey is
/// `spk`, ratchets on the initiator's key and opens the message under the key
/// it was sealed with, and the two reach `turn_state`. The DH agreement assumed
/// is the one `RatchetSession::decrypt_with_secret` states for its ratchet.
pub proof fn lemma_first_message_delivery(
    shared_secret: Seq<u8>,
    spk: Seq<u8>,
    alice_secret: Seq<u8>,
    plaintext: Seq<u8>,
    nonce: Seq<u8>,
    fresh: Seq<u8>,
)
    requires
        session_wf(alice_start(shared_secret, x25519_public_of(spk), alice_secret)),
        session_wf(bob_start(shared_secret, spk, x25519_public_of(spk))),
        send_step(alice_start(shared_secret, x25519_public_of(spk), alice_secret), plaintext, nonce).1 is Ok,
        fresh.len() == 32,
        receive_ratchets(
            bob_start(shared_secret, spk, x25519_public_of(spk)),
            send_step(alice_start(shared_secret, x25519_public_of(spk), alice_secret), plaintext, nonce).1->Ok_0,
            fresh,
        ) ==> x25519_shared(spk, x25519_public_of(alice_secret)) == x25519_shared(
            alice_secret,
            x25519_public_of(spk),
        ),
    ensures
        ({
            let a = alice_start(shared_secret, x25519_public_of(spk), alice_secret);
            let b = bob_start(shared_secret, spk, x25519_public_of(spk));
            let m = send_step(a, plaintext, nonce).1->Ok_0;
            &&& m.ciphertext == aes_gcm_seal(
                message_cipher_key(a.chain_key_send->Some_0),
                m.nonce,
                plaintext,
                Seq::empty(),
            )
            &&& receive_ratchets(b, m, fresh)
            &&& receive_keyed(b, m, fresh).1 == Ok::<Seq<u8>, CryptoError>(
                message_cipher_key(a.chain_key_send->Some_0),
            )
            &&& turn_state(send_step(a, plaintext, nonce).0, receive_step(b, m, fresh).0)
        }),
{
    let a = alice_start(shared_secret, x25519_public_of(spk), alice_secret);
    let b = bob_start(shared_secret, spk, x25519_public_of(spk));
    let m = send_step(a, plaintext, nonce).1->Ok_0;
    assert(!has_skipped(b.skipped, m.dh_public, m.message_number));
    assert(skip_to(b, m.prev_chain_count) == Ok::<SessionView, CryptoError>(b));
    let w2 = ratchet_step(b, m.dh_public, fresh);
    assert(skip_to(w2, m.message_number) == Ok::<SessionView, CryptoError>(w2));
    let b2 = receive_step(b, m, fresh).0;
    assert(b2.skipped =~= Seq::<SkippedView>::empty());
}

/// Another message in the current chain: in `turn_state` the receiver opens it
/// under the key it was sealed with, and `turn_state` still holds.
pub proof fn lemma_streak_delivery(
    sender: SessionView,
    receiver: SessionView,
    plaintext: Seq<u8>,
    nonce: Seq<u8>,
    fresh: Seq<u8>,
)
    requires
        turn_state(sender, receiver),
        send_step(sender, plaintext, nonce).1 is Ok,
        fresh.len() == 32,
    ensures
        ({
            let m = send_step(sender, plaintext, nonce).1->Ok_0;
            &&& m.ciphertext == aes_gcm_seal(
                message_cipher_key(sender.chain_key_send->Some_0),
                m.nonce,
                plaintext,
                Seq::empty(),
            )
            &&& receive_keyed(receiver, m, fresh).1 == Ok::<Seq<u8>, CryptoError>(
                message_cipher_key(sender.chain_key_send->Some_0),
            )
            &&& turn_state(send_step(sender, plaintext, nonce).0, receive_step(receiver, m, fresh).0)
        }),
{
    lemma_in_order_delivery(sender, receiver, plaintext, nonce, fresh);
}

/// A reply: in `turn_state`, when the receiver answers with a ratchet key the
/// sender has not seen, the sender ratchets, opens the reply under the key it
/// was sealed with, and the roles swap in `turn_state`. The DH agreement
/// assumed is the one `RatchetSession::decrypt_with_secret` states for its
/// ratchet.
pub proof fn lemma_reply_delivery(
    sender: SessionView,
    receiver: SessionView,
    plaintext: Seq<u8>,
    nonce: Seq<u8>,
    fresh: Seq<u8>,
)
    requires
        turn_state(sender, receiver),
        session_wf(sender),
        session_wf(receiver),
        send_step(receiver, plaintext, nonce).1 is Ok,
        fresh.len() == 32,
        sender.dh_remote != Some(receiver.dh_self_public),
        receive_ratchets(sender, send_step(receiver, plaintext, nonce).1->Ok_0, fresh) ==> x25519_shared(
            sender.dh_self_private,
            receiver.dh_self_public,
        ) == x25519_shared(receiver.dh_self_private, x25519_public_of(sender.dh_self_private)),
    ensures
        ({
            let m = send_step(receiver, plaintext, nonce).1->Ok_0;
            &&& m.ciphertext == aes_gcm_seal(
                message_cipher_key(receiver.chain_key_send->Some_0),
                m.nonce,
                plaintext,
                Seq::empty(),
            )
            &&& receive_ratchets(sender, m, fresh)
            &&& receive_keyed(sender, m, fresh).1 == Ok::<Seq<u8>, CryptoError>(
                message_cipher_key(receiver.chain_key_send->Some_0),
            )
            &&& turn_state(send_step(receiver, plaintext, nonce).0, receive_step(sender, m, fresh).0)
        }),
{
    let m = send_step(receiver, plaintext, nonce).1->Ok_0;
    assert(!has_skipped(sender.skipped, m.dh_public, m.message_number));
    assert(skip_to(sender, m.prev_chain_count) == Ok::<SessionView, CryptoError>(sender));
    let w2 = ratchet_step(sender, m.dh_public, fresh);
    assert(skip_to(w2, m.message_number) == Ok::<SessionView, CryptoError>(w2));
}

/// One exchange: who sends, the plaintext and nonce of the message, and the
/// fresh secret the receiving side would ratchet with.
pub struct Exchange {
    pub from_alice: bool,
    pub plaintext: Seq<u8>,
    pub nonce: Seq<u8>,
    pub fresh: Seq<u8>,
}

/// The sending side of an exchange.
pub open spec fn sender_of(a: SessionView, b: SessionView, x: Exchange) -> SessionView {
    if x.from_alice {
        a
    } else {
        b
    }
}

/// The receiving side of an exchange.
pub open spec fn receiver_of(a: SessionView, b: SessionView, x: Exchange) -> SessionView {
    if x.from_alice {
        b
    } else {
        a
    }
}

/// The message of an exchange and the sender's session after it.
pub open spec fn sent(a: SessionView, b: SessionView, x: Exchange) -> (SessionView, Result<MessageView, CryptoError>) {
    send_step(sender_of(a, b, x), x.plaintext, x.nonce)
}

/// Both sessions after an exchange in which the message is received at once.
#[verifier::opaque]
pub open spec fn exchange(a: SessionView, b: SessionView, x: Exchange) -> (SessionView, SessionView) {
    let s2 = sent(a, b, x).0;
    let r2 = receive_step(receiver_of(a, b, x), sent(a, b, x).1->Ok_0, x.fresh).0;
    if x.from_alice {
        (s2, r2)
    } else {
        (r2, s2)
    }
}

/// Alice's and Bob's sessions after a sequence of exchanges.
#[verifier::opaque]
pub open spec fn run(a: SessionView, b: SessionView, xs: Seq<Exchange>) -> (SessionView, SessionView)
    decreases xs.len(),
{
    if xs.len() == 0 {
        (a, b)
    } else {
        let p = run(a, b, xs.drop_last());
        exchange(p.0, p.1, xs.last())
    }
}

/// What the library's calls state of one exchange, and what a fresh ratchet
/// key gives: both sessions are well formed, the message is sent, the ratchet
/// secret has 32 bytes and a public key the receiving side does not already
/// have, and a ratchet on receipt sees the X25519 agreement that
/// `RatchetSession::decrypt_with_secret` states.
#[verifier::opaque]
pub open spec fn exchange_ok(a: SessionView, b: SessionView, x: Exchange) -> bool {
    let s = sender_of(a, b, x);
    let r = receiver_of(a, b, x);
    let m = sent(a, b, x).1->Ok_0;
    &&& session_wf(a)
    &&& session_wf(b)
    &&& sent(a, b, x).1 is Ok
    &&& x.fresh.len() == 32
    &&& x25519_public_of(x.fresh) != r.dh_self_public
    &&& (receive_ratchets(r, m, x.fresh) ==> x25519_shared(r.dh_self_private, m.dh_public) == x25519_shared(
        s.dh_self_private,
        x25519_public_of(r.dh_self_private),
    ))
}

/// The receiving side opens the message of an exchange under the key the
/// sending side sealed it with.
#[verifier::opaque]
pub open spec fn delivered(a: SessionView, b: SessionView, x: Exchange) -> bool {
    let key = message_cipher_key(sender_of(a, b, x).chain_key_send->Some_0);
    let m = sent(a, b, x).1->Ok_0;
    &&& m.ciphertext == aes_gcm_seal(key, m.nonce, x.plaintext, Seq::empty())
    &&& receive_keyed(receiver_of(a, b, x), m, x.fresh).1 == Ok::<Seq<u8>, CryptoError>(key)
}

/// The state of the two sessions after the last exchange: in `turn_state` with
/// the last sender first, whose peer key is not the other side's current one.
#[verifier::opaque]
pub open spec fn after_turn(a: SessionView, b: SessionView, alice_spoke: bool) -> bool {
    if alice_spoke {
        turn_state(a, b) && a.dh_remote != Some(b.dh_self_public)
    } else {
        turn_state(b, a) && b.dh_remote != Some(a.dh_self_public)
    }
}

/// The first exchange of a run: delivered, and the sessions in `after_turn`.
proof fn lemma_run_first(shared_secret: Seq<u8>, spk: Seq<u8>, alice_secret: Seq<u8>, x: Exchange)
    requires
        x.from_alice,
        exchange_ok(
            alice_start(shared_secret, x25519_public_of(spk), alice_secret),
            bob_start(shared_secret, spk, x25519_public_of(spk)),
            x,
        ),
    ensures
        delivered(
            alice_start(shared_secret, x25519_public_of(spk), alice_secret),
            bob_start(shared_secret, spk, x25519_public_of(spk)),
            x,
        ),
        after_turn(
            exchange(
                alice_start(shared_secret, x25519_public_of(spk), alice_secret),
                bob_start(shared_secret, spk, x25519_public_of(spk)),
                x,
            ).0,
            exchange(
                alice_start(shared_secret, x25519_public_of(spk), alice_secret),
                bob_start(shared_secret, spk, x25519_public_of(spk)),
                x,
            ).1,
            true,
        ),
{
    reveal(exchange_ok);
    reveal(delivered);
    reveal(after_turn);
    reveal(exchange);
    lemma_first_message_delivery(shared_secret, spk, alice_secret, x.plaintext, x.nonce, x.fresh);
}

/// A later exchange of a run: delivered, and the sessions again in `after_turn`.
proof fn lemma_run_next(a: SessionView, b: SessionView, alice_spoke: bool, x: Exchange)
    requires
        after_turn(a, b, alice_spoke),
        exchange_ok(a, b, x),
    ensures
        delivered(a, b, x),
        after_turn(exchange(a, b, x).0, exchange(a, b, x).1, x.from_alice),
{
    reveal(exchange_ok);
    reveal(delivered);
    reveal(after_turn);
    reveal(exchange);
    if alice_spoke == x.from_alice {
        lemma_streak_delivery(sender_of(a, b, x), receiver_of(a, b, x), x.plaintext, x.nonce, x.fresh);
    } else {
        lemma_reply_delivery(receiver_of(a, b, x), sender_of(a, b, x), x.plaintext, x.nonce, x.fresh);
    }
}

proof fn lemma_run_prefix(a0: SessionView, b0: SessionView, xs: Seq<Exchange>, k: int)
    requires
        1 <= k <= xs.len(),
        delivered(a0, b0, xs[0]),
        after_turn(exchange(a0, b0, xs[0]).0, exchange(a0, b0, xs[0]).1, xs[0].from_alice),
        forall|i: int|
            0 <= i < xs.len() ==> exchange_ok(
                run(a0, b0, xs.subrange(0, i)).0,
                run(a0, b0, xs.subrange(0, i)).1,
                #[trigger] xs[i],
            ),
    ensures
        after_turn(run(a0, b0, xs.subrange(0, k)).0, run(a0, b0, xs.subrange(0, k)).1, xs[k - 1].from_alice),
        forall|i: int|
            0 <= i < k ==> delivered(
                run(a0, b0, xs.subrange(0, i)).0,
                run(a0, b0, xs.subrange(0, i)).1,
                #[trigger] xs[i],
            ),
    decreases k,
{
    let j = k - 1;
    let x = xs[j];
    let p = run(a0, b0, xs.subrange(0, j));
    assert(run(a0, b0, xs.subrange(0, k)) == exchange(p.0, p.1, x)) by {
        assert(xs.subrange(0, k).drop_last() =~= xs.subrange(0, j));
        assert(xs.subrange(0, k).last() == x);
        reveal_with_fuel(run, 1);
    }
    if k == 1 {
        assert(p == (a0, b0)) by {
            assert(xs.subrange(0, 0) =~= Seq::<Exchange>::empty());
            reveal_with_fuel(run, 1);
        }
    } else {
        assert(exchange_ok(p.0, p.1, x));
        lemma_run_prefix(a0, b0, xs, j);
        lemma_run_next(p.0, p.1, xs[j - 1].from_alice, x);
    }
}

/// Ordered delivery: in any sequence of exchanges between two fresh sessions
/// that starts with the initiator (each message received as soon as it is
/// sent, in streaks or alternating), every message is opened under the key it
/// was sealed with; `decrypt_with_secret` then returns its plaintext. The
/// hypotheses on each exchange are `exchange_ok`.
pub proof fn lemma_ordered_delivery(
    shared_secret: Seq<u8>,
    spk: Seq<u8>,
    alice_secret: Seq<u8>,
    xs: Seq<Exchange>,
)
    requires
        xs.len() > 0 ==> xs[0].from_alice,
        forall|i: int|
            0 <= i < xs.len() ==> exchange_ok(
                run(alice_start(shared_secret, x25519_public_of(spk), alice_secret), bob_start(shared_secret, spk, x25519_public_of(spk)), xs.subrange(0, i)).0,
                run(alice_start(shared_secret, x25519_public_of(spk), alice_secret), bob_start(shared_secret, spk, x25519_public_of(spk)), xs.subrange(0, i)).1,
                #[trigger] xs[i],
            ),
    ensures
        forall|i: int|
            0 <= i < xs.len() ==> delivered(
                run(alice_start(shared_secret, x25519_public_of(spk), alice_secret), bob_start(shared_secret, spk, x25519_public_of(spk)), xs.subrange(0, i)).0,
                run(alice_start(shared_secret, x25519_public_of(spk), alice_secret), bob_start(shared_secret, spk, x25519_public_of(spk)), xs.subrange(0, i)).1,
                #[trigger] xs[i],
            ),
{
    if xs.len() > 0 {
        let a0 = alice_start(shared_secret, x25519_public_of(spk), alice_secret);
        let b0 = bob_start(shared_secret, spk, x25519_public_of(spk));
        assert(run(a0, b0, xs.subrange(0, 0)) == (a0, b0)) by {
            assert(xs.subrange(0, 0) =~= Seq::<Exchange>::empty());
            reveal_with_fuel(run, 1);
        }
        assert(exchange_ok(a0, b0, xs[0]));
        lemma_run_first(shared_secret, spk, alice_secret, xs[0]);
        lemma_run_prefix(a0, b0, xs, xs.len() as int);
    }
}

} // verus!
