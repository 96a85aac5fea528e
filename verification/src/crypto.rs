//! Sealed payloads with replay protection, and the key exchange sessions.

use crate::bytes::{
    be64_bytes, be64_round_trip, overlay, push_all, put_bytes, read_array, same_bytes, u64_bytes,
};
use chacha20poly1305::aead::{AeadInPlace, KeyInit};
use chacha20poly1305::ChaCha20Poly1305;
use snow::HandshakeState;
use vstd::prelude::*;
use vstd::slice::slice_subrange;

verus! {

/// The error of a Noise session.
#[verifier::external_type_specification]
#[verifier::external_body]
pub struct ExNoiseError(snow::Error);

/// A Noise handshake in progress.
#[verifier::external_type_specification]
#[verifier::external_body]
pub struct ExHandshakeState(snow::HandshakeState);

/// A finished Noise session.
#[verifier::external_type_specification]
#[verifier::external_body]
pub struct ExTransportState(snow::TransportState);

#[derive(Debug)]
pub enum CryptoError {
    Snow(snow::Error),
    Aead,
}

/// Bytes of an authentication tag.
pub const TAG_LEN: usize = 16;

/// What ChaCha20-Poly1305 makes of a message under a key, a nonce and
/// associated data: the encrypted message followed by its tag.
pub uninterp spec fn sealed(key: Seq<u8>, nonce: Seq<u8>, aad: Seq<u8>, msg: Seq<u8>) -> Seq<u8>;

/// Bytes that the block counter of the cipher reaches, beyond the block that the
/// key of the tag is taken from.
pub const MAX_SEALED: u64 = 274_877_906_816;

/// Few enough bytes for the block counter of the cipher.
pub open spec fn sealable(len: nat) -> bool {
    len <= MAX_SEALED
}

fn is_sealable(len: usize) -> (r: bool)
    ensures
        r == sealable(len as nat),
{
    len as u64 <= MAX_SEALED
}

/// `AeadInPlace::encrypt_in_place_detached` of `ChaCha20Poly1305`: the buffer
/// becomes the encrypted message and the tag is returned; both are a function
/// of key, nonce, associated data and message. It succeeds on every message that
/// the block counter reaches; on some longer ones it panics.
#[verifier::external_body]
fn seal_detached(key: &[u8; 32], nonce: &[u8; 12], aad: &[u8], buf: &mut [u8]) -> (tag: Option<
    [u8; 16],
>)
    requires
        sealable(old(buf)@.len()),
    ensures
        tag is Some,
        final(buf)@.len() == old(buf)@.len(),
        final(buf)@ + tag->0@ == sealed(key@, nonce@, aad@, old(buf)@),
{
    let cipher = ChaCha20Poly1305::new(key.into());
    cipher.encrypt_in_place_detached(nonce.into(), aad, buf).ok().map(|tag| tag.into())
}

/// `AeadInPlace::decrypt_in_place_detached` of `ChaCha20Poly1305`: succeeds on
/// exactly the bytes and tags that sealing some message under the same key,
/// nonce and associated data gives, and then the buffer becomes that message,
/// of which there is one. On failure the buffer stays as it was. On some bytes
/// that the block counter does not reach it panics.
#[verifier::external_body]
fn open_detached(
    key: &[u8; 32],
    nonce: &[u8; 12],
    aad: &[u8],
    buf: &mut [u8],
    tag: &[u8; 16],
) -> (ok: bool)
    requires
        sealable(old(buf)@.len()),
    ensures
        final(buf)@.len() == old(buf)@.len(),
        ok ==> sealable(final(buf)@.len()) && sealed(key@, nonce@, aad@, final(buf)@) == old(buf)@
            + tag@,
        ok ==> forall|m: Seq<u8>|
            sealable(m.len()) && #[trigger] sealed(key@, nonce@, aad@, m) == old(buf)@ + tag@ ==> m
                == final(buf)@,
        !ok ==> final(buf)@ == old(buf)@,
        !ok ==> forall|m: Seq<u8>|
            sealable(m.len()) ==> #[trigger] sealed(key@, nonce@, aad@, m) != old(buf)@ + tag@,
{
    let cipher = ChaCha20Poly1305::new(key.into());
    cipher.decrypt_in_place_detached(nonce.into(), aad, buf, tag.into()).is_ok()
}

/// The twelve nonce bytes of a counter.
pub open spec fn nonce_bytes(counter: u64) -> Seq<u8> {
    seq![0u8, 0u8, 0u8, 0u8] + be64_bytes(counter)
}

fn make_nonce(counter: u64) -> (n: [u8; 12])
    ensures
        n@ == nonce_bytes(counter),
{
    let b = u64_bytes(counter);
    let n: [u8; 12] = [0, 0, 0, 0, b[0], b[1], b[2], b[3], b[4], b[5], b[6], b[7]];
    proof {
        be64_round_trip(counter);
    }
    assert(n@ =~= nonce_bytes(counter));
    n
}

/// The counters that were accepted lately: the highest one, and for each of the
/// sixty-four up to it whether it was seen.
#[derive(Debug, Clone, Copy, PartialEq, Eq, Structural)]
pub struct ReplayWindow {
    pub last_nonce: u64,
    pub bitmap: u64,
}

/// The counter `back` steps below the highest one was seen.
pub open spec fn seen_back(bitmap: u64, back: int) -> bool {
    bitmap & (1u64 << (back as u64)) != 0
}

/// A counter that is neither too old nor seen before.
pub open spec fn is_fresh(w: ReplayWindow, nonce: u64) -> bool {
    nonce > w.last_nonce || (w.last_nonce - nonce < 64 && !seen_back(
        w.bitmap,
        w.last_nonce - nonce,
    ))
}

/// The window after a counter was accepted.
pub open spec fn advanced(w: ReplayWindow, nonce: u64) -> ReplayWindow {
    if nonce > w.last_nonce {
        if nonce - w.last_nonce >= 64 {
            ReplayWindow { last_nonce: nonce, bitmap: 1 }
        } else {
            ReplayWindow {
                last_nonce: nonce,
                bitmap: (w.bitmap << ((nonce - w.last_nonce) as u64)) | 1,
            }
        }
    } else {
        ReplayWindow {
            last_nonce: w.last_nonce,
            bitmap: w.bitmap | (1u64 << ((w.last_nonce - nonce) as u64)),
        }
    }
}

/// A window knows a set of accepted counters: none is above the highest one,
/// and of those less than sixty-four below it the window tells which are in.
pub open spec fn tracks(w: ReplayWindow, accepted: Set<u64>) -> bool {
    &&& forall|n: u64| #[trigger] accepted.contains(n) ==> n <= w.last_nonce
    &&& forall|n: u64|
        n <= w.last_nonce && w.last_nonce - n < 64 ==> (#[trigger] accepted.contains(n)
            <==> seen_back(w.bitmap, w.last_nonce - n))
}

proof fn shifted_bits(b: u64, s: u64, d: u64)
    by (bit_vector)
    requires
        0 < s < 64,
        d < 64,
    ensures
        ((b << s) | 1u64) & (1u64 << d) != 0 <==> (d == 0 || (d >= s && b & (1u64 << ((d
            - s) as u64)) != 0)),
{
}

proof fn one_bit(d: u64)
    by (bit_vector)
    requires
        d < 64,
    ensures
        1u64 & (1u64 << d) != 0 <==> d == 0,
{
}

proof fn set_bit(b: u64, e: u64, d: u64)
    by (bit_vector)
    requires
        e < 64,
        d < 64,
    ensures
        (b | (1u64 << e)) & (1u64 << d) != 0 <==> (d == e || b & (1u64 << d) != 0),
{
}

/// A window that has accepted nothing tracks the empty set.
pub proof fn new_window_tracks_nothing()
    ensures
        tracks(ReplayWindow { last_nonce: 0, bitmap: 0 }, Set::<u64>::empty()),
{
    assert(0u64 & (1u64 << 0u64) == 0) by (bit_vector);
}

/// No counter is accepted twice: what a window finds fresh was not accepted
/// before, every counter that it refuses was accepted or is sixty-four or more
/// behind the highest one, and accepting a fresh counter keeps the window
/// exact. By induction over the packets this is what replay protection means.
pub proof fn accepting_tracks(w: ReplayWindow, accepted: Set<u64>, nonce: u64)
    requires
        tracks(w, accepted),
    ensures
        is_fresh(w, nonce) ==> !accepted.contains(nonce),
        !is_fresh(w, nonce) ==> accepted.contains(nonce) || w.last_nonce - nonce >= 64,
        is_fresh(w, nonce) ==> tracks(advanced(w, nonce), accepted.insert(nonce)),
        is_fresh(w, nonce) ==> !is_fresh(advanced(w, nonce), nonce),
{
    if nonce <= w.last_nonce && w.last_nonce - nonce < 64 {
        assert(accepted.contains(nonce) <==> seen_back(w.bitmap, w.last_nonce - nonce));
    }
    if is_fresh(w, nonce) {
        let w2 = advanced(w, nonce);
        let all = accepted.insert(nonce);
        assert forall|n: u64| #[trigger] all.contains(n) implies n <= w2.last_nonce by {
            if n != nonce {
                assert(accepted.contains(n));
            }
        }
        assert forall|n: u64| n <= w2.last_nonce && w2.last_nonce - n < 64 implies (
        #[trigger] all.contains(n) <==> seen_back(w2.bitmap, w2.last_nonce - n)) by {
            let d = (w2.last_nonce - n) as u64;
            if nonce > w.last_nonce {
                if nonce - w.last_nonce >= 64 {
                    one_bit(d);
                    assert(!accepted.contains(n) || n <= w.last_nonce);
                } else {
                    let s = (nonce - w.last_nonce) as u64;
                    shifted_bits(w.bitmap, s, d);
                    if d >= s {
                        assert(w.last_nonce - n == d - s);
                        assert(accepted.contains(n) <==> seen_back(w.bitmap, w.last_nonce - n));
                    } else {
                        assert(n > w.last_nonce);
                    }
                }
            } else {
                let e = (w.last_nonce - nonce) as u64;
                set_bit(w.bitmap, e, d);
                assert(accepted.contains(n) <==> seen_back(w.bitmap, w.last_nonce - n));
            }
        }
        assert(all.contains(nonce));
        accepted_is_stale(w, nonce);
    }
}

/// A counter that was accepted is fresh no longer.
pub proof fn accepted_is_stale(w: ReplayWindow, nonce: u64)
    requires
        is_fresh(w, nonce),
    ensures
        !is_fresh(advanced(w, nonce), nonce),
{
    if nonce <= w.last_nonce {
        let e = (w.last_nonce - nonce) as u64;
        set_bit(w.bitmap, e, e);
    } else if nonce - w.last_nonce >= 64 {
        one_bit(0);
    } else {
        shifted_bits(w.bitmap, (nonce - w.last_nonce) as u64, 0);
    }
}

/// A counter that was refused once is refused for good, whatever is accepted in
/// between.
pub proof fn refusal_is_final(w: ReplayWindow, refused: u64, accepted: u64)
    requires
        !is_fresh(w, refused),
        is_fresh(w, accepted),
    ensures
        !is_fresh(advanced(w, accepted), refused),
{
    let back = (w.last_nonce - refused) as u64;
    if accepted > w.last_nonce {
        let s = (accepted - w.last_nonce) as u64;
        if s < 64 && back + s < 64 {
            shifted_bits(w.bitmap, s, (back + s) as u64);
        }
    } else if back < 64 {
        set_bit(w.bitmap, (w.last_nonce - accepted) as u64, back);
    }
}

impl ReplayWindow {
    pub fn check(&self, nonce: u64) -> (fresh: bool)
        ensures
            fresh == is_fresh(*self, nonce),
    {
        if nonce <= self.last_nonce {
            let diff: u64 = self.last_nonce - nonce;
            if diff >= 64 {
                return false;
            }
            if (self.bitmap & (1u64 << diff)) != 0 {
                return false;
            }
        }
        true
    }

    pub fn advance(&mut self, nonce: u64)
        requires
            is_fresh(*old(self), nonce),
        ensures
            *final(self) == advanced(*old(self), nonce),
    {
        if nonce > self.last_nonce {
            let shift: u64 = nonce - self.last_nonce;
            self.bitmap = if shift >= 64 {
                1
            } else {
                (self.bitmap << shift) | 1
            };
            self.last_nonce = nonce;
        } else {
            let diff: u64 = self.last_nonce - nonce;
            self.bitmap = self.bitmap | (1u64 << diff);
        }
    }
}

/// One direction key of a peer together with the counters it accepted.
pub struct Cipher {
    pub key: [u8; 32],
    pub window: ReplayWindow,
}

/// As many bytes as a sealed message may have.
pub open spec fn openable(len: nat) -> bool {
    len >= 16 && sealable((len - 16) as nat)
}

/// The bytes are what sealing some message gives.
pub open spec fn authentic(key: Seq<u8>, nonce: u64, aad: Seq<u8>, bytes: Seq<u8>) -> bool {
    exists|m: Seq<u8>|
        sealable(m.len()) && #[trigger] sealed(key, nonce_bytes(nonce), aad, m) == bytes
}

/// A message that, sealed, gives the bytes.
pub open spec fn message_in(
    m: Seq<u8>,
    key: Seq<u8>,
    nonce: u64,
    aad: Seq<u8>,
    bytes: Seq<u8>,
) -> bool {
    sealable(m.len()) && sealed(key, nonce_bytes(nonce), aad, m) == bytes
}

/// The one message that was sealed.
pub open spec fn opens_to(
    m: Seq<u8>,
    key: Seq<u8>,
    nonce: u64,
    aad: Seq<u8>,
    bytes: Seq<u8>,
) -> bool {
    &&& message_in(m, key, nonce, aad, bytes)
    &&& forall|other: Seq<u8>| #[trigger] message_in(other, key, nonce, aad, bytes) ==> other == m
}

/// A copy of a cipher, with its own copy of the window.
impl Clone for Cipher {
    fn clone(&self) -> (c: Cipher)
        ensures
            c == *self,
    {
        Cipher { key: self.key, window: self.window }
    }
}

impl Cipher {
    /// A cipher that has accepted nothing yet.
    pub fn new(key: &[u8]) -> (c: Cipher)
        requires
            key@.len() == 32,
        ensures
            c.key@ == key@,
            c.window == (ReplayWindow { last_nonce: 0, bitmap: 0 }),
    {
        let k: [u8; 32] = read_array(key, 0);
        assert(key@.subrange(0, 32) =~= key@);
        Cipher { key: k, window: ReplayWindow { last_nonce: 0, bitmap: 0 } }
    }

    /// Seals a payload without associated data.
    pub fn encrypt(&self, nonce: u64, payload: &[u8]) -> (r: Result<Vec<u8>, CryptoError>)
        ensures
            r is Ok <==> sealable(payload@.len()),
            r is Ok ==> r->Ok_0@.len() == payload@.len() + 16 && r->Ok_0@ == sealed(
                self.key@,
                nonce_bytes(nonce),
                Seq::<u8>::empty(),
                payload@,
            ),
            r is Err ==> r->Err_0 is Aead,
    {
        if !is_sealable(payload.len()) {
            return Err(CryptoError::Aead);
        }
        let n = make_nonce(nonce);
        let mut out: Vec<u8> = Vec::new();
        push_all(&mut out, payload);
        assert(out@ =~= payload@);
        let none: [u8; 0] = [];
        assert(none@ =~= Seq::<u8>::empty());
        match seal_detached(&self.key, &n, none.as_slice(), out.as_mut_slice()) {
            Some(tag) => {
                push_all(&mut out, tag.as_slice());
                Ok(out)
            },
            None => Err(CryptoError::Aead),
        }
    }

    /// Seals the first `payload_len` bytes of the buffer where they stand; the
    /// tag follows them.
    pub fn encrypt_in_place(
        &self,
        nonce: u64,
        aad: &[u8],
        buffer: &mut [u8],
        payload_len: usize,
    ) -> (r: Result<usize, CryptoError>)
        requires
            payload_len + 16 <= old(buffer)@.len(),
        ensures
            r is Ok <==> sealable(payload_len as nat),
            final(buffer)@.len() == old(buffer)@.len(),
            r is Ok ==> r->Ok_0 == payload_len + 16 && final(buffer)@ == sealed(
                self.key@,
                nonce_bytes(nonce),
                aad@,
                old(buffer)@.subrange(0, payload_len as int),
            ) + old(buffer)@.subrange(payload_len + 16, old(buffer)@.len() as int),
            r is Err ==> r->Err_0 is Aead && final(buffer)@ == old(buffer)@,
    {
        let ghost start = buffer@;
        if !is_sealable(payload_len) {
            return Err(CryptoError::Aead);
        }
        let n = make_nonce(nonce);
        let mut body: Vec<u8> = Vec::new();
        push_all(&mut body, slice_subrange(&*buffer, 0, payload_len));
        assert(body@ =~= start.subrange(0, payload_len as int));
        match seal_detached(&self.key, &n, aad, body.as_mut_slice()) {
            Some(tag) => {
                push_all(&mut body, tag.as_slice());
                put_bytes(buffer, 0, body.as_slice());
                assert(buffer@ =~= body@ + start.subrange(payload_len + 16, start.len() as int));
                assert(buffer.len() == buffer@.len());
                Ok(payload_len + 16)
            },
            None => Err(CryptoError::Aead),
        }
    }

    /// Opens what `encrypt` sealed. A counter that is not fresh and bytes that
    /// were not sealed under this key and counter are refused and leave the
    /// window alone; otherwise the counter counts as used from now on.
    pub fn decrypt(&mut self, nonce: u64, ciphertext: &[u8]) -> (r: Result<Vec<u8>, CryptoError>)
        ensures
            r is Ok <==> is_fresh(old(self).window, nonce) && openable(ciphertext@.len())
                && authentic(old(self).key@, nonce, Seq::<u8>::empty(), ciphertext@),
            r is Ok ==> r->Ok_0@.len() == ciphertext@.len() - 16 && opens_to(
                r->Ok_0@,
                old(self).key@,
                nonce,
                Seq::<u8>::empty(),
                ciphertext@,
            ),
            r is Ok ==> final(self).window == advanced(old(self).window, nonce),
            r is Err ==> r->Err_0 is Aead && final(self).window == old(self).window,
            final(self).key == old(self).key,
    {
        let none: [u8; 0] = [];
        assert(none@ =~= Seq::<u8>::empty());
        let mut out: Vec<u8> = Vec::new();
        push_all(&mut out, ciphertext);
        assert(out@ =~= ciphertext@);
        match self.decrypt_in_place(nonce, none.as_slice(), out.as_mut_slice()) {
            Ok(len) => {
                out.truncate(len);
                Ok(out)
            },
            Err(e) => Err(e),
        }
    }

    /// Opens the buffer where it stands: the message replaces the encrypted
    /// bytes in front of the tag, and its length is returned. Refusals are those
    /// of `decrypt` and leave the buffer alone.
    pub fn decrypt_in_place(&mut self, nonce: u64, aad: &[u8], buffer: &mut [u8]) -> (r: Result<
        usize,
        CryptoError,
    >)
        ensures
            r is Ok <==> is_fresh(old(self).window, nonce) && openable(old(buffer)@.len())
                && authentic(old(self).key@, nonce, aad@, old(buffer)@),
            r is Ok ==> {
                let len = old(buffer)@.len() - 16;
                &&& r->Ok_0 == len
                &&& final(buffer)@.len() == old(buffer)@.len()
                &&& opens_to(
                    final(buffer)@.subrange(0, len),
                    old(self).key@,
                    nonce,
                    aad@,
                    old(buffer)@,
                )
                &&& final(buffer)@.subrange(len, len + 16) == old(buffer)@.subrange(len, len + 16)
            },
            r is Ok ==> final(self).window == advanced(old(self).window, nonce),
            r is Err ==> r->Err_0 is Aead && final(self).window == old(self).window
                && final(buffer)@ == old(buffer)@,
            final(self).key == old(self).key,
    {
        let ghost start = buffer@;
        if !self.window.check(nonce) {
            return Err(CryptoError::Aead);
        }
        if buffer.len() < 16 {
            return Err(CryptoError::Aead);
        }
        let n = make_nonce(nonce);
        let payload_len: usize = buffer.len() - 16;
        if !is_sealable(payload_len) {
            return Err(CryptoError::Aead);
        }
        let tag: [u8; 16] = read_array(&*buffer, payload_len);
        let mut body: Vec<u8> = Vec::new();
        push_all(&mut body, slice_subrange(&*buffer, 0, payload_len));
        assert(body@ =~= start.subrange(0, payload_len as int));
        assert(body@ + tag@ =~= start);
        if !open_detached(&self.key, &n, aad, body.as_mut_slice(), &tag) {
            assert(!authentic(self.key@, nonce, aad@, start)) by {
                if authentic(self.key@, nonce, aad@, start) {
                    let m = choose|m: Seq<u8>|
                        sealable(m.len()) && #[trigger] sealed(
                            self.key@,
                            nonce_bytes(nonce),
                            aad@,
                            m,
                        ) == start;
                    assert(sealed(self.key@, n@, aad@, m) == start);
                }
            }
            return Err(CryptoError::Aead);
        }
        put_bytes(buffer, 0, body.as_slice());
        assert(buffer@.subrange(0, payload_len as int) =~= body@);
        assert(buffer@.subrange(payload_len as int, payload_len + 16) =~= start.subrange(
            payload_len as int,
            payload_len + 16,
        ));
        assert(message_in(body@, self.key@, nonce, aad@, start));
        assert forall|m: Seq<u8>| #[trigger]
            message_in(m, self.key@, nonce, aad@, start) implies m == body@ by {
            assert(sealed(self.key@, n@, aad@, m) == start);
        }
        self.window.advance(nonce);
        Ok(payload_len)
    }
}

/// The X25519 public key of a private key.
pub uninterp spec fn x25519_public(private_key: Seq<u8>) -> Seq<u8>;

/// `x25519_dalek::PublicKey::from` of the `StaticSecret` that a private key
/// makes: thirty-two bytes that depend on the private key alone.
#[verifier::external_body]
pub fn derive_public_key(private_key: &[u8; 32]) -> (public_key: [u8; 32])
    ensures
        public_key@ == x25519_public(private_key@),
{
    let secret = x25519_dalek::StaticSecret::from(*private_key);
    x25519_dalek::PublicKey::from(&secret).to_bytes()
}

/// Where a handshake stands: the side that it is, the private key that it was
/// made with, the public key of the other side as far as it is known, and how
/// many messages were written and read.
#[verifier::ext_equal]
pub struct SessionView {
    pub initiator: bool,
    pub local_key: Seq<u8>,
    pub remote_key: Option<Seq<u8>>,
    pub messages: nat,
}

/// The thirty-two bytes of a key, filled up with zeros where it is shorter.
pub open spec fn key_bytes(key: Seq<u8>) -> Seq<u8> {
    Seq::new(
        32,
        |i: int|
            if i < key.len() {
                key[i]
            } else {
                0u8
            },
    )
}

impl SessionView {
    /// The handshake is over: both messages went through.
    pub open spec fn finished(self) -> bool {
        self.messages == 2
    }

    /// This side has a message to write. The initiator begins.
    pub open spec fn may_write(self) -> bool {
        self.messages < 2 && self.initiator == (self.messages == 0)
    }

    /// This side waits for a message.
    pub open spec fn may_read(self) -> bool {
        self.messages < 2 && self.initiator == (self.messages == 1)
    }

    /// Bytes of the next message beside its payload. The first one holds a key,
    /// a key with its tag and a tag, the second one a key and a tag.
    pub open spec fn overhead(self) -> nat {
        if self.messages == 0 {
            96
        } else {
            48
        }
    }

    /// One message further.
    pub open spec fn moved_on(self) -> SessionView {
        SessionView { messages: self.messages + 1, ..self }
    }

    /// How a message turns out that was to carry a payload and to go into a
    /// buffer: where it can be written, it takes as many bytes as it holds.
    pub open spec fn writes(self, payload: nat, buffer: nat) -> Option<nat> {
        let size = self.overhead() + payload;
        if self.may_write() && size <= buffer && size <= 65535 {
            Some(size)
        } else {
            None
        }
    }
}

/// Where a handshake stands.
pub uninterp spec fn session_state(s: snow::HandshakeState) -> SessionView;

/// What the side with a private key finds in the message that opens a
/// handshake, if it can be read.
pub uninterp spec fn opening_payload(local_key: Seq<u8>, message: Seq<u8>) -> Option<Seq<u8>>;

/// What a handshake that waits for the second message finds in it, if it can be
/// read.
pub uninterp spec fn answer_payload(s: snow::HandshakeState, message: Seq<u8>) -> Option<Seq<u8>>;

/// A handshake once it has read a message.
pub uninterp spec fn after_reading(s: snow::HandshakeState, message: Seq<u8>) -> snow::HandshakeState;

/// The message by which a handshake went from one state to the next, with the
/// payload that it carries. The later state holds the random key of the message.
pub uninterp spec fn message_between(
    before: snow::HandshakeState,
    after: snow::HandshakeState,
    payload: Seq<u8>,
) -> Seq<u8>;

/// A state is one that a handshake may go on to when it writes a message with a
/// payload. Which of them it is rests on chance.
pub uninterp spec fn may_follow(
    before: snow::HandshakeState,
    after: snow::HandshakeState,
    payload: Seq<u8>,
) -> bool;

/// The handshake of a side that begins one, before its first message.
pub uninterp spec fn initiator_session(
    local_key: Seq<u8>,
    remote_key: Seq<u8>,
) -> snow::HandshakeState;

/// The handshake of a side that waits for one.
pub uninterp spec fn responder_session(local_key: Seq<u8>) -> snow::HandshakeState;

/// What a handshake that is over goes on as.
pub uninterp spec fn transport_of(s: snow::HandshakeState) -> snow::TransportState;

/// A message opens a handshake with whoever has a public key: it carries a payload
/// to them, and tells them the public key of the sender.
pub open spec fn opens_with(
    message: Seq<u8>,
    public_key: Seq<u8>,
    sender: Seq<u8>,
    payload: Seq<u8>,
) -> bool {
    forall|k: Seq<u8>|
        k.len() == 32 && #[trigger] x25519_public(k) == public_key ==> opening_payload(k, message)
            == Some(payload) && NoiseSession::waiting(k).having_read(message)@.remote_key == Some(
            sender,
        )
}

/// `snow::Builder::build_initiator` for the pattern
/// `Noise_IK_25519_ChaChaPoly_BLAKE2b`. It copies the private key into
/// thirty-two bytes and the public key into fifty-six and panics on longer ones;
/// of the public key the first thirty-two count. It succeeds, since both keys are
/// given and the crate implements the pattern, and no message has gone through.
/// The handshake depends on the keys alone: chance comes in when it writes.
#[verifier::external_body]
fn noise_initiator(local_priv: &[u8], remote_pub: &[u8]) -> (r: Result<
    snow::HandshakeState,
    snow::Error,
>)
    requires
        local_priv@.len() <= 32,
        remote_pub@.len() <= 56,
    ensures
        r is Ok,
        r->Ok_0 == initiator_session(key_bytes(local_priv@), key_bytes(remote_pub@)),
        session_state(r->Ok_0) == (SessionView {
            initiator: true,
            local_key: key_bytes(local_priv@),
            remote_key: Some(key_bytes(remote_pub@)),
            messages: 0,
        }),
{
    let builder = snow::Builder::new("Noise_IK_25519_ChaChaPoly_BLAKE2b".parse()?);
    builder.local_private_key(local_priv).remote_public_key(remote_pub).build_initiator()
}

/// `snow::Builder::build_responder` for the same pattern, with the same limit
/// on the private key. It succeeds, since the key that the side needs is given.
/// The other side is not known yet. The handshake depends on the key alone.
#[verifier::external_body]
fn noise_responder(local_priv: &[u8]) -> (r: Result<snow::HandshakeState, snow::Error>)
    requires
        local_priv@.len() <= 32,
    ensures
        r is Ok,
        r->Ok_0 == responder_session(key_bytes(local_priv@)),
        session_state(r->Ok_0) == (SessionView {
            initiator: false,
            local_key: key_bytes(local_priv@),
            remote_key: None,
            messages: 0,
        }),
{
    let builder = snow::Builder::new("Noise_IK_25519_ChaChaPoly_BLAKE2b".parse()?);
    builder.local_private_key(local_priv).build_responder()
}

/// `snow::HandshakeState::write_message`: it succeeds where it is the turn of
/// this side and the message fits the buffer and 65535 bytes, says how many bytes
/// it wrote, and moves the handshake on; otherwise the handshake stays where it
/// is. With the first message it panics on a buffer that holds two keys but not
/// the tag between them, and with either on a payload that fits the buffer but not
/// the cipher. The bytes depend on the payload and on the states before
/// and after, of which the latter holds a random key. The side with the matching
/// private key reads the payload of the first message and learns who sent it, and
/// the side that sent the first message reads the payload of the second one, which
/// answers it.
#[verifier::external_body]
fn noise_write(session: &mut HandshakeState, payload: &[u8], message: &mut [u8]) -> (r: Result<
    usize,
    snow::Error,
>)
    requires
        session_state(*old(session)).may_write() && session_state(*old(session)).messages == 0
            ==> old(message)@.len() < 64 || old(message)@.len() >= 80,
        session_state(*old(session)).may_write() && session_state(*old(session)).overhead()
            + payload@.len() <= old(message)@.len() ==> sealable(payload@.len()),
    ensures
        final(message)@.len() == old(message)@.len(),
        r is Ok ==> final(message)@.subrange(0, r->Ok_0 as int) == message_between(
            *old(session),
            *final(session),
            payload@,
        ),
        r is Ok ==> may_follow(*old(session), *final(session), payload@),
        r is Ok && session_state(*old(session)).messages == 1 ==> forall|
            l: Seq<u8>,
            k: Seq<u8>,
            i: HandshakeState,
            p: Seq<u8>,
        | #[trigger]
            may_follow(initiator_session(l, x25519_public(k)), i, p) && l.len() == 32 && k.len()
                == 32 && *old(session) == after_reading(
                responder_session(k),
                message_between(initiator_session(l, x25519_public(k)), i, p),
            ) ==> answer_payload(i, final(message)@.subrange(0, r->Ok_0 as int)) == Some(payload@),
        match session_state(*old(session)).writes(payload@.len(), old(message)@.len()) {
            Some(size) => r is Ok && r->Ok_0 == size && session_state(*final(session))
                == session_state(*old(session)).moved_on(),
            None => r is Err && session_state(*final(session)) == session_state(*old(session)),
        },
        r is Ok && session_state(*old(session)).messages == 0 && session_state(
            *old(session),
        ).remote_key is Some ==> opens_with(
            final(message)@.subrange(0, r->Ok_0 as int),
            session_state(*old(session)).remote_key->0,
            x25519_public(session_state(*old(session)).local_key),
            payload@,
        ),
{
    session.write_message(payload, message)
}

/// `snow::HandshakeState::read_message`: it fails where it is not the turn of
/// this side, where the message is too short or longer than 65535 bytes, and
/// where its payload does not fit the buffer; otherwise the keys inside the
/// session decide. Success moves the handshake on, and the payload is what is
/// left of the message; the state that it moves on to depends on the state before
/// and on the message. The first message is read with the private key alone, and
/// tells who sent it; what the second one carries, if it can be read, depends on
/// the state that waits for it.
#[verifier::external_body]
fn noise_read(session: &mut HandshakeState, message: &[u8], payload: &mut [u8]) -> (r: Result<
    usize,
    snow::Error,
>)
    ensures
        final(payload)@.len() == old(payload)@.len(),
        r is Ok ==> session_state(*old(session)).may_read() && message@.len() <= 65535
            && r->Ok_0 + session_state(*old(session)).overhead() == message@.len() && r->Ok_0
            <= final(payload)@.len(),
        session_state(*final(session)) == (SessionView {
            remote_key: session_state(*final(session)).remote_key,
            ..if r is Ok {
                session_state(*old(session)).moved_on()
            } else {
                session_state(*old(session))
            }
        }),
        session_state(*old(session)).initiator ==> session_state(*final(session)).remote_key
            == session_state(*old(session)).remote_key,
        session_state(*old(session)).may_read() && session_state(*old(session)).messages == 0 ==> {
            let found = opening_payload(session_state(*old(session)).local_key, message@);
            &&& r is Ok <==> found is Some && found->0.len() <= old(payload)@.len()
            &&& r is Ok ==> final(payload)@.subrange(0, r->Ok_0 as int) == found->0
        },
        session_state(*old(session)).may_read() && session_state(*old(session)).messages == 1 ==> {
            let found = answer_payload(*old(session), message@);
            &&& r is Ok <==> found is Some && found->0.len() <= old(payload)@.len()
            &&& r is Ok ==> final(payload)@.subrange(0, r->Ok_0 as int) == found->0
        },
        r is Ok ==> *final(session) == after_reading(*old(session), message@),
{
    session.read_message(message, payload)
}

/// `snow::HandshakeState::get_remote_static`: the public key of the other side, as
/// far as it is known.
#[verifier::external_body]
fn noise_remote(session: &HandshakeState) -> (r: Option<Vec<u8>>)
    ensures
        r is Some <==> session_state(*session).remote_key is Some,
        r is Some ==> r->0@ == session_state(*session).remote_key->0,
{
    session.get_remote_static().map(|key| key.to_vec())
}

/// `snow::HandshakeState::is_handshake_finished`: whether all messages of the
/// pattern went through, of which there are two.
#[verifier::external_body]
fn noise_finished(session: &HandshakeState) -> (r: bool)
    ensures
        r == session_state(*session).finished(),
{
    session.is_handshake_finished()
}

/// `snow::HandshakeState::into_transport_mode`: succeeds once all messages went
/// through. What the handshake goes on as depends on the handshake alone.
#[verifier::external_body]
fn noise_into_transport(session: HandshakeState) -> (r: Result<snow::TransportState, snow::Error>)
    ensures
        r is Ok <==> session_state(session).finished(),
        r is Ok ==> r->Ok_0 == transport_of(session),
{
    session.into_transport_mode()
}

/// A handshake of the pattern `Noise_IK_25519_ChaChaPoly_BLAKE2b`.
pub struct NoiseSession {
    inner: snow::HandshakeState,
}

impl View for NoiseSession {
    type V = SessionView;

    closed spec fn view(&self) -> SessionView {
        session_state(self.inner)
    }
}

/// A second message is read by whoever sent the first one: a handshake that has
/// read a first message answers it with a payload.
pub open spec fn read_by_sender(session: NoiseSession, message: Seq<u8>, payload: Seq<u8>) -> bool {
    forall|l: Seq<u8>, k: Seq<u8>, i: NoiseSession, p: Seq<u8>| #[trigger]
        i.follows(NoiseSession::begun(l, x25519_public(k)), p) && l.len() == 32 && k.len() == 32
            && session == NoiseSession::waiting(k).having_read(
            NoiseSession::begun(l, x25519_public(k)).message_to(i, p),
        ) ==> i.answer(message) == Some(payload)
}

impl NoiseSession {
    /// The handshake of a side that begins one.
    pub closed spec fn begun(local_key: Seq<u8>, remote_key: Seq<u8>) -> NoiseSession {
        NoiseSession { inner: initiator_session(local_key, remote_key) }
    }

    /// The handshake of a side that waits for one.
    pub closed spec fn waiting(local_key: Seq<u8>) -> NoiseSession {
        NoiseSession { inner: responder_session(local_key) }
    }

    /// What the handshake finds in the second message, if it can be read.
    pub closed spec fn answer(self, message: Seq<u8>) -> Option<Seq<u8>> {
        answer_payload(self.inner, message)
    }

    /// The handshake once it has read a message.
    pub closed spec fn having_read(self, message: Seq<u8>) -> NoiseSession {
        NoiseSession { inner: after_reading(self.inner, message) }
    }

    /// The message by which the handshake goes on to a state.
    pub closed spec fn message_to(self, after: NoiseSession, payload: Seq<u8>) -> Seq<u8> {
        message_between(self.inner, after.inner, payload)
    }

    /// The handshake is one that another may go on to with a message.
    pub closed spec fn follows(self, before: NoiseSession, payload: Seq<u8>) -> bool {
        may_follow(before.inner, self.inner, payload)
    }

    /// What the handshake goes on as once it is over.
    pub closed spec fn transport(self) -> snow::TransportState {
        transport_of(self.inner)
    }

    /// The side that knows the other's key and writes first.
    pub fn initiator(local_priv: &[u8], remote_pub: &[u8]) -> (r: Result<NoiseSession, CryptoError>)
        requires
            local_priv@.len() <= 32,
            remote_pub@.len() <= 56,
        ensures
            r is Ok,
            r->Ok_0 == NoiseSession::begun(key_bytes(local_priv@), key_bytes(remote_pub@)),
            r->Ok_0@ == (SessionView {
                initiator: true,
                local_key: key_bytes(local_priv@),
                remote_key: Some(key_bytes(remote_pub@)),
                messages: 0,
            }),
    {
        match noise_initiator(local_priv, remote_pub) {
            Ok(inner) => Ok(NoiseSession { inner }),
            Err(e) => Err(CryptoError::Snow(e)),
        }
    }

    /// The side that answers.
    pub fn responder(local_priv: &[u8]) -> (r: Result<NoiseSession, CryptoError>)
        requires
            local_priv@.len() <= 32,
        ensures
            r is Ok,
            r->Ok_0 == NoiseSession::waiting(key_bytes(local_priv@)),
            r->Ok_0@ == (SessionView {
                initiator: false,
                local_key: key_bytes(local_priv@),
                remote_key: None,
                messages: 0,
            }),
    {
        match noise_responder(local_priv) {
            Ok(inner) => Ok(NoiseSession { inner }),
            Err(e) => Err(CryptoError::Snow(e)),
        }
    }

    /// Writes the next message of the handshake to the front of the buffer. The
    /// first message is read by the side that it is meant for.
    pub fn write_message(&mut self, payload: &[u8], message: &mut [u8]) -> (r: Result<
        usize,
        CryptoError,
    >)
        requires
            old(self)@.may_write() && old(self)@.messages == 0 ==> old(message)@.len() < 64 || old(
                message,
            )@.len() >= 80,
            old(self)@.may_write() && old(self)@.overhead() + payload@.len() <= old(message)@.len()
                ==> sealable(payload@.len()),
        ensures
            final(message)@.len() == old(message)@.len(),
            r is Ok ==> final(message)@.subrange(0, r->Ok_0 as int) == old(self).message_to(
                *final(self),
                payload@,
            ),
            r is Ok ==> final(self).follows(*old(self), payload@),
            r is Ok && old(self)@.messages == 1 ==> read_by_sender(
                *old(self),
                final(message)@.subrange(0, r->Ok_0 as int),
                payload@,
            ),
            match old(self)@.writes(payload@.len(), old(message)@.len()) {
                Some(size) => r is Ok && r->Ok_0 == size && final(self)@ == old(self)@.moved_on(),
                None => r is Err && r->Err_0 is Snow && final(self)@ == old(self)@,
            },
            r is Ok && old(self)@.messages == 0 && old(self)@.remote_key is Some ==> opens_with(
                final(message)@.subrange(0, r->Ok_0 as int),
                old(self)@.remote_key->0,
                x25519_public(old(self)@.local_key),
                payload@,
            ),
    {
        match noise_write(&mut self.inner, payload, message) {
            Ok(n) => Ok(n),
            Err(e) => Err(CryptoError::Snow(e)),
        }
    }

    /// Reads the next message of the handshake; its payload goes to the front
    /// of the buffer. The first message is read with the private key alone, the
    /// second one by the state that waits for it.
    pub fn read_message(&mut self, message: &[u8], payload: &mut [u8]) -> (r: Result<
        usize,
        CryptoError,
    >)
        ensures
            final(payload)@.len() == old(payload)@.len(),
            r is Ok ==> old(self)@.may_read() && message@.len() <= 65535 && r->Ok_0 + old(
                self,
            )@.overhead() == message@.len() && r->Ok_0 <= final(payload)@.len(),
            r is Err ==> r->Err_0 is Snow,
            final(self)@ == (SessionView {
                remote_key: final(self)@.remote_key,
                ..if r is Ok {
                    old(self)@.moved_on()
                } else {
                    old(self)@
                }
            }),
            old(self)@.initiator ==> final(self)@.remote_key == old(self)@.remote_key,
            old(self)@.may_read() && old(self)@.messages == 0 ==> {
                let found = opening_payload(old(self)@.local_key, message@);
                &&& r is Ok <==> found is Some && found->0.len() <= old(payload)@.len()
                &&& r is Ok ==> final(payload)@.subrange(0, r->Ok_0 as int) == found->0
            },
            old(self)@.may_read() && old(self)@.messages == 1 ==> {
                let found = old(self).answer(message@);
                &&& r is Ok <==> found is Some && found->0.len() <= old(payload)@.len()
                &&& r is Ok ==> final(payload)@.subrange(0, r->Ok_0 as int) == found->0
            },
            r is Ok ==> *final(self) == old(self).having_read(message@),
    {
        match noise_read(&mut self.inner, message, payload) {
            Ok(n) => Ok(n),
            Err(e) => Err(CryptoError::Snow(e)),
        }
    }

    /// Whether the other side is known to be the one with a public key.
    pub fn is_with(&self, public_key: &[u8; 32]) -> (r: bool)
        ensures
            r == (self@.remote_key == Some(public_key@)),
    {
        match noise_remote(&self.inner) {
            Some(key) => same_bytes(key.as_slice(), public_key.as_slice()),
            None => false,
        }
    }

    pub fn is_handshake_finished(&self) -> (r: bool)
        ensures
            r == self@.finished(),
    {
        noise_finished(&self.inner)
    }

    /// What the handshake goes on as. It has to be over.
    pub fn into_transport_mode(self) -> (r: Result<snow::TransportState, CryptoError>)
        ensures
            r is Ok <==> self@.finished(),
            r is Ok ==> r->Ok_0 == self.transport(),
            r is Err ==> r->Err_0 is Snow,
    {
        match noise_into_transport(self.inner) {
            Ok(t) => Ok(t),
            Err(e) => Err(CryptoError::Snow(e)),
        }
    }
}

/// What was sealed is opened: the bytes are authentic, so that opening succeeds,
/// and what opening finds in them is what was sealed.
pub proof fn sealing_round_trip(
    key: Seq<u8>,
    nonce: u64,
    aad: Seq<u8>,
    msg: Seq<u8>,
    found: Seq<u8>,
)
    requires
        sealable(msg.len()),
    ensures
        authentic(key, nonce, aad, sealed(key, nonce_bytes(nonce), aad, msg)),
        opens_to(found, key, nonce, aad, sealed(key, nonce_bytes(nonce), aad, msg)) ==> found
            == msg,
{
    let bytes = sealed(key, nonce_bytes(nonce), aad, msg);
    assert(message_in(msg, key, nonce, aad, bytes));
}

/// The nonce of a frame is its number, high byte first, behind four zeros; no two numbers
/// have one nonce.
pub proof fn numbers_make_their_nonce(a: u64, b: u64)
    ensures
        nonce_bytes(a).len() == 12,
        nonce_bytes(a)[0] == 0 && nonce_bytes(a)[1] == 0 && nonce_bytes(a)[2] == 0 && nonce_bytes(
            a,
        )[3] == 0,
        nonce_bytes(a)[11] == a % 256,
        nonce_bytes(a)[4] == a / 0x100_0000_0000_0000,
        nonce_bytes(a) == nonce_bytes(b) ==> a == b,
{
    crate::bytes::be64_round_trip(a);
    crate::bytes::be64_round_trip(b);
    assert(nonce_bytes(a).subrange(4, 12) =~= be64_bytes(a));
    assert(nonce_bytes(b).subrange(4, 12) =~= be64_bytes(b));
}

/// A number that is higher than all before is new; one that lies 64 or more behind the
/// highest is not.
pub proof fn numbers_far_behind_are_not_new(w: ReplayWindow, nonce: u64)
    ensures
        nonce > w.last_nonce ==> is_fresh(w, nonce),
        nonce + 64 <= w.last_nonce ==> !is_fresh(w, nonce),
        nonce > w.last_nonce ==> advanced(w, nonce).last_nonce == nonce,
        nonce <= w.last_nonce ==> advanced(w, nonce).last_nonce == w.last_nonce,
{
}

/// The two sides of a handshake take turns: who began writes first, and where the one may
/// write, the other may read. After two messages neither writes or reads.
pub proof fn sides_take_turns(a: SessionView, b: SessionView)
    requires
        a.initiator != b.initiator,
        a.messages == b.messages,
    ensures
        a.may_write() <==> b.may_read(),
        !(a.may_write() && a.may_read()),
        a.messages == 0 && a.initiator ==> a.may_write() && a.moved_on().may_read(),
        a.messages == 0 && !a.initiator ==> a.may_read() && a.moved_on().may_write(),
        a.messages >= 2 ==> !a.may_write() && !a.may_read(),
        a.moved_on().messages == a.messages + 1 && a.moved_on().initiator == a.initiator
            && a.moved_on().local_key == a.local_key && a.moved_on().remote_key == a.remote_key,
{
}

/// A message is the longer the more it carries, and is written where there is space for it,
/// by whose turn it is.
pub proof fn messages_take_their_space(s: SessionView, payload: nat, buffer: nat)
    ensures
        s.messages == 0 && s.initiator && payload + 96 <= buffer && payload + 96 <= 65535
            ==> s.writes(payload, buffer) == Some((payload + 96) as nat),
        s.messages == 1 && !s.initiator && payload + 48 <= buffer && payload + 48 <= 65535
            ==> s.writes(payload, buffer) == Some((payload + 48) as nat),
        s.writes(payload, buffer) is Some ==> payload < s.writes(payload, buffer)->0 <= buffer
            && s.writes(payload, buffer)->0 <= 65535 && s.messages < 2,
{
}

} // verus!
