//! Invitations: what it takes to join a room, signed by the supernode and
//! shared as one line of text.

use crate::bytes::{push_all, read_array};
use crate::common::RoomId;
use crate::text::{list_has, opt_text, texts};
use base64::Engine;
use ed25519_dalek::{Signer, Verifier};
use vstd::prelude::*;

verus! {

/// Everything needed to join a room.
#[derive(Debug)]
pub struct InviteData {
    pub version: u8,
    pub primary_supernode: String,
    pub fallback_supernodes: Vec<String>,
    pub supernode_addr: String,
    pub room_id: RoomId,
    pub room_pub_key: [u8; 32],
    pub virtual_cidr: Option<String>,
    pub token: Option<String>,
    pub expires_at: Option<u64>,
    pub signature: Option<Vec<u8>>,
}

/// What an invitation says.
#[verifier::ext_equal]
pub struct InviteView {
    pub version: u8,
    pub primary_supernode: Seq<char>,
    pub fallback_supernodes: Seq<Seq<char>>,
    pub supernode_addr: Seq<char>,
    pub room_id: Seq<u8>,
    pub room_pub_key: Seq<u8>,
    pub virtual_cidr: Option<Seq<char>>,
    pub token: Option<Seq<char>>,
    pub expires_at: Option<u64>,
    pub signature: Option<Seq<u8>>,
}

impl View for InviteData {
    type V = InviteView;

    open spec fn view(&self) -> InviteView {
        InviteView {
            version: self.version,
            primary_supernode: self.primary_supernode@,
            fallback_supernodes: texts(self.fallback_supernodes@),
            supernode_addr: self.supernode_addr@,
            room_id: self.room_id.0@,
            room_pub_key: self.room_pub_key@,
            virtual_cidr: opt_text(self.virtual_cidr),
            token: opt_text(self.token),
            expires_at: self.expires_at,
            signature: match self.signature {
                Some(s) => Some(s@),
                None => None,
            },
        }
    }
}

/// The same invitation with another signature, or none.
pub open spec fn with_signature(v: InviteView, signature: Option<Seq<u8>>) -> InviteView {
    InviteView { signature, ..v }
}

/// The serialised form of an invitation.
pub uninterp spec fn invite_wire(v: InviteView) -> Seq<u8>;

/// What serialised bytes read as.
pub uninterp spec fn parsed_invite(bytes: Seq<u8>) -> Option<InviteView>;

/// `postcard::to_stdvec` of the fields in their order: bytes that depend on what
/// the invitation says and on nothing else.
#[verifier::external_body]
fn postcard_encode(d: &InviteData) -> (bytes: Vec<u8>)
    ensures
        bytes@ == invite_wire(d@),
{
    let addrs = (&d.primary_supernode, &d.fallback_supernodes, &d.supernode_addr);
    let rest = (&d.virtual_cidr, &d.token, d.expires_at, &d.signature);
    postcard::to_stdvec(&(d.version, addrs, d.room_id.0, d.room_pub_key, rest)).unwrap_or_default()
}

/// `postcard::from_bytes` of the fields in their order: what it reads depends on
/// the bytes alone, and it reads back what `postcard::to_stdvec` wrote.
#[verifier::external_body]
fn postcard_decode(bytes: &[u8]) -> (r: Option<InviteData>)
    ensures
        r is Some <==> parsed_invite(bytes@) is Some,
        r is Some ==> r->0@ == parsed_invite(bytes@)->0,
        forall|v: InviteView|
            bytes@ == #[trigger] invite_wire(v) ==> r is Some && r->0@ == v,
{
    let (version, addrs, room, room_pub_key, rest) = postcard::from_bytes(bytes).ok()?;
    let (primary_supernode, fallback_supernodes, supernode_addr) = addrs;
    let (virtual_cidr, token, expires_at, signature) = rest;
    Some(InviteData {
        version, primary_supernode, fallback_supernodes, supernode_addr, room_id: RoomId(room),
        room_pub_key, virtual_cidr, token, expires_at, signature,
    })
}

/// A character of the base64 alphabet.
pub open spec fn b64_char(v: int) -> char {
    if v < 26 {
        (65 + v) as char
    } else if v < 52 {
        (71 + v) as char
    } else if v < 62 {
        (v - 4) as char
    } else if v == 62 {
        '+'
    } else {
        '/'
    }
}

/// A byte, or zero behind the end.
pub open spec fn byte_or_zero(b: Seq<u8>, i: int) -> int {
    if i < b.len() {
        b[i] as int
    } else {
        0
    }
}

/// The six bits at a place.
pub open spec fn sextet(b: Seq<u8>, i: int) -> int {
    let g = 3 * (i / 4);
    if i % 4 == 0 {
        byte_or_zero(b, g) / 4
    } else if i % 4 == 1 {
        (byte_or_zero(b, g) % 4) * 16 + byte_or_zero(b, g + 1) / 16
    } else if i % 4 == 2 {
        (byte_or_zero(b, g + 1) % 16) * 4 + byte_or_zero(b, g + 2) / 64
    } else {
        byte_or_zero(b, g + 2) % 64
    }
}

/// Bytes in base64, without padding.
pub open spec fn b64_text(b: Seq<u8>) -> Seq<char> {
    Seq::new(((b.len() * 4 + 2) / 3) as nat, |i: int| b64_char(sextet(b, i)))
}

/// `base64::Engine::encode` of the engine `STANDARD_NO_PAD`: the standard
/// alphabet, six bits a character, no padding.
#[verifier::external_body]
fn b64_encode(bytes: &[u8]) -> (s: String)
    ensures
        s@ == b64_text(bytes@),
{
    base64::engine::general_purpose::STANDARD_NO_PAD.encode(bytes)
}

/// `base64::Engine::decode` of the engine `STANDARD_NO_PAD`: it reads the texts
/// that the same engine writes, to the one byte sequence each was written from,
/// and refuses all others, among them those with padding or stray last bits.
#[verifier::external_body]
fn b64_decode(s: &str) -> (r: Option<Vec<u8>>)
    ensures
        r is Some ==> b64_text(r->0@) == s@,
        r is Some ==> forall|b: Seq<u8>| #[trigger] b64_text(b) == s@ ==> b == r->0@,
        r is None ==> forall|b: Seq<u8>| #[trigger] b64_text(b) != s@,
{
    base64::engine::general_purpose::STANDARD_NO_PAD.decode(s).ok()
}

/// The Ed25519 verifying key of a signing key.
pub uninterp spec fn ed25519_public(signing_key: Seq<u8>) -> Seq<u8>;

/// The Ed25519 signature of a message under a signing key.
pub uninterp spec fn ed25519_signature(signing_key: Seq<u8>, msg: Seq<u8>) -> Seq<u8>;

/// Whether a signature of a message is valid under a verifying key.
pub uninterp spec fn ed25519_valid(verifying_key: Seq<u8>, msg: Seq<u8>, sig: Seq<u8>) -> bool;

/// `ed25519_dalek::SigningKey::verifying_key`: depends on the signing key alone.
#[verifier::external_body]
fn ed25519_verifying_key(signing_key: &[u8; 32]) -> (key: [u8; 32])
    ensures
        key@ == ed25519_public(signing_key@),
{
    ed25519_dalek::SigningKey::from_bytes(signing_key).verifying_key().to_bytes()
}

/// `ed25519_dalek::SigningKey::sign`: sixty-four bytes that depend on the key
/// and the message alone.
#[verifier::external_body]
fn ed25519_sign(signing_key: &[u8; 32], msg: &[u8]) -> (sig: Vec<u8>)
    ensures
        sig@ == ed25519_signature(signing_key@, msg@),
        sig@.len() == 64,
{
    ed25519_dalek::SigningKey::from_bytes(signing_key).sign(msg).to_vec()
}

/// `ed25519_dalek::VerifyingKey::verify` on a verifying key and a signature
/// that are read from bytes: the answer depends on the three arguments alone; it
/// is no for a signature that is not sixty-four bytes long, and yes for one that
/// the matching signing key made.
#[verifier::external_body]
fn ed25519_verify(verifying_key: &[u8; 32], msg: &[u8], sig: &[u8]) -> (r: bool)
    ensures
        r == ed25519_valid(verifying_key@, msg@, sig@),
        r ==> sig@.len() == 64,
        forall|k: Seq<u8>|
            verifying_key@ == ed25519_public(k) && sig@ == #[trigger] ed25519_signature(k, msg@)
                ==> r,
{
    let Ok(key) = ed25519_dalek::VerifyingKey::from_bytes(verifying_key) else { return false };
    let Ok(sig) = ed25519_dalek::Signature::from_slice(sig) else { return false };
    key.verify(msg, &sig).is_ok()
}

/// The verifying key of a signing key.
pub fn verifying_key(signing_key: &[u8; 32]) -> (key: [u8; 32])
    ensures
        key@ == ed25519_public(signing_key@),
{
    ed25519_verifying_key(signing_key)
}

/// The address of the supernode to turn to first.
pub open spec fn primary_of(v: InviteView) -> Seq<char> {
    if v.primary_supernode.len() == 0 {
        v.supernode_addr
    } else {
        v.primary_supernode
    }
}

/// The texts of a list that are not empty, each once and where it stands first,
/// behind those of another list.
pub open spec fn merged(front: Seq<Seq<char>>, list: Seq<Seq<char>>) -> Seq<Seq<char>>
    decreases list.len(),
{
    if list.len() == 0 {
        front
    } else {
        let before = merged(front, list.drop_last());
        if list.last().len() > 0 && !before.contains(list.last()) {
            before.push(list.last())
        } else {
            before
        }
    }
}

/// All supernodes of an invitation, the primary one first.
pub open spec fn supernodes_of(v: InviteView) -> Seq<Seq<char>> {
    merged(
        if primary_of(v).len() > 0 {
            seq![primary_of(v)]
        } else {
            Seq::empty()
        },
        v.fallback_supernodes,
    )
}

impl InviteData {
    /// The format of invitations in use.
    pub const VERSION: u8 = 2;

    /// The supernode to turn to first.
    pub fn primary_supernode_addr(&self) -> (s: &str)
        ensures
            s@ == primary_of(self@),
    {
        if self.primary_supernode.as_str().is_empty() {
            self.supernode_addr.as_str()
        } else {
            self.primary_supernode.as_str()
        }
    }

    /// All supernodes, each once, the primary one first.
    pub fn all_supernodes(&self) -> (r: Vec<String>)
        ensures
            texts(r@) == supernodes_of(self@),
    {
        let mut nodes: Vec<String> = Vec::new();
        let primary = self.primary_supernode_addr();
        let ghost front: Seq<Seq<char>> = if primary_of(self@).len() > 0 {
            seq![primary_of(self@)]
        } else {
            Seq::empty()
        };
        if !primary.is_empty() {
            nodes.push(primary.to_string());
        }
        assert(texts(nodes@) =~= front);
        let n: usize = self.fallback_supernodes.len();
        let ghost list = texts(self.fallback_supernodes@);
        assert(list.subrange(0, 0) =~= Seq::empty());
        for i in 0..n
            invariant
                n == self.fallback_supernodes@.len(),
                list == texts(self.fallback_supernodes@),
                texts(nodes@) == merged(front, list.subrange(0, i as int)),
        {
            let node = &self.fallback_supernodes[i];
            assert(list.subrange(0, i + 1).drop_last() =~= list.subrange(0, i as int));
            assert(list.subrange(0, i + 1).last() == node@);
            let ghost before = texts(nodes@);
            if !node.as_str().is_empty() && !list_has(&nodes, node.as_str()) {
                nodes.push(node.clone());
                assert(texts(nodes@) =~= before.push(node@));
            }
        }
        assert(list.subrange(0, n as int) =~= list);
        nodes
    }

    /// Signs what the invitation says; an older signature is replaced.
    pub fn sign(&mut self, key: &[u8; 32])
        ensures
            final(self)@ == with_signature(
                old(self)@,
                Some(ed25519_signature(key@, invite_wire(with_signature(old(self)@, None)))),
            ),
    {
        self.signature = None;
        assert(self@ =~= with_signature(old(self)@, None));
        let bytes = postcard_encode(self);
        let sig = ed25519_sign(key, bytes.as_slice());
        self.signature = Some(sig);
        assert(self@ =~= with_signature(
            old(self)@,
            Some(ed25519_signature(key@, invite_wire(with_signature(old(self)@, None)))),
        ));
    }

    /// Whether the invitation carries a valid signature of what it says. One
    /// that `sign` made verifies under the matching key.
    pub fn verify(&self, pub_key: &[u8; 32]) -> (r: bool)
        ensures
            r == match self@.signature {
                Some(sig) => ed25519_valid(
                    pub_key@,
                    invite_wire(with_signature(self@, None)),
                    sig,
                ),
                None => false,
            },
            r ==> self@.signature is Some && self@.signature->0.len() == 64,
            forall|k: Seq<u8>|
                pub_key@ == ed25519_public(k) && self@.signature == Some(
                    #[trigger] ed25519_signature(k, invite_wire(with_signature(self@, None))),
                ) ==> r,
    {
        match &self.signature {
            Some(sig) => {
                let check = self.unsigned();
                let bytes = postcard_encode(&check);
                ed25519_verify(pub_key, bytes.as_slice(), sig.as_slice())
            },
            None => false,
        }
    }

    /// A copy without the signature.
    fn unsigned(&self) -> (d: InviteData)
        ensures
            d@ == with_signature(self@, None),
    {
        let fallback_supernodes = copy_texts(&self.fallback_supernodes);
        let d = InviteData {
            version: self.version,
            primary_supernode: self.primary_supernode.clone(),
            fallback_supernodes,
            supernode_addr: self.supernode_addr.clone(),
            room_id: self.room_id,
            room_pub_key: self.room_pub_key,
            virtual_cidr: copy_opt(&self.virtual_cidr),
            token: copy_opt(&self.token),
            expires_at: self.expires_at,
            signature: None,
        };
        assert(d@ =~= with_signature(self@, None));
        d
    }

    /// The invitation as a line of text.
    pub fn encode(&self) -> (s: String)
        ensures
            s@ == b64_text(invite_wire(self@)),
    {
        let bytes = postcard_encode(self);
        b64_encode(bytes.as_slice())
    }

    /// Reads an invitation from a line of text. What `encode` wrote is read
    /// back as it was.
    pub fn decode(s: &str) -> (r: Option<InviteData>)
        ensures
            match r {
                Some(d) => exists|b: Seq<u8>| #[trigger]
                    b64_text(b) == s@ && parsed_invite(b) == Some(d@),
                None => forall|b: Seq<u8>| #[trigger] b64_text(b) == s@ ==> parsed_invite(b) is None,
            },
            forall|v: InviteView|
                s@ == b64_text(#[trigger] invite_wire(v)) ==> r is Some && r->0@ == v,
    {
        match b64_decode(s) {
            Some(bytes) => {
                let r = postcard_decode(bytes.as_slice());
                assert forall|v: InviteView| s@ == b64_text(#[trigger] invite_wire(v)) implies r
                    is Some && r->0@ == v by {
                    assert(invite_wire(v) == bytes@);
                }
                r
            },
            None => None,
        }
    }
}

/// A copy of a list of texts.
pub fn copy_texts(list: &Vec<String>) -> (r: Vec<String>)
    ensures
        texts(r@) == texts(list@),
{
    let mut r: Vec<String> = Vec::new();
    let n: usize = list.len();
    for i in 0..n
        invariant
            n == list@.len(),
            r@.len() == i,
            forall|k: int| 0 <= k < i ==> (#[trigger] r@[k])@ == list@[k]@,
    {
        r.push(list[i].clone());
    }
    assert(texts(r@) =~= texts(list@));
    r
}

/// A copy of an optional text.
pub fn copy_opt(o: &Option<String>) -> (r: Option<String>)
    ensures
        r == *o,
{
    match o {
        Some(s) => Some(s.clone()),
        None => None,
    }
}

proof fn merged_holds(front: Seq<Seq<char>>, list: Seq<Seq<char>>, t: Seq<char>)
    requires
        front.no_duplicates(),
    ensures
        merged(front, list).contains(t) <==> front.contains(t) || (t.len() > 0 && list.contains(t)),
        merged(front, list).no_duplicates(),
        merged(front, list).len() >= front.len(),
        forall|i: int| 0 <= i < front.len() ==> #[trigger] merged(front, list)[i] == front[i],
    decreases list.len(),
{
    if list.len() > 0 {
        let short = list.drop_last();
        merged_holds(front, short, t);
        merged_holds(front, short, list.last());
        let before = merged(front, short);
        let all = merged(front, list);
        if all.contains(t) {
            let k = all.index_of(t);
            if k < before.len() {
                assert(before[k] == t);
                if !front.contains(t) {
                    assert(list[short.index_of(t)] == t);
                }
            } else {
                assert(list[list.len() - 1] == t);
            }
        }
        if front.contains(t) || (t.len() > 0 && list.contains(t)) {
            if before.contains(t) {
                assert(all[before.index_of(t)] == t);
            } else {
                let k = list.index_of(t);
                if k < short.len() {
                    assert(short[k] == t);
                }
                assert(all[all.len() - 1] == t);
            }
        }
        assert forall|i: int, j: int| 0 <= i < all.len() && 0 <= j < all.len() && i != j implies all[i]
            != all[j] by {
            if i < before.len() && j < before.len() {
                assert(before[i] != before[j]);
            } else if i < before.len() {
                assert(before.contains(before[i]));
            } else if j < before.len() {
                assert(before.contains(before[j]));
            }
        }
    }
}

/// The supernodes of an invitation are the primary one, which comes first, and those that
/// stand in for it; each is there once, and none is blank.
pub proof fn every_supernode_is_named_once(v: InviteView, t: Seq<char>)
    ensures
        supernodes_of(v).no_duplicates(),
        supernodes_of(v).contains(t) <==> t.len() > 0 && (t == primary_of(v)
            || v.fallback_supernodes.contains(t)),
        primary_of(v).len() > 0 ==> supernodes_of(v).len() > 0 && supernodes_of(v)[0] == primary_of(
            v,
        ),
        v.primary_supernode.len() > 0 ==> primary_of(v) == v.primary_supernode,
        v.primary_supernode.len() == 0 ==> primary_of(v) == v.supernode_addr,
{
    let front = if primary_of(v).len() > 0 {
        seq![primary_of(v)]
    } else {
        Seq::empty()
    };
    merged_holds(front, v.fallback_supernodes, t);
    if primary_of(v).len() > 0 {
        assert(front[0] == primary_of(v));
        assert(supernodes_of(v)[0] == front[0]);
    }
}

/// A signature covers all that an invitation says, but for itself.
pub proof fn signatures_cover_all_but_themselves(v: InviteView, s: Option<Seq<u8>>)
    ensures
        with_signature(with_signature(v, s), None) == with_signature(v, None),
        with_signature(v, s).signature == s,
        with_signature(v, s).room_id == v.room_id,
        with_signature(v, s).token == v.token,
        with_signature(v, s).primary_supernode == v.primary_supernode,
{
}

} // verus!
