//! Identifiers shared by every part of the overlay.

use crate::bytes::same_array;
use crate::text::{decimal, hex_encode, hex_text, push_decimal};
use vstd::prelude::*;

verus! {

/// A node, named by the hash of its public key.
#[derive(Debug, Clone, Copy, Eq, Hash)]
pub struct NodeId(pub [u8; 32]);

/// A room.
#[derive(Debug, Clone, Copy, Eq, Hash)]
pub struct RoomId(pub [u8; 16]);

/// A temporary session.
#[derive(Debug, Clone, Copy, PartialEq, Eq, Hash, Structural)]
pub struct SessionId(pub u64);

/// A monotonic packet counter.
#[derive(Debug, Clone, Copy, PartialEq, Eq, PartialOrd, Ord, Hash, Structural)]
pub struct PacketId(pub u64);

/// How the address translator in front of a node behaves.
#[derive(Debug, Clone, Copy, PartialEq, Eq, Structural)]
pub enum NatType {
    Open,
    Cone,
    Symmetric,
    Unknown,
}

/// An IPv4 address within the virtual network.
#[derive(Debug, Clone, Copy, Eq, Hash)]
pub struct VirtualIp(pub [u8; 4]);

/// The text by which access to a room is shared.
#[derive(Debug, PartialEq, Eq)]
pub struct InviteCode(pub String);

impl PartialEq for NodeId {
    fn eq(&self, other: &Self) -> (r: bool) {
        same_array(&self.0, &other.0)
    }
}

impl vstd::std_specs::cmp::PartialEqSpecImpl for NodeId {
    open spec fn obeys_eq_spec() -> bool {
        true
    }

    open spec fn eq_spec(&self, other: &Self) -> bool {
        *self == *other
    }
}

impl PartialEq for RoomId {
    fn eq(&self, other: &Self) -> (r: bool) {
        same_array(&self.0, &other.0)
    }
}

impl vstd::std_specs::cmp::PartialEqSpecImpl for RoomId {
    open spec fn obeys_eq_spec() -> bool {
        true
    }

    open spec fn eq_spec(&self, other: &Self) -> bool {
        *self == *other
    }
}

impl PartialEq for VirtualIp {
    fn eq(&self, other: &Self) -> (r: bool) {
        same_array(&self.0, &other.0)
    }
}

impl vstd::std_specs::cmp::PartialEqSpecImpl for VirtualIp {
    open spec fn obeys_eq_spec() -> bool {
        true
    }

    open spec fn eq_spec(&self, other: &Self) -> bool {
        *self == *other
    }
}

/// Four numbers in decimal notation with dots between them.
pub open spec fn dotted(o: Seq<u8>) -> Seq<char> {
    decimal(o[0] as nat) + seq!['.'] + decimal(o[1] as nat) + seq!['.'] + decimal(o[2] as nat)
        + seq!['.'] + decimal(o[3] as nat)
}

/// Appends four numbers in decimal notation with dots between them.
pub fn push_dotted(out: &mut String, o: &[u8; 4])
    ensures
        final(out)@ == old(out)@ + dotted(o@),
{
    let ghost start = out@;
    push_decimal(out, o[0] as u64);
    out.push('.');
    push_decimal(out, o[1] as u64);
    out.push('.');
    push_decimal(out, o[2] as u64);
    out.push('.');
    push_decimal(out, o[3] as u64);
    assert(out@ =~= start + dotted(o@));
}

impl NodeId {
    /// The identifier in hexadecimal digits.
    pub fn to_text(&self) -> (s: String)
        ensures
            s@ == hex_text(self.0@),
    {
        hex_encode(self.0.as_slice())
    }
}

impl RoomId {
    /// The identifier in hexadecimal digits.
    pub fn to_text(&self) -> (s: String)
        ensures
            s@ == hex_text(self.0@),
    {
        hex_encode(self.0.as_slice())
    }
}

impl VirtualIp {
    /// The address in dotted decimal notation.
    pub fn to_text(&self) -> (s: String)
        ensures
            s@ == dotted(self.0@),
    {
        let mut s = String::new();
        push_dotted(&mut s, &self.0);
        assert(Seq::<char>::empty() + dotted(self.0@) =~= dotted(self.0@));
        s
    }
}

/// The name of a translator type.
pub open spec fn nat_type_name(t: NatType) -> Seq<char> {
    match t {
        NatType::Open => "Open"@,
        NatType::Cone => "Cone"@,
        NatType::Symmetric => "Symmetric"@,
        NatType::Unknown => "Unknown"@,
    }
}

impl NatType {
    /// The name of the variant.
    pub fn to_text(&self) -> (s: String)
        ensures
            s@ == nat_type_name(*self),
    {
        match self {
            NatType::Open => "Open".to_string(),
            NatType::Cone => "Cone".to_string(),
            NatType::Symmetric => "Symmetric".to_string(),
            NatType::Unknown => "Unknown".to_string(),
        }
    }
}

impl InviteCode {
    /// The code itself.
    pub fn to_text(&self) -> (s: String)
        ensures
            s@ == self.0@,
    {
        self.0.clone()
    }
}

} // verus!
