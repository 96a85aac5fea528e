//! STUN messages: the request that asks for the public address, and the answer.

use crate::net::{IpAddr, SocketAddr};
use stun_rs::attributes::stun::XorMappedAddress;
use stun_rs::{MessageClass, MessageDecoderBuilder, MessageEncoderBuilder, StunMessageBuilder};
use vstd::prelude::*;

verus! {

/// The address that an answer holds.
pub uninterp spec fn mapped_address(answer: Seq<u8>) -> Option<SocketAddr>;

/// The header of a request for the public address.
pub open spec fn is_binding_request(m: Seq<u8>) -> bool {
    m.len() == 20 && m.subrange(0, 8) == seq![0u8, 1, 0, 0, 0x21, 0x12, 0xa4, 0x42]
}

/// `stun_rs::MessageEncoder::encode` of a binding request without attributes. It
/// succeeds, since a header fits the buffer, and gives the header alone: the type
/// of the message, no length, and the cookie by which it is known. The last
/// twelve bytes are random, so that nothing is claimed of them.
#[verifier::external_body]
fn encode_request() -> (r: Option<Vec<u8>>)
    ensures
        r is Some && is_binding_request(r->0@),
{
    let msg = StunMessageBuilder::new(stun_rs::methods::BINDING, MessageClass::Request).build();
    let mut buffer = [0u8; 512];
    let size = MessageEncoderBuilder::default().build().encode(&mut buffer, &msg).ok()?;
    Some(buffer[..size].to_vec())
}

/// `stun_rs::MessageDecoder::decode` and the `XorMappedAddress` attribute of the
/// message: what they find depends on the bytes alone. The address carries
/// neither flow information nor a scope.
#[verifier::external_body]
fn decode_answer(answer: &[u8]) -> (r: Option<SocketAddr>)
    ensures
        r == mapped_address(answer@),
        r is Some ==> r->0.flowinfo == 0 && r->0.scope_id == 0,
{
    let (msg, _) = MessageDecoderBuilder::default().build().decode(answer).ok()?;
    let addr = *msg.get::<XorMappedAddress>()?.as_xor_mapped_address().ok()?.socket_address();
    let ip = match ipnet::IpNet::from(addr.ip()) {
        ipnet::IpNet::V4(net) => IpAddr::V4(net.addr().octets()),
        ipnet::IpNet::V6(net) => IpAddr::V6(net.addr().octets()),
    };
    Some(SocketAddr { ip, port: addr.port(), flowinfo: 0, scope_id: 0 })
}

/// A request for the public address.
pub fn binding_request() -> (r: Option<Vec<u8>>)
    ensures
        r is Some && is_binding_request(r->0@),
{
    encode_request()
}

/// The public address that an answer tells.
pub fn public_address(answer: &[u8]) -> (r: Option<SocketAddr>)
    ensures
        r == mapped_address(answer@),
{
    decode_answer(answer)
}

} // verus!
