//! Datagrams: how control and data frames are told apart and framed.

use crate::bytes::{push_all, same_bytes};
use crate::common::NatType;
use crate::net::SocketAddr;
use crate::proto::{
    header_bytes, header_fault, header_reads, header_round_trip, DataHeader, DataHeaderError,
    CONTROL_MAGIC, DATA_HEADER_SIZE, DATA_MAGIC,
};
use vstd::prelude::*;
use vstd::slice::slice_subrange;

verus! {

/// A data frame: its header, and where its payload lies in the datagram.
#[derive(Debug)]
pub struct DataFrameView {
    pub header: DataHeader,
    pub payload_range: core::ops::Range<usize>,
}

/// A datagram by its kind. Of a control frame it tells where the serialised
/// frame begins.
#[derive(Debug)]
pub enum Datagram {
    Control { body_at: usize },
    Data(DataFrameView),
}

/// The datagram begins like a control frame.
pub open spec fn is_control(s: Seq<u8>) -> bool {
    s.len() >= 4 && s.subrange(0, 4) == CONTROL_MAGIC@
}

/// What is wrong with a datagram that is not a control frame, if anything is.
pub open spec fn data_fault(s: Seq<u8>) -> Option<DataHeaderError> {
    if header_fault(s) is Some {
        header_fault(s)
    } else if s.len() != DATA_HEADER_SIZE + crate::bytes::be16(s[144], s[145]) {
        Some(DataHeaderError::InvalidPayloadLength)
    } else {
        None
    }
}

/// Tells the kind of a datagram. A data frame has to be exactly as long as its
/// header says.
pub fn classify_datagram(datagram: &[u8]) -> (r: Result<Datagram, DataHeaderError>)
    ensures
        match r {
            Ok(Datagram::Control { body_at }) => is_control(datagram@) && body_at == 4,
            Ok(Datagram::Data(view)) => {
                &&& !is_control(datagram@)
                &&& data_fault(datagram@) is None
                &&& header_reads(view.header, datagram@)
                &&& view.payload_range.start == DATA_HEADER_SIZE
                &&& view.payload_range.end == datagram@.len()
            },
            Err(e) => !is_control(datagram@) && data_fault(datagram@) == Some(e),
        },
{
    let magic: [u8; 4] = CONTROL_MAGIC;
    if datagram.len() >= 4 && same_bytes(slice_subrange(datagram, 0, 4), magic.as_slice()) {
        return Ok(Datagram::Control { body_at: 4 });
    }
    let header = match DataHeader::decode(datagram) {
        Ok(header) => header,
        Err(e) => {
            return Err(e);
        },
    };
    let payload_range = header.payload_range();
    if payload_range.end != datagram.len() {
        return Err(DataHeaderError::InvalidPayloadLength);
    }
    Ok(Datagram::Data(DataFrameView { header, payload_range }))
}

/// The datagram of a serialised control frame.
pub fn frame_control(body: &[u8]) -> (v: Vec<u8>)
    ensures
        v@ == CONTROL_MAGIC@ + body@,
        is_control(v@),
{
    let mut v: Vec<u8> = Vec::new();
    let magic: [u8; 4] = CONTROL_MAGIC;
    push_all(&mut v, magic.as_slice());
    push_all(&mut v, body);
    assert(v@ =~= CONTROL_MAGIC@ + body@);
    assert(v@.subrange(0, 4) =~= CONTROL_MAGIC@);
    v
}

/// What is framed is told apart again: a framed control frame is one and its
/// body is found where it was put.
pub proof fn control_framing_round_trip(body: Seq<u8>)
    ensures
        is_control(CONTROL_MAGIC@ + body),
        (CONTROL_MAGIC@ + body).subrange(4, (CONTROL_MAGIC@ + body).len() as int) == body,
{
    let s = CONTROL_MAGIC@ + body;
    assert(s.subrange(0, 4) =~= CONTROL_MAGIC@);
    assert(s.subrange(4, s.len() as int) =~= body);
}

/// A header of the current version followed by as many bytes as it says is a
/// data frame with that payload, never a control frame.
pub proof fn data_framing_round_trip(h: DataHeader, payload: Seq<u8>)
    requires
        h.version == crate::proto::PROTOCOL_VERSION,
        payload.len() == h.payload_len,
    ensures
        !is_control(header_bytes(h) + payload),
        data_fault(header_bytes(h) + payload) is None,
        header_reads(h, header_bytes(h) + payload),
        (header_bytes(h) + payload).subrange(
            DATA_HEADER_SIZE as int,
            DATA_HEADER_SIZE + payload.len(),
        ) == payload,
{
    let s = header_bytes(h) + payload;
    header_round_trip(h, payload, h);
    assert(s.subrange(0, 4)[3] == DATA_MAGIC@[3]);
    assert(CONTROL_MAGIC@[3] != DATA_MAGIC@[3]);
    assert(s.subrange(DATA_HEADER_SIZE as int, DATA_HEADER_SIZE + payload.len()) =~= payload);
}

/// Whether a datagram can be sent to an address: the families agree, or the
/// local one is not known.
pub fn check_family(local: Option<SocketAddr>, target: SocketAddr) -> (r: bool)
    ensures
        r == (local is Some ==> (local->0.ip is V4 <==> target.ip is V4)),
{
    match local {
        Some(l) => l.is_ipv4() == target.is_ipv4(),
        None => true,
    }
}

/// The positions in a batch whose target can be reached, in order.
pub open spec fn reachable(local: Option<SocketAddr>, targets: Seq<SocketAddr>) -> Seq<usize>
    decreases targets.len(),
{
    if targets.len() == 0 {
        Seq::empty()
    } else {
        let front = reachable(local, targets.drop_last());
        if local is Some ==> (local->0.ip is V4 <==> targets.last().ip is V4) {
            front.push((targets.len() - 1) as usize)
        } else {
            front
        }
    }
}

/// Which messages of a batch are sent.
pub fn filter_batch(local: Option<SocketAddr>, targets: &[SocketAddr]) -> (r: Vec<usize>)
    ensures
        r@ == reachable(local, targets@),
{
    let mut r: Vec<usize> = Vec::new();
    let n: usize = targets.len();
    assert(targets@.subrange(0, 0) =~= Seq::<SocketAddr>::empty());
    for i in 0..n
        invariant
            n == targets@.len(),
            r@ == reachable(local, targets@.subrange(0, i as int)),
    {
        assert(targets@.subrange(0, i + 1).drop_last() =~= targets@.subrange(0, i as int));
        if check_family(local, targets[i]) {
            r.push(i);
        }
    }
    assert(targets@.subrange(0, n as int) =~= targets@);
    r
}

/// What observations of the public address say of the translator: it takes two
/// of them to tell.
pub fn nat_type_of(seen: &[SocketAddr]) -> (t: NatType)
    ensures
        t == told_by_two(seen@),
{
    if seen.len() < 2 {
        NatType::Unknown
    } else if seen[0] == seen[1] {
        NatType::Cone
    } else {
        NatType::Symmetric
    }
}

/// What the first two addresses that servers saw say of the translator.
pub open spec fn told_by_two(seen: Seq<SocketAddr>) -> NatType {
    if seen.len() < 2 {
        NatType::Unknown
    } else if seen[0] == seen[1] {
        NatType::Cone
    } else {
        NatType::Symmetric
    }
}

/// Two servers that see one address speak for a cone, two that see different ones for a
/// symmetric translator; one of them does not tell.
pub proof fn two_servers_tell_the_kind(seen: Seq<SocketAddr>)
    ensures
        told_by_two(seen) == NatType::Unknown <==> seen.len() < 2,
        told_by_two(seen) == NatType::Cone <==> seen.len() >= 2 && seen[0] == seen[1],
        told_by_two(seen) == NatType::Symmetric <==> seen.len() >= 2 && seen[0] != seen[1],
{
}

/// A datagram is a control frame if it starts with `R2NC`; otherwise it has to be a data
/// frame of exactly the length that its header tells.
pub proof fn datagrams_are_told_apart_by_their_mark(s: Seq<u8>)
    ensures
        is_control(s) <==> s.len() >= 4 && s[0] == 82 && s[1] == 50 && s[2] == 78 && s[3] == 67,
        data_fault(s) is None <==> header_fault(s) is None && s.len() == 148 + 256 * s[144] + s[145],
        header_fault(s) is Some ==> data_fault(s) == header_fault(s),
        data_fault(s) == Some(DataHeaderError::InvalidPayloadLength) && header_fault(s) != Some(
            DataHeaderError::InvalidPayloadLength,
        ) ==> s.len() != 148 + 256 * s[144] + s[145],
        is_control(s) ==> data_fault(s) is Some,
{
    if s.len() >= 4 {
        let t = s.subrange(0, 4);
        assert(t[0] == s[0] && t[1] == s[1] && t[2] == s[2] && t[3] == s[3]);
        if s[0] == 82 && s[1] == 50 && s[2] == 78 && s[3] == 67 {
            assert(t =~= CONTROL_MAGIC@);
        }
        if is_control(s) {
            assert(CONTROL_MAGIC@[3] == 67);
            assert(crate::proto::DATA_MAGIC@[3] == 68);
        }
    }
}

/// Exactly the targets of the family of the local address are reached, in their order;
/// without a local address all are.
pub proof fn targets_of_the_own_family_are_reached(
    local: Option<SocketAddr>,
    targets: Seq<SocketAddr>,
    i: int,
)
    requires
        targets.len() <= usize::MAX,
        0 <= i < targets.len(),
    ensures
        reachable(local, targets).contains(i as usize) <==> local is None || (local->0.ip is V4)
            == (targets[i].ip is V4),
        forall|k: int, l: int|
            0 <= k < l < reachable(local, targets).len() ==> (#[trigger] reachable(
                local,
                targets,
            )[k]) < (#[trigger] reachable(local, targets)[l]),
        forall|k: int|
            0 <= k < reachable(local, targets).len() ==> (#[trigger] reachable(local, targets)[k])
                < targets.len(),
    decreases targets.len(),
{
    let short = targets.drop_last();
    let before = reachable(local, short);
    let all = reachable(local, targets);
    let last = (targets.len() - 1) as usize;
    if short.len() > 0 {
        targets_of_the_own_family_are_reached(
            local,
            short,
            if i < short.len() {
                i
            } else {
                0
            },
        );
    }
    if i < short.len() {
        if before.contains(i as usize) {
            assert(all[before.index_of(i as usize)] == i as usize);
        }
        if all.contains(i as usize) {
            let k = all.index_of(i as usize);
            if k < before.len() {
                assert(before[k] == i as usize);
            }
        }
    } else {
        if all.contains(i as usize) {
            let k = all.index_of(i as usize);
            if k < before.len() {
                assert(all[k] == before[k]);
            }
        }
        if local is None || (local->0.ip is V4) == (targets[i].ip is V4) {
            assert(all[all.len() - 1] == last);
        }
    }
}

} // verus!
