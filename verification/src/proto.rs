//! The wire format of data frames and the vocabulary of control frames.

use crate::bytes::{
    be16, be16_back, be16_bytes, be16_round_trip, be64_back, be64_bytes, be64_of, be64_round_trip,
    put_next, read_array, read_u16, read_u64, u16_bytes, u64_bytes,
};
use crate::common::{NatType, NodeId, PacketId, RoomId, SessionId, VirtualIp};
use crate::net::SocketAddr;
use crate::text::{opt_text, texts};
use vstd::prelude::*;

verus! {

/// The protocol version in use.
pub const PROTOCOL_VERSION: u8 = 2;

/// "R2NC", the first bytes of a control frame.
pub const CONTROL_MAGIC: [u8; 4] = [82, 50, 78, 67];

/// "R2ND", the first bytes of a data frame.
pub const DATA_MAGIC: [u8; 4] = [82, 50, 78, 68];

/// Bytes of a data header.
pub const DATA_HEADER_SIZE: usize = 148;

#[derive(Debug, Clone, Copy, PartialEq, Eq, Structural)]
pub enum CandidateKind {
    HostLan,
    HostIpv6,
    ServerReflexive,
    PortPredicted,
    Relay,
}

#[derive(Debug, Clone, Copy, PartialEq, Eq, Structural)]
pub enum CandidateSource {
    LocalInterface,
    StunPrimary,
    StunSecondary,
    PortMapping,
    PeerReflexive,
    PortPrediction,
    RelayFallback,
}

#[derive(Debug, Clone, Copy, PartialEq, Eq, Structural)]
pub enum PeerAction {
    Add,
    Remove,
    Update,
}

#[derive(Debug, Clone, Copy, PartialEq, Eq, Structural)]
pub enum DataPacketType {
    IPv4,
    IPv6,
    Broadcast,
    Multicast,
    Discovery,
    Keepalive,
    Ping,
    Pong,
    Ethernet,
}

/// A way by which a node may be reached.
#[derive(Debug, Clone, Copy, Eq)]
pub struct Candidate {
    pub kind: CandidateKind,
    pub source: CandidateSource,
    pub addr: SocketAddr,
    pub priority: u32,
    pub rtt_hint_ms: Option<u32>,
}

fn same_hint(a: Option<u32>, b: Option<u32>) -> (r: bool)
    ensures
        r == (a == b),
{
    match (a, b) {
        (Some(x), Some(y)) => x == y,
        (None, None) => true,
        _ => false,
    }
}

impl PartialEq for Candidate {
    fn eq(&self, other: &Self) -> (r: bool) {
        self.kind == other.kind && self.source == other.source && self.addr == other.addr
            && self.priority == other.priority && same_hint(self.rtt_hint_ms, other.rtt_hint_ms)
    }
}

impl vstd::std_specs::cmp::PartialEqSpecImpl for Candidate {
    open spec fn obeys_eq_spec() -> bool {
        true
    }

    open spec fn eq_spec(&self, other: &Self) -> bool {
        *self == *other
    }
}

/// A member of a room as the others see it.
#[derive(Debug)]
pub struct PeerInfo {
    pub node_id: NodeId,
    pub virtual_ip: VirtualIp,
    pub nickname: String,
    pub public_key: [u8; 32],
}

/// A room as it is listed.
#[derive(Debug)]
pub struct RoomDescription {
    pub room_id: RoomId,
    pub name: String,
    pub member_count: usize,
}

/// What edges and supernodes say to one another.
#[derive(Debug)]
pub enum ControlFrame {
    Hello { node_id: NodeId, version: u8 },
    CreateRoom { name: String },
    RoomCreated {
        room_id: RoomId,
        assigned_ip: VirtualIp,
        virtual_cidr: String,
        invite_code: String,
    },
    JoinRoom { room_id: RoomId, token: Option<String>, room_name: Option<String> },
    JoinAccept {
        room_id: RoomId,
        assigned_ip: VirtualIp,
        virtual_cidr: String,
        room_name: Option<String>,
    },
    JoinReject { reason: String },
    RegisterNode {
        node_id: NodeId,
        nat_type: NatType,
        external_addr: Option<SocketAddr>,
        public_key: [u8; 32],
        candidates: Vec<Candidate>,
        nickname: String,
        local_networks: Vec<String>,
    },
    RegisterOk,
    PeerList { peers: Vec<PeerInfo> },
    PeerUpdate { peer: PeerInfo, action: PeerAction },
    PunchRequest { target: NodeId, candidates: Vec<Candidate> },
    PunchCandidate { from: NodeId, candidates: Vec<Candidate> },
    RelayOffer { target: NodeId },
    RelayAccept { relay_id: String },
    Heartbeat,
    LeaveRoom { room_id: RoomId },
    Handshake { from: NodeId, payload: Vec<u8> },
    Error { code: u16, message: String },
    QueryRooms,
    RoomsList { rooms: Vec<RoomDescription> },
}

/// What is said of a member.
#[verifier::ext_equal]
pub struct PeerInfoView {
    pub node_id: NodeId,
    pub virtual_ip: VirtualIp,
    pub nickname: Seq<char>,
    pub public_key: Seq<u8>,
}

impl View for PeerInfo {
    type V = PeerInfoView;

    open spec fn view(&self) -> PeerInfoView {
        PeerInfoView {
            node_id: self.node_id,
            virtual_ip: self.virtual_ip,
            nickname: self.nickname@,
            public_key: self.public_key@,
        }
    }
}

/// What is said of a room.
#[verifier::ext_equal]
pub struct RoomDescriptionView {
    pub room_id: RoomId,
    pub name: Seq<char>,
    pub member_count: nat,
}

impl View for RoomDescription {
    type V = RoomDescriptionView;

    open spec fn view(&self) -> RoomDescriptionView {
        RoomDescriptionView {
            room_id: self.room_id,
            name: self.name@,
            member_count: self.member_count as nat,
        }
    }
}

/// What the items of a list say.
pub open spec fn views<T: View>(s: Seq<T>) -> Seq<T::V> {
    Seq::new(s.len(), |i: int| s[i]@)
}

/// What a control frame says.
#[verifier::ext_equal]
pub enum FrameView {
    Hello { node_id: NodeId, version: u8 },
    CreateRoom { name: Seq<char> },
    RoomCreated {
        room_id: RoomId,
        assigned_ip: VirtualIp,
        virtual_cidr: Seq<char>,
        invite_code: Seq<char>,
    },
    JoinRoom { room_id: RoomId, token: Option<Seq<char>>, room_name: Option<Seq<char>> },
    JoinAccept {
        room_id: RoomId,
        assigned_ip: VirtualIp,
        virtual_cidr: Seq<char>,
        room_name: Option<Seq<char>>,
    },
    JoinReject { reason: Seq<char> },
    RegisterNode {
        node_id: NodeId,
        nat_type: NatType,
        external_addr: Option<SocketAddr>,
        public_key: Seq<u8>,
        candidates: Seq<Candidate>,
        nickname: Seq<char>,
        local_networks: Seq<Seq<char>>,
    },
    RegisterOk,
    PeerList { peers: Seq<PeerInfoView> },
    PeerUpdate { peer: PeerInfoView, action: PeerAction },
    PunchRequest { target: NodeId, candidates: Seq<Candidate> },
    PunchCandidate { from: NodeId, candidates: Seq<Candidate> },
    RelayOffer { target: NodeId },
    RelayAccept { relay_id: Seq<char> },
    Heartbeat,
    LeaveRoom { room_id: RoomId },
    Handshake { from: NodeId, payload: Seq<u8> },
    Error { code: u16, message: Seq<char> },
    QueryRooms,
    RoomsList { rooms: Seq<RoomDescriptionView> },
}

impl View for ControlFrame {
    type V = FrameView;

    open spec fn view(&self) -> FrameView {
        match *self {
            ControlFrame::Hello { node_id, version } => FrameView::Hello { node_id, version },
            ControlFrame::CreateRoom { name } => FrameView::CreateRoom { name: name@ },
            ControlFrame::RoomCreated { room_id, assigned_ip, virtual_cidr, invite_code } =>
                FrameView::RoomCreated {
                room_id,
                assigned_ip,
                virtual_cidr: virtual_cidr@,
                invite_code: invite_code@,
            },
            ControlFrame::JoinRoom { room_id, token, room_name } => FrameView::JoinRoom {
                room_id,
                token: opt_text(token),
                room_name: opt_text(room_name),
            },
            ControlFrame::JoinAccept { room_id, assigned_ip, virtual_cidr, room_name } =>
                FrameView::JoinAccept {
                room_id,
                assigned_ip,
                virtual_cidr: virtual_cidr@,
                room_name: opt_text(room_name),
            },
            ControlFrame::JoinReject { reason } => FrameView::JoinReject { reason: reason@ },
            ControlFrame::RegisterNode {
                node_id,
                nat_type,
                external_addr,
                public_key,
                candidates,
                nickname,
                local_networks,
            } => FrameView::RegisterNode {
                node_id,
                nat_type,
                external_addr,
                public_key: public_key@,
                candidates: candidates@,
                nickname: nickname@,
                local_networks: texts(local_networks@),
            },
            ControlFrame::RegisterOk => FrameView::RegisterOk,
            ControlFrame::PeerList { peers } => FrameView::PeerList { peers: views(peers@) },
            ControlFrame::PeerUpdate { peer, action } => FrameView::PeerUpdate {
                peer: peer@,
                action,
            },
            ControlFrame::PunchRequest { target, candidates } => FrameView::PunchRequest {
                target,
                candidates: candidates@,
            },
            ControlFrame::PunchCandidate { from, candidates } => FrameView::PunchCandidate {
                from,
                candidates: candidates@,
            },
            ControlFrame::RelayOffer { target } => FrameView::RelayOffer { target },
            ControlFrame::RelayAccept { relay_id } => FrameView::RelayAccept {
                relay_id: relay_id@,
            },
            ControlFrame::Heartbeat => FrameView::Heartbeat,
            ControlFrame::LeaveRoom { room_id } => FrameView::LeaveRoom { room_id },
            ControlFrame::Handshake { from, payload } => FrameView::Handshake {
                from,
                payload: payload@,
            },
            ControlFrame::Error { code, message } => FrameView::Error { code, message: message@ },
            ControlFrame::QueryRooms => FrameView::QueryRooms,
            ControlFrame::RoomsList { rooms } => FrameView::RoomsList { rooms: views(rooms@) },
        }
    }
}

/// A frame on its way: where it goes, and whether the frames behind it wait for
/// it to be sent.
#[derive(Debug)]
pub struct Outgoing {
    pub target: SocketAddr,
    pub frame: ControlFrame,
    pub required: bool,
}

/// What is sent where.
#[verifier::ext_equal]
pub struct OutView {
    pub target: SocketAddr,
    pub frame: FrameView,
    pub required: bool,
}

impl View for Outgoing {
    type V = OutView;

    open spec fn view(&self) -> OutView {
        OutView { target: self.target, frame: self.frame@, required: self.required }
    }
}

/// Copies what is known of a member.
pub fn copy_peer(p: &PeerInfo) -> (r: PeerInfo)
    ensures
        r@ == p@,
{
    PeerInfo {
        node_id: p.node_id,
        virtual_ip: p.virtual_ip,
        nickname: p.nickname.clone(),
        public_key: p.public_key,
    }
}

/// Copies candidates.
pub fn copy_candidates(s: &[Candidate]) -> (r: Vec<Candidate>)
    ensures
        r@ == s@,
{
    let mut r: Vec<Candidate> = Vec::new();
    let n: usize = s.len();
    for i in 0..n
        invariant
            n == s@.len(),
            r@ == s@.subrange(0, i as int),
    {
        r.push(s[i]);
        assert(r@ =~= s@.subrange(0, i + 1));
    }
    assert(s@.subrange(0, n as int) =~= s@);
    r
}

/// The number of a packet type on the wire.
pub open spec fn packet_type_code(t: DataPacketType) -> u8 {
    match t {
        DataPacketType::IPv4 => 0,
        DataPacketType::IPv6 => 1,
        DataPacketType::Broadcast => 2,
        DataPacketType::Multicast => 3,
        DataPacketType::Discovery => 4,
        DataPacketType::Keepalive => 5,
        DataPacketType::Ping => 6,
        DataPacketType::Pong => 7,
        DataPacketType::Ethernet => 8,
    }
}

impl DataPacketType {
    pub fn as_u8(self) -> (r: u8)
        ensures
            r == packet_type_code(self),
            r <= 8,
    {
        match self {
            DataPacketType::IPv4 => 0,
            DataPacketType::IPv6 => 1,
            DataPacketType::Broadcast => 2,
            DataPacketType::Multicast => 3,
            DataPacketType::Discovery => 4,
            DataPacketType::Keepalive => 5,
            DataPacketType::Ping => 6,
            DataPacketType::Pong => 7,
            DataPacketType::Ethernet => 8,
        }
    }

    pub fn from_u8(value: u8) -> (r: Option<DataPacketType>)
        ensures
            r is Some <==> value <= 8,
            r is Some ==> packet_type_code(r->0) == value,
    {
        match value {
            0 => Some(DataPacketType::IPv4),
            1 => Some(DataPacketType::IPv6),
            2 => Some(DataPacketType::Broadcast),
            3 => Some(DataPacketType::Multicast),
            4 => Some(DataPacketType::Discovery),
            5 => Some(DataPacketType::Keepalive),
            6 => Some(DataPacketType::Ping),
            7 => Some(DataPacketType::Pong),
            8 => Some(DataPacketType::Ethernet),
            _ => None,
        }
    }
}

/// Two packet types with one number are one type: reading back the number of a
/// type gives that type.
pub proof fn packet_type_codes_differ(a: DataPacketType, b: DataPacketType)
    requires
        packet_type_code(a) == packet_type_code(b),
    ensures
        a == b,
{
}

#[derive(Debug, Clone, Copy, PartialEq, Eq)]
pub struct DataHeader {
    pub version: u8,
    pub flags: u8,
    pub packet_type: DataPacketType,
    pub reserved: u8,
    pub ttl: u8,
    pub room_id: RoomId,
    pub src_node: NodeId,
    pub dst_node: NodeId,
    pub origin_node: NodeId,
    pub session_id: SessionId,
    pub nonce: u64,
    pub packet_id: PacketId,
    pub payload_len: u16,
}

#[derive(Debug, Clone, Copy, PartialEq, Eq, Structural)]
pub enum DataHeaderError {
    BufferTooShort,
    InvalidMagic,
    InvalidPacketType,
    UnsupportedVersion,
    InvalidPayloadLength,
}

/// The message of a header error.
pub open spec fn header_error_text(e: DataHeaderError) -> Seq<char> {
    match e {
        DataHeaderError::BufferTooShort => "buffer too short"@,
        DataHeaderError::InvalidMagic => "invalid data magic"@,
        DataHeaderError::InvalidPacketType => "invalid packet type"@,
        DataHeaderError::UnsupportedVersion => "unsupported protocol version"@,
        DataHeaderError::InvalidPayloadLength => "payload length mismatch"@,
    }
}

impl DataHeaderError {
    /// The message of the error.
    pub fn to_text(&self) -> (s: String)
        ensures
            s@ == header_error_text(*self),
    {
        match self {
            DataHeaderError::BufferTooShort => "buffer too short".to_string(),
            DataHeaderError::InvalidMagic => "invalid data magic".to_string(),
            DataHeaderError::InvalidPacketType => "invalid packet type".to_string(),
            DataHeaderError::UnsupportedVersion => "unsupported protocol version".to_string(),
            DataHeaderError::InvalidPayloadLength => "payload length mismatch".to_string(),
        }
    }
}

/// The byte of a header at a place.
pub open spec fn header_byte(h: DataHeader, i: int) -> u8 {
    if i < 4 {
        DATA_MAGIC@[i]
    } else if i == 4 {
        h.version
    } else if i == 5 {
        h.flags
    } else if i == 6 {
        packet_type_code(h.packet_type)
    } else if i == 7 {
        h.ttl
    } else if i < 24 {
        h.room_id.0@[i - 8]
    } else if i < 56 {
        h.src_node.0@[i - 24]
    } else if i < 88 {
        h.dst_node.0@[i - 56]
    } else if i < 120 {
        h.origin_node.0@[i - 88]
    } else if i < 128 {
        be64_bytes(h.session_id.0)[i - 120]
    } else if i < 136 {
        be64_bytes(h.nonce)[i - 128]
    } else if i < 144 {
        be64_bytes(h.packet_id.0)[i - 136]
    } else if i < 146 {
        be16_bytes(h.payload_len)[i - 144]
    } else if i == 146 {
        h.reserved
    } else {
        0
    }
}

/// The bytes of a header, in the order in which they are sent.
pub open spec fn header_bytes(h: DataHeader) -> Seq<u8> {
    Seq::new(DATA_HEADER_SIZE as nat, |i: int| header_byte(h, i))
}

/// A header holds what the bytes say.
pub open spec fn header_reads(h: DataHeader, s: Seq<u8>) -> bool {
    &&& h.version == s[4]
    &&& h.flags == s[5]
    &&& packet_type_code(h.packet_type) == s[6]
    &&& h.ttl == s[7]
    &&& h.room_id.0@ == s.subrange(8, 24)
    &&& h.src_node.0@ == s.subrange(24, 56)
    &&& h.dst_node.0@ == s.subrange(56, 88)
    &&& h.origin_node.0@ == s.subrange(88, 120)
    &&& h.session_id.0 == be64_of(s.subrange(120, 128))
    &&& h.nonce == be64_of(s.subrange(128, 136))
    &&& h.packet_id.0 == be64_of(s.subrange(136, 144))
    &&& h.payload_len == be16(s[144], s[145])
    &&& h.reserved == s[146]
}

/// What is wrong with the first bytes of a data frame, if anything is.
pub open spec fn header_fault(s: Seq<u8>) -> Option<DataHeaderError> {
    if s.len() < DATA_HEADER_SIZE {
        Some(DataHeaderError::BufferTooShort)
    } else if s.subrange(0, 4) != DATA_MAGIC@ {
        Some(DataHeaderError::InvalidMagic)
    } else if s[4] != PROTOCOL_VERSION {
        Some(DataHeaderError::UnsupportedVersion)
    } else if s[6] > 8 {
        Some(DataHeaderError::InvalidPacketType)
    } else {
        None
    }
}

impl DataHeader {
    /// Writes the header over the first bytes of `buf`. A buffer that cannot
    /// hold it is refused and stays as it was.
    pub fn encode_into(&self, buf: &mut [u8]) -> (r: Result<(), DataHeaderError>)
        ensures
            old(buf)@.len() < DATA_HEADER_SIZE ==> r == Err::<(), DataHeaderError>(
                DataHeaderError::BufferTooShort,
            ) && final(buf)@ == old(buf)@,
            old(buf)@.len() >= DATA_HEADER_SIZE ==> r is Ok && final(buf)@ == header_bytes(*self)
                + old(buf)@.subrange(DATA_HEADER_SIZE as int, old(buf)@.len() as int),
    {
        if buf.len() < DATA_HEADER_SIZE {
            return Err(DataHeaderError::BufferTooShort);
        }
        let ghost start = buf@;
        let ghost target = header_bytes(*self);
        proof {
            be64_round_trip(self.session_id.0);
            be64_round_trip(self.nonce);
            be64_round_trip(self.packet_id.0);
        }
        let magic: [u8; 4] = DATA_MAGIC;
        let kind: [u8; 4] = [self.version, self.flags, self.packet_type.as_u8(), self.ttl];
        let session = u64_bytes(self.session_id.0);
        let nonce = u64_bytes(self.nonce);
        let packet = u64_bytes(self.packet_id.0);
        let len = u16_bytes(self.payload_len);
        let tail: [u8; 2] = [self.reserved, 0];
        let end: usize = put_next(buf, 0, magic.as_slice(), Ghost(start), Ghost(target));
        let end: usize = put_next(buf, end, kind.as_slice(), Ghost(start), Ghost(target));
        let end: usize = put_next(buf, end, self.room_id.0.as_slice(), Ghost(start), Ghost(target));
        let end: usize = put_next(buf, end, self.src_node.0.as_slice(), Ghost(start), Ghost(target));
        let end: usize = put_next(buf, end, self.dst_node.0.as_slice(), Ghost(start), Ghost(target));
        let end: usize = put_next(buf, end, self.origin_node.0.as_slice(), Ghost(start), Ghost(target));
        let end: usize = put_next(buf, end, session.as_slice(), Ghost(start), Ghost(target));
        let end: usize = put_next(buf, end, nonce.as_slice(), Ghost(start), Ghost(target));
        let end: usize = put_next(buf, end, packet.as_slice(), Ghost(start), Ghost(target));
        let end: usize = put_next(buf, end, len.as_slice(), Ghost(start), Ghost(target));
        let end: usize = put_next(buf, end, tail.as_slice(), Ghost(start), Ghost(target));
        assert(buf@ =~= target + start.subrange(148, start.len() as int));
        Ok(())
    }

    /// Reads a header. Each fault is reported on the bytes that have it and no
    /// earlier one, in the order length, magic, version, type.
    pub fn decode(buf: &[u8]) -> (r: Result<DataHeader, DataHeaderError>)
        ensures
            match r {
                Ok(h) => header_fault(buf@) is None && header_reads(h, buf@),
                Err(e) => header_fault(buf@) == Some(e),
            },
    {
        if buf.len() < DATA_HEADER_SIZE {
            return Err(DataHeaderError::BufferTooShort);
        }
        let magic: [u8; 4] = read_array(buf, 0);
        let expected: [u8; 4] = DATA_MAGIC;
        if !crate::bytes::same_bytes(magic.as_slice(), expected.as_slice()) {
            return Err(DataHeaderError::InvalidMagic);
        }
        if buf[4] != PROTOCOL_VERSION {
            return Err(DataHeaderError::UnsupportedVersion);
        }
        let packet_type = match DataPacketType::from_u8(buf[6]) {
            Some(t) => t,
            None => {
                return Err(DataHeaderError::InvalidPacketType);
            },
        };
        Ok(
            DataHeader {
                version: buf[4],
                flags: buf[5],
                packet_type,
                reserved: buf[146],
                ttl: buf[7],
                room_id: RoomId(read_array(buf, 8)),
                src_node: NodeId(read_array(buf, 24)),
                dst_node: NodeId(read_array(buf, 56)),
                origin_node: NodeId(read_array(buf, 88)),
                session_id: SessionId(read_u64(buf, 120)),
                nonce: read_u64(buf, 128),
                packet_id: PacketId(read_u64(buf, 136)),
                payload_len: read_u16(buf, 144),
            },
        )
    }

    /// Where the payload lies in a frame with this header.
    pub fn payload_range(&self) -> (r: core::ops::Range<usize>)
        ensures
            r.start == DATA_HEADER_SIZE,
            r.end == DATA_HEADER_SIZE + self.payload_len,
    {
        DATA_HEADER_SIZE..DATA_HEADER_SIZE + self.payload_len as usize
    }

    /// How long a frame with this header is.
    pub fn frame_len(&self) -> (r: usize)
        ensures
            r == DATA_HEADER_SIZE + self.payload_len,
    {
        DATA_HEADER_SIZE + self.payload_len as usize
    }
}

/// The part of a written header between two places.
proof fn written_part(h: DataHeader, rest: Seq<u8>, from: int, to: int, part: Seq<u8>)
    requires
        0 <= from <= to <= DATA_HEADER_SIZE,
        part.len() == to - from,
        forall|i: int| from <= i < to ==> #[trigger] header_byte(h, i) == part[i - from],
    ensures
        (header_bytes(h) + rest).subrange(from, to) == part,
{
    let s = header_bytes(h) + rest;
    assert forall|k: int| 0 <= k < part.len() implies s.subrange(from, to)[k] == part[k] by {
        assert(s[from + k] == header_byte(h, from + k));
    }
    assert(s.subrange(from, to) =~= part);
}

/// Bytes read as one header at most.
proof fn reading_is_unique(a: DataHeader, b: DataHeader, s: Seq<u8>)
    requires
        header_reads(a, s),
        header_reads(b, s),
    ensures
        a == b,
{
    packet_type_codes_differ(a.packet_type, b.packet_type);
    assert(a.room_id.0 =~= b.room_id.0) by {
        assert(a.room_id.0@ == b.room_id.0@);
    }
    assert(a.src_node.0 =~= b.src_node.0) by {
        assert(a.src_node.0@ == b.src_node.0@);
    }
    assert(a.dst_node.0 =~= b.dst_node.0) by {
        assert(a.dst_node.0@ == b.dst_node.0@);
    }
    assert(a.origin_node.0 =~= b.origin_node.0) by {
        assert(a.origin_node.0@ == b.origin_node.0@);
    }
}

/// What was written is read back: the bytes of a header of the current version,
/// followed by anything, have no fault and read as that header and no other.
pub proof fn header_round_trip(h: DataHeader, rest: Seq<u8>, read: DataHeader)
    requires
        h.version == PROTOCOL_VERSION,
    ensures
        header_fault(header_bytes(h) + rest) is None,
        header_reads(h, header_bytes(h) + rest),
        header_reads(read, header_bytes(h) + rest) ==> read == h,
{
    let s = header_bytes(h) + rest;
    be64_round_trip(h.session_id.0);
    be64_round_trip(h.nonce);
    be64_round_trip(h.packet_id.0);
    be16_round_trip(h.payload_len);
    written_part(h, rest, 0, 4, DATA_MAGIC@);
    written_part(h, rest, 8, 24, h.room_id.0@);
    written_part(h, rest, 24, 56, h.src_node.0@);
    written_part(h, rest, 56, 88, h.dst_node.0@);
    written_part(h, rest, 88, 120, h.origin_node.0@);
    written_part(h, rest, 120, 128, be64_bytes(h.session_id.0));
    written_part(h, rest, 128, 136, be64_bytes(h.nonce));
    written_part(h, rest, 136, 144, be64_bytes(h.packet_id.0));
    assert(s[4] == header_byte(h, 4));
    assert(s[5] == header_byte(h, 5));
    assert(s[6] == header_byte(h, 6));
    assert(s[7] == header_byte(h, 7));
    assert(s[144] == header_byte(h, 144));
    assert(s[145] == header_byte(h, 145));
    assert(s[146] == header_byte(h, 146));
    if header_reads(read, s) {
        reading_is_unique(read, h, s);
    }
}

/// The numbers of a header that was read are written as the bytes they were read
/// from.
proof fn numbers_reencode(h: DataHeader, s: Seq<u8>)
    requires
        header_fault(s) is None,
        header_reads(h, s),
    ensures
        be64_bytes(h.session_id.0) == s.subrange(120, 128),
        be64_bytes(h.nonce) == s.subrange(128, 136),
        be64_bytes(h.packet_id.0) == s.subrange(136, 144),
        be16_bytes(h.payload_len) == s.subrange(144, 146),
{
    be64_back(s.subrange(120, 128));
    be64_back(s.subrange(128, 136));
    be64_back(s.subrange(136, 144));
    be16_back(s.subrange(144, 146));
}

proof fn front_reencodes(h: DataHeader, s: Seq<u8>)
    requires
        header_fault(s) is None,
        header_reads(h, s),
    ensures
        forall|i: int| 0 <= i < 24 ==> #[trigger] header_byte(h, i) == s[i],
{
    assert forall|i: int| 0 <= i < 24 implies #[trigger] header_byte(h, i) == s[i] by {
        if i < 4 {
            assert(s.subrange(0, 4)[i] == s[i]);
        } else if 8 <= i {
            assert(s.subrange(8, 24)[i - 8] == s[i]);
        }
    }
}

proof fn nodes_reencode(h: DataHeader, s: Seq<u8>)
    requires
        header_fault(s) is None,
        header_reads(h, s),
    ensures
        forall|i: int| 24 <= i < 120 ==> #[trigger] header_byte(h, i) == s[i],
{
    assert forall|i: int| 24 <= i < 120 implies #[trigger] header_byte(h, i) == s[i] by {
        if i < 56 {
            assert(s.subrange(24, 56)[i - 24] == s[i]);
        } else if i < 88 {
            assert(s.subrange(56, 88)[i - 56] == s[i]);
        } else {
            assert(s.subrange(88, 120)[i - 88] == s[i]);
        }
    }
}

proof fn back_reencodes(h: DataHeader, s: Seq<u8>)
    requires
        header_fault(s) is None,
        header_reads(h, s),
    ensures
        forall|i: int| 120 <= i < 147 ==> #[trigger] header_byte(h, i) == s[i],
        header_byte(h, 147) == 0,
{
    numbers_reencode(h, s);
    assert forall|i: int| 120 <= i < 147 implies #[trigger] header_byte(h, i) == s[i] by {
        if i < 128 {
            assert(s.subrange(120, 128)[i - 120] == s[i]);
        } else if i < 136 {
            assert(s.subrange(128, 136)[i - 128] == s[i]);
        } else if i < 144 {
            assert(s.subrange(136, 144)[i - 136] == s[i]);
        } else if i < 146 {
            assert(s.subrange(144, 146)[i - 144] == s[i]);
        }
    }
}

/// Writing a header that was read gives back its bytes, but for the last one,
/// which is always written as zero.
pub proof fn header_reencodes(h: DataHeader, s: Seq<u8>)
    requires
        header_fault(s) is None,
        header_reads(h, s),
    ensures
        header_bytes(h) == s.subrange(0, 147).push(0u8),
{
    front_reencodes(h, s);
    nodes_reencode(h, s);
    back_reencodes(h, s);
    let t = s.subrange(0, 147).push(0u8);
    assert forall|i: int| 0 <= i < 148 implies #[trigger] header_bytes(h)[i] == t[i] by {
        assert(header_bytes(h)[i] == header_byte(h, i));
    }
    assert(header_bytes(h) =~= t);
}

/// Where the parts of a header stand in its 148 bytes: the mark `R2ND`, the version,
/// the flags, the kind of packet and how far it may go; then the room, who sent it, who
/// it is for and where it comes from; then the session, the number and the number of
/// a flooded packet; at last how long the payload is.
pub proof fn the_parts_of_a_header_have_their_places(h: DataHeader)
    requires
        h.version == PROTOCOL_VERSION,
    ensures
        ({
            let s = header_bytes(h);
            &&& s.len() == 148
            &&& s[0] == 82 && s[1] == 50 && s[2] == 78 && s[3] == 68
            &&& s[4] == 2
            &&& s[5] == h.flags
            &&& s[6] == packet_type_code(h.packet_type)
            &&& s[7] == h.ttl
            &&& s.subrange(8, 24) == h.room_id.0@
            &&& s.subrange(24, 56) == h.src_node.0@
            &&& s.subrange(56, 88) == h.dst_node.0@
            &&& s.subrange(88, 120) == h.origin_node.0@
            &&& be64_of(s.subrange(120, 128)) == h.session_id.0
            &&& be64_of(s.subrange(128, 136)) == h.nonce
            &&& be64_of(s.subrange(136, 144)) == h.packet_id.0
            &&& 256 * s[144] + s[145] == h.payload_len
        }),
{
    let none = Seq::<u8>::empty();
    header_round_trip(h, none, h);
    let s = header_bytes(h);
    assert(s + none =~= s);
    assert(s.subrange(0, 4)[0] == s[0] && s.subrange(0, 4)[1] == s[1] && s.subrange(0, 4)[2] == s[2]
        && s.subrange(0, 4)[3] == s[3]);
}

/// Every kind of packet has its number.
pub proof fn kinds_of_packets_have_their_numbers()
    ensures
        packet_type_code(DataPacketType::IPv4) == 0,
        packet_type_code(DataPacketType::IPv6) == 1,
        packet_type_code(DataPacketType::Broadcast) == 2,
        packet_type_code(DataPacketType::Multicast) == 3,
        packet_type_code(DataPacketType::Discovery) == 4,
        packet_type_code(DataPacketType::Keepalive) == 5,
        packet_type_code(DataPacketType::Ping) == 6,
        packet_type_code(DataPacketType::Pong) == 7,
        packet_type_code(DataPacketType::Ethernet) == 8,
{
}

/// Bytes are read as a header exactly if they are enough, start with the mark, are of
/// the current version and name a kind of packet; of what is wrong the first is told.
pub proof fn headers_are_read_where_they_are_sound(s: Seq<u8>)
    ensures
        header_fault(s) is None <==> s.len() >= 148 && s.subrange(0, 4) == DATA_MAGIC@ && s[4] == 2
            && s[6] <= 8,
        header_fault(s) == Some(DataHeaderError::BufferTooShort) <==> s.len() < 148,
        header_fault(s) == Some(DataHeaderError::InvalidMagic) <==> s.len() >= 148 && s.subrange(
            0,
            4,
        ) != DATA_MAGIC@,
        header_fault(s) == Some(DataHeaderError::UnsupportedVersion) <==> s.len() >= 148
            && s.subrange(0, 4) == DATA_MAGIC@ && s[4] != 2,
{
}

} // verus!
