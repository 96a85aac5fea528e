use r2n::common::{NodeId, PacketId, RoomId, SessionId};
use r2n::proto::{
    DataHeader, DataHeaderError, DataPacketType, CONTROL_MAGIC, DATA_HEADER_SIZE, DATA_MAGIC,
    PROTOCOL_VERSION,
};
use r2n::transport::{classify_datagram, frame_control, Datagram};

fn header(packet_type: DataPacketType, flags: u8) -> DataHeader {
    DataHeader {
        version: PROTOCOL_VERSION,
        flags,
        packet_type,
        reserved: 0,
        ttl: 1,
        room_id: RoomId([7u8; 16]),
        src_node: NodeId([1u8; 32]),
        dst_node: NodeId([2u8; 32]),
        origin_node: NodeId([1u8; 32]),
        session_id: SessionId(42),
        nonce: 99,
        packet_id: PacketId(123),
        payload_len: 512,
    }
}

#[test]
fn data_header_roundtrip() {
    let header = header(DataPacketType::IPv4, 0x11);
    let mut buf = [0u8; DATA_HEADER_SIZE];
    header.encode_into(&mut buf).expect("encode header");
    let decoded = DataHeader::decode(&buf).expect("decode header");
    assert_eq!(decoded, header);
    assert_eq!(
        decoded.payload_range(),
        DATA_HEADER_SIZE..DATA_HEADER_SIZE + 512
    );
}

#[test]
fn rejects_old_data_header_version() {
    let header = header(DataPacketType::IPv4, 0);
    let mut buf = [0u8; DATA_HEADER_SIZE];
    header.encode_into(&mut buf).expect("encode header");
    buf[4] = 1;
    let err = DataHeader::decode(&buf).expect_err("old header version rejected");
    assert!(matches!(err, DataHeaderError::UnsupportedVersion));
}

#[test]
fn rejects_invalid_magic_and_packet_type() {
    let header = header(DataPacketType::Ethernet, 0);
    let mut buf = [0u8; DATA_HEADER_SIZE];
    header.encode_into(&mut buf).expect("encode header");
    buf[0] = b'X';
    let err = DataHeader::decode(&buf).expect_err("invalid magic rejected");
    assert!(matches!(err, DataHeaderError::InvalidMagic));

    header.encode_into(&mut buf).expect("encode header");
    buf[6] = 99;
    let err = DataHeader::decode(&buf).expect_err("invalid packet type rejected");
    assert!(matches!(err, DataHeaderError::InvalidPacketType));
}

#[test]
fn header_bytes_are_where_they_belong() {
    let mut h = header(DataPacketType::Pong, 0x80);
    h.session_id = SessionId(0x0102_0304_0506_0708);
    h.nonce = 1;
    h.packet_id = PacketId(0xff00);
    h.payload_len = 0x1234;
    h.reserved = 9;
    let mut buf = [0xaau8; DATA_HEADER_SIZE + 2];
    h.encode_into(&mut buf).unwrap();
    assert_eq!(buf[0..4], DATA_MAGIC);
    assert_eq!(buf[0..4], *b"R2ND");
    assert_eq!(CONTROL_MAGIC, *b"R2NC");
    assert_eq!(buf[4..8], [2, 0x80, 7, 1]);
    assert_eq!(buf[120..128], [1, 2, 3, 4, 5, 6, 7, 8]);
    assert_eq!(buf[128..136], [0, 0, 0, 0, 0, 0, 0, 1]);
    assert_eq!(buf[136..144], [0, 0, 0, 0, 0, 0, 0xff, 0]);
    assert_eq!(buf[144..148], [0x12, 0x34, 9, 0]);
    assert_eq!(buf[148..150], [0xaa, 0xaa]);
    assert_eq!(h.frame_len(), 148 + 0x1234);
}

#[test]
fn short_buffers_are_refused() {
    let h = header(DataPacketType::IPv6, 0);
    let mut buf = [5u8; DATA_HEADER_SIZE - 1];
    assert_eq!(h.encode_into(&mut buf), Err(DataHeaderError::BufferTooShort));
    assert_eq!(buf, [5u8; DATA_HEADER_SIZE - 1]);
    assert_eq!(DataHeader::decode(&buf), Err(DataHeaderError::BufferTooShort));
    assert_eq!(DataHeaderError::BufferTooShort.to_text(), "buffer too short");
    assert_eq!(
        DataHeaderError::UnsupportedVersion.to_text(),
        "unsupported protocol version"
    );
}

#[test]
fn packet_type_codes_round_trip() {
    for code in 0u8..=255 {
        match DataPacketType::from_u8(code) {
            Some(t) => {
                assert!(code <= 8);
                assert_eq!(t.as_u8(), code);
            }
            None => assert!(code > 8),
        }
    }
}

fn relay_header(payload_len: u16) -> DataHeader {
    DataHeader {
        version: PROTOCOL_VERSION,
        flags: 0,
        packet_type: DataPacketType::IPv4,
        reserved: 0,
        ttl: 0,
        room_id: RoomId([1; 16]),
        src_node: NodeId([2; 32]),
        dst_node: NodeId([3; 32]),
        origin_node: NodeId([2; 32]),
        session_id: SessionId(1),
        nonce: 7,
        packet_id: PacketId(0),
        payload_len,
    }
}

#[test]
fn recv_packet_rejects_payload_length_past_datagram() {
    let payload = b"short";
    let header = relay_header(64);
    let mut frame = vec![0u8; DATA_HEADER_SIZE + payload.len()];
    header
        .encode_into(&mut frame[..DATA_HEADER_SIZE])
        .expect("encode header");
    frame[DATA_HEADER_SIZE..].copy_from_slice(payload);
    assert!(matches!(
        classify_datagram(&frame),
        Err(DataHeaderError::InvalidPayloadLength)
    ));
}

#[test]
fn recv_packet_rejects_payload_length_before_datagram_end() {
    let payload = b"ok";
    let header = relay_header(payload.len() as u16);
    let mut frame = vec![0u8; DATA_HEADER_SIZE + payload.len() + 1];
    header
        .encode_into(&mut frame[..DATA_HEADER_SIZE])
        .expect("encode header");
    frame[DATA_HEADER_SIZE..DATA_HEADER_SIZE + payload.len()].copy_from_slice(payload);
    frame[DATA_HEADER_SIZE + payload.len()] = 0xff;
    assert!(matches!(
        classify_datagram(&frame),
        Err(DataHeaderError::InvalidPayloadLength)
    ));
}

#[test]
fn datagrams_are_told_apart() {
    let framed = frame_control(&[1, 2, 3]);
    assert_eq!(framed, b"R2NC\x01\x02\x03".to_vec());
    assert!(matches!(
        classify_datagram(&framed),
        Ok(Datagram::Control { body_at: 4 })
    ));
    assert!(matches!(
        classify_datagram(b"R2N"),
        Err(DataHeaderError::BufferTooShort)
    ));

    let mut h = header(DataPacketType::IPv4, 0);
    h.payload_len = 3;
    let mut frame = vec![0u8; DATA_HEADER_SIZE];
    h.encode_into(&mut frame).unwrap();
    frame.extend_from_slice(b"abc");
    match classify_datagram(&frame) {
        Ok(Datagram::Data(view)) => {
            assert_eq!(view.header, h);
            assert_eq!(&frame[view.payload_range], b"abc");
        }
        other => panic!("unexpected datagram: {other:?}"),
    }
}
