use bytes::{Bytes, BytesMut};
use quic::addr::SocketAddress;
use quic::error::{Error, Reason};
use quic::packet::{
    ConnectionId, LongHeader, Packet, PacketHeader, PacketType, ShortHeader, TypeSpecificData,
};
use quic::varint::VarInt;
use quic::VERSION_1;

fn loopback(port: u16) -> SocketAddress {
    SocketAddress::V4 { ip: 0x7f00_0001, port }
}

#[test]
fn connection_id_creation() {
    let cid = ConnectionId::from_bytes(Bytes::from_static(b"test")).unwrap();
    assert_eq!(cid.len(), 4);
    assert_eq!(cid.as_bytes(), b"test");
    assert!(!cid.is_empty());

    let empty_cid = ConnectionId::empty();
    assert_eq!(empty_cid.len(), 0);
    assert!(empty_cid.is_empty());
}

#[test]
fn connection_id_random() {
    let cid1 = ConnectionId::random(8).unwrap();
    let cid2 = ConnectionId::random(8).unwrap();
    assert_eq!(cid1.len(), 8);
    assert_eq!(cid2.len(), 8);
    assert_ne!(cid1, cid2);
}

#[test]
fn connection_id_length_is_limited() {
    assert!(ConnectionId::from_bytes(Bytes::from(vec![1u8; 20])).is_ok());
    assert_eq!(
        ConnectionId::from_bytes(Bytes::from(vec![1u8; 21])).unwrap_err(),
        Error::InvalidPacket(Reason::Text("Connection ID too long"))
    );
    assert_eq!(
        ConnectionId::random(21).unwrap_err(),
        Error::InvalidPacket(Reason::Text("Connection ID too long"))
    );
    assert_eq!(ConnectionId::from_random(Some(vec![7, 8])).unwrap().as_bytes(), [7, 8]);
    assert_eq!(
        ConnectionId::from_random(None).unwrap_err(),
        Error::Crypto(Reason::Text("Failed to generate random connection ID"))
    );
}

#[test]
fn packet_type_properties() {
    assert!(PacketType::Initial.is_long_header());
    assert!(PacketType::ZeroRtt.is_long_header());
    assert!(PacketType::Handshake.is_long_header());
    assert!(PacketType::Retry.is_long_header());
    assert!(!PacketType::OneRtt.is_long_header());

    assert!(!PacketType::Initial.can_carry_app_data());
    assert!(PacketType::ZeroRtt.can_carry_app_data());
    assert!(!PacketType::Handshake.can_carry_app_data());
    assert!(!PacketType::Retry.can_carry_app_data());
    assert!(PacketType::OneRtt.can_carry_app_data());
}

#[test]
fn long_header_encoding_roundtrip() {
    let dst_cid = ConnectionId::from_bytes(Bytes::from_static(b"dest_cid")).unwrap();
    let src_cid = ConnectionId::from_bytes(Bytes::from_static(b"src_cid")).unwrap();
    let type_specific = TypeSpecificData::Initial {
        token: Bytes::from_static(b"token"),
        length: VarInt::from_u32(100),
        packet_number: 12345,
    };

    let header = LongHeader::new(PacketType::Initial, VERSION_1, dst_cid, src_cid, type_specific);

    let mut buf = BytesMut::new();
    header.encode(&mut buf).unwrap();

    let mut bytes = buf.freeze();
    let decoded = LongHeader::decode(&mut bytes).unwrap();

    assert_eq!(decoded.packet_type, PacketType::Initial);
    assert_eq!(decoded.version, VERSION_1);
    assert_eq!(decoded.dst_cid.as_bytes(), b"dest_cid");
    assert_eq!(decoded.src_cid.as_bytes(), b"src_cid");

    if let TypeSpecificData::Initial { token, length, packet_number } = decoded.type_specific {
        assert_eq!(token.as_ref(), b"token");
        assert_eq!(length.into_inner(), 100);
        assert_eq!(packet_number, 12345);
    } else {
        panic!("Wrong type-specific data");
    }
}

#[test]
fn short_header_encoding_roundtrip() {
    let dst_cid = ConnectionId::from_bytes(Bytes::from_static(b"short_id")).unwrap();
    let header = ShortHeader::new(true, false, dst_cid, 67890);

    let mut buf = BytesMut::new();
    header.encode(&mut buf).unwrap();

    let bytes = buf.freeze();
    let mut padded = BytesMut::from(bytes.as_ref());
    padded.resize(20, 0);
    let mut padded_bytes = padded.freeze();

    let decoded = ShortHeader::decode(&mut padded_bytes).unwrap();

    assert_eq!(decoded.spin_bit, true);
    assert_eq!(decoded.key_phase, false);
    assert_eq!(decoded.packet_number, 67890);
}

#[test]
fn packet_creation() {
    let dst_cid = ConnectionId::from_bytes(Bytes::from_static(b"test")).unwrap();
    let src_cid = ConnectionId::from_bytes(Bytes::from_static(b"test2")).unwrap();
    let type_specific = TypeSpecificData::Initial {
        token: Bytes::new(),
        length: VarInt::from_u32(50),
        packet_number: 1,
    };

    let long_header =
        LongHeader::new(PacketType::Initial, VERSION_1, dst_cid, src_cid, type_specific);

    let header = PacketHeader::Long(long_header);
    let payload = Bytes::from_static(b"test payload");
    let packet = Packet::new(header, payload, loopback(12345), loopback(443));

    assert_eq!(packet.packet_type(), PacketType::Initial);
    assert!(packet.is_long_header());
    assert_eq!(packet.dst_cid().as_bytes(), b"test");
    assert_eq!(packet.src_cid().unwrap().as_bytes(), b"test2");
}

#[test]
fn packet_roundtrip_keeps_header_and_payload() {
    let header = PacketHeader::Long(LongHeader::new(
        PacketType::Retry,
        VERSION_1,
        ConnectionId::from_slice(b"dst"),
        ConnectionId::from_slice(b"source"),
        TypeSpecificData::Retry {
            retry_token: Bytes::from_static(b"retry token"),
            retry_integrity_tag: [9; 16],
        },
    ));
    let packet = Packet::new(header, Bytes::new(), loopback(1), loopback(2));
    let mut buf = BytesMut::new();
    packet.encode(&mut buf).unwrap();
    let decoded = Packet::decode(buf.freeze(), loopback(1), loopback(2)).unwrap();
    assert_eq!(decoded.packet_type(), PacketType::Retry);
    assert_eq!(decoded.header().packet_number(), None);
    if let PacketHeader::Long(h) = decoded.header() {
        if let TypeSpecificData::Retry { retry_token, retry_integrity_tag } = &h.type_specific {
            assert_eq!(retry_token.as_ref(), b"retry token");
            assert_eq!(*retry_integrity_tag, [9; 16]);
        } else {
            panic!("Wrong type-specific data");
        }
    } else {
        panic!("Wrong header");
    }
}

#[test]
fn truncated_headers_are_refused() {
    assert!(PacketHeader::decode(&mut Bytes::new()).is_err());
    assert!(LongHeader::decode(&mut Bytes::from_static(&[0xc0, 0, 0, 0])).is_err());
    assert!(ShortHeader::decode(&mut Bytes::from_static(&[0x40, 1, 2])).is_err());
    assert_eq!(PacketType::try_from(0).unwrap(), PacketType::Initial);
    assert_eq!(PacketType::try_from(3).unwrap(), PacketType::Retry);
    assert!(PacketType::try_from(4).is_err());
}

#[test]
fn varints_take_as_few_bytes_as_possible() {
    let cases: [(u64, &[u8]); 4] = [
        (37, &[0x25]),
        (15293, &[0x7b, 0xbd]),
        (494878333, &[0x9d, 0x7f, 0x3e, 0x7d]),
        (151288809941952652, &[0xc2, 0x19, 0x7c, 0x5e, 0xff, 0x14, 0xe8, 0x8c]),
    ];
    for (value, bytes) in cases {
        let mut buf = BytesMut::new();
        VarInt(value).encode(&mut buf).unwrap();
        assert_eq!(buf.as_ref(), bytes);
        let mut read = buf.freeze();
        assert_eq!(VarInt::decode(&mut read).unwrap().into_inner(), value);
        assert!(read.is_empty());
    }
    let mut buf = BytesMut::new();
    assert_eq!(VarInt(1 << 62).encode(&mut buf).unwrap_err(), Error::VarIntRange);
    assert_eq!(VarInt::from_u64(1 << 62).unwrap_err(), Error::VarIntRange);
    assert_eq!(VarInt::from_u64(5).unwrap(), VarInt(5));
    assert_eq!(VarInt::decode(&mut Bytes::from_static(&[0xc0, 1])).unwrap_err(), Error::Incomplete);
}
