use bytes::{Bytes, BytesMut};
use quic::error::Error;
use quic::frame::{Frame as RawFrame, FrameType};
use quic::frame_types::{AckRange, EcnCounts, Frame, StreamType};
use quic::packet::{ConnectionId, PacketType};
use quic::payload::{decode_frames, encode_frames};
use quic::stream::StreamId;

#[test]
fn frame_type_conversion() {
    assert_eq!(FrameType::try_from(0x00).unwrap(), FrameType::Padding);
    assert_eq!(FrameType::try_from(0x01).unwrap(), FrameType::Ping);
    assert_eq!(FrameType::try_from(0x08).unwrap(), FrameType::Stream);
    assert_eq!(FrameType::try_from(0x0f).unwrap(), FrameType::Stream);
    assert!(FrameType::try_from(0xff).is_err());
}

#[test]
fn frame_encoding_roundtrip() {
    let frame = RawFrame::new(FrameType::Ping, Bytes::from_static(b"test"));

    let mut buf = BytesMut::new();
    frame.encode(&mut buf).unwrap();

    let mut bytes = buf.freeze();
    let decoded = RawFrame::decode(&mut bytes).unwrap();

    assert_eq!(decoded.frame_type, FrameType::Ping);
    assert_eq!(decoded.payload.as_ref(), b"test");
}

#[test]
fn frame_type_properties() {
    assert!(FrameType::Padding.is_allowed_in_packet_type(PacketType::Initial));
    assert!(FrameType::Crypto.is_allowed_in_packet_type(PacketType::Handshake));
    assert!(!FrameType::NewToken.is_allowed_in_packet_type(PacketType::Initial));

    assert!(FrameType::MaxData.is_connection_level());
    assert!(!FrameType::Stream.is_connection_level());
}

fn all_frames() -> Vec<Frame> {
    vec![
        Frame::Ping,
        Frame::Ack {
            largest_acknowledged: 900,
            ack_delay: 12,
            ack_range_count: 2,
            first_ack_range: 4,
            ack_ranges: vec![
                AckRange { gap: 1, ack_range_length: 7 },
                AckRange { gap: 20, ack_range_length: 0 },
            ],
            ecn_counts: Some(EcnCounts { ect0: 1, ect1: 2, ecn_ce: 70000 }),
        },
        Frame::ResetStream {
            stream_id: StreamId::from(4),
            application_error_code: 7,
            final_size: 1000,
        },
        Frame::StopSending { stream_id: StreamId::from(8), application_error_code: 9 },
        Frame::Crypto { offset: 3, data: Bytes::from_static(b"hello") },
        Frame::NewToken { token: Bytes::from_static(b"tok") },
        Frame::Stream {
            stream_id: StreamId::from(12),
            offset: 100,
            length: Some(4),
            fin: true,
            data: Bytes::from_static(b"data"),
        },
        Frame::MaxData { maximum_data: 1 << 40 },
        Frame::MaxStreamData { stream_id: StreamId::from(4), maximum_stream_data: 77 },
        Frame::MaxStreams { stream_type: StreamType::Bidirectional, maximum_streams: 3 },
        Frame::MaxStreams { stream_type: StreamType::Unidirectional, maximum_streams: 4 },
        Frame::DataBlocked { maximum_data: 5 },
        Frame::StreamDataBlocked { stream_id: StreamId::from(4), maximum_stream_data: 6 },
        Frame::StreamsBlocked { stream_type: StreamType::Unidirectional, maximum_streams: 7 },
        Frame::NewConnectionId {
            sequence_number: 5,
            retire_prior_to: 2,
            connection_id: ConnectionId::from_slice(b"newcid"),
            stateless_reset_token: [3; 16],
        },
        Frame::RetireConnectionId { sequence_number: 1 },
        Frame::PathChallenge { data: [1, 2, 3, 4, 5, 6, 7, 8] },
        Frame::PathResponse { data: [8, 7, 6, 5, 4, 3, 2, 1] },
        Frame::ConnectionClose {
            error_code: 10,
            frame_type: Some(6),
            reason_phrase: Bytes::from_static(b"because"),
        },
        Frame::HandshakeDone,
    ]
}

#[test]
fn every_frame_comes_back_from_its_bytes() {
    for frame in all_frames() {
        let mut buf = BytesMut::new();
        frame.encode(&mut buf).unwrap();
        let mut bytes = buf.freeze();
        let decoded = Frame::decode(&mut bytes).unwrap();
        assert_eq!(decoded, frame);
        assert!(bytes.is_empty());
    }
}

#[test]
fn payload_gives_its_frames_back_in_order() {
    let frames = all_frames();
    let mut buf = BytesMut::new();
    encode_frames(&frames, &mut buf).unwrap();
    let decoded = decode_frames(&buf, true).unwrap();
    assert_eq!(decoded, frames);
}

#[test]
fn frames_have_known_bytes() {
    let mut buf = BytesMut::new();
    Frame::MaxData { maximum_data: 15293 }.encode(&mut buf).unwrap();
    assert_eq!(buf.as_ref(), &[0x10, 0x7b, 0xbd]);
    buf.clear();
    Frame::Crypto { offset: 1, data: Bytes::from_static(b"ab") }.encode(&mut buf).unwrap();
    assert_eq!(buf.as_ref(), &[0x06, 0x01, 0x02, b'a', b'b']);
    buf.clear();
    Frame::HandshakeDone.encode(&mut buf).unwrap();
    assert_eq!(buf.as_ref(), &[0x1e]);
}

#[test]
fn values_that_do_not_fit_are_refused() {
    let mut buf = BytesMut::new();
    assert_eq!(
        Frame::MaxData { maximum_data: u64::MAX }.encode(&mut buf).unwrap_err(),
        Error::VarIntRange
    );
}

#[test]
fn truncated_frames_are_refused() {
    for frame in all_frames() {
        let mut buf = BytesMut::new();
        frame.encode(&mut buf).unwrap();
        let bytes = buf.freeze();
        for n in 0..bytes.len() {
            let mut part = bytes.slice(0..n);
            if let Ok(f) = Frame::decode(&mut part) {
                assert_ne!(f, frame);
            }
        }
    }
}

#[test]
fn last_frames_are_read_back() {
    let open_ended = Frame::Stream {
        stream_id: StreamId::from(4),
        offset: 7,
        length: None,
        fin: true,
        data: Bytes::from_static(b"tail"),
    };
    let frames = vec![Frame::Ping, open_ended];
    let mut buf = BytesMut::new();
    encode_frames(&frames, &mut buf).unwrap();
    assert_eq!(decode_frames(&buf, true).unwrap(), frames);

    // All padding is read as one frame, or as none.
    let frames = vec![Frame::Ping, Frame::Padding];
    let mut buf = BytesMut::new();
    encode_frames(&frames, &mut buf).unwrap();
    quic::payload::encode_padding(20, &mut buf);
    assert_eq!(decode_frames(&buf, true).unwrap(), frames);
    assert_eq!(decode_frames(&buf, false).unwrap(), vec![Frame::Ping]);
}
