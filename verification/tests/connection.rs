use bytes::Bytes;
use quic::addr::SocketAddress;
use quic::connection::{
    determine_packet_type, packet_version, parse_connection_ids_from_packet, Connection,
    ConnectionRole, ConnectionState, FrameStep, MaintenanceStep, Outgoing, PacketStep, StreamEvent,
};
use quic::crypto_impl::{CryptoManager, Encrypted};
use quic::error::{Error, Reason};
use quic::flow_control::FlowControlLimits;
use quic::frame_types;
use quic::frame_types::{AckRange, Frame};
use quic::packet::{ConnectionId, PacketHeader, PacketType, ShortHeader};
use quic::stream::{Stream, StreamId, StreamStats, StreamType};
use quic::time::{Duration, Instant};
use quic::transport::TransportParameters;
use quic::varint::VarInt;

fn start() -> Instant {
    Instant::from_nanos(10_000_000_000)
}

fn peer() -> SocketAddress {
    SocketAddress::V4 { ip: 0x7f00_0001, port: 8080 }
}

fn params(max_data: u32) -> TransportParameters {
    TransportParameters {
        max_idle_timeout: None,
        initial_max_data: Some(VarInt::from_u32(max_data)),
        initial_max_streams_bidi: Some(VarInt::from_u32(4)),
        initial_max_streams_uni: Some(VarInt::from_u32(2)),
        ack_delay_exponent: None,
        max_ack_delay: None,
        active_connection_id_limit: None,
        disable_active_migration: false,
    }
}

fn connection(role: ConnectionRole) -> Connection<u8> {
    let (local, remote) = match role {
        ConnectionRole::Client => (b"clientid", b"serverid"),
        ConnectionRole::Server => (b"serverid", b"clientid"),
    };
    Connection::new(
        role,
        ConnectionId::from_slice(local),
        ConnectionId::from_slice(remote),
        peer(),
        params(10_000),
        quic::VERSION_1,
        start(),
    )
    .unwrap()
}

fn stats(data_sent: u64, data_recv: u64, max_data_recv: u64) -> StreamStats {
    let stream = Stream::new(StreamId::from(0), ConnectionRole::Client);
    StreamStats { data_sent, data_recv, max_data_recv, ..stream.stats() }
}

fn pending(conn: &Connection<u8>) -> Vec<Frame> {
    conn.pending_frames.iter().cloned().collect()
}

fn bytes_of(outgoing: Outgoing) -> (u64, Bytes, Vec<Frame>) {
    match outgoing.packet {
        Encrypted::Packet(p) => (outgoing.packet_number, p, outgoing.frames),
        Encrypted::Tls { .. } => panic!("keys are derived here"),
    }
}

#[test]
fn connection_state_transitions() {
    assert!(ConnectionState::Initial.is_handshaking());
    assert!(ConnectionState::Handshaking.is_handshaking());
    assert!(!ConnectionState::Established.is_handshaking());

    assert!(ConnectionState::Established.can_send_app_data());
    assert!(ConnectionState::EarlyData.can_send_app_data());
    assert!(!ConnectionState::Initial.can_send_app_data());
}

#[test]
fn connection_creation() {
    let conn: Connection<u8> = Connection::new(
        ConnectionRole::Client,
        ConnectionId::random(8).unwrap(),
        ConnectionId::random(8).unwrap(),
        peer(),
        params(0),
        quic::VERSION_1,
        start(),
    )
    .unwrap();

    assert_eq!(conn.state(), ConnectionState::Initial);
    assert_eq!(conn.role(), ConnectionRole::Client);
}

#[test]
fn stream_management() {
    let mut conn = connection(ConnectionRole::Client);
    let created = StreamId::new(0, StreamType::Bidirectional, ConnectionRole::Client);

    // Should not be able to open streams in initial state
    assert!(conn.check_open_stream().is_err());
    assert!(conn.open_stream(StreamType::Bidirectional, created).is_err());

    // Change state to established
    conn.state = ConnectionState::Established;

    // Should be able to open streams now
    let stream_id = conn.open_stream(StreamType::Bidirectional, created).unwrap();
    assert_eq!(stream_id.into_inner(), 0);
    assert_eq!(conn.flow_control.streams_bidi_count, 1);
}

#[test]
fn flow_control_limits_are_kept() {
    let mut limits = FlowControlLimits::new(&params(1000));
    assert!(limits.can_send_data(1000));
    assert!(!limits.can_send_data(1001));
    limits.record_data_sent(600);
    assert_eq!(limits.available_send_window(), 400);
    assert!(!limits.can_send_data(401));
    limits.update_max_data(500);
    assert_eq!(limits.max_data, 1000);
    limits.update_max_data(2000);
    assert!(limits.can_send_data(1400));

    limits.record_data_recv(500);
    assert!(!limits.should_send_max_data());
    limits.record_data_recv(1);
    assert!(limits.should_send_max_data());
    assert_eq!(limits.available_recv_window(), 499);

    assert!(limits.can_open_stream(StreamType::Unidirectional));
    limits.record_stream_opened(StreamType::Unidirectional);
    limits.record_stream_opened(StreamType::Unidirectional);
    assert!(!limits.can_open_stream(StreamType::Unidirectional));
    assert!(limits.can_open_stream(StreamType::Bidirectional));
    limits.update_max_streams(StreamType::Unidirectional, 1);
    assert!(!limits.can_open_stream(StreamType::Unidirectional));
    limits.update_max_streams(StreamType::Unidirectional, 3);
    assert!(limits.can_open_stream(StreamType::Unidirectional));
}

#[test]
fn handshake_packets_pass_between_connections() {
    let mut client = connection(ConnectionRole::Client);
    let mut server = connection(ConnectionRole::Server);

    let hello = b"client hello".to_vec();
    client.state = ConnectionState::Initial;
    client.start_handshake(hello.clone(), Vec::new()).unwrap();
    assert_eq!(client.state(), ConnectionState::Handshaking);
    assert_eq!(
        client.start_handshake(hello.clone(), Vec::new()).unwrap_err(),
        Error::ProtocolViolation(Reason::Text("Connection not in initial state"))
    );
    let outgoing = client.send_pending_frames(Vec::new(), true).unwrap().unwrap();
    let (pn, packet, frames) = bytes_of(outgoing);
    assert_eq!(pn, 0);
    assert_eq!(frames, [Frame::Crypto { offset: 0, data: Bytes::from(hello.clone()) }]);
    client.record_sent_packet(pn, packet.clone(), frames, start());
    assert_eq!(client.bytes_in_flight, packet.len() as u64);
    assert!(client.send_pending_frames(Vec::new(), true).unwrap().is_none());

    let step = server.process_packet(&packet, false, true, start()).unwrap();
    let received = match step {
        PacketStep::Frames(p) => p.frames,
        _ => panic!("Expected frames"),
    };
    assert_eq!(server.state(), ConnectionState::Handshaking);
    let mut read = Vec::new();
    for frame in received {
        assert!(server.has_room_for(&frame));
        match server.process_frame(frame, start()).unwrap() {
            FrameStep::ReadHandshake(pieces) => {
                for p in pieces {
                    read.extend_from_slice(&p);
                }
            }
            FrameStep::Done => {}
            _ => panic!("Unexpected step"),
        }
    }
    assert_eq!(read, hello);
    assert_eq!(server.recovery.packets_recv(), 1);
}

#[test]
fn finished_handshakes_establish_the_connection() {
    let mut server = connection(ConnectionRole::Server);
    server.state = ConnectionState::Handshaking;
    server.on_handshake_progress(true, None, Ok(()), start()).unwrap();
    assert_eq!(server.state(), ConnectionState::Handshaking);
    let peer_params = TransportParameters {
        max_idle_timeout: Some(VarInt::from_u32(5_000)),
        ack_delay_exponent: Some(VarInt::from_u32(5)),
        max_ack_delay: Some(VarInt::from_u32(40)),
        ..params(77)
    };
    server.on_handshake_progress(false, Some(peer_params), Ok(()), start()).unwrap();
    assert!(server.is_established());
    assert_eq!(pending(&server), [Frame::HandshakeDone]);
    assert_eq!(server.flow_control.max_data, 77);
    assert_eq!(server.get_transport_params().max_idle_timeout, Some(VarInt::from_u32(5_000)));
    assert_eq!(server.get_peer_transport_params(), Some(&peer_params));
    assert_eq!(server.recovery.rtt_estimator().ack_delay_exponent, 5);
    assert_eq!(server.recovery.rtt_estimator().max_ack_delay, Duration::from_millis(40));

    let mut client = connection(ConnectionRole::Client);
    client.state = ConnectionState::Handshaking;
    client.on_handshake_progress(false, None, Ok(()), start()).unwrap();
    assert_eq!(client.state(), ConnectionState::Handshaking);
    client.process_frame(Frame::HandshakeDone, start()).unwrap();
    assert!(client.is_established());
}

#[test]
fn bad_peer_parameters_are_refused() {
    let mut conn = connection(ConnectionRole::Client);
    assert_eq!(
        conn.process_peer_transport_params(params(5), Err(Error::ProtocolViolation(Reason::Text("bad"))))
            .unwrap_err(),
        Error::ProtocolViolation(Reason::Text("bad"))
    );
    assert_eq!(conn.get_peer_transport_params(), None);
    let few = TransportParameters {
        active_connection_id_limit: Some(VarInt::from_u32(1)),
        ..params(5)
    };
    assert_eq!(
        conn.process_peer_transport_params(few, Ok(())).unwrap_err(),
        Error::ProtocolViolation(Reason::Text("Peer active_connection_id_limit too small"))
    );
    let odd = TransportParameters { max_idle_timeout: Some(VarInt(1 << 63)), ..params(5) };
    assert_eq!(conn.process_peer_transport_params(odd, Ok(())).unwrap_err(), Error::VarIntRange);
}

#[test]
fn acks_free_the_window_and_bring_back_lost_frames() {
    let mut conn = connection(ConnectionRole::Client);
    conn.state = ConnectionState::Established;
    for pn in 0..5 {
        let frames = vec![Frame::MaxData { maximum_data: pn }];
        conn.record_sent_packet(pn, Bytes::from(vec![0u8; 1200]), frames, start());
    }
    assert_eq!(conn.bytes_in_flight, 6000);
    let ack = Frame::Ack {
        largest_acknowledged: 4,
        ack_delay: 0,
        ack_range_count: 1,
        first_ack_range: 0,
        ack_ranges: vec![AckRange { gap: 0, ack_range_length: 1 }],
        ecn_counts: None,
    };
    assert!(conn.has_room_for(&ack));
    assert!(matches!(conn.process_frame(ack, start()), Ok(FrameStep::Done)));
    assert_eq!(conn.bytes_in_flight, 6000 - 3 * 1200);
    assert_eq!(
        pending(&conn),
        [Frame::MaxData { maximum_data: 0 }, Frame::MaxData { maximum_data: 1 }]
    );
    assert!(conn.recovery.can_send_packet(1_000_000));

    let wide = Frame::Ack {
        largest_acknowledged: u64::MAX,
        ack_delay: 0,
        ack_range_count: 1,
        first_ack_range: 0,
        ack_ranges: vec![AckRange { gap: 0, ack_range_length: u64::MAX }],
        ecn_counts: None,
    };
    assert!(!conn.has_room_for(&wide));
}

#[test]
fn frames_for_streams_are_handed_on() {
    let mut conn = connection(ConnectionRole::Client);
    let id = StreamId::from(4);
    let frame = Frame::Stream {
        stream_id: id,
        offset: 3,
        length: None,
        fin: true,
        data: Bytes::from_static(b"abc"),
    };
    match conn.process_frame(frame, start()).unwrap() {
        FrameStep::StreamData { stream_id, offset, data, fin } => {
            assert_eq!((stream_id, offset, fin), (id, 3, true));
            assert_eq!(data, Bytes::from_static(b"abc"));
        }
        _ => panic!("Unexpected step"),
    }
    assert_eq!(conn.on_stream_received(10_000), Ok(()));
    assert_eq!(conn.on_stream_received(1), Err(Error::FlowControl));
    conn.on_stream_event(
        StreamEvent::StreamBlocked { stream_id: id, is_connection_blocked: true },
        None,
    );
    conn.finish_stream_frame(Some(vec![Frame::Ping]));
    assert_eq!(
        pending(&conn),
        [
            Frame::DataBlocked { maximum_data: 10_000 },
            Frame::MaxData { maximum_data: 10_000 },
            Frame::Ping
        ]
    );

    let mut conn = connection(ConnectionRole::Client);
    conn.on_stop_sending(id, 7, Some(stats(55, 0, 0)));
    assert_eq!(conn.on_stream_data_blocked(id, Some(stats(0, 50, 100))), None);
    assert_eq!(conn.on_stream_data_blocked(id, Some(stats(0, 51, 100))), Some(65_636));
    conn.on_stream_reset(100, Some(stats(0, 40, 100)));
    assert_eq!(conn.flow_control.data_recv, 60);
    conn.close_stream(id, 9, Some(stats(12, 0, 0))).unwrap();
    assert_eq!(
        conn.close_stream(id, 9, None).unwrap_err(),
        Error::ProtocolViolation(Reason::Text("Stream not found"))
    );
    assert_eq!(
        pending(&conn),
        [
            Frame::ResetStream { stream_id: id, application_error_code: 7, final_size: 55 },
            Frame::MaxStreamData { stream_id: id, maximum_stream_data: 65_636 },
            Frame::ResetStream { stream_id: id, application_error_code: 9, final_size: 12 },
        ]
    );
}

#[test]
fn stream_data_needs_window_and_pacing() {
    let mut conn = connection(ConnectionRole::Client);
    let id = StreamId::from(0);
    let data = Bytes::from_static(b"hello");
    conn.congestion.pacing_controller.pacing_rate = 10_000_000;
    conn.send_stream_data(id, data.clone(), false, true, Some(stats(30, 0, 0)), Ok(())).unwrap();
    assert_eq!(
        pending(&conn),
        [Frame::Stream {
            stream_id: id,
            offset: 30,
            length: None,
            fin: false,
            data: data.clone()
        }]
    );
    assert_eq!(conn.flow_control.data_sent, 5);
    assert_eq!(
        conn.send_stream_data(id, data.clone(), false, false, None, Ok(())).unwrap_err(),
        Error::Internal(Reason::Text("Congestion control limit reached"))
    );
    assert_eq!(
        conn.send_stream_data(id, data.clone(), false, true, None, Err(Error::FlowControl))
            .unwrap_err(),
        Error::FlowControl
    );
    conn.congestion.pacing_controller.pacing_rate = 1000;
    assert_eq!(
        conn.send_stream_data(id, data, false, true, None, Ok(())).unwrap_err(),
        Error::Internal(Reason::Text("Pacing limit reached"))
    );
    assert_eq!(conn.pending_frames.len(), 1);
}

#[test]
fn connection_ids_and_tokens_are_kept_by_role() {
    let frame = |seq: u64, retire: u64| Frame::NewConnectionId {
        sequence_number: seq,
        retire_prior_to: retire,
        connection_id: ConnectionId::from_slice(b"newcid"),
        stateless_reset_token: [1; 16],
    };
    let mut client = connection(ConnectionRole::Client);
    client.process_frame(frame(1, 0), start()).unwrap();
    client.process_frame(frame(2, 2), start()).unwrap();
    assert_eq!(client.available_connection_ids.len(), 1);
    assert_eq!(client.available_connection_ids[0].sequence_number, 2);
    assert_eq!(
        pending(&client),
        [
            Frame::RetireConnectionId { sequence_number: 0 },
            Frame::RetireConnectionId { sequence_number: 1 }
        ]
    );
    let token = Frame::NewToken { token: Bytes::from_static(b"tok") };
    client.process_frame(token.clone(), start()).unwrap();
    assert_eq!(client.address_validation_token, Some(Bytes::from_static(b"tok")));

    let mut server = connection(ConnectionRole::Server);
    server.process_frame(frame(1, 1), start()).unwrap();
    server.process_frame(token, start()).unwrap();
    server.process_frame(Frame::RetireConnectionId { sequence_number: 6 }, start()).unwrap();
    assert!(server.available_connection_ids.is_empty());
    assert_eq!(server.address_validation_token, None);
    assert_eq!(server.retired_connection_ids, [6]);
}

#[test]
fn path_answers_validate_the_path() {
    let mut ours = connection(ConnectionRole::Client);
    let mut theirs = connection(ConnectionRole::Server);
    let challenge = [1, 2, 3, 4, 5, 6, 7, 8];
    ours.path_challenge_data = Some(challenge);
    theirs.process_frame(Frame::PathChallenge { data: challenge }, start()).unwrap();
    let answer = theirs.pending_frames.pop_front().unwrap();
    ours.process_frame(answer.clone(), start()).unwrap();
    assert!(ours.path_validated);
    assert_eq!(ours.path_challenge_data, None);

    let mut other = connection(ConnectionRole::Client);
    other.path_challenge_data = Some([9; 8]);
    other.process_frame(answer, start()).unwrap();
    assert!(!other.path_validated);
    assert_eq!(other.path_challenge_data, None);
}

#[test]
fn limits_are_raised_when_half_is_used() {
    let mut conn = connection(ConnectionRole::Server);
    let blocked = Frame::DataBlocked { maximum_data: 10_000 };
    conn.process_frame(blocked.clone(), start()).unwrap();
    assert!(conn.pending_frames.is_empty());
    conn.on_stream_received(5_001).unwrap();
    conn.process_frame(blocked, start()).unwrap();
    conn.process_frame(
        Frame::MaxStreams {
            stream_type: frame_types::StreamType::Bidirectional,
            maximum_streams: 9,
        },
        start(),
    )
    .unwrap();
    assert_eq!(conn.flow_control.max_streams_bidi, 9);
    conn.flow_control.streams_uni_count = 2;
    conn.consider_sending_max_streams(frame_types::StreamType::Unidirectional);
    conn.consider_sending_max_streams(frame_types::StreamType::Bidirectional);
    assert_eq!(
        pending(&conn),
        [
            Frame::MaxData { maximum_data: 10_000 },
            Frame::MaxStreams {
                stream_type: frame_types::StreamType::Unidirectional,
                maximum_streams: 2
            }
        ]
    );
}

#[test]
fn closing_drains_for_three_seconds() {
    let mut conn = connection(ConnectionRole::Client);
    conn.close(3, "bye".to_string(), start());
    assert!(conn.state().is_closed());
    assert_eq!(
        pending(&conn),
        [Frame::ConnectionClose {
            error_code: 3,
            frame_type: None,
            reason_phrase: Bytes::from_static(b"bye")
        }]
    );
    conn.close(4, "again".to_string(), start());
    assert_eq!(conn.pending_frames.len(), 1);
    let almost = start().after(Duration::from_millis(2_999));
    conn.finish_maintenance(almost);
    assert_ne!(conn.state(), ConnectionState::Closed);
    conn.finish_maintenance(start().after(Duration::from_secs(3)));
    assert_eq!(conn.state(), ConnectionState::Closed);
}

#[test]
fn peers_can_close_with_any_text() {
    let mut conn = connection(ConnectionRole::Client);
    let frame = Frame::ConnectionClose {
        error_code: 10,
        frame_type: None,
        reason_phrase: Bytes::from_static(&[b'o', b'k', 0xff]),
    };
    let (error_code, reason_phrase) = match conn.process_frame(frame, start()).unwrap() {
        FrameStep::ConvertErrorCode { error_code, reason_phrase } => (error_code, reason_phrase),
        _ => panic!("Expected a code to convert"),
    };
    assert_eq!(error_code, 10);

    // A code that stands for nothing leaves the connection as it is.
    let unknown = Error::ProtocolViolation(Reason::Text("Unknown error code"));
    let before = conn.state();
    assert_eq!(conn.on_peer_close(Err(unknown.clone()), &reason_phrase, start()), Err(unknown));
    assert_eq!(conn.state(), before);

    conn.on_peer_close(Ok(error_code), &reason_phrase, start()).unwrap();
    match conn.state() {
        ConnectionState::Closing { error_code, reason, drain_timeout } => {
            assert_eq!(error_code, 10);
            assert_eq!(reason, "ok\u{fffd}");
            assert_eq!(drain_timeout, start().after(Duration::from_secs(3)));
        }
        _ => panic!("Expected the draining period"),
    }
}

#[test]
fn idle_connections_close() {
    let mut conn = connection(ConnectionRole::Client);
    let edge = start().after(Duration::from_secs(30));
    assert!(!conn.is_idle_timeout(edge));
    assert_eq!(conn.maintain(edge), MaintenanceStep::Continue);
    let later = edge.after(Duration::from_nanos(1));
    assert!(conn.is_idle_timeout(later));
    assert_eq!(conn.maintain(later), MaintenanceStep::Close);
    assert_eq!(
        pending(&conn),
        [Frame::ConnectionClose {
            error_code: 0,
            frame_type: None,
            reason_phrase: Bytes::from_static(b"Idle timeout")
        }]
    );
    assert_eq!(conn.maintain(later), MaintenanceStep::Stop);
}

#[test]
fn maintenance_sends_probes() {
    let mut conn = connection(ConnectionRole::Client);
    conn.state = ConnectionState::Established;
    conn.record_sent_packet(0, Bytes::from(vec![0u8; 100]), vec![Frame::Ping], start());
    let due = conn.recovery.loss_detection_timer.unwrap();
    assert_eq!(conn.maintain(start()), MaintenanceStep::Continue);
    assert_eq!(conn.maintain(due), MaintenanceStep::Send);
    assert!(!conn.pending_frames.is_empty());
}

#[test]
fn versions_are_negotiated_by_role() {
    let mut client = connection(ConnectionRole::Client);
    let mut server = connection(ConnectionRole::Server);
    let mut packet = vec![0xc0, 0, 0, 0, 0, 3, b'd', b's', b't', 2, b's', b'c'];
    assert_eq!(packet_version(&packet), Some(0));
    assert!(matches!(
        client.process_packet(&packet, false, true, start()),
        Ok(PacketStep::VersionNegotiation)
    ));
    assert_eq!(
        server.process_packet(&packet, false, true, start()).err().unwrap(),
        Error::InvalidPacket(Reason::Text("Server received version negotiation packet"))
    );
    packet[1] = 0x1a;
    packet[4] = 0x2b;
    assert_eq!(packet_version(&packet), Some(0x1a00_002b));
    assert!(server.needs_version_negotiation(false));
    assert!(!client.needs_version_negotiation(false));
    match server.process_packet(&packet, true, true, start()).unwrap() {
        PacketStep::Negotiate { dst_cid, src_cid } => {
            assert_eq!(dst_cid.as_bytes(), b"dst");
            assert_eq!(src_cid.as_bytes(), b"sc");
        }
        _ => panic!("Unexpected step"),
    }
    for n in 0..packet.len() {
        assert_eq!(
            parse_connection_ids_from_packet(&packet[0..n]).unwrap_err(),
            Error::PacketTooShort
        );
    }
    assert_eq!(packet_version(&packet[0..4]), None);

    client.state = ConnectionState::Handshaking;
    client.packet_numbers.initial = 7;
    client.handle_version_negotiation(Ok(quic::VERSION_1)).unwrap();
    assert_eq!(client.state(), ConnectionState::Handshaking);
    client.handle_version_negotiation(Ok(0x6b33_43cf)).unwrap();
    assert_eq!(client.state(), ConnectionState::Initial);
    assert_eq!(client.quic_version(), 0x6b33_43cf);
    assert_eq!(client.packet_numbers.initial, 0);
    assert_eq!(
        server.handle_version_negotiation(Ok(1)).unwrap_err(),
        Error::Internal(Reason::Text("Version negotiation is only for clients"))
    );
    assert!(client.check_zero_rtt().is_ok());
    assert_eq!(
        server.check_zero_rtt().unwrap_err(),
        Error::Internal(Reason::Text("0-RTT is only supported for clients"))
    );
}

#[test]
fn packet_numbers_are_counted_by_state() {
    let mut conn = connection(ConnectionRole::Client);
    assert_eq!(conn.next_packet_number(), 0);
    assert_eq!(conn.next_packet_number(), 1);
    conn.state = ConnectionState::Handshaking;
    assert_eq!(conn.next_packet_number(), 0);
    conn.state = ConnectionState::Established;
    assert_eq!(conn.next_packet_number(), 0);
    assert_eq!(conn.packet_numbers.initial, 2);
    let header = PacketHeader::Short(ShortHeader::new(
        false,
        false,
        ConnectionId::from_slice(b"12345678"),
        1,
    ));
    assert_eq!(determine_packet_type(&header), PacketType::OneRtt);
}

#[test]
fn flow_control_frames_go_first() {
    let mut conn = connection(ConnectionRole::Client);
    conn.queue_frames(vec![Frame::Ping]);
    let first = vec![Frame::MaxData { maximum_data: 1 }, Frame::MaxData { maximum_data: 2 }];
    let outgoing = conn.send_pending_frames(first, true).unwrap().unwrap();
    assert_eq!(
        outgoing.frames,
        [Frame::MaxData { maximum_data: 2 }, Frame::MaxData { maximum_data: 1 }, Frame::Ping]
    );
}

#[test]
fn connection_statistics() {
    let mut conn = connection(ConnectionRole::Client);
    conn.state = ConnectionState::Established;
    conn.record_sent_packet(0, Bytes::from(vec![0u8; 100]), vec![Frame::Ping], start());
    let s = conn.stats(3, true);
    assert_eq!(s.state, ConnectionState::Established);
    assert_eq!((s.streams_count, s.packets_sent, s.packets_recv), (3, 1, 0));
    assert_eq!((s.bytes_in_flight, s.cwnd), (100, 12000));
    assert_eq!((s.available_send_window, s.available_recv_window), (10_000, 10_000));
    assert!(!s.congestion_limited);
    assert!(!s.flow_control_limited);
    assert!(conn.stats(3, false).congestion_limited);
    assert_eq!(conn.remote_addr(), peer());
    assert_eq!(conn.local_cid().as_bytes(), b"clientid");
    assert_eq!(conn.remote_cid().as_bytes(), b"serverid");
}

#[test]
fn transport_parameters_pass_through_the_handshake() {
    let mut crypto: CryptoManager<u8> = CryptoManager::new(ConnectionRole::Client);
    assert!(crypto.get_peer_transport_params().is_none());
    crypto.set_transport_params(params(7));
    assert_eq!(crypto.local_transport_params, Some(params(7)));

    crypto.extract_transport_params(None);
    assert!(crypto.get_peer_transport_params().is_none());
    crypto.extract_transport_params(Some(params(9)));
    crypto.extract_transport_params(None);
    assert_eq!(crypto.get_peer_transport_params(), Some(&params(9)));
}
