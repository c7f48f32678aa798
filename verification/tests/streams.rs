use bytes::Bytes;
use quic::connection::ConnectionRole;
use quic::error::{Error, Reason};
use quic::stream::{Stream, StreamId, StreamState, StreamType};

fn client_stream() -> Stream {
    Stream::new(
        StreamId::new(0, StreamType::Bidirectional, ConnectionRole::Client).unwrap(),
        ConnectionRole::Client,
    )
}

#[test]
fn stream_id_validation() {
    // Client-initiated bidirectional stream
    let id = StreamId::new(0, StreamType::Bidirectional, ConnectionRole::Client).unwrap();
    assert!(id.initiated_by_client());
    assert!(id.is_bidirectional());

    // Server-initiated unidirectional stream
    let id = StreamId::new(3, StreamType::Unidirectional, ConnectionRole::Server).unwrap();
    assert!(id.initiated_by_server());
    assert!(id.is_unidirectional());

    // Invalid pattern should fail
    assert!(StreamId::new(0, StreamType::Unidirectional, ConnectionRole::Client).is_err());
}

#[test]
fn stream_state_transitions() {
    let mut stream = client_stream();

    assert_eq!(stream.state(), StreamState::Open);
    assert!(stream.state().can_send());
    assert!(stream.state().can_receive());

    // Send data with FIN
    stream.send_data(Bytes::from("test"), true).unwrap();
    assert_eq!(stream.state(), StreamState::HalfClosedLocal);
    assert!(!stream.state().can_send());
    assert!(stream.state().can_receive());

    // Receive data with FIN
    stream.receive_data(0, Bytes::from("response"), true).unwrap();
    assert_eq!(stream.state(), StreamState::Closed);
    assert!(!stream.state().can_send());
    assert!(!stream.state().can_receive());
}

#[test]
fn stream_out_of_order_data() {
    let mut stream = client_stream();

    stream.receive_data(6, Bytes::from("world"), false).unwrap();
    assert!(!stream.has_data());

    stream.receive_data(0, Bytes::from("hello "), false).unwrap();
    assert!(stream.has_data());

    let data = stream.read_data(100).unwrap();
    assert_eq!(data, Bytes::from("hello world"));
    assert!(stream.read_data(100).is_none());
}

#[test]
fn stream_data_behind_a_gap_waits() {
    let mut stream = client_stream();
    stream.receive_data(10, Bytes::from("world"), false).unwrap();
    stream.receive_data(0, Bytes::from("hello "), false).unwrap();
    assert_eq!(stream.read_data(100).unwrap(), Bytes::from("hello "));
    stream.receive_data(6, Bytes::from("...."), false).unwrap();
    assert_eq!(stream.read_data(100).unwrap(), Bytes::from("....world"));
}

#[test]
fn stream_flow_control() {
    let mut stream = client_stream();

    // Set a small send window
    stream.test_set_send_limit(5);

    // Should be able to send within window
    assert!(stream.send_data(Bytes::from("hello"), false).is_ok());

    // Should fail to send beyond window
    assert_eq!(stream.send_data(Bytes::from("world"), false).unwrap_err(), Error::FlowControl);

    // Update window and try again
    stream.update_max_data(20).unwrap();
    assert!(stream.send_data(Bytes::from("world"), false).is_ok());
}

#[test]
fn stream_reset() {
    let mut stream = client_stream();

    stream.receive_data(0, Bytes::from("data"), false).unwrap();
    assert!(stream.has_data());

    stream.reset(42, 4).unwrap();
    assert_eq!(stream.state(), StreamState::ResetRecv);
    assert!(!stream.has_data()); // Data should be cleared
}

#[test]
fn stream_reads_no_more_than_asked() {
    let mut stream = client_stream();
    stream.receive_data(0, Bytes::from("abcdef"), true).unwrap();
    assert_eq!(stream.read_data(4).unwrap(), Bytes::from("abcd"));
    assert_eq!(stream.read_data(4).unwrap(), Bytes::from("ef"));
    assert_eq!(stream.bytes_received(), 6);
    assert_eq!(stream.final_size(), Some(6));
}

#[test]
fn stream_ids_of_a_kind_are_four_apart() {
    let id = StreamId::from(4);
    let next = id.next(ConnectionRole::Client).unwrap();
    assert_eq!(next.into_inner(), 8);
    assert_eq!(next.stream_type(), id.stream_type());
    assert_eq!(id.to_varint().into_inner(), 4);
}

#[test]
fn queued_data_goes_out_in_order() {
    let mut stream = Stream::new(StreamId::from(0), ConnectionRole::Client);
    assert_eq!(stream.send_data(Bytes::from("hello "), false), Ok(0));
    assert_eq!(stream.get_pending_send_data(4), Some(Bytes::from("hell")));
    assert_eq!(stream.send_data(Bytes::from("world"), true), Ok(6));
    assert_eq!(stream.get_pending_send_data(100), Some(Bytes::from("o world")));
    assert_eq!(stream.get_pending_send_data(100), None);
}

#[test]
fn pieces_in_any_order_make_the_message() {
    let message: Vec<u8> = (0..20u8).collect();
    let cuts = [0usize, 3, 4, 11, 20];
    for order in [[0, 1, 2, 3], [3, 2, 1, 0], [2, 0, 3, 1], [1, 3, 0, 2]] {
        let mut stream = client_stream();
        for i in order {
            let piece = Bytes::copy_from_slice(&message[cuts[i]..cuts[i + 1]]);
            stream.receive_data(cuts[i] as u64, piece, false).unwrap();
        }
        assert_eq!(stream.bytes_received(), 20);
        assert!(stream.has_data());
        assert_eq!(stream.read_data(20).unwrap(), Bytes::from(message.clone()));
    }
}

#[test]
fn stream_ids_keep_their_number() {
    assert_eq!(StreamId::from(7).into_inner(), 7);
    assert_eq!(
        StreamId::new(4, StreamType::Unidirectional, ConnectionRole::Client).unwrap_err(),
        Error::ProtocolViolation(Reason::StreamIdPattern(4))
    );
}
