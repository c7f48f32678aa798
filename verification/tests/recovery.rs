use bytes::Bytes;
use quic::addr::SocketAddress;
use quic::error::{Error, Reason};
use quic::frame_types::Frame;
use quic::packet::{ConnectionId, Packet, PacketHeader, PacketType, ShortHeader};
use quic::recovery::{PacketNumberSpace, RecoveryManager, RttEstimator};
use quic::retransmission::{get_frame_priority, prioritize_frames_for_retransmission};
use quic::stream::StreamId;
use quic::time::{Duration, Instant};

fn start() -> Instant {
    Instant::from_nanos(10_000_000_000)
}

fn loopback(port: u16) -> SocketAddress {
    SocketAddress::V4 { ip: 0x7f00_0001, port }
}

fn packet(pn: u32) -> Packet {
    let header =
        PacketHeader::Short(ShortHeader::new(false, false, ConnectionId::random(8).unwrap(), pn));
    Packet::new(header, vec![0u8; 100].into(), loopback(8080), loopback(8081))
}

fn stream_frame() -> Frame {
    Frame::Stream {
        stream_id: StreamId::from(0),
        offset: 0,
        data: vec![0u8; 100].into(),
        fin: false,
        length: None,
    }
}

#[test]
fn test_packet_number_space_conversion() {
    assert_eq!(PacketNumberSpace::from(PacketType::Initial), PacketNumberSpace::Initial);
    assert_eq!(PacketNumberSpace::from(PacketType::Handshake), PacketNumberSpace::Handshake);
    assert_eq!(PacketNumberSpace::from(PacketType::ZeroRtt), PacketNumberSpace::ApplicationData);
    assert_eq!(PacketNumberSpace::from(PacketType::OneRtt), PacketNumberSpace::ApplicationData);
}

#[test]
fn test_rtt_estimation() {
    let mut estimator = RttEstimator::new();

    // First sample
    estimator.update_rtt(Duration::from_millis(100), Duration::from_nanos(0));
    assert_eq!(estimator.smoothed_rtt, Duration::from_millis(100));
    assert_eq!(estimator.rtt_var, Duration::from_millis(50));

    // Second sample with higher RTT
    estimator.update_rtt(Duration::from_millis(150), Duration::from_nanos(0));
    // Verify smoothing is applied
    assert!(estimator.smoothed_rtt > Duration::from_millis(100));
    assert!(estimator.smoothed_rtt < Duration::from_millis(150));
}

#[test]
fn test_loss_detection_timer() {
    let mut recovery = RecoveryManager::new(start());

    // Initially no timer
    assert!(recovery.loss_detection_timer.is_none());

    // Send a packet
    recovery.on_packet_sent(&packet(1), vec![Frame::Ping], start());

    // Timer should be set
    assert!(recovery.loss_detection_timer.is_some());
}

#[test]
fn test_packet_loss_detection() {
    let mut recovery = RecoveryManager::new(start());

    // Send multiple packets
    for i in 0..5 {
        recovery.on_packet_sent(&packet(i), vec![stream_frame()], start());
    }

    // ACK packets 3 and 4, triggering loss of 0-1 by packet threshold
    let lost_frames = recovery.on_ack_received(
        PacketNumberSpace::ApplicationData,
        4,
        &[(3, 4)],
        Duration::from_nanos(0),
        start(),
    );

    // Should detect loss of packets 0-1 (packet threshold = 3)
    assert_eq!(lost_frames.unwrap(), [stream_frame(), stream_frame()]);
    assert_eq!(recovery.bytes_in_flight(), 100);
}

#[test]
fn rtt_samples_are_smoothed() {
    let mut recovery = RecoveryManager::new(start());
    recovery.on_packet_sent(&packet(0), vec![Frame::Ping], start());
    let later = start().after(Duration::from_millis(80));
    let lost = recovery
        .on_ack_received(
            PacketNumberSpace::ApplicationData,
            0,
            &[(0, 0)],
            Duration::from_nanos(0),
            later,
        )
        .unwrap();
    assert!(lost.is_empty());
    assert_eq!(recovery.rtt(), Duration::from_millis(80));
    assert_eq!(recovery.rtt_estimator().min_rtt, Duration::from_millis(80));
    assert!(recovery.loss_detection_timer.is_none());
    let stats = recovery.stats();
    assert_eq!((stats.packets_sent, stats.bytes_in_flight), (1, 0));
    assert_eq!(stats.ack_eliciting_in_flight, 0);
}

#[test]
fn ack_frames_that_make_no_sense_are_refused() {
    let space = PacketNumberSpace::ApplicationData;
    let none = Duration::from_nanos(0);
    let mut recovery = RecoveryManager::new(start());
    recovery.on_packet_sent(&packet(9), vec![Frame::Ping], start());
    let mut refused = |largest: u64, ranges: &[(u64, u64)]| {
        recovery.on_ack_received(space, largest, ranges, none, start()).unwrap_err()
    };
    let many: Vec<(u64, u64)> = (0..65u64).rev().map(|i| (i * 2, i * 2)).collect();
    assert_eq!(refused(128, &many), Error::ProtocolViolation(Reason::Text("Too many ACK ranges")));
    assert_eq!(
        refused(5, &[(5, 4)]),
        Error::ProtocolViolation(Reason::Text("Invalid ACK range: start > end"))
    );
    assert_eq!(
        refused(5, &[(1, 2), (4, 5)]),
        Error::ProtocolViolation(Reason::Text("ACK ranges not in descending order"))
    );
    assert_eq!(
        refused(2000, &[(0, 1001)]),
        Error::ProtocolViolation(Reason::Text("ACK range too large"))
    );
    assert_eq!(
        refused(9, &[(9, 9)]),
        Error::ProtocolViolation(Reason::Text("Largest acknowledged decreased"))
    );
}

#[test]
fn large_ack_delay_exponent_is_refused() {
    let mut recovery = RecoveryManager::new(start());
    recovery.set_ack_delay_exponent(21);
    recovery.on_packet_sent(&packet(0), vec![Frame::Ping], start());
    let r = recovery.on_ack_received(
        PacketNumberSpace::ApplicationData,
        0,
        &[(0, 0)],
        Duration::from_millis(1),
        start(),
    );
    assert_eq!(r.unwrap_err(), Error::ProtocolViolation(Reason::Text("ACK delay exponent too large")));
}

#[test]
fn probe_timeout_doubles_and_sends_probes() {
    let mut recovery = RecoveryManager::new(start());
    recovery.on_packet_sent(&packet(0), vec![stream_frame()], start());
    let first = recovery.loss_detection_timer.unwrap();
    let wait = first.duration_since(start());
    assert_eq!(
        wait,
        recovery.probe_timeout_for_space(PacketNumberSpace::ApplicationData)
    );
    assert!(recovery.check_loss_detection(start()).is_none());
    let probes = recovery.check_loss_detection(first).unwrap();
    assert!(!probes.is_empty());
    assert_eq!(recovery.pto_count(), 1);
    let second = recovery.loss_detection_timer.unwrap().duration_since(start());
    assert_eq!(second.nanos, wait.nanos * 2);
    assert!(recovery.has_any_ack_eliciting_in_flight());
    let packets = recovery.generate_enhanced_probe_packets();
    assert_eq!(packets.len(), 1);
    assert_eq!(packets[0].0, PacketNumberSpace::ApplicationData);
}

#[test]
fn lost_packets_are_found_by_time() {
    let mut recovery = RecoveryManager::new(start());
    recovery.on_packet_sent(&packet(0), vec![stream_frame()], start());
    recovery.on_packet_sent(&packet(1), vec![stream_frame()], start());
    let acked = start().after(Duration::from_millis(80));
    let lost = recovery
        .on_ack_received(
            PacketNumberSpace::ApplicationData,
            1,
            &[(1, 1)],
            Duration::from_nanos(0),
            acked,
        )
        .unwrap();
    assert!(lost.is_empty());
    assert_eq!(
        recovery.get_earliest_loss_time().unwrap(),
        start().after(Duration::from_millis(90))
    );
    let due = recovery.loss_detection_timer.unwrap();
    assert!(recovery.check_loss_detection(due).unwrap().is_empty());
    let frames = recovery.check_loss_detection(due.after(Duration::from_nanos(1))).unwrap();
    assert_eq!(frames, [stream_frame()]);
    assert_eq!(recovery.bytes_in_flight(), 0);
    assert_eq!(recovery.congestion_window(), 6600);
}

#[test]
fn amplification_limit_holds_until_validation() {
    let mut recovery = RecoveryManager::new(start());
    assert!(!recovery.can_send_packet(1));
    recovery.update_bytes_received(100);
    assert!(recovery.can_send_packet(300));
    assert!(!recovery.can_send_packet(301));
    recovery.update_bytes_sent(200);
    assert!(!recovery.can_send_packet(101));
    recovery.validate_address();
    assert!(recovery.can_send_packet(1_000_000));
    assert!(recovery.can_send_packet_cc(12000));
    assert!(!recovery.can_send_packet_cc(12001));
}

#[test]
fn received_packets_are_acknowledged() {
    let mut recovery = RecoveryManager::new(start());
    recovery.on_packet_received(4, PacketType::Initial, true, start());
    recovery.on_packet_received(7, PacketType::OneRtt, true, start());
    assert_eq!(recovery.packets_recv(), 2);
    let frames = recovery.get_ack_frames(start());
    assert_eq!(frames.len(), 1);
    if let Frame::Ack { largest_acknowledged, .. } = &frames[0] {
        assert_eq!(*largest_acknowledged, 4);
    } else {
        panic!("Expected ACK frame");
    }
    assert!(recovery.get_ack_frames(start()).is_empty());
    assert!(recovery
        .generate_ack_frame(PacketNumberSpace::ApplicationData, start())
        .is_some());
    assert!(recovery.generate_ack_frame(PacketNumberSpace::Handshake, start()).is_none());
}

#[test]
fn discarded_spaces_are_empty() {
    let mut recovery = RecoveryManager::new(start());
    recovery.on_packet_sent(&packet(0), vec![Frame::Ping], start());
    recovery.discard_space(PacketNumberSpace::ApplicationData);
    assert_eq!(recovery.bytes_in_flight(), 0);
    assert!(recovery.loss_detection_timer.is_none());
    assert!(!recovery.is_handshake_confirmed());
    recovery.confirm_handshake(start());
    assert!(recovery.is_handshake_confirmed());
    assert_eq!(recovery.handshake_completion_time, Some(start()));
}

#[test]
fn important_frames_go_first() {
    let frames = vec![
        stream_frame(),
        Frame::MaxData { maximum_data: 1 },
        Frame::Crypto { offset: 0, data: Bytes::from_static(b"x") },
    ];
    let ordered = prioritize_frames_for_retransmission(frames);
    let priorities: Vec<u8> = ordered.iter().map(get_frame_priority).collect();
    assert_eq!(priorities, [100, 70, 60]);
    assert!(matches!(ordered[0], Frame::Crypto { .. }));
    assert_eq!(ordered.len(), 3);
}

#[test]
fn the_same_ack_counts_once() {
    let space = PacketNumberSpace::ApplicationData;
    let mut recovery = RecoveryManager::new(start());
    for i in 0..6 {
        recovery.on_packet_sent(&packet(i), vec![stream_frame()], start());
    }
    let later = start().after(Duration::from_millis(40));
    let none = Duration::from_nanos(0);
    let ranges = [(5, 5), (2, 3)];
    let lost = recovery.on_ack_received(space, 5, &ranges, none, later).unwrap();
    assert_eq!(lost.len(), 2);
    let state = (recovery.bytes_in_flight(), recovery.rtt(), recovery.congestion_window());
    let timer = recovery.loss_detection_timer;
    let again = recovery.on_ack_received(space, 5, &ranges, none, later).unwrap();
    assert!(again.is_empty());
    assert_eq!(
        (recovery.bytes_in_flight(), recovery.rtt(), recovery.congestion_window()),
        state
    );
    assert_eq!(recovery.loss_detection_timer, timer);
    assert_eq!(recovery.packets_sent(), 6);
}

#[test]
fn new_managers_have_received_nothing() {
    let recovery = RecoveryManager::new(start());
    for space in [
        PacketNumberSpace::Initial,
        PacketNumberSpace::Handshake,
        PacketNumberSpace::ApplicationData,
    ] {
        let acks = recovery.ack_managers.get(space);
        assert_eq!(acks.pn_space, space);
        assert!(acks.received_packets.is_empty() && !acks.needs_ack);
        assert_eq!((acks.largest_received, acks.ack_eliciting_count), (None, 0));
    }
}

#[test]
fn reported_delays_wrap_at_64_bits() {
    let estimator = RttEstimator::new();
    let space = PacketNumberSpace::ApplicationData;
    let decoded = |micros: u64| {
        estimator.decode_ack_delay(space, Duration::from_micros(micros)).unwrap()
    };
    assert_eq!(decoded(100), Duration::from_micros(800));
    assert_eq!(decoded(1_000_000), Duration::from_millis(25));
    assert_eq!(decoded(1 << 61), Duration::from_nanos(0));
    assert_eq!(decoded((1 << 61) + 5), Duration::from_micros(40));
}

#[test]
fn long_spans_are_kept() {
    let long = Duration::from_millis((1 << 62) - 1);
    assert_eq!(long.as_millis(), (1 << 62) - 1);
    let mut estimator = RttEstimator::new();
    estimator.max_ack_delay = long;
    assert!(estimator.probe_timeout() > long);
    assert_eq!(Duration::longest().saturating_add(long), Duration::longest());
    assert_eq!(Duration::longest().micros_u64(), u64::MAX);
    assert_eq!(long.saturating_mul(u32::MAX), Duration::longest());
}

#[test]
fn acks_need_room_for_what_they_report() {
    let space = PacketNumberSpace::ApplicationData;
    let mut recovery = RecoveryManager::new(start());
    recovery.congestion_controller.newreno.congestion_window = u64::MAX - 1200;

    // Nothing is counted where no packet is acknowledged.
    assert!(recovery.has_room_for_ack(space, 8, &[(7, 8)]));
    recovery.on_packet_sent(&packet(7), vec![Frame::Ping], start());
    assert!(recovery.has_room_for_ack(space, 7, &[(7, 7)]));
    assert!(!recovery.has_room_for_ack(space, 8, &[(7, 8)]));
    assert!(recovery.has_room_for_ack(PacketNumberSpace::Initial, 8, &[(7, 8)]));

    // Nor where the frame is refused before.
    assert!(recovery.has_room_for_ack(space, 8, &[(8, 7)]));
    assert!(recovery.has_room_for_ack(space, 2008, &[(7, 2008)]));
    recovery.set_ack_delay_exponent(21);
    assert!(recovery.has_room_for_ack(space, 8, &[(7, 8)]));
}

#[test]
fn repeated_acks_need_no_room() {
    let space = PacketNumberSpace::ApplicationData;
    let none = Duration::from_nanos(0);
    let mut recovery = RecoveryManager::new(start());
    recovery.on_packet_sent(&packet(7), vec![Frame::Ping], start());
    let later = start().after(Duration::from_millis(20));
    recovery.on_ack_received(space, 7, &[(7, 7)], none, later).unwrap();
    recovery.congestion_controller.newreno.congestion_window = u64::MAX;
    recovery.congestion_controller.rtt_tracker.sample_count = u64::MAX;
    assert!(recovery.has_room_for_ack(space, 7, &[(7, 7)]));
    assert!(recovery.on_ack_received(space, 7, &[(7, 7)], none, later).unwrap().is_empty());
    assert_eq!(recovery.congestion_controller.newreno.congestion_window, u64::MAX);
}

#[test]
fn only_probes_need_room_for_the_probe_count() {
    let mut recovery = RecoveryManager::new(start());
    recovery.pto_count = 31;
    assert!(recovery.can_check_loss_detection(start()));
    recovery.on_packet_sent(&packet(0), vec![stream_frame()], start());
    let timer = recovery.loss_detection_timer.unwrap();
    assert!(recovery.can_check_loss_detection(start()));
    assert!(recovery.check_loss_detection(start()).is_none());
    assert!(!recovery.can_check_loss_detection(timer));
    recovery.pto_count = 30;
    assert!(recovery.can_check_loss_detection(timer));
    assert!(recovery.check_loss_detection(timer).is_some());
    assert_eq!(recovery.pto_count(), 31);
}
