use quic::ack_manager::{AckManager, MAX_ACK_DELAY_NANOS};
use quic::frame_types::Frame;
use quic::recovery::PacketNumberSpace;
use quic::time::{Duration, Instant};

fn start() -> Instant {
    Instant::from_nanos(1_000_000_000)
}

#[test]
fn test_ack_generation_single_packet() {
    let mut manager = AckManager::new(PacketNumberSpace::ApplicationData);
    let now = start();

    // Receive a single packet
    manager.on_packet_received(5, true, now);

    // Should not need immediate ACK (threshold not reached)
    assert!(!manager.needs_ack);

    // But should need ACK after delay
    let later =
        now.after(Duration::from_nanos(MAX_ACK_DELAY_NANOS)).after(Duration::from_millis(1));
    assert!(manager.should_send_ack(later));

    // Generate ACK frame
    let ack_frame = manager.generate_ack_frame(later).unwrap();
    if let Frame::Ack { largest_acknowledged, first_ack_range, ack_ranges, .. } = ack_frame {
        assert_eq!(largest_acknowledged, 5);
        assert_eq!(first_ack_range, 0); // Single packet
        assert!(ack_ranges.is_empty());
    } else {
        panic!("Expected ACK frame");
    }
}

#[test]
fn test_ack_generation_multiple_ranges() {
    let mut manager = AckManager::new(PacketNumberSpace::ApplicationData);
    let now = start();

    // Receive packets with gaps: 1, 2, 3, 5, 6, 9
    manager.on_packet_received(1, true, now);
    manager.on_packet_received(2, true, now);
    manager.on_packet_received(3, true, now);
    manager.on_packet_received(5, true, now);
    manager.on_packet_received(6, true, now);
    manager.on_packet_received(9, true, now);

    // Generate ACK frame
    let ack_frame = manager.generate_ack_frame(now).unwrap();
    if let Frame::Ack { largest_acknowledged, first_ack_range, ack_ranges, .. } = ack_frame {
        assert_eq!(largest_acknowledged, 9);
        assert_eq!(first_ack_range, 0); // Just packet 9
        assert_eq!(ack_ranges.len(), 2);

        assert_eq!(ack_ranges[0].gap, 1);
        assert_eq!(ack_ranges[0].ack_range_length, 1);

        assert_eq!(ack_ranges[1].gap, 2);
        assert_eq!(ack_ranges[1].ack_range_length, 2);
    } else {
        panic!("Expected ACK frame");
    }
}

#[test]
fn test_immediate_ack_threshold() {
    let mut manager = AckManager::new(PacketNumberSpace::ApplicationData);
    let now = start();

    // First ack-eliciting packet
    manager.on_packet_received(1, true, now);
    assert!(!manager.needs_ack);

    // Second ack-eliciting packet - should trigger immediate ACK
    manager.on_packet_received(2, true, now);
    assert!(manager.needs_ack);
}

#[test]
fn test_crypto_space_immediate_ack() {
    let mut manager = AckManager::new(PacketNumberSpace::Initial);
    let now = start();

    // Even one packet in Initial space should trigger immediate ACK
    manager.on_packet_received(0, true, now);
    assert!(manager.needs_ack);
}

#[test]
fn reporting_clears_what_is_due() {
    let mut manager = AckManager::new(PacketNumberSpace::Handshake);
    assert!(manager.generate_ack_frame(start()).is_none());
    manager.on_packet_received(7, true, start());
    assert!(manager.should_send_ack(start()));
    assert!(manager.generate_ack_frame(start()).is_some());
    assert!(!manager.should_send_ack(start()));
    assert_eq!(manager.largest_acknowledged(), Some(7));
    manager.reset();
    assert_eq!(manager.largest_acknowledged(), None);
    assert!(manager.generate_ack_frame(start()).is_none());
}

#[test]
fn ack_reports_delay_and_ecn() {
    let mut manager = AckManager::new(PacketNumberSpace::ApplicationData);
    manager.on_packet_received(3, true, start());
    manager.update_ecn_counts(true, false, true);
    let later = start().after(Duration::from_micros(800));
    if let Some(Frame::Ack { ack_delay, ecn_counts, .. }) = manager.generate_ack_frame(later) {
        assert_eq!(ack_delay, 100);
        let counts = ecn_counts.unwrap();
        assert_eq!((counts.ect0, counts.ect1, counts.ecn_ce), (1, 0, 1));
    } else {
        panic!("Expected ACK frame");
    }
}

#[test]
fn old_packets_are_forgotten() {
    let mut manager = AckManager::new(PacketNumberSpace::ApplicationData);
    for pn in [1, 2, 3, 8, 9] {
        manager.on_packet_received(pn, true, start());
    }
    manager.cleanup_old_packets(5);
    if let Some(Frame::Ack { first_ack_range, ack_ranges, .. }) = manager.generate_ack_frame(start())
    {
        assert_eq!(first_ack_range, 1);
        assert!(ack_ranges.is_empty());
    } else {
        panic!("Expected ACK frame");
    }
}

#[test]
fn late_packets_do_not_lower_the_largest() {
    let mut manager = AckManager::new(PacketNumberSpace::ApplicationData);
    assert_eq!(manager.largest_acknowledged(), None);
    for number in [4, 9, 2, 9, 7] {
        manager.on_packet_received(number, false, start());
        manager.generate_ack_frame(start());
        manager.cleanup_old_packets(3);
        manager.update_ecn_counts(true, false, false);
    }
    assert_eq!(manager.largest_acknowledged(), Some(9));
    assert_eq!(manager.received_packets, [7, 9]);
}

#[test]
fn frames_report_at_most_32_further_runs() {
    let mut manager = AckManager::new(PacketNumberSpace::ApplicationData);
    for run in 0..40 {
        manager.on_packet_received(10 * run, false, start());
        manager.on_packet_received(10 * run + 1, false, start());
    }
    match manager.generate_ack_frame(start()) {
        Some(Frame::Ack { largest_acknowledged, first_ack_range, ack_ranges, .. }) => {
            assert_eq!((largest_acknowledged, first_ack_range), (391, 1));
            assert_eq!(ack_ranges.len(), 32);
            assert!(ack_ranges.iter().all(|r| r.ack_range_length == 1));
        }
        _ => panic!("Expected ACK frame"),
    }
}

#[test]
fn ranges_are_generated_up_to_any_number() {
    let mut manager = AckManager::new(PacketNumberSpace::ApplicationData);
    for number in [1, 2, 3, 5, 6, 9] {
        manager.on_packet_received(number, true, start());
    }
    let generated = |largest: u64| {
        let (first, ranges) = manager.generate_ack_ranges(largest);
        let ranges: Vec<(u64, u64)> =
            ranges.iter().map(|r| (r.gap, r.ack_range_length)).collect();
        (first, ranges)
    };
    assert_eq!(generated(0), (0, vec![]));
    assert_eq!(generated(2), (1, vec![]));
    assert_eq!(generated(6), (1, vec![(1, 2)]));
    assert_eq!(generated(7), (1, vec![(2, 2)]));
    assert_eq!(generated(9), (0, vec![(1, 1), (2, 2)]));
}
