use quic::ecn::{
    EcnCodepoint, EcnCongestionEvent, EcnController, EcnCounters, EcnState, EcnValidationConfig,
    MarkingRate,
};
use quic::time::{Duration, Instant};

fn start() -> Instant {
    Instant::from_nanos(5_000_000_000)
}

fn ratio(rate: MarkingRate) -> f64 {
    if rate.total == 0 {
        0.0
    } else {
        rate.marked as f64 / rate.total as f64
    }
}

#[test]
fn test_ecn_codepoint_conversion() {
    assert_eq!(EcnCodepoint::from_bits(0b00), Some(EcnCodepoint::NotEct));
    assert_eq!(EcnCodepoint::from_bits(0b01), Some(EcnCodepoint::Ect1));
    assert_eq!(EcnCodepoint::from_bits(0b10), Some(EcnCodepoint::Ect0));
    assert_eq!(EcnCodepoint::from_bits(0b11), Some(EcnCodepoint::Ce));

    assert_eq!(EcnCodepoint::NotEct.to_bits(), 0b00);
    assert_eq!(EcnCodepoint::Ect1.to_bits(), 0b01);
    assert_eq!(EcnCodepoint::Ect0.to_bits(), 0b10);
    assert_eq!(EcnCodepoint::Ce.to_bits(), 0b11);
}

#[test]
fn test_ecn_codepoint_properties() {
    assert!(!EcnCodepoint::NotEct.is_ect());
    assert!(EcnCodepoint::Ect0.is_ect());
    assert!(EcnCodepoint::Ect1.is_ect());
    assert!(!EcnCodepoint::Ce.is_ect());

    assert!(!EcnCodepoint::NotEct.is_ce());
    assert!(!EcnCodepoint::Ect0.is_ce());
    assert!(!EcnCodepoint::Ect1.is_ce());
    assert!(EcnCodepoint::Ce.is_ce());
}

#[test]
fn test_ecn_counters() {
    let mut counters = EcnCounters::default();

    assert_eq!(counters.total_marks(), 0);
    assert_eq!(ratio(counters.marking_rate()), 0.0);

    counters.update(EcnCodepoint::Ect0);
    counters.update(EcnCodepoint::Ect1);
    counters.update(EcnCodepoint::Ce);
    counters.update(EcnCodepoint::NotEct);

    assert_eq!(counters.ect0_count, 1);
    assert_eq!(counters.ect1_count, 1);
    assert_eq!(counters.ce_count, 1);
    assert_eq!(counters.total_ect_count, 3);
    assert_eq!(counters.total_marks(), 1);
    assert!((ratio(counters.marking_rate()) - (1.0 / 3.0)).abs() < 0.001);
}

#[test]
fn test_ecn_controller_initialization() {
    let controller = EcnController::new();

    assert!(!controller.is_ecn_capable()); // Not validated yet
    assert!(!controller.has_validation_failed());

    let stats = controller.stats();
    assert_eq!(stats.state, EcnState::Unknown);
    assert!(stats.enabled);
}

#[test]
fn test_ecn_validation_start() {
    let mut controller = EcnController::new();
    let now = start();

    // First outgoing packet should start validation
    let ecn = controller.outgoing_ecn_codepoint(now);
    assert_eq!(ecn, EcnCodepoint::Ect0);
    assert_eq!(controller.validation.state, EcnState::Testing);
}

#[test]
fn test_ecn_disabled() {
    let mut controller = EcnController::new();
    controller.set_enabled(false);
    let now = start();

    let ecn = controller.outgoing_ecn_codepoint(now);
    assert_eq!(ecn, EcnCodepoint::NotEct);
    assert!(!controller.is_ecn_capable());
}

#[test]
fn test_ecn_congestion_detection() {
    let mut controller = EcnController::new();
    let now = start();

    // Set to capable state
    controller.validation.state = EcnState::Capable;

    // Process CE-marked packet
    controller.on_packet_received(EcnCodepoint::Ce, now);

    let events = controller.check_congestion_events(1000, now);
    assert_eq!(events.len(), 1);
    assert_eq!(events[0].ce_count, 1);
    assert_eq!(events[0].bytes_in_flight, 1000);

    // Marks are reported once
    assert!(controller.check_congestion_events(1000, now).is_empty());
}

#[test]
fn test_ecn_validation_success() {
    let config = EcnValidationConfig {
        validation_packets: 3,
        min_ecn_packets: 2,
        ..Default::default()
    };

    let mut controller = EcnController::with_config(config);
    let now = start();

    // Start validation
    controller.outgoing_ecn_codepoint(now);
    assert_eq!(controller.validation.state, EcnState::Testing);

    // Send validation packets and receive ECN responses
    for _ in 0..3 {
        controller.validation.on_test_packet_sent(now);
        controller.on_packet_received(EcnCodepoint::Ect0, now);
    }

    // Should be capable now
    assert_eq!(controller.validation.state, EcnState::Capable);
    assert!(controller.is_ecn_capable());
}

#[test]
fn test_ecn_validation_failure() {
    let config = EcnValidationConfig {
        validation_packets: 3,
        min_ecn_packets: 2,
        ..Default::default()
    };

    let mut controller = EcnController::with_config(config);
    let now = start();

    // Start validation
    controller.outgoing_ecn_codepoint(now);

    // Send validation packets but receive no ECN responses
    for _ in 0..3 {
        controller.validation.on_test_packet_sent(now);
        controller.on_packet_received(EcnCodepoint::NotEct, now);
    }

    // Complete validation manually
    controller.validation.complete_validation();

    // Should have failed
    assert_eq!(controller.validation.state, EcnState::Failed);
    assert!(controller.has_validation_failed());
    assert!(!controller.is_ecn_capable());
}

#[test]
fn test_ecn_marking_rate_calculation() {
    let mut controller = EcnController::new();
    let now = start();

    // Process mixed ECN packets
    controller.on_packet_received(EcnCodepoint::Ect0, now);
    controller.on_packet_received(EcnCodepoint::Ect0, now);
    controller.on_packet_received(EcnCodepoint::Ce, now);
    controller.on_packet_received(EcnCodepoint::Ect0, now);

    let stats = controller.stats();
    assert_eq!(stats.counters.total_ect_count, 4);
    assert_eq!(stats.counters.ce_count, 1);
    assert!((ratio(stats.marking_rate) - 0.25).abs() < 0.001);
}

#[test]
fn marking_rates_compare_exactly() {
    assert!(MarkingRate { marked: 3, total: 10 }.exceeds(29));
    assert!(!MarkingRate { marked: 3, total: 10 }.exceeds(30));
    assert!(!MarkingRate { marked: 0, total: 0 }.exceeds(0));
    assert!(!MarkingRate { marked: u64::MAX, total: u64::MAX }.exceeds(u64::MAX));
    assert!(MarkingRate { marked: u64::MAX, total: 1 }.exceeds(u64::MAX));
}

#[test]
fn ecn_validation_times_out() {
    let mut controller = EcnController::new();
    controller.outgoing_ecn_codepoint(start());
    let config = EcnValidationConfig::default();
    let later = start().after(config.validation_timeout).after(Duration::from_millis(1));
    controller.validation.check_validation_complete(later);
    assert_eq!(controller.validation.state, EcnState::Failed);
    assert_eq!(controller.outgoing_ecn_codepoint(later), EcnCodepoint::NotEct);
}

#[test]
fn only_marks_change_the_counts() {
    let mut ecn = EcnController::new();
    ecn.on_packet_received(EcnCodepoint::Ce, start());
    let counters = ecn.counters;
    ecn.on_ack_received(1200, Duration::from_millis(10));
    ecn.on_packet_lost(1200);
    assert_eq!(ecn.counters, counters);
    assert_eq!(ecn.total_marks(), 1);
}

#[test]
fn disabled_controllers_count_nothing() {
    let mut ecn = EcnController::new();
    ecn.counters.ect0_count = u64::MAX;
    ecn.counters.total_ect_count = u64::MAX;
    let counters = ecn.counters;
    ecn.on_packet_received(EcnCodepoint::NotEct, start());
    ecn.set_enabled(false);
    ecn.on_packet_received(EcnCodepoint::Ect0, start());
    assert_eq!(ecn.counters, counters);
}

#[test]
fn only_marks_in_the_window_make_the_rate() {
    let mut ecn = EcnController::new();
    let old = EcnCongestionEvent {
        timestamp: start(),
        ce_count: u64::MAX,
        marking_rate: MarkingRate { marked: 1, total: 2 },
        bytes_in_flight: 0,
    };
    let later = start().after(Duration::from_secs(10));
    ecn.congestion_events.push_back(old);
    ecn.congestion_events.push_back(EcnCongestionEvent { timestamp: later, ce_count: 5, ..old });
    let rate = ecn.recent_congestion_rate(Duration::from_secs(1), later);
    assert_eq!(rate.marked, 5);
}
