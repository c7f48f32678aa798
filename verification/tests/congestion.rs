use quic::congestion::{AckStep, CongestionAlgorithm, CongestionController, CongestionState};
use quic::cubic::DecreasedWindow;
use quic::error::Error;
use quic::time::{Duration, Instant};

fn start() -> Instant {
    Instant::from_nanos(1_000_000_000)
}

fn unused() -> DecreasedWindow {
    DecreasedWindow { fast_convergence: 0, normal: 0 }
}

#[test]
fn test_initial_congestion_window() {
    let controller = CongestionController::new(start());
    let window = controller.congestion_window();
    assert!(window >= 2 * 1200); // At least 2 packets
    assert!(window <= 10 * 1200); // At most 10 packets for default MTU
}

#[test]
fn test_congestion_algorithm_selection() {
    let newreno = CongestionController::with_algorithm(CongestionAlgorithm::NewReno, start());
    assert_eq!(newreno.algorithm(), CongestionAlgorithm::NewReno);

    let bbr = CongestionController::with_algorithm(CongestionAlgorithm::BBR, start());
    assert_eq!(bbr.algorithm(), CongestionAlgorithm::BBR);

    let cubic = CongestionController::with_algorithm(CongestionAlgorithm::CUBIC, start());
    assert_eq!(cubic.algorithm(), CongestionAlgorithm::CUBIC);
}

#[test]
fn test_newreno_slow_start() {
    let mut controller =
        CongestionController::with_algorithm(CongestionAlgorithm::NewReno, start());
    let initial_cwnd = controller.congestion_window();

    // Acknowledge some packets (should increase window in slow start)
    let _ = controller.on_ack_received_with_rtt(&[(1, 10)], Duration::from_millis(50), start());

    // In slow start, window should increase
    assert!(controller.congestion_window() >= initial_cwnd);
    assert_eq!(controller.congestion_window(), initial_cwnd + 12000);
}

#[test]
fn test_newreno_loss_recovery() {
    let mut controller =
        CongestionController::with_algorithm(CongestionAlgorithm::NewReno, start());
    let initial_cwnd = controller.congestion_window();

    // Simulate packet loss
    let _ = controller.on_packet_lost(1200, unused(), start());

    // Window should decrease and enter recovery
    assert!(controller.congestion_window() < initial_cwnd);
    assert!(controller.in_recovery());
}

#[test]
fn congestion_test_bbr_initialization() {
    let controller = CongestionController::with_algorithm(CongestionAlgorithm::BBR, start());
    let stats = controller.stats(0);

    assert_eq!(stats.algorithm, CongestionAlgorithm::BBR);
    assert!(stats.congestion_window > 0);
}

#[test]
fn congestion_test_cubic_initialization() {
    let controller = CongestionController::with_algorithm(CongestionAlgorithm::CUBIC, start());
    let stats = controller.stats(0);

    assert_eq!(stats.algorithm, CongestionAlgorithm::CUBIC);
    assert!(stats.congestion_window > 0);
}

#[test]
fn test_pacing_integration() {
    let mut controller = CongestionController::new(start());

    // Test basic pacing functionality
    assert!(controller.can_send_packet(true)); // Should be able to send initially

    let delay = controller.packet_send_delay(Duration::from_nanos(0), start());
    // Delay should be reasonable (could be zero for initial burst)
    assert!(delay <= Duration::from_millis(100));

    // Record packet send
    controller.on_packet_sent(1200, start());

    // Should have valid pacing rate
    assert!(controller.pacing_stats().pacing_rate > 0);
    assert_eq!(controller.pacing_stats().packets_sent, 1);
}

#[test]
fn test_pacing_rate_updates() {
    let mut controller = CongestionController::new(start());

    // Update RTT which should affect pacing rate
    controller.update_pacing_rtt(Duration::from_millis(50));

    // Rate should be updated
    assert!(controller.pacing_stats().pacing_rate > 0);
    assert_eq!(controller.pacing_controller.smoothed_rtt, Duration::from_nanos(93_750_000));
}

#[test]
fn test_bbrv2_stats() {
    let controller = CongestionController::with_algorithm(CongestionAlgorithm::BBRv2, start());
    let stats = controller.stats(0);

    assert_eq!(stats.algorithm, CongestionAlgorithm::BBRv2);
    assert!(stats.congestion_window > 0);
    assert!(!stats.in_recovery); // BBR doesn't have traditional recovery
}

#[test]
fn newreno_halves_the_window_once() {
    let mut controller = CongestionController::new(start());
    assert_eq!(controller.congestion_window(), 12000);
    controller.on_packet_lost(1200, unused(), start()).unwrap();
    assert_eq!(controller.congestion_window(), 6000);
    assert_eq!(controller.ssthresh(), 6000);
    controller.on_packet_lost(1200, unused(), start()).unwrap();
    assert_eq!(controller.congestion_window(), 6000);
    assert_eq!(controller.stats(0).newreno_state, Some(CongestionState::Recovery));
    let later = start().after(Duration::from_millis(101));
    controller.update(later);
    assert_eq!(controller.stats(0).newreno_state, Some(CongestionState::CongestionAvoidance));
}

#[test]
fn steps_are_named_by_algorithm() {
    let ranges = [(1u64, 2u64)];
    let rtt = Duration::from_millis(50);
    let mut bbr = CongestionController::with_algorithm(CongestionAlgorithm::BBR, start());
    assert!(matches!(
        bbr.on_ack_received_with_rtt(&ranges, rtt, start()),
        Ok(AckStep::ScaleBbrWindow)
    ));
    let mut v2 = CongestionController::with_algorithm(CongestionAlgorithm::BBRv2, start());
    assert!(matches!(
        v2.on_ack_received_with_rtt(&ranges, rtt, start()),
        Ok(AckStep::ScaleBbrV2Window)
    ));
    v2.bbr_controller = None;
    let refused: Result<AckStep, Error> = v2.on_ack_received_with_rtt(&ranges, rtt, start());
    assert!(refused.is_err());
    let mut cubic = CongestionController::with_algorithm(CongestionAlgorithm::CUBIC, start());
    assert!(matches!(cubic.on_ack_received_with_rtt(&ranges, rtt, start()), Ok(AckStep::Done)));
}
