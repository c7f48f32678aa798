use quic::bbr::{BBRConfig, BBRController, BBRProducts, BBRState, PacingGain};
use quic::time::{Duration, Instant};

const STARTUP_GAIN: f64 = 2.77;

fn start() -> Instant {
    Instant::from_nanos(20_000_000_000)
}

fn gain(g: PacingGain) -> f64 {
    gain_from(STARTUP_GAIN, g)
}

fn gain_from(startup_gain: f64, g: PacingGain) -> f64 {
    match g {
        PacingGain::Startup => startup_gain,
        PacingGain::Drain => 1.0 / startup_gain,
        PacingGain::ProbeBw(0) => 1.25,
        PacingGain::ProbeBw(1) => 0.75,
        PacingGain::ProbeBw(_) => 1.0,
        PacingGain::Neutral => 1.0,
    }
}

fn product(bbr: &BBRController) -> u64 {
    let rtt_secs = bbr.min_rtt().as_micros() as f64 / 1_000_000.0;
    bbr.bandwidth_delay_product((bbr.bottleneck_bandwidth() as f64 * rtt_secs) as u64)
}

fn on_ack(bbr: &mut BBRController, bytes: u64, rtt: Duration, now: Instant) {
    bbr.on_ack(bytes, rtt, now);
    let bdp = product(bbr);
    let products = BBRProducts {
        growth_threshold: (bbr.bottleneck_bandwidth() as f64 * 1.25) as u64,
        bdp,
        target_cwnd: (bdp as f64 * 2.0) as u64,
    };
    bbr.after_ack(products, now);
}

#[test]
fn bbr_test_bbr_initialization() {
    let bbr = BBRController::new(1200, start());
    assert_eq!(bbr.state(), BBRState::Startup);
    assert!(bbr.congestion_window() >= 4 * 1200); // At least min cwnd
    assert_eq!(gain(bbr.pacing_gain), 2.77); // Startup gain
}

#[test]
fn test_bbr_bandwidth_measurement() {
    let mut bbr = BBRController::new(1200, start());
    let now = start();

    // Send ACK with RTT measurement
    on_ack(&mut bbr, 12000, Duration::from_millis(50), now);

    // Should have measured bandwidth
    assert!(bbr.bottleneck_bandwidth() > 0);
    assert_eq!(bbr.min_rtt(), Duration::from_millis(50));
    assert_eq!(bbr.bottleneck_bandwidth(), 240_000);
}

#[test]
fn test_bbr_state_transitions() {
    let mut bbr = BBRController::new(1200, start());
    let now = start();

    // Start in startup
    assert_eq!(bbr.state(), BBRState::Startup);

    // Force full bandwidth detection
    bbr.full_bandwidth_reached = true;
    let bdp = product(&bbr);
    bbr.update_state(bdp, now);
    assert_eq!(bbr.state(), BBRState::Drain);
}

#[test]
fn test_bbr_congestion_window_update() {
    let mut bbr = BBRController::new(1200, start());
    let initial_cwnd = bbr.congestion_window();

    // Add bandwidth sample
    let now = start();
    on_ack(&mut bbr, 12000, Duration::from_millis(100), now);

    // Window should be updated based on BDP
    let bdp = product(&bbr);
    assert!(bdp > 0);
    assert_eq!(bdp, 12000);

    let final_cwnd = bbr.congestion_window();
    assert_eq!(bbr.target_congestion_window(), 24000);
    assert_eq!(final_cwnd, initial_cwnd + 4 * 1200);
}

#[test]
fn test_bbr_loss_handling() {
    let mut bbr = BBRController::new(1200, start());
    let now = start();

    // BBR should be less reactive to individual losses
    let initial_cwnd = bbr.congestion_window();
    bbr.on_loss(1200, now);
    assert_eq!(bbr.congestion_window(), initial_cwnd);
    assert_eq!(bbr.state(), BBRState::Startup);

    // In startup, significant loss may trigger drain
    bbr.on_loss(2400, now);
    if matches!(bbr.state(), BBRState::Drain) {
        assert_ne!(gain(bbr.pacing_gain), 2.77); // Should not be startup gain
    }
    assert_eq!(bbr.state(), BBRState::Drain);
}

#[test]
fn test_bbr_pacing_rate() {
    let mut bbr = BBRController::new(1200, start());
    let now = start();

    // Add some bandwidth measurement
    on_ack(&mut bbr, 12000, Duration::from_millis(100), now);

    let bandwidth = bbr.bottleneck_bandwidth();
    assert_eq!(bandwidth, 120_000);
    let expected = (bandwidth as f64 * gain(bbr.pacing_gain)) as u64;
    assert_eq!(expected, 332_400);
}

#[test]
fn test_bbr_send_window() {
    let bbr = BBRController::new(1200, start());
    let cwnd = bbr.congestion_window();

    assert!(bbr.can_send(0));
    assert!(bbr.can_send(cwnd / 2));
    assert!(!bbr.can_send(cwnd));

    assert_eq!(bbr.send_window(0), cwnd);
    assert_eq!(bbr.send_window(cwnd / 2), cwnd / 2);
    assert_eq!(bbr.send_window(cwnd), 0);
}

#[test]
fn test_bbr_custom_config() {
    let config = BBRConfig { min_cwnd_packets: 8, ..Default::default() };

    let bbr = BBRController::with_config(1200, config, start());
    assert!(bbr.congestion_window() >= 8 * 1200);
    assert_eq!(gain_from(3.0, bbr.pacing_gain), 3.0);
}

#[test]
fn bbr_restarts_after_persistent_congestion() {
    let mut bbr = BBRController::new(1200, start());
    on_ack(&mut bbr, 12000, Duration::from_millis(50), start());
    bbr.on_loss(2400, start());
    bbr.on_persistent_congestion(start());
    assert_eq!(bbr.state(), BBRState::Startup);
    assert_eq!(bbr.bottleneck_bandwidth(), 0);
    assert_eq!(bbr.congestion_window(), 14720);
}

#[test]
fn bbr_bandwidth_is_the_largest_in_the_window() {
    let mut bbr = BBRController::new(1200, start());
    on_ack(&mut bbr, 12000, Duration::from_millis(50), start());
    on_ack(&mut bbr, 1200, Duration::from_millis(50), start());
    assert_eq!(bbr.bottleneck_bandwidth(), 240_000);
    let later = start().after(Duration::from_secs(60));
    on_ack(&mut bbr, 1200, Duration::from_millis(50), later);
    assert_eq!(bbr.bottleneck_bandwidth(), 24_000);
}

#[test]
fn bbr_counters_need_room_only_where_they_move() {
    let mut bbr = BBRController::new(1200, start());
    let products = BBRProducts { growth_threshold: 0, bdp: 0, target_cwnd: 0 };
    bbr.cycle_index = usize::MAX;
    bbr.full_bandwidth_count = usize::MAX;
    assert!(bbr.can_advance(products, start()));
    bbr.after_ack(products, start());
    assert_eq!(bbr.state(), BBRState::Startup);
    bbr.state = BBRState::ProbeBW;
    let later = start().after(Duration::from_secs(1000));
    assert!(!bbr.can_advance(products, later));
    bbr.cycle_index = 0;
    assert!(bbr.can_advance(products, later));
}
