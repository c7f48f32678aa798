use quic::cubic::{CubicConfig, CubicController, CubicInput, CubicState, DecreasedWindow};
use quic::time::{Duration, Instant};

const BETA: f64 = 0.7;

fn start() -> Instant {
    Instant::from_nanos(1_000_000_000)
}

fn seconds(d: Duration) -> f64 {
    d.nanos as f64 / 1e9
}

fn curve(input: CubicInput) -> u32 {
    let w_max = input.w_max as f64;
    let t = seconds(input.elapsed);
    let k = (w_max * (1.0 - BETA) / 0.4).cbrt();
    let cubic = (0.4 * (t - k).powi(3) + w_max).max(input.min_cwnd as f64);
    let rtt = seconds(input.srtt);
    let tcp = w_max * BETA
        + if rtt > 0.0 { 3.0 * (1.0 - BETA) / (1.0 + BETA) * t / rtt } else { 0.0 };
    if input.tcp_friendliness && cubic < tcp {
        tcp as u32
    } else {
        cubic as u32
    }
}

fn on_ack(cubic: &mut CubicController, bytes: u64, rtt: Duration, now: Instant) {
    if let Some(input) = cubic.on_ack(bytes, rtt, now) {
        cubic.update_cwnd_toward_target(curve(input));
    }
}

fn on_loss(cubic: &mut CubicController, now: Instant) {
    let cwnd = cubic.cwnd as f64;
    cubic.on_loss(
        DecreasedWindow {
            fast_convergence: (cwnd * (1.0 + BETA) / 2.0) as u32,
            normal: (cwnd * BETA) as u32,
        },
        now,
    );
}

#[test]
fn cubic_test_cubic_initialization() {
    let cubic = CubicController::new(1200, start());
    assert_eq!(cubic.state(), CubicState::SlowStart);
    assert!(cubic.cwnd >= 2);
    assert_eq!(cubic.mss, 1200);
}

#[test]
fn test_cubic_slow_start() {
    let mut cubic = CubicController::new(1200, start());
    let now = start();

    // Initial window should be small
    let initial_cwnd = cubic.cwnd;

    // ACK 1200 bytes (1 packet)
    on_ack(&mut cubic, 1200, Duration::from_millis(50), now);

    // In slow start, cwnd should increase by 1 packet per ACK
    assert_eq!(cubic.cwnd, initial_cwnd + 1);
    assert_eq!(cubic.state(), CubicState::SlowStart);
}

#[test]
fn test_cubic_congestion_avoidance() {
    let mut cubic = CubicController::new(1200, start());
    let now = start();

    // Force into congestion avoidance - start with a smaller window than cwnd_last_max
    cubic.cwnd = 50;
    cubic.ssthresh = 50;
    cubic.cwnd_last_max = 100; // Previous maximum before reduction
    cubic.state = CubicState::CongestionAvoidance;
    cubic.epoch_start = Some(now);

    let initial_cwnd = cubic.cwnd;

    // ACK processing in congestion avoidance with some time elapsed
    let later = now.after(Duration::from_millis(100));
    on_ack(&mut cubic, 1200, Duration::from_millis(50), later);

    // Window should increase more gradually than slow start
    assert!(cubic.cwnd >= initial_cwnd);
}

#[test]
fn test_cubic_loss_handling() {
    let mut cubic = CubicController::new(1200, start());
    let now = start();

    cubic.cwnd = 100;
    cubic.state = CubicState::CongestionAvoidance;
    let initial_cwnd = cubic.cwnd;

    // Simulate packet loss
    on_loss(&mut cubic, now);

    // Should enter fast recovery and reduce window
    assert_eq!(cubic.state(), CubicState::FastRecovery);
    assert!(cubic.cwnd < initial_cwnd);
    assert!(cubic.cwnd as f64 <= initial_cwnd as f64 * BETA + 1.0);
}

#[test]
fn test_cubic_fast_convergence() {
    let mut cubic = CubicController::new(1200, start());
    let now = start();

    // Set up for fast convergence scenario
    cubic.cwnd = 80;
    cubic.cwnd_last_max = 100;
    cubic.state = CubicState::CongestionAvoidance;

    let initial_cwnd = cubic.cwnd;

    // Trigger loss (should activate fast convergence)
    on_loss(&mut cubic, now);

    // Fast convergence should be active
    assert!(cubic.fast_convergence_active);
    assert!(cubic.cwnd < initial_cwnd);
}

#[test]
fn test_cubic_hystart_config() {
    let config = CubicConfig { hystart_enabled: false, ..Default::default() };

    let cubic = CubicController::with_config(1200, config, start());
    assert!(!cubic.hystart.enabled);
}

#[test]
fn test_cubic_window_calculation() {
    let cubic = CubicController::new(1200, start());
    let window_bytes = cubic.congestion_window();

    // Window should be cwnd * mss
    assert_eq!(window_bytes, cubic.cwnd as u64 * 1200);
}

#[test]
fn test_cubic_can_send() {
    let cubic = CubicController::new(1200, start());
    let window = cubic.congestion_window();

    assert!(cubic.can_send(0));
    assert!(cubic.can_send(window / 2));
    assert!(!cubic.can_send(window));
    assert!(!cubic.can_send(window + 1));
}

#[test]
fn test_cubic_persistent_congestion() {
    let mut cubic = CubicController::new(1200, start());
    let now = start();

    cubic.cwnd = 100;
    cubic.ssthresh = 50;

    cubic.on_persistent_congestion(now);

    // Should reset to minimum values
    assert_eq!(cubic.cwnd, cubic.config.min_cwnd);
    assert_eq!(cubic.state(), CubicState::SlowStart);
}

#[test]
fn cubic_losses_in_recovery_count_once() {
    let mut cubic = CubicController::new(1200, start());
    cubic.cwnd = 100;
    cubic.state = CubicState::CongestionAvoidance;
    on_loss(&mut cubic, start());
    assert_eq!(cubic.cwnd, 70);
    assert_eq!(cubic.ssthresh, 70);
    assert_eq!(cubic.cwnd_last_max, 100);
    on_loss(&mut cubic, start());
    assert_eq!(cubic.cwnd, 70);
    cubic.exit_fast_recovery(start());
    assert_eq!(cubic.state(), CubicState::CongestionAvoidance);
}

#[test]
fn cubic_window_keeps_its_floor() {
    let mut cubic = CubicController::new(1200, start());
    cubic.cwnd = 2;
    cubic.state = CubicState::CongestionAvoidance;
    on_loss(&mut cubic, start());
    assert_eq!(cubic.cwnd, 2);
    cubic.update_cwnd_toward_target(0);
    assert_eq!(cubic.cwnd, 2);
}

#[test]
fn room_is_asked_for_by_phase() {
    let now = start();
    let rtt = Duration::from_millis(50);
    let mut cubic = CubicController::new(1200, now);
    cubic.cwnd = u32::MAX - 1;
    assert!(cubic.has_room(1200, rtt, now));
    assert!(!cubic.has_room(2401, rtt, now));
    cubic.state = CubicState::CongestionAvoidance;
    cubic.mss = 0;
    assert!(cubic.has_room(2401, rtt, now));
    assert!(cubic.on_ack(2401, rtt, now).is_some());
    cubic.state = CubicState::FastRecovery;
    assert!(!cubic.has_room(2401, rtt, now));
    cubic.mss = 1200;
    assert!(cubic.has_room(1200, rtt, now));
    assert!(!cubic.has_room(2400, rtt, now));
    cubic.acked_bytes_this_round = u64::MAX;
    assert!(!cubic.has_room(1, rtt, now));
}
