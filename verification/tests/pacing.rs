use quic::pacing::{PacingConfig, PacingController, PacingState};
use quic::time::{Duration, Instant};

fn start() -> Instant {
    Instant::from_nanos(1_000_000_000)
}

fn update_rate(pacer: &mut PacingController, new_rate: u64) {
    let clamped = pacer.clamp_rate(new_rate) as f64;
    let smoothed = (pacer.pacing_rate() as f64 * (1.0 - 0.25) + clamped * 0.25) as u64;
    pacer.update_pacing_rate(new_rate, smoothed);
}

#[test]
fn test_pacing_controller_initialization() {
    let config = PacingConfig::default();
    let pacer = PacingController::new(config, start());

    assert_eq!(pacer.state(), PacingState::Active);
    assert_eq!(pacer.pacing_rate(), config.min_pacing_rate);
    assert_eq!(pacer.burst_allowance, config.initial_burst);
}

#[test]
fn test_pacing_rate_update() {
    let config = PacingConfig::default();
    let min_rate = config.min_pacing_rate;
    let mut pacer = PacingController::new(config, start());

    // Update to higher rate
    update_rate(&mut pacer, 1_000_000);

    // Should be smoothed, not immediate
    assert!(pacer.pacing_rate() > min_rate);
    assert!(pacer.pacing_rate() < 1_000_000);
}

#[test]
fn test_pacing_can_send() {
    let config = PacingConfig::default();
    let mut pacer = PacingController::new(config, start());

    // Should be able to send initially: the bucket is full
    assert!(pacer.can_send(96_000.0 >= 1200.0));

    // After burst exhausted, should depend on rate
    pacer.burst_allowance = 0;
    pacer.state = PacingState::Active;

    // With few tokens, large packet might not be sendable immediately
    update_rate(&mut pacer, 1000);
    assert!(!pacer.can_send(500.0 >= 1200.0));
}

#[test]
fn test_pacing_delay_calculation() {
    let config = PacingConfig::default();
    let mut pacer = PacingController::new(config, start());
    let now = start();

    update_rate(&mut pacer, 100_000); // 100KB/sec
    pacer.state = PacingState::Active;

    // Tokens come at the pacing rate
    let token_delay = Duration::from_nanos((1000.0 / pacer.pacing_rate() as f64 * 1e9) as u64);
    let delay = pacer.send_delay(token_delay, now); // 1000 byte packet

    assert!(delay >= Duration::from_millis(8));
    assert!(delay <= Duration::from_millis(15));
}

#[test]
fn test_burst_mode() {
    let config = PacingConfig::default();
    let initial_burst = config.initial_burst;
    let mut pacer = PacingController::new(config, start());
    let now = start();

    // Set app limited
    pacer.set_app_limited(now, 0);
    assert_eq!(pacer.state(), PacingState::AppLimited);

    // Should accumulate burst allowance
    assert!(pacer.burst_allowance >= initial_burst);

    // Enter burst mode
    pacer.enter_burst_mode();
    if pacer.should_enter_burst() {
        assert_eq!(pacer.state(), PacingState::Burst);
    }
}

#[test]
fn test_congestion_event_handling() {
    let config = PacingConfig::default();
    let mut pacer = PacingController::new(config, start());

    let initial_burst = pacer.burst_allowance;
    pacer.on_congestion_event();

    // Should reduce burst allowance
    assert!(pacer.burst_allowance < initial_burst);
    assert!(pacer.burst_allowance >= 1); // Should not go to zero
}

#[test]
fn test_packet_send_tracking() {
    let config = PacingConfig::default();
    let mut pacer = PacingController::new(config, start());
    let now = start();

    let initial_stats = pacer.stats();

    pacer.on_packet_sent(1200, now);

    let updated_stats = pacer.stats();
    assert_eq!(updated_stats.packets_sent, initial_stats.packets_sent + 1);
    assert_eq!(updated_stats.bytes_sent, initial_stats.bytes_sent + 1200);
}

#[test]
fn test_rate_clamping() {
    let config =
        PacingConfig { min_pacing_rate: 1000, max_pacing_rate: 10000, ..Default::default() };
    let mut pacer = PacingController::new(config, start());

    // Test below minimum
    update_rate(&mut pacer, 500);
    assert!(pacer.pacing_rate() >= config.min_pacing_rate);

    // Test above maximum
    update_rate(&mut pacer, 50000);
    // Should be clamped gradually due to smoothing
    assert!(pacer.target_pacing_rate == config.max_pacing_rate);
}

#[test]
fn test_app_limited_state() {
    let config = PacingConfig::default();
    let mut pacer = PacingController::new(config, start());
    let now = start();

    pacer.set_app_limited(now, 0);
    assert_eq!(pacer.state(), PacingState::AppLimited);

    // Should allow immediate sending when app limited
    assert!(pacer.can_send(false));
    assert_eq!(pacer.send_delay(Duration::from_secs(1), now), Duration::from_nanos(0));

    // Sending should clear app limited state
    pacer.on_packet_sent(1200, now);
    assert_eq!(pacer.state(), PacingState::Active);
}

#[test]
fn packets_keep_a_minimum_interval() {
    let mut pacer = PacingController::new(PacingConfig::default(), start());
    pacer.on_packet_sent(1200, start());
    let soon = start().after(Duration::from_micros(30));
    assert_eq!(pacer.send_delay(Duration::from_nanos(0), soon), Duration::from_micros(70));
    assert_eq!(pacer.send_delay(Duration::from_millis(2), soon), Duration::from_millis(2));
}

#[test]
fn disabled_pacing_lets_everything_through() {
    let mut pacer = PacingController::new(PacingConfig::default(), start());
    pacer.set_enabled(false);
    assert!(!pacer.is_enabled());
    assert!(pacer.can_send(false));
    pacer.set_enabled(true);
    assert!(!pacer.can_send(false));
}

#[test]
fn losses_slow_the_pace() {
    let mut pacer = PacingController::new(PacingConfig::default(), start());
    update_rate(&mut pacer, 4_000_000);
    let rate = pacer.pacing_rate();
    assert_eq!(rate, 1_048_000);

    // A tenth less is asked for, and the rate moves a quarter of the way there.
    pacer.on_packet_lost(1200, 943_200, 1_021_800);
    assert_eq!(pacer.target_pacing_rate, 943_200);
    assert_eq!(pacer.pacing_rate(), 1_021_800);

    // The minimum stays.
    pacer.on_packet_lost(1200, 10, 900_000);
    assert_eq!(pacer.target_pacing_rate, 64_000);
    assert_eq!(pacer.pacing_rate(), 900_000);

    // An eighth of a new round trip time counts.
    pacer.on_ack_received(1200, Duration::from_millis(70));
    assert_eq!(pacer.smoothed_rtt, Duration::from_nanos(96_250_000));
    pacer.update_rtt(Duration::from_nanos(1));
    assert_eq!(pacer.smoothed_rtt, Duration::from_nanos(84_218_750));
}

#[test]
fn round_trip_averages_are_those_of_doubles() {
    let longest = Duration::from_secs(u64::MAX);
    let samples = [0, 1, 3, 99_999_999, (1 << 53) + 1, (1 << 60) + 77, u64::MAX];
    for old in samples {
        for sample in samples {
            let mut pacer = PacingController::new(PacingConfig::default(), start());
            pacer.smoothed_rtt = Duration::from_nanos(old);
            pacer.update_rtt(Duration::from_nanos(sample));
            let mean = (old as f64 * 0.875 + sample as f64 * 0.125) as u64;
            assert_eq!(pacer.smoothed_rtt, Duration::from_nanos(mean));
        }
        let mut pacer = PacingController::new(PacingConfig::default(), start());
        pacer.smoothed_rtt = Duration::from_nanos(old);
        pacer.update_rtt(longest);
        let mean = (old as f64 * 0.875 + longest.nanos as f64 * 0.125) as u64;
        assert_eq!(pacer.smoothed_rtt, Duration::from_nanos(mean));
    }
}

#[test]
fn delays_are_averaged_over_the_lower_half_of_their_number() {
    let mut pacer = PacingController::new(PacingConfig::default(), start());
    assert_eq!(pacer.stats().average_delay, Duration::from_nanos(0));
    pacer.total_delay = Duration::from_nanos(10);
    pacer.packets_delayed = 4;
    assert_eq!(pacer.stats().average_delay, Duration::from_nanos(2));
    pacer.packets_delayed = (1 << 32) + 5;
    assert_eq!(pacer.stats().average_delay, Duration::from_nanos(2));
}
