//! CUBIC congestion control (RFC 8312).
//!
//! The controller keeps the window, the phases and the hybrid slow start. The cubic curve
//! and the decrease factors are real-valued: the caller computes the window that they give,
//! and the controller moves toward it.

use crate::ecn::EcnCongestionEvent;
use crate::time::{max_int, min_int, Duration, Instant, LONGEST};
use vstd::prelude::*;

verus! {

/// CUBIC configuration parameters
#[derive(Debug, Clone, Copy, PartialEq, Eq, Structural)]
pub struct CubicConfig {
    /// TCP-friendly mode
    pub tcp_friendliness: bool,
    /// Fast convergence enabled
    pub fast_convergence: bool,
    /// HyStart enabled (Hybrid Slow Start)
    pub hystart_enabled: bool,
    /// HyStart ACK train threshold
    pub hystart_ack_train: Duration,
    /// HyStart delay increase threshold
    pub hystart_delay_min: Duration,
    /// HyStart round counter threshold
    pub hystart_round_thresh: u32,
    /// Minimum congestion window
    pub min_cwnd: u32,
    /// Initial slow start threshold
    pub initial_ssthresh: u32,
}

impl CubicConfig {
    /// The configuration that is used where none is given.
    pub open spec fn standard() -> CubicConfig {
        CubicConfig {
            tcp_friendliness: true,
            fast_convergence: true,
            hystart_enabled: true,
            hystart_ack_train: Duration { nanos: 2_000_000 },
            hystart_delay_min: Duration { nanos: 4_000_000 },
            hystart_round_thresh: 8,
            min_cwnd: 2,
            initial_ssthresh: 0x7fff_ffff,
        }
    }
}

impl Default for CubicConfig {
    fn default() -> (r: CubicConfig)
        ensures
            r == Self::standard(),
    {
        CubicConfig {
            tcp_friendliness: true,
            fast_convergence: true,
            hystart_enabled: true,
            hystart_ack_train: Duration::from_micros(2000),
            hystart_delay_min: Duration::from_micros(4000),
            hystart_round_thresh: 8,
            min_cwnd: 2,
            initial_ssthresh: u32::MAX / 2,
        }
    }
}

/// CUBIC congestion control state
#[derive(Debug, Clone, Copy, PartialEq, Eq, Structural)]
pub enum CubicState {
    /// Slow start phase
    SlowStart,
    /// Congestion avoidance phase
    CongestionAvoidance,
    /// Fast recovery phase
    FastRecovery,
    /// HyStart delay increase phase
    HyStartDelayIncrease,
}

/// HyStart (Hybrid Slow Start) state
#[derive(Debug, Clone, Copy, PartialEq, Eq, Structural)]
pub struct HyStart {
    /// Enabled flag
    pub enabled: bool,
    /// Round counter
    pub round_counter: u32,
    /// Minimum RTT in current round
    pub curr_round_min_rtt: Duration,
    /// Last round's minimum RTT
    pub last_round_min_rtt: Duration,
    /// ACK train start time
    pub ack_train_start: Option<Instant>,
    /// Round start time
    pub round_start: Instant,
    /// Found exit point
    pub found_exit: bool,
}

impl HyStart {
    /// The state in which slow start begins.
    pub open spec fn fresh(enabled: bool, now: Instant) -> HyStart {
        HyStart {
            enabled,
            round_counter: 0,
            curr_round_min_rtt: Duration { nanos: LONGEST },
            last_round_min_rtt: Duration { nanos: LONGEST },
            ack_train_start: None,
            round_start: now,
            found_exit: false,
        }
    }

    /// The state in which slow start begins
    pub fn new(enabled: bool, now: Instant) -> (r: HyStart)
        ensures
            r == Self::fresh(enabled, now),
    {
        HyStart {
            enabled,
            round_counter: 0,
            curr_round_min_rtt: Duration::longest(),
            last_round_min_rtt: Duration::longest(),
            ack_train_start: None,
            round_start: now,
            found_exit: false,
        }
    }

    /// Back to the state in which slow start begins
    pub fn reset(&mut self, now: Instant)
        ensures
            *final(self) == Self::fresh(old(self).enabled, now),
    {
        *self = Self::new(self.enabled, now);
    }

    /// The state with a sample in the minimum of the round.
    pub open spec fn sampled(self, rtt: Duration) -> HyStart {
        HyStart {
            curr_round_min_rtt: Duration {
                nanos: min_int(rtt.nanos as int, self.curr_round_min_rtt.nanos as int) as u128,
            },
            ..self
        }
    }

    /// Whether ACKs have come in one train for long enough.
    pub open spec fn train_ends(self, config: CubicConfig, now: Instant) -> bool {
        self.ack_train_start matches Some(t) && max_int(now.nanos - t.nanos, 0)
            >= config.hystart_ack_train.nanos
    }

    /// Whether the round-trip time has grown enough since the last round.
    pub open spec fn delay_grew(self, config: CubicConfig) -> bool {
        &&& self.round_counter >= config.hystart_round_thresh
        &&& self.last_round_min_rtt.nanos != LONGEST
        &&& max_int(self.curr_round_min_rtt.nanos - self.last_round_min_rtt.nanos, 0)
            >= config.hystart_delay_min.nanos
    }

    /// Whether an ACK shows that slow start should end.
    pub open spec fn exits(self, config: CubicConfig, rtt: Duration, now: Instant) -> bool {
        self.enabled && !self.found_exit && (self.train_ends(config, now) || self.sampled(
            rtt,
        ).delay_grew(config))
    }

    /// The state after an ACK.
    pub open spec fn after_ack(self, config: CubicConfig, rtt: Duration, now: Instant) -> HyStart {
        if !self.enabled || self.found_exit {
            self
        } else {
            HyStart {
                ack_train_start: if self.ack_train_start is None {
                    Some(now)
                } else {
                    self.ack_train_start
                },
                found_exit: self.exits(config, rtt, now),
                ..self.sampled(rtt)
            }
        }
    }
}

/// CUBIC congestion controller
#[derive(Debug, Clone, Copy, PartialEq, Eq, Structural)]
pub struct CubicController {
    /// Configuration
    pub config: CubicConfig,
    /// Current state
    pub state: CubicState,
    /// Current congestion window (in packets)
    pub cwnd: u32,
    /// Slow start threshold
    pub ssthresh: u32,
    /// Congestion window before last reduction
    pub cwnd_last_max: u32,
    /// Time when last reduction occurred
    pub epoch_start: Option<Instant>,
    /// Maximum segment size
    pub mss: u32,
    /// HyStart state
    pub hystart: HyStart,
    /// ACK count
    pub ack_count: u32,
    /// Round counter
    pub round_count: u32,
    /// Bytes acknowledged this round
    pub acked_bytes_this_round: u64,
    /// Start time of current round
    pub round_start_time: Instant,
    /// Last RTT measurement
    pub last_rtt: Duration,
    /// Minimum RTT seen
    pub min_rtt: Duration,
    /// Maximum RTT seen
    pub max_rtt: Duration,
    /// RTT variance
    pub rtt_var: Duration,
    /// Smoothed RTT
    pub srtt: Duration,
    /// Fast convergence active
    pub fast_convergence_active: bool,
    /// Bytes in flight
    pub bytes_in_flight: u64,
}

/// What the cubic curve is evaluated at.
#[derive(Debug, Clone, Copy, PartialEq, Eq, Structural)]
pub struct CubicInput {
    /// Time since the last reduction
    pub elapsed: Duration,
    /// Window before the last reduction
    pub w_max: u32,
    /// Smoothed RTT
    pub srtt: Duration,
    /// Lower bound of the window
    pub min_cwnd: u32,
    /// Whether the window is not to be smaller than that of a TCP flow
    pub tcp_friendliness: bool,
}

/// The current window under the decrease factors.
#[derive(Debug, Clone, Copy, PartialEq, Eq, Structural)]
pub struct DecreasedWindow {
    /// For fast convergence
    pub fast_convergence: u32,
    /// Else
    pub normal: u32,
}

/// How far a window is decreased after ECN marks.
#[derive(Debug, Clone, Copy, PartialEq, Eq, Structural)]
pub enum EcnDecrease {
    /// To 0.5, at a high marking rate
    High,
    /// To 0.7, at a medium marking rate
    Medium,
    /// To 0.8, at a low marking rate
    Low,
}

/// CUBIC statistics
#[derive(Debug, Clone, Copy, PartialEq, Eq, Structural)]
pub struct CubicStats {
    /// Current state
    pub state: CubicState,
    /// Current congestion window (packets)
    pub cwnd: u32,
    /// Slow start threshold
    pub ssthresh: u32,
    /// Last maximum congestion window
    pub cwnd_last_max: u32,
    /// Minimum RTT observed
    pub min_rtt: Duration,
    /// Smoothed RTT
    pub srtt: Duration,
    /// Round counter
    pub round_count: u32,
    /// HyStart enabled
    pub hystart_enabled: bool,
    /// Fast convergence active
    pub fast_convergence_active: bool,
}

/// The distance of two numbers.
pub open spec fn distance(a: int, b: int) -> int {
    if a >= b {
        a - b
    } else {
        b - a
    }
}

/// A weighted mean of two numbers
fn weighted_mean(a: u128, weight: u128, b: u128) -> (r: u128)
    requires
        weight <= 7,
    ensures
        r == (a * weight + b) / (weight + 1),
{
    let parts: u128 = weight + 1;
    let (q, m): (u128, u128) = (a / parts, a % parts);
    let (p, n): (u128, u128) = (b / parts, b % parts);
    proof {
        let d = parts as int;
        let w = weight as int;
        vstd::arithmetic::div_mod::lemma_fundamental_div_mod(a as int, d);
        vstd::arithmetic::div_mod::lemma_fundamental_div_mod(b as int, d);
        let rest = m * w + n;
        assert(0 <= m * w <= 49) by (nonlinear_arith)
            requires
                0 <= m <= w <= 7,
        ;
        assert(a * weight + b == rest + (q * w + p) * d) by (nonlinear_arith)
            requires
                a == d * q + m,
                b == d * p + n,
                w == weight,
                rest == m * w + n,
        ;
        vstd::arithmetic::div_mod::lemma_hoist_over_denominator(rest, q * w + p, d as nat);
        assert(0 <= q * w) by (nonlinear_arith)
            requires
                0 <= q,
                0 <= w,
        ;
        assert((a * weight + b) / d <= u128::MAX) by {
            assert(a * weight + b <= u128::MAX * d) by (nonlinear_arith)
                requires
                    0 <= a <= u128::MAX,
                    0 <= b <= u128::MAX,
                    0 <= weight == d - 1,
            ;
            vstd::arithmetic::div_mod::lemma_div_is_ordered(a * weight + b, u128::MAX * d, d);
            vstd::arithmetic::div_mod::lemma_div_multiples_vanish(u128::MAX as int, d);
            assert(u128::MAX * d == d * u128::MAX) by (nonlinear_arith);
        }
    }
    q * weight + p + (m * weight + n) / parts
}

impl CubicController {
    /// A controller to which nothing has happened.
    pub open spec fn fresh(mss: u32, config: CubicConfig, now: Instant) -> CubicController {
        CubicController {
            config,
            state: CubicState::SlowStart,
            cwnd: 10,
            ssthresh: CubicConfig::standard().initial_ssthresh,
            cwnd_last_max: 10,
            epoch_start: None,
            mss,
            hystart: HyStart::fresh(config.hystart_enabled, now),
            ack_count: 0,
            round_count: 0,
            acked_bytes_this_round: 0,
            round_start_time: now,
            last_rtt: Duration { nanos: 100_000_000 },
            min_rtt: Duration { nanos: LONGEST },
            max_rtt: Duration { nanos: 0 },
            rtt_var: Duration { nanos: 0 },
            srtt: Duration { nanos: 100_000_000 },
            fast_convergence_active: false,
            bytes_in_flight: 0,
        }
    }

    /// Create a new CUBIC controller
    pub fn new(mss: u32, now: Instant) -> (r: CubicController)
        ensures
            r == Self::fresh(mss, CubicConfig::standard(), now),
    {
        let config: CubicConfig = CubicConfig::default();
        CubicController {
            config,
            state: CubicState::SlowStart,
            cwnd: 10,
            ssthresh: config.initial_ssthresh,
            cwnd_last_max: 10,
            epoch_start: None,
            mss,
            hystart: HyStart::new(config.hystart_enabled, now),
            ack_count: 0,
            round_count: 0,
            acked_bytes_this_round: 0,
            round_start_time: now,
            last_rtt: Duration::from_millis(100),
            min_rtt: Duration::longest(),
            max_rtt: Duration::from_nanos(0),
            rtt_var: Duration::from_nanos(0),
            srtt: Duration::from_millis(100),
            fast_convergence_active: false,
            bytes_in_flight: 0,
        }
    }

    /// Create CUBIC controller with custom configuration
    pub fn with_config(mss: u32, config: CubicConfig, now: Instant) -> (r: CubicController)
        ensures
            r == Self::fresh(mss, config, now),
    {
        let mut controller: CubicController = Self::new(mss, now);
        controller.hystart.enabled = config.hystart_enabled;
        controller.config = config;
        controller
    }

    /// The controller with an RTT sample.
    pub open spec fn with_rtt(self, rtt: Duration) -> CubicController {
        let first = self.srtt.nanos == 0;
        CubicController {
            last_rtt: rtt,
            min_rtt: Duration { nanos: min_int(rtt.nanos as int, self.min_rtt.nanos as int) as u128 },
            max_rtt: Duration { nanos: max_int(rtt.nanos as int, self.max_rtt.nanos as int) as u128 },
            srtt: if first {
                rtt
            } else {
                Duration { nanos: ((self.srtt.nanos * 7 + rtt.nanos) / 8) as u128 }
            },
            rtt_var: if first {
                Duration { nanos: rtt.nanos / 2 }
            } else {
                Duration {
                    nanos: ((self.rtt_var.nanos * 3 + distance(
                        rtt.nanos as int,
                        self.srtt.nanos as int,
                    )) / 4) as u128,
                }
            },
            ..self
        }
    }

    /// Updates the RTT measurements
    pub fn update_rtt(&mut self, rtt: Duration)
        ensures
            *final(self) == old(self).with_rtt(rtt),
    {
        self.last_rtt = rtt;
        self.min_rtt = rtt.shorter(self.min_rtt);
        self.max_rtt = rtt.longer(self.max_rtt);
        if self.srtt.nanos == 0 {
            self.srtt = rtt;
            self.rtt_var = Duration { nanos: rtt.nanos / 2 };
        } else {
            let diff: u128 = if rtt.nanos >= self.srtt.nanos {
                rtt.nanos - self.srtt.nanos
            } else {
                self.srtt.nanos - rtt.nanos
            };
            self.rtt_var = Duration { nanos: weighted_mean(self.rtt_var.nanos, 3, diff) };
            self.srtt = Duration { nanos: weighted_mean(self.srtt.nanos, 7, rtt.nanos) };
        }
    }

    /// Whether a round-trip time has passed since the round began.
    pub open spec fn round_over(self, now: Instant) -> bool {
        max_int(now.nanos - self.round_start_time.nanos, 0) >= self.srtt.nanos
    }

    /// Check if a new round begins
    pub fn is_new_round(&self, now: Instant) -> (r: bool)
        ensures
            r == self.round_over(now),
    {
        now.duration_since(self.round_start_time).nanos >= self.srtt.nanos
    }

    /// The controller in the next round.
    pub open spec fn next_round(self, now: Instant) -> CubicController {
        CubicController {
            round_count: (self.round_count + 1) as u32,
            round_start_time: now,
            hystart: if self.hystart.enabled && self.state == CubicState::SlowStart {
                HyStart {
                    last_round_min_rtt: self.hystart.curr_round_min_rtt,
                    curr_round_min_rtt: Duration { nanos: LONGEST },
                    round_counter: (self.hystart.round_counter + 1) as u32,
                    ..self.hystart
                }
            } else {
                self.hystart
            },
            acked_bytes_this_round: 0,
            ..self
        }
    }

    /// Begins the next round
    pub fn on_round_complete(&mut self, now: Instant)
        requires
            old(self).has_room_for_round(),
        ensures
            *final(self) == old(self).next_round(now),
    {
        self.round_count += 1;
        self.round_start_time = now;
        if self.hystart.enabled && matches!(self.state, CubicState::SlowStart) {
            self.hystart.last_round_min_rtt = self.hystart.curr_round_min_rtt;
            self.hystart.curr_round_min_rtt = Duration::longest();
            self.hystart.round_counter += 1;
        }
        self.acked_bytes_this_round = 0;
    }

    /// Looks for the point at which slow start should end
    pub fn hystart_exit_point(&mut self, rtt: Duration, now: Instant) -> (r: bool)
        ensures
            r == old(self).hystart.exits(old(self).config, rtt, now),
            *final(self) == (CubicController {
                hystart: old(self).hystart.after_ack(old(self).config, rtt, now),
                ..*old(self)
            }),
    {
        if !self.hystart.enabled || self.hystart.found_exit {
            return false;
        }
        self.hystart.curr_round_min_rtt = rtt.shorter(self.hystart.curr_round_min_rtt);
        if let Some(train_start) = self.hystart.ack_train_start {
            if now.duration_since(train_start).nanos >= self.config.hystart_ack_train.nanos {
                self.hystart.found_exit = true;
                return true;
            }
        } else {
            self.hystart.ack_train_start = Some(now);
        }
        if self.hystart.round_counter >= self.config.hystart_round_thresh {
            if self.hystart.last_round_min_rtt.nanos != LONGEST {
                let delay_increase: Duration = self.hystart.curr_round_min_rtt.saturating_sub(
                    self.hystart.last_round_min_rtt,
                );
                if delay_increase.nanos >= self.config.hystart_delay_min.nanos {
                    self.hystart.found_exit = true;
                    return true;
                }
            }
        }
        false
    }

    /// The controller after slow start.
    pub open spec fn slow_start_left(self, now: Instant) -> CubicController {
        CubicController {
            state: CubicState::CongestionAvoidance,
            ssthresh: self.cwnd,
            epoch_start: Some(now),
            ack_count: 0,
            ..self
        }
    }

    /// Leaves slow start
    pub fn exit_slow_start(&mut self, now: Instant)
        ensures
            *final(self) == old(self).slow_start_left(now),
    {
        self.state = CubicState::CongestionAvoidance;
        self.ssthresh = self.cwnd;
        self.epoch_start = Some(now);
        self.ack_count = 0;
    }

    /// The controller after the measurements of an ACK.
    pub open spec fn measured(self, acked_bytes: u64, rtt: Duration, now: Instant)
        -> CubicController {
        let m = CubicController {
            acked_bytes_this_round: (self.acked_bytes_this_round + acked_bytes) as u64,
            ..self.with_rtt(rtt)
        };
        if m.round_over(now) {
            m.next_round(now)
        } else {
            m
        }
    }

    /// The whole packets in so many bytes, as far as they fit 32 bits.
    pub open spec fn packets_in(self, bytes: int) -> int {
        bytes / self.mss as int % 0x1_0000_0000
    }

    /// The whole packets in so many bytes, as far as they fit 32 bits
    fn count_packets(&self, bytes: u64) -> (r: u32)
        requires
            self.mss > 0,
        ensures
            r == self.packets_in(bytes as int),
    {
        (bytes / self.mss as u64 % 0x1_0000_0000) as u32
    }

    /// The controller after an ACK in its phase, once it was measured.
    pub open spec fn grown(self, acked_bytes: u64, rtt: Duration, now: Instant) -> CubicController {
        match self.state {
            CubicState::SlowStart => {
                let h = CubicController {
                    hystart: self.hystart.after_ack(self.config, rtt, now),
                    ..self
                };
                if self.hystart.exits(self.config, rtt, now) {
                    h.slow_start_left(now)
                } else {
                    let packets = self.packets_in(acked_bytes + self.mss - 1);
                    let g = CubicController {
                        cwnd: min_int(self.cwnd + packets, u32::MAX - 1000) as u32,
                        ..h
                    };
                    if g.cwnd >= g.ssthresh {
                        g.slow_start_left(now)
                    } else {
                        g
                    }
                }
            },
            CubicState::CongestionAvoidance => self,
            CubicState::FastRecovery => CubicController {
                cwnd: (self.cwnd + self.packets_in(acked_bytes as int)) as u32,
                ..self
            },
            CubicState::HyStartDelayIncrease => if self.ack_count >= self.cwnd {
                CubicController { cwnd: (self.cwnd + 1) as u32, ack_count: 0, ..self }
            } else {
                CubicController {
                    ack_count: (self.ack_count + self.packets_in(acked_bytes as int)) as u32,
                    ..self
                }
            },
        }
    }

    /// Whether the counters have room for the next round.
    pub open spec fn has_room_for_round(self) -> bool {
        &&& self.round_count < u32::MAX
        &&& self.hystart.enabled && self.state == CubicState::SlowStart
            ==> self.hystart.round_counter < u32::MAX
    }

    /// Whether the counters have room for an ACK: those that its phase moves.
    pub open spec fn has_room_for(self, acked_bytes: u64, rtt: Duration, now: Instant) -> bool {
        let m = self.measured(acked_bytes, rtt, now);
        &&& self.acked_bytes_this_round + acked_bytes <= u64::MAX
        &&& self.with_rtt(rtt).round_over(now) ==> self.has_room_for_round()
        &&& match self.state {
            CubicState::SlowStart => m.hystart.exits(self.config, rtt, now) || {
                &&& self.mss > 0
                &&& acked_bytes + self.mss <= u64::MAX
                &&& self.cwnd + self.packets_in(acked_bytes + self.mss - 1) <= u32::MAX
            },
            CubicState::CongestionAvoidance => true,
            CubicState::FastRecovery => {
                &&& self.mss > 0
                &&& self.cwnd + self.packets_in(acked_bytes as int) <= u32::MAX
            },
            CubicState::HyStartDelayIncrease => if self.ack_count >= self.cwnd {
                self.cwnd < u32::MAX
            } else {
                &&& self.mss > 0
                &&& self.ack_count + self.packets_in(acked_bytes as int) <= u32::MAX
            },
        }
    }

    /// Whether the counters have room for an ACK
    pub fn has_room(&self, acked_bytes: u64, rtt: Duration, now: Instant) -> (r: bool)
        ensures
            r == self.has_room_for(acked_bytes, rtt, now),
    {
        if self.acked_bytes_this_round.checked_add(acked_bytes).is_none() {
            return false;
        }
        let mut measured: CubicController = *self;
        measured.update_rtt(rtt);
        measured.acked_bytes_this_round += acked_bytes;
        if measured.is_new_round(now) {
            if self.round_count == u32::MAX || (self.hystart.enabled && matches!(
                self.state,
                CubicState::SlowStart
            ) && self.hystart.round_counter == u32::MAX) {
                return false;
            }
            measured.on_round_complete(now);
        }
        match self.state {
            CubicState::SlowStart => {
                if measured.hystart_exit_point(rtt, now) {
                    return true;
                }
                if self.mss == 0 {
                    return false;
                }
                match acked_bytes.checked_add(self.mss as u64) {
                    Some(sum) => self.cwnd.checked_add(self.count_packets(sum - 1)).is_some(),
                    None => false,
                }
            },
            CubicState::CongestionAvoidance => true,
            CubicState::FastRecovery => self.mss > 0 && self.cwnd.checked_add(
                self.count_packets(acked_bytes),
            ).is_some(),
            CubicState::HyStartDelayIncrease => if self.ack_count >= self.cwnd {
                self.cwnd < u32::MAX
            } else {
                self.mss > 0 && self.ack_count.checked_add(
                    self.count_packets(acked_bytes),
                ).is_some()
            },
        }
    }

    /// What the cubic curve is evaluated at.
    pub open spec fn curve_input(self, now: Instant) -> CubicInput {
        CubicInput {
            elapsed: Duration {
                nanos: match self.epoch_start {
                    Some(t) => max_int(now.nanos - t.nanos, 0) as u128,
                    None => 0,
                },
            },
            w_max: self.cwnd_last_max,
            srtt: self.srtt,
            min_cwnd: self.config.min_cwnd,
            tcp_friendliness: self.config.tcp_friendliness,
        }
    }

    /// Process ACK reception. In congestion avoidance, what the cubic curve is to be evaluated
    /// at is returned: the window that it gives goes to [`Self::update_cwnd_toward_target`]
    pub fn on_ack(&mut self, acked_bytes: u64, rtt: Duration, now: Instant) -> (r: Option<
        CubicInput,
    >)
        requires
            old(self).has_room_for(acked_bytes, rtt, now),
        ensures
            ({
                let m = old(self).measured(acked_bytes, rtt, now);
                let g = m.grown(acked_bytes, rtt, now);
                &&& *final(self) == g
                &&& r == (if m.state == CubicState::CongestionAvoidance {
                    Some(m.curve_input(now))
                } else {
                    None
                })
            }),
    {
        self.update_rtt(rtt);
        self.acked_bytes_this_round += acked_bytes;
        if self.is_new_round(now) {
            self.on_round_complete(now);
        }
        match self.state {
            CubicState::SlowStart => {
                if self.hystart.enabled && !self.hystart.found_exit {
                    if self.hystart_exit_point(rtt, now) {
                        self.exit_slow_start(now);
                        return None;
                    }
                }
                let acked_packets: u32 = self.count_packets(acked_bytes + self.mss as u64 - 1);
                let cwnd: u32 = self.cwnd + acked_packets;
                self.cwnd = if cwnd < u32::MAX - 1000 {
                    cwnd
                } else {
                    u32::MAX - 1000
                };
                if self.cwnd >= self.ssthresh {
                    self.exit_slow_start(now);
                }
                None
            },
            CubicState::CongestionAvoidance => {
                let epoch_start: Instant = match self.epoch_start {
                    Some(t) => t,
                    None => now,
                };
                Some(
                    CubicInput {
                        elapsed: now.duration_since(epoch_start),
                        w_max: self.cwnd_last_max,
                        srtt: self.srtt,
                        min_cwnd: self.config.min_cwnd,
                        tcp_friendliness: self.config.tcp_friendliness,
                    },
                )
            },
            CubicState::FastRecovery => {
                self.cwnd += self.count_packets(acked_bytes);
                None
            },
            CubicState::HyStartDelayIncrease => {
                if self.ack_count >= self.cwnd {
                    self.cwnd += 1;
                    self.ack_count = 0;
                } else {
                    self.ack_count += self.count_packets(acked_bytes);
                }
                None
            },
        }
    }

    /// The controller one step closer to a window: up by one packet for each window of ACKs,
    /// down at once.
    pub open spec fn moved_toward(self, target_cwnd: u32) -> CubicController {
        if target_cwnd > self.cwnd {
            if self.ack_count >= self.cwnd {
                CubicController { cwnd: (self.cwnd + 1) as u32, ack_count: 0, ..self }
            } else {
                CubicController { ack_count: (self.ack_count + 1) as u32, ..self }
            }
        } else if target_cwnd < self.cwnd {
            CubicController {
                cwnd: max_int(target_cwnd as int, self.config.min_cwnd as int) as u32,
                ..self
            }
        } else {
            self
        }
    }

    /// Moves the window toward the one that the cubic curve gives
    pub fn update_cwnd_toward_target(&mut self, target_cwnd: u32)
        ensures
            *final(self) == old(self).moved_toward(target_cwnd),
    {
        if target_cwnd > self.cwnd {
            if self.ack_count >= self.cwnd {
                self.cwnd = self.cwnd + 1;
                self.ack_count = 0;
            } else {
                self.ack_count += 1;
            }
        } else if target_cwnd < self.cwnd {
            self.cwnd = if target_cwnd >= self.config.min_cwnd {
                target_cwnd
            } else {
                self.config.min_cwnd
            };
        }
    }

    /// The controller in fast recovery.
    pub open spec fn in_fast_recovery(self, decreased: DecreasedWindow, now: Instant)
        -> CubicController {
        let fast = self.config.fast_convergence && self.cwnd < self.cwnd_last_max;
        let cwnd = max_int(
            if fast {
                decreased.fast_convergence as int
            } else {
                decreased.normal as int
            },
            self.config.min_cwnd as int,
        ) as u32;
        CubicController {
            cwnd_last_max: self.cwnd,
            cwnd,
            ssthresh: cwnd,
            fast_convergence_active: fast,
            state: CubicState::FastRecovery,
            epoch_start: Some(now),
            ..self
        }
    }

    /// Handle packet loss. `decreased` is the current window under the decrease factors
    pub fn on_loss(&mut self, decreased: DecreasedWindow, now: Instant)
        ensures
            *final(self) == (if old(self).state == CubicState::FastRecovery {
                *old(self)
            } else {
                old(self).in_fast_recovery(decreased, now)
            }),
    {
        if !matches!(self.state, CubicState::FastRecovery) {
            self.enter_fast_recovery(decreased, now);
        }
    }

    /// Enters fast recovery
    fn enter_fast_recovery(&mut self, decreased: DecreasedWindow, now: Instant)
        ensures
            *final(self) == old(self).in_fast_recovery(decreased, now),
    {
        let fast: bool = self.config.fast_convergence && self.cwnd < self.cwnd_last_max;
        self.cwnd_last_max = self.cwnd;
        let cwnd: u32 = if fast {
            decreased.fast_convergence
        } else {
            decreased.normal
        };
        self.fast_convergence_active = fast;
        self.cwnd = if cwnd >= self.config.min_cwnd {
            cwnd
        } else {
            self.config.min_cwnd
        };
        self.ssthresh = self.cwnd;
        self.state = CubicState::FastRecovery;
        self.epoch_start = Some(now);
    }

    /// Exit fast recovery (typically called when all lost packets are recovered)
    pub fn exit_fast_recovery(&mut self, now: Instant)
        ensures
            *final(self) == (CubicController {
                state: CubicState::CongestionAvoidance,
                epoch_start: Some(now),
                ack_count: 0,
                ..*old(self)
            }),
    {
        self.state = CubicState::CongestionAvoidance;
        self.epoch_start = Some(now);
        self.ack_count = 0;
    }

    /// Handle persistent congestion: back to slow start with the smallest window
    pub fn on_persistent_congestion(&mut self, now: Instant)
        ensures
            *final(self) == (CubicController {
                ssthresh: max_int(
                    (old(self).cwnd / 2) as int,
                    old(self).config.min_cwnd as int,
                ) as u32,
                cwnd: old(self).config.min_cwnd,
                state: CubicState::SlowStart,
                epoch_start: None,
                hystart: HyStart::fresh(old(self).hystart.enabled, now),
                ..*old(self)
            }),
    {
        let half: u32 = self.cwnd / 2;
        self.ssthresh = if half >= self.config.min_cwnd {
            half
        } else {
            self.config.min_cwnd
        };
        self.cwnd = self.config.min_cwnd;
        self.state = CubicState::SlowStart;
        self.epoch_start = None;
        self.hystart.reset(now);
    }

    /// How far the window is decreased at a marking rate
    pub fn ecn_decrease(event: &EcnCongestionEvent) -> (r: EcnDecrease)
        ensures
            r == (if event.marking_rate.above(20) {
                EcnDecrease::High
            } else if event.marking_rate.above(10) {
                EcnDecrease::Medium
            } else {
                EcnDecrease::Low
            }),
    {
        if event.marking_rate.exceeds(20) {
            EcnDecrease::High
        } else if event.marking_rate.exceeds(10) {
            EcnDecrease::Medium
        } else {
            EcnDecrease::Low
        }
    }

    /// The controller after ECN marks.
    pub open spec fn marked(self, decreased: u32, now: Instant) -> CubicController {
        let slow = self.state == CubicState::SlowStart;
        let last_max = if slow {
            self.cwnd
        } else {
            self.cwnd_last_max
        };
        let cwnd = max_int(decreased as int, self.config.min_cwnd as int) as u32;
        CubicController {
            state: if slow {
                CubicState::CongestionAvoidance
            } else {
                self.state
            },
            cwnd_last_max: if cwnd < last_max {
                cwnd
            } else {
                last_max
            },
            fast_convergence_active: self.fast_convergence_active || cwnd < last_max,
            cwnd,
            ssthresh: cwnd,
            epoch_start: Some(now),
            ..self
        }
    }

    /// Handle ECN congestion event. `decreased` is the current window under the factor that
    /// [`Self::ecn_decrease`] says
    pub fn on_ecn_congestion(&mut self, decreased: u32, now: Instant)
        ensures
            *final(self) == old(self).marked(decreased, now),
    {
        if matches!(self.state, CubicState::SlowStart) {
            self.ssthresh = self.cwnd;
            self.state = CubicState::CongestionAvoidance;
            self.cwnd_last_max = self.cwnd;
            self.epoch_start = Some(now);
        }
        let new_cwnd: u32 = if decreased >= self.config.min_cwnd {
            decreased
        } else {
            self.config.min_cwnd
        };
        if new_cwnd < self.cwnd_last_max {
            self.cwnd_last_max = new_cwnd;
            self.fast_convergence_active = true;
        }
        self.cwnd = new_cwnd;
        self.ssthresh = self.cwnd;
        self.epoch_start = Some(now);
    }

    /// The congestion window in bytes.
    pub open spec fn window(self) -> int {
        self.cwnd * self.mss
    }

    /// Get current congestion window in bytes
    pub fn congestion_window(&self) -> (r: u64)
        ensures
            r == self.window(),
    {
        proof {
            let (c, m) = (self.cwnd as int, self.mss as int);
            assert(0 <= c * m <= 0xffff_ffff * 0xffff_ffff) by (nonlinear_arith)
                requires
                    0 <= c <= 0xffff_ffff,
                    0 <= m <= 0xffff_ffff,
            ;
        }
        self.cwnd as u64 * self.mss as u64
    }

    /// Get current state
    pub fn state(&self) -> (r: CubicState)
        ensures
            r == self.state,
    {
        self.state
    }

    /// Check if can send more data
    pub fn can_send(&self, bytes_in_flight: u64) -> (r: bool)
        ensures
            r == (bytes_in_flight < self.window()),
    {
        bytes_in_flight < self.congestion_window()
    }

    /// Get available sending window
    pub fn send_window(&self, bytes_in_flight: u64) -> (r: u64)
        ensures
            r == max_int(self.window() - bytes_in_flight, 0),
    {
        self.congestion_window().saturating_sub(bytes_in_flight)
    }

    /// Update bytes in flight
    pub fn set_bytes_in_flight(&mut self, bytes: u64)
        ensures
            *final(self) == (CubicController { bytes_in_flight: bytes, ..*old(self) }),
    {
        self.bytes_in_flight = bytes;
    }

    /// Get CUBIC statistics
    pub fn stats(&self) -> (r: CubicStats)
        ensures
            r == (CubicStats {
                state: self.state,
                cwnd: self.cwnd,
                ssthresh: self.ssthresh,
                cwnd_last_max: self.cwnd_last_max,
                min_rtt: self.min_rtt,
                srtt: self.srtt,
                round_count: self.round_count,
                hystart_enabled: self.hystart.enabled,
                fast_convergence_active: self.fast_convergence_active,
            }),
    {
        CubicStats {
            state: self.state,
            cwnd: self.cwnd,
            ssthresh: self.ssthresh,
            cwnd_last_max: self.cwnd_last_max,
            min_rtt: self.min_rtt,
            srtt: self.srtt,
            round_count: self.round_count,
            hystart_enabled: self.hystart.enabled,
            fast_convergence_active: self.fast_convergence_active,
        }
    }
}

/// No reduction takes the window below the configured minimum, and a loss during fast
/// recovery changes nothing.
pub proof fn cubic_window_floor(
    c: CubicController,
    decreased: DecreasedWindow,
    marked: u32,
    target: u32,
    now: Instant,
)
    ensures
        c.in_fast_recovery(decreased, now).cwnd >= c.config.min_cwnd,
        c.marked(marked, now).cwnd >= c.config.min_cwnd,
        c.cwnd >= c.config.min_cwnd ==> c.moved_toward(target).cwnd >= c.config.min_cwnd,
{
}

} // verus!
