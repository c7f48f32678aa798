//! QUIC congestion control.
//!
//! Several algorithms share one controller:
//! - NewReno (RFC 9002 Section 7)
//! - BBR (Bottleneck Bandwidth and Round-trip propagation time)
//! - BBR with its own controller
//! - CUBIC (RFC 8312)
//!
//! Gains and decrease factors are real-valued. Where a step needs a product with one of them,
//! the caller computes it and hands it in.

use crate::bbr::{BBRController, BBRProducts, BBRState as AdvancedBBRState, BBRView};
use crate::cubic::{CubicController, CubicInput, CubicState, DecreasedWindow};
use crate::ecn::{
    EcnCongestionEvent, EcnController, EcnControllerView, EcnStats, EcnValidationConfig,
};
use crate::error::{Error, Reason};
use crate::pacing::{PacingConfig, PacingController, PacingStats};
use crate::time::{max_int, min_int, Duration, Instant, LONGEST};
use std::collections::VecDeque;
use vstd::prelude::*;

verus! {

/// Available congestion control algorithms
#[derive(Debug, Clone, Copy, PartialEq, Eq, Structural)]
pub enum CongestionAlgorithm {
    /// NewReno (RFC 9002 Section 7)
    NewReno,
    /// BBR (Bottleneck Bandwidth and RTT-based)
    BBR,
    /// Advanced BBR with enhanced features
    BBRv2,
    /// CUBIC (RFC 8312)
    CUBIC,
}

impl Default for CongestionAlgorithm {
    fn default() -> (r: CongestionAlgorithm)
        ensures
            r == CongestionAlgorithm::NewReno,
    {
        CongestionAlgorithm::NewReno
    }
}

/// Congestion control state following RFC 9002
#[derive(Debug, Clone, Copy, PartialEq, Eq, Structural)]
pub enum CongestionState {
    /// Slow start phase
    SlowStart,
    /// Congestion avoidance phase
    CongestionAvoidance,
    /// Recovery phase after loss detection
    Recovery,
}

/// BBR congestion control states
#[derive(Debug, Clone, Copy, PartialEq, Eq, Structural)]
pub enum BBRState {
    /// Startup: exponentially grow sending rate
    Startup,
    /// Drain: drain the queue created during startup
    Drain,
    /// ProbeBW: probe for more bandwidth
    ProbeBW,
    /// ProbeRTT: probe for minimum RTT
    ProbeRTT,
}

/// BBR cycle phases for bandwidth probing
#[derive(Debug, Clone, Copy, PartialEq, Eq, Structural)]
pub enum BBRCyclePhase {
    /// Gain bandwidth
    Up,
    /// Drain queue
    Down,
    /// Cruise control
    Cruise,
}

/// RTT statistics for external monitoring
#[derive(Debug, Clone, Copy, PartialEq, Eq, Structural)]
pub struct RttStats {
    /// Smoothed RTT
    pub smoothed_rtt: Duration,
    /// Minimum RTT observed
    pub min_rtt: Duration,
    /// Latest RTT measurement
    pub latest_rtt: Duration,
    /// RTT variance
    pub rtt_var: Duration,
    /// Number of samples collected
    pub sample_count: u64,
}

/// RTT that is assumed without a sample (RFC 9002)
pub const INITIAL_RTT_NANOS: u64 = 333_000_000;

/// RTT tracking
#[derive(Debug, Clone, Copy, PartialEq, Eq, Structural)]
pub struct RttTracker {
    /// Smoothed RTT (SRTT) as per RFC 9002
    pub smoothed_rtt: Duration,
    /// RTT variance for timeout calculation
    pub rtt_var: Duration,
    /// Latest RTT measurement
    pub latest_rtt: Duration,
    /// Minimum RTT observed
    pub min_rtt: Duration,
    /// Maximum RTT observed
    pub max_rtt: Duration,
    /// Number of RTT samples collected
    pub sample_count: u64,
    /// First RTT sample flag
    pub first_sample: bool,
}

/// A fraction `num / den` of a number
fn fraction(n: u128, num: u128, den: u128) -> (r: u128)
    requires
        num <= den <= 8,
        den > 0,
    ensures
        r == n * num / den as int,
        r <= n,
{
    let (whole, rest): (u128, u128) = (n / den, n % den);
    proof {
        let (q, m, x, d) = (whole as int, rest as int, num as int, den as int);
        vstd::arithmetic::div_mod::lemma_fundamental_div_mod(n as int, d);
        assert(0 <= q * x <= q * d && 0 <= m * x <= d * d <= 64 && m * x / d <= m)
            by (nonlinear_arith)
            requires
                0 <= q,
                0 <= m < d,
                0 <= x <= d <= 8,
                d > 0,
        ;
        assert(q * d == d * q) by (nonlinear_arith);
        assert(n * num == m * x + (q * x) * d) by (nonlinear_arith)
            requires
                n == d * q + m,
                x == num,
        ;
        vstd::arithmetic::div_mod::lemma_hoist_over_denominator(m * x, q * x, d as nat);
    }
    whole * num + rest * num / den
}

impl RttTracker {
    /// A tracker without samples.
    pub open spec fn fresh() -> RttTracker {
        RttTracker {
            smoothed_rtt: Duration { nanos: INITIAL_RTT_NANOS as u128 },
            rtt_var: Duration { nanos: 166_500_000 },
            latest_rtt: Duration { nanos: 0 },
            min_rtt: Duration { nanos: LONGEST },
            max_rtt: Duration { nanos: 0 },
            sample_count: 0,
            first_sample: true,
        }
    }

    /// A tracker without samples
    pub fn new() -> (r: RttTracker)
        ensures
            r == Self::fresh(),
    {
        RttTracker {
            smoothed_rtt: Duration::from_nanos(INITIAL_RTT_NANOS),
            rtt_var: Duration::from_nanos(INITIAL_RTT_NANOS / 2),
            latest_rtt: Duration::from_nanos(0),
            min_rtt: Duration::longest(),
            max_rtt: Duration::from_nanos(0),
            sample_count: 0,
            first_sample: true,
        }
    }

    /// The tracker with a sample (RFC 9002 Section 5.3).
    pub open spec fn sampled(self, rtt: Duration) -> RttTracker {
        let r = rtt.nanos as int;
        let s = self.smoothed_rtt.nanos as int;
        let deviation = if s > r {
            s - r
        } else {
            r - s
        };
        RttTracker {
            latest_rtt: rtt,
            sample_count: (self.sample_count + 1) as u64,
            min_rtt: Duration { nanos: min_int(r, self.min_rtt.nanos as int) as u128 },
            max_rtt: Duration { nanos: max_int(r, self.max_rtt.nanos as int) as u128 },
            smoothed_rtt: if self.first_sample {
                rtt
            } else {
                Duration { nanos: (s * 7 / 8 + r / 8) as u128 }
            },
            rtt_var: if self.first_sample {
                Duration { nanos: rtt.nanos / 2 }
            } else {
                Duration { nanos: (self.rtt_var.nanos * 3 / 4 + deviation / 4) as u128 }
            },
            first_sample: false,
        }
    }

    /// Update RTT measurements with new sample
    pub fn update_rtt(&mut self, rtt_sample: Duration)
        requires
            old(self).sample_count < u64::MAX,
        ensures
            *final(self) == old(self).sampled(rtt_sample),
    {
        self.latest_rtt = rtt_sample;
        self.sample_count += 1;
        self.min_rtt = rtt_sample.shorter(self.min_rtt);
        self.max_rtt = rtt_sample.longer(self.max_rtt);
        if self.first_sample {
            self.smoothed_rtt = rtt_sample;
            self.rtt_var = Duration { nanos: rtt_sample.nanos / 2 };
            self.first_sample = false;
        } else {
            let rtt_var_sample: u128 = if self.smoothed_rtt.nanos > rtt_sample.nanos {
                self.smoothed_rtt.nanos - rtt_sample.nanos
            } else {
                rtt_sample.nanos - self.smoothed_rtt.nanos
            };
            let rtt_var: u128 = fraction(self.rtt_var.nanos, 3, 4);
            let smoothed: u128 = fraction(self.smoothed_rtt.nanos, 7, 8);
            self.rtt_var = Duration { nanos: rtt_var + rtt_var_sample / 4 };
            self.smoothed_rtt = Duration { nanos: smoothed + rtt_sample.nanos / 8 };
        }
    }

    /// Get minimum RTT, or the initial one without samples
    pub fn min_rtt(&self) -> (r: Duration)
        ensures
            r.nanos == self.known_min(),
    {
        if self.min_rtt.nanos == LONGEST {
            Duration::from_nanos(INITIAL_RTT_NANOS)
        } else {
            self.min_rtt
        }
    }

    /// The minimum RTT, or the initial one without samples.
    pub open spec fn known_min(self) -> u128 {
        if self.min_rtt.nanos == LONGEST {
            INITIAL_RTT_NANOS as u128
        } else {
            self.min_rtt.nanos
        }
    }
}

/// NewReno algorithm state
#[derive(Debug, Clone, Copy, PartialEq, Eq, Structural)]
pub struct NewRenoState {
    /// Current congestion window (bytes)
    pub congestion_window: u64,
    /// Slow start threshold (bytes)
    pub ssthresh: u64,
    /// Bytes acknowledged in current congestion window
    pub bytes_acked: u64,
    /// Congestion control state
    pub state: CongestionState,
    /// Time when recovery period started
    pub recovery_start_time: Option<Instant>,
}

impl NewRenoState {
    /// The state at the start, and after persistent congestion.
    pub open spec fn fresh(initial_window: u64) -> NewRenoState {
        NewRenoState {
            congestion_window: initial_window,
            ssthresh: u64::MAX,
            bytes_acked: 0,
            state: CongestionState::SlowStart,
            recovery_start_time: None,
        }
    }

    /// The state after an acknowledgment: in slow start the window grows by the acknowledged
    /// bytes, in congestion avoidance by one datagram for each window of them, in recovery not
    /// at all.
    pub open spec fn acked(self, acked_bytes: int, max_datagram_size: u64) -> NewRenoState {
        match self.state {
            CongestionState::SlowStart => {
                let w = (self.congestion_window + acked_bytes) as u64;
                if w >= self.ssthresh {
                    NewRenoState {
                        congestion_window: w,
                        state: CongestionState::CongestionAvoidance,
                        bytes_acked: 0,
                        ..self
                    }
                } else {
                    NewRenoState { congestion_window: w, ..self }
                }
            },
            CongestionState::CongestionAvoidance => {
                let n = (self.bytes_acked + acked_bytes) as u64;
                if n >= self.congestion_window {
                    NewRenoState {
                        congestion_window: (self.congestion_window + max_datagram_size) as u64,
                        bytes_acked: 0,
                        ..self
                    }
                } else {
                    NewRenoState { bytes_acked: n, ..self }
                }
            },
            CongestionState::Recovery => self,
        }
    }

    /// The state after a loss: the window is halved, once for each recovery period.
    pub open spec fn lost(self, min_window: u64, now: Instant) -> NewRenoState {
        if self.state == CongestionState::Recovery {
            self
        } else {
            let w = max_int((self.congestion_window / 2) as int, min_window as int) as u64;
            NewRenoState {
                state: CongestionState::Recovery,
                recovery_start_time: Some(now),
                ssthresh: w,
                congestion_window: w,
                bytes_acked: 0,
            }
        }
    }

    /// The state after a periodic update: recovery ends after 100 milliseconds.
    pub open spec fn updated(self, now: Instant) -> NewRenoState {
        if self.state == CongestionState::Recovery && self.recovery_start_time is Some && now.nanos
            - self.recovery_start_time->Some_0.nanos > 100_000_000 {
            NewRenoState {
                state: CongestionState::CongestionAvoidance,
                recovery_start_time: None,
                ..self
            }
        } else {
            self
        }
    }

    /// Whether an acknowledgment of so many bytes can be counted.
    pub open spec fn has_room_for(self, acked_bytes: int, max_datagram_size: u64) -> bool {
        match self.state {
            CongestionState::SlowStart => self.congestion_window + acked_bytes <= u64::MAX,
            CongestionState::CongestionAvoidance => {
                &&& self.bytes_acked + acked_bytes <= u64::MAX
                &&& self.bytes_acked + acked_bytes >= self.congestion_window
                    ==> self.congestion_window + max_datagram_size <= u64::MAX
            },
            CongestionState::Recovery => true,
        }
    }

    /// Whether an acknowledgment of so many bytes can be counted
    pub fn has_room(&self, acked_bytes: u64, max_datagram_size: u64) -> (r: bool)
        ensures
            r == self.has_room_for(acked_bytes as int, max_datagram_size),
    {
        match self.state {
            CongestionState::SlowStart => self.congestion_window <= u64::MAX - acked_bytes,
            CongestionState::CongestionAvoidance => self.bytes_acked <= u64::MAX - acked_bytes && (
            self.bytes_acked + acked_bytes < self.congestion_window || self.congestion_window
                <= u64::MAX - max_datagram_size),
            CongestionState::Recovery => true,
        }
    }
}

/// The pacing gains of BBR.
#[derive(Debug, Clone, Copy, PartialEq, Eq, Structural)]
pub enum BaseGain {
    /// 2.77, for startup
    High,
    /// The reciprocal of 2.77, for draining
    Low,
    /// 1.5, for startup with ECN marks
    Raised,
    /// 1.25
    Up,
    /// 0.75
    Down,
    /// 1
    One,
}

/// A pacing gain that was reduced a number of times: each time by a tenth, and not below 0.5.
#[derive(Debug, Clone, Copy, PartialEq, Eq, Structural)]
pub struct ReducedGain {
    /// Gain at first
    pub base: BaseGain,
    /// How many times it was reduced
    pub reductions: u32,
}

impl ReducedGain {
    /// Whether the gain is larger than one.
    pub open spec fn above_one(self) -> bool {
        match self.base {
            BaseGain::High => self.reductions <= 9,
            BaseGain::Raised => self.reductions <= 3,
            BaseGain::Up => self.reductions <= 2,
            BaseGain::Low | BaseGain::Down | BaseGain::One => false,
        }
    }

    /// Check if the gain is larger than one
    pub fn exceeds_one(self) -> (r: bool)
        ensures
            r == self.above_one(),
    {
        match self.base {
            BaseGain::High => self.reductions <= 9,
            BaseGain::Raised => self.reductions <= 3,
            BaseGain::Up => self.reductions <= 2,
            BaseGain::Low | BaseGain::Down | BaseGain::One => false,
        }
    }
}

/// A gain that was not reduced.
pub open spec fn plain_gain(base: BaseGain) -> ReducedGain {
    ReducedGain { base, reductions: 0 }
}

/// Bandwidth measurement sample
#[derive(Debug, Clone, Copy, PartialEq, Eq, Structural)]
pub struct BandwidthSample {
    /// Bandwidth in bytes per second
    pub bandwidth: u64,
    /// RTT measurement
    pub rtt: Duration,
    /// Time when sample was taken
    pub timestamp: Instant,
    /// Bytes acknowledged
    pub bytes_acked: u64,
}

/// The values that are not older than `cutoff`.
pub open spec fn not_older(s: Seq<(u64, Instant)>, cutoff: int) -> Seq<(u64, Instant)>
    decreases s.len(),
{
    if s.len() == 0 {
        s
    } else if s.last().1.nanos >= cutoff {
        not_older(s.drop_last(), cutoff).push(s.last())
    } else {
        not_older(s.drop_last(), cutoff)
    }
}

/// Bandwidth filter for BBR (maintains max bandwidth over time window)
#[derive(Debug)]
pub struct BandwidthFilter {
    /// Maximum bandwidth samples
    pub max_values: VecDeque<(u64, Instant)>,
    /// Window duration for bandwidth filter
    pub window_duration: Duration,
}

/// BBR algorithm state
#[derive(Debug)]
pub struct BbrAlgorithm {
    /// Current BBR state
    pub state: BBRState,
    /// Current cycle phase for ProbeBW
    pub cycle_phase: BBRCyclePhase,
    /// Current sending rate (bytes per second)
    pub sending_rate: u64,
    /// Estimated bottleneck bandwidth
    pub bottleneck_bandwidth: u64,
    /// Minimum RTT observed
    pub min_rtt: Duration,
    /// Time when min_rtt was last updated
    pub min_rtt_timestamp: Instant,
    /// Bandwidth samples for estimation
    pub bandwidth_samples: VecDeque<BandwidthSample>,
    /// Current bandwidth filter window
    pub bandwidth_filter: BandwidthFilter,
    /// Pacing gain for current state
    pub pacing_gain: ReducedGain,
    /// Cycle index for ProbeBW
    pub cycle_index: usize,
    /// Time spent in current state
    pub state_duration: Duration,
    /// Last state transition time
    pub last_state_change: Instant,
    /// Target congestion window
    pub target_cwnd: u64,
    /// Probe RTT duration
    pub probe_rtt_duration: Duration,
    /// Whether we're in probe RTT mode
    pub probe_rtt_active: bool,
}

/// What the BBR algorithm holds.
#[verifier::ext_equal]
pub struct BbrAlgorithmView {
    pub state: BBRState,
    pub cycle_phase: BBRCyclePhase,
    pub sending_rate: u64,
    pub bottleneck_bandwidth: u64,
    pub min_rtt: Duration,
    pub min_rtt_timestamp: Instant,
    pub bandwidth_samples: Seq<BandwidthSample>,
    pub max_values: Seq<(u64, Instant)>,
    pub window_duration: Duration,
    pub pacing_gain: ReducedGain,
    pub cycle_index: usize,
    pub state_duration: Duration,
    pub last_state_change: Instant,
    pub target_cwnd: u64,
    pub probe_rtt_duration: Duration,
    pub probe_rtt_active: bool,
}

impl View for BbrAlgorithm {
    type V = BbrAlgorithmView;

    open spec fn view(&self) -> BbrAlgorithmView {
        BbrAlgorithmView {
            state: self.state,
            cycle_phase: self.cycle_phase,
            sending_rate: self.sending_rate,
            bottleneck_bandwidth: self.bottleneck_bandwidth,
            min_rtt: self.min_rtt,
            min_rtt_timestamp: self.min_rtt_timestamp,
            bandwidth_samples: self.bandwidth_samples@,
            max_values: self.bandwidth_filter.max_values@,
            window_duration: self.bandwidth_filter.window_duration,
            pacing_gain: self.pacing_gain,
            cycle_index: self.cycle_index,
            state_duration: self.state_duration,
            last_state_change: self.last_state_change,
            target_cwnd: self.target_cwnd,
            probe_rtt_duration: self.probe_rtt_duration,
            probe_rtt_active: self.probe_rtt_active,
        }
    }
}

impl BbrAlgorithmView {
    /// The state at the start.
    pub open spec fn fresh(initial_window: u64, now: Instant) -> BbrAlgorithmView {
        BbrAlgorithmView {
            state: BBRState::Startup,
            cycle_phase: BBRCyclePhase::Up,
            sending_rate: initial_window,
            bottleneck_bandwidth: 0,
            min_rtt: Duration { nanos: 1_000_000_000 },
            min_rtt_timestamp: now,
            bandwidth_samples: Seq::empty(),
            max_values: Seq::empty(),
            window_duration: Duration { nanos: 10_000_000_000 },
            pacing_gain: plain_gain(BaseGain::High),
            cycle_index: 0,
            state_duration: Duration { nanos: 0 },
            last_state_change: now,
            target_cwnd: initial_window,
            probe_rtt_duration: Duration { nanos: 200_000_000 },
            probe_rtt_active: false,
        }
    }

    /// The bandwidth delay product, with the round-trip time in whole seconds.
    pub open spec fn bdp(self) -> int {
        self.bottleneck_bandwidth * self.min_rtt.seconds()
    }

    /// Whether the state machine can take a step: what its state computes must fit.
    pub open spec fn steps(self) -> bool {
        &&& self.state == BBRState::Drain ==> self.bdp() <= u64::MAX
        &&& self.state == BBRState::ProbeBW ==> self.cycle_index < usize::MAX
    }

    /// Whether an ACK of so many bytes can be counted.
    pub open spec fn has_room_for(self, acked_bytes: u64, rtt: Duration, now: Instant) -> bool {
        &&& acked_bytes > 0 && rtt.nanos > 0 ==> acked_bytes * 1_000_000 <= u64::MAX
            && rtt.micros() > 0
        &&& self.sampled(acked_bytes, rtt, now).bdp() <= u64::MAX
        &&& self.state == BBRState::ProbeBW ==> self.cycle_index < usize::MAX
    }

    /// The state with a bandwidth in the filter.
    pub open spec fn filtered(self, bandwidth: u64, now: Instant) -> BbrAlgorithmView {
        let values = not_older(
            self.max_values,
            max_int(now.nanos - self.window_duration.nanos, 0),
        ).push((bandwidth, now));
        BbrAlgorithmView {
            max_values: values,
            bottleneck_bandwidth: crate::bbr::max_of(values) as u64,
            ..self
        }
    }

    /// The state with the samples of an ACK.
    pub open spec fn sampled(self, acked_bytes: u64, rtt: Duration, now: Instant)
        -> BbrAlgorithmView {
        let lower = rtt.nanos < self.min_rtt.nanos;
        let m = BbrAlgorithmView {
            min_rtt: if lower {
                rtt
            } else {
                self.min_rtt
            },
            min_rtt_timestamp: if lower {
                now
            } else {
                self.min_rtt_timestamp
            },
            ..self
        };
        if acked_bytes > 0 && rtt.nanos > 0 {
            let bandwidth = (acked_bytes * 1_000_000 / rtt.micros()) as u64;
            let samples = m.bandwidth_samples.push(
                BandwidthSample { bandwidth, rtt, timestamp: now, bytes_acked: acked_bytes },
            );
            BbrAlgorithmView {
                bandwidth_samples: if samples.len() > 10 {
                    samples.skip(1)
                } else {
                    samples
                },
                ..m.filtered(bandwidth, now)
            }
        } else {
            m
        }
    }

    /// The state as it changes to another one.
    pub open spec fn changed(self, state: BBRState, base: BaseGain, now: Instant)
        -> BbrAlgorithmView {
        BbrAlgorithmView {
            state,
            pacing_gain: plain_gain(base),
            last_state_change: now,
            state_duration: Duration { nanos: 0 },
            ..self
        }
    }

    /// Whether the bandwidth grew by less than a quarter from the last sample but one to the
    /// last.
    pub open spec fn growth_stopped(self) -> bool {
        let s = self.bandwidth_samples;
        &&& s.len() > 0
        &&& s.last().bandwidth < s[max_int(s.len() - 2, 0)].bandwidth * 125 / 100
    }

    /// The state in the next step of the ProbeBW cycle.
    pub open spec fn next_step(self) -> BbrAlgorithmView {
        let index = ((self.cycle_index + 1) % 3) as usize;
        BbrAlgorithmView {
            cycle_index: index,
            pacing_gain: plain_gain(
                if index == 0 {
                    BaseGain::Up
                } else if index == 1 {
                    BaseGain::Down
                } else {
                    BaseGain::One
                },
            ),
            cycle_phase: if index == 0 {
                BBRCyclePhase::Up
            } else if index == 1 {
                BBRCyclePhase::Down
            } else {
                BBRCyclePhase::Cruise
            },
            ..self
        }
    }

    /// The state after a step of the state machine.
    pub open spec fn state_updated(self, now: Instant) -> BbrAlgorithmView {
        let spent = max_int(now.nanos - self.last_state_change.nanos, 0);
        let v = BbrAlgorithmView { state_duration: Duration { nanos: spent as u128 }, ..self };
        match self.state {
            BBRState::Startup => if self.growth_stopped() {
                v.changed(BBRState::Drain, BaseGain::Low, now)
            } else {
                v
            },
            BBRState::Drain => if self.target_cwnd <= self.bdp() {
                BbrAlgorithmView {
                    cycle_index: 0,
                    ..v.changed(BBRState::ProbeBW, BaseGain::One, now)
                }
            } else {
                v
            },
            BBRState::ProbeBW => {
                let c = if spent >= self.min_rtt.nanos {
                    BbrAlgorithmView {
                        last_state_change: now,
                        state_duration: Duration { nanos: 0 },
                        ..v.next_step()
                    }
                } else {
                    v
                };
                if max_int(now.nanos - self.min_rtt_timestamp.nanos, 0) >= 10_000_000_000 {
                    BbrAlgorithmView {
                        state: BBRState::ProbeRTT,
                        last_state_change: now,
                        state_duration: Duration { nanos: 0 },
                        probe_rtt_active: true,
                        ..c
                    }
                } else {
                    c
                }
            },
            BBRState::ProbeRTT => if spent >= self.probe_rtt_duration.nanos {
                BbrAlgorithmView {
                    probe_rtt_active: false,
                    ..v.changed(BBRState::ProbeBW, BaseGain::One, now)
                }
            } else {
                v
            },
        }
    }

    /// The state with its window: what the gain makes of the bandwidth delay product, at least
    /// the minimum, and the minimum in ProbeRTT.
    pub open spec fn window_updated(self, scaled_bdp: u64, min_window: u64) -> BbrAlgorithmView {
        if self.bottleneck_bandwidth > 0 {
            BbrAlgorithmView {
                target_cwnd: if self.state == BBRState::ProbeRTT {
                    min_window
                } else {
                    max_int(scaled_bdp as int, min_window as int) as u64
                },
                ..self
            }
        } else {
            self
        }
    }

    /// The state after a loss.
    pub open spec fn lost(self, now: Instant) -> BbrAlgorithmView {
        if self.state == BBRState::Startup {
            self.changed(BBRState::Drain, BaseGain::Low, now)
        } else {
            self
        }
    }

    /// The state after ECN marks.
    pub open spec fn marked(self, now: Instant) -> BbrAlgorithmView {
        BbrAlgorithmView {
            pacing_gain: match self.state {
                BBRState::Startup => plain_gain(BaseGain::Raised),
                BBRState::ProbeBW => if self.pacing_gain.above_one() {
                    plain_gain(BaseGain::One)
                } else {
                    self.pacing_gain
                },
                _ => ReducedGain {
                    base: self.pacing_gain.base,
                    reductions: min_int(self.pacing_gain.reductions + 1, u32::MAX as int) as u32,
                },
            },
            last_state_change: now,
            state_duration: Duration { nanos: 0 },
            ..self
        }
    }

    /// The state after persistent congestion.
    pub open spec fn restarted(self, initial_window: u64, now: Instant) -> BbrAlgorithmView {
        BbrAlgorithmView {
            target_cwnd: initial_window,
            bandwidth_samples: Seq::empty(),
            max_values: Seq::empty(),
            ..self.changed(BBRState::Startup, BaseGain::High, now)
        }
    }
}

impl BbrAlgorithm {
    /// The state at the start
    pub fn new(initial_window: u64, now: Instant) -> (r: BbrAlgorithm)
        ensures
            r@ == BbrAlgorithmView::fresh(initial_window, now),
    {
        BbrAlgorithm {
            state: BBRState::Startup,
            cycle_phase: BBRCyclePhase::Up,
            sending_rate: initial_window,
            bottleneck_bandwidth: 0,
            min_rtt: Duration::from_millis(1000),
            min_rtt_timestamp: now,
            bandwidth_samples: VecDeque::new(),
            bandwidth_filter: BandwidthFilter {
                max_values: VecDeque::new(),
                window_duration: Duration::from_secs(10),
            },
            pacing_gain: ReducedGain { base: BaseGain::High, reductions: 0 },
            cycle_index: 0,
            state_duration: Duration::from_nanos(0),
            last_state_change: now,
            target_cwnd: initial_window,
            probe_rtt_duration: Duration::from_millis(200),
            probe_rtt_active: false,
        }
    }

    /// The values of the bandwidth filter with another one, without those that are too old
    fn recent_values(&self, bandwidth: u64, now: Instant) -> (r: VecDeque<(u64, Instant)>)
        ensures
            r@ == self@.filtered(bandwidth, now).max_values,
    {
        let cutoff: Instant = now.saturating_sub(self.bandwidth_filter.window_duration);
        let ghost c = cutoff.nanos as int;
        let ghost all = self.bandwidth_filter.max_values@;
        let mut kept: VecDeque<(u64, Instant)> = VecDeque::new();
        let mut i: usize = 0;
        assert(all.take(0) =~= Seq::<(u64, Instant)>::empty());
        while i < self.bandwidth_filter.max_values.len()
            invariant
                all == self.bandwidth_filter.max_values@,
                i <= all.len(),
                c == cutoff.nanos,
                kept@ == not_older(all.take(i as int), c),
            decreases all.len() - i,
        {
            assert(all.take(i + 1).drop_last() =~= all.take(i as int));
            let value: (u64, Instant) = self.bandwidth_filter.max_values[i];
            if value.1.nanos >= cutoff.nanos {
                kept.push_back(value);
            }
            i += 1;
        }
        assert(all.take(i as int) =~= all);
        kept.push_back((bandwidth, now));
        kept
    }

    /// The largest bandwidth among values
    fn largest_value(kept: &VecDeque<(u64, Instant)>) -> (r: u64)
        ensures
            r == crate::bbr::max_of(kept@),
    {
        let ghost values = kept@;
        let mut max_bandwidth: u64 = 0;
        let mut j: usize = 0;
        assert(values.take(0) =~= Seq::<(u64, Instant)>::empty());
        while j < kept.len()
            invariant
                values == kept@,
                j <= values.len(),
                max_bandwidth == crate::bbr::max_of(values.take(j as int)),
            decreases values.len() - j,
        {
            assert(values.take(j + 1).drop_last() =~= values.take(j as int));
            if kept[j].0 > max_bandwidth {
                max_bandwidth = kept[j].0;
            }
            j += 1;
        }
        assert(values.take(j as int) =~= values);
        max_bandwidth
    }

    /// BBR bandwidth filter update
    fn update_bandwidth_filter(&mut self, bandwidth: u64, now: Instant)
        ensures
            final(self)@ == old(self)@.filtered(bandwidth, now),
    {
        let kept: VecDeque<(u64, Instant)> = self.recent_values(bandwidth, now);
        self.bottleneck_bandwidth = Self::largest_value(&kept);
        self.bandwidth_filter.max_values = kept;
    }

    /// Whether an ACK of so many bytes can be counted
    fn has_room(&self, acked_bytes: u64, rtt: Duration, now: Instant) -> (r: bool)
        ensures
            r == self@.has_room_for(acked_bytes, rtt, now),
    {
        let mut bandwidth: u64 = self.bottleneck_bandwidth;
        if acked_bytes > 0 && rtt.nanos > 0 {
            let micros: u64 = rtt.micros_u64();
            if micros == 0 {
                return false;
            }
            match acked_bytes.checked_mul(1_000_000) {
                Some(scaled) => {
                    bandwidth = Self::largest_value(&self.recent_values(scaled / micros, now));
                },
                None => {
                    return false;
                },
            }
        }
        let min_rtt: Duration = if rtt.nanos < self.min_rtt.nanos {
            rtt
        } else {
            self.min_rtt
        };
        bandwidth.checked_mul(min_rtt.as_secs()).is_some() && !(matches!(
            self.state,
            BBRState::ProbeBW
        ) && self.cycle_index == usize::MAX)
    }

    /// Whether the state machine can take a step
    fn can_step(&self) -> (r: bool)
        ensures
            r == self@.steps(),
    {
        match self.state {
            BBRState::Drain => self.bottleneck_bandwidth.checked_mul(
                self.min_rtt.as_secs(),
            ).is_some(),
            BBRState::ProbeBW => self.cycle_index < usize::MAX,
            _ => true,
        }
    }

    /// Takes the samples of an ACK
    fn on_ack_sample(&mut self, acked_bytes: u64, rtt: Duration, now: Instant)
        requires
            acked_bytes > 0 && rtt.nanos > 0 ==> acked_bytes * 1_000_000 <= u64::MAX
                && rtt.micros() > 0,
        ensures
            final(self)@ == old(self)@.sampled(acked_bytes, rtt, now),
    {
        if rtt.nanos < self.min_rtt.nanos {
            self.min_rtt = rtt;
            self.min_rtt_timestamp = now;
        }
        if acked_bytes > 0 && rtt.nanos > 0 {
            let bandwidth: u64 = (acked_bytes * 1_000_000) / rtt.micros_u64();
            let sample: BandwidthSample = BandwidthSample {
                bandwidth,
                rtt,
                timestamp: now,
                bytes_acked: acked_bytes,
            };
            self.bandwidth_samples.push_back(sample);
            self.update_bandwidth_filter(bandwidth, now);
            let ghost pushed = self.bandwidth_samples@;
            if self.bandwidth_samples.len() > 10 {
                self.bandwidth_samples.pop_front();
                assert(self.bandwidth_samples@ =~= pushed.skip(1));
            }
        }
    }

    /// BBR state machine update
    fn update_state(&mut self, now: Instant)
        requires
            old(self)@.steps(),
        ensures
            final(self)@ == old(self)@.state_updated(now),
    {
        self.state_duration = now.duration_since(self.last_state_change);
        match self.state {
            BBRState::Startup => {
                let len: usize = self.bandwidth_samples.len();
                if len > 0 {
                    let prev_bw: u64 = self.bandwidth_samples[len - 1].bandwidth;
                    let prev_prev_bw: u64 = self.bandwidth_samples[len.saturating_sub(2)].bandwidth;
                    if (prev_bw as u128) < prev_prev_bw as u128 * 125 / 100 {
                        self.state = BBRState::Drain;
                        self.pacing_gain = ReducedGain { base: BaseGain::Low, reductions: 0 };
                        self.last_state_change = now;
                        self.state_duration = Duration::from_nanos(0);
                    }
                }
            },
            BBRState::Drain => {
                let bdp: u64 = self.bottleneck_bandwidth * self.min_rtt.as_secs();
                if self.target_cwnd <= bdp {
                    self.state = BBRState::ProbeBW;
                    self.pacing_gain = ReducedGain { base: BaseGain::One, reductions: 0 };
                    self.cycle_index = 0;
                    self.last_state_change = now;
                    self.state_duration = Duration::from_nanos(0);
                }
            },
            BBRState::ProbeBW => {
                if self.state_duration.nanos >= self.min_rtt.nanos {
                    self.advance_cycle_phase();
                    self.last_state_change = now;
                    self.state_duration = Duration::from_nanos(0);
                }
                if now.duration_since(self.min_rtt_timestamp).nanos >= 10_000_000_000 {
                    self.state = BBRState::ProbeRTT;
                    self.last_state_change = now;
                    self.state_duration = Duration::from_nanos(0);
                    self.probe_rtt_active = true;
                }
            },
            BBRState::ProbeRTT => {
                if self.state_duration.nanos >= self.probe_rtt_duration.nanos {
                    self.state = BBRState::ProbeBW;
                    self.pacing_gain = ReducedGain { base: BaseGain::One, reductions: 0 };
                    self.last_state_change = now;
                    self.state_duration = Duration::from_nanos(0);
                    self.probe_rtt_active = false;
                }
            },
        }
    }

    /// Advance BBR cycle phase for ProbeBW
    fn advance_cycle_phase(&mut self)
        requires
            old(self)@.cycle_index < usize::MAX,
        ensures
            final(self)@ == old(self)@.next_step(),
    {
        self.cycle_index = (self.cycle_index + 1) % 3;
        let base: BaseGain = match self.cycle_index {
            0 => BaseGain::Up,
            1 => BaseGain::Down,
            _ => BaseGain::One,
        };
        self.pacing_gain = ReducedGain { base, reductions: 0 };
        self.cycle_phase = match self.cycle_index {
            0 => BBRCyclePhase::Up,
            1 => BBRCyclePhase::Down,
            _ => BBRCyclePhase::Cruise,
        };
    }

    /// Update BBR congestion window
    fn update_congestion_window(&mut self, scaled_bdp: u64, min_window: u64)
        ensures
            final(self)@ == old(self)@.window_updated(scaled_bdp, min_window),
    {
        if self.bottleneck_bandwidth > 0 {
            self.target_cwnd = if scaled_bdp >= min_window {
                scaled_bdp
            } else {
                min_window
            };
            if matches!(self.state, BBRState::ProbeRTT) {
                self.target_cwnd = min_window;
            }
        }
    }

    /// BBR loss handling (BBR is less reactive to individual losses)
    fn on_packet_lost(&mut self, now: Instant)
        ensures
            final(self)@ == old(self)@.lost(now),
    {
        if matches!(self.state, BBRState::Startup) {
            self.state = BBRState::Drain;
            self.last_state_change = now;
            self.pacing_gain = ReducedGain { base: BaseGain::Low, reductions: 0 };
            self.state_duration = Duration::from_nanos(0);
        }
    }

    /// BBR ECN congestion handling
    fn on_ecn_congestion(&mut self, now: Instant)
        ensures
            final(self)@ == old(self)@.marked(now),
    {
        match self.state {
            BBRState::Startup => {
                self.pacing_gain = ReducedGain { base: BaseGain::Raised, reductions: 0 };
            },
            BBRState::ProbeBW => {
                if self.pacing_gain.exceeds_one() {
                    self.pacing_gain = ReducedGain { base: BaseGain::One, reductions: 0 };
                }
            },
            _ => {
                self.pacing_gain = ReducedGain {
                    base: self.pacing_gain.base,
                    reductions: self.pacing_gain.reductions.saturating_add(1),
                };
            },
        }
        self.last_state_change = now;
        self.state_duration = Duration::from_nanos(0);
    }

    /// Back to startup after persistent congestion
    fn restart(&mut self, initial_window: u64, now: Instant)
        ensures
            final(self)@ == old(self)@.restarted(initial_window, now),
    {
        self.state = BBRState::Startup;
        self.last_state_change = now;
        self.pacing_gain = ReducedGain { base: BaseGain::High, reductions: 0 };
        self.state_duration = Duration::from_nanos(0);
        self.target_cwnd = initial_window;
        self.bandwidth_samples.clear();
        self.bandwidth_filter.max_values.clear();
    }
}

/// Bytes that ranges of packet numbers stand for, at one datagram for each packet.
pub open spec fn acked_sum(ranges: Seq<(u64, u64)>, max_datagram_size: u64) -> int
    decreases ranges.len(),
{
    if ranges.len() == 0 {
        0
    } else {
        acked_sum(ranges.drop_last(), max_datagram_size) + (ranges.last().1 - ranges.last().0 + 1)
            * max_datagram_size
    }
}

/// Whether every range goes upward.
pub open spec fn ascending(ranges: Seq<(u64, u64)>) -> bool {
    forall|i: int|
        0 <= i < ranges.len() ==> (#[trigger] ranges[i]).0 <= ranges[i].1 && ranges[i].1
            - ranges[i].0 < u64::MAX
}

/// The first ranges stand for no more bytes than all of them.
proof fn lemma_acked_sum(ranges: Seq<(u64, u64)>, n: int, max_datagram_size: u64)
    requires
        0 <= n <= ranges.len(),
        ascending(ranges),
    ensures
        0 <= acked_sum(ranges.take(n), max_datagram_size) <= acked_sum(ranges, max_datagram_size),
    decreases ranges.len(),
{
    if ranges.len() == 0 {
        assert(ranges.take(n) =~= ranges);
    } else {
        let front = ranges.drop_last();
        let c = ranges.last().1 - ranges.last().0 + 1;
        assert(ranges.last() == ranges[ranges.len() - 1]);
        assert(c * max_datagram_size >= 0) by (nonlinear_arith)
            requires
                c >= 0,
                max_datagram_size >= 0,
        ;
        assert forall|i: int| 0 <= i < front.len() implies (#[trigger] front[i]).0 <= front[i].1
            && front[i].1 - front[i].0 < u64::MAX by {
            assert(front[i] == ranges[i]);
        }
        if n == ranges.len() {
            assert(ranges.take(n) =~= ranges);
            lemma_acked_sum(front, n - 1, max_datagram_size);
            assert(front.take(n - 1) =~= front);
        } else {
            lemma_acked_sum(front, n, max_datagram_size);
            assert(front.take(n) =~= ranges.take(n));
        }
    }
}

/// Bytes that the ranges acknowledge, where they go upward and the sum fits
pub fn checked_acked(ranges: &[(u64, u64)], max_datagram_size: u64) -> (r: Option<u64>)
    ensures
        match r {
            Some(n) => ascending(ranges@) && n == acked_sum(ranges@, max_datagram_size),
            None => !ascending(ranges@) || acked_sum(ranges@, max_datagram_size) > u64::MAX,
        },
{
    let mut total: u64 = 0;
    let mut i: usize = 0;
    let len: usize = ranges.len();
    assert(ranges@.take(0) =~= Seq::<(u64, u64)>::empty());
    while i < len
        invariant
            len == ranges@.len(),
            i <= len,
            forall|k: int|
                0 <= k < i ==> (#[trigger] ranges@[k]).0 <= ranges@[k].1 && ranges@[k].1
                    - ranges@[k].0 < u64::MAX,
            total == acked_sum(ranges@.take(i as int), max_datagram_size),
        decreases len - i,
    {
        let (start, end): (u64, u64) = ranges[i];
        proof {
            assert(ranges@.take(i + 1).drop_last() =~= ranges@.take(i as int));
            assert(ranges@.take(i + 1).last() == ranges@[i as int]);
        }
        if start > end || end - start == u64::MAX {
            return None;
        }
        proof {
            if ascending(ranges@) {
                lemma_acked_sum(ranges@, i + 1, max_datagram_size);
            }
        }
        match (end - start + 1).checked_mul(max_datagram_size) {
            Some(bytes) => match total.checked_add(bytes) {
                Some(sum) => {
                    total = sum;
                },
                None => {
                    return None;
                },
            },
            None => {
                return None;
            },
        }
        i += 1;
    }
    assert(ranges@.take(i as int) =~= ranges@);
    Some(total)
}

/// Bytes that ranges of packet numbers stand for
fn count_acked(ranges: &[(u64, u64)], max_datagram_size: u64) -> (r: u64)
    requires
        ascending(ranges@),
        acked_sum(ranges@, max_datagram_size) <= u64::MAX,
    ensures
        r == acked_sum(ranges@, max_datagram_size),
{
    let mut total: u64 = 0;
    let mut i: usize = 0;
    let len: usize = ranges.len();
    assert(ranges@.take(0) =~= Seq::<(u64, u64)>::empty());
    while i < len
        invariant
            len == ranges@.len(),
            i <= len,
            ascending(ranges@),
            acked_sum(ranges@, max_datagram_size) <= u64::MAX,
            total == acked_sum(ranges@.take(i as int), max_datagram_size),
        decreases len - i,
    {
        let ghost c = ranges@[i as int].1 - ranges@[i as int].0 + 1;
        proof {
            assert(ranges@.take(i + 1).drop_last() =~= ranges@.take(i as int));
            lemma_acked_sum(ranges@, i + 1, max_datagram_size);
            lemma_acked_sum(ranges@, i as int, max_datagram_size);
            assert(c * max_datagram_size >= 0) by (nonlinear_arith)
                requires
                    c >= 0,
                    max_datagram_size >= 0,
            ;
        }
        let count: u64 = ranges[i].1 - ranges[i].0 + 1;
        total += count * max_datagram_size;
        i += 1;
    }
    assert(ranges@.take(i as int) =~= ranges@);
    total
}

/// Multi-algorithm congestion controller
#[derive(Debug)]
pub struct CongestionController {
    /// Selected congestion control algorithm
    pub algorithm: CongestionAlgorithm,
    /// Maximum datagram size
    pub max_datagram_size: u64,
    /// Initial congestion window
    pub initial_window: u64,
    /// Minimum congestion window
    pub min_window: u64,
    /// NewReno state
    pub newreno: NewRenoState,
    /// BBR state
    pub bbr: BbrAlgorithm,
    /// Advanced BBR controller
    pub bbr_controller: Option<BBRController>,
    /// CUBIC controller
    pub cubic_controller: Option<CubicController>,
    /// Packet pacing controller
    pub pacing_controller: PacingController,
    /// ECN controller
    pub ecn_controller: EcnController,
    /// RTT tracking
    pub rtt_tracker: RttTracker,
}

/// What a congestion controller holds.
pub struct CongestionView {
    pub algorithm: CongestionAlgorithm,
    pub max_datagram_size: u64,
    pub initial_window: u64,
    pub min_window: u64,
    pub newreno: NewRenoState,
    pub bbr: BbrAlgorithmView,
    pub bbr_controller: Option<BBRView>,
    pub cubic_controller: Option<CubicController>,
    pub pacing: PacingController,
    pub ecn: EcnControllerView,
    pub rtt: RttTracker,
}

impl View for CongestionController {
    type V = CongestionView;

    closed spec fn view(&self) -> CongestionView {
        CongestionView {
            algorithm: self.algorithm,
            max_datagram_size: self.max_datagram_size,
            initial_window: self.initial_window,
            min_window: self.min_window,
            newreno: self.newreno,
            bbr: self.bbr@,
            bbr_controller: match self.bbr_controller {
                Some(b) => Some(b@),
                None => None,
            },
            cubic_controller: self.cubic_controller,
            pacing: self.pacing_controller,
            ecn: self.ecn_controller@,
            rtt: self.rtt_tracker,
        }
    }
}

/// What is left to do after an acknowledgment.
#[derive(Debug, Clone, Copy, PartialEq, Eq, Structural)]
pub enum AckStep {
    /// Nothing
    Done,
    /// Scale the bandwidth delay product, and call [`CongestionController::finish_bbr_ack`]
    ScaleBbrWindow,
    /// Compute the products of the estimates, and call
    /// [`CongestionController::finish_bbr_v2_ack`]
    ScaleBbrV2Window,
    /// Evaluate the cubic curve, and call [`CongestionController::finish_cubic_ack`]
    EvaluateCubic(CubicInput),
}

/// What is left to do after a periodic update.
#[derive(Debug, Clone, Copy, PartialEq, Eq, Structural)]
pub enum UpdateStep {
    /// Nothing
    Done,
    /// Scale the bottleneck bandwidth by the pacing gain, and call
    /// [`CongestionController::set_sending_rate`]
    ScaleSendingRate,
    /// Pace at the rate of the advanced BBR controller
    PaceBbrV2,
    /// Pace at this rate
    Pace(u64),
}

/// Values that ECN marks reduce.
#[derive(Debug, Clone, Copy, PartialEq, Eq, Structural)]
pub struct EcnReductions {
    /// Bandwidth of the advanced BBR controller, reduced by the marking rate
    pub bandwidth: u64,
    /// Window of the CUBIC controller, reduced by the factor for the marking rate
    pub window: u32,
}

/// Windows scaled to a new datagram size.
#[derive(Debug, Clone, Copy, PartialEq, Eq, Structural)]
pub struct ScaledWindows {
    /// NewReno congestion window
    pub congestion_window: u64,
    /// NewReno slow start threshold
    pub ssthresh: u64,
    /// BBR target window
    pub target_cwnd: u64,
}

/// Congestion control statistics
#[derive(Debug, Clone, Copy, PartialEq, Eq, Structural)]
pub struct CongestionStats {
    /// Current congestion control algorithm
    pub algorithm: CongestionAlgorithm,
    /// Current congestion window size in bytes
    pub congestion_window: u64,
    /// Slow start threshold (NewReno only)
    pub ssthresh: u64,
    /// Total bytes acknowledged (NewReno only)
    pub bytes_acked: u64,
    /// Current NewReno state (if using NewReno)
    pub newreno_state: Option<CongestionState>,
    /// Current BBR state (if using BBR)
    pub bbr_state: Option<BBRState>,
    /// Whether currently in recovery
    pub in_recovery: bool,
    /// Maximum datagram size
    pub max_datagram_size: u64,
    /// Current sending rate (BBR only)
    pub sending_rate: u64,
    /// Estimated bottleneck bandwidth (BBR only)
    pub bottleneck_bandwidth: Option<u64>,
    /// Minimum RTT observed
    pub min_rtt: Option<Duration>,
    /// ECN statistics
    pub ecn_stats: Option<EcnStats>,
}

impl CongestionView {
    /// A controller to which nothing has happened: a window of ten datagrams of 1200 bytes.
    pub open spec fn fresh(algorithm: CongestionAlgorithm, now: Instant) -> CongestionView {
        CongestionView {
            algorithm,
            max_datagram_size: 1200,
            initial_window: 12000,
            min_window: 2400,
            newreno: NewRenoState::fresh(12000),
            bbr: BbrAlgorithmView::fresh(12000, now),
            bbr_controller: if algorithm == CongestionAlgorithm::BBRv2 {
                Some(BBRView::fresh(1200, crate::bbr::BBRConfig::standard(), now))
            } else {
                None
            },
            cubic_controller: if algorithm == CongestionAlgorithm::CUBIC {
                Some(CubicController::fresh(1200, crate::cubic::CubicConfig::standard(), now))
            } else {
                None
            },
            pacing: PacingController::fresh(PacingConfig::standard(), now),
            ecn: EcnControllerView::fresh(EcnValidationConfig::standard()),
            rtt: RttTracker::fresh(),
        }
    }

    /// The congestion window in bytes.
    pub open spec fn window(self) -> int {
        match self.algorithm {
            CongestionAlgorithm::NewReno => self.newreno.congestion_window as int,
            CongestionAlgorithm::BBR => self.bbr.target_cwnd as int,
            CongestionAlgorithm::BBRv2 => match self.bbr_controller {
                Some(b) => b.congestion_window as int,
                None => self.initial_window as int,
            },
            CongestionAlgorithm::CUBIC => match self.cubic_controller {
                Some(c) => c.window(),
                None => self.initial_window as int,
            },
        }
    }

    /// Whether an acknowledgment of so many bytes can be counted.
    pub open spec fn has_room_for(self, acked_bytes: int, rtt: Duration, now: Instant) -> bool {
        let smoothed = self.rtt.sampled(rtt).smoothed_rtt;
        &&& acked_bytes <= u64::MAX
        &&& self.rtt.sample_count < u64::MAX
        &&& match self.algorithm {
            CongestionAlgorithm::NewReno => self.newreno.has_room_for(
                acked_bytes,
                self.max_datagram_size,
            ),
            CongestionAlgorithm::BBR => self.bbr.has_room_for(acked_bytes as u64, smoothed, now),
            CongestionAlgorithm::BBRv2 => self.bbr_controller matches Some(b) ==> b.has_room_for(
                acked_bytes as u64,
                smoothed,
            ),
            CongestionAlgorithm::CUBIC => self.cubic_controller matches Some(c) ==> c.has_room_for(
                acked_bytes as u64,
                smoothed,
                now,
            ),
        }
    }

    /// Whether a periodic update can be computed.
    pub open spec fn can_update(self) -> bool {
        match self.algorithm {
            CongestionAlgorithm::BBR => self.bbr.steps(),
            CongestionAlgorithm::CUBIC => self.cubic_controller matches Some(c) ==> (
            c.min_rtt.nanos > 0 ==> c.cwnd * self.max_datagram_size * 1_000_000 <= u64::MAX
                && c.min_rtt.micros() > 0),
            _ => true,
        }
    }

    /// Whether the rate of a window for each round-trip time can be computed.
    pub open spec fn can_pace(self) -> bool {
        match self.algorithm {
            CongestionAlgorithm::NewReno => self.newreno.congestion_window * 1000 <= u64::MAX,
            CongestionAlgorithm::CUBIC => self.cubic_controller matches Some(c) ==> (c.srtt.nanos
                > 0 ==> c.window() * 1000 <= u64::MAX && c.srtt.millis() > 0),
            _ => true,
        }
    }

    /// The controller after an acknowledgment.
    pub open spec fn acked(self, acked_bytes: int, rtt: Duration, now: Instant) -> CongestionView {
        let smoothed = self.rtt.sampled(rtt).smoothed_rtt;
        let next = CongestionView {
            rtt: self.rtt.sampled(rtt),
            pacing: self.pacing.with_rtt(smoothed),
            ..self
        };
        match self.algorithm {
            CongestionAlgorithm::NewReno => CongestionView {
                newreno: self.newreno.acked(acked_bytes, self.max_datagram_size),
                ..next
            },
            CongestionAlgorithm::BBR => CongestionView {
                bbr: self.bbr.sampled(acked_bytes as u64, smoothed, now).state_updated(now),
                ..next
            },
            CongestionAlgorithm::BBRv2 => CongestionView {
                bbr_controller: match self.bbr_controller {
                    Some(b) => Some(b.sampled(acked_bytes as u64, smoothed, now)),
                    None => None,
                },
                ..next
            },
            CongestionAlgorithm::CUBIC => CongestionView {
                cubic_controller: match self.cubic_controller {
                    Some(c) => Some(
                        c.measured(acked_bytes as u64, smoothed, now).grown(
                            acked_bytes as u64,
                            smoothed,
                            now,
                        ),
                    ),
                    None => None,
                },
                ..next
            },
        }
    }

    /// The controller after a loss, but for its pacing rate.
    pub open spec fn lost(self, lost_bytes: u64, decreased: DecreasedWindow, now: Instant)
        -> CongestionView {
        match self.algorithm {
            CongestionAlgorithm::NewReno => CongestionView {
                newreno: self.newreno.lost(self.min_window, now),
                ..self
            },
            CongestionAlgorithm::BBR => CongestionView { bbr: self.bbr.lost(now), ..self },
            CongestionAlgorithm::BBRv2 => CongestionView {
                bbr_controller: match self.bbr_controller {
                    Some(b) => if b.state == AdvancedBBRState::Startup && lost_bytes > b.mss {
                        Some(b.draining(now))
                    } else {
                        Some(b)
                    },
                    None => None,
                },
                ..self
            },
            CongestionAlgorithm::CUBIC => CongestionView {
                cubic_controller: match self.cubic_controller {
                    Some(c) => if c.state == CubicState::FastRecovery {
                        Some(c)
                    } else {
                        Some(c.in_fast_recovery(decreased, now))
                    },
                    None => None,
                },
                ..self
            },
        }
    }

    /// Whether the controller of the algorithm is missing.
    pub open spec fn incomplete(self) -> Option<Error> {
        if self.algorithm == CongestionAlgorithm::BBRv2 && self.bbr_controller is None {
            Some(Error::Internal(Reason::Text("BBRv2 controller not initialized")))
        } else if self.algorithm == CongestionAlgorithm::CUBIC && self.cubic_controller is None {
            Some(Error::Internal(Reason::Text("CUBIC controller not initialized")))
        } else {
            None
        }
    }

    /// Whether the algorithm is in slow start, or in what it has for it.
    pub open spec fn slow_start(self) -> bool {
        match self.algorithm {
            CongestionAlgorithm::NewReno => self.newreno.state == CongestionState::SlowStart,
            CongestionAlgorithm::BBR => self.bbr.state == BBRState::Startup,
            CongestionAlgorithm::BBRv2 => self.bbr_controller matches Some(b) && b.state
                == AdvancedBBRState::Startup,
            CongestionAlgorithm::CUBIC => self.cubic_controller matches Some(c) && c.state
                == CubicState::SlowStart,
        }
    }

    /// Whether the algorithm is in recovery. BBR has no such state.
    pub open spec fn recovering(self) -> bool {
        match self.algorithm {
            CongestionAlgorithm::NewReno => self.newreno.state == CongestionState::Recovery,
            CongestionAlgorithm::BBR | CongestionAlgorithm::BBRv2 => false,
            CongestionAlgorithm::CUBIC => self.cubic_controller matches Some(c) && c.state
                == CubicState::FastRecovery,
        }
    }

    /// The slow start threshold in bytes. BBR has none.
    pub open spec fn threshold(self) -> int {
        match self.algorithm {
            CongestionAlgorithm::NewReno => self.newreno.ssthresh as int,
            CongestionAlgorithm::BBR | CongestionAlgorithm::BBRv2 => u64::MAX as int,
            CongestionAlgorithm::CUBIC => match self.cubic_controller {
                Some(c) => c.ssthresh * self.max_datagram_size,
                None => u64::MAX as int,
            },
        }
    }

    /// The smallest round-trip time that the algorithm knows of.
    pub open spec fn known_min_rtt(self) -> Option<Duration> {
        match self.algorithm {
            CongestionAlgorithm::BBR => Some(self.bbr.min_rtt),
            CongestionAlgorithm::NewReno => Some(Duration { nanos: self.rtt.known_min() }),
            CongestionAlgorithm::BBRv2 => match self.bbr_controller {
                Some(b) => Some(b.rtt.min_rtt),
                None => None,
            },
            CongestionAlgorithm::CUBIC => match self.cubic_controller {
                Some(c) => Some(c.min_rtt),
                None => None,
            },
        }
    }

    /// The bottleneck bandwidth that BBR estimates.
    pub open spec fn bottleneck(self) -> Option<u64> {
        match self.algorithm {
            CongestionAlgorithm::BBR => Some(self.bbr.bottleneck_bandwidth),
            CongestionAlgorithm::BBRv2 => match self.bbr_controller {
                Some(b) => Some(b.bandwidth.max_bandwidth),
                None => None,
            },
            CongestionAlgorithm::NewReno | CongestionAlgorithm::CUBIC => None,
        }
    }

    /// The sending rate of BBR, where `v2_rate` is that of the advanced controller.
    pub open spec fn rate(self, v2_rate: u64) -> Option<u64> {
        match self.algorithm {
            CongestionAlgorithm::BBR => Some(self.bbr.sending_rate),
            CongestionAlgorithm::BBRv2 => if self.bbr_controller is Some {
                Some(v2_rate)
            } else {
                None
            },
            CongestionAlgorithm::NewReno | CongestionAlgorithm::CUBIC => None,
        }
    }

    /// The controller after persistent congestion.
    pub open spec fn restarted(self, now: Instant) -> CongestionView {
        match self.algorithm {
            CongestionAlgorithm::NewReno => CongestionView {
                newreno: NewRenoState::fresh(self.initial_window),
                ..self
            },
            CongestionAlgorithm::BBR => CongestionView {
                bbr: self.bbr.restarted(self.initial_window, now),
                ..self
            },
            CongestionAlgorithm::BBRv2 => CongestionView {
                bbr_controller: match self.bbr_controller {
                    Some(b) => Some(b.restarted(now)),
                    None => None,
                },
                ..self
            },
            CongestionAlgorithm::CUBIC => CongestionView {
                cubic_controller: match self.cubic_controller {
                    Some(c) => Some(
                        CubicController {
                            ssthresh: max_int(
                                (c.cwnd / 2) as int,
                                c.config.min_cwnd as int,
                            ) as u32,
                            cwnd: c.config.min_cwnd,
                            state: CubicState::SlowStart,
                            epoch_start: None,
                            hystart: crate::cubic::HyStart::fresh(c.hystart.enabled, now),
                            ..c
                        },
                    ),
                    None => None,
                },
                ..self
            },
        }
    }
}

impl Default for CongestionController {
    fn default() -> (r: CongestionController)
        ensures
            r@ == CongestionView::fresh(CongestionAlgorithm::NewReno, Instant { nanos: 0 }),
    {
        Self::new(Instant::from_nanos(0))
    }
}

impl CongestionController {
    /// Create a new congestion controller with the default algorithm
    pub fn new(now: Instant) -> (r: CongestionController)
        ensures
            r@ == CongestionView::fresh(CongestionAlgorithm::NewReno, now),
    {
        Self::with_algorithm(CongestionAlgorithm::NewReno, now)
    }

    /// Create a new congestion controller with specified algorithm
    pub fn with_algorithm(algorithm: CongestionAlgorithm, now: Instant) -> (r: CongestionController)
        ensures
            r@ == CongestionView::fresh(algorithm, now),
    {
        let max_datagram_size: u64 = 1200;
        let initial_window: u64 = Self::initial_congestion_window(max_datagram_size);
        let bbr_controller: Option<BBRController> = if matches!(
            algorithm,
            CongestionAlgorithm::BBRv2
        ) {
            Some(BBRController::new(max_datagram_size, now))
        } else {
            None
        };
        let cubic_controller: Option<CubicController> = if matches!(
            algorithm,
            CongestionAlgorithm::CUBIC
        ) {
            Some(CubicController::new(1200, now))
        } else {
            None
        };
        CongestionController {
            algorithm,
            max_datagram_size,
            initial_window,
            min_window: 2 * max_datagram_size,
            newreno: NewRenoState {
                congestion_window: initial_window,
                ssthresh: u64::MAX,
                bytes_acked: 0,
                state: CongestionState::SlowStart,
                recovery_start_time: None,
            },
            bbr: BbrAlgorithm::new(initial_window, now),
            bbr_controller,
            cubic_controller,
            pacing_controller: PacingController::new(PacingConfig::default(), now),
            ecn_controller: EcnController::new(),
            rtt_tracker: RttTracker::new(),
        }
    }

    /// Calculate initial congestion window per RFC 9002: ten datagrams or 32 KB, whichever is
    /// smaller
    pub fn initial_congestion_window(max_datagram_size: u64) -> (r: u64)
        requires
            10 * max_datagram_size <= u64::MAX,
        ensures
            r == min_int(10 * max_datagram_size, 32768),
    {
        let window: u64 = 10 * max_datagram_size;
        if window <= 32768 {
            window
        } else {
            32768
        }
    }

    /// Whether NewReno has room for so many acknowledged bytes, in datagrams of 1200 bytes
    pub fn has_room_for_bytes(&self, acked: u64) -> (r: bool)
        ensures
            r == (self@.newreno.has_room_for(acked as int, 1200) && self@.rtt.sample_count
                < u64::MAX),
    {
        self.newreno.has_room(acked, 1200) && self.rtt_tracker.sample_count < u64::MAX
    }

    /// Whether an acknowledgment can be counted
    pub fn can_count_ack(&self, ack_ranges: &[(u64, u64)], rtt: Duration, now: Instant) -> (r: bool)
        ensures
            r == (ascending(ack_ranges@) && self@.has_room_for(
                acked_sum(ack_ranges@, self@.max_datagram_size),
                rtt,
                now,
            )),
    {
        if self.rtt_tracker.sample_count == u64::MAX {
            return false;
        }
        let acked_bytes: u64 = match checked_acked(ack_ranges, self.max_datagram_size) {
            Some(n) => n,
            None => {
                return false;
            },
        };
        let mut tracker: RttTracker = self.rtt_tracker;
        tracker.update_rtt(rtt);
        let smoothed_rtt: Duration = tracker.smoothed_rtt;
        match self.algorithm {
            CongestionAlgorithm::NewReno => self.newreno.has_room(
                acked_bytes,
                self.max_datagram_size,
            ),
            CongestionAlgorithm::BBR => self.bbr.has_room(acked_bytes, smoothed_rtt, now),
            CongestionAlgorithm::BBRv2 => match &self.bbr_controller {
                Some(bbr) => bbr.has_room(acked_bytes, smoothed_rtt),
                None => true,
            },
            CongestionAlgorithm::CUBIC => match &self.cubic_controller {
                Some(cubic) => cubic.has_room(acked_bytes, smoothed_rtt, now),
                None => true,
            },
        }
    }

    /// Whether a periodic update can be computed
    pub fn can_update(&self) -> (r: bool)
        ensures
            r == self@.can_update(),
    {
        match self.algorithm {
            CongestionAlgorithm::BBR => self.bbr.can_step(),
            CongestionAlgorithm::CUBIC => match &self.cubic_controller {
                Some(cubic) => {
                    if cubic.min_rtt.nanos == 0 {
                        return true;
                    }
                    match (cubic.cwnd as u64).checked_mul(self.max_datagram_size) {
                        Some(bytes) => bytes.checked_mul(1_000_000).is_some()
                            && cubic.min_rtt.micros_u64() > 0,
                        None => false,
                    }
                },
                None => true,
            },
            _ => true,
        }
    }

    /// Whether the rate of a window for each round-trip time can be computed
    pub fn can_pace(&self) -> (r: bool)
        ensures
            r == self@.can_pace(),
    {
        match self.algorithm {
            CongestionAlgorithm::NewReno => self.newreno.congestion_window.checked_mul(
                1000,
            ).is_some(),
            CongestionAlgorithm::CUBIC => match &self.cubic_controller {
                Some(cubic) => cubic.srtt.nanos == 0 || (
                cubic.congestion_window().checked_mul(1000).is_some() && cubic.srtt.millis_u64()
                    > 0),
                None => true,
            },
            _ => true,
        }
    }

    /// Process acknowledgment of packets, with a round-trip time of 100 milliseconds
    pub fn on_ack_received(&mut self, ack_ranges: &[(u64, u64)], now: Instant) -> (r: Result<
        AckStep,
        Error,
    >)
        requires
            ascending(ack_ranges@),
            old(self)@.has_room_for(
                acked_sum(ack_ranges@, old(self)@.max_datagram_size),
                Duration { nanos: 100_000_000 },
                now,
            ),
        ensures
            final(self)@ == old(self)@.acked(
                acked_sum(ack_ranges@, old(self)@.max_datagram_size),
                Duration { nanos: 100_000_000 },
                now,
            ),
            old(self)@.incomplete() matches Some(e) ==> r == Err::<AckStep, Error>(e),
            old(self)@.incomplete() is None ==> r is Ok && (old(self)@.algorithm
                == CongestionAlgorithm::NewReno ==> r->Ok_0 == AckStep::Done),
    {
        self.on_ack_received_with_rtt(ack_ranges, Duration::from_millis(100), now)
    }

    /// Process acknowledgment of packets with RTT measurement. Each packet counts as one
    /// datagram of maximum size. What is left to do is returned
    pub fn on_ack_received_with_rtt(
        &mut self,
        ack_ranges: &[(u64, u64)],
        rtt: Duration,
        now: Instant,
    ) -> (r: Result<AckStep, Error>)
        requires
            ascending(ack_ranges@),
            old(self)@.has_room_for(
                acked_sum(ack_ranges@, old(self)@.max_datagram_size),
                rtt,
                now,
            ),
        ensures
            final(self)@ == old(self)@.acked(
                acked_sum(ack_ranges@, old(self)@.max_datagram_size),
                rtt,
                now,
            ),
            match old(self)@.incomplete() {
                Some(e) => r == Err::<AckStep, Error>(e),
                None => match old(self)@.algorithm {
                    CongestionAlgorithm::NewReno => r == Ok::<AckStep, Error>(AckStep::Done),
                    CongestionAlgorithm::BBR => r == Ok::<AckStep, Error>(AckStep::ScaleBbrWindow),
                    CongestionAlgorithm::BBRv2 => r == Ok::<AckStep, Error>(
                        AckStep::ScaleBbrV2Window,
                    ),
                    CongestionAlgorithm::CUBIC => {
                        let m = old(self)@.cubic_controller->Some_0.measured(
                            acked_sum(ack_ranges@, old(self)@.max_datagram_size) as u64,
                            final(self)@.rtt.smoothed_rtt,
                            now,
                        );
                        r == Ok::<AckStep, Error>(
                            if m.state == CubicState::CongestionAvoidance {
                                AckStep::EvaluateCubic(m.curve_input(now))
                            } else {
                                AckStep::Done
                            },
                        )
                    },
                },
            },
    {
        let acked_bytes: u64 = count_acked(ack_ranges, self.max_datagram_size);
        self.rtt_tracker.update_rtt(rtt);
        let smoothed_rtt: Duration = self.rtt_tracker.smoothed_rtt;
        self.pacing_controller.on_ack_received(acked_bytes, smoothed_rtt);
        self.ecn_controller.on_ack_received(acked_bytes, smoothed_rtt);
        match self.algorithm {
            CongestionAlgorithm::NewReno => {
                self.newreno_on_ack_received(acked_bytes);
                Ok(AckStep::Done)
            },
            CongestionAlgorithm::BBR => {
                self.bbr.on_ack_sample(acked_bytes, smoothed_rtt, now);
                self.bbr.update_state(now);
                Ok(AckStep::ScaleBbrWindow)
            },
            CongestionAlgorithm::BBRv2 => match &mut self.bbr_controller {
                Some(bbr) => {
                    bbr.on_ack(acked_bytes, smoothed_rtt, now);
                    Ok(AckStep::ScaleBbrV2Window)
                },
                None => Err(Error::Internal(Reason::Text("BBRv2 controller not initialized"))),
            },
            CongestionAlgorithm::CUBIC => match &mut self.cubic_controller {
                Some(cubic) => match cubic.on_ack(acked_bytes, smoothed_rtt, now) {
                    Some(input) => Ok(AckStep::EvaluateCubic(input)),
                    None => Ok(AckStep::Done),
                },
                None => Err(Error::Internal(Reason::Text("CUBIC controller not initialized"))),
            },
        }
    }

    /// NewReno ACK processing
    fn newreno_on_ack_received(&mut self, acked_bytes: u64)
        requires
            old(self)@.newreno.has_room_for(acked_bytes as int, old(self)@.max_datagram_size),
        ensures
            final(self)@ == (CongestionView {
                newreno: old(self)@.newreno.acked(
                    acked_bytes as int,
                    old(self)@.max_datagram_size,
                ),
                ..old(self)@
            }),
    {
        match self.newreno.state {
            CongestionState::SlowStart => {
                self.newreno.congestion_window += acked_bytes;
                if self.newreno.congestion_window >= self.newreno.ssthresh {
                    self.newreno.state = CongestionState::CongestionAvoidance;
                    self.newreno.bytes_acked = 0;
                }
            },
            CongestionState::CongestionAvoidance => {
                self.newreno.bytes_acked += acked_bytes;
                if self.newreno.bytes_acked >= self.newreno.congestion_window {
                    self.newreno.congestion_window += self.max_datagram_size;
                    self.newreno.bytes_acked = 0;
                }
            },
            CongestionState::Recovery => {},
        }
    }

    /// The bandwidth delay product of BBR, which the congestion window gain is to scale
    pub fn bbr_bandwidth_delay_product(&self) -> (r: u64)
        requires
            self@.bbr.bdp() <= u64::MAX,
        ensures
            r == self@.bbr.bdp(),
    {
        self.bbr.bottleneck_bandwidth * self.bbr.min_rtt.as_secs()
    }

    /// Completes an acknowledgment of BBR
    pub fn finish_bbr_ack(&mut self, scaled_bdp: u64)
        ensures
            final(self)@ == (CongestionView {
                bbr: old(self)@.bbr.window_updated(scaled_bdp, old(self)@.min_window),
                ..old(self)@
            }),
    {
        self.bbr.update_congestion_window(scaled_bdp, self.min_window);
    }

    /// Completes an acknowledgment of the advanced BBR controller
    pub fn finish_bbr_v2_ack(&mut self, products: BBRProducts, now: Instant)
        requires
            old(self)@.bbr_controller matches Some(b) ==> b.can_advance(products, now),
        ensures
            final(self)@ == (CongestionView {
                bbr_controller: match old(self)@.bbr_controller {
                    Some(b) => Some(b.advanced(products, now)),
                    None => None,
                },
                ..old(self)@
            }),
    {
        if let Some(bbr) = &mut self.bbr_controller {
            bbr.after_ack(products, now);
        }
    }

    /// Completes an acknowledgment of CUBIC in congestion avoidance
    pub fn finish_cubic_ack(&mut self, target_cwnd: u32)
        ensures
            final(self)@ == (CongestionView {
                cubic_controller: match old(self)@.cubic_controller {
                    Some(c) => Some(c.moved_toward(target_cwnd)),
                    None => None,
                },
                ..old(self)@
            }),
    {
        if let Some(cubic) = &mut self.cubic_controller {
            cubic.update_cwnd_toward_target(target_cwnd);
        }
    }

    /// Handle packet loss detection. `decreased` is the window of CUBIC under its decrease
    /// factors. What a loss does to the pacing rate is owed separately: it takes real-valued
    /// factors, and is [`PacingController::on_packet_lost`]
    pub fn on_packet_lost(&mut self, lost_bytes: u64, decreased: DecreasedWindow, now: Instant)
        -> (r: Result<(), Error>)
        ensures
            final(self)@ == old(self)@.lost(lost_bytes, decreased, now),
            r == match old(self)@.incomplete() {
                Some(e) => Err::<(), Error>(e),
                None => Ok(()),
            },
    {
        match self.algorithm {
            CongestionAlgorithm::NewReno => {
                self.newreno_on_packet_lost(now);
                Ok(())
            },
            CongestionAlgorithm::BBR => {
                self.bbr.on_packet_lost(now);
                Ok(())
            },
            CongestionAlgorithm::BBRv2 => match &mut self.bbr_controller {
                Some(bbr) => {
                    bbr.on_loss(lost_bytes, now);
                    Ok(())
                },
                None => Err(Error::Internal(Reason::Text("BBRv2 controller not initialized"))),
            },
            CongestionAlgorithm::CUBIC => match &mut self.cubic_controller {
                Some(cubic) => {
                    cubic.on_loss(decreased, now);
                    Ok(())
                },
                None => Err(Error::Internal(Reason::Text("CUBIC controller not initialized"))),
            },
        }
    }

    /// NewReno loss handling
    fn newreno_on_packet_lost(&mut self, now: Instant)
        ensures
            final(self)@ == (CongestionView {
                newreno: old(self)@.newreno.lost(old(self)@.min_window, now),
                ..old(self)@
            }),
    {
        if !matches!(self.newreno.state, CongestionState::Recovery) {
            self.newreno.state = CongestionState::Recovery;
            self.newreno.recovery_start_time = Some(now);
            let half: u64 = self.newreno.congestion_window / 2;
            self.newreno.ssthresh = if half >= self.min_window {
                half
            } else {
                self.min_window
            };
            self.newreno.congestion_window = self.newreno.ssthresh;
            self.newreno.bytes_acked = 0;
        }
    }

    /// Handle congestion event (when persistent congestion is detected)
    pub fn on_congestion_event(&mut self, now: Instant)
        requires
            old(self)@.algorithm == CongestionAlgorithm::BBRv2 ==> (old(self)@.bbr_controller
                matches Some(b) ==> b.config.min_cwnd_packets * b.mss <= u64::MAX),
        ensures
            final(self)@ == old(self)@.restarted(now),
    {
        match self.algorithm {
            CongestionAlgorithm::NewReno => {
                self.newreno.congestion_window = self.initial_window;
                self.newreno.ssthresh = u64::MAX;
                self.newreno.state = CongestionState::SlowStart;
                self.newreno.recovery_start_time = None;
                self.newreno.bytes_acked = 0;
            },
            CongestionAlgorithm::BBR => {
                self.bbr.restart(self.initial_window, now);
            },
            CongestionAlgorithm::BBRv2 => {
                if let Some(bbr) = &mut self.bbr_controller {
                    bbr.reset(now);
                }
            },
            CongestionAlgorithm::CUBIC => {
                if let Some(cubic) = &mut self.cubic_controller {
                    cubic.on_persistent_congestion(now);
                }
            },
        }
    }

    /// Handle ECN congestion event. NewReno treats it like a loss
    pub fn on_ecn_congestion_event(
        &mut self,
        ecn_event: &EcnCongestionEvent,
        reduced: EcnReductions,
        now: Instant,
    ) -> (r: Result<(), Error>)
        ensures
            r == match old(self)@.incomplete() {
                Some(e) => Err::<(), Error>(e),
                None => Ok(()),
            },
            match old(self)@.algorithm {
                CongestionAlgorithm::NewReno => final(self)@ == (CongestionView {
                    newreno: old(self)@.newreno.lost(old(self)@.min_window, now),
                    ..old(self)@
                }),
                CongestionAlgorithm::BBR => final(self)@ == (CongestionView {
                    bbr: old(self)@.bbr.marked(now),
                    ..old(self)@
                }),
                CongestionAlgorithm::BBRv2 => final(self)@ == (CongestionView {
                    bbr_controller: match old(self)@.bbr_controller {
                        Some(b) => {
                            let d = if b.state == AdvancedBBRState::Startup
                                && ecn_event.marking_rate.above(10) {
                                b.draining(now)
                            } else {
                                b
                            };
                            if ecn_event.marking_rate.above(5) && d.bandwidth.max_bandwidth > 0 {
                                Some(
                                    BBRView {
                                        bandwidth: d.bandwidth.with_sample(reduced.bandwidth, now),
                                        ..d
                                    },
                                )
                            } else {
                                Some(d)
                            }
                        },
                        None => None,
                    },
                    ..old(self)@
                }),
                CongestionAlgorithm::CUBIC => final(self)@ == (CongestionView {
                    cubic_controller: match old(self)@.cubic_controller {
                        Some(c) => Some(c.marked(reduced.window, now)),
                        None => None,
                    },
                    ..old(self)@
                }),
            },
    {
        match self.algorithm {
            CongestionAlgorithm::NewReno => {
                self.newreno_on_packet_lost(now);
                Ok(())
            },
            CongestionAlgorithm::BBR => {
                self.bbr.on_ecn_congestion(now);
                Ok(())
            },
            CongestionAlgorithm::BBRv2 => match &mut self.bbr_controller {
                Some(bbr) => {
                    bbr.on_ecn_congestion(ecn_event, reduced.bandwidth, now);
                    Ok(())
                },
                None => Err(Error::Internal(Reason::Text("BBRv2 controller not initialized"))),
            },
            CongestionAlgorithm::CUBIC => match &mut self.cubic_controller {
                Some(cubic) => {
                    cubic.on_ecn_congestion(reduced.window, now);
                    Ok(())
                },
                None => Err(Error::Internal(Reason::Text("CUBIC controller not initialized"))),
            },
        }
    }

    /// Update controller state (called periodically)
    pub fn update(&mut self, now: Instant) -> (r: UpdateStep)
        requires
            old(self)@.can_update(),
        ensures
            final(self)@ == (CongestionView {
                newreno: if old(self)@.algorithm == CongestionAlgorithm::NewReno {
                    old(self)@.newreno.updated(now)
                } else {
                    old(self)@.newreno
                },
                bbr: if old(self)@.algorithm == CongestionAlgorithm::BBR {
                    old(self)@.bbr.state_updated(now)
                } else {
                    old(self)@.bbr
                },
                pacing: old(self)@.pacing.refreshed(now),
                ecn: old(self)@.ecn.refreshed(now),
                ..old(self)@
            }),
            r == match old(self)@.algorithm {
                CongestionAlgorithm::NewReno => UpdateStep::Done,
                CongestionAlgorithm::BBR => if old(self)@.bbr.bottleneck_bandwidth > 0 {
                    UpdateStep::ScaleSendingRate
                } else {
                    UpdateStep::Done
                },
                CongestionAlgorithm::BBRv2 => if old(self)@.bbr_controller is Some {
                    UpdateStep::PaceBbrV2
                } else {
                    UpdateStep::Done
                },
                CongestionAlgorithm::CUBIC => match old(self)@.cubic_controller {
                    Some(c) => if c.min_rtt.nanos > 0 {
                        UpdateStep::Pace(
                            (c.cwnd * old(self)@.max_datagram_size * 1_000_000
                                / c.min_rtt.micros()) as u64,
                        )
                    } else {
                        UpdateStep::Done
                    },
                    None => UpdateStep::Done,
                },
            },
    {
        self.pacing_controller.update(now);
        self.ecn_controller.update(now);
        match self.algorithm {
            CongestionAlgorithm::NewReno => {
                if let Some(recovery_start) = self.newreno.recovery_start_time {
                    if matches!(self.newreno.state, CongestionState::Recovery)
                        && now.duration_since(recovery_start).nanos > 100_000_000 {
                        self.newreno.state = CongestionState::CongestionAvoidance;
                        self.newreno.recovery_start_time = None;
                    }
                }
                UpdateStep::Done
            },
            CongestionAlgorithm::BBR => {
                self.bbr.update_state(now);
                if self.bbr.bottleneck_bandwidth > 0 {
                    UpdateStep::ScaleSendingRate
                } else {
                    UpdateStep::Done
                }
            },
            CongestionAlgorithm::BBRv2 => {
                if self.bbr_controller.is_some() {
                    UpdateStep::PaceBbrV2
                } else {
                    UpdateStep::Done
                }
            },
            CongestionAlgorithm::CUBIC => {
                if let Some(cubic) = &self.cubic_controller {
                    if cubic.min_rtt.nanos > 0 {
                        let cwnd_bytes: u64 = cubic.cwnd as u64 * self.max_datagram_size;
                        UpdateStep::Pace((cwnd_bytes * 1_000_000) / cubic.min_rtt.micros_u64())
                    } else {
                        UpdateStep::Done
                    }
                } else {
                    UpdateStep::Done
                }
            },
        }
    }

    /// Sets the sending rate of BBR
    pub fn set_sending_rate(&mut self, rate: u64)
        ensures
            final(self)@ == (CongestionView {
                bbr: BbrAlgorithmView { sending_rate: rate, ..old(self)@.bbr },
                ..old(self)@
            }),
    {
        self.bbr.sending_rate = rate;
    }

    /// Set maximum datagram size. `scaled` are the windows in proportion to it
    pub fn set_max_datagram_size(&mut self, size: u64, scaled: ScaledWindows)
        requires
            2 * size <= u64::MAX,
        ensures
            final(self)@ == (if old(self)@.max_datagram_size > 0 {
                CongestionView {
                    max_datagram_size: size,
                    min_window: (2 * size) as u64,
                    newreno: NewRenoState {
                        congestion_window: scaled.congestion_window,
                        ssthresh: scaled.ssthresh,
                        ..old(self)@.newreno
                    },
                    bbr: BbrAlgorithmView {
                        target_cwnd: scaled.target_cwnd,
                        ..old(self)@.bbr
                    },
                    ..old(self)@
                }
            } else {
                CongestionView {
                    max_datagram_size: size,
                    min_window: (2 * size) as u64,
                    ..old(self)@
                }
            }),
    {
        let old_size: u64 = self.max_datagram_size;
        self.max_datagram_size = size;
        self.min_window = 2 * size;
        if old_size > 0 {
            self.newreno.congestion_window = scaled.congestion_window;
            self.newreno.ssthresh = scaled.ssthresh;
            self.bbr.target_cwnd = scaled.target_cwnd;
        }
    }

    /// Check if we can send more data (considers congestion window and pacing)
    pub fn can_send(&self, bytes_in_flight: u64, enough_tokens: bool) -> (r: bool)
        ensures
            r == (bytes_in_flight < self@.window() && self@.pacing.may_send(enough_tokens)),
    {
        if bytes_in_flight >= self.congestion_window() {
            return false;
        }
        self.pacing_controller.can_send_now(enough_tokens)
    }

    /// Get available sending window (considering both congestion window and pacing)
    pub fn sending_window(&self, bytes_in_flight: u64, enough_tokens: bool) -> (r: u64)
        ensures
            r == min_int(
                max_int(self@.window() - bytes_in_flight, 0),
                if self@.pacing.may_send(enough_tokens) {
                    (self@.pacing.pacing_rate / 1000 * 10) as int
                } else {
                    0
                },
            ),
            r > 0 ==> bytes_in_flight + r <= self@.window() && self@.pacing.may_send(enough_tokens),
            100 * r <= self@.pacing.pacing_rate,
    {
        let cwnd_available: u64 = self.congestion_window().saturating_sub(bytes_in_flight);
        let pacing_available: u64 = self.pacing_controller.available_window(enough_tokens);
        if cwnd_available <= pacing_available {
            cwnd_available
        } else {
            pacing_available
        }
    }

    /// Get current congestion window
    pub fn congestion_window(&self) -> (r: u64)
        ensures
            r == self@.window(),
    {
        match self.algorithm {
            CongestionAlgorithm::NewReno => self.newreno.congestion_window,
            CongestionAlgorithm::BBR => self.bbr.target_cwnd,
            CongestionAlgorithm::BBRv2 => match &self.bbr_controller {
                Some(bbr) => bbr.congestion_window(),
                None => self.initial_window,
            },
            CongestionAlgorithm::CUBIC => match &self.cubic_controller {
                Some(cubic) => cubic.congestion_window(),
                None => self.initial_window,
            },
        }
    }

    /// Get current slow start threshold
    pub fn ssthresh(&self) -> (r: u64)
        requires
            self@.threshold() <= u64::MAX,
        ensures
            r == self@.threshold(),
    {
        match self.algorithm {
            CongestionAlgorithm::NewReno => self.newreno.ssthresh,
            CongestionAlgorithm::BBR => u64::MAX,
            CongestionAlgorithm::BBRv2 => u64::MAX,
            CongestionAlgorithm::CUBIC => match &self.cubic_controller {
                Some(cubic) => cubic.ssthresh as u64 * self.max_datagram_size,
                None => u64::MAX,
            },
        }
    }

    /// Check if in slow start
    pub fn in_slow_start(&self) -> (r: bool)
        ensures
            r == self@.slow_start(),
    {
        match self.algorithm {
            CongestionAlgorithm::NewReno => matches!(self.newreno.state, CongestionState::SlowStart),
            CongestionAlgorithm::BBR => matches!(self.bbr.state, BBRState::Startup),
            CongestionAlgorithm::BBRv2 => match &self.bbr_controller {
                Some(bbr) => matches!(bbr.state(), AdvancedBBRState::Startup),
                None => false,
            },
            CongestionAlgorithm::CUBIC => match &self.cubic_controller {
                Some(cubic) => matches!(cubic.state(), CubicState::SlowStart),
                None => false,
            },
        }
    }

    /// Check if in recovery
    pub fn in_recovery(&self) -> (r: bool)
        ensures
            r == self@.recovering(),
    {
        match self.algorithm {
            CongestionAlgorithm::NewReno => matches!(self.newreno.state, CongestionState::Recovery),
            CongestionAlgorithm::BBR => false,
            CongestionAlgorithm::BBRv2 => false,
            CongestionAlgorithm::CUBIC => match &self.cubic_controller {
                Some(cubic) => matches!(cubic.state(), CubicState::FastRecovery),
                None => false,
            },
        }
    }

    /// Get current congestion control algorithm
    pub fn algorithm(&self) -> (r: CongestionAlgorithm)
        ensures
            r == self@.algorithm,
    {
        self.algorithm
    }

    /// Get BBR sending rate (bytes per second), where `v2_rate` is that of the advanced
    /// controller
    pub fn sending_rate(&self, v2_rate: u64) -> (r: Option<u64>)
        ensures
            r == self@.rate(v2_rate),
    {
        match self.algorithm {
            CongestionAlgorithm::BBR => Some(self.bbr.sending_rate),
            CongestionAlgorithm::NewReno => None,
            CongestionAlgorithm::BBRv2 => if self.bbr_controller.is_some() {
                Some(v2_rate)
            } else {
                None
            },
            CongestionAlgorithm::CUBIC => None,
        }
    }

    /// Get estimated bottleneck bandwidth for BBR
    pub fn bottleneck_bandwidth(&self) -> (r: Option<u64>)
        ensures
            r == self@.bottleneck(),
    {
        match self.algorithm {
            CongestionAlgorithm::BBR => Some(self.bbr.bottleneck_bandwidth),
            CongestionAlgorithm::NewReno => None,
            CongestionAlgorithm::BBRv2 => match &self.bbr_controller {
                Some(bbr) => Some(bbr.bottleneck_bandwidth()),
                None => None,
            },
            CongestionAlgorithm::CUBIC => None,
        }
    }

    /// Get minimum RTT
    pub fn min_rtt(&self) -> (r: Option<Duration>)
        ensures
            r == self@.known_min_rtt(),
    {
        match self.algorithm {
            CongestionAlgorithm::BBR => Some(self.bbr.min_rtt),
            CongestionAlgorithm::NewReno => Some(self.rtt_tracker.min_rtt()),
            CongestionAlgorithm::BBRv2 => match &self.bbr_controller {
                Some(bbr) => Some(bbr.min_rtt()),
                None => None,
            },
            CongestionAlgorithm::CUBIC => match &self.cubic_controller {
                Some(cubic) => Some(cubic.min_rtt),
                None => None,
            },
        }
    }

    /// Get smoothed RTT from RTT tracker
    pub fn smoothed_rtt(&self) -> (r: Duration)
        ensures
            r == self@.rtt.smoothed_rtt,
    {
        self.rtt_tracker.smoothed_rtt
    }

    /// Get latest RTT measurement
    pub fn latest_rtt(&self) -> (r: Duration)
        ensures
            r == self@.rtt.latest_rtt,
    {
        self.rtt_tracker.latest_rtt
    }

    /// Get RTT variance for timeout calculations
    pub fn rtt_var(&self) -> (r: Duration)
        ensures
            r == self@.rtt.rtt_var,
    {
        self.rtt_tracker.rtt_var
    }

    /// Get RTT statistics
    pub fn rtt_stats(&self) -> (r: RttStats)
        ensures
            r == (RttStats {
                smoothed_rtt: self@.rtt.smoothed_rtt,
                min_rtt: Duration { nanos: self@.rtt.known_min() },
                latest_rtt: self@.rtt.latest_rtt,
                rtt_var: self@.rtt.rtt_var,
                sample_count: self@.rtt.sample_count,
            }),
    {
        RttStats {
            smoothed_rtt: self.rtt_tracker.smoothed_rtt,
            min_rtt: self.rtt_tracker.min_rtt(),
            latest_rtt: self.rtt_tracker.latest_rtt,
            rtt_var: self.rtt_tracker.rtt_var,
            sample_count: self.rtt_tracker.sample_count,
        }
    }

    /// Get ECN statistics
    pub fn ecn_stats(&self) -> (r: EcnStats)
        ensures
            r == self@.ecn.summary(),
    {
        self.ecn_controller.stats()
    }

    /// Get pacing statistics
    pub fn pacing_stats(&self) -> (r: PacingStats)
        requires
            self@.pacing.can_average(),
        ensures
            r == self@.pacing.summary(),
    {
        self.pacing_controller.stats()
    }

    /// Check if pacing is enabled
    pub fn is_pacing_enabled(&self) -> (r: bool)
        ensures
            r == (self@.pacing.state != crate::pacing::PacingState::Disabled),
    {
        self.pacing_controller.is_enabled()
    }

    /// Enable/disable pacing
    pub fn set_pacing_enabled(&mut self, enabled: bool)
        ensures
            final(self)@ == (CongestionView {
                pacing: PacingController {
                    state: if enabled {
                        crate::pacing::PacingState::Active
                    } else {
                        crate::pacing::PacingState::Disabled
                    },
                    ..old(self)@.pacing
                },
                ..old(self)@
            }),
    {
        self.pacing_controller.set_enabled(enabled);
    }

    /// The state of BBR, where BBR is in use.
    pub open spec fn shown_bbr_state(v: CongestionView) -> Option<BBRState> {
        match v.algorithm {
            CongestionAlgorithm::BBR => Some(v.bbr.state),
            CongestionAlgorithm::BBRv2 => match v.bbr_controller {
                Some(b) => Some(
                    match b.state {
                        AdvancedBBRState::Startup => BBRState::Startup,
                        AdvancedBBRState::Drain => BBRState::Drain,
                        AdvancedBBRState::ProbeBW => BBRState::ProbeBW,
                        AdvancedBBRState::ProbeRTT => BBRState::ProbeRTT,
                    },
                ),
                None => None,
            },
            CongestionAlgorithm::NewReno | CongestionAlgorithm::CUBIC => None,
        }
    }

    /// Get congestion controller statistics
    pub fn stats(&self, v2_rate: u64) -> (r: CongestionStats)
        requires
            self@.threshold() <= u64::MAX,
        ensures
            r.algorithm == self@.algorithm,
            r.congestion_window == self@.window(),
            r.ssthresh == self@.threshold(),
            r.bytes_acked == (if self@.algorithm == CongestionAlgorithm::NewReno {
                self@.newreno.bytes_acked
            } else {
                0
            }),
            r.newreno_state == (if self@.algorithm == CongestionAlgorithm::NewReno {
                Some(self@.newreno.state)
            } else {
                None
            }),
            r.bbr_state == Self::shown_bbr_state(self@),
            r.in_recovery == self@.recovering(),
            r.max_datagram_size == self@.max_datagram_size,
            r.sending_rate == (match self@.rate(v2_rate) {
                Some(rate) => rate,
                None => 0,
            }),
            r.bottleneck_bandwidth == self@.bottleneck(),
            r.min_rtt == self@.known_min_rtt(),
            r.ecn_stats == Some(self@.ecn.summary()),
    {
        CongestionStats {
            algorithm: self.algorithm,
            congestion_window: self.congestion_window(),
            ssthresh: self.ssthresh(),
            bytes_acked: match self.algorithm {
                CongestionAlgorithm::NewReno => self.newreno.bytes_acked,
                _ => 0,
            },
            newreno_state: match self.algorithm {
                CongestionAlgorithm::NewReno => Some(self.newreno.state),
                _ => None,
            },
            bbr_state: match self.algorithm {
                CongestionAlgorithm::BBR => Some(self.bbr.state),
                CongestionAlgorithm::BBRv2 => match &self.bbr_controller {
                    Some(bbr) => Some(
                        match bbr.state() {
                            AdvancedBBRState::Startup => BBRState::Startup,
                            AdvancedBBRState::Drain => BBRState::Drain,
                            AdvancedBBRState::ProbeBW => BBRState::ProbeBW,
                            AdvancedBBRState::ProbeRTT => BBRState::ProbeRTT,
                        },
                    ),
                    None => None,
                },
                _ => None,
            },
            in_recovery: self.in_recovery(),
            max_datagram_size: self.max_datagram_size,
            sending_rate: match self.sending_rate(v2_rate) {
                Some(rate) => rate,
                None => 0,
            },
            bottleneck_bandwidth: self.bottleneck_bandwidth(),
            min_rtt: self.min_rtt(),
            ecn_stats: Some(self.ecn_controller.stats()),
        }
    }

    /// Check if a packet can be sent immediately
    pub fn can_send_packet(&mut self, enough_tokens: bool) -> (r: bool)
        ensures
            r == old(self)@.pacing.may_send(enough_tokens),
            final(self)@ == (CongestionView {
                pacing: old(self)@.pacing.after_check(),
                ..old(self)@
            }),
    {
        self.pacing_controller.can_send(enough_tokens)
    }

    /// Get the delay required before sending a packet
    pub fn packet_send_delay(&mut self, token_delay: Duration, now: Instant) -> (r: Duration)
        ensures
            final(self)@ == (CongestionView {
                pacing: old(self)@.pacing.after_check(),
                ..old(self)@
            }),
            old(self)@.pacing.state == crate::pacing::PacingState::Active ==> r
                == old(self)@.pacing.paced_delay(token_delay, now),
            old(self)@.pacing.state == crate::pacing::PacingState::Disabled || old(
                self,
            )@.pacing.state == crate::pacing::PacingState::AppLimited ==> r.nanos == 0,
            old(self)@.pacing.state == crate::pacing::PacingState::Burst ==> r == (if old(
                self,
            )@.pacing.burst_allowance > 0 {
                Duration { nanos: 0 }
            } else {
                old(self)@.pacing.paced_delay(token_delay, now)
            }),
    {
        self.pacing_controller.send_delay(token_delay, now)
    }

    /// Record that a packet was sent
    pub fn on_packet_sent(&mut self, packet_size: usize, now: Instant)
        requires
            old(self)@.pacing.packets_sent < u64::MAX,
            old(self)@.pacing.bytes_sent + packet_size <= u64::MAX,
        ensures
            final(self)@ == (CongestionView {
                pacing: old(self)@.pacing.after_sending(packet_size, now),
                ..old(self)@
            }),
    {
        self.pacing_controller.on_packet_sent(packet_size, now);
    }

    /// The rate at which packets are to be paced.
    pub open spec fn wanted_rate(v: CongestionView, v2_rate: u64) -> int {
        match v.algorithm {
            CongestionAlgorithm::NewReno => v.newreno.congestion_window * 1000 / 100,
            CongestionAlgorithm::BBR => v.bbr.sending_rate as int,
            CongestionAlgorithm::BBRv2 => if v.bbr_controller is Some {
                v2_rate as int
            } else {
                1_000_000
            },
            CongestionAlgorithm::CUBIC => match v.cubic_controller {
                Some(c) => if c.srtt.nanos > 0 {
                    c.window() * 1000 / c.srtt.millis()
                } else {
                    1_000_000
                },
                None => 1_000_000,
            },
        }
    }

    /// The rate at which packets are to be paced: a window for each round-trip time where the
    /// algorithm has no rate of its own
    pub fn desired_pacing_rate(&self, v2_rate: u64) -> (r: u64)
        requires
            self@.can_pace(),
        ensures
            r == Self::wanted_rate(self@, v2_rate),
    {
        match self.algorithm {
            CongestionAlgorithm::NewReno => (self.newreno.congestion_window * 1000) / 100,
            CongestionAlgorithm::BBR => self.bbr.sending_rate,
            CongestionAlgorithm::BBRv2 => if self.bbr_controller.is_some() {
                v2_rate
            } else {
                1_000_000
            },
            CongestionAlgorithm::CUBIC => match &self.cubic_controller {
                Some(cubic) => {
                    if cubic.srtt.nanos > 0 {
                        (cubic.congestion_window() * 1000) / cubic.srtt.millis_u64()
                    } else {
                        1_000_000
                    }
                },
                None => 1_000_000,
            },
        }
    }

    /// Update RTT for pacing calculations
    pub fn update_pacing_rtt(&mut self, rtt: Duration)
        ensures
            final(self)@ == (CongestionView { pacing: old(self)@.pacing.with_rtt(rtt), ..old(self)@ }),
    {
        self.pacing_controller.update_rtt(rtt);
    }

    /// Handle congestion event for pacing
    pub fn on_pacing_congestion_event(&mut self)
        ensures
            final(self)@ == (CongestionView { pacing: old(self)@.pacing.congested(), ..old(self)@ }),
    {
        self.pacing_controller.on_congestion_event();
    }

    /// Signal that application is limiting sends
    pub fn set_pacing_app_limited(&mut self, now: Instant, accumulated: u32)
        ensures
            final(self)@ == (CongestionView {
                pacing: old(self)@.pacing.app_limited(now, accumulated),
                ..old(self)@
            }),
    {
        self.pacing_controller.set_app_limited(now, accumulated);
    }
}

/// A loss outside of recovery halves the window of NewReno, though not below the minimum, and
/// a second loss in the same recovery period changes nothing. Recovery does not grow the
/// window.
pub proof fn newreno_halves_once(s: NewRenoState, min_window: u64, a: Instant, b: Instant)
    requires
        s.state != CongestionState::Recovery,
    ensures
        s.lost(min_window, a).congestion_window >= min_window,
        s.congestion_window >= min_window ==> s.lost(min_window, a).congestion_window
            <= s.congestion_window,
        s.congestion_window / 2 >= min_window ==> s.lost(min_window, a).congestion_window
            == s.congestion_window / 2,
        s.lost(min_window, a).lost(min_window, b) == s.lost(min_window, a),
        forall|n: int, d: u64| #[trigger]
            s.lost(min_window, a).acked(n, d) == s.lost(min_window, a),
{
}

/// Acknowledgments never shrink the window of NewReno, and a window that reaches the
/// threshold ends slow start.
pub proof fn newreno_grows(s: NewRenoState, acked_bytes: int, max_datagram_size: u64)
    requires
        acked_bytes >= 0,
        s.has_room_for(acked_bytes, max_datagram_size),
    ensures
        s.acked(acked_bytes, max_datagram_size).congestion_window >= s.congestion_window,
        s.state == CongestionState::SlowStart ==> (s.acked(acked_bytes, max_datagram_size).state
            == CongestionState::SlowStart <==> s.congestion_window + acked_bytes < s.ssthresh),
{
}

} // verus!
