//! BBR (Bottleneck Bandwidth and Round-trip propagation time) congestion control.
//!
//! BBR aims at high throughput and low latency: it estimates the bottleneck bandwidth and the
//! round-trip time, sends around that bandwidth, and probes for more bandwidth and for the
//! minimum round-trip time from time to time.
//!
//! The gains are real-valued. The controller says which gain is in force; the caller computes
//! the products of gains and estimates, and hands them back.

use crate::ecn::EcnCongestionEvent;
use crate::time::{max_int, min_int, Duration, Instant};
use std::collections::VecDeque;
use vstd::prelude::*;

verus! {

/// BBR configuration parameters
#[derive(Debug, Clone, Copy, PartialEq, Eq, Structural)]
pub struct BBRConfig {
    /// Minimum congestion window in packets
    pub min_cwnd_packets: u32,
    /// ProbeRTT duration
    pub probe_rtt_duration: Duration,
    /// Interval between ProbeRTT cycles
    pub probe_rtt_interval: Duration,
    /// Bandwidth filter window length
    pub bandwidth_window_length: usize,
    /// RTT filter window length
    pub rtt_window_length: usize,
    /// Number of rounds to check for full bandwidth
    pub full_bandwidth_count: usize,
}

impl BBRConfig {
    /// The configuration that is used where none is given.
    pub open spec fn standard() -> BBRConfig {
        BBRConfig {
            min_cwnd_packets: 4,
            probe_rtt_duration: Duration { nanos: 200_000_000 },
            probe_rtt_interval: Duration { nanos: 10_000_000_000 },
            bandwidth_window_length: 10,
            rtt_window_length: 10,
            full_bandwidth_count: 3,
        }
    }
}

impl Default for BBRConfig {
    fn default() -> (r: BBRConfig)
        ensures
            r == Self::standard(),
    {
        BBRConfig {
            min_cwnd_packets: 4,
            probe_rtt_duration: Duration::from_millis(200),
            probe_rtt_interval: Duration::from_secs(10),
            bandwidth_window_length: 10,
            rtt_window_length: 10,
            full_bandwidth_count: 3,
        }
    }
}

/// BBR congestion control states
#[derive(Debug, Clone, Copy, PartialEq, Eq, Structural)]
pub enum BBRState {
    /// Startup: discover bottleneck bandwidth
    Startup,
    /// Drain: drain excess packets in flight
    Drain,
    /// ProbeBW: probe for additional bandwidth
    ProbeBW,
    /// ProbeRTT: probe for minimum RTT
    ProbeRTT,
}

/// BBR cycle phases during ProbeBW
#[derive(Debug, Clone, Copy, PartialEq, Eq, Structural)]
pub enum BBRCyclePhase {
    /// Probe up: try to get more bandwidth
    ProbeUp,
    /// Probe down: drain potential queue buildup
    ProbeDown,
    /// Cruise: maintain current rate
    Cruise,
}

/// Which pacing gain is in force.
#[derive(Debug, Clone, Copy, PartialEq, Eq, Structural)]
pub enum PacingGain {
    /// High gain of the startup phase
    Startup,
    /// Drain gain
    Drain,
    /// Gain of a step of the ProbeBW cycle
    ProbeBw(usize),
    /// Default pacing gain
    Neutral,
}

/// Steps in the ProbeBW cycle
pub const PROBE_BW_STEPS: usize = 8;

/// Delivery rate sample for bandwidth estimation
#[derive(Debug, Clone, Copy, PartialEq, Eq, Structural)]
pub struct DeliveryRateSample {
    /// Delivery rate in bytes per second
    pub rate: u64,
    /// RTT measurement
    pub rtt: Duration,
    /// Sample time
    pub timestamp: Instant,
    /// Bytes delivered
    pub delivered: u64,
    /// Whether this sample is from a retransmission
    pub is_retransmit: bool,
    /// Whether this is an app-limited sample
    pub is_app_limited: bool,
}

/// The largest bandwidth among samples.
pub open spec fn max_of(s: Seq<(u64, Instant)>) -> int
    decreases s.len(),
{
    if s.len() == 0 {
        0
    } else {
        max_int(max_of(s.drop_last()), s.last().0 as int)
    }
}

/// The samples without those in front that are older than `cutoff`.
pub open spec fn drop_expired(s: Seq<(u64, Instant)>, cutoff: int) -> Seq<(u64, Instant)>
    decreases s.len(),
{
    if s.len() > 0 && s[0].1.nanos < cutoff {
        drop_expired(s.skip(1), cutoff)
    } else {
        s
    }
}

/// Bandwidth filter using max filter over sliding window
#[derive(Debug)]
pub struct BandwidthFilter {
    /// Samples with their timestamps
    pub samples: VecDeque<(u64, Instant)>,
    /// Current maximum bandwidth
    pub max_bandwidth: u64,
    /// Window duration
    pub window_duration: Duration,
}

/// What a bandwidth filter holds.
#[verifier::ext_equal]
pub struct BandwidthView {
    pub samples: Seq<(u64, Instant)>,
    pub max_bandwidth: u64,
    pub window_duration: Duration,
}

impl View for BandwidthFilter {
    type V = BandwidthView;

    open spec fn view(&self) -> BandwidthView {
        BandwidthView {
            samples: self.samples@,
            max_bandwidth: self.max_bandwidth,
            window_duration: self.window_duration,
        }
    }
}

impl BandwidthView {
    /// The filter with a new sample, without the samples that left the window.
    pub open spec fn with_sample(self, bandwidth: u64, timestamp: Instant) -> BandwidthView {
        let samples = drop_expired(
            self.samples,
            max_int(timestamp.nanos - self.window_duration.nanos, 0),
        ).push((bandwidth, timestamp));
        BandwidthView { samples, max_bandwidth: max_of(samples) as u64, ..self }
    }

    /// Whether the maximum is that of the samples.
    pub open spec fn wf(self) -> bool {
        self.max_bandwidth == max_of(self.samples)
    }
}

/// The maximum of samples is one of them, or zero, and no sample is larger.
pub(crate) proof fn lemma_max_of(s: Seq<(u64, Instant)>)
    ensures
        0 <= max_of(s) <= u64::MAX,
        forall|i: int| 0 <= i < s.len() ==> (#[trigger] s[i]).0 <= max_of(s),
        s.len() > 0 ==> exists|i: int| 0 <= i < s.len() && (#[trigger] s[i]).0 == max_of(s),
    decreases s.len(),
{
    if s.len() > 0 {
        lemma_max_of(s.drop_last());
        assert forall|i: int| 0 <= i < s.len() implies (#[trigger] s[i]).0 <= max_of(s) by {
            if i < s.len() - 1 {
                assert(s.drop_last()[i] == s[i]);
            }
        }
        if max_of(s.drop_last()) > s.last().0 {
            let i = choose|i: int|
                0 <= i < s.drop_last().len() && (#[trigger] s.drop_last()[i]).0 == max_of(
                    s.drop_last(),
                );
            assert(s[i] == s.drop_last()[i]);
        } else {
            assert(s[s.len() - 1] == s.last());
        }
    }
}

/// What a filter reports is a bandwidth that was measured within the window, and no sample
/// of the window is larger. In particular it is not below the newest sample.
pub proof fn bandwidth_is_window_maximum(f: BandwidthView, bandwidth: u64, timestamp: Instant)
    ensures
        ({
            let g = f.with_sample(bandwidth, timestamp);
            &&& g.wf()
            &&& g.max_bandwidth >= bandwidth
            &&& forall|i: int|
                0 <= i < g.samples.len() ==> (#[trigger] g.samples[i]).0 <= g.max_bandwidth
            &&& exists|i: int|
                0 <= i < g.samples.len() && (#[trigger] g.samples[i]).0 == g.max_bandwidth
        }),
{
    let g = f.with_sample(bandwidth, timestamp);
    lemma_max_of(g.samples);
    assert(g.samples.last() == (bandwidth, timestamp));
    assert(g.samples[g.samples.len() - 1].0 == bandwidth);
}

impl BandwidthFilter {
    /// A filter without samples
    pub fn new(window_duration: Duration) -> (r: BandwidthFilter)
        ensures
            r@ == (BandwidthView { samples: Seq::empty(), max_bandwidth: 0, window_duration }),
            r@.wf(),
    {
        BandwidthFilter { samples: VecDeque::new(), max_bandwidth: 0, window_duration }
    }

    /// Add a new bandwidth sample
    pub fn add_sample(&mut self, bandwidth: u64, timestamp: Instant)
        ensures
            final(self)@ == old(self)@.with_sample(bandwidth, timestamp),
            final(self)@.wf(),
    {
        let cutoff_time: Instant = timestamp.saturating_sub(self.window_duration);
        let ghost c = cutoff_time.nanos as int;
        let ghost whole = self.samples@;
        while self.samples.len() > 0 && self.samples[0].1.nanos < cutoff_time.nanos
            invariant
                c == cutoff_time.nanos,
                drop_expired(self.samples@, c) == drop_expired(whole, c),
                self.window_duration == old(self).window_duration,
            decreases self.samples@.len(),
        {
            let ghost before = self.samples@;
            self.samples.pop_front();
            assert(self.samples@ =~= before.skip(1));
        }
        self.samples.push_back((bandwidth, timestamp));
        let ghost all = self.samples@;
        let mut max_bandwidth: u64 = 0;
        let mut i: usize = 0;
        assert(all.take(0) =~= Seq::<(u64, Instant)>::empty());
        while i < self.samples.len()
            invariant
                all == self.samples@,
                i <= all.len(),
                max_bandwidth == max_of(all.take(i as int)),
            decreases all.len() - i,
        {
            assert(all.take(i + 1).drop_last() =~= all.take(i as int));
            if self.samples[i].0 > max_bandwidth {
                max_bandwidth = self.samples[i].0;
            }
            i += 1;
        }
        assert(all.take(i as int) =~= all);
        self.max_bandwidth = max_bandwidth;
    }

    /// Get current maximum bandwidth
    pub fn max_bandwidth(&self) -> (r: u64)
        ensures
            r == self@.max_bandwidth,
    {
        self.max_bandwidth
    }

    /// Reset the filter
    pub fn reset(&mut self)
        ensures
            final(self)@ == (BandwidthView {
                samples: Seq::empty(),
                max_bandwidth: 0,
                ..old(self)@
            }),
    {
        self.samples.clear();
        self.max_bandwidth = 0;
    }
}

/// RTT filter using minimum filter
#[derive(Debug)]
pub struct RTTFilter {
    /// Recent RTT samples
    pub samples: VecDeque<(Duration, Instant)>,
    /// Current minimum RTT
    pub min_rtt: Duration,
    /// When min_rtt was last updated
    pub min_rtt_timestamp: Instant,
    /// Maximum number of samples to keep
    pub max_samples: usize,
}

/// What an RTT filter holds.
#[verifier::ext_equal]
pub struct RttView {
    pub samples: Seq<(Duration, Instant)>,
    pub min_rtt: Duration,
    pub min_rtt_timestamp: Instant,
    pub max_samples: usize,
}

impl View for RTTFilter {
    type V = RttView;

    open spec fn view(&self) -> RttView {
        RttView {
            samples: self.samples@,
            min_rtt: self.min_rtt,
            min_rtt_timestamp: self.min_rtt_timestamp,
            max_samples: self.max_samples,
        }
    }
}

impl RttView {
    /// A filter without samples.
    pub open spec fn fresh(max_samples: usize, now: Instant) -> RttView {
        RttView {
            samples: Seq::empty(),
            min_rtt: Duration { nanos: 1_000_000_000 },
            min_rtt_timestamp: now,
            max_samples,
        }
    }

    /// The filter with a new sample, where the oldest one makes room.
    pub open spec fn with_sample(self, rtt: Duration, timestamp: Instant) -> RttView {
        let samples = self.samples.push((rtt, timestamp));
        let lower = rtt.nanos <= self.min_rtt.nanos;
        RttView {
            samples: if samples.len() > self.max_samples {
                samples.skip(1)
            } else {
                samples
            },
            min_rtt: if lower {
                rtt
            } else {
                self.min_rtt
            },
            min_rtt_timestamp: if lower {
                timestamp
            } else {
                self.min_rtt_timestamp
            },
            ..self
        }
    }
}

impl RTTFilter {
    /// A filter without samples
    pub fn new(max_samples: usize, now: Instant) -> (r: RTTFilter)
        ensures
            r@ == RttView::fresh(max_samples, now),
    {
        RTTFilter {
            samples: VecDeque::new(),
            min_rtt: Duration::from_millis(1000),
            min_rtt_timestamp: now,
            max_samples,
        }
    }

    /// Add RTT sample
    pub fn add_sample(&mut self, rtt: Duration, timestamp: Instant)
        ensures
            final(self)@ == old(self)@.with_sample(rtt, timestamp),
    {
        let ghost before = self.samples@;
        self.samples.push_back((rtt, timestamp));
        if self.samples.len() > self.max_samples {
            self.samples.pop_front();
            assert(self.samples@ =~= before.push((rtt, timestamp)).skip(1));
        }
        if rtt.nanos <= self.min_rtt.nanos {
            self.min_rtt = rtt;
            self.min_rtt_timestamp = timestamp;
        }
    }

    /// Get current minimum RTT
    pub fn min_rtt(&self) -> (r: Duration)
        ensures
            r == self@.min_rtt,
    {
        self.min_rtt
    }

    /// Get time when min RTT was last updated
    pub fn min_rtt_timestamp(&self) -> (r: Instant)
        ensures
            r == self@.min_rtt_timestamp,
    {
        self.min_rtt_timestamp
    }

    /// Reset filter
    pub fn reset(&mut self, timestamp: Instant)
        ensures
            final(self)@ == RttView::fresh(old(self)@.max_samples, timestamp),
    {
        self.samples.clear();
        self.min_rtt = Duration::from_millis(1000);
        self.min_rtt_timestamp = timestamp;
    }
}

/// BBR congestion controller
#[derive(Debug)]
pub struct BBRController {
    /// Configuration
    pub config: BBRConfig,
    /// Current BBR state
    pub state: BBRState,
    /// Current cycle phase (for ProbeBW)
    pub cycle_phase: BBRCyclePhase,
    /// Cycle index for ProbeBW
    pub cycle_index: usize,
    /// Bandwidth estimation
    pub bandwidth_filter: BandwidthFilter,
    /// RTT tracking
    pub rtt_filter: RTTFilter,
    /// Current pacing gain
    pub pacing_gain: PacingGain,
    /// Current congestion window in bytes
    pub congestion_window: u64,
    /// Target congestion window
    pub target_cwnd: u64,
    /// Maximum datagram size
    pub mss: u64,
    /// Round trip counter
    pub round_count: u64,
    /// Delivered bytes counter
    pub delivered: u64,
    /// Next round trip to advance cycle
    pub next_round_delivered: u64,
    /// Whether full bandwidth has been reached
    pub full_bandwidth_reached: bool,
    /// Rounds without growth
    pub full_bandwidth_count: usize,
    /// When the state began
    pub state_start_time: Instant,
    /// When the step of the cycle began
    pub cycle_start_time: Instant,
    /// App-limited tracking
    pub app_limited: u64,
    /// Packets currently in flight
    pub packets_out: u64,
    /// Delivery rate estimation
    pub delivery_rate_samples: VecDeque<DeliveryRateSample>,
}

/// What a BBR controller holds.
#[verifier::ext_equal]
pub struct BBRView {
    pub config: BBRConfig,
    pub state: BBRState,
    pub cycle_phase: BBRCyclePhase,
    pub cycle_index: usize,
    pub bandwidth: BandwidthView,
    pub rtt: RttView,
    pub pacing_gain: PacingGain,
    pub congestion_window: u64,
    pub target_cwnd: u64,
    pub mss: u64,
    pub round_count: u64,
    pub delivered: u64,
    pub next_round_delivered: u64,
    pub full_bandwidth_reached: bool,
    pub full_bandwidth_count: usize,
    pub state_start_time: Instant,
    pub cycle_start_time: Instant,
    pub app_limited: u64,
    pub packets_out: u64,
    pub delivery_rate_samples: Seq<DeliveryRateSample>,
}

impl View for BBRController {
    type V = BBRView;

    open spec fn view(&self) -> BBRView {
        BBRView {
            config: self.config,
            state: self.state,
            cycle_phase: self.cycle_phase,
            cycle_index: self.cycle_index,
            bandwidth: self.bandwidth_filter@,
            rtt: self.rtt_filter@,
            pacing_gain: self.pacing_gain,
            congestion_window: self.congestion_window,
            target_cwnd: self.target_cwnd,
            mss: self.mss,
            round_count: self.round_count,
            delivered: self.delivered,
            next_round_delivered: self.next_round_delivered,
            full_bandwidth_reached: self.full_bandwidth_reached,
            full_bandwidth_count: self.full_bandwidth_count,
            state_start_time: self.state_start_time,
            cycle_start_time: self.cycle_start_time,
            app_limited: self.app_limited,
            packets_out: self.packets_out,
            delivery_rate_samples: self.delivery_rate_samples@,
        }
    }
}

/// Products of gains and estimates that the caller computed.
#[derive(Debug, Clone, Copy, PartialEq, Eq, Structural)]
pub struct BBRProducts {
    /// Bandwidth under the full bandwidth threshold
    pub growth_threshold: u64,
    /// Bandwidth delay product
    pub bdp: u64,
    /// Bandwidth delay product under the congestion window gain
    pub target_cwnd: u64,
}

/// The window at the start: at least some ten packets.
pub open spec fn initial_window(mss: u64, min_packets: u32) -> int {
    max_int(min_packets * mss, 14720)
}

impl BBRView {
    /// A controller to which nothing has happened.
    pub open spec fn fresh(mss: u64, config: BBRConfig, now: Instant) -> BBRView {
        BBRView {
            config,
            state: BBRState::Startup,
            cycle_phase: BBRCyclePhase::ProbeUp,
            cycle_index: 0,
            bandwidth: BandwidthView {
                samples: Seq::empty(),
                max_bandwidth: 0,
                window_duration: Duration { nanos: 100_000_000 },
            },
            rtt: RttView::fresh(BBRConfig::standard().rtt_window_length, now),
            pacing_gain: PacingGain::Startup,
            congestion_window: initial_window(mss, 4) as u64,
            target_cwnd: initial_window(mss, 4) as u64,
            mss,
            round_count: 0,
            delivered: 0,
            next_round_delivered: 0,
            full_bandwidth_reached: false,
            full_bandwidth_count: 0,
            state_start_time: now,
            cycle_start_time: now,
            app_limited: 0,
            packets_out: 0,
            delivery_rate_samples: Seq::empty(),
        }
    }

    /// Whether the check for full bandwidth can be counted, where it is.
    pub open spec fn can_check(self, growth_threshold: u64) -> bool {
        let bw = self.bandwidth.max_bandwidth;
        !self.full_bandwidth_reached && 0 < bw <= growth_threshold ==> self.full_bandwidth_count
            < usize::MAX
    }

    /// Whether the state machine can take a step.
    pub open spec fn can_step(self, now: Instant) -> bool {
        &&& self.state == BBRState::Drain ==> self.packets_out * self.mss <= u64::MAX
        &&& self.state == BBRState::ProbeBW && max_int(
            now.nanos - self.state_start_time.nanos,
            0,
        ) >= self.rtt.min_rtt.nanos ==> self.cycle_index < usize::MAX
    }

    /// Whether the window can be moved toward a target.
    pub open spec fn can_resize(self, scaled: u64) -> bool {
        &&& self.config.min_cwnd_packets * self.mss <= u64::MAX
        &&& self.state == BBRState::Startup && self.aimed_at(scaled) > self.congestion_window
            ==> self.mss * 4 <= u64::MAX
    }

    /// Whether the next round can be counted.
    pub open spec fn can_turn(self, growth_threshold: u64) -> bool {
        &&& self.round_count < u64::MAX
        &&& self.state == BBRState::Startup ==> self.can_check(growth_threshold)
    }

    /// Whether the round and the state can advance.
    pub open spec fn can_advance(self, p: BBRProducts, now: Instant) -> bool {
        let r = if self.delivered >= self.next_round_delivered {
            self.next_round(p.growth_threshold)
        } else {
            self
        };
        &&& self.delivered >= self.next_round_delivered ==> self.can_turn(p.growth_threshold)
        &&& r.can_step(now)
        &&& r.state_updated(p.bdp, now).can_resize(p.target_cwnd)
    }

    /// Whether an ACK of so many bytes can be counted.
    pub open spec fn has_room_for(self, acked_bytes: u64, rtt: Duration) -> bool {
        &&& self.delivered + acked_bytes <= u64::MAX
        &&& acked_bytes > 0 && rtt.nanos > 0 ==> acked_bytes * 1_000_000 <= u64::MAX
            && rtt.micros() > 0
    }

    /// The controller with the samples of an ACK. A sample that the application limited does
    /// not count for the bandwidth.
    pub open spec fn sampled(self, acked_bytes: u64, rtt: Duration, now: Instant) -> BBRView {
        let delivered = (self.delivered + acked_bytes) as u64;
        let limited = delivered <= self.app_limited;
        let next = BBRView { delivered, rtt: self.rtt.with_sample(rtt, now), ..self };
        if acked_bytes > 0 && rtt.nanos > 0 {
            let rate = (acked_bytes * 1_000_000 / rtt.micros()) as u64;
            let samples = self.delivery_rate_samples.push(
                DeliveryRateSample {
                    rate,
                    rtt,
                    timestamp: now,
                    delivered: acked_bytes,
                    is_retransmit: false,
                    is_app_limited: limited,
                },
            );
            BBRView {
                bandwidth: if limited {
                    self.bandwidth
                } else {
                    self.bandwidth.with_sample(rate, now)
                },
                delivery_rate_samples: if samples.len() > 10 {
                    samples.skip(1)
                } else {
                    samples
                },
                ..next
            }
        } else {
            next
        }
    }

    /// The controller after the check for full bandwidth.
    pub open spec fn bandwidth_checked(self, growth_threshold: u64) -> BBRView {
        let bw = self.bandwidth.max_bandwidth;
        if self.full_bandwidth_reached || bw == 0 {
            self
        } else if bw > growth_threshold {
            BBRView { full_bandwidth_count: 0, ..self }
        } else {
            BBRView {
                full_bandwidth_count: (self.full_bandwidth_count + 1) as usize,
                full_bandwidth_reached: self.full_bandwidth_count + 1
                    >= self.config.full_bandwidth_count,
                ..self
            }
        }
    }

    /// The controller in the next round.
    pub open spec fn next_round(self, growth_threshold: u64) -> BBRView {
        let next = BBRView {
            round_count: (self.round_count + 1) as u64,
            next_round_delivered: self.delivered,
            ..self
        };
        if self.state == BBRState::Startup {
            next.bandwidth_checked(growth_threshold)
        } else {
            next
        }
    }

    /// The controller in the drain state.
    pub open spec fn draining(self, now: Instant) -> BBRView {
        BBRView {
            state: BBRState::Drain,
            state_start_time: now,
            pacing_gain: PacingGain::Drain,
            ..self
        }
    }

    /// The controller in the ProbeBW state.
    pub open spec fn probing_bw(self, now: Instant) -> BBRView {
        BBRView {
            state: BBRState::ProbeBW,
            state_start_time: now,
            cycle_start_time: now,
            cycle_index: 0,
            cycle_phase: BBRCyclePhase::ProbeUp,
            pacing_gain: PacingGain::ProbeBw(0),
            ..self
        }
    }

    /// The controller in the ProbeRTT state.
    pub open spec fn probing_rtt(self, now: Instant) -> BBRView {
        BBRView {
            state: BBRState::ProbeRTT,
            state_start_time: now,
            pacing_gain: PacingGain::Neutral,
            ..self
        }
    }

    /// The controller in the next step of the ProbeBW cycle.
    pub open spec fn next_step(self, now: Instant) -> BBRView {
        let index = ((self.cycle_index + 1) % PROBE_BW_STEPS as int) as usize;
        BBRView {
            cycle_index: index,
            pacing_gain: PacingGain::ProbeBw(index),
            cycle_start_time: now,
            cycle_phase: if index == 0 {
                BBRCyclePhase::ProbeUp
            } else if index == 1 {
                BBRCyclePhase::ProbeDown
            } else {
                BBRCyclePhase::Cruise
            },
            ..self
        }
    }

    /// The controller after a step of its state machine.
    pub open spec fn state_updated(self, bdp: u64, now: Instant) -> BBRView {
        let time_in_state = max_int(now.nanos - self.state_start_time.nanos, 0);
        match self.state {
            BBRState::Startup => if self.full_bandwidth_reached {
                self.draining(now)
            } else {
                self
            },
            BBRState::Drain => if self.packets_out * self.mss <= bdp {
                self.probing_bw(now)
            } else {
                self
            },
            BBRState::ProbeBW => {
                let stepped = if time_in_state >= self.rtt.min_rtt.nanos {
                    self.next_step(now)
                } else {
                    self
                };
                if max_int(now.nanos - self.rtt.min_rtt_timestamp.nanos, 0)
                    >= self.config.probe_rtt_interval.nanos {
                    stepped.probing_rtt(now)
                } else {
                    stepped
                }
            },
            BBRState::ProbeRTT => if time_in_state >= self.config.probe_rtt_duration.nanos {
                self.probing_bw(now)
            } else {
                self
            },
        }
    }

    /// The window that is aimed at: at least the minimum, and the minimum in ProbeRTT.
    pub open spec fn aimed_at(self, scaled: u64) -> u64 {
        let min_cwnd = self.config.min_cwnd_packets * self.mss;
        if self.state == BBRState::ProbeRTT {
            min_cwnd as u64
        } else {
            max_int(scaled as int, min_cwnd) as u64
        }
    }

    /// The controller with its window moved toward the target: by at most one packet, and up by
    /// at most four packets in startup.
    pub open spec fn window_updated(self, scaled: u64) -> BBRView {
        let target = self.aimed_at(scaled);
        let w = self.congestion_window;
        let up = if self.state == BBRState::Startup {
            self.mss * 4
        } else {
            self.mss as int
        };
        BBRView {
            target_cwnd: target,
            congestion_window: if target > w {
                (w + min_int(target - w, up)) as u64
            } else {
                (w - min_int(w - target, self.mss as int)) as u64
            },
            ..self
        }
    }

    /// The controller after the second half of an ACK.
    pub open spec fn advanced(self, p: BBRProducts, now: Instant) -> BBRView {
        let r = if self.delivered >= self.next_round_delivered {
            self.next_round(p.growth_threshold)
        } else {
            self
        };
        r.state_updated(p.bdp, now).window_updated(p.target_cwnd)
    }
}

/// BBR statistics
#[derive(Debug, Clone, Copy, PartialEq, Eq, Structural)]
pub struct BBRStats {
    /// Current BBR state
    pub state: BBRState,
    /// Current cycle phase
    pub cycle_phase: BBRCyclePhase,
    /// Current congestion window
    pub congestion_window: u64,
    /// Target congestion window
    pub target_cwnd: u64,
    /// Current pacing gain
    pub pacing_gain: PacingGain,
    /// Estimated bottleneck bandwidth
    pub bottleneck_bandwidth: u64,
    /// Minimum RTT
    pub min_rtt: Duration,
    /// Round trip count
    pub round_count: u64,
    /// Total delivered bytes
    pub delivered: u64,
    /// Whether full bandwidth has been reached
    pub full_bandwidth_reached: bool,
    /// Packets currently in flight
    pub packets_out: u64,
}

impl BBRController {
    /// Create new BBR controller
    pub fn new(mss: u64, now: Instant) -> (r: BBRController)
        requires
            mss * 4 <= u64::MAX,
        ensures
            r@ == BBRView::fresh(mss, BBRConfig::standard(), now),
    {
        let config: BBRConfig = BBRConfig::default();
        let window: u64 = Self::initial_cwnd(mss, config.min_cwnd_packets);
        BBRController {
            config,
            state: BBRState::Startup,
            cycle_phase: BBRCyclePhase::ProbeUp,
            cycle_index: 0,
            bandwidth_filter: BandwidthFilter::new(Duration::from_millis(100)),
            rtt_filter: RTTFilter::new(config.rtt_window_length, now),
            pacing_gain: PacingGain::Startup,
            congestion_window: window,
            target_cwnd: window,
            mss,
            round_count: 0,
            delivered: 0,
            next_round_delivered: 0,
            full_bandwidth_reached: false,
            full_bandwidth_count: 0,
            state_start_time: now,
            cycle_start_time: now,
            app_limited: 0,
            packets_out: 0,
            delivery_rate_samples: VecDeque::new(),
        }
    }

    /// Create BBR controller with custom configuration
    pub fn with_config(mss: u64, config: BBRConfig, now: Instant) -> (r: BBRController)
        requires
            mss * 4 <= u64::MAX,
        ensures
            r@ == BBRView::fresh(mss, config, now),
    {
        let mut controller: BBRController = Self::new(mss, now);
        controller.config = config;
        controller
    }

    /// Calculate initial congestion window
    fn initial_cwnd(mss: u64, min_packets: u32) -> (r: u64)
        requires
            min_packets * mss <= u64::MAX,
        ensures
            r == initial_window(mss, min_packets),
    {
        let window: u64 = min_packets as u64 * mss;
        if window >= 14720 {
            window
        } else {
            14720
        }
    }

    /// Whether an ACK of so many bytes can be counted
    pub fn has_room(&self, acked_bytes: u64, rtt: Duration) -> (r: bool)
        ensures
            r == self@.has_room_for(acked_bytes, rtt),
    {
        self.delivered.checked_add(acked_bytes).is_some() && (acked_bytes == 0 || rtt.nanos == 0
            || (acked_bytes.checked_mul(1_000_000).is_some() && rtt.micros_u64() > 0))
    }

    /// Whether the check for full bandwidth can be counted, and whether bandwidth is full then
    fn can_check(&self, growth_threshold: u64) -> (r: (bool, bool))
        ensures
            r.0 == self@.can_check(growth_threshold),
            r.0 ==> r.1 == self@.bandwidth_checked(growth_threshold).full_bandwidth_reached,
    {
        let bw: u64 = self.bandwidth_filter.max_bandwidth();
        if self.full_bandwidth_reached || bw == 0 || bw > growth_threshold {
            (true, self.full_bandwidth_reached)
        } else if self.full_bandwidth_count < usize::MAX {
            (true, self.full_bandwidth_count + 1 >= self.config.full_bandwidth_count)
        } else {
            (false, false)
        }
    }

    /// Whether the state machine can take a step
    fn can_step(&self, now: Instant) -> (r: bool)
        ensures
            r == self@.can_step(now),
    {
        match self.state {
            BBRState::Drain => self.packets_out.checked_mul(self.mss).is_some(),
            BBRState::ProbeBW => now.duration_since(self.state_start_time).nanos
                < self.rtt_filter.min_rtt().nanos || self.cycle_index < usize::MAX,
            _ => true,
        }
    }

    /// Whether the round and the state can advance
    pub fn can_advance(&self, products: BBRProducts, now: Instant) -> (r: bool)
        ensures
            r == self@.can_advance(products, now),
    {
        let startup: bool = matches!(self.state, BBRState::Startup);
        let turns: bool = self.delivered >= self.next_round_delivered;
        let mut full: bool = self.full_bandwidth_reached;
        if turns {
            if self.round_count == u64::MAX {
                return false;
            }
            if startup {
                let (can, reached) = self.can_check(products.growth_threshold);
                if !can {
                    return false;
                }
                full = reached;
            }
        }
        if !self.can_step(now) {
            return false;
        }
        match (self.config.min_cwnd_packets as u64).checked_mul(self.mss) {
            None => false,
            Some(min_cwnd) => {
                let target: u64 = if products.target_cwnd >= min_cwnd {
                    products.target_cwnd
                } else {
                    min_cwnd
                };
                !startup || full || target <= self.congestion_window || self.mss.checked_mul(
                    4,
                ).is_some()
            },
        }
    }

    /// Takes the samples of an ACK. The estimates that follow from them, and the gains, make
    /// the products for [`Self::after_ack`]
    pub fn on_ack(&mut self, acked_bytes: u64, rtt: Duration, now: Instant)
        requires
            old(self)@.has_room_for(acked_bytes, rtt),
        ensures
            final(self)@ == old(self)@.sampled(acked_bytes, rtt, now),
    {
        self.delivered += acked_bytes;
        self.rtt_filter.add_sample(rtt, now);
        if acked_bytes > 0 && rtt.nanos > 0 {
            let delivery_rate: u64 = (acked_bytes * 1_000_000) / rtt.micros_u64();
            let is_app_limited: bool = self.delivered <= self.app_limited;
            let sample: DeliveryRateSample = DeliveryRateSample {
                rate: delivery_rate,
                rtt,
                timestamp: now,
                delivered: acked_bytes,
                is_retransmit: false,
                is_app_limited,
            };
            if !is_app_limited {
                self.bandwidth_filter.add_sample(delivery_rate, now);
            }
            self.delivery_rate_samples.push_back(sample);
            let ghost pushed = self.delivery_rate_samples@;
            if self.delivery_rate_samples.len() > 10 {
                self.delivery_rate_samples.pop_front();
                assert(self.delivery_rate_samples@ =~= pushed.skip(1));
            }
        }
    }

    /// Completes an ACK: rounds, states and the window
    pub fn after_ack(&mut self, products: BBRProducts, now: Instant)
        requires
            old(self)@.can_advance(products, now),
        ensures
            final(self)@ == old(self)@.advanced(products, now),
    {
        if self.delivered >= self.next_round_delivered {
            self.advance_round(products.growth_threshold);
        }
        self.update_state(products.bdp, now);
        self.update_congestion_window(products.target_cwnd);
    }

    /// Advance to next round trip
    fn advance_round(&mut self, growth_threshold: u64)
        requires
            old(self)@.can_turn(growth_threshold),
        ensures
            final(self)@ == old(self)@.next_round(growth_threshold),
    {
        self.round_count += 1;
        self.next_round_delivered = self.delivered;
        if matches!(self.state, BBRState::Startup) {
            self.check_full_bandwidth(growth_threshold);
        }
    }

    /// Check if we've reached full bandwidth
    pub fn check_full_bandwidth(&mut self, growth_threshold: u64)
        requires
            old(self)@.can_check(growth_threshold),
        ensures
            final(self)@ == old(self)@.bandwidth_checked(growth_threshold),
    {
        if self.full_bandwidth_reached {
            return;
        }
        let current_bw: u64 = self.bandwidth_filter.max_bandwidth();
        if current_bw == 0 {
            return;
        }
        if current_bw > growth_threshold {
            self.full_bandwidth_count = 0;
        } else {
            self.full_bandwidth_count += 1;
            if self.full_bandwidth_count >= self.config.full_bandwidth_count {
                self.full_bandwidth_reached = true;
            }
        }
    }

    /// Update BBR state machine
    pub fn update_state(&mut self, bdp: u64, now: Instant)
        requires
            old(self)@.can_step(now),
        ensures
            final(self)@ == old(self)@.state_updated(bdp, now),
    {
        let time_in_state: Duration = now.duration_since(self.state_start_time);
        match self.state {
            BBRState::Startup => {
                if self.full_bandwidth_reached {
                    self.enter_drain(now);
                }
            },
            BBRState::Drain => {
                if self.packets_out * self.mss <= bdp {
                    self.enter_probe_bw(now);
                }
            },
            BBRState::ProbeBW => {
                let cycle_duration: Duration = self.rtt_filter.min_rtt();
                if time_in_state.nanos >= cycle_duration.nanos {
                    self.advance_probe_bw_cycle(now);
                }
                if now.duration_since(self.rtt_filter.min_rtt_timestamp()).nanos
                    >= self.config.probe_rtt_interval.nanos {
                    self.enter_probe_rtt(now);
                }
            },
            BBRState::ProbeRTT => {
                if time_in_state.nanos >= self.config.probe_rtt_duration.nanos {
                    self.enter_probe_bw(now);
                }
            },
        }
    }

    /// Enter drain state
    fn enter_drain(&mut self, now: Instant)
        ensures
            final(self)@ == old(self)@.draining(now),
    {
        self.state = BBRState::Drain;
        self.state_start_time = now;
        self.pacing_gain = PacingGain::Drain;
    }

    /// Enter ProbeBW state
    fn enter_probe_bw(&mut self, now: Instant)
        ensures
            final(self)@ == old(self)@.probing_bw(now),
    {
        self.state = BBRState::ProbeBW;
        self.state_start_time = now;
        self.cycle_start_time = now;
        self.cycle_index = 0;
        self.cycle_phase = BBRCyclePhase::ProbeUp;
        self.pacing_gain = PacingGain::ProbeBw(0);
    }

    /// Enter ProbeRTT state
    fn enter_probe_rtt(&mut self, now: Instant)
        ensures
            final(self)@ == old(self)@.probing_rtt(now),
    {
        self.state = BBRState::ProbeRTT;
        self.state_start_time = now;
        self.pacing_gain = PacingGain::Neutral;
    }

    /// Advance ProbeBW cycle
    fn advance_probe_bw_cycle(&mut self, now: Instant)
        requires
            old(self)@.cycle_index < usize::MAX,
        ensures
            final(self)@ == old(self)@.next_step(now),
    {
        self.cycle_index = (self.cycle_index + 1) % PROBE_BW_STEPS;
        self.pacing_gain = PacingGain::ProbeBw(self.cycle_index);
        self.cycle_start_time = now;
        self.cycle_phase = match self.cycle_index {
            0 => BBRCyclePhase::ProbeUp,
            1 => BBRCyclePhase::ProbeDown,
            _ => BBRCyclePhase::Cruise,
        };
    }

    /// Update congestion window
    pub fn update_congestion_window(&mut self, scaled: u64)
        requires
            old(self)@.can_resize(scaled),
        ensures
            final(self)@ == old(self)@.window_updated(scaled),
    {
        let min_cwnd: u64 = self.config.min_cwnd_packets as u64 * self.mss;
        self.target_cwnd = if scaled >= min_cwnd {
            scaled
        } else {
            min_cwnd
        };
        if matches!(self.state, BBRState::ProbeRTT) {
            self.target_cwnd = min_cwnd;
        }
        if self.target_cwnd > self.congestion_window {
            let missing: u64 = self.target_cwnd - self.congestion_window;
            let limit: u64 = if matches!(self.state, BBRState::Startup) {
                self.mss * 4
            } else {
                self.mss
            };
            let increase: u64 = if missing <= limit {
                missing
            } else {
                limit
            };
            self.congestion_window += increase;
        } else if self.target_cwnd < self.congestion_window {
            let excess: u64 = self.congestion_window - self.target_cwnd;
            let decrease: u64 = if excess <= self.mss {
                excess
            } else {
                self.mss
            };
            self.congestion_window = self.congestion_window.saturating_sub(decrease);
        }
    }

    /// Calculate bandwidth delay product, where `product` is that of the estimates. Without
    /// an estimate it is the minimum window
    pub fn bandwidth_delay_product(&self, product: u64) -> (r: u64)
        requires
            self@.config.min_cwnd_packets * self@.mss <= u64::MAX,
        ensures
            r == (if self@.bandwidth.max_bandwidth > 0 && self@.rtt.min_rtt.nanos > 0 {
                product as int
            } else {
                self@.config.min_cwnd_packets * self@.mss
            }),
    {
        if self.bandwidth_filter.max_bandwidth() > 0 && self.rtt_filter.min_rtt().nanos > 0 {
            product
        } else {
            self.config.min_cwnd_packets as u64 * self.mss
        }
    }

    /// Handle packet loss. In startup, a loss of more than one packet shows the bottleneck
    pub fn on_loss(&mut self, lost_bytes: u64, now: Instant)
        ensures
            final(self)@ == (if old(self)@.state == BBRState::Startup && lost_bytes > old(
                self,
            )@.mss {
                old(self)@.draining(now)
            } else {
                old(self)@
            }),
    {
        if matches!(self.state, BBRState::Startup) && lost_bytes > self.mss {
            self.enter_drain(now);
        }
    }

    /// Handle persistent congestion (reset to startup)
    pub fn on_persistent_congestion(&mut self, now: Instant)
        requires
            old(self)@.config.min_cwnd_packets * old(self)@.mss <= u64::MAX,
        ensures
            final(self)@ == old(self)@.restarted(now),
    {
        self.reset(now);
    }

    /// Reset BBR to initial state
    pub fn reset(&mut self, now: Instant)
        requires
            old(self)@.config.min_cwnd_packets * old(self)@.mss <= u64::MAX,
        ensures
            final(self)@ == old(self)@.restarted(now),
    {
        self.state = BBRState::Startup;
        self.state_start_time = now;
        self.cycle_start_time = now;
        self.pacing_gain = PacingGain::Startup;
        self.cycle_index = 0;
        self.round_count = 0;
        self.delivered = 0;
        self.next_round_delivered = 0;
        self.full_bandwidth_reached = false;
        self.full_bandwidth_count = 0;
        self.congestion_window = Self::initial_cwnd(self.mss, self.config.min_cwnd_packets);
        self.target_cwnd = self.congestion_window;
        self.bandwidth_filter.reset();
        self.rtt_filter.reset(now);
        self.delivery_rate_samples.clear();
    }

    /// Handle ECN congestion event. `reduced_bandwidth` is the bandwidth less half the marking
    /// rate, at most three tenths
    pub fn on_ecn_congestion(
        &mut self,
        event: &EcnCongestionEvent,
        reduced_bandwidth: u64,
        now: Instant,
    )
        ensures
            ({
                let d = if old(self)@.state == BBRState::Startup && event.marking_rate.above(10) {
                    old(self)@.draining(now)
                } else {
                    old(self)@
                };
                final(self)@ == (if event.marking_rate.above(5) && d.bandwidth.max_bandwidth > 0 {
                    BBRView { bandwidth: d.bandwidth.with_sample(reduced_bandwidth, now), ..d }
                } else {
                    d
                })
            }),
    {
        if matches!(self.state, BBRState::Startup) && event.marking_rate.exceeds(10) {
            self.enter_drain(now);
        }
        if event.marking_rate.exceeds(5) {
            if self.bandwidth_filter.max_bandwidth() > 0 {
                self.bandwidth_filter.add_sample(reduced_bandwidth, now);
            }
        }
    }

    /// Update packets in flight counter
    pub fn set_packets_in_flight(&mut self, packets: u64)
        ensures
            final(self)@ == (BBRView { packets_out: packets, ..old(self)@ }),
    {
        self.packets_out = packets;
    }

    /// Mark as app-limited
    pub fn set_app_limited(&mut self)
        ensures
            final(self)@ == (BBRView { app_limited: old(self)@.delivered, ..old(self)@ }),
    {
        self.app_limited = self.delivered;
    }

    /// Get current congestion window
    pub fn congestion_window(&self) -> (r: u64)
        ensures
            r == self@.congestion_window,
    {
        self.congestion_window
    }

    /// Get target congestion window
    pub fn target_congestion_window(&self) -> (r: u64)
        ensures
            r == self@.target_cwnd,
    {
        self.target_cwnd
    }

    /// Get estimated bottleneck bandwidth
    pub fn bottleneck_bandwidth(&self) -> (r: u64)
        ensures
            r == self@.bandwidth.max_bandwidth,
    {
        self.bandwidth_filter.max_bandwidth()
    }

    /// Get minimum RTT
    pub fn min_rtt(&self) -> (r: Duration)
        ensures
            r == self@.rtt.min_rtt,
    {
        self.rtt_filter.min_rtt()
    }

    /// Get current BBR state
    pub fn state(&self) -> (r: BBRState)
        ensures
            r == self@.state,
    {
        self.state
    }

    /// Get current cycle phase
    pub fn cycle_phase(&self) -> (r: BBRCyclePhase)
        ensures
            r == self@.cycle_phase,
    {
        self.cycle_phase
    }

    /// Check if we can send (bytes in flight < congestion window)
    pub fn can_send(&self, bytes_in_flight: u64) -> (r: bool)
        ensures
            r == (bytes_in_flight < self@.congestion_window),
    {
        bytes_in_flight < self.congestion_window
    }

    /// Get available sending window
    pub fn send_window(&self, bytes_in_flight: u64) -> (r: u64)
        ensures
            r == max_int(self@.congestion_window - bytes_in_flight, 0),
    {
        self.congestion_window.saturating_sub(bytes_in_flight)
    }

    /// Get BBR statistics
    pub fn stats(&self) -> (r: BBRStats)
        ensures
            r == (BBRStats {
                state: self@.state,
                cycle_phase: self@.cycle_phase,
                congestion_window: self@.congestion_window,
                target_cwnd: self@.target_cwnd,
                pacing_gain: self@.pacing_gain,
                bottleneck_bandwidth: self@.bandwidth.max_bandwidth,
                min_rtt: self@.rtt.min_rtt,
                round_count: self@.round_count,
                delivered: self@.delivered,
                full_bandwidth_reached: self@.full_bandwidth_reached,
                packets_out: self@.packets_out,
            }),
    {
        BBRStats {
            state: self.state,
            cycle_phase: self.cycle_phase,
            congestion_window: self.congestion_window,
            target_cwnd: self.target_cwnd,
            pacing_gain: self.pacing_gain,
            bottleneck_bandwidth: self.bottleneck_bandwidth(),
            min_rtt: self.min_rtt(),
            round_count: self.round_count,
            delivered: self.delivered,
            full_bandwidth_reached: self.full_bandwidth_reached,
            packets_out: self.packets_out,
        }
    }
}

impl BBRView {
    /// The controller back in startup. What was configured stays, and so do the marks for
    /// application limits and for packets in flight.
    pub open spec fn restarted(self, now: Instant) -> BBRView {
        let window = initial_window(self.mss, self.config.min_cwnd_packets) as u64;
        BBRView {
            cycle_phase: self.cycle_phase,
            bandwidth: BandwidthView {
                samples: Seq::empty(),
                max_bandwidth: 0,
                ..self.bandwidth
            },
            rtt: RttView::fresh(self.rtt.max_samples, now),
            congestion_window: window,
            target_cwnd: window,
            app_limited: self.app_limited,
            packets_out: self.packets_out,
            ..BBRView::fresh(self.mss, self.config, now)
        }
    }
}

/// The state machine goes from startup to drain, from there to ProbeBW, and then back and
/// forth between ProbeBW and ProbeRTT.
pub proof fn bbr_transitions(v: BBRView, bdp: u64, now: Instant)
    ensures
        ({
            let next = v.state_updated(bdp, now).state;
            next == v.state || match v.state {
                BBRState::Startup => next == BBRState::Drain,
                BBRState::Drain => next == BBRState::ProbeBW,
                BBRState::ProbeBW => next == BBRState::ProbeRTT,
                BBRState::ProbeRTT => next == BBRState::ProbeBW,
            }
        }),
{
}

/// The window moves toward the target and not past it, and a step is at most four packets.
pub proof fn bbr_window_moves_toward_target(v: BBRView, scaled: u64)
    requires
        v.can_resize(scaled),
    ensures
        ({
            let n = v.window_updated(scaled);
            &&& v.congestion_window <= n.target_cwnd ==> v.congestion_window <= n.congestion_window
                <= n.target_cwnd
            &&& v.congestion_window >= n.target_cwnd ==> n.target_cwnd <= n.congestion_window
                <= v.congestion_window
            &&& n.congestion_window <= v.congestion_window + 4 * v.mss
            &&& n.congestion_window >= v.congestion_window - v.mss
            &&& n.target_cwnd >= v.config.min_cwnd_packets * v.mss
        }),
{
}

} // verus!
