//! Laws of the controllers over time: cycles, gains, histories, restarts and rates.

use crate::bbr::{BBRConfig, BBRCyclePhase as AdvancedCyclePhase, BBRView, PacingGain, RttView};
use crate::congestion::{
    BBRCyclePhase, BBRState, BaseGain, BbrAlgorithmView, CongestionAlgorithm, CongestionController,
    CongestionState, CongestionView, NewRenoState, ReducedGain, RttTracker,
};
use crate::cubic::{CubicConfig, CubicController, CubicState, DecreasedWindow, HyStart};
use crate::time::{Duration, Instant, LONGEST};
use vstd::prelude::*;

verus! {

/// BBR probes up, then down, then cruises, in turn.
pub proof fn bbr_cycle_has_three_steps(b: BbrAlgorithmView)
    requires
        b.cycle_index < 3,
    ensures
        ({
            let n = b.next_step();
            &&& b.cycle_index == 0 ==> n.cycle_index == 1 && n.pacing_gain.base == BaseGain::Down
                && n.cycle_phase == BBRCyclePhase::Down
            &&& b.cycle_index == 1 ==> n.cycle_index == 2 && n.pacing_gain.base == BaseGain::One
                && n.cycle_phase == BBRCyclePhase::Cruise
            &&& b.cycle_index == 2 ==> n.cycle_index == 0 && n.pacing_gain.base == BaseGain::Up
                && n.cycle_phase == BBRCyclePhase::Up
            &&& n.pacing_gain.reductions == 0
            &&& n.next_step().next_step().cycle_index == b.cycle_index
        }),
{
}

/// The gain of BBR goes with its state: low to drain, neutral to probe the bandwidth.
pub proof fn bbr_gains_go_with_states(b: BbrAlgorithmView, now: Instant)
    ensures
        ({
            let n = b.state_updated(now);
            &&& b.state == BBRState::Startup && n.state == BBRState::Drain ==> n.pacing_gain.base
                == BaseGain::Low && n.last_state_change == now
            &&& b.state == BBRState::Drain && n.state == BBRState::ProbeBW ==> n.pacing_gain.base
                == BaseGain::One && n.cycle_index == 0 && n.last_state_change == now
            &&& b.state == BBRState::ProbeBW && n.state == BBRState::ProbeRTT ==> n.probe_rtt_active
                && n.last_state_change == now
            &&& b.state == BBRState::ProbeRTT && n.state == BBRState::ProbeBW ==> n.pacing_gain.base
                == BaseGain::One && !n.probe_rtt_active
            &&& n.target_cwnd == b.target_cwnd && n.bandwidth_samples == b.bandwidth_samples
        }),
        ({
            let n = b.lost(now);
            &&& b.state == BBRState::Startup ==> n.state == BBRState::Drain && n.pacing_gain.base
                == BaseGain::Low
            &&& b.state != BBRState::Startup ==> n == b
        }),
{
}

/// A congestion mark lowers the gain of BBR: to the raised one in startup, to the neutral one
/// where it was above, and by one reduction elsewhere.
pub proof fn bbr_mark_lowers_gain(b: BbrAlgorithmView, now: Instant)
    requires
        b.pacing_gain.reductions < u32::MAX,
    ensures
        ({
            let n = b.marked(now);
            &&& b.state == BBRState::Startup ==> n.pacing_gain.base == BaseGain::Raised
                && n.pacing_gain.reductions == 0
            &&& b.state == BBRState::ProbeBW && b.pacing_gain.above_one() ==> n.pacing_gain.base
                == BaseGain::One && n.pacing_gain.reductions == 0
            &&& b.state == BBRState::ProbeBW && !b.pacing_gain.above_one() ==> n.pacing_gain
                == b.pacing_gain
            &&& b.state == BBRState::Drain || b.state == BBRState::ProbeRTT ==> n.pacing_gain.base
                == b.pacing_gain.base && n.pacing_gain.reductions - b.pacing_gain.reductions == 1
            &&& n.state == b.state && n.last_state_change == now
        }),
{
}

/// A gain is above one as long as its reductions, each of a tenth, leave more than one of it.
pub proof fn gains_above_one(g: ReducedGain)
    ensures
        g.base == BaseGain::Low || g.base == BaseGain::Down || g.base == BaseGain::One
            ==> !g.above_one(),
        g.base == BaseGain::Up || g.base == BaseGain::Raised || g.base == BaseGain::High ==> (
        g.reductions == 0 ==> g.above_one()),
        forall|fewer: u32|
            fewer <= g.reductions && g.above_one() ==> #[trigger] (ReducedGain {
                base: g.base,
                reductions: fewer,
            }).above_one(),
{
}

/// BBR keeps the ten newest samples, the newest last, with what was measured.
pub proof fn bbr_keeps_ten_samples(b: BbrAlgorithmView, bytes: u64, rtt: Duration, now: Instant)
    requires
        b.bandwidth_samples.len() <= 10,
    ensures
        ({
            let n = b.sampled(bytes, rtt, now).bandwidth_samples;
            let counts = bytes > 0 && rtt.nanos > 0;
            &&& counts ==> 0 < n.len() <= 10 && n.last().rtt == rtt && n.last().timestamp == now
                && n.last().bytes_acked == bytes
            &&& counts && b.bandwidth_samples.len() < 10 ==> n.len() == b.bandwidth_samples.len()
                + 1 && n.drop_last() == b.bandwidth_samples
            &&& counts && b.bandwidth_samples.len() == 10 ==> n.len() == 10 && n.drop_last()
                == b.bandwidth_samples.skip(1)
            &&& !counts ==> n == b.bandwidth_samples
        }),
{
    let n = b.sampled(bytes, rtt, now).bandwidth_samples;
    if bytes > 0 && rtt.nanos > 0 {
        if b.bandwidth_samples.len() < 10 {
            assert(n.drop_last() =~= b.bandwidth_samples);
        } else {
            assert(n.drop_last() =~= b.bandwidth_samples.skip(1));
        }
    }
}

/// BBR starts in startup with the high gain, a round-trip time of a second, and a window of ten
/// seconds for its bandwidth.
pub proof fn bbr_starts(window: u64, now: Instant)
    ensures
        ({
            let b = BbrAlgorithmView::fresh(window, now);
            &&& b.state == BBRState::Startup && b.pacing_gain.base == BaseGain::High
            &&& b.pacing_gain.reductions == 0
            &&& b.target_cwnd == window && b.sending_rate == window
            &&& b.min_rtt.millis() == 1000 && b.window_duration.millis() == 10_000
            &&& b.probe_rtt_duration.millis() == 200
            &&& b.bottleneck_bandwidth == 0 && b.bandwidth_samples.len() == 0 && b.max_values.len()
                == 0
            &&& b.min_rtt_timestamp == now && b.last_state_change == now && b.cycle_index == 0
        }),
{
}

/// The product of bandwidth and delay takes the delay in whole seconds.
pub proof fn bbr_product_is_in_seconds(b: BbrAlgorithmView)
    ensures
        b.min_rtt.nanos < 1_000_000_000 ==> b.bdp() == 0,
        1_000_000_000 <= b.min_rtt.nanos < 2_000_000_000 ==> b.bdp() == b.bottleneck_bandwidth,
        2_000_000_000 <= b.min_rtt.nanos < 3_000_000_000 ==> b.bdp() == b.bottleneck_bandwidth
            + b.bottleneck_bandwidth,
{
    let bw = b.bottleneck_bandwidth as int;
    let s = b.min_rtt.seconds();
    assert(s == 0 ==> bw * s == 0) by (nonlinear_arith);
    assert(s == 1 ==> bw * s == bw) by (nonlinear_arith);
    assert(s == 2 ==> bw * s == bw + bw) by (nonlinear_arith);
}

/// The cycle of the advanced controller has eight steps: it probes up in the first, down in the
/// second, and cruises in the others.
pub proof fn advanced_cycle_has_eight_steps(b: BBRView, now: Instant)
    requires
        b.cycle_index < 8,
    ensures
        ({
            let n = b.next_step(now);
            &&& b.cycle_index < 7 ==> n.cycle_index == b.cycle_index + 1
            &&& b.cycle_index == 7 ==> n.cycle_index == 0
            &&& n.pacing_gain == PacingGain::ProbeBw(n.cycle_index)
            &&& n.cycle_phase == AdvancedCyclePhase::ProbeUp <==> n.cycle_index == 0
            &&& n.cycle_phase == AdvancedCyclePhase::ProbeDown <==> n.cycle_index == 1
            &&& n.cycle_start_time == now && n.state == b.state
        }),
{
}

/// In ProbeBW the advanced controller takes a step once it spent its smallest round-trip time in
/// the state, and none before.
pub proof fn advanced_cycle_goes_with_rtt(b: BBRView, bdp: u64, now: Instant)
    requires
        b.state == crate::bbr::BBRState::ProbeBW,
        b.cycle_index < 8,
        b.rtt.min_rtt.nanos > 0,
        now.nanos < b.rtt.min_rtt_timestamp.nanos + b.config.probe_rtt_interval.nanos,
        b.config.probe_rtt_interval.nanos > 0,
    ensures
        ({
            let n = b.state_updated(bdp, now);
            &&& now.nanos >= b.state_start_time.nanos + b.rtt.min_rtt.nanos ==> n.cycle_index == (
            if b.cycle_index == 7 {
                0int
            } else {
                b.cycle_index + 1
            })
            &&& now.nanos < b.state_start_time.nanos + b.rtt.min_rtt.nanos ==> n == b
        }),
{
}

/// Round-trip times are kept up to the number that is configured, the newest last; the smallest
/// one counts.
pub proof fn rtt_window_slides(r: RttView, rtt: Duration, now: Instant)
    requires
        r.samples.len() <= r.max_samples,
        r.max_samples > 0,
    ensures
        ({
            let n = r.with_sample(rtt, now);
            &&& 0 < n.samples.len() <= r.max_samples && n.samples.last() == (rtt, now)
            &&& r.samples.len() < r.max_samples ==> n.samples == r.samples.push((rtt, now))
            &&& n.min_rtt.nanos <= rtt.nanos && n.min_rtt.nanos <= r.min_rtt.nanos
            &&& n.min_rtt == rtt || n.min_rtt == r.min_rtt
        }),
{
}

/// The standard of the advanced controller, and how it starts.
pub proof fn advanced_bbr_starts(now: Instant)
    ensures
        ({
            let c = BBRConfig::standard();
            let b = BBRView::fresh(1200, c, now);
            &&& c.min_cwnd_packets == 4 && c.full_bandwidth_count == 3
            &&& c.probe_rtt_duration.millis() == 200 && c.probe_rtt_interval.millis() == 10_000
            &&& b.congestion_window == 14_720 && b.target_cwnd == b.congestion_window
            &&& b.state == crate::bbr::BBRState::Startup && b.pacing_gain == PacingGain::Startup
            &&& b.rtt.min_rtt.millis() == 1000 && b.bandwidth.max_bandwidth == 0
            &&& b.delivered == 0 && b.round_count == 0 && !b.full_bandwidth_reached
        }),
{
}

/// Persistent congestion takes a controller back to its start, without what it measured.
pub proof fn persistent_congestion_restarts(c: CongestionView, now: Instant)
    ensures
        c.algorithm == CongestionAlgorithm::NewReno ==> {
            let n = c.restarted(now);
            n.window() == c.initial_window && n.slow_start() && n.newreno.ssthresh == u64::MAX
                && n.newreno.bytes_acked == 0
        },
        c.algorithm == CongestionAlgorithm::BBR ==> {
            let n = c.restarted(now);
            n.window() == c.initial_window && n.slow_start() && n.bbr.pacing_gain.base
                == BaseGain::High && n.bbr.bandwidth_samples.len() == 0 && n.bbr.max_values.len()
                == 0 && n.bbr.last_state_change == now
        },
        c.algorithm == CongestionAlgorithm::CUBIC && c.cubic_controller is Some ==> {
            let n = c.restarted(now).cubic_controller->Some_0;
            let k = c.cubic_controller->Some_0;
            &&& n.cwnd == k.config.min_cwnd && n.state == CubicState::SlowStart
            &&& n.ssthresh >= k.config.min_cwnd
            &&& n.ssthresh == k.config.min_cwnd || 2 * n.ssthresh <= k.cwnd < 2 * n.ssthresh + 2
            &&& n.epoch_start is None && !n.hystart.found_exit && n.hystart.ack_train_start is None
            &&& n.srtt == k.srtt && n.cwnd_last_max == k.cwnd_last_max
        },
        c.algorithm == CongestionAlgorithm::BBRv2 && c.bbr_controller is Some ==> {
            let n = c.restarted(now).bbr_controller->Some_0;
            &&& n.state == crate::bbr::BBRState::Startup && n.bandwidth.max_bandwidth == 0
            &&& n.bandwidth.samples.len() == 0 && n.rtt.samples.len() == 0
            &&& n.delivered == 0 && n.round_count == 0 && !n.full_bandwidth_reached
            &&& n.mss == c.bbr_controller->Some_0.mss
        },
        c.restarted(now).rtt == c.rtt && c.restarted(now).pacing == c.pacing,
{
}

/// The window of CUBIC in bytes is so many datagrams; a smaller or larger datagram scales it.
pub proof fn cubic_window_is_in_datagrams(c: CubicController, now: Instant)
    ensures
        c.mss == 0 ==> c.window() == 0,
        c.cwnd == 1 ==> c.window() == c.mss,
        (CubicController { mss: 1, ..c }).window() == c.cwnd,
        CubicController::fresh(c.mss, c.config, now).window() == 10 * c.mss,
        CubicController::fresh(c.mss, c.config, now).state == CubicState::SlowStart,
        CubicController::fresh(c.mss, c.config, now).ssthresh == i32::MAX,
        CubicController::fresh(c.mss, c.config, now).srtt.millis() == 100,
        CubicConfig::standard().min_cwnd == 2,
        CubicConfig::standard().hystart_ack_train.micros() == 2000,
        CubicConfig::standard().hystart_delay_min.micros() == 4000,
        CubicConfig::standard().hystart_round_thresh == 8,
{
    assert(c.mss == 0 ==> c.cwnd * c.mss == 0) by (nonlinear_arith);
    assert(c.cwnd == 1 ==> c.cwnd * c.mss == c.mss) by (nonlinear_arith);
}

/// An acknowledgment is measured with its bytes, and a round that is over is closed.
pub proof fn cubic_measures_acks(c: CubicController, bytes: u64, rtt: Duration, now: Instant)
    requires
        c.acked_bytes_this_round + bytes <= u64::MAX,
        c.round_count < u32::MAX,
        c.with_rtt(rtt).srtt.nanos > 0,
    ensures
        ({
            let n = c.measured(bytes, rtt, now);
            let end = c.round_start_time.nanos + c.with_rtt(rtt).srtt.nanos;
            &&& n.last_rtt == rtt && n.srtt == c.with_rtt(rtt).srtt
            &&& now.nanos < end ==> n.acked_bytes_this_round - c.acked_bytes_this_round == bytes
                && n.round_count == c.round_count
            &&& now.nanos >= end ==> n.acked_bytes_this_round == 0 && n.round_count == c.round_count
                + 1 && n.round_start_time == now
            &&& n.cwnd == c.cwnd && n.state == c.state
        }),
{
}

/// The smallest round-trip time of the algorithm in use; a third of a second for NewReno before
/// there is one.
pub proof fn smallest_rtt_is_known(c: CongestionView)
    ensures
        c.algorithm == CongestionAlgorithm::NewReno && c.rtt.min_rtt.nanos != LONGEST
            ==> c.known_min_rtt() == Some(c.rtt.min_rtt),
        c.algorithm == CongestionAlgorithm::NewReno && c.rtt.min_rtt.nanos == LONGEST ==> (
        c.known_min_rtt() matches Some(d) && d.millis() == 333),
        c.algorithm == CongestionAlgorithm::BBR ==> c.known_min_rtt() == Some(c.bbr.min_rtt),
        c.algorithm == CongestionAlgorithm::CUBIC ==> (c.cubic_controller matches Some(k)
            ==> c.known_min_rtt() == Some(k.min_rtt)),
        c.algorithm == CongestionAlgorithm::BBRv2 ==> (c.bbr_controller matches Some(b)
            ==> c.known_min_rtt() == Some(b.rtt.min_rtt)),
        c.algorithm == CongestionAlgorithm::BBR ==> c.bottleneck() == Some(
            c.bbr.bottleneck_bandwidth,
        ),
        c.algorithm == CongestionAlgorithm::NewReno || c.algorithm == CongestionAlgorithm::CUBIC
            ==> c.bottleneck() is None,
        RttTracker::fresh().smoothed_rtt.millis() == 333,
        RttTracker::fresh().first_sample && RttTracker::fresh().sample_count == 0,
{
}

/// The rate that is wanted: ten windows a second for NewReno, a window for each smoothed
/// round-trip time for CUBIC, and what BBR sends at.
pub proof fn wanted_rate_goes_with_window(c: CongestionView, advanced: u64)
    ensures
        c.algorithm == CongestionAlgorithm::NewReno ==> CongestionController::wanted_rate(c, advanced)
            == 10 * c.newreno.congestion_window,
        c.algorithm == CongestionAlgorithm::BBR ==> CongestionController::wanted_rate(c, advanced)
            == c.bbr.sending_rate,
        c.algorithm == CongestionAlgorithm::BBRv2 && c.bbr_controller is Some
            ==> CongestionController::wanted_rate(c, advanced) == advanced,
        c.algorithm == CongestionAlgorithm::CUBIC ==> (c.cubic_controller matches Some(k) ==> (
        k.srtt.nanos == 0 ==> CongestionController::wanted_rate(c, advanced) == 1_000_000)),
        c.algorithm == CongestionAlgorithm::CUBIC ==> (c.cubic_controller matches Some(k) ==> (
        k.srtt.millis() > 0 ==> {
            let r = CongestionController::wanted_rate(c, advanced);
            r * k.srtt.millis() <= 1000 * k.window() < (r + 1) * k.srtt.millis()
        })),
{
    if c.algorithm == CongestionAlgorithm::CUBIC && c.cubic_controller is Some {
        let k = c.cubic_controller->Some_0;
        let (a, b) = (k.window() * 1000, k.srtt.millis());
        if b > 0 {
            assert(k.srtt.nanos > 0);
            let q = a / b;
            vstd::arithmetic::div_mod::lemma_fundamental_div_mod(a, b);
            assert(q * b <= a < (q + 1) * b) by (nonlinear_arith)
                requires
                    a == b * q + a % b,
                    0 <= a % b < b,
            ;
        }
    }
}

/// The state of the window is that of the algorithm in use.
pub proof fn phases_are_of_algorithm_in_use(c: CongestionView)
    ensures
        c.algorithm == CongestionAlgorithm::NewReno ==> (c.slow_start() <==> c.newreno.state
            == CongestionState::SlowStart) && (c.recovering() <==> c.newreno.state
            == CongestionState::Recovery) && c.threshold() == c.newreno.ssthresh,
        c.algorithm == CongestionAlgorithm::BBR ==> (c.slow_start() <==> c.bbr.state
            == BBRState::Startup) && !c.recovering() && c.threshold() == u64::MAX,
        c.algorithm == CongestionAlgorithm::CUBIC ==> (c.cubic_controller matches Some(k) ==> (
        c.slow_start() <==> k.state == CubicState::SlowStart) && (c.recovering() <==> k.state
            == CubicState::FastRecovery) && c.window() == k.window()),
        c.algorithm == CongestionAlgorithm::BBRv2 ==> (c.bbr_controller matches Some(b)
            ==> c.window() == b.congestion_window && (c.slow_start() <==> b.state
            == crate::bbr::BBRState::Startup)),
        c.algorithm == CongestionAlgorithm::BBR ==> c.window() == c.bbr.target_cwnd,
        c.incomplete() is Some <==> (c.algorithm == CongestionAlgorithm::BBRv2 && c.bbr_controller
            is None) || (c.algorithm == CongestionAlgorithm::CUBIC && c.cubic_controller is None),
{
}

/// Hybrid slow start begins anew with no minimum, no train and no exit.
pub proof fn hybrid_start_begins(enabled: bool, now: Instant)
    ensures
        ({
            let h = HyStart::fresh(enabled, now);
            &&& h.enabled == enabled && h.round_counter == 0 && !h.found_exit
            &&& h.ack_train_start is None && h.round_start == now
            &&& h.curr_round_min_rtt.nanos == LONGEST && h.last_round_min_rtt.nanos == LONGEST
        }),
{
}

/// In recovery the window of NewReno does not grow.
pub proof fn newreno_waits_in_recovery(s: NewRenoState, acked: int, size: u64)
    requires
        s.state == CongestionState::Recovery,
    ensures
        s.acked(acked, size) == s,
{
}

/// The algorithm in use sees the smoothed round-trip time and the bytes of an acknowledgment.
pub proof fn algorithms_see_smoothed_rtt(
    c: CongestionView,
    acked: u64,
    rtt: Duration,
    now: Instant,
)
    ensures
        ({
            let n = c.acked(acked as int, rtt, now);
            let smoothed = n.rtt.smoothed_rtt;
            &&& c.algorithm == CongestionAlgorithm::BBR && smoothed.nanos < c.bbr.min_rtt.nanos
                ==> n.bbr.min_rtt == smoothed
            &&& c.algorithm == CongestionAlgorithm::BBR && smoothed.nanos >= c.bbr.min_rtt.nanos
                ==> n.bbr.min_rtt == c.bbr.min_rtt
            &&& c.algorithm == CongestionAlgorithm::BBR && acked > 0 && smoothed.nanos > 0
                ==> n.bbr.bandwidth_samples.last().bytes_acked == acked
                && n.bbr.bandwidth_samples.last().rtt == smoothed
            &&& c.algorithm == CongestionAlgorithm::CUBIC ==> (c.cubic_controller matches Some(k)
                ==> n.cubic_controller matches Some(m) && m.last_rtt == smoothed)
            &&& c.algorithm == CongestionAlgorithm::BBRv2 ==> (c.bbr_controller matches Some(b) ==> (
            b.delivered + acked <= u64::MAX ==> (n.bbr_controller matches Some(d) && d.delivered
                == b.delivered + acked && (smoothed.nanos <= b.rtt.min_rtt.nanos ==> d.rtt.min_rtt
                == smoothed))))
        }),
{
}

/// A loss of more than one datagram ends the startup of the advanced controller, and nothing
/// else does anything to it.
pub proof fn advanced_bbr_leaves_startup_on_loss(
    c: CongestionView,
    lost: u64,
    decreased: DecreasedWindow,
    now: Instant,
)
    requires
        c.algorithm == CongestionAlgorithm::BBRv2,
        c.bbr_controller is Some,
    ensures
        ({
            let b = c.bbr_controller->Some_0;
            let n = c.lost(lost, decreased, now).bbr_controller;
            &&& b.state == crate::bbr::BBRState::Startup && lost > b.mss ==> (n matches Some(d)
                && d.state == crate::bbr::BBRState::Drain && d.pacing_gain == PacingGain::Drain
                && d.state_start_time == now)
            &&& b.state != crate::bbr::BBRState::Startup || lost <= b.mss ==> n == Some(b)
        }),
{
}

/// What is shown of BBR is of the algorithm in use, and there is nothing to show of others.
pub proof fn shown_values_are_of_bbr(c: CongestionView, advanced: u64)
    ensures
        c.algorithm == CongestionAlgorithm::BBR ==> c.rate(advanced) == Some(c.bbr.sending_rate)
            && CongestionController::shown_bbr_state(c) == Some(c.bbr.state),
        c.algorithm == CongestionAlgorithm::BBRv2 && c.bbr_controller is Some ==> c.rate(advanced)
            == Some(advanced),
        c.algorithm == CongestionAlgorithm::BBRv2 ==> (c.bbr_controller matches Some(b) ==> (
        CongestionController::shown_bbr_state(c) == Some(BBRState::Startup) <==> b.state
            == crate::bbr::BBRState::Startup) && (CongestionController::shown_bbr_state(c) == Some(
            BBRState::Drain,
        ) <==> b.state == crate::bbr::BBRState::Drain) && (CongestionController::shown_bbr_state(c)
            == Some(BBRState::ProbeBW) <==> b.state == crate::bbr::BBRState::ProbeBW) && (
        CongestionController::shown_bbr_state(c) == Some(BBRState::ProbeRTT) <==> b.state
            == crate::bbr::BBRState::ProbeRTT)),
        c.algorithm == CongestionAlgorithm::BBRv2 ==> (c.bbr_controller matches Some(b)
            ==> c.bottleneck() == Some(b.bandwidth.max_bandwidth)),
        c.algorithm == CongestionAlgorithm::NewReno || c.algorithm == CongestionAlgorithm::CUBIC
            ==> c.rate(advanced) is None && CongestionController::shown_bbr_state(c) is None,
        c.algorithm == CongestionAlgorithm::CUBIC ==> (c.cubic_controller matches Some(k) ==> (
        k.ssthresh == 1 ==> c.threshold() == c.max_datagram_size)),
        c.algorithm == CongestionAlgorithm::CUBIC ==> (c.cubic_controller matches Some(k) ==> (
        c.max_datagram_size == 1 ==> c.threshold() == k.ssthresh)),
{
    if c.cubic_controller is Some {
        let k = c.cubic_controller->Some_0;
        let (a, b) = (k.ssthresh as int, c.max_datagram_size as int);
        assert(a == 1 ==> a * b == b) by (nonlinear_arith);
        assert(b == 1 ==> a * b == a) by (nonlinear_arith);
    }
}

/// A sample of the advanced controller says what it was measured on.
pub proof fn advanced_samples_say_what_they_are(
    b: BBRView,
    bytes: u64,
    rtt: Duration,
    now: Instant,
)
    requires
        bytes > 0,
        rtt.nanos > 0,
        b.delivered + bytes <= u64::MAX,
    ensures
        ({
            let d = b.sampled(bytes, rtt, now).delivery_rate_samples.last();
            &&& d.rtt == rtt && d.timestamp == now && d.delivered == bytes && !d.is_retransmit
            &&& d.is_app_limited <==> b.delivered + bytes <= b.app_limited
            &&& b.delivery_rate_samples.len() <= 10 ==> b.sampled(
                bytes,
                rtt,
                now,
            ).delivery_rate_samples.len() <= 10
        }),
{
}

} // verus!
