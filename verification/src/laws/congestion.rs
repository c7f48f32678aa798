//! Laws of congestion control: how windows grow and shrink, and how estimates move.

use crate::bbr::{BBRProducts, BBRView, BandwidthView, PacingGain};
use crate::congestion::{
    acked_sum, not_older, BbrAlgorithmView, CongestionAlgorithm, CongestionState, CongestionView,
    NewRenoState, RttTracker,
};
use crate::cubic::{CubicController, CubicState, DecreasedWindow};
use crate::time::{Duration, Instant, LONGEST};
use vstd::prelude::*;

verus! {

/// Each packet number of a range that is acknowledged counts as one full datagram.
pub proof fn acked_bytes_are_full_datagrams(ranges: Seq<(u64, u64)>, size: u64, a: u64, b: u64)
    ensures
        acked_sum(Seq::empty(), size) == 0,
        acked_sum(ranges.push((a, b)), size) - acked_sum(ranges, size) == (b - a + 1) * size,
{
    assert(ranges.push((a, b)).drop_last() =~= ranges);
}

/// In slow start the window of NewReno grows by what is acknowledged, until it reaches the
/// threshold.
pub proof fn newreno_slow_start_adds_bytes(s: NewRenoState, acked: int, size: u64)
    requires
        s.state == CongestionState::SlowStart,
        acked >= 0,
        s.congestion_window + acked <= u64::MAX,
    ensures
        ({
            let n = s.acked(acked, size);
            &&& n.congestion_window - s.congestion_window == acked
            &&& n.congestion_window < s.ssthresh ==> n.state == CongestionState::SlowStart
            &&& n.congestion_window >= s.ssthresh ==> n.state
                == CongestionState::CongestionAvoidance && n.bytes_acked == 0
            &&& n.ssthresh == s.ssthresh
        }),
{
}

/// In congestion avoidance the window of NewReno grows by one datagram once a window's worth of
/// bytes is acknowledged; until then the bytes are counted.
pub proof fn newreno_avoidance_adds_datagram(s: NewRenoState, acked: int, size: u64)
    requires
        s.state == CongestionState::CongestionAvoidance,
        acked >= 0,
        s.bytes_acked + acked <= u64::MAX,
        s.congestion_window + size <= u64::MAX,
    ensures
        ({
            let n = s.acked(acked, size);
            &&& s.bytes_acked + acked < s.congestion_window ==> n.congestion_window
                == s.congestion_window && n.bytes_acked - s.bytes_acked == acked
            &&& s.bytes_acked + acked >= s.congestion_window ==> n.congestion_window
                - s.congestion_window == size && n.bytes_acked == 0
            &&& n.state == s.state && n.ssthresh == s.ssthresh
        }),
{
}

/// Two acknowledgments in slow start that do not reach the threshold do what one of both would.
pub proof fn newreno_acks_add_up(s: NewRenoState, a: int, b: int, size: u64)
    requires
        s.state == CongestionState::SlowStart,
        a >= 0,
        b >= 0,
        s.congestion_window + a + b < s.ssthresh,
    ensures
        s.acked(a, size).acked(b, size) == s.acked(a + b, size),
{
}

/// A loss halves the window of NewReno, or takes it to the minimum, and the threshold with it.
/// It starts a recovery period that ends after a tenth of a second.
pub proof fn newreno_loss_halves(s: NewRenoState, min_window: u64, now: Instant, later: Instant)
    requires
        s.state != CongestionState::Recovery,
        now.nanos <= later.nanos,
    ensures
        ({
            let n = s.lost(min_window, now);
            let w = n.congestion_window;
            &&& w == min_window || w + w <= s.congestion_window
            &&& w >= min_window && s.congestion_window < 2 * w + 2
            &&& n.ssthresh == w
            &&& n.bytes_acked == 0
            &&& n.state == CongestionState::Recovery
            &&& later.nanos - now.nanos <= 100_000_000 ==> n.updated(later) == n
            &&& later.nanos - now.nanos > 100_000_000 ==> n.updated(later).state
                == CongestionState::CongestionAvoidance && n.updated(later).congestion_window == w
        }),
{
}

/// The smoothed round-trip time moves one eighth of the way to a sample and the variation one
/// quarter of the way to how far they lay apart, each but for two parts of rounding. The first
/// sample is taken as it is.
pub proof fn tracked_rtt_moves_one_eighth(t: RttTracker, rtt: Duration)
    ensures
        ({
            let u = t.sampled(rtt);
            let s = t.smoothed_rtt.nanos;
            let apart = if s > rtt.nanos {
                s - rtt.nanos
            } else {
                rtt.nanos - s
            };
            &&& t.first_sample ==> u.smoothed_rtt == rtt && 2 * u.rtt_var.nanos <= rtt.nanos < 2
                * u.rtt_var.nanos + 2
            &&& !t.first_sample ==> {
                &&& 8 * u.smoothed_rtt.nanos <= 7 * s + rtt.nanos < 8 * u.smoothed_rtt.nanos + 16
                &&& 4 * u.rtt_var.nanos <= 3 * t.rtt_var.nanos + apart < 4 * u.rtt_var.nanos + 8
            }
            &&& !u.first_sample
            &&& u.latest_rtt == rtt
            &&& t.sample_count < u64::MAX ==> u.sample_count == t.sample_count + 1
            &&& u.min_rtt.nanos <= rtt.nanos && u.min_rtt.nanos <= t.min_rtt.nanos
            &&& u.min_rtt == rtt || u.min_rtt == t.min_rtt
            &&& u.max_rtt.nanos >= rtt.nanos && u.max_rtt.nanos >= t.max_rtt.nanos
            &&& u.max_rtt == rtt || u.max_rtt == t.max_rtt
        }),
{
    let s = t.smoothed_rtt.nanos as int;
    let r = rtt.nanos as int;
    assert(s * 7 / 8 + r / 8 <= u128::MAX);
}

/// An acknowledgment reaches the algorithm in use and no other; the estimates of the round-trip
/// time and the pace see every sample.
pub proof fn acks_reach_algorithm_in_use(
    c: CongestionView,
    acked: int,
    rtt: Duration,
    now: Instant,
)
    ensures
        ({
            let n = c.acked(acked, rtt, now);
            &&& n.rtt == c.rtt.sampled(rtt)
            &&& n.pacing.smoothed_rtt == crate::pacing::averaged(
                c.pacing.smoothed_rtt,
                n.rtt.smoothed_rtt,
            )
            &&& c.algorithm != CongestionAlgorithm::NewReno ==> n.newreno == c.newreno
            &&& c.algorithm != CongestionAlgorithm::BBR ==> n.bbr == c.bbr
            &&& c.algorithm != CongestionAlgorithm::BBRv2 ==> n.bbr_controller == c.bbr_controller
            &&& c.algorithm != CongestionAlgorithm::CUBIC ==> n.cubic_controller
                == c.cubic_controller
            &&& c.algorithm == CongestionAlgorithm::NewReno && c.newreno.state
                == CongestionState::SlowStart && acked >= 0 && c.newreno.congestion_window + acked
                <= u64::MAX ==> n.window() - c.window() == acked
            &&& n.algorithm == c.algorithm && n.max_datagram_size == c.max_datagram_size
        }),
{
}

/// A loss reaches the algorithm in use and no other.
pub proof fn losses_reach_algorithm_in_use(
    c: CongestionView,
    lost_bytes: u64,
    decreased: DecreasedWindow,
    now: Instant,
)
    ensures
        ({
            let n = c.lost(lost_bytes, decreased, now);
            &&& c.algorithm != CongestionAlgorithm::NewReno ==> n.newreno == c.newreno
            &&& c.algorithm != CongestionAlgorithm::BBR ==> n.bbr == c.bbr
            &&& c.algorithm != CongestionAlgorithm::BBRv2 ==> n.bbr_controller == c.bbr_controller
            &&& c.algorithm != CongestionAlgorithm::CUBIC ==> n.cubic_controller
                == c.cubic_controller
            &&& c.algorithm == CongestionAlgorithm::NewReno && c.newreno.state
                != CongestionState::Recovery ==> n.window() == c.min_window || 2 * n.window()
                <= c.window() <= 2 * n.window() + 1
            &&& c.algorithm == CongestionAlgorithm::CUBIC ==> (c.cubic_controller matches Some(k)
                ==> n.cubic_controller is Some && (k.state == CubicState::FastRecovery
                ==> n.cubic_controller == Some(k)))
            &&& n.rtt == c.rtt && n.pacing == c.pacing && n.algorithm == c.algorithm
        }),
{
}

/// A controller starts with a window of ten datagrams of 1200 bytes, in slow start; two
/// datagrams are the minimum.
pub proof fn controllers_start_with_ten_datagrams(now: Instant)
    ensures
        ({
            let c = CongestionView::fresh(CongestionAlgorithm::NewReno, now);
            let k = CongestionView::fresh(CongestionAlgorithm::CUBIC, now);
            let b = CongestionView::fresh(CongestionAlgorithm::BBR, now);
            &&& c.max_datagram_size == 1200 && c.min_window == 2 * 1200
            &&& c.window() == 10 * 1200 && k.window() == 10 * 1200 && b.window() == 10 * 1200
            &&& c.slow_start() && k.slow_start() && b.slow_start()
            &&& !c.recovering() && !k.recovering() && !b.recovering()
            &&& c.newreno.ssthresh == u64::MAX
        }),
{
}

/// In congestion avoidance the window of CUBIC moves toward the target: up by one packet once as
/// many acknowledgments came as it has packets, down at once, and never past the target but for
/// the minimum.
pub proof fn cubic_moves_toward_target(c: CubicController, target: u32)
    ensures
        ({
            let n = c.moved_toward(target);
            &&& target > c.cwnd ==> {
                &&& c.cwnd <= n.cwnd <= target
                &&& c.ack_count >= c.cwnd ==> n.cwnd == c.cwnd + 1 && n.ack_count == 0
                &&& c.ack_count < c.cwnd ==> n.cwnd == c.cwnd && n.ack_count == c.ack_count + 1
            }
            &&& target == c.cwnd ==> n == c
            &&& target < c.cwnd ==> {
                &&& n.cwnd >= target && n.cwnd >= c.config.min_cwnd
                &&& n.cwnd == target || n.cwnd == c.config.min_cwnd
                &&& n.ack_count == c.ack_count
            }
            &&& n == CubicController { cwnd: n.cwnd, ack_count: n.ack_count, ..c }
        }),
{
}

/// A controller after so many acknowledgments with one target.
pub open spec fn toward(c: CubicController, target: u32, acks: nat) -> CubicController
    decreases acks,
{
    if acks == 0 {
        c
    } else {
        toward(c, target, (acks - 1) as nat).moved_toward(target)
    }
}

/// Acknowledgments with one target above the window make the window reach it.
pub proof fn cubic_reaches_target(c: CubicController, target: u32) -> (acks: nat)
    requires
        c.cwnd <= target,
    ensures
        toward(c, target, acks).cwnd == target,
    decreases target - c.cwnd, (if c.ack_count < c.cwnd {
        c.cwnd - c.ack_count
    } else {
        0
    }),
{
    if c.cwnd == target {
        0
    } else {
        let n = c.moved_toward(target);
        let k = cubic_reaches_target(n, target);
        lemma_toward_shifts(c, target, k);
        k + 1
    }
}

/// One acknowledgment more at the front.
proof fn lemma_toward_shifts(c: CubicController, target: u32, acks: nat)
    ensures
        toward(c.moved_toward(target), target, acks) == toward(c, target, acks + 1),
    decreases acks,
{
    if acks > 0 {
        lemma_toward_shifts(c, target, (acks - 1) as nat);
    } else {
        assert(toward(c, target, 1) == toward(c, target, 0).moved_toward(target));
    }
}

/// The estimates of CUBIC: one eighth toward a sample, one quarter toward how far it lay apart,
/// and the extremes.
pub proof fn cubic_rtt_moves_one_eighth(c: CubicController, rtt: Duration)
    ensures
        ({
            let n = c.with_rtt(rtt);
            let s = c.srtt.nanos;
            let apart = if s > rtt.nanos {
                s - rtt.nanos
            } else {
                rtt.nanos - s
            };
            &&& s > 0 && s < 0x1000_0000_0000_0000_0000_0000_0000_0000 && rtt.nanos
                < 0x1000_0000_0000_0000_0000_0000_0000_0000 && c.rtt_var.nanos
                < 0x1000_0000_0000_0000_0000_0000_0000_0000 ==> {
                &&& 8 * n.srtt.nanos <= 7 * s + rtt.nanos < 8 * n.srtt.nanos + 8
                &&& 4 * n.rtt_var.nanos <= 3 * c.rtt_var.nanos + apart < 4 * n.rtt_var.nanos + 4
            }
            &&& s == 0 ==> n.srtt == rtt && 2 * n.rtt_var.nanos <= rtt.nanos < 2 * n.rtt_var.nanos
                + 2
            &&& n.last_rtt == rtt
            &&& n.min_rtt.nanos <= rtt.nanos && n.min_rtt.nanos <= c.min_rtt.nanos
            &&& n.min_rtt == rtt || n.min_rtt == c.min_rtt
            &&& n.max_rtt.nanos >= rtt.nanos && n.max_rtt.nanos >= c.max_rtt.nanos
            &&& n.max_rtt == rtt || n.max_rtt == c.max_rtt
            &&& n.cwnd == c.cwnd && n.state == c.state && n.ssthresh == c.ssthresh
        }),
{
}

/// Whether an acknowledgment shows hybrid slow start that the path fills up: acknowledgments have
/// come for the length of a train, or the smallest round-trip time of the round lies the
/// configured delay above that of the last one, after as many rounds as are configured.
pub open spec fn path_fills_up(c: CubicController, rtt: Duration, now: Instant) -> bool {
    let h = c.hystart;
    let low = if rtt.nanos < h.curr_round_min_rtt.nanos {
        rtt.nanos
    } else {
        h.curr_round_min_rtt.nanos
    };
    let train = h.ack_train_start matches Some(t) && (c.config.hystart_ack_train.nanos == 0
        || t.nanos + c.config.hystart_ack_train.nanos <= now.nanos);
    let slower = h.round_counter >= c.config.hystart_round_thresh && h.last_round_min_rtt.nanos
        != LONGEST && (c.config.hystart_delay_min.nanos == 0 || h.last_round_min_rtt.nanos
        + c.config.hystart_delay_min.nanos <= low);
    h.enabled && !h.found_exit && (train || slower)
}

/// In slow start the window of CUBIC grows by one packet for each that is acknowledged, a part
/// of a packet counting as a whole one, and slow start ends at the threshold. In fast recovery
/// whole packets count. Congestion avoidance is for the curve.
pub proof fn cubic_grows_with_acks(c: CubicController, acked: u64, rtt: Duration, now: Instant)
    requires
        c.mss > 0,
        acked + c.mss < 0x1_0000_0000,
        c.cwnd + acked + 1 <= u32::MAX - 1000,
        !path_fills_up(c, rtt, now),
    ensures
        ({
            let n = c.grown(acked, rtt, now);
            let more = n.cwnd - c.cwnd;
            &&& c.state == CubicState::SlowStart ==> {
                &&& more * c.mss >= acked && (more - 1) * c.mss < acked
                &&& n.cwnd >= c.ssthresh ==> n.state == CubicState::CongestionAvoidance && n.ssthresh
                    == n.cwnd && n.epoch_start == Some(now) && n.ack_count == 0
                &&& n.cwnd < c.ssthresh ==> n.state == CubicState::SlowStart && n.ssthresh
                    == c.ssthresh
            }
            &&& c.state == CubicState::FastRecovery ==> more * c.mss <= acked < (more + 1) * c.mss
                && n.state == c.state
            &&& c.state == CubicState::CongestionAvoidance ==> n == c
            &&& c.state == CubicState::HyStartDelayIncrease && c.ack_count >= c.cwnd ==> more == 1
                && n.ack_count == 0 && n.state == c.state
            &&& c.state == CubicState::HyStartDelayIncrease && c.ack_count < c.cwnd ==> {
                let counted = n.ack_count - c.ack_count;
                more == 0 && counted * c.mss <= acked < (counted + 1) * c.mss && n.state == c.state
            }
        }),
{
    let m = c.mss as int;
    let a = acked as int;
    vstd::arithmetic::div_mod::lemma_fundamental_div_mod(a + m - 1, m);
    vstd::arithmetic::div_mod::lemma_fundamental_div_mod(a, m);
    let (x, y) = ((a + m - 1) / m, a / m);
    assert(0 <= x <= a + m - 1 && x <= a && (x - 1) * m < a <= x * m) by (nonlinear_arith)
        requires
            a + m - 1 == m * x + (a + m - 1) % m,
            0 <= (a + m - 1) % m < m,
            m >= 1,
            a >= 0,
    ;
    assert(0 <= y <= a && y * m <= a < (y + 1) * m) by (nonlinear_arith)
        requires
            a == m * y + a % m,
            0 <= a % m < m,
            m >= 1,
            a >= 0,
    ;
}

/// Hybrid slow start ends slow start where acknowledgments keep coming for the length of a train
/// or where the round-trip time grew by the configured delay over that of the last round, after
/// as many rounds as are configured. It ends it once.
pub proof fn hybrid_start_ends_slow_start(
    c: CubicController,
    acked: u64,
    rtt: Duration,
    now: Instant,
)
    requires
        c.state == CubicState::SlowStart,
        c.hystart.enabled,
        !c.hystart.found_exit,
    ensures
        ({
            let h = c.hystart;
            let low = if rtt.nanos < h.curr_round_min_rtt.nanos {
                rtt.nanos
            } else {
                h.curr_round_min_rtt.nanos
            };
            let n = c.grown(acked, rtt, now);
            &&& path_fills_up(c, rtt, now) ==> n.state == CubicState::CongestionAvoidance
                && n.ssthresh == c.cwnd && n.cwnd == c.cwnd
            &&& n.hystart.found_exit <==> path_fills_up(c, rtt, now)
            &&& h.ack_train_start is None ==> n.hystart.ack_train_start == Some(now)
            &&& n.hystart.curr_round_min_rtt.nanos == low
        }),
{
}

/// A loss takes CUBIC into fast recovery, with the window that the decrease gives or the minimum
/// as window and threshold. The window before is remembered as the one to come back to.
pub proof fn cubic_loss_remembers_window(
    c: CubicController,
    decreased: DecreasedWindow,
    now: Instant,
)
    ensures
        ({
            let n = c.in_fast_recovery(decreased, now);
            let shrinking = c.config.fast_convergence && c.cwnd < c.cwnd_last_max;
            &&& n.state == CubicState::FastRecovery
            &&& n.cwnd_last_max == c.cwnd
            &&& n.ssthresh == n.cwnd
            &&& n.epoch_start == Some(now)
            &&& n.cwnd >= c.config.min_cwnd
            &&& shrinking ==> n.cwnd == decreased.fast_convergence || (n.cwnd == c.config.min_cwnd
                && decreased.fast_convergence < n.cwnd)
            &&& !shrinking ==> n.cwnd == decreased.normal || (n.cwnd == c.config.min_cwnd
                && decreased.normal < n.cwnd)
            &&& n.fast_convergence_active == shrinking
        }),
{
}

/// A congestion mark takes the window to the decreased one or the minimum, and the threshold
/// with it; slow start ends.
pub proof fn cubic_mark_decreases(c: CubicController, decreased: u32, now: Instant)
    ensures
        ({
            let n = c.marked(decreased, now);
            &&& n.cwnd == decreased || (n.cwnd == c.config.min_cwnd && decreased < n.cwnd)
            &&& n.cwnd >= c.config.min_cwnd
            &&& n.ssthresh == n.cwnd && n.epoch_start == Some(now)
            &&& c.state == CubicState::SlowStart ==> n.state == CubicState::CongestionAvoidance
            &&& c.state != CubicState::SlowStart ==> n.state == c.state
            &&& n.cwnd_last_max <= c.cwnd_last_max || c.state == CubicState::SlowStart
        }),
{
}

/// A round of CUBIC lasts for one smoothed round-trip time. The next one counts anew.
pub proof fn cubic_rounds_last_one_rtt(c: CubicController, now: Instant)
    ensures
        c.round_over(now) <==> now.nanos >= c.round_start_time.nanos + c.srtt.nanos || c.srtt.nanos
            == 0,
        ({
            let n = c.next_round(now);
            &&& n.round_start_time == now
            &&& n.acked_bytes_this_round == 0
            &&& c.round_count < u32::MAX ==> n.round_count == c.round_count + 1
            &&& n.cwnd == c.cwnd && n.state == c.state
            &&& c.hystart.enabled && c.state == CubicState::SlowStart
                ==> n.hystart.last_round_min_rtt == c.hystart.curr_round_min_rtt
        }),
        ({
            let i = c.curve_input(now);
            &&& i.w_max == c.cwnd_last_max
            &&& i.srtt == c.srtt
            &&& c.epoch_start is None ==> i.elapsed.nanos == 0
            &&& (c.epoch_start matches Some(t) ==> (t.nanos <= now.nanos ==> t.nanos
                + i.elapsed.nanos == now.nanos))
        }),
{
}

/// A bandwidth is what was delivered for each second of the round-trip time, rounded down.
pub open spec fn is_rate(rate: u64, bytes: u64, rtt: Duration) -> bool {
    rate * rtt.micros() <= bytes * 1_000_000 < (rate + 1) * rtt.micros()
}

/// A rate is a quotient.
proof fn lemma_rate(bytes: u64, rtt: Duration)
    requires
        rtt.micros() > 0,
        bytes * 1_000_000 <= u64::MAX,
    ensures
        is_rate((bytes * 1_000_000 / rtt.micros()) as u64, bytes, rtt),
{
    let (a, b) = (bytes * 1_000_000, rtt.micros());
    vstd::arithmetic::div_mod::lemma_fundamental_div_mod(a, b);
    let q = a / b;
    assert(0 <= q <= a && q * b <= a < (q + 1) * b) by (nonlinear_arith)
        requires
            a == b * q + a % b,
            0 <= a % b < b,
            b >= 1,
            a >= 0,
    ;
}

/// BBR keeps the smallest round-trip time with its time, and the largest bandwidth among the
/// samples of its window, with the newest one.
pub proof fn bbr_samples(b: BbrAlgorithmView, bytes: u64, rtt: Duration, now: Instant)
    requires
        bytes > 0,
        rtt.micros() > 0,
        bytes * 1_000_000 <= u64::MAX,
    ensures
        ({
            let n = b.sampled(bytes, rtt, now);
            &&& rtt.nanos < b.min_rtt.nanos ==> n.min_rtt == rtt && n.min_rtt_timestamp == now
            &&& rtt.nanos >= b.min_rtt.nanos ==> n.min_rtt == b.min_rtt && n.min_rtt_timestamp
                == b.min_rtt_timestamp
            &&& is_rate(n.bandwidth_samples.last().bandwidth, bytes, rtt)
            &&& n.bottleneck_bandwidth >= n.bandwidth_samples.last().bandwidth
            &&& forall|i: int|
                0 <= i < b.max_values.len() && (#[trigger] b.max_values[i]).1.nanos
                    + b.window_duration.nanos >= now.nanos ==> b.max_values[i].0
                    <= n.bottleneck_bandwidth
            &&& n.bottleneck_bandwidth == n.bandwidth_samples.last().bandwidth || exists|i: int|
                0 <= i < b.max_values.len() && (#[trigger] b.max_values[i]).0
                    == n.bottleneck_bandwidth && (b.max_values[i].1.nanos + b.window_duration.nanos
                    >= now.nanos)
        }),
{
    lemma_rate(bytes, rtt);
    let rate = (bytes * 1_000_000 / rtt.micros()) as u64;
    let cutoff = if now.nanos >= b.window_duration.nanos {
        now.nanos - b.window_duration.nanos
    } else {
        0
    };
    let kept = not_older(b.max_values, cutoff);
    lemma_not_older(b.max_values, cutoff);
    let values = kept.push((rate, now));
    let n = b.sampled(bytes, rtt, now);
    crate::bbr::lemma_max_of(values);
    assert(values[kept.len() as int].0 == rate);
    assert(n.bottleneck_bandwidth == crate::bbr::max_of(values));
    assert forall|i: int|
        0 <= i < b.max_values.len() && (#[trigger] b.max_values[i]).1.nanos
            + b.window_duration.nanos >= now.nanos implies b.max_values[i].0
        <= n.bottleneck_bandwidth by {
        assert(kept.contains(b.max_values[i]));
        let j = choose|j: int| 0 <= j < kept.len() && kept[j] == b.max_values[i];
        assert(values[j] == b.max_values[i]);
    }
    let k = choose|k: int|
        0 <= k < values.len() && (#[trigger] values[k]).0 == crate::bbr::max_of(values);
    if k < kept.len() {
        assert(values[k] == kept[k]);
        assert(kept.contains(kept[k]));
        let i = choose|i: int| 0 <= i < b.max_values.len() && b.max_values[i] == kept[k];
        assert(b.max_values[i].0 == n.bottleneck_bandwidth);
    }
}

/// Samples that are not too old stay.
proof fn lemma_not_older(s: Seq<(u64, Instant)>, cutoff: int)
    ensures
        forall|i: int|
            0 <= i < s.len() && (#[trigger] s[i]).1.nanos >= cutoff ==> not_older(
                s,
                cutoff,
            ).contains(s[i]),
        forall|j: int|
            0 <= j < not_older(s, cutoff).len() ==> s.contains(
                #[trigger] not_older(s, cutoff)[j],
            ) && not_older(s, cutoff)[j].1.nanos >= cutoff,
    decreases s.len(),
{
    if s.len() > 0 {
        let d = s.drop_last();
        lemma_not_older(d, cutoff);
        let t = not_older(s, cutoff);
        let u = not_older(d, cutoff);
        assert forall|i: int| 0 <= i < s.len() && (#[trigger] s[i]).1.nanos >= cutoff implies t.contains(
            s[i],
        ) by {
            if i < d.len() {
                assert(d[i] == s[i]);
                let j = choose|j: int| 0 <= j < u.len() && u[j] == s[i];
                assert(t[j] == s[i]);
            } else {
                assert(t[t.len() - 1] == s[i]);
            }
        }
        assert forall|j: int| 0 <= j < t.len() implies s.contains(#[trigger] t[j])
            && t[j].1.nanos >= cutoff by {
            if j < u.len() {
                assert(t[j] == u[j]);
                let i = choose|i: int| 0 <= i < d.len() && d[i] == u[j];
                assert(s[i] == u[j]);
            } else {
                assert(s[s.len() - 1] == t[j]);
            }
        }
    }
}

/// When BBR changes its state: from startup where the newest bandwidth is less than five
/// quarters of the one before, from drain where the target fits the product of bandwidth and
/// delay, from ProbeBW after ten seconds without a smaller round-trip time, and from ProbeRTT
/// after its time. In ProbeBW it takes a step of its cycle each smallest round-trip time.
pub proof fn bbr_changes_state(b: BbrAlgorithmView, now: Instant)
    ensures
        ({
            let n = b.state_updated(now);
            let s = b.bandwidth_samples;
            let k = s.len() as int;
            &&& b.state == crate::congestion::BBRState::Startup && k >= 2 ==> (n.state
                == crate::congestion::BBRState::Drain <==> s[k - 1].bandwidth < s[k - 2].bandwidth
                + s[k - 2].bandwidth / 4)
            &&& b.state == crate::congestion::BBRState::Startup && k == 0 ==> n.state == b.state
            &&& b.state == crate::congestion::BBRState::Drain ==> (n.state
                == crate::congestion::BBRState::ProbeBW <==> b.target_cwnd <= b.bottleneck_bandwidth
                * b.min_rtt.seconds())
            &&& b.state == crate::congestion::BBRState::ProbeBW ==> (n.state
                == crate::congestion::BBRState::ProbeRTT <==> now.nanos
                >= b.min_rtt_timestamp.nanos + 10_000_000_000)
            &&& b.state == crate::congestion::BBRState::ProbeBW && now.nanos
                < b.last_state_change.nanos + b.min_rtt.nanos && b.min_rtt.nanos > 0
                ==> n.cycle_index == b.cycle_index
            &&& b.state == crate::congestion::BBRState::ProbeBW && now.nanos
                >= b.last_state_change.nanos + b.min_rtt.nanos && b.cycle_index < 3
                ==> n.cycle_index == (if b.cycle_index == 2 {
                0int
            } else {
                b.cycle_index + 1
            })
            &&& b.state == crate::congestion::BBRState::ProbeRTT && b.probe_rtt_duration.nanos > 0
                ==> (n.state == crate::congestion::BBRState::ProbeBW <==> now.nanos
                >= b.last_state_change.nanos + b.probe_rtt_duration.nanos)
            &&& n.bottleneck_bandwidth == b.bottleneck_bandwidth && n.min_rtt == b.min_rtt
        }),
{
}

/// The target of BBR is the scaled product, at least the minimum; while it probes for the
/// round-trip time it is the minimum, and without a bandwidth it stays.
pub proof fn bbr_target_is_scaled_product(b: BbrAlgorithmView, scaled: u64, min_window: u64)
    ensures
        ({
            let n = b.window_updated(scaled, min_window);
            &&& b.bottleneck_bandwidth == 0 ==> n == b
            &&& b.bottleneck_bandwidth > 0 ==> n.target_cwnd >= min_window
            &&& b.bottleneck_bandwidth > 0 && b.state != crate::congestion::BBRState::ProbeRTT
                && scaled >= min_window ==> n.target_cwnd == scaled
            &&& b.bottleneck_bandwidth > 0 && (b.state == crate::congestion::BBRState::ProbeRTT
                || scaled < min_window) ==> n.target_cwnd == min_window
        }),
{
}

/// The advanced controller counts what is delivered, keeps the smallest round-trip time and
/// measures a bandwidth, which counts unless the application limited it.
pub proof fn advanced_bbr_samples(b: BBRView, bytes: u64, rtt: Duration, now: Instant)
    requires
        bytes > 0,
        rtt.micros() > 0,
        b.delivered + bytes <= u64::MAX,
        bytes * 1_000_000 <= u64::MAX,
    ensures
        ({
            let n = b.sampled(bytes, rtt, now);
            &&& n.delivered - b.delivered == bytes
            &&& rtt.nanos <= b.rtt.min_rtt.nanos ==> n.rtt.min_rtt == rtt
                && n.rtt.min_rtt_timestamp == now
            &&& rtt.nanos > b.rtt.min_rtt.nanos ==> n.rtt.min_rtt == b.rtt.min_rtt
                && n.rtt.min_rtt_timestamp == b.rtt.min_rtt_timestamp
            &&& is_rate(n.delivery_rate_samples.last().rate, bytes, rtt)
            &&& b.delivered + bytes > b.app_limited ==> n.bandwidth.max_bandwidth
                >= n.delivery_rate_samples.last().rate
            &&& b.delivered + bytes <= b.app_limited ==> n.bandwidth == b.bandwidth
            &&& n.state == b.state && n.congestion_window == b.congestion_window
        }),
{
    lemma_rate(bytes, rtt);
    let rate = (bytes * 1_000_000 / rtt.micros()) as u64;
    crate::bbr::bandwidth_is_window_maximum(b.bandwidth, rate, now);
}

/// A bandwidth filter keeps every sample of its window.
pub proof fn bandwidth_window_is_kept(f: BandwidthView, bandwidth: u64, now: Instant)
    requires
        forall|i: int|
            0 <= i < f.samples.len() ==> (#[trigger] f.samples[i]).1.nanos
                + f.window_duration.nanos >= now.nanos,
    ensures
        f.with_sample(bandwidth, now).samples == f.samples.push((bandwidth, now)),
{
    if f.samples.len() > 0 {
        assert(f.samples[0].1.nanos + f.window_duration.nanos >= now.nanos);
    }
}

/// The bandwidth is full where it did not pass the threshold for as many rounds as are
/// configured; a growing one starts the count again.
pub proof fn full_bandwidth_is_counted(b: BBRView, threshold: u64)
    requires
        b.full_bandwidth_count < usize::MAX,
    ensures
        ({
            let n = b.bandwidth_checked(threshold);
            let bw = b.bandwidth.max_bandwidth;
            &&& b.full_bandwidth_reached || bw == 0 ==> n == b
            &&& !b.full_bandwidth_reached && bw > threshold ==> n.full_bandwidth_count == 0
                && !n.full_bandwidth_reached
            &&& !b.full_bandwidth_reached && 0 < bw <= threshold ==> n.full_bandwidth_count
                - b.full_bandwidth_count == 1 && (n.full_bandwidth_reached
                <==> n.full_bandwidth_count >= b.config.full_bandwidth_count)
        }),
{
}

/// When the advanced controller changes its state: from startup once the bandwidth is full, from
/// drain once what is in flight fits the product, from ProbeBW after the interval without a
/// smaller round-trip time, and from ProbeRTT after its time.
pub proof fn advanced_bbr_changes_state(b: BBRView, bdp: u64, now: Instant)
    ensures
        ({
            let n = b.state_updated(bdp, now);
            &&& b.state == crate::bbr::BBRState::Startup ==> (n.state
                == crate::bbr::BBRState::Drain <==> b.full_bandwidth_reached) && (n.state
                == crate::bbr::BBRState::Startup <==> !b.full_bandwidth_reached)
            &&& b.state == crate::bbr::BBRState::Drain ==> (n.state
                == crate::bbr::BBRState::ProbeBW <==> b.packets_out * b.mss <= bdp)
            &&& b.state == crate::bbr::BBRState::ProbeBW && b.config.probe_rtt_interval.nanos > 0
                ==> (n.state == crate::bbr::BBRState::ProbeRTT <==> now.nanos
                >= b.rtt.min_rtt_timestamp.nanos + b.config.probe_rtt_interval.nanos)
            &&& b.state == crate::bbr::BBRState::ProbeRTT && b.config.probe_rtt_duration.nanos > 0
                ==> (n.state == crate::bbr::BBRState::ProbeBW <==> now.nanos
                >= b.state_start_time.nanos + b.config.probe_rtt_duration.nanos)
            &&& n.state == crate::bbr::BBRState::Drain && b.state != n.state ==> n.pacing_gain
                == PacingGain::Drain
            &&& n.state == crate::bbr::BBRState::ProbeBW && b.state != n.state ==> n.pacing_gain
                == PacingGain::ProbeBw(0) && n.cycle_index == 0
            &&& n.state == crate::bbr::BBRState::ProbeRTT && b.state != n.state ==> n.pacing_gain
                == PacingGain::Neutral
            &&& n.state != b.state ==> n.state_start_time == now
        }),
{
}

/// The window of the advanced controller moves toward the target by one packet, or four upward
/// in startup, and reaches it where that is enough.
pub proof fn advanced_bbr_window_step(b: BBRView, scaled: u64)
    requires
        b.config.min_cwnd_packets * b.mss <= u64::MAX,
        4 * b.mss <= u64::MAX,
    ensures
        ({
            let n = b.window_updated(scaled);
            let least = b.config.min_cwnd_packets * b.mss;
            let up = if b.state == crate::bbr::BBRState::Startup {
                4 * b.mss
            } else {
                b.mss as int
            };
            &&& b.state == crate::bbr::BBRState::ProbeRTT ==> n.target_cwnd == least
            &&& b.state != crate::bbr::BBRState::ProbeRTT && scaled >= least ==> n.target_cwnd
                == scaled
            &&& b.state != crate::bbr::BBRState::ProbeRTT && scaled < least ==> n.target_cwnd
                == least
            &&& n.target_cwnd > b.congestion_window + up ==> n.congestion_window
                - b.congestion_window == up
            &&& b.congestion_window <= n.target_cwnd <= b.congestion_window + up
                ==> n.congestion_window == n.target_cwnd
            &&& b.congestion_window - b.mss <= n.target_cwnd <= b.congestion_window
                ==> n.congestion_window == n.target_cwnd
            &&& n.target_cwnd < b.congestion_window - b.mss ==> b.congestion_window
                - n.congestion_window == b.mss
        }),
{
}

/// A round of the advanced controller is over once what was delivered at its start is
/// acknowledged.
pub proof fn advanced_bbr_rounds(b: BBRView, p: BBRProducts, now: Instant)
    requires
        b.round_count < u64::MAX,
    ensures
        b.delivered < b.next_round_delivered ==> b.advanced(p, now).round_count == b.round_count,
        b.delivered >= b.next_round_delivered ==> b.advanced(p, now).round_count == b.round_count
            + 1 && b.advanced(p, now).next_round_delivered == b.delivered,
{
}

} // verus!
