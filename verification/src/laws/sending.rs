//! Laws of pacing and of explicit congestion notification.

use crate::ecn::{
    drop_older, last_of, recent_entries, recent_marks, EcnCodepoint, EcnCongestionEvent,
    EcnControllerView, EcnCounters, EcnState, EcnValidation, EcnValidationConfig, MarkingRate,
};
use crate::pacing::{nearest, spacing, PacingConfig, PacingController, PacingState};
use crate::time::{Duration, Instant};
use vstd::prelude::*;

verus! {

/// A pacing rate stays as it is between the bounds and is the nearest bound outside them.
pub proof fn pacing_rate_is_bounded(c: PacingConfig, rate: u64)
    requires
        c.min_pacing_rate <= c.max_pacing_rate,
    ensures
        c.min_pacing_rate <= rate <= c.max_pacing_rate ==> c.clamped(rate) == rate,
        rate < c.min_pacing_rate ==> c.clamped(rate) == c.min_pacing_rate,
        rate > c.max_pacing_rate ==> c.clamped(rate) == c.max_pacing_rate,
{
}

/// A new rate is the target within the bounds; the pace itself is the smoothed rate, and the
/// target where there was no pace yet.
pub proof fn pace_is_smoothed(p: PacingController, rate: u64, smoothed: u64)
    requires
        p.config.min_pacing_rate <= rate <= p.config.max_pacing_rate,
    ensures
        ({
            let n = p.with_rate(rate, smoothed);
            &&& n.target_pacing_rate == rate
            &&& p.pacing_rate == 0 ==> n.pacing_rate == rate
            &&& p.pacing_rate > 0 ==> n.pacing_rate == smoothed
            &&& n == PacingController {
                target_pacing_rate: n.target_pacing_rate,
                pacing_rate: n.pacing_rate,
                ..p
            }
        }),
{
}

/// Tokens always allow a packet. Without them a packet may go where pacing is off, where the
/// application limits the sending, or on what is left of a burst.
pub proof fn tokens_allow_sending(p: PacingController)
    ensures
        p.may_send(true),
        p.may_send(false) <==> p.state == PacingState::Disabled || p.state
            == PacingState::AppLimited || (p.state == PacingState::Burst && p.burst_allowance != 0),
        p.state == PacingState::Burst && p.burst_allowance == 0 ==> p.after_check().state
            == PacingState::Active,
        p.state != PacingState::Burst || p.burst_allowance > 0 ==> p.after_check() == p,
{
}

/// A packet that has to wait does so until its tokens are there and until the shortest interval
/// has passed since the last one, and no longer.
pub proof fn wait_is_just_long_enough(p: PacingController, token_delay: Duration, now: Instant)
    requires
        p.last_send_time.nanos <= now.nanos,
    ensures
        ({
            let d = p.paced_delay(token_delay, now).nanos;
            let next = p.last_send_time.nanos + p.config.min_send_interval.nanos;
            &&& d >= token_delay.nanos
            &&& now.nanos + d >= next
            &&& d == token_delay.nanos || now.nanos + d == next
        }),
{
}

/// A packet that is sent is counted with its bytes and uses one of a burst; it ends a time in
/// which the application limited the sending.
pub proof fn sent_packets_are_counted(p: PacingController, packet_size: usize, now: Instant)
    requires
        p.packets_sent < u64::MAX,
        p.bytes_sent + packet_size <= u64::MAX,
    ensures
        ({
            let n = p.after_sending(packet_size, now);
            &&& n.packets_sent - p.packets_sent == 1
            &&& n.bytes_sent - p.bytes_sent == packet_size
            &&& n.last_send_time == now
            &&& p.state == PacingState::Burst && p.burst_allowance > 0 ==> p.burst_allowance
                - n.burst_allowance == 1
            &&& p.state != PacingState::Burst ==> n.burst_allowance == p.burst_allowance
            &&& n.state != PacingState::AppLimited
            &&& p.state != PacingState::AppLimited ==> n.state == p.state
            &&& p.state == PacingState::AppLimited ==> n.state == PacingState::Active
                && n.app_limited_start is None
            &&& n.pacing_rate == p.pacing_rate
        }),
{
}

/// Congestion halves what is left of a burst, to no less than one packet, and ends the burst.
pub proof fn congestion_halves_burst(p: PacingController)
    ensures
        ({
            let n = p.congested();
            &&& n.burst_allowance >= 1
            &&& p.burst_allowance >= 2 ==> 2 * n.burst_allowance <= p.burst_allowance < 2
                * n.burst_allowance + 2
            &&& n.state != PacingState::Burst
            &&& p.state != PacingState::Burst ==> n.state == p.state
            &&& n.pacing_rate == p.pacing_rate
        }),
{
}

/// What may go in a burst grows by what time allows, up to the maximum, and never shrinks.
pub proof fn burst_grows_to_maximum(p: PacingController, more: u32, now: Instant)
    ensures
        ({
            let b = p.accumulated_burst(more);
            &&& b >= p.burst_allowance
            &&& p.burst_allowance + more <= p.config.max_burst ==> b == p.burst_allowance + more
            &&& p.burst_allowance <= p.config.max_burst < p.burst_allowance + more ==> b
                == p.config.max_burst
            &&& p.burst_allowance > p.config.max_burst ==> b == p.burst_allowance
        }),
        ({
            let n = p.app_limited(now, more);
            &&& n.state == PacingState::AppLimited
            &&& p.state == PacingState::AppLimited ==> n == p
            &&& p.state != PacingState::AppLimited ==> n.app_limited_start == Some(now) && (
            p.config.enable_burst_allowance ==> n.burst_allowance == p.accumulated_burst(more)) && (
            !p.config.enable_burst_allowance ==> n.burst_allowance == p.burst_allowance)
        }),
{
}

/// A time in which the application limits the sending is over after two round trips.
pub proof fn app_limit_ends_after_two_round_trips(p: PacingController, now: Instant)
    ensures
        p.app_limited_start is None ==> p.refreshed(now) == p,
        p.app_limited_start matches Some(t) ==> (now.nanos > t.nanos + p.smoothed_rtt.nanos
            + p.smoothed_rtt.nanos ==> p.refreshed(now).state == PacingState::Active && p.refreshed(
            now,
        ).app_limited_start is None),
        p.app_limited_start matches Some(t) ==> (now.nanos <= t.nanos + p.smoothed_rtt.nanos
            + p.smoothed_rtt.nanos ==> p.refreshed(now) == p),
{
}

/// The average delay is what all delays would be if they were equal.
pub proof fn average_delay_is_mean(p: PacingController)
    requires
        0 < p.packets_delayed < 0x1_0000_0000,
    ensures
        ({
            let a = p.summary().average_delay.nanos;
            a * p.packets_delayed <= p.total_delay.nanos < (a + 1) * p.packets_delayed
        }),
        p.summary().packets_sent == p.packets_sent,
        p.summary().bytes_sent == p.bytes_sent,
        p.summary().packets_delayed == p.packets_delayed,
{
    let (t, d) = (p.total_delay.nanos as int, p.packets_delayed as int);
    let q = t / d;
    vstd::arithmetic::div_mod::lemma_fundamental_div_mod(t, d);
    assert(q * d <= t < (q + 1) * d) by (nonlinear_arith)
        requires
            t == d * q + t % d,
            0 <= t % d < d,
    ;
    assert(p.packets_delayed % 0x1_0000_0000 == p.packets_delayed);
    assert((p.packets_delayed % 0x1_0000_0000) as u128 == d);
    assert(p.summary().average_delay.nanos == q);
}

/// A pacer starts at the lowest rate, with a burst of ten packets and a round-trip time of a
/// tenth of a second.
pub proof fn pacers_start_slow(now: Instant)
    ensures
        ({
            let p = PacingController::fresh(PacingConfig::standard(), now);
            &&& p.pacing_rate == 64_000 && p.target_pacing_rate == p.pacing_rate
            &&& p.burst_allowance == 10 && p.config.max_burst == 64
            &&& p.smoothed_rtt.millis() == 100
            &&& p.config.min_send_interval.micros() == 100
            &&& p.state == PacingState::Active
            &&& p.packets_sent == 0 && p.bytes_sent == 0 && p.packets_delayed == 0
            &&& p.may_send(true) && !p.may_send(false)
        }),
{
}

/// Averages go by numbers of 53 significant bits: the spacing of such numbers is one up to there,
/// and doubles with each bit more.
pub proof fn spacing_doubles(n: int)
    requires
        n >= 0,
    ensures
        spacing(n) >= 1,
        n < 0x20_0000_0000_0000 * spacing(n),
        n < 0x20_0000_0000_0000 <==> spacing(n) == 1,
        spacing(n) > 1 ==> n >= 0x10_0000_0000_0000 * spacing(n),
    decreases n,
{
    if n >= 0x20_0000_0000_0000 {
        spacing_doubles(n / 2);
    }
}

/// A number is rounded to the nearest one that is such a number, to an even count of spacings
/// where two are as near.
pub proof fn rounding_is_to_nearest(n: int)
    requires
        n >= 0,
    ensures
        ({
            let u = spacing(n);
            let r = nearest(n);
            &&& r % u == 0
            &&& 2 * (r - n) <= u && 2 * (n - r) <= u
            &&& 2 * (r - n) == u || 2 * (n - r) == u ==> (r / u) % 2 == 0
            &&& n < 0x20_0000_0000_0000 ==> r == n
        }),
{
    spacing_doubles(n);
    let u = spacing(n);
    let (q, m) = (n / u, n % u);
    vstd::arithmetic::div_mod::lemma_fundamental_div_mod(n, u);
    assert(n == q * u + m && 0 <= m < u) by (nonlinear_arith)
        requires
            n == u * q + m,
            m == n % u,
            u >= 1,
    ;
    assert((q + 1) * u == q * u + u) by (nonlinear_arith);
    vstd::arithmetic::div_mod::lemma_mod_multiples_basic(q, u);
    vstd::arithmetic::div_mod::lemma_mod_multiples_basic(q + 1, u);
    vstd::arithmetic::div_mod::lemma_div_multiples_vanish(q, u);
    vstd::arithmetic::div_mod::lemma_div_multiples_vanish(q + 1, u);
    assert(q * u == u * q && (q + 1) * u == u * (q + 1)) by (nonlinear_arith);
}

/// The two bits of a codepoint: each alone says that the transport is capable, the higher one
/// for the older kind, and both together mark congestion.
pub proof fn codepoints_are_two_bits(a: EcnCodepoint, b: EcnCodepoint)
    ensures
        a.bits() < 4,
        a.bits() == b.bits() ==> a == b,
        EcnCodepoint::NotEct.bits() == 0,
        EcnCodepoint::Ect0.bits() == 2,
        EcnCodepoint::Ce.bits() == EcnCodepoint::Ect0.bits() + EcnCodepoint::Ect1.bits(),
{
}

/// A packet is counted under its own codepoint and in the sum; one without a codepoint is not.
pub proof fn codepoints_are_counted(c: EcnCounters, e: EcnCodepoint)
    requires
        c.total_ect_count < u64::MAX,
        c.ect0_count < u64::MAX,
        c.ect1_count < u64::MAX,
        c.ce_count < u64::MAX,
    ensures
        ({
            let n = c.counted(e);
            &&& n.ect0_count - c.ect0_count == (if e == EcnCodepoint::Ect0 {
                1int
            } else {
                0
            })
            &&& n.ect1_count - c.ect1_count == (if e == EcnCodepoint::Ect1 {
                1int
            } else {
                0
            })
            &&& n.ce_count - c.ce_count == (if e == EcnCodepoint::Ce {
                1int
            } else {
                0
            })
            &&& n.total_ect_count - c.total_ect_count == (if e == EcnCodepoint::NotEct {
                0int
            } else {
                1
            })
            &&& c.consistent() ==> n.consistent()
        }),
{
}

/// A marking rate is above a percentage where more of each hundred packets are marked, and more
/// marks never take it below.
pub proof fn marking_rate_is_percentage(r: MarkingRate, more: MarkingRate, percent: int)
    ensures
        r.total == 0 ==> !r.above(percent),
        r.total == 100 ==> (r.above(percent) <==> r.marked > percent),
        r.marked == r.total && r.total > 0 && percent < 100 ==> r.above(percent),
        r.marked == 0 && percent >= 0 ==> !r.above(percent),
        more.total == r.total && more.marked >= r.marked && r.above(percent) ==> more.above(
            percent,
        ),
{
    if r.total == 100 {
        assert(percent * r.total == percent * 100) by (nonlinear_arith)
            requires
                r.total == 100,
        ;
    }
    if r.total > 0 && percent < 100 {
        assert(percent * r.total < r.total * 100) by (nonlinear_arith)
            requires
                percent < 100,
                r.total > 0,
        ;
    }
    if percent >= 0 {
        assert(percent * r.total >= 0) by (nonlinear_arith)
            requires
                percent >= 0,
        ;
    }
}

/// A validation starts once, from the beginning, and sends its test packets at least a tenth of
/// a second apart.
pub proof fn validation_starts_once(v: EcnValidation, now: Instant)
    ensures
        v.state != EcnState::Unknown ==> v.started(now) == v,
        v.state == EcnState::Unknown ==> {
            let n = v.started(now);
            &&& n.state == EcnState::Testing && n.validation_start == Some(now)
            &&& n.packets_sent == 0 && n.ecn_packets_received == 0
        },
        v.test_due(now) <==> v.state == EcnState::Testing && v.packets_sent
            < v.config.validation_packets && (v.last_test_packet is None
            || v.last_test_packet->Some_0.nanos + 100_000_000 <= now.nanos),
{
}

/// While it tests, a validation counts the packets that came with a codepoint of a capable
/// transport.
pub proof fn validation_counts_codepoints(v: EcnValidation, e: EcnCodepoint)
    requires
        v.ecn_packets_received < u32::MAX,
    ensures
        v.received(e).ecn_packets_received - v.ecn_packets_received == (if v.state
            == EcnState::Testing && (e == EcnCodepoint::Ect0 || e == EcnCodepoint::Ect1) {
            1int
        } else {
            0
        }),
        v.received(e).state == v.state && v.received(e).packets_sent == v.packets_sent,
{
}

/// A validation is over when its packets are sent or its time has passed. The path is then
/// capable where enough packets came with a codepoint, and failed where they did not.
pub proof fn validation_ends(v: EcnValidation, now: Instant)
    requires
        v.state == EcnState::Testing,
        v.validation_start is Some,
        v.config.validation_timeout.nanos > 0,
    ensures
        ({
            let t = v.validation_start->Some_0.nanos + v.config.validation_timeout.nanos;
            let n = v.checked(now);
            let done = now.nanos >= t || v.packets_sent >= v.config.validation_packets;
            let enough = v.ecn_packets_received >= v.config.min_ecn_packets;
            &&& n.state == EcnState::Testing <==> !done
            &&& n.state == EcnState::Capable <==> done && enough
            &&& n.state == EcnState::Failed <==> done && !enough
            &&& n.packets_sent == v.packets_sent
        }),
{
}

/// Ten test packets, five seconds, and three packets with a codepoint are the standard.
pub proof fn standard_validation(now: Instant)
    ensures
        ({
            let c = EcnValidationConfig::standard();
            let v = EcnValidation::fresh(c);
            &&& c.validation_packets == 10 && c.min_ecn_packets == 3
            &&& c.validation_timeout.millis() == 5000
            &&& v.state == EcnState::Unknown && v.packets_sent == 0 && v.ecn_packets_received == 0
            &&& v.validation_start is None && v.last_test_packet is None
            &&& v.started(now).test_due(now)
            &&& !EcnControllerView::fresh(c).capable()
        }),
{
}

/// Of the marks, the newest stay: no more than the history holds, and none that is older than
/// half a minute where a newer one is behind it.
pub proof fn history_keeps_newest(e: EcnControllerView, now: Instant)
    requires
        e.max_history_size > 0,
        forall|i: int, j: int|
            0 <= i <= j < e.marking_history.len() ==> e.marking_history[i].0.nanos
                <= e.marking_history[j].0.nanos,
        forall|i: int|
            0 <= i < e.marking_history.len() ==> (#[trigger] e.marking_history[i]).0.nanos
                <= now.nanos,
    ensures
        ({
            let h = e.with_history(now).marking_history;
            let all = e.marking_history.push((now, e.counters.ce_count));
            &&& 0 < h.len() <= all.len() && h.len() <= e.max_history_size
            &&& h == all.skip(all.len() - h.len())
            &&& forall|i: int|
                0 <= i < h.len() ==> (#[trigger] h[i]).0.nanos + 30_000_000_000 >= now.nanos
            &&& h.len() == all.len() || h.len() == e.max_history_size || all[all.len() - h.len()
                - 1].0.nanos + 30_000_000_000 < now.nanos
        }),
{
    let all = e.marking_history.push((now, e.counters.ce_count));
    let last = last_of(all, e.max_history_size as int);
    let cutoff = if now.nanos >= 30_000_000_000 {
        now.nanos - 30_000_000_000
    } else {
        0
    };
    assert forall|i: int, j: int| 0 <= i <= j < last.len() implies last[i].0.nanos
        <= last[j].0.nanos by {
        let k = all.len() - last.len();
        assert(last[i] == all[i + k] && last[j] == all[j + k]);
    }
    assert(last.last() == (now, e.counters.ce_count));
    lemma_drop_older(last, cutoff);
    let h = drop_older(last, cutoff);
    assert(h == e.with_history(now).marking_history);
    assert(h =~= all.skip(all.len() - h.len()));
    if h.len() < last.len() {
        assert(last[last.len() - h.len() - 1] == all[all.len() - h.len() - 1]);
    }
}

/// What is dropped from an ordered sequence is what is older than the limit.
proof fn lemma_drop_older(s: Seq<(Instant, u64)>, cutoff: int)
    requires
        s.len() > 0,
        s.last().0.nanos >= cutoff,
        forall|i: int, j: int| 0 <= i <= j < s.len() ==> s[i].0.nanos <= s[j].0.nanos,
    ensures
        ({
            let h = drop_older(s, cutoff);
            &&& 0 < h.len() <= s.len() && h == s.skip(s.len() - h.len())
            &&& forall|i: int| 0 <= i < h.len() ==> (#[trigger] h[i]).0.nanos >= cutoff
            &&& h.len() < s.len() ==> s[s.len() - h.len() - 1].0.nanos < cutoff
        }),
    decreases s.len(),
{
    if s[0].0.nanos < cutoff {
        let t = s.skip(1);
        assert(t.last() == s.last());
        assert forall|i: int, j: int| 0 <= i <= j < t.len() implies t[i].0.nanos
            <= t[j].0.nanos by {
            assert(t[i] == s[i + 1] && t[j] == s[j + 1]);
        }
        lemma_drop_older(t, cutoff);
        let h = drop_older(t, cutoff);
        assert(h =~= s.skip(s.len() - h.len()));
        if h.len() < t.len() {
            assert(t[t.len() - h.len() - 1] == s[s.len() - h.len() - 1]);
        }
    } else {
        assert(s.skip(0) =~= s);
        assert forall|i: int| 0 <= i < s.len() implies (#[trigger] s[i]).0.nanos >= cutoff by {
            assert(s[0].0.nanos <= s[i].0.nanos);
        }
    }
}

/// A new event adds its marks to the recent ones, and a new entry counts once, where they are
/// not older than the limit.
pub proof fn recent_marks_add_up(
    s: Seq<EcnCongestionEvent>,
    e: EcnCongestionEvent,
    h: Seq<(Instant, u64)>,
    entry: (Instant, u64),
    cutoff: int,
)
    ensures
        recent_marks(Seq::empty(), cutoff) == 0,
        recent_marks(s.push(e), cutoff) - recent_marks(s, cutoff) == (if e.timestamp.nanos
            < cutoff {
            0
        } else {
            e.ce_count as int
        }),
        recent_entries(Seq::empty(), cutoff) == 0,
        recent_entries(h.push(entry), cutoff) - recent_entries(h, cutoff) == (if entry.0.nanos
            < cutoff {
            0int
        } else {
            1
        }),
{
    assert(s.push(e).drop_last() =~= s);
    assert(h.push(entry).drop_last() =~= h);
}

/// A congestion event counts the marks that came since the last one.
pub proof fn event_counts_new_marks(e: EcnControllerView, in_flight: u64, now: Instant)
    requires
        e.last_reported_ce <= e.counters.ce_count,
    ensures
        ({
            let v = e.new_event(in_flight, now);
            &&& e.last_reported_ce + v.ce_count == e.counters.ce_count
            &&& v.timestamp == now && v.bytes_in_flight == in_flight
            &&& v.marking_rate.marked == e.counters.ce_count
            &&& v.marking_rate.total == e.counters.total_ect_count
        }),
{
}

/// A test that runs past its time fails the path; nothing else of a validation changes with
/// time alone.
pub proof fn late_validation_fails(e: EcnControllerView, now: Instant)
    ensures
        ({
            let v = e.validation;
            let n = e.refreshed(now).validation;
            let late = v.state == EcnState::Testing && v.validation_start is Some && now.nanos
                > v.validation_start->Some_0.nanos + v.config.validation_timeout.nanos;
            &&& late ==> n.state == EcnState::Failed
            &&& !late ==> n == v
            &&& e.refreshed(now).counters == e.counters
        }),
        e.capable() <==> e.enabled && e.validation.state == EcnState::Capable,
{
}

} // verus!
