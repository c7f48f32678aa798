//! Laws of loss detection as a whole: where it starts, what it counts, and what goes out when its
//! timer runs out.

use crate::frame_types::FrameView;
use crate::recovery::{joined, BySpace, PacketNumberSpace, RecoveryView, RttEstimator};
use crate::retransmission::{prioritized, prioritizing_reorders};
use crate::sent_packets::{SentView, SpaceView};
use crate::time::{Duration, Instant, LONGEST};
use vstd::prelude::*;

verus! {

/// A new estimator takes a third of a second for the round-trip time, with half of it as
/// variation, and lets the peer wait for 25 milliseconds.
pub proof fn estimators_start_at_a_third_of_a_second()
    ensures
        ({
            let e = RttEstimator::fresh();
            &&& e.smoothed_rtt.millis() == 333
            &&& 2 * e.rtt_var.nanos == e.smoothed_rtt.nanos
            &&& e.first_rtt_sample && e.latest_rtt is None && e.min_rtt.nanos == LONGEST
            &&& e.ack_delay_exponent == 3 && e.max_ack_delay.millis() == 25
        }),
{
}

/// A new manager has sent and received nothing. It takes a packet as lost three packets or nine
/// eighths of a round-trip time behind, and sends a peer of unknown address nothing at first.
pub proof fn managers_start_empty(v: RecoveryView, now: Instant)
    requires
        v.is_fresh(now),
    ensures
        v.in_flight() == 0,
        v.eliciting_in_flight() == 0,
        v.timer is None && v.due() is None,
        v.packets_sent == 0 && v.packets_recv == 0,
        v.packet_reordering_threshold == 3,
        8 * v.loss_delay() == 9 * v.rtt.smoothed_rtt.nanos,
        v.using_time_loss_detection,
        !v.within_amplification_limit(1),
        !v.handshake_confirmed && v.pto_count == 0,
        v.congestion.window() == 12_000,
{
}

/// What is looked for in a space: packets behind the largest one that was acknowledged in it, by
/// the threshold of the manager, and by time where that is in use.
pub proof fn criteria_are_of_space(v: RecoveryView, space: PacketNumberSpace, now: Instant)
    requires
        v.spaces.at(space).largest_acked is Some,
    ensures
        ({
            let c = v.criteria(space, now);
            &&& c.largest_acked == v.spaces.at(space).largest_acked->Some_0
            &&& c.packet_threshold == v.packet_reordering_threshold
            &&& c.now == now
            &&& v.using_time_loss_detection && v.loss_delay() <= LONGEST ==> c.loss_delay.nanos
                == v.loss_delay()
            &&& !v.using_time_loss_detection ==> c.loss_delay.nanos == LONGEST
        }),
{
}

/// A packet that is sent is counted, is in flight with its bytes, and leaves other spaces alone.
pub proof fn sent_packets_are_in_flight(v: RecoveryView, p: SentView)
    requires
        v.packets_sent < u64::MAX,
        v.spaces.at(p.pn_space).ack_eliciting_in_flight < u32::MAX,
        v.spaces.at(p.pn_space).bytes_in_flight + p.size <= usize::MAX,
    ensures
        ({
            let n = v.after_sending(p);
            &&& n.packets_sent - v.packets_sent == 1
            &&& n.in_flight() - v.in_flight() == p.size
            &&& n.eliciting_in_flight() - v.eliciting_in_flight() == (if p.ack_eliciting {
                1int
            } else {
                0
            })
            &&& p.pn_space != PacketNumberSpace::Initial ==> n.spaces.initial == v.spaces.initial
            &&& p.pn_space != PacketNumberSpace::Handshake ==> n.spaces.handshake
                == v.spaces.handshake
            &&& p.pn_space != PacketNumberSpace::ApplicationData ==> n.spaces.application
                == v.spaces.application
            &&& n.rtt == v.rtt && n.congestion == v.congestion && n.pto_count == v.pto_count
            &&& n.timer is Some <==> n.due() is Some
            &&& n.timer matches Some(t) ==> (0 <= n.due()->Some_0 <= u128::MAX ==> t.nanos
                == n.due()->Some_0)
        }),
{
}

/// A packet that came is counted and noted in its space, and in no other.
pub proof fn received_packets_are_noted(
    v: RecoveryView,
    n: RecoveryView,
    number: u64,
    space: PacketNumberSpace,
    eliciting: bool,
    now: Instant,
)
    requires
        n.has_received(v, number, space, eliciting, now),
        v.packets_recv < u64::MAX,
    ensures
        n.packets_recv - v.packets_recv == 1,
        n.ack_managers.at(space).has_received(v.ack_managers.at(space), number, eliciting, now),
        space != PacketNumberSpace::Initial ==> n.ack_managers.initial == v.ack_managers.initial,
        space != PacketNumberSpace::Handshake ==> n.ack_managers.handshake
            == v.ack_managers.handshake,
        space != PacketNumberSpace::ApplicationData ==> n.ack_managers.application
            == v.ack_managers.application,
        n.in_flight() == v.in_flight(),
        n.spaces.at(space).sent == v.spaces.at(space).sent,
        v.spaces.at(space).largest_acked matches Some(m) ==> n.spaces.at(space).largest_acked == Some(
            if number > m {
                number
            } else {
                m
            },
        ),
        v.spaces.at(space).largest_acked is None ==> (n.spaces.at(space).largest_acked == Some(number)
            <==> number > 0),
        n.rtt == v.rtt && n.timer == v.timer,
{
}

/// A malformed ACK frame changes nothing.
pub proof fn refused_acks_change_nothing(
    v: RecoveryView,
    space: PacketNumberSpace,
    largest: u64,
    ranges: Seq<(u64, u64)>,
    delay: Duration,
    now: Instant,
)
    requires
        v.ack_error(space, largest, ranges) is Some,
    ensures
        v.ack_outcome(space, largest, ranges, delay, now).0 == v,
        v.ack_outcome(space, largest, ranges, delay, now).1 is Err,
{
    reveal(RecoveryView::ack_outcome);
}

/// An ACK frame that names no packet in flight is taken: the largest number is noted, nothing is
/// to be sent again, and neither the estimate nor the window moves.
pub proof fn empty_acks_are_noted(
    v: RecoveryView,
    space: PacketNumberSpace,
    largest: u64,
    delay: Duration,
    now: Instant,
)
    requires
        v.spaces.at(space).sent.len() == 0,
        v.spaces.at(space).largest_acked is None,
    ensures
        ({
            let (n, r) = v.ack_outcome(space, largest, seq![(largest, largest)], delay, now);
            &&& r matches Ok(f) && f.len() == 0
            &&& n.spaces.at(space).largest_acked == Some(largest)
            &&& n.rtt == v.rtt && n.congestion == v.congestion && n.pto_count == v.pto_count
            &&& n.timer is Some <==> n.due() is Some
        }),
{
    reveal(RecoveryView::ack_outcome);
    let ranges = seq![(largest, largest)];
    let w = SpaceView { largest_acked: Some(largest), ..v.spaces.at(space) };
    reveal_with_fuel(crate::recovery::range_error, 3);
    reveal_with_fuel(crate::recovery::small_ranges, 3);
    reveal_with_fuel(crate::recovery::newly_acked, 3);
    reveal_with_fuel(crate::recovery::acked_ranges, 3);
    let s = w.sent;
    crate::sent_packets::lemma_rank(s, largest as int);
    crate::sent_packets::lemma_rank(s, largest + 1);
    assert(crate::sent_packets::in_range(s, largest, largest).len() == 0);
    assert(crate::recovery::newly_acked(w, ranges, 0).len() == 0);
    assert(crate::recovery::newly_acked(w, ranges, 1).len() == 0);
}

/// An ACK frame that names packets ends the series of expiries.
pub proof fn acks_end_expiries(
    v: RecoveryView,
    space: PacketNumberSpace,
    newly: Seq<SentView>,
    ranges: Seq<(u64, u64)>,
    delay: Duration,
    now: Instant,
)
    ensures
        ({
            let n = v.ack_counted(space, newly, ranges, delay, now);
            &&& n.pto_count == 0
            &&& n.spaces == v.spaces
            &&& crate::recovery::newest_eliciting(newly) is None ==> n.rtt == v.rtt
            &&& n.congestion == v.congestion.acked(
                crate::congestion::acked_sum(ranges, 1200),
                Duration { nanos: 100_000_000 },
                now,
            )
        }),
{
}

/// The earliest loss is the first of those in the three spaces.
pub proof fn earliest_is_of_all_spaces(v: RecoveryView, space: PacketNumberSpace)
    ensures
        v.earliest_in(space) matches Some(t) ==> v.earliest() matches Some(first) && first <= t,
        v.earliest() matches Some(first) ==> v.earliest_in(PacketNumberSpace::Initial) == Some(first)
            || v.earliest_in(PacketNumberSpace::Handshake) == Some(first) || v.earliest_in(
            PacketNumberSpace::ApplicationData,
        ) == Some(first),
        v.spaces.at(space).largest_acked is None ==> v.earliest_in(space) is None,
{
}

/// Without a loss in sight the probes go out when the timer runs out, the first one first.
pub proof fn probes_go_out(v: RecoveryView, now: Instant)
    requires
        v.earliest() is None,
    ensures
        v.probes().len() == 0 ==> v.timeout_frames(now).len() == 0,
        v.probes().len() == 1 && v.probes()[0].1.len() <= 1000 ==> v.timeout_frames(now)
            == v.probes()[0].1,
        v.probes().len() == 2 && v.probes()[0].1.len() + v.probes()[1].1.len() <= 1000
            ==> v.timeout_frames(now) == v.probes()[0].1 + v.probes()[1].1,
        v.timeout_frames(now).len() <= 1000,
{
    let p = v.probes();
    reveal_with_fuel(joined, 3);
    let all = joined(p);
    if p.len() == 1 {
        assert(all =~= p[0].1);
    } else if p.len() == 2 {
        assert(p.drop_last().last() == p[0]);
        assert(all =~= p[0].1 + p[1].1);
    }
    if all.len() <= 1000 {
        assert(all.take(all.len() as int) =~= all);
    }
}

/// What was lost in one space goes out when the timer runs out, whatever is lost in the others,
/// as long as no more than a thousand frames are lost.
pub proof fn lost_frames_go_out(
    v: RecoveryView,
    space: PacketNumberSpace,
    f: FrameView,
    now: Instant,
)
    requires
        v.earliest() is Some,
        v.lost_frames(space, now) matches Ok(lost) && lost.contains(f),
        v.all_urgent(now).len() <= 1000,
    ensures
        v.timeout_frames(now).contains(f),
{
    let i = v.after_detection(PacketNumberSpace::Initial, now);
    let h = i.after_detection(PacketNumberSpace::Handshake, now);
    let a = v.urgent(PacketNumberSpace::Initial, now);
    let b = i.urgent(PacketNumberSpace::Handshake, now);
    let c = h.urgent(PacketNumberSpace::ApplicationData, now);
    let all = v.all_urgent(now);
    assert(all == a + b + c);
    assert(all.take(all.len() as int) =~= all);
    let lost = v.lost_frames(space, now)->Ok_0;
    lemma_prioritized_holds(lost, f);
    let k = choose|k: int| 0 <= k < prioritized(lost).len() && prioritized(lost)[k] == f;
    match space {
        PacketNumberSpace::Initial => {
            assert(a == prioritized(lost));
            assert(all[k] == f);
        },
        PacketNumberSpace::Handshake => {
            assert(i.lost_frames(space, now) == v.lost_frames(space, now));
            assert(b == prioritized(lost));
            assert(all[a.len() + k] == f);
        },
        PacketNumberSpace::ApplicationData => {
            assert(h.lost_frames(space, now) == v.lost_frames(space, now));
            assert(c == prioritized(lost));
            assert(all[a.len() + b.len() + k] == f);
        },
    }
}

/// Reordering keeps a frame.
proof fn lemma_prioritized_holds(v: Seq<FrameView>, f: FrameView)
    requires
        v.contains(f),
    ensures
        prioritized(v).contains(f),
{
    broadcast use vstd::seq_lib::group_to_multiset_ensures;

    prioritizing_reorders(v);
    assert(v.to_multiset().count(f) > 0);
    assert(prioritized(v).to_multiset().count(f) > 0);
}

/// The frames of one space go out by their priority.
pub proof fn lost_frames_go_by_priority(v: RecoveryView, space: PacketNumberSpace, now: Instant)
    ensures
        v.lost_frames(space, now) matches Ok(f) ==> v.urgent(space, now) == prioritized(f),
        v.lost_frames(space, now) is Err ==> v.urgent(space, now).len() == 0,
{
}

/// When the timer runs out with a loss in sight, losses are looked for in every space.
pub proof fn timeout_looks_in_every_space(
    v: RecoveryView,
    space: PacketNumberSpace,
    now: Instant,
)
    requires
        v.earliest() is Some,
        v.spaces.at(space).largest_acked is Some,
        v.lost_frames(space, now) is Ok,
    ensures
        v.after_timeout(now).spaces.at(space).sent == v.criteria(space, now).kept_of(
            v.spaces.at(space).sent,
        ),
{
    let i = v.after_detection(PacketNumberSpace::Initial, now);
    let h = i.after_detection(PacketNumberSpace::Handshake, now);
    let a = h.after_detection(PacketNumberSpace::ApplicationData, now);
    assert(v.after_timeout(now).spaces == a.spaces);
}

/// The handshake is confirmed once, and the time of it stays.
pub proof fn handshake_is_confirmed_once(v: RecoveryView, now: Instant, later: Instant)
    ensures
        v.confirmed(now).handshake_confirmed,
        v.confirmed(now).confirmed(later) == v.confirmed(now),
        !v.handshake_confirmed ==> v.confirmed(now).handshake_completion_time == Some(now),
        v.confirmed(now).spaces == v.spaces && v.confirmed(now).rtt == v.rtt,
{
}

/// What is kept for one space is kept apart from the others.
pub proof fn values_are_kept_by_space<T>(
    v: BySpace<T>,
    a: PacketNumberSpace,
    b: PacketNumberSpace,
    x: T,
)
    ensures
        v.with(a, x).at(a) == x,
        a != b ==> v.with(a, x).at(b) == v.at(b),
        v.at(PacketNumberSpace::Initial) == v.initial,
        v.at(PacketNumberSpace::Handshake) == v.handshake,
        v.at(PacketNumberSpace::ApplicationData) == v.application,
{
}

} // verus!
