//! Laws of loss recovery: which packets leave, which frames are sent again, how the estimates
//! of the round-trip time move, and when the timer is due.

use crate::connection::ack_tuples;
use crate::error::{Error, Reason};
use crate::frame_types::{AckRange, FrameView};
use crate::recovery::{
    acked_ranges, covers, lemma_newest_eliciting, lemma_newly_members, lemma_no_range_error,
    lemma_small_ranges, named_by, newest_eliciting, newly_acked, range_error, small_ranges,
    PacketNumberSpace, RecoveryView, RttEstimator,
};
use crate::sent_packets::{resend_all, to_resend, LossCriteria, SentView, SpaceView};
use crate::time::{Duration, Instant, LONGEST};
use vstd::prelude::*;

verus! {

/// How far the lowest number of the first `n` further ranges of an ACK frame lies below the
/// largest one: a gap of so many numbers and one more before each range, and its length.
pub open spec fn reach(ranges: Seq<AckRange>, n: int) -> int
    decreases n,
{
    if n <= 0 {
        0
    } else {
        reach(ranges, n - 1) + ranges[n - 1].gap + 1 + ranges[n - 1].ack_range_length
    }
}

/// Whether an ACK frame acknowledges a packet number: the largest, or one of a further range.
/// The numbers of the gaps lie between.
pub open spec fn acknowledges(largest: u64, ranges: Seq<AckRange>, number: int) -> bool {
    number == largest || exists|i: int|
        0 <= i < ranges.len() && #[trigger] in_further_range(largest, ranges, i, number)
}

/// Whether a number lies in a further range of an ACK frame.
pub open spec fn in_further_range(largest: u64, ranges: Seq<AckRange>, i: int, number: int) -> bool {
    let top = largest - reach(ranges, i) - ranges[i].gap - 1;
    top - ranges[i].ack_range_length <= number <= top
}

/// The further ranges of an ACK frame are counted downward: `gap` numbers are left out below
/// the range before, and `ack_range_length` and one are taken in. What would lie below zero
/// ends at zero.
pub proof fn ack_ranges_count_downward(largest: u64, ranges: Seq<AckRange>)
    ensures
        ({
            let t = ack_tuples(largest, ranges);
            &&& t.len() == ranges.len() + 1
            &&& t[0] == (largest, largest)
            &&& forall|i: int|
                0 <= i < ranges.len() ==> {
                    let (start, end) = #[trigger] t[i + 1];
                    &&& t[i].0 > ranges[i].gap ==> t[i].0 - end == ranges[i].gap + 1
                    &&& t[i].0 <= ranges[i].gap ==> end == 0
                    &&& end >= ranges[i].ack_range_length ==> end - start
                        == ranges[i].ack_range_length
                    &&& end < ranges[i].ack_range_length ==> start == 0
                }
        }),
    decreases ranges.len(),
{
    if ranges.len() > 0 {
        let d = ranges.drop_last();
        ack_ranges_count_downward(largest, d);
        let t = ack_tuples(largest, ranges);
        let u = ack_tuples(largest, d);
        assert(t == u.push(t.last()));
        assert forall|i: int| 0 <= i < ranges.len() implies {
            let (start, end) = #[trigger] t[i + 1];
            &&& t[i].0 > ranges[i].gap ==> t[i].0 - end == ranges[i].gap + 1
            &&& t[i].0 <= ranges[i].gap ==> end == 0
            &&& end >= ranges[i].ack_range_length ==> end - start == ranges[i].ack_range_length
            &&& end < ranges[i].ack_range_length ==> start == 0
        } by {
            assert(t[i] == u[i]);
            if i < d.len() {
                assert(t[i + 1] == u[i + 1]);
                assert(d[i] == ranges[i]);
            }
        }
    }
}

/// The reach does not depend on later ranges.
proof fn lemma_reach_prefix(a: Seq<AckRange>, b: Seq<AckRange>, n: int)
    requires
        n <= a.len() <= b.len(),
        forall|i: int| 0 <= i < a.len() ==> a[i] == b[i],
    ensures
        reach(a, n) == reach(b, n),
        reach(a, n) >= 0,
    decreases n,
{
    if n > 0 {
        lemma_reach_prefix(a, b, n - 1);
    }
}

/// The reach grows with the ranges.
proof fn lemma_reach_grows(ranges: Seq<AckRange>, m: int, n: int)
    requires
        0 <= m <= n <= ranges.len(),
    ensures
        0 <= reach(ranges, m) <= reach(ranges, n),
    decreases n,
{
    if m < n {
        lemma_reach_grows(ranges, m, n - 1);
    } else if m > 0 {
        lemma_reach_grows(ranges, m - 1, n - 1);
    }
}

/// An ACK frame acknowledges the largest number and those of its ranges, and none of a gap.
pub proof fn ack_skips_gaps(largest: u64, ranges: Seq<AckRange>, number: u64)
    requires
        reach(ranges, ranges.len() as int) <= largest,
    ensures
        named_by(ack_tuples(largest, ranges), number) <==> acknowledges(
            largest,
            ranges,
            number as int,
        ),
{
    let t = ack_tuples(largest, ranges);
    lemma_tuples_at(largest, ranges);
    if named_by(t, number) {
        let j = choose|j: int| 0 <= j < t.len() && #[trigger] covers(t[j], number);
        if j > 0 {
            assert(in_further_range(largest, ranges, j - 1, number as int));
        }
    }
    if number == largest {
        assert(covers(t[0], number));
    }
    if exists|i: int|
        0 <= i < ranges.len() && #[trigger] in_further_range(largest, ranges, i, number as int) {
        let i = choose|i: int|
            0 <= i < ranges.len() && #[trigger] in_further_range(
                largest,
                ranges,
                i,
                number as int,
            );
        assert(covers(t[i + 1], number));
    }
}

/// None of the numbers in a gap of an ACK frame is acknowledged.
pub proof fn gaps_stay_unacknowledged(largest: u64, ranges: Seq<AckRange>, i: int, number: u64)
    requires
        reach(ranges, ranges.len() as int) <= largest,
        0 <= i < ranges.len(),
        largest - reach(ranges, i) - ranges[i].gap - 1 < number < largest - reach(ranges, i),
    ensures
        !named_by(ack_tuples(largest, ranges), number),
{
    let t = ack_tuples(largest, ranges);
    lemma_tuples_at(largest, ranges);
    if named_by(t, number) {
        let j = choose|j: int| 0 <= j < t.len() && #[trigger] covers(t[j], number);
        if j <= i {
            lemma_reach_grows(ranges, j, i);
        } else {
            lemma_reach_grows(ranges, i, j - 1);
            if j > i + 1 {
                lemma_reach_grows(ranges, i + 1, j - 1);
            }
        }
    }
}

/// Where the ranges of an ACK frame lie.
proof fn lemma_tuples_at(largest: u64, ranges: Seq<AckRange>)
    requires
        reach(ranges, ranges.len() as int) <= largest,
    ensures
        ack_tuples(largest, ranges).len() == ranges.len() + 1,
        ack_tuples(largest, ranges)[0] == (largest, largest),
        forall|j: int|
            0 <= j <= ranges.len() ==> (#[trigger] ack_tuples(largest, ranges)[j]).0 == largest
                - reach(ranges, j),
        forall|j: int|
            0 < j <= ranges.len() ==> (#[trigger] ack_tuples(largest, ranges)[j]).1 == largest
                - reach(ranges, j - 1) - ranges[j - 1].gap - 1,
    decreases ranges.len(),
{
    if ranges.len() > 0 {
        let d = ranges.drop_last();
        let n = d.len() as int;
        lemma_reach_prefix(d, ranges, n);
        lemma_tuples_at(largest, d);
        let t = ack_tuples(largest, ranges);
        let u = ack_tuples(largest, d);
        assert forall|j: int| 0 <= j <= ranges.len() implies (#[trigger] t[j]).0 == largest - reach(
            ranges,
            j,
        ) by {
            if j <= n {
                lemma_reach_prefix(d, ranges, j);
                assert(t[j] == u[j]);
            }
        }
        assert forall|j: int| 0 < j <= ranges.len() implies (#[trigger] t[j]).1 == largest - reach(
            ranges,
            j - 1,
        ) - ranges[j - 1].gap - 1 by {
            if j <= n {
                lemma_reach_prefix(d, ranges, j - 1);
                assert(t[j] == u[j]);
            }
        }
    }
}

/// The packets that an ACK frame takes out of a space are those with the numbers that it
/// acknowledges; the others stay.
pub proof fn ack_takes_named_packets(
    v: SpaceView,
    largest: u64,
    ranges: Seq<AckRange>,
    p: SentView,
)
    requires
        v.wf(),
        reach(ranges, ranges.len() as int) <= largest,
        v.sent.contains(p),
    ensures
        ({
            let t = ack_tuples(largest, ranges);
            let n = t.len() as int;
            &&& newly_acked(v, t, n).contains(p) <==> acknowledges(
                largest,
                ranges,
                p.packet_number as int,
            )
            &&& acked_ranges(v, t, n).sent.contains(p) <==> !acknowledges(
                largest,
                ranges,
                p.packet_number as int,
            )
        }),
{
    let t = ack_tuples(largest, ranges);
    let n = t.len() as int;
    lemma_tuples_at(largest, ranges);
    assert forall|j: int| 0 <= j < t.len() implies (#[trigger] t[j]).0 <= t[j].1 by {
        if j > 0 {
            lemma_reach_grows(ranges, j - 1, j);
        }
    }
    ack_skips_gaps(largest, ranges, p.packet_number);
    lemma_newly_members(v, t, n, p);
    assert(t.take(n) =~= t);
}

/// Whether a frame is of a kind that is never sent again: an acknowledgment, padding, or a
/// STREAM frame that says nothing.
pub open spec fn never_resent(f: FrameView) -> bool {
    f is Ack || f is Padding || (f is Stream && f->Stream_data.len() == 0 && !f->Stream_fin)
}

/// The frames of lost packets that are sent again are all but ACK frames, PADDING frames and
/// STREAM frames without data and FIN, in the order of the packets and of the frames in them.
pub proof fn lost_frames_are_resent(s: Seq<SentView>, f: FrameView)
    ensures
        resend_all(s).contains(f) <==> !never_resent(f) && exists|i: int|
            0 <= i < s.len() && (#[trigger] s[i]).frames.contains(f),
    decreases s.len(),
{
    if s.len() > 0 {
        let d = s.drop_last();
        let p = s.last();
        lost_frames_are_resent(d, f);
        lemma_resent(p.frames, f);
        let (a, b) = (resend_all(d), to_resend(p.frames));
        lemma_contains_joined(a, b, f);
        if exists|i: int| 0 <= i < d.len() && (#[trigger] d[i]).frames.contains(f) {
            let i = choose|i: int| 0 <= i < d.len() && (#[trigger] d[i]).frames.contains(f);
            assert(s[i].frames.contains(f));
        }
        if exists|i: int| 0 <= i < s.len() && (#[trigger] s[i]).frames.contains(f) {
            let i = choose|i: int| 0 <= i < s.len() && (#[trigger] s[i]).frames.contains(f);
            if i < d.len() {
                assert(d[i].frames.contains(f));
            }
        }
        if p.frames.contains(f) {
            assert(s[s.len() - 1].frames.contains(f));
        }
    }
}

/// A joined sequence holds what its parts hold.
proof fn lemma_contains_joined<A>(a: Seq<A>, b: Seq<A>, x: A)
    ensures
        (a + b).contains(x) <==> a.contains(x) || b.contains(x),
{
    if (a + b).contains(x) {
        let k = choose|k: int| 0 <= k < (a + b).len() && (a + b)[k] == x;
        if k < a.len() {
            assert(a[k] == x);
        } else {
            assert(b[k - a.len()] == x);
        }
    }
    if a.contains(x) {
        let k = choose|k: int| 0 <= k < a.len() && a[k] == x;
        assert((a + b)[k] == x);
    }
    if b.contains(x) {
        let k = choose|k: int| 0 <= k < b.len() && b[k] == x;
        assert((a + b)[a.len() + k] == x);
    }
}

/// The frames of one lost packet that are sent again.
proof fn lemma_resent(v: Seq<FrameView>, f: FrameView)
    ensures
        to_resend(v).contains(f) <==> v.contains(f) && !never_resent(f),
    decreases v.len(),
{
    if v.len() > 0 {
        let d = v.drop_last();
        lemma_resent(d, f);
        assert(v =~= d + seq![v.last()]);
        lemma_contains_joined(d, seq![v.last()], f);
        lemma_contains_joined(to_resend(d), seq![v.last()], f);
        assert(to_resend(d).push(v.last()) =~= to_resend(d) + seq![v.last()]);
        assert(seq![v.last()].contains(f) <==> f == v.last()) by {
            assert(seq![v.last()][0] == v.last());
        }
    }
}

/// Frames to be sent again keep their order, and each is sent again as often as it was lost:
/// what is sent again for two lots is what is sent again for the one, then for the other.
pub proof fn resending_keeps_order(
    v: Seq<FrameView>,
    w: Seq<FrameView>,
    f: FrameView,
    s: Seq<SentView>,
    p: SentView,
)
    ensures
        to_resend(v + w) == to_resend(v) + to_resend(w),
        never_resent(f) ==> to_resend(v.push(f)) == to_resend(v),
        !never_resent(f) ==> to_resend(v.push(f)) == to_resend(v).push(f),
        resend_all(s.push(p)) == resend_all(s) + to_resend(p.frames),
    decreases w.len(),
{
    assert(v.push(f).drop_last() =~= v);
    assert(s.push(p).drop_last() =~= s);
    if w.len() == 0 {
        assert(v + w =~= v);
        assert(to_resend(v) + to_resend(w) =~= to_resend(v));
    } else {
        let d = w.drop_last();
        resending_keeps_order(v, d, f, s, p);
        assert((v + w).drop_last() =~= v + d);
        assert((v + w).last() == w.last());
        assert(to_resend(v) + to_resend(d).push(w.last()) =~= (to_resend(v) + to_resend(d)).push(
            w.last(),
        ));
    }
}

/// Whether a packet that was sent before an acknowledged one is overdue: three or more later
/// packets (as the threshold has it) were acknowledged, or it was sent longer ago than the
/// delay.
pub open spec fn overdue(p: SentView, largest: u64, threshold: u64, delay: int, now: Instant)
    -> bool {
    &&& p.packet_number <= largest
    &&& p.packet_number + threshold <= largest || p.sent_time.nanos + delay < now.nanos
}

/// A packet is lost exactly when it is overdue; every other one is kept.
pub proof fn overdue_packets_are_lost(c: LossCriteria, s: Seq<SentView>, p: SentView)
    requires
        s.contains(p),
    ensures
        c.lost_of(s).contains(p) <==> overdue(
            p,
            c.largest_acked,
            c.packet_threshold,
            c.loss_delay.nanos as int,
            c.now,
        ),
        c.kept_of(s).contains(p) <==> !overdue(
            p,
            c.largest_acked,
            c.packet_threshold,
            c.loss_delay.nanos as int,
            c.now,
        ),
    decreases s.len(),
{
    let d = s.drop_last();
    let q = s.last();
    assert(s =~= d + seq![q]);
    lemma_contains_joined(d, seq![q], p);
    assert(seq![q].contains(p) <==> p == q) by {
        assert(seq![q][0] == q);
    }
    lemma_contains_joined(c.lost_of(d), seq![q], p);
    lemma_contains_joined(c.kept_of(d), seq![q], p);
    assert(c.lost_of(d).push(q) =~= c.lost_of(d) + seq![q]);
    assert(c.kept_of(d).push(q) =~= c.kept_of(d) + seq![q]);
    if d.contains(p) {
        overdue_packets_are_lost(c, d, p);
    } else {
        lemma_only_members(c, d, p);
    }
}

/// What is lost or kept was there.
proof fn lemma_only_members(c: LossCriteria, s: Seq<SentView>, p: SentView)
    ensures
        c.lost_of(s).contains(p) ==> s.contains(p),
        c.kept_of(s).contains(p) ==> s.contains(p),
    decreases s.len(),
{
    if s.len() > 0 {
        let d = s.drop_last();
        let q = s.last();
        lemma_only_members(c, d, p);
        assert(s =~= d + seq![q]);
        lemma_contains_joined(d, seq![q], p);
        lemma_contains_joined(c.lost_of(d), seq![q], p);
        lemma_contains_joined(c.kept_of(d), seq![q], p);
        assert(c.lost_of(d).push(q) =~= c.lost_of(d) + seq![q]);
        assert(c.kept_of(d).push(q) =~= c.kept_of(d) + seq![q]);
    }
}

/// The time after which a packet is overdue is so many eighths of the smoothed round-trip
/// time (nine of them at the start), and at least a millisecond.
pub proof fn loss_delay_in_eighths(v: RecoveryView)
    requires
        v.rtt.smoothed_rtt.nanos * v.time_reordering_fraction <= LONGEST,
    ensures
        v.loss_delay() >= 1_000_000,
        v.loss_delay() == 1_000_000 || 8 * v.loss_delay() <= v.rtt.smoothed_rtt.nanos
            * v.time_reordering_fraction,
        v.rtt.smoothed_rtt.nanos * v.time_reordering_fraction < 8 * v.loss_delay() + 8,
        forall|now: Instant|
            v.is_fresh(now) ==> v.time_reordering_fraction == 9 && v.packet_reordering_threshold
                == 3,
{
}

/// An ACK frame that is taken in accounts for every packet of its space: one that it names
/// leaves; any other one stays, unless it is overdue by then. All frames of an overdue packet
/// that are not of a kind that is never sent again are among those to be sent again.
pub proof fn ack_accounts_for_packets(
    v: RecoveryView,
    space: PacketNumberSpace,
    largest: u64,
    ranges: Seq<(u64, u64)>,
    ack_delay: Duration,
    now: Instant,
    p: SentView,
    f: FrameView,
)
    requires
        v.wf(),
        v.using_time_loss_detection,
        v.ack_outcome(space, largest, ranges, ack_delay, now).1 is Ok,
        v.spaces.at(space).sent.contains(p),
    ensures
        ({
            let (w, outcome) = v.ack_outcome(space, largest, ranges, ack_delay, now);
            let sent = w.spaces.at(space).sent;
            let late = overdue(p, largest, v.packet_reordering_threshold, w.loss_delay(), now);
            let acks_some = exists|q: SentView|
                #![trigger v.spaces.at(space).sent.contains(q)]
                v.spaces.at(space).sent.contains(q) && named_by(ranges, q.packet_number);
            &&& named_by(ranges, p.packet_number) ==> !sent.contains(p)
            &&& !named_by(ranges, p.packet_number) && acks_some ==> (sent.contains(p) <==> !late)
            &&& !named_by(ranges, p.packet_number) && !acks_some ==> sent.contains(p)
            &&& !named_by(ranges, p.packet_number) && acks_some && late && p.frames.contains(f)
                && !never_resent(f) ==> outcome->Ok_0.contains(f)
        }),
{
    reveal(RecoveryView::ack_outcome);
    let u = SpaceView { largest_acked: Some(largest), ..v.spaces.at(space) };
    let n = ranges.len() as int;
    lemma_no_range_error(ranges, 0);
    lemma_small_ranges(ranges, 0);
    assert(u.wf());
    lemma_newly_members(u, ranges, n, p);
    assert(ranges.take(n) =~= ranges);
    let newly = newly_acked(u, ranges, n);
    let a = v.with_space(space, acked_ranges(u, ranges, n));
    let s = acked_ranges(u, ranges, n).sent;
    assert(a.spaces.at(space).sent == s);
    lemma_keeps_largest(u, ranges, n);
    if newly.len() == 0 {
        if exists|q: SentView|
            #![trigger v.spaces.at(space).sent.contains(q)]
            v.spaces.at(space).sent.contains(q) && named_by(ranges, q.packet_number) {
            let q = choose|q: SentView|
                #![trigger v.spaces.at(space).sent.contains(q)]
                v.spaces.at(space).sent.contains(q) && named_by(ranges, q.packet_number);
            lemma_newly_members(u, ranges, n, q);
        }
    } else {
        let q = newly[0];
        assert(newly.contains(q));
        lemma_newly_members(u, ranges, n, q);
        assert(v.spaces.at(space).sent.contains(q) && named_by(ranges, q.packet_number));
        let c = a.ack_counted(space, newly, ranges, ack_delay, now);
        let crit = c.criteria(space, now);
        assert(c.spaces.at(space).sent == s);
        assert(c.spaces.at(space).largest_acked == Some(largest));
        let w = c.after_detection(space, now).timed();
        assert(w.spaces.at(space).sent == crit.kept_of(s));
        assert(w.loss_delay() == c.loss_delay());
        if s.contains(p) {
            overdue_packets_are_lost(crit, s, p);
            if crit.lost_of(s).contains(p) && p.frames.contains(f) {
                let i = choose|i: int| 0 <= i < crit.lost_of(s).len() && crit.lost_of(s)[i] == p;
                assert(crit.lost_of(s)[i].frames.contains(f));
                lost_frames_are_resent(crit.lost_of(s), f);
            }
        } else {
            lemma_only_members(crit, s, p);
        }
    }
}

/// Taking packets out does not change the largest acknowledged number.
proof fn lemma_keeps_largest(v: SpaceView, ranges: Seq<(u64, u64)>, n: int)
    ensures
        acked_ranges(v, ranges, n).largest_acked == v.largest_acked,
    decreases n,
{
    if n > 0 {
        lemma_keeps_largest(v, ranges, n - 1);
    }
}

/// The sample that counts: the latest one without the delay that the peer reports, unless that
/// would bring it below the smallest one.
pub open spec fn sample(e: RttEstimator, latest: Duration, delay: Duration) -> int {
    if latest.nanos < e.min_rtt.nanos + delay.nanos && delay.nanos > 0 {
        latest.nanos as int
    } else {
        latest.nanos - delay.nanos
    }
}

/// After the first sample the smoothed round-trip time moves one eighth of the way to a new
/// sample, and the variation one quarter of the way to how far the two lie apart.
pub proof fn rtt_moves_one_eighth(e: RttEstimator, latest: Duration, delay: Duration)
    requires
        !e.first_rtt_sample,
        e.smoothed_rtt.nanos * 8 <= LONGEST,
        e.rtt_var.nanos * 4 <= LONGEST,
        latest.nanos * 8 <= LONGEST,
    ensures
        ({
            let u = e.updated(latest, delay);
            let a = sample(e, latest, delay);
            let s = u.smoothed_rtt.nanos;
            let apart = if s > a {
                s - a
            } else {
                a - s
            };
            &&& 0 <= a <= latest.nanos
            &&& 8 * s <= 7 * e.smoothed_rtt.nanos + a < 8 * s + 8
            &&& 4 * u.rtt_var.nanos <= 3 * e.rtt_var.nanos + apart < 4 * u.rtt_var.nanos + 4
            &&& !u.first_rtt_sample
        }),
{
}

/// The first sample is taken as it is, and half of it is the variation.
pub proof fn first_rtt_is_taken(e: RttEstimator, latest: Duration, delay: Duration)
    requires
        e.first_rtt_sample,
    ensures
        ({
            let u = e.updated(latest, delay);
            &&& u.smoothed_rtt == latest
            &&& 2 * u.rtt_var.nanos <= latest.nanos < 2 * u.rtt_var.nanos + 2
            &&& !u.first_rtt_sample
        }),
{
}

/// The smallest and the latest sample are kept, and nothing else of the estimator changes.
pub proof fn rtt_extremes_are_kept(e: RttEstimator, latest: Duration, delay: Duration)
    ensures
        ({
            let u = e.updated(latest, delay);
            &&& u.latest_rtt == Some(latest)
            &&& u.min_rtt == latest || u.min_rtt == e.min_rtt
            &&& u.min_rtt.nanos <= latest.nanos && u.min_rtt.nanos <= e.min_rtt.nanos
            &&& u.ack_delay_exponent == e.ack_delay_exponent
            &&& u.max_ack_delay == e.max_ack_delay
        }),
{
}

/// The probe timeout is the smoothed round-trip time and four variations, or a millisecond
/// where those are less; for application data the delay of acknowledgments is added.
pub proof fn probe_timeout_is_sum(e: RttEstimator)
    requires
        e.smoothed_rtt.nanos + e.rtt_var.nanos * 4 + 1_000_000 + e.max_ack_delay.nanos <= LONGEST,
    ensures
        ({
            let base = e.timeout_for(PacketNumberSpace::Initial);
            let spread = base - e.smoothed_rtt.nanos;
            &&& spread >= 1_000_000 && spread >= 4 * e.rtt_var.nanos
            &&& spread == 1_000_000 || spread == 4 * e.rtt_var.nanos
            &&& e.timeout_for(PacketNumberSpace::Handshake) == base
            &&& e.timeout_for(PacketNumberSpace::ApplicationData) == base + e.max_ack_delay.nanos
        }),
{
}

/// The delay that an ACK frame reports counts for application data only, in microseconds times
/// two to the exponent, and at most the maximum: without an exponent it is what the frame
/// says, and one more in the exponent does what twice the delay would.
pub proof fn ack_delay_is_scaled(e: RttEstimator, delay: Duration, twice: Duration)
    requires
        e.ack_delay_exponent < 20,
        delay.nanos / 1_000 < 0x1_0000_0000,
        twice.nanos / 1_000 == 2 * (delay.nanos / 1_000),
    ensures
        e.decoded_delay(PacketNumberSpace::Initial, delay) == 0,
        e.decoded_delay(PacketNumberSpace::Handshake, delay) == 0,
        ({
            let next = RttEstimator { ack_delay_exponent: (e.ack_delay_exponent + 1) as u8, ..e };
            let app = PacketNumberSpace::ApplicationData;
            &&& next.decoded_delay(app, delay) == e.decoded_delay(app, twice)
            &&& e.decoded_delay(app, delay) <= e.max_ack_delay.nanos
            &&& e.ack_delay_exponent == 0 && delay.nanos < e.max_ack_delay.nanos
                ==> delay.nanos - 1_000 < e.decoded_delay(app, delay) <= delay.nanos
            &&& e.ack_delay_exponent == 0 && delay.nanos >= e.max_ack_delay.nanos + 1_000
                ==> e.decoded_delay(app, delay) == e.max_ack_delay.nanos
        }),
{
    let x = e.ack_delay_exponent;
    let y = (x + 1) as u8;
    assert(1u64 << y == 2 * (1u64 << x) && 1u64 << x <= 0x8_0000) by (bit_vector)
        requires
            x < 20,
            y == x + 1,
    ;
    assert(x == 0 ==> 1u64 << x == 1) by (bit_vector);
    let m = (delay.nanos / 1_000) as int;
    let k = (1u64 << x) as int;
    assert(m * (2 * k) == (2 * m) * k) by (nonlinear_arith);
    assert(0 <= (2 * m) * k < 0x1_0000_0000_0000_0000) by (nonlinear_arith)
        requires
            0 <= m < 0x1_0000_0000,
            0 <= k <= 0x8_0000,
    ;
    assert(0 <= m * k < 0x1_0000_0000_0000_0000) by (nonlinear_arith)
        requires
            0 <= m < 0x1_0000_0000,
            0 <= k <= 0x8_0000,
    ;
}

/// An ACK frame is refused at once exactly where it has more than 64 ranges, where a range
/// starts above its end, where a range does not start below the one before it, or where the
/// largest number is less than one that was acknowledged before.
pub proof fn malformed_acks_are_refused(
    v: RecoveryView,
    space: PacketNumberSpace,
    largest: u64,
    ranges: Seq<(u64, u64)>,
    ack_delay: Duration,
    now: Instant,
)
    ensures
        ({
            let (w, outcome) = v.ack_outcome(space, largest, ranges, ack_delay, now);
            let upward = forall|i: int|
                0 <= i < ranges.len() ==> (#[trigger] ranges[i]).0 <= ranges[i].1;
            let falling = forall|i: int|
                0 < i < ranges.len() ==> (#[trigger] ranges[i]).0 < ranges[i - 1].0;
            let accepted = ranges.len() <= 64 && upward && falling && (
            v.spaces.at(space).largest_acked matches Some(n) ==> n <= largest);
            &&& !accepted ==> outcome is Err && w == v
            &&& accepted ==> v.ack_error(space, largest, ranges) is None
            &&& accepted && (exists|i: int|
                0 <= i < ranges.len() && (#[trigger] ranges[i]).1 - ranges[i].0 > 1000) ==> outcome
                == Err::<Seq<FrameView>, Error>(
                Error::ProtocolViolation(Reason::Text("ACK range too large")),
            )
        }),
{
    reveal(RecoveryView::ack_outcome);
    lemma_range_error(ranges, 0);
    lemma_small_exactly(ranges, 0);
}

/// When ranges are refused.
proof fn lemma_range_error(ranges: Seq<(u64, u64)>, i: int)
    requires
        0 <= i <= ranges.len(),
    ensures
        range_error(ranges, i) is None <==> (forall|j: int|
            i <= j < ranges.len() ==> (#[trigger] ranges[j]).0 <= ranges[j].1) && (forall|j: int|
            max(i, 1) <= j < ranges.len() ==> (#[trigger] ranges[j]).0 < ranges[j - 1].0),
    decreases ranges.len() - i,
{
    if i < ranges.len() {
        lemma_range_error(ranges, i + 1);
    }
}

/// The larger of two numbers.
spec fn max(a: int, b: int) -> int {
    if a < b {
        b
    } else {
        a
    }
}

/// Where a range is too large.
proof fn lemma_small_exactly(ranges: Seq<(u64, u64)>, i: int)
    requires
        0 <= i <= ranges.len(),
    ensures
        small_ranges(ranges, i) < ranges.len() <==> exists|j: int|
            i <= j < ranges.len() && (#[trigger] ranges[j]).1 - ranges[j].0 > 1000,
    decreases ranges.len() - i,
{
    if i < ranges.len() {
        lemma_small_exactly(ranges, i + 1);
    }
}

/// An ACK frame that is well-formed, with ranges of no more than 1001 numbers each, is only
/// refused where the declared exponent is too large for the delay, or where more than a
/// thousand frames are lost at once.
pub proof fn sound_acks_are_taken(
    v: RecoveryView,
    space: PacketNumberSpace,
    largest: u64,
    ranges: Seq<(u64, u64)>,
    ack_delay: Duration,
    now: Instant,
)
    requires
        ranges.len() <= 64,
        forall|i: int|
            0 <= i < ranges.len() ==> (#[trigger] ranges[i]).0 <= ranges[i].1 <= ranges[i].0 + 1000,
        forall|i: int| 0 < i < ranges.len() ==> (#[trigger] ranges[i]).0 < ranges[i - 1].0,
        v.spaces.at(space).largest_acked matches Some(n) ==> n <= largest,
        v.rtt.ack_delay_exponent <= 20,
    ensures
        ({
            let (w, outcome) = v.ack_outcome(space, largest, ranges, ack_delay, now);
            &&& outcome is Err ==> w.lost_frames(space, now) is Err
            &&& outcome is Ok && newly_acked(
                SpaceView { largest_acked: Some(largest), ..v.spaces.at(space) },
                ranges,
                ranges.len() as int,
            ).len() > 0 ==> w.pto_count == 0
        }),
{
    assert(v.ack_error(space, largest, ranges) is None && small_ranges(ranges, 0) == ranges.len())
        by {
        lemma_range_error(ranges, 0);
        lemma_small_exactly(ranges, 0);
        lemma_small_ranges(ranges, 0);
    }
    let u = SpaceView { largest_acked: Some(largest), ..v.spaces.at(space) };
    let newly = newly_acked(u, ranges, ranges.len() as int);
    let a = v.with_space(space, v.acked_space(space, largest, ranges, ranges.len() as int));
    let c = a.ack_counted(space, newly, ranges, ack_delay, now);
    assert(v.ack_outcome(space, largest, ranges, ack_delay, now) == if newly.len() == 0 {
        (a.timed(), Ok::<Seq<FrameView>, Error>(Seq::empty()))
    } else {
        match c.lost_frames(space, now) {
            Err(e) => (c, Err(e)),
            Ok(f) => (c.after_detection(space, now).timed(), Ok(f)),
        }
    }) by {
        reveal(RecoveryView::ack_outcome);
    }
}

/// Up to a thousand frames can be lost at once.
pub proof fn thousand_frames_can_be_lost(v: RecoveryView, space: PacketNumberSpace, now: Instant)
    ensures
        v.lost_frames(space, now) is Err ==> resend_all(
            v.criteria(space, now).lost_of(v.spaces.at(space).sent),
        ).len() > 1000,
        v.lost_frames(space, now) matches Ok(f) ==> f.len() <= 1000,
        v.lost_frames(space, now) matches Ok(f) ==> f.len() == 0 || f == resend_all(
            v.criteria(space, now).lost_of(v.spaces.at(space).sent),
        ),
{
}

/// The round-trip time is measured on the newest acknowledged packet that asked for it: none
/// with a larger number did.
pub proof fn rtt_sample_is_of_newest(
    v: RecoveryView,
    space: PacketNumberSpace,
    newly: Seq<SentView>,
    ranges: Seq<(u64, u64)>,
    ack_delay: Duration,
    now: Instant,
)
    ensures
        (forall|i: int| 0 <= i < newly.len() ==> !(#[trigger] newly[i]).ack_eliciting) ==> v.ack_counted(
            space,
            newly,
            ranges,
            ack_delay,
            now,
        ).rtt == v.rtt,
        forall|k: int|
            0 <= k < newly.len() && (#[trigger] newly[k]).ack_eliciting && newly[k].sent_time.nanos
                <= now.nanos && (forall|i: int|
                0 <= i < newly.len() && i != k && (#[trigger] newly[i]).ack_eliciting
                    ==> newly[i].packet_number < newly[k].packet_number) ==> v.ack_counted(
                space,
                newly,
                ranges,
                ack_delay,
                now,
            ).rtt.latest_rtt == Some(
                Duration { nanos: (now.nanos - newly[k].sent_time.nanos) as u128 },
            ),
{
    lemma_newest_eliciting(newly);
    assert forall|k: int|
        0 <= k < newly.len() && (#[trigger] newly[k]).ack_eliciting && (forall|i: int|
            0 <= i < newly.len() && i != k && (#[trigger] newly[i]).ack_eliciting
                ==> newly[i].packet_number < newly[k].packet_number) implies newest_eliciting(newly)
        == Some(newly[k]) by {
        lemma_newest_is(newly, k);
    }
}

/// The newest packet that asked for an acknowledgment.
proof fn lemma_newest_is(s: Seq<SentView>, k: int)
    requires
        0 <= k < s.len(),
        s[k].ack_eliciting,
        forall|i: int|
            0 <= i < s.len() && i != k && (#[trigger] s[i]).ack_eliciting ==> s[i].packet_number
                < s[k].packet_number,
    ensures
        newest_eliciting(s) == Some(s[k]),
    decreases s.len(),
{
    let d = s.drop_last();
    assert forall|i: int| 0 <= i < d.len() implies d[i] == s[i] by {}
    if k < d.len() {
        lemma_newest_is(d, k);
        assert(s[s.len() - 1] == s.last());
    } else {
        lemma_newest_among(d);
        if newest_eliciting(d) is Some {
            let q = newest_eliciting(d)->Some_0;
            let i = choose|i: int| 0 <= i < d.len() && d[i] == q;
            assert(s[i] == q);
        }
    }
}

/// The newest packet is one of them, and asked for an acknowledgment.
proof fn lemma_newest_among(s: Seq<SentView>)
    ensures
        newest_eliciting(s) matches Some(q) ==> s.contains(q) && q.ack_eliciting,
    decreases s.len(),
{
    if s.len() > 0 {
        let d = s.drop_last();
        lemma_newest_among(d);
        assert(s.contains(s.last())) by {
            assert(s[s.len() - 1] == s.last());
        }
        if newest_eliciting(d) is Some && d.contains(newest_eliciting(d)->Some_0) {
            let q = newest_eliciting(d)->Some_0;
            let i = choose|i: int| 0 <= i < d.len() && d[i] == q;
            assert(s[i] == q);
        }
    }
}

} // verus!
