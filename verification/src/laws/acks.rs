//! Laws of acknowledging: when an acknowledgment is owed, and what it says.

use crate::ack_manager::{first_range, further_ranges, runs, AckManager};
use crate::recovery::PacketNumberSpace;
use crate::time::{Duration, Instant};
use vstd::prelude::*;

verus! {

/// The second packet that asks for an acknowledgment gets one at once; the first one within 25
/// milliseconds.
pub proof fn second_packet_is_acknowledged(
    m: AckManager,
    a: AckManager,
    b: AckManager,
    n: u64,
    k: u64,
    t: Instant,
    u: Instant,
    now: Instant,
)
    requires
        m.is_fresh(PacketNumberSpace::ApplicationData),
        a.has_received(m, n, true, t),
        b.has_received(a, k, true, u),
    ensures
        !m.wants_ack(now),
        a.wants_ack(now) <==> now.nanos >= t.nanos + 25_000_000,
        b.wants_ack(now),
{
}

/// A packet that asks for no acknowledgment gets none by itself, and changes nothing about what
/// is owed.
pub proof fn other_packets_want_no_ack(
    m: AckManager,
    a: AckManager,
    n: u64,
    t: Instant,
    now: Instant,
)
    requires
        m.pn_space == PacketNumberSpace::ApplicationData,
        a.has_received(m, n, false, t),
    ensures
        a.wants_ack(now) <==> m.wants_ack(now),
        a.ack_eliciting_count == m.ack_eliciting_count,
{
}

/// While the handshake goes on, every packet is acknowledged at once.
pub proof fn handshake_is_acknowledged_at_once(
    m: AckManager,
    a: AckManager,
    n: u64,
    eliciting: bool,
    t: Instant,
    now: Instant,
)
    requires
        m.pn_space == PacketNumberSpace::Initial || m.pn_space == PacketNumberSpace::Handshake,
        a.has_received(m, n, eliciting, t),
    ensures
        a.wants_ack(now),
{
}

/// A packet is remembered, with all that came before; the largest one is known with its time.
pub proof fn received_packets_are_kept(
    m: AckManager,
    a: AckManager,
    n: u64,
    x: u64,
    eliciting: bool,
    t: Instant,
)
    requires
        m.wf(),
        a.has_received(m, n, eliciting, t),
    ensures
        a.received_packets@.contains(x) <==> m.received_packets@.contains(x) || x == n,
        m.largest_received is None ==> a.largest_received == Some(n) && a.largest_received_time
            == Some(t),
        m.largest_received matches Some(y) ==> (n > y ==> a.largest_received == Some(n)
            && a.largest_received_time == Some(t)),
        m.largest_received matches Some(y) ==> (n <= y ==> a.largest_received == Some(y)
            && a.largest_received_time == m.largest_received_time),
        eliciting && m.first_ack_eliciting_time is None ==> a.first_ack_eliciting_time == Some(t),
        m.first_ack_eliciting_time is Some ==> a.first_ack_eliciting_time
            == m.first_ack_eliciting_time,
{
    assert(a.received_packets@.to_set().contains(x) <==> m.received_packets@.to_set().insert(
        n,
    ).contains(x));
    assert(a.received_packets@.to_set().contains(x) <==> a.received_packets@.contains(x));
    assert(m.received_packets@.to_set().contains(x) <==> m.received_packets@.contains(x));
}

/// Once an acknowledgment is sent, none is owed until another packet asks for one. What was
/// received is not forgotten.
pub proof fn sent_ack_settles(m: AckManager, a: AckManager, now: Instant)
    requires
        m.largest_received is Some,
        a.has_reported(m),
    ensures
        !a.wants_ack(now),
        a.received_packets == m.received_packets,
        a.largest_received == m.largest_received,
        a.ack_eliciting_count == 0,
{
}

/// An acknowledgment names the largest packet and, in units of two to the exponent, how many
/// microseconds ago it came. It carries counts where there is one to report.
pub proof fn ack_names_largest_and_delay(m: AckManager, now: Instant)
    requires
        m.ack_delay_exponent == 3,
        m.largest_received is Some,
        m.largest_received_time matches Some(t) && t.nanos <= now.nanos < t.nanos
            + 18_000_000_000_000_000,
    ensures
        m.ack_frame(now) matches Some(f) && f is Ack && ({
            let waited = now.nanos - m.largest_received_time->Some_0.nanos;
            &&& f->largest_acknowledged == m.largest_received->Some_0
            &&& 8000 * f->ack_delay <= waited < 8000 * (f->ack_delay + 1)
            &&& f->ack_range_count == f->ack_ranges.len()
            &&& f->Ack_ecn_counts is Some <==> m.ecn_counts.ect0 + m.ecn_counts.ect1
                + m.ecn_counts.ecn_ce > 0
            &&& f->Ack_ecn_counts is Some ==> f->Ack_ecn_counts == Some(m.ecn_counts)
        }),
{
    let waited = now.nanos - m.largest_received_time->Some_0.nanos;
    let d = Duration { nanos: waited as u128 };
    let x = d.micros() as u64;
    let e = m.ack_delay_exponent;
    assert(x >> e == x / 8) by (bit_vector)
        requires
            e == 3,
    ;
}

/// Nothing is acknowledged before a packet came.
pub proof fn nothing_received_nothing_acknowledged(m: AckManager, now: Instant)
    ensures
        m.ack_frame(now) is Some <==> m.largest_received is Some,
{
}

/// A gap counts numbers that were not received. With one further range it is the gap below the
/// first range; with more, each but the last stands for the gap below its own range.
pub proof fn gaps_count_missing_packets(m: AckManager, j: int, x: u64)
    requires
        m.wf(),
        m.largest_received matches Some(n) && m.received_packets@.contains(n),
        0 <= j < further_ranges(runs(m.falling()), m.largest_received->Some_0).len(),
    ensures
        ({
            let q = runs(m.falling());
            let largest = m.largest_received->Some_0;
            let gap = further_ranges(q, largest)[j].gap;
            let first = first_range(q);
            &&& q.len() == 2 ==> {
                &&& largest - first - gap <= x < largest - first ==> !m.received_packets@.contains(x)
                &&& x == largest - first - gap - 1 ==> m.received_packets@.contains(x)
            }
            &&& j + 2 < q.len() ==> {
                &&& q[j + 1].start - gap <= x < q[j + 1].start ==> !m.received_packets@.contains(x)
                &&& x == q[j + 1].start - gap - 1 ==> m.received_packets@.contains(x)
            }
        }),
{
    let now = Instant { nanos: 0 };
    crate::ack_manager::ack_frame_lists_runs(m, now);
    let q = runs(m.falling());
    let largest = m.largest_received->Some_0;
    let gap = further_ranges(q, largest)[j].gap;
    assert(q.len() >= 2);
    assert(q[0].start > q[1].end + 1);
    if j + 2 < q.len() {
        assert(q[j + 1].start > q[j + 2].end + 1);
    }
    let i = if j + 2 < q.len() {
        j + 1
    } else {
        0
    };
    if j + 2 < q.len() || q.len() == 2 {
        assert(gap == q[i].start - q[i + 1].end - 1);
        if m.received_packets@.contains(x) {
            let k = choose|k: int| 0 <= k < q.len() && (#[trigger] q[k]).start <= x <= q[k].end;
            if k < i {
                assert(q[k].start > q[i].end + 1);
            }
            if k > i + 1 {
                assert(q[i + 1].start > q[k].end + 1);
            }
        }
        if x == q[i + 1].end {
            assert(q[i + 1].start <= x <= q[i + 1].end);
            assert(m.received_packets@.contains(x));
        }
    }
}

/// Packets that lie the threshold or further below the largest are forgotten; nearer ones stay.
pub proof fn old_packets_are_forgotten(m: AckManager, a: AckManager, threshold: u64, x: u64)
    requires
        m.largest_received is Some,
        a.has_dropped(m, threshold),
    ensures
        m.received_packets@.contains(x) && x > 0 && x + threshold > m.largest_received->Some_0
            ==> a.received_packets@.contains(x),
        x + threshold <= m.largest_received->Some_0 ==> !a.received_packets@.contains(x),
        !m.received_packets@.contains(x) ==> !a.received_packets@.contains(x),
        a.largest_received == m.largest_received,
        a.needs_ack == m.needs_ack,
{
    assert(a.received_packets@.contains(x) <==> a.received_packets@.contains(x));
}

/// The marks of a packet are counted each for itself.
pub proof fn marks_are_counted(m: AckManager, a: AckManager, ect0: bool, ect1: bool, ce: bool)
    requires
        a.has_counted(m, ect0, ect1, ce),
    ensures
        ect0 ==> a.ecn_counts.ect0 == m.ecn_counts.ect0 + 1,
        !ect0 ==> a.ecn_counts.ect0 == m.ecn_counts.ect0,
        ect1 ==> a.ecn_counts.ect1 == m.ecn_counts.ect1 + 1,
        !ect1 ==> a.ecn_counts.ect1 == m.ecn_counts.ect1,
        ce ==> a.ecn_counts.ecn_ce == m.ecn_counts.ecn_ce + 1,
        !ce ==> a.ecn_counts.ecn_ce == m.ecn_counts.ecn_ce,
        a.received_packets == m.received_packets && a.needs_ack == m.needs_ack,
{
}

} // verus!
