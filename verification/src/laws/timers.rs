//! Laws of what loss recovery does about time: when the timer is due, what is probed with, and
//! which frames go first.

use crate::frame_types::FrameView;
use crate::probes::{first_of, newest_of, probe_frames, ProbeKind};
use crate::recovery::{PacketNumberSpace, RecoveryView};
use crate::retransmission::{
    any_elicits, at_level, elicits_ack, first_levels, only_acks, prioritized, prioritizing_reorders,
    priority, LEVELS,
};
use crate::sent_packets::{earliest_loss, SentView};
use crate::time::{Instant, LONGEST};
use vstd::prelude::*;

verus! {

/// A packet asks for an acknowledgment where it carries any frame but ACK, PADDING and
/// CONNECTION_CLOSE frames. It is a mere acknowledgment where it carries ACK frames only.
pub proof fn which_packets_elicit_acks(v: Seq<FrameView>, f: FrameView)
    ensures
        !any_elicits(Seq::empty()),
        only_acks(Seq::empty()),
        any_elicits(v.push(f)) <==> any_elicits(v) || !(f is Ack || f is Padding || f
            is ConnectionClose),
        only_acks(v.push(f)) <==> only_acks(v) && f is Ack,
{
    let w = v.push(f);
    assert(w[v.len() as int] == f);
    if any_elicits(w) {
        let i = choose|i: int| 0 <= i < w.len() && #[trigger] elicits_ack(w[i]);
        if i < v.len() {
            assert(elicits_ack(v[i]));
        }
    }
    if any_elicits(v) {
        let i = choose|i: int| 0 <= i < v.len() && #[trigger] elicits_ack(v[i]);
        assert(elicits_ack(w[i]));
    }
    if elicits_ack(f) {
        assert(elicits_ack(w[v.len() as int]));
    }
    if only_acks(w) {
        assert forall|i: int| 0 <= i < v.len() implies (#[trigger] v[i]) is Ack by {
            assert(w[i] is Ack);
        }
    }
}

/// How urgent a frame is, zero being the most urgent: handshake data, the end of the
/// connection, the end of the handshake, aborted streams, the end of a stream, limits, stream
/// data, blocked senders, connection IDs, paths, tokens and pings, acknowledgments and padding.
pub open spec fn urgency(f: FrameView) -> int {
    match f {
        FrameView::Crypto { .. } => 0,
        FrameView::ConnectionClose { .. } => 1,
        FrameView::HandshakeDone => 2,
        FrameView::ResetStream { .. } => 3,
        FrameView::StopSending { .. } => 3,
        FrameView::Stream { fin, .. } => if fin {
            4
        } else {
            6
        },
        FrameView::MaxData { .. } => 5,
        FrameView::MaxStreamData { .. } => 5,
        FrameView::MaxStreams { .. } => 5,
        FrameView::DataBlocked { .. } => 7,
        FrameView::StreamDataBlocked { .. } => 7,
        FrameView::StreamsBlocked { .. } => 7,
        FrameView::NewConnectionId { .. } => 8,
        FrameView::RetireConnectionId { .. } => 8,
        FrameView::PathChallenge { .. } => 9,
        FrameView::PathResponse { .. } => 9,
        FrameView::NewToken { .. } => 10,
        FrameView::Ping => 10,
        FrameView::Ack { .. } => 11,
        FrameView::Padding => 11,
    }
}

/// Frames that are sent again go out by urgency: none before a more urgent one, and none is
/// added or left out.
pub proof fn urgent_frames_go_first(v: Seq<FrameView>)
    ensures
        prioritized(v).to_multiset() == v.to_multiset(),
        forall|i: int, j: int|
            0 <= i < j < prioritized(v).len() ==> urgency(#[trigger] prioritized(v)[i]) <= urgency(
                #[trigger] prioritized(v)[j],
            ),
{
    prioritizing_reorders(v);
    assert forall|i: int, j: int| 0 <= i < j < prioritized(v).len() implies urgency(
        #[trigger] prioritized(v)[i],
    ) <= urgency(#[trigger] prioritized(v)[j]) by {
        assert(priority(prioritized(v)[i]) >= priority(prioritized(v)[j]));
    }
}

/// The priorities rise with the urgency: two frames of one urgency have one priority, and a more
/// urgent one has a higher one.
pub proof fn priority_follows_urgency(f: FrameView, g: FrameView)
    ensures
        urgency(f) < urgency(g) <==> priority(f) > priority(g),
        urgency(f) == urgency(g) <==> priority(f) == priority(g),
{
}

/// Frames of one priority keep their order.
pub proof fn equal_frames_keep_order(v: Seq<FrameView>, f: FrameView)
    ensures
        at_level(prioritized(v), priority(f)) == at_level(v, priority(f)),
{
    lemma_levels_at(v, priority(f), 12);
    assert(LEVELS@[0] == 100 && LEVELS@[1] == 90 && LEVELS@[2] == 85 && LEVELS@[3] == 80
        && LEVELS@[4] == 75 && LEVELS@[5] == 70 && LEVELS@[6] == 60 && LEVELS@[7] == 50
        && LEVELS@[8] == 40 && LEVELS@[9] == 30 && LEVELS@[10] == 20 && LEVELS@[11] == 0);
    let k = if priority(f) == 100 {
        0int
    } else if priority(f) == 90 {
        1
    } else if priority(f) == 85 {
        2
    } else if priority(f) == 80 {
        3
    } else if priority(f) == 75 {
        4
    } else if priority(f) == 70 {
        5
    } else if priority(f) == 60 {
        6
    } else if priority(f) == 50 {
        7
    } else if priority(f) == 40 {
        8
    } else if priority(f) == 30 {
        9
    } else if priority(f) == 20 {
        10
    } else {
        11
    };
    assert(LEVELS@[k] == priority(f));
}

/// The frames of one level among those of the first levels.
proof fn lemma_levels_at(v: Seq<FrameView>, level: u8, n: int)
    requires
        0 <= n <= 12,
    ensures
        (exists|k: int| 0 <= k < n && LEVELS@[k] == level) ==> at_level(first_levels(v, n), level)
            == at_level(v, level),
        !(exists|k: int| 0 <= k < n && LEVELS@[k] == level) ==> at_level(first_levels(v, n), level)
            == Seq::<FrameView>::empty(),
    decreases n,
{
    if n > 0 {
        lemma_levels_at(v, level, n - 1);
        let here = LEVELS@[n - 1];
        lemma_level_joined(first_levels(v, n - 1), at_level(v, here), level);
        lemma_level_of_level(v, here, level);
        assert(LEVELS@[0] == 100 && LEVELS@[1] == 90 && LEVELS@[2] == 85 && LEVELS@[3] == 80
            && LEVELS@[4] == 75 && LEVELS@[5] == 70 && LEVELS@[6] == 60 && LEVELS@[7] == 50
            && LEVELS@[8] == 40 && LEVELS@[9] == 30 && LEVELS@[10] == 20 && LEVELS@[11] == 0);
        let a = at_level(first_levels(v, n - 1), level);
        if here == level {
            assert(!(exists|k: int| 0 <= k < n - 1 && LEVELS@[k] == level));
            assert(a + at_level(v, level) =~= at_level(v, level));
        } else {
            assert(a + Seq::<FrameView>::empty() =~= a);
            if exists|k: int| 0 <= k < n && LEVELS@[k] == level {
                let k = choose|k: int| 0 <= k < n && LEVELS@[k] == level;
                assert(k < n - 1);
            }
        }
    }
}

/// The frames of one level of a joined sequence.
proof fn lemma_level_joined(a: Seq<FrameView>, b: Seq<FrameView>, level: u8)
    ensures
        at_level(a + b, level) == at_level(a, level) + at_level(b, level),
    decreases b.len(),
{
    if b.len() == 0 {
        assert(a + b =~= a);
        assert(at_level(a, level) + at_level(b, level) =~= at_level(a, level));
    } else {
        let d = b.drop_last();
        lemma_level_joined(a, d, level);
        assert((a + b).drop_last() =~= a + d);
        assert((a + b).last() == b.last());
        if priority(b.last()) == level {
            assert(at_level(a, level) + at_level(d, level).push(b.last()) =~= (at_level(a, level)
                + at_level(d, level)).push(b.last()));
        }
    }
}

/// The frames of one level among those of one.
proof fn lemma_level_of_level(v: Seq<FrameView>, here: u8, level: u8)
    ensures
        here == level ==> at_level(at_level(v, here), level) == at_level(v, level),
        here != level ==> at_level(at_level(v, here), level) == Seq::<FrameView>::empty(),
    decreases v.len(),
{
    if v.len() > 0 {
        let d = v.drop_last();
        lemma_level_of_level(d, here, level);
        if priority(v.last()) == here {
            let t = at_level(d, here).push(v.last());
            assert(t.drop_last() =~= at_level(d, here));
            assert(t.last() == v.last());
        }
    } else {
        assert(v =~= Seq::<FrameView>::empty());
    }
}

/// The earliest loss of a space is that of the packet that was sent first among those that are
/// not newer than the largest acknowledged one, and comes after the delay.
pub proof fn earliest_loss_is_of_oldest(s: Seq<SentView>, largest: u64, delay: int)
    requires
        delay >= 0,
        forall|i: int|
            0 <= i < s.len() ==> (#[trigger] s[i]).sent_time.nanos + delay <= u128::MAX,
    ensures
        earliest_loss(s, largest, delay) is None <==> forall|i: int|
            0 <= i < s.len() ==> (#[trigger] s[i]).packet_number > largest,
        earliest_loss(s, largest, delay) matches Some(t) ==> {
            &&& forall|i: int|
                0 <= i < s.len() && (#[trigger] s[i]).packet_number <= largest ==> t
                    <= s[i].sent_time.nanos + delay
            &&& exists|i: int|
                0 <= i < s.len() && (#[trigger] s[i]).packet_number <= largest && t
                    == s[i].sent_time.nanos + delay
        },
    decreases s.len(),
{
    if s.len() > 0 {
        let d = s.drop_last();
        assert forall|i: int| 0 <= i < d.len() implies (#[trigger] d[i]).sent_time.nanos + delay
            <= u128::MAX by {
            assert(d[i] == s[i]);
        }
        earliest_loss_is_of_oldest(d, largest, delay);
        let p = s[s.len() - 1];
        assert(p == s.last());
        if earliest_loss(d, largest, delay) is Some {
            let t = earliest_loss(d, largest, delay)->Some_0;
            let i = choose|i: int|
                0 <= i < d.len() && (#[trigger] d[i]).packet_number <= largest && t
                    == d[i].sent_time.nanos + delay;
            assert(s[i] == d[i]);
        } else if earliest_loss(s, largest, delay) is None {
            assert forall|i: int| 0 <= i < s.len() implies (#[trigger] s[i]).packet_number
                > largest by {
                if i < d.len() {
                    assert(d[i] == s[i]);
                }
            }
        }
        assert forall|i: int| 0 <= i < d.len() implies d[i] == s[i] by {}
    }
}

/// The timer is set for a loss that is to come before anything else, and else for the probe
/// timeout of the packet that was sent first in any space with packets that wait for an
/// acknowledgment. Without any, it is off.
pub proof fn timer_is_for_oldest_packet(v: RecoveryView, space: PacketNumberSpace)
    requires
        v.wf(),
    ensures
        v.timed().timer is None <==> v.earliest() is None && v.probe_start() is None,
        v.earliest() matches Some(t) ==> (0 <= t <= u128::MAX ==> v.timed().timer == Some(
            Instant { nanos: t as u128 },
        )),
        v.earliest_in(space) matches Some(t) ==> v.earliest() is Some && v.earliest()->Some_0 <= t,
        v.earliest() matches Some(t) ==> v.earliest_in(PacketNumberSpace::Initial) == Some(t)
            || v.earliest_in(PacketNumberSpace::Handshake) == Some(t) || v.earliest_in(
            PacketNumberSpace::ApplicationData,
        ) == Some(t),
        v.spaces.at(space).ack_eliciting_in_flight > 0 && v.spaces.at(space).sent.len() > 0 ==> {
            &&& v.probe_start() is Some
            &&& v.probe_start()->Some_0.0 <= v.spaces.at(space).sent[0].sent_time.nanos
        },
        v.probe_start() matches Some((t, s)) ==> {
            &&& v.spaces.at(s).ack_eliciting_in_flight > 0
            &&& v.spaces.at(s).sent.len() > 0
            &&& t == v.spaces.at(s).sent[0].sent_time.nanos
        },
{
}

/// The probe timeout runs from that packet for the timeout of its space, times two for each
/// time that it expired before.
pub proof fn probe_waits_for_timeout(v: RecoveryView)
    requires
        v.probe_start() is Some,
        v.pto_count == 0,
        v.rtt.timeout_for(v.probe_start()->Some_0.1) <= LONGEST,
        v.probe_start()->Some_0.0 + v.rtt.timeout_for(v.probe_start()->Some_0.1) <= u128::MAX,
    ensures
        ({
            let (start, space) = v.probe_start()->Some_0;
            v.probe_deadline() == Some(start + v.rtt.timeout_for(space))
        }),
{
    assert(1u32 << 0u32 == 1) by (bit_vector);
}

/// When the timer was due and nothing is to be found lost, one more expiry is counted; else the
/// count stays.
pub proof fn expiries_are_counted(v: RecoveryView, now: Instant)
    requires
        v.pto_count < 31,
    ensures
        v.earliest() is None ==> v.after_timeout(now).pto_count == v.pto_count + 1
            && v.after_timeout(now).spaces == v.spaces && v.after_timeout(now).rtt == v.rtt,
        v.earliest() is Some ==> v.after_timeout(now).pto_count == v.pto_count,
{
}

/// The spaces that are probed are those with packets that wait for an acknowledgment, two at
/// most: application data first once the handshake is confirmed and last before that, and the
/// handshake before the initial packets.
pub proof fn probes_by_importance(v: RecoveryView)
    ensures
        ({
            let i = PacketNumberSpace::Initial;
            let h = PacketNumberSpace::Handshake;
            let a = PacketNumberSpace::ApplicationData;
            let p = v.probes();
            let waits = |s: PacketNumberSpace| v.spaces.at(s).ack_eliciting_in_flight > 0;
            &&& v.handshake_confirmed && waits(a) ==> p.len() > 0 && p[0].0 == a
            &&& v.handshake_confirmed && !waits(a) && waits(h) ==> p.len() > 0 && p[0].0 == h
            &&& v.handshake_confirmed && !waits(a) && !waits(h) && waits(i) ==> p.len() == 1
                && p[0].0 == i
            &&& v.handshake_confirmed && waits(a) && waits(h) ==> p.len() == 2 && p[1].0 == h
            &&& !v.handshake_confirmed && waits(h) ==> p.len() > 0 && p[0].0 == h
            &&& !v.handshake_confirmed && waits(h) && waits(i) ==> p.len() == 2 && p[1].0 == i
            &&& !v.handshake_confirmed && !waits(h) && waits(i) ==> p.len() > 0 && p[0].0 == i
            &&& !v.handshake_confirmed && !waits(h) && !waits(i) && waits(a) ==> p.len() == 1
                && p[0].0 == a
            &&& !waits(i) && !waits(h) && !waits(a) ==> p.len() == 0
        }),
{
}

/// Handshake packets are probed with the newest handshake data that is not acknowledged yet,
/// and a PING; application data with a PING before anything else.
pub proof fn handshake_is_probed_with_its_data(s: Seq<SentView>, space: PacketNumberSpace)
    ensures
        space != PacketNumberSpace::ApplicationData ==> probe_frames(s, space).last()
            == FrameView::Ping,
        space != PacketNumberSpace::ApplicationData && (exists|i: int, j: int|
            0 <= i < s.len() && 0 <= j < s[i].frames.len() && #[trigger] s[i].frames[j] is Crypto)
            ==> probe_frames(s, space).len() == 2 && probe_frames(s, space)[0] is Crypto,
        space == PacketNumberSpace::ApplicationData ==> probe_frames(s, space)[0]
            == FrameView::Ping,
{
    if exists|i: int, j: int|
        0 <= i < s.len() && 0 <= j < s[i].frames.len() && #[trigger] s[i].frames[j] is Crypto {
        let (i, j) = choose|i: int, j: int|
            0 <= i < s.len() && 0 <= j < s[i].frames.len() && #[trigger] s[i].frames[j] is Crypto;
        lemma_newest_crypto(s, i, j);
    }
}

/// Handshake data is found where there is some.
proof fn lemma_newest_crypto(s: Seq<SentView>, i: int, j: int)
    requires
        0 <= i < s.len(),
        0 <= j < s[i].frames.len(),
        s[i].frames[j] is Crypto,
    ensures
        newest_of(s, ProbeKind::Crypto) matches Some(f) && f is Crypto,
    decreases s.len(),
{
    lemma_first_crypto(s.last().frames);
    if first_of(s.last().frames, ProbeKind::Crypto) is None {
        if i == s.len() - 1 {
            assert(s.last().frames[j] is Crypto);
        }
        assert(s.drop_last()[i] == s[i]);
        lemma_newest_crypto(s.drop_last(), i, j);
    }
}

/// The first handshake data of a packet.
proof fn lemma_first_crypto(v: Seq<FrameView>)
    ensures
        first_of(v, ProbeKind::Crypto) matches Some(f) ==> f is Crypto,
        first_of(v, ProbeKind::Crypto) is None ==> forall|j: int|
            0 <= j < v.len() ==> !((#[trigger] v[j]) is Crypto),
    decreases v.len(),
{
    if v.len() > 0 && !(v[0] is Crypto) {
        lemma_first_crypto(v.skip(1));
        assert forall|j: int|
            0 <= j < v.len() && first_of(v, ProbeKind::Crypto) is None implies !((#[trigger] v[j])
            is Crypto) by {
            if j > 0 {
                assert(v.skip(1)[j - 1] == v[j]);
            }
        }
    }
}

/// Until the address of the peer is validated, exactly three times what it sent may be sent to
/// it; after that there is no such limit.
pub proof fn amplification_limit_is_threefold(v: RecoveryView, size: int)
    requires
        size >= 0,
    ensures
        v.address_validated ==> v.within_amplification_limit(size),
        !v.address_validated ==> (v.within_amplification_limit(size) <==> v.bytes_sent + size
            <= v.bytes_received + v.bytes_received + v.bytes_received),
{
}

} // verus!
