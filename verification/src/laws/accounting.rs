//! Laws of what is in flight: a packet is counted when it is sent and leaves with its count.

use crate::ack_manager::AckManager;
use crate::congestion::{CongestionAlgorithm, CongestionState, CongestionView};
use crate::frame_types::{allowed_in, FrameView};
use crate::packet::PacketType;
use crate::recovery::{ack_sent, after_losses, due_ack, space_of, PacketNumberSpace, RecoveryView};
use crate::sent_packets::{
    eliciting, in_range, lemma_rank, ordered, out_of_range, rank, sizes, total_size, with_packet,
    SentView, SpaceView,
};
use crate::time::Instant;
use vstd::prelude::*;

verus! {

/// The numbers of a packet go with its type; Retry packets count with the Initial ones.
pub proof fn spaces_go_with_types(t: PacketType)
    ensures
        space_of(t) == PacketNumberSpace::Handshake <==> t == PacketType::Handshake,
        space_of(t) == PacketNumberSpace::ApplicationData <==> t == PacketType::OneRtt || t
            == PacketType::ZeroRtt,
        space_of(t) == PacketNumberSpace::Initial <==> t == PacketType::Initial || t
            == PacketType::Retry,
{
}

/// Which frames a packet may hold: padding, pings and the end of a connection go anywhere;
/// acknowledgments and handshake data in all but early data; resets in early and application
/// data; all others in application data alone.
pub proof fn frames_fit_packets(f: FrameView, t: PacketType)
    ensures
        f is Padding || f is Ping || f is ConnectionClose ==> allowed_in(f, t),
        f is Ack || f is Crypto ==> (allowed_in(f, t) <==> t != PacketType::ZeroRtt && t
            != PacketType::Retry),
        f is ResetStream || f is StopSending ==> (allowed_in(f, t) <==> t == PacketType::ZeroRtt
            || t == PacketType::OneRtt),
        f is NewToken || f is Stream || f is MaxData || f is MaxStreamData || f is MaxStreams || f
            is DataBlocked || f is StreamDataBlocked || f is StreamsBlocked || f is NewConnectionId
            || f is RetireConnectionId || f is PathChallenge || f is PathResponse || f
            is HandshakeDone ==> (allowed_in(f, t) <==> t == PacketType::OneRtt),
        allowed_in(f, PacketType::OneRtt),
{
}

/// The size and the count of packets are sums.
pub proof fn sums_grow_with_packets(s: Seq<SentView>, p: SentView)
    ensures
        total_size(Seq::empty()) == 0,
        total_size(s.push(p)) - total_size(s) == p.size,
        eliciting(Seq::empty()) == 0,
        eliciting(s.push(p)) - eliciting(s) == (if p.ack_eliciting {
            1int
        } else {
            0
        }),
{
    assert(s.push(p).drop_last() =~= s);
}

/// A packet that is sent is kept among the others, in the order of the numbers, in the place of
/// one of the same number.
pub proof fn sent_packet_is_kept(s: Seq<SentView>, p: SentView, q: SentView)
    requires
        ordered(s),
    ensures
        ordered(with_packet(s, p)),
        with_packet(s, p).contains(p),
        q.packet_number != p.packet_number ==> (with_packet(s, p).contains(q) <==> s.contains(q)),
        q.packet_number == p.packet_number && q != p ==> !with_packet(s, p).contains(q),
{
    let (a, b) = (rank(s, p.packet_number as int), rank(s, p.packet_number + 1));
    lemma_rank(s, p.packet_number as int);
    lemma_rank(s, p.packet_number + 1);
    if b < a {
        assert(s[b].packet_number < p.packet_number);
    }
    let n = with_packet(s, p);
    assert(n[a] == p);
    assert forall|i: int, j: int| 0 <= i < j < n.len() implies (#[trigger] n[i]).packet_number < (
    #[trigger] n[j]).packet_number by {
        if j < a {
            assert(n[i] == s[i] && n[j] == s[j]);
        } else if i > a {
            assert(n[i] == s[i - a - 1 + b] && n[j] == s[j - a - 1 + b]);
        } else {
            if i < a {
                assert(n[i] == s[i]);
            }
            if j > a {
                assert(n[j] == s[j - a - 1 + b]);
            }
        }
    }
    if n.contains(q) {
        let i = choose|i: int| 0 <= i < n.len() && n[i] == q;
        if i < a {
            assert(s[i] == q);
        } else if i > a {
            assert(s[i - a - 1 + b] == q);
        }
    }
    if s.contains(q) {
        let i = choose|i: int| 0 <= i < s.len() && s[i] == q;
        if q.packet_number < p.packet_number {
            assert(i < a);
            assert(n[i] == q);
        } else if q.packet_number > p.packet_number {
            assert(i >= b);
            assert(n[i - b + a + 1] == q);
        }
    }
}

/// What is sent is in flight with its bytes, and counts as asking for an acknowledgment where it
/// does; the space remembers when.
pub proof fn sent_packet_is_counted(v: SpaceView, p: SentView)
    requires
        v.ack_eliciting_in_flight < u32::MAX,
        v.bytes_in_flight + p.size <= usize::MAX,
    ensures
        ({
            let n = v.after_sending(p);
            &&& n.bytes_in_flight - v.bytes_in_flight == p.size
            &&& p.ack_eliciting ==> n.ack_eliciting_in_flight - v.ack_eliciting_in_flight == 1
                && n.last_ack_eliciting_sent == Some(p.sent_time)
            &&& !p.ack_eliciting ==> n.ack_eliciting_in_flight == v.ack_eliciting_in_flight
                && n.last_ack_eliciting_sent == v.last_ack_eliciting_sent
            &&& n.largest_acked == v.largest_acked
        }),
{
}

/// A packet leaves with an acknowledgment where its number is in the range, and takes its bytes
/// out of flight; all others stay.
pub proof fn acked_packet_is_discounted(v: SpaceView, start: u64, end: u64, q: SentView)
    requires
        v.wf(),
        start <= end,
    ensures
        ({
            let n = v.acked(start, end);
            let left = in_range(v.sent, start, end);
            &&& n.sent.contains(q) <==> v.sent.contains(q) && !(start <= q.packet_number <= end)
            &&& left.contains(q) <==> v.sent.contains(q) && start <= q.packet_number <= end
            &&& v.bytes_in_flight - n.bytes_in_flight == total_size(left)
            &&& v.ack_eliciting_in_flight - n.ack_eliciting_in_flight == eliciting(left)
        }),
{
    let s = v.sent;
    let (a, b) = (rank(s, start as int), rank(s, end + 1));
    lemma_rank(s, start as int);
    lemma_rank(s, end + 1);
    if b < a {
        assert(s[b].packet_number < start);
    }
    crate::sent_packets::acked_packets_leave(s, start, end);
    let (left, rest) = (in_range(s, start, end), out_of_range(s, start, end));
    crate::sent_packets::lemma_sums_positive(rest);
    crate::sent_packets::lemma_sums_positive(left);
    if s.contains(q) {
        let i = choose|i: int| 0 <= i < s.len() && s[i] == q;
        if i < a {
            assert(rest[i] == q);
        } else if i >= b {
            assert(rest[i - b + a] == q);
        } else {
            assert(left[i - a] == q);
        }
    }
    if rest.contains(q) {
        let i = choose|i: int| 0 <= i < rest.len() && rest[i] == q;
        if i < a {
            assert(s[i] == q);
        } else {
            assert(s[i - a + b] == q);
        }
    }
    if left.contains(q) {
        let i = choose|i: int| 0 <= i < left.len() && left[i] == q;
        assert(s[i + a] == q);
    }
}

/// An acknowledgment goes out where one is owed, and is settled then; otherwise nothing changes.
pub proof fn owed_acks_go_out(m: AckManager, a: AckManager, now: Instant)
    requires
        m.largest_received is Some,
        ack_sent(a, m, now),
    ensures
        m.wants_ack(now) ==> due_ack(m, now).len() == 1 && due_ack(m, now)[0] is Ack && !a.wants_ack(
            now,
        ),
        !m.wants_ack(now) ==> due_ack(m, now).len() == 0 && a == m,
{
}

/// However many packets are lost at once, the window of NewReno is halved once.
pub proof fn many_losses_halve_once(c: CongestionView, lost: Seq<usize>, now: Instant)
    requires
        c.algorithm == CongestionAlgorithm::NewReno,
        c.newreno.state != CongestionState::Recovery,
    ensures
        after_losses(c, Seq::empty(), now) == c,
        lost.len() > 0 ==> {
            let n = after_losses(c, lost, now);
            &&& n.newreno == c.newreno.lost(c.min_window, now)
            &&& n.window() == c.min_window || 2 * n.window() <= c.window() < 2 * n.window() + 2
            &&& n.recovering()
        },
    decreases lost.len(),
{
    if lost.len() > 1 {
        many_losses_halve_once(c, lost.drop_last(), now);
        lemma_losses_keep_kind(c, lost.drop_last(), now);
    } else if lost.len() == 1 {
        assert(lost.drop_last() =~= Seq::<usize>::empty());
    }
}

/// Losses change neither the algorithm nor the minimum.
proof fn lemma_losses_keep_kind(c: CongestionView, lost: Seq<usize>, now: Instant)
    requires
        c.algorithm == CongestionAlgorithm::NewReno,
    ensures
        after_losses(c, lost, now).algorithm == c.algorithm,
        after_losses(c, lost, now).min_window == c.min_window,
    decreases lost.len(),
{
    if lost.len() > 0 {
        lemma_losses_keep_kind(c, lost.drop_last(), now);
    }
}

/// Nothing is lost in a space before a packet of it is acknowledged; after that the lost packets
/// leave and are reported to congestion control.
pub proof fn losses_need_an_ack(v: RecoveryView, space: PacketNumberSpace, now: Instant)
    ensures
        v.spaces.at(space).largest_acked is None ==> v.after_detection(space, now) == v
            && (v.lost_frames(space, now) matches Ok(f) && f.len() == 0),
        v.spaces.at(space).largest_acked is Some && v.lost_frames(space, now) is Ok ==> {
            let c = v.criteria(space, now);
            let n = v.after_detection(space, now);
            &&& n.spaces.at(space).sent == c.kept_of(v.spaces.at(space).sent)
            &&& n.spaces.at(space).largest_acked == v.spaces.at(space).largest_acked
            &&& c.lost_of(v.spaces.at(space).sent).len() == 0 ==> n.congestion == v.congestion
        },
{
    let c = v.criteria(space, now);
    let lost = c.lost_of(v.spaces.at(space).sent);
    if lost.len() == 0 {
        assert(sizes(lost) =~= Seq::<usize>::empty());
    }
}

/// A new space has sent nothing.
pub proof fn spaces_start_empty()
    ensures
        ({
            let v = SpaceView::fresh();
            &&& v.sent.len() == 0 && v.bytes_in_flight == 0 && v.ack_eliciting_in_flight == 0
            &&& v.largest_acked is None && v.last_ack_eliciting_sent is None
            &&& v.wf() && v.exact()
        }),
{
}

} // verus!
