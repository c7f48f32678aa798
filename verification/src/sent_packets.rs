//! Packets that were sent and are not yet acknowledged or lost.

use crate::error::{Error, Reason};
use crate::frame_types::{Frame, FrameView};
use crate::payload::views;
use crate::recovery::PacketNumberSpace;
use crate::retransmission::{retransmittable, should_retransmit_frame};
use crate::time::{countable, min_int, Duration, Instant};
use vstd::prelude::*;

verus! {

/// Maximum number of lost frames, to prevent memory exhaustion
pub const MAX_LOST_FRAMES: usize = 1000;

/// Information about a sent packet
#[derive(Debug)]
pub struct SentPacket {
    /// Packet number
    pub packet_number: u64,
    /// Time when packet was sent
    pub sent_time: Instant,
    /// Size of the packet in bytes
    pub size: usize,
    /// Whether the packet is ack-eliciting
    pub ack_eliciting: bool,
    /// Whether the packet contains only ACK frames
    pub ack_only: bool,
    /// Frames contained in the packet for retransmission
    pub frames: Vec<Frame>,
    /// Packet number space
    pub pn_space: PacketNumberSpace,
}

/// A sent packet, with what its frames hold.
#[verifier::ext_equal]
pub struct SentView {
    pub packet_number: u64,
    pub sent_time: Instant,
    pub size: usize,
    pub ack_eliciting: bool,
    pub ack_only: bool,
    pub frames: Seq<FrameView>,
    pub pn_space: PacketNumberSpace,
}

impl View for SentPacket {
    type V = SentView;

    open spec fn view(&self) -> SentView {
        SentView {
            packet_number: self.packet_number,
            sent_time: self.sent_time,
            size: self.size,
            ack_eliciting: self.ack_eliciting,
            ack_only: self.ack_only,
            frames: views(self.frames@),
            pn_space: self.pn_space,
        }
    }
}

/// What sent packets hold.
pub open spec fn packet_views(s: Seq<SentPacket>) -> Seq<SentView> {
    Seq::new(s.len(), |i: int| s[i]@)
}

/// Whether the packet numbers grow from each packet to the next.
pub open spec fn ordered(s: Seq<SentView>) -> bool {
    forall|i: int, j: int|
        0 <= i < j < s.len() ==> (#[trigger] s[i]).packet_number < (#[trigger] s[j]).packet_number
}

/// How many of the ordered packets have a number below `n`.
pub open spec fn rank(s: Seq<SentView>, n: int) -> int
    decreases s.len(),
{
    if s.len() == 0 {
        0
    } else if s.last().packet_number < n {
        s.len() as int
    } else {
        rank(s.drop_last(), n)
    }
}

/// The packets with one more, which takes the place of a packet with the same number.
pub open spec fn with_packet(s: Seq<SentView>, p: SentView) -> Seq<SentView> {
    let r = rank(s, p.packet_number as int);
    s.take(r) + seq![p] + s.skip(rank(s, p.packet_number + 1))
}

/// The packets with a number from `start` to `end`.
pub open spec fn in_range(s: Seq<SentView>, start: u64, end: u64) -> Seq<SentView> {
    s.subrange(rank(s, start as int), rank(s, end + 1))
}

/// The packets with another number.
pub open spec fn out_of_range(s: Seq<SentView>, start: u64, end: u64) -> Seq<SentView> {
    s.take(rank(s, start as int)) + s.skip(rank(s, end + 1))
}

/// The bytes that packets take up.
pub open spec fn total_size(s: Seq<SentView>) -> int
    decreases s.len(),
{
    if s.len() == 0 {
        0
    } else {
        total_size(s.drop_last()) + s.last().size
    }
}

/// How many packets ask for an acknowledgment.
pub open spec fn eliciting(s: Seq<SentView>) -> int
    decreases s.len(),
{
    if s.len() == 0 {
        0
    } else {
        eliciting(s.drop_last()) + if s.last().ack_eliciting {
            1int
        } else {
            0
        }
    }
}

/// The sums over one packet more.
proof fn lemma_sums_push(s: Seq<SentView>, p: SentView)
    ensures
        total_size(s.push(p)) == total_size(s) + p.size,
        eliciting(s.push(p)) == eliciting(s) + if p.ack_eliciting {
            1int
        } else {
            0
        },
{
    assert(s.push(p).drop_last() =~= s);
}

/// The sums are those of the two parts.
pub proof fn lemma_sums_join(a: Seq<SentView>, b: Seq<SentView>)
    ensures
        total_size(a + b) == total_size(a) + total_size(b),
        eliciting(a + b) == eliciting(a) + eliciting(b),
    decreases b.len(),
{
    if b.len() == 0 {
        assert(a + b =~= a);
    } else {
        lemma_sums_join(a, b.drop_last());
        assert((a + b).drop_last() =~= a + b.drop_last());
    }
}

/// The sums are not negative.
pub proof fn lemma_sums_positive(s: Seq<SentView>)
    ensures
        total_size(s) >= 0,
        0 <= eliciting(s) <= s.len(),
    decreases s.len(),
{
    if s.len() > 0 {
        lemma_sums_positive(s.drop_last());
    }
}

/// The rank splits ordered packets into those below and the others.
pub proof fn lemma_rank(s: Seq<SentView>, n: int)
    requires
        ordered(s),
    ensures
        0 <= rank(s, n) <= s.len(),
        forall|i: int| 0 <= i < rank(s, n) ==> (#[trigger] s[i]).packet_number < n,
        forall|i: int| rank(s, n) <= i < s.len() ==> (#[trigger] s[i]).packet_number >= n,
    decreases s.len(),
{
    if s.len() > 0 {
        let d = s.drop_last();
        assert forall|i: int, j: int| 0 <= i < j < d.len() implies (#[trigger] d[i]).packet_number
            < (#[trigger] d[j]).packet_number by {
            assert(d[i] == s[i] && d[j] == s[j]);
        }
        lemma_rank(d, n);
        assert(s.last() == s[s.len() - 1]);
        assert forall|i: int| rank(s, n) <= i < s.len() implies (#[trigger] s[i]).packet_number
            >= n by {
            if i < d.len() {
                assert(d[i] == s[i]);
            }
        }
        assert forall|i: int| 0 <= i < rank(s, n) implies (#[trigger] s[i]).packet_number < n by {
            if s.last().packet_number >= n {
                assert(d[i] == s[i]);
            }
        }
    }
}

/// The rank is where the packets cross the number.
pub proof fn lemma_rank_is(s: Seq<SentView>, n: int, r: int)
    requires
        ordered(s),
        0 <= r <= s.len(),
        forall|i: int| 0 <= i < r ==> (#[trigger] s[i]).packet_number < n,
        forall|i: int| r <= i < s.len() ==> (#[trigger] s[i]).packet_number >= n,
    ensures
        rank(s, n) == r,
{
    lemma_rank(s, n);
    if rank(s, n) < r {
        assert(s[rank(s, n)].packet_number < n);
    } else if r < rank(s, n) {
        assert(s[r].packet_number < n);
    }
}

/// A larger number has no smaller rank.
pub proof fn lemma_rank_grows(s: Seq<SentView>, a: int, b: int)
    requires
        ordered(s),
        a <= b,
    ensures
        0 <= rank(s, a) <= rank(s, b) <= s.len(),
{
    lemma_rank(s, a);
    lemma_rank(s, b);
    if rank(s, b) < rank(s, a) {
        assert(s[rank(s, b)].packet_number < a);
    }
}

/// Taking packets in a range away splits the packets in two.
pub proof fn acked_packets_leave(s: Seq<SentView>, start: u64, end: u64)
    requires
        ordered(s),
        start <= end,
    ensures
        ordered(out_of_range(s, start, end)),
        forall|i: int|
            0 <= i < in_range(s, start, end).len() ==> start <= (#[trigger] in_range(
                s,
                start,
                end,
            )[i]).packet_number <= end,
        forall|i: int|
            0 <= i < out_of_range(s, start, end).len() ==> !(start <= (#[trigger] out_of_range(
                s,
                start,
                end,
            )[i]).packet_number <= end),
        total_size(s) == total_size(in_range(s, start, end)) + total_size(
            out_of_range(s, start, end),
        ),
        eliciting(s) == eliciting(in_range(s, start, end)) + eliciting(out_of_range(s, start, end)),
{
    let a = rank(s, start as int);
    let b = rank(s, end + 1);
    lemma_rank(s, start as int);
    lemma_rank(s, end + 1);
    lemma_rank_grows(s, start as int, end + 1);
    let o = out_of_range(s, start, end);
    let m = in_range(s, start, end);
    assert forall|i: int| 0 <= i < o.len() implies !(start <= (#[trigger] o[i]).packet_number
        <= end) by {
        if i < a {
            assert(o[i] == s[i]);
        } else {
            assert(o[i] == s[i - a + b]);
        }
    }
    assert forall|i: int, j: int| 0 <= i < j < o.len() implies (#[trigger] o[i]).packet_number < (
    #[trigger] o[j]).packet_number by {
        let si = if i < a {
            i
        } else {
            i - a + b
        };
        let sj = if j < a {
            j
        } else {
            j - a + b
        };
        assert(o[i] == s[si] && o[j] == s[sj]);
    }
    assert(s =~= s.take(a) + (m + s.skip(b)));
    lemma_sums_join(s.take(a), m + s.skip(b));
    lemma_sums_join(m, s.skip(b));
    lemma_sums_join(s.take(a), s.skip(b));
}

/// When a packet counts as lost.
#[derive(Debug, Clone, Copy, PartialEq, Eq, Structural)]
pub struct LossCriteria {
    /// Largest acknowledged packet number
    pub largest_acked: u64,
    /// Time after which an unacknowledged packet is lost
    pub loss_delay: Duration,
    /// Distance from the largest acknowledged packet at which a packet is lost
    pub packet_threshold: u64,
    /// Current time
    pub now: Instant,
}

impl LossCriteria {
    /// Whether a packet is lost: it was sent before the largest acknowledged one, and either
    /// long enough ago, or enough packets before it.
    pub open spec fn lost(self, p: SentView) -> bool {
        &&& p.packet_number <= self.largest_acked
        &&& self.now.nanos - p.sent_time.nanos > self.loss_delay.nanos || self.largest_acked
            - p.packet_number >= self.packet_threshold
    }

    /// The packets that are lost, in their order.
    pub open spec fn lost_of(self, s: Seq<SentView>) -> Seq<SentView>
        decreases s.len(),
    {
        if s.len() == 0 {
            s
        } else if self.lost(s.last()) {
            self.lost_of(s.drop_last()).push(s.last())
        } else {
            self.lost_of(s.drop_last())
        }
    }

    /// The packets that are not lost, in their order.
    pub open spec fn kept_of(self, s: Seq<SentView>) -> Seq<SentView>
        decreases s.len(),
    {
        if s.len() == 0 {
            s
        } else if self.lost(s.last()) {
            self.kept_of(s.drop_last())
        } else {
            self.kept_of(s.drop_last()).push(s.last())
        }
    }

    /// Check if a packet is lost
    pub fn is_lost(&self, p: &SentPacket) -> (r: bool)
        ensures
            r == self.lost(p@),
    {
        if p.packet_number > self.largest_acked {
            return false;
        }
        let time_since_sent: Duration = self.now.duration_since(p.sent_time);
        time_since_sent.nanos > self.loss_delay.nanos || self.largest_acked - p.packet_number
            >= self.packet_threshold
    }
}

/// The frames that are sent again, in their order.
pub open spec fn to_resend(v: Seq<FrameView>) -> Seq<FrameView>
    decreases v.len(),
{
    if v.len() == 0 {
        v
    } else if retransmittable(v.last()) {
        to_resend(v.drop_last()).push(v.last())
    } else {
        to_resend(v.drop_last())
    }
}

/// The frames of packets that are sent again, packet by packet.
pub open spec fn resend_all(s: Seq<SentView>) -> Seq<FrameView>
    decreases s.len(),
{
    if s.len() == 0 {
        Seq::empty()
    } else {
        resend_all(s.drop_last()) + to_resend(s.last().frames)
    }
}

/// The first frames make no more to resend than all of them.
proof fn lemma_to_resend_prefix(v: Seq<FrameView>, n: int)
    requires
        0 <= n <= v.len(),
    ensures
        to_resend(v.take(n)).len() <= to_resend(v).len(),
    decreases v.len(),
{
    if n == v.len() {
        assert(v.take(n) =~= v);
    } else {
        lemma_to_resend_prefix(v.drop_last(), n);
        assert(v.drop_last().take(n) =~= v.take(n));
    }
}

/// The first packets make no more to resend than all of them.
proof fn lemma_resend_prefix(c: LossCriteria, s: Seq<SentView>, n: int)
    requires
        0 <= n <= s.len(),
    ensures
        resend_all(c.lost_of(s.take(n))).len() <= resend_all(c.lost_of(s)).len(),
    decreases s.len(),
{
    if n == s.len() {
        assert(s.take(n) =~= s);
    } else {
        lemma_resend_prefix(c, s.drop_last(), n);
        assert(s.drop_last().take(n) =~= s.take(n));
        if c.lost(s.last()) {
            let l = c.lost_of(s.drop_last());
            assert(c.lost_of(s).drop_last() =~= l);
        }
    }
}

/// Every packet is either lost or kept. What is kept stays in order.
pub proof fn loss_splits_packets(c: LossCriteria, s: Seq<SentView>)
    requires
        ordered(s),
    ensures
        ordered(c.kept_of(s)),
        forall|i: int|
            0 <= i < c.kept_of(s).len() ==> !c.lost(#[trigger] c.kept_of(s)[i]) && s.contains(
                c.kept_of(s)[i],
            ),
        forall|i: int|
            0 <= i < c.lost_of(s).len() ==> c.lost(#[trigger] c.lost_of(s)[i]) && s.contains(
                c.lost_of(s)[i],
            ),
        c.kept_of(s).len() + c.lost_of(s).len() == s.len(),
        total_size(s) == total_size(c.kept_of(s)) + total_size(c.lost_of(s)),
        eliciting(s) == eliciting(c.kept_of(s)) + eliciting(c.lost_of(s)),
    decreases s.len(),
{
    if s.len() > 0 {
        let d = s.drop_last();
        let p = s.last();
        assert forall|i: int, j: int| 0 <= i < j < d.len() implies (#[trigger] d[i]).packet_number
            < (#[trigger] d[j]).packet_number by {
            assert(d[i] == s[i] && d[j] == s[j]);
        }
        loss_splits_packets(c, d);
        let k = c.kept_of(d);
        let l = c.lost_of(d);
        lemma_sums_push(k, p);
        lemma_sums_push(l, p);
        assert(s.contains(p)) by {
            assert(s[s.len() - 1] == p);
        }
        assert forall|q: SentView| d.contains(q) implies s.contains(q) by {
            let i = choose|i: int| 0 <= i < d.len() && d[i] == q;
            assert(s[i] == q);
        }
        if !c.lost(p) {
            let t = c.kept_of(s);
            assert forall|i: int, j: int| 0 <= i < j < t.len() implies (
            #[trigger] t[i]).packet_number < (#[trigger] t[j]).packet_number by {
                if j == k.len() {
                    assert(t[i] == k[i]);
                    assert(d.contains(k[i]));
                    let x = choose|x: int| 0 <= x < d.len() && d[x] == k[i];
                    assert(s[x] == k[i] && s[s.len() - 1] == p);
                } else {
                    assert(t[i] == k[i] && t[j] == k[j]);
                }
            }
            assert forall|i: int| 0 <= i < t.len() implies !c.lost(#[trigger] t[i]) && s.contains(
                t[i],
            ) by {
                if i < k.len() {
                    assert(t[i] == k[i]);
                }
            }
        } else {
            let t = c.lost_of(s);
            assert forall|i: int| 0 <= i < t.len() implies c.lost(#[trigger] t[i]) && s.contains(
                t[i],
            ) by {
                if i < l.len() {
                    assert(t[i] == l[i]);
                }
            }
        }
    }
}

/// The earliest time at which one of the packets up to `largest` is lost.
pub open spec fn earliest_loss(s: Seq<SentView>, largest: u64, delay: int) -> Option<int>
    decreases s.len(),
{
    if s.len() == 0 {
        None
    } else {
        let rest = earliest_loss(s.drop_last(), largest, delay);
        let p = s.last();
        if p.packet_number > largest {
            rest
        } else {
            let t = countable(p.sent_time.nanos + delay);
            match rest {
                Some(r) => Some(min_int(r, t)),
                None => Some(t),
            }
        }
    }
}

/// Per packet number space state
#[derive(Debug)]
pub struct PacketNumberSpaceData {
    /// Packets sent but not yet acknowledged, in order of their numbers
    pub sent_packets: Vec<SentPacket>,
    /// Largest acknowledged packet number
    pub largest_acked: Option<u64>,
    /// Time of last ack-eliciting packet sent
    pub last_ack_eliciting_sent: Option<Instant>,
    /// Number of ack-eliciting packets in flight
    pub ack_eliciting_in_flight: u32,
    /// Total bytes in flight
    pub bytes_in_flight: usize,
}

/// What a packet number space holds.
#[verifier::ext_equal]
pub struct SpaceView {
    pub sent: Seq<SentView>,
    pub largest_acked: Option<u64>,
    pub last_ack_eliciting_sent: Option<Instant>,
    pub ack_eliciting_in_flight: u32,
    pub bytes_in_flight: usize,
}

impl View for PacketNumberSpaceData {
    type V = SpaceView;

    open spec fn view(&self) -> SpaceView {
        SpaceView {
            sent: packet_views(self.sent_packets@),
            largest_acked: self.largest_acked,
            last_ack_eliciting_sent: self.last_ack_eliciting_sent,
            ack_eliciting_in_flight: self.ack_eliciting_in_flight,
            bytes_in_flight: self.bytes_in_flight,
        }
    }
}

impl SpaceView {
    /// A space without packets.
    pub open spec fn fresh() -> SpaceView {
        SpaceView {
            sent: Seq::empty(),
            largest_acked: None,
            last_ack_eliciting_sent: None,
            ack_eliciting_in_flight: 0,
            bytes_in_flight: 0,
        }
    }

    /// What holds of every space: the packets are ordered, and all of them are counted.
    pub open spec fn wf(self) -> bool {
        &&& ordered(self.sent)
        &&& self.bytes_in_flight >= total_size(self.sent)
        &&& self.ack_eliciting_in_flight >= eliciting(self.sent)
    }

    /// Whether exactly the packets that are kept are counted as in flight.
    pub open spec fn exact(self) -> bool {
        &&& self.bytes_in_flight == total_size(self.sent)
        &&& self.ack_eliciting_in_flight == eliciting(self.sent)
    }

    /// Whether one more packet can be counted.
    pub open spec fn has_room_for(self, size: usize) -> bool {
        &&& self.ack_eliciting_in_flight < u32::MAX
        &&& self.bytes_in_flight + size <= usize::MAX
    }

    /// The space with one more packet.
    pub open spec fn after_sending(self, p: SentView) -> SpaceView {
        SpaceView {
            sent: with_packet(self.sent, p),
            ack_eliciting_in_flight: if p.ack_eliciting {
                (self.ack_eliciting_in_flight + 1) as u32
            } else {
                self.ack_eliciting_in_flight
            },
            last_ack_eliciting_sent: if p.ack_eliciting {
                Some(p.sent_time)
            } else {
                self.last_ack_eliciting_sent
            },
            bytes_in_flight: (self.bytes_in_flight + p.size) as usize,
            ..self
        }
    }

    /// The space without packets that left: they are not in flight any more.
    pub open spec fn without(self, left: Seq<SentView>, rest: Seq<SentView>) -> SpaceView {
        SpaceView {
            sent: rest,
            ack_eliciting_in_flight: (self.ack_eliciting_in_flight - eliciting(left)) as u32,
            bytes_in_flight: (self.bytes_in_flight - total_size(left)) as usize,
            ..self
        }
    }

    /// The space after an acknowledgment of the packets from `start` to `end`.
    pub open spec fn acked(self, start: u64, end: u64) -> SpaceView {
        self.without(in_range(self.sent, start, end), out_of_range(self.sent, start, end))
    }

    /// The space without the lost packets.
    pub open spec fn after_loss(self, c: LossCriteria) -> SpaceView {
        self.without(c.lost_of(self.sent), c.kept_of(self.sent))
    }
}

/// Packets leave the counts as they leave the space.
proof fn lemma_without(v: SpaceView, left: Seq<SentView>, rest: Seq<SentView>)
    requires
        v.wf(),
        ordered(rest),
        total_size(v.sent) == total_size(left) + total_size(rest),
        eliciting(v.sent) == eliciting(left) + eliciting(rest),
    ensures
        v.without(left, rest).wf(),
        v.exact() ==> v.without(left, rest).exact(),
        0 <= v.bytes_in_flight - total_size(left),
        0 <= v.ack_eliciting_in_flight - eliciting(left),
{
    lemma_sums_positive(left);
    lemma_sums_positive(rest);
}

/// Lost packets leave the counts as they leave the space.
pub proof fn lemma_after_loss(v: SpaceView, c: LossCriteria)
    requires
        v.wf(),
    ensures
        v.after_loss(c).wf(),
{
    loss_splits_packets(c, v.sent);
    lemma_without(v, c.lost_of(v.sent), c.kept_of(v.sent));
}

/// A packet that is sent again under its old number is counted twice, one with a new number
/// once.
proof fn lemma_after_sending(v: SpaceView, p: SentView)
    requires
        v.wf(),
        v.has_room_for(p.size),
    ensures
        v.after_sending(p).wf(),
        v.exact() && rank(v.sent, p.packet_number as int) == rank(v.sent, p.packet_number + 1)
            ==> v.after_sending(p).exact(),
{
    let s = v.sent;
    let a = rank(s, p.packet_number as int);
    let b = rank(s, p.packet_number + 1);
    lemma_rank(s, p.packet_number as int);
    lemma_rank(s, p.packet_number + 1);
    lemma_rank_grows(s, p.packet_number as int, p.packet_number + 1);
    let t = with_packet(s, p);
    assert forall|i: int, j: int| 0 <= i < j < t.len() implies (#[trigger] t[i]).packet_number < (
    #[trigger] t[j]).packet_number by {
        if i < a {
            assert(t[i] == s[i]);
        } else if i > a {
            assert(t[i] == s[i - a - 1 + b]);
        }
        if j < a {
            assert(t[j] == s[j]);
        } else if j > a {
            assert(t[j] == s[j - a - 1 + b]);
        }
    }
    let m = s.subrange(a, b);
    assert(s =~= s.take(a) + (m + s.skip(b)));
    lemma_sums_join(s.take(a), m + s.skip(b));
    lemma_sums_join(m, s.skip(b));
    assert(t =~= s.take(a).push(p) + s.skip(b));
    lemma_sums_push(s.take(a), p);
    lemma_sums_join(s.take(a).push(p), s.skip(b));
    lemma_sums_positive(m);
    if a == b {
        assert(m =~= Seq::<SentView>::empty());
    }
}

/// As long as every packet gets a new number, the bytes in flight are those of the packets
/// that are neither acknowledged nor lost, and so is the count of ack-eliciting packets.
pub proof fn in_flight_is_what_was_sent(
    v: SpaceView,
    p: SentView,
    start: u64,
    end: u64,
    c: LossCriteria,
)
    requires
        v.wf(),
        v.exact(),
        start <= end,
    ensures
        v.has_room_for(p.size) && (forall|i: int|
            0 <= i < v.sent.len() ==> (#[trigger] v.sent[i]).packet_number != p.packet_number)
            ==> v.after_sending(p).exact() && v.after_sending(p).wf(),
        v.acked(start, end).exact() && v.acked(start, end).wf(),
        v.after_loss(c).exact() && v.after_loss(c).wf(),
{
    acked_packets_leave(v.sent, start, end);
    lemma_without(v, in_range(v.sent, start, end), out_of_range(v.sent, start, end));
    loss_splits_packets(c, v.sent);
    lemma_without(v, c.lost_of(v.sent), c.kept_of(v.sent));
    if v.has_room_for(p.size) && (forall|i: int|
        0 <= i < v.sent.len() ==> (#[trigger] v.sent[i]).packet_number != p.packet_number) {
        let a = rank(v.sent, p.packet_number as int);
        lemma_rank(v.sent, p.packet_number as int);
        lemma_rank_is(v.sent, p.packet_number + 1, a);
        lemma_after_sending(v, p);
    }
}

impl PacketNumberSpaceData {
    /// A space without packets
    pub fn new() -> (r: PacketNumberSpaceData)
        ensures
            r@ == SpaceView::fresh(),
            r@.wf(),
            r@.exact(),
    {
        let r: PacketNumberSpaceData = PacketNumberSpaceData {
            sent_packets: Vec::new(),
            largest_acked: None,
            last_ack_eliciting_sent: None,
            ack_eliciting_in_flight: 0,
            bytes_in_flight: 0,
        };
        assert(r@.sent =~= Seq::<SentView>::empty());
        r
    }

    /// Where the first packet with a number of at least `n` stands
    fn position(&self, n: u64) -> (r: usize)
        requires
            self@.wf(),
        ensures
            r == rank(self@.sent, n as int),
            r <= self@.sent.len(),
    {
        let ghost s = self@.sent;
        let mut i: usize = 0;
        while i < self.sent_packets.len() && self.sent_packets[i].packet_number < n
            invariant
                s == self@.sent,
                ordered(s),
                i <= s.len(),
                forall|j: int| 0 <= j < i ==> (#[trigger] s[j]).packet_number < n,
            decreases s.len() - i,
        {
            assert(s[i as int] == self.sent_packets@[i as int]@);
            i += 1;
        }
        proof {
            assert forall|j: int| i <= j < s.len() implies (#[trigger] s[j]).packet_number >= n by {
                assert(s[i as int] == self.sent_packets@[i as int]@);
            }
            lemma_rank_is(s, n as int, i as int);
        }
        i
    }

    /// Record a packet being sent
    pub fn on_packet_sent(&mut self, packet: SentPacket)
        requires
            old(self)@.wf(),
            old(self)@.has_room_for(packet.size),
        ensures
            final(self)@ == old(self)@.after_sending(packet@),
            final(self)@.wf(),
    {
        let ghost s = self@.sent;
        let ghost p = packet@;
        proof {
            lemma_after_sending(self@, p);
            lemma_rank(s, p.packet_number as int);
        }
        let n: u64 = packet.packet_number;
        let at: usize = self.position(n);
        if packet.ack_eliciting {
            self.ack_eliciting_in_flight += 1;
            self.last_ack_eliciting_sent = Some(packet.sent_time);
        }
        self.bytes_in_flight += packet.size;
        if at < self.sent_packets.len() && self.sent_packets[at].packet_number == n {
            proof {
                assert(s[at as int] == self.sent_packets@[at as int]@);
                lemma_rank_is(s, n + 1, at + 1);
            }
            self.sent_packets.set(at, packet);
            assert(self@.sent =~= with_packet(s, p));
        } else {
            proof {
                assert forall|j: int| at <= j < s.len() implies (#[trigger] s[j]).packet_number >= n
                    + 1 by {
                    assert(s[at as int] == self.sent_packets@[at as int]@);
                }
                lemma_rank_is(s, n + 1, at as int);
            }
            self.sent_packets.insert(at, packet);
            assert(self@.sent =~= with_packet(s, p));
        }
    }

    /// Takes the packets from `start` to `end` out, and appends them to `acked`
    pub fn on_range_acked(&mut self, start: u64, end: u64, acked: &mut Vec<SentPacket>)
        requires
            old(self)@.wf(),
            start <= end,
        ensures
            final(self)@ == old(self)@.acked(start, end),
            final(self)@.wf(),
            packet_views(final(acked)@) == packet_views(old(acked)@) + in_range(
                old(self)@.sent,
                start,
                end,
            ),
    {
        let ghost v = self@;
        let ghost s = self@.sent;
        let ghost before = packet_views(acked@);
        let at: usize = self.position(start);
        let ghost a = rank(s, start as int);
        let ghost b = rank(s, end + 1);
        let ghost mut k: int = a;
        proof {
            lemma_acked(v, start, end);
            lemma_rest_counted(s, a, b, k);
            assert(self@.sent =~= s.take(a) + s.skip(k));
            assert(packet_views(acked@) =~= before + s.subrange(a, k));
        }
        while at < self.sent_packets.len() && self.sent_packets[at].packet_number <= end
            invariant
                v.wf(),
                s == v.sent,
                at == a,
                a == rank(s, start as int),
                b == rank(s, end + 1),
                0 <= a <= k <= b <= s.len(),
                self@.sent == s.take(a) + s.skip(k),
                packet_views(acked@) == before + s.subrange(a, k),
                self@.largest_acked == v.largest_acked,
                self@.last_ack_eliciting_sent == v.last_ack_eliciting_sent,
                self@.bytes_in_flight == v.bytes_in_flight - total_size(s.subrange(a, k)),
                self@.ack_eliciting_in_flight == v.ack_eliciting_in_flight - eliciting(
                    s.subrange(a, k),
                ),
                total_size(s.subrange(a, b)) <= v.bytes_in_flight,
                eliciting(s.subrange(a, b)) <= v.ack_eliciting_in_flight,
            decreases s.len() - k,
        {
            let ghost before_packets = self.sent_packets@;
            let ghost before_acked = acked@;
            proof {
                assert(self@.sent[at as int] == s[k]);
                assert(before_packets[at as int]@ == s[k]);
                lemma_rank(s, end + 1);
                assert(k < b);
                lemma_step_counted(s, a, b, k);
            }
            let packet: SentPacket = self.sent_packets.remove(at);
            if packet.ack_eliciting {
                self.ack_eliciting_in_flight = self.ack_eliciting_in_flight.saturating_sub(1);
            }
            self.bytes_in_flight = self.bytes_in_flight.saturating_sub(packet.size);
            acked.push(packet);
            proof {
                assert(packet_views(acked@) =~= packet_views(before_acked).push(s[k]));
                assert(before + s.subrange(a, k + 1) =~= (before + s.subrange(a, k)).push(s[k]));
                assert(self@.sent =~= s.take(a) + s.skip(k + 1)) by {
                    assert(packet_views(self.sent_packets@) =~= packet_views(before_packets).remove(
                        at as int,
                    ));
                }
                k = k + 1;
            }
        }
        proof {
            assert(k == b) by {
                lemma_rank(s, end + 1);
                if k < b {
                    assert(self@.sent[at as int] == s[k]);
                    assert(self.sent_packets@[at as int]@ == s[k]);
                }
            }
            assert(self@ =~= v.acked(start, end));
        }
    }

    /// The frames of lost packets that are sent again
    pub fn frames_to_resend(&self, criteria: &LossCriteria) -> (r: Result<Vec<Frame>, Error>)
        ensures
            ({
                let frames = resend_all(criteria.lost_of(self@.sent));
                &&& frames.len() <= MAX_LOST_FRAMES ==> r is Ok && views(r->Ok_0@) == frames
                &&& frames.len() > MAX_LOST_FRAMES ==> r == Err::<Vec<Frame>, Error>(
                    Error::Internal(Reason::Text("Too many lost frames")),
                )
            }),
    {
        let ghost s = self@.sent;
        let mut lost_frames: Vec<Frame> = Vec::new();
        let mut i: usize = 0;
        proof {
            assert(s.take(0) =~= Seq::<SentView>::empty());
            assert(views(lost_frames@) =~= Seq::<FrameView>::empty());
        }
        while i < self.sent_packets.len()
            invariant
                s == self@.sent,
                i <= s.len(),
                views(lost_frames@) == resend_all(criteria.lost_of(s.take(i as int))),
                lost_frames@.len() <= MAX_LOST_FRAMES,
            decreases s.len() - i,
        {
            let packet: &SentPacket = &self.sent_packets[i];
            proof {
                assert(s[i as int] == packet@);
                assert(s.take(i + 1).drop_last() =~= s.take(i as int));
                assert(s.take(i + 1).last() == packet@);
                lemma_resend_prefix(*criteria, s, i + 1);
            }
            if criteria.is_lost(packet) {
                let ghost v = packet@.frames;
                let ghost before = resend_all(criteria.lost_of(s.take(i as int)));
                proof {
                    let l = criteria.lost_of(s.take(i as int));
                    assert(l.push(packet@).drop_last() =~= l);
                    assert(resend_all(criteria.lost_of(s.take(i + 1))) == before + to_resend(v));
                    assert(v.take(0) =~= Seq::<FrameView>::empty());
                    assert(before + to_resend(v.take(0)) =~= before);
                }
                let mut j: usize = 0;
                while j < packet.frames.len()
                    invariant
                        v == packet@.frames,
                        j <= v.len(),
                        views(lost_frames@) == before + to_resend(v.take(j as int)),
                        lost_frames@.len() <= MAX_LOST_FRAMES,
                        (before + to_resend(v)).len() <= resend_all(criteria.lost_of(s)).len(),
                        s == self@.sent,
                    decreases v.len() - j,
                {
                    proof {
                        assert(v[j as int] == packet.frames@[j as int]@);
                        assert(v.take(j + 1).drop_last() =~= v.take(j as int));
                        assert(v.take(j + 1).last() == v[j as int]);
                        lemma_to_resend_prefix(v, j + 1);
                    }
                    if should_retransmit_frame(&packet.frames[j]) {
                        if lost_frames.len() >= MAX_LOST_FRAMES {
                            assert(lost_frames@.len() == views(lost_frames@).len());
                            return Err(Error::Internal(Reason::Text("Too many lost frames")));
                        }
                        let ghost had = lost_frames@;
                        lost_frames.push(packet.frames[j].clone());
                        assert(views(lost_frames@) =~= views(had).push(v[j as int]));
                    }
                    assert(views(lost_frames@) =~= before + to_resend(v.take(j + 1)));
                    j += 1;
                }
                assert(v.take(j as int) =~= v);
            }
            i += 1;
        }
        assert(s.take(i as int) =~= s);
        assert(lost_frames@.len() == views(lost_frames@).len());
        Ok(lost_frames)
    }

    /// Takes the lost packets out, and returns their sizes
    pub fn remove_lost(&mut self, criteria: &LossCriteria) -> (r: Vec<usize>)
        requires
            old(self)@.wf(),
        ensures
            final(self)@ == old(self)@.after_loss(*criteria),
            final(self)@.wf(),
            r@ == sizes(criteria.lost_of(old(self)@.sent)),
    {
        let ghost v = self@;
        let ghost s = self@.sent;
        let ghost c = *criteria;
        let mut removed: Vec<usize> = Vec::new();
        let mut i: usize = 0;
        let ghost mut k: int = 0;
        proof {
            loss_splits_packets(c, s);
            lemma_without(v, c.lost_of(s), c.kept_of(s));
            assert(s.take(0) =~= Seq::<SentView>::empty());
            assert(self@.sent =~= c.kept_of(s.take(0)) + s.skip(0));
            assert(removed@ =~= sizes(c.lost_of(s.take(0))));
        }
        while i < self.sent_packets.len()
            invariant
                v.wf(),
                s == v.sent,
                c == *criteria,
                0 <= k <= s.len(),
                i == c.kept_of(s.take(k)).len(),
                self@.sent == c.kept_of(s.take(k)) + s.skip(k),
                removed@ == sizes(c.lost_of(s.take(k))),
                self@.largest_acked == v.largest_acked,
                self@.last_ack_eliciting_sent == v.last_ack_eliciting_sent,
                self@.bytes_in_flight == v.bytes_in_flight - total_size(c.lost_of(s.take(k))),
                self@.ack_eliciting_in_flight == v.ack_eliciting_in_flight - eliciting(
                    c.lost_of(s.take(k)),
                ),
            decreases s.len() - k,
        {
            let ghost before_packets = self.sent_packets@;
            let ghost kept = c.kept_of(s.take(k));
            let ghost lost = c.lost_of(s.take(k));
            proof {
                assert(self@.sent[i as int] == s[k]);
                assert(before_packets[i as int]@ == s[k]);
                assert(s.take(k + 1).drop_last() =~= s.take(k));
                assert(s.take(k + 1).last() == s[k]);
                lemma_sums_push(lost, s[k]);
                lemma_lost_counted(c, s, k + 1);
            }
            if criteria.is_lost(&self.sent_packets[i]) {
                let packet: SentPacket = self.sent_packets.remove(i);
                if packet.ack_eliciting {
                    self.ack_eliciting_in_flight = self.ack_eliciting_in_flight.saturating_sub(1);
                }
                self.bytes_in_flight = self.bytes_in_flight.saturating_sub(packet.size);
                removed.push(packet.size);
                proof {
                    assert(removed@ =~= sizes(lost.push(s[k])));
                    assert(self@.sent =~= kept + s.skip(k + 1)) by {
                        assert(packet_views(self.sent_packets@) =~= packet_views(
                            before_packets,
                        ).remove(i as int));
                    }
                }
            } else {
                i += 1;
                assert(self@.sent =~= kept.push(s[k]) + s.skip(k + 1));
            }
            proof {
                k = k + 1;
            }
        }
        proof {
            assert(k == s.len());
            assert(s.take(k) =~= s);
            assert(self@.sent =~= c.kept_of(s));
        }
        removed
    }

    /// The earliest time at which a packet is lost
    pub fn earliest_loss_time(&self, loss_delay: Duration) -> (r: Option<Instant>)
        ensures
            ({
                let t = match self@.largest_acked {
                    Some(n) => earliest_loss(self@.sent, n, loss_delay.nanos as int),
                    None => None,
                };
                match t {
                    Some(n) => r is Some && r->Some_0.nanos == n,
                    None => r is None,
                }
            }),
    {
        let largest_acked: u64 = match self.largest_acked {
            Some(n) => n,
            None => {
                return None;
            },
        };
        let ghost s = self@.sent;
        let mut earliest: Option<Instant> = None;
        let mut i: usize = 0;
        assert(s.take(0) =~= Seq::<SentView>::empty());
        while i < self.sent_packets.len()
            invariant
                s == self@.sent,
                i <= s.len(),
                match earliest_loss(s.take(i as int), largest_acked, loss_delay.nanos as int) {
                    Some(n) => earliest is Some && earliest->Some_0.nanos == n,
                    None => earliest is None,
                },
            decreases s.len() - i,
        {
            let packet: &SentPacket = &self.sent_packets[i];
            proof {
                assert(s[i as int] == packet@);
                assert(s.take(i + 1).drop_last() =~= s.take(i as int));
                assert(s.take(i + 1).last() == packet@);
            }
            if packet.packet_number <= largest_acked {
                let loss_time: Instant = packet.sent_time.saturating_add(loss_delay);
                earliest = match earliest {
                    None => Some(loss_time),
                    Some(t) => if t.nanos <= loss_time.nanos {
                        Some(t)
                    } else {
                        Some(loss_time)
                    },
                };
            }
            i += 1;
        }
        assert(s.take(i as int) =~= s);
        earliest
    }
}

/// The sizes of packets.
pub open spec fn sizes(s: Seq<SentView>) -> Seq<usize> {
    Seq::new(s.len(), |i: int| s[i].size)
}

/// What an acknowledgment takes out is counted, and the rest stays in order.
pub proof fn lemma_acked(v: SpaceView, start: u64, end: u64)
    requires
        v.wf(),
        start <= end,
    ensures
        0 <= rank(v.sent, start as int) <= rank(v.sent, end + 1) <= v.sent.len(),
        v.acked(start, end).wf(),
        total_size(in_range(v.sent, start, end)) <= v.bytes_in_flight,
        eliciting(in_range(v.sent, start, end)) <= v.ack_eliciting_in_flight,
{
    lemma_rank_grows(v.sent, start as int, end + 1);
    acked_packets_leave(v.sent, start, end);
    lemma_without(v, in_range(v.sent, start, end), out_of_range(v.sent, start, end));
}

/// What was taken out so far is counted.
proof fn lemma_rest_counted(s: Seq<SentView>, a: int, b: int, k: int)
    requires
        0 <= a <= k <= b <= s.len(),
    ensures
        total_size(s.subrange(a, k)) <= total_size(s.subrange(a, b)),
        eliciting(s.subrange(a, k)) <= eliciting(s.subrange(a, b)),
        a == k ==> total_size(s.subrange(a, k)) == 0 && eliciting(s.subrange(a, k)) == 0,
{
    lemma_sums_join(s.subrange(a, k), s.subrange(k, b));
    assert(s.subrange(a, k) + s.subrange(k, b) =~= s.subrange(a, b));
    lemma_sums_positive(s.subrange(k, b));
    if a == k {
        assert(s.subrange(a, k) =~= Seq::<SentView>::empty());
    }
}

/// One more packet is counted.
proof fn lemma_step_counted(s: Seq<SentView>, a: int, b: int, k: int)
    requires
        0 <= a <= k < b <= s.len(),
    ensures
        s.subrange(a, k + 1) == s.subrange(a, k).push(s[k]),
        total_size(s.subrange(a, k + 1)) == total_size(s.subrange(a, k)) + s[k].size,
        eliciting(s.subrange(a, k + 1)) == eliciting(s.subrange(a, k)) + if s[k].ack_eliciting {
            1int
        } else {
            0
        },
        total_size(s.subrange(a, k + 1)) <= total_size(s.subrange(a, b)),
        eliciting(s.subrange(a, k + 1)) <= eliciting(s.subrange(a, b)),
{
    assert(s.subrange(a, k + 1) =~= s.subrange(a, k).push(s[k]));
    lemma_sums_push(s.subrange(a, k), s[k]);
    lemma_rest_counted(s, a, b, k + 1);
}

/// What was lost among the first packets is counted.
proof fn lemma_lost_counted(c: LossCriteria, s: Seq<SentView>, n: int)
    requires
        ordered(s),
        0 <= n <= s.len(),
    ensures
        total_size(c.lost_of(s.take(n))) <= total_size(s),
        eliciting(c.lost_of(s.take(n))) <= eliciting(s),
{
    let t = s.take(n);
    assert forall|i: int, j: int| 0 <= i < j < t.len() implies (#[trigger] t[i]).packet_number < (
    #[trigger] t[j]).packet_number by {
        assert(t[i] == s[i] && t[j] == s[j]);
    }
    loss_splits_packets(c, t);
    lemma_sums_positive(c.kept_of(t));
    assert(s =~= t + s.skip(n));
    lemma_sums_join(t, s.skip(n));
    lemma_sums_positive(s.skip(n));
}

} // verus!
