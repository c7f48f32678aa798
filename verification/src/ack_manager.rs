//! ACK frame generation (RFC 9000 Section 13.2).

use crate::frame_types::{AckRange, EcnCounts, Frame, FrameView};
use crate::recovery::PacketNumberSpace;
use crate::time::{max_int, min_int, Duration, Instant};
use vstd::prelude::*;

verus! {

/// Maximum number of ACK ranges to include in a single ACK frame
pub const MAX_ACK_RANGES: usize = 32;

/// Maximum delay before sending an ACK, in nanoseconds
pub const MAX_ACK_DELAY_NANOS: u64 = 25_000_000;

/// Number of ack-eliciting packets received before sending immediate ACK
pub const ACK_ELICITING_THRESHOLD: u32 = 2;

/// ACK manager for a single packet number space
#[derive(Debug)]
pub struct AckManager {
    /// Packet number space this manager handles
    pub pn_space: PacketNumberSpace,
    /// Received packet numbers, each once, in increasing order
    pub received_packets: Vec<u64>,
    /// Largest packet number received
    pub largest_received: Option<u64>,
    /// Time when largest packet was received
    pub largest_received_time: Option<Instant>,
    /// Number of ack-eliciting packets received since last ACK sent
    pub ack_eliciting_count: u32,
    /// Time when first ack-eliciting packet was received since last ACK
    pub first_ack_eliciting_time: Option<Instant>,
    /// Whether we need to send an ACK frame
    pub needs_ack: bool,
    /// ACK delay exponent from transport parameters
    pub ack_delay_exponent: u8,
    /// Minimum number of received packets before sending ACK
    pub min_received_before_ack: u32,
    /// ECN counts for received packets
    pub ecn_counts: EcnCounts,
}

/// Whether the numbers grow from each to the next.
pub open spec fn increasing(p: Seq<u64>) -> bool {
    forall|i: int, j: int| 0 <= i < j < p.len() ==> p[i] < p[j]
}

/// Whether the numbers fall from each to the next.
pub open spec fn decreasing(d: Seq<u64>) -> bool {
    forall|i: int, j: int| 0 <= i < j < d.len() ==> d[i] > d[j]
}

/// A run of consecutive packet numbers, from `start` up to `end`.
pub struct Run {
    pub start: u64,
    pub end: u64,
}

/// The runs of consecutive numbers in a falling sequence, largest first.
pub open spec fn runs(d: Seq<u64>) -> Seq<Run>
    decreases d.len(),
{
    if d.len() == 0 {
        Seq::empty()
    } else {
        let r = runs(d.drop_last());
        let x = d.last();
        if r.len() > 0 && x == r.last().start - 1 {
            r.update(r.len() - 1, Run { start: x, end: r.last().end })
        } else {
            r.push(Run { start: x, end: x })
        }
    }
}

/// Length of the first ACK range: the run of the largest packet number.
pub open spec fn first_range(r: Seq<Run>) -> u64 {
    if r.len() == 0 {
        0
    } else {
        (r[0].end - r[0].start) as u64
    }
}

/// The additional ACK ranges, one for each further run up to the limit. The gap of a
/// range counts the numbers missing between it and the run below it; that of the last
/// range counts those between the first range and the second run.
pub open spec fn further_ranges(r: Seq<Run>, largest: u64) -> Seq<AckRange> {
    Seq::new(
        min_int(max_int(r.len() - 1, 0), MAX_ACK_RANGES as int) as nat,
        |j: int|
            AckRange {
                gap: (if j + 2 < r.len() {
                    r[j + 1].start - r[j + 2].end - 1
                } else {
                    largest - first_range(r) - r[1].end - 1
                }) as u64,
                ack_range_length: (r[j + 1].end - r[j + 1].start) as u64,
            },
    )
}

/// The runs of a falling sequence lie apart from each other, and reach from its first
/// number down to its last.
pub proof fn lemma_runs_shape(d: Seq<u64>)
    requires
        decreasing(d),
        d.len() > 0,
    ensures
        runs(d).len() > 0,
        runs(d)[0].end == d[0],
        runs(d).last().start == d.last(),
        forall|j: int| 0 <= j < runs(d).len() ==> (#[trigger] runs(d)[j]).start <= runs(d)[j].end,
        forall|j: int, k: int|
            0 <= j < k < runs(d).len() ==> (#[trigger] runs(d)[j]).start > (
            #[trigger] runs(d)[k]).end + 1,
    decreases d.len(),
{
    let e = d.drop_last();
    if e.len() > 0 {
        assert(decreasing(e)) by {
            assert forall|i: int, j: int| 0 <= i < j < e.len() implies e[i] > e[j] by {
                assert(d[i] > d[j]);
            }
        }
        lemma_runs_shape(e);
        assert(e.last() == d[d.len() - 2]);
        assert(d[d.len() - 2] > d[d.len() - 1]);
        let r = runs(e);
        let x = d.last();
        let q = runs(d);
        if x == r.last().start - 1 {
            assert(q =~= r.update(r.len() - 1, Run { start: x, end: r.last().end }));
        } else {
            assert(q =~= r.push(Run { start: x, end: x }));
        }
        assert forall|j: int, k: int| 0 <= j < k < q.len() implies (#[trigger] q[j]).start > (
        #[trigger] q[k]).end + 1 by {
            if j < r.len() && k < r.len() {
                assert(r[j].start > r[k].end + 1);
            }
            if k == q.len() - 1 && q.len() > r.len() && j < r.len() - 1 {
                assert(r[j].start > r[r.len() - 1].end + 1);
                assert(r[r.len() - 1].start <= r[r.len() - 1].end);
            }
        }
        assert forall|j: int| 0 <= j < q.len() implies (#[trigger] q[j]).start <= q[j].end by {
            if j < r.len() {
                assert(r[j].start <= r[j].end);
            }
        }
    } else {
        assert(runs(e) =~= Seq::<Run>::empty());
        assert(runs(d) =~= seq![Run { start: d[0], end: d[0] }]);
    }
}

/// The runs cover exactly the numbers of the sequence: what an ACK frame is built from
/// names every received packet, and no other.
pub proof fn runs_cover_received(d: Seq<u64>, x: u64)
    requires
        decreasing(d),
    ensures
        d.contains(x) <==> exists|j: int|
            0 <= j < runs(d).len() && (#[trigger] runs(d)[j]).start <= x <= runs(d)[j].end,
    decreases d.len(),
{
    if d.len() > 0 {
        let e = d.drop_last();
        let r = runs(e);
        let q = runs(d);
        let y = d.last();
        assert(decreasing(e)) by {
            assert forall|i: int, j: int| 0 <= i < j < e.len() implies e[i] > e[j] by {
                assert(d[i] > d[j]);
            }
        }
        runs_cover_received(e, x);
        if e.len() > 0 {
            lemma_runs_shape(e);
        }
        assert(d.contains(x) <==> e.contains(x) || x == y) by {
            if d.contains(x) {
                let i = choose|i: int| 0 <= i < d.len() && d[i] == x;
                if i < e.len() {
                    assert(e[i] == x);
                }
            }
            if e.contains(x) {
                let i = choose|i: int| 0 <= i < e.len() && e[i] == x;
                assert(d[i] == x);
            }
            if x == y {
                assert(d[d.len() - 1] == x);
            }
        }
        if r.len() > 0 && y == r.last().start - 1 {
            assert(q =~= r.update(r.len() - 1, Run { start: y, end: r.last().end }));
            if e.contains(x) || x == y {
                if x == y {
                    assert(q[q.len() - 1].start <= x <= q[q.len() - 1].end);
                } else {
                    let j = choose|j: int|
                        0 <= j < r.len() && (#[trigger] r[j]).start <= x <= r[j].end;
                    assert(q[j].start <= x <= q[j].end);
                }
            }
            if exists|j: int| 0 <= j < q.len() && (#[trigger] q[j]).start <= x <= q[j].end {
                let j = choose|j: int| 0 <= j < q.len() && (#[trigger] q[j]).start <= x <= q[j].end;
                if x != y {
                    assert(r[j].start <= x <= r[j].end);
                }
            }
        } else {
            assert(q =~= r.push(Run { start: y, end: y }));
            if e.contains(x) || x == y {
                if x == y {
                    assert(q[q.len() - 1].start <= x <= q[q.len() - 1].end);
                } else {
                    let j = choose|j: int|
                        0 <= j < r.len() && (#[trigger] r[j]).start <= x <= r[j].end;
                    assert(q[j].start <= x <= q[j].end);
                }
            }
            if exists|j: int| 0 <= j < q.len() && (#[trigger] q[j]).start <= x <= q[j].end {
                let j = choose|j: int| 0 <= j < q.len() && (#[trigger] q[j]).start <= x <= q[j].end;
                if x != y {
                    assert(r[j].start <= x <= r[j].end);
                }
            }
        }
    } else {
        assert(runs(d) =~= Seq::<Run>::empty());
    }
}

/// Going on down the sequence changes only the start of the last run so far.
proof fn lemma_runs_stable(d: Seq<u64>, i: int)
    requires
        decreasing(d),
        0 < i <= d.len(),
    ensures
        ({
            let r = runs(d.take(i));
            let q = runs(d);
            &&& 0 < r.len() <= q.len()
            &&& forall|j: int| 0 <= j < r.len() - 1 ==> #[trigger] q[j] == r[j]
            &&& q[r.len() - 1].end == r[r.len() - 1].end
        }),
    decreases d.len() - i,
{
    let r = runs(d.take(i));
    assert(decreasing(d.take(i))) by {
        assert forall|a: int, b: int| 0 <= a < b < i implies d.take(i)[a] > d.take(i)[b] by {
            assert(d[a] > d[b]);
        }
    }
    lemma_runs_shape(d.take(i));
    if i < d.len() {
        lemma_runs_stable(d, i + 1);
        assert(d.take(i + 1).drop_last() =~= d.take(i));
        let m = runs(d.take(i + 1));
        assert(m[r.len() - 1].end == r[r.len() - 1].end);
        assert forall|j: int| 0 <= j < r.len() - 1 implies #[trigger] runs(d)[j] == r[j] by {
            assert(m[j] == r[j]);
        }
    } else {
        assert(d.take(i) =~= d);
    }
}

impl AckManager {
    /// What holds of every ACK manager.
    pub open spec fn wf(self) -> bool {
        &&& increasing(self.received_packets@)
        &&& self.largest_received is Some <==> self.largest_received_time is Some
        &&& self.received_packets@.len() > 0 ==> self.largest_received is Some
            && self.received_packets@.last() <= self.largest_received->Some_0
        &&& self.ack_delay_exponent < 64
    }

    /// The received packet numbers, largest first.
    pub open spec fn falling(self) -> Seq<u64> {
        self.received_packets@.reverse()
    }

    /// The received packet numbers up to `largest`, largest first.
    pub open spec fn falling_from(self, largest: u64) -> Seq<u64> {
        self.received_packets@.filter(|n: u64| n <= largest).reverse()
    }

    /// What taking a packet in makes of a manager.
    pub open spec fn has_received(
        self,
        before: AckManager,
        packet_number: u64,
        ack_eliciting: bool,
        receive_time: Instant,
    ) -> bool {
        let newest = before.largest_received matches Some(n) ==> packet_number > n;
        let count = before.ack_eliciting_count + if ack_eliciting {
            1int
        } else {
            0
        };
        &&& self.received_packets@.to_set() == before.received_packets@.to_set().insert(
            packet_number,
        )
        &&& self == (AckManager {
            received_packets: self.received_packets,
            largest_received: if newest {
                Some(packet_number)
            } else {
                before.largest_received
            },
            largest_received_time: if newest {
                Some(receive_time)
            } else {
                before.largest_received_time
            },
            ack_eliciting_count: count as u32,
            first_ack_eliciting_time: if ack_eliciting && before.first_ack_eliciting_time is None {
                Some(receive_time)
            } else {
                before.first_ack_eliciting_time
            },
            needs_ack: before.needs_ack || (ack_eliciting && count
                >= before.min_received_before_ack) || before.pn_space
                != PacketNumberSpace::ApplicationData,
            ..before
        })
    }

    /// Whether an acknowledgment is due: at once, or because a packet waits for it too long.
    pub open spec fn wants_ack(self, now: Instant) -> bool {
        self.needs_ack || (self.first_ack_eliciting_time matches Some(t) && now.nanos - t.nanos
            >= MAX_ACK_DELAY_NANOS)
    }

    /// The ACK frame that reports what was received.
    pub open spec fn ack_frame(self, now: Instant) -> Option<FrameView> {
        match self.largest_received {
            None => None,
            Some(largest) => {
                let q = runs(self.falling());
                let waited = max_int(now.nanos - self.largest_received_time->Some_0.nanos, 0);
                Some(
                    FrameView::Ack {
                        largest_acknowledged: largest,
                        ack_delay: (Duration { nanos: waited as u128 }.micros() as u64)
                            >> self.ack_delay_exponent,
                        ack_range_count: further_ranges(q, largest).len() as u64,
                        first_ack_range: first_range(q),
                        ack_ranges: further_ranges(q, largest),
                        ecn_counts: self.reported_ecn(),
                    },
                )
            },
        }
    }

    /// What forgetting the numbers that lie `threshold` or more below the largest makes of a
    /// manager.
    pub open spec fn has_dropped(self, before: AckManager, threshold: u64) -> bool {
        &&& self == (AckManager { received_packets: self.received_packets, ..before })
        &&& match before.largest_received {
            Some(largest) => forall|x: u64| #[trigger]
                self.received_packets@.contains(x) <==> before.received_packets@.contains(x) && x
                    > max_int(largest - threshold, 0),
            None => self.received_packets@ == before.received_packets@,
        }
    }

    /// What counting the ECN marks of a packet makes of a manager.
    pub open spec fn has_counted(self, before: AckManager, ect0: bool, ect1: bool, ce: bool)
        -> bool {
        &&& self == (AckManager { ecn_counts: self.ecn_counts, ..before })
        &&& self.ecn_counts.ect0 == before.ecn_counts.ect0 + (if ect0 {
            1int
        } else {
            0
        })
        &&& self.ecn_counts.ect1 == before.ecn_counts.ect1 + (if ect1 {
            1int
        } else {
            0
        })
        &&& self.ecn_counts.ecn_ce == before.ecn_counts.ecn_ce + (if ce {
            1int
        } else {
            0
        })
    }

    /// A manager to which nothing has happened.
    pub open spec fn is_fresh(self, pn_space: PacketNumberSpace) -> bool {
        &&& self.pn_space == pn_space
        &&& self.received_packets@ == Seq::<u64>::empty()
        &&& self.largest_received is None
        &&& self.largest_received_time is None
        &&& self.ack_eliciting_count == 0
        &&& self.first_ack_eliciting_time is None
        &&& !self.needs_ack
        &&& self.ack_delay_exponent == 3
        &&& self.min_received_before_ack == ACK_ELICITING_THRESHOLD
        &&& self.ecn_counts == (EcnCounts { ect0: 0, ect1: 0, ecn_ce: 0 })
    }

    /// What reporting makes of a manager: nothing is due any more.
    pub open spec fn has_reported(self, before: AckManager) -> bool {
        self == (if before.largest_received is None {
            before
        } else {
            AckManager {
                needs_ack: false,
                ack_eliciting_count: 0,
                first_ack_eliciting_time: None,
                ..before
            }
        })
    }

    /// Create a new ACK manager for a packet number space
    pub fn new(pn_space: PacketNumberSpace) -> (r: AckManager)
        ensures
            r.wf(),
            r.is_fresh(pn_space),
    {
        AckManager {
            pn_space,
            received_packets: Vec::new(),
            largest_received: None,
            largest_received_time: None,
            ack_eliciting_count: 0,
            first_ack_eliciting_time: None,
            needs_ack: false,
            ack_delay_exponent: 3,
            min_received_before_ack: ACK_ELICITING_THRESHOLD,
            ecn_counts: EcnCounts { ect0: 0, ect1: 0, ecn_ce: 0 },
        }
    }

    /// Adds a packet number to those received
    fn insert_packet(packets: &mut Vec<u64>, packet_number: u64)
        requires
            increasing(old(packets)@),
        ensures
            increasing(final(packets)@),
            final(packets)@.to_set() == old(packets)@.to_set().insert(packet_number),
            final(packets)@.len() > 0,
            final(packets)@.last() == (if old(packets)@.len() > 0 && old(packets)@.last()
                > packet_number {
                old(packets)@.last()
            } else {
                packet_number
            }),
    {
        let ghost p = packets@;
        let mut i: usize = packets.len();
        while i > 0 && packets[i - 1] > packet_number
            invariant
                i <= p.len(),
                packets@ == p,
                increasing(p),
                forall|j: int| i <= j < p.len() ==> p[j] > packet_number,
            decreases i,
        {
            i -= 1;
        }
        if i > 0 && packets[i - 1] == packet_number {
            proof {
                assert(p.contains(packet_number));
                assert(p.to_set().insert(packet_number) =~= p.to_set());
                if i < p.len() {
                    assert(p.last() > packet_number);
                } else {
                    assert(p.last() == packet_number);
                }
            }
        } else {
            packets.insert(i, packet_number);
            proof {
                let q = packets@;
                assert(q =~= p.insert(i as int, packet_number));
                assert forall|x: u64| #[trigger] q.to_set().contains(x) <==> p.to_set().insert(
                    packet_number,
                ).contains(x) by {
                    if q.contains(x) {
                        let k = choose|k: int| 0 <= k < q.len() && q[k] == x;
                        if k < i {
                            assert(p[k] == x);
                        } else if k > i {
                            assert(p[k - 1] == x);
                        }
                    }
                    if p.contains(x) {
                        let k = choose|k: int| 0 <= k < p.len() && p[k] == x;
                        if k < i {
                            assert(q[k] == x);
                        } else {
                            assert(q[k + 1] == x);
                        }
                    }
                    if x == packet_number {
                        assert(q[i as int] == x);
                    }
                }
                assert(q.to_set() =~= p.to_set().insert(packet_number));
                assert forall|a: int, b: int| 0 <= a < b < q.len() implies q[a] < q[b] by {
                    if a < i && b == i {
                        assert(p[a] <= p[i - 1]);
                    }
                }
                if i < p.len() {
                    assert(p.last() > packet_number);
                    assert(q.last() == p.last());
                } else {
                    assert(q.last() == packet_number);
                    if p.len() > 0 {
                        assert(p.last() == p[i - 1]);
                    }
                }
            }
        }
    }

    /// Record a received packet
    pub fn on_packet_received(
        &mut self,
        packet_number: u64,
        ack_eliciting: bool,
        receive_time: Instant,
    )
        requires
            old(self).wf(),
            ack_eliciting ==> old(self).ack_eliciting_count < u32::MAX,
        ensures
            final(self).wf(),
            final(self).has_received(*old(self), packet_number, ack_eliciting, receive_time),
    {
        let mut packets: Vec<u64> = Vec::new();
        packets.append(&mut self.received_packets);
        proof {
            assert(packets@ =~= old(self).received_packets@);
        }
        let newest: bool = match self.largest_received {
            Some(largest) => packet_number > largest,
            None => true,
        };
        Self::insert_packet(&mut packets, packet_number);
        if newest {
            self.largest_received = Some(packet_number);
            self.largest_received_time = Some(receive_time);
        }
        self.received_packets = packets;
        if ack_eliciting {
            self.ack_eliciting_count += 1;
            if self.first_ack_eliciting_time.is_none() {
                self.first_ack_eliciting_time = Some(receive_time);
            }
            if self.ack_eliciting_count >= self.min_received_before_ack {
                self.needs_ack = true;
            }
        }
        if matches!(self.pn_space, PacketNumberSpace::Initial | PacketNumberSpace::Handshake) {
            self.needs_ack = true;
        }
    }

    /// Check if an ACK should be sent based on timing
    pub fn should_send_ack(&self, now: Instant) -> (r: bool)
        ensures
            r == self.wants_ack(now),
    {
        if self.needs_ack {
            return true;
        }
        if let Some(first_time) = self.first_ack_eliciting_time {
            let elapsed: Duration = now.duration_since(first_time);
            if elapsed.nanos >= MAX_ACK_DELAY_NANOS as u128 {
                return true;
            }
        }
        false
    }

    /// How many of the received packet numbers lie within `largest_acked`
    fn count_up_to(&self, largest_acked: u64) -> (r: usize)
        requires
            self.wf(),
        ensures
            r <= self.received_packets@.len(),
            self.received_packets@.take(r as int).reverse() == self.falling_from(largest_acked),
    {
        let mut n: usize = self.received_packets.len();
        while n > 0 && self.received_packets[n - 1] > largest_acked
            invariant
                n <= self.received_packets@.len(),
                forall|i: int|
                    n <= i < self.received_packets@.len() ==> #[trigger] self.received_packets@[i]
                        > largest_acked,
            decreases n,
        {
            n -= 1;
        }
        proof {
            let p = self.received_packets@;
            assert forall|i: int| 0 <= i < n implies #[trigger] p[i] <= largest_acked by {
                assert(i < n - 1 ==> p[i] < p[n - 1]);
            }
            lemma_filter_prefix(p, largest_acked, n as int);
        }
        n
    }

    /// Generate ACK ranges from received packets: those with numbers up to `largest_acked`
    #[verifier::rlimit(60)]
    pub fn generate_ack_ranges(&self, largest_acked: u64) -> (r: (u64, Vec<AckRange>))
        requires
            self.wf(),
        ensures
            r.0 == first_range(runs(self.falling_from(largest_acked))),
            r.1@ == further_ranges(runs(self.falling_from(largest_acked)), largest_acked),
    {
        let mut ranges: Vec<AckRange> = Vec::new();
        let n: usize = self.count_up_to(largest_acked);
        let ghost d = self.falling_from(largest_acked);
        proof {
            assert(d =~= self.received_packets@.take(n as int).reverse());
            assert forall|i: int, j: int| 0 <= i < j < d.len() implies d[i] > d[j] by {
                assert(self.received_packets@[d.len() - 1 - j] < self.received_packets@[d.len() - 1
                    - i]);
            }
            lemma_falling_from(*self, largest_acked);
        }
        if n == 0 {
            assert(runs(d) =~= Seq::<Run>::empty());
            assert(ranges@ =~= further_ranges(runs(d), largest_acked));
            return (0, ranges);
        }
        let largest: u64 = self.received_packets[n - 1];
        let mut current_start: u64 = largest;
        let mut current_end: u64 = largest;
        let mut first_ack_range: u64 = 0;
        let mut second_end: u64 = 0;
        let mut is_first_range: bool = true;
        let mut i: usize = 1;
        proof {
            assert(d.take(1) =~= seq![largest]);
            assert(d.take(1).drop_last() =~= Seq::<u64>::empty());
            assert(runs(Seq::<u64>::empty()) =~= Seq::<Run>::empty());
            assert(runs(d.take(1)) =~= seq![Run { start: largest, end: largest }]);
        }
        while i < n && ranges.len() < MAX_ACK_RANGES
            invariant
                1 <= i <= n,
                n <= self.received_packets@.len(),
                d == self.received_packets@.take(n as int).reverse(),
                decreasing(d),
                ranges@.len() <= MAX_ACK_RANGES,
                ({
                    let q = runs(d.take(i as int));
                    &&& q.len() >= 1
                    &&& q.last() == (Run { start: current_start, end: current_end })
                    &&& is_first_range <==> q.len() == 1
                    &&& !is_first_range ==> first_ack_range == q[0].end - q[0].start && second_end
                        == q[1].end
                    &&& ranges@.len() == (if q.len() >= 2 {
                        q.len() - 2
                    } else {
                        0
                    })
                    &&& forall|j: int|
                        0 <= j < ranges@.len() ==> #[trigger] ranges@[j] == (AckRange {
                            gap: (q[j + 1].start - q[j + 2].end - 1) as u64,
                            ack_range_length: (q[j + 1].end - q[j + 1].start) as u64,
                        })
                }),
            decreases n - i,
        {
            let pn: u64 = self.received_packets[n - 1 - i];
            let ghost q = runs(d.take(i as int));
            proof {
                assert(d[i as int] == pn);
                let t = d.take(i as int);
                assert(decreasing(t)) by {
                    assert forall|a: int, b: int| 0 <= a < b < t.len() implies t[a] > t[b] by {
                        assert(d[a] > d[b]);
                    }
                }
                lemma_runs_shape(t);
                assert(t.last() == d[i - 1]);
                assert(d[i - 1] > d[i as int]);
                assert(d.take(i + 1).drop_last() =~= t);
                assert(d.take(i + 1).last() == pn);
            }
            if pn == current_start - 1 {
                current_start = pn;
                proof {
                    let q2 = runs(d.take(i + 1));
                    assert(q2 =~= q.update(q.len() - 1, Run { start: pn, end: current_end }));
                    assert forall|j: int| 0 <= j < ranges@.len() implies #[trigger] ranges@[j] == (
                    AckRange {
                        gap: (q2[j + 1].start - q2[j + 2].end - 1) as u64,
                        ack_range_length: (q2[j + 1].end - q2[j + 1].start) as u64,
                    }) by {
                        assert(q2[j + 1] == q[j + 1]);
                        assert(q2[j + 2].end == q[j + 2].end);
                    }
                }
            } else {
                let range_length: u64 = current_end - current_start;
                if is_first_range {
                    first_ack_range = range_length;
                    second_end = pn;
                    is_first_range = false;
                } else {
                    let gap: u64 = current_start - pn - 1;
                    ranges.push(AckRange { gap, ack_range_length: range_length });
                }
                proof {
                    let q2 = runs(d.take(i + 1));
                    assert(q2 =~= q.push(Run { start: pn, end: pn }));
                    assert forall|j: int| 0 <= j < ranges@.len() implies #[trigger] ranges@[j] == (
                    AckRange {
                        gap: (q2[j + 1].start - q2[j + 2].end - 1) as u64,
                        ack_range_length: (q2[j + 1].end - q2[j + 1].start) as u64,
                    }) by {
                        assert(q2[j + 1] == q[j + 1]);
                    }
                }
                current_start = pn;
                current_end = pn;
            }
            i += 1;
        }
        let ghost q = runs(d.take(i as int));
        proof {
            let t = d.take(i as int);
            assert(decreasing(t)) by {
                assert forall|a: int, b: int| 0 <= a < b < t.len() implies t[a] > t[b] by {
                    assert(d[a] > d[b]);
                }
            }
            lemma_runs_shape(t);
            lemma_runs_shape(d);
            lemma_runs_stable(d, i as int);
            if i == n {
                assert(t =~= d);
            }
        }
        if is_first_range {
            first_ack_range = current_end - current_start;
        } else if ranges.len() < MAX_ACK_RANGES {
            let range_length: u64 = current_end - current_start;
            proof {
                assert(q[0].end == largest);
                assert(d[0] <= largest_acked);
                assert(q[0].start > q[1].end + 1);
            }
            let gap: u64 = (largest_acked - first_ack_range) - second_end - 1;
            ranges.push(AckRange { gap, ack_range_length: range_length });
        }
        proof {
            let f = further_ranges(runs(d), largest_acked);
            assert(ranges@.len() == f.len());
            assert forall|j: int| 0 <= j < f.len() implies ranges@[j] == f[j] by {
                if q.len() < runs(d).len() {
                    assert(runs(d)[j + 1] == q[j + 1]);
                    assert(runs(d)[j + 2].end == q[j + 2].end);
                }
            }
            assert(ranges@ =~= f);
        }
        (first_ack_range, ranges)
    }

    /// Generate an ACK frame
    pub fn generate_ack_frame(&mut self, now: Instant) -> (r: Option<Frame>)
        requires
            old(self).wf(),
        ensures
            final(self).wf(),
            final(self).has_reported(*old(self)),
            match old(self).ack_frame(now) {
                Some(f) => r is Some && r->Some_0@ == f,
                None => r is None,
            },
    {
        let (largest_acked, largest_received_time) = match (
            self.largest_received,
            self.largest_received_time,
        ) {
            (Some(n), Some(t)) => (n, t),
            _ => {
                return None;
            },
        };
        let ack_delay: Duration = now.duration_since(largest_received_time);
        let encoded_ack_delay: u64 = ack_delay.micros_u64() >> self.ack_delay_exponent;
        let (first_ack_range, ack_ranges) = self.generate_ack_ranges(largest_acked);
        proof {
            lemma_all_falling(*self, largest_acked);
        }
        self.needs_ack = false;
        self.ack_eliciting_count = 0;
        self.first_ack_eliciting_time = None;
        let ecn_counts: Option<EcnCounts> = if self.has_ecn_counts() {
            Some(self.ecn_counts)
        } else {
            None
        };
        Some(
            Frame::Ack {
                largest_acknowledged: largest_acked,
                ack_delay: encoded_ack_delay,
                ack_range_count: ack_ranges.len() as u64,
                first_ack_range,
                ack_ranges,
                ecn_counts,
            },
        )
    }

    /// The ECN counts that an ACK frame carries: none as long as all are zero.
    pub open spec fn reported_ecn(self) -> Option<EcnCounts> {
        if self.ecn_counts.ect0 > 0 || self.ecn_counts.ect1 > 0 || self.ecn_counts.ecn_ce > 0 {
            Some(self.ecn_counts)
        } else {
            None
        }
    }

    /// Check if we have ECN counts to report
    fn has_ecn_counts(&self) -> (r: bool)
        ensures
            r == (self.reported_ecn() is Some),
    {
        self.ecn_counts.ect0 > 0 || self.ecn_counts.ect1 > 0 || self.ecn_counts.ecn_ce > 0
    }

    /// Update ECN counts for a received packet
    pub fn update_ecn_counts(&mut self, ect0: bool, ect1: bool, ce: bool)
        requires
            ect0 ==> old(self).ecn_counts.ect0 < u64::MAX,
            ect1 ==> old(self).ecn_counts.ect1 < u64::MAX,
            ce ==> old(self).ecn_counts.ecn_ce < u64::MAX,
        ensures
            final(self).has_counted(*old(self), ect0, ect1, ce),
    {
        if ect0 {
            self.ecn_counts.ect0 += 1;
        }
        if ect1 {
            self.ecn_counts.ect1 += 1;
        }
        if ce {
            self.ecn_counts.ecn_ce += 1;
        }
    }

    /// Clear old packet numbers to limit memory usage
    pub fn cleanup_old_packets(&mut self, threshold: u64)
        requires
            old(self).wf(),
        ensures
            final(self).wf(),
            final(self).has_dropped(*old(self), threshold),
    {
        if let Some(largest) = self.largest_received {
            let bound: u64 = largest.saturating_sub(threshold);
            let ghost p = self.received_packets@;
            let n: usize = self.received_packets.len();
            let mut i: usize = 0;
            while i < n && self.received_packets[i] <= bound
                invariant
                    i <= n == p.len(),
                    self.received_packets@ == p,
                    increasing(p),
                    forall|j: int| 0 <= j < i ==> p[j] <= bound,
                decreases n - i,
            {
                i += 1;
            }
            let kept: Vec<u64> = self.received_packets.split_off(i);
            proof {
                assert(kept@ =~= p.skip(i as int));
                assert forall|x: u64| #[trigger] kept@.contains(x) <==> p.contains(x) && x
                    > bound by {
                    if kept@.contains(x) {
                        let k = choose|k: int| 0 <= k < kept@.len() && kept@[k] == x;
                        assert(p[i + k] == x);
                        assert(p[i as int] <= p[i + k]);
                    }
                    if p.contains(x) && x > bound {
                        let k = choose|k: int| 0 <= k < p.len() && p[k] == x;
                        assert(k >= i);
                        assert(kept@[k - i] == x);
                    }
                }
            }
            self.received_packets = kept;
        }
    }

    /// Get the largest acknowledged packet number
    pub fn largest_acknowledged(&self) -> (r: Option<u64>)
        ensures
            r == self.largest_received,
    {
        self.largest_received
    }

    /// Reset the ACK manager
    pub fn reset(&mut self)
        requires
            old(self).wf(),
        ensures
            final(self).wf(),
            final(self).received_packets@ == Seq::<u64>::empty(),
            *final(self) == (AckManager {
                received_packets: final(self).received_packets,
                largest_received: None,
                largest_received_time: None,
                ack_eliciting_count: 0,
                first_ack_eliciting_time: None,
                needs_ack: false,
                ecn_counts: EcnCounts { ect0: 0, ect1: 0, ecn_ce: 0 },
                ..*old(self)
            }),
    {
        self.received_packets.clear();
        self.largest_received = None;
        self.largest_received_time = None;
        self.ack_eliciting_count = 0;
        self.first_ack_eliciting_time = None;
        self.needs_ack = false;
        self.ecn_counts = EcnCounts { ect0: 0, ect1: 0, ecn_ce: 0 };
    }
}

/// The numbers within a bound are the first ones.
proof fn lemma_filter_prefix(p: Seq<u64>, largest: u64, n: int)
    requires
        0 <= n <= p.len(),
        forall|i: int| 0 <= i < n ==> #[trigger] p[i] <= largest,
        forall|i: int| n <= i < p.len() ==> #[trigger] p[i] > largest,
    ensures
        p.filter(|x: u64| x <= largest) == p.take(n),
    decreases p.len(),
{
    reveal(Seq::filter);
    if p.len() > 0 {
        let s = p.drop_last();
        if n == p.len() {
            lemma_filter_prefix(s, largest, n - 1);
            assert(s.take(n - 1).push(p.last()) =~= p.take(n));
        } else {
            lemma_filter_prefix(s, largest, n);
            assert(s.take(n) =~= p.take(n));
        }
    } else {
        assert(p.take(n) =~= p);
    }
}

/// The numbers up to a bound are received ones, and fall.
proof fn lemma_falling_from(m: AckManager, largest: u64)
    requires
        m.wf(),
    ensures
        decreasing(m.falling_from(largest)),
        forall|x: u64|
            #![trigger m.falling_from(largest).contains(x)]
            m.falling_from(largest).contains(x) <==> m.received_packets@.contains(x) && x
                <= largest,
    decreases m.received_packets@.len(),
{
    let p = m.received_packets@;
    let n = lemma_prefix_length(p, largest);
    lemma_filter_prefix(p, largest, n);
    let d = m.falling_from(largest);
    let t = p.take(n);
    assert(d =~= t.reverse());
    assert forall|i: int, j: int| 0 <= i < j < d.len() implies d[i] > d[j] by {
        assert(p[d.len() - 1 - j] < p[d.len() - 1 - i]);
    }
    assert forall|x: u64| #[trigger] d.contains(x) <==> p.contains(x) && x <= largest by {
        if d.contains(x) {
            let i = choose|i: int| 0 <= i < d.len() && d[i] == x;
            assert(p[d.len() - 1 - i] == x);
        }
        if p.contains(x) && x <= largest {
            let i = choose|i: int| 0 <= i < p.len() && p[i] == x;
            assert(i < n);
            assert(d[d.len() - 1 - i] == x);
        }
    }
}

/// How many numbers of a growing sequence lie within a bound.
proof fn lemma_prefix_length(p: Seq<u64>, largest: u64) -> (n: int)
    requires
        increasing(p),
    ensures
        0 <= n <= p.len(),
        forall|i: int| 0 <= i < n ==> #[trigger] p[i] <= largest,
        forall|i: int| n <= i < p.len() ==> #[trigger] p[i] > largest,
    decreases p.len(),
{
    if p.len() == 0 {
        0
    } else if p.last() <= largest {
        assert forall|i: int| 0 <= i < p.len() implies #[trigger] p[i] <= largest by {
            assert(i < p.len() - 1 ==> p[i] < p[p.len() - 1]);
        }
        p.len() as int
    } else {
        let s = p.drop_last();
        let n = lemma_prefix_length(s, largest);
        assert forall|i: int| 0 <= i < n implies #[trigger] p[i] <= largest by {
            assert(s[i] <= largest);
        }
        assert forall|i: int| n <= i < p.len() implies #[trigger] p[i] > largest by {
            assert(i < p.len() - 1 ==> s[i] > largest);
        }
        n
    }
}

/// All the received numbers lie within the largest.
proof fn lemma_all_falling(m: AckManager, largest: u64)
    requires
        m.wf(),
        m.largest_received == Some(largest),
    ensures
        m.falling_from(largest) == m.falling(),
{
    let p = m.received_packets@;
    assert forall|i: int| 0 <= i < p.len() implies #[trigger] p[i] <= largest by {
        assert(i < p.len() - 1 ==> p[i] < p[p.len() - 1]);
    }
    lemma_filter_prefix(p, largest, p.len() as int);
    assert(p.take(p.len() as int) =~= p);
}

/// `generate_ack_ranges` run-length codes the received numbers up to the bound that it is
/// given: the runs name each of them and nothing else, are longest possible, and are listed
/// from the highest down. The first range is the length of the first run; each further one, up
/// to 32, that of the next. Where nothing was received up to the bound, there is no run.
pub proof fn ack_ranges_list_runs(m: AckManager, largest_acked: u64)
    requires
        m.wf(),
    ensures
        ({
            let q = runs(m.falling_from(largest_acked));
            let first = first_range(q);
            let ranges = further_ranges(q, largest_acked);
            &&& forall|j: int|
                0 <= j < q.len() ==> (#[trigger] q[j]).start <= q[j].end <= largest_acked
            &&& forall|j: int, k: int|
                0 <= j < k < q.len() ==> (#[trigger] q[j]).start > (#[trigger] q[k]).end + 1
            &&& forall|x: u64| #[trigger]
                m.received_packets@.contains(x) && x <= largest_acked <==> exists|j: int|
                    0 <= j < q.len() && (#[trigger] q[j]).start <= x <= q[j].end
            &&& q.len() == 0 ==> first == 0
            &&& q.len() > 0 ==> first == q[0].end - q[0].start
            &&& ranges.len() == min_int(max_int(q.len() - 1, 0), MAX_ACK_RANGES as int)
            &&& forall|i: int|
                0 <= i < ranges.len() ==> (#[trigger] ranges[i]).ack_range_length == q[i + 1].end
                    - q[i + 1].start
        }),
{
    let d = m.falling_from(largest_acked);
    let p = m.received_packets@;
    let q = runs(d);
    lemma_falling_from(m, largest_acked);
    if d.len() > 0 {
        lemma_runs_shape(d);
    }
    assert forall|x: u64| #[trigger] p.contains(x) && x <= largest_acked <==> exists|j: int|
        0 <= j < q.len() && (#[trigger] q[j]).start <= x <= q[j].end by {
        runs_cover_received(d, x);
        assert(d.contains(x) <==> p.contains(x) && x <= largest_acked);
    }
    assert forall|j: int| 0 <= j < q.len() implies (#[trigger] q[j]).start <= q[j].end
        <= largest_acked by {
        let x = q[j].end;
        runs_cover_received(d, x);
        assert(d.contains(x));
    }
}

/// As long as the largest packet number is still tracked, the first range of an ACK
/// frame names received packets only, and stops where one is missing.
pub proof fn ack_first_range_received(m: AckManager, x: u64)
    requires
        m.wf(),
        m.largest_received matches Some(n) && m.received_packets@.contains(n),
    ensures
        ({
            let largest = m.largest_received->Some_0;
            let first = first_range(runs(m.falling()));
            &&& largest - first <= x <= largest ==> m.received_packets@.contains(x)
            &&& x == largest - first - 1 ==> !m.received_packets@.contains(x)
        }),
{
    let d = m.falling();
    let p = m.received_packets@;
    assert forall|i: int, j: int| 0 <= i < j < d.len() implies d[i] > d[j] by {
        assert(p[d.len() - 1 - j] < p[d.len() - 1 - i]);
    }
    lemma_runs_shape(d);
    assert(d[0] == p.last());
    assert(m.largest_received == Some(p.last())) by {
        let n = m.largest_received->Some_0;
        let i = choose|i: int| 0 <= i < p.len() && p[i] == n;
        assert(p[i] <= p[p.len() - 1]);
    }
    runs_cover_received(d, x);
    assert(d.contains(x) == p.contains(x)) by {
        if d.contains(x) {
            let i = choose|i: int| 0 <= i < d.len() && d[i] == x;
            assert(p[d.len() - 1 - i] == x);
        }
        if p.contains(x) {
            let i = choose|i: int| 0 <= i < p.len() && p[i] == x;
            assert(d[d.len() - 1 - i] == x);
        }
    }
    let q = runs(d);
    if q[0].start <= x <= q[0].end {
        assert(d.contains(x));
    }
    if x == q[0].start - 1 {
        assert forall|j: int| 0 <= j < q.len() implies !((#[trigger] q[j]).start <= x
            <= q[j].end) by {
            if j > 0 {
                assert(q[0].start > q[j].end + 1);
            }
        }
    }
}

/// An ACK frame is built from the maximal runs of consecutive received numbers, highest
/// first: as long as the largest packet number is still tracked, the runs name every received
/// packet and no other, lie apart from each other, and give the lengths of the first range and
/// of up to 32 further ones.
pub proof fn ack_frame_lists_runs(m: AckManager, now: Instant)
    requires
        m.wf(),
        m.largest_received matches Some(n) && m.received_packets@.contains(n),
    ensures
        ({
            let q = runs(m.falling());
            &&& q.len() > 0
            &&& q[0].end == m.largest_received->Some_0
            &&& forall|j: int| 0 <= j < q.len() ==> (#[trigger] q[j]).start <= q[j].end
            &&& forall|j: int, k: int|
                0 <= j < k < q.len() ==> (#[trigger] q[j]).start > (#[trigger] q[k]).end + 1
            &&& forall|x: u64| #[trigger]
                m.received_packets@.contains(x) <==> exists|j: int|
                    0 <= j < q.len() && (#[trigger] q[j]).start <= x <= q[j].end
            &&& m.ack_frame(now) matches Some(
                FrameView::Ack {
                    largest_acknowledged,
                    ack_range_count,
                    first_ack_range,
                    ack_ranges,
                    ..
                },
            ) && {
                &&& largest_acknowledged == q[0].end
                &&& first_ack_range == q[0].end - q[0].start
                &&& ack_ranges.len() == min_int(q.len() - 1, MAX_ACK_RANGES as int)
                &&& ack_range_count == ack_ranges.len()
                &&& forall|i: int|
                    0 <= i < ack_ranges.len() ==> (#[trigger] ack_ranges[i]).ack_range_length
                        == q[i + 1].end - q[i + 1].start
            }
        }),
{
    let d = m.falling();
    let p = m.received_packets@;
    let q = runs(d);
    assert forall|i: int, j: int| 0 <= i < j < d.len() implies d[i] > d[j] by {
        assert(p[d.len() - 1 - j] < p[d.len() - 1 - i]);
    }
    lemma_runs_shape(d);
    assert(d[0] == p.last());
    assert(m.largest_received == Some(p.last())) by {
        let n = m.largest_received->Some_0;
        let i = choose|i: int| 0 <= i < p.len() && p[i] == n;
        assert(p[i] <= p[p.len() - 1]);
    }
    assert forall|x: u64| #[trigger] p.contains(x) <==> exists|j: int|
        0 <= j < q.len() && (#[trigger] q[j]).start <= x <= q[j].end by {
        runs_cover_received(d, x);
        if d.contains(x) {
            let i = choose|i: int| 0 <= i < d.len() && d[i] == x;
            assert(p[d.len() - 1 - i] == x);
        }
        if p.contains(x) {
            let i = choose|i: int| 0 <= i < p.len() && p[i] == x;
            assert(d[d.len() - 1 - i] == x);
        }
    }
}

/// A call that is made on an ACK manager.
pub enum AckCall {
    Received { packet_number: u64, ack_eliciting: bool, receive_time: Instant },
    Reported,
    Dropped { threshold: u64 },
    Counted { ect0: bool, ect1: bool, ce: bool },
}

impl AckCall {
    /// What the call makes of a manager.
    pub open spec fn leads(self, before: AckManager, after: AckManager) -> bool {
        match self {
            AckCall::Received { packet_number, ack_eliciting, receive_time } => after.has_received(
                before,
                packet_number,
                ack_eliciting,
                receive_time,
            ),
            AckCall::Reported => after.has_reported(before),
            AckCall::Dropped { threshold } => after.has_dropped(before, threshold),
            AckCall::Counted { ect0, ect1, ce } => after.has_counted(before, ect0, ect1, ce),
        }
    }

    /// The packet number that the call takes in.
    pub open spec fn number(self) -> Option<u64> {
        match self {
            AckCall::Received { packet_number, .. } => Some(packet_number),
            _ => None,
        }
    }
}

/// Whatever calls are made on a new manager, the largest acknowledged number is the maximum of
/// the numbers received: there is none before the first, and a late or repeated smaller number
/// never lowers it.
pub proof fn largest_is_maximum(states: Seq<AckManager>, calls: Seq<AckCall>)
    requires
        states.len() == calls.len() + 1,
        states[0].largest_received is None,
        forall|i: int|
            0 <= i < calls.len() ==> (#[trigger] calls[i]).leads(states[i], states[i + 1]),
    ensures
        states.last().largest_received is None <==> forall|i: int|
            0 <= i < calls.len() ==> (#[trigger] calls[i]).number() is None,
        states.last().largest_received matches Some(n) ==> exists|i: int|
            0 <= i < calls.len() && (#[trigger] calls[i]).number() == Some(n),
        forall|i: int|
            0 <= i < calls.len() && (#[trigger] calls[i]).number() is Some ==> (
            states.last().largest_received matches Some(n) && calls[i].number()->Some_0 <= n),
    decreases calls.len(),
{
    if calls.len() > 0 {
        let k = calls.len() - 1;
        let before = states.drop_last();
        let earlier = calls.drop_last();
        assert forall|i: int| 0 <= i < earlier.len() implies (#[trigger] earlier[i]).leads(
            before[i],
            before[i + 1],
        ) by {
            assert(calls[i].leads(states[i], states[i + 1]));
        }
        largest_is_maximum(before, earlier);
        assert(calls[k].leads(states[k], states[k + 1]));
        assert(before.last() == states[k]);
        assert forall|i: int| 0 <= i < calls.len() && (#[trigger] calls[i]).number() is Some implies (
        states.last().largest_received matches Some(n) && calls[i].number()->Some_0 <= n) by {
            if i < k {
                assert(earlier[i].number() is Some);
            }
        }
        if let Some(n) = states.last().largest_received {
            if states[k].largest_received == Some(n) {
                let i = choose|i: int|
                    0 <= i < earlier.len() && (#[trigger] earlier[i]).number() == Some(n);
                assert(calls[i].number() == Some(n));
            } else {
                assert(calls[k].number() == Some(n));
            }
        } else {
            assert forall|i: int| 0 <= i < calls.len() implies (
            #[trigger] calls[i]).number() is None by {
                if i < k {
                    assert(earlier[i].number() is None);
                }
            }
        }
    }
}

} // verus!
