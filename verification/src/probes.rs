//! Frames for probe packets (RFC 9002 Section 6.2.4), taken from packets in flight.

use crate::frame_types::{Frame, FrameView};
use crate::payload::views;
use crate::recovery::PacketNumberSpace;
use crate::sent_packets::{PacketNumberSpaceData, SentPacket, SentView};
use vstd::prelude::*;

verus! {

/// Kinds of frames that a probe packet carries again.
#[derive(Debug, Clone, Copy, PartialEq, Eq, Structural)]
pub enum ProbeKind {
    /// Handshake data
    Crypto,
    /// Stream data
    StreamData,
    /// Flow control
    FlowControl,
}

impl ProbeKind {
    /// Whether a frame is of this kind.
    pub open spec fn fits(self, f: FrameView) -> bool {
        match self {
            ProbeKind::Crypto => f is Crypto,
            ProbeKind::StreamData => f matches FrameView::Stream { data, .. } && data.len() > 0,
            ProbeKind::FlowControl => f is MaxData || f is MaxStreamData || f is MaxStreams || f
                is DataBlocked || f is StreamDataBlocked || f is StreamsBlocked,
        }
    }

    /// Check if a frame is of this kind
    pub fn matches_frame(self, frame: &Frame) -> (r: bool)
        ensures
            r == self.fits(frame@),
    {
        match self {
            ProbeKind::Crypto => matches!(frame, Frame::Crypto { .. }),
            ProbeKind::StreamData => match frame {
                Frame::Stream { data, .. } => data.len() > 0,
                _ => false,
            },
            ProbeKind::FlowControl => matches!(
                frame,
                Frame::MaxData { .. }
                | Frame::MaxStreamData { .. }
                | Frame::MaxStreams { .. }
                | Frame::DataBlocked { .. }
                | Frame::StreamDataBlocked { .. }
                | Frame::StreamsBlocked { .. }
            ),
        }
    }
}

/// The first frame of a kind.
pub open spec fn first_of(v: Seq<FrameView>, kind: ProbeKind) -> Option<FrameView>
    decreases v.len(),
{
    if v.len() == 0 {
        None
    } else if kind.fits(v[0]) {
        Some(v[0])
    } else {
        first_of(v.skip(1), kind)
    }
}

/// The first frame of a kind in the newest packet that has one.
pub open spec fn newest_of(s: Seq<SentView>, kind: ProbeKind) -> Option<FrameView>
    decreases s.len(),
{
    if s.len() == 0 {
        None
    } else {
        match first_of(s.last().frames, kind) {
            Some(f) => Some(f),
            None => newest_of(s.drop_last(), kind),
        }
    }
}

/// Finds the first frame of a kind
fn find_in_packet(frames: &Vec<Frame>, kind: ProbeKind) -> (r: Option<Frame>)
    ensures
        match first_of(views(frames@), kind) {
            Some(f) => r is Some && r->Some_0@ == f,
            None => r is None,
        },
{
    let ghost v = views(frames@);
    let mut i: usize = 0;
    assert(v.skip(0) =~= v);
    while i < frames.len()
        invariant
            v == views(frames@),
            i <= v.len(),
            first_of(v.skip(i as int), kind) == first_of(v, kind),
        decreases v.len() - i,
    {
        assert(v.skip(i as int)[0] == frames@[i as int]@);
        assert(v.skip(i as int).skip(1) =~= v.skip(i + 1));
        if kind.matches_frame(&frames[i]) {
            return Some(frames[i].clone());
        }
        i += 1;
    }
    None
}

/// Find a frame of a kind suitable for retransmission, in the most recent packet
pub fn find_frame_to_retransmit(space: &PacketNumberSpaceData, kind: ProbeKind) -> (r: Option<Frame>)
    ensures
        match newest_of(space@.sent, kind) {
            Some(f) => r is Some && r->Some_0@ == f,
            None => r is None,
        },
{
    let ghost s = space@.sent;
    let mut i: usize = space.sent_packets.len();
    assert(s.take(i as int) =~= s);
    while i > 0
        invariant
            s == space@.sent,
            i <= s.len(),
            newest_of(s.take(i as int), kind) == newest_of(s, kind),
        decreases i,
    {
        i -= 1;
        proof {
            assert(s.take(i + 1).drop_last() =~= s.take(i as int));
            assert(s.take(i + 1).last() == space.sent_packets@[i as int]@);
        }
        if let Some(frame) = find_in_packet(&space.sent_packets[i].frames, kind) {
            return Some(frame);
        }
    }
    None
}

/// What was found among STREAM frames: the streams that were seen, and the frames to resend.
pub struct StreamScan {
    pub seen: Set<u64>,
    pub frames: Seq<FrameView>,
}

impl StreamScan {
    /// After one more frame. Of each stream the first frame with data counts; it is sent again
    /// where it ends the stream or holds more than 100 bytes.
    pub open spec fn after_frame(self, f: FrameView) -> StreamScan {
        match f {
            FrameView::Stream { stream_id, data, fin, .. } => if data.len() > 0
                && !self.seen.contains(stream_id) {
                StreamScan {
                    seen: self.seen.insert(stream_id),
                    frames: if fin || data.len() > 100 {
                        self.frames.push(f)
                    } else {
                        self.frames
                    },
                }
            } else {
                self
            },
            _ => self,
        }
    }

    /// After the frames of a packet.
    pub open spec fn after_packet(self, v: Seq<FrameView>) -> StreamScan
        decreases v.len(),
    {
        if v.len() == 0 {
            self
        } else {
            self.after_packet(v.drop_last()).after_frame(v.last())
        }
    }

    /// After packets, newest first, until five frames were found.
    pub open spec fn after_packets(self, s: Seq<SentView>) -> StreamScan
        decreases s.len(),
    {
        if s.len() == 0 {
            self
        } else {
            let next = self.after_packet(s.last().frames);
            if next.frames.len() >= 5 {
                next
            } else {
                next.after_packets(s.drop_last())
            }
        }
    }
}

/// The STREAM frames of packets that a probe carries again.
pub open spec fn stream_probes(s: Seq<SentView>) -> Seq<FrameView> {
    (StreamScan { seen: Set::empty(), frames: Seq::empty() }).after_packets(s).frames
}

/// Check if a stream was seen
fn was_seen(seen: &Vec<u64>, stream_id: u64) -> (r: bool)
    ensures
        r == seen@.to_set().contains(stream_id),
{
    let mut i: usize = 0;
    while i < seen.len()
        invariant
            i <= seen@.len(),
            forall|j: int| 0 <= j < i ==> seen@[j] != stream_id,
        decreases seen@.len() - i,
    {
        if seen[i] == stream_id {
            return true;
        }
        i += 1;
    }
    false
}

/// Looks through the frames of a packet
fn scan_packet(packet: &SentPacket, seen: &mut Vec<u64>, found: &mut Vec<Frame>)
    ensures
        ({
            let before = StreamScan { seen: old(seen)@.to_set(), frames: views(old(found)@) };
            let after = before.after_packet(packet@.frames);
            final(seen)@.to_set() == after.seen && views(final(found)@) == after.frames
        }),
{
    let ghost before = StreamScan { seen: seen@.to_set(), frames: views(found@) };
    let ghost v = packet@.frames;
    let mut i: usize = 0;
    assert(v.take(0) =~= Seq::<FrameView>::empty());
    while i < packet.frames.len()
        invariant
            v == packet@.frames,
            i <= v.len(),
            seen@.to_set() == before.after_packet(v.take(i as int)).seen,
            views(found@) == before.after_packet(v.take(i as int)).frames,
        decreases v.len() - i,
    {
        let frame: &Frame = &packet.frames[i];
        proof {
            assert(v[i as int] == frame@);
            assert(v.take(i + 1).drop_last() =~= v.take(i as int));
            assert(v.take(i + 1).last() == frame@);
        }
        if let Frame::Stream { stream_id, data, fin, .. } = frame {
            let id: u64 = stream_id.into_inner();
            if data.len() > 0 && !was_seen(seen, id) {
                let ghost had = seen@;
                seen.push(id);
                assert(seen@.to_set() =~= had.to_set().insert(id)) by {
                    assert forall|x: u64| seen@.to_set().contains(x) == had.to_set().insert(
                        id,
                    ).contains(x) by {
                        if had.contains(x) {
                            let k = choose|k: int| 0 <= k < had.len() && had[k] == x;
                            assert(seen@[k] == x);
                        }
                        assert(seen@[had.len() as int] == id);
                    }
                }
                if *fin || data.len() > 100 {
                    let ghost old_found = found@;
                    found.push(frame.clone());
                    assert(views(found@) =~= views(old_found).push(frame@));
                }
            }
        }
        i += 1;
    }
    assert(v.take(i as int) =~= v);
}

/// Find multiple STREAM frames suitable for retransmission: at most one of each stream
pub fn find_stream_frames_to_retransmit(space: &PacketNumberSpaceData) -> (r: Vec<Frame>)
    ensures
        views(r@) == stream_probes(space@.sent),
{
    let ghost s = space@.sent;
    let ghost start = StreamScan { seen: Set::empty(), frames: Seq::empty() };
    let mut stream_frames: Vec<Frame> = Vec::new();
    let mut seen_streams: Vec<u64> = Vec::new();
    let mut i: usize = space.sent_packets.len();
    proof {
        assert(s.take(i as int) =~= s);
        assert(seen_streams@.to_set() =~= Set::<u64>::empty());
        assert(views(stream_frames@) =~= Seq::<FrameView>::empty());
    }
    while i > 0
        invariant
            s == space@.sent,
            i <= s.len(),
            (StreamScan {
                seen: seen_streams@.to_set(),
                frames: views(stream_frames@),
            }).after_packets(s.take(i as int)).frames == stream_probes(s),
        decreases i,
    {
        i -= 1;
        proof {
            assert(s.take(i + 1).drop_last() =~= s.take(i as int));
            assert(s.take(i + 1).last() == space.sent_packets@[i as int]@);
        }
        scan_packet(&space.sent_packets[i], &mut seen_streams, &mut stream_frames);
        if stream_frames.len() >= 5 {
            assert(views(stream_frames@).len() == stream_frames@.len());
            return stream_frames;
        }
        assert(views(stream_frames@).len() == stream_frames@.len());
    }
    stream_frames
}

/// The frames of a probe packet for a space: handshake data and a PING during the handshake,
/// a PING, stream data and flow control after it.
pub open spec fn probe_frames(s: Seq<SentView>, space: PacketNumberSpace) -> Seq<FrameView> {
    match space {
        PacketNumberSpace::Initial | PacketNumberSpace::Handshake => match newest_of(
            s,
            ProbeKind::Crypto,
        ) {
            Some(f) => seq![f, FrameView::Ping],
            None => seq![FrameView::Ping],
        },
        PacketNumberSpace::ApplicationData => seq![FrameView::Ping] + stream_probes(s) + (
        match newest_of(s, ProbeKind::FlowControl) {
            Some(f) => seq![f],
            None => Seq::empty(),
        }),
    }
}

/// Create probe frames for a specific packet number space
pub fn create_probe_frames(data: &PacketNumberSpaceData, space: PacketNumberSpace) -> (r: Vec<
    Frame,
>)
    ensures
        views(r@) == probe_frames(data@.sent, space),
{
    let mut frames: Vec<Frame> = Vec::new();
    match space {
        PacketNumberSpace::Initial | PacketNumberSpace::Handshake => {
            if let Some(crypto_frame) = find_frame_to_retransmit(data, ProbeKind::Crypto) {
                frames.push(crypto_frame);
            }
            frames.push(Frame::Ping);
        },
        PacketNumberSpace::ApplicationData => {
            frames.push(Frame::Ping);
            let mut stream_frames: Vec<Frame> = find_stream_frames_to_retransmit(data);
            frames.append(&mut stream_frames);
            if let Some(frame) = find_frame_to_retransmit(data, ProbeKind::FlowControl) {
                frames.push(frame);
            }
        },
    }
    assert(views(frames@) =~= probe_frames(data@.sent, space));
    frames
}

/// A probe packet always asks for an acknowledgment.
pub proof fn probe_elicits_ack(s: Seq<SentView>, space: PacketNumberSpace)
    ensures
        probe_frames(s, space).len() > 0,
        crate::retransmission::any_elicits(probe_frames(s, space)),
{
    let p = probe_frames(s, space);
    match space {
        PacketNumberSpace::Initial | PacketNumberSpace::Handshake => {
            assert(crate::retransmission::elicits_ack(p[p.len() - 1]));
        },
        PacketNumberSpace::ApplicationData => {
            assert(crate::retransmission::elicits_ack(p[0]));
        },
    }
}

} // verus!
