//! Laws of probes: which frames go out again when the timer runs out.

use crate::frame_types::FrameView;
use crate::probes::{first_of, newest_of, probe_frames, stream_probes, ProbeKind, StreamScan};
use crate::recovery::PacketNumberSpace;
use crate::sent_packets::SentView;
use vstd::prelude::*;

verus! {

/// Whether a frame is about limits: a raised one, or one that blocks.
pub open spec fn about_limits(f: FrameView) -> bool {
    match f {
        FrameView::MaxData { .. }
        | FrameView::MaxStreamData { .. }
        | FrameView::MaxStreams { .. }
        | FrameView::DataBlocked { .. }
        | FrameView::StreamDataBlocked { .. }
        | FrameView::StreamsBlocked { .. } => true,
        _ => false,
    }
}

/// The first frame of a packet that fits.
proof fn lemma_first_of(v: Seq<FrameView>, kind: ProbeKind)
    ensures
        first_of(v, kind) matches Some(f) ==> exists|j: int|
            0 <= j < v.len() && #[trigger] v[j] == f && kind.fits(f) && forall|k: int|
                0 <= k < j ==> !kind.fits(#[trigger] v[k]),
        first_of(v, kind) is None ==> forall|j: int|
            0 <= j < v.len() ==> !kind.fits(#[trigger] v[j]),
    decreases v.len(),
{
    if v.len() > 0 {
        if kind.fits(v[0]) {
            assert(v[0] == first_of(v, kind)->Some_0);
        } else {
            let t = v.skip(1);
            lemma_first_of(t, kind);
            if first_of(v, kind) is Some {
                let f = first_of(v, kind)->Some_0;
                let j = choose|j: int|
                    0 <= j < t.len() && #[trigger] t[j] == f && kind.fits(f) && forall|k: int|
                        0 <= k < j ==> !kind.fits(#[trigger] t[k]);
                assert(v[j + 1] == f);
                assert forall|k: int| 0 <= k < j + 1 implies !kind.fits(#[trigger] v[k]) by {
                    if k > 0 {
                        assert(v[k] == t[k - 1]);
                    }
                }
            } else {
                assert forall|j: int| 0 <= j < v.len() implies !kind.fits(#[trigger] v[j]) by {
                    if j > 0 {
                        assert(v[j] == t[j - 1]);
                    }
                }
            }
        }
    }
}

/// What is found for a probe fits and comes from the newest packet that holds such a frame; where
/// nothing is found, no packet holds one.
pub proof fn probe_data_is_newest(s: Seq<SentView>, kind: ProbeKind)
    ensures
        newest_of(s, kind) matches Some(f) ==> exists|i: int, j: int|
            0 <= i < s.len() && 0 <= j < s[i].frames.len() && #[trigger] s[i].frames[j] == f
                && kind.fits(f) && forall|k: int, l: int|
                i < k < s.len() && 0 <= l < s[k].frames.len() ==> !kind.fits(
                    #[trigger] s[k].frames[l],
                ),
        newest_of(s, kind) is None ==> forall|i: int, j: int|
            0 <= i < s.len() && 0 <= j < s[i].frames.len() ==> !kind.fits(
                #[trigger] s[i].frames[j],
            ),
    decreases s.len(),
{
    if s.len() > 0 {
        let v = s.last().frames;
        let n = s.len() - 1;
        lemma_first_of(v, kind);
        if first_of(v, kind) is Some {
            let f = first_of(v, kind)->Some_0;
            let j = choose|j: int|
                0 <= j < v.len() && #[trigger] v[j] == f && kind.fits(f) && forall|k: int|
                    0 <= k < j ==> !kind.fits(#[trigger] v[k]);
            assert(s[n].frames[j] == f);
        } else {
            let d = s.drop_last();
            probe_data_is_newest(d, kind);
            if newest_of(s, kind) is Some {
                let f = newest_of(s, kind)->Some_0;
                let (i, j) = choose|i: int, j: int|
                    0 <= i < d.len() && 0 <= j < d[i].frames.len() && #[trigger] d[i].frames[j] == f
                        && kind.fits(f) && forall|k: int, l: int|
                        i < k < d.len() && 0 <= l < d[k].frames.len() ==> !kind.fits(
                            #[trigger] d[k].frames[l],
                        );
                assert(s[i].frames[j] == f);
                assert forall|k: int, l: int|
                    i < k < s.len() && 0 <= l < s[k].frames.len() implies !kind.fits(
                    #[trigger] s[k].frames[l],
                ) by {
                    if k < n {
                        assert(d[k].frames[l] == s[k].frames[l]);
                    } else {
                        assert(v[l] == s[k].frames[l]);
                    }
                }
            } else {
                assert forall|i: int, j: int|
                    0 <= i < s.len() && 0 <= j < s[i].frames.len() implies !kind.fits(
                    #[trigger] s[i].frames[j],
                ) by {
                    if i < n {
                        assert(d[i].frames[j] == s[i].frames[j]);
                    } else {
                        assert(v[j] == s[i].frames[j]);
                    }
                }
            }
        }
    }
}

/// Handshake data is CRYPTO data, stream data is not empty, and flow control is about limits.
pub proof fn kinds_of_probes(f: FrameView)
    ensures
        ProbeKind::Crypto.fits(f) <==> f is Crypto,
        ProbeKind::StreamData.fits(f) <==> f is Stream && f->Stream_data.len() > 0,
        ProbeKind::FlowControl.fits(f) <==> about_limits(f),
{
}

/// Whether a frame is worth a probe: stream data that ends its stream or is longer than a hundred
/// bytes.
pub open spec fn worth_probing(f: FrameView) -> bool {
    f matches FrameView::Stream { data, fin, .. } && data.len() > 0 && (fin || data.len() > 100)
}

/// What a scan has found, and what it has left out, is from streams that it has seen, each once.
spec fn sound(c: StreamScan) -> bool {
    &&& forall|i: int|
        0 <= i < c.frames.len() ==> worth_probing(#[trigger] c.frames[i]) && c.seen.contains(
            c.frames[i]->Stream_stream_id,
        )
    &&& forall|i: int, j: int|
        0 <= i < j < c.frames.len() ==> (#[trigger] c.frames[i])->Stream_stream_id != (
        #[trigger] c.frames[j])->Stream_stream_id
}

/// A packet keeps a scan sound, and what was found stays.
proof fn lemma_scan_packet(c: StreamScan, v: Seq<FrameView>)
    requires
        sound(c),
    ensures
        sound(c.after_packet(v)),
        c.frames.len() <= c.after_packet(v).frames.len(),
        forall|i: int|
            0 <= i < c.frames.len() ==> #[trigger] c.after_packet(v).frames[i] == c.frames[i],
        forall|i: int|
            c.frames.len() <= i < c.after_packet(v).frames.len() ==> v.contains(
                #[trigger] c.after_packet(v).frames[i],
            ),
        forall|id: u64| c.seen.contains(id) ==> #[trigger] c.after_packet(v).seen.contains(id),
    decreases v.len(),
{
    if v.len() > 0 {
        let d = v.drop_last();
        lemma_scan_packet(c, d);
        let a = c.after_packet(d);
        let n = c.after_packet(v);
        assert(n == a.after_frame(v.last()));
        assert forall|i: int| c.frames.len() <= i < n.frames.len() implies v.contains(
            #[trigger] n.frames[i],
        ) by {
            if i < a.frames.len() {
                assert(n.frames[i] == a.frames[i]);
                let k = choose|k: int| 0 <= k < d.len() && d[k] == a.frames[i];
                assert(v[k] == n.frames[i]);
            } else {
                assert(v[v.len() - 1] == n.frames[i]);
            }
        }
        assert forall|i: int| 0 <= i < c.frames.len() implies #[trigger] n.frames[i]
            == c.frames[i] by {
            assert(a.frames[i] == c.frames[i]);
        }
        assert forall|i: int, j: int| 0 <= i < j < n.frames.len() implies (
        #[trigger] n.frames[i])->Stream_stream_id != (#[trigger] n.frames[j])->Stream_stream_id by {
            assert(n.frames[i] == a.frames[i]);
            if j < a.frames.len() {
                assert(n.frames[j] == a.frames[j]);
            }
        }
        assert forall|i: int| 0 <= i < n.frames.len() implies worth_probing(#[trigger] n.frames[i])
            && n.seen.contains(n.frames[i]->Stream_stream_id) by {
            if i < a.frames.len() {
                assert(n.frames[i] == a.frames[i]);
            }
        }
    }
}

/// Packets keep a scan sound; what is added comes from one of them.
proof fn lemma_scan_packets(c: StreamScan, s: Seq<SentView>)
    requires
        sound(c),
    ensures
        sound(c.after_packets(s)),
        c.frames.len() <= c.after_packets(s).frames.len(),
        forall|i: int|
            0 <= i < c.frames.len() ==> #[trigger] c.after_packets(s).frames[i] == c.frames[i],
        forall|i: int|
            c.frames.len() <= i < c.after_packets(s).frames.len() ==> exists|k: int|
                0 <= k < s.len() && (#[trigger] s[k]).frames.contains(
                    #[trigger] c.after_packets(s).frames[i],
                ),
    decreases s.len(),
{
    if s.len() > 0 {
        let next = c.after_packet(s.last().frames);
        lemma_scan_packet(c, s.last().frames);
        let n = c.after_packets(s);
        if next.frames.len() >= 5 {
            assert forall|i: int| c.frames.len() <= i < n.frames.len() implies exists|k: int|
                0 <= k < s.len() && (#[trigger] s[k]).frames.contains(#[trigger] n.frames[i]) by {
                assert(s[s.len() - 1].frames.contains(next.frames[i]));
            }
        } else {
            let d = s.drop_last();
            lemma_scan_packets(next, d);
            assert forall|i: int| 0 <= i < c.frames.len() implies #[trigger] n.frames[i]
                == c.frames[i] by {
                assert(next.frames[i] == c.frames[i]);
                assert(n.frames[i] == next.frames[i]);
            }
            assert forall|i: int| c.frames.len() <= i < n.frames.len() implies exists|k: int|
                0 <= k < s.len() && (#[trigger] s[k]).frames.contains(#[trigger] n.frames[i]) by {
                if i < next.frames.len() {
                    assert(n.frames[i] == next.frames[i]);
                    assert(s[s.len() - 1].frames.contains(n.frames[i]));
                } else {
                    let k = choose|k: int|
                        0 <= k < d.len() && (#[trigger] d[k]).frames.contains(n.frames[i]);
                    assert(s[k].frames.contains(n.frames[i]));
                }
            }
        }
    }
}

/// Stream data is probed once for each stream, with data that was sent and is worth it.
pub proof fn streams_are_probed_once(s: Seq<SentView>)
    ensures
        forall|i: int|
            0 <= i < stream_probes(s).len() ==> worth_probing(#[trigger] stream_probes(s)[i])
                && exists|k: int|
                0 <= k < s.len() && (#[trigger] s[k]).frames.contains(stream_probes(s)[i]),
        forall|i: int, j: int|
            0 <= i < j < stream_probes(s).len() ==> (
            #[trigger] stream_probes(s)[i])->Stream_stream_id != (
            #[trigger] stream_probes(s)[j])->Stream_stream_id,
{
    let c = StreamScan { seen: Set::empty(), frames: Seq::empty() };
    lemma_scan_packets(c, s);
    let p = stream_probes(s);
    assert(p == c.after_packets(s).frames);
    assert forall|i: int| 0 <= i < p.len() implies worth_probing(#[trigger] p[i]) && exists|k: int|
        0 <= k < s.len() && (#[trigger] s[k]).frames.contains(p[i]) by {
        assert(c.after_packets(s).frames[i] == p[i]);
    }
}

/// The newest packet comes first: its first frame with data, where it is worth a probe, is the
/// first probe of a stream.
pub proof fn newest_stream_data_is_probed(s: Seq<SentView>, f: FrameView)
    requires
        s.len() > 0,
        s.last().frames == seq![f],
        worth_probing(f),
    ensures
        stream_probes(s).len() > 0,
        stream_probes(s)[0] == f,
        probe_frames(s, PacketNumberSpace::ApplicationData)[1] == f,
{
    let c = StreamScan { seen: Set::empty(), frames: Seq::empty() };
    let v = s.last().frames;
    assert(v.drop_last() =~= Seq::<FrameView>::empty());
    assert(c.after_packet(v.drop_last()) == c);
    let next = c.after_packet(v);
    assert(next == c.after_frame(f));
    assert(next.frames =~= seq![f]);
    lemma_scan_packet(c, v);
    lemma_scan_packets(next, s.drop_last());
    assert(stream_probes(s)[0] == next.frames[0]);
}

/// Application data is probed with a PING, then stream data, then the newest frame about limits.
pub proof fn application_probes_in_order(s: Seq<SentView>)
    ensures
        ({
            let p = probe_frames(s, PacketNumberSpace::ApplicationData);
            let n = stream_probes(s).len() as int;
            let limits = newest_of(s, ProbeKind::FlowControl);
            &&& p[0] == FrameView::Ping
            &&& p.subrange(1, n + 1) == stream_probes(s)
            &&& limits matches Some(f) ==> p.len() == n + 2 && p.last() == f && about_limits(f)
            &&& limits is None ==> p.len() == n + 1
        }),
{
    let p = probe_frames(s, PacketNumberSpace::ApplicationData);
    let n = stream_probes(s).len() as int;
    assert(p.subrange(1, n + 1) =~= stream_probes(s));
    probe_data_is_newest(s, ProbeKind::FlowControl);
}

} // verus!
