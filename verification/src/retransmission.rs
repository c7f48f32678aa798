//! Which frames are sent again after a loss, and in which order.

use crate::frame_types::{Frame, FrameView};
use crate::payload::views;
use vstd::prelude::*;

verus! {

/// Whether a frame of a lost packet is sent again: ACK and PADDING frames are not, nor are
/// STREAM frames without data and FIN.
pub open spec fn retransmittable(f: FrameView) -> bool {
    match f {
        FrameView::Ack { .. } | FrameView::Padding => false,
        FrameView::Stream { data, fin, .. } => data.len() > 0 || fin,
        _ => true,
    }
}

/// Frame filtering for retransmission eligibility
pub fn should_retransmit_frame(frame: &Frame) -> (r: bool)
    ensures
        r == retransmittable(frame@),
{
    match frame {
        Frame::Ack { .. } | Frame::Padding => false,
        Frame::Stream { data, fin, .. } => data.len() > 0 || *fin,
        _ => true,
    }
}

/// Whether a frame asks for an acknowledgment.
pub open spec fn elicits_ack(f: FrameView) -> bool {
    !(f is Ack || f is Padding || f is ConnectionClose)
}

/// Whether any of the frames asks for an acknowledgment.
pub open spec fn any_elicits(v: Seq<FrameView>) -> bool {
    exists|i: int| 0 <= i < v.len() && #[trigger] elicits_ack(v[i])
}

/// Whether all frames are ACK frames.
pub open spec fn only_acks(v: Seq<FrameView>) -> bool {
    forall|i: int| 0 <= i < v.len() ==> (#[trigger] v[i]) is Ack
}

/// Check if frames are ack-eliciting
pub fn is_ack_eliciting(frames: &Vec<Frame>) -> (r: bool)
    ensures
        r == any_elicits(views(frames@)),
{
    let ghost v = views(frames@);
    let mut i: usize = 0;
    while i < frames.len()
        invariant
            i <= frames@.len(),
            v == views(frames@),
            forall|j: int| 0 <= j < i ==> !#[trigger] elicits_ack(v[j]),
        decreases frames@.len() - i,
    {
        assert(v[i as int] == frames@[i as int]@);
        if !matches!(
            frames[i],
            Frame::Ack { .. } | Frame::Padding | Frame::ConnectionClose { .. }
        ) {
            assert(elicits_ack(v[i as int]));
            return true;
        }
        i += 1;
    }
    false
}

/// Check if all frames are ACK frames
pub fn is_ack_only(frames: &Vec<Frame>) -> (r: bool)
    ensures
        r == only_acks(views(frames@)),
{
    let ghost v = views(frames@);
    let mut i: usize = 0;
    while i < frames.len()
        invariant
            i <= frames@.len(),
            v == views(frames@),
            forall|j: int| 0 <= j < i ==> (#[trigger] v[j]) is Ack,
        decreases frames@.len() - i,
    {
        assert(v[i as int] == frames@[i as int]@);
        if !matches!(frames[i], Frame::Ack { .. }) {
            return false;
        }
        i += 1;
    }
    true
}

/// Priority of a frame for retransmission (higher = more important).
pub open spec fn priority(f: FrameView) -> u8 {
    match f {
        FrameView::Crypto { .. } => 100,
        FrameView::ConnectionClose { .. } => 90,
        FrameView::HandshakeDone => 85,
        FrameView::ResetStream { .. } | FrameView::StopSending { .. } => 80,
        FrameView::Stream { fin, .. } => if fin {
            75
        } else {
            60
        },
        FrameView::MaxData { .. } | FrameView::MaxStreamData { .. } | FrameView::MaxStreams {
            ..
        } => 70,
        FrameView::DataBlocked { .. } | FrameView::StreamDataBlocked { .. }
        | FrameView::StreamsBlocked { .. } => 50,
        FrameView::NewConnectionId { .. } | FrameView::RetireConnectionId { .. } => 40,
        FrameView::PathChallenge { .. } | FrameView::PathResponse { .. } => 30,
        FrameView::NewToken { .. } | FrameView::Ping => 20,
        FrameView::Ack { .. } | FrameView::Padding => 0,
    }
}

/// Get priority score for frame type (higher = more important)
pub fn get_frame_priority(frame: &Frame) -> (r: u8)
    ensures
        r == priority(frame@),
{
    match frame {
        Frame::Crypto { .. } => 100,
        Frame::ConnectionClose { .. } => 90,
        Frame::HandshakeDone => 85,
        Frame::ResetStream { .. } | Frame::StopSending { .. } => 80,
        Frame::Stream { fin, .. } => if *fin {
            75
        } else {
            60
        },
        Frame::MaxData { .. } | Frame::MaxStreamData { .. } | Frame::MaxStreams { .. } => 70,
        Frame::DataBlocked { .. } | Frame::StreamDataBlocked { .. } | Frame::StreamsBlocked {
            ..
        } => 50,
        Frame::NewConnectionId { .. } | Frame::RetireConnectionId { .. } => 40,
        Frame::PathChallenge { .. } | Frame::PathResponse { .. } => 30,
        Frame::NewToken { .. } | Frame::Ping => 20,
        Frame::Ack { .. } | Frame::Padding => 0,
    }
}

/// The priorities, highest first
pub const LEVELS: [u8; 12] = [100, 90, 85, 80, 75, 70, 60, 50, 40, 30, 20, 0];

/// The frames of one priority, in their order.
pub open spec fn at_level(v: Seq<FrameView>, level: u8) -> Seq<FrameView>
    decreases v.len(),
{
    if v.len() == 0 {
        v
    } else if priority(v.last()) == level {
        at_level(v.drop_last(), level).push(v.last())
    } else {
        at_level(v.drop_last(), level)
    }
}

/// The frames of the first `n` priorities, highest first, those of one priority in their
/// order.
pub open spec fn first_levels(v: Seq<FrameView>, n: int) -> Seq<FrameView>
    decreases n,
{
    if n <= 0 {
        Seq::empty()
    } else {
        first_levels(v, n - 1) + at_level(v, LEVELS@[n - 1])
    }
}

/// The frames by priority, highest first, those of one priority in their order.
pub open spec fn prioritized(v: Seq<FrameView>) -> Seq<FrameView> {
    first_levels(v, 12)
}

/// Prioritize frames for retransmission based on importance
pub fn prioritize_frames_for_retransmission(frames: Vec<Frame>) -> (r: Vec<Frame>)
    ensures
        views(r@) == prioritized(views(frames@)),
{
    let ghost v = views(frames@);
    let mut sorted: Vec<Frame> = Vec::new();
    let mut n: usize = 0;
    assert(views(sorted@) =~= first_levels(v, 0));
    while n < 12
        invariant
            n <= 12,
            v == views(frames@),
            views(sorted@) == first_levels(v, n as int),
        decreases 12 - n,
    {
        let level: u8 = LEVELS[n];
        let mut i: usize = 0;
        assert(v.take(0) =~= Seq::<FrameView>::empty());
        assert(first_levels(v, n as int) + at_level(v.take(0), level) =~= first_levels(v, n as int));
        while i < frames.len()
            invariant
                i <= frames@.len(),
                v == views(frames@),
                views(sorted@) == first_levels(v, n as int) + at_level(v.take(i as int), level),
            decreases frames@.len() - i,
        {
            proof {
                assert(v.take(i + 1).drop_last() =~= v.take(i as int));
                assert(v.take(i + 1).last() == frames@[i as int]@);
            }
            if get_frame_priority(&frames[i]) == level {
                let ghost before = sorted@;
                sorted.push(frames[i].clone());
                assert(views(sorted@) =~= views(before).push(v[i as int]));
            }
            assert(views(sorted@) =~= first_levels(v, n as int) + at_level(v.take(i + 1), level));
            i += 1;
        }
        assert(v.take(i as int) =~= v);
        n += 1;
    }
    sorted
}

/// A frame has one of the listed priorities.
proof fn lemma_priority_listed(f: FrameView) -> (k: int)
    ensures
        0 <= k < 12,
        LEVELS@[k] == priority(f),
{
    let p = priority(f);
    if p == 100 {
        0
    } else if p == 90 {
        1
    } else if p == 85 {
        2
    } else if p == 80 {
        3
    } else if p == 75 {
        4
    } else if p == 70 {
        5
    } else if p == 60 {
        6
    } else if p == 50 {
        7
    } else if p == 40 {
        8
    } else if p == 30 {
        9
    } else if p == 20 {
        10
    } else {
        11
    }
}

/// The listed priorities fall.
proof fn lemma_levels_fall(i: int, j: int)
    requires
        0 <= i < j < 12,
    ensures
        LEVELS@[i] > LEVELS@[j],
{
}

/// The frames of one priority all have it.
proof fn lemma_at_level(v: Seq<FrameView>, level: u8)
    ensures
        forall|i: int|
            0 <= i < at_level(v, level).len() ==> priority(#[trigger] at_level(v, level)[i])
                == level,
    decreases v.len(),
{
    if v.len() > 0 {
        lemma_at_level(v.drop_last(), level);
        let w = at_level(v.drop_last(), level);
        let t = at_level(v, level);
        assert forall|i: int| 0 <= i < t.len() implies priority(#[trigger] t[i]) == level by {
            if i < w.len() {
                assert(t[i] == w[i]);
            }
        }
    }
}

/// One more frame comes last among those of its priority.
proof fn lemma_first_levels_push(v: Seq<FrameView>, f: FrameView, n: int, k: int)
    requires
        0 <= n <= 12,
        0 <= k < 12,
        LEVELS@[k] == priority(f),
    ensures
        first_levels(v.push(f), n).to_multiset() == (if k < n {
            first_levels(v, n).to_multiset().insert(f)
        } else {
            first_levels(v, n).to_multiset()
        }),
    decreases n,
{
    broadcast use vstd::seq_lib::group_to_multiset_ensures;

    if n > 0 {
        lemma_first_levels_push(v, f, n - 1, k);
        let level = LEVELS@[n - 1];
        let a = first_levels(v, n - 1);
        let b = first_levels(v.push(f), n - 1);
        let w = at_level(v, level);
        assert(v.push(f).drop_last() =~= v);
        vstd::seq_lib::lemma_multiset_commutative(a, w);
        vstd::seq_lib::lemma_multiset_commutative(b, w);
        if k == n - 1 {
            vstd::seq_lib::lemma_multiset_commutative(b, w.push(f));
            assert(first_levels(v.push(f), n).to_multiset() =~= first_levels(
                v,
                n,
            ).to_multiset().insert(f));
        } else {
            if k < n - 1 {
                lemma_levels_fall(k, n - 1);
            } else {
                lemma_levels_fall(n - 1, k);
            }
            assert(at_level(v.push(f), level) == w);
            if k < n {
                assert(first_levels(v.push(f), n).to_multiset() =~= first_levels(
                    v,
                    n,
                ).to_multiset().insert(f));
            } else {
                assert(first_levels(v.push(f), n).to_multiset() =~= first_levels(
                    v,
                    n,
                ).to_multiset());
            }
        }
    }
}

/// The frames of no frames.
proof fn lemma_first_levels_empty(n: int)
    requires
        0 <= n,
    ensures
        first_levels(Seq::empty(), n) == Seq::<FrameView>::empty(),
    decreases n,
{
    if n > 0 {
        lemma_first_levels_empty(n - 1);
        assert(first_levels(Seq::empty(), n) =~= Seq::<FrameView>::empty());
    }
}

/// The frames of the first priorities fall in priority.
proof fn lemma_first_levels_fall(v: Seq<FrameView>, n: int)
    requires
        0 <= n <= 12,
    ensures
        forall|i: int, j: int|
            0 <= i < j < first_levels(v, n).len() ==> priority(#[trigger] first_levels(v, n)[i])
                >= priority(#[trigger] first_levels(v, n)[j]),
        n > 0 ==> forall|i: int|
            0 <= i < first_levels(v, n).len() ==> priority(#[trigger] first_levels(v, n)[i])
                >= LEVELS@[n - 1],
    decreases n,
{
    if n > 0 {
        lemma_first_levels_fall(v, n - 1);
        let level = LEVELS@[n - 1];
        let a = first_levels(v, n - 1);
        let w = at_level(v, level);
        lemma_at_level(v, level);
        if n > 1 {
            lemma_levels_fall(n - 2, n - 1);
        }
        let t = first_levels(v, n);
        assert forall|i: int| 0 <= i < t.len() implies priority(#[trigger] t[i]) >= level by {
            if i < a.len() {
                assert(t[i] == a[i]);
            } else {
                assert(t[i] == w[i - a.len()]);
            }
        }
        assert forall|i: int, j: int| 0 <= i < j < t.len() implies priority(#[trigger] t[i])
            >= priority(#[trigger] t[j]) by {
            if j < a.len() {
                assert(t[i] == a[i] && t[j] == a[j]);
            } else {
                assert(t[j] == w[j - a.len()]);
            }
        }
    }
}

/// Prioritizing keeps every frame and adds none, and no frame comes before one of higher
/// priority.
pub proof fn prioritizing_reorders(v: Seq<FrameView>)
    ensures
        prioritized(v).to_multiset() == v.to_multiset(),
        forall|i: int, j: int|
            0 <= i < j < prioritized(v).len() ==> priority(#[trigger] prioritized(v)[i]) >= priority(
                #[trigger] prioritized(v)[j],
            ),
    decreases v.len(),
{
    broadcast use vstd::seq_lib::group_to_multiset_ensures;

    lemma_first_levels_fall(v, 12);
    if v.len() == 0 {
        assert(v =~= Seq::<FrameView>::empty());
        lemma_first_levels_empty(12);
    } else {
        let f = v.last();
        assert(v.drop_last().push(f) =~= v);
        let k = lemma_priority_listed(f);
        lemma_first_levels_push(v.drop_last(), f, 12, k);
        prioritizing_reorders(v.drop_last());
    }
}

} // verus!
