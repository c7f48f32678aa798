//! Packet payloads: frames one after the other.

use crate::buffer::{contents, lemma_concat_associative, lemma_skip_first, put_u8, written};
use crate::error::Error;
use crate::frame_types::{
    frame_roundtrip, parse_fields, parse_frame, take2, take3, take_ranges, Frame, FrameView,
};
use crate::varint::take_varint;
use bytes::{Bytes, BytesMut};
use vstd::prelude::*;

verus! {

/// What the frames hold.
pub open spec fn views(frames: Seq<Frame>) -> Seq<FrameView> {
    Seq::new(frames.len(), |i: int| frames[i]@)
}

/// The bytes of frames on the wire.
pub open spec fn frames_bytes(v: Seq<FrameView>) -> Seq<u8>
    decreases v.len(),
{
    if v.len() == 0 {
        Seq::empty()
    } else {
        v[0].bytes() + frames_bytes(v.skip(1))
    }
}

/// Whether every frame can be encoded.
pub open spec fn all_encodable(v: Seq<FrameView>) -> bool {
    forall|i: int| 0 <= i < v.len() ==> (#[trigger] v[i]).encodable()
}

/// `n` zero bytes, each of which is a PADDING frame.
pub open spec fn padding(n: nat) -> Seq<u8> {
    Seq::new(n, |i: int| 0u8)
}

/// Reading numbers leaves no more than there was.
proof fn lemma_take_shorter(s: Seq<u8>)
    ensures
        take_varint(s) matches Some(p) ==> p.1.len() < s.len(),
        take2(s) matches Some(p) ==> p.1.len() < s.len(),
        take3(s) matches Some(p) ==> p.1.len() < s.len(),
{
}

/// Reading ranges leaves no more than there was.
proof fn lemma_take_ranges_shorter(s: Seq<u8>, n: nat)
    ensures
        take_ranges(s, n) matches Some(p) ==> p.1.len() <= s.len(),
    decreases n,
{
    if n > 0 {
        lemma_take_ranges_shorter(s, (n - 1) as nat);
        if let Some(p) = take_ranges(s, (n - 1) as nat) {
            lemma_take_shorter(p.1);
        }
    }
}

/// Reading the fields of a frame leaves no more than there was.
proof fn lemma_parse_fields_shorter(t: u8, s: Seq<u8>)
    ensures
        parse_fields(t, s) matches Some(p) ==> p.1.len() <= s.len(),
{
    lemma_take_shorter(s);
    if t == 0x02 || t == 0x03 {
        if let Some((n, s3)) = take3(s) {
            lemma_take_shorter(s3);
            if let Some((_, s4)) = take_varint(s3) {
                lemma_take_ranges_shorter(s4, n.2 as nat);
                if let Some((_, s5)) = take_ranges(s4, n.2 as nat) {
                    lemma_take_shorter(s5);
                }
            }
        }
    }
}

/// Every frame takes up at least one byte.
pub proof fn parse_frame_makes_progress(s: Seq<u8>)
    ensures
        parse_frame(s) matches Ok(p) ==> p.1.len() < s.len(),
{
    if s.len() > 0 {
        lemma_parse_fields_shorter(s[0], s.skip(1));
    }
}

/// Reads the frames of a payload. A PADDING frame ends the frames, and is among them
/// where `keep_padding` says so; a frame that is cut off ends them too.
pub open spec fn parse_frames(s: Seq<u8>, keep_padding: bool) -> Result<Seq<FrameView>, Error>
    decreases s.len(),
{
    if s.len() == 0 {
        Ok(Seq::empty())
    } else {
        proof {
            parse_frame_makes_progress(s);
        }
        match parse_frame(s) {
            Ok((f, rest)) => if f is Padding {
                Ok(
                    if keep_padding {
                        seq![f]
                    } else {
                        Seq::empty()
                    },
                )
            } else {
                match parse_frames(rest, keep_padding) {
                    Ok(v) => Ok(seq![f] + v),
                    Err(e) => Err(e),
                }
            },
            Err(e) => if e is Incomplete {
                Ok(Seq::empty())
            } else {
                Err(e)
            },
        }
    }
}

/// Decodes the frames of a payload
pub fn decode_frames(payload: &[u8], keep_padding: bool) -> (r: Result<Vec<Frame>, Error>)
    ensures
        match parse_frames(payload@, keep_padding) {
            Ok(v) => r is Ok && views(r->Ok_0@) == v,
            Err(e) => r == Err::<Vec<Frame>, Error>(e),
        },
{
    let mut frames: Vec<Frame> = Vec::new();
    let mut buf: Bytes = Bytes::copy_from_slice(payload);
    let ghost total = parse_frames(payload@, keep_padding);
    proof {
        if total is Ok {
            assert(views(frames@) + total->Ok_0 =~= total->Ok_0);
        }
    }
    while !buf.is_empty()
        invariant
            match parse_frames(contents(buf), keep_padding) {
                Ok(v) => total == Ok::<Seq<FrameView>, Error>(views(frames@) + v),
                Err(e) => total == Err::<Seq<FrameView>, Error>(e),
            },
            total == parse_frames(payload@, keep_padding),
        decreases contents(buf).len(),
    {
        let ghost s = contents(buf);
        let ghost before = frames@;
        proof {
            parse_frame_makes_progress(s);
        }
        match Frame::decode(&mut buf) {
            Ok(frame) => {
                if matches!(frame, Frame::Padding) {
                    if keep_padding {
                        frames.push(frame);
                        assert(views(frames@) =~= views(before) + seq![frame@]);
                    } else {
                        assert(views(before) + Seq::<FrameView>::empty() =~= views(before));
                    }
                    return Ok(frames);
                }
                frames.push(frame);
                proof {
                    if let Ok(v) = parse_frames(contents(buf), keep_padding) {
                        assert(views(frames@) + v =~= views(before) + (seq![frame@] + v));
                    }
                }
            },
            Err(e) => {
                if matches!(e, Error::Incomplete) {
                    assert(views(before) + Seq::<FrameView>::empty() =~= views(before));
                    return Ok(frames);
                }
                return Err(e);
            },
        }
    }
    assert(views(frames@) + Seq::<FrameView>::empty() =~= views(frames@));
    Ok(frames)
}

/// The bytes of frames after one more at the end.
proof fn lemma_frames_bytes_push(v: Seq<FrameView>, f: FrameView)
    ensures
        frames_bytes(v.push(f)) == frames_bytes(v) + f.bytes(),
    decreases v.len(),
{
    if v.len() == 0 {
        assert(v.push(f).skip(1) =~= Seq::<FrameView>::empty());
        assert(v.push(f)[0] == f);
        assert(frames_bytes(Seq::<FrameView>::empty()) =~= Seq::<u8>::empty());
        assert(frames_bytes(v.push(f)) =~= f.bytes());
        assert(frames_bytes(v) + f.bytes() =~= f.bytes());
    } else {
        assert(v.push(f).skip(1) =~= v.skip(1).push(f));
        lemma_frames_bytes_push(v.skip(1), f);
        lemma_concat_associative(v[0].bytes(), frames_bytes(v.skip(1)), f.bytes());
    }
}

/// Appends frames to `buf`
pub fn encode_frames(frames: &Vec<Frame>, buf: &mut BytesMut) -> (r: Result<(), Error>)
    ensures
        all_encodable(views(frames@)) ==> r == Ok::<(), Error>(()) && written(*final(buf))
            == written(*old(buf)) + frames_bytes(views(frames@)),
        !all_encodable(views(frames@)) ==> r == Err::<(), Error>(Error::VarIntRange),
{
    let ghost w = written(*buf);
    let ghost v = views(frames@);
    let mut i: usize = 0;
    assert(w =~= w + frames_bytes(v.take(0)));
    while i < frames.len()
        invariant
            i <= frames@.len(),
            v == views(frames@),
            w == written(*old(buf)),
            written(*buf) == w + frames_bytes(v.take(i as int)),
            forall|j: int| 0 <= j < i ==> (#[trigger] v[j]).encodable(),
        decreases frames@.len() - i,
    {
        assert(v[i as int] == frames@[i as int]@);
        frames[i].encode(buf)?;
        proof {
            assert(v.take(i + 1) =~= v.take(i as int).push(v[i as int]));
            lemma_frames_bytes_push(v.take(i as int), v[i as int]);
            lemma_concat_associative(w, frames_bytes(v.take(i as int)), v[i as int].bytes());
        }
        i += 1;
    }
    assert(v.take(i as int) =~= v);
    Ok(())
}

/// Appends `count` PADDING frames to `buf`
pub fn encode_padding(count: usize, buf: &mut BytesMut)
    ensures
        written(*final(buf)) == written(*old(buf)) + padding(count as nat),
{
    let ghost w = written(*buf);
    let mut i: usize = 0;
    assert(w =~= w + padding(0));
    while i < count
        invariant
            i <= count,
            written(*buf) == w + padding(i as nat),
        decreases count - i,
    {
        put_u8(buf, 0x00);
        assert(written(*buf) =~= w + padding((i + 1) as nat));
        i += 1;
    }
}

/// Whether frames with so much padding behind them can be told apart again. A PADDING frame ends
/// the frames, so it can only be the last of them; a frame that takes up all that follows can
/// only be the last one too, with no padding behind it.
pub open spec fn readable(v: Seq<FrameView>, pad: nat) -> bool {
    forall|i: int|
        0 <= i < v.len() ==> (#[trigger] v[i]).valid() && (v[i].takes_all() ==> i + 1 == v.len()
            && pad == 0) && (v[i] is Padding ==> i + 1 == v.len())
}

/// What is read of frames with so much padding behind them: the frames, and all padding as one
/// PADDING frame, where it is kept.
pub open spec fn read_back(v: Seq<FrameView>, pad: nat, keep_padding: bool) -> Seq<FrameView> {
    if v.len() > 0 && v.last() is Padding {
        if keep_padding {
            v
        } else {
            v.drop_last()
        }
    } else if keep_padding && pad > 0 {
        v.push(FrameView::Padding)
    } else {
        v
    }
}

/// Frames are read back from a payload in the order in which they were written, whatever
/// padding follows them.
pub proof fn payload_roundtrip(v: Seq<FrameView>, pad: nat, keep_padding: bool)
    requires
        readable(v, pad),
    ensures
        parse_frames(frames_bytes(v) + padding(pad), keep_padding) == Ok::<
            Seq<FrameView>,
            Error,
        >(read_back(v, pad, keep_padding)),
    decreases v.len(),
{
    let s = frames_bytes(v) + padding(pad);
    if v.len() == 0 {
        assert(s =~= padding(pad));
        if pad > 0 {
            let rest = padding((pad - 1) as nat);
            assert(s =~= seq![0u8] + rest);
            lemma_skip_first(0u8, rest);
            assert(parse_frame(s) == Ok::<(FrameView, Seq<u8>), Error>((FrameView::Padding, rest)));
            assert(v.push(FrameView::Padding) =~= seq![FrameView::Padding]);
        }
        assert(v =~= Seq::<FrameView>::empty());
    } else {
        let w = v.skip(1);
        let tail = frames_bytes(w) + padding(pad);
        lemma_concat_associative(v[0].bytes(), frames_bytes(w), padding(pad));
        if v[0].takes_all() {
            assert(tail =~= Seq::<u8>::empty());
        }
        frame_roundtrip(v[0], tail);
        parse_frame_makes_progress(s);
        assert(s.len() > 0);
        if v[0] is Padding {
            assert(v =~= seq![v[0]]);
            assert(v.drop_last() =~= Seq::<FrameView>::empty());
        } else {
            assert(readable(w, pad)) by {
                assert forall|i: int| 0 <= i < w.len() implies (#[trigger] w[i]).valid() && (
                w[i].takes_all() ==> i + 1 == w.len() && pad == 0) && (w[i] is Padding ==> i + 1
                    == w.len()) by {
                    assert(w[i] == v[i + 1]);
                }
            }
            payload_roundtrip(w, pad, keep_padding);
            assert(seq![v[0]] + read_back(w, pad, keep_padding) =~= read_back(v, pad, keep_padding));
        }
    }
}

} // verus!
