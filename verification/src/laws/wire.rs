//! Laws of the wire formats: which bytes stand where.

use crate::buffer::be_value;
use crate::error::Error;
use crate::frame_types::{
    frame_roundtrip, parse_ack, parse_fields, parse_frame, parse_stream, take2, take3,
    take_optional, take_prefixed, take_ranges, FrameView, StreamType,
};
use crate::varint::{lemma_varint_roundtrip, take_varint, varint_bytes, MAX_VARINT};
use vstd::prelude::*;

verus! {

/// Two bytes as a number, the more significant one first.
pub open spec fn two(s: Seq<u8>, i: int) -> int {
    s[i] * 0x100 + s[i + 1]
}

/// Four bytes as a number, the most significant one first.
pub open spec fn four(s: Seq<u8>, i: int) -> int {
    two(s, i) * 0x1_0000 + two(s, i + 2)
}

/// Eight bytes as a number, the most significant one first.
pub open spec fn eight(s: Seq<u8>, i: int) -> int {
    four(s, i) * 0x1_0000_0000 + four(s, i + 4)
}

/// The two top bits of the first byte say whether an integer takes one, two, four or eight
/// bytes; the other bits are its value, the most significant ones first.
pub proof fn integer_layout(s: Seq<u8>)
    ensures
        s.len() == 0 ==> take_varint(s) is None,
        s.len() >= 1 && s[0] < 0x40 ==> take_varint(s) == Some((s[0] as u64, s.skip(1))),
        s.len() >= 2 && 0x40 <= s[0] < 0x80 ==> take_varint(s) == Some(
            ((two(s, 0) - 0x4000) as u64, s.skip(2)),
        ),
        s.len() >= 4 && 0x80 <= s[0] < 0xc0 ==> take_varint(s) == Some(
            ((four(s, 0) - 0x8000_0000) as u64, s.skip(4)),
        ),
        s.len() >= 8 && 0xc0 <= s[0] ==> take_varint(s) == Some(
            ((eight(s, 0) - 0xc000_0000_0000_0000) as u64, s.skip(8)),
        ),
        s.len() == 1 && 0x40 <= s[0] ==> take_varint(s) is None,
        s.len() < 4 && 0x80 <= s[0] ==> take_varint(s) is None,
        s.len() < 8 && 0xc0 <= s[0] ==> take_varint(s) is None,
{
    if s.len() >= 1 {
        lemma_be_small(s.take(1));
    }
    if s.len() >= 2 {
        lemma_be_small(s.take(2));
    }
    if s.len() >= 4 {
        lemma_be_small(s.take(4));
    }
    if s.len() >= 8 {
        lemma_be_small(s.take(8));
    }
}

/// An integer is written in as few bytes as hold it, and its bytes are those of its value.
pub proof fn integer_shortest(v: u64)
    requires
        v <= MAX_VARINT,
    ensures
        ({
            let b = varint_bytes(v as nat);
            &&& v < 0x40 ==> b == seq![v as u8]
            &&& 0x40 <= v < 0x4000 ==> b.len() == 2 && two(b, 0) == v + 0x4000
            &&& 0x4000 <= v < 0x4000_0000 ==> b.len() == 4 && four(b, 0) == v + 0x8000_0000
            &&& 0x4000_0000 <= v ==> b.len() == 8 && eight(b, 0) == v + 0xc000_0000_0000_0000
        }),
{
    let b = varint_bytes(v as nat);
    lemma_varint_roundtrip(v, Seq::empty());
    assert(b + Seq::<u8>::empty() =~= b);
    assert(b.take(b.len() as int) =~= b);
    lemma_be_small(b);
    integer_layout(b);
    if v < 0x40 {
        assert(b =~= seq![v as u8]);
    }
}

/// The value of one, two, four or eight bytes.
pub(crate) proof fn lemma_be_small(s: Seq<u8>)
    ensures
        s.len() == 1 ==> be_value(s) == s[0],
        s.len() == 2 ==> be_value(s) == two(s, 0),
        s.len() == 4 ==> be_value(s) == four(s, 0),
        s.len() == 8 ==> be_value(s) == eight(s, 0),
{
    reveal_with_fuel(be_value, 9);
    if s.len() == 2 {
        assert(s.drop_last().last() == s[0]);
    } else if s.len() == 4 {
        assert(s.drop_last().last() == s[2]);
        assert(s.drop_last().drop_last().last() == s[1]);
        assert(s.drop_last().drop_last().drop_last().last() == s[0]);
    } else if s.len() == 8 {
        let s7 = s.drop_last();
        let s6 = s7.drop_last();
        let s5 = s6.drop_last();
        let s4 = s5.drop_last();
        let s3 = s4.drop_last();
        let s2 = s3.drop_last();
        let s1 = s2.drop_last();
        assert(s7.last() == s[6] && s6.last() == s[5] && s5.last() == s[4] && s4.last() == s[3]);
        assert(s3.last() == s[2] && s2.last() == s[1] && s1.last() == s[0]);
        assert(s1.drop_last().len() == 0);
    }
}

/// What is left behind the first `k` integers.
pub open spec fn behind(s: Seq<u8>, k: nat) -> Seq<u8>
    decreases k,
{
    if k == 0 {
        s
    } else {
        match take_varint(behind(s, (k - 1) as nat)) {
            Some((_, rest)) => rest,
            None => Seq::empty(),
        }
    }
}

/// The integer behind the first `k` ones, where there is one.
pub open spec fn number_at(s: Seq<u8>, k: nat) -> Option<u64> {
    match take_varint(behind(s, k)) {
        Some((v, _)) => Some(v),
        None => None,
    }
}

/// How many integers stand before the ranges of an ACK frame, and before range `i`.
pub open spec fn before_range(i: int) -> nat {
    (4 + 2 * i) as nat
}

/// The bytes stand for the frame, with `rest` behind it. The first byte names the kind of
/// frame; the integers behind it are its fields in this order; data comes last, and its length
/// before it.
pub open spec fn holds(s: Seq<u8>, f: FrameView, rest: Seq<u8>) -> bool {
    let b = s.skip(1);
    &&& s.len() > 0
    &&& match f {
        FrameView::Padding => s[0] == 0x00 && rest == b,
        FrameView::Ping => s[0] == 0x01 && rest == b,
        FrameView::Ack {
            largest_acknowledged,
            ack_delay,
            ack_range_count,
            first_ack_range,
            ack_ranges,
            ecn_counts,
        } => {
            let n = ack_ranges.len() as int;
            &&& ecn_counts is None ==> s[0] == 0x02
            &&& ecn_counts is Some ==> s[0] == 0x03
            &&& number_at(b, 0) == Some(largest_acknowledged)
            &&& number_at(b, 1) == Some(ack_delay)
            &&& number_at(b, 2) == Some(ack_range_count)
            &&& number_at(b, 3) == Some(first_ack_range)
            &&& ack_ranges.len() == ack_range_count
            &&& forall|i: int|
                0 <= i < n ==> {
                    &&& number_at(b, before_range(i)) == Some((#[trigger] ack_ranges[i]).gap)
                    &&& number_at(b, before_range(i) + 1) == Some(ack_ranges[i].ack_range_length)
                }
            &&& ecn_counts matches Some(e) ==> {
                &&& number_at(b, before_range(n)) == Some(e.ect0)
                &&& number_at(b, before_range(n) + 1) == Some(e.ect1)
                &&& number_at(b, before_range(n) + 2) == Some(e.ecn_ce)
                &&& rest == behind(b, before_range(n) + 3)
            }
            &&& ecn_counts is None ==> rest == behind(b, before_range(n))
        },
        FrameView::ResetStream { stream_id, application_error_code, final_size } => {
            &&& s[0] == 0x04
            &&& number_at(b, 0) == Some(stream_id)
            &&& number_at(b, 1) == Some(application_error_code)
            &&& number_at(b, 2) == Some(final_size)
            &&& rest == behind(b, 3)
        },
        FrameView::StopSending { stream_id, application_error_code } => {
            &&& s[0] == 0x05
            &&& number_at(b, 0) == Some(stream_id)
            &&& number_at(b, 1) == Some(application_error_code)
            &&& rest == behind(b, 2)
        },
        FrameView::Crypto { offset, data } => {
            &&& s[0] == 0x06
            &&& number_at(b, 0) == Some(offset)
            &&& number_at(b, 1) == Some(data.len() as u64)
            &&& behind(b, 2) == data + rest
        },
        FrameView::NewToken { token } => {
            &&& s[0] == 0x07
            &&& number_at(b, 0) == Some(token.len() as u64)
            &&& behind(b, 1) == token + rest
        },
        FrameView::Stream { stream_id, offset, length, fin, data } => {
            let with_offset = s[0] == 0x0c || s[0] == 0x0d || s[0] == 0x0e || s[0] == 0x0f;
            let k: nat = if with_offset {
                2
            } else {
                1
            };
            &&& 0x08 <= s[0] <= 0x0f
            &&& fin == (s[0] == 0x09 || s[0] == 0x0b || s[0] == 0x0d || s[0] == 0x0f)
            &&& length is Some == (s[0] == 0x0a || s[0] == 0x0b || s[0] == 0x0e || s[0] == 0x0f)
            &&& number_at(b, 0) == Some(stream_id)
            &&& with_offset ==> number_at(b, 1) == Some(offset)
            &&& !with_offset ==> offset == 0
            &&& length matches Some(n) ==> {
                &&& number_at(b, k) == Some(n)
                &&& data.len() == n
                &&& behind(b, k + 1) == data + rest
            }
            &&& length is None ==> behind(b, k) == data && rest.len() == 0
        },
        FrameView::MaxData { maximum_data } => {
            &&& s[0] == 0x10
            &&& number_at(b, 0) == Some(maximum_data)
            &&& rest == behind(b, 1)
        },
        FrameView::MaxStreamData { stream_id, maximum_stream_data } => {
            &&& s[0] == 0x11
            &&& number_at(b, 0) == Some(stream_id)
            &&& number_at(b, 1) == Some(maximum_stream_data)
            &&& rest == behind(b, 2)
        },
        FrameView::MaxStreams { stream_type, maximum_streams } => {
            &&& stream_type == StreamType::Bidirectional ==> s[0] == 0x12
            &&& stream_type == StreamType::Unidirectional ==> s[0] == 0x13
            &&& number_at(b, 0) == Some(maximum_streams)
            &&& rest == behind(b, 1)
        },
        FrameView::DataBlocked { maximum_data } => {
            &&& s[0] == 0x14
            &&& number_at(b, 0) == Some(maximum_data)
            &&& rest == behind(b, 1)
        },
        FrameView::StreamDataBlocked { stream_id, maximum_stream_data } => {
            &&& s[0] == 0x15
            &&& number_at(b, 0) == Some(stream_id)
            &&& number_at(b, 1) == Some(maximum_stream_data)
            &&& rest == behind(b, 2)
        },
        FrameView::StreamsBlocked { stream_type, maximum_streams } => {
            &&& stream_type == StreamType::Bidirectional ==> s[0] == 0x16
            &&& stream_type == StreamType::Unidirectional ==> s[0] == 0x17
            &&& number_at(b, 0) == Some(maximum_streams)
            &&& rest == behind(b, 1)
        },
        FrameView::NewConnectionId {
            sequence_number,
            retire_prior_to,
            connection_id,
            stateless_reset_token,
        } => {
            &&& s[0] == 0x18
            &&& number_at(b, 0) == Some(sequence_number)
            &&& number_at(b, 1) == Some(retire_prior_to)
            &&& behind(b, 2) == seq![connection_id.len() as u8] + connection_id
                + stateless_reset_token + rest
            &&& connection_id.len() < 0x100
            &&& stateless_reset_token.len() == 16
        },
        FrameView::RetireConnectionId { sequence_number } => {
            &&& s[0] == 0x19
            &&& number_at(b, 0) == Some(sequence_number)
            &&& rest == behind(b, 1)
        },
        FrameView::PathChallenge { data } => s[0] == 0x1a && data.len() == 8 && b == data + rest,
        FrameView::PathResponse { data } => s[0] == 0x1b && data.len() == 8 && b == data + rest,
        FrameView::ConnectionClose { error_code, frame_type, reason_phrase } => {
            let k: nat = if frame_type is Some {
                2
            } else {
                1
            };
            &&& frame_type is Some ==> s[0] == 0x1c
            &&& frame_type is None ==> s[0] == 0x1d
            &&& number_at(b, 0) == Some(error_code)
            &&& frame_type is Some ==> number_at(b, 1) == frame_type
            &&& number_at(b, k) == Some(reason_phrase.len() as u64)
            &&& behind(b, k + 1) == reason_phrase + rest
        },
        FrameView::HandshakeDone => s[0] == 0x1e && rest == b,
    }
}

/// A length and as many bytes: an integer, and what it counts.
proof fn lemma_prefixed(s: Seq<u8>, b: Seq<u8>, k: nat)
    requires
        s == behind(b, k),
        take_prefixed(s) is Some,
    ensures
        ({
            let (data, rest) = take_prefixed(s)->Some_0;
            &&& number_at(b, k) == Some(data.len() as u64)
            &&& behind(b, k + 1) == data + rest
        }),
{
    let n = take_varint(s)->Some_0.0 as int;
    let t = take_varint(s)->Some_0.1;
    assert(t.take(n) + t.skip(n) =~= t);
}

/// The ranges of an ACK frame are pairs of integers: a gap, then a length.
proof fn lemma_ranges_at(b: Seq<u8>, n: nat)
    requires
        take_ranges(behind(b, 4), n) is Some,
    ensures
        ({
            let (ranges, rest) = take_ranges(behind(b, 4), n)->Some_0;
            &&& ranges.len() == n
            &&& rest == behind(b, before_range(n as int))
            &&& forall|i: int|
                0 <= i < n ==> {
                    &&& number_at(b, before_range(i)) == Some((#[trigger] ranges[i]).gap)
                    &&& number_at(b, before_range(i) + 1) == Some(ranges[i].ack_range_length)
                }
        }),
    decreases n,
{
    if n > 0 {
        let m = (n - 1) as nat;
        lemma_ranges_at(b, m);
        let (before, s1) = take_ranges(behind(b, 4), m)->Some_0;
        let (ranges, rest) = take_ranges(behind(b, 4), n)->Some_0;
        let k = before_range(m as int);
        assert(s1 == behind(b, k));
        assert(behind(b, k + 2) == rest) by {
            reveal_with_fuel(behind, 3);
        }
        assert forall|i: int| 0 <= i < n implies {
            &&& number_at(b, before_range(i)) == Some((#[trigger] ranges[i]).gap)
            &&& number_at(b, before_range(i) + 1) == Some(ranges[i].ack_range_length)
        } by {
            if i < m {
                assert(ranges[i] == before[i]);
            } else {
                reveal_with_fuel(behind, 3);
            }
        }
    }
}

/// The fields of an ACK frame.
proof fn lemma_ack_holds(s: Seq<u8>)
    requires
        s.len() > 0,
        s[0] == 0x02 || s[0] == 0x03,
        parse_ack(s[0] == 0x03, s.skip(1)) is Some,
    ensures
        ({
            let (f, rest) = parse_ack(s[0] == 0x03, s.skip(1))->Some_0;
            holds(s, f, rest)
        }),
{
    let b = s.skip(1);
    reveal_with_fuel(behind, 5);
    let s3 = take3(b)->Some_0.1;
    let count = take3(b)->Some_0.0.2;
    let s4 = take_varint(s3)->Some_0.1;
    assert(s4 == behind(b, 4));
    lemma_ranges_at(b, count as nat);
    let k = before_range(count as int);
    assert(behind(b, k + 1) == match take_varint(behind(b, k)) {
        Some((_, rest)) => rest,
        None => Seq::empty(),
    });
    assert(behind(b, k + 2) == match take_varint(behind(b, k + 1)) {
        Some((_, rest)) => rest,
        None => Seq::empty(),
    });
    assert(behind(b, k + 3) == match take_varint(behind(b, k + 2)) {
        Some((_, rest)) => rest,
        None => Seq::empty(),
    });
}

/// The flags of a STREAM frame.
proof fn lemma_stream_flags(t: u8)
    by (bit_vector)
    requires
        0x08 <= t && t <= 0x0f,
    ensures
        (t & 0x04 != 0) == (t == 0x0c || t == 0x0d || t == 0x0e || t == 0x0f),
        (t & 0x02 != 0) == (t == 0x0a || t == 0x0b || t == 0x0e || t == 0x0f),
        (t & 0x01 != 0) == (t == 0x09 || t == 0x0b || t == 0x0d || t == 0x0f),
{
}

/// The fields of a STREAM frame.
proof fn lemma_stream_holds(s: Seq<u8>)
    requires
        s.len() > 0,
        0x08 <= s[0] <= 0x0f,
        parse_stream(s[0], s.skip(1)) is Some,
    ensures
        ({
            let (f, rest) = parse_stream(s[0], s.skip(1))->Some_0;
            holds(s, f, rest)
        }),
{
    let b = s.skip(1);
    reveal_with_fuel(behind, 5);
    lemma_stream_flags(s[0]);
    let (f, rest) = parse_stream(s[0], b)->Some_0;
    let with_offset = s[0] & 0x04 != 0;
    let with_length = s[0] & 0x02 != 0;
    let s1 = take_varint(b)->Some_0.1;
    let s2 = take_optional(with_offset, s1)->Some_0.1;
    let s3 = take_optional(with_length, s2)->Some_0.1;
    if let FrameView::Stream { length, data, .. } = f {
        assert(data + rest =~= s3);
        if length is None {
            assert(data =~= s3);
        }
    }
}

/// The fields of the other frames with data.
proof fn lemma_data_holds(s: Seq<u8>)
    requires
        s.len() > 0,
        s[0] == 0x06 || s[0] == 0x07 || s[0] == 0x18 || 0x1a <= s[0] <= 0x1d,
        parse_fields(s[0], s.skip(1)) is Some,
    ensures
        ({
            let (f, rest) = parse_fields(s[0], s.skip(1))->Some_0;
            holds(s, f, rest)
        }),
{
    let b = s.skip(1);
    let t = s[0];
    reveal_with_fuel(behind, 5);
    let (f, rest) = parse_fields(t, b)->Some_0;
    if t == 0x06 {
        lemma_prefixed(take_varint(b)->Some_0.1, b, 1);
    } else if t == 0x07 {
        lemma_prefixed(b, b, 0);
    } else if t == 0x18 {
        let s2 = take2(b)->Some_0.1;
        let n = s2[0] as int;
        let s3 = s2.skip(1);
        if let FrameView::NewConnectionId { connection_id, stateless_reset_token, .. } = f {
            assert(seq![connection_id.len() as u8] + connection_id + stateless_reset_token + rest
                =~= s2);
        }
    } else if t == 0x1a || t == 0x1b {
        assert(b.take(8) + b.skip(8) =~= b);
    } else {
        let s1 = take_varint(b)->Some_0.1;
        if t == 0x1c {
            lemma_prefixed(take_optional(true, s1)->Some_0.1, b, 2);
        } else {
            lemma_prefixed(s1, b, 1);
        }
    }
}

/// A frame that is read off the front of bytes is the one that they stand for: the first byte
/// is its kind, the integers behind it are its fields in the order of the protocol, and what is
/// left is what follows it.
pub proof fn frame_is_what_bytes_hold(s: Seq<u8>)
    ensures
        parse_frame(s) matches Ok((f, rest)) ==> holds(s, f, rest),
        s.len() > 0 && s[0] > 0x1e ==> parse_frame(s) == Err::<(FrameView, Seq<u8>), Error>(
            Error::InvalidFrame { frame_type: s[0] as u64, reason: "Unknown frame type" },
        ),
{
    if parse_frame(s) is Ok {
        let t = s[0];
        let b = s.skip(1);
        reveal_with_fuel(behind, 5);
        if t == 0x02 || t == 0x03 {
            lemma_ack_holds(s);
        } else if 0x08 <= t <= 0x0f {
            lemma_stream_holds(s);
        } else if t == 0x06 || t == 0x07 || t == 0x18 || 0x1a <= t <= 0x1d {
            lemma_data_holds(s);
        }
    }
}

/// What is written for a frame stands for it: the first byte is its kind, and the integers
/// behind it are its fields in the order of the protocol.
pub proof fn written_frame_holds_fields(f: FrameView, rest: Seq<u8>)
    requires
        f.valid(),
        f.takes_all() ==> rest.len() == 0,
    ensures
        holds(f.bytes() + rest, f, rest),
{
    frame_roundtrip(f, rest);
    frame_is_what_bytes_hold(f.bytes() + rest);
}

} // verus!
