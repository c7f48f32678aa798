//! Laws of plain values: units of time, digits, codes of frames, and what can be written at all.

use crate::error::{digits, Reason};
use crate::frame::FrameType;
use crate::frame_types::FrameView;
use crate::laws::wire::written_frame_holds_fields;
use crate::packet::{PacketHeaderView, PacketType, TypeSpecificView};
use crate::time::Duration;
use vstd::prelude::*;

verus! {

/// A duration in a unit is how often the unit fits.
pub proof fn units_of_time(d: Duration)
    requires
        d.nanos < 0x1_0000_0000_0000_0000,
    ensures
        1_000 * d.micros() <= d.nanos < 1_000 * (d.micros() + 1),
        1_000_000 * d.millis() <= d.nanos < 1_000_000 * (d.millis() + 1),
        1_000_000_000 * d.seconds() <= d.nanos < 1_000_000_000 * (d.seconds() + 1),
{
}

/// The value of a digit.
pub open spec fn digit_value(c: char) -> int {
    if '0' <= c <= '9' {
        c as int - '0' as int
    } else {
        c as int - 'a' as int + 10
    }
}

/// The number that digits stand for.
pub open spec fn number_of(s: Seq<char>, base: nat) -> int
    decreases s.len(),
{
    if s.len() == 0 {
        0
    } else {
        number_of(s.drop_last(), base) * base + digit_value(s.last())
    }
}

/// Digits stand for their number, and none leads that says nothing.
pub proof fn digits_stand_for_number(n: nat, base: nat)
    requires
        2 <= base <= 16,
    ensures
        number_of(digits(n, base), base) == n,
        digits(n, base).len() > 0,
        n > 0 ==> digits(n, base)[0] != '0',
    decreases n,
{
    let s = digits(n, base);
    if n < base {
        assert(s.drop_last() =~= Seq::<char>::empty());
        assert(number_of(s.drop_last(), base) == 0);
        assert(0 * base == 0);
    } else {
        vstd::arithmetic::div_mod::lemma_div_decreases(n as int, base as int);
        vstd::arithmetic::div_mod::lemma_fundamental_div_mod(n as int, base as int);
        let q = n / base;
        assert(q > 0) by (nonlinear_arith)
            requires
                q == n / base,
                n >= base,
                base >= 2,
        ;
        digits_stand_for_number(q, base);
        assert(s.drop_last() =~= digits(q, base));
        assert(digit_value(s.last()) == n % base);
        assert(q * base == base * q) by (nonlinear_arith);
        assert(s[0] == digits(q, base)[0]);
    }
}

/// A message about a number ends in its digits.
pub proof fn messages_name_numbers(n: u8, id: u64)
    ensures
        ({
            let w = Reason::UnknownPacketType(n).words();
            let k = "Unknown packet type: 0x"@.len() as int;
            &&& w.take(k) == "Unknown packet type: 0x"@
            &&& number_of(w.skip(k), 16) == n
        }),
        ({
            let w = Reason::StreamIdPattern(id).words();
            let k = "Invalid stream ID pattern: "@.len() as int;
            &&& w.take(k) == "Invalid stream ID pattern: "@
            &&& number_of(w.skip(k), 10) == id
        }),
{
    digits_stand_for_number(n as nat, 16);
    digits_stand_for_number(id as nat, 10);
    let (a, b) = ("Unknown packet type: 0x"@, "Invalid stream ID pattern: "@);
    let (u, v) = (Reason::UnknownPacketType(n).words(), Reason::StreamIdPattern(id).words());
    assert(u.take(a.len() as int) =~= a);
    assert(u.skip(a.len() as int) =~= digits(n as nat, 16));
    assert(v.take(b.len() as int) =~= b);
    assert(v.skip(b.len() as int) =~= digits(id as nat, 10));
}

/// The code of a type of frame is the first byte of its frames.
pub proof fn codes_are_first_bytes(f: FrameView)
    requires
        f.valid(),
    ensures
        ({
            let b = f.bytes()[0] as u64;
            &&& f is Padding ==> FrameType::Padding.named_by(b)
            &&& f is Ping ==> FrameType::Ping.named_by(b)
            &&& f is Ack && f->Ack_ecn_counts is None ==> FrameType::Ack.named_by(b)
            &&& f is Ack && f->Ack_ecn_counts is Some ==> FrameType::AckEcn.named_by(b)
            &&& f is ResetStream ==> FrameType::ResetStream.named_by(b)
            &&& f is StopSending ==> FrameType::StopSending.named_by(b)
            &&& f is Crypto ==> FrameType::Crypto.named_by(b)
            &&& f is NewToken ==> FrameType::NewToken.named_by(b)
            &&& f is Stream ==> FrameType::Stream.named_by(b)
            &&& f is MaxData ==> FrameType::MaxData.named_by(b)
            &&& f is MaxStreamData ==> FrameType::MaxStreamData.named_by(b)
            &&& f is DataBlocked ==> FrameType::DataBlocked.named_by(b)
            &&& f is StreamDataBlocked ==> FrameType::StreamDataBlocked.named_by(b)
            &&& f is NewConnectionId ==> FrameType::NewConnectionId.named_by(b)
            &&& f is RetireConnectionId ==> FrameType::RetireConnectionId.named_by(b)
            &&& f is PathChallenge ==> FrameType::PathChallenge.named_by(b)
            &&& f is PathResponse ==> FrameType::PathResponse.named_by(b)
            &&& f is HandshakeDone ==> FrameType::HandshakeDone.named_by(b)
            &&& f is MaxStreams ==> FrameType::MaxStreamsBidi.named_by(b)
                || FrameType::MaxStreamsUni.named_by(b)
            &&& f is StreamsBlocked ==> FrameType::StreamsBlockedBidi.named_by(b)
                || FrameType::StreamsBlockedUni.named_by(b)
            &&& f is ConnectionClose ==> FrameType::ConnectionCloseTransport.named_by(b)
                || FrameType::ConnectionCloseApp.named_by(b)
        }),
{
    written_frame_holds_fields(f, Seq::empty());
    assert(f.bytes() + Seq::<u8>::empty() =~= f.bytes());
}

/// A frame can be written and read back where its integers stay below two to the 62, its counts
/// and lengths are those of what they count, and its fixed parts have their size.
pub proof fn ordinary_frames_are_valid(f: FrameView)
    ensures
        ({
            let top: int = 0x4000_0000_0000_0000;
            &&& f is Padding || f is Ping || f is HandshakeDone ==> f.valid()
            &&& f matches FrameView::Ack {
                largest_acknowledged,
                ack_delay,
                ack_range_count,
                first_ack_range,
                ack_ranges,
                ecn_counts,
            } ==> (largest_acknowledged < top && ack_delay < top && first_ack_range < top
                && ack_ranges.len() < top && ack_range_count == ack_ranges.len() && ecn_counts
                is None && (forall|i: int|
                0 <= i < ack_ranges.len() ==> (#[trigger] ack_ranges[i]).gap < top
                    && ack_ranges[i].ack_range_length < top) ==> f.valid())
            &&& f matches FrameView::Crypto { offset, data } ==> (offset < top && data.len() < top
                ==> f.valid())
            &&& f matches FrameView::Stream { stream_id, offset, length, data, .. } ==> (stream_id
                < top && offset < top && data.len() < top && (length is None || length == Some(
                data.len() as u64,
            )) ==> f.valid())
            &&& f matches FrameView::MaxData { maximum_data } ==> (maximum_data < top ==> f.valid())
            &&& f matches FrameView::MaxStreamData { stream_id, maximum_stream_data } ==> (stream_id
                < top && maximum_stream_data < top ==> f.valid())
            &&& f matches FrameView::MaxStreams { maximum_streams, .. } ==> (maximum_streams < top
                ==> f.valid())
            &&& f matches FrameView::ResetStream { stream_id, application_error_code, final_size }
                ==> (stream_id < top && application_error_code < top && final_size < top
                ==> f.valid())
            &&& f matches FrameView::StopSending { stream_id, application_error_code } ==> (stream_id
                < top && application_error_code < top ==> f.valid())
            &&& f matches FrameView::NewToken { token } ==> (token.len() < top ==> f.valid())
            &&& f matches FrameView::NewConnectionId {
                sequence_number,
                retire_prior_to,
                connection_id,
                stateless_reset_token,
            } ==> (sequence_number < top && retire_prior_to < top && connection_id.len() < 256
                && stateless_reset_token.len() == 16 ==> f.valid())
            &&& f matches FrameView::RetireConnectionId { sequence_number } ==> (sequence_number
                < top ==> f.valid())
            &&& f matches FrameView::PathChallenge { data } ==> (data.len() == 8 ==> f.valid())
            &&& f matches FrameView::PathResponse { data } ==> (data.len() == 8 ==> f.valid())
            &&& f matches FrameView::ConnectionClose { error_code, frame_type, reason_phrase } ==> (
            error_code < top && reason_phrase.len() < top && frame_type is None ==> f.valid())
            &&& f.takes_all() ==> f is Stream && f->Stream_length is None
        }),
{
}

/// A header can be written and read back where its connection IDs have no more than twenty bytes,
/// and eight in a short header.
pub proof fn ordinary_headers_are_valid(h: PacketHeaderView)
    ensures
        h matches PacketHeaderView::Short(s) ==> (h.valid() <==> s.dst_cid.len() == 8),
        h matches PacketHeaderView::Long(l) ==> (l.dst_cid.len() <= 20 && l.src_cid.len() <= 20 && (
        l.type_specific matches TypeSpecificView::Handshake { length, .. } && length
            < 0x4000_0000_0000_0000) && l.packet_type == PacketType::Handshake ==> h.valid()),
        h matches PacketHeaderView::Long(l) ==> (l.dst_cid.len() <= 20 && l.src_cid.len() <= 20 && (
        l.type_specific matches TypeSpecificView::ZeroRtt { length, .. } && length
            < 0x4000_0000_0000_0000) && l.packet_type == PacketType::ZeroRtt ==> h.valid()),
        h matches PacketHeaderView::Long(l) ==> (l.dst_cid.len() <= 20 && l.src_cid.len() <= 20 && (
        l.type_specific matches TypeSpecificView::Initial { token, length, .. } && token.len()
            < 0x4000_0000_0000_0000 && length < 0x4000_0000_0000_0000) && l.packet_type
            == PacketType::Initial ==> h.valid()),
        h matches PacketHeaderView::Long(l) ==> (l.dst_cid.len() > 20 || l.src_cid.len() > 20
            ==> !h.valid()),
{
}

} // verus!
