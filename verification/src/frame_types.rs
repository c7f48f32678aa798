//! QUIC frames and their wire format (RFC 9000 Section 19).

use crate::buffer::{
    contents, get_array, get_u8, group_tail, is_tail, lemma_concat_associative, lemma_skip_first,
    lemma_split_joined, put_u8, written,
};
use crate::error::Error;
use crate::packet::{ConnectionId, PacketType};
use crate::stream::StreamId;
use crate::varint::{lemma_varint_roundtrip, take_varint, varint_bytes, VarInt, MAX_VARINT};
use bytes::{Bytes, BytesMut};
use vstd::prelude::*;

verus! {

broadcast use group_tail;

/// QUIC frame types
#[allow(inconsistent_fields)]
#[derive(Debug, PartialEq)]
pub enum Frame {
    /// PADDING frame (0x00)
    Padding,
    /// PING frame (0x01)
    Ping,
    /// ACK frame (0x02-0x03)
    Ack {
        /// Largest packet number being acknowledged
        largest_acknowledged: u64,
        /// ACK delay in microseconds, scaled by the ACK delay exponent
        ack_delay: u64,
        /// Number of ACK ranges
        ack_range_count: u64,
        /// First ACK range
        first_ack_range: u64,
        /// Additional ACK ranges
        ack_ranges: Vec<AckRange>,
        /// ECN counts
        ecn_counts: Option<EcnCounts>,
    },
    /// RESET_STREAM frame (0x04)
    ResetStream {
        /// Stream identifier
        stream_id: StreamId,
        /// Application error code
        application_error_code: u64,
        /// Final size of the stream
        final_size: u64,
    },
    /// STOP_SENDING frame (0x05)
    StopSending {
        /// Stream identifier
        stream_id: StreamId,
        /// Application error code
        application_error_code: u64,
    },
    /// CRYPTO frame (0x06)
    Crypto {
        /// Offset in the crypto stream
        offset: u64,
        /// Handshake data
        data: Bytes,
    },
    /// NEW_TOKEN frame (0x07)
    NewToken {
        /// Token for future connections
        token: Bytes,
    },
    /// STREAM frame (0x08-0x0f)
    Stream {
        /// Stream identifier
        stream_id: StreamId,
        /// Offset in the stream
        offset: u64,
        /// Length of the data, where the frame carries it
        length: Option<u64>,
        /// Whether the stream ends with this frame
        fin: bool,
        /// Stream data
        data: Bytes,
    },
    /// MAX_DATA frame (0x10)
    MaxData {
        /// Maximum data on the connection
        maximum_data: u64,
    },
    /// MAX_STREAM_DATA frame (0x11)
    MaxStreamData {
        /// Stream identifier
        stream_id: StreamId,
        /// Maximum data on the stream
        maximum_stream_data: u64,
    },
    /// MAX_STREAMS frame (0x12-0x13)
    MaxStreams {
        /// Stream type
        stream_type: StreamType,
        /// Maximum number of streams
        maximum_streams: u64,
    },
    /// DATA_BLOCKED frame (0x14)
    DataBlocked {
        /// Limit at which the sender is blocked
        maximum_data: u64,
    },
    /// STREAM_DATA_BLOCKED frame (0x15)
    StreamDataBlocked {
        /// Stream identifier
        stream_id: StreamId,
        /// Limit at which the stream is blocked
        maximum_stream_data: u64,
    },
    /// STREAMS_BLOCKED frame (0x16-0x17)
    StreamsBlocked {
        /// Stream type
        stream_type: StreamType,
        /// Limit at which opening streams is blocked
        maximum_streams: u64,
    },
    /// NEW_CONNECTION_ID frame (0x18)
    NewConnectionId {
        /// Sequence number of the connection ID
        sequence_number: u64,
        /// Connection IDs below this number are to be retired
        retire_prior_to: u64,
        /// The connection ID
        connection_id: ConnectionId,
        /// Stateless reset token
        stateless_reset_token: [u8; 16],
    },
    /// RETIRE_CONNECTION_ID frame (0x19)
    RetireConnectionId {
        /// Sequence number of the connection ID to retire
        sequence_number: u64,
    },
    /// PATH_CHALLENGE frame (0x1a)
    PathChallenge {
        /// Challenge data
        data: [u8; 8],
    },
    /// PATH_RESPONSE frame (0x1b)
    PathResponse {
        /// Response data
        data: [u8; 8],
    },
    /// CONNECTION_CLOSE frame (0x1c-0x1d)
    ConnectionClose {
        /// Error code
        error_code: u64,
        /// Frame type that caused the error, for transport errors
        frame_type: Option<u64>,
        /// Reason phrase
        reason_phrase: Bytes,
    },
    /// HANDSHAKE_DONE frame (0x1e)
    HandshakeDone,
}

/// ACK range
#[derive(Debug, Clone, Copy, PartialEq, Eq, Structural)]
pub struct AckRange {
    /// Gap before this range
    pub gap: u64,
    /// Length of this range
    pub ack_range_length: u64,
}

/// ECN counts
#[derive(Debug, Clone, Copy, PartialEq, Eq, Structural)]
pub struct EcnCounts {
    /// ECT(0) count
    pub ect0: u64,
    /// ECT(1) count
    pub ect1: u64,
    /// ECN-CE count
    pub ecn_ce: u64,
}

/// Stream type for frame parsing
#[derive(Debug, Clone, Copy, PartialEq, Eq, Structural)]
pub enum StreamType {
    /// Bidirectional stream
    Bidirectional,
    /// Unidirectional stream
    Unidirectional,
}

/// A frame, with the bytes it holds.
#[verifier::ext_equal]
pub enum FrameView {
    Padding,
    Ping,
    Ack {
        largest_acknowledged: u64,
        ack_delay: u64,
        ack_range_count: u64,
        first_ack_range: u64,
        ack_ranges: Seq<AckRange>,
        ecn_counts: Option<EcnCounts>,
    },
    ResetStream { stream_id: u64, application_error_code: u64, final_size: u64 },
    StopSending { stream_id: u64, application_error_code: u64 },
    Crypto { offset: u64, data: Seq<u8> },
    NewToken { token: Seq<u8> },
    Stream { stream_id: u64, offset: u64, length: Option<u64>, fin: bool, data: Seq<u8> },
    MaxData { maximum_data: u64 },
    MaxStreamData { stream_id: u64, maximum_stream_data: u64 },
    MaxStreams { stream_type: StreamType, maximum_streams: u64 },
    DataBlocked { maximum_data: u64 },
    StreamDataBlocked { stream_id: u64, maximum_stream_data: u64 },
    StreamsBlocked { stream_type: StreamType, maximum_streams: u64 },
    NewConnectionId {
        sequence_number: u64,
        retire_prior_to: u64,
        connection_id: Seq<u8>,
        stateless_reset_token: Seq<u8>,
    },
    RetireConnectionId { sequence_number: u64 },
    PathChallenge { data: Seq<u8> },
    PathResponse { data: Seq<u8> },
    ConnectionClose { error_code: u64, frame_type: Option<u64>, reason_phrase: Seq<u8> },
    HandshakeDone,
}

/// A copy of ACK ranges
fn copy_ranges(ranges: &Vec<AckRange>) -> (r: Vec<AckRange>)
    ensures
        r@ == ranges@,
{
    let mut copy: Vec<AckRange> = Vec::new();
    let mut i: usize = 0;
    while i < ranges.len()
        invariant
            i <= ranges@.len(),
            copy@ == ranges@.take(i as int),
        decreases ranges@.len() - i,
    {
        copy.push(ranges[i]);
        assert(copy@ =~= ranges@.take(i + 1));
        i += 1;
    }
    assert(copy@ =~= ranges@);
    copy
}

impl Clone for Frame {
    fn clone(&self) -> (r: Frame)
        ensures
            r@ == self@,
    {
        match self {
            Frame::Padding => Frame::Padding,
            Frame::Ping => Frame::Ping,
            Frame::Ack {
                largest_acknowledged,
                ack_delay,
                ack_range_count,
                first_ack_range,
                ack_ranges,
                ecn_counts,
            } => Frame::Ack {
                largest_acknowledged: *largest_acknowledged,
                ack_delay: *ack_delay,
                ack_range_count: *ack_range_count,
                first_ack_range: *first_ack_range,
                ack_ranges: copy_ranges(ack_ranges),
                ecn_counts: *ecn_counts,
            },
            Frame::ResetStream { stream_id, application_error_code, final_size } =>
                Frame::ResetStream {
                stream_id: *stream_id,
                application_error_code: *application_error_code,
                final_size: *final_size,
            },
            Frame::StopSending { stream_id, application_error_code } => Frame::StopSending {
                stream_id: *stream_id,
                application_error_code: *application_error_code,
            },
            Frame::Crypto { offset, data } => Frame::Crypto {
                offset: *offset,
                data: data.clone(),
            },
            Frame::NewToken { token } => Frame::NewToken { token: token.clone() },
            Frame::Stream { stream_id, offset, length, fin, data } => Frame::Stream {
                stream_id: *stream_id,
                offset: *offset,
                length: *length,
                fin: *fin,
                data: data.clone(),
            },
            Frame::MaxData { maximum_data } => Frame::MaxData { maximum_data: *maximum_data },
            Frame::MaxStreamData { stream_id, maximum_stream_data } => Frame::MaxStreamData {
                stream_id: *stream_id,
                maximum_stream_data: *maximum_stream_data,
            },
            Frame::MaxStreams { stream_type, maximum_streams } => Frame::MaxStreams {
                stream_type: *stream_type,
                maximum_streams: *maximum_streams,
            },
            Frame::DataBlocked { maximum_data } => Frame::DataBlocked {
                maximum_data: *maximum_data,
            },
            Frame::StreamDataBlocked { stream_id, maximum_stream_data } =>
                Frame::StreamDataBlocked {
                stream_id: *stream_id,
                maximum_stream_data: *maximum_stream_data,
            },
            Frame::StreamsBlocked { stream_type, maximum_streams } => Frame::StreamsBlocked {
                stream_type: *stream_type,
                maximum_streams: *maximum_streams,
            },
            Frame::NewConnectionId {
                sequence_number,
                retire_prior_to,
                connection_id,
                stateless_reset_token,
            } => Frame::NewConnectionId {
                sequence_number: *sequence_number,
                retire_prior_to: *retire_prior_to,
                connection_id: connection_id.clone(),
                stateless_reset_token: *stateless_reset_token,
            },
            Frame::RetireConnectionId { sequence_number } => Frame::RetireConnectionId {
                sequence_number: *sequence_number,
            },
            Frame::PathChallenge { data } => Frame::PathChallenge { data: *data },
            Frame::PathResponse { data } => Frame::PathResponse { data: *data },
            Frame::ConnectionClose { error_code, frame_type, reason_phrase } =>
                Frame::ConnectionClose {
                error_code: *error_code,
                frame_type: *frame_type,
                reason_phrase: reason_phrase.clone(),
            },
            Frame::HandshakeDone => Frame::HandshakeDone,
        }
    }
}

impl View for Frame {
    type V = FrameView;

    open spec fn view(&self) -> FrameView {
        match *self {
            Frame::Padding => FrameView::Padding,
            Frame::Ping => FrameView::Ping,
            Frame::Ack {
                largest_acknowledged,
                ack_delay,
                ack_range_count,
                first_ack_range,
                ack_ranges,
                ecn_counts,
            } => FrameView::Ack {
                largest_acknowledged,
                ack_delay,
                ack_range_count,
                first_ack_range,
                ack_ranges: ack_ranges@,
                ecn_counts,
            },
            Frame::ResetStream { stream_id, application_error_code, final_size } =>
                FrameView::ResetStream {
                stream_id: stream_id@,
                application_error_code,
                final_size,
            },
            Frame::StopSending { stream_id, application_error_code } => FrameView::StopSending {
                stream_id: stream_id@,
                application_error_code,
            },
            Frame::Crypto { offset, data } => FrameView::Crypto { offset, data: contents(data) },
            Frame::NewToken { token } => FrameView::NewToken { token: contents(token) },
            Frame::Stream { stream_id, offset, length, fin, data } => FrameView::Stream {
                stream_id: stream_id@,
                offset,
                length,
                fin,
                data: contents(data),
            },
            Frame::MaxData { maximum_data } => FrameView::MaxData { maximum_data },
            Frame::MaxStreamData { stream_id, maximum_stream_data } => FrameView::MaxStreamData {
                stream_id: stream_id@,
                maximum_stream_data,
            },
            Frame::MaxStreams { stream_type, maximum_streams } => FrameView::MaxStreams {
                stream_type,
                maximum_streams,
            },
            Frame::DataBlocked { maximum_data } => FrameView::DataBlocked { maximum_data },
            Frame::StreamDataBlocked { stream_id, maximum_stream_data } =>
                FrameView::StreamDataBlocked { stream_id: stream_id@, maximum_stream_data },
            Frame::StreamsBlocked { stream_type, maximum_streams } => FrameView::StreamsBlocked {
                stream_type,
                maximum_streams,
            },
            Frame::NewConnectionId {
                sequence_number,
                retire_prior_to,
                connection_id,
                stateless_reset_token,
            } => FrameView::NewConnectionId {
                sequence_number,
                retire_prior_to,
                connection_id: connection_id@,
                stateless_reset_token: stateless_reset_token@,
            },
            Frame::RetireConnectionId { sequence_number } => FrameView::RetireConnectionId {
                sequence_number,
            },
            Frame::PathChallenge { data } => FrameView::PathChallenge { data: data@ },
            Frame::PathResponse { data } => FrameView::PathResponse { data: data@ },
            Frame::ConnectionClose { error_code, frame_type, reason_phrase } =>
                FrameView::ConnectionClose {
                error_code,
                frame_type,
                reason_phrase: contents(reason_phrase),
            },
            Frame::HandshakeDone => FrameView::HandshakeDone,
        }
    }
}

/// The bytes of ACK ranges on the wire.
pub open spec fn ranges_bytes(ranges: Seq<AckRange>) -> Seq<u8>
    decreases ranges.len(),
{
    if ranges.len() == 0 {
        Seq::empty()
    } else {
        ranges_bytes(ranges.drop_last()) + varint_bytes(ranges.last().gap as nat) + varint_bytes(
            ranges.last().ack_range_length as nat,
        )
    }
}

/// The bytes of ECN counts on the wire.
pub open spec fn ecn_bytes(ecn: Option<EcnCounts>) -> Seq<u8> {
    match ecn {
        None => Seq::empty(),
        Some(e) => varint_bytes(e.ect0 as nat) + varint_bytes(e.ect1 as nat) + varint_bytes(
            e.ecn_ce as nat,
        ),
    }
}

/// The bytes of an optional number on the wire.
pub open spec fn option_bytes(v: Option<u64>) -> Seq<u8> {
    match v {
        None => Seq::empty(),
        Some(v) => varint_bytes(v as nat),
    }
}

/// Whether every range fits variable-length integers.
pub open spec fn ranges_fit(ranges: Seq<AckRange>) -> bool {
    forall|i: int|
        0 <= i < ranges.len() ==> (#[trigger] ranges[i]).gap <= MAX_VARINT
            && ranges[i].ack_range_length <= MAX_VARINT
}

/// First byte of a STREAM frame: three flags say which fields it has.
pub open spec fn stream_type_byte(has_offset: bool, has_length: bool, fin: bool) -> u8 {
    (0x08 + (if has_offset {
        4int
    } else {
        0
    }) + (if has_length {
        2int
    } else {
        0
    }) + (if fin {
        1int
    } else {
        0
    })) as u8
}

impl FrameView {
    /// Whether every number fits a variable-length integer.
    pub open spec fn encodable(self) -> bool {
        match self {
            FrameView::Ack {
                largest_acknowledged,
                ack_delay,
                ack_range_count,
                first_ack_range,
                ack_ranges,
                ecn_counts,
            } => {
                &&& largest_acknowledged <= MAX_VARINT
                &&& ack_delay <= MAX_VARINT
                &&& ack_range_count <= MAX_VARINT
                &&& first_ack_range <= MAX_VARINT
                &&& ranges_fit(ack_ranges)
                &&& (ecn_counts matches Some(e) ==> e.ect0 <= MAX_VARINT && e.ect1 <= MAX_VARINT
                    && e.ecn_ce <= MAX_VARINT)
            },
            FrameView::ResetStream { stream_id, application_error_code, final_size } => stream_id
                <= MAX_VARINT && application_error_code <= MAX_VARINT && final_size <= MAX_VARINT,
            FrameView::StopSending { stream_id, application_error_code } => stream_id <= MAX_VARINT
                && application_error_code <= MAX_VARINT,
            FrameView::Crypto { offset, data } => offset <= MAX_VARINT && data.len() <= MAX_VARINT,
            FrameView::NewToken { token } => token.len() <= MAX_VARINT,
            FrameView::Stream { stream_id, offset, length, .. } => stream_id <= MAX_VARINT && offset
                <= MAX_VARINT && (length matches Some(n) ==> n <= MAX_VARINT),
            FrameView::MaxData { maximum_data } => maximum_data <= MAX_VARINT,
            FrameView::MaxStreamData { stream_id, maximum_stream_data } => stream_id <= MAX_VARINT
                && maximum_stream_data <= MAX_VARINT,
            FrameView::MaxStreams { maximum_streams, .. } => maximum_streams <= MAX_VARINT,
            FrameView::DataBlocked { maximum_data } => maximum_data <= MAX_VARINT,
            FrameView::StreamDataBlocked { stream_id, maximum_stream_data } => stream_id
                <= MAX_VARINT && maximum_stream_data <= MAX_VARINT,
            FrameView::StreamsBlocked { maximum_streams, .. } => maximum_streams <= MAX_VARINT,
            FrameView::NewConnectionId { sequence_number, retire_prior_to, .. } => sequence_number
                <= MAX_VARINT && retire_prior_to <= MAX_VARINT,
            FrameView::RetireConnectionId { sequence_number } => sequence_number <= MAX_VARINT,
            FrameView::ConnectionClose { error_code, frame_type, reason_phrase } => error_code
                <= MAX_VARINT && (frame_type matches Some(t) ==> t <= MAX_VARINT)
                && reason_phrase.len() <= MAX_VARINT,
            _ => true,
        }
    }

    /// The bytes on the wire.
    pub open spec fn bytes(self) -> Seq<u8> {
        match self {
            FrameView::Padding => seq![0x00u8],
            FrameView::Ping => seq![0x01u8],
            FrameView::Ack {
                largest_acknowledged,
                ack_delay,
                ack_range_count,
                first_ack_range,
                ack_ranges,
                ecn_counts,
            } => seq![if ecn_counts is Some { 0x03u8 } else { 0x02u8 }] + varint_bytes(
                largest_acknowledged as nat,
            ) + varint_bytes(ack_delay as nat) + varint_bytes(ack_range_count as nat)
                + varint_bytes(first_ack_range as nat) + ranges_bytes(ack_ranges) + ecn_bytes(
                ecn_counts,
            ),
            FrameView::ResetStream { stream_id, application_error_code, final_size } => seq![0x04u8]
                + varint_bytes(stream_id as nat) + varint_bytes(application_error_code as nat)
                + varint_bytes(final_size as nat),
            FrameView::StopSending { stream_id, application_error_code } => seq![0x05u8]
                + varint_bytes(stream_id as nat) + varint_bytes(application_error_code as nat),
            FrameView::Crypto { offset, data } => seq![0x06u8] + varint_bytes(offset as nat)
                + varint_bytes(data.len()) + data,
            FrameView::NewToken { token } => seq![0x07u8] + varint_bytes(token.len()) + token,
            FrameView::Stream { stream_id, offset, length, fin, data } => seq![
                stream_type_byte(offset != 0, length is Some, fin),
            ] + varint_bytes(stream_id as nat) + option_bytes(
                if offset != 0 {
                    Some(offset)
                } else {
                    None
                },
            ) + option_bytes(length) + data,
            FrameView::MaxData { maximum_data } => seq![0x10u8] + varint_bytes(maximum_data as nat),
            FrameView::MaxStreamData { stream_id, maximum_stream_data } => seq![0x11u8]
                + varint_bytes(stream_id as nat) + varint_bytes(maximum_stream_data as nat),
            FrameView::MaxStreams { stream_type, maximum_streams } => seq![
                if stream_type == StreamType::Bidirectional { 0x12u8 } else { 0x13u8 },
            ] + varint_bytes(maximum_streams as nat),
            FrameView::DataBlocked { maximum_data } => seq![0x14u8] + varint_bytes(
                maximum_data as nat,
            ),
            FrameView::StreamDataBlocked { stream_id, maximum_stream_data } => seq![0x15u8]
                + varint_bytes(stream_id as nat) + varint_bytes(maximum_stream_data as nat),
            FrameView::StreamsBlocked { stream_type, maximum_streams } => seq![
                if stream_type == StreamType::Bidirectional { 0x16u8 } else { 0x17u8 },
            ] + varint_bytes(maximum_streams as nat),
            FrameView::NewConnectionId {
                sequence_number,
                retire_prior_to,
                connection_id,
                stateless_reset_token,
            } => seq![0x18u8] + varint_bytes(sequence_number as nat) + varint_bytes(
                retire_prior_to as nat,
            ) + seq![(connection_id.len() % 256) as u8] + connection_id + stateless_reset_token,
            FrameView::RetireConnectionId { sequence_number } => seq![0x19u8] + varint_bytes(
                sequence_number as nat,
            ),
            FrameView::PathChallenge { data } => seq![0x1au8] + data,
            FrameView::PathResponse { data } => seq![0x1bu8] + data,
            FrameView::ConnectionClose { error_code, frame_type, reason_phrase } => seq![
                if frame_type is Some { 0x1cu8 } else { 0x1du8 },
            ] + varint_bytes(error_code as nat) + option_bytes(frame_type) + varint_bytes(
                reason_phrase.len(),
            ) + reason_phrase,
            FrameView::HandshakeDone => seq![0x1eu8],
        }
    }

    /// Whether the fields agree with each other, so that the frame can be read back.
    pub open spec fn valid(self) -> bool {
        &&& self.encodable()
        &&& match self {
            FrameView::Ack { ack_range_count, ack_ranges, .. } => ack_range_count
                == ack_ranges.len(),
            FrameView::Stream { length, data, .. } => length matches Some(n) ==> n == data.len(),
            FrameView::NewConnectionId { connection_id, stateless_reset_token, .. } =>
                connection_id.len() <= 255 && stateless_reset_token.len() == 16,
            FrameView::PathChallenge { data } => data.len() == 8,
            FrameView::PathResponse { data } => data.len() == 8,
            _ => true,
        }
    }

    /// Whether the frame takes up all that follows it: a STREAM frame without a length.
    pub open spec fn takes_all(self) -> bool {
        self matches FrameView::Stream { length, .. } && length is None
    }
}

/// Reads `n` bytes.
pub open spec fn take_bytes(s: Seq<u8>, n: int) -> Option<(Seq<u8>, Seq<u8>)> {
    if s.len() < n {
        None
    } else {
        Some((s.take(n), s.skip(n)))
    }
}

/// Reads a length and as many bytes.
pub open spec fn take_prefixed(s: Seq<u8>) -> Option<(Seq<u8>, Seq<u8>)> {
    match take_varint(s) {
        None => None,
        Some((n, s1)) => take_bytes(s1, n as int),
    }
}

/// Reads a number where the frame type says that there is one.
pub open spec fn take_optional(present: bool, s: Seq<u8>) -> Option<(Option<u64>, Seq<u8>)> {
    if !present {
        Some((None, s))
    } else {
        match take_varint(s) {
            None => None,
            Some((v, s1)) => Some((Some(v), s1)),
        }
    }
}

/// Reads two numbers.
pub open spec fn take2(s: Seq<u8>) -> Option<((u64, u64), Seq<u8>)> {
    match take_varint(s) {
        None => None,
        Some((a, s1)) => match take_varint(s1) {
            None => None,
            Some((b, s2)) => Some(((a, b), s2)),
        },
    }
}

/// Reads three numbers.
pub open spec fn take3(s: Seq<u8>) -> Option<((u64, u64, u64), Seq<u8>)> {
    match take2(s) {
        None => None,
        Some(((a, b), s2)) => match take_varint(s2) {
            None => None,
            Some((c, s3)) => Some(((a, b, c), s3)),
        },
    }
}

/// Reads `n` ACK ranges.
pub open spec fn take_ranges(s: Seq<u8>, n: nat) -> Option<(Seq<AckRange>, Seq<u8>)>
    decreases n,
{
    if n == 0 {
        Some((Seq::empty(), s))
    } else {
        match take_ranges(s, (n - 1) as nat) {
            None => None,
            Some((ranges, s1)) => match take2(s1) {
                None => None,
                Some(((gap, ack_range_length), s2)) => Some(
                    (ranges.push(AckRange { gap, ack_range_length }), s2),
                ),
            },
        }
    }
}

/// Reads ECN counts where the frame type says that there are some.
pub open spec fn take_ecn(present: bool, s: Seq<u8>) -> Option<(Option<EcnCounts>, Seq<u8>)> {
    if !present {
        Some((None, s))
    } else {
        match take3(s) {
            None => None,
            Some(((ect0, ect1, ecn_ce), s1)) => Some((Some(EcnCounts { ect0, ect1, ecn_ce }), s1)),
        }
    }
}

/// Reads the fields of an ACK frame.
pub open spec fn parse_ack(with_ecn: bool, s: Seq<u8>) -> Option<(FrameView, Seq<u8>)> {
    match take3(s) {
        None => None,
        Some(((largest_acknowledged, ack_delay, ack_range_count), s3)) => match take_varint(s3) {
            None => None,
            Some((first_ack_range, s4)) => match take_ranges(s4, ack_range_count as nat) {
                None => None,
                Some((ack_ranges, s5)) => match take_ecn(with_ecn, s5) {
                    None => None,
                    Some((ecn_counts, s6)) => Some(
                        (
                            FrameView::Ack {
                                largest_acknowledged,
                                ack_delay,
                                ack_range_count,
                                first_ack_range,
                                ack_ranges,
                                ecn_counts,
                            },
                            s6,
                        ),
                    ),
                },
            },
        },
    }
}

/// Reads the fields of a STREAM frame of the given type.
pub open spec fn parse_stream(t: u8, s: Seq<u8>) -> Option<(FrameView, Seq<u8>)> {
    match take_varint(s) {
        None => None,
        Some((stream_id, s1)) => match take_optional(t & 0x04 != 0, s1) {
            None => None,
            Some((offset, s2)) => match take_optional(t & 0x02 != 0, s2) {
                None => None,
                Some((length, s3)) => {
                    let n = match length {
                        Some(n) => n as int,
                        None => s3.len() as int,
                    };
                    match take_bytes(s3, n) {
                        None => None,
                        Some((data, s4)) => Some(
                            (
                                FrameView::Stream {
                                    stream_id,
                                    offset: match offset {
                                        Some(o) => o,
                                        None => 0,
                                    },
                                    length,
                                    fin: t & 0x01 != 0,
                                    data,
                                },
                                s4,
                            ),
                        ),
                    }
                },
            },
        },
    }
}

/// Reads the fields of a NEW_CONNECTION_ID frame.
pub open spec fn parse_new_connection_id(s: Seq<u8>) -> Option<(FrameView, Seq<u8>)> {
    match take2(s) {
        None => None,
        Some(((sequence_number, retire_prior_to), s2)) => if s2.len() == 0 || s2.len() - 1 < s2[0]
            + 16 {
            None
        } else {
            let n = s2[0] as int;
            let s3 = s2.skip(1);
            Some(
                (
                    FrameView::NewConnectionId {
                        sequence_number,
                        retire_prior_to,
                        connection_id: s3.take(n),
                        stateless_reset_token: s3.skip(n).take(16),
                    },
                    s3.skip(n).skip(16),
                ),
            )
        },
    }
}

/// Reads the fields of a CONNECTION_CLOSE frame.
pub open spec fn parse_close(with_type: bool, s: Seq<u8>) -> Option<(FrameView, Seq<u8>)> {
    match take_varint(s) {
        None => None,
        Some((error_code, s1)) => match take_optional(with_type, s1) {
            None => None,
            Some((frame_type, s2)) => match take_prefixed(s2) {
                None => None,
                Some((reason_phrase, s3)) => Some(
                    (FrameView::ConnectionClose { error_code, frame_type, reason_phrase }, s3),
                ),
            },
        },
    }
}

/// Reads the fields of a frame that holds one number.
pub open spec fn parse_one(t: u8, s: Seq<u8>) -> Option<(FrameView, Seq<u8>)> {
    match take_varint(s) {
        None => None,
        Some((v, s1)) => Some(
            (
                if t == 0x10 {
                    FrameView::MaxData { maximum_data: v }
                } else if t == 0x12 {
                    FrameView::MaxStreams {
                        stream_type: StreamType::Bidirectional,
                        maximum_streams: v,
                    }
                } else if t == 0x13 {
                    FrameView::MaxStreams {
                        stream_type: StreamType::Unidirectional,
                        maximum_streams: v,
                    }
                } else if t == 0x14 {
                    FrameView::DataBlocked { maximum_data: v }
                } else if t == 0x16 {
                    FrameView::StreamsBlocked {
                        stream_type: StreamType::Bidirectional,
                        maximum_streams: v,
                    }
                } else if t == 0x17 {
                    FrameView::StreamsBlocked {
                        stream_type: StreamType::Unidirectional,
                        maximum_streams: v,
                    }
                } else {
                    FrameView::RetireConnectionId { sequence_number: v }
                },
                s1,
            ),
        ),
    }
}

/// Reads the fields of a frame that holds two numbers.
pub open spec fn parse_two(t: u8, s: Seq<u8>) -> Option<(FrameView, Seq<u8>)> {
    match take2(s) {
        None => None,
        Some(((stream_id, v), s2)) => Some(
            (
                if t == 0x05 {
                    FrameView::StopSending { stream_id, application_error_code: v }
                } else if t == 0x11 {
                    FrameView::MaxStreamData { stream_id, maximum_stream_data: v }
                } else {
                    FrameView::StreamDataBlocked { stream_id, maximum_stream_data: v }
                },
                s2,
            ),
        ),
    }
}

/// Reads the fields of a frame of type `t`, which is at most `0x1e`.
pub open spec fn parse_fields(t: u8, s: Seq<u8>) -> Option<(FrameView, Seq<u8>)> {
    if t == 0x00 {
        Some((FrameView::Padding, s))
    } else if t == 0x01 {
        Some((FrameView::Ping, s))
    } else if t == 0x02 || t == 0x03 {
        parse_ack(t == 0x03, s)
    } else if t == 0x04 {
        match take3(s) {
            None => None,
            Some(((stream_id, application_error_code, final_size), s3)) => Some(
                (FrameView::ResetStream { stream_id, application_error_code, final_size }, s3),
            ),
        }
    } else if t == 0x06 {
        match take_varint(s) {
            None => None,
            Some((offset, s1)) => match take_prefixed(s1) {
                None => None,
                Some((data, s2)) => Some((FrameView::Crypto { offset, data }, s2)),
            },
        }
    } else if t == 0x07 {
        match take_prefixed(s) {
            None => None,
            Some((token, s1)) => Some((FrameView::NewToken { token }, s1)),
        }
    } else if 0x08 <= t <= 0x0f {
        parse_stream(t, s)
    } else if t == 0x05 || t == 0x11 || t == 0x15 {
        parse_two(t, s)
    } else if t == 0x18 {
        parse_new_connection_id(s)
    } else if t == 0x1a {
        match take_bytes(s, 8) {
            None => None,
            Some((data, s1)) => Some((FrameView::PathChallenge { data }, s1)),
        }
    } else if t == 0x1b {
        match take_bytes(s, 8) {
            None => None,
            Some((data, s1)) => Some((FrameView::PathResponse { data }, s1)),
        }
    } else if t == 0x1c || t == 0x1d {
        parse_close(t == 0x1c, s)
    } else if t == 0x1e {
        Some((FrameView::HandshakeDone, s))
    } else {
        parse_one(t, s)
    }
}

/// Reads a frame, and says what follows it.
pub open spec fn parse_frame(s: Seq<u8>) -> Result<(FrameView, Seq<u8>), Error> {
    if s.len() == 0 {
        Err(Error::Incomplete)
    } else if s[0] > 0x1e {
        Err(Error::InvalidFrame { frame_type: s[0] as u64, reason: "Unknown frame type" })
    } else {
        match parse_fields(s[0], s.skip(1)) {
            None => Err(Error::Incomplete),
            Some(p) => Ok(p),
        }
    }
}

/// What a decoding step says: the value and the rest, or an incomplete input.
pub open spec fn decoded(
    p: Option<(FrameView, Seq<u8>)>,
    r: Result<Frame, Error>,
    rest: Seq<u8>,
) -> bool {
    match p {
        Some((v, s)) => r is Ok && r->Ok_0@ == v && rest == s,
        None => r == Err::<Frame, Error>(Error::Incomplete),
    }
}

/// Where fewer ranges cannot be read, more cannot either.
proof fn lemma_take_ranges_none(s: Seq<u8>, n: nat, m: nat)
    requires
        n <= m,
        take_ranges(s, n) is None,
    ensures
        take_ranges(s, m) is None,
    decreases m,
{
    if n < m {
        lemma_take_ranges_none(s, n, (m - 1) as nat);
    }
}

/// Reads a length and as many bytes off the front of `buf`.
fn decode_prefixed(buf: &mut Bytes) -> (r: Result<Bytes, Error>)
    ensures
        is_tail(contents(*final(buf)), contents(*old(buf))),
        match take_prefixed(contents(*old(buf))) {
            Some((data, rest)) => r is Ok && contents(r->Ok_0) == data && contents(*final(buf))
                == rest,
            None => r == Err::<Bytes, Error>(Error::Incomplete),
        },
{
    let length: u64 = VarInt::decode(buf)?.into_inner();
    if (buf.len() as u64) < length {
        return Err(Error::Incomplete);
    }
    Ok(buf.split_to(length as usize))
}

/// Reads the fields of an ACK frame off the front of `buf`.
fn decode_ack(with_ecn: bool, buf: &mut Bytes) -> (r: Result<Frame, Error>)
    ensures
        is_tail(contents(*final(buf)), contents(*old(buf))),
        decoded(parse_ack(with_ecn, contents(*old(buf))), r, contents(*final(buf))),
{
    let ghost s = contents(*buf);
    let largest_acknowledged: u64 = VarInt::decode(buf)?.into_inner();
    let ack_delay: u64 = VarInt::decode(buf)?.into_inner();
    let ack_range_count: u64 = VarInt::decode(buf)?.into_inner();
    let first_ack_range: u64 = VarInt::decode(buf)?.into_inner();
    let ghost s4 = contents(*buf);
    assert(is_tail(s4, s));
    let mut ack_ranges: Vec<AckRange> = Vec::new();
    let mut i: u64 = 0;
    while i < ack_range_count
        invariant
            i <= ack_range_count,
            is_tail(contents(*buf), s4),
            is_tail(s4, s),
            s == contents(*old(buf)),
            take_ranges(s4, i as nat) == Some((ack_ranges@, contents(*buf))),
            take_ranges(s4, ack_range_count as nat) is None ==> parse_ack(with_ecn, s) is None,
        decreases ack_range_count - i,
    {
        proof {
            if take_ranges(s4, (i + 1) as nat) is None {
                lemma_take_ranges_none(s4, (i + 1) as nat, ack_range_count as nat);
            }
        }
        let gap: u64 = VarInt::decode(buf)?.into_inner();
        let ack_range_length: u64 = VarInt::decode(buf)?.into_inner();
        ack_ranges.push(AckRange { gap, ack_range_length });
        i += 1;
    }
    let ecn_counts: Option<EcnCounts> = if with_ecn {
        let ect0: u64 = VarInt::decode(buf)?.into_inner();
        let ect1: u64 = VarInt::decode(buf)?.into_inner();
        let ecn_ce: u64 = VarInt::decode(buf)?.into_inner();
        Some(EcnCounts { ect0, ect1, ecn_ce })
    } else {
        None
    };
    Ok(
        Frame::Ack {
            largest_acknowledged,
            ack_delay,
            ack_range_count,
            first_ack_range,
            ack_ranges,
            ecn_counts,
        },
    )
}

/// Reads the fields of a STREAM frame off the front of `buf`.
fn decode_stream(frame_type: u8, buf: &mut Bytes) -> (r: Result<Frame, Error>)
    ensures
        is_tail(contents(*final(buf)), contents(*old(buf))),
        decoded(parse_stream(frame_type, contents(*old(buf))), r, contents(*final(buf))),
{
    let fin: bool = (frame_type & 0x01) != 0;
    let has_length: bool = (frame_type & 0x02) != 0;
    let has_offset: bool = (frame_type & 0x04) != 0;
    let stream_id: StreamId = StreamId::from_raw(VarInt::decode(buf)?.into_inner());
    let offset: u64 = if has_offset {
        VarInt::decode(buf)?.into_inner()
    } else {
        0
    };
    let length: Option<u64> = if has_length {
        Some(VarInt::decode(buf)?.into_inner())
    } else {
        None
    };
    let have: usize = buf.len();
    let data_len: u64 = match length {
        Some(len) => len,
        None => have as u64,
    };
    if (have as u64) < data_len {
        return Err(Error::Incomplete);
    }
    let data: Bytes = buf.split_to(data_len as usize);
    Ok(Frame::Stream { stream_id, offset, length, fin, data })
}

/// Reads the fields of a NEW_CONNECTION_ID frame off the front of `buf`.
fn decode_new_connection_id(buf: &mut Bytes) -> (r: Result<Frame, Error>)
    ensures
        is_tail(contents(*final(buf)), contents(*old(buf))),
        decoded(parse_new_connection_id(contents(*old(buf))), r, contents(*final(buf))),
{
    let sequence_number: u64 = VarInt::decode(buf)?.into_inner();
    let retire_prior_to: u64 = VarInt::decode(buf)?.into_inner();
    if buf.is_empty() {
        return Err(Error::Incomplete);
    }
    let cid_len: usize = get_u8(buf) as usize;
    if buf.len() < cid_len + 16 {
        return Err(Error::Incomplete);
    }
    let cid: Bytes = buf.split_to(cid_len);
    let connection_id: ConnectionId = ConnectionId::from_slice(&cid);
    let stateless_reset_token: [u8; 16] = get_array::<16>(buf);
    Ok(
        Frame::NewConnectionId {
            sequence_number,
            retire_prior_to,
            connection_id,
            stateless_reset_token,
        },
    )
}

/// Reads the fields of a CONNECTION_CLOSE frame off the front of `buf`.
fn decode_close(with_type: bool, buf: &mut Bytes) -> (r: Result<Frame, Error>)
    ensures
        is_tail(contents(*final(buf)), contents(*old(buf))),
        decoded(parse_close(with_type, contents(*old(buf))), r, contents(*final(buf))),
{
    let ghost s = contents(*buf);
    let error_code: u64 = VarInt::decode(buf)?.into_inner();
    let frame_type: Option<u64> = if with_type {
        Some(VarInt::decode(buf)?.into_inner())
    } else {
        None
    };
    assert(is_tail(contents(*buf), s));
    let reason_phrase: Bytes = decode_prefixed(buf)?;
    Ok(Frame::ConnectionClose { error_code, frame_type, reason_phrase })
}

/// Appends ACK ranges to `buf`.
fn encode_ranges(ranges: &Vec<AckRange>, buf: &mut BytesMut) -> (r: Result<(), Error>)
    ensures
        ranges_fit(ranges@) ==> r == Ok::<(), Error>(()) && written(*final(buf)) == written(
            *old(buf),
        ) + ranges_bytes(ranges@),
        !ranges_fit(ranges@) ==> r == Err::<(), Error>(Error::VarIntRange),
        written(*old(buf)).is_prefix_of(written(*final(buf))),
{
    let ghost w = written(*buf);
    let mut i: usize = 0;
    assert(w =~= w + ranges_bytes(ranges@.take(0)));
    while i < ranges.len()
        invariant
            i <= ranges@.len(),
            w == written(*old(buf)),
            written(*buf) == w + ranges_bytes(ranges@.take(i as int)),
            forall|j: int|
                0 <= j < i ==> (#[trigger] ranges@[j]).gap <= MAX_VARINT
                    && ranges@[j].ack_range_length <= MAX_VARINT,
        decreases ranges.len() - i,
    {
        let range: AckRange = ranges[i];
        VarInt(range.gap).encode(buf)?;
        VarInt(range.ack_range_length).encode(buf)?;
        proof {
            let t = ranges@.take(i + 1);
            assert(t.drop_last() =~= ranges@.take(i as int));
            assert(written(*buf) =~= w + ranges_bytes(t));
        }
        i += 1;
    }
    assert(ranges@.take(i as int) =~= ranges@);
    Ok(())
}

/// Appends an optional number to `buf`.
fn encode_optional(value: Option<u64>, buf: &mut BytesMut) -> (r: Result<(), Error>)
    ensures
        (value matches Some(v) ==> v <= MAX_VARINT) ==> r == Ok::<(), Error>(()) && written(
            *final(buf),
        ) == written(*old(buf)) + option_bytes(value),
        (value matches Some(v) && v > MAX_VARINT) ==> r == Err::<(), Error>(Error::VarIntRange),
        written(*old(buf)).is_prefix_of(written(*final(buf))),
{
    if let Some(v) = value {
        VarInt(v).encode(buf)?;
    } else {
        assert(written(*buf) =~= written(*old(buf)) + option_bytes(value));
    }
    Ok(())
}

/// Appends an ACK frame to `buf`.
fn encode_ack(
    largest_acknowledged: u64,
    ack_delay: u64,
    ack_range_count: u64,
    first_ack_range: u64,
    ack_ranges: &Vec<AckRange>,
    ecn_counts: Option<EcnCounts>,
    buf: &mut BytesMut,
) -> (r: Result<(), Error>)
    ensures
        ({
            let v = FrameView::Ack {
                largest_acknowledged,
                ack_delay,
                ack_range_count,
                first_ack_range,
                ack_ranges: ack_ranges@,
                ecn_counts,
            };
            &&& v.encodable() ==> r == Ok::<(), Error>(()) && written(*final(buf)) == written(
                *old(buf),
            ) + v.bytes()
            &&& !v.encodable() ==> r == Err::<(), Error>(Error::VarIntRange)
        }),
        written(*old(buf)).is_prefix_of(written(*final(buf))),
{
    let ghost w = written(*buf);
    let frame_type: u8 = if ecn_counts.is_some() { 0x03 } else { 0x02 };
    put_u8(buf, frame_type);
    VarInt(largest_acknowledged).encode(buf)?;
    VarInt(ack_delay).encode(buf)?;
    VarInt(ack_range_count).encode(buf)?;
    VarInt(first_ack_range).encode(buf)?;
    encode_ranges(ack_ranges, buf)?;
    if let Some(ecn) = ecn_counts {
        VarInt(ecn.ect0).encode(buf)?;
        VarInt(ecn.ect1).encode(buf)?;
        VarInt(ecn.ecn_ce).encode(buf)?;
    }
    assert(written(*buf) =~= w + (FrameView::Ack {
        largest_acknowledged,
        ack_delay,
        ack_range_count,
        first_ack_range,
        ack_ranges: ack_ranges@,
        ecn_counts,
    }).bytes());
    Ok(())
}

/// Appends a STREAM frame to `buf`.
fn encode_stream(
    stream_id: StreamId,
    offset: u64,
    length: Option<u64>,
    fin: bool,
    data: &Bytes,
    buf: &mut BytesMut,
) -> (r: Result<(), Error>)
    ensures
        ({
            let v = FrameView::Stream {
                stream_id: stream_id@,
                offset,
                length,
                fin,
                data: contents(*data),
            };
            &&& v.encodable() ==> r == Ok::<(), Error>(()) && written(*final(buf)) == written(
                *old(buf),
            ) + v.bytes()
            &&& !v.encodable() ==> r == Err::<(), Error>(Error::VarIntRange)
        }),
        written(*old(buf)).is_prefix_of(written(*final(buf))),
{
    let ghost w = written(*buf);
    let mut frame_type: u8 = 0x08;
    if fin {
        frame_type += 0x01;
    }
    if length.is_some() {
        frame_type += 0x02;
    }
    if offset != 0 {
        frame_type += 0x04;
    }
    put_u8(buf, frame_type);
    VarInt(stream_id.into_inner()).encode(buf)?;
    encode_optional(if offset != 0 { Some(offset) } else { None }, buf)?;
    encode_optional(length, buf)?;
    buf.extend_from_slice(data);
    assert(written(*buf) =~= w + (FrameView::Stream {
        stream_id: stream_id@,
        offset,
        length,
        fin,
        data: contents(*data),
    }).bytes());
    Ok(())
}

/// Appends a type byte and a number to `buf`.
fn encode_one(frame_type: u8, v: u64, buf: &mut BytesMut) -> (r: Result<(), Error>)
    ensures
        v <= MAX_VARINT ==> r == Ok::<(), Error>(()) && written(*final(buf)) == written(*old(buf))
            + (seq![frame_type] + varint_bytes(v as nat)),
        v > MAX_VARINT ==> r == Err::<(), Error>(Error::VarIntRange),
        written(*old(buf)).is_prefix_of(written(*final(buf))),
{
    let ghost w = written(*buf);
    put_u8(buf, frame_type);
    VarInt(v).encode(buf)?;
    assert(written(*buf) =~= w + (seq![frame_type] + varint_bytes(v as nat)));
    Ok(())
}

/// Appends a type byte and two numbers to `buf`.
fn encode_two(frame_type: u8, a: u64, b: u64, buf: &mut BytesMut) -> (r: Result<(), Error>)
    ensures
        a <= MAX_VARINT && b <= MAX_VARINT ==> r == Ok::<(), Error>(()) && written(*final(buf))
            == written(*old(buf)) + (seq![frame_type] + varint_bytes(a as nat) + varint_bytes(
            b as nat,
        )),
        a > MAX_VARINT || b > MAX_VARINT ==> r == Err::<(), Error>(Error::VarIntRange),
        written(*old(buf)).is_prefix_of(written(*final(buf))),
{
    let ghost w = written(*buf);
    encode_one(frame_type, a, buf)?;
    VarInt(b).encode(buf)?;
    assert(written(*buf) =~= w + (seq![frame_type] + varint_bytes(a as nat) + varint_bytes(
        b as nat,
    )));
    Ok(())
}

/// Appends a length and as many bytes to `buf`.
fn encode_prefixed(data: &Bytes, buf: &mut BytesMut) -> (r: Result<(), Error>)
    ensures
        contents(*data).len() <= MAX_VARINT ==> r == Ok::<(), Error>(()) && written(*final(buf))
            == written(*old(buf)) + (varint_bytes(contents(*data).len()) + contents(*data)),
        contents(*data).len() > MAX_VARINT ==> r == Err::<(), Error>(Error::VarIntRange),
        written(*old(buf)).is_prefix_of(written(*final(buf))),
{
    let ghost w = written(*buf);
    VarInt(data.len() as u64).encode(buf)?;
    buf.extend_from_slice(data);
    assert(written(*buf) =~= w + (varint_bytes(contents(*data).len()) + contents(*data)));
    Ok(())
}

/// Whether a frame may travel in a packet of the given type.
pub open spec fn allowed_in(f: FrameView, packet_type: PacketType) -> bool {
    match f {
        FrameView::Padding | FrameView::Ping | FrameView::ConnectionClose { .. } => true,
        FrameView::Ack { .. } | FrameView::Crypto { .. } => packet_type == PacketType::Initial
            || packet_type == PacketType::Handshake || packet_type == PacketType::OneRtt,
        FrameView::ResetStream { .. } | FrameView::StopSending { .. } => packet_type
            == PacketType::ZeroRtt || packet_type == PacketType::OneRtt,
        _ => packet_type == PacketType::OneRtt,
    }
}

impl Frame {
    /// Encode frame to buffer
    pub fn encode(&self, buf: &mut BytesMut) -> (r: Result<(), Error>)
        ensures
            self@.encodable() ==> r == Ok::<(), Error>(()) && written(*final(buf)) == written(
                *old(buf),
            ) + self@.bytes(),
            !self@.encodable() ==> r == Err::<(), Error>(Error::VarIntRange),
            written(*old(buf)).is_prefix_of(written(*final(buf))),
    {
        let ghost w = written(*buf);
        match self {
            Frame::Padding => {
                put_u8(buf, 0x00);
            },
            Frame::Ping => {
                put_u8(buf, 0x01);
            },
            Frame::Ack {
                largest_acknowledged,
                ack_delay,
                ack_range_count,
                first_ack_range,
                ack_ranges,
                ecn_counts,
            } => {
                encode_ack(
                    *largest_acknowledged,
                    *ack_delay,
                    *ack_range_count,
                    *first_ack_range,
                    ack_ranges,
                    *ecn_counts,
                    buf,
                )?;
            },
            Frame::ResetStream { stream_id, application_error_code, final_size } => {
                encode_two(0x04, stream_id.into_inner(), *application_error_code, buf)?;
                VarInt(*final_size).encode(buf)?;
            },
            Frame::StopSending { stream_id, application_error_code } => {
                encode_two(0x05, stream_id.into_inner(), *application_error_code, buf)?;
            },
            Frame::Crypto { offset, data } => {
                encode_one(0x06, *offset, buf)?;
                encode_prefixed(data, buf)?;
            },
            Frame::NewToken { token } => {
                put_u8(buf, 0x07);
                encode_prefixed(token, buf)?;
            },
            Frame::Stream { stream_id, offset, length, fin, data } => {
                encode_stream(*stream_id, *offset, *length, *fin, data, buf)?;
            },
            Frame::MaxData { maximum_data } => {
                encode_one(0x10, *maximum_data, buf)?;
            },
            Frame::MaxStreamData { stream_id, maximum_stream_data } => {
                encode_two(0x11, stream_id.into_inner(), *maximum_stream_data, buf)?;
            },
            Frame::MaxStreams { stream_type, maximum_streams } => {
                let frame_type: u8 = match stream_type {
                    StreamType::Bidirectional => 0x12,
                    StreamType::Unidirectional => 0x13,
                };
                encode_one(frame_type, *maximum_streams, buf)?;
            },
            Frame::DataBlocked { maximum_data } => {
                encode_one(0x14, *maximum_data, buf)?;
            },
            Frame::StreamDataBlocked { stream_id, maximum_stream_data } => {
                encode_two(0x15, stream_id.into_inner(), *maximum_stream_data, buf)?;
            },
            Frame::StreamsBlocked { stream_type, maximum_streams } => {
                let frame_type: u8 = match stream_type {
                    StreamType::Bidirectional => 0x16,
                    StreamType::Unidirectional => 0x17,
                };
                encode_one(frame_type, *maximum_streams, buf)?;
            },
            Frame::NewConnectionId {
                sequence_number,
                retire_prior_to,
                connection_id,
                stateless_reset_token,
            } => {
                encode_two(0x18, *sequence_number, *retire_prior_to, buf)?;
                put_u8(buf, (connection_id.len() % 256) as u8);
                buf.extend_from_slice(connection_id.as_bytes());
                buf.extend_from_slice(stateless_reset_token);
            },
            Frame::RetireConnectionId { sequence_number } => {
                encode_one(0x19, *sequence_number, buf)?;
            },
            Frame::PathChallenge { data } => {
                put_u8(buf, 0x1a);
                buf.extend_from_slice(data);
            },
            Frame::PathResponse { data } => {
                put_u8(buf, 0x1b);
                buf.extend_from_slice(data);
            },
            Frame::ConnectionClose { error_code, frame_type, reason_phrase } => {
                let type_byte: u8 = if frame_type.is_some() { 0x1c } else { 0x1d };
                encode_one(type_byte, *error_code, buf)?;
                encode_optional(*frame_type, buf)?;
                encode_prefixed(reason_phrase, buf)?;
            },
            Frame::HandshakeDone => {
                put_u8(buf, 0x1e);
            },
        }
        assert(written(*buf) =~= w + self@.bytes());
        Ok(())
    }

    /// Check if frame is allowed in packet type
    pub fn is_allowed_in_packet_type(&self, packet_type: PacketType) -> (r: bool)
        ensures
            r == allowed_in(self@, packet_type),
    {
        match self {
            Frame::Padding | Frame::Ping => true,
            Frame::Ack { .. } | Frame::Crypto { .. } => matches!(
                packet_type,
                PacketType::Initial | PacketType::Handshake | PacketType::OneRtt
            ),
            Frame::ResetStream { .. } | Frame::StopSending { .. } => matches!(
                packet_type,
                PacketType::ZeroRtt | PacketType::OneRtt
            ),
            Frame::ConnectionClose { .. } => true,
            _ => matches!(packet_type, PacketType::OneRtt),
        }
    }

    /// Decode frame from buffer
    pub fn decode(buf: &mut Bytes) -> (r: Result<Frame, Error>)
        ensures
            is_tail(contents(*final(buf)), contents(*old(buf))),
            match parse_frame(contents(*old(buf))) {
                Ok((v, rest)) => r is Ok && r->Ok_0@ == v && contents(*final(buf)) == rest,
                Err(e) => r == Err::<Frame, Error>(e),
            },
    {
        let ghost s = contents(*buf);
        if buf.is_empty() {
            return Err(Error::Incomplete);
        }
        let frame_type: u8 = get_u8(buf);
        assert(is_tail(contents(*buf), s));
        match frame_type {
            0x00 => Ok(Frame::Padding),
            0x01 => Ok(Frame::Ping),
            0x02 => decode_ack(false, buf),
            0x03 => decode_ack(true, buf),
            0x04 => {
                let stream_id: StreamId = StreamId::from_raw(VarInt::decode(buf)?.into_inner());
                let application_error_code: u64 = VarInt::decode(buf)?.into_inner();
                let final_size: u64 = VarInt::decode(buf)?.into_inner();
                Ok(Frame::ResetStream { stream_id, application_error_code, final_size })
            },
            0x05 => {
                let stream_id: StreamId = StreamId::from_raw(VarInt::decode(buf)?.into_inner());
                let application_error_code: u64 = VarInt::decode(buf)?.into_inner();
                Ok(Frame::StopSending { stream_id, application_error_code })
            },
            0x06 => {
                let offset: u64 = VarInt::decode(buf)?.into_inner();
                assert(is_tail(contents(*buf), s));
                let data: Bytes = decode_prefixed(buf)?;
                Ok(Frame::Crypto { offset, data })
            },
            0x07 => {
                let token: Bytes = decode_prefixed(buf)?;
                Ok(Frame::NewToken { token })
            },
            0x08..=0x0f => decode_stream(frame_type, buf),
            0x10 => {
                let maximum_data: u64 = VarInt::decode(buf)?.into_inner();
                Ok(Frame::MaxData { maximum_data })
            },
            0x11 => {
                let stream_id: StreamId = StreamId::from_raw(VarInt::decode(buf)?.into_inner());
                let maximum_stream_data: u64 = VarInt::decode(buf)?.into_inner();
                Ok(Frame::MaxStreamData { stream_id, maximum_stream_data })
            },
            0x12 => {
                let maximum_streams: u64 = VarInt::decode(buf)?.into_inner();
                Ok(Frame::MaxStreams { stream_type: StreamType::Bidirectional, maximum_streams })
            },
            0x13 => {
                let maximum_streams: u64 = VarInt::decode(buf)?.into_inner();
                Ok(Frame::MaxStreams { stream_type: StreamType::Unidirectional, maximum_streams })
            },
            0x14 => {
                let maximum_data: u64 = VarInt::decode(buf)?.into_inner();
                Ok(Frame::DataBlocked { maximum_data })
            },
            0x15 => {
                let stream_id: StreamId = StreamId::from_raw(VarInt::decode(buf)?.into_inner());
                let maximum_stream_data: u64 = VarInt::decode(buf)?.into_inner();
                Ok(Frame::StreamDataBlocked { stream_id, maximum_stream_data })
            },
            0x16 => {
                let maximum_streams: u64 = VarInt::decode(buf)?.into_inner();
                Ok(Frame::StreamsBlocked { stream_type: StreamType::Bidirectional, maximum_streams })
            },
            0x17 => {
                let maximum_streams: u64 = VarInt::decode(buf)?.into_inner();
                Ok(
                    Frame::StreamsBlocked {
                        stream_type: StreamType::Unidirectional,
                        maximum_streams,
                    },
                )
            },
            0x18 => decode_new_connection_id(buf),
            0x19 => {
                let sequence_number: u64 = VarInt::decode(buf)?.into_inner();
                Ok(Frame::RetireConnectionId { sequence_number })
            },
            0x1a => {
                if buf.len() < 8 {
                    return Err(Error::Incomplete);
                }
                let data: [u8; 8] = get_array::<8>(buf);
                Ok(Frame::PathChallenge { data })
            },
            0x1b => {
                if buf.len() < 8 {
                    return Err(Error::Incomplete);
                }
                let data: [u8; 8] = get_array::<8>(buf);
                Ok(Frame::PathResponse { data })
            },
            0x1c => decode_close(true, buf),
            0x1d => decode_close(false, buf),
            0x1e => Ok(Frame::HandshakeDone),
            _ => Err(
                Error::InvalidFrame { frame_type: frame_type as u64, reason: "Unknown frame type" },
            ),
        }
    }
}

/// ACK ranges are read back from their bytes.
proof fn lemma_ranges_roundtrip(ranges: Seq<AckRange>, rest: Seq<u8>)
    requires
        ranges_fit(ranges),
    ensures
        take_ranges(ranges_bytes(ranges) + rest, ranges.len()) == Some((ranges, rest)),
    decreases ranges.len(),
{
    let s = ranges_bytes(ranges) + rest;
    if ranges.len() == 0 {
        assert(s =~= rest);
        assert(ranges =~= Seq::<AckRange>::empty());
    } else {
        let a = ranges.last();
        let tail = varint_bytes(a.gap as nat) + (varint_bytes(a.ack_range_length as nat) + rest);
        assert(s =~= ranges_bytes(ranges.drop_last()) + tail);
        assert(ranges_fit(ranges.drop_last())) by {
            assert forall|i: int| 0 <= i < ranges.len() - 1 implies (
            #[trigger] ranges.drop_last()[i]).gap <= MAX_VARINT
                && ranges.drop_last()[i].ack_range_length <= MAX_VARINT by {
                assert(ranges.drop_last()[i] == ranges[i]);
            }
        }
        lemma_ranges_roundtrip(ranges.drop_last(), tail);
        assert(a == ranges[ranges.len() - 1]);
        lemma_varint_roundtrip(a.gap, varint_bytes(a.ack_range_length as nat) + rest);
        lemma_varint_roundtrip(a.ack_range_length, rest);
        assert(ranges.drop_last().push(a) =~= ranges);
    }
}

/// A length and as many bytes are read back.
proof fn lemma_prefixed_roundtrip(data: Seq<u8>, rest: Seq<u8>)
    requires
        data.len() <= MAX_VARINT,
    ensures
        take_prefixed(varint_bytes(data.len()) + (data + rest)) == Some((data, rest)),
{
    lemma_varint_roundtrip(data.len() as u64, data + rest);
    lemma_split_joined(data, rest);
}

/// An optional number is read back.
proof fn lemma_optional_roundtrip(v: Option<u64>, rest: Seq<u8>)
    requires
        v matches Some(n) ==> n <= MAX_VARINT,
    ensures
        take_optional(v is Some, option_bytes(v) + rest) == Some((v, rest)),
{
    if let Some(n) = v {
        lemma_varint_roundtrip(n, rest);
    } else {
        assert(option_bytes(v) + rest =~= rest);
    }
}

/// Two numbers are read back.
proof fn lemma_take2_roundtrip(a: u64, b: u64, rest: Seq<u8>)
    requires
        a <= MAX_VARINT,
        b <= MAX_VARINT,
    ensures
        take2(varint_bytes(a as nat) + (varint_bytes(b as nat) + rest)) == Some(((a, b), rest)),
{
    lemma_varint_roundtrip(a, varint_bytes(b as nat) + rest);
    lemma_varint_roundtrip(b, rest);
}

/// Three numbers are read back.
proof fn lemma_take3_roundtrip(a: u64, b: u64, c: u64, rest: Seq<u8>)
    requires
        a <= MAX_VARINT,
        b <= MAX_VARINT,
        c <= MAX_VARINT,
    ensures
        take3(
            varint_bytes(a as nat) + (varint_bytes(b as nat) + (varint_bytes(c as nat) + rest)),
        ) == Some(((a, b, c), rest)),
{
    lemma_take2_roundtrip(a, b, varint_bytes(c as nat) + rest);
    lemma_varint_roundtrip(c, rest);
}

/// The fields of an ACK frame are read back.
#[verifier::rlimit(50)]
#[verifier::spinoff_prover]
proof fn lemma_ack_roundtrip(f: FrameView, rest: Seq<u8>)
    requires
        f is Ack,
        f.valid(),
    ensures
        parse_frame(f.bytes() + rest) == Ok::<(FrameView, Seq<u8>), Error>((f, rest)),
{
    if let FrameView::Ack {
        largest_acknowledged,
        ack_delay,
        ack_range_count,
        first_ack_range,
        ack_ranges,
        ecn_counts,
    } = f {
        let t = if ecn_counts is Some {
            0x03u8
        } else {
            0x02u8
        };
        let s5 = ecn_bytes(ecn_counts) + rest;
        let s4 = ranges_bytes(ack_ranges) + s5;
        let s3 = varint_bytes(first_ack_range as nat) + s4;
        let s0 = varint_bytes(largest_acknowledged as nat) + (varint_bytes(ack_delay as nat) + (
        varint_bytes(ack_range_count as nat) + s3));
        assert(f.bytes() + rest == seq![t] + s0) by {
            broadcast use lemma_concat_associative;

        }
        lemma_skip_first(t, s0);
        lemma_take3_roundtrip(largest_acknowledged, ack_delay, ack_range_count, s3);
        lemma_varint_roundtrip(first_ack_range, s4);
        lemma_ranges_roundtrip(ack_ranges, s5);
        if let Some(e) = ecn_counts {
            assert(s5 == varint_bytes(e.ect0 as nat) + (varint_bytes(e.ect1 as nat) + (
            varint_bytes(e.ecn_ce as nat) + rest))) by {
                broadcast use lemma_concat_associative;

            }
            lemma_take3_roundtrip(e.ect0, e.ect1, e.ecn_ce, rest);
        } else {
            assert(s5 =~= rest);
        }
        assert(parse_ack(t == 0x03, s0) == Some((f, rest)));
    }
}

/// What the flags in the first byte of a STREAM frame say.
proof fn lemma_stream_type_byte(has_offset: bool, has_length: bool, fin: bool)
    ensures
        ({
            let t = stream_type_byte(has_offset, has_length, fin);
            &&& 0x08 <= t <= 0x0f
            &&& (t & 0x04 != 0) == has_offset
            &&& (t & 0x02 != 0) == has_length
            &&& (t & 0x01 != 0) == fin
        }),
{
    assert(0x08u8 & 1 == 0 && 0x09u8 & 1 != 0 && 0x0au8 & 1 == 0 && 0x0bu8 & 1 != 0 && 0x0cu8 & 1
        == 0 && 0x0du8 & 1 != 0 && 0x0eu8 & 1 == 0 && 0x0fu8 & 1 != 0 && 0x08u8 & 2 == 0 && 0x09u8
        & 2 == 0 && 0x0au8 & 2 != 0 && 0x0bu8 & 2 != 0 && 0x0cu8 & 2 == 0 && 0x0du8 & 2 == 0
        && 0x0eu8 & 2 != 0 && 0x0fu8 & 2 != 0 && 0x08u8 & 4 == 0 && 0x09u8 & 4 == 0 && 0x0au8 & 4
        == 0 && 0x0bu8 & 4 == 0 && 0x0cu8 & 4 != 0 && 0x0du8 & 4 != 0 && 0x0eu8 & 4 != 0 && 0x0fu8
        & 4 != 0) by (bit_vector);
}

/// The fields of a STREAM frame are read back.
#[verifier::rlimit(50)]
#[verifier::spinoff_prover]
proof fn lemma_stream_roundtrip(f: FrameView, rest: Seq<u8>)
    requires
        f is Stream,
        f.valid(),
        f.takes_all() ==> rest.len() == 0,
    ensures
        parse_frame(f.bytes() + rest) == Ok::<(FrameView, Seq<u8>), Error>((f, rest)),
{
    if let FrameView::Stream { stream_id, offset, length, fin, data } = f {
        let t = stream_type_byte(offset != 0, length is Some, fin);
        lemma_stream_type_byte(offset != 0, length is Some, fin);
        let o: Option<u64> = if offset != 0 {
            Some(offset)
        } else {
            None
        };
        let s3 = data + rest;
        let s2 = option_bytes(length) + s3;
        let s1 = option_bytes(o) + s2;
        let s0 = varint_bytes(stream_id as nat) + s1;
        assert(f.bytes() + rest == seq![t] + s0) by {
            broadcast use lemma_concat_associative;

        }
        lemma_skip_first(t, s0);
        lemma_varint_roundtrip(stream_id, s1);
        lemma_optional_roundtrip(o, s2);
        lemma_optional_roundtrip(length, s3);
        lemma_split_joined(data, rest);
        assert(parse_stream(t, s0) == Some((f, rest)));
    }
}

/// The fields behind the type of a NEW_CONNECTION_ID frame are read back.
proof fn lemma_new_connection_id_fields(
    sequence_number: u64,
    retire_prior_to: u64,
    connection_id: Seq<u8>,
    token: Seq<u8>,
    rest: Seq<u8>,
)
    requires
        sequence_number <= MAX_VARINT,
        retire_prior_to <= MAX_VARINT,
        connection_id.len() <= 255,
        token.len() == 16,
    ensures
        parse_new_connection_id(
            varint_bytes(sequence_number as nat) + (varint_bytes(retire_prior_to as nat) + (
            seq![connection_id.len() as u8] + (connection_id + (token + rest)))),
        ) == Some(
            (
                FrameView::NewConnectionId {
                    sequence_number,
                    retire_prior_to,
                    connection_id,
                    stateless_reset_token: token,
                },
                rest,
            ),
        ),
{
    let n = connection_id.len() as u8;
    let s4 = token + rest;
    let s3 = connection_id + s4;
    lemma_take2_roundtrip(sequence_number, retire_prior_to, seq![n] + s3);
    lemma_skip_first(n, s3);
    lemma_split_joined(connection_id, s4);
    lemma_split_joined(token, rest);
}

/// The fields of a NEW_CONNECTION_ID frame are read back.
#[verifier::rlimit(50)]
#[verifier::spinoff_prover]
proof fn lemma_new_connection_id_roundtrip(f: FrameView, rest: Seq<u8>)
    requires
        f is NewConnectionId,
        f.valid(),
    ensures
        parse_frame(f.bytes() + rest) == Ok::<(FrameView, Seq<u8>), Error>((f, rest)),
{
    if let FrameView::NewConnectionId {
        sequence_number,
        retire_prior_to,
        connection_id,
        stateless_reset_token,
    } = f {
        let n = connection_id.len() as u8;
        let s4 = stateless_reset_token + rest;
        let s3 = connection_id + s4;
        let s2 = seq![n] + s3;
        let s0 = varint_bytes(sequence_number as nat) + (varint_bytes(retire_prior_to as nat) + s2);
        assert(f.bytes() + rest == seq![0x18u8] + s0) by {
            broadcast use lemma_concat_associative;

        }
        lemma_skip_first(0x18u8, s0);
        lemma_new_connection_id_fields(
            sequence_number,
            retire_prior_to,
            connection_id,
            stateless_reset_token,
            rest,
        );
        assert(parse_new_connection_id(s0) == Some((f, rest)));
    }
}

/// The fields of a CONNECTION_CLOSE frame are read back.
#[verifier::rlimit(50)]
#[verifier::spinoff_prover]
proof fn lemma_close_roundtrip(f: FrameView, rest: Seq<u8>)
    requires
        f is ConnectionClose,
        f.valid(),
    ensures
        parse_frame(f.bytes() + rest) == Ok::<(FrameView, Seq<u8>), Error>((f, rest)),
{
    if let FrameView::ConnectionClose { error_code, frame_type, reason_phrase } = f {
        let t = if frame_type is Some {
            0x1cu8
        } else {
            0x1du8
        };
        let s2 = varint_bytes(reason_phrase.len()) + (reason_phrase + rest);
        let s1 = option_bytes(frame_type) + s2;
        let s0 = varint_bytes(error_code as nat) + s1;
        assert(f.bytes() + rest == seq![t] + s0) by {
            broadcast use lemma_concat_associative;

        }
        lemma_skip_first(t, s0);
        lemma_varint_roundtrip(error_code, s1);
        lemma_optional_roundtrip(frame_type, s2);
        lemma_prefixed_roundtrip(reason_phrase, rest);
        assert(parse_close(t == 0x1c, s0) == Some((f, rest)));
    }
}

/// The fields of a CRYPTO, NEW_TOKEN or path validation frame are read back.
#[verifier::rlimit(50)]
#[verifier::spinoff_prover]
proof fn lemma_data_roundtrip(f: FrameView, rest: Seq<u8>)
    requires
        f is Crypto || f is NewToken || f is PathChallenge || f is PathResponse,
        f.valid(),
    ensures
        parse_frame(f.bytes() + rest) == Ok::<(FrameView, Seq<u8>), Error>((f, rest)),
{
    match f {
        FrameView::Crypto { offset, data } => {
            let s1 = varint_bytes(data.len()) + (data + rest);
            let s0 = varint_bytes(offset as nat) + s1;
            assert(f.bytes() + rest == seq![0x06u8] + s0) by {
                broadcast use lemma_concat_associative;

            }
            lemma_skip_first(0x06u8, s0);
            lemma_varint_roundtrip(offset, s1);
            lemma_prefixed_roundtrip(data, rest);
        },
        FrameView::NewToken { token } => {
            let s0 = varint_bytes(token.len()) + (token + rest);
            assert(f.bytes() + rest == seq![0x07u8] + s0) by {
                broadcast use lemma_concat_associative;

            }
            lemma_skip_first(0x07u8, s0);
            lemma_prefixed_roundtrip(token, rest);
        },
        FrameView::PathChallenge { data } => {
            lemma_concat_associative(seq![0x1au8], data, rest);
            lemma_skip_first(0x1au8, data + rest);
            lemma_split_joined(data, rest);
        },
        FrameView::PathResponse { data } => {
            lemma_concat_associative(seq![0x1bu8], data, rest);
            lemma_skip_first(0x1bu8, data + rest);
            lemma_split_joined(data, rest);
        },
        _ => {},
    }
}

/// The fields of a frame that holds one number are read back.
proof fn lemma_one_roundtrip(t: u8, v: u64, rest: Seq<u8>)
    requires
        v <= MAX_VARINT,
        t == 0x10 || t == 0x12 || t == 0x13 || t == 0x14 || t == 0x16 || t == 0x17 || t == 0x19,
    ensures
        parse_frame(seq![t] + varint_bytes(v as nat) + rest) == Ok::<(FrameView, Seq<u8>), Error>(
            (parse_one(t, varint_bytes(v as nat) + rest)->Some_0.0, rest),
        ),
        take_varint(varint_bytes(v as nat) + rest) == Some((v, rest)),
{
    let s0 = varint_bytes(v as nat) + rest;
    lemma_concat_associative(seq![t], varint_bytes(v as nat), rest);
    lemma_skip_first(t, s0);
    lemma_varint_roundtrip(v, rest);
}

/// The fields of a frame that holds a stream identifier and a number are read back.
#[verifier::rlimit(50)]
#[verifier::spinoff_prover]
proof fn lemma_two_roundtrip(t: u8, a: u64, b: u64, rest: Seq<u8>)
    requires
        a <= MAX_VARINT,
        b <= MAX_VARINT,
        t == 0x05 || t == 0x11 || t == 0x15,
    ensures
        ({
            let s0 = varint_bytes(a as nat) + (varint_bytes(b as nat) + rest);
            &&& parse_frame(
                seq![t] + varint_bytes(a as nat) + varint_bytes(b as nat) + rest,
            ) == Ok::<(FrameView, Seq<u8>), Error>((parse_two(t, s0)->Some_0.0, rest))
            &&& take2(s0) == Some(((a, b), rest))
        }),
{
    let s0 = varint_bytes(a as nat) + (varint_bytes(b as nat) + rest);
    assert(seq![t] + varint_bytes(a as nat) + varint_bytes(b as nat) + rest == seq![t] + s0) by {
        broadcast use lemma_concat_associative;

    }
    lemma_skip_first(t, s0);
    lemma_take2_roundtrip(a, b, rest);
}

/// The fields of a RESET_STREAM frame are read back.
#[verifier::rlimit(50)]
#[verifier::spinoff_prover]
proof fn lemma_reset_roundtrip(f: FrameView, rest: Seq<u8>)
    requires
        f is ResetStream,
        f.valid(),
    ensures
        parse_frame(f.bytes() + rest) == Ok::<(FrameView, Seq<u8>), Error>((f, rest)),
{
    if let FrameView::ResetStream { stream_id, application_error_code, final_size } = f {
        let s0 = varint_bytes(stream_id as nat) + (varint_bytes(application_error_code as nat) + (
        varint_bytes(final_size as nat) + rest));
        assert(f.bytes() + rest == seq![0x04u8] + s0) by {
            broadcast use lemma_concat_associative;

        }
        lemma_skip_first(0x04u8, s0);
        lemma_take3_roundtrip(stream_id, application_error_code, final_size, rest);
    }
}

/// A frame is read back from its bytes, whatever follows it. After a STREAM frame
/// without a length, whose data reaches to the end, nothing may follow.
pub proof fn frame_roundtrip(f: FrameView, rest: Seq<u8>)
    requires
        f.valid(),
        f.takes_all() ==> rest.len() == 0,
    ensures
        parse_frame(f.bytes() + rest) == Ok::<(FrameView, Seq<u8>), Error>((f, rest)),
{
    match f {
        FrameView::Ack { .. } => {
            lemma_ack_roundtrip(f, rest);
        },
        FrameView::Stream { .. } => {
            lemma_stream_roundtrip(f, rest);
        },
        FrameView::NewConnectionId { .. } => {
            lemma_new_connection_id_roundtrip(f, rest);
        },
        FrameView::ConnectionClose { .. } => {
            lemma_close_roundtrip(f, rest);
        },
        FrameView::Crypto { .. }
        | FrameView::NewToken { .. }
        | FrameView::PathChallenge { .. }
        | FrameView::PathResponse { .. } => {
            lemma_data_roundtrip(f, rest);
        },
        FrameView::ResetStream { .. } => {
            lemma_reset_roundtrip(f, rest);
        },
        FrameView::StopSending { stream_id, application_error_code } => {
            lemma_two_roundtrip(0x05, stream_id, application_error_code, rest);
        },
        FrameView::MaxStreamData { stream_id, maximum_stream_data } => {
            lemma_two_roundtrip(0x11, stream_id, maximum_stream_data, rest);
        },
        FrameView::StreamDataBlocked { stream_id, maximum_stream_data } => {
            lemma_two_roundtrip(0x15, stream_id, maximum_stream_data, rest);
        },
        FrameView::MaxData { maximum_data } => {
            lemma_one_roundtrip(0x10, maximum_data, rest);
        },
        FrameView::DataBlocked { maximum_data } => {
            lemma_one_roundtrip(0x14, maximum_data, rest);
        },
        FrameView::RetireConnectionId { sequence_number } => {
            lemma_one_roundtrip(0x19, sequence_number, rest);
        },
        FrameView::MaxStreams { stream_type, maximum_streams } => {
            lemma_one_roundtrip(
                if stream_type == StreamType::Bidirectional {
                    0x12
                } else {
                    0x13
                },
                maximum_streams,
                rest,
            );
        },
        FrameView::StreamsBlocked { stream_type, maximum_streams } => {
            lemma_one_roundtrip(
                if stream_type == StreamType::Bidirectional {
                    0x16
                } else {
                    0x17
                },
                maximum_streams,
                rest,
            );
        },
        FrameView::Padding => {
            lemma_skip_first(0x00, rest);
        },
        FrameView::Ping => {
            lemma_skip_first(0x01, rest);
        },
        FrameView::HandshakeDone => {
            lemma_skip_first(0x1e, rest);
        },
    }
}

} // verus!
