//! QUIC frame types (RFC 9000 Section 19).

use crate::buffer::{contents, written};
use crate::error::Error;
use crate::packet::PacketType;
use crate::varint::{lemma_varint_roundtrip, take_varint, varint_bytes, VarInt};
use bytes::{Bytes, BytesMut};
use vstd::prelude::*;

verus! {

/// QUIC frame types (RFC 9000 Section 19)
#[derive(Debug, Clone, Copy, PartialEq, Eq, Hash, Structural)]
pub enum FrameType {
    /// PADDING frame for packet size adjustment
    Padding,
    /// PING frame for connection liveness
    Ping,
    /// ACK frame for acknowledgment (without ECN)
    Ack,
    /// ACK frame for acknowledgment (with ECN)
    AckEcn,
    /// RESET_STREAM frame for abrupt stream termination
    ResetStream,
    /// STOP_SENDING frame to request stream termination
    StopSending,
    /// CRYPTO frame for TLS handshake data
    Crypto,
    /// NEW_TOKEN frame for address validation tokens
    NewToken,
    /// STREAM frames for application data (0x08-0x0f)
    Stream,
    /// MAX_DATA frame for connection-level flow control
    MaxData,
    /// MAX_STREAM_DATA frame for stream-level flow control
    MaxStreamData,
    /// MAX_STREAMS frame for bidirectional streams
    MaxStreamsBidi,
    /// MAX_STREAMS frame for unidirectional streams
    MaxStreamsUni,
    /// DATA_BLOCKED frame for connection-level flow control
    DataBlocked,
    /// STREAM_DATA_BLOCKED frame for stream-level flow control
    StreamDataBlocked,
    /// STREAMS_BLOCKED frame for bidirectional streams
    StreamsBlockedBidi,
    /// STREAMS_BLOCKED frame for unidirectional streams
    StreamsBlockedUni,
    /// NEW_CONNECTION_ID frame for connection migration
    NewConnectionId,
    /// RETIRE_CONNECTION_ID frame for connection ID retirement
    RetireConnectionId,
    /// PATH_CHALLENGE frame for path validation
    PathChallenge,
    /// PATH_RESPONSE frame for path validation
    PathResponse,
    /// CONNECTION_CLOSE frame for connection termination (transport)
    ConnectionCloseTransport,
    /// CONNECTION_CLOSE frame for connection termination (application)
    ConnectionCloseApp,
    /// HANDSHAKE_DONE frame for handshake completion
    HandshakeDone,
}

impl FrameType {
    /// The number of the frame type on the wire.
    pub open spec fn code(self) -> u64 {
        match self {
            FrameType::Padding => 0x00,
            FrameType::Ping => 0x01,
            FrameType::Ack => 0x02,
            FrameType::AckEcn => 0x03,
            FrameType::ResetStream => 0x04,
            FrameType::StopSending => 0x05,
            FrameType::Crypto => 0x06,
            FrameType::NewToken => 0x07,
            FrameType::Stream => 0x08,
            FrameType::MaxData => 0x10,
            FrameType::MaxStreamData => 0x11,
            FrameType::MaxStreamsBidi => 0x12,
            FrameType::MaxStreamsUni => 0x13,
            FrameType::DataBlocked => 0x14,
            FrameType::StreamDataBlocked => 0x15,
            FrameType::StreamsBlockedBidi => 0x16,
            FrameType::StreamsBlockedUni => 0x17,
            FrameType::NewConnectionId => 0x18,
            FrameType::RetireConnectionId => 0x19,
            FrameType::PathChallenge => 0x1a,
            FrameType::PathResponse => 0x1b,
            FrameType::ConnectionCloseTransport => 0x1c,
            FrameType::ConnectionCloseApp => 0x1d,
            FrameType::HandshakeDone => 0x1e,
        }
    }

    /// Whether `value` names this frame type: STREAM frames have eight numbers, every
    /// other type has one.
    pub open spec fn named_by(self, value: u64) -> bool {
        if self == FrameType::Stream {
            0x08 <= value <= 0x0f
        } else {
            value == self.code()
        }
    }

    /// The number of the frame type on the wire
    pub fn to_u64(self) -> (r: u64)
        ensures
            r == self.code(),
    {
        match self {
            FrameType::Padding => 0x00,
            FrameType::Ping => 0x01,
            FrameType::Ack => 0x02,
            FrameType::AckEcn => 0x03,
            FrameType::ResetStream => 0x04,
            FrameType::StopSending => 0x05,
            FrameType::Crypto => 0x06,
            FrameType::NewToken => 0x07,
            FrameType::Stream => 0x08,
            FrameType::MaxData => 0x10,
            FrameType::MaxStreamData => 0x11,
            FrameType::MaxStreamsBidi => 0x12,
            FrameType::MaxStreamsUni => 0x13,
            FrameType::DataBlocked => 0x14,
            FrameType::StreamDataBlocked => 0x15,
            FrameType::StreamsBlockedBidi => 0x16,
            FrameType::StreamsBlockedUni => 0x17,
            FrameType::NewConnectionId => 0x18,
            FrameType::RetireConnectionId => 0x19,
            FrameType::PathChallenge => 0x1a,
            FrameType::PathResponse => 0x1b,
            FrameType::ConnectionCloseTransport => 0x1c,
            FrameType::ConnectionCloseApp => 0x1d,
            FrameType::HandshakeDone => 0x1e,
        }
    }

    /// Returns true if this frame type can appear in different packet types
    pub fn is_allowed_in_packet_type(self, packet_type: PacketType) -> (r: bool)
        ensures
            r == match self {
                FrameType::Padding
                | FrameType::Ping
                | FrameType::ConnectionCloseTransport
                | FrameType::ConnectionCloseApp => true,
                FrameType::Crypto | FrameType::Ack | FrameType::AckEcn => packet_type
                    == PacketType::Initial || packet_type == PacketType::Handshake || packet_type
                    == PacketType::OneRtt,
                _ => packet_type == PacketType::OneRtt,
            },
    {
        match self {
            FrameType::Padding
            | FrameType::Ping
            | FrameType::ConnectionCloseTransport
            | FrameType::ConnectionCloseApp => true,
            FrameType::Crypto | FrameType::Ack | FrameType::AckEcn => matches!(
                packet_type,
                PacketType::Initial | PacketType::Handshake | PacketType::OneRtt
            ),
            _ => matches!(packet_type, PacketType::OneRtt),
        }
    }

    /// Returns true if this frame type is connection-level
    pub fn is_connection_level(self) -> (r: bool)
        ensures
            r == !(self == FrameType::Stream || self == FrameType::ResetStream || self
                == FrameType::StopSending || self == FrameType::MaxStreamData || self
                == FrameType::StreamDataBlocked),
    {
        !matches!(
            self,
            FrameType::Stream | FrameType::ResetStream | FrameType::StopSending
                | FrameType::MaxStreamData | FrameType::StreamDataBlocked
        )
    }

    /// The frame type that `value` names
    pub fn try_from(value: u64) -> (r: Result<FrameType, Error>)
        ensures
            match r {
                Ok(t) => t.named_by(value),
                Err(e) => value > 0x1e && e == (Error::InvalidFrame {
                    frame_type: value,
                    reason: "Unknown frame type",
                }),
            },
            value <= 0x1e ==> r is Ok,
    {
        match value {
            0x00 => Ok(FrameType::Padding),
            0x01 => Ok(FrameType::Ping),
            0x02 => Ok(FrameType::Ack),
            0x03 => Ok(FrameType::AckEcn),
            0x04 => Ok(FrameType::ResetStream),
            0x05 => Ok(FrameType::StopSending),
            0x06 => Ok(FrameType::Crypto),
            0x07 => Ok(FrameType::NewToken),
            0x08..=0x0f => Ok(FrameType::Stream),
            0x10 => Ok(FrameType::MaxData),
            0x11 => Ok(FrameType::MaxStreamData),
            0x12 => Ok(FrameType::MaxStreamsBidi),
            0x13 => Ok(FrameType::MaxStreamsUni),
            0x14 => Ok(FrameType::DataBlocked),
            0x15 => Ok(FrameType::StreamDataBlocked),
            0x16 => Ok(FrameType::StreamsBlockedBidi),
            0x17 => Ok(FrameType::StreamsBlockedUni),
            0x18 => Ok(FrameType::NewConnectionId),
            0x19 => Ok(FrameType::RetireConnectionId),
            0x1a => Ok(FrameType::PathChallenge),
            0x1b => Ok(FrameType::PathResponse),
            0x1c => Ok(FrameType::ConnectionCloseTransport),
            0x1d => Ok(FrameType::ConnectionCloseApp),
            0x1e => Ok(FrameType::HandshakeDone),
            _ => Err(Error::InvalidFrame { frame_type: value, reason: "Unknown frame type" }),
        }
    }
}

/// No number names two frame types.
pub proof fn frame_type_unique(a: FrameType, b: FrameType, value: u64)
    requires
        a.named_by(value),
        b.named_by(value),
    ensures
        a == b,
{
}

/// A QUIC frame
#[derive(Debug, Clone)]
pub struct Frame {
    /// Frame type
    pub frame_type: FrameType,
    /// Frame payload
    pub payload: Bytes,
}

impl Frame {
    /// Creates a new frame
    pub fn new(frame_type: FrameType, payload: Bytes) -> (r: Frame)
        ensures
            r == (Frame { frame_type, payload }),
    {
        Frame { frame_type, payload }
    }

    /// The bytes on the wire.
    pub open spec fn bytes(self) -> Seq<u8> {
        varint_bytes(self.frame_type.code() as nat) + contents(self.payload)
    }

    /// Encodes the frame into bytes
    pub fn encode(&self, buf: &mut BytesMut) -> (r: Result<(), Error>)
        ensures
            r == Ok::<(), Error>(()),
            written(*final(buf)) == written(*old(buf)) + self.bytes(),
    {
        let ghost w = written(*buf);
        VarInt(self.frame_type.to_u64()).encode(buf)?;
        buf.extend_from_slice(&self.payload);
        assert(written(*buf) =~= w + self.bytes());
        Ok(())
    }

    /// Decodes a frame, whose payload is all that follows its type
    pub fn decode(buf: &mut Bytes) -> (r: Result<Frame, Error>)
        ensures
            match take_varint(contents(*old(buf))) {
                None => r == Err::<Frame, Error>(Error::Incomplete) && contents(*final(buf))
                    == contents(*old(buf)),
                Some((value, rest)) => if value <= 0x1e {
                    &&& r is Ok
                    &&& r->Ok_0.frame_type.named_by(value)
                    &&& contents(r->Ok_0.payload) == rest
                    &&& contents(*final(buf)) == Seq::<u8>::empty()
                } else {
                    &&& r == Err::<Frame, Error>(
                        (Error::InvalidFrame { frame_type: value, reason: "Unknown frame type" }),
                    )
                    &&& contents(*final(buf)) == rest
                },
            },
    {
        let value: u64 = VarInt::decode(buf)?.into_inner();
        let frame_type: FrameType = FrameType::try_from(value)?;
        let have: usize = buf.len();
        let payload: Bytes = buf.split_to(have);
        proof {
            assert(contents(payload) =~= take_varint(contents(*old(buf)))->Some_0.1);
            assert(contents(*buf) =~= Seq::<u8>::empty());
        }
        Ok(Frame { frame_type, payload })
    }
}

/// The type and the payload of a frame are read back from its bytes.
pub proof fn frame_roundtrip(f: Frame)
    ensures
        take_varint(f.bytes()) == Some((f.frame_type.code(), contents(f.payload))),
        f.frame_type.named_by(f.frame_type.code()),
{
    lemma_varint_roundtrip(f.frame_type.code(), contents(f.payload));
}

} // verus!
