//! QUIC packet structure and parsing (RFC 9000 Section 17).

use crate::addr::SocketAddress;
use crate::buffer::{
    be_bytes, be_value, bytes_from_vec, contents, get_array, get_u32, get_u8, group_tail, is_tail,
    lemma_be_roundtrip, pow256, put_u32, put_u8, written,
};
use crate::error::{Error, Reason};
use crate::varint::{lemma_varint_roundtrip, take_varint, varint_bytes, VarInt, MAX_VARINT};
use crate::MAX_CID_LEN;
use bytes::{Bytes, BytesMut};
use ring::rand::SecureRandom;
use vstd::prelude::*;

verus! {

broadcast use group_tail;

/// QUIC packet types (RFC 9000 Section 17.2).
#[derive(Debug, Clone, Copy, PartialEq, Eq, Hash, Structural)]
pub enum PacketType {
    /// Initial packet for connection establishment
    Initial,
    /// 0-RTT packet for early data
    ZeroRtt,
    /// Handshake packet for TLS handshake
    Handshake,
    /// Retry packet for address validation
    Retry,
    /// 1-RTT packet for application data (short header only)
    OneRtt,
}

/// The packet type that two type bits of a long header stand for.
pub open spec fn long_packet_type(bits: u8) -> Option<PacketType> {
    if bits == 0 {
        Some(PacketType::Initial)
    } else if bits == 1 {
        Some(PacketType::ZeroRtt)
    } else if bits == 2 {
        Some(PacketType::Handshake)
    } else if bits == 3 {
        Some(PacketType::Retry)
    } else {
        None
    }
}

impl PacketType {
    /// Returns true if this packet type uses long header format
    pub fn is_long_header(self) -> (r: bool)
        ensures
            r == (self != PacketType::OneRtt),
    {
        !matches!(self, PacketType::OneRtt)
    }

    /// Returns true if this packet type can carry application data
    pub fn can_carry_app_data(self) -> (r: bool)
        ensures
            r == (self == PacketType::ZeroRtt || self == PacketType::OneRtt),
    {
        matches!(self, PacketType::ZeroRtt | PacketType::OneRtt)
    }

    /// The long-header packet type with the given type bits
    pub fn try_from(value: u8) -> (r: Result<PacketType, Error>)
        ensures
            match long_packet_type(value) {
                Some(t) => r == Ok::<PacketType, Error>(t),
                None => r == Err::<PacketType, Error>(
                    Error::InvalidPacket(Reason::UnknownPacketType(value)),
                ),
            },
    {
        match value {
            0x00 => Ok(PacketType::Initial),
            0x01 => Ok(PacketType::ZeroRtt),
            0x02 => Ok(PacketType::Handshake),
            0x03 => Ok(PacketType::Retry),
            _ => Err(Error::InvalidPacket(Reason::UnknownPacketType(value))),
        }
    }
}

/// The error that `ring` reports without a reason.
#[verifier::external_type_specification]
#[verifier::external_body]
pub struct ExUnspecified(ring::error::Unspecified);

/// `ring::rand::SystemRandom::fill` overwrites the bytes with random ones. Which ones, and
/// whether the system can supply them, is open.
#[verifier::external_body]
pub(crate) fn fill_random(dest: &mut Vec<u8>) -> (r: Result<(), ring::error::Unspecified>)
    ensures
        final(dest)@.len() == old(dest)@.len(),
{
    ring::rand::SystemRandom::new().fill(dest)
}

/// Connection ID used to identify QUIC connections
#[derive(Debug, PartialEq, Eq, Hash)]
pub struct ConnectionId {
    bytes: Bytes,
}

impl View for ConnectionId {
    type V = Seq<u8>;

    closed spec fn view(&self) -> Seq<u8> {
        contents(self.bytes)
    }
}

impl Clone for ConnectionId {
    fn clone(&self) -> (r: ConnectionId)
        ensures
            r@ == self@,
    {
        ConnectionId { bytes: self.bytes.clone() }
    }
}

impl ConnectionId {
    /// Creates a new connection ID from bytes
    pub fn from_bytes(bytes: Bytes) -> (r: Result<ConnectionId, Error>)
        ensures
            contents(bytes).len() <= MAX_CID_LEN ==> r is Ok && r->Ok_0@ == contents(bytes),
            contents(bytes).len() > MAX_CID_LEN ==> r == Err::<ConnectionId, Error>(
                Error::InvalidPacket(Reason::Text("Connection ID too long")),
            ),
    {
        if bytes.len() > MAX_CID_LEN {
            return Err(Error::InvalidPacket(Reason::Text("Connection ID too long")));
        }
        Ok(ConnectionId { bytes })
    }

    /// Creates an empty connection ID
    pub fn empty() -> (r: ConnectionId)
        ensures
            r@ == Seq::<u8>::empty(),
    {
        ConnectionId { bytes: Bytes::new() }
    }

    /// Creates a connection ID from a slice
    pub fn from_slice(slice: &[u8]) -> (r: ConnectionId)
        ensures
            r@ == slice@,
    {
        ConnectionId { bytes: Bytes::copy_from_slice(slice) }
    }

    /// Creates a connection ID that takes over a vector
    pub fn from_vec(bytes: Vec<u8>) -> (r: ConnectionId)
        ensures
            r@ == bytes@,
    {
        ConnectionId { bytes: bytes_from_vec(bytes) }
    }

    /// Generates a random connection ID
    pub fn random(len: usize) -> (r: Result<ConnectionId, Error>)
        ensures
            len > MAX_CID_LEN ==> r == Err::<ConnectionId, Error>(
                Error::InvalidPacket(Reason::Text("Connection ID too long")),
            ),
            len <= MAX_CID_LEN ==> match r {
                Ok(cid) => cid@.len() == len,
                Err(e) => e == Error::Crypto(Reason::Text("Failed to generate random connection ID")),
            },
    {
        if len > MAX_CID_LEN {
            return Err(Error::InvalidPacket(Reason::Text("Connection ID too long")));
        }
        let mut bytes: Vec<u8> = vec![0u8; len];
        match fill_random(&mut bytes) {
            Ok(()) => Self::from_random(Some(bytes)),
            Err(_) => Self::from_random(None),
        }
    }

    /// The connection ID made of random bytes, or the error where the system had none
    pub fn from_random(filled: Option<Vec<u8>>) -> (r: Result<ConnectionId, Error>)
        ensures
            match filled {
                Some(v) => r is Ok && r->Ok_0@ == v@,
                None => r == Err::<ConnectionId, Error>(
                    Error::Crypto(Reason::Text("Failed to generate random connection ID")),
                ),
            },
    {
        match filled {
            Some(v) => Ok(Self::from_vec(v)),
            None => Err(Error::Crypto(Reason::Text("Failed to generate random connection ID"))),
        }
    }

    /// Returns the connection ID as bytes
    pub fn as_bytes(&self) -> (r: &[u8])
        ensures
            r@ == self@,
    {
        &self.bytes
    }

    /// Returns the length of the connection ID
    pub fn len(&self) -> (r: usize)
        ensures
            r == self@.len(),
    {
        self.bytes.len()
    }

    /// Returns true if the connection ID is empty
    pub fn is_empty(&self) -> (r: bool)
        ensures
            r == (self@.len() == 0),
    {
        self.bytes.is_empty()
    }
}

/// Type-specific data for long header packets
#[derive(Debug, Clone)]
pub enum TypeSpecificData {
    /// Initial packet data
    Initial {
        /// Token for address validation
        token: Bytes,
        /// Length of packet number + payload
        length: VarInt,
        /// Packet number
        packet_number: u32,
    },
    /// 0-RTT packet data
    ZeroRtt {
        /// Length of packet number + payload
        length: VarInt,
        /// Packet number
        packet_number: u32,
    },
    /// Handshake packet data
    Handshake {
        /// Length of packet number + payload
        length: VarInt,
        /// Packet number
        packet_number: u32,
    },
    /// Retry packet data
    Retry {
        /// Retry token
        retry_token: Bytes,
        /// Retry integrity tag
        retry_integrity_tag: [u8; 16],
    },
}

/// Type-specific data, with the bytes it holds.
#[verifier::ext_equal]
pub enum TypeSpecificView {
    Initial { token: Seq<u8>, length: u64, packet_number: u32 },
    ZeroRtt { length: u64, packet_number: u32 },
    Handshake { length: u64, packet_number: u32 },
    Retry { retry_token: Seq<u8>, retry_integrity_tag: Seq<u8> },
}

impl View for TypeSpecificData {
    type V = TypeSpecificView;

    open spec fn view(&self) -> TypeSpecificView {
        match *self {
            TypeSpecificData::Initial { token, length, packet_number } => TypeSpecificView::Initial {
                token: contents(token),
                length: length.0,
                packet_number,
            },
            TypeSpecificData::ZeroRtt { length, packet_number } => TypeSpecificView::ZeroRtt {
                length: length.0,
                packet_number,
            },
            TypeSpecificData::Handshake { length, packet_number } => TypeSpecificView::Handshake {
                length: length.0,
                packet_number,
            },
            TypeSpecificData::Retry { retry_token, retry_integrity_tag } => TypeSpecificView::Retry {
                retry_token: contents(retry_token),
                retry_integrity_tag: retry_integrity_tag@,
            },
        }
    }
}

impl TypeSpecificView {
    /// The packet type that carries such data.
    pub open spec fn packet_type(self) -> PacketType {
        match self {
            TypeSpecificView::Initial { .. } => PacketType::Initial,
            TypeSpecificView::ZeroRtt { .. } => PacketType::ZeroRtt,
            TypeSpecificView::Handshake { .. } => PacketType::Handshake,
            TypeSpecificView::Retry { .. } => PacketType::Retry,
        }
    }

    /// Whether every length fits a variable-length integer.
    pub open spec fn encodable(self) -> bool {
        match self {
            TypeSpecificView::Initial { token, length, .. } => token.len() <= MAX_VARINT && length
                <= MAX_VARINT,
            TypeSpecificView::ZeroRtt { length, .. } => length <= MAX_VARINT,
            TypeSpecificView::Handshake { length, .. } => length <= MAX_VARINT,
            TypeSpecificView::Retry { .. } => true,
        }
    }

    /// The bytes on the wire. Packet numbers always take four bytes.
    pub open spec fn bytes(self) -> Seq<u8> {
        match self {
            TypeSpecificView::Initial { token, length, packet_number } => varint_bytes(token.len())
                + token + varint_bytes(length as nat) + be_bytes(packet_number as nat, 4),
            TypeSpecificView::ZeroRtt { length, packet_number } => varint_bytes(length as nat)
                + be_bytes(packet_number as nat, 4),
            TypeSpecificView::Handshake { length, packet_number } => varint_bytes(length as nat)
                + be_bytes(packet_number as nat, 4),
            TypeSpecificView::Retry { retry_token, retry_integrity_tag } => retry_token
                + retry_integrity_tag,
        }
    }
}

/// Reads a length and a packet number.
pub open spec fn parse_length_and_number(s: Seq<u8>) -> Result<((u64, u32), Seq<u8>), Error> {
    match take_varint(s) {
        None => Err(Error::Incomplete),
        Some((length, s1)) => if s1.len() < 4 {
            Err(Error::InvalidPacket(Reason::Text("Insufficient data for packet number")))
        } else {
            Ok(((length, be_value(s1.take(4)) as u32), s1.skip(4)))
        },
    }
}

/// Reads the type-specific data of a long header, and says what follows it.
pub open spec fn parse_type_specific(packet_type: PacketType, s: Seq<u8>) -> Result<
    (TypeSpecificView, Seq<u8>),
    Error,
> {
    match packet_type {
        PacketType::Initial => match take_varint(s) {
            None => Err(Error::Incomplete),
            Some((token_len, s1)) => if s1.len() < token_len {
                Err(Error::InvalidPacket(Reason::Text("Insufficient data for token")))
            } else {
                match parse_length_and_number(s1.skip(token_len as int)) {
                    Err(e) => Err(e),
                    Ok(((length, packet_number), rest)) => Ok(
                        (
                            TypeSpecificView::Initial {
                                token: s1.take(token_len as int),
                                length,
                                packet_number,
                            },
                            rest,
                        ),
                    ),
                }
            },
        },
        PacketType::ZeroRtt => match parse_length_and_number(s) {
            Err(e) => Err(e),
            Ok(((length, packet_number), rest)) => Ok(
                (TypeSpecificView::ZeroRtt { length, packet_number }, rest),
            ),
        },
        PacketType::Handshake => match parse_length_and_number(s) {
            Err(e) => Err(e),
            Ok(((length, packet_number), rest)) => Ok(
                (TypeSpecificView::Handshake { length, packet_number }, rest),
            ),
        },
        PacketType::Retry => if s.len() < 16 {
            Err(Error::InvalidPacket(Reason::Text("Insufficient data for retry packet")))
        } else {
            Ok(
                (
                    TypeSpecificView::Retry {
                        retry_token: s.take(s.len() - 16),
                        retry_integrity_tag: s.skip(s.len() - 16),
                    },
                    Seq::empty(),
                ),
            )
        },
        PacketType::OneRtt => Err(
            Error::InvalidPacket(Reason::Text("1-RTT packets don't use type-specific data")),
        ),
    }
}

/// Reads a length and a packet number off the front of `buf`.
fn decode_length_and_number(buf: &mut Bytes) -> (r: Result<(VarInt, u32), Error>)
    ensures
        is_tail(contents(*final(buf)), contents(*old(buf))),
        match parse_length_and_number(contents(*old(buf))) {
            Ok(((length, packet_number), rest)) => r == Ok::<(VarInt, u32), Error>(
                (VarInt(length), packet_number),
            ) && contents(*final(buf)) == rest,
            Err(e) => r == Err::<(VarInt, u32), Error>(e),
        },
{
    let length: VarInt = VarInt::decode(buf)?;
    if buf.len() < 4 {
        return Err(Error::InvalidPacket(Reason::Text("Insufficient data for packet number")));
    }
    let packet_number: u32 = get_u32(buf);
    Ok((length, packet_number))
}

impl TypeSpecificData {
    /// Encodes type-specific data
    pub fn encode(&self, buf: &mut BytesMut) -> (r: Result<(), Error>)
        ensures
            self@.encodable() ==> r == Ok::<(), Error>(()) && written(*final(buf)) == written(
                *old(buf),
            ) + self@.bytes(),
            !self@.encodable() ==> r == Err::<(), Error>(Error::VarIntRange),
            written(*old(buf)).is_prefix_of(written(*final(buf))),
    {
        let ghost w = written(*buf);
        match self {
            TypeSpecificData::Initial { token, length, packet_number } => {
                VarInt(token.len() as u64).encode(buf)?;
                buf.extend_from_slice(token);
                (*length).encode(buf)?;
                Self::encode_packet_number(buf, *packet_number);
            },
            TypeSpecificData::ZeroRtt { length, packet_number } => {
                (*length).encode(buf)?;
                Self::encode_packet_number(buf, *packet_number);
            },
            TypeSpecificData::Handshake { length, packet_number } => {
                (*length).encode(buf)?;
                Self::encode_packet_number(buf, *packet_number);
            },
            TypeSpecificData::Retry { retry_token, retry_integrity_tag } => {
                buf.extend_from_slice(retry_token);
                buf.extend_from_slice(retry_integrity_tag);
            },
        }
        assert(written(*buf) =~= w + self@.bytes());
        Ok(())
    }

    /// Encode packet number, always in four bytes
    fn encode_packet_number(buf: &mut BytesMut, packet_number: u32)
        ensures
            written(*final(buf)) == written(*old(buf)) + be_bytes(packet_number as nat, 4),
    {
        put_u32(buf, packet_number);
    }

    /// Decodes type-specific data
    pub fn decode(packet_type: PacketType, buf: &mut Bytes) -> (r: Result<TypeSpecificData, Error>)
        ensures
            is_tail(contents(*final(buf)), contents(*old(buf))),
            match parse_type_specific(packet_type, contents(*old(buf))) {
                Ok((v, rest)) => r is Ok && r->Ok_0@ == v && contents(*final(buf)) == rest,
                Err(e) => r == Err::<TypeSpecificData, Error>(e),
            },
    {
        let ghost s = contents(*buf);
        match packet_type {
            PacketType::Initial => {
                let token_len: u64 = VarInt::decode(buf)?.into_inner();
                if (buf.len() as u64) < token_len {
                    return Err(Error::InvalidPacket(Reason::Text("Insufficient data for token")));
                }
                let token: Bytes = buf.split_to(token_len as usize);
                assert(is_tail(contents(*buf), s));
                let (length, packet_number) = decode_length_and_number(buf)?;
                Ok(TypeSpecificData::Initial { token, length, packet_number })
            },
            PacketType::ZeroRtt => {
                let (length, packet_number) = decode_length_and_number(buf)?;
                Ok(TypeSpecificData::ZeroRtt { length, packet_number })
            },
            PacketType::Handshake => {
                let (length, packet_number) = decode_length_and_number(buf)?;
                Ok(TypeSpecificData::Handshake { length, packet_number })
            },
            PacketType::Retry => {
                let have: usize = buf.len();
                if have < 16 {
                    return Err(
                        Error::InvalidPacket(Reason::Text("Insufficient data for retry packet")),
                    );
                }
                let retry_token: Bytes = buf.split_to(have - 16);
                let retry_integrity_tag: [u8; 16] = get_array::<16>(buf);
                Ok(TypeSpecificData::Retry { retry_token, retry_integrity_tag })
            },
            PacketType::OneRtt => Err(
                Error::InvalidPacket(Reason::Text("1-RTT packets don't use type-specific data")),
            ),
        }
    }

    /// Returns the packet number if applicable
    pub fn packet_number(&self) -> (r: Option<u32>)
        ensures
            r == match self@ {
                TypeSpecificView::Initial { packet_number, .. } => Some(packet_number),
                TypeSpecificView::ZeroRtt { packet_number, .. } => Some(packet_number),
                TypeSpecificView::Handshake { packet_number, .. } => Some(packet_number),
                TypeSpecificView::Retry { .. } => None,
            },
    {
        match self {
            TypeSpecificData::Initial { packet_number, .. } => Some(*packet_number),
            TypeSpecificData::ZeroRtt { packet_number, .. } => Some(*packet_number),
            TypeSpecificData::Handshake { packet_number, .. } => Some(*packet_number),
            TypeSpecificData::Retry { .. } => None,
        }
    }
}

/// Long header format (RFC 9000 Section 17.2)
#[derive(Debug, Clone)]
pub struct LongHeader {
    /// Packet type
    pub packet_type: PacketType,
    /// Version field
    pub version: u32,
    /// Destination connection ID
    pub dst_cid: ConnectionId,
    /// Source connection ID
    pub src_cid: ConnectionId,
    /// Type-specific data
    pub type_specific: TypeSpecificData,
}

/// A long header, with the bytes it holds.
#[verifier::ext_equal]
pub struct LongHeaderView {
    pub packet_type: PacketType,
    pub version: u32,
    pub dst_cid: Seq<u8>,
    pub src_cid: Seq<u8>,
    pub type_specific: TypeSpecificView,
}

impl View for LongHeader {
    type V = LongHeaderView;

    open spec fn view(&self) -> LongHeaderView {
        LongHeaderView {
            packet_type: self.packet_type,
            version: self.version,
            dst_cid: self.dst_cid@,
            src_cid: self.src_cid@,
            type_specific: self.type_specific@,
        }
    }
}

/// First byte of a long header: form bit, fixed bit, two type bits and the length of
/// the packet number less one, which is always three.
pub open spec fn long_first_byte(packet_type: PacketType) -> u8 {
    match packet_type {
        PacketType::Initial => 0xc3,
        PacketType::ZeroRtt => 0xd3,
        PacketType::Handshake => 0xe3,
        PacketType::Retry => 0xf3,
        PacketType::OneRtt => 0xc3,
    }
}

impl LongHeaderView {
    /// The bytes on the wire.
    pub open spec fn bytes(self) -> Seq<u8> {
        seq![long_first_byte(self.packet_type)] + be_bytes(self.version as nat, 4) + seq![
            (self.dst_cid.len() % 256) as u8,
        ] + self.dst_cid + seq![(self.src_cid.len() % 256) as u8] + self.src_cid
            + self.type_specific.bytes()
    }

    /// Whether the header can be read back from its bytes.
    pub open spec fn valid(self) -> bool {
        &&& self.packet_type == self.type_specific.packet_type()
        &&& self.dst_cid.len() <= MAX_CID_LEN
        &&& self.src_cid.len() <= MAX_CID_LEN
        &&& self.type_specific.encodable()
    }
}

/// Reads a long header, and says what follows it.
pub open spec fn parse_long_header(s: Seq<u8>) -> Result<(LongHeaderView, Seq<u8>), Error> {
    if s.len() < 6 {
        Err(Error::InvalidPacket(Reason::Text("Insufficient data for long header")))
    } else if s[0] & 0x80 == 0 {
        Err(Error::InvalidPacket(Reason::Text("Invalid header form for long header")))
    } else if s[0] & 0x40 == 0 {
        Err(Error::InvalidPacket(Reason::Text("Invalid fixed bit")))
    } else {
        let packet_type = long_packet_type((s[0] >> 4) & 0x03)->Some_0;
        let version = be_value(s.skip(1).take(4)) as u32;
        let dst_len = s[5] as int;
        let s1 = s.skip(6);
        if dst_len > MAX_CID_LEN {
            Err(Error::InvalidPacket(Reason::Text("Destination CID too long")))
        } else if s1.len() < dst_len {
            Err(Error::InvalidPacket(Reason::Text("Insufficient data for destination CID")))
        } else {
            let s2 = s1.skip(dst_len);
            if s2.len() == 0 {
                Err(Error::InvalidPacket(Reason::Text("Insufficient data for source CID")))
            } else if s2[0] > MAX_CID_LEN {
                Err(Error::InvalidPacket(Reason::Text("Source CID too long")))
            } else if s2.len() - 1 < s2[0] {
                Err(Error::InvalidPacket(Reason::Text("Insufficient data for source CID")))
            } else {
                let s3 = s2.skip(1);
                match parse_type_specific(packet_type, s3.skip(s2[0] as int)) {
                    Err(e) => Err(e),
                    Ok((type_specific, rest)) => Ok(
                        (
                            LongHeaderView {
                                packet_type,
                                version,
                                dst_cid: s1.take(dst_len),
                                src_cid: s3.take(s2[0] as int),
                                type_specific,
                            },
                            rest,
                        ),
                    ),
                }
            }
        }
    }
}

/// The type bits of a first byte are one of the four long-header types.
proof fn lemma_type_bits(b: u8)
    ensures
        ((b >> 4) & 0x03) <= 3,
{
    assert(((b >> 4) & 0x03) <= 3) by (bit_vector);
}

impl LongHeader {
    /// Creates a new long header
    pub fn new(
        packet_type: PacketType,
        version: u32,
        dst_cid: ConnectionId,
        src_cid: ConnectionId,
        type_specific: TypeSpecificData,
    ) -> (r: LongHeader)
        ensures
            r == (LongHeader { packet_type, version, dst_cid, src_cid, type_specific }),
    {
        LongHeader { packet_type, version, dst_cid, src_cid, type_specific }
    }

    /// Encodes the long header
    pub fn encode(&self, buf: &mut BytesMut) -> (r: Result<(), Error>)
        ensures
            self@.type_specific.encodable() ==> r == Ok::<(), Error>(()) && written(*final(buf))
                == written(*old(buf)) + self@.bytes(),
            !self@.type_specific.encodable() ==> r == Err::<(), Error>(Error::VarIntRange),
            written(*old(buf)).is_prefix_of(written(*final(buf))),
    {
        let ghost w = written(*buf);
        let first_byte: u8 = match self.packet_type {
            PacketType::Initial => 0xc3,
            PacketType::ZeroRtt => 0xd3,
            PacketType::Handshake => 0xe3,
            PacketType::Retry => 0xf3,
            PacketType::OneRtt => 0xc3,
        };
        put_u8(buf, first_byte);
        put_u32(buf, self.version);
        put_u8(buf, (self.dst_cid.len() % 256) as u8);
        buf.extend_from_slice(self.dst_cid.as_bytes());
        put_u8(buf, (self.src_cid.len() % 256) as u8);
        buf.extend_from_slice(self.src_cid.as_bytes());
        let ghost w1 = written(*buf);
        assert(w1 =~= w + seq![first_byte] + be_bytes(self.version as nat, 4) + seq![
            (self.dst_cid@.len() % 256) as u8,
        ] + self.dst_cid@ + seq![(self.src_cid@.len() % 256) as u8] + self.src_cid@);
        let r = self.type_specific.encode(buf);
        proof {
            assert(w.is_prefix_of(w1));
            if self@.type_specific.encodable() {
                assert(written(*buf) =~= w + self@.bytes());
            }
        }
        r
    }

    /// Decodes a long header
    pub fn decode(buf: &mut Bytes) -> (r: Result<LongHeader, Error>)
        ensures
            is_tail(contents(*final(buf)), contents(*old(buf))),
            match parse_long_header(contents(*old(buf))) {
                Ok((v, rest)) => r is Ok && r->Ok_0@ == v && contents(*final(buf)) == rest,
                Err(e) => r == Err::<LongHeader, Error>(e),
            },
    {
        let ghost s = contents(*buf);
        if buf.len() < 6 {
            return Err(Error::InvalidPacket(Reason::Text("Insufficient data for long header")));
        }
        let first_byte: u8 = get_u8(buf);
        if first_byte & 0x80 == 0 {
            return Err(Error::InvalidPacket(Reason::Text("Invalid header form for long header")));
        }
        if first_byte & 0x40 == 0 {
            return Err(Error::InvalidPacket(Reason::Text("Invalid fixed bit")));
        }
        proof {
            lemma_type_bits(first_byte);
        }
        let packet_type: PacketType = PacketType::try_from((first_byte >> 4) & 0x03)?;
        let version: u32 = get_u32(buf);
        let dst_cid_len: usize = get_u8(buf) as usize;
        assert(contents(*buf) =~= s.skip(6));
        assert(s.skip(1).skip(4)[0] == s[5]);
        if dst_cid_len > MAX_CID_LEN {
            return Err(Error::InvalidPacket(Reason::Text("Destination CID too long")));
        }
        if buf.len() < dst_cid_len {
            return Err(Error::InvalidPacket(Reason::Text("Insufficient data for destination CID")));
        }
        let dst_cid: ConnectionId = ConnectionId::from_bytes(buf.split_to(dst_cid_len))?;
        if buf.is_empty() {
            return Err(Error::InvalidPacket(Reason::Text("Insufficient data for source CID")));
        }
        let src_cid_len: usize = get_u8(buf) as usize;
        if src_cid_len > MAX_CID_LEN {
            return Err(Error::InvalidPacket(Reason::Text("Source CID too long")));
        }
        if buf.len() < src_cid_len {
            return Err(Error::InvalidPacket(Reason::Text("Insufficient data for source CID")));
        }
        let src_cid: ConnectionId = ConnectionId::from_bytes(buf.split_to(src_cid_len))?;
        assert(is_tail(contents(*buf), s));
        let type_specific: TypeSpecificData = TypeSpecificData::decode(packet_type, buf)?;
        Ok(LongHeader { packet_type, version, dst_cid, src_cid, type_specific })
    }
}

/// Short header format (RFC 9000 Section 17.3)
#[derive(Debug, Clone)]
pub struct ShortHeader {
    /// Spin bit for latency measurement
    pub spin_bit: bool,
    /// Key phase bit for key rotation
    pub key_phase: bool,
    /// Destination connection ID
    pub dst_cid: ConnectionId,
    /// Packet number
    pub packet_number: u32,
}

/// A short header, with the bytes it holds.
#[verifier::ext_equal]
pub struct ShortHeaderView {
    pub spin_bit: bool,
    pub key_phase: bool,
    pub dst_cid: Seq<u8>,
    pub packet_number: u32,
}

impl View for ShortHeader {
    type V = ShortHeaderView;

    open spec fn view(&self) -> ShortHeaderView {
        ShortHeaderView {
            spin_bit: self.spin_bit,
            key_phase: self.key_phase,
            dst_cid: self.dst_cid@,
            packet_number: self.packet_number,
        }
    }
}

/// Length of the destination connection ID in a short header.
pub const SHORT_CID_LEN: usize = 8;

/// First byte of a short header: fixed bit, spin bit, key phase and the length of the
/// packet number less one, which is always three.
pub open spec fn short_first_byte(spin_bit: bool, key_phase: bool) -> u8 {
    (0x43 + (if spin_bit {
        0x20int
    } else {
        0
    }) + (if key_phase {
        0x04int
    } else {
        0
    })) as u8
}

impl ShortHeaderView {
    /// The bytes on the wire.
    pub open spec fn bytes(self) -> Seq<u8> {
        seq![short_first_byte(self.spin_bit, self.key_phase)] + self.dst_cid + be_bytes(
            self.packet_number as nat,
            4,
        )
    }
}

/// Reads a short header, and says what follows it.
pub open spec fn parse_short_header(s: Seq<u8>) -> Result<(ShortHeaderView, Seq<u8>), Error> {
    if s.len() == 0 {
        Err(Error::InvalidPacket(Reason::Text("Empty buffer for short header")))
    } else if s[0] & 0x80 != 0 {
        Err(Error::InvalidPacket(Reason::Text("Invalid header form for short header")))
    } else if s[0] & 0x40 == 0 {
        Err(Error::InvalidPacket(Reason::Text("Invalid fixed bit")))
    } else if s.len() < 1 + SHORT_CID_LEN {
        Err(Error::InvalidPacket(Reason::Text("Insufficient data for destination CID")))
    } else if s.len() < 1 + SHORT_CID_LEN + 4 {
        Err(Error::InvalidPacket(Reason::Text("Insufficient data for packet number")))
    } else {
        Ok(
            (
                ShortHeaderView {
                    spin_bit: s[0] & 0x20 != 0,
                    key_phase: s[0] & 0x04 != 0,
                    dst_cid: s.subrange(1, 9),
                    packet_number: be_value(s.subrange(9, 13)) as u32,
                },
                s.skip(13),
            ),
        )
    }
}

impl ShortHeader {
    /// Creates a new short header
    pub fn new(
        spin_bit: bool,
        key_phase: bool,
        dst_cid: ConnectionId,
        packet_number: u32,
    ) -> (r: ShortHeader)
        ensures
            r == (ShortHeader { spin_bit, key_phase, dst_cid, packet_number }),
    {
        ShortHeader { spin_bit, key_phase, dst_cid, packet_number }
    }

    /// Encodes the short header
    pub fn encode(&self, buf: &mut BytesMut) -> (r: Result<(), Error>)
        ensures
            r == Ok::<(), Error>(()),
            written(*final(buf)) == written(*old(buf)) + self@.bytes(),
    {
        let ghost w = written(*buf);
        let spin: u8 = if self.spin_bit { 0x20 } else { 0x00 };
        let phase: u8 = if self.key_phase { 0x04 } else { 0x00 };
        put_u8(buf, 0x43 + spin + phase);
        buf.extend_from_slice(self.dst_cid.as_bytes());
        put_u32(buf, self.packet_number);
        assert(written(*buf) =~= w + self@.bytes());
        Ok(())
    }

    /// Decodes a short header, whose connection ID has eight bytes
    pub fn decode(buf: &mut Bytes) -> (r: Result<ShortHeader, Error>)
        ensures
            is_tail(contents(*final(buf)), contents(*old(buf))),
            match parse_short_header(contents(*old(buf))) {
                Ok((v, rest)) => r is Ok && r->Ok_0@ == v && contents(*final(buf)) == rest,
                Err(e) => r == Err::<ShortHeader, Error>(e),
            },
    {
        let ghost s = contents(*buf);
        if buf.is_empty() {
            return Err(Error::InvalidPacket(Reason::Text("Empty buffer for short header")));
        }
        let first_byte: u8 = get_u8(buf);
        if first_byte & 0x80 != 0 {
            return Err(Error::InvalidPacket(Reason::Text("Invalid header form for short header")));
        }
        if first_byte & 0x40 == 0 {
            return Err(Error::InvalidPacket(Reason::Text("Invalid fixed bit")));
        }
        let spin_bit: bool = (first_byte & 0x20) != 0;
        let key_phase: bool = (first_byte & 0x04) != 0;
        if buf.len() < SHORT_CID_LEN {
            return Err(Error::InvalidPacket(Reason::Text("Insufficient data for destination CID")));
        }
        let dst_cid: ConnectionId = ConnectionId::from_bytes(buf.split_to(SHORT_CID_LEN))?;
        if buf.len() < 4 {
            return Err(Error::InvalidPacket(Reason::Text("Insufficient data for packet number")));
        }
        let packet_number: u32 = get_u32(buf);
        proof {
            assert(dst_cid@ =~= s.subrange(1, 9));
            assert(s.skip(1).skip(8).take(4) =~= s.subrange(9, 13));
            assert(contents(*buf) =~= s.skip(13));
        }
        Ok(ShortHeader { spin_bit, key_phase, dst_cid, packet_number })
    }
}

/// QUIC packet header variants
#[derive(Debug, Clone)]
pub enum PacketHeader {
    /// Long header format for Initial, 0-RTT, Handshake, and Retry packets
    Long(LongHeader),
    /// Short header format for 1-RTT packets
    Short(ShortHeader),
}

/// A packet header, with the bytes it holds.
#[verifier::ext_equal]
pub enum PacketHeaderView {
    Long(LongHeaderView),
    Short(ShortHeaderView),
}

impl View for PacketHeader {
    type V = PacketHeaderView;

    open spec fn view(&self) -> PacketHeaderView {
        match *self {
            PacketHeader::Long(h) => PacketHeaderView::Long(h@),
            PacketHeader::Short(h) => PacketHeaderView::Short(h@),
        }
    }
}

impl PacketHeaderView {
    /// Whether every length fits a variable-length integer.
    pub open spec fn encodable(self) -> bool {
        self matches PacketHeaderView::Long(h) ==> h.type_specific.encodable()
    }

    /// The bytes on the wire.
    pub open spec fn bytes(self) -> Seq<u8> {
        match self {
            PacketHeaderView::Long(h) => h.bytes(),
            PacketHeaderView::Short(h) => h.bytes(),
        }
    }

    /// Whether the header can be read back from its bytes.
    pub open spec fn valid(self) -> bool {
        match self {
            PacketHeaderView::Long(h) => h.valid(),
            PacketHeaderView::Short(h) => h.dst_cid.len() == SHORT_CID_LEN,
        }
    }

    /// Whether the header takes up all that follows it, as a Retry packet does.
    pub open spec fn takes_all(self) -> bool {
        self matches PacketHeaderView::Long(h) && h.type_specific is Retry
    }

    /// The destination connection ID.
    pub open spec fn dst_cid(self) -> Seq<u8> {
        match self {
            PacketHeaderView::Long(h) => h.dst_cid,
            PacketHeaderView::Short(h) => h.dst_cid,
        }
    }

    /// The packet number, which a Retry packet does not have.
    pub open spec fn number(self) -> Option<u32> {
        match self {
            PacketHeaderView::Long(h) => match h.type_specific {
                TypeSpecificView::Initial { packet_number, .. } => Some(packet_number),
                TypeSpecificView::ZeroRtt { packet_number, .. } => Some(packet_number),
                TypeSpecificView::Handshake { packet_number, .. } => Some(packet_number),
                TypeSpecificView::Retry { .. } => None,
            },
            PacketHeaderView::Short(h) => Some(h.packet_number),
        }
    }

    /// The packet type.
    pub open spec fn packet_type(self) -> PacketType {
        match self {
            PacketHeaderView::Long(h) => h.packet_type,
            PacketHeaderView::Short(_) => PacketType::OneRtt,
        }
    }
}

/// Reads a packet header, and says what follows it.
pub open spec fn parse_header(s: Seq<u8>) -> Result<(PacketHeaderView, Seq<u8>), Error> {
    if s.len() == 0 {
        Err(Error::InvalidPacket(Reason::Text("Empty packet")))
    } else if s[0] & 0x80 != 0 {
        match parse_long_header(s) {
            Ok((h, rest)) => Ok((PacketHeaderView::Long(h), rest)),
            Err(e) => Err(e),
        }
    } else {
        match parse_short_header(s) {
            Ok((h, rest)) => Ok((PacketHeaderView::Short(h), rest)),
            Err(e) => Err(e),
        }
    }
}

impl PacketHeader {
    /// Encodes the header into bytes
    pub fn encode(&self, buf: &mut BytesMut) -> (r: Result<(), Error>)
        ensures
            self@.encodable() ==> r == Ok::<(), Error>(()) && written(*final(buf)) == written(
                *old(buf),
            ) + self@.bytes(),
            !self@.encodable() ==> r == Err::<(), Error>(Error::VarIntRange),
            written(*old(buf)).is_prefix_of(written(*final(buf))),
    {
        match self {
            PacketHeader::Long(h) => h.encode(buf),
            PacketHeader::Short(h) => h.encode(buf),
        }
    }

    /// Decodes a header from bytes
    pub fn decode(buf: &mut Bytes) -> (r: Result<PacketHeader, Error>)
        ensures
            is_tail(contents(*final(buf)), contents(*old(buf))),
            match parse_header(contents(*old(buf))) {
                Ok((v, rest)) => r is Ok && r->Ok_0@ == v && contents(*final(buf)) == rest,
                Err(e) => r == Err::<PacketHeader, Error>(e),
            },
    {
        if buf.is_empty() {
            return Err(Error::InvalidPacket(Reason::Text("Empty packet")));
        }
        let first_byte: u8 = (&**buf)[0];
        if first_byte & 0x80 != 0 {
            Ok(PacketHeader::Long(LongHeader::decode(buf)?))
        } else {
            Ok(PacketHeader::Short(ShortHeader::decode(buf)?))
        }
    }

    /// Get the destination connection ID
    pub fn destination_cid(&self) -> (r: &ConnectionId)
        ensures
            r@ == self@.dst_cid(),
    {
        match self {
            PacketHeader::Long(h) => &h.dst_cid,
            PacketHeader::Short(h) => &h.dst_cid,
        }
    }

    /// Get the source connection ID (only for long headers)
    pub fn source_cid(&self) -> (r: Option<&ConnectionId>)
        ensures
            match self {
                PacketHeader::Long(h) => r == Some(&h.src_cid),
                PacketHeader::Short(_) => r is None,
            },
    {
        match self {
            PacketHeader::Long(h) => Some(&h.src_cid),
            PacketHeader::Short(_) => None,
        }
    }

    /// Returns the packet type
    pub fn packet_type(&self) -> (r: PacketType)
        ensures
            r == self@.packet_type(),
    {
        match self {
            PacketHeader::Long(h) => h.packet_type,
            PacketHeader::Short(_) => PacketType::OneRtt,
        }
    }

    /// Get the packet number
    pub fn packet_number(&self) -> (r: Option<u32>)
        ensures
            r == self@.number(),
    {
        match self {
            PacketHeader::Long(h) => h.type_specific.packet_number(),
            PacketHeader::Short(h) => Some(h.packet_number),
        }
    }
}

/// A QUIC packet with header and payload
#[derive(Debug, Clone)]
pub struct Packet {
    /// The packet header
    pub header: PacketHeader,
    /// The packet payload (may be encrypted)
    pub payload: Bytes,
    /// Source address of the packet
    pub src: SocketAddress,
    /// Destination address of the packet
    pub dst: SocketAddress,
}

impl Packet {
    /// Creates a new packet
    pub fn new(
        header: PacketHeader,
        payload: Bytes,
        src: SocketAddress,
        dst: SocketAddress,
    ) -> (r: Packet)
        ensures
            r == (Packet { header, payload, src, dst }),
    {
        Packet { header, payload, src, dst }
    }

    /// Encodes the packet into bytes
    pub fn encode(&self, buf: &mut BytesMut) -> (r: Result<(), Error>)
        ensures
            self.header@.encodable() ==> r == Ok::<(), Error>(()) && written(*final(buf))
                == written(*old(buf)) + (self.header@.bytes() + contents(self.payload)),
            !self.header@.encodable() ==> r == Err::<(), Error>(Error::VarIntRange),
            written(*old(buf)).is_prefix_of(written(*final(buf))),
    {
        let ghost w = written(*buf);
        self.header.encode(buf)?;
        buf.extend_from_slice(&self.payload);
        assert(written(*buf) =~= w + (self.header@.bytes() + contents(self.payload)));
        Ok(())
    }

    /// Decodes a packet from bytes
    pub fn decode(buf: Bytes, src: SocketAddress, dst: SocketAddress) -> (r: Result<Packet, Error>)
        ensures
            match parse_header(contents(buf)) {
                Ok((v, rest)) => r is Ok && r->Ok_0.header@ == v && contents(r->Ok_0.payload) == rest
                    && r->Ok_0.src == src && r->Ok_0.dst == dst,
                Err(e) => r == Err::<Packet, Error>(e),
            },
    {
        let mut buf: Bytes = buf;
        let header: PacketHeader = PacketHeader::decode(&mut buf)?;
        Ok(Packet { header, payload: buf, src, dst })
    }

    /// Returns the packet type
    pub fn packet_type(&self) -> (r: PacketType)
        ensures
            r == self.header@.packet_type(),
    {
        self.header.packet_type()
    }

    /// Returns true if this is a long header packet
    pub fn is_long_header(&self) -> (r: bool)
        ensures
            r == (self.header is Long),
    {
        matches!(self.header, PacketHeader::Long(_))
    }

    /// Returns the destination connection ID
    pub fn dst_cid(&self) -> (r: &ConnectionId)
        ensures
            r@ == self.header@.dst_cid(),
    {
        self.header.destination_cid()
    }

    /// Returns the source connection ID for long header packets
    pub fn src_cid(&self) -> (r: Option<&ConnectionId>)
        ensures
            match self.header {
                PacketHeader::Long(h) => r == Some(&h.src_cid),
                PacketHeader::Short(_) => r is None,
            },
    {
        self.header.source_cid()
    }

    /// Returns the packet header
    pub fn header(&self) -> (r: &PacketHeader)
        ensures
            *r == self.header,
    {
        &self.header
    }

    /// Returns the packet payload
    pub fn payload(&self) -> (r: &Bytes)
        ensures
            *r == self.payload,
    {
        &self.payload
    }
}

/// Reading back a length and a packet number.
proof fn lemma_length_and_number_roundtrip(length: u64, packet_number: u32, rest: Seq<u8>)
    requires
        length <= MAX_VARINT,
    ensures
        parse_length_and_number(
            varint_bytes(length as nat) + be_bytes(packet_number as nat, 4) + rest,
        ) == Ok::<((u64, u32), Seq<u8>), Error>(((length, packet_number), rest)),
{
    let pn = be_bytes(packet_number as nat, 4);
    reveal_with_fuel(pow256, 5);
    lemma_be_roundtrip(packet_number as nat, 4);
    assert(varint_bytes(length as nat) + pn + rest =~= varint_bytes(length as nat) + (pn + rest));
    lemma_varint_roundtrip(length, pn + rest);
    assert((pn + rest).take(4) =~= pn);
    assert((pn + rest).skip(4) =~= rest);
}

/// Type-specific data is read back from its bytes.
proof fn lemma_type_specific_roundtrip(v: TypeSpecificView, rest: Seq<u8>)
    requires
        v.encodable(),
        v matches TypeSpecificView::Retry { retry_integrity_tag, .. } ==> rest.len() == 0
            && retry_integrity_tag.len() == 16,
    ensures
        parse_type_specific(v.packet_type(), v.bytes() + rest) == Ok::<
            (TypeSpecificView, Seq<u8>),
            Error,
        >((v, rest)),
{
    let s = v.bytes() + rest;
    match v {
        TypeSpecificView::Initial { token, length, packet_number } => {
            let tail = varint_bytes(length as nat) + be_bytes(packet_number as nat, 4) + rest;
            assert(s =~= varint_bytes(token.len()) + (token + tail));
            lemma_varint_roundtrip(token.len() as u64, token + tail);
            assert((token + tail).skip(token.len() as int) =~= tail);
            assert((token + tail).take(token.len() as int) =~= token);
            lemma_length_and_number_roundtrip(length, packet_number, rest);
        },
        TypeSpecificView::ZeroRtt { length, packet_number } => {
            lemma_length_and_number_roundtrip(length, packet_number, rest);
        },
        TypeSpecificView::Handshake { length, packet_number } => {
            lemma_length_and_number_roundtrip(length, packet_number, rest);
        },
        TypeSpecificView::Retry { retry_token, retry_integrity_tag } => {
            assert(s.take(s.len() - 16) =~= retry_token);
            assert(s.skip(s.len() - 16) =~= retry_integrity_tag);
            assert(rest =~= Seq::<u8>::empty());
        },
    }
}

/// Where the fields of a long header lie in its bytes.
proof fn lemma_long_header_layout(l: LongHeaderView, rest: Seq<u8>)
    requires
        l.valid(),
    ensures
        ({
            let s = l.bytes() + rest;
            let tail = l.type_specific.bytes() + rest;
            let s2 = seq![l.src_cid.len() as u8] + (l.src_cid + tail);
            &&& s.len() >= 6
            &&& s[0] == long_first_byte(l.packet_type)
            &&& s.skip(1).take(4) == be_bytes(l.version as nat, 4)
            &&& s[5] == l.dst_cid.len()
            &&& s.skip(6).take(l.dst_cid.len() as int) == l.dst_cid
            &&& s.skip(6).len() >= l.dst_cid.len()
            &&& s.skip(6).skip(l.dst_cid.len() as int) == s2
            &&& s2[0] == l.src_cid.len()
            &&& s2.len() - 1 >= l.src_cid.len()
            &&& s2.skip(1).take(l.src_cid.len() as int) == l.src_cid
            &&& s2.skip(1).skip(l.src_cid.len() as int) == tail
        }),
{
    let s = l.bytes() + rest;
    let tail = l.type_specific.bytes() + rest;
    let s2 = seq![l.src_cid.len() as u8] + (l.src_cid + tail);
    lemma_be_roundtrip(l.version as nat, 4);
    let head = seq![long_first_byte(l.packet_type)] + be_bytes(l.version as nat, 4) + seq![
        l.dst_cid.len() as u8,
    ];
    assert(s =~= head + (l.dst_cid + s2));
    assert(s.skip(1).take(4) =~= be_bytes(l.version as nat, 4));
    assert(s.skip(6) =~= l.dst_cid + s2);
    assert((l.dst_cid + s2).skip(l.dst_cid.len() as int) =~= s2);
    assert((l.dst_cid + s2).take(l.dst_cid.len() as int) =~= l.dst_cid);
    assert(s2.skip(1) =~= l.src_cid + tail);
    assert((l.src_cid + tail).skip(l.src_cid.len() as int) =~= tail);
    assert((l.src_cid + tail).take(l.src_cid.len() as int) =~= l.src_cid);
}

/// A long header is read back from its bytes.
proof fn lemma_long_header_roundtrip(l: LongHeaderView, rest: Seq<u8>)
    requires
        l.valid(),
        l.type_specific matches TypeSpecificView::Retry { retry_integrity_tag, .. } ==> rest.len()
            == 0 && retry_integrity_tag.len() == 16,
    ensures
        parse_long_header(l.bytes() + rest) == Ok::<(LongHeaderView, Seq<u8>), Error>((l, rest)),
        (l.bytes() + rest)[0] & 0x80 != 0,
        (l.bytes() + rest).len() > 0,
{
    assert(0xc3u8 & 0x80 != 0 && 0xd3u8 & 0x80 != 0 && 0xe3u8 & 0x80 != 0 && 0xf3u8 & 0x80 != 0
        && 0xc3u8 & 0x40 != 0 && 0xd3u8 & 0x40 != 0 && 0xe3u8 & 0x40 != 0 && 0xf3u8 & 0x40 != 0 && (
    0xc3u8 >> 4) & 0x03 == 0 && (0xd3u8 >> 4) & 0x03 == 1 && (0xe3u8 >> 4) & 0x03 == 2 && (0xf3u8
        >> 4) & 0x03 == 3) by (bit_vector);
    lemma_long_header_layout(l, rest);
    assert(pow256(4) == 0x1_0000_0000) by {
        reveal_with_fuel(pow256, 5);
    }
    lemma_be_roundtrip(l.version as nat, 4);
    lemma_type_specific_roundtrip(l.type_specific, rest);
}

/// A short header is read back from its bytes.
proof fn lemma_short_header_roundtrip(p: ShortHeaderView, rest: Seq<u8>)
    requires
        p.dst_cid.len() == SHORT_CID_LEN,
    ensures
        parse_short_header(p.bytes() + rest) == Ok::<(ShortHeaderView, Seq<u8>), Error>((p, rest)),
        (p.bytes() + rest)[0] & 0x80 == 0,
        (p.bytes() + rest).len() > 0,
{
    let s = p.bytes() + rest;
    assert(0x43u8 & 0x80 == 0 && 0x63u8 & 0x80 == 0 && 0x47u8 & 0x80 == 0 && 0x67u8 & 0x80 == 0
        && 0x43u8 & 0x40 != 0 && 0x63u8 & 0x40 != 0 && 0x47u8 & 0x40 != 0 && 0x67u8 & 0x40 != 0
        && 0x43u8 & 0x20 == 0 && 0x63u8 & 0x20 != 0 && 0x47u8 & 0x20 == 0 && 0x67u8 & 0x20 != 0
        && 0x43u8 & 0x04 == 0 && 0x63u8 & 0x04 == 0 && 0x47u8 & 0x04 != 0 && 0x67u8 & 0x04 != 0)
        by (bit_vector);
    let pn = be_bytes(p.packet_number as nat, 4);
    assert(pow256(4) == 0x1_0000_0000) by {
        reveal_with_fuel(pow256, 5);
    }
    lemma_be_roundtrip(p.packet_number as nat, 4);
    assert(s.subrange(1, 9) =~= p.dst_cid);
    assert(s.subrange(9, 13) =~= pn);
    assert(s.skip(13) =~= rest);
}

/// A header is read back from its bytes, whatever follows it. After a Retry header,
/// whose token takes up the packet, nothing may follow.
pub proof fn header_roundtrip(h: PacketHeaderView, rest: Seq<u8>)
    requires
        h.valid(),
        h.takes_all() ==> rest.len() == 0 && h->Long_0.type_specific->Retry_retry_integrity_tag.len()
            == 16,
    ensures
        parse_header(h.bytes() + rest) == Ok::<(PacketHeaderView, Seq<u8>), Error>((h, rest)),
{
    match h {
        PacketHeaderView::Long(l) => {
            lemma_long_header_roundtrip(l, rest);
        },
        PacketHeaderView::Short(p) => {
            lemma_short_header_roundtrip(p, rest);
        },
    }
}

} // verus!
