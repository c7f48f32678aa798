//! Packet number spaces and packet protection (RFC 9000 Section 12.3, RFC 9001 Section 5).

use crate::buffer::{
    be_bytes, be_value, bytes_from_vec, contents, get_u16, get_u32, get_u8, lemma_be_roundtrip,
    pow256, put_u16, put_u32, put_u8, written,
};
use crate::error::{Error, Reason};
use crate::header_protection::{apply_mask, mask_header, SAMPLE_LEN};
use crate::packet::{parse_header, PacketHeader, PacketHeaderView, PacketType};
use crate::time::max_int;
use bytes::{Bytes, BytesMut};
use std::collections::HashMap;
use vstd::prelude::*;

verus! {

broadcast use vstd::std_specs::hash::group_hash_axioms;

/// Encryption levels of the handshake
#[derive(Debug, Clone, Copy, PartialEq, Eq, Hash, Structural)]
pub enum EncryptionLevel {
    /// Initial keys
    Initial,
    /// Handshake keys
    Handshake,
    /// Application keys
    Application,
}

/// Packet number spaces as defined in RFC 9000 Section 12.3
#[derive(Debug, Clone, Copy, PartialEq, Eq, Hash, Structural)]
pub enum PacketSpace {
    /// Initial packet space (used for Initial packets)
    Initial,
    /// Handshake packet space (used for Handshake packets)
    Handshake,
    /// Application data packet space (used for 0-RTT and 1-RTT packets)
    ApplicationData,
}

impl PacketSpace {
    /// The encryption level of a packet space.
    pub open spec fn level(self) -> EncryptionLevel {
        match self {
            PacketSpace::Initial => EncryptionLevel::Initial,
            PacketSpace::Handshake => EncryptionLevel::Handshake,
            PacketSpace::ApplicationData => EncryptionLevel::Application,
        }
    }

    /// The packet space of a packet type. Retry packets use the Initial space.
    pub open spec fn of_type(packet_type: PacketType) -> PacketSpace {
        match packet_type {
            PacketType::Initial => PacketSpace::Initial,
            PacketType::ZeroRtt => PacketSpace::ApplicationData,
            PacketType::Handshake => PacketSpace::Handshake,
            PacketType::Retry => PacketSpace::Initial,
            PacketType::OneRtt => PacketSpace::ApplicationData,
        }
    }

    /// Returns the encryption level for this packet space
    pub fn encryption_level(self) -> (r: EncryptionLevel)
        ensures
            r == self.level(),
    {
        match self {
            PacketSpace::Initial => EncryptionLevel::Initial,
            PacketSpace::Handshake => EncryptionLevel::Handshake,
            PacketSpace::ApplicationData => EncryptionLevel::Application,
        }
    }

    /// Returns packet space from packet type
    pub fn from_packet_type(packet_type: PacketType) -> (r: PacketSpace)
        ensures
            r == PacketSpace::of_type(packet_type),
    {
        match packet_type {
            PacketType::Initial => PacketSpace::Initial,
            PacketType::ZeroRtt => PacketSpace::ApplicationData,
            PacketType::Handshake => PacketSpace::Handshake,
            PacketType::Retry => PacketSpace::Initial,
            PacketType::OneRtt => PacketSpace::ApplicationData,
        }
    }
}

/// Packet number encoding length
#[derive(Debug, Clone, Copy, PartialEq, Eq, Structural)]
pub enum PacketNumberLength {
    /// 1 byte packet number
    One,
    /// 2 byte packet number
    Two,
    /// 3 byte packet number (reserved)
    Three,
    /// 4 byte packet number
    Four,
}

/// The number that a truncated packet number most likely stands for: its bits replace the
/// low bits of the expected number, and the result moves by one window where it lies half
/// a window or more away.
pub open spec fn reconstructed(win: u64, truncated: u64, expected: u64) -> u64 {
    let half = win / 2;
    let candidate = (expected & !((win - 1) as u64)) | truncated;
    if candidate <= max_int(expected - half, 0) && candidate < 0x4000_0000_0000_0000 - win {
        (candidate + win) as u64
    } else if candidate > expected + half && candidate >= win {
        (candidate - win) as u64
    } else {
        candidate
    }
}

/// The packet number expected after the largest received one.
pub open spec fn expected_number(largest_received: Option<u64>) -> int {
    match largest_received {
        Some(n) => n + 1,
        None => 0,
    }
}

impl PacketNumberLength {
    /// The length in bytes.
    pub open spec fn len(self) -> nat {
        match self {
            PacketNumberLength::One => 1,
            PacketNumberLength::Two => 2,
            PacketNumberLength::Three => 3,
            PacketNumberLength::Four => 4,
        }
    }

    /// How many numbers can be told apart with this length.
    pub open spec fn window(self) -> u64 {
        match self {
            PacketNumberLength::One => 0x100,
            PacketNumberLength::Two => 0x1_0000,
            PacketNumberLength::Three => 0x100_0000,
            PacketNumberLength::Four => 0x1_0000_0000,
        }
    }

    /// The shortest length whose window exceeds the range, or the longest there is.
    pub open spec fn of_range(range: u64) -> PacketNumberLength {
        if range < 0x100 {
            PacketNumberLength::One
        } else if range < 0x1_0000 {
            PacketNumberLength::Two
        } else if range < 0x100_0000 {
            PacketNumberLength::Three
        } else {
            PacketNumberLength::Four
        }
    }

    /// Returns the length in bytes
    pub fn bytes(self) -> (r: usize)
        ensures
            r == self.len(),
    {
        match self {
            PacketNumberLength::One => 1,
            PacketNumberLength::Two => 2,
            PacketNumberLength::Three => 3,
            PacketNumberLength::Four => 4,
        }
    }

    /// Returns packet number length needed for a given range
    pub fn from_range(range: u64) -> (r: PacketNumberLength)
        ensures
            r == PacketNumberLength::of_range(range),
    {
        if range < 0x100 {
            PacketNumberLength::One
        } else if range < 0x1_0000 {
            PacketNumberLength::Two
        } else if range < 0x100_0000 {
            PacketNumberLength::Three
        } else {
            PacketNumberLength::Four
        }
    }

    /// Encodes the low bytes of a packet number with this length
    pub fn encode(self, packet_number: u64, buf: &mut BytesMut)
        ensures
            written(*final(buf)) == written(*old(buf)) + be_bytes(
                (packet_number % self.window()) as nat,
                self.len(),
            ),
    {
        let ghost w = written(*buf);
        match self {
            PacketNumberLength::One => {
                put_u8(buf, (packet_number % 0x100) as u8);
                proof {
                    reveal_with_fuel(be_bytes, 2);
                    assert(written(*buf) =~= w + be_bytes((packet_number % 0x100) as nat, 1));
                }
            },
            PacketNumberLength::Two => {
                put_u16(buf, (packet_number % 0x1_0000) as u16);
            },
            PacketNumberLength::Three => {
                put_u8(buf, ((packet_number / 0x1_0000) % 0x100) as u8);
                put_u16(buf, (packet_number % 0x1_0000) as u16);
                proof {
                    let v = (packet_number % 0x100_0000) as nat;
                    let low = (packet_number % 0x1_0000) as nat;
                    reveal_with_fuel(be_bytes, 4);
                    assert(v / 0x1_0000 == (packet_number / 0x1_0000) % 0x100);
                    assert(v % 0x1_0000 == low);
                    assert(written(*buf) =~= w + be_bytes(v, 3));
                }
            },
            PacketNumberLength::Four => {
                put_u32(buf, (packet_number % 0x1_0000_0000) as u32);
            },
        }
    }

    /// Decodes a packet number with this length
    pub fn decode(self, buf: &mut Bytes) -> (r: Result<u64, Error>)
        ensures
            contents(*old(buf)).len() < self.len() ==> r == Err::<u64, Error>(
                Error::InvalidPacket(Reason::Text("Insufficient data for packet number")),
            ) && contents(*final(buf)) == contents(*old(buf)),
            contents(*old(buf)).len() >= self.len() ==> r == Ok::<u64, Error>(
                be_value(contents(*old(buf)).take(self.len() as int)) as u64,
            ) && contents(*final(buf)) == contents(*old(buf)).skip(self.len() as int),
    {
        if buf.len() < self.bytes() {
            return Err(Error::InvalidPacket(Reason::Text("Insufficient data for packet number")));
        }
        let ghost s = contents(*buf);
        let truncated: u64 = match self {
            PacketNumberLength::One => {
                let b: u8 = get_u8(buf);
                proof {
                    reveal_with_fuel(be_value, 2);
                    assert(s.take(1).drop_last() =~= Seq::<u8>::empty());
                }
                b as u64
            },
            PacketNumberLength::Two => get_u16(buf) as u64,
            PacketNumberLength::Three => {
                let high: u64 = get_u8(buf) as u64;
                let low: u64 = get_u16(buf) as u64;
                proof {
                    reveal_with_fuel(be_value, 4);
                    let t = s.skip(1).take(2);
                    let f = s.take(3);
                    assert(t.last() == s[2] && t.drop_last().last() == s[1]);
                    assert(t.drop_last().drop_last() =~= Seq::<u8>::empty());
                    assert(f.last() == s[2] && f.drop_last().last() == s[1]
                        && f.drop_last().drop_last().last() == s[0]);
                    assert(f.drop_last().drop_last().drop_last() =~= Seq::<u8>::empty());
                    assert(contents(*buf) =~= s.skip(3));
                }
                high * 0x1_0000 + low
            },
            PacketNumberLength::Four => get_u32(buf) as u64,
        };
        Ok(truncated)
    }

    /// Reconstructs full packet number from truncated value
    pub fn reconstruct(self, truncated: u64, largest_received: Option<u64>) -> (r: u64)
        requires
            expected_number(largest_received) + self.window() / 2 <= u64::MAX,
        ensures
            r == reconstructed(
                self.window(),
                truncated,
                expected_number(largest_received) as u64,
            ),
    {
        let expected: u64 = match largest_received {
            Some(n) => n + 1,
            None => 0,
        };
        let win_size: u64 = match self {
            PacketNumberLength::One => 0x100,
            PacketNumberLength::Two => 0x1_0000,
            PacketNumberLength::Three => 0x100_0000,
            PacketNumberLength::Four => 0x1_0000_0000,
        };
        let half_win: u64 = win_size / 2;
        let candidate: u64 = (expected & !(win_size - 1)) | truncated;
        if candidate <= expected.saturating_sub(half_win) && candidate < 0x4000_0000_0000_0000
            - win_size {
            candidate + win_size
        } else if candidate > expected + half_win && candidate >= win_size {
            candidate - win_size
        } else {
            candidate
        }
    }
}

/// Replacing the low bits of a number by smaller ones is an addition.
proof fn lemma_replace_low_bits(e: u64, t: u64)
    ensures
        t < 0x100 ==> (e & !0xffu64) | t == e - e % 0x100 + t,
        t < 0x1_0000 ==> (e & !0xffffu64) | t == e - e % 0x1_0000 + t,
        t < 0x100_0000 ==> (e & !0xff_ffffu64) | t == e - e % 0x100_0000 + t,
        t < 0x1_0000_0000 ==> (e & !0xffff_ffffu64) | t == e - e % 0x1_0000_0000 + t,
{
    assert(t < 0x100 ==> (e & !0xffu64) | t == e - e % 0x100 + t) by (bit_vector);
    assert(t < 0x1_0000 ==> (e & !0xffffu64) | t == e - e % 0x1_0000 + t) by (bit_vector);
    assert(t < 0x100_0000 ==> (e & !0xff_ffffu64) | t == e - e % 0x100_0000 + t) by (bit_vector);
    assert(t < 0x1_0000_0000 ==> (e & !0xffff_ffffu64) | t == e - e % 0x1_0000_0000 + t)
        by (bit_vector);
}

/// A number less than half a window away from `e` is the one with its remainder that
/// lies nearest.
proof fn lemma_nearest(win: int, e: int, p: int)
    requires
        win >= 2,
        win % 2 == 0,
        e >= 0,
        p > 0,
        e - win / 2 < p <= e + win / 2,
    ensures
        ({
            let c = e - e % win + p % win;
            if c <= max_int(e - win / 2, 0) {
                p == c + win
            } else if c > e + win / 2 && c >= win {
                p == c - win
            } else {
                p == c
            }
        }),
{
    let qe = e / win;
    let qp = p / win;
    let d = qp - qe;
    vstd::arithmetic::div_mod::lemma_fundamental_div_mod(e, win);
    vstd::arithmetic::div_mod::lemma_fundamental_div_mod(p, win);
    vstd::arithmetic::div_mod::lemma_mod_bound(e, win);
    vstd::arithmetic::div_mod::lemma_mod_bound(p, win);
    assert(win * qp - win * qe == win * d) by (nonlinear_arith)
        requires
            d == qp - qe,
    ;
    if d >= 2 {
        assert(win * d >= win * 2) by (nonlinear_arith)
            requires
                d >= 2,
                win >= 2,
        ;
    }
    if d <= -2 {
        assert(win * d <= win * (-2)) by (nonlinear_arith)
            requires
                d <= -2,
                win >= 2,
        ;
    }
    assert(d == 1 ==> win * d == win) by (nonlinear_arith);
    assert(d == -1 ==> win * d == -win) by (nonlinear_arith);
    assert(d == 0 ==> win * d == 0) by (nonlinear_arith);
}

/// A packet number other than zero that lies less than half a window away from the
/// expected one is found again from its truncated form.
pub proof fn reconstruct_finds_number(
    length: PacketNumberLength,
    packet_number: u64,
    largest_received: Option<u64>,
)
    requires
        0 < packet_number < 0x4000_0000_0000_0000,
        expected_number(largest_received) + length.window() / 2 <= u64::MAX,
        expected_number(largest_received) - length.window() / 2 < packet_number,
        packet_number <= expected_number(largest_received) + length.window() / 2,
    ensures
        reconstructed(
            length.window(),
            packet_number % length.window(),
            expected_number(largest_received) as u64,
        ) == packet_number,
{
    let e = expected_number(largest_received) as u64;
    let t = packet_number % length.window();
    lemma_replace_low_bits(e, t);
    lemma_nearest(length.window() as int, e as int, packet_number as int);
    assert((e & !((length.window() - 1) as u64)) | t == e - e % length.window() + t) by {
        match length {
            PacketNumberLength::One => {},
            PacketNumberLength::Two => {},
            PacketNumberLength::Three => {},
            PacketNumberLength::Four => {},
        }
    }
}

/// Encoding and decoding a packet number gives its low bytes back.
pub proof fn packet_number_roundtrip(length: PacketNumberLength, packet_number: u64, rest: Seq<u8>)
    ensures
        ({
            let s = be_bytes((packet_number % length.window()) as nat, length.len()) + rest;
            &&& s.len() >= length.len()
            &&& be_value(s.take(length.len() as int)) == packet_number % length.window()
            &&& s.skip(length.len() as int) == rest
        }),
{
    let e = be_bytes((packet_number % length.window()) as nat, length.len());
    let s = e + rest;
    reveal_with_fuel(pow256, 5);
    lemma_be_roundtrip((packet_number % length.window()) as nat, length.len());
    assert(s.take(length.len() as int) =~= e);
    assert(s.skip(length.len() as int) =~= rest);
}

/// Packet number state for a single packet space
#[derive(Debug)]
pub struct PacketNumberSpace {
    /// Next packet number to send
    pub next_packet_number: u64,
    /// Largest received packet number
    pub largest_received_packet_number: Option<u64>,
    /// Largest acknowledged packet number
    pub largest_acked_packet_number: Option<u64>,
    /// Packet number to length mapping for sent packets
    pub sent_packet_numbers: HashMap<u64, PacketNumberLength>,
}

/// The larger of a number and one that may be missing.
pub open spec fn raised(largest: Option<u64>, n: u64) -> Option<u64> {
    match largest {
        Some(m) => if m >= n {
            Some(m)
        } else {
            Some(n)
        },
        None => Some(n),
    }
}

impl Default for PacketNumberSpace {
    fn default() -> (r: PacketNumberSpace)
        ensures
            r.is_new(),
    {
        Self::new()
    }
}

impl PacketNumberSpace {
    /// Whether nothing was sent or received yet.
    pub open spec fn is_new(self) -> bool {
        &&& self.next_packet_number == 0
        &&& self.largest_received_packet_number is None
        &&& self.largest_acked_packet_number is None
        &&& self.sent_packet_numbers@ == Map::<u64, PacketNumberLength>::empty()
    }

    /// The length in which the next packet number is encoded.
    pub open spec fn number_length(self) -> PacketNumberLength {
        PacketNumberLength::of_range(
            match self.largest_acked_packet_number {
                Some(n) => max_int(self.next_packet_number - n, 0) as u64,
                None => self.next_packet_number,
            },
        )
    }

    /// Creates a new packet number space
    pub fn new() -> (r: PacketNumberSpace)
        ensures
            r.is_new(),
    {
        PacketNumberSpace {
            next_packet_number: 0,
            largest_received_packet_number: None,
            largest_acked_packet_number: None,
            sent_packet_numbers: HashMap::new(),
        }
    }

    /// Gets the next packet number to send
    pub fn next_packet_number(&self) -> (r: u64)
        ensures
            r == self.next_packet_number,
    {
        self.next_packet_number
    }

    /// Allocates and returns the next packet number
    pub fn allocate_packet_number(&mut self) -> (r: u64)
        requires
            old(self).next_packet_number < u64::MAX,
        ensures
            r == old(self).next_packet_number,
            *final(self) == (PacketNumberSpace {
                next_packet_number: (old(self).next_packet_number + 1) as u64,
                ..*old(self)
            }),
    {
        let pn: u64 = self.next_packet_number;
        self.next_packet_number += 1;
        pn
    }

    /// Records a sent packet number with its encoded length
    pub fn record_sent_packet(&mut self, packet_number: u64, length: PacketNumberLength)
        ensures
            *final(self) == (PacketNumberSpace {
                sent_packet_numbers: final(self).sent_packet_numbers,
                ..*old(self)
            }),
            final(self).sent_packet_numbers@ == old(self).sent_packet_numbers@.insert(
                packet_number,
                length,
            ),
    {
        self.sent_packet_numbers.insert(packet_number, length);
    }

    /// Updates largest received packet number
    pub fn update_largest_received(&mut self, packet_number: u64)
        ensures
            *final(self) == (PacketNumberSpace {
                largest_received_packet_number: raised(
                    old(self).largest_received_packet_number,
                    packet_number,
                ),
                ..*old(self)
            }),
    {
        self.largest_received_packet_number =
        match self.largest_received_packet_number {
            Some(largest) => if largest >= packet_number {
                Some(largest)
            } else {
                Some(packet_number)
            },
            None => Some(packet_number),
        };
    }

    /// Updates largest acknowledged packet number
    pub fn update_largest_acked(&mut self, packet_number: u64)
        ensures
            *final(self) == (PacketNumberSpace {
                largest_acked_packet_number: raised(
                    old(self).largest_acked_packet_number,
                    packet_number,
                ),
                ..*old(self)
            }),
    {
        self.largest_acked_packet_number =
        match self.largest_acked_packet_number {
            Some(largest) => if largest >= packet_number {
                Some(largest)
            } else {
                Some(packet_number)
            },
            None => Some(packet_number),
        };
    }

    /// Gets the packet number length to use for encoding
    pub fn packet_number_length(&self) -> (r: PacketNumberLength)
        ensures
            r == self.number_length(),
    {
        let unacked_range: u64 = match self.largest_acked_packet_number {
            Some(largest_acked) => self.next_packet_number.saturating_sub(largest_acked),
            None => self.next_packet_number,
        };
        PacketNumberLength::from_range(unacked_range)
    }
}

/// Keys of one encryption level: the packet keys of both directions, and the key for
/// header protection.
#[derive(Debug)]
pub struct LevelKeys<P, H> {
    /// Packet keys of the client and of the server
    pub packet_keys: Option<(P, P)>,
    /// Header protection key
    pub header_key: Option<H>,
}

/// Packet protection manager
///
/// `P` is the type of packet keys and `H` that of header keys. The manager keeps them
/// and says which one a packet needs; the caller does the cryptography with them.
#[derive(Debug)]
pub struct PacketProtection<P, H> {
    /// Initial packet space
    pub initial: PacketNumberSpace,
    /// Handshake packet space
    pub handshake: PacketNumberSpace,
    /// Application data packet space
    pub application_data: PacketNumberSpace,
    /// Keys of the Initial level
    pub initial_keys: LevelKeys<P, H>,
    /// Keys of the Handshake level
    pub handshake_keys: LevelKeys<P, H>,
    /// Keys of the Application level
    pub application_keys: LevelKeys<P, H>,
    /// Whether we are a client (affects key selection)
    pub is_client: bool,
}

/// What an outbound packet is encrypted with.
#[derive(Debug)]
pub struct Sealing {
    /// Packet number of the packet
    pub packet_number: u64,
    /// Length in which the packet number is encoded
    pub pn_length: PacketNumberLength,
    /// Level whose keys are used
    pub level: EncryptionLevel,
    /// The header, which is authenticated with the payload
    pub aad: Bytes,
}

/// What an inbound packet is decrypted with.
#[derive(Debug)]
pub struct Opening {
    /// Packet number of the packet
    pub packet_number: u64,
    /// Level whose keys are used
    pub level: EncryptionLevel,
    /// The header without protection
    pub header: PacketHeader,
    /// The header, which is authenticated with the payload
    pub aad: Bytes,
}

/// Where the sample for header protection starts in an encrypted payload.
pub open spec fn sample_at(payload: Seq<u8>, offset: int) -> Option<Seq<u8>> {
    if offset + SAMPLE_LEN <= payload.len() {
        Some(payload.subrange(offset, offset + SAMPLE_LEN))
    } else {
        None
    }
}

/// Copies the sample out of an encrypted payload, where it is long enough
fn take_sample(payload: &[u8], offset: usize) -> (r: Option<Vec<u8>>)
    requires
        offset <= 4,
    ensures
        match sample_at(payload@, offset as int) {
            Some(s) => r is Some && r->Some_0@ == s,
            None => r is None,
        },
{
    if offset + SAMPLE_LEN <= payload.len() {
        Some(vstd::slice::slice_to_vec(vstd::slice::slice_subrange(payload, offset, offset + SAMPLE_LEN)))
    } else {
        None
    }
}

impl<P, H> PacketProtection<P, H> {
    /// The packet number space of a packet space.
    pub open spec fn space(self, space: PacketSpace) -> PacketNumberSpace {
        match space {
            PacketSpace::Initial => self.initial,
            PacketSpace::Handshake => self.handshake,
            PacketSpace::ApplicationData => self.application_data,
        }
    }

    /// The keys of a level.
    pub open spec fn keys(self, level: EncryptionLevel) -> LevelKeys<P, H> {
        match level {
            EncryptionLevel::Initial => self.initial_keys,
            EncryptionLevel::Handshake => self.handshake_keys,
            EncryptionLevel::Application => self.application_keys,
        }
    }

    /// The manager with other state in one packet space.
    pub open spec fn with_space(self, space: PacketSpace, s: PacketNumberSpace) -> Self {
        match space {
            PacketSpace::Initial => PacketProtection { initial: s, ..self },
            PacketSpace::Handshake => PacketProtection { handshake: s, ..self },
            PacketSpace::ApplicationData => PacketProtection { application_data: s, ..self },
        }
    }

    /// The manager with other keys at one level.
    pub open spec fn with_keys(self, level: EncryptionLevel, k: LevelKeys<P, H>) -> Self {
        match level {
            EncryptionLevel::Initial => PacketProtection { initial_keys: k, ..self },
            EncryptionLevel::Handshake => PacketProtection { handshake_keys: k, ..self },
            EncryptionLevel::Application => PacketProtection { application_keys: k, ..self },
        }
    }

    /// Creates a new packet protection manager
    pub fn new(is_client: bool) -> (r: Self)
        ensures
            r.is_client == is_client,
            forall|space: PacketSpace| (#[trigger] r.space(space)).is_new(),
            forall|level: EncryptionLevel|
                (#[trigger] r.keys(level)).packet_keys is None && r.keys(level).header_key is None,
    {
        PacketProtection {
            initial: PacketNumberSpace::new(),
            handshake: PacketNumberSpace::new(),
            application_data: PacketNumberSpace::new(),
            initial_keys: LevelKeys { packet_keys: None, header_key: None },
            handshake_keys: LevelKeys { packet_keys: None, header_key: None },
            application_keys: LevelKeys { packet_keys: None, header_key: None },
            is_client,
        }
    }

    /// Installs keys for an encryption level, as far as the TLS layer could make them: the
    /// packet keys first, and the header key only after them
    pub fn install_keys(
        &mut self,
        level: EncryptionLevel,
        client_key: Result<P, Error>,
        server_key: Result<P, Error>,
        header_key: Result<H, Error>,
    ) -> (r: Result<(), Error>)
        ensures
            match (client_key, server_key, header_key) {
                (Err(e), _, _) => r == Err::<(), Error>(e) && *final(self) == *old(self),
                (Ok(_), Err(e), _) => r == Err::<(), Error>(e) && *final(self) == *old(self),
                (Ok(c), Ok(s), Err(e)) => r == Err::<(), Error>(e) && *final(self) == old(
                    self,
                ).with_keys(
                    level,
                    LevelKeys {
                        packet_keys: Some((c, s)),
                        header_key: old(self).keys(level).header_key,
                    },
                ),
                (Ok(c), Ok(s), Ok(h)) => r == Ok::<(), Error>(()) && *final(self) == old(
                    self,
                ).with_keys(
                    level,
                    LevelKeys { packet_keys: Some((c, s)), header_key: Some(h) },
                ),
            },
    {
        let client: P = client_key?;
        let server: P = server_key?;
        match level {
            EncryptionLevel::Initial => {
                self.initial_keys.packet_keys = Some((client, server));
                self.initial_keys.header_key = Some(header_key?);
            },
            EncryptionLevel::Handshake => {
                self.handshake_keys.packet_keys = Some((client, server));
                self.handshake_keys.header_key = Some(header_key?);
            },
            EncryptionLevel::Application => {
                self.application_keys.packet_keys = Some((client, server));
                self.application_keys.header_key = Some(header_key?);
            },
        }
        Ok(())
    }

    /// Gets packet number space for a packet space
    pub fn get_space(&self, space: PacketSpace) -> (r: &PacketNumberSpace)
        ensures
            *r == self.space(space),
    {
        match space {
            PacketSpace::Initial => &self.initial,
            PacketSpace::Handshake => &self.handshake,
            PacketSpace::ApplicationData => &self.application_data,
        }
    }

    /// Gets mutable packet number space
    pub fn get_space_mut(&mut self, space: PacketSpace) -> (r: &mut PacketNumberSpace)
        ensures
            *r == old(self).space(space),
            *final(self) == old(self).with_space(space, *final(r)),
    {
        match space {
            PacketSpace::Initial => &mut self.initial,
            PacketSpace::Handshake => &mut self.handshake,
            PacketSpace::ApplicationData => &mut self.application_data,
        }
    }

    /// The keys of a level
    fn level_keys(&self, level: EncryptionLevel) -> (r: &LevelKeys<P, H>)
        ensures
            *r == self.keys(level),
    {
        match level {
            EncryptionLevel::Initial => &self.initial_keys,
            EncryptionLevel::Handshake => &self.handshake_keys,
            EncryptionLevel::Application => &self.application_keys,
        }
    }

    /// The packet key for outbound packets of a level
    pub fn sealing_key(&self, level: EncryptionLevel) -> (r: Result<&P, Error>)
        ensures
            match self.keys(level).packet_keys {
                Some((c, s)) => r is Ok && *r->Ok_0 == (if self.is_client {
                    c
                } else {
                    s
                }),
                None => r == Err::<&P, Error>(
                    Error::Crypto(Reason::Text("No packet key for encryption level")),
                ),
            },
    {
        match &self.level_keys(level).packet_keys {
            Some(pair) => if self.is_client {
                Ok(&pair.0)
            } else {
                Ok(&pair.1)
            },
            None => Err(Error::Crypto(Reason::Text("No packet key for encryption level"))),
        }
    }

    /// The packet key for inbound packets of a level
    pub fn opening_key(&self, level: EncryptionLevel) -> (r: Result<&P, Error>)
        ensures
            match self.keys(level).packet_keys {
                Some((c, s)) => r is Ok && *r->Ok_0 == (if self.is_client {
                    s
                } else {
                    c
                }),
                None => r == Err::<&P, Error>(
                    Error::Crypto(Reason::Text("No packet key for decryption")),
                ),
            },
    {
        match &self.level_keys(level).packet_keys {
            Some(pair) => if self.is_client {
                Ok(&pair.1)
            } else {
                Ok(&pair.0)
            },
            None => Err(Error::Crypto(Reason::Text("No packet key for decryption"))),
        }
    }

    /// Starts to protect an outbound packet: numbers it, and says which keys and which
    /// associated data it is encrypted with
    pub fn protect_packet(&mut self, header: &PacketHeader) -> (r: Result<Sealing, Error>)
        requires
            old(self).space(PacketSpace::of_type(header@.packet_type())).next_packet_number
                < u64::MAX,
        ensures
            ({
                let space = PacketSpace::of_type(header@.packet_type());
                let old_state = old(self).space(space);
                let number = old_state.next_packet_number;
                let stepped = PacketNumberSpace {
                    next_packet_number: (number + 1) as u64,
                    ..old_state
                };
                let state = final(self).space(space);
                let keys = old(self).keys(space.level());
                &&& *final(self) == old(self).with_space(space, state)
                &&& state == (PacketNumberSpace {
                    sent_packet_numbers: state.sent_packet_numbers,
                    ..stepped
                })
                &&& state.sent_packet_numbers@ == old_state.sent_packet_numbers@.insert(
                    number,
                    stepped.number_length(),
                )
                &&& if keys.packet_keys is None {
                    r == Err::<Sealing, Error>(
                        Error::Crypto(Reason::Text("No packet key for encryption level")),
                    )
                } else if keys.header_key is None {
                    r == Err::<Sealing, Error>(
                        Error::Crypto(Reason::Text("No header key for encryption level")),
                    )
                } else if !header@.encodable() {
                    r == Err::<Sealing, Error>(Error::VarIntRange)
                } else {
                    &&& r is Ok
                    &&& r->Ok_0.packet_number == number
                    &&& r->Ok_0.pn_length == stepped.number_length()
                    &&& r->Ok_0.level == space.level()
                    &&& contents(r->Ok_0.aad) == header@.bytes()
                }
            }),
    {
        let packet_space: PacketSpace = PacketSpace::from_packet_type(header.packet_type());
        let level: EncryptionLevel = packet_space.encryption_level();
        let space: &mut PacketNumberSpace = self.get_space_mut(packet_space);
        let packet_number: u64 = space.allocate_packet_number();
        let pn_length: PacketNumberLength = space.packet_number_length();
        space.record_sent_packet(packet_number, pn_length);
        let keys: &LevelKeys<P, H> = self.level_keys(level);
        if keys.packet_keys.is_none() {
            return Err(Error::Crypto(Reason::Text("No packet key for encryption level")));
        }
        if keys.header_key.is_none() {
            return Err(Error::Crypto(Reason::Text("No header key for encryption level")));
        }
        let mut header_buf: BytesMut = BytesMut::new();
        header.encode(&mut header_buf)?;
        assert(Seq::<u8>::empty() + header@.bytes() =~= header@.bytes());
        Ok(Sealing { packet_number, pn_length, level, aad: header_buf.freeze() })
    }

    /// The sample of an encrypted outbound payload from which the header mask is made. It
    /// starts four bytes after the packet number does
    pub fn sealing_sample(payload: &[u8], pn_length: PacketNumberLength) -> (r: Option<Vec<u8>>)
        ensures
            match sample_at(payload@, 4 - pn_length.len()) {
                Some(s) => r is Some && r->Some_0@ == s,
                None => r is None,
            },
    {
        take_sample(payload, 4 - pn_length.bytes())
    }

    /// The sample of an inbound payload from which the header mask is made, where the
    /// payload is long enough. Without a header key it cannot be used
    pub fn opening_sample(&self, packet_type: PacketType, payload: &[u8]) -> (r: Result<
        Option<Vec<u8>>,
        Error,
    >)
        ensures
            match sample_at(payload@, 4) {
                None => r == Ok::<Option<Vec<u8>>, Error>(None),
                Some(s) => if self.keys(PacketSpace::of_type(packet_type).level()).header_key
                    is None {
                    r == Err::<Option<Vec<u8>>, Error>(
                        Error::Crypto(Reason::Text("No header key for decryption")),
                    )
                } else {
                    r is Ok && r->Ok_0 is Some && r->Ok_0->Some_0@ == s
                },
            },
    {
        let level: EncryptionLevel = PacketSpace::from_packet_type(packet_type).encryption_level();
        match take_sample(payload, 4) {
            None => Ok(None),
            Some(sample) => if self.level_keys(level).header_key.is_none() {
                Err(Error::Crypto(Reason::Text("No header key for decryption")))
            } else {
                Ok(Some(sample))
            },
        }
    }

    /// Applies a header protection mask to the bytes of a header, which end with the packet
    /// number
    pub fn apply_header_protection(
        header: &mut Vec<u8>,
        mask: &[u8; 5],
        pn_length: PacketNumberLength,
    ) -> (r: Result<(), Error>)
        requires
            old(header)@.len() == 0 || old(header)@.len() >= pn_length.len(),
        ensures
            old(header)@.len() == 0 ==> r == Err::<(), Error>(
                Error::InvalidPacket(Reason::Text("Empty header")),
            )
                && final(header)@ == old(header)@,
            old(header)@.len() > 0 ==> r == Ok::<(), Error>(()) && final(header)@ == mask_header(
                old(header)@,
                old(header)@.len() - pn_length.len(),
                pn_length.len() as int,
                mask@,
            ),
    {
        if header.len() == 0 {
            return Err(Error::InvalidPacket(Reason::Text("Empty header")));
        }
        let pn_offset: usize = header.len() - pn_length.bytes();
        apply_mask(header.as_mut_slice(), pn_offset, pn_length.bytes(), mask);
        Ok(())
    }

    /// Removes a header protection mask from the bytes of a header: from its first byte and
    /// from its last one
    pub fn remove_header_protection(header: &mut Vec<u8>, mask: &[u8; 5]) -> (r: Result<(), Error>)
        ensures
            old(header)@.len() == 0 ==> r == Err::<(), Error>(
                Error::InvalidPacket(Reason::Text("Empty header")),
            )
                && final(header)@ == old(header)@,
            old(header)@.len() > 0 ==> r == Ok::<(), Error>(()) && final(header)@ == mask_header(
                old(header)@,
                old(header)@.len() - 1,
                1,
                mask@,
            ),
    {
        if header.len() == 0 {
            return Err(Error::InvalidPacket(Reason::Text("Empty header")));
        }
        let pn_offset: usize = header.len() - 1;
        apply_mask(header.as_mut_slice(), pn_offset, 1, mask);
        Ok(())
    }

    /// The header of an inbound packet without protection.
    pub open spec fn unmasked(header: PacketHeaderView, mask: Option<Seq<u8>>) -> Result<
        PacketHeaderView,
        Error,
    > {
        match mask {
            None => Ok(header),
            Some(m) => if !header.encodable() {
                Err(Error::VarIntRange)
            } else {
                match parse_header(
                    mask_header(header.bytes(), header.bytes().len() - 1, 1, m),
                ) {
                    Ok((h, _)) => Ok(h),
                    Err(e) => Err(e),
                }
            },
        }
    }

    /// Removes the protection of a header, and reads it again
    fn unmask(header: PacketHeader, mask: Option<[u8; 5]>) -> (r: Result<PacketHeader, Error>)
        ensures
            match Self::unmasked(
                header@,
                match mask {
                    Some(m) => Some(m@),
                    None => None,
                },
            ) {
                Ok(h) => r is Ok && r->Ok_0@ == h,
                Err(e) => r == Err::<PacketHeader, Error>(e),
            },
    {
        match mask {
            None => Ok(header),
            Some(m) => {
                let mut header_buf: BytesMut = BytesMut::new();
                header.encode(&mut header_buf)?;
                assert(Seq::<u8>::empty() + header@.bytes() =~= header@.bytes());
                let frozen: Bytes = header_buf.freeze();
                let mut bytes: Vec<u8> = vstd::slice::slice_to_vec(&frozen);
                assert(bytes@.len() > 0);
                Self::remove_header_protection(&mut bytes, &m)?;
                let mut unprotected: Bytes = bytes_from_vec(bytes);
                PacketHeader::decode(&mut unprotected)
            },
        }
    }

    /// Starts to unprotect an inbound packet: removes the mask of its header where there is
    /// one, numbers the packet, and says which keys and which associated data it is
    /// decrypted with
    pub fn unprotect_packet(&mut self, header: PacketHeader, mask: Option<[u8; 5]>) -> (r: Result<
        Opening,
        Error,
    >)
        requires
            Self::unmasked(
                header@,
                match mask {
                    Some(m) => Some(m@),
                    None => None,
                },
            ) is Ok ==> expected_number(
                old(self).space(
                    PacketSpace::of_type(header@.packet_type()),
                ).largest_received_packet_number,
            ) + 128 <= u64::MAX,
        ensures
            ({
                let space = PacketSpace::of_type(header@.packet_type());
                let old_state = old(self).space(space);
                let number = reconstructed(
                    0x100,
                    0,
                    expected_number(old_state.largest_received_packet_number) as u64,
                );
                let new_state = PacketNumberSpace {
                    largest_received_packet_number: raised(
                        old_state.largest_received_packet_number,
                        number,
                    ),
                    ..old_state
                };
                match Self::unmasked(
                    header@,
                    match mask {
                        Some(m) => Some(m@),
                        None => None,
                    },
                ) {
                    Err(e) => r == Err::<Opening, Error>(e) && *final(self) == *old(self),
                    Ok(h) => {
                        &&& *final(self) == old(self).with_space(space, new_state)
                        &&& if !h.encodable() {
                            r == Err::<Opening, Error>(Error::VarIntRange)
                        } else if old(self).keys(space.level()).packet_keys is None {
                            r == Err::<Opening, Error>(
                                Error::Crypto(Reason::Text("No packet key for decryption")),
                            )
                        } else {
                            &&& r is Ok
                            &&& r->Ok_0.packet_number == number
                            &&& r->Ok_0.level == space.level()
                            &&& r->Ok_0.header@ == h
                            &&& contents(r->Ok_0.aad) == h.bytes()
                        }
                    },
                }
            }),
    {
        let packet_space: PacketSpace = PacketSpace::from_packet_type(header.packet_type());
        let level: EncryptionLevel = packet_space.encryption_level();
        let header: PacketHeader = Self::unmask(header, mask)?;
        let space: &mut PacketNumberSpace = self.get_space_mut(packet_space);
        let packet_number: u64 = PacketNumberLength::One.reconstruct(
            0,
            space.largest_received_packet_number,
        );
        space.update_largest_received(packet_number);
        let mut aad_buf: BytesMut = BytesMut::new();
        header.encode(&mut aad_buf)?;
        assert(Seq::<u8>::empty() + header@.bytes() =~= header@.bytes());
        if self.level_keys(level).packet_keys.is_none() {
            return Err(Error::Crypto(Reason::Text("No packet key for decryption")));
        }
        Ok(Opening { packet_number, level, header, aad: aad_buf.freeze() })
    }
}

} // verus!
