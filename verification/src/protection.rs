//! Packet protection: where the packet number lies in a packet, header protection keys,
//! and sealing and opening of whole packets (RFC 9001 Section 5).

use crate::aead::{
    aead_open, aead_opened, aead_seal, aead_sealed, nonce_of, packet_nonce, CipherSuite,
    MAX_SEAL_LEN, TAG_LEN,
};
use crate::buffer::{be_value, contents, pow256, written};
use crate::error::{Error, Reason};
use crate::header_protection::{
    apply_mask, mask_first_byte, mask_header, mask_header_involution, stated_number_len, SAMPLE_LEN,
};
use crate::packet::PacketType;
use crate::varint::{take_varint, varint_width};
use bytes::{Bytes, BytesMut};
use vstd::prelude::*;
use vstd::slice::{slice_subrange, slice_to_vec};

verus! {

/// The packet type that a first byte states.
pub open spec fn stated_type(first: u8) -> PacketType {
    if first & 0x80 == 0 {
        PacketType::OneRtt
    } else if (first & 0x30) >> 4 == 0 {
        PacketType::Initial
    } else if (first & 0x30) >> 4 == 1 {
        PacketType::ZeroRtt
    } else if (first & 0x30) >> 4 == 2 {
        PacketType::Handshake
    } else {
        PacketType::Retry
    }
}

/// Determine packet type from first byte
pub fn packet_type_from_byte(first_byte: u8) -> (r: PacketType)
    ensures
        r == stated_type(first_byte),
{
    if (first_byte & 0x80) != 0 {
        match (first_byte & 0x30) >> 4 {
            0 => PacketType::Initial,
            1 => PacketType::ZeroRtt,
            2 => PacketType::Handshake,
            _ => PacketType::Retry,
        }
    } else {
        PacketType::OneRtt
    }
}

/// Reads a variable-length integer at an offset: its value and its width
pub fn read_varint(data: &[u8], offset: usize) -> (r: Option<(u64, usize)>)
    requires
        offset < data@.len(),
    ensures
        match take_varint(data@.skip(offset as int)) {
            Some((v, _)) => r == Some((v, varint_width(data@[offset as int]) as usize)) && v
                < 0x4000_0000_0000_0000,
            None => r is None,
        },
{
    let ghost s = data@.skip(offset as int);
    let first: u8 = data[offset];
    let width: usize = if first < 64 {
        1
    } else if first < 128 {
        2
    } else if first < 192 {
        4
    } else {
        8
    };
    let total: usize = data.len();
    if total - offset < width {
        return None;
    }
    let mut raw: u64 = 0;
    let mut i: usize = 0;
    proof {
        assert(pow256(8) == 0x1_0000_0000_0000_0000) by {
            reveal_with_fuel(pow256, 9);
        }
        assert(s.take(0) =~= Seq::<u8>::empty());
    }
    while i < width
        invariant
            i <= width <= 8,
            offset + width <= data@.len() == total,
            s == data@.skip(offset as int),
            raw == be_value(s.take(i as int)),
            raw < pow256(i as nat),
            pow256(8) == 0x1_0000_0000_0000_0000,
        decreases width - i,
    {
        let b: u8 = data[offset + i];
        proof {
            lemma_pow256_grows((i + 1) as nat, 8);
            assert(s.take(i + 1).drop_last() =~= s.take(i as int));
            assert(s.take(i + 1).last() == b);
        }
        raw = raw * 256 + b as u64;
        i += 1;
    }
    let tag: u64 = if width == 1 {
        0
    } else if width == 2 {
        0x4000
    } else if width == 4 {
        0x8000_0000
    } else {
        0xc000_0000_0000_0000
    };
    proof {
        crate::varint::lemma_be_first(s.take(width as int));
        assert(s.take(width as int)[0] == first);
    }
    Some((raw - tag, width))
}

/// Powers of `256` grow.
proof fn lemma_pow256_grows(a: nat, b: nat)
    requires
        a <= b,
    ensures
        0 < pow256(a) <= pow256(b),
    decreases b,
{
    if a < b {
        lemma_pow256_grows(a, (b - 1) as nat);
    } else if a > 0 {
        lemma_pow256_grows((a - 1) as nat, (a - 1) as nat);
    }
}

/// Where the length field that starts at `o` ends.
pub open spec fn length_end(s: Seq<u8>, o: int) -> Result<int, Error> {
    if s.len() <= o {
        Err(Error::Crypto(Reason::Text("Header too short for payload length")))
    } else {
        Ok(o + varint_width(s[o]))
    }
}

/// Where the packet number starts in a packet. A short header holds a connection ID of
/// eight bytes; a long header states the lengths of its fields.
pub open spec fn pn_offset_of(s: Seq<u8>) -> Result<int, Error> {
    if s.len() == 0 {
        Err(Error::Crypto(Reason::Text("Empty header")))
    } else if s[0] & 0x80 == 0 {
        Ok(9)
    } else if s.len() <= 5 {
        Err(Error::Crypto(Reason::Text("Header too short")))
    } else {
        let o1 = 6 + s[5];
        if s.len() <= o1 {
            Err(Error::Crypto(Reason::Text("Header too short for SCID")))
        } else {
            let o2 = o1 + 1 + s[o1];
            if (s[0] & 0x30) >> 4 == 0 {
                if s.len() <= o2 {
                    Err(Error::Crypto(Reason::Text("Header too short for token length")))
                } else {
                    match take_varint(s.skip(o2)) {
                        None => Err(
                            Error::Crypto(Reason::Text("Header too short for token length")),
                        ),
                        Some((token_len, _)) => length_end(
                            s,
                            o2 + varint_width(s[o2]) + token_len,
                        ),
                    }
                }
            } else {
                length_end(s, o2)
            }
        }
    }
}

/// Number of bytes that an integer with this first byte takes
fn width_of(first: u8) -> (r: usize)
    ensures
        r == varint_width(first),
{
    if first < 64 {
        1
    } else if first < 128 {
        2
    } else if first < 192 {
        4
    } else {
        8
    }
}

/// Get the offset of the packet number in the header
pub fn get_pn_offset(header_data: &[u8]) -> (r: Result<usize, Error>)
    requires
        header_data@.len() + 1024 <= usize::MAX,
    ensures
        match pn_offset_of(header_data@) {
            Ok(o) => r is Ok && r->Ok_0 == o && o <= header_data@.len() + 9,
            Err(e) => r == Err::<usize, Error>(e),
        },
{
    let len: usize = header_data.len();
    if len == 0 {
        return Err(Error::Crypto(Reason::Text("Empty header")));
    }
    let first_byte: u8 = header_data[0];
    if (first_byte & 0x80) == 0 {
        return Ok(9);
    }
    if len <= 5 {
        return Err(Error::Crypto(Reason::Text("Header too short")));
    }
    let mut offset: usize = 6 + header_data[5] as usize;
    if len <= offset {
        return Err(Error::Crypto(Reason::Text("Header too short for SCID")));
    }
    offset = offset + 1 + header_data[offset] as usize;
    if (first_byte & 0x30) >> 4 == 0 {
        if len <= offset {
            return Err(Error::Crypto(Reason::Text("Header too short for token length")));
        }
        match read_varint(header_data, offset) {
            None => {
                return Err(Error::Crypto(Reason::Text("Header too short for token length")));
            },
            Some((token_len, width)) => {
                let end: u64 = offset as u64 + width as u64;
                if (len as u64) <= end || len as u64 - end <= token_len {
                    return Err(Error::Crypto(Reason::Text("Header too short for payload length")));
                }
                offset = offset + width + token_len as usize;
            },
        }
    }
    if len <= offset {
        return Err(Error::Crypto(Reason::Text("Header too short for payload length")));
    }
    Ok(offset + width_of(header_data[offset]))
}

/// Header protection key for encrypting packet headers
#[derive(Debug)]
pub struct HeaderProtectionKey {
    /// Key bytes
    pub key: Vec<u8>,
}

/// The zero nonce.
pub open spec fn zero_nonce() -> Seq<u8> {
    Seq::new(12, |i: int| 0u8)
}

/// The mask that a header protection key makes of a sample: the start of the AES-128-GCM
/// ciphertext of the sample under the zero nonce.
pub open spec fn hp_mask(key: Seq<u8>, sample: Seq<u8>) -> Seq<u8> {
    aead_sealed(
        CipherSuite::Aes128Gcm.id(),
        key,
        zero_nonce(),
        Seq::empty(),
        sample.take(SAMPLE_LEN as int),
    ).take(5)
}

impl HeaderProtectionKey {
    /// Create a new header protection key
    pub fn new(key: &[u8]) -> (r: Result<HeaderProtectionKey, Error>)
        ensures
            key@.len() == 16 ==> r is Ok && r->Ok_0.key@ == key@,
            key@.len() != 16 ==> r == Err::<HeaderProtectionKey, Error>(
                Error::Crypto(Reason::HeaderKeyLength(key@.len() as usize)),
            ),
    {
        if key.len() != 16 {
            return Err(Error::Crypto(Reason::HeaderKeyLength(key.len())));
        }
        Ok(HeaderProtectionKey { key: slice_to_vec(key) })
    }

    /// Why no mask can be made of a sample, if none can.
    pub open spec fn mask_error(self, sample: Seq<u8>) -> Option<Error> {
        if sample.len() < SAMPLE_LEN {
            Some(Error::Crypto(Reason::Text("Sample too short")))
        } else if self.key@.len() != 16 {
            Some(Error::Crypto(Reason::Text("Invalid key length for AES-128")))
        } else {
            None
        }
    }

    /// Generate header protection mask
    pub fn mask(&self, sample: &[u8]) -> (r: Result<[u8; 5], Error>)
        ensures
            match self.mask_error(sample@) {
                Some(e) => r == Err::<[u8; 5], Error>(e),
                None => r is Ok && r->Ok_0@ == hp_mask(self.key@, sample@),
            },
    {
        if sample.len() < SAMPLE_LEN {
            return Err(Error::Crypto(Reason::Text("Sample too short")));
        }
        if self.key.len() != 16 {
            return Err(Error::Crypto(Reason::Text("Invalid key length for AES-128")));
        }
        let nonce: [u8; 12] = [0, 0, 0, 0, 0, 0, 0, 0, 0, 0, 0, 0];
        let aad: Vec<u8> = Vec::new();
        proof {
            assert(nonce@ =~= zero_nonce());
            assert(aad@ =~= Seq::<u8>::empty());
            assert(sample@.subrange(0, SAMPLE_LEN as int) =~= sample@.take(SAMPLE_LEN as int));
        }
        match aead_seal(
            CipherSuite::Aes128Gcm,
            &self.key,
            &nonce,
            &aad,
            slice_subrange(sample, 0, SAMPLE_LEN),
        ) {
            Ok(c) => {
                let mask: [u8; 5] = [c[0], c[1], c[2], c[3], c[4]];
                assert(mask@ =~= hp_mask(self.key@, sample@));
                Ok(mask)
            },
            Err(_) => Err(Error::Crypto(Reason::Text("AES encryption failed"))),
        }
    }
}

/// Packet protection keys for a given encryption level
#[derive(Debug)]
pub struct PacketKeys {
    /// Cipher suite of the packet key
    pub suite: CipherSuite,
    /// Key for packet payload encryption/decryption
    pub key: Vec<u8>,
    /// Key for header protection/unprotection
    pub header_key: HeaderProtectionKey,
    /// IV for nonce construction
    pub iv: [u8; 12],
}

impl PacketKeys {
    /// Whether the keys have the lengths that their use needs.
    pub open spec fn wf(self) -> bool {
        &&& self.key@.len() == self.suite.key_bytes()
        &&& self.header_key.key@.len() == 16
    }

    /// The ciphertext of a payload, with its tag.
    pub open spec fn sealed(self, pn: u64, aad: Seq<u8>, payload: Seq<u8>) -> Seq<u8> {
        aead_sealed(self.suite.id(), self.key@, nonce_of(self.iv@, pn), aad, payload)
    }

    /// The plaintext of a ciphertext with its tag, where the tag fits.
    pub open spec fn opened(self, pn: u64, aad: Seq<u8>, ciphertext: Seq<u8>) -> Option<Seq<u8>> {
        aead_opened(self.suite.id(), self.key@, nonce_of(self.iv@, pn), aad, ciphertext)
    }
}

/// The number of bytes in which a packet number is truncated.
pub open spec fn number_len(pn: u64) -> int {
    if pn < 0x100 {
        1
    } else if pn < 0x1_0000 {
        2
    } else if pn < 0x100_0000 {
        3
    } else {
        4
    }
}

/// Determine packet number encoding length
pub fn encode_packet_number_length(pn: u64) -> (r: usize)
    ensures
        r == number_len(pn),
{
    if pn < 0x100 {
        1
    } else if pn < 0x1_0000 {
        2
    } else if pn < 0x100_0000 {
        3
    } else {
        4
    }
}

/// Encode packet number with appropriate length: its low bytes
pub fn encode_packet_number(pn: u64, length: usize) -> (r: Result<u32, Error>)
    ensures
        length == 1 ==> r == Ok::<u32, Error>((pn % 0x100) as u32),
        length == 2 ==> r == Ok::<u32, Error>((pn % 0x1_0000) as u32),
        length == 3 ==> r == Ok::<u32, Error>((pn % 0x100_0000) as u32),
        length == 4 ==> r == Ok::<u32, Error>((pn % 0x1_0000_0000) as u32),
        length == 0 || length > 4 ==> r == Err::<u32, Error>(
            Error::Crypto(Reason::Text("Invalid packet number length")),
        ),
        r matches Ok(n) ==> n <= pn && (pn - n) % 0x100 == 0 && (length >= 2 ==> (pn - n) % 0x1_0000
            == 0) && (length >= 3 ==> (pn - n) % 0x100_0000 == 0) && (pn < 0x100 ==> n == pn),
{
    match length {
        1 => Ok((pn % 0x100) as u32),
        2 => Ok((pn % 0x1_0000) as u32),
        3 => Ok((pn % 0x100_0000) as u32),
        4 => Ok((pn % 0x1_0000_0000) as u32),
        _ => Err(Error::Crypto(Reason::Text("Invalid packet number length"))),
    }
}

/// Reads up to four bytes in big-endian order
pub fn read_number(packet: &[u8], offset: usize, len: usize) -> (r: u64)
    requires
        len <= 4,
        offset + len <= packet@.len(),
    ensures
        r == be_value(packet@.subrange(offset as int, offset + len)),
        r < 0x1_0000_0000,
{
    let ghost s = packet@.subrange(offset as int, offset + len);
    let total: usize = packet.len();
    let mut value: u64 = 0;
    let mut i: usize = 0;
    proof {
        assert(s.take(0) =~= Seq::<u8>::empty());
        assert(pow256(4) == 0x1_0000_0000) by {
            reveal_with_fuel(pow256, 5);
        }
    }
    while i < len
        invariant
            i <= len <= 4,
            offset + len <= packet@.len() == total,
            s == packet@.subrange(offset as int, offset + len),
            value == be_value(s.take(i as int)),
            value < pow256(i as nat),
            pow256(4) == 0x1_0000_0000,
        decreases len - i,
    {
        let b: u8 = packet[offset + i];
        proof {
            lemma_pow256_grows((i + 1) as nat, 4);
            assert(s.take(i + 1).drop_last() =~= s.take(i as int));
            assert(s.take(i + 1).last() == b);
        }
        value = value * 256 + b as u64;
        i += 1;
    }
    proof {
        assert(s.take(len as int) =~= s);
        lemma_pow256_grows(len as nat, 4);
    }
    value
}

/// A packet under header protection, or why it cannot be protected. As many bytes of the
/// packet number are masked as the first byte states.
pub open spec fn protected_packet(hp_key: Seq<u8>, packet: Seq<u8>, header_len: int) -> Result<
    Seq<u8>,
    Error,
> {
    if packet.len() < header_len + 20 {
        Err(Error::Crypto(Reason::Text("Packet too short for header protection")))
    } else {
        match pn_offset_of(packet.take(header_len)) {
            Err(e) => Err(e),
            Ok(o) => if packet.len() < o + 4 + SAMPLE_LEN {
                Err(Error::Crypto(Reason::Text("Packet too short for sample")))
            } else {
                Ok(
                    mask_header(
                        packet,
                        o,
                        stated_number_len(packet[0]),
                        hp_mask(hp_key, packet.subrange(o + 4, o + 4 + SAMPLE_LEN)),
                    ),
                )
            },
        }
    }
}

/// Apply header protection to an assembled packet
pub fn apply_header_protection_to_packet(
    packet_data: &mut [u8],
    hp_key: &HeaderProtectionKey,
    header_len: usize,
) -> (r: Result<(), Error>)
    requires
        hp_key.key@.len() == 16,
        old(packet_data)@.len() + 1024 <= usize::MAX,
        header_len <= old(packet_data)@.len(),
    ensures
        match protected_packet(hp_key.key@, old(packet_data)@, header_len as int) {
            Ok(p) => r == Ok::<(), Error>(()) && final(packet_data)@ == p,
            Err(e) => r == Err::<(), Error>(e) && final(packet_data)@ == old(packet_data)@,
        },
{
    let ghost p = packet_data@;
    if packet_data.len() < header_len + 20 {
        return Err(Error::Crypto(Reason::Text("Packet too short for header protection")));
    }
    assert(p.subrange(0, header_len as int) =~= p.take(header_len as int));
    let pn_offset: usize = get_pn_offset(slice_subrange(packet_data, 0, header_len))?;
    let sample_offset: usize = pn_offset + 4;
    if packet_data.len() < sample_offset + SAMPLE_LEN {
        return Err(Error::Crypto(Reason::Text("Packet too short for sample")));
    }
    let mask: [u8; 5] = hp_key.mask(
        slice_subrange(packet_data, sample_offset, sample_offset + SAMPLE_LEN),
    )?;
    let first: u8 = packet_data[0];
    proof {
        lemma_stated_len(first);
    }
    let pn_length: usize = (first & 0x03) as usize + 1;
    apply_mask(packet_data, pn_offset, pn_length, &mask);
    Ok(())
}

/// A packet without header protection, with its packet number and the length of it, or
/// why the protection cannot be removed.
pub open spec fn unprotected_packet(hp_key: Seq<u8>, packet: Seq<u8>, pn_offset: int) -> Option<
    (Seq<u8>, u64, int),
> {
    if packet.len() == 0 || packet.len() < pn_offset + 4 + SAMPLE_LEN {
        None
    } else {
        let mask = hp_mask(hp_key, packet.subrange(pn_offset + 4, pn_offset + 4 + SAMPLE_LEN));
        let n = stated_number_len(mask_first_byte(packet[0], mask));
        let p = mask_header(packet, pn_offset, n, mask);
        Some((p, be_value(p.subrange(pn_offset, pn_offset + n)) as u64, n))
    }
}

/// The stated length of a packet number is between one and four bytes.
proof fn lemma_stated_len(b: u8)
    ensures
        1 <= stated_number_len(b) <= 4,
{
    assert((b & 0x03) <= 3) by (bit_vector);
}

/// Remove header protection according to RFC 9001, and read the packet number
pub fn remove_header_protection(
    packet_data: &mut [u8],
    hp_key: &HeaderProtectionKey,
    pn_offset: usize,
) -> (r: Result<(u64, usize), Error>)
    requires
        hp_key.key@.len() == 16,
    ensures
        match unprotected_packet(hp_key.key@, old(packet_data)@, pn_offset as int) {
            Some((p, pn, n)) => r == Ok::<(u64, usize), Error>((pn, n as usize)) && final(packet_data)@ == p,
            None => r == Err::<(u64, usize), Error>(
                Error::Crypto(Reason::Text("Invalid packet structure for header protection removal")),
            ) && final(packet_data)@ == old(packet_data)@,
        },
{
    let len: usize = packet_data.len();
    if len == 0 || len < 4 + SAMPLE_LEN || len - (4 + SAMPLE_LEN) < pn_offset {
        return Err(
            Error::Crypto(Reason::Text("Invalid packet structure for header protection removal")),
        );
    }
    let sample_offset: usize = pn_offset + 4;
    let mask: [u8; 5] = hp_key.mask(
        slice_subrange(packet_data, sample_offset, sample_offset + SAMPLE_LEN),
    )?;
    let first: u8 = packet_data[0];
    let bits: u8 = if first & 0x80 != 0 { 0x0f } else { 0x1f };
    let unprotected_first_byte: u8 = first ^ (mask[0] & bits);
    proof {
        lemma_stated_len(unprotected_first_byte);
    }
    let pn_length: usize = (unprotected_first_byte & 0x03) as usize + 1;
    apply_mask(packet_data, pn_offset, pn_length, &mask);
    let packet_number: u64 = read_number(packet_data, pn_offset, pn_length);
    Ok((packet_number, pn_length))
}

/// The plaintext and the packet number of a protected packet, or why it cannot be opened.
pub open spec fn opened_packet(keys: PacketKeys, packet: Seq<u8>) -> Result<(u64, Seq<u8>), Error> {
    match pn_offset_of(packet) {
        Err(e) => Err(e),
        Ok(o) => match unprotected_packet(keys.header_key.key@, packet, o) {
            None => Err(Error::Crypto(Reason::Text("Packet too short for decryption"))),
            Some((p, pn, n)) => match keys.opened(pn, p.take(o + n), packet.skip(o + n)) {
                None => Err(Error::Crypto(Reason::Text("Decryption failed"))),
                Some(plaintext) => Ok((pn, plaintext)),
            },
        },
    }
}

/// Opens a protected packet: removes header protection and decrypts the payload
pub fn open_packet(keys: &PacketKeys, packet_data: &[u8]) -> (r: Result<(u64, Vec<u8>), Error>)
    requires
        keys.wf(),
        packet_data@.len() + 1024 <= usize::MAX,
    ensures
        match opened_packet(*keys, packet_data@) {
            Ok((pn, p)) => r is Ok && r->Ok_0.0 == pn && r->Ok_0.1@ == p,
            Err(e) => r == Err::<(u64, Vec<u8>), Error>(e),
        },
{
    let pn_offset: usize = get_pn_offset(packet_data)?;
    if packet_data.len() < pn_offset + 4 + SAMPLE_LEN {
        return Err(Error::Crypto(Reason::Text("Packet too short for decryption")));
    }
    let mut packet_copy: Vec<u8> = slice_to_vec(packet_data);
    let (pn, pn_length) = remove_header_protection(
        packet_copy.as_mut_slice(),
        &keys.header_key,
        pn_offset,
    )?;
    proof {
        let mask = hp_mask(
            keys.header_key.key@,
            packet_data@.subrange(pn_offset + 4, pn_offset + 4 + SAMPLE_LEN),
        );
        lemma_stated_len(mask_first_byte(packet_data@[0], mask));
    }
    let header_len: usize = pn_offset + pn_length;
    let nonce: [u8; 12] = packet_nonce(&keys.iv, pn);
    proof {
        assert(packet_copy@.subrange(0, header_len as int) =~= packet_copy@.take(
            header_len as int,
        ));
        assert(packet_data@.subrange(header_len as int, packet_data@.len() as int)
            =~= packet_data@.skip(header_len as int));
    }
    match aead_open(
        keys.suite,
        &keys.key,
        &nonce,
        slice_subrange(&packet_copy, 0, header_len),
        slice_subrange(packet_data, header_len, packet_data.len()),
    ) {
        Ok(plaintext) => Ok((pn, plaintext)),
        Err(_) => Err(Error::Crypto(Reason::Text("Decryption failed"))),
    }
}

/// Whether a header holds a packet number at its end, in the four bytes that it states.
pub open spec fn header_ready(h: Seq<u8>, pn: u64) -> bool {
    &&& pn < 0x1_0000_0000
    &&& h.len() > 4
    &&& pn_offset_of(h) == Ok::<int, Error>(h.len() - 4)
    &&& be_value(h.skip(h.len() - 4)) == pn
    &&& h[0] & 0x03 == 3
}

/// Where the packet number starts depends on the bytes before it alone.
proof fn lemma_pn_offset_stable(h: Seq<u8>, p: Seq<u8>, o: int)
    requires
        pn_offset_of(h) == Ok::<int, Error>(o),
        0 < o <= h.len() <= p.len(),
        p[0] & 0x80 == h[0] & 0x80,
        h[0] & 0x80 != 0 ==> p[0] & 0x30 == h[0] & 0x30,
        forall|i: int| 1 <= i < o ==> p[i] == h[i],
    ensures
        pn_offset_of(p) == Ok::<int, Error>(o),
{
    if h[0] & 0x80 != 0 {
        let o1 = 6 + h[5];
        let o2 = o1 + 1 + h[o1];
        if (h[0] & 0x30) >> 4 == 0 {
            let n = varint_width(h[o2]) as int;
            let a = h.skip(o2);
            let b = p.skip(o2);
            assert(p[o2] == h[o2]);
            assert(a[0] == h[o2] && b[0] == p[o2]);
            assert(a.take(n) =~= b.take(n));
        }
    }
}

/// The bits that state the form and the type of a long header are not masked.
proof fn lemma_mask_keeps_type(b: u8, m: u8)
    ensures
        (b ^ (m & 0x0f)) & 0x30 == b & 0x30,
{
    assert((b ^ (m & 0x0f)) & 0x30 == b & 0x30) by (bit_vector);
}

/// Header protection leaves the type of a packet in sight.
proof fn lemma_mask_keeps_stated_type(b: u8, mask: Seq<u8>)
    ensures
        stated_type(mask_first_byte(b, mask)) == stated_type(b),
{
    let m = mask[0];
    lemma_mask_keeps_type(b, m);
    assert((b ^ (m & 0x0f)) & 0x80 == b & 0x80) by (bit_vector);
    assert((b ^ (m & 0x1f)) & 0x80 == b & 0x80) by (bit_vector);
}

/// A packet that was sealed is opened again.
proof fn lemma_sealed_opens(
    keys: PacketKeys,
    h: Seq<u8>,
    ct: Seq<u8>,
    pn: u64,
    payload: Seq<u8>,
    p: Seq<u8>,
)
    requires
        header_ready(h, pn),
        protected_packet(keys.header_key.key@, h + ct, h.len() as int) == Ok::<
            Seq<u8>,
            Error,
        >(p),
        keys.opened(pn, h, ct) == Some(payload),
    ensures
        opened_packet(keys, p) == Ok::<(u64, Seq<u8>), Error>((pn, payload)),
{
    let hp = keys.header_key.key@;
    let o = h.len() - 4;
    let packet = h + ct;
    assert(packet.take(h.len() as int) =~= h);
    let m = hp_mask(hp, packet.subrange(o + 4, o + 4 + SAMPLE_LEN));
    assert(p == mask_header(packet, o, 4, m));
    mask_header_involution(packet, o, 4, m);
    assert(p[0] == mask_first_byte(packet[0], m));
    lemma_mask_keeps_type(h[0], m[0]);
    assert(packet[0] == h[0]);
    lemma_pn_offset_stable(h, p, o);
    assert(p.subrange(o + 4, o + 4 + SAMPLE_LEN) =~= packet.subrange(o + 4, o + 4 + SAMPLE_LEN));
    let n = stated_number_len(mask_first_byte(p[0], m));
    assert(mask_header(p, o, 4, m)[0] == mask_first_byte(p[0], m));
    assert(n == 4);
    assert(packet.subrange(o, o + 4) =~= h.skip(o));
    assert(packet.take(o + 4) =~= h);
    assert(p.skip(o + 4) =~= ct);
}

/// Seals a packet: encrypts the payload behind the header and protects the header. Where
/// the header holds the packet number in four bytes, the packet can be opened again with the
/// same keys, and gives the packet number and the payload
pub fn seal_packet(keys: &PacketKeys, header: &[u8], payload: &[u8], pn: u64) -> (r: Result<
    Bytes,
    Error,
>)
    requires
        keys.wf(),
        header@.len() + payload@.len() + 2048 <= usize::MAX,
    ensures
        ({
            let packet = header@ + keys.sealed(pn, header@, payload@);
            let hp = keys.header_key.key@;
            match r {
                Ok(b) => {
                    &&& protected_packet(hp, packet, header@.len() as int) == Ok::<
                        Seq<u8>,
                        Error,
                    >(contents(b))
                    &&& packet.len() == header@.len() + payload@.len() + TAG_LEN
                    &&& header@.len() > 0 ==> contents(b).len() > 0 && stated_type(contents(b)[0])
                        == stated_type(header@[0])
                    &&& header_ready(header@, pn) ==> opened_packet(*keys, contents(b)) == Ok::<
                        (u64, Seq<u8>),
                        Error,
                    >((pn, payload@))
                },
                Err(e) => {
                    ||| protected_packet(hp, packet, header@.len() as int) == Err::<
                        Seq<u8>,
                        Error,
                    >(e)
                    ||| (payload@.len() > MAX_SEAL_LEN || header@.len() > MAX_SEAL_LEN) && e
                        == Error::Crypto(Reason::Text("AEAD encryption failed"))
                },
            }
        }),
        pn_offset_of(header@) == Ok::<int, Error>(header@.len() - 4) && 4 <= payload@.len()
            <= MAX_SEAL_LEN && header@.len() <= MAX_SEAL_LEN ==> r is Ok,
{
    let nonce: [u8; 12] = packet_nonce(&keys.iv, pn);
    let ciphertext: Vec<u8> = match aead_seal(keys.suite, &keys.key, &nonce, header, payload) {
        Ok(c) => c,
        Err(_) => {
            return Err(Error::Crypto(Reason::Text("AEAD encryption failed")));
        },
    };
    let mut packet_data: BytesMut = BytesMut::new();
    packet_data.extend_from_slice(header);
    packet_data.extend_from_slice(&ciphertext);
    let ghost packet = header@ + ciphertext@;
    assert(written(packet_data) =~= packet);
    let header_len: usize = header.len();
    assert(packet.take(header_len as int) =~= header@);
    apply_header_protection_to_packet(&mut packet_data, &keys.header_key, header_len)?;
    proof {
        if header@.len() > 0 {
            let o = pn_offset_of(packet.take(header_len as int))->Ok_0;
            let mask = hp_mask(
                keys.header_key.key@,
                packet.subrange(o + 4, o + 4 + SAMPLE_LEN),
            );
            lemma_mask_keeps_stated_type(header@[0], mask);
            assert(written(packet_data)[0] == mask_first_byte(packet[0], mask));
        }
        if header_ready(header@, pn) {
            lemma_sealed_opens(
                *keys,
                header@,
                ciphertext@,
                pn,
                payload@,
                written(packet_data),
            );
        }
    }
    Ok(packet_data.freeze())
}

} // verus!
