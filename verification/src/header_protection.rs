//! Masking of packet headers (RFC 9001 Section 5.4).

use vstd::prelude::*;

verus! {

/// Length of a header protection mask.
pub const MASK_LEN: usize = 5;

/// Length of the sample from which a mask is made.
pub const SAMPLE_LEN: usize = 16;

/// The bits of a first byte that are protected: four in a long header, five in a short
/// one.
pub open spec fn protected_bits(first: u8) -> u8 {
    if first & 0x80 != 0 {
        0x0f
    } else {
        0x1f
    }
}

/// The first byte under a mask.
pub open spec fn mask_first_byte(first: u8, mask: Seq<u8>) -> u8 {
    first ^ (mask[0] & protected_bits(first))
}

/// The packet number bytes under a mask. Bytes that lie past the end of the packet are
/// left out.
pub open spec fn mask_number(packet: Seq<u8>, offset: int, len: int, mask: Seq<u8>) -> Seq<u8> {
    Seq::new(
        packet.len(),
        |i: int|
            if offset <= i < offset + len {
                packet[i] ^ mask[1 + i - offset]
            } else {
                packet[i]
            },
    )
}

/// First byte and packet number under a mask.
pub open spec fn mask_header(packet: Seq<u8>, offset: int, len: int, mask: Seq<u8>) -> Seq<u8> {
    mask_number(packet.update(0, mask_first_byte(packet[0], mask)), offset, len, mask)
}

/// The length of the packet number that a first byte states.
pub open spec fn stated_number_len(first: u8) -> int {
    (first & 0x03) + 1
}

/// Masking twice gives a byte back, and leaves the form bit alone.
proof fn lemma_mask_byte(b: u8, m: u8)
    ensures
        (b ^ m) ^ m == b,
        (b ^ (m & 0x0f)) & 0x80 == b & 0x80,
        (b ^ (m & 0x1f)) & 0x80 == b & 0x80,
{
    assert((b ^ m) ^ m == b) by (bit_vector);
    assert((b ^ (m & 0x0f)) & 0x80 == b & 0x80) by (bit_vector);
    assert((b ^ (m & 0x1f)) & 0x80 == b & 0x80) by (bit_vector);
}

/// Masking a header twice with one mask gives it back: removing protection undoes
/// applying it.
pub proof fn mask_header_involution(packet: Seq<u8>, offset: int, len: int, mask: Seq<u8>)
    requires
        packet.len() > 0,
        offset > 0,
    ensures
        mask_header(mask_header(packet, offset, len, mask), offset, len, mask) == packet,
        mask_header(packet, offset, len, mask).len() == packet.len(),
        mask_header(packet, offset, len, mask)[0] & 0x80 == packet[0] & 0x80,
{
    let once = mask_header(packet, offset, len, mask);
    let twice = mask_header(once, offset, len, mask);
    lemma_mask_byte(packet[0], mask[0]);
    lemma_mask_byte(packet[0], mask[0] & 0x0f);
    lemma_mask_byte(packet[0], mask[0] & 0x1f);
    assert(once[0] == mask_first_byte(packet[0], mask));
    assert forall|i: int| 0 <= i < packet.len() implies twice[i] == packet[i] by {
        if offset <= i < offset + len {
            lemma_mask_byte(packet[i], mask[1 + i - offset]);
        }
    }
    assert(twice =~= packet);
}

/// Masking leaves every byte but the first one and the packet number as it is.
pub proof fn mask_header_keeps_rest(
    packet: Seq<u8>,
    offset: int,
    len: int,
    mask: Seq<u8>,
    i: int,
)
    requires
        0 < i < packet.len(),
        !(offset <= i < offset + len),
    ensures
        mask_header(packet, offset, len, mask)[i] == packet[i],
{
}

/// Masks the first byte of a packet
pub fn apply_first_byte_mask(packet: &mut [u8], mask: &[u8; 5])
    requires
        old(packet)@.len() > 0,
    ensures
        final(packet)@ == old(packet)@.update(0, mask_first_byte(old(packet)@[0], mask@)),
{
    let first: u8 = packet[0];
    let bits: u8 = if first & 0x80 != 0 { 0x0f } else { 0x1f };
    packet[0] = first ^ (mask[0] & bits);
}

/// Masks the packet number bytes of a packet
pub fn apply_number_mask(packet: &mut [u8], offset: usize, len: usize, mask: &[u8; 5])
    requires
        len <= 4,
    ensures
        final(packet)@ == mask_number(old(packet)@, offset as int, len as int, mask@),
{
    let ghost p = packet@;
    let mut i: usize = 0;
    assert(packet@ =~= mask_number(p, offset as int, 0, mask@));
    while i < len
        invariant
            i <= len <= 4,
            packet@ == mask_number(p, offset as int, i as int, mask@),
        decreases len - i,
    {
        if i < packet.len() && offset < packet.len() - i {
            let b: u8 = packet[offset + i];
            packet[offset + i] = b ^ mask[1 + i];
        }
        assert(packet@ =~= mask_number(p, offset as int, i + 1, mask@));
        i += 1;
    }
}

/// Masks the first byte and the packet number bytes of a packet
pub fn apply_mask(packet: &mut [u8], offset: usize, len: usize, mask: &[u8; 5])
    requires
        old(packet)@.len() > 0,
        len <= 4,
    ensures
        final(packet)@ == mask_header(old(packet)@, offset as int, len as int, mask@),
{
    apply_first_byte_mask(packet, mask);
    apply_number_mask(packet, offset, len, mask);
}

} // verus!
