//! Laws of packets: where the fields of a header stand, which bits are masked, and what the keys
//! are made from.

use crate::aead::{hkdf_sha256, nonce_of, number_byte};
use crate::buffer::be_value;
use crate::connection::ConnectionRole;
use crate::crypto_impl::{packet_payload, CryptoManager};
use crate::encryption::{PacketNumberLength, PacketNumberSpace};
use crate::error::Error;
use crate::frame_types::FrameView;
use crate::header_protection::{mask_first_byte, mask_header, stated_number_len};
use crate::key_derivation::{expanded_label, hkdf_info};
use crate::laws::wire::{behind, four, lemma_be_small, number_at};
use crate::packet::{
    header_roundtrip, long_first_byte, parse_header, parse_length_and_number, parse_long_header,
    short_first_byte, PacketHeaderView, PacketType, TypeSpecificView,
};
use crate::payload::{frames_bytes, padding, parse_frames, payload_roundtrip};
use crate::protection::{hp_mask, pn_offset_of, protected_packet, stated_type, unprotected_packet};
use vstd::prelude::*;

verus! {

/// The type that the first byte of a packet states: above 0x80 the two bits below the top two
/// tell the types with a long header apart, below it is a packet with a short one.
pub open spec fn type_named_by(first: u8) -> PacketType {
    if first < 0x80 {
        PacketType::OneRtt
    } else if first < 0x90 || 0xc0 <= first < 0xd0 {
        PacketType::Initial
    } else if first < 0xa0 || 0xd0 <= first < 0xe0 {
        PacketType::ZeroRtt
    } else if first < 0xb0 || 0xe0 <= first < 0xf0 {
        PacketType::Handshake
    } else {
        PacketType::Retry
    }
}

/// The bits of a first byte.
proof fn lemma_first_bits(first: u8)
    by (bit_vector)
    ensures
        (first & 0x80 != 0) == (first >= 0x80),
        first >= 0x80 ==> (first & 0x40 != 0) == (first >= 0xc0),
        first < 0x80 ==> (first & 0x40 != 0) == (first >= 0x40),
        (first >> 4) & 0x03 == (first / 16) % 4,
        (first & 0x30) >> 4 == (first / 16) % 4,
        (first & 0x20 != 0) == ((first / 32) % 2 == 1),
        (first & 0x04 != 0) == ((first / 4) % 2 == 1),
        first & 0x03 == first % 4,
{
}

/// The type of a packet is read off its first byte.
pub proof fn first_byte_names_type(first: u8)
    ensures
        stated_type(first) == type_named_by(first),
        stated_number_len(first) == first % 4 + 1,
{
    lemma_first_bits(first);
}

/// The bytes stand for the length and the number of a packet, and `rest` behind them.
pub open spec fn holds_number(s: Seq<u8>, length: u64, packet_number: u32, rest: Seq<u8>) -> bool {
    &&& number_at(s, 0) == Some(length)
    &&& behind(s, 1).len() == 4 + rest.len()
    &&& four(behind(s, 1), 0) == packet_number
    &&& rest == behind(s, 1).skip(4)
}

/// The bytes stand for the header, with `rest` behind it.
pub open spec fn holds_header(s: Seq<u8>, h: PacketHeaderView, rest: Seq<u8>) -> bool {
    match h {
        PacketHeaderView::Short(p) => {
            &&& s.len() >= 13
            &&& 0x40 <= s[0] < 0x80
            &&& p.spin_bit <==> (s[0] / 32) % 2 == 1
            &&& p.key_phase <==> (s[0] / 4) % 2 == 1
            &&& p.dst_cid == s.subrange(1, 9)
            &&& p.packet_number == four(s, 9)
            &&& rest == s.skip(13)
        },
        PacketHeaderView::Long(l) => {
            let d = l.dst_cid.len() as int;
            let c = l.src_cid.len() as int;
            let t = s.skip(7 + d + c);
            &&& s.len() >= 7 + d + c
            &&& s[0] >= 0xc0
            &&& l.packet_type == type_named_by(s[0])
            &&& l.version == four(s, 1)
            &&& s[5] == d && d <= 20
            &&& l.dst_cid == s.subrange(6, 6 + d)
            &&& s[6 + d] == c && c <= 20
            &&& l.src_cid == s.subrange(7 + d, 7 + d + c)
            &&& match l.type_specific {
                TypeSpecificView::Initial { token, length, packet_number } => {
                    &&& l.packet_type == PacketType::Initial
                    &&& number_at(t, 0) == Some(token.len() as u64)
                    &&& behind(t, 1).len() >= token.len()
                    &&& token == behind(t, 1).take(token.len() as int)
                    &&& holds_number(
                        behind(t, 1).skip(token.len() as int),
                        length,
                        packet_number,
                        rest,
                    )
                },
                TypeSpecificView::ZeroRtt { length, packet_number } => l.packet_type
                    == PacketType::ZeroRtt && holds_number(t, length, packet_number, rest),
                TypeSpecificView::Handshake { length, packet_number } => l.packet_type
                    == PacketType::Handshake && holds_number(t, length, packet_number, rest),
                TypeSpecificView::Retry { retry_token, retry_integrity_tag } => {
                    &&& l.packet_type == PacketType::Retry
                    &&& retry_integrity_tag.len() == 16
                    &&& t == retry_token + retry_integrity_tag
                    &&& rest.len() == 0
                },
            }
        },
    }
}

/// The length and the number of a packet.
proof fn lemma_number_holds(s: Seq<u8>)
    ensures
        parse_length_and_number(s) matches Ok(((length, packet_number), rest)) ==> holds_number(
            s,
            length,
            packet_number,
            rest,
        ),
{
    reveal_with_fuel(behind, 3);
    if parse_length_and_number(s) is Ok {
        let s1 = behind(s, 1);
        lemma_be_small(s1.take(4));
    }
}

/// The fields of a long header.
proof fn lemma_long_holds(s: Seq<u8>)
    ensures
        parse_long_header(s) matches Ok((l, rest)) ==> holds_header(
            s,
            PacketHeaderView::Long(l),
            rest,
        ),
{
    if parse_long_header(s) is Ok {
        let (l, rest) = parse_long_header(s)->Ok_0;
        lemma_first_bits(s[0]);
        reveal_with_fuel(behind, 3);
        let v = s.skip(1).take(4);
        lemma_be_small(v);
        assert(four(v, 0) == four(s, 1));
        let d = s[5] as int;
        let s1 = s.skip(6);
        let s2 = s1.skip(d);
        assert(s2[0] == s[6 + d]);
        let c = s2[0] as int;
        let s3 = s2.skip(1);
        let t = s.skip(7 + d + c);
        assert(s3.skip(c) =~= t);
        assert(s1.take(d) =~= s.subrange(6, 6 + d));
        assert(s3.take(c) =~= s.subrange(7 + d, 7 + d + c));
        lemma_number_holds(t);
        if l.packet_type == PacketType::Initial {
            let (n, u) = crate::varint::take_varint(t)->Some_0;
            lemma_number_holds(u.skip(n as int));
        }
        if l.packet_type == PacketType::Retry {
            assert(t.take(t.len() - 16) + t.skip(t.len() - 16) =~= t);
        }
    }
}

/// A header that is read off the front of a packet is the one that its bytes stand for, and a
/// packet without the fixed bit is refused.
pub proof fn header_is_what_bytes_hold(s: Seq<u8>)
    ensures
        parse_header(s) matches Ok((h, rest)) ==> holds_header(s, h, rest),
        s.len() > 0 && (s[0] < 0x40 || 0x80 <= s[0] < 0xc0) ==> parse_header(s) is Err,
        s.len() >= 13 && 0x40 <= s[0] < 0x80 ==> parse_header(s) is Ok,
{
    if s.len() > 0 {
        lemma_first_bits(s[0]);
        lemma_long_holds(s);
        if s.len() >= 13 {
            let n = s.subrange(9, 13);
            lemma_be_small(n);
            assert(four(n, 0) == four(s, 9));
        }
    }
}

/// What is written for a header stands for it.
pub proof fn written_header_holds_fields(h: PacketHeaderView, rest: Seq<u8>)
    requires
        h.valid(),
        h.takes_all() ==> rest.len() == 0 && h->Long_0.type_specific->Retry_retry_integrity_tag.len()
            == 16,
    ensures
        holds_header(h.bytes() + rest, h, rest),
{
    let s = h.bytes() + rest;
    assert(parse_header(s) == Ok::<(PacketHeaderView, Seq<u8>), Error>((h, rest))) by {
        header_roundtrip(h, rest);
    }
    header_is_what_bytes_hold(s);
}

/// The first byte of a header that is written names its type, and says that the packet number
/// takes four bytes.
pub proof fn written_first_byte(h: PacketHeaderView)
    requires
        h.packet_type() == PacketType::OneRtt <==> h is Short,
    ensures
        h.bytes().len() > 0,
        h.bytes()[0] % 4 == 3,
        stated_type(h.bytes()[0]) == h.packet_type(),
        h is Long ==> h.bytes()[0] >= 0xc0,
        h is Short ==> 0x40 <= h.bytes()[0] < 0x80,
{
    first_byte_names_type(h.bytes()[0]);
    match h {
        PacketHeaderView::Long(l) => {
            assert(h.bytes()[0] == long_first_byte(l.packet_type));
        },
        PacketHeaderView::Short(p) => {
            assert(h.bytes()[0] == short_first_byte(p.spin_bit, p.key_phase));
        },
    }
}

/// Frames are read from a payload in the order in which they were written; padding behind them
/// is left out, or is one PADDING frame where it is asked for.
pub proof fn payload_keeps_frames(v: Seq<FrameView>, pad: nat)
    requires
        forall|i: int|
            0 <= i < v.len() ==> (#[trigger] v[i]).valid() && !(v[i] is Padding)
                && !v[i].takes_all(),
    ensures
        parse_frames(frames_bytes(v) + padding(pad), false) == Ok::<Seq<FrameView>, Error>(v),
        pad == 0 ==> parse_frames(frames_bytes(v) + padding(pad), true) == Ok::<
            Seq<FrameView>,
            Error,
        >(v),
        pad > 0 ==> parse_frames(frames_bytes(v) + padding(pad), true) == Ok::<
            Seq<FrameView>,
            Error,
        >(v.push(FrameView::Padding)),
        forall|i: int| 0 <= i < pad ==> #[trigger] padding(pad)[i] == 0,
        padding(pad).len() == pad,
{
    payload_roundtrip(v, pad, false);
    payload_roundtrip(v, pad, true);
}

/// A payload with a frame of an unknown type is refused, whatever stands before and behind it.
pub proof fn unknown_frames_are_refused(v: Seq<FrameView>, kind: u8, rest: Seq<u8>, keep: bool)
    requires
        forall|i: int|
            0 <= i < v.len() ==> (#[trigger] v[i]).valid() && !(v[i] is Padding)
                && !v[i].takes_all(),
        kind > 0x1e,
    ensures
        parse_frames(frames_bytes(v) + (seq![kind] + rest), keep) is Err,
    decreases v.len(),
{
    let tail = seq![kind] + rest;
    let s = frames_bytes(v) + tail;
    if v.len() == 0 {
        assert(s =~= tail);
        assert(s[0] == kind);
        crate::laws::wire::frame_is_what_bytes_hold(s);
        crate::payload::parse_frame_makes_progress(s);
    } else {
        let w = v.skip(1);
        assert forall|i: int| 0 <= i < w.len() implies (#[trigger] w[i]).valid() && !(w[i]
            is Padding) && !w[i].takes_all() by {
            assert(w[i] == v[i + 1]);
        }
        unknown_frames_are_refused(w, kind, rest, keep);
        assert(s =~= v[0].bytes() + (frames_bytes(w) + tail));
        crate::frame_types::frame_roundtrip(v[0], frames_bytes(w) + tail);
        crate::payload::parse_frame_makes_progress(s);
        assert(s.len() > 0);
    }
}

/// Header protection changes four bits of a first byte above 0x80, and five of one below: those
/// where the mask has ones. It changes the bytes of the packet number where the mask behind its
/// first byte has ones, and no other byte.
pub proof fn mask_changes_protected_bits(packet: Seq<u8>, offset: int, len: int, mask: Seq<u8>)
    requires
        packet.len() > 0,
        0 < offset,
        0 <= len <= 4,
        offset + len <= packet.len(),
        mask.len() == 5,
    ensures
        ({
            let q = mask_header(packet, offset, len, mask);
            &&& q.len() == packet.len()
            &&& packet[0] >= 0x80 ==> packet[0] ^ q[0] == mask[0] % 16
            &&& packet[0] < 0x80 ==> packet[0] ^ q[0] == mask[0] % 32
            &&& forall|i: int|
                0 <= i < len ==> packet[offset + i] ^ #[trigger] q[offset + i] == mask[1 + i]
            &&& forall|i: int|
                0 < i < packet.len() && !(offset <= i < offset + len) ==> #[trigger] q[i]
                    == packet[i]
        }),
{
    let q = mask_header(packet, offset, len, mask);
    lemma_masked(packet[0], mask[0]);
    assert(q[0] == mask_first_byte(packet[0], mask));
    assert forall|i: int| 0 <= i < len implies packet[offset + i] ^ #[trigger] q[offset + i]
        == mask[1 + i] by {
        lemma_masked(packet[offset + i], mask[1 + i]);
    }
}

/// What a mask changes.
proof fn lemma_masked(b: u8, m: u8)
    by (bit_vector)
    ensures
        b ^ (b ^ m) == m,
        b & 0x80 != 0 ==> b ^ (b ^ (m & 0x0f)) == m % 16,
        b & 0x80 == 0 ==> b ^ (b ^ (m & 0x1f)) == m % 32,
        (b & 0x80 != 0) == (b >= 0x80),
{
}

/// The sample that a mask is made from is the 16 bytes that start four bytes behind the start
/// of the packet number, when protection is applied and when it is removed.
pub proof fn mask_is_of_sample(key: Seq<u8>, packet: Seq<u8>, header_len: int, offset: int)
    requires
        0 < offset,
        packet.len() >= offset + 20,
        packet.len() >= header_len + 20,
        0 < header_len,
        pn_offset_of(packet.take(header_len)) == Ok::<int, Error>(offset),
        forall|sample: Seq<u8>| (#[trigger] hp_mask(key, sample)).len() == 5,
    ensures
        ({
            let mask = hp_mask(key, packet.subrange(offset + 4, offset + 20));
            &&& protected_packet(key, packet, header_len) matches Ok(q) && {
                &&& q.len() == packet.len()
                &&& packet[0] >= 0x80 ==> packet[0] ^ q[0] == mask[0] % 16
                &&& packet[0] < 0x80 ==> packet[0] ^ q[0] == mask[0] % 32
                &&& forall|i: int|
                    0 <= i <= packet[0] % 4 ==> packet[offset + i] ^ #[trigger] q[offset + i]
                        == mask[1 + i]
                &&& forall|i: int|
                    0 < i < packet.len() && !(offset <= i <= offset + packet[0] % 4)
                        ==> #[trigger] q[i] == packet[i]
            }
            &&& unprotected_packet(key, packet, offset) matches Some((q, number, n)) && {
                &&& q.len() == packet.len()
                &&& packet[0] >= 0x80 ==> packet[0] ^ q[0] == mask[0] % 16
                &&& packet[0] < 0x80 ==> packet[0] ^ q[0] == mask[0] % 32
                &&& n == q[0] % 4 + 1
                &&& forall|i: int|
                    0 <= i < n ==> packet[offset + i] ^ #[trigger] q[offset + i] == mask[1 + i]
                &&& number == be_value(q.subrange(offset, offset + n)) as u64
            }
        }),
{
    let mask = hp_mask(key, packet.subrange(offset + 4, offset + 20));
    first_byte_names_type(packet[0]);
    mask_changes_protected_bits(packet, offset, stated_number_len(packet[0]), mask);
    let first = mask_first_byte(packet[0], mask);
    first_byte_names_type(first);
    mask_changes_protected_bits(packet, offset, stated_number_len(first), mask);
}

/// The nonce of a packet is the initialization vector, with the packet number added bit by bit
/// to its last eight bytes.
pub proof fn nonce_holds_number(iv: Seq<u8>, number: u64)
    requires
        iv.len() == 12,
    ensures
        ({
            let n = nonce_of(iv, number);
            let x = Seq::new(8, |i: int| n[4 + i] ^ iv[4 + i]);
            &&& n.len() == 12
            &&& n.take(4) == iv.take(4)
            &&& crate::laws::wire::eight(x, 0) == number
        }),
{
    let n = nonce_of(iv, number);
    let x = Seq::new(8, |i: int| n[4 + i] ^ iv[4 + i]);
    assert(n.take(4) =~= iv.take(4));
    assert forall|i: int| 0 <= i < 8 implies #[trigger] x[i] == number_byte(number, 7 - i) by {
        lemma_xor_back(iv[4 + i], number_byte(number, 7 - i));
    }
    assert(x[0] == number_byte(number, 7) && x[1] == number_byte(number, 6) && x[2]
        == number_byte(number, 5) && x[3] == number_byte(number, 4) && x[4] == number_byte(
        number,
        3,
    ) && x[5] == number_byte(number, 2) && x[6] == number_byte(number, 1) && x[7] == number_byte(
        number,
        0,
    ));
    assert(number / 0x100 / 0x100 == number / 0x1_0000);
    assert(number / 0x1_0000 / 0x100 == number / 0x100_0000);
    assert(number / 0x100_0000 / 0x100 == number / 0x1_0000_0000);
    assert(number / 0x1_0000_0000 / 0x100 == number / 0x100_0000_0000);
    assert(number / 0x100_0000_0000 / 0x100 == number / 0x1_0000_0000_0000);
    assert(number / 0x1_0000_0000_0000 / 0x100 == number / 0x100_0000_0000_0000);
}

/// Adding twice bit by bit gives back.
proof fn lemma_xor_back(a: u8, b: u8)
    by (bit_vector)
    ensures
        (a ^ b) ^ a == b,
{
}

/// What a key is expanded with: the length in two bytes, the label with its prefix behind its
/// length, and the context behind its length.
pub proof fn label_layout(prefix: Seq<u8>, label: Seq<u8>, context: Seq<u8>, length: nat)
    requires
        length < 0x1_0000,
        prefix.len() + label.len() < 0x100,
        context.len() < 0x100,
    ensures
        ({
            let s = hkdf_info(prefix, label, context, length);
            let n = prefix.len() + label.len();
            &&& s.len() == 4 + n + context.len()
            &&& s[0] * 0x100 + s[1] == length
            &&& s[2] == n
            &&& s.subrange(3, 3 + n as int) == prefix + label
            &&& s[3 + n as int] == context.len()
            &&& s.skip(4 + n as int) == context
        }),
{
    let s = hkdf_info(prefix, label, context, length);
    let n = prefix.len() + label.len();
    assert(s.subrange(3, 3 + n as int) =~= prefix + label);
    assert(s.skip(4 + n as int) =~= context);
}

/// A client sends Initial packets with the keys of the secret `client in` and receives them
/// with those of `server in`, both extracted with the salt of the version from the connection
/// ID that the client chose; a server does it the other way round. A key has 16 bytes, an
/// initialization vector 12.
pub proof fn initial_keys_are_directed<D>(m: CryptoManager<D>, cid: Seq<u8>)
    requires
        m.has_initial_keys(cid),
    ensures
        ({
            let salt = seq![
                0x38u8, 0x76, 0x2c, 0xf7, 0xf5, 0x59, 0x34, 0xb3, 0x4d, 0x17, 0x9a, 0xe6, 0xa4,
                0xc8, 0x0c, 0xad, 0xcc, 0xbb, 0x7f, 0x0a,
            ];
            let tls13 = seq![0x74u8, 0x6c, 0x73, 0x31, 0x33, 0x20];
            let client_in = seq![0x63u8, 0x6c, 0x69, 0x65, 0x6e, 0x74, 0x20, 0x69, 0x6e];
            let server_in = seq![0x73u8, 0x65, 0x72, 0x76, 0x65, 0x72, 0x20, 0x69, 0x6e];
            let client = hkdf_sha256(salt, cid, hkdf_info(tls13, client_in, Seq::empty(), 32), 32);
            let server = hkdf_sha256(salt, cid, hkdf_info(tls13, server_in, Seq::empty(), 32), 32);
            let send = m.initial_send_keys->Some_0;
            let recv = m.initial_recv_keys->Some_0;
            let key = seq![0x71u8, 0x75, 0x69, 0x63, 0x20, 0x6b, 0x65, 0x79];
            let iv = seq![0x71u8, 0x75, 0x69, 0x63, 0x20, 0x69, 0x76];
            let hp = seq![0x71u8, 0x75, 0x69, 0x63, 0x20, 0x68, 0x70];
            let (ours, theirs) = match m.role {
                ConnectionRole::Client => (client, server),
                ConnectionRole::Server => (server, client),
            };
            &&& send.key@ == expanded_label(ours, key, Seq::empty(), 16)
            &&& send.iv@ == expanded_label(ours, iv, Seq::empty(), 12)
            &&& send.header_key.key@ == expanded_label(ours, hp, Seq::empty(), 16)
            &&& recv.key@ == expanded_label(theirs, key, Seq::empty(), 16)
            &&& recv.iv@ == expanded_label(theirs, iv, Seq::empty(), 12)
            &&& recv.header_key.key@ == expanded_label(theirs, hp, Seq::empty(), 16)
        }),
{
    assert(crate::key_derivation::INITIAL_SALT@ =~= seq![
        0x38u8, 0x76, 0x2c, 0xf7, 0xf5, 0x59, 0x34, 0xb3, 0x4d, 0x17, 0x9a, 0xe6, 0xa4, 0xc8, 0x0c,
        0xad, 0xcc, 0xbb, 0x7f, 0x0a,
    ]);
    assert(crate::key_derivation::TLS_LABEL@ =~= seq![0x74u8, 0x6c, 0x73, 0x31, 0x33, 0x20]);
    assert(crate::key_derivation::CLIENT_IN@ =~= seq![
        0x63u8, 0x6c, 0x69, 0x65, 0x6e, 0x74, 0x20, 0x69, 0x6e,
    ]);
    assert(crate::key_derivation::SERVER_IN@ =~= seq![
        0x73u8, 0x65, 0x72, 0x76, 0x65, 0x72, 0x20, 0x69, 0x6e,
    ]);
    assert(crate::key_derivation::QUIC_KEY@ =~= seq![
        0x71u8, 0x75, 0x69, 0x63, 0x20, 0x6b, 0x65, 0x79,
    ]);
    assert(crate::key_derivation::QUIC_IV@ =~= seq![0x71u8, 0x75, 0x69, 0x63, 0x20, 0x69, 0x76]);
    assert(crate::key_derivation::QUIC_HP@ =~= seq![0x71u8, 0x75, 0x69, 0x63, 0x20, 0x68, 0x70]);
}

/// An Initial packet is padded so that with its header of 25 bytes at an estimate and its tag it
/// has 1200 bytes or more; no other packet is.
pub proof fn initial_packets_are_padded(packet_type: PacketType, frames: Seq<FrameView>)
    ensures
        ({
            let b = frames_bytes(frames);
            let p = packet_payload(packet_type, frames);
            &&& p.len() >= b.len() && p.take(b.len() as int) == b
            &&& forall|i: int| b.len() <= i < p.len() ==> #[trigger] p[i] == 0
            &&& packet_type == PacketType::Initial ==> p.len() + 25 + 16 >= 1200
            &&& packet_type == PacketType::Initial && p.len() + 25 + 16 > 1200 ==> p == b
            &&& packet_type != PacketType::Initial ==> p == b
        }),
{
    let b = frames_bytes(frames);
    let p = packet_payload(packet_type, frames);
    assert(p.take(b.len() as int) =~= b);
    if p.len() == b.len() {
        assert(p =~= b);
    }
}

/// The number of bytes of a packet number is the smallest that tells apart as many numbers as
/// are not acknowledged yet, four at most.
pub proof fn number_length_is_smallest(s: PacketNumberSpace)
    ensures
        ({
            let open = match s.largest_acked_packet_number {
                Some(n) => if n < s.next_packet_number {
                    s.next_packet_number - n
                } else {
                    0
                },
                None => s.next_packet_number as int,
            };
            match s.number_length() {
                PacketNumberLength::One => open < 0x100,
                PacketNumberLength::Two => 0x100 <= open < 0x1_0000,
                PacketNumberLength::Three => 0x1_0000 <= open < 0x100_0000,
                PacketNumberLength::Four => open >= 0x100_0000,
            }
        }),
        forall|l: PacketNumberLength| #[trigger] l.window() == match l {
            PacketNumberLength::One => 0x100u64,
            PacketNumberLength::Two => 0x1_0000u64,
            PacketNumberLength::Three => 0x100_0000u64,
            PacketNumberLength::Four => 0x1_0000_0000u64,
        },
{
}

} // verus!
