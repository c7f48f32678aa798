//! Laws of keys: which secret a key comes from, which packet it protects, and where the protected
//! parts of a packet stand.

use crate::aead::{
    aead_opened, aead_sealed, hkdf_expand_sha256, hkdf_sha256, nonce_of, CipherSuite,
};
use crate::buffer::be_value;
use crate::connection::ConnectionRole;
use crate::crypto_enhanced::{DirectionalKeys, HeaderProtectionAlgorithm, ProtectionLevel};
use crate::crypto_impl::{
    expanded_from, exported_byte, fallback_secret, fallback_seed, mask_at, number_at,
    protect_offsets, updated_secret, zero_rtt_masked, CryptoManager, KeyChange, KeyChoice,
    PacketProtectionLevel, TlsKeys,
};
use crate::encryption::{
    expected_number, raised, sample_at, EncryptionLevel, LevelKeys, PacketNumberLength,
    PacketNumberSpace, PacketProtection, PacketSpace,
};
use crate::error::Error;
use crate::frame_types::FrameView;
use crate::header_protection::{mask_first_byte, mask_header, stated_number_len};
use crate::key_derivation::hkdf_info;
use crate::packet::{header_roundtrip, PacketHeaderView, PacketType, TypeSpecificView};
use crate::payload::{frames_bytes, parse_frames};
use crate::protection::{
    header_ready, hp_mask, opened_packet, pn_offset_of, protected_packet, stated_type, PacketKeys,
};
use crate::varint::{lemma_varint_roundtrip, varint_bytes, MAX_VARINT};
use vstd::prelude::*;

verus! {

/// Whether bytes are those of a text.
pub open spec fn spells(bytes: Seq<u8>, text: Seq<char>) -> bool {
    bytes.len() == text.len() && forall|i: int| 0 <= i < text.len() ==> #[trigger] bytes[i]
        == text[i] as u8
}

/// The labels that secrets are expanded with.
pub proof fn labels_are_text()
    ensures
        spells(crate::key_derivation::QUIC_KEY@, "quic key"@),
        spells(crate::key_derivation::QUIC_IV@, "quic iv"@),
        spells(crate::key_derivation::QUIC_HP@, "quic hp"@),
        spells(crate::key_derivation::QUIC_KU@, "quic ku"@),
        spells(crate::key_derivation::CLIENT_IN@, "client in"@),
        spells(crate::key_derivation::SERVER_IN@, "server in"@),
        spells(crate::key_derivation::TLS_LABEL@, "tls13 "@),
        spells(crate::key_derivation::QUIC_VERSION_LABEL@, "tls13 quic "@),
{
    reveal_strlit("quic key");
    reveal_strlit("quic iv");
    reveal_strlit("quic hp");
    reveal_strlit("quic ku");
    reveal_strlit("client in");
    reveal_strlit("server in");
    reveal_strlit("tls13 ");
    reveal_strlit("tls13 quic ");
}

/// A label is expanded behind its prefix: extracted without a salt, or expanded alone where the
/// secret is a pseudorandom key already.
pub proof fn labels_are_expanded(
    secret: Seq<u8>,
    label: Seq<u8>,
    context: Seq<u8>,
    prefix: Seq<u8>,
    length: nat,
)
    ensures
        spells(prefix, "tls13 quic "@) ==> crate::key_derivation::expanded_label(
            secret,
            label,
            context,
            length,
        ) == hkdf_sha256(Seq::empty(), secret, hkdf_info(prefix, label, context, length), length),
        spells(prefix, "tls13 "@) ==> crate::crypto_enhanced::expanded_label(
            secret,
            label,
            context,
            length,
        ) == hkdf_expand_sha256(secret, hkdf_info(prefix, label, context, length), length),
{
    labels_are_text();
    if spells(prefix, "tls13 quic "@) {
        assert(prefix =~= crate::key_derivation::QUIC_VERSION_LABEL@) by {
            assert forall|i: int| 0 <= i < prefix.len() implies prefix[i]
                == crate::key_derivation::QUIC_VERSION_LABEL@[i] by {
                assert(prefix[i] == "tls13 quic "@[i] as u8);
                assert(crate::key_derivation::QUIC_VERSION_LABEL@[i] == "tls13 quic "@[i] as u8);
            }
        }
    }
    if spells(prefix, "tls13 "@) {
        assert(prefix =~= crate::key_derivation::TLS_LABEL@) by {
            assert forall|i: int| 0 <= i < prefix.len() implies prefix[i]
                == crate::key_derivation::TLS_LABEL@[i] by {
                assert(prefix[i] == "tls13 "@[i] as u8);
                assert(crate::key_derivation::TLS_LABEL@[i] == "tls13 "@[i] as u8);
            }
        }
    }
}

/// A key update extracts the next secret with the first 32 bytes of the last one as salt and the
/// label for updates.
pub proof fn update_takes_first_bytes(secret: Seq<u8>, more: Seq<u8>, label: Seq<u8>)
    requires
        secret.len() == 32,
        spells(label, "quic ku"@),
    ensures
        updated_secret(secret) == hkdf_sha256(secret, Seq::empty(), label, 32),
        updated_secret(secret + more) == updated_secret(secret),
{
    labels_are_text();
    assert(label =~= crate::key_derivation::QUIC_KU@) by {
        assert forall|i: int| 0 <= i < label.len() implies label[i]
            == crate::key_derivation::QUIC_KU@[i] by {
            assert(label[i] == "quic ku"@[i] as u8);
            assert(crate::key_derivation::QUIC_KU@[i] == "quic ku"@[i] as u8);
        }
    }
    assert(secret.take(32) =~= secret);
    assert((secret + more).take(32) =~= secret);
}

/// Where there is no secret of a handshake, one is made from a text: each byte is that of the
/// text plus its place, and what is left of 32 bytes is zero.
pub proof fn fallback_secrets_are_made_from_text(level: PacketProtectionLevel, i: int)
    requires
        0 <= i < 32,
    ensures
        spells(fallback_seed(PacketProtectionLevel::Initial), "initial_keys_seed_v1"@),
        spells(fallback_seed(PacketProtectionLevel::Handshake), "handshake_keys_v1"@),
        spells(fallback_seed(PacketProtectionLevel::Application), "application_keys_v1"@),
        fallback_secret(level).len() == 32,
        i >= fallback_seed(level).len() ==> fallback_secret(level)[i] == 0,
        i < fallback_seed(level).len() ==> fallback_secret(level)[i] == fallback_seed(level)[i] + i
            || fallback_secret(level)[i] + 256 == fallback_seed(level)[i] + i,
{
    reveal_strlit("initial_keys_seed_v1");
    reveal_strlit("handshake_keys_v1");
    reveal_strlit("application_keys_v1");
}

/// Early data is masked byte by byte, each with its place and one constant: equal bytes at one
/// place stay equal, and the mask of the first byte is 0x5a.
pub proof fn early_data_mask_is_per_place(a: Seq<u8>, b: Seq<u8>, i: int)
    requires
        0 <= i < a.len(),
        i < b.len(),
    ensures
        zero_rtt_masked(a).len() == a.len(),
        zero_rtt_masked(a)[i] ^ zero_rtt_masked(b)[i] == a[i] ^ b[i],
        i == 0 && a[i] == 0 ==> zero_rtt_masked(a)[i] == 0x5a,
        zero_rtt_masked(a)[i] ^ a[i] ^ 0x5a == i % 256,
{
    let (x, y, k) = (a[i], b[i], (i % 256) as u8);
    assert((x ^ (k ^ 0x5a)) ^ (y ^ (k ^ 0x5a)) == x ^ y && ((x ^ (k ^ 0x5a)) ^ x) ^ 0x5a == k && (
    0u8 ^ (0u8 ^ 0x5a)) == 0x5a) by (bit_vector);
}

/// Exported material mixes its place with the label and the context, each repeated as needed.
pub proof fn exported_material_mixes(label: Seq<u8>, context: Seq<u8>, i: int)
    requires
        0 <= i,
        label.len() > 0,
    ensures
        context.len() == 0 ==> exported_byte(label, context, i) ^ label[i % (label.len() as int)]
            == i % 256,
        context.len() > 0 ==> exported_byte(label, context, i) ^ label[i % (label.len() as int)]
            ^ context[i % (context.len() as int)] == i % 256,
{
    let k = (i % 256) as u8;
    let l = label[i % (label.len() as int)];
    let c = if context.len() == 0 {
        0u8
    } else {
        context[i % (context.len() as int)]
    };
    assert((((k ^ l) ^ c) ^ l) ^ c == k && (((k ^ l) ^ 0u8) ^ l) == k) by (bit_vector);
}

/// Initial packets have a key for each direction, Handshake packets their own, and packets with
/// application data that of the phase; what the TLS layer keeps is used where there is no other
/// key, its local part to send.
pub proof fn keys_fit_packets<D>(m: CryptoManager<D>, sending: bool)
    ensures
        m.initial_send_keys matches Some(k) ==> m.keys_for(PacketType::Initial, true) == Ok::<
            KeyChoice<D>,
            Error,
        >(KeyChoice::Ring(k)),
        m.initial_recv_keys matches Some(k) ==> m.keys_for(PacketType::Initial, false) == Ok::<
            KeyChoice<D>,
            Error,
        >(KeyChoice::Ring(k)),
        m.initial_send_keys is None ==> m.keys_for(PacketType::Initial, true) is Err,
        m.initial_recv_keys is None ==> m.keys_for(PacketType::Initial, false) is Err,
        m.handshake_keys matches Some(k) ==> m.keys_for(PacketType::Handshake, sending) == Ok::<
            KeyChoice<D>,
            Error,
        >(KeyChoice::Ring(k)),
        m.handshake_keys is None ==> m.keys_for(PacketType::Handshake, sending) is Err,
        !m.key_phase ==> (m.application_keys matches Some(k) ==> m.keys_for(
            PacketType::OneRtt,
            sending,
        ) == Ok::<KeyChoice<D>, Error>(KeyChoice::Ring(k))),
        m.key_phase ==> (m.next_application_keys matches Some(k) ==> m.keys_for(
            PacketType::OneRtt,
            sending,
        ) == Ok::<KeyChoice<D>, Error>(KeyChoice::Ring(k))),
        !m.key_phase && m.application_keys is None ==> (m.application_keys_tls matches Some(t)
            ==> m.keys_for(PacketType::OneRtt, true) == Ok::<KeyChoice<D>, Error>(
            KeyChoice::Tls(t.local),
        ) && m.keys_for(PacketType::OneRtt, false) == Ok::<KeyChoice<D>, Error>(
            KeyChoice::Tls(t.remote),
        )),
        m.key_phase && m.next_application_keys is None ==> (m.next_application_keys_tls matches Some(
            t,
        ) ==> m.keys_for(PacketType::OneRtt, true) == Ok::<KeyChoice<D>, Error>(
            KeyChoice::Tls(t.local),
        ) && m.keys_for(PacketType::OneRtt, false) == Ok::<KeyChoice<D>, Error>(
            KeyChoice::Tls(t.remote),
        )),
        m.keys_for(PacketType::ZeroRtt, sending) == m.keys_for(PacketType::OneRtt, sending),
        m.keys_for(PacketType::Retry, sending) is Err,
{
}

/// What a client sends next: Initial packets until there are handshake keys, one Handshake packet
/// at least, and application data once the handshake is over.
pub proof fn client_packet_types<D>(m: CryptoManager<D>)
    requires
        m.role == ConnectionRole::Client,
    ensures
        ({
            let hs = m.handshake_keys is Some || m.handshake_keys_tls is Some;
            let app = m.application_keys is Some || m.application_keys_tls is Some;
            &&& !hs && m.initial_send_keys is Some ==> m.next_packet_type(true)
                == PacketType::Initial && m.next_packet_type(false) == PacketType::Initial
            &&& hs && m.handshake_send_count == 0 ==> m.next_packet_type(true)
                == PacketType::Handshake && m.next_packet_type(false) == PacketType::Handshake
            &&& hs ==> m.next_packet_type(true) == PacketType::Handshake
            &&& hs && app && m.handshake_send_count > 0 ==> m.next_packet_type(false)
                == PacketType::OneRtt
        }),
{
}

/// What a server sends next: one Initial packet, then Handshake packets while the handshake goes
/// on, and application data after it.
pub proof fn server_packet_types<D>(m: CryptoManager<D>)
    requires
        m.role == ConnectionRole::Server,
    ensures
        ({
            let hs = m.handshake_keys is Some || m.handshake_keys_tls is Some;
            let app = m.application_keys is Some || m.application_keys_tls is Some;
            &&& !m.initial_crypto_sent && m.initial_send_keys is Some ==> m.next_packet_type(true)
                == PacketType::Initial && m.next_packet_type(false) == PacketType::Initial
            &&& m.initial_crypto_sent && hs ==> m.next_packet_type(true) == PacketType::Handshake
            &&& m.initial_crypto_sent && app ==> m.next_packet_type(false) == PacketType::OneRtt
            &&& m.initial_crypto_sent && !hs ==> m.next_packet_type(true) == PacketType::Initial
        }),
{
}

/// Handshake packets that are sent are counted; a server notes that it sent its first data.
pub proof fn sent_handshake_is_noted<D>(m: CryptoManager<D>, t: PacketType, frames: bool)
    requires
        m.handshake_send_count < u32::MAX,
    ensures
        ({
            let n = m.after_sending(t, frames);
            &&& n.handshake_send_count - m.handshake_send_count == (if t == PacketType::Handshake {
                1int
            } else {
                0
            })
            &&& m.initial_crypto_sent ==> n.initial_crypto_sent
            &&& m.role == ConnectionRole::Server && t == PacketType::Initial && frames
                ==> n.initial_crypto_sent
            &&& m.role == ConnectionRole::Client || t != PacketType::Initial || !frames
                ==> n.initial_crypto_sent == m.initial_crypto_sent
            &&& n.key_phase == m.key_phase && n.application_keys == m.application_keys
        }),
{
}

/// A header names the peer first and the sender second, version one, and how many bytes follow:
/// the number, the payload and a tag of 16 bytes.
pub proof fn headers_describe_packets<D>(m: CryptoManager<D>, number: u64, payload: int)
    requires
        m.remote_cid is Some,
        m.local_cid is Some,
        number < 0x1_0000_0000,
        0 <= payload < 0x1_0000,
    ensures
        m.header_for(PacketType::OneRtt, number, payload) matches Ok(PacketHeaderView::Short(h))
            && h.dst_cid == m.remote_cid->Some_0@ && h.packet_number == number && h.key_phase
            == m.key_phase && !h.spin_bit,
        m.header_for(PacketType::Handshake, number, payload) matches Ok(PacketHeaderView::Long(h))
            && h.packet_type == PacketType::Handshake && h.version == 1 && h.dst_cid
            == m.remote_cid->Some_0@ && h.src_cid == m.local_cid->Some_0@ && (h.type_specific
            matches TypeSpecificView::Handshake { length, packet_number } && packet_number == number
            && payload + 17 <= length <= payload + 20 && (number < 0x100 ==> length == payload + 17)
            && (0x100 <= number < 0x1_0000 ==> length == payload + 18) && (number >= 0x100_0000
            ==> length == payload + 20)),
        m.header_for(PacketType::Initial, number, payload) matches Ok(PacketHeaderView::Long(h))
            && h.packet_type == PacketType::Initial && h.version == 1 && h.dst_cid
            == m.remote_cid->Some_0@ && h.src_cid == m.local_cid->Some_0@ && (h.type_specific
            matches TypeSpecificView::Initial { token, length, packet_number } && token.len() == 0
            && packet_number == number && payload + 17 <= length <= payload + 20 && (number < 0x100
            ==> length == payload + 17)),
        m.header_for(PacketType::ZeroRtt, number, payload) matches Ok(PacketHeaderView::Long(h))
            && h.packet_type == PacketType::ZeroRtt && (h.type_specific
            matches TypeSpecificView::ZeroRtt { length, packet_number } && packet_number == number
            && payload + 17 <= length <= payload + 20),
        m.header_for(PacketType::Retry, number, payload) is Err,
{
}

/// The number of a packet with a long header stands behind the two connection IDs and the length.
pub proof fn number_stands_behind_length(
    start: Seq<u8>,
    dst: Seq<u8>,
    src: Seq<u8>,
    length: u64,
    rest: Seq<u8>,
)
    requires
        start.len() == 5,
        0x90 <= start[0] < 0xc0 || 0xd0 <= start[0],
        dst.len() < 256,
        src.len() < 256,
        length <= MAX_VARINT,
    ensures
        ({
            let n = varint_bytes(length as nat);
            let s = start + seq![dst.len() as u8] + dst + seq![src.len() as u8] + src + n + rest;
            let place = Ok::<int, Error>((7 + dst.len() + src.len() + n.len()) as int);
            &&& pn_offset_of(s) == place
            &&& number_at(s, PacketType::Handshake) == place
            &&& number_at(s, PacketType::ZeroRtt) == place
        }),
{
    let n = varint_bytes(length as nat);
    let s = start + seq![dst.len() as u8] + dst + seq![src.len() as u8] + src + n + rest;
    let first = start[0];
    lemma_varint_roundtrip(length, rest);
    let o = 7 + dst.len() + src.len();
    assert(first & 0x80 != 0 && (first & 0x30) >> 4 != 0) by (bit_vector)
        requires
            (0x90 <= first && first < 0xc0) || 0xd0 <= first,
    ;
    assert(s[0] == first);
    assert(s[5] == dst.len() as u8);
    assert(s[6 + dst.len() as int] == src.len() as u8);
    assert(s[o as int] == n[0]);
    assert(s.skip(o as int) =~= n + rest);
}

/// An Initial packet has a token, behind its length, before the length of the rest.
pub proof fn token_stands_before_length(
    start: Seq<u8>,
    dst: Seq<u8>,
    src: Seq<u8>,
    token: Seq<u8>,
    length: u64,
    rest: Seq<u8>,
)
    requires
        start.len() == 5,
        0x80 <= start[0] < 0x90 || 0xc0 <= start[0] < 0xd0,
        dst.len() < 256,
        src.len() < 256,
        token.len() <= MAX_VARINT,
        length <= MAX_VARINT,
    ensures
        ({
            let t = varint_bytes(token.len());
            let n = varint_bytes(length as nat);
            let s = start + seq![dst.len() as u8] + dst + seq![src.len() as u8] + src + t + token
                + n + rest;
            let place = Ok::<int, Error>(
                (7 + dst.len() + src.len() + t.len() + token.len() + n.len()) as int,
            );
            &&& pn_offset_of(s) == place
            &&& number_at(s, PacketType::Initial) == place
        }),
{
    let t = varint_bytes(token.len());
    let n = varint_bytes(length as nat);
    let s = start + seq![dst.len() as u8] + dst + seq![src.len() as u8] + src + t + token + n
        + rest;
    let first = start[0];
    lemma_varint_roundtrip(length, rest);
    lemma_varint_roundtrip(token.len() as u64, token + n + rest);
    let o = (7 + dst.len() + src.len()) as int;
    let p = (o + t.len() + token.len()) as int;
    assert(first & 0x80 != 0 && (first & 0x30) >> 4 == 0) by (bit_vector)
        requires
            (0x80 <= first && first < 0x90) || (0xc0 <= first && first < 0xd0),
    ;
    assert(s[0] == first);
    assert(s[5] == dst.len() as u8);
    assert(s[6 + dst.len() as int] == src.len() as u8);
    assert(s[o] == t[0]);
    assert(s.skip(o) =~= t + (token + n + rest));
    assert(s[p] == n[0]);
    assert(s.skip(p) =~= n + rest);
}

/// A packet with a short header has its number behind the first byte and eight bytes of the
/// connection ID.
pub proof fn short_number_stands_at_nine(s: Seq<u8>)
    requires
        s.len() > 0,
        s[0] < 0x80,
    ensures
        pn_offset_of(s) == Ok::<int, Error>(9),
        number_at(s, PacketType::OneRtt) == Ok::<int, Error>(9),
{
    let first = s[0];
    assert(first & 0x80 == 0) by (bit_vector)
        requires
            first < 0x80,
    ;
}

/// A packet is its header and, unmasked behind it, the payload sealed with the number in the
/// nonce and the whole header as associated data.
pub proof fn payload_is_sealed_with_header(
    keys: PacketKeys,
    header: Seq<u8>,
    payload: Seq<u8>,
    number: u64,
    packet: Seq<u8>,
)
    requires
        header_ready(header, number),
        protected_packet(
            keys.header_key.key@,
            header + keys.sealed(number, header, payload),
            header.len() as int,
        ) == Ok::<Seq<u8>, Error>(packet),
    ensures
        packet.len() >= header.len(),
        packet.skip(header.len() as int) == aead_sealed(
            keys.suite.id(),
            keys.key@,
            nonce_of(keys.iv@, number),
            header,
            payload,
        ),
        packet.subrange(1, header.len() - 4) == header.subrange(1, header.len() - 4),
{
    let c = keys.sealed(number, header, payload);
    let p = header + c;
    let n = header.len() as int;
    let o = n - 4;
    assert(p.take(n) =~= header);
    assert(p[0] == header[0]);
    let first = header[0];
    assert(first & 0x03 == 3 ==> (first & 0x03) + 1 == 4) by (bit_vector);
    assert(packet.skip(n) =~= c) by {
        assert forall|i: int| 0 <= i < c.len() implies packet[n + i] == c[i] by {
            assert(p[n + i] == c[i]);
        }
    }
    assert(packet.subrange(1, o) =~= header.subrange(1, o)) by {
        assert forall|i: int| 1 <= i < o implies packet[i] == header[i] by {
            assert(p[i] == header[i]);
        }
    }
}

/// AES-128 has keys of 16 bytes, the others of 32; each suite has its own name.
pub proof fn suites_are_told_apart(a: CipherSuite, b: CipherSuite)
    ensures
        a.key_bytes() == (if a == CipherSuite::Aes128Gcm {
            16nat
        } else {
            32
        }),
        a.id() == b.id() ==> a == b,
        crate::crypto_enhanced::spec_hp_algorithm(CipherSuite::Aes128Gcm)
            == HeaderProtectionAlgorithm::Aes128,
        crate::crypto_enhanced::spec_hp_algorithm(CipherSuite::Aes256Gcm)
            == HeaderProtectionAlgorithm::Aes256,
        crate::crypto_enhanced::spec_hp_algorithm(CipherSuite::ChaCha20Poly1305)
            == HeaderProtectionAlgorithm::ChaCha20,
{
}

/// The keys of a direction: a key of the suite, twelve bytes of an initialization vector and a
/// key for headers, each from its own label.
pub proof fn directional_keys_are_labelled(k: DirectionalKeys, secret: Seq<u8>, suite: CipherSuite)
    requires
        crate::crypto_enhanced::derived_from(k, secret, suite),
    ensures
        k.packet@ == hkdf_expand_sha256(
            secret,
            hkdf_info(
                crate::key_derivation::TLS_LABEL@,
                crate::key_derivation::QUIC_KEY@,
                Seq::empty(),
                suite.key_bytes(),
            ),
            suite.key_bytes(),
        ),
        k.iv@ == hkdf_expand_sha256(
            secret,
            hkdf_info(
                crate::key_derivation::TLS_LABEL@,
                crate::key_derivation::QUIC_IV@,
                Seq::empty(),
                12,
            ),
            12,
        ),
        k.suite == suite,
        suite != CipherSuite::ChaCha20Poly1305 ==> k.header.bytes() == hkdf_expand_sha256(
            secret,
            hkdf_info(
                crate::key_derivation::TLS_LABEL@,
                crate::key_derivation::QUIC_HP@,
                Seq::empty(),
                16,
            ),
            16,
        ),
        suite == CipherSuite::ChaCha20Poly1305 ==> k.header.bytes() == hkdf_expand_sha256(
            secret,
            hkdf_info(
                crate::key_derivation::TLS_LABEL@,
                crate::key_derivation::QUIC_HP@,
                Seq::empty(),
                32,
            ),
            32,
        ),
{
}

/// Version two has its own salt; every other version that of version one.
pub proof fn salts_go_with_versions(version: u32, cid: Seq<u8>, label: Seq<u8>)
    ensures
        version == 0x6b33_43cf ==> crate::crypto_enhanced::salt_of(version) == seq![
            0x0du8, 0xed, 0xe3, 0xde, 0xf7, 0x00, 0xa6, 0xdb, 0x81, 0x93, 0x81, 0xbe, 0x6e, 0x26,
            0x9d, 0xcb, 0xf9, 0xbd, 0x2e, 0xd9,
        ],
        version != 0x6b33_43cf ==> crate::crypto_enhanced::salt_of(version) == seq![
            0x38u8, 0x76, 0x2c, 0xf7, 0xf5, 0x59, 0x34, 0xb3, 0x4d, 0x17, 0x9a, 0xe6, 0xa4, 0xc8,
            0x0c, 0xad, 0xcc, 0xbb, 0x7f, 0x0a,
        ],
        crate::crypto_enhanced::initial_secret(version, cid, label) == hkdf_sha256(
            crate::crypto_enhanced::salt_of(version),
            cid,
            hkdf_info(crate::key_derivation::TLS_LABEL@, label, Seq::empty(), 32),
            32,
        ),
{
    assert(crate::crypto_enhanced::INITIAL_SALT_V2@ =~= seq![
        0x0du8, 0xed, 0xe3, 0xde, 0xf7, 0x00, 0xa6, 0xdb, 0x81, 0x93, 0x81, 0xbe, 0x6e, 0x26, 0x9d,
        0xcb, 0xf9, 0xbd, 0x2e, 0xd9,
    ]);
    assert(crate::crypto_enhanced::INITIAL_SALT_V1@ =~= seq![
        0x38u8, 0x76, 0x2c, 0xf7, 0xf5, 0x59, 0x34, 0xb3, 0x4d, 0x17, 0x9a, 0xe6, 0xa4, 0xc8, 0x0c,
        0xad, 0xcc, 0xbb, 0x7f, 0x0a,
    ]);
}

/// An Initial packet is filled up to 1200 bytes with zeros; others hold their frames alone.
pub proof fn payloads_are_padded(t: PacketType, frames: Seq<FrameView>, i: int)
    ensures
        ({
            let b = frames_bytes(frames);
            let p = crate::crypto_enhanced::padded_payload(t, frames);
            &&& p.take(b.len() as int) == b
            &&& t == PacketType::Initial ==> p.len() >= 1200 && (b.len() < 1200 ==> p.len() == 1200)
            &&& t != PacketType::Initial || b.len() >= 1200 ==> p == b
            &&& b.len() <= i < p.len() ==> p[i] == 0
        }),
{
    let b = frames_bytes(frames);
    let p = crate::crypto_enhanced::padded_payload(t, frames);
    assert(p.take(b.len() as int) =~= b);
}

/// The level of a packet follows its type.
pub proof fn levels_follow_types(t: PacketType)
    ensures
        crate::crypto_enhanced::level_of(t) == ProtectionLevel::Initial <==> t
            == PacketType::Initial,
        crate::crypto_enhanced::level_of(t) == ProtectionLevel::Handshake <==> t
            == PacketType::Handshake,
        PacketSpace::of_type(t) == PacketSpace::Handshake <==> t == PacketType::Handshake,
        PacketSpace::of_type(t) == PacketSpace::ApplicationData <==> t == PacketType::ZeroRtt || t
            == PacketType::OneRtt,
        PacketSpace::Initial.level() == EncryptionLevel::Initial,
        PacketSpace::Handshake.level() == EncryptionLevel::Handshake,
        PacketSpace::ApplicationData.level() == EncryptionLevel::Application,
{
}

/// A number of so many bytes covers 256 to that power.
pub proof fn number_windows(l: PacketNumberLength)
    ensures
        1 <= l.len() <= 4,
        l.len() == 1 ==> l.window() == 256,
        l.len() == 2 ==> l.window() == 256 * 256,
        l.len() == 3 ==> l.window() == 256 * 256 * 256,
        l.len() == 4 ==> l.window() == 256 * 256 * 256 * 256,
{
}

/// The next number that is expected is one above the largest that came, which only grows.
pub proof fn largest_number_grows(largest: Option<u64>, n: u64)
    ensures
        expected_number(None) == 0,
        expected_number(Some(n)) == n + 1,
        raised(None, n) == Some(n),
        largest matches Some(m) ==> raised(largest, n) matches Some(r) && r >= m && r >= n && (r == m
            || r == n),
{
}

/// A sample is the sixteen bytes at its place.
pub proof fn sample_is_sixteen_bytes(payload: Seq<u8>, offset: int)
    requires
        offset >= 0,
    ensures
        sample_at(payload, offset) is Some <==> payload.len() >= offset + 16,
        sample_at(payload, offset) matches Some(s) ==> s.len() == 16 && forall|i: int|
            0 <= i < 16 ==> #[trigger] s[i] == payload[offset + i],
{
}

/// Keys of the TLS layer are installed as they come. The second set of keys for application data
/// and each one after it is an update: the phase turns, and the keys before it are kept.
pub proof fn key_updates_turn_phase<D>(
    m: CryptoManager<D>,
    n: CryptoManager<D>,
    keys: TlsKeys<D>,
)
    ensures
        m.key_installed(KeyChange::Handshake { keys }, n) ==> n.handshake_keys_tls == Some(keys)
            && n.handshake_keys is Some && n.key_phase == m.key_phase && n.application_keys_tls
            == m.application_keys_tls,
        m.key_installed(KeyChange::OneRtt { keys }, n) ==> n.application_keys_tls == Some(keys)
            && n.handshake_keys_tls == m.handshake_keys_tls,
        m.key_installed(KeyChange::OneRtt { keys }, n) && m.application_keys_tls is None
            ==> n.key_phase == m.key_phase && n.application_keys is Some,
        m.key_installed(KeyChange::OneRtt { keys }, n) && m.application_keys_tls is Some
            ==> n.key_phase == !m.key_phase && n.next_application_keys_tls
            == m.application_keys_tls,
        m.key_installed(KeyChange::Handshake { keys }, n) && m.handshake_keys is Some
            ==> n.handshake_keys == m.handshake_keys,
        m.key_installed(KeyChange::OneRtt { keys }, n) && m.application_keys is Some
            ==> n.application_keys == m.application_keys,
{
}

/// Missing keys are made up for: those of the handshake while it goes on, those for application
/// data after it.
pub proof fn missing_keys_are_made<D>(m: CryptoManager<D>, n: CryptoManager<D>, handshaking: bool)
    requires
        m.keys_completed(handshaking, n),
    ensures
        handshaking ==> n.handshake_keys is Some && n.application_keys == m.application_keys,
        !handshaking ==> n.application_keys is Some && n.handshake_keys == m.handshake_keys,
        m.handshake_keys is Some ==> n.handshake_keys == m.handshake_keys,
        m.application_keys is Some ==> n.application_keys == m.application_keys,
        n.key_phase == m.key_phase && n.initial_send_keys == m.initial_send_keys,
{
}

/// Each side protects what it sends with its own secret.
pub proof fn own_secret_goes_with_role<D>(m: CryptoManager<D>, client: Seq<u8>, server: Seq<u8>)
    ensures
        m.role == ConnectionRole::Client ==> m.own_secret(client, server) == client,
        m.role == ConnectionRole::Server ==> m.own_secret(client, server) == server,
{
}

/// Headers are protected with the key of what protects the packet.
pub proof fn header_keys_go_with_types<D>(m: CryptoManager<D>)
    ensures
        m.initial_send_keys matches Some(k) ==> m.header_key(PacketType::Initial) == Some(
            k.header_key,
        ),
        m.handshake_keys matches Some(k) ==> m.header_key(PacketType::Handshake) == Some(
            k.header_key,
        ),
        m.application_keys matches Some(k) ==> m.header_key(PacketType::OneRtt) == Some(
            k.header_key,
        ),
        m.header_key(PacketType::ZeroRtt) is None,
        m.header_key(PacketType::Retry) is None,
{
}

/// What opens a packet is what was sealed: the header without its mask as associated data, the
/// number that it holds in the nonce, and all that is behind the number as ciphertext.
pub proof fn opening_checks_header(keys: PacketKeys, packet: Seq<u8>, place: int)
    requires
        pn_offset_of(packet) == Ok::<int, Error>(place),
        packet.len() >= place + 20,
        packet.len() > 0,
    ensures
        ({
            let mask = hp_mask(keys.header_key.key@, packet.subrange(place + 4, place + 20));
            let n = stated_number_len(mask_first_byte(packet[0], mask));
            let plain = mask_header(packet, place, n, mask);
            let number = be_value(plain.subrange(place, place + n)) as u64;
            opened_packet(keys, packet) matches Ok((number_read, payload)) ==> number_read == number
                && aead_opened(
                keys.suite.id(),
                keys.key@,
                nonce_of(keys.iv@, number),
                plain.take(place + n),
                packet.skip(place + n),
            ) == Some(payload)
        }),
{
}

/// The other way to protect a header masks the same bits and bytes, wherever the header starts.
pub proof fn masks_agree(packet: Seq<u8>, offset: int, len: int, mask: Seq<u8>)
    requires
        packet.len() > 0,
    ensures
        mask_at(packet, 0, offset, len, mask) == mask_header(packet, offset, len, mask),
{
}

/// An Initial packet whose first byte says so is not masked in place; others are, at the place of
/// their number.
pub proof fn protection_finds_number(s: Seq<u8>, t: PacketType)
    requires
        s.len() > 0,
    ensures
        t == PacketType::OneRtt || t == PacketType::Handshake ==> (protect_offsets(s, t) matches Ok(
            Some((_, place)),
        ) ==> pn_offset_of(s) == Ok::<int, Error>(place)),
        t == PacketType::OneRtt || t == PacketType::Handshake ==> (pn_offset_of(s) matches Ok(place)
            ==> protect_offsets(s, t) matches Ok(Some((_, found))) && found == place),
        (t == PacketType::Initial || t == PacketType::ZeroRtt) && 0xc0 <= s[0] < 0xd0
            ==> protect_offsets(s, t) == Ok::<Option<(int, int)>, Error>(None),
{
    let first = s[0];
    assert(0xc0 <= first && first < 0xd0 ==> (first & 0x30) >> 4 == 0) by (bit_vector);
}

/// The next level after Initial is the handshake, and after it application data.
pub proof fn levels_come_in_order(m: crate::crypto_enhanced::CryptoManager)
    ensures
        m.keys@.dom().contains(ProtectionLevel::Handshake) ==> m.next_level()
            == ProtectionLevel::Application,
        !m.keys@.dom().contains(ProtectionLevel::Handshake) ==> m.next_level()
            == ProtectionLevel::Handshake,
{
}

/// Headers of the enhanced layer: long ones before application data, the low 32 bits of the
/// number, and a length of the payload, a tag and four bytes of the number.
pub proof fn enhanced_headers(number: u64, payload: int, version: u32)
    requires
        number < 0x1_0000_0000,
        0 <= payload < 0x1_0000,
    ensures
        crate::crypto_enhanced::header_for(PacketType::Initial, number, payload, version)
            matches PacketHeaderView::Long(h) && h.packet_type == PacketType::Initial && h.version
            == version && (h.type_specific matches TypeSpecificView::Initial {
            token,
            length,
            packet_number,
        } && token.len() == 0 && length == payload + 16 + 4 && packet_number == number),
        crate::crypto_enhanced::header_for(PacketType::Handshake, number, payload, version)
            matches PacketHeaderView::Long(h) && h.packet_type == PacketType::Handshake && h.version
            == version && (h.type_specific matches TypeSpecificView::Handshake {
            length,
            packet_number,
        } && length == payload + 16 + 4 && packet_number == number),
        crate::crypto_enhanced::header_for(PacketType::OneRtt, number, payload, version)
            matches PacketHeaderView::Short(h) && h.packet_number == number && h.dst_cid.len() == 8
            && !h.key_phase,
{
}

/// What is read of a packet is what its payload holds, opened with the keys for its type.
pub proof fn packets_are_read_with_their_keys<D>(m: CryptoManager<D>, packet: Seq<u8>)
    requires
        packet.len() > 0,
    ensures
        0xc0 <= packet[0] < 0xd0 ==> (m.initial_recv_keys matches Some(k) ==> (m.decrypted(packet)
            matches Ok((number, frames, payload)) ==> opened_packet(k, packet) == Ok::<
            (u64, Seq<u8>),
            Error,
        >((number, payload)) && parse_frames(payload, true) == Ok::<Seq<FrameView>, Error>(frames))),
        0xe0 <= packet[0] < 0xf0 ==> (m.handshake_keys matches Some(k) ==> (m.decrypted(packet)
            matches Ok((number, frames, payload)) ==> opened_packet(k, packet) == Ok::<
            (u64, Seq<u8>),
            Error,
        >((number, payload)) && parse_frames(payload, true) == Ok::<Seq<FrameView>, Error>(frames))),
        packet[0] < 0x80 && !m.key_phase ==> (m.application_keys matches Some(k) ==> (m.decrypted(
            packet,
        ) matches Ok((number, frames, payload)) ==> opened_packet(k, packet) == Ok::<
            (u64, Seq<u8>),
            Error,
        >((number, payload)) && parse_frames(payload, true) == Ok::<Seq<FrameView>, Error>(frames))),
        packet[0] < 0x80 && !m.key_phase && m.application_keys is None ==> (m.received_with_tls(
            packet,
        ) <==> m.application_keys_tls is Some),
        m.received_with_tls(packet) ==> m.decrypted(packet) is Err,
{
    crate::laws::packets::first_byte_names_type(packet[0]);
}

/// A payload of the enhanced layer starts behind 25 bytes of header, which are its associated
/// data.
pub proof fn enhanced_payloads_start_at_twenty_five(
    m: crate::crypto_enhanced::CryptoManager,
    packet: Seq<u8>,
)
    requires
        packet.len() >= 25,
    ensures
        m.decrypted(packet) matches Ok((frames, payload)) ==> ({
            let k = m.keys@[crate::crypto_enhanced::level_of(stated_type(packet[0]))].remote;
            &&& aead_opened(
                k.suite.id(),
                k.packet@,
                nonce_of(k.iv@, 0),
                packet.subrange(0, 25),
                packet.subrange(25, packet.len() as int),
            ) == Some(payload)
            &&& parse_frames(payload, false) == Ok::<Seq<FrameView>, Error>(frames)
        }),
{
    assert(packet.take(25) =~= packet.subrange(0, 25));
    assert(packet.skip(25) =~= packet.subrange(25, packet.len() as int));
}

/// A mask of zeros leaves a header as it is, and so does no mask.
pub proof fn empty_masks_change_nothing<P, H>(h: PacketHeaderView, mask: Seq<u8>)
    requires
        h.valid(),
        h.encodable(),
        !h.takes_all(),
        h.bytes().len() > 1,
        mask.len() == 5,
        forall|i: int| 0 <= i < 5 ==> #[trigger] mask[i] == 0,
    ensures
        PacketProtection::<P, H>::unmasked(h, None) == Ok::<PacketHeaderView, Error>(h),
        PacketProtection::<P, H>::unmasked(h, Some(mask)) == Ok::<PacketHeaderView, Error>(h),
{
    let b = h.bytes();
    let first = b[0];
    header_roundtrip(h, Seq::empty());
    assert(b + Seq::<u8>::empty() =~= b);
    let bits = crate::header_protection::protected_bits(first);
    assert(first ^ (0u8 & bits) == first) by (bit_vector);
    let last = b[b.len() - 1];
    assert(last ^ 0u8 == last) by (bit_vector);
    assert(mask_header(b, b.len() - 1, 1, mask) =~= b);
}

/// A space keeps what is set for it, and the other spaces what they had.
pub proof fn spaces_are_separate<P, H>(
    p: PacketProtection<P, H>,
    a: PacketSpace,
    b: PacketSpace,
    s: PacketNumberSpace,
)
    ensures
        p.with_space(a, s).space(a) == s,
        a != b ==> p.with_space(a, s).space(b) == p.space(b),
        p.space(PacketSpace::Initial) == p.initial,
        p.space(PacketSpace::Handshake) == p.handshake,
        p.space(PacketSpace::ApplicationData) == p.application_data,
        p.keys(EncryptionLevel::Initial) == p.initial_keys,
        p.keys(EncryptionLevel::Handshake) == p.handshake_keys,
        p.keys(EncryptionLevel::Application) == p.application_keys,
{
}

/// The keys of a level are kept where they are set, and those of others stay.
pub proof fn levels_are_separate<P, H>(
    p: PacketProtection<P, H>,
    a: EncryptionLevel,
    b: EncryptionLevel,
    k: LevelKeys<P, H>,
)
    ensures
        p.with_keys(a, k).keys(a) == k,
        a != b ==> p.with_keys(a, k).keys(b) == p.keys(b),
        p.with_keys(a, k).initial == p.initial && p.with_keys(a, k).handshake == p.handshake,
{
}

/// The mask of a header is the first five bytes of what AES-128 seals of the sample, with a nonce
/// of zeros and nothing else.
pub proof fn mask_is_sealed_sample(key: Seq<u8>, sample: Seq<u8>, nonce: Seq<u8>)
    requires
        sample.len() == 16,
        nonce.len() == 12,
        forall|i: int| 0 <= i < 12 ==> #[trigger] nonce[i] == 0,
    ensures
        hp_mask(key, sample) == aead_sealed(
            CipherSuite::Aes128Gcm.id(),
            key,
            nonce,
            Seq::empty(),
            sample,
        ).take(5),
{
    assert(nonce =~= crate::protection::zero_nonce());
    assert(sample.take(16) =~= sample);
}

/// Keys of a secret of the TLS layer: a key of 16 bytes, a vector of 12 and a key for headers of
/// 16, each expanded under its label with the secret as salt.
pub proof fn keys_of_secret_are_labelled(k: PacketKeys, secret: Seq<u8>)
    requires
        secret.len() == 32,
        expanded_from(k, secret),
    ensures
        k.suite == CipherSuite::Aes128Gcm,
        k.key@ == hkdf_sha256(secret, Seq::empty(), crate::key_derivation::QUIC_KEY@, 16),
        k.iv@ == hkdf_sha256(secret, Seq::empty(), crate::key_derivation::QUIC_IV@, 12),
        k.header_key.key@ == hkdf_sha256(
            secret,
            Seq::empty(),
            crate::key_derivation::QUIC_HP@,
            16,
        ),
{
    assert(secret.take(32) =~= secret);
}

} // verus!
