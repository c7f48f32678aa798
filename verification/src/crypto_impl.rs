//! Packet protection and key management of a connection (RFC 9001).
//!
//! The TLS handshake itself runs outside. The caller hands in what it produced, and
//! whether it is still running.

use crate::aead::{hkdf, hkdf_sha256, packet_nonce, nonce_of, aead_seal, aead_sealed, MAX_SEAL_LEN};
use crate::buffer::{
    be_bytes, be_value, bytes_from_vec, contents, lemma_be_roundtrip, pow256, written,
};
use crate::connection::ConnectionRole;
use crate::error::{Error, Reason};
use crate::frame_types::{Frame, FrameView};
use crate::header_protection::{
    apply_mask, apply_number_mask, mask_first_byte, mask_header, mask_number, stated_number_len,
    SAMPLE_LEN,
};
use crate::key_derivation::{
    derive_initial_secrets, expanded_label, hkdf_expand_label, initial_secret, CLIENT_IN, QUIC_HP,
    QUIC_IV, QUIC_KEY, QUIC_KU, SERVER_IN,
};
use crate::packet::{
    long_first_byte, ConnectionId, LongHeader, LongHeaderView, PacketHeader, PacketHeaderView,
    PacketType, ShortHeader, ShortHeaderView, TypeSpecificData, TypeSpecificView,
};
use crate::payload::{
    all_encodable, decode_frames, encode_frames, encode_padding, frames_bytes, padding,
    parse_frames, payload_roundtrip, read_back, readable, views,
};
use crate::protection::{
    encode_packet_number, encode_packet_number_length, get_pn_offset, header_ready, hp_mask,
    number_len, open_packet, opened_packet, packet_type_from_byte, pn_offset_of, protected_packet,
    read_number, read_varint, remove_header_protection, seal_packet, stated_type,
    unprotected_packet,
};
use crate::reassembly::{contents_of, CryptoStream};
use crate::transport::TransportParameters;
use crate::varint::{
    lemma_varint_roundtrip, take_varint, varint_bytes, varint_width, VarInt, MAX_VARINT,
};
use bytes::{Bytes, BytesMut};
use vstd::prelude::*;
use vstd::slice::{slice_subrange, slice_to_vec};

pub use crate::aead::CipherSuite;
pub use crate::protection::{HeaderProtectionKey, PacketKeys};

verus! {

/// Packet protection level
#[derive(Debug, Clone, Copy, PartialEq, Eq, Structural)]
pub enum PacketProtectionLevel {
    /// Initial packet protection (cleartext)
    Initial,
    /// Handshake packet protection
    Handshake,
    /// Application data packet protection (1-RTT)
    Application,
}

/// Decrypted packet data
pub struct DecryptedPacket {
    /// Packet number from header
    pub packet_number: u64,
    /// Decoded frames from packet
    pub frames: Vec<Frame>,
    /// Raw packet payload
    pub payload: Bytes,
}

/// Keys that the TLS layer keeps to itself, for both directions.
pub struct TlsKeys<D> {
    /// Keys for local (sending) direction
    pub local: D,
    /// Keys for remote (receiving) direction
    pub remote: D,
}

/// New keys that the TLS layer reports.
pub enum KeyChange<D> {
    /// Keys for the handshake
    Handshake { keys: TlsKeys<D> },
    /// Keys for application data
    OneRtt { keys: TlsKeys<D> },
}

/// The keys that a packet is protected with: derived here, or kept by the TLS layer.
pub enum KeysWrapper<'a, D> {
    Ring(&'a PacketKeys),
    Tls(&'a D),
}

/// Which keys a packet is protected with.
pub enum KeyChoice<D> {
    Ring(PacketKeys),
    Tls(D),
}

impl<'a, D> KeysWrapper<'a, D> {
    /// The keys themselves.
    pub open spec fn choice(self) -> KeyChoice<D> {
        match self {
            KeysWrapper::Ring(k) => KeyChoice::Ring(*k),
            KeysWrapper::Tls(d) => KeyChoice::Tls(*d),
        }
    }
}

/// Header parsing information
#[derive(Debug, Clone, Copy, PartialEq, Eq, Structural)]
pub struct HeaderInfo {
    /// Length of the header with the packet number
    pub header_len: usize,
    /// Where the packet number starts
    pub pn_offset: usize,
    /// Length of the packet number
    pub pn_length: usize,
}

/// QUIC crypto state manager
pub struct CryptoManager<D> {
    /// Role (client or server)
    pub role: ConnectionRole,
    /// Initial keys for sending
    pub initial_send_keys: Option<PacketKeys>,
    /// Initial keys for receiving
    pub initial_recv_keys: Option<PacketKeys>,
    /// Handshake keys
    pub handshake_keys: Option<PacketKeys>,
    /// Application keys
    pub application_keys: Option<PacketKeys>,
    /// Next application keys
    pub next_application_keys: Option<PacketKeys>,
    /// Handshake keys from the TLS layer
    pub handshake_keys_tls: Option<TlsKeys<D>>,
    /// 1-RTT keys from the TLS layer (current)
    pub application_keys_tls: Option<TlsKeys<D>>,
    /// 1-RTT keys from the TLS layer (next)
    pub next_application_keys_tls: Option<TlsKeys<D>>,
    /// Current key phase
    pub key_phase: bool,
    /// Highest packet number sent
    pub highest_sent_pn: u64,
    /// Count of handshake packets sent (for proper packet type selection)
    pub handshake_send_count: u32,
    /// Whether we've sent our first crypto response (for servers)
    pub initial_crypto_sent: bool,
    /// CRYPTO frame buffer for handling out-of-order data
    pub crypto_buffer: CryptoStream,
    /// Local connection ID
    pub local_cid: Option<ConnectionId>,
    /// Remote connection ID
    pub remote_cid: Option<ConnectionId>,
    /// Pending handshake response data to send
    pub pending_handshake_data: Vec<u8>,
    /// Local transport parameters
    pub local_transport_params: Option<TransportParameters>,
    /// Peer's transport parameters
    pub peer_transport_params: Option<TransportParameters>,
}

/// A packet to send: finished, or to be encrypted with keys of the TLS layer.
pub enum Encrypted {
    /// The protected packet
    Packet(Bytes),
    /// What the TLS layer is to encrypt
    Tls { packet_number: u64, header: Bytes, payload: Bytes },
}

/// A packet whose header the TLS layer is to protect.
pub struct TlsProtection {
    /// Header and ciphertext
    pub packet: Vec<u8>,
    /// Where the packet number starts
    pub pn_offset: usize,
    /// Sample for the header protection
    pub sample: Vec<u8>,
}

/// A received packet: opened, or to be decrypted with keys of the TLS layer.
pub enum Decrypted {
    /// The opened packet
    Packet(DecryptedPacket),
    /// What the TLS layer needs to remove the header protection
    Tls { pn_offset: usize, sample: Vec<u8> },
}

/// What the TLS layer needs to decrypt a packet once its header is unprotected.
pub struct TlsOpening {
    /// Packet number
    pub packet_number: u64,
    /// The header, which is authenticated with the payload
    pub aad: Vec<u8>,
    /// The encrypted payload
    pub ciphertext: Vec<u8>,
}

/// Whether keys are those that a secret gives with HKDF-Expand-Label.
pub open spec fn derived_from(k: PacketKeys, secret: Seq<u8>, suite: CipherSuite) -> bool {
    &&& k.suite == suite
    &&& k.key@ == expanded_label(secret, QUIC_KEY@, Seq::empty(), suite.key_bytes())
    &&& k.iv@ == expanded_label(secret, QUIC_IV@, Seq::empty(), 12)
    &&& k.header_key.key@ == expanded_label(secret, QUIC_HP@, Seq::empty(), 16)
}

/// The array of twelve bytes
fn to_iv(v: &Vec<u8>) -> (r: [u8; 12])
    requires
        v@.len() == 12,
    ensures
        r@ == v@,
{
    let r: [u8; 12] = [
        v[0], v[1], v[2], v[3], v[4], v[5], v[6], v[7], v[8], v[9], v[10], v[11],
    ];
    assert(r@ =~= v@);
    r
}

/// Derive packet protection keys for a specific cipher suite
pub fn derive_packet_keys_for_suite(secret: &[u8], suite: CipherSuite) -> (r: Result<
    PacketKeys,
    Error,
>)
    ensures
        suite != CipherSuite::ChaCha20Poly1305 ==> r is Ok && r->Ok_0.wf() && derived_from(
            r->Ok_0,
            secret@,
            suite,
        ),
        suite == CipherSuite::ChaCha20Poly1305 ==> r == Err::<PacketKeys, Error>(
            Error::Crypto(Reason::HeaderKeyLength(32)),
        ),
{
    let context: Vec<u8> = Vec::new();
    assert(context@ =~= Seq::<u8>::empty());
    let key: Vec<u8> = hkdf_expand_label(secret, &QUIC_KEY, &context, suite.key_len())?;
    let iv_vec: Vec<u8> = hkdf_expand_label(secret, &QUIC_IV, &context, 12)?;
    let iv: [u8; 12] = to_iv(&iv_vec);
    let hp: Vec<u8> = hkdf_expand_label(secret, &QUIC_HP, &context, suite.hp_len())?;
    let header_key: HeaderProtectionKey = HeaderProtectionKey::new(&hp)?;
    Ok(PacketKeys { suite, key, header_key, iv })
}

/// Derive packet protection keys from a secret
pub fn derive_packet_keys(secret: &[u8]) -> (r: Result<PacketKeys, Error>)
    ensures
        r is Ok,
        r->Ok_0.wf(),
        derived_from(r->Ok_0, secret@, CipherSuite::Aes128Gcm),
{
    derive_packet_keys_for_suite(secret, CipherSuite::Aes128Gcm)
}

/// Whether keys are those that a TLS secret gives by plain HKDF: its first 32 bytes are
/// the salt, and the labels are the info.
pub open spec fn expanded_from(k: PacketKeys, secret: Seq<u8>) -> bool {
    let salt = secret.take(32);
    &&& k.suite == CipherSuite::Aes128Gcm
    &&& k.key@ == hkdf_sha256(salt, Seq::empty(), QUIC_KEY@, 16)
    &&& k.iv@ == hkdf_sha256(salt, Seq::empty(), QUIC_IV@, 12)
    &&& k.header_key.key@ == hkdf_sha256(salt, Seq::empty(), QUIC_HP@, 16)
}

/// One HKDF output from a TLS secret of at least 32 bytes
fn expand_secret(secret: &[u8], info: &[u8], len: usize) -> (r: Option<Vec<u8>>)
    requires
        secret@.len() >= 32,
        len <= 32,
    ensures
        r is Some,
        r->Some_0@ == hkdf_sha256(secret@.take(32), Seq::empty(), info@, len as nat),
        r->Some_0@.len() == len,
{
    let nothing: Vec<u8> = Vec::new();
    proof {
        assert(nothing@ =~= Seq::<u8>::empty());
        assert(secret@.subrange(0, 32) =~= secret@.take(32));
    }
    match hkdf(slice_subrange(secret, 0, 32), &nothing, info, len) {
        Ok(v) => Some(v),
        Err(_) => None,
    }
}

/// Derive QUIC packet protection keys from a TLS secret, which must have 32 bytes
pub fn derive_keys_from_secret(secret: &[u8]) -> (r: Option<PacketKeys>)
    ensures
        secret@.len() < 32 ==> r is None,
        secret@.len() >= 32 ==> r is Some && r->Some_0.wf() && expanded_from(r->Some_0, secret@),
{
    if secret.len() < 32 {
        return None;
    }
    let key: Vec<u8> = expand_secret(secret, &QUIC_KEY, 16)?;
    let iv_vec: Vec<u8> = expand_secret(secret, &QUIC_IV, 12)?;
    let hp: Vec<u8> = expand_secret(secret, &QUIC_HP, 16)?;
    let iv: [u8; 12] = to_iv(&iv_vec);
    Some(
        PacketKeys {
            suite: CipherSuite::Aes128Gcm,
            key,
            header_key: HeaderProtectionKey { key: hp },
            iv,
        },
    )
}

/// The secret after a key update.
pub open spec fn updated_secret(secret: Seq<u8>) -> Seq<u8> {
    hkdf_sha256(secret.take(32), Seq::empty(), QUIC_KU@, 32)
}

/// Derive updated keys from the current application secret (RFC 9001 Section 6)
pub fn derive_updated_keys_from_secret(current_secret: &[u8]) -> (r: Option<PacketKeys>)
    ensures
        current_secret@.len() < 32 ==> r is None,
        current_secret@.len() >= 32 ==> r is Some && r->Some_0.wf() && expanded_from(
            r->Some_0,
            updated_secret(current_secret@),
        ),
{
    if current_secret.len() < 32 {
        return None;
    }
    let updated: Vec<u8> = expand_secret(current_secret, &QUIC_KU, 32)?;
    derive_keys_from_secret(&updated)
}

/// The text from which the fallback secret of a level is made: `initial_keys_seed_v1`,
/// `handshake_keys_v1` or `application_keys_v1`.
pub open spec fn fallback_seed(level: PacketProtectionLevel) -> Seq<u8> {
    match level {
        PacketProtectionLevel::Initial => seq![
            0x69u8, 0x6e, 0x69, 0x74, 0x69, 0x61, 0x6c, 0x5f, 0x6b, 0x65, 0x79, 0x73, 0x5f, 0x73,
            0x65, 0x65, 0x64, 0x5f, 0x76, 0x31,
        ],
        PacketProtectionLevel::Handshake => seq![
            0x68u8, 0x61, 0x6e, 0x64, 0x73, 0x68, 0x61, 0x6b, 0x65, 0x5f, 0x6b, 0x65, 0x79, 0x73,
            0x5f, 0x76, 0x31,
        ],
        PacketProtectionLevel::Application => seq![
            0x61u8, 0x70, 0x70, 0x6c, 0x69, 0x63, 0x61, 0x74, 0x69, 0x6f, 0x6e, 0x5f, 0x6b, 0x65,
            0x79, 0x73, 0x5f, 0x76, 0x31,
        ],
    }
}

/// The fallback secret of a level: each byte of the text plus its position, filled up
/// with zeros.
pub open spec fn fallback_secret(level: PacketProtectionLevel) -> Seq<u8> {
    Seq::new(
        32,
        |i: int|
            if i < fallback_seed(level).len() {
                ((fallback_seed(level)[i] + i) % 256) as u8
            } else {
                0
            },
    )
}

/// Fallback key derivation: both sides get the same keys
pub fn derive_test_keys(level: PacketProtectionLevel) -> (r: Option<PacketKeys>)
    ensures
        r is Some,
        r->Some_0.wf(),
        derived_from(r->Some_0, fallback_secret(level), CipherSuite::Aes128Gcm),
{
    let seed: Vec<u8> = match level {
        PacketProtectionLevel::Initial => vec![
            0x69, 0x6e, 0x69, 0x74, 0x69, 0x61, 0x6c, 0x5f, 0x6b, 0x65, 0x79, 0x73, 0x5f, 0x73,
            0x65, 0x65, 0x64, 0x5f, 0x76, 0x31,
        ],
        PacketProtectionLevel::Handshake => vec![
            0x68, 0x61, 0x6e, 0x64, 0x73, 0x68, 0x61, 0x6b, 0x65, 0x5f, 0x6b, 0x65, 0x79, 0x73,
            0x5f, 0x76, 0x31,
        ],
        PacketProtectionLevel::Application => vec![
            0x61, 0x70, 0x70, 0x6c, 0x69, 0x63, 0x61, 0x74, 0x69, 0x6f, 0x6e, 0x5f, 0x6b, 0x65,
            0x79, 0x73, 0x5f, 0x76, 0x31,
        ],
    };
    assert(seed@ =~= fallback_seed(level));
    let mut secret: Vec<u8> = Vec::new();
    let mut i: usize = 0;
    while i < 32
        invariant
            i <= 32,
            seed@ == fallback_seed(level),
            secret@ == fallback_secret(level).take(i as int),
        decreases 32 - i,
    {
        let b: u8 = if i < seed.len() {
            ((seed[i] as usize + i) % 256) as u8
        } else {
            0
        };
        secret.push(b);
        assert(secret@ =~= fallback_secret(level).take(i + 1));
        i += 1;
    }
    assert(secret@ =~= fallback_secret(level));
    match derive_packet_keys(&secret) {
        Ok(keys) => Some(keys),
        Err(_) => None,
    }
}

/// What stands at an offset of a packet as a variable-length integer: its value and its
/// width.
pub open spec fn varint_at(s: Seq<u8>, offset: int) -> Result<(u64, int), Error> {
    if offset >= s.len() {
        Err(Error::Crypto(Reason::Text("VarInt offset out of bounds")))
    } else {
        match take_varint(s.skip(offset)) {
            None => Err(Error::Crypto(Reason::Text("VarInt extends beyond packet"))),
            Some((v, _)) => Ok((v, varint_width(s[offset]) as int)),
        }
    }
}

/// Parse VarInt at specific offset
pub fn parse_varint_at(data: &[u8], offset: u64) -> (r: Result<(u64, usize), Error>)
    ensures
        match varint_at(data@, offset as int) {
            Ok((v, n)) => r == Ok::<(u64, usize), Error>((v, n as usize)) && v
                < 0x4000_0000_0000_0000,
            Err(e) => r == Err::<(u64, usize), Error>(e),
        },
{
    if offset >= data.len() as u64 {
        return Err(Error::Crypto(Reason::Text("VarInt offset out of bounds")));
    }
    match read_varint(data, offset as usize) {
        Some((v, width)) => Ok((v, width)),
        None => Err(Error::Crypto(Reason::Text("VarInt extends beyond packet"))),
    }
}

/// Where the length field of a long header starts, or why it cannot be found.
pub open spec fn length_field_at(s: Seq<u8>, packet_type: PacketType) -> Result<int, Error> {
    if s.len() < 6 {
        Err(Error::Crypto(Reason::Text("Packet too short for long header")))
    } else {
        let o1 = 6 + s[5];
        if o1 >= s.len() {
            Err(Error::Crypto(Reason::Text("Packet truncated at SCID length")))
        } else {
            let o2 = o1 + 1 + s[o1];
            if packet_type == PacketType::Initial {
                if o2 >= s.len() {
                    Err(Error::Crypto(Reason::Text("Packet truncated at token")))
                } else {
                    match varint_at(s, o2) {
                        Err(e) => Err(e),
                        Ok((token_len, n)) => Ok(o2 + n + token_len),
                    }
                }
            } else {
                Ok(o2)
            }
        }
    }
}

/// Where the packet number starts in a packet of the given type, or why it cannot be
/// found.
pub open spec fn number_at(s: Seq<u8>, packet_type: PacketType) -> Result<int, Error> {
    match packet_type {
        PacketType::OneRtt => Ok(9),
        PacketType::Retry => Err(
            Error::Crypto(Reason::Text("Unsupported packet type for parsing")),
        ),
        _ => match length_field_at(s, packet_type) {
            Err(e) => Err(e),
            Ok(o) => match varint_at(s, o) {
                Err(e) => Err(e),
                Ok((_, n)) => Ok(o + n),
            },
        },
    }
}

/// Parse packet header to get structural information. Packet numbers have four bytes
pub fn parse_packet_header(packet_data: &[u8], packet_type: PacketType) -> (r: Result<
    HeaderInfo,
    Error,
>)
    requires
        packet_data@.len() + 1024 <= usize::MAX,
    ensures
        match number_at(packet_data@, packet_type) {
            Ok(o) => r == Ok::<HeaderInfo, Error>(
                (HeaderInfo {
                    header_len: (o + 4) as usize,
                    pn_offset: o as usize,
                    pn_length: 4,
                }),
            ),
            Err(e) => r == Err::<HeaderInfo, Error>(e),
        },
{
    match packet_type {
        PacketType::OneRtt => {
            return Ok(HeaderInfo { header_len: 13, pn_offset: 9, pn_length: 4 });
        },
        PacketType::Retry => {
            return Err(Error::Crypto(Reason::Text("Unsupported packet type for parsing")));
        },
        _ => {},
    }
    if packet_data.len() < 6 {
        return Err(Error::Crypto(Reason::Text("Packet too short for long header")));
    }
    let len: u64 = packet_data.len() as u64;
    let scid_at: usize = 6 + packet_data[5] as usize;
    if scid_at >= packet_data.len() {
        return Err(Error::Crypto(Reason::Text("Packet truncated at SCID length")));
    }
    let mut offset: u64 = scid_at as u64 + 1 + packet_data[scid_at] as u64;
    if matches!(packet_type, PacketType::Initial) {
        if offset >= len {
            return Err(Error::Crypto(Reason::Text("Packet truncated at token")));
        }
        let (token_len, token_len_bytes) = parse_varint_at(packet_data, offset)?;
        offset = offset + token_len_bytes as u64 + token_len;
    }
    let (_, length_bytes) = parse_varint_at(packet_data, offset)?;
    let pn_offset: usize = offset as usize + length_bytes;
    Ok(HeaderInfo { header_len: pn_offset + 4, pn_offset, pn_length: 4 })
}

/// The packet with one byte and the packet number under a mask. A byte past the end is
/// left out.
pub open spec fn mask_at(
    packet: Seq<u8>,
    header_offset: int,
    pn_offset: int,
    pn_length: int,
    mask: Seq<u8>,
) -> Seq<u8> {
    mask_number(
        if header_offset < packet.len() {
            packet.update(header_offset, mask_first_byte(packet[header_offset], mask))
        } else {
            packet
        },
        pn_offset,
        pn_length,
        mask,
    )
}

/// The offsets at which `protect_packet_header` masks a packet: of the header byte and of
/// the packet number. There are none where the type bits of a long header are zero.
pub open spec fn protect_offsets(s: Seq<u8>, packet_type: PacketType) -> Result<
    Option<(int, int)>,
    Error,
> {
    if s.len() == 0 {
        Err(Error::Crypto(Reason::Text("Empty packet data")))
    } else if (packet_type == PacketType::Initial || packet_type == PacketType::ZeroRtt) && (s[0]
        & 0x30) >> 4 == 0 {
        Ok(None)
    } else {
        match pn_offset_of(s) {
            Err(e) => Err(e),
            Ok(o) => Ok(
                Some(
                    (
                        if packet_type == PacketType::OneRtt {
                            1
                        } else {
                            7
                        },
                        o,
                    ),
                ),
            ),
        }
    }
}

/// Parse packet offsets for header protection
fn parse_packet_offsets(packet_data: &[u8], packet_type: PacketType) -> (r: Result<
    Option<(usize, usize)>,
    Error,
>)
    requires
        packet_data@.len() + 1024 <= usize::MAX,
    ensures
        match protect_offsets(packet_data@, packet_type) {
            Ok(Some((h, o))) => r == Ok::<Option<(usize, usize)>, Error>(
                Some((h as usize, o as usize)),
            ),
            Ok(None) => r == Ok::<Option<(usize, usize)>, Error>(None),
            Err(e) => r == Err::<Option<(usize, usize)>, Error>(e),
        },
{
    if packet_data.len() == 0 {
        return Err(Error::Crypto(Reason::Text("Empty packet data")));
    }
    let first_byte: u8 = packet_data[0];
    let header_len: usize = match packet_type {
        PacketType::Initial | PacketType::ZeroRtt => {
            if (first_byte & 0x30) >> 4 == 0 {
                return Ok(None);
            }
            7
        },
        PacketType::Handshake | PacketType::Retry => 7,
        PacketType::OneRtt => 1,
    };
    let pn_offset: usize = get_pn_offset(packet_data)?;
    Ok(Some((header_len, pn_offset)))
}

/// Lays a header protection mask over the first byte and over `info.pn_length` bytes of
/// the packet number; a second time it takes the mask away again
pub fn restore_header_protection(
    header: &mut [u8],
    hp_key: &HeaderProtectionKey,
    sample: &[u8],
    header_info: &HeaderInfo,
) -> (r: Result<(), Error>)
    requires
        old(header)@.len() > 0,
        header_info.pn_length <= 4,
    ensures
        match hp_key.mask_error(sample@) {
            Some(e) => r == Err::<(), Error>(e) && final(header)@ == old(header)@,
            None => r == Ok::<(), Error>(()) && final(header)@ == mask_header(
                old(header)@,
                header_info.pn_offset as int,
                header_info.pn_length as int,
                hp_mask(hp_key.key@, sample@),
            ),
        },
{
    let mask: [u8; 5] = hp_key.mask(sample)?;
    apply_mask(header, header_info.pn_offset, header_info.pn_length, &mask);
    Ok(())
}

/// Reads the packet number of a packet whose header layout and sample are known
pub fn remove_header_protection_from_packet(
    packet_data: &[u8],
    hp_key: &HeaderProtectionKey,
    header_info: &HeaderInfo,
    sample: &[u8],
) -> (r: Result<u64, Error>)
    requires
        packet_data@.len() > 0,
        header_info.pn_length <= 4,
        header_info.pn_offset + header_info.pn_length <= packet_data@.len(),
    ensures
        match hp_key.mask_error(sample@) {
            Some(e) => r == Err::<u64, Error>(e),
            None => r == Ok::<u64, Error>(
                be_value(
                    mask_header(
                        packet_data@,
                        header_info.pn_offset as int,
                        header_info.pn_length as int,
                        hp_mask(hp_key.key@, sample@),
                    ).subrange(
                        header_info.pn_offset as int,
                        header_info.pn_offset + header_info.pn_length,
                    ),
                ) as u64,
            ),
        },
{
    let mask: [u8; 5] = hp_key.mask(sample)?;
    let mut packet_copy: Vec<u8> = slice_to_vec(packet_data);
    apply_mask(packet_copy.as_mut_slice(), header_info.pn_offset, header_info.pn_length, &mask);
    Ok(read_number(&packet_copy, header_info.pn_offset, header_info.pn_length))
}

/// Appends a header to `buf`, with its first byte under the mask that the ciphertext
/// after it gives
pub fn encode_protected_header(
    header: &PacketHeader,
    hp_key: &HeaderProtectionKey,
    ciphertext: &[u8],
    buf: &mut BytesMut,
) -> (r: Result<(), Error>)
    requires
        hp_key.key@.len() == 16,
        header@.bytes().len() > 0,
    ensures
        !header@.encodable() ==> r == Err::<(), Error>(Error::VarIntRange),
        header@.encodable() && ciphertext@.len() < 20 ==> r == Err::<(), Error>(
            Error::Crypto(Reason::Text("Ciphertext too short for sample")),
        ) && written(*final(buf)) == written(*old(buf)) + header@.bytes(),
        header@.encodable() && ciphertext@.len() >= 20 ==> r == Ok::<(), Error>(()) && ({
            let b = header@.bytes();
            let m = hp_mask(hp_key.key@, ciphertext@.subrange(4, 20));
            let bits = if header is Long {
                0x0fu8
            } else {
                0x1fu8
            };
            written(*final(buf)) == written(*old(buf)) + b.update(0, b[0] ^ (m[0] & bits))
        }),
{
    let header_start: usize = buf.len();
    let ghost w = written(*buf);
    header.encode(buf)?;
    let bits: u8 = match header {
        PacketHeader::Long(_) => 0x0f,
        PacketHeader::Short(_) => 0x1f,
    };
    if ciphertext.len() < 20 {
        return Err(Error::Crypto(Reason::Text("Ciphertext too short for sample")));
    }
    let mask: [u8; 5] = hp_key.mask(slice_subrange(ciphertext, 4, 20))?;
    let bytes: &mut [u8] = &mut *buf;
    let first: u8 = bytes[header_start];
    bytes[header_start] = first ^ (mask[0] & bits);
    proof {
        let b = header@.bytes();
        assert(written(*buf) =~= w + b.update(0, b[0] ^ (mask@[0] & bits)));
    }
    Ok(())
}

/// Calculate Retry Integrity Tag (RFC 9001 Section 5.8)
pub const RETRY_KEY: [u8; 16] = [
    0xbe, 0x0c, 0x69, 0x0b, 0x9f, 0x66, 0x57, 0x5a, 0x1d, 0x76, 0x6b, 0x54, 0xe3, 0x68, 0xc8, 0x4e,
];

/// Nonce of the Retry Integrity Tag (RFC 9001 Section 5.8)
pub const RETRY_NONCE: [u8; 12] = [
    0x46, 0x15, 0x99, 0xd3, 0x5d, 0x63, 0x2b, 0xf2, 0x23, 0x98, 0x25, 0xbb,
];

/// The keys of a level that are derived here are usable.
pub open spec fn usable(keys: Option<PacketKeys>) -> bool {
    keys matches Some(k) ==> k.wf()
}

/// The bytes that a payload of `n` bytes is filled up with: an Initial packet has at least
/// 1200 bytes, of which 25 are estimated for its header and 16 are its tag.
pub open spec fn pad_len(packet_type: PacketType, n: nat) -> nat {
    if packet_type == PacketType::Initial && n < 1159 {
        (1159 - n) as nat
    } else {
        0
    }
}

/// The payload of a packet: its frames, and padding.
pub open spec fn packet_payload(packet_type: PacketType, frames: Seq<FrameView>) -> Seq<u8> {
    frames_bytes(frames) + padding(pad_len(packet_type, frames_bytes(frames).len()))
}

/// The byte `i` of the early keying material.
pub open spec fn exported_byte(label: Seq<u8>, context: Seq<u8>, i: int) -> u8 {
    let l = label[i % (label.len() as int)];
    let c = if context.len() == 0 {
        0
    } else {
        context[i % (context.len() as int)]
    };
    ((i % 256) as u8) ^ l ^ c
}

/// A 0-RTT packet under its mask.
pub open spec fn zero_rtt_masked(data: Seq<u8>) -> Seq<u8> {
    Seq::new(data.len(), |i: int| data[i] ^ (((i % 256) as u8) ^ 0x5a))
}

/// Masking a 0-RTT packet twice gives it back.
pub proof fn zero_rtt_mask_involution(data: Seq<u8>)
    ensures
        zero_rtt_masked(zero_rtt_masked(data)) == data,
{
    assert forall|i: int| 0 <= i < data.len() implies zero_rtt_masked(zero_rtt_masked(data))[i]
        == data[i] by {
        let a = data[i];
        let m = ((i % 256) as u8) ^ 0x5a;
        assert((a ^ m) ^ m == a) by (bit_vector);
    }
    assert(zero_rtt_masked(zero_rtt_masked(data)) =~= data);
}

impl<D> CryptoManager<D> {
    /// What holds of every manager.
    pub open spec fn wf(self) -> bool {
        &&& usable(self.initial_send_keys)
        &&& usable(self.initial_recv_keys)
        &&& usable(self.handshake_keys)
        &&& usable(self.application_keys)
        &&& usable(self.next_application_keys)
        &&& self.crypto_buffer.wf()
    }

    /// Create a new crypto manager without any keys
    pub fn new(role: ConnectionRole) -> (r: CryptoManager<D>)
        ensures
            r.wf(),
            r.role == role,
            r.initial_send_keys is None,
            r.initial_recv_keys is None,
            r.handshake_keys is None,
            r.application_keys is None,
            r.next_application_keys is None,
            r.handshake_keys_tls is None,
            r.application_keys_tls is None,
            r.next_application_keys_tls is None,
            !r.key_phase,
            r.highest_sent_pn == 0,
            r.handshake_send_count == 0,
            !r.initial_crypto_sent,
            r.crypto_buffer@.pieces == Map::<u64, Seq<u8>>::empty(),
            r.crypto_buffer@.read_offset == 0,
            r.local_cid is None,
            r.remote_cid is None,
            r.pending_handshake_data@ == Seq::<u8>::empty(),
            r.local_transport_params is None,
            r.peer_transport_params is None,
    {
        CryptoManager {
            role,
            initial_send_keys: None,
            initial_recv_keys: None,
            handshake_keys: None,
            application_keys: None,
            next_application_keys: None,
            handshake_keys_tls: None,
            application_keys_tls: None,
            next_application_keys_tls: None,
            key_phase: false,
            highest_sent_pn: 0,
            handshake_send_count: 0,
            initial_crypto_sent: false,
            crypto_buffer: CryptoStream::new(),
            local_cid: None,
            remote_cid: None,
            pending_handshake_data: Vec::new(),
            local_transport_params: None,
            peer_transport_params: None,
        }
    }

    /// Get the connection role
    pub fn role(&self) -> (r: ConnectionRole)
        ensures
            r == self.role,
    {
        self.role
    }

    /// Set connection IDs
    pub fn set_connection_ids(&mut self, local_cid: ConnectionId, remote_cid: ConnectionId)
        ensures
            *final(self) == (CryptoManager {
                local_cid: Some(local_cid),
                remote_cid: Some(remote_cid),
                ..*old(self)
            }),
    {
        self.local_cid = Some(local_cid);
        self.remote_cid = Some(remote_cid);
    }

    /// Set transport parameters
    pub fn set_transport_params(&mut self, params: TransportParameters)
        ensures
            *final(self) == (CryptoManager { local_transport_params: Some(params), ..*old(self) }),
    {
        self.local_transport_params = Some(params);
    }

    /// Get peer's transport parameters
    pub fn get_peer_transport_params(&self) -> (r: Option<&TransportParameters>)
        ensures
            match self.peer_transport_params {
                Some(p) => r == Some(&p),
                None => r is None,
            },
    {
        self.peer_transport_params.as_ref()
    }

    /// Take note of the transport parameters that the handshake brought. `None` where it
    /// has brought none yet, or none that can be read: what is known then stays
    pub fn extract_transport_params(&mut self, received: Option<TransportParameters>)
        ensures
            *final(self) == (CryptoManager {
                peer_transport_params: if received is Some {
                    received
                } else {
                    old(self).peer_transport_params
                },
                ..*old(self)
            }),
    {
        if received.is_some() {
            self.peer_transport_params = received;
        }
    }

    /// Whether the initial keys are those of a connection ID: a client sends with the client's
    /// keys and receives with the server's, a server the other way round.
    pub open spec fn has_initial_keys(self, client_dst_cid: Seq<u8>) -> bool {
        let client = initial_secret(client_dst_cid, CLIENT_IN@);
        let server = initial_secret(client_dst_cid, SERVER_IN@);
        let (local, remote) = if self.role == ConnectionRole::Client {
            (client, server)
        } else {
            (server, client)
        };
        &&& self.initial_send_keys matches Some(k) && derived_from(k, local, CipherSuite::Aes128Gcm)
        &&& self.initial_recv_keys matches Some(k) && derived_from(
            k,
            remote,
            CipherSuite::Aes128Gcm,
        )
    }

    /// Initialize initial keys based on connection IDs: a client sends with the client's
    /// keys and receives with the server's, a server the other way round
    pub fn init_initial_keys(&mut self, client_dst_cid: &[u8]) -> (r: Result<(), Error>)
        requires
            old(self).wf(),
        ensures
            r == Ok::<(), Error>(()),
            final(self).wf(),
            *final(self) == (CryptoManager {
                initial_send_keys: final(self).initial_send_keys,
                initial_recv_keys: final(self).initial_recv_keys,
                ..*old(self)
            }),
            final(self).has_initial_keys(client_dst_cid@),
    {
        let (client_secret, server_secret) = derive_initial_secrets(client_dst_cid)?;
        let (local_secret, remote_secret) = match self.role {
            ConnectionRole::Client => (client_secret, server_secret),
            ConnectionRole::Server => (server_secret, client_secret),
        };
        let local_keys: PacketKeys = derive_packet_keys(&local_secret)?;
        let remote_keys: PacketKeys = derive_packet_keys(&remote_secret)?;
        self.initial_send_keys = Some(local_keys);
        self.initial_recv_keys = Some(remote_keys);
        Ok(())
    }

    /// The secret of the own side.
    pub open spec fn own_secret(self, client: Seq<u8>, server: Seq<u8>) -> Seq<u8> {
        if self.role == ConnectionRole::Client {
            client
        } else {
            server
        }
    }

    /// Derive handshake keys from TLS handshake secrets
    pub fn derive_handshake_keys(&mut self, client_hs_secret: &[u8], server_hs_secret: &[u8]) -> (r:
        Result<(), Error>)
        requires
            old(self).wf(),
        ensures
            r == Ok::<(), Error>(()),
            final(self).wf(),
            *final(self) == (CryptoManager {
                handshake_keys: final(self).handshake_keys,
                ..*old(self)
            }),
            final(self).handshake_keys matches Some(k) && derived_from(
                k,
                old(self).own_secret(client_hs_secret@, server_hs_secret@),
                CipherSuite::Aes128Gcm,
            ),
    {
        let local_secret: &[u8] = match self.role {
            ConnectionRole::Client => client_hs_secret,
            ConnectionRole::Server => server_hs_secret,
        };
        self.handshake_keys = Some(derive_packet_keys(local_secret)?);
        Ok(())
    }

    /// Derive application data (1-RTT) keys
    pub fn derive_application_keys(
        &mut self,
        client_app_secret: &[u8],
        server_app_secret: &[u8],
    ) -> (r: Result<(), Error>)
        requires
            old(self).wf(),
        ensures
            r == Ok::<(), Error>(()),
            final(self).wf(),
            *final(self) == (CryptoManager {
                application_keys: final(self).application_keys,
                ..*old(self)
            }),
            final(self).application_keys matches Some(k) && derived_from(
                k,
                old(self).own_secret(client_app_secret@, server_app_secret@),
                CipherSuite::Aes128Gcm,
            ),
    {
        let local_secret: &[u8] = match self.role {
            ConnectionRole::Client => client_app_secret,
            ConnectionRole::Server => server_app_secret,
        };
        self.application_keys = Some(derive_packet_keys(local_secret)?);
        Ok(())
    }

    /// Update keys for key rotation (RFC 9001 Section 6). The TLS layer does not hand out
    /// application secrets, so that there is none to update from
    pub fn update_keys(&mut self) -> (r: Result<(), Error>)
        requires
            old(self).wf(),
        ensures
            *final(self) == *old(self),
            old(self).application_keys is None ==> r == Err::<(), Error>(
                Error::Crypto(Reason::Text("No application keys to update")),
            ),
            old(self).application_keys is Some ==> r == Err::<(), Error>(
                Error::Crypto(Reason::Text("Failed to derive new application keys")),
            ),
    {
        self.update_keys_from(None)
    }

    /// Update keys from the current application secret, where there is one: the current
    /// keys are kept as next keys, and the key phase changes
    pub fn update_keys_from(&mut self, current_secret: Option<Vec<u8>>) -> (r: Result<(), Error>)
        requires
            old(self).wf(),
        ensures
            final(self).wf(),
            old(self).application_keys is None ==> r == Err::<(), Error>(
                Error::Crypto(Reason::Text("No application keys to update")),
            ) && *final(self) == *old(self),
            old(self).application_keys is Some && !(current_secret matches Some(s) && s@.len()
                >= 32) ==> r == Err::<(), Error>(
                Error::Crypto(Reason::Text("Failed to derive new application keys")),
            ) && *final(self) == *old(self),
            old(self).application_keys is Some && (current_secret matches Some(s) && s@.len()
                >= 32) ==> {
                &&& r == Ok::<(), Error>(())
                &&& *final(self) == (CryptoManager {
                    next_application_keys: old(self).application_keys,
                    application_keys: final(self).application_keys,
                    key_phase: !old(self).key_phase,
                    ..*old(self)
                })
                &&& final(self).application_keys matches Some(k) && expanded_from(
                    k,
                    updated_secret(current_secret->Some_0@),
                )
            },
    {
        if self.application_keys.is_none() {
            return Err(Error::Crypto(Reason::Text("No application keys to update")));
        }
        let updated: Option<PacketKeys> = match &current_secret {
            Some(secret) => derive_updated_keys_from_secret(secret),
            None => None,
        };
        match updated {
            Some(keys) => {
                self.next_application_keys = self.application_keys.take();
                self.application_keys = Some(keys);
                self.key_phase = !self.key_phase;
                Ok(())
            },
            None => Err(Error::Crypto(Reason::Text("Failed to derive new application keys"))),
        }
    }

    /// Check if a key update is needed. No use of the keys is counted, so that none is
    pub fn should_update_keys(&self) -> (r: bool)
        ensures
            !r,
    {
        self.key_update_due(0, 0)
    }

    /// Check if keys that were used that often need an update (RFC 9001 Section 6)
    pub fn key_update_due(&self, packets_sent: u64, bytes_sent: u64) -> (r: bool)
        ensures
            r == (self.application_keys is Some && (packets_sent > 100_000 || bytes_sent
                > 100_000_000)),
            packets_sent <= 100_000 && bytes_sent <= 100_000_000 ==> !r,
    {
        self.application_keys.is_some() && (packets_sent > 100_000 || bytes_sent > 100_000_000)
    }

    /// The key for header protection of a packet type.
    pub open spec fn header_key(self, packet_type: PacketType) -> Option<HeaderProtectionKey> {
        let keys = match packet_type {
            PacketType::Initial => self.initial_send_keys,
            PacketType::Handshake => self.handshake_keys,
            PacketType::OneRtt => self.application_keys,
            _ => None,
        };
        match keys {
            Some(k) => Some(k.header_key),
            None => None,
        }
    }

    /// Get header protection key for a packet type
    fn get_header_protection_key(&self, packet_type: PacketType) -> (r: Option<
        &HeaderProtectionKey,
    >)
        requires
            self.wf(),
        ensures
            match self.header_key(packet_type) {
                Some(k) => r is Some && *r->Some_0 == k && k.key@.len() == 16,
                None => r is None,
            },
    {
        let keys: &Option<PacketKeys> = match packet_type {
            PacketType::Initial => &self.initial_send_keys,
            PacketType::Handshake => &self.handshake_keys,
            PacketType::OneRtt => &self.application_keys,
            PacketType::ZeroRtt | PacketType::Retry => {
                return None;
            },
        };
        match keys {
            Some(k) => Some(&k.header_key),
            None => None,
        }
    }

    /// Protect the header of a packet with the key of its type
    pub fn protect_packet_header(
        &self,
        packet_data: &mut [u8],
        packet_type: PacketType,
        _packet_number: u64,
    ) -> (r: Result<(), Error>)
        requires
            self.wf(),
            old(packet_data)@.len() + 1024 <= usize::MAX,
        ensures
            ({
                let p = old(packet_data)@;
                match self.header_key(packet_type) {
                    None => r == Err::<(), Error>(
                        Error::Crypto(Reason::Text("No header protection key available")),
                    ) && final(packet_data)@ == p,
                    Some(k) => match protect_offsets(p, packet_type) {
                        Err(e) => r == Err::<(), Error>(e) && final(packet_data)@ == p,
                        Ok(None) => r == Err::<(), Error>(
                            Error::Crypto(Reason::Text("No header protection key available")),
                        ) && final(packet_data)@ == p,
                        Ok(Some((h, o))) => if p.len() < o + 20 {
                            r == Err::<(), Error>(
                                Error::Crypto(Reason::Text("Packet too short for header protection")),
                            ) && final(packet_data)@ == p
                        } else {
                            r == Ok::<(), Error>(()) && final(packet_data)@ == mask_at(
                                p,
                                h,
                                o,
                                4,
                                hp_mask(k.key@, p.subrange(o + 4, o + 20)),
                            )
                        },
                    },
                }
            }),
    {
        match self.get_header_protection_key(packet_type) {
            None => Err(Error::Crypto(Reason::Text("No header protection key available"))),
            Some(hp_key) => {
                match parse_packet_offsets(packet_data, packet_type)? {
                    None => Err(Error::Crypto(Reason::Text("No header protection key available"))),
                    Some((header_offset, pn_offset)) => self.apply_header_protection(
                        packet_data,
                        header_offset,
                        pn_offset,
                        4,
                        hp_key,
                    ),
                }
            },
        }
    }

    /// Apply header protection according to RFC 9001 Section 5.4
    pub fn apply_header_protection(
        &self,
        packet_data: &mut [u8],
        header_offset: usize,
        pn_offset: usize,
        pn_length: usize,
        hp_key: &HeaderProtectionKey,
    ) -> (r: Result<(), Error>)
        requires
            pn_length <= 4,
        ensures
            ({
                let p = old(packet_data)@;
                if p.len() < pn_offset + 20 {
                    r == Err::<(), Error>(
                        Error::Crypto(Reason::Text("Packet too short for header protection")),
                    ) && final(packet_data)@ == p
                } else if hp_key.key@.len() != 16 {
                    r == Err::<(), Error>(
                        Error::Crypto(Reason::Text("Invalid key length for AES-128")),
                    ) && final(
                        packet_data)@ == p
                } else {
                    r == Ok::<(), Error>(()) && final(packet_data)@ == mask_at(
                        p,
                        header_offset as int,
                        pn_offset as int,
                        pn_length as int,
                        hp_mask(hp_key.key@, p.subrange(pn_offset + 4, pn_offset + 20)),
                    )
                }
            }),
    {
        let len: usize = packet_data.len();
        if len < 20 || len - 20 < pn_offset {
            return Err(Error::Crypto(Reason::Text("Packet too short for header protection")));
        }
        let mask: [u8; 5] = hp_key.mask(slice_subrange(packet_data, pn_offset + 4, pn_offset + 20))?;
        if header_offset < len {
            let first: u8 = packet_data[header_offset];
            let bits: u8 = if first & 0x80 != 0 { 0x0f } else { 0x1f };
            packet_data[header_offset] = first ^ (mask[0] & bits);
        }
        apply_number_mask(packet_data, pn_offset, pn_length, &mask);
        Ok(())
    }

    /// Remove the protection of a packet's header, and say what type and which packet number
    /// it states, and how long that number is
    pub fn unprotect_packet_header(&self, packet_data: &mut [u8]) -> (r: Result<
        (PacketType, u64, usize),
        Error,
    >)
        requires
            self.wf(),
            old(packet_data)@.len() + 1024 <= usize::MAX,
        ensures
            ({
                let p = old(packet_data)@;
                if p.len() == 0 {
                    r == Err::<(PacketType, u64, usize), Error>(
                        Error::Crypto(Reason::Text("Empty packet data")),
                    )
                        && final(packet_data)@ == p
                } else {
                    let t = stated_type(p[0]);
                    match number_at(p, t) {
                        Err(e) => r == Err::<(PacketType, u64, usize), Error>(e) && final(
                            packet_data)@ == p,
                        Ok(_) => match (self.header_key(t), pn_offset_of(p)) {
                            (Some(k), Ok(o)) => match unprotected_packet(k.key@, p, o) {
                                Some((q, pn, n)) => r == Ok::<(PacketType, u64, usize), Error>(
                                    (t, pn, n as usize),
                                ) && final(packet_data)@ == q,
                                None => r == Err::<(PacketType, u64, usize), Error>(
                                    Error::Crypto(Reason::Text("Invalid packet structure for header protection removal")),
                                ) && final(packet_data)@ == p,
                            },
                            _ => r == Err::<(PacketType, u64, usize), Error>(
                                Error::Crypto(Reason::Text("Failed to unprotect packet header")),
                            ) && final(packet_data)@ == p,
                        },
                    }
                }
            }),
    {
        if packet_data.len() == 0 {
            return Err(Error::Crypto(Reason::Text("Empty packet data")));
        }
        let packet_type: PacketType = packet_type_from_byte(packet_data[0]);
        parse_packet_header(packet_data, packet_type)?;
        let hp_key: &HeaderProtectionKey = match self.get_header_protection_key(packet_type) {
            Some(k) => k,
            None => {
                return Err(Error::Crypto(Reason::Text("Failed to unprotect packet header")));
            },
        };
        let pn_offset: usize = match get_pn_offset(packet_data) {
            Ok(o) => o,
            Err(_) => {
                return Err(Error::Crypto(Reason::Text("Failed to unprotect packet header")));
            },
        };
        let (packet_number, pn_length) = remove_header_protection(packet_data, hp_key, pn_offset)?;
        Ok((packet_type, packet_number, pn_length))
    }

    /// Get the current packet protection level
    pub fn current_level(&self) -> (r: PacketProtectionLevel)
        ensures
            r == (if self.application_keys is Some {
                PacketProtectionLevel::Application
            } else if self.handshake_keys is Some {
                PacketProtectionLevel::Handshake
            } else {
                PacketProtectionLevel::Initial
            }),
    {
        if self.application_keys.is_some() {
            PacketProtectionLevel::Application
        } else if self.handshake_keys.is_some() {
            PacketProtectionLevel::Handshake
        } else {
            PacketProtectionLevel::Initial
        }
    }

    /// Takes in TLS handshake data that may come out of order, and returns the pieces that
    /// the TLS layer is to read now
    pub fn process_crypto_frame(&mut self, offset: u64, data: Bytes) -> (r: Vec<Bytes>)
        requires
            old(self).wf(),
            offset + contents(data).len() <= u64::MAX,
        ensures
            final(self).wf(),
            *final(self) == (CryptoManager {
                crypto_buffer: final(self).crypto_buffer,
                ..*old(self)
            }),
            contents_of(r@) == old(self).crypto_buffer@.with_piece(offset, contents(data)).ready(),
            final(self).crypto_buffer@ == old(self).crypto_buffer@.with_piece(
                offset,
                contents(data),
            ).drained(),
    {
        self.crypto_buffer.write(offset, data)
    }

    /// One more key change after others.
    proof fn lemma_one_more_installed(
        self,
        changes: Seq<KeyChange<D>>,
        mid: Self,
        change: KeyChange<D>,
        m: Self,
    )
        requires
            self.keys_installed(changes, mid),
            mid.key_installed(change, m),
        ensures
            self.keys_installed(changes.push(change), m),
    {
        let all = changes.push(change);
        assert(all.drop_last() =~= changes);
        assert(self.keys_installed(all.drop_last(), mid) && mid.key_installed(all.last(), m));
    }

    /// Install all key changes from TLS
    fn install_key_changes(&mut self, key_changes: Vec<KeyChange<D>>)
        requires
            old(self).wf(),
        ensures
            final(self).wf(),
            old(self).keys_installed(key_changes@, *final(self)),
    {
        let ghost all = key_changes@;
        let mut rest: Vec<KeyChange<D>> = key_changes;
        let ghost mut done: int = 0;
        assert(all.take(0) =~= Seq::<KeyChange<D>>::empty());
        while rest.len() > 0
            invariant
                self.wf(),
                0 <= done <= all.len(),
                rest@ == all.skip(done),
                old(self).keys_installed(all.take(done), *self),
            decreases rest@.len(),
        {
            let ghost before = *self;
            let change: KeyChange<D> = rest.remove(0);
            self.install_key_change(change);
            proof {
                assert(all.take(done + 1) =~= all.take(done).push(change));
                old(self).lemma_one_more_installed(all.take(done), before, change, *self);
                assert(rest@ =~= all.skip(done + 1));
                done = done + 1;
            }
        }
        assert(all.take(done) =~= all);
    }

    /// Takes in what the TLS layer answered to handshake data: new keys, bytes to send later,
    /// and whether the handshake goes on
    pub fn on_tls_response(
        &mut self,
        key_changes: Vec<KeyChange<D>>,
        response: &[u8],
        handshaking: bool,
    )
        requires
            old(self).wf(),
        ensures
            final(self).wf(),
            exists|mid: Self| #[trigger]
                old(self).keys_installed(key_changes@, mid) && mid.keys_completed(
                    handshaking,
                    *final(self),
                ) && final(self).pending_handshake_data@ == mid.pending_handshake_data@ + response@,
    {
        self.install_key_changes(key_changes);
        let ghost mid = *self;
        self.pending_handshake_data.extend_from_slice(response);
        self.extract_and_install_keys(handshaking);
        assert(old(self).keys_installed(key_changes@, mid));
    }

    /// Whether `m` is this manager with fallback keys where they are due: handshake keys
    /// during the handshake, application keys after it.
    pub open spec fn keys_completed(self, handshaking: bool, m: Self) -> bool {
        &&& m == (CryptoManager {
            handshake_keys: m.handshake_keys,
            application_keys: m.application_keys,
            pending_handshake_data: m.pending_handshake_data,
            ..self
        })
        &&& if self.handshake_keys is None && handshaking {
            m.handshake_keys matches Some(k) && derived_from(
                k,
                fallback_secret(PacketProtectionLevel::Handshake),
                CipherSuite::Aes128Gcm,
            )
        } else {
            m.handshake_keys == self.handshake_keys
        }
        &&& if self.application_keys is None && !handshaking {
            m.application_keys matches Some(k) && derived_from(
                k,
                fallback_secret(PacketProtectionLevel::Application),
                CipherSuite::Aes128Gcm,
            )
        } else {
            m.application_keys == self.application_keys
        }
    }

    /// Install keys after handshake data processing
    pub fn extract_and_install_keys(&mut self, handshaking: bool)
        requires
            old(self).wf(),
        ensures
            final(self).wf(),
            final(self).pending_handshake_data == old(self).pending_handshake_data,
            old(self).keys_completed(handshaking, *final(self)),
    {
        if self.handshake_keys.is_none() && handshaking {
            self.handshake_keys = derive_test_keys(PacketProtectionLevel::Handshake);
        }
        if self.application_keys.is_none() && !handshaking {
            self.application_keys = derive_test_keys(PacketProtectionLevel::Application);
        }
    }

    /// Whether `m` is this manager with new keys of the TLS layer. The first time, fallback
    /// keys are derived beside them; application keys that come later replace the current
    /// ones, which are kept as next keys, and change the key phase.
    pub open spec fn key_installed(self, key_change: KeyChange<D>, m: Self) -> bool {
        match key_change {
            KeyChange::Handshake { keys } => {
                &&& m == (CryptoManager {
                    handshake_keys_tls: Some(keys),
                    handshake_keys: m.handshake_keys,
                    ..self
                })
                &&& if self.handshake_keys is Some {
                    m.handshake_keys == self.handshake_keys
                } else {
                    m.handshake_keys matches Some(k) && derived_from(
                        k,
                        fallback_secret(PacketProtectionLevel::Handshake),
                        CipherSuite::Aes128Gcm,
                    )
                }
            },
            KeyChange::OneRtt { keys } => if self.application_keys_tls is None {
                &&& m == (CryptoManager {
                    application_keys_tls: Some(keys),
                    application_keys: m.application_keys,
                    ..self
                })
                &&& if self.application_keys is Some {
                    m.application_keys == self.application_keys
                } else {
                    m.application_keys matches Some(k) && derived_from(
                        k,
                        fallback_secret(PacketProtectionLevel::Application),
                        CipherSuite::Aes128Gcm,
                    )
                }
            } else {
                m == (CryptoManager {
                    next_application_keys_tls: self.application_keys_tls,
                    application_keys_tls: Some(keys),
                    key_phase: !self.key_phase,
                    ..self
                })
            },
        }
    }

    /// Whether `m` is this manager after all of the key changes, in their order.
    pub open spec fn keys_installed(self, changes: Seq<KeyChange<D>>, m: Self) -> bool
        decreases changes.len(),
    {
        if changes.len() == 0 {
            m == self
        } else {
            exists|mid: Self|
                self.keys_installed(changes.drop_last(), mid) && #[trigger] mid.key_installed(
                    changes.last(),
                    m,
                )
        }
    }

    /// Install key changes from TLS
    pub fn install_key_change(&mut self, key_change: KeyChange<D>)
        requires
            old(self).wf(),
        ensures
            final(self).wf(),
            old(self).key_installed(key_change, *final(self)),
    {
        match key_change {
            KeyChange::Handshake { keys } => {
                self.handshake_keys_tls = Some(keys);
                if self.handshake_keys.is_none() {
                    self.handshake_keys = derive_test_keys(PacketProtectionLevel::Handshake);
                }
            },
            KeyChange::OneRtt { keys } => {
                if self.application_keys_tls.is_none() {
                    self.application_keys_tls = Some(keys);
                    if self.application_keys.is_none() {
                        self.application_keys = derive_test_keys(
                            PacketProtectionLevel::Application,
                        );
                    }
                } else {
                    self.next_application_keys_tls = self.application_keys_tls.take();
                    self.application_keys_tls = Some(keys);
                    self.key_phase = !self.key_phase;
                }
            },
        }
    }

    /// Export keying material for 0-RTT
    pub fn export_early_keying_material(
        &self,
        label: &[u8],
        context: &[u8],
        length: usize,
    ) -> (r: Result<Vec<u8>, Error>)
        requires
            label@.len() > 0 || length == 0,
        ensures
            self.application_keys_tls is None ==> r == Err::<Vec<u8>, Error>(
                Error::Crypto(Reason::Text("No application keys available")),
            ),
            self.application_keys_tls is Some ==> r is Ok && r->Ok_0@ == Seq::new(
                length as nat,
                |i: int| exported_byte(label@, context@, i),
            ),
    {
        if self.application_keys_tls.is_none() {
            return Err(Error::Crypto(Reason::Text("No application keys available")));
        }
        let mut output: Vec<u8> = Vec::new();
        let mut i: usize = 0;
        while i < length
            invariant
                i <= length,
                label@.len() > 0 || length == 0,
                output@ == Seq::new(i as nat, |j: int| exported_byte(label@, context@, j)),
            decreases length - i,
        {
            let l: u8 = label[i % label.len()];
            let c: u8 = if context.len() == 0 {
                0
            } else {
                context[i % context.len()]
            };
            output.push(((i % 256) as u8) ^ l ^ c);
            assert(output@ =~= Seq::new(
                (i + 1) as nat,
                |j: int| exported_byte(label@, context@, j),
            ));
            i += 1;
        }
        Ok(output)
    }

    /// Check if 0-RTT is available
    pub fn zero_rtt_available(&self) -> (r: bool)
        ensures
            r == (self.role == ConnectionRole::Client && self.application_keys is Some),
    {
        match self.role {
            ConnectionRole::Client => self.application_keys.is_some(),
            ConnectionRole::Server => false,
        }
    }

    /// Protect a 0-RTT packet
    pub fn protect_zero_rtt_packet(&self, packet_data: Bytes) -> (r: Result<Bytes, Error>)
        ensures
            ({
                let available = self.role == ConnectionRole::Client && self.application_keys
                    is Some;
                &&& !available ==> r == Err::<Bytes, Error>(
                    Error::Crypto(Reason::Text("0-RTT keys not available")),
                )
                &&& available ==> r is Ok && contents(r->Ok_0) == zero_rtt_masked(
                    contents(packet_data),
                )
            }),
    {
        if !self.zero_rtt_available() {
            return Err(Error::Crypto(Reason::Text("0-RTT keys not available")));
        }
        let data: &[u8] = &packet_data;
        let mut protected: Vec<u8> = Vec::new();
        let mut i: usize = 0;
        let len: usize = data.len();
        while i < len
            invariant
                i <= len == data@.len(),
                protected@ == zero_rtt_masked(data@).take(i as int),
            decreases len - i,
        {
            protected.push(data[i] ^ (((i % 256) as u8) ^ 0x5a));
            assert(protected@ =~= zero_rtt_masked(data@).take(i + 1));
            i += 1;
        }
        assert(protected@ =~= zero_rtt_masked(data@));
        Ok(bytes_from_vec(protected))
    }

    /// The application keys derived here that are in use.
    pub open spec fn phase_keys(self) -> Option<PacketKeys> {
        if self.key_phase {
            self.next_application_keys
        } else {
            self.application_keys
        }
    }

    /// The application keys of the TLS layer that are in use.
    pub open spec fn phase_keys_tls(self) -> Option<TlsKeys<D>> {
        if self.key_phase {
            self.next_application_keys_tls
        } else {
            self.application_keys_tls
        }
    }

    /// The keys for a packet type: to send with, or to receive with.
    pub open spec fn keys_for(self, packet_type: PacketType, sending: bool) -> Result<
        KeyChoice<D>,
        Error,
    > {
        match packet_type {
            PacketType::Initial => if sending {
                match self.initial_send_keys {
                    Some(k) => Ok(KeyChoice::Ring(k)),
                    None => Err(Error::Crypto(Reason::Text("No initial send keys available"))),
                }
            } else {
                match self.initial_recv_keys {
                    Some(k) => Ok(KeyChoice::Ring(k)),
                    None => Err(Error::Crypto(Reason::Text("No initial receive keys available"))),
                }
            },
            PacketType::Handshake => match self.handshake_keys {
                Some(k) => Ok(KeyChoice::Ring(k)),
                None => Err(Error::Crypto(Reason::Text("No handshake keys available"))),
            },
            PacketType::ZeroRtt | PacketType::OneRtt => match (
                self.phase_keys(),
                self.phase_keys_tls(),
            ) {
                (Some(k), _) => Ok(KeyChoice::Ring(k)),
                (None, Some(t)) => Ok(
                    KeyChoice::Tls(
                        if sending {
                            t.local
                        } else {
                            t.remote
                        },
                    ),
                ),
                (None, None) => Err(Error::Crypto(Reason::Text("No application keys available"))),
            },
            PacketType::Retry => Err(Error::Crypto(Reason::NoKeysFor(packet_type))),
        }
    }

    /// Get keys for a specific packet type, for sending or for receiving
    fn get_keys(&self, packet_type: PacketType, sending: bool) -> (r: Result<
        KeysWrapper<'_, D>,
        Error,
    >)
        requires
            self.wf(),
        ensures
            match self.keys_for(packet_type, sending) {
                Ok(c) => r is Ok && r->Ok_0.choice() == c,
                Err(e) => r == Err::<KeysWrapper<'_, D>, Error>(e),
            },
            r matches Ok(KeysWrapper::Ring(k)) ==> k.wf(),
    {
        match packet_type {
            PacketType::Initial => if sending {
                match &self.initial_send_keys {
                    Some(k) => Ok(KeysWrapper::Ring(k)),
                    None => Err(Error::Crypto(Reason::Text("No initial send keys available"))),
                }
            } else {
                match &self.initial_recv_keys {
                    Some(k) => Ok(KeysWrapper::Ring(k)),
                    None => Err(Error::Crypto(Reason::Text("No initial receive keys available"))),
                }
            },
            PacketType::Handshake => match &self.handshake_keys {
                Some(k) => Ok(KeysWrapper::Ring(k)),
                None => Err(Error::Crypto(Reason::Text("No handshake keys available"))),
            },
            PacketType::ZeroRtt | PacketType::OneRtt => {
                let own: &Option<PacketKeys> = if self.key_phase {
                    &self.next_application_keys
                } else {
                    &self.application_keys
                };
                let tls: &Option<TlsKeys<D>> = if self.key_phase {
                    &self.next_application_keys_tls
                } else {
                    &self.application_keys_tls
                };
                match own {
                    Some(k) => Ok(KeysWrapper::Ring(k)),
                    None => match tls {
                        Some(t) => if sending {
                            Ok(KeysWrapper::Tls(&t.local))
                        } else {
                            Ok(KeysWrapper::Tls(&t.remote))
                        },
                        None => Err(Error::Crypto(Reason::Text("No application keys available"))),
                    },
                }
            },
            PacketType::Retry => Err(Error::Crypto(Reason::NoKeysFor(packet_type))),
        }
    }

    /// Get keys for encrypting a packet
    pub fn get_keys_for_packet_type(&self, packet_type: PacketType) -> (r: Result<
        KeysWrapper<'_, D>,
        Error,
    >)
        requires
            self.wf(),
        ensures
            match self.keys_for(packet_type, true) {
                Ok(c) => r is Ok && r->Ok_0.choice() == c,
                Err(e) => r == Err::<KeysWrapper<'_, D>, Error>(e),
            },
            r matches Ok(KeysWrapper::Ring(k)) ==> k.wf(),
    {
        self.get_keys(packet_type, true)
    }

    /// Get keys for decrypting a packet (use receive keys)
    pub fn get_keys_for_decryption(&self, packet_type: PacketType) -> (r: Result<
        KeysWrapper<'_, D>,
        Error,
    >)
        requires
            self.wf(),
        ensures
            match self.keys_for(packet_type, false) {
                Ok(c) => r is Ok && r->Ok_0.choice() == c,
                Err(e) => r == Err::<KeysWrapper<'_, D>, Error>(e),
            },
            r matches Ok(KeysWrapper::Ring(k)) ==> k.wf(),
    {
        self.get_keys(packet_type, false)
    }

    /// The type of the next packet to send. A server answers with Initial packets until it
    /// has sent its first CRYPTO data, a client sends them until it has handshake keys.
    /// Then Handshake packets follow: a client sends at least one, a server sends them until
    /// the handshake is complete. After it come 1-RTT packets.
    pub open spec fn next_packet_type(self, handshaking: bool) -> PacketType {
        let app = self.application_keys_tls is Some || self.application_keys is Some;
        let hs = self.handshake_keys_tls is Some || self.handshake_keys is Some;
        let initial = self.initial_send_keys is Some;
        let client = self.role == ConnectionRole::Client;
        if initial && (if client {
            !hs
        } else {
            !self.initial_crypto_sent
        }) {
            PacketType::Initial
        } else if hs && (if client {
            self.handshake_send_count == 0
        } else {
            handshaking
        }) {
            PacketType::Handshake
        } else if app && !handshaking {
            PacketType::OneRtt
        } else if hs {
            PacketType::Handshake
        } else {
            PacketType::Initial
        }
    }

    /// Determine appropriate packet type based on current state
    pub fn determine_packet_type(&self, handshaking: bool) -> (r: PacketType)
        ensures
            r == self.next_packet_type(handshaking),
    {
        let has_app_keys: bool = self.application_keys_tls.is_some()
            || self.application_keys.is_some();
        let has_hs_keys: bool = self.handshake_keys_tls.is_some() || self.handshake_keys.is_some();
        let has_initial_keys: bool = self.initial_send_keys.is_some();
        let should_use_initial: bool = match self.role {
            ConnectionRole::Server => !self.initial_crypto_sent && has_initial_keys,
            ConnectionRole::Client => !has_hs_keys && has_initial_keys,
        };
        let should_use_handshake: bool = has_hs_keys && match self.role {
            ConnectionRole::Client => self.handshake_send_count == 0,
            ConnectionRole::Server => handshaking,
        };
        if should_use_initial {
            PacketType::Initial
        } else if should_use_handshake {
            PacketType::Handshake
        } else if has_app_keys && !handshaking {
            PacketType::OneRtt
        } else if has_hs_keys {
            PacketType::Handshake
        } else {
            PacketType::Initial
        }
    }

    /// Estimate header size for a given packet type
    pub fn estimate_header_size(packet_type: PacketType) -> (r: Result<usize, Error>)
        ensures
            r == match packet_type {
                PacketType::Retry => Err::<usize, Error>(
                    Error::Crypto(Reason::Text("Unsupported packet type")),
                ),
                PacketType::OneRtt => Ok(13),
                _ => Ok(25),
            },
    {
        match packet_type {
            PacketType::Initial | PacketType::Handshake | PacketType::ZeroRtt => Ok(25),
            PacketType::OneRtt => Ok(13),
            PacketType::Retry => Err(Error::Crypto(Reason::Text("Unsupported packet type"))),
        }
    }

    /// The header of a packet to send, or why it cannot be made.
    pub open spec fn header_for(self, packet_type: PacketType, pn: u64, payload_len: int) -> Result<
        PacketHeaderView,
        Error,
    > {
        let number = (if pn < 0x100_0000 {
            pn
        } else {
            pn % 0x1_0000_0000
        }) as u32;
        let length = ((payload_len + 16 + number_len(pn)) % 0x1_0000_0000) as u64;
        if packet_type == PacketType::Retry {
            Err(Error::Crypto(Reason::Text("Unsupported packet type for header creation")))
        } else if self.remote_cid is None {
            Err(Error::Crypto(Reason::Text("Remote connection ID not set")))
        } else if packet_type == PacketType::OneRtt {
            Ok(
                PacketHeaderView::Short(
                    ShortHeaderView {
                        spin_bit: false,
                        key_phase: self.key_phase,
                        dst_cid: self.remote_cid->Some_0@,
                        packet_number: number,
                    },
                ),
            )
        } else if self.local_cid is None {
            Err(Error::Crypto(Reason::Text("Local connection ID not set")))
        } else {
            Ok(
                PacketHeaderView::Long(
                    LongHeaderView {
                        packet_type,
                        version: 1,
                        dst_cid: self.remote_cid->Some_0@,
                        src_cid: self.local_cid->Some_0@,
                        type_specific: match packet_type {
                            PacketType::Initial => TypeSpecificView::Initial {
                                token: Seq::empty(),
                                length,
                                packet_number: number,
                            },
                            PacketType::Handshake => TypeSpecificView::Handshake {
                                length,
                                packet_number: number,
                            },
                            _ => TypeSpecificView::ZeroRtt { length, packet_number: number },
                        },
                    },
                ),
            )
        }
    }

    /// Get local connection ID
    fn local_cid(&self) -> (r: Result<ConnectionId, Error>)
        ensures
            match self.local_cid {
                Some(c) => r is Ok && r->Ok_0@ == c@,
                None => r == Err::<ConnectionId, Error>(
                    Error::Crypto(Reason::Text("Local connection ID not set")),
                ),
            },
    {
        match &self.local_cid {
            Some(c) => Ok(c.clone()),
            None => Err(Error::Crypto(Reason::Text("Local connection ID not set"))),
        }
    }

    /// Get remote connection ID
    fn remote_cid(&self) -> (r: Result<ConnectionId, Error>)
        ensures
            match self.remote_cid {
                Some(c) => r is Ok && r->Ok_0@ == c@,
                None => r == Err::<ConnectionId, Error>(
                    Error::Crypto(Reason::Text("Remote connection ID not set")),
                ),
            },
    {
        match &self.remote_cid {
            Some(c) => Ok(c.clone()),
            None => Err(Error::Crypto(Reason::Text("Remote connection ID not set"))),
        }
    }

    /// Create packet header for encryption
    pub fn create_packet_header(&self, packet_type: PacketType, pn: u64, payload_len: usize) -> (r:
        Result<PacketHeader, Error>)
        requires
            payload_len + 20 <= usize::MAX,
        ensures
            match self.header_for(packet_type, pn, payload_len as int) {
                Ok(h) => r is Ok && r->Ok_0@ == h,
                Err(e) => r == Err::<PacketHeader, Error>(e),
            },
    {
        if matches!(packet_type, PacketType::Retry) {
            return Err(Error::Crypto(Reason::Text("Unsupported packet type for header creation")));
        }
        let pn_length: usize = encode_packet_number_length(pn);
        let packet_number: u32 = encode_packet_number(pn, pn_length)?;
        if matches!(packet_type, PacketType::OneRtt) {
            return Ok(
                PacketHeader::Short(
                    ShortHeader::new(false, self.key_phase, self.remote_cid()?, packet_number),
                ),
            );
        }
        let total_length: usize = payload_len + 16 + pn_length;
        let length: VarInt = VarInt::from_u32((total_length as u64 % 0x1_0000_0000) as u32);
        let type_specific: TypeSpecificData = match packet_type {
            PacketType::Initial => TypeSpecificData::Initial {
                token: Bytes::new(),
                length,
                packet_number,
            },
            PacketType::Handshake => TypeSpecificData::Handshake { length, packet_number },
            _ => TypeSpecificData::ZeroRtt { length, packet_number },
        };
        let dst_cid: ConnectionId = self.remote_cid()?;
        let src_cid: ConnectionId = self.local_cid()?;
        Ok(
            PacketHeader::Long(
                LongHeader::new(packet_type, 0x0000_0001, dst_cid, src_cid, type_specific),
            ),
        )
    }

    /// Whether a packet of this type that holds frames changes what is sent next.
    pub open spec fn after_sending(self, packet_type: PacketType, has_frames: bool) -> Self {
        CryptoManager {
            handshake_send_count: if packet_type == PacketType::Handshake {
                (self.handshake_send_count + 1) as u32
            } else {
                self.handshake_send_count
            },
            initial_crypto_sent: self.initial_crypto_sent || (self.role == ConnectionRole::Server
                && packet_type == PacketType::Initial && has_frames),
            ..self
        }
    }

    /// Whether this is what encrypting frames comes to: the sealed packet, which opens again
    /// with the same keys, or what the TLS layer is to encrypt, or why there is neither.
    #[verifier::inline]
    pub open spec fn encrypts(
        self,
        handshaking: bool,
        packet_number: u64,
        v: Seq<FrameView>,
        r: Result<Encrypted, Error>,
    ) -> bool {
        let t = self.next_packet_type(handshaking);
        let payload = packet_payload(t, v);
        let header = self.header_for(t, packet_number, payload.len() as int);
        match self.keys_for(t, true) {
            Err(e) => r == Err::<Encrypted, Error>(e),
            Ok(keys) => if !all_encodable(v) {
                r == Err::<Encrypted, Error>(Error::VarIntRange)
            } else {
                match (header, keys) {
                    (Err(e), _) => r == Err::<Encrypted, Error>(e),
                    (Ok(h), KeyChoice::Tls(_)) => r matches Ok(Encrypted::Tls {
                        packet_number: n,
                        header: hb,
                        payload: pb,
                    }) && n == packet_number && contents(hb) == h.bytes() && contents(pb)
                        == payload,
                    (Ok(h), KeyChoice::Ring(k)) => sealed_as(
                        k,
                        h.bytes(),
                        payload,
                        packet_number,
                        r,
                    ) && (self.cids_fit(t) && 4 <= payload.len() <= MAX_SEAL_LEN ==> r is Ok) && (r
                        matches Ok(Encrypted::Packet(b)) ==> stated_type(contents(b)[0]) == t && (
                    packet_number < 0x1_0000_0000 && self.cids_fit(t) ==> opened_packet(
                        k,
                        contents(b),
                    ) == Ok::<(u64, Seq<u8>), Error>((packet_number, payload)))),
                }
            },
        }
    }

    /// Encrypt a packet with proper header protection. Frames for which only the TLS layer
    /// has keys are handed back encoded
    #[verifier::spinoff_prover]
    pub fn encrypt_packet(&mut self, handshaking: bool, packet_number: u64, frames: Vec<Frame>)
        -> (r: Result<Encrypted, Error>)
        requires
            old(self).wf(),
            old(self).next_packet_type(handshaking) == PacketType::Handshake ==> old(
                self,
            ).handshake_send_count < u32::MAX,
            frames_bytes(views(frames@)).len() + old(self).cid_bytes() + 0x1_0000 <= usize::MAX,
        ensures
            *final(self) == old(self).after_sending(
                old(self).next_packet_type(handshaking),
                frames@.len() > 0,
            ),
            old(self).encrypts(handshaking, packet_number, views(frames@), r),
    {
        let packet_type: PacketType = self.determine_packet_type(handshaking);
        if matches!(packet_type, PacketType::Handshake) {
            self.handshake_send_count = self.handshake_send_count + 1;
        }
        if matches!(self.role, ConnectionRole::Server) && matches!(packet_type, PacketType::Initial)
            && frames.len() > 0 {
            self.initial_crypto_sent = true;
        }
        let ghost v = views(frames@);
        let keys: KeysWrapper<'_, D> = self.get_keys_for_packet_type(packet_type)?;
        let mut payload: BytesMut = BytesMut::new();
        encode_frames(&frames, &mut payload)?;
        assert(written(payload) =~= frames_bytes(v));
        let min_size: usize = if matches!(packet_type, PacketType::Initial) {
            1200
        } else {
            0
        };
        let estimated_header_size: usize = Self::estimate_header_size(packet_type)?;
        let current_packet_size: usize = estimated_header_size + payload.len() + 16;
        if current_packet_size < min_size {
            encode_padding(min_size - current_packet_size, &mut payload);
        }
        assert(written(payload) =~= packet_payload(packet_type, v));
        let header: PacketHeader = self.create_packet_header(
            packet_type,
            packet_number,
            payload.len(),
        )?;
        let mut aad: BytesMut = BytesMut::new();
        proof {
            old(self).lemma_header_for(packet_type, packet_number, written(payload).len() as int);
        }
        header.encode(&mut aad)?;
        assert(written(aad) =~= header@.bytes());
        match keys {
            KeysWrapper::Ring(k) => {
                let packet: Bytes = seal_packet(k, &aad, &payload, packet_number)?;
                Ok(Encrypted::Packet(packet))
            },
            KeysWrapper::Tls(_) => Ok(
                Encrypted::Tls { packet_number, header: aad.freeze(), payload: payload.freeze() },
            ),
        }
    }

    /// The packet number, the frames and the payload of a received packet, or why it cannot be
    /// opened, where the keys are derived here.
    pub open spec fn decrypted(self, packet: Seq<u8>) -> Result<
        (u64, Seq<FrameView>, Seq<u8>),
        Error,
    > {
        if packet.len() == 0 {
            Err(Error::Crypto(Reason::Text("Empty packet")))
        } else {
            match self.keys_for(stated_type(packet[0]), false) {
                Ok(KeyChoice::Ring(k)) => match opened_packet(k, packet) {
                    Ok((pn, payload)) => match parse_frames(payload, true) {
                        Ok(v) => Ok((pn, v, payload)),
                        Err(e) => Err(e),
                    },
                    Err(e) => Err(e),
                },
                Ok(_) => Err(Error::Crypto(Reason::Text("Decryption failed"))),
                Err(e) => Err(e),
            }
        }
    }

    /// Whether the keys for a received packet are with the TLS layer.
    pub open spec fn received_with_tls(self, packet: Seq<u8>) -> bool {
        packet.len() > 0 && self.keys_for(stated_type(packet[0]), false) matches Ok(
            KeyChoice::Tls(_),
        )
    }

    /// Decrypt a packet with proper header protection removal. For a packet whose keys are
    /// with the TLS layer, what it needs to start is handed back
    pub fn decrypt_packet(&self, packet_data: &[u8]) -> (r: Result<Decrypted, Error>)
        requires
            self.wf(),
            packet_data@.len() + 1024 <= usize::MAX,
        ensures
            if self.received_with_tls(packet_data@) {
                match pn_offset_of(packet_data@) {
                    Err(e) => r == Err::<Decrypted, Error>(e),
                    Ok(o) => if packet_data@.len() < o + 20 {
                        r == Err::<Decrypted, Error>(
                            Error::Crypto(Reason::Text("Packet too short for decryption")),
                        )
                    } else {
                        r matches Ok(Decrypted::Tls { pn_offset, sample }) && pn_offset == o
                            && sample@ == packet_data@.subrange(o + 4, o + 20)
                    },
                }
            } else {
                match self.decrypted(packet_data@) {
                    Err(e) => r == Err::<Decrypted, Error>(e),
                    Ok((pn, v, payload)) => r matches Ok(Decrypted::Packet(p)) && p.packet_number
                        == pn && views(p.frames@) == v && contents(p.payload) == payload,
                }
            },
    {
        if packet_data.len() == 0 {
            return Err(Error::Crypto(Reason::Text("Empty packet")));
        }
        let packet_type: PacketType = packet_type_from_byte(packet_data[0]);
        match self.get_keys_for_decryption(packet_type)? {
            KeysWrapper::Ring(keys) => {
                let (pn, plaintext) = open_packet(keys, packet_data)?;
                Ok(Decrypted::Packet(Self::read_payload(pn, plaintext)?))
            },
            KeysWrapper::Tls(_) => {
                let pn_offset: usize = get_pn_offset(packet_data)?;
                if packet_data.len() < pn_offset + 4 + SAMPLE_LEN {
                    return Err(Error::Crypto(Reason::Text("Packet too short for decryption")));
                }
                Ok(
                    Decrypted::Tls {
                        pn_offset,
                        sample: slice_to_vec(
                            slice_subrange(packet_data, pn_offset + 4, pn_offset + 4 + SAMPLE_LEN),
                        ),
                    },
                )
            },
        }
    }

    /// The packet that a decrypted payload makes
    pub fn read_payload(packet_number: u64, plaintext: Vec<u8>) -> (r: Result<
        DecryptedPacket,
        Error,
    >)
        ensures
            match parse_frames(plaintext@, true) {
                Err(e) => r == Err::<DecryptedPacket, Error>(e),
                Ok(v) => r is Ok && r->Ok_0.packet_number == packet_number && views(
                    r->Ok_0.frames@,
                ) == v && contents(r->Ok_0.payload) == plaintext@,
            },
    {
        let frames: Vec<Frame> = decode_frames(&plaintext, true)?;
        Ok(DecryptedPacket { packet_number, frames, payload: bytes_from_vec(plaintext) })
    }

    /// What the TLS layer is to decrypt, once it has taken the protection off the first byte
    /// and the four bytes of the packet number
    pub fn tls_opening(packet_data: &[u8], pn_offset: usize, first_byte: u8, number: [u8; 4]) -> (r:
        TlsOpening)
        requires
            0 < pn_offset,
            pn_offset + 4 <= packet_data@.len(),
        ensures
            r.packet_number == be_value(number@),
            r.aad@ == seq![first_byte] + packet_data@.subrange(1, pn_offset as int) + number@,
            r.ciphertext@ == packet_data@.skip(pn_offset + 4),
    {
        let mut aad: Vec<u8> = slice_to_vec(slice_subrange(packet_data, 0, pn_offset));
        aad.set(0, first_byte);
        let mut i: usize = 0;
        let ghost head = aad@;
        assert(head =~= head + number@.take(0));
        while i < 4
            invariant
                i <= 4,
                aad@ == head + number@.take(i as int),
            decreases 4 - i,
        {
            aad.push(number[i]);
            assert(aad@ =~= head + number@.take(i + 1));
            i += 1;
        }
        proof {
            assert(number@.take(4) =~= number@);
            assert(head =~= seq![first_byte] + packet_data@.subrange(1, pn_offset as int));
            assert(packet_data@.subrange(pn_offset + 4, packet_data@.len() as int)
                =~= packet_data@.skip(pn_offset + 4));
            assert(number@.subrange(0, 4) =~= number@);
        }
        let packet_number: u64 = read_number(&number, 0, 4);
        let len: usize = packet_data.len();
        let ciphertext: Vec<u8> = slice_to_vec(slice_subrange(packet_data, pn_offset + 4, len));
        TlsOpening { packet_number, aad, ciphertext }
    }

    /// The packet that the TLS layer encrypted, and the sample for its header protection
    pub fn tls_protection(header: &[u8], ciphertext: &[u8]) -> (r: Result<TlsProtection, Error>)
        requires
            header@.len() + ciphertext@.len() + 1024 <= usize::MAX,
        ensures
            ({
                let packet = header@ + ciphertext@;
                match pn_offset_of(header@) {
                    Err(e) => r == Err::<TlsProtection, Error>(e),
                    Ok(o) => if packet.len() < o + 20 {
                        r == Err::<TlsProtection, Error>(
                            Error::Crypto(Reason::Text("Packet too short for header protection")),
                        )
                    } else {
                        r is Ok && r->Ok_0.packet@ == packet && r->Ok_0.pn_offset == o
                            && r->Ok_0.sample@ == packet.subrange(o + 4, o + 20)
                    },
                }
            }),
    {
        let pn_offset: usize = get_pn_offset(header)?;
        let mut packet: Vec<u8> = slice_to_vec(header);
        packet.extend_from_slice(ciphertext);
        assert(packet@ =~= header@ + ciphertext@);
        if packet.len() < pn_offset + 4 + SAMPLE_LEN {
            return Err(Error::Crypto(Reason::Text("Packet too short for header protection")));
        }
        let sample: Vec<u8> = slice_to_vec(
            slice_subrange(&packet, pn_offset + 4, pn_offset + 4 + SAMPLE_LEN),
        );
        Ok(TlsProtection { packet, pn_offset, sample })
    }

    /// Check if handshake is complete. A client must have sent its Finished message, which
    /// goes into a Handshake packet
    pub fn handshake_complete(&self, handshaking: bool) -> (r: bool)
        ensures
            r == (!handshaking && (self.role == ConnectionRole::Client ==> self.handshake_send_count
                > 0)),
    {
        let is_complete: bool = !handshaking;
        match self.role {
            ConnectionRole::Client => is_complete && self.handshake_send_count > 0,
            ConnectionRole::Server => is_complete,
        }
    }

    /// Get handshake data to send that is pending. Where there is none, the TLS layer is to
    /// be asked
    pub fn get_handshake_data(&mut self) -> (r: Option<Vec<u8>>)
        ensures
            old(self).pending_handshake_data@.len() == 0 ==> r is None && *final(self) == *old(
                self,
            ),
            old(self).pending_handshake_data@.len() > 0 ==> {
                &&& r is Some && r->Some_0 == old(self).pending_handshake_data
                &&& final(self).pending_handshake_data@ == Seq::<u8>::empty()
                &&& *final(self) == (CryptoManager {
                    pending_handshake_data: final(self).pending_handshake_data,
                    ..*old(self)
                })
            },
    {
        if self.pending_handshake_data.len() == 0 {
            return None;
        }
        let mut data: Vec<u8> = Vec::new();
        std::mem::swap(&mut data, &mut self.pending_handshake_data);
        Some(data)
    }

    /// Takes in what the TLS layer wrote when it was asked for handshake data
    pub fn on_handshake_data(&mut self, data: Vec<u8>, key_changes: Vec<KeyChange<D>>) -> (r:
        Option<Vec<u8>>)
        requires
            old(self).wf(),
        ensures
            final(self).wf(),
            old(self).keys_installed(key_changes@, *final(self)),
            data@.len() == 0 ==> r is None,
            data@.len() > 0 ==> r == Some(data),
    {
        self.install_key_changes(key_changes);
        if data.len() == 0 {
            None
        } else {
            Some(data)
        }
    }

    /// Start the handshake process and return initial handshake data: the ClientHello that
    /// the TLS layer wrote. A server waits for it
    pub fn start_handshake(&mut self, hello: Vec<u8>, key_changes: Vec<KeyChange<D>>) -> (r: Result<
        Vec<u8>,
        Error,
    >)
        requires
            old(self).wf(),
        ensures
            final(self).wf(),
            old(self).role == ConnectionRole::Server ==> r is Ok && r->Ok_0@ == Seq::<u8>::empty()
                && *final(self) == *old(self),
            old(self).role == ConnectionRole::Client ==> {
                &&& old(self).keys_installed(key_changes@, *final(self))
                &&& hello@.len() == 0 ==> r == Err::<Vec<u8>, Error>(
                    Error::Tls(Reason::Text("No handshake data generated")),
                )
                &&& hello@.len() > 0 ==> r == Ok::<Vec<u8>, Error>(hello)
            },
    {
        match self.role {
            ConnectionRole::Client => {
                self.install_key_changes(key_changes);
                if hello.len() == 0 {
                    Err(Error::Tls(Reason::Text("No handshake data generated")))
                } else {
                    Ok(hello)
                }
            },
            ConnectionRole::Server => Ok(Vec::new()),
        }
    }

    /// The frames that carry handshake data
    pub fn take_crypto_frames(handshake_data: Option<Vec<u8>>) -> (r: Vec<Frame>)
        ensures
            views(r@) == match handshake_data {
                Some(d) => seq![FrameView::Crypto { offset: 0, data: d@ }],
                None => Seq::<FrameView>::empty(),
            },
    {
        let mut frames: Vec<Frame> = Vec::new();
        if let Some(data) = handshake_data {
            frames.push(Frame::Crypto { offset: 0, data: bytes_from_vec(data) });
            assert(views(frames@) =~= seq![FrameView::Crypto { offset: 0, data: data@ }]);
        } else {
            assert(views(frames@) =~= Seq::<FrameView>::empty());
        }
        frames
    }

    /// Get session information for resumption, of which there is none
    pub fn session_info(&self) -> (r: Option<Vec<u8>>)
        ensures
            r is None,
    {
        None
    }

    /// Get cipher suite
    pub fn cipher_suite(&self) -> (r: CipherSuite)
        ensures
            r == CipherSuite::Aes128Gcm,
    {
        CipherSuite::Aes128Gcm
    }

    /// Get next packet number
    pub fn next_packet_number(&self) -> (r: u64)
        ensures
            r == self.highest_sent_pn,
    {
        self.highest_sent_pn
    }

    /// Get encryption overhead for a packet type: Retry packets are not encrypted
    pub fn encryption_overhead(&self, packet_type: PacketType) -> (r: usize)
        ensures
            r == (if packet_type == PacketType::Retry {
                0int
            } else {
                16
            }),
    {
        match packet_type {
            PacketType::Retry => 0,
            _ => 16,
        }
    }

    /// Validate the structure of a packet of a given type
    pub fn validate_packet_auth(&self, packet_data: &[u8], packet_type: PacketType) -> (r: Result<
        (),
        Error,
    >)
        ensures
            r == (if packet_data@.len() == 0 {
                Err::<(), Error>(Error::Crypto(Reason::Text("Empty packet")))
            } else if (packet_type != PacketType::OneRtt) != (packet_data@[0] & 0x80 != 0) {
                Err(Error::Crypto(Reason::Text("Packet type mismatch")))
            } else if packet_data@.len() < (if packet_type == PacketType::Initial {
                1200int
            } else {
                20
            }) {
                Err(
                    Error::Crypto(
                        Reason::PacketTooSmall {
                            size: packet_data@.len() as usize,
                            minimum: if packet_type == PacketType::Initial {
                                1200
                            } else {
                                20
                            },
                        },
                    ),
                )
            } else {
                Ok(())
            }),
    {
        if packet_data.len() == 0 {
            return Err(Error::Crypto(Reason::Text("Empty packet")));
        }
        let first_byte: u8 = packet_data[0];
        let expected_long_header: bool = !matches!(packet_type, PacketType::OneRtt);
        let actual_long_header: bool = (first_byte & 0x80) != 0;
        if expected_long_header != actual_long_header {
            return Err(Error::Crypto(Reason::Text("Packet type mismatch")));
        }
        let min_size: usize = match packet_type {
            PacketType::Initial => 1200,
            _ => 20,
        };
        if packet_data.len() < min_size {
            return Err(
                Error::Crypto(
                    Reason::PacketTooSmall { size: packet_data.len(), minimum: min_size },
                ),
            );
        }
        Ok(())
    }

    /// Parse header for decryption: a header in its place, the length of the header, and where
    /// and how long the packet number is
    pub fn parse_header_for_decryption(&self, packet_data: &[u8]) -> (r: Result<
        (PacketHeader, usize, usize, usize),
        Error,
    >)
        requires
            packet_data@.len() + 1024 <= usize::MAX,
        ensures
            if packet_data@.len() == 0 {
                r == Err::<(PacketHeader, usize, usize, usize), Error>(
                    Error::Crypto(Reason::Text("Empty packet")),
                )
            } else if packet_data@[0] & 0x80 != 0 {
                match pn_offset_of(packet_data@) {
                    Err(e) => r == Err::<(PacketHeader, usize, usize, usize), Error>(e),
                    Ok(o) => if self.local_cid is None {
                        r == Err::<(PacketHeader, usize, usize, usize), Error>(
                            Error::Crypto(Reason::Text("Local connection ID not set")),
                        )
                    } else if self.remote_cid is None {
                        r == Err::<(PacketHeader, usize, usize, usize), Error>(
                            Error::Crypto(Reason::Text("Remote connection ID not set")),
                        )
                    } else {
                        let n = stated_number_len(packet_data@[0]);
                        r is Ok && r->Ok_0.0@ == PacketHeaderView::Long(
                            LongHeaderView {
                                packet_type: PacketType::Initial,
                                version: 1,
                                dst_cid: self.local_cid->Some_0@,
                                src_cid: self.remote_cid->Some_0@,
                                type_specific: TypeSpecificView::Initial {
                                    token: Seq::empty(),
                                    length: 0,
                                    packet_number: 0,
                                },
                            },
                        ) && r->Ok_0.1 == o + n && r->Ok_0.2 == o && r->Ok_0.3 == n
                    },
                }
            } else if self.remote_cid is None {
                r == Err::<(PacketHeader, usize, usize, usize), Error>(
                    Error::Crypto(Reason::Text("Remote connection ID not set")),
                )
            } else {
                r is Ok && r->Ok_0.0@ == PacketHeaderView::Short(
                    ShortHeaderView {
                        spin_bit: false,
                        key_phase: false,
                        dst_cid: self.remote_cid->Some_0@,
                        packet_number: 0,
                    },
                ) && r->Ok_0.1 == 13 && r->Ok_0.2 == 9 && r->Ok_0.3 == 4
            },
    {
        if packet_data.len() == 0 {
            return Err(Error::Crypto(Reason::Text("Empty packet")));
        }
        let first_byte: u8 = packet_data[0];
        if (first_byte & 0x80) != 0 {
            let pn_offset: usize = get_pn_offset(packet_data)?;
            assert((first_byte & 0x03) <= 3) by (bit_vector);
            let pn_length: usize = (first_byte & 0x03) as usize + 1;
            let dst_cid: ConnectionId = self.local_cid()?;
            let src_cid: ConnectionId = self.remote_cid()?;
            let header: PacketHeader = PacketHeader::Long(
                LongHeader::new(
                    PacketType::Initial,
                    0x0000_0001,
                    dst_cid,
                    src_cid,
                    TypeSpecificData::Initial {
                        token: Bytes::new(),
                        length: VarInt::from_u32(0),
                        packet_number: 0,
                    },
                ),
            );
            Ok((header, pn_offset + pn_length, pn_offset, pn_length))
        } else {
            let header: PacketHeader = PacketHeader::Short(
                ShortHeader::new(false, false, self.remote_cid()?, 0),
            );
            Ok((header, 13, 9, 4))
        }
    }

    /// Get packet number offset within a header with connection IDs of typical length
    pub fn get_packet_number_offset(&self, first_byte: u8) -> (r: Result<usize, Error>)
        ensures
            r == Ok::<usize, Error>(
                if first_byte & 0x80 != 0 {
                    17
                } else {
                    9
                },
            ),
    {
        if (first_byte & 0x80) != 0 {
            Ok(17)
        } else {
            Ok(9)
        }
    }

    /// Compute nonce from IV and packet number
    pub fn compute_nonce(iv: &[u8; 12], pn: u64) -> (r: [u8; 12])
        ensures
            r@ == nonce_of(iv@, pn),
    {
        packet_nonce(iv, pn)
    }

    /// Calculate Retry Integrity Tag (RFC 9001 Section 5.8): what sealing nothing gives, with
    /// the Retry pseudo-packet as associated data
    pub fn calculate_retry_integrity_tag(retry_pseudo_packet: &[u8]) -> (r: Result<
        [u8; 16],
        Error,
    >)
        ensures
            match r {
                Ok(tag) => tag@ == aead_sealed(
                    CipherSuite::Aes128Gcm.id(),
                    RETRY_KEY@,
                    RETRY_NONCE@,
                    retry_pseudo_packet@,
                    Seq::empty(),
                ),
                Err(e) => retry_pseudo_packet@.len() > MAX_SEAL_LEN && e == Error::Crypto(Reason::Text("Failed to calculate retry tag")),
            },
    {
        let nothing: Vec<u8> = Vec::new();
        assert(nothing@ =~= Seq::<u8>::empty());
        match aead_seal(
            CipherSuite::Aes128Gcm,
            &RETRY_KEY,
            &RETRY_NONCE,
            retry_pseudo_packet,
            &nothing,
        ) {
            Err(_) => Err(Error::Crypto(Reason::Text("Failed to calculate retry tag"))),
            Ok(t) => {
                let tag: [u8; 16] = [
                    t[0],
                    t[1],
                    t[2],
                    t[3],
                    t[4],
                    t[5],
                    t[6],
                    t[7],
                    t[8],
                    t[9],
                    t[10],
                    t[11],
                    t[12],
                    t[13],
                    t[14],
                    t[15],
                ];
                assert(tag@ =~= t@);
                Ok(tag)
            },
        }
    }

    /// Whether the connection IDs have the lengths that headers can state: a long header
    /// has one byte for a length, and a short header holds eight bytes without a length.
    pub open spec fn cids_fit(self, packet_type: PacketType) -> bool {
        &&& self.local_cid matches Some(c) ==> c@.len() <= 255
        &&& self.remote_cid matches Some(c) ==> c@.len() <= 255 && (packet_type
            == PacketType::OneRtt ==> c@.len() == 8)
    }

    /// How many bytes the connection IDs take up.
    pub open spec fn cid_bytes(self) -> int {
        let local = match self.local_cid {
            Some(c) => c@.len() as int,
            None => 0,
        };
        let remote = match self.remote_cid {
            Some(c) => c@.len() as int,
            None => 0,
        };
        local + remote
    }

    /// A header that is made for sending can be encoded, states the type of its packet, and
    /// ends with the packet number.
    proof fn lemma_header_for(self, packet_type: PacketType, pn: u64, payload_len: int)
        ensures
            self.header_for(packet_type, pn, payload_len) matches Ok(h) ==> {
                &&& h.encodable()
                &&& 0 < h.bytes().len() <= self.cid_bytes() + 64
                &&& stated_type(h.bytes()[0]) == packet_type
                &&& self.cids_fit(packet_type) ==> h.bytes().len() <= 600 && pn_offset_of(h.bytes())
                    == Ok::<int, Error>(h.bytes().len() - 4)
                &&& pn < 0x1_0000_0000 && self.cids_fit(packet_type) ==> header_ready(
                    h.bytes(),
                    pn,
                )
            },
    {
        if self.header_for(packet_type, pn, payload_len) is Ok {
            let h = self.header_for(packet_type, pn, payload_len)->Ok_0;
            match h {
                PacketHeaderView::Long(l) => {
                    lemma_long_header_ready(l, pn);
                },
                PacketHeaderView::Short(v) => {
                    lemma_short_header_ready(v, pn);
                },
            }
        }
    }
}

/// A short header with a connection ID of eight bytes ends with the packet number.
proof fn lemma_short_header_ready(h: ShortHeaderView, pn: u64)
    ensures
        h.bytes().len() == h.dst_cid.len() + 5,
        stated_type(h.bytes()[0]) == PacketType::OneRtt,
        pn_offset_of(h.bytes()) == Ok::<int, Error>(9),
        h.dst_cid.len() == 8 && h.packet_number == pn ==> header_ready(h.bytes(), pn),
{
    let b = h.bytes();
    lemma_be_roundtrip(h.packet_number as nat, 4);
    assert(pow256(4) == 0x1_0000_0000) by {
        reveal_with_fuel(pow256, 5);
    }
    assert(b.skip(1 + h.dst_cid.len() as int) =~= be_bytes(h.packet_number as nat, 4));
    let first = b[0];
    assert(first == 0x43 || first == 0x63 || first == 0x47 || first == 0x67);
    assert(first & 0x80 == 0 && first & 0x03 == 3) by (bit_vector)
        requires
            first == 0x43 || first == 0x63 || first == 0x47 || first == 0x67,
    ;
}

/// A long header that is made for sending states its type and ends with the packet number.
#[verifier::spinoff_prover]
#[verifier::rlimit(50)]
proof fn lemma_long_header_ready(h: LongHeaderView, pn: u64)
    requires
        h.packet_type == h.type_specific.packet_type(),
        h.type_specific !is Retry,
        h.type_specific matches TypeSpecificView::Initial { token, .. } ==> token.len() == 0,
        match h.type_specific {
            TypeSpecificView::Initial { length, .. } => length <= MAX_VARINT,
            TypeSpecificView::ZeroRtt { length, .. } => length <= MAX_VARINT,
            TypeSpecificView::Handshake { length, .. } => length <= MAX_VARINT,
            TypeSpecificView::Retry { .. } => true,
        },
    ensures
        0 < h.bytes().len() <= h.dst_cid.len() + h.src_cid.len() + 64,
        stated_type(h.bytes()[0]) == h.packet_type,
        h.dst_cid.len() <= 255 && h.src_cid.len() <= 255 ==> pn_offset_of(h.bytes()) == Ok::<
            int,
            Error,
        >(h.bytes().len() - 4),
        h.dst_cid.len() <= 255 && h.src_cid.len() <= 255 && (match h.type_specific {
            TypeSpecificView::Initial { packet_number, .. } => packet_number == pn,
            TypeSpecificView::ZeroRtt { packet_number, .. } => packet_number == pn,
            TypeSpecificView::Handshake { packet_number, .. } => packet_number == pn,
            TypeSpecificView::Retry { .. } => false,
        }) ==> header_ready(h.bytes(), pn),
{
    let b = h.bytes();
    let d = h.dst_cid.len() as int;
    let c = h.src_cid.len() as int;
    let (length, number) = match h.type_specific {
        TypeSpecificView::Initial { length, packet_number, .. } => (length, packet_number),
        TypeSpecificView::ZeroRtt { length, packet_number } => (length, packet_number),
        TypeSpecificView::Handshake { length, packet_number } => (length, packet_number),
        TypeSpecificView::Retry { .. } => (0u64, 0u32),
    };
    let first = b[0];
    assert(first == long_first_byte(h.packet_type));
    assert(first & 0x80 != 0 && first & 0x03 == 3 && (first & 0x30) >> 4 == (if first == 0xc3 {
        0u8
    } else if first == 0xd3 {
        1u8
    } else {
        2u8
    })) by (bit_vector)
        requires
            first == 0xc3 || first == 0xd3 || first == 0xe3,
    ;
    lemma_be_roundtrip(h.version as nat, 4);
    lemma_be_roundtrip(number as nat, 4);
    assert(pow256(4) == 0x1_0000_0000) by {
        reveal_with_fuel(pow256, 5);
    }
    let end = be_bytes(number as nat, 4);
    let len_bytes = varint_bytes(length as nat);
    lemma_varint_roundtrip(length, end);
    lemma_varint_roundtrip(0, len_bytes + end);
    let o2 = 7 + d + c;
    let ts = h.type_specific.bytes();
    assert(b.skip(o2) =~= ts);
    assert(b[o2] == ts[0]) by {
        assert(b.skip(o2)[0] == b[o2]);
    }
    if h.type_specific is Initial {
        assert(ts =~= varint_bytes(0) + (len_bytes + end));
        assert(varint_bytes(0).len() == 1);
        assert(b[o2 + 1] == len_bytes[0]) by {
            assert(b.skip(o2)[1] == b[o2 + 1]);
        }
    } else {
        assert(ts =~= len_bytes + end);
    }
    if d <= 255 && c <= 255 {
        assert(b[5] == d as u8);
        assert(b[6 + d] == c as u8);
        assert(b.skip(b.len() - 4) =~= end);
    }
}

/// Whether two sets of keys hold the same bytes.
pub open spec fn same_keys(a: PacketKeys, b: PacketKeys) -> bool {
    &&& a.suite == b.suite
    &&& a.key@ == b.key@
    &&& a.iv@ == b.iv@
    &&& a.header_key.key@ == b.header_key.key@
}

/// Where a client and a server derive Initial keys from the same connection ID, each side
/// receives with the keys that the other sends with.
pub proof fn initial_keys_agree<C, S>(
    client: CryptoManager<C>,
    server: CryptoManager<S>,
    client_dst_cid: Seq<u8>,
)
    requires
        client.role == ConnectionRole::Client,
        server.role == ConnectionRole::Server,
        client.has_initial_keys(client_dst_cid),
        server.has_initial_keys(client_dst_cid),
    ensures
        same_keys(client.initial_send_keys->Some_0, server.initial_recv_keys->Some_0),
        same_keys(server.initial_send_keys->Some_0, client.initial_recv_keys->Some_0),
{
}

/// A receiver that holds the keys with which a packet was sealed gets back its packet number,
/// its frames in their order, and the padding as one PADDING frame. `packet` is what
/// [`CryptoManager::encrypt_packet`] makes of the frames.
pub proof fn packet_roundtrip<D>(
    receiver: CryptoManager<D>,
    sent_with: PacketKeys,
    received_with: PacketKeys,
    packet_type: PacketType,
    frames: Seq<FrameView>,
    packet_number: u64,
    packet: Seq<u8>,
)
    requires
        packet.len() > 0,
        stated_type(packet[0]) == packet_type,
        opened_packet(sent_with, packet) == Ok::<(u64, Seq<u8>), Error>(
            (packet_number, packet_payload(packet_type, frames)),
        ),
        receiver.keys_for(packet_type, false) == Ok::<KeyChoice<D>, Error>(
            KeyChoice::Ring(received_with),
        ),
        same_keys(sent_with, received_with),
        readable(frames, pad_len(packet_type, frames_bytes(frames).len())),
    ensures
        receiver.decrypted(packet) == Ok::<(u64, Seq<FrameView>, Seq<u8>), Error>(
            (
                packet_number,
                read_back(frames, pad_len(packet_type, frames_bytes(frames).len()), true),
                packet_payload(packet_type, frames),
            ),
        ),
{
    payload_roundtrip(frames, pad_len(packet_type, frames_bytes(frames).len()), true);
    assert(opened_packet(received_with, packet) == opened_packet(sent_with, packet));
}

/// Whether `r` is what sealing a packet with these keys gives.
pub open spec fn sealed_as(
    keys: PacketKeys,
    header: Seq<u8>,
    payload: Seq<u8>,
    pn: u64,
    r: Result<Encrypted, Error>,
) -> bool {
    let packet = header + keys.sealed(pn, header, payload);
    match r {
        Ok(Encrypted::Packet(b)) => protected_packet(
            keys.header_key.key@,
            packet,
            header.len() as int,
        ) == Ok::<Seq<u8>, Error>(contents(b)),
        Ok(_) => false,
        Err(e) => protected_packet(keys.header_key.key@, packet, header.len() as int) == Err::<
            Seq<u8>,
            Error,
        >(e) || ((payload.len() > MAX_SEAL_LEN || header.len() > MAX_SEAL_LEN) && e
            == Error::Crypto(Reason::Text("AEAD encryption failed"))),
    }
}

} // verus!
