//! Packet protection with keys by protection level, for QUIC version 1 and version 2.
//!
//! The TLS handshake itself runs outside. The caller feeds it the handshake data that is
//! ready, and reports the key changes.

use crate::aead::{
    aead_open, aead_opened, aead_seal, aead_sealed, hkdf, hkdf_expand, hkdf_expand_sha256,
    hkdf_sha256, nonce_of, packet_nonce, CipherSuite, MAX_HKDF_LEN, MAX_SEAL_LEN,
};
use crate::buffer::{bytes_from_vec, contents, written};
use crate::connection::ConnectionRole;
use crate::error::{Error, Reason};
use crate::frame_types::{Frame, FrameView};
use crate::key_derivation::{
    build_hkdf_info, hkdf_info, CLIENT_IN, QUIC_HP, QUIC_IV, QUIC_KEY, SERVER_IN, TLS_LABEL,
};
use crate::packet::{
    ConnectionId, LongHeader, LongHeaderView, PacketHeader, PacketHeaderView, PacketType,
    ShortHeader, ShortHeaderView, TypeSpecificData, TypeSpecificView,
};
use crate::payload::{
    all_encodable, decode_frames, encode_frames, encode_padding, frames_bytes, padding,
    parse_frames, views,
};
use crate::protection::{packet_type_from_byte, stated_type};
use crate::reassembly::{contents_of, CryptoStream, CryptoStreamView};
use crate::varint::VarInt;
use bytes::{Bytes, BytesMut};
use vstd::prelude::*;
use vstd::slice::slice_subrange;

pub use crate::crypto_impl::DecryptedPacket;

verus! {

/// QUIC version 1 salt for initial packet protection (RFC 9001 Section 5.2)
pub const INITIAL_SALT_V1: [u8; 20] = [
    0x38, 0x76, 0x2c, 0xf7, 0xf5, 0x59, 0x34, 0xb3, 0x4d, 0x17, 0x9a, 0xe6, 0xa4, 0xc8, 0x0c, 0xad,
    0xcc, 0xbb, 0x7f, 0x0a,
];

/// QUIC version 2 salt for initial packet protection
pub const INITIAL_SALT_V2: [u8; 20] = [
    0x0d, 0xed, 0xe3, 0xde, 0xf7, 0x00, 0xa6, 0xdb, 0x81, 0x93, 0x81, 0xbe, 0x6e, 0x26, 0x9d, 0xcb,
    0xf9, 0xbd, 0x2e, 0xd9,
];

/// QUIC version 2
pub const VERSION_2: u32 = 0x6b33_43cf;

/// Packet protection level
#[derive(Debug, Clone, Copy, PartialEq, Eq, Hash, PartialOrd, Ord, Structural)]
pub enum ProtectionLevel {
    /// Initial packet protection
    Initial,
    /// Handshake packet protection
    Handshake,
    /// Application data packet protection (1-RTT)
    Application,
}

/// Algorithm for header protection
#[derive(Debug, Clone, Copy, PartialEq, Eq, Structural)]
pub enum HeaderProtectionAlgorithm {
    Aes128,
    Aes256,
    ChaCha20,
}

/// Header protection key
#[derive(Debug)]
pub struct HeaderProtectionKey {
    algorithm: HeaderProtectionAlgorithm,
    key: Vec<u8>,
}

impl HeaderProtectionKey {
    /// The protection algorithm.
    pub closed spec fn spec_algorithm(self) -> HeaderProtectionAlgorithm {
        self.algorithm
    }

    /// The bytes of the key.
    pub closed spec fn bytes(self) -> Seq<u8> {
        self.key@
    }

    /// Create a key for an algorithm
    pub fn new(algorithm: HeaderProtectionAlgorithm, key: Vec<u8>) -> (r: HeaderProtectionKey)
        ensures
            r.spec_algorithm() == algorithm,
            r.bytes() == key@,
    {
        HeaderProtectionKey { algorithm, key }
    }

    /// Get the protection algorithm
    pub fn algorithm(&self) -> (r: HeaderProtectionAlgorithm)
        ensures
            r == self.spec_algorithm(),
    {
        self.algorithm
    }

    /// Get the protection key
    pub fn key(&self) -> (r: &[u8])
        ensures
            r@ == self.bytes(),
    {
        &self.key
    }

    /// Get key length based on algorithm
    pub fn key_len(&self) -> (r: usize)
        ensures
            r == self.bytes().len(),
    {
        self.key.len()
    }

    /// Generate header protection mask: the sample under the repeated key
    pub fn mask(&self, sample: &[u8]) -> (r: Result<[u8; 5], Error>)
        requires
            sample@.len() >= 16 ==> self.bytes().len() > 0,
        ensures
            sample@.len() < 16 ==> r == Err::<[u8; 5], Error>(
                Error::Crypto(Reason::Text("Sample too short")),
            ),
            sample@.len() >= 16 ==> r is Ok && forall|i: int|
                0 <= i < 5 ==> #[trigger] r->Ok_0@[i] == sample@[i] ^ self.bytes()[i
                    % (self.bytes().len() as int)],
    {
        if sample.len() < 16 {
            return Err(Error::Crypto(Reason::Text("Sample too short")));
        }
        let mut mask: [u8; 5] = [0u8; 5];
        let mut i: usize = 0;
        while i < 5
            invariant
                i <= 5,
                sample@.len() >= 16,
                self.bytes().len() > 0,
                forall|j: int|
                    0 <= j < i ==> #[trigger] mask@[j] == sample@[j] ^ self.bytes()[j
                        % (self.bytes().len() as int)],
            decreases 5 - i,
        {
            mask[i] = sample[i] ^ self.key[i % self.key.len()];
            i += 1;
        }
        Ok(mask)
    }
}

/// Directional keys for packet protection
#[derive(Debug)]
pub struct DirectionalKeys {
    /// Cipher suite of the AEAD key
    pub suite: CipherSuite,
    /// AEAD key for packet protection
    pub packet: Vec<u8>,
    /// Key for header protection
    pub header: HeaderProtectionKey,
    /// IV for nonce construction
    pub iv: [u8; 12],
}

impl DirectionalKeys {
    /// Whether the keys have the lengths that their use needs.
    pub open spec fn wf(self) -> bool {
        &&& self.packet@.len() == self.suite.key_bytes()
        &&& self.header.bytes().len() > 0
    }
}

/// Complete set of keys for packet protection at a given level
#[derive(Debug)]
pub struct PacketKeys {
    /// Local packet protection key (for sending)
    pub local: DirectionalKeys,
    /// Remote packet protection key (for receiving)
    pub remote: DirectionalKeys,
}

impl PacketKeys {
    /// Whether the keys of both directions can be used.
    pub open spec fn wf(self) -> bool {
        self.local.wf() && self.remote.wf()
    }
}

/// One value for each protection level that has one.
#[derive(Debug)]
pub struct ByLevel<T> {
    initial: Option<T>,
    handshake: Option<T>,
    application: Option<T>,
}

impl<T> View for ByLevel<T> {
    type V = Map<ProtectionLevel, T>;

    closed spec fn view(&self) -> Map<ProtectionLevel, T> {
        Map::new(
            |l: ProtectionLevel| self.slot(l) is Some,
            |l: ProtectionLevel| self.slot(l)->Some_0,
        )
    }
}

impl<T> ByLevel<T> {
    /// What is kept for a level.
    closed spec fn slot(self, level: ProtectionLevel) -> Option<T> {
        match level {
            ProtectionLevel::Initial => self.initial,
            ProtectionLevel::Handshake => self.handshake,
            ProtectionLevel::Application => self.application,
        }
    }

    /// No value for any level
    pub fn new() -> (r: ByLevel<T>)
        ensures
            r@ == Map::<ProtectionLevel, T>::empty(),
    {
        let r: ByLevel<T> = ByLevel { initial: None, handshake: None, application: None };
        assert(r@ =~= Map::<ProtectionLevel, T>::empty());
        r
    }

    /// Whether there is a value for a level
    pub fn contains_key(&self, level: &ProtectionLevel) -> (r: bool)
        ensures
            r == self@.dom().contains(*level),
    {
        self.get(level).is_some()
    }

    /// The value for a level
    pub fn get(&self, level: &ProtectionLevel) -> (r: Option<&T>)
        ensures
            self@.dom().contains(*level) ==> r is Some && *r->Some_0 == self@[*level],
            !self@.dom().contains(*level) ==> r is None,
    {
        let slot: &Option<T> = match level {
            ProtectionLevel::Initial => &self.initial,
            ProtectionLevel::Handshake => &self.handshake,
            ProtectionLevel::Application => &self.application,
        };
        match slot {
            Some(v) => Some(v),
            None => None,
        }
    }

    /// Sets the value for a level
    pub fn insert(&mut self, level: ProtectionLevel, value: T)
        ensures
            final(self)@ == old(self)@.insert(level, value),
    {
        match level {
            ProtectionLevel::Initial => {
                self.initial = Some(value);
            },
            ProtectionLevel::Handshake => {
                self.handshake = Some(value);
            },
            ProtectionLevel::Application => {
                self.application = Some(value);
            },
        }
        assert(self@ =~= old(self)@.insert(level, value));
    }

    /// Takes the value for a level out
    pub fn remove(&mut self, level: &ProtectionLevel) -> (r: Option<T>)
        ensures
            final(self)@ == old(self)@.remove(*level),
            old(self)@.dom().contains(*level) ==> r == Some(old(self)@[*level]),
            !old(self)@.dom().contains(*level) ==> r is None,
    {
        let r: Option<T> = match level {
            ProtectionLevel::Initial => self.initial.take(),
            ProtectionLevel::Handshake => self.handshake.take(),
            ProtectionLevel::Application => self.application.take(),
        };
        assert(self@ =~= old(self)@.remove(*level));
        r
    }
}

/// Header protection algorithm of a cipher suite.
pub open spec fn spec_hp_algorithm(suite: CipherSuite) -> HeaderProtectionAlgorithm {
    match suite {
        CipherSuite::Aes128Gcm => HeaderProtectionAlgorithm::Aes128,
        CipherSuite::Aes256Gcm => HeaderProtectionAlgorithm::Aes256,
        CipherSuite::ChaCha20Poly1305 => HeaderProtectionAlgorithm::ChaCha20,
    }
}

/// Header protection algorithm of a cipher suite
pub fn hp_algorithm(suite: CipherSuite) -> (r: HeaderProtectionAlgorithm)
    ensures
        r == spec_hp_algorithm(suite),
{
    match suite {
        CipherSuite::Aes128Gcm => HeaderProtectionAlgorithm::Aes128,
        CipherSuite::Aes256Gcm => HeaderProtectionAlgorithm::Aes256,
        CipherSuite::ChaCha20Poly1305 => HeaderProtectionAlgorithm::ChaCha20,
    }
}

/// Select cipher suite based on security requirements. Initial packets always use
/// AES-128-GCM per RFC 9001
pub fn select_for_level(level: ProtectionLevel) -> (r: CipherSuite)
    ensures
        r == match level {
            ProtectionLevel::Initial => CipherSuite::Aes128Gcm,
            ProtectionLevel::Handshake => CipherSuite::Aes256Gcm,
            ProtectionLevel::Application => CipherSuite::ChaCha20Poly1305,
        },
{
    match level {
        ProtectionLevel::Initial => CipherSuite::Aes128Gcm,
        ProtectionLevel::Handshake => CipherSuite::Aes256Gcm,
        ProtectionLevel::Application => CipherSuite::ChaCha20Poly1305,
    }
}

/// What HKDF-Expand-Label (RFC 8446) gives for a secret, a label and a context.
pub open spec fn expanded_label(
    secret: Seq<u8>,
    label: Seq<u8>,
    context: Seq<u8>,
    length: nat,
) -> Seq<u8> {
    hkdf_expand_sha256(secret, hkdf_info(TLS_LABEL@, label, context, length), length)
}

/// HKDF-Expand-Label from RFC 8446
pub fn hkdf_expand_label(secret: &[u8], label: &[u8], context: &[u8], length: usize) -> (r: Result<
    Vec<u8>,
    Error,
>)
    ensures
        length <= MAX_HKDF_LEN ==> r is Ok && r->Ok_0@ == expanded_label(
            secret@,
            label@,
            context@,
            length as nat,
        ) && r->Ok_0@.len() == length,
        length > MAX_HKDF_LEN ==> r == Err::<Vec<u8>, Error>(
            Error::Crypto(Reason::Text("HKDF expand failed")),
        ),
{
    let info: Vec<u8> = build_hkdf_info(label, context, length);
    match hkdf_expand(secret, &info, length) {
        Ok(output) => Ok(output),
        Err(_) => Err(Error::Crypto(Reason::Text("HKDF expand failed"))),
    }
}

/// Whether keys are those that a secret gives with HKDF-Expand-Label.
pub open spec fn derived_from(k: DirectionalKeys, secret: Seq<u8>, suite: CipherSuite) -> bool {
    let hp_len: nat = if suite == CipherSuite::ChaCha20Poly1305 {
        32
    } else {
        16
    };
    &&& k.suite == suite
    &&& k.packet@ == expanded_label(secret, QUIC_KEY@, Seq::empty(), suite.key_bytes())
    &&& k.iv@ == expanded_label(secret, QUIC_IV@, Seq::empty(), 12)
    &&& k.header.bytes() == expanded_label(secret, QUIC_HP@, Seq::empty(), hp_len)
    &&& k.header.spec_algorithm() == spec_hp_algorithm(suite)
}

/// Derive packet protection keys from a secret
pub fn derive_packet_keys(secret: &[u8], suite: CipherSuite) -> (r: Result<DirectionalKeys, Error>)
    ensures
        r is Ok,
        r->Ok_0.wf(),
        derived_from(r->Ok_0, secret@, suite),
{
    let context: Vec<u8> = Vec::new();
    assert(context@ =~= Seq::<u8>::empty());
    let key: Vec<u8> = hkdf_expand_label(secret, &QUIC_KEY, &context, suite.key_len())?;
    let v: Vec<u8> = hkdf_expand_label(secret, &QUIC_IV, &context, 12)?;
    let iv: [u8; 12] = [
        v[0], v[1], v[2], v[3], v[4], v[5], v[6], v[7], v[8], v[9], v[10], v[11],
    ];
    assert(iv@ =~= v@);
    let algorithm: HeaderProtectionAlgorithm = hp_algorithm(suite);
    let hp_key_len: usize = match algorithm {
        HeaderProtectionAlgorithm::ChaCha20 => 32,
        _ => 16,
    };
    let hp_key: Vec<u8> = hkdf_expand_label(secret, &QUIC_HP, &context, hp_key_len)?;
    Ok(
        DirectionalKeys {
            suite,
            packet: key,
            header: HeaderProtectionKey::new(algorithm, hp_key),
            iv,
        },
    )
}

/// Whether keys are all zero.
pub open spec fn all_zero(k: DirectionalKeys) -> bool {
    &&& k.suite == CipherSuite::Aes128Gcm
    &&& k.packet@ == Seq::new(16, |i: int| 0u8)
    &&& k.header.bytes() == Seq::new(16, |i: int| 0u8)
    &&& k.header.spec_algorithm() == HeaderProtectionAlgorithm::Aes128
    &&& k.iv@ == Seq::new(12, |i: int| 0u8)
}

/// Create dummy directional keys for testing
pub fn create_dummy_directional_keys() -> (r: DirectionalKeys)
    ensures
        r.wf(),
        all_zero(r),
{
    let packet: Vec<u8> = vec![0u8; 16];
    let key: Vec<u8> = vec![0u8; 16];
    let iv: [u8; 12] = [0u8; 12];
    proof {
        assert(packet@ =~= Seq::new(16, |i: int| 0u8));
        assert(key@ =~= Seq::new(16, |i: int| 0u8));
        assert(iv@ =~= Seq::new(12, |i: int| 0u8));
    }
    DirectionalKeys {
        suite: CipherSuite::Aes128Gcm,
        packet,
        header: HeaderProtectionKey::new(HeaderProtectionAlgorithm::Aes128, key),
        iv,
    }
}

/// The protection level of a packet type. Retry packets are not encrypted.
pub open spec fn level_of(packet_type: PacketType) -> ProtectionLevel {
    match packet_type {
        PacketType::Initial => ProtectionLevel::Initial,
        PacketType::Handshake => ProtectionLevel::Handshake,
        _ => ProtectionLevel::Application,
    }
}

/// Convert packet type to protection level
pub fn packet_type_to_protection_level(packet_type: PacketType) -> (r: ProtectionLevel)
    requires
        packet_type != PacketType::Retry,
    ensures
        r == level_of(packet_type),
{
    match packet_type {
        PacketType::Initial => ProtectionLevel::Initial,
        PacketType::Handshake => ProtectionLevel::Handshake,
        _ => ProtectionLevel::Application,
    }
}

/// Compute nonce from IV and packet number
pub fn compute_nonce(iv: &[u8; 12], pn: u64) -> (r: [u8; 12])
    ensures
        r@ == nonce_of(iv@, pn),
{
    packet_nonce(iv, pn)
}

/// The header of a packet to send. Its connection IDs are eight zero bytes.
pub open spec fn header_for(packet_type: PacketType, pn: u64, payload_len: int, version: u32)
    -> PacketHeaderView {
    let cid = Seq::new(8, |i: int| 0u8);
    let length = ((payload_len + 20) % 0x1_0000_0000) as u64;
    let packet_number = (pn % 0x1_0000_0000) as u32;
    match packet_type {
        PacketType::Initial => PacketHeaderView::Long(
            LongHeaderView {
                packet_type,
                version,
                dst_cid: cid,
                src_cid: cid,
                type_specific: TypeSpecificView::Initial {
                    token: Seq::empty(),
                    length,
                    packet_number,
                },
            },
        ),
        PacketType::Handshake => PacketHeaderView::Long(
            LongHeaderView {
                packet_type,
                version,
                dst_cid: cid,
                src_cid: cid,
                type_specific: TypeSpecificView::Handshake { length, packet_number },
            },
        ),
        _ => PacketHeaderView::Short(
            ShortHeaderView { spin_bit: false, key_phase: false, dst_cid: cid, packet_number },
        ),
    }
}

/// Create packet header
pub fn create_packet_header(packet_type: PacketType, pn: u64, payload_len: usize, version: u32)
    -> (r: PacketHeader)
    requires
        payload_len + 20 <= usize::MAX,
    ensures
        r@ == header_for(packet_type, pn, payload_len as int, version),
{
    let zeros: [u8; 8] = [0u8; 8];
    assert(zeros@ =~= Seq::new(8, |i: int| 0u8));
    let dcid: ConnectionId = ConnectionId::from_slice(&zeros);
    let packet_number: u32 = (pn % 0x1_0000_0000) as u32;
    let length: VarInt = VarInt::from_u32(((payload_len + 20) as u64 % 0x1_0000_0000) as u32);
    match packet_type {
        PacketType::Initial => PacketHeader::Long(
            LongHeader::new(
                packet_type,
                version,
                dcid,
                ConnectionId::from_slice(&zeros),
                TypeSpecificData::Initial { token: Bytes::new(), length, packet_number },
            ),
        ),
        PacketType::Handshake => PacketHeader::Long(
            LongHeader::new(
                packet_type,
                version,
                dcid,
                ConnectionId::from_slice(&zeros),
                TypeSpecificData::Handshake { length, packet_number },
            ),
        ),
        _ => PacketHeader::Short(ShortHeader::new(false, false, dcid, packet_number)),
    }
}

/// The payload of a packet: its frames, and padding up to 1200 bytes in an Initial packet.
pub open spec fn padded_payload(packet_type: PacketType, frames: Seq<FrameView>) -> Seq<u8> {
    let b = frames_bytes(frames);
    if packet_type == PacketType::Initial && b.len() < 1200 {
        b + padding((1200 - b.len()) as nat)
    } else {
        b
    }
}

/// Where the payload starts in a received packet.
pub const PAYLOAD_OFFSET: usize = 25;

/// Remove header protection: a stand-in for the header, where the payload starts, and the
/// packet number
pub fn remove_header_protection() -> (r: (PacketHeader, usize, u64))
    ensures
        r.0@ == PacketHeaderView::Long(
            LongHeaderView {
                packet_type: PacketType::Initial,
                version: 1,
                dst_cid: Seq::empty(),
                src_cid: Seq::empty(),
                type_specific: TypeSpecificView::Initial {
                    token: Seq::empty(),
                    length: 0,
                    packet_number: 0,
                },
            },
        ),
        r.1 == PAYLOAD_OFFSET,
        r.2 == 0,
{
    let header: PacketHeader = PacketHeader::Long(
        LongHeader::new(
            PacketType::Initial,
            0x0000_0001,
            ConnectionId::empty(),
            ConnectionId::empty(),
            TypeSpecificData::Initial {
                token: Bytes::new(),
                length: VarInt::from_u32(0),
                packet_number: 0,
            },
        ),
    );
    (header, PAYLOAD_OFFSET, 0)
}

/// Crypto manager with keys by protection level
pub struct CryptoManager {
    /// Connection role
    pub role: ConnectionRole,
    /// Packet protection keys by level
    pub keys: ByLevel<PacketKeys>,
    /// QUIC version
    pub version: u32,
    /// Crypto streams for each encryption level
    pub crypto_streams: ByLevel<CryptoStream>,
    /// Next packet number to send
    pub next_packet_number: u64,
}

/// The salt for Initial keys of a version: that of version 1 where the version is unknown.
pub open spec fn salt_of(version: u32) -> Seq<u8> {
    if version == VERSION_2 {
        INITIAL_SALT_V2@
    } else {
        INITIAL_SALT_V1@
    }
}

/// The initial secret of one side.
pub open spec fn initial_secret(version: u32, dcid: Seq<u8>, label: Seq<u8>) -> Seq<u8> {
    hkdf_sha256(salt_of(version), dcid, hkdf_info(TLS_LABEL@, label, Seq::empty(), 32), 32)
}

impl CryptoManager {
    /// What holds of every manager.
    pub open spec fn wf(self) -> bool {
        &&& forall|l: ProtectionLevel| #[trigger]
            self.keys@.dom().contains(l) ==> self.keys@[l].wf()
        &&& forall|l: ProtectionLevel| #[trigger]
            self.crypto_streams@.dom().contains(l) ==> self.crypto_streams@[l].wf()
    }

    /// Create a new crypto manager without keys
    pub fn new(role: ConnectionRole, version: u32) -> (r: CryptoManager)
        ensures
            r.wf(),
            r.role == role,
            r.version == version,
            r.keys@ == Map::<ProtectionLevel, PacketKeys>::empty(),
            r.crypto_streams@ == Map::<ProtectionLevel, CryptoStream>::empty(),
            r.next_packet_number == 0,
    {
        CryptoManager {
            role,
            keys: ByLevel::new(),
            version,
            crypto_streams: ByLevel::new(),
            next_packet_number: 0,
        }
    }

    /// Derives the initial secret of one side
    fn derive_secret(&self, dcid: &[u8], label: &[u8]) -> (r: Result<Vec<u8>, Error>)
        ensures
            r is Ok,
            r->Ok_0@ == initial_secret(self.version, dcid@, label@),
    {
        let salt: &[u8; 20] = if self.version == VERSION_2 {
            &INITIAL_SALT_V2
        } else {
            &INITIAL_SALT_V1
        };
        let context: Vec<u8> = Vec::new();
        assert(context@ =~= Seq::<u8>::empty());
        let info: Vec<u8> = build_hkdf_info(label, &context, 32);
        match hkdf(salt, dcid, &info, 32) {
            Ok(secret) => Ok(secret),
            Err(_) => Err(Error::Crypto(Reason::Text("HKDF expand failed"))),
        }
    }

    /// Initialize initial packet protection keys: a client sends with the client's keys and
    /// receives with the server's, a server the other way round
    pub fn init_initial_keys(&mut self, dcid: &[u8]) -> (r: Result<(), Error>)
        requires
            old(self).wf(),
        ensures
            r == Ok::<(), Error>(()),
            final(self).wf(),
            ({
                let client = initial_secret(old(self).version, dcid@, CLIENT_IN@);
                let server = initial_secret(old(self).version, dcid@, SERVER_IN@);
                let is_client = old(self).role == ConnectionRole::Client;
                let k = final(self).keys@[ProtectionLevel::Initial];
                &&& final(self).keys@ == old(self).keys@.insert(ProtectionLevel::Initial, k)
                &&& derived_from(
                    k.local,
                    if is_client {
                        client
                    } else {
                        server
                    },
                    CipherSuite::Aes128Gcm,
                )
                &&& derived_from(
                    k.remote,
                    if is_client {
                        server
                    } else {
                        client
                    },
                    CipherSuite::Aes128Gcm,
                )
            }),
            *final(self) == (CryptoManager { keys: final(self).keys, ..*old(self) }),
    {
        let client_secret: Vec<u8> = self.derive_secret(dcid, &CLIENT_IN)?;
        let server_secret: Vec<u8> = self.derive_secret(dcid, &SERVER_IN)?;
        let suite: CipherSuite = select_for_level(ProtectionLevel::Initial);
        let client_keys: DirectionalKeys = derive_packet_keys(&client_secret, suite)?;
        let server_keys: DirectionalKeys = derive_packet_keys(&server_secret, suite)?;
        let keys: PacketKeys = match self.role {
            ConnectionRole::Client => PacketKeys { local: client_keys, remote: server_keys },
            ConnectionRole::Server => PacketKeys { local: server_keys, remote: client_keys },
        };
        self.keys.insert(ProtectionLevel::Initial, keys);
        Ok(())
    }

    /// The data received at a level.
    pub open spec fn stream_at(self, level: ProtectionLevel) -> CryptoStreamView {
        if self.crypto_streams@.dom().contains(level) {
            self.crypto_streams@[level]@
        } else {
            CryptoStreamView::empty()
        }
    }

    /// Process incoming CRYPTO frame data, and return the pieces that the TLS layer is to
    /// read now
    pub fn process_crypto_frame(&mut self, level: ProtectionLevel, offset: u64, data: Bytes) -> (r:
        Vec<Bytes>)
        requires
            old(self).wf(),
            offset + contents(data).len() <= u64::MAX,
        ensures
            final(self).wf(),
            ({
                let v = old(self).stream_at(level).with_piece(offset, contents(data));
                &&& contents_of(r@) == v.ready()
                &&& final(self).stream_at(level) == v.drained()
            }),
            forall|l: ProtectionLevel|
                l != level ==> #[trigger] final(self).stream_at(l) == old(self).stream_at(l),
            *final(self) == (CryptoManager {
                crypto_streams: final(self).crypto_streams,
                ..*old(self)
            }),
    {
        let mut stream: CryptoStream = match self.crypto_streams.remove(&level) {
            Some(s) => s,
            None => CryptoStream::new(),
        };
        assert(stream@ == old(self).stream_at(level));
        let ready: Vec<Bytes> = stream.write(offset, data);
        self.crypto_streams.insert(level, stream);
        ready
    }

    /// The level that new keys of the TLS layer are for.
    pub open spec fn next_level(self) -> ProtectionLevel {
        if self.keys@.dom().contains(ProtectionLevel::Handshake) {
            ProtectionLevel::Application
        } else {
            ProtectionLevel::Handshake
        }
    }

    /// Install keys from TLS
    pub fn install_keys(&mut self)
        requires
            old(self).wf(),
        ensures
            final(self).wf(),
            ({
                let level = old(self).next_level();
                let k = final(self).keys@[level];
                &&& final(self).keys@ == old(self).keys@.insert(level, k)
                &&& all_zero(k.local)
                &&& all_zero(k.remote)
            }),
            *final(self) == (CryptoManager { keys: final(self).keys, ..*old(self) }),
    {
        let dummy_keys: PacketKeys = PacketKeys {
            local: create_dummy_directional_keys(),
            remote: create_dummy_directional_keys(),
        };
        let level: ProtectionLevel = if self.keys.contains_key(&ProtectionLevel::Handshake) {
            ProtectionLevel::Application
        } else {
            ProtectionLevel::Handshake
        };
        self.keys.insert(level, dummy_keys);
    }

    /// Start handshake (client only), with what the TLS layer reported
    pub fn start_handshake(&mut self, key_change: bool) -> (r: Vec<u8>)
        requires
            old(self).wf(),
        ensures
            final(self).wf(),
            r@ == Seq::<u8>::empty(),
            old(self).role == ConnectionRole::Server || !key_change ==> *final(self) == *old(self),
            old(self).role == ConnectionRole::Client && key_change ==> {
                let level = old(self).next_level();
                let k = final(self).keys@[level];
                &&& final(self).keys@ == old(self).keys@.insert(level, k)
                &&& all_zero(k.local)
                &&& all_zero(k.remote)
                &&& *final(self) == (CryptoManager { keys: final(self).keys, ..*old(self) })
            },
    {
        if matches!(self.role, ConnectionRole::Client) && key_change {
            self.install_keys();
        }
        Vec::new()
    }

    /// Encrypt a packet
    pub fn encrypt_packet(&mut self, packet_type: PacketType, frames: &Vec<Frame>) -> (r: Result<
        Bytes,
        Error,
    >)
        requires
            old(self).wf(),
            packet_type != PacketType::Retry,
            old(self).keys@.dom().contains(level_of(packet_type)) ==> old(self).next_packet_number
                < u64::MAX && frames_bytes(views(frames@)).len() + 0x1_0000 <= usize::MAX,
        ensures
            ({
                let level = level_of(packet_type);
                let v = views(frames@);
                let pn = old(self).next_packet_number;
                let payload = padded_payload(packet_type, v);
                let h = header_for(packet_type, pn, payload.len() as int, old(self).version);
                let k = old(self).keys@[level].local;
                if !old(self).keys@.dom().contains(level) {
                    r == Err::<Bytes, Error>(Error::Crypto(Reason::NoKeysAt(level))) && *final(self)
                        == *old(self)
                } else {
                    &&& *final(self) == (CryptoManager {
                        next_packet_number: (pn + 1) as u64,
                        ..*old(self)
                    })
                    &&& !all_encodable(v) ==> r == Err::<Bytes, Error>(Error::VarIntRange)
                    &&& all_encodable(v) ==> match r {
                        Ok(b) => contents(b) == h.bytes() + aead_sealed(
                            k.suite.id(),
                            k.packet@,
                            nonce_of(k.iv@, pn),
                            h.bytes(),
                            payload,
                        ),
                        Err(e) => (payload.len() > MAX_SEAL_LEN || h.bytes().len() > MAX_SEAL_LEN)
                            && e == Error::Crypto(Reason::Text("Encryption failed")),
                    }
                }
            }),
    {
        let level: ProtectionLevel = packet_type_to_protection_level(packet_type);
        let keys: &PacketKeys = match self.keys.get(&level) {
            Some(k) => k,
            None => {
                return Err(Error::Crypto(Reason::NoKeysAt(level)));
            },
        };
        let pn: u64 = self.next_packet_number;
        self.next_packet_number = pn + 1;
        let ghost v = views(frames@);
        let mut payload: BytesMut = BytesMut::new();
        encode_frames(frames, &mut payload)?;
        assert(written(payload) =~= frames_bytes(v));
        if matches!(packet_type, PacketType::Initial) && payload.len() < 1200 {
            let missing: usize = 1200 - payload.len();
            encode_padding(missing, &mut payload);
        }
        assert(written(payload) == padded_payload(packet_type, v));
        let header: PacketHeader = create_packet_header(
            packet_type,
            pn,
            payload.len(),
            self.version,
        );
        let mut packet: BytesMut = BytesMut::new();
        header.encode(&mut packet)?;
        assert(written(packet) =~= header@.bytes());
        let nonce: [u8; 12] = compute_nonce(&keys.local.iv, pn);
        let ciphertext: Vec<u8> = match aead_seal(
            keys.local.suite,
            &keys.local.packet,
            &nonce,
            &packet,
            &payload,
        ) {
            Ok(c) => c,
            Err(_) => {
                return Err(Error::Crypto(Reason::Text("Encryption failed")));
            },
        };
        packet.extend_from_slice(&ciphertext);
        Ok(packet.freeze())
    }

    /// The frames and the payload of a received packet, or why it cannot be opened.
    pub open spec fn decrypted(self, packet: Seq<u8>) -> Result<(Seq<FrameView>, Seq<u8>), Error> {
        let level = level_of(stated_type(packet[0]));
        let k = self.keys@[level].remote;
        if !self.keys@.dom().contains(level) {
            Err(Error::Crypto(Reason::NoKeysAt(level)))
        } else {
            match aead_opened(
                k.suite.id(),
                k.packet@,
                nonce_of(k.iv@, 0),
                packet.take(PAYLOAD_OFFSET as int),
                packet.skip(PAYLOAD_OFFSET as int),
            ) {
                None => Err(Error::Crypto(Reason::Text("Decryption failed"))),
                Some(plaintext) => match parse_frames(plaintext, false) {
                    Ok(v) => Ok((v, plaintext)),
                    Err(e) => Err(e),
                },
            }
        }
    }

    /// Decrypt a packet
    pub fn decrypt_packet(&self, packet_data: &[u8]) -> (r: Result<DecryptedPacket, Error>)
        requires
            self.wf(),
            packet_data@.len() > 0,
            stated_type(packet_data@[0]) != PacketType::Retry,
            self.keys@.dom().contains(level_of(stated_type(packet_data@[0]))) ==> packet_data@.len()
                >= PAYLOAD_OFFSET,
        ensures
            match self.decrypted(packet_data@) {
                Ok((v, payload)) => r is Ok && r->Ok_0.packet_number == 0 && views(r->Ok_0.frames@)
                    == v && contents(r->Ok_0.payload) == payload,
                Err(e) => r == Err::<DecryptedPacket, Error>(e),
            },
    {
        let packet_type: PacketType = packet_type_from_byte(packet_data[0]);
        let level: ProtectionLevel = packet_type_to_protection_level(packet_type);
        let keys: &PacketKeys = match self.keys.get(&level) {
            Some(k) => k,
            None => {
                return Err(Error::Crypto(Reason::NoKeysAt(level)));
            },
        };
        let (_header, payload_offset, pn) = remove_header_protection();
        let nonce: [u8; 12] = compute_nonce(&keys.remote.iv, pn);
        let len: usize = packet_data.len();
        proof {
            assert(packet_data@.subrange(0, payload_offset as int) =~= packet_data@.take(
                payload_offset as int,
            ));
            assert(packet_data@.subrange(payload_offset as int, len as int) =~= packet_data@.skip(
                payload_offset as int,
            ));
        }
        match aead_open(
            keys.remote.suite,
            &keys.remote.packet,
            &nonce,
            slice_subrange(packet_data, 0, payload_offset),
            slice_subrange(packet_data, payload_offset, len),
        ) {
            Ok(plaintext) => {
                let frames: Vec<Frame> = decode_frames(&plaintext, false)?;
                Ok(DecryptedPacket { packet_number: pn, frames, payload: bytes_from_vec(plaintext) })
            },
            Err(_) => Err(Error::Crypto(Reason::Text("Decryption failed"))),
        }
    }

    /// Get current protection level
    pub fn current_level(&self) -> (r: ProtectionLevel)
        ensures
            r == (if self.keys@.dom().contains(ProtectionLevel::Application) {
                ProtectionLevel::Application
            } else if self.keys@.dom().contains(ProtectionLevel::Handshake) {
                ProtectionLevel::Handshake
            } else {
                ProtectionLevel::Initial
            }),
    {
        if self.keys.contains_key(&ProtectionLevel::Application) {
            ProtectionLevel::Application
        } else if self.keys.contains_key(&ProtectionLevel::Handshake) {
            ProtectionLevel::Handshake
        } else {
            ProtectionLevel::Initial
        }
    }

    /// Get connection role
    pub fn role(&self) -> (r: ConnectionRole)
        ensures
            r == self.role,
    {
        self.role
    }
}

/// Where a client and a server of the same version derive Initial keys from the same
/// connection ID, each side receives with the keys that the other sends with.
pub proof fn initial_keys_agree(
    client_keys: PacketKeys,
    server_keys: PacketKeys,
    version: u32,
    dcid: Seq<u8>,
)
    requires
        ({
            let c = initial_secret(version, dcid, CLIENT_IN@);
            let s = initial_secret(version, dcid, SERVER_IN@);
            &&& derived_from(client_keys.local, c, CipherSuite::Aes128Gcm)
            &&& derived_from(client_keys.remote, s, CipherSuite::Aes128Gcm)
            &&& derived_from(server_keys.local, s, CipherSuite::Aes128Gcm)
            &&& derived_from(server_keys.remote, c, CipherSuite::Aes128Gcm)
        }),
    ensures
        client_keys.local.packet@ == server_keys.remote.packet@,
        client_keys.local.iv@ == server_keys.remote.iv@,
        client_keys.local.header.bytes() == server_keys.remote.header.bytes(),
        server_keys.local.packet@ == client_keys.remote.packet@,
        server_keys.local.iv@ == client_keys.remote.iv@,
        server_keys.local.header.bytes() == client_keys.remote.header.bytes(),
{
}

} // verus!
