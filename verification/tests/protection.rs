use bytes::{Bytes, BytesMut};
use quic::connection::ConnectionRole;
use quic::crypto_enhanced;
use quic::crypto_enhanced::ProtectionLevel;
use quic::crypto_impl::{
    CryptoManager, Decrypted, DecryptedPacket, Encrypted, KeyChange, PacketProtectionLevel, TlsKeys,
};
use quic::encryption::{EncryptionLevel, PacketNumberLength, PacketNumberSpace, PacketSpace};
use quic::error::{Error, Reason};
use quic::frame_types::Frame;
use quic::key_derivation;
use quic::packet::{ConnectionId, PacketType};
use quic::reassembly::CryptoStream;

#[test]
fn packet_number_length_encoding() {
    let mut buf = BytesMut::new();

    PacketNumberLength::One.encode(0x42, &mut buf);
    assert_eq!(buf.as_ref(), &[0x42]);

    buf.clear();
    PacketNumberLength::Two.encode(0x1234, &mut buf);
    assert_eq!(buf.as_ref(), &[0x12, 0x34]);

    buf.clear();
    PacketNumberLength::Four.encode(0x1234_5678, &mut buf);
    assert_eq!(buf.as_ref(), &[0x12, 0x34, 0x56, 0x78]);
}

#[test]
fn packet_number_reconstruction() {
    let pn_len = PacketNumberLength::One;

    // Test basic reconstruction
    assert_eq!(pn_len.reconstruct(0x01, Some(0x00)), 0x01);
    assert_eq!(pn_len.reconstruct(0x01, Some(0x01)), 0x01);

    // Test wrap-around
    assert_eq!(pn_len.reconstruct(0x00, Some(0xff)), 0x100);
    assert_eq!(pn_len.reconstruct(0xff, Some(0x00)), 0xff);
}

#[test]
fn packet_number_space_operations() {
    let mut space = PacketNumberSpace::new();

    assert_eq!(space.next_packet_number(), 0);
    assert_eq!(space.allocate_packet_number(), 0);
    assert_eq!(space.next_packet_number(), 1);

    space.update_largest_received(5);
    assert_eq!(space.largest_received_packet_number, Some(5));

    space.update_largest_acked(3);
    assert_eq!(space.largest_acked_packet_number, Some(3));
}

#[test]
fn packet_space_from_type() {
    assert_eq!(PacketSpace::from_packet_type(PacketType::Initial), PacketSpace::Initial);
    assert_eq!(PacketSpace::from_packet_type(PacketType::Handshake), PacketSpace::Handshake);
    assert_eq!(PacketSpace::from_packet_type(PacketType::OneRtt), PacketSpace::ApplicationData);
    assert_eq!(PacketSpace::from_packet_type(PacketType::ZeroRtt), PacketSpace::ApplicationData);
}

#[test]
fn encryption_level_mapping() {
    assert_eq!(PacketSpace::Initial.encryption_level(), EncryptionLevel::Initial);
    assert_eq!(PacketSpace::Handshake.encryption_level(), EncryptionLevel::Handshake);
    assert_eq!(PacketSpace::ApplicationData.encryption_level(), EncryptionLevel::Application);
}

#[test]
fn packet_numbers_come_back_from_few_bytes() {
    for (pn, largest) in [(1u64, None), (300, Some(299)), (0x1_0002, Some(0x1_0000))] {
        let length = PacketNumberLength::Two;
        let mut buf = BytesMut::new();
        length.encode(pn, &mut buf);
        let truncated = length.decode(&mut buf.freeze()).unwrap();
        assert_eq!(length.reconstruct(truncated, largest), pn);
    }
    assert_eq!(PacketNumberLength::Four.bytes(), 4);
    assert!(PacketNumberLength::Four.decode(&mut Bytes::from_static(&[1, 2])).is_err());
}

#[test]
fn initial_key_derivation() {
    let connection_id = b"test_connection_id";
    let result = key_derivation::derive_initial_secrets(connection_id);
    assert!(result.is_ok());

    let (client_secret, server_secret) = result.unwrap();
    assert_eq!(client_secret.len(), 32);
    assert_eq!(server_secret.len(), 32);
    assert_ne!(client_secret, server_secret);
}

/// The secrets of the example in RFC 9001, Appendix A.1.
#[test]
fn initial_secrets_of_a_known_connection() {
    let dcid = [0x83, 0x94, 0xc8, 0xf0, 0x3e, 0x51, 0x57, 0x08];
    let (client, server) = key_derivation::derive_initial_secrets(&dcid).unwrap();
    assert_eq!(
        client,
        [
            0xc0, 0x0c, 0xf1, 0x51, 0xca, 0x5b, 0xe0, 0x75, 0xed, 0x0e, 0xbf, 0xb5, 0xc8, 0x03,
            0x23, 0xc4, 0x2d, 0x6b, 0x7d, 0xb6, 0x78, 0x81, 0x28, 0x9a, 0xf4, 0x00, 0x8f, 0x1f,
            0x6c, 0x35, 0x7a, 0xea
        ]
    );
    assert_eq!(
        server,
        [
            0x3c, 0x19, 0x98, 0x28, 0xfd, 0x13, 0x9e, 0xfd, 0x21, 0x6c, 0x15, 0x5a, 0xd8, 0x44,
            0xcc, 0x81, 0xfb, 0x82, 0xfa, 0x8d, 0x74, 0x46, 0xfa, 0x7d, 0x78, 0xbe, 0x80, 0x3a,
            0xcd, 0xda, 0x95, 0x1b
        ]
    );
    let keys =
        crypto_enhanced::derive_packet_keys(&client, quic::aead::CipherSuite::Aes128Gcm).unwrap();
    assert_eq!(
        keys.packet,
        [
            0x1f, 0x36, 0x96, 0x13, 0xdd, 0x76, 0xd5, 0x46, 0x77, 0x30, 0xef, 0xcb, 0xe3, 0xb1,
            0xa2, 0x2d
        ]
    );
    assert_eq!(
        keys.iv,
        [0xfa, 0x04, 0x4b, 0x2f, 0x42, 0xa3, 0xfd, 0x3b, 0x46, 0xfb, 0x25, 0x5c]
    );
    assert_eq!(
        keys.header.key(),
        [
            0x9f, 0x50, 0x44, 0x9e, 0x04, 0xa0, 0xe8, 0x10, 0x28, 0x3a, 0x1e, 0x99, 0x33, 0xad,
            0xed, 0xd2
        ]
    );
}

#[test]
fn labels_expand_to_any_length() {
    let secret = [7u8; 32];
    let short = key_derivation::hkdf_expand_label(&secret, b"quic iv", &[], 12).unwrap();
    let long = key_derivation::hkdf_expand_label(&secret, b"quic key", &[], 32).unwrap();
    assert_eq!(short.len(), 12);
    assert_eq!(long.len(), 32);
    assert_eq!(
        key_derivation::hkdf_expand_label(&secret, b"quic key", &[], 8161).unwrap_err(),
        Error::Crypto(Reason::Text("HKDF expand failed"))
    );
    assert_eq!(
        key_derivation::build_hkdf_info(b"client in", &[], 32),
        [
            0x00, 0x20, 0x0f, 0x74, 0x6c, 0x73, 0x31, 0x33, 0x20, 0x63, 0x6c, 0x69, 0x65, 0x6e,
            0x74, 0x20, 0x69, 0x6e, 0x00
        ]
    );
}

#[test]
fn test_initial_keys() {
    let mut client = crypto_enhanced::CryptoManager::new(ConnectionRole::Client, 0x0000_0001);
    let dcid = b"test_connection_id";

    client.init_initial_keys(dcid).unwrap();
    assert!(client.keys.contains_key(&ProtectionLevel::Initial));
}

#[test]
fn crypto_enhanced_test_nonce_computation() {
    let iv = [0u8; 12];
    let pn = 0x1234567890abcdef;
    let nonce = crypto_enhanced::compute_nonce(&iv, pn);

    // Verify packet number is XORed into last 8 bytes
    assert_eq!(nonce[4], 0x12);
    assert_eq!(nonce[5], 0x34);
    assert_eq!(nonce[11], 0xef);
}

#[test]
fn crypto_impl_test_nonce_computation() {
    let iv = [0u8; 12];
    let pn = 0x1234_5678_90ab_cdef;
    let nonce = CryptoManager::<u8>::compute_nonce(&iv, pn);

    // Check that packet number is XORed into the last 8 bytes
    assert_eq!(nonce[4], 0x12);
    assert_eq!(nonce[5], 0x34);
    assert_eq!(nonce[6], 0x56);
    assert_eq!(nonce[7], 0x78);
    assert_eq!(nonce[8], 0x90);
    assert_eq!(nonce[9], 0xab);
    assert_eq!(nonce[10], 0xcd);
    assert_eq!(nonce[11], 0xef);
}

#[test]
fn crypto_test_test_nonce_computation() {
    let iv = [0u8; 12];
    let pn = 0x1234_5678_90ab_cdef;
    let nonce = CryptoManager::<u8>::compute_nonce(&iv, pn);

    // Check that packet number is XORed into the last 8 bytes
    assert_eq!(nonce[4], 0x12);
    assert_eq!(nonce[5], 0x34);
    assert_eq!(nonce[6], 0x56);
    assert_eq!(nonce[7], 0x78);
    assert_eq!(nonce[8], 0x90);
    assert_eq!(nonce[9], 0xab);
    assert_eq!(nonce[10], 0xcd);
    assert_eq!(nonce[11], 0xef);
}

fn manager(role: ConnectionRole, dcid: &[u8]) -> CryptoManager<u8> {
    let mut crypto = CryptoManager::new(role);
    crypto.set_connection_ids(
        ConnectionId::from_slice(b"local_id"),
        ConnectionId::from_slice(b"remote_i"),
    );
    crypto.init_initial_keys(dcid).unwrap();
    crypto
}

fn sealed(crypto: &mut CryptoManager<u8>, pn: u64, frames: Vec<Frame>) -> Vec<u8> {
    match crypto.encrypt_packet(true, pn, frames).unwrap() {
        Encrypted::Packet(p) => p.to_vec(),
        Encrypted::Tls { .. } => panic!("keys are derived here"),
    }
}

fn opened(crypto: &CryptoManager<u8>, packet: &[u8]) -> DecryptedPacket {
    match crypto.decrypt_packet(packet).unwrap() {
        Decrypted::Packet(p) => p,
        Decrypted::Tls { .. } => panic!("keys are derived here"),
    }
}

fn some_frames() -> Vec<Frame> {
    vec![Frame::Ping, Frame::Crypto { offset: 0, data: Bytes::from_static(b"hello world") }]
}

#[test]
fn packets_pass_between_client_and_server() {
    let mut client = manager(ConnectionRole::Client, b"test_cid");
    let mut server = manager(ConnectionRole::Server, b"test_cid");

    let packet = sealed(&mut client, 1, some_frames());
    assert!(packet.len() >= 1200);
    let received = opened(&server, &packet);
    assert_eq!(received.packet_number, 1);
    assert_eq!(received.frames[0..2], some_frames());
    assert_eq!(received.frames[2..], [Frame::Padding]);

    let answer = sealed(&mut server, 300, some_frames());
    let received = opened(&client, &answer);
    assert_eq!(received.packet_number, 300);
    assert_eq!(received.frames[0..2], some_frames());
}

#[test]
fn changed_packets_are_refused() {
    let mut client = manager(ConnectionRole::Client, b"test_cid");
    let server = manager(ConnectionRole::Server, b"test_cid");
    let packet = sealed(&mut client, 1, some_frames());
    for i in [20, 40, packet.len() - 1] {
        let mut changed = packet.clone();
        changed[i] ^= 1;
        assert!(server.decrypt_packet(&changed).is_err());
    }
    let other = manager(ConnectionRole::Server, b"other_cid");
    assert!(other.decrypt_packet(&packet).is_err());
    assert!(client.decrypt_packet(&packet).is_err());
    assert!(server.decrypt_packet(&[]).is_err());
    assert!(server.decrypt_packet(&packet[0..30]).is_err());
}

#[test]
fn packets_need_keys() {
    let mut crypto: CryptoManager<u8> = CryptoManager::new(ConnectionRole::Client);
    assert!(crypto.encrypt_packet(true, 1, vec![Frame::Ping]).is_err());
    assert_eq!(crypto.current_level(), PacketProtectionLevel::Initial);
    assert!(!crypto.handshake_complete(true));
}

#[test]
fn handshake_data_is_read_in_order() {
    let mut crypto: CryptoManager<u8> = CryptoManager::new(ConnectionRole::Client);
    assert!(crypto.process_crypto_frame(5, Bytes::from_static(b"world")).is_empty());
    let pieces = crypto.process_crypto_frame(0, Bytes::from_static(b"hello"));
    assert_eq!(pieces.concat(), b"helloworld");
    assert!(crypto.process_crypto_frame(0, Bytes::from_static(b"hello")).is_empty());
}

#[test]
fn tls_keys_are_handed_over() {
    let mut crypto = manager(ConnectionRole::Server, b"test_cid");
    let keys = TlsKeys { local: 1u8, remote: 2u8 };
    crypto.on_tls_response(vec![KeyChange::Handshake { keys }], b"server flight", true);
    assert_eq!(crypto.current_level(), PacketProtectionLevel::Handshake);
    assert_eq!(crypto.get_handshake_data().unwrap(), b"server flight");
    assert!(crypto.get_handshake_data().is_none());
    let frames = CryptoManager::<u8>::take_crypto_frames(Some(b"abc".to_vec()));
    assert_eq!(frames, [Frame::Crypto { offset: 0, data: Bytes::from_static(b"abc") }]);
}

#[test]
fn zero_rtt_masking_undoes_itself() {
    let mut crypto = manager(ConnectionRole::Client, b"test_cid");
    if crypto.zero_rtt_available() {
        let data = Bytes::from_static(b"early data");
        let masked = crypto.protect_zero_rtt_packet(data.clone()).unwrap();
        assert_ne!(masked, data);
        assert_eq!(crypto.protect_zero_rtt_packet(masked).unwrap(), data);
    } else {
        assert!(crypto.protect_zero_rtt_packet(Bytes::from_static(b"early data")).is_err());
    }
    crypto.on_tls_response(Vec::new(), &[], false);
    assert_eq!(crypto.current_level(), PacketProtectionLevel::Application);
}

#[test]
fn retry_tag_depends_on_the_packet() {
    let a = CryptoManager::<u8>::calculate_retry_integrity_tag(b"retry pseudo packet").unwrap();
    let b = CryptoManager::<u8>::calculate_retry_integrity_tag(b"retry pseudo packeu").unwrap();
    assert_eq!(a.len(), 16);
    assert_ne!(a, b);
}

#[test]
fn crypto_manager_creation() {
    let crypto: CryptoManager<u8> = CryptoManager::new(ConnectionRole::Client);
    assert!(!crypto.handshake_complete(true));
}

#[test]
fn short_packets_without_keys_are_refused() {
    let client = crypto_enhanced::CryptoManager::new(ConnectionRole::Client, 0x0000_0001);
    let refused = |packet: &[u8]| client.decrypt_packet(packet).err().unwrap();
    assert_eq!(refused(&[0xc0]), Error::Crypto(Reason::NoKeysAt(ProtectionLevel::Initial)));
    assert_eq!(
        refused(&[0xe0, 1, 2]),
        Error::Crypto(Reason::NoKeysAt(ProtectionLevel::Handshake))
    );
}

#[test]
fn repeated_crypto_frames_do_not_hold_the_handshake_up() {
    let pieces: [(u64, &'static [u8]); 7] = [
        (0, b"client"),
        (0, b"client"),
        (11, b"body"),
        (6, b"hello"),
        (6, b"hello"),
        (0, b"client"),
        (15, b"end"),
    ];
    let mut stream = CryptoStream::new();
    let mut message: Vec<u8> = Vec::new();
    for (offset, data) in pieces {
        for piece in stream.write(offset, Bytes::from_static(data)) {
            message.extend_from_slice(&piece);
        }
    }
    assert_eq!(message, b"clienthellobodyend");
    assert_eq!(stream.read_offset(), 18);
}

#[test]
fn short_samples_are_refused_by_any_key() {
    let algorithm = crypto_enhanced::HeaderProtectionAlgorithm::Aes128;
    let key = crypto_enhanced::HeaderProtectionKey::new(algorithm, Vec::new());
    assert_eq!(key.mask(&[0u8; 15]), Err(Error::Crypto(Reason::Text("Sample too short"))));
    let key = crypto_enhanced::HeaderProtectionKey::new(algorithm, vec![0xff, 0x0f]);
    assert_eq!(key.mask(&[0x11u8; 16]), Ok([0xee, 0x1e, 0xee, 0x1e, 0xee]));
}
