use quic::crypto_enhanced::ProtectionLevel;
use quic::crypto_impl::CryptoManager;
use quic::connection::ConnectionRole;
use quic::error::{Error, Reason};
use quic::packet::PacketType;
use quic::protection::HeaderProtectionKey;

fn words(e: Error) -> String {
    match e {
        Error::ProtocolViolation(r)
        | Error::Internal(r)
        | Error::Crypto(r)
        | Error::Tls(r)
        | Error::InvalidPacket(r) => r.text(),
        _ => panic!("no reason"),
    }
}

#[test]
fn reasons_name_their_values() {
    assert_eq!(Reason::Text("Empty packet").text(), "Empty packet");
    assert_eq!(words(PacketType::try_from(0x04).unwrap_err()), "Unknown packet type: 0x4");
    assert_eq!(words(PacketType::try_from(0xfa).unwrap_err()), "Unknown packet type: 0xfa");
    assert_eq!(Reason::StreamIdPattern(0).text(), "Invalid stream ID pattern: 0");
    assert_eq!(
        Reason::StreamIdPattern(u64::MAX).text(),
        format!("Invalid stream ID pattern: {}", u64::MAX)
    );
    for level in
        [ProtectionLevel::Initial, ProtectionLevel::Handshake, ProtectionLevel::Application]
    {
        assert_eq!(Reason::NoKeysAt(level).text(), format!("No keys for {level:?}"));
    }
    for kind in [
        PacketType::Initial,
        PacketType::ZeroRtt,
        PacketType::Handshake,
        PacketType::Retry,
        PacketType::OneRtt,
    ] {
        assert_eq!(Reason::NoKeysFor(kind).text(), format!("No keys for packet type {kind:?}"));
    }
}

#[test]
fn refusals_name_lengths() {
    let crypto: CryptoManager<u8> = CryptoManager::new(ConnectionRole::Client);
    let e = crypto.validate_packet_auth(&[0xc0; 30], PacketType::Initial).unwrap_err();
    assert_eq!(words(e), "Packet too small: 30 bytes (minimum 1200)");
    let e = crypto.validate_packet_auth(&[0x40; 19], PacketType::OneRtt).unwrap_err();
    assert_eq!(words(e), "Packet too small: 19 bytes (minimum 20)");
    match HeaderProtectionKey::new(&[0u8; 32]) {
        Err(e) => assert_eq!(words(e), "Invalid HP key length: 32 (expected 16)"),
        Ok(_) => panic!("the key is too long"),
    }
}
