//! Building blocks of the QUIC transport protocol (RFC 9000, RFC 9001, RFC 9002).
//!
//! The modules hold the wire formats, the packet protection, the loss recovery and
//! congestion control state, and the rules by which a connection reacts to frames.
//! Sockets, clocks and the TLS handshake are left to the caller, which hands the
//! library plain values.

use vstd::prelude::*;

pub mod ack_manager;
pub mod addr;
pub mod aead;
pub mod bbr;
pub mod buffer;
pub mod congestion;
pub mod connection;
pub mod crypto_enhanced;
pub mod crypto_impl;
pub mod cubic;
pub mod ecn;
pub mod encryption;
pub mod error;
pub mod flow_control;
pub mod frame;
pub mod frame_types;
pub mod header_protection;
pub mod key_derivation;
pub mod laws;
pub mod migration;
pub mod pacing;
pub mod packet;
pub mod payload;
pub mod probes;
pub mod protection;
pub mod reassembly;
pub mod recovery;
pub mod retransmission;
pub mod sent_packets;
pub mod stream;
pub mod time;
pub mod transfer;
pub mod transport;
pub mod varint;

verus! {

/// QUIC version 1 as defined in RFC 9000.
pub const VERSION_1: u32 = 0x0000_0001;

/// Maximum size of a QUIC packet.
pub const MAX_PACKET_SIZE: usize = 65535;

/// Minimum size of a QUIC packet.
pub const MIN_PACKET_SIZE: usize = 1200;

/// Maximum connection ID length.
pub const MAX_CID_LEN: usize = 20;

/// Minimum connection ID length for initial packets.
pub const MIN_INITIAL_CID_LEN: usize = 8;

} // verus!
