//! Errors of the transport.

use crate::crypto_enhanced::ProtectionLevel;
use crate::packet::PacketType;
use vstd::prelude::*;
use vstd::string::*;

verus! {

/// Error codes of a stream.
#[derive(Debug, Clone, Copy, PartialEq, Eq)]
pub enum StreamErrorCode {
    /// The frame does not fit the state of the stream.
    FrameUnexpected,
    /// The frame contradicts what is known of the stream.
    FrameError,
}

/// Why something went wrong: a fixed text, or one that holds a value.
#[derive(Debug, Clone, Copy, PartialEq, Eq)]
pub enum Reason {
    /// A fixed text.
    Text(&'static str),
    /// No packet type has the bits.
    UnknownPacketType(u8),
    /// The low bits of the stream identifier name another kind of stream.
    StreamIdPattern(u64),
    /// There are no keys for the level.
    NoKeysAt(ProtectionLevel),
    /// There are no keys for packets of the type.
    NoKeysFor(PacketType),
    /// The packet has fewer bytes than its type calls for.
    PacketTooSmall { size: usize, minimum: usize },
    /// The header protection key does not have 16 bytes.
    HeaderKeyLength(usize),
}

/// A digit of a base of up to 16.
pub open spec fn digit(n: int) -> char {
    if n < 10 {
        (('0' as int) + n) as char
    } else {
        (('a' as int) + n - 10) as char
    }
}

/// The digits of a number, the most significant one first.
pub open spec fn digits(n: nat, base: nat) -> Seq<char>
    decreases n,
{
    if n < base || base < 2 {
        seq![digit(n as int)]
    } else {
        proof {
            vstd::arithmetic::div_mod::lemma_div_decreases(n as int, base as int);
        }
        digits(n / base, base).push(digit((n % base) as int))
    }
}

/// The text of a digit
fn digit_text(n: u64) -> (r: &'static str)
    requires
        n < 16,
    ensures
        r@ == seq![digit(n as int)],
{
    proof {
        reveal_strlit("0");
        reveal_strlit("1");
        reveal_strlit("2");
        reveal_strlit("3");
        reveal_strlit("4");
        reveal_strlit("5");
        reveal_strlit("6");
        reveal_strlit("7");
        reveal_strlit("8");
        reveal_strlit("9");
        reveal_strlit("a");
        reveal_strlit("b");
        reveal_strlit("c");
        reveal_strlit("d");
        reveal_strlit("e");
        reveal_strlit("f");
    }
    match n {
        0 => "0",
        1 => "1",
        2 => "2",
        3 => "3",
        4 => "4",
        5 => "5",
        6 => "6",
        7 => "7",
        8 => "8",
        9 => "9",
        10 => "a",
        11 => "b",
        12 => "c",
        13 => "d",
        14 => "e",
        _ => "f",
    }
}

/// The digits of a number
fn number_text(n: u64, base: u64) -> (r: String)
    requires
        2 <= base <= 16,
    ensures
        r@ == digits(n as nat, base as nat),
    decreases n,
{
    if n < base {
        digit_text(n).to_owned()
    } else {
        proof {
            vstd::arithmetic::div_mod::lemma_div_decreases(n as int, base as int);
        }
        let mut text: String = number_text(n / base, base);
        text.append(digit_text(n % base));
        assert(text@ =~= digits(n as nat, base as nat));
        text
    }
}

/// The name of a packet type.
pub open spec fn packet_type_name(t: PacketType) -> Seq<char> {
    match t {
        PacketType::Initial => "Initial"@,
        PacketType::ZeroRtt => "ZeroRtt"@,
        PacketType::Handshake => "Handshake"@,
        PacketType::Retry => "Retry"@,
        PacketType::OneRtt => "OneRtt"@,
    }
}

/// The name of a protection level.
pub open spec fn level_name(l: ProtectionLevel) -> Seq<char> {
    match l {
        ProtectionLevel::Initial => "Initial"@,
        ProtectionLevel::Handshake => "Handshake"@,
        ProtectionLevel::Application => "Application"@,
    }
}

impl Reason {
    /// The reason in words.
    pub open spec fn words(self) -> Seq<char> {
        match self {
            Reason::Text(t) => t@,
            Reason::UnknownPacketType(n) => "Unknown packet type: 0x"@ + digits(n as nat, 16),
            Reason::StreamIdPattern(id) => "Invalid stream ID pattern: "@ + digits(id as nat, 10),
            Reason::NoKeysAt(l) => "No keys for "@ + level_name(l),
            Reason::NoKeysFor(t) => "No keys for packet type "@ + packet_type_name(t),
            Reason::PacketTooSmall { size, minimum } => "Packet too small: "@ + digits(
                size as nat,
                10,
            ) + " bytes (minimum "@ + digits(minimum as nat, 10) + ")"@,
            Reason::HeaderKeyLength(n) => "Invalid HP key length: "@ + digits(n as nat, 10)
                + " (expected 16)"@,
        }
    }

    /// The reason in words
    pub fn text(&self) -> (r: String)
        ensures
            r@ == self.words(),
    {
        match *self {
            Reason::Text(t) => t.to_owned(),
            Reason::UnknownPacketType(n) => {
                let mut text: String = "Unknown packet type: 0x".to_owned();
                text.append(number_text(n as u64, 16).as_str());
                text
            },
            Reason::StreamIdPattern(id) => {
                let mut text: String = "Invalid stream ID pattern: ".to_owned();
                text.append(number_text(id, 10).as_str());
                text
            },
            Reason::NoKeysAt(l) => {
                let mut text: String = "No keys for ".to_owned();
                text.append(
                    match l {
                        ProtectionLevel::Initial => "Initial",
                        ProtectionLevel::Handshake => "Handshake",
                        ProtectionLevel::Application => "Application",
                    },
                );
                text
            },
            Reason::NoKeysFor(t) => {
                let mut text: String = "No keys for packet type ".to_owned();
                text.append(
                    match t {
                        PacketType::Initial => "Initial",
                        PacketType::ZeroRtt => "ZeroRtt",
                        PacketType::Handshake => "Handshake",
                        PacketType::Retry => "Retry",
                        PacketType::OneRtt => "OneRtt",
                    },
                );
                text
            },
            Reason::PacketTooSmall { size, minimum } => {
                let mut text: String = "Packet too small: ".to_owned();
                text.append(number_text(size as u64, 10).as_str());
                text.append(" bytes (minimum ");
                text.append(number_text(minimum as u64, 10).as_str());
                text.append(")");
                text
            },
            Reason::HeaderKeyLength(n) => {
                let mut text: String = "Invalid HP key length: ".to_owned();
                text.append(number_text(n as u64, 10).as_str());
                text.append(" (expected 16)");
                text
            },
        }
    }
}

/// What went wrong, with the reason.
#[derive(Debug, Clone, Copy, PartialEq, Eq)]
pub enum Error {
    /// More bytes are needed to decode the value.
    Incomplete,
    /// The packet ends before a field does.
    PacketTooShort,
    /// The value does not fit a variable-length integer.
    VarIntRange,
    /// The flow control limit would be exceeded.
    FlowControl,
    /// The operation does not fit the state of the stream.
    Stream { code: StreamErrorCode, detail: &'static str },
    /// The peer broke a rule of the protocol.
    ProtocolViolation(Reason),
    /// The library was used or set up in a way that does not fit.
    Internal(Reason),
    /// A cryptographic operation failed.
    Crypto(Reason),
    /// The TLS layer did not do its part.
    Tls(Reason),
    /// The packet does not follow the wire format.
    InvalidPacket(Reason),
    /// The frame does not follow the wire format.
    InvalidFrame { frame_type: u64, reason: &'static str },
}

} // verus!
