//! QUIC connection management: the state machine and the lifecycle of a connection (RFC 9000).
//!
//! A connection reacts to packets, frames and the passing of time. What it cannot do itself is
//! named in what its methods return, and comes back in the arguments of the next call: reading
//! and writing handshake messages, encrypting with keys that the TLS layer keeps, and whatever
//! concerns single streams.

use crate::addr::SocketAddress;
use crate::buffer::{be_value, bytes_from_vec, contents};
use crate::congestion::{
    acked_sum, ascending, AckStep, CongestionAlgorithm, CongestionController, CongestionView,
};
use crate::crypto_impl::{CryptoManager, DecryptedPacket, Encrypted, KeyChange};
use crate::error::{Error, Reason};
use crate::flow_control::FlowControlLimits;
use crate::frame_types;
use crate::frame_types::{AckRange, Frame, FrameView};
use crate::migration::same_bytes;
use crate::packet::{ConnectionId, Packet, PacketHeader, PacketType};
use crate::payload::views;
use crate::reassembly::contents_of;
use crate::recovery::{BySpace, PacketNumberSpace, RecoveryManager, RecoveryView};
use crate::stream::{StreamId, StreamType};
use crate::time::{countable, max_int, min_int, Duration, Instant};
use crate::transport::{declared, value_or, TransportParameters};
use crate::varint::{VarInt, MAX_VARINT};
use bytes::Bytes;
use std::collections::VecDeque;
use vstd::prelude::*;
use vstd::slice::slice_subrange;

verus! {

/// QUIC connection state according to RFC 9000 Section 4
#[derive(Debug, PartialEq, Eq, Hash)]
pub enum ConnectionState {
    /// Initial state before handshake begins
    Initial,
    /// Handshake in progress
    Handshaking,
    /// Early data can be sent (0-RTT)
    EarlyData,
    /// Connection fully established (1-RTT)
    Established,
    /// Connection is closing (draining period)
    Closing {
        /// Error code for the close
        error_code: u64,
        /// Close reason
        reason: String,
        /// When the draining period ends
        drain_timeout: Instant,
    },
    /// Connection is closed
    Closed,
}

/// What a connection state holds.
#[verifier::ext_equal]
pub enum StateView {
    Initial,
    Handshaking,
    EarlyData,
    Established,
    Closing { error_code: u64, reason: Seq<char>, drain_timeout: Instant },
    Closed,
}

impl View for ConnectionState {
    type V = StateView;

    open spec fn view(&self) -> StateView {
        match *self {
            ConnectionState::Initial => StateView::Initial,
            ConnectionState::Handshaking => StateView::Handshaking,
            ConnectionState::EarlyData => StateView::EarlyData,
            ConnectionState::Established => StateView::Established,
            ConnectionState::Closing { error_code, reason, drain_timeout } => StateView::Closing {
                error_code,
                reason: reason@,
                drain_timeout,
            },
            ConnectionState::Closed => StateView::Closed,
        }
    }
}

impl Clone for ConnectionState {
    fn clone(&self) -> (r: ConnectionState)
        ensures
            r@ == self@,
    {
        match self {
            ConnectionState::Initial => ConnectionState::Initial,
            ConnectionState::Handshaking => ConnectionState::Handshaking,
            ConnectionState::EarlyData => ConnectionState::EarlyData,
            ConnectionState::Established => ConnectionState::Established,
            ConnectionState::Closing { error_code, reason, drain_timeout } => {
                ConnectionState::Closing {
                    error_code: *error_code,
                    reason: reason.clone(),
                    drain_timeout: *drain_timeout,
                }
            },
            ConnectionState::Closed => ConnectionState::Closed,
        }
    }
}

impl ConnectionState {
    /// Returns true if the connection can send application data
    pub fn can_send_app_data(self) -> (r: bool)
        ensures
            r == (self is EarlyData || self is Established),
    {
        matches!(self, ConnectionState::EarlyData | ConnectionState::Established)
    }

    /// Returns true if the connection can accept new streams
    pub fn can_accept_streams(self) -> (r: bool)
        ensures
            r == self is Established,
    {
        matches!(self, ConnectionState::Established)
    }

    /// Returns true if the connection is effectively closed
    pub fn is_closed(self) -> (r: bool)
        ensures
            r == (self is Closing || self is Closed),
    {
        matches!(self, ConnectionState::Closing { .. } | ConnectionState::Closed)
    }

    /// Returns true if the connection is in handshake phase
    pub fn is_handshaking(self) -> (r: bool)
        ensures
            r == (self is Initial || self is Handshaking),
    {
        matches!(self, ConnectionState::Initial | ConnectionState::Handshaking)
    }
}

/// QUIC connection role
#[derive(Debug, Clone, Copy, PartialEq, Eq, Structural)]
pub enum ConnectionRole {
    /// Client role in QUIC connection
    Client,
    /// Server role in QUIC connection
    Server,
}

/// Connection statistics
#[derive(Debug)]
pub struct ConnectionStats {
    /// Current connection state
    pub state: ConnectionState,
    /// Number of active streams
    pub streams_count: usize,
    /// Total bytes sent
    pub data_sent: u64,
    /// Total bytes received
    pub data_recv: u64,
    /// Total packets sent
    pub packets_sent: u64,
    /// Total packets received
    pub packets_recv: u64,
    /// Current round-trip time
    pub rtt: Duration,
    /// Current congestion window
    pub cwnd: u64,
    /// Bytes currently in flight
    pub bytes_in_flight: u64,
    /// Available send window
    pub available_send_window: u64,
    /// Available receive window
    pub available_recv_window: u64,
    /// Whether sending is limited by congestion control
    pub congestion_limited: bool,
    /// Whether sending is limited by flow control
    pub flow_control_limited: bool,
}

/// The text that bytes in UTF-8 hold.
pub uninterp spec fn lossy_text(bytes: Seq<u8>) -> Seq<char>;

/// `String::from_utf8_lossy` reads bytes as UTF-8, with a replacement character for what is
/// not; the text depends on the bytes alone.
#[verifier::external_body]
fn text_of(bytes: &[u8]) -> (r: String)
    ensures
        r@ == lossy_text(bytes@),
{
    String::from_utf8_lossy(bytes).into_owned()
}

/// A connection ID of the peer: its number, the ID and the stateless reset token
pub struct AvailableId {
    /// Sequence number of the connection ID
    pub sequence_number: u64,
    /// The connection ID
    pub connection_id: ConnectionId,
    /// Stateless reset token
    pub stateless_reset_token: [u8; 16],
}

/// What is known of a connection ID of the peer.
#[verifier::ext_equal]
pub struct AvailableIdView {
    pub sequence_number: u64,
    pub connection_id: Seq<u8>,
    pub stateless_reset_token: Seq<u8>,
}

impl View for AvailableId {
    type V = AvailableIdView;

    open spec fn view(&self) -> AvailableIdView {
        AvailableIdView {
            sequence_number: self.sequence_number,
            connection_id: self.connection_id@,
            stateless_reset_token: self.stateless_reset_token@,
        }
    }
}

/// QUIC connection implementation
pub struct Connection<D> {
    /// Connection state
    pub state: ConnectionState,
    /// Connection role (client or server)
    pub role: ConnectionRole,
    /// Local connection ID
    pub local_cid: ConnectionId,
    /// Remote connection ID
    pub remote_cid: ConnectionId,
    /// Remote peer address
    pub remote_addr: SocketAddress,
    /// Local address
    pub local_addr: Option<SocketAddress>,
    /// Transport parameters
    pub transport_params: TransportParameters,
    /// Peer transport parameters (received during handshake)
    pub peer_transport_params: Option<TransportParameters>,
    /// Flow control limits
    pub flow_control: FlowControlLimits,
    /// Next packet number in each packet number space
    pub packet_numbers: BySpace<u64>,
    /// Loss recovery manager
    pub recovery: RecoveryManager,
    /// Congestion controller
    pub congestion: CongestionController,
    /// Crypto manager for TLS integration
    pub crypto: CryptoManager<D>,
    /// Pending frames to send
    pub pending_frames: VecDeque<Frame>,
    /// Last activity time for idle timeout
    pub last_activity: Instant,
    /// Bytes in flight (sent but not acknowledged)
    pub bytes_in_flight: u64,
    /// Address validation token for future connections
    pub address_validation_token: Option<Bytes>,
    /// Available connection IDs for migration
    pub available_connection_ids: Vec<AvailableId>,
    /// Crypto stream send offset
    pub crypto_send_offset: u64,
    /// Retired connection ID sequence numbers
    pub retired_connection_ids: Vec<u64>,
    /// Path challenge data for validation
    pub path_challenge_data: Option<[u8; 8]>,
    /// Whether the path has been validated
    pub path_validated: bool,
    /// Current QUIC version in use
    pub quic_version: u32,
}

/// What a connection knows.
pub struct ConnectionView<D> {
    pub state: StateView,
    pub role: ConnectionRole,
    pub local_cid: Seq<u8>,
    pub remote_cid: Seq<u8>,
    pub remote_addr: SocketAddress,
    pub local_addr: Option<SocketAddress>,
    pub transport_params: TransportParameters,
    pub peer_transport_params: Option<TransportParameters>,
    pub flow_control: FlowControlLimits,
    pub packet_numbers: BySpace<u64>,
    pub recovery: RecoveryView,
    pub congestion: CongestionView,
    pub crypto: CryptoManager<D>,
    pub pending: Seq<FrameView>,
    pub last_activity: Instant,
    pub bytes_in_flight: u64,
    pub token: Option<Seq<u8>>,
    pub available: Seq<AvailableIdView>,
    pub crypto_send_offset: u64,
    pub retired: Seq<u64>,
    pub path_challenge_data: Option<Seq<u8>>,
    pub path_validated: bool,
    pub quic_version: u32,
}

/// What is known of connection IDs of the peer.
pub open spec fn available_views(s: Seq<AvailableId>) -> Seq<AvailableIdView> {
    Seq::new(s.len(), |i: int| s[i]@)
}

impl<D> View for Connection<D> {
    type V = ConnectionView<D>;

    open spec fn view(&self) -> ConnectionView<D> {
        ConnectionView {
            state: self.state@,
            role: self.role,
            local_cid: self.local_cid@,
            remote_cid: self.remote_cid@,
            remote_addr: self.remote_addr,
            local_addr: self.local_addr,
            transport_params: self.transport_params,
            peer_transport_params: self.peer_transport_params,
            flow_control: self.flow_control,
            packet_numbers: self.packet_numbers,
            recovery: self.recovery@,
            congestion: self.congestion@,
            crypto: self.crypto,
            pending: views(self.pending_frames@),
            last_activity: self.last_activity,
            bytes_in_flight: self.bytes_in_flight,
            token: match self.address_validation_token {
                Some(t) => Some(contents(t)),
                None => None,
            },
            available: available_views(self.available_connection_ids@),
            crypto_send_offset: self.crypto_send_offset,
            retired: self.retired_connection_ids@,
            path_challenge_data: match self.path_challenge_data {
                Some(c) => Some(c@),
                None => None,
            },
            path_validated: self.path_validated,
            quic_version: self.quic_version,
        }
    }
}

/// What the caller is to do about a frame, besides what the connection did itself.
pub enum FrameStep {
    /// Nothing
    Done,
    /// Let the TLS layer read these handshake bytes
    ReadHandshake(Vec<Bytes>),
    /// Tell the stream that the peer reset it
    ResetStream { stream_id: StreamId, application_error_code: u64, final_size: u64 },
    /// Tell the stream that the peer wants no more data
    StopSending { stream_id: StreamId, application_error_code: u64 },
    /// Hand the data to the stream
    StreamData { stream_id: StreamId, offset: u64, data: Bytes, fin: bool },
    /// Raise the limit on the data of the connection
    MaxData { maximum_data: u64 },
    /// Raise the limit on the data of the stream
    MaxStreamData { stream_id: StreamId, maximum_stream_data: u64 },
    /// Look whether the stream can be given a larger limit
    StreamDataBlocked { stream_id: StreamId },
    /// Note that the peer cannot open streams
    StreamsBlocked { stream_type: frame_types::StreamType, maximum_streams: u64 },
    /// Convert the error code with which the peer closes the connection, and call
    /// [`Connection::on_peer_close`]
    ConvertErrorCode { error_code: u64, reason_phrase: Bytes },
}

/// What the caller is to do about a frame, with the bytes it is to hand on.
#[verifier::ext_equal]
pub enum FrameStepView {
    Done,
    ReadHandshake(Seq<Seq<u8>>),
    ResetStream { stream_id: u64, application_error_code: u64, final_size: u64 },
    StopSending { stream_id: u64, application_error_code: u64 },
    StreamData { stream_id: u64, offset: u64, data: Seq<u8>, fin: bool },
    MaxData { maximum_data: u64 },
    MaxStreamData { stream_id: u64, maximum_stream_data: u64 },
    StreamDataBlocked { stream_id: u64 },
    StreamsBlocked { stream_type: frame_types::StreamType, maximum_streams: u64 },
    ConvertErrorCode { error_code: u64, reason_phrase: Seq<u8> },
}

impl View for FrameStep {
    type V = FrameStepView;

    open spec fn view(&self) -> FrameStepView {
        match *self {
            FrameStep::Done => FrameStepView::Done,
            FrameStep::ReadHandshake(v) => FrameStepView::ReadHandshake(contents_of(v@)),
            FrameStep::ResetStream { stream_id, application_error_code, final_size } =>
                FrameStepView::ResetStream {
                    stream_id: stream_id@,
                    application_error_code,
                    final_size,
                },
            FrameStep::StopSending { stream_id, application_error_code } =>
                FrameStepView::StopSending { stream_id: stream_id@, application_error_code },
            FrameStep::StreamData { stream_id, offset, data, fin } => FrameStepView::StreamData {
                stream_id: stream_id@,
                offset,
                data: contents(data),
                fin,
            },
            FrameStep::MaxData { maximum_data } => FrameStepView::MaxData { maximum_data },
            FrameStep::MaxStreamData { stream_id, maximum_stream_data } =>
                FrameStepView::MaxStreamData { stream_id: stream_id@, maximum_stream_data },
            FrameStep::StreamDataBlocked { stream_id } => FrameStepView::StreamDataBlocked {
                stream_id: stream_id@,
            },
            FrameStep::StreamsBlocked { stream_type, maximum_streams } =>
                FrameStepView::StreamsBlocked { stream_type, maximum_streams },
            FrameStep::ConvertErrorCode { error_code, reason_phrase } =>
                FrameStepView::ConvertErrorCode {
                    error_code,
                    reason_phrase: contents(reason_phrase),
                },
        }
    }
}

/// What happened to a stream, as the streams report it.
#[derive(Debug, Clone, Copy)]
pub enum StreamEvent {
    /// The stream has data to read
    DataAvailable { stream_id: StreamId },
    /// The stream cannot send for want of flow control credit
    StreamBlocked { stream_id: StreamId, is_connection_blocked: bool },
    /// Anything else
    Other,
}

/// What the caller is to do about a received packet.
pub enum PacketStep {
    /// The peer does not speak our version: choose another one from the packet
    VersionNegotiation,
    /// We do not speak the version of the peer: answer with a Version Negotiation packet that
    /// carries these connection IDs of the received packet
    Negotiate { dst_cid: ConnectionId, src_cid: ConnectionId },
    /// Process the frames of the packet one by one
    Frames(DecryptedPacket),
    /// Let the TLS layer remove the header protection and decrypt the packet
    OpenWithTls { pn_offset: usize, sample: Vec<u8> },
}

/// A packet to send, with the frames that it carries.
pub struct Outgoing {
    /// Packet number
    pub packet_number: u64,
    /// The packet, or what the TLS layer is to encrypt
    pub packet: Encrypted,
    /// The frames in the packet
    pub frames: Vec<Frame>,
}

/// What the caller is to do about the passing of time.
#[derive(Debug, Clone, Copy, PartialEq, Eq, Structural)]
pub enum MaintenanceStep {
    /// The connection was idle for too long: send the pending frames, and nothing else
    Close,
    /// The connection was idle for too long, but is closed already: do nothing
    Stop,
    /// Send the pending frames, then go on
    Send,
    /// Go on
    Continue,
}

/// How long a connection stays in the draining period, in nanoseconds (3s)
pub const DRAIN_PERIOD: u64 = 3_000_000_000;

/// The idle timeout where none is declared, in milliseconds
pub const DEFAULT_IDLE_TIMEOUT: u64 = 30_000;

/// How many bytes of a packet are not stream data, at an estimate
pub const HEADER_ESTIMATE: u64 = 50;

/// By how much the limit of a blocked stream is raised (64KB)
pub const STREAM_WINDOW_INCREMENT: u64 = 65_536;

/// The lower end of a range of an ACK frame that comes after another one.
pub open spec fn next_start(largest: u64, r: AckRange) -> int {
    max_int(next_end(largest, r) - r.ack_range_length, 0)
}

/// The upper end of a range of an ACK frame that comes after another one.
pub open spec fn next_end(start: u64, r: AckRange) -> int {
    max_int(start - (r.gap + 1), 0)
}

/// The packet numbers that an ACK frame acknowledges: the largest, then what each range says,
/// counted downward from the range before it.
pub open spec fn ack_tuples(largest: u64, ranges: Seq<AckRange>) -> Seq<(u64, u64)>
    decreases ranges.len(),
{
    if ranges.len() == 0 {
        seq![(largest, largest)]
    } else {
        let before = ack_tuples(largest, ranges.drop_last());
        let start = before.last().0;
        before.push((next_start(start, ranges.last()) as u64, next_end(start, ranges.last()) as u64))
    }
}

/// RETIRE_CONNECTION_ID frames for the first `n` connection IDs.
pub open spec fn retirements(n: int) -> Seq<FrameView> {
    Seq::new(n as nat, |i: int| FrameView::RetireConnectionId { sequence_number: i as u64 })
}

/// The connection IDs that are not retired.
pub open spec fn not_retired(s: Seq<AvailableIdView>, retire_prior_to: u64) -> Seq<AvailableIdView>
    decreases s.len(),
{
    if s.len() == 0 {
        Seq::empty()
    } else if s.last().sequence_number >= retire_prior_to {
        not_retired(s.drop_last(), retire_prior_to).push(s.last())
    } else {
        not_retired(s.drop_last(), retire_prior_to)
    }
}

/// The type of stream that a frame names.
pub open spec fn named_type(stream_type: frame_types::StreamType) -> StreamType {
    match stream_type {
        frame_types::StreamType::Bidirectional => StreamType::Bidirectional,
        frame_types::StreamType::Unidirectional => StreamType::Unidirectional,
    }
}

/// The connection IDs in a packet with a long header, destination first.
pub open spec fn connection_ids_of(s: Seq<u8>) -> Result<(Seq<u8>, Seq<u8>), Error> {
    if s.len() < 6 || s.len() < 6 + s[5] || s.len() <= 6 + s[5] || s.len() < 7 + s[5] + s[6 + s[5]] {
        Err(Error::PacketTooShort)
    } else {
        Ok((s.subrange(6, 6 + s[5]), s.subrange(7 + s[5], 7 + s[5] + s[6 + s[5]])))
    }
}

impl StateView {
    /// The type of packet that is sent in a state.
    pub open spec fn sent_type(self) -> PacketType {
        match self {
            StateView::Initial => PacketType::Initial,
            StateView::Handshaking => PacketType::Handshake,
            StateView::EarlyData => PacketType::ZeroRtt,
            _ => PacketType::OneRtt,
        }
    }

    /// The space in which packets are numbered in a state.
    pub open spec fn number_space(self) -> PacketNumberSpace {
        match self {
            StateView::Initial => PacketNumberSpace::Initial,
            StateView::Handshaking => PacketNumberSpace::Handshake,
            _ => PacketNumberSpace::ApplicationData,
        }
    }

    /// The space whose packets an ACK frame acknowledges in a state.
    pub open spec fn acked_space(self) -> PacketNumberSpace {
        match self {
            StateView::Established => PacketNumberSpace::ApplicationData,
            StateView::Handshaking => PacketNumberSpace::Handshake,
            _ => PacketNumberSpace::Initial,
        }
    }
}

impl<D> ConnectionView<D> {
    /// What holds of every connection.
    pub open spec fn wf(self) -> bool {
        &&& self.recovery.wf()
        &&& self.crypto.wf()
        &&& self.congestion.algorithm == CongestionAlgorithm::NewReno
        &&& self.congestion.max_datagram_size == 1200
        &&& self.congestion.cubic_controller is None
    }

    /// Whether the counters have room for what a frame reports.
    pub open spec fn has_room_for(self, f: FrameView) -> bool {
        match f {
            FrameView::Ack { largest_acknowledged, ack_ranges, .. } => {
                let tuples = ack_tuples(largest_acknowledged, ack_ranges);
                let acked = acked_sum(tuples, 1200);
                &&& self.recovery.has_room_for_ack(
                    self.state.acked_space(),
                    largest_acknowledged,
                    tuples,
                )
                &&& self.congestion.rtt.sample_count < u64::MAX
                &&& acked <= u64::MAX
                &&& self.congestion.newreno.has_room_for(acked, 1200)
            },
            FrameView::Crypto { offset, data } => offset + data.len() <= u64::MAX,
            _ => true,
        }
    }

    /// One more frame to send.
    pub open spec fn queue(self, f: FrameView) -> ConnectionView<D> {
        ConnectionView { pending: self.pending.push(f), ..self }
    }

    /// More frames to send.
    pub open spec fn queue_all(self, f: Seq<FrameView>) -> ConnectionView<D> {
        ConnectionView { pending: self.pending + f, ..self }
    }

    /// The connection after an ACK frame, and whether it is accepted.
    pub open spec fn after_ack(
        self,
        largest: u64,
        ack_delay: u64,
        ranges: Seq<AckRange>,
        now: Instant,
    ) -> (ConnectionView<D>, Result<(), Error>) {
        let tuples = ack_tuples(largest, ranges);
        let acked = acked_sum(tuples, 1200);
        let counted = ConnectionView {
            congestion: self.congestion.acked(acked, Duration { nanos: 100_000_000 }, now),
            bytes_in_flight: max_int(self.bytes_in_flight - acked, 0) as u64,
            ..self
        };
        let (recovery, outcome) = self.recovery.ack_outcome(
            self.state.acked_space(),
            largest,
            tuples,
            Duration { nanos: (ack_delay * 1_000) as u128 },
            now,
        );
        match outcome {
            Err(e) => (ConnectionView { recovery, ..counted }, Err(e)),
            Ok(lost) => (
                ConnectionView {
                    recovery: (RecoveryView { address_validated: true, ..recovery }),
                    ..counted
                }.queue_all(lost),
                Ok(()),
            ),
        }
    }

    /// The connection with a MAX_DATA frame, where more than half of the window is consumed.
    pub open spec fn with_max_data(self) -> ConnectionView<D> {
        if 2 * self.flow_control.data_recv > self.flow_control.max_data_recv {
            self.queue(FrameView::MaxData { maximum_data: self.flow_control.max_data_recv })
        } else {
            self
        }
    }

    /// The connection with a MAX_STREAMS frame, where more than half of the streams are in use.
    pub open spec fn with_max_streams(self, stream_type: frame_types::StreamType) -> ConnectionView<
        D,
    > {
        let t = named_type(stream_type);
        if 2 * self.flow_control.streams(t) > self.flow_control.max_streams(t) {
            self.queue(
                FrameView::MaxStreams {
                    stream_type,
                    maximum_streams: self.flow_control.max_streams(t),
                },
            )
        } else {
            self
        }
    }

    /// The connection in the draining period.
    pub open spec fn draining(self, error_code: u64, reason: Seq<char>, now: Instant) ->
        ConnectionView<D> {
        ConnectionView {
            state: StateView::Closing {
                error_code,
                reason,
                drain_timeout: Instant { nanos: countable(now.nanos + DRAIN_PERIOD) as u128 },
            },
            ..self
        }
    }

    /// The connection after any frame but ACK and CRYPTO.
    pub open spec fn after_plain_frame(self, f: FrameView) -> ConnectionView<D> {
        match f {
            FrameView::NewToken { token } => if self.role == ConnectionRole::Client {
                ConnectionView { token: Some(token), ..self }
            } else {
                self
            },
            FrameView::MaxStreams { maximum_streams, stream_type } => ConnectionView {
                flow_control: self.flow_control.with_max_streams(
                    named_type(stream_type),
                    maximum_streams,
                ),
                ..self
            },
            FrameView::DataBlocked { .. } => self.with_max_data(),
            FrameView::NewConnectionId {
                sequence_number,
                retire_prior_to,
                connection_id,
                stateless_reset_token,
            } => if self.role == ConnectionRole::Client {
                ConnectionView {
                    available: not_retired(
                        self.available.push(
                            AvailableIdView {
                                sequence_number,
                                connection_id,
                                stateless_reset_token,
                            },
                        ),
                        retire_prior_to,
                    ),
                    ..self
                }.queue_all(retirements(retire_prior_to as int))
            } else {
                self
            },
            FrameView::RetireConnectionId { sequence_number } => if self.role
                == ConnectionRole::Server {
                ConnectionView { retired: self.retired.push(sequence_number), ..self }
            } else {
                self
            },
            FrameView::PathChallenge { data } => self.queue(FrameView::PathResponse { data }),
            FrameView::PathResponse { data } => ConnectionView {
                path_challenge_data: None,
                path_validated: self.path_validated || self.path_challenge_data == Some(data),
                ..self
            },
            FrameView::HandshakeDone => if self.role == ConnectionRole::Client && self.state
                is Handshaking {
                ConnectionView { state: StateView::Established, ..self }
            } else {
                self
            },
            _ => self,
        }
    }

    /// What the caller is to do about any frame but CRYPTO.
    pub open spec fn step_for(f: FrameView) -> FrameStepView {
        match f {
            FrameView::ResetStream { stream_id, application_error_code, final_size } =>
                FrameStepView::ResetStream { stream_id, application_error_code, final_size },
            FrameView::StopSending { stream_id, application_error_code } =>
                FrameStepView::StopSending { stream_id, application_error_code },
            FrameView::Stream { stream_id, offset, fin, data, .. } => FrameStepView::StreamData {
                stream_id,
                offset,
                data,
                fin,
            },
            FrameView::MaxData { maximum_data } => FrameStepView::MaxData { maximum_data },
            FrameView::MaxStreamData { stream_id, maximum_stream_data } =>
                FrameStepView::MaxStreamData { stream_id, maximum_stream_data },
            FrameView::StreamDataBlocked { stream_id, .. } => FrameStepView::StreamDataBlocked {
                stream_id,
            },
            FrameView::StreamsBlocked { stream_type, maximum_streams } =>
                FrameStepView::StreamsBlocked { stream_type, maximum_streams },
            FrameView::ConnectionClose { error_code, reason_phrase, .. } =>
                FrameStepView::ConvertErrorCode { error_code, reason_phrase },
            _ => FrameStepView::Done,
        }
    }
}

/// The ranges of an ACK frame go upward.
proof fn lemma_ack_tuples(largest: u64, ranges: Seq<AckRange>)
    ensures
        ack_tuples(largest, ranges).len() == ranges.len() + 1,
        forall|i: int|
            0 <= i < ack_tuples(largest, ranges).len() ==> (#[trigger] ack_tuples(
                largest,
                ranges,
            )[i]).0 <= ack_tuples(largest, ranges)[i].1,
    decreases ranges.len(),
{
    if ranges.len() > 0 {
        lemma_ack_tuples(largest, ranges.drop_last());
    }
}

/// Ranges that can be counted are not too wide.
proof fn lemma_countable(tuples: Seq<(u64, u64)>)
    requires
        forall|i: int| 0 <= i < tuples.len() ==> (#[trigger] tuples[i]).0 <= tuples[i].1,
    ensures
        acked_sum(tuples, 1200) >= 0,
        acked_sum(tuples, 1200) <= u64::MAX ==> ascending(tuples),
    decreases tuples.len(),
{
    if tuples.len() > 0 {
        let d = tuples.drop_last();
        assert forall|i: int| 0 <= i < d.len() implies (#[trigger] d[i]).0 <= d[i].1 by {
            assert(d[i] == tuples[i]);
        }
        lemma_countable(d);
        let t = tuples[tuples.len() - 1];
        assert(tuples.last() == t && t.0 <= t.1);
        assert forall|i: int| 0 <= i < tuples.len() && acked_sum(tuples, 1200) <= u64::MAX implies (
        #[trigger] tuples[i]).0 <= tuples[i].1 && tuples[i].1 - tuples[i].0 < u64::MAX by {
            if i < d.len() {
                assert(d[i] == tuples[i]);
            }
        }
    }
}

/// The packet numbers that an ACK frame acknowledges
fn ack_ranges_of(largest: u64, ack_ranges: &Vec<AckRange>) -> (r: Vec<(u64, u64)>)
    ensures
        r@ == ack_tuples(largest, ack_ranges@),
{
    let ghost s = ack_ranges@;
    let mut ranges: Vec<(u64, u64)> = Vec::new();
    let mut current: u64 = largest;
    ranges.push((current, current));
    let mut i: usize = 0;
    assert(s.take(0) =~= Seq::<AckRange>::empty());
    assert(ranges@ =~= ack_tuples(largest, s.take(0)));
    while i < ack_ranges.len()
        invariant
            s == ack_ranges@,
            i <= s.len(),
            ranges@ == ack_tuples(largest, s.take(i as int)),
            ranges@.len() > 0,
            current == ranges@.last().0,
        decreases s.len() - i,
    {
        let range: AckRange = ack_ranges[i];
        proof {
            assert(s.take(i + 1).drop_last() =~= s.take(i as int));
            assert(s.take(i + 1).last() == range);
        }
        let end: u64 = if range.gap < current {
            current - range.gap - 1
        } else {
            0
        };
        let start: u64 = end.saturating_sub(range.ack_range_length);
        ranges.push((start, end));
        current = start;
        i += 1;
    }
    assert(s.take(i as int) =~= s);
    ranges
}

/// The bytes that ranges stand for, where they can be counted
fn countable_bytes(ranges: &Vec<(u64, u64)>) -> (r: Option<u64>)
    requires
        forall|i: int| 0 <= i < ranges@.len() ==> (#[trigger] ranges@[i]).0 <= ranges@[i].1,
    ensures
        acked_sum(ranges@, 1200) <= u64::MAX ==> r == Some(acked_sum(ranges@, 1200) as u64),
        acked_sum(ranges@, 1200) > u64::MAX ==> r is None,
{
    let ghost s = ranges@;
    let mut sum: u64 = 0;
    let mut i: usize = 0;
    assert(s.take(0) =~= Seq::<(u64, u64)>::empty());
    while i < ranges.len()
        invariant
            s == ranges@,
            i <= s.len(),
            forall|j: int| 0 <= j < s.len() ==> (#[trigger] s[j]).0 <= s[j].1,
            sum == acked_sum(s.take(i as int), 1200),
        decreases s.len() - i,
    {
        let (start, end) = ranges[i];
        assert(s[i as int].0 <= s[i as int].1);
        let packets: u128 = (end - start) as u128 + 1;
        let total: u128 = sum as u128 + packets * 1200;
        proof {
            assert(s.take(i + 1).drop_last() =~= s.take(i as int));
            assert(s.take(i + 1).last() == (start, end));
            assert(total == acked_sum(s.take(i + 1), 1200));
            lemma_sum_grows(s, i + 1);
        }
        if total > u64::MAX as u128 {
            return None;
        }
        sum = total as u64;
        i += 1;
    }
    assert(s.take(i as int) =~= s);
    Some(sum)
}

/// The first ranges stand for no more bytes than all of them.
proof fn lemma_sum_grows(s: Seq<(u64, u64)>, n: int)
    requires
        0 <= n <= s.len(),
        forall|i: int| 0 <= i < s.len() ==> (#[trigger] s[i]).0 <= s[i].1,
    ensures
        acked_sum(s.take(n), 1200) <= acked_sum(s, 1200),
    decreases s.len() - n,
{
    if n < s.len() {
        lemma_sum_grows(s, n + 1);
        assert(s.take(n + 1).drop_last() =~= s.take(n));
        assert(s.take(n + 1).last() == s[n]);
    } else {
        assert(s.take(n) =~= s);
    }
}

/// The type of stream that a frame names
fn stream_type_of(stream_type: frame_types::StreamType) -> (r: StreamType)
    ensures
        r == named_type(stream_type),
{
    match stream_type {
        frame_types::StreamType::Bidirectional => StreamType::Bidirectional,
        frame_types::StreamType::Unidirectional => StreamType::Unidirectional,
    }
}

impl<D> Connection<D> {
    /// One more frame to send
    pub fn push(&mut self, frame: Frame)
        ensures
            final(self)@ == old(self)@.queue(frame@),
    {
        let ghost before = self.pending_frames@;
        self.pending_frames.push_back(frame);
        assert(views(self.pending_frames@) =~= views(before).push(frame@));
    }

    /// Queues frames to send
    pub fn queue_frames(&mut self, frames: Vec<Frame>)
        ensures
            final(self)@ == old(self)@.queue_all(views(frames@)),
    {
        let ghost all = views(frames@);
        let ghost start = self@.pending;
        let mut rest: Vec<Frame> = frames;
        let ghost mut k: int = 0;
        assert(start + all.take(0) =~= start);
        assert(views(rest@) =~= all.skip(0));
        while rest.len() > 0
            invariant
                0 <= k <= all.len(),
                views(rest@) == all.skip(k),
                self@ == (ConnectionView { pending: start + all.take(k), ..old(self)@ }),
            decreases rest@.len(),
        {
            let ghost before = rest@;
            let frame: Frame = rest.remove(0);
            self.push(frame);
            proof {
                assert(views(before).len() == before.len());
                assert(all.skip(k)[0] == frame@);
                assert(all.take(k + 1) =~= all.take(k).push(frame@));
                assert((start + all.take(k)).push(frame@) =~= start + all.take(k + 1));
                assert forall|i: int| 0 <= i < rest@.len() implies views(rest@)[i] == all.skip(
                    k + 1,
                )[i] by {
                    assert(rest@[i] == before[i + 1]);
                    assert(views(before)[i + 1] == all.skip(k)[i + 1]);
                }
                assert(views(rest@) =~= all.skip(k + 1));
                k = k + 1;
            }
        }
        assert(views(rest@).len() == 0);
        assert(all.take(k) =~= all);
    }

    /// The space whose packets an ACK frame acknowledges
    fn ack_space(&self) -> (r: PacketNumberSpace)
        ensures
            r == self@.state.acked_space(),
    {
        match self.state {
            ConnectionState::Established => PacketNumberSpace::ApplicationData,
            ConnectionState::Handshaking => PacketNumberSpace::Handshake,
            _ => PacketNumberSpace::Initial,
        }
    }

    /// Whether the counters have room for what a frame reports
    pub fn has_room_for(&self, frame: &Frame) -> (r: bool)
        requires
            self@.wf(),
        ensures
            r == self@.has_room_for(frame@),
    {
        match frame {
            Frame::Ack { largest_acknowledged, ack_ranges, .. } => {
                let ranges: Vec<(u64, u64)> = ack_ranges_of(*largest_acknowledged, ack_ranges);
                proof {
                    lemma_ack_tuples(*largest_acknowledged, ack_ranges@);
                    lemma_countable(ranges@);
                }
                match countable_bytes(&ranges) {
                    Some(acked) => self.recovery.has_room_for_ack(
                        self.ack_space(),
                        *largest_acknowledged,
                        &ranges,
                    )
                        && self.congestion.has_room_for_bytes(acked),
                    None => false,
                }
            },
            Frame::Crypto { offset, data } => data.len() as u128 + *offset as u128
                <= u64::MAX as u128,
            _ => true,
        }
    }

    /// Takes an ACK frame in
    fn process_ack(
        &mut self,
        largest_acknowledged: u64,
        ack_delay: u64,
        ack_ranges: Vec<AckRange>,
        now: Instant,
    ) -> (r: Result<(), Error>)
        requires
            old(self)@.wf(),
            old(self)@.recovery.has_room_for_ack(
                old(self)@.state.acked_space(),
                largest_acknowledged,
                ack_tuples(largest_acknowledged, ack_ranges@),
            ),
            old(self)@.congestion.rtt.sample_count < u64::MAX,
            ({
                let acked = acked_sum(ack_tuples(largest_acknowledged, ack_ranges@), 1200);
                acked <= u64::MAX && old(self)@.congestion.newreno.has_room_for(acked, 1200)
            }),
        ensures
            final(self)@.wf(),
            (final(self)@, r) == old(self)@.after_ack(
                largest_acknowledged,
                ack_delay,
                ack_ranges@,
                now,
            ),
    {
        let ranges: Vec<(u64, u64)> = ack_ranges_of(largest_acknowledged, &ack_ranges);
        proof {
            lemma_ack_tuples(largest_acknowledged, ack_ranges@);
            lemma_countable(ranges@);
        }
        self.count_ack(&ranges, now);
        self.recover_from_ack(largest_acknowledged, ack_delay, &ranges, now)
    }

    /// Counts what an ACK frame acknowledges
    fn count_ack(&mut self, ranges: &Vec<(u64, u64)>, now: Instant)
        requires
            old(self)@.wf(),
            ascending(ranges@),
            old(self)@.congestion.rtt.sample_count < u64::MAX,
            0 <= acked_sum(ranges@, 1200) <= u64::MAX,
            old(self)@.congestion.newreno.has_room_for(acked_sum(ranges@, 1200), 1200),
        ensures
            final(self)@.wf(),
            final(self)@ == (ConnectionView {
                congestion: old(self)@.congestion.acked(
                    acked_sum(ranges@, 1200),
                    Duration { nanos: 100_000_000 },
                    now,
                ),
                bytes_in_flight: max_int(
                    old(self)@.bytes_in_flight - acked_sum(ranges@, 1200),
                    0,
                ) as u64,
                ..old(self)@
            }),
    {
        let _step: Result<AckStep, Error> = self.congestion.on_ack_received_with_rtt(
            ranges,
            Duration::from_nanos(100_000_000),
            now,
        );
        let acked_bytes: u64 = match countable_bytes(ranges) {
            Some(n) => n,
            None => 0,
        };
        self.bytes_in_flight = self.bytes_in_flight.saturating_sub(acked_bytes);
    }

    /// Takes the packets that an ACK frame acknowledges out, and queues what is lost
    fn recover_from_ack(
        &mut self,
        largest_acknowledged: u64,
        ack_delay: u64,
        ranges: &Vec<(u64, u64)>,
        now: Instant,
    ) -> (r: Result<(), Error>)
        requires
            old(self)@.wf(),
            old(self)@.recovery.has_room_for_ack(
                old(self)@.state.acked_space(),
                largest_acknowledged,
                ranges@,
            ),
        ensures
            final(self)@.wf(),
            ({
                let (recovery, outcome) = old(self)@.recovery.ack_outcome(
                    old(self)@.state.acked_space(),
                    largest_acknowledged,
                    ranges@,
                    Duration { nanos: (ack_delay * 1_000) as u128 },
                    now,
                );
                match outcome {
                    Err(e) => r == Err::<(), Error>(e) && final(self)@ == (ConnectionView {
                        recovery,
                        ..old(self)@
                    }),
                    Ok(lost) => r == Ok::<(), Error>(()) && final(self)@ == (ConnectionView {
                        recovery: (RecoveryView { address_validated: true, ..recovery }),
                        ..old(self)@
                    }).queue_all(lost),
                }
            }),
    {
        let pn_space: PacketNumberSpace = self.ack_space();
        let lost_frames: Vec<Frame> = self.recovery.on_ack_received(
            pn_space,
            largest_acknowledged,
            ranges,
            Duration::from_micros(ack_delay),
            now,
        )?;
        self.recovery.validate_address();
        self.queue_frames(lost_frames);
        Ok(())
    }

    /// Forgets the connection IDs that are retired
    fn retire_ids(&mut self, retire_prior_to: u64)
        ensures
            final(self)@ == (ConnectionView {
                available: not_retired(old(self)@.available, retire_prior_to),
                ..old(self)@
            }),
    {
        let ghost all = self@.available;
        let mut rest: Vec<AvailableId> = Vec::new();
        std::mem::swap(&mut rest, &mut self.available_connection_ids);
        let mut kept: Vec<AvailableId> = Vec::new();
        let ghost mut k: int = 0;
        proof {
            assert(available_views(rest@) =~= all.skip(0));
            assert(all.take(0) =~= Seq::<AvailableIdView>::empty());
            assert(available_views(kept@) =~= not_retired(all.take(0), retire_prior_to));
        }
        while rest.len() > 0
            invariant
                0 <= k <= all.len(),
                available_views(rest@) == all.skip(k),
                available_views(kept@) == not_retired(all.take(k), retire_prior_to),
            decreases rest@.len(),
        {
            let ghost before = rest@;
            let ghost kept_before = kept@;
            let id: AvailableId = rest.remove(0);
            proof {
                assert(available_views(before).len() == before.len());
                assert(all.skip(k)[0] == id@);
                assert(all.take(k + 1).drop_last() =~= all.take(k));
                assert(all.take(k + 1).last() == id@);
                assert forall|i: int| 0 <= i < rest@.len() implies available_views(rest@)[i]
                    == all.skip(k + 1)[i] by {
                    assert(rest@[i] == before[i + 1]);
                    assert(available_views(before)[i + 1] == all.skip(k)[i + 1]);
                }
                assert(available_views(rest@) =~= all.skip(k + 1));
                k = k + 1;
            }
            if id.sequence_number >= retire_prior_to {
                kept.push(id);
                assert(available_views(kept@) =~= available_views(kept_before).push(id@));
            }
        }
        assert(available_views(rest@).len() == 0);
        assert(all.take(k) =~= all);
        self.available_connection_ids = kept;
    }

    /// Queues a RETIRE_CONNECTION_ID frame for each number below a limit
    fn queue_retirements(&mut self, retire_prior_to: u64)
        ensures
            final(self)@ == old(self)@.queue_all(retirements(retire_prior_to as int)),
    {
        let ghost start = self@.pending;
        let mut seq: u64 = 0;
        assert(start + retirements(0) =~= start);
        while seq < retire_prior_to
            invariant
                seq <= retire_prior_to,
                self@ == (ConnectionView {
                    pending: start + retirements(seq as int),
                    ..old(self)@
                }),
            decreases retire_prior_to - seq,
        {
            self.push(Frame::RetireConnectionId { sequence_number: seq });
            assert((start + retirements(seq as int)).push(
                FrameView::RetireConnectionId { sequence_number: seq },
            ) =~= start + retirements(seq + 1));
            seq += 1;
        }
    }

    /// Consider sending MAX_DATA frame
    pub fn consider_sending_max_data(&mut self)
        ensures
            final(self)@ == old(self)@.with_max_data(),
    {
        if self.flow_control.should_send_max_data() {
            let maximum_data: u64 = self.flow_control.max_data_recv;
            self.push(Frame::MaxData { maximum_data });
        }
    }

    /// Consider sending MAX_STREAMS frame
    pub fn consider_sending_max_streams(&mut self, stream_type: frame_types::StreamType)
        ensures
            final(self)@ == old(self)@.with_max_streams(stream_type),
    {
        if self.flow_control.should_send_max_streams(stream_type_of(stream_type)) {
            let maximum_streams: u64 = match stream_type {
                frame_types::StreamType::Bidirectional => self.flow_control.max_streams_bidi,
                frame_types::StreamType::Unidirectional => self.flow_control.max_streams_uni,
            };
            self.push(Frame::MaxStreams { maximum_streams, stream_type });
        }
    }

    /// Process a single frame
    #[verifier::spinoff_prover]
    #[verifier::rlimit(40)]
    pub fn process_frame(&mut self, frame: Frame, now: Instant) -> (r: Result<FrameStep, Error>)
        requires
            old(self)@.wf(),
            old(self)@.has_room_for(frame@),
        ensures
            final(self)@.wf(),
            match frame@ {
                FrameView::Ack { largest_acknowledged, ack_delay, ack_ranges, .. } => {
                    let (after, outcome) = old(self)@.after_ack(
                        largest_acknowledged,
                        ack_delay,
                        ack_ranges,
                        now,
                    );
                    &&& final(self)@ == after
                    &&& match outcome {
                        Ok(_) => r is Ok && r->Ok_0@ == FrameStepView::Done,
                        Err(e) => r is Err && r->Err_0 == e,
                    }
                },
                FrameView::Crypto { offset, data } => {
                    let filled = old(self)@.crypto.crypto_buffer@.with_piece(offset, data);
                    &&& r is Ok
                    &&& r->Ok_0@ == FrameStepView::ReadHandshake(filled.ready())
                    &&& final(self)@.crypto.crypto_buffer@ == filled.drained()
                    &&& final(self)@ == (ConnectionView {
                        crypto: CryptoManager {
                            crypto_buffer: final(self)@.crypto.crypto_buffer,
                            ..old(self)@.crypto
                        },
                        ..old(self)@
                    })
                },
                f => {
                    &&& r is Ok
                    &&& r->Ok_0@ == ConnectionView::<D>::step_for(f)
                    &&& final(self)@ == old(self)@.after_plain_frame(f)
                },
            },
    {
        match frame {
            Frame::Padding => {},
            Frame::Ping => {},
            Frame::Ack { largest_acknowledged, ack_delay, ack_ranges, .. } => {
                self.process_ack(largest_acknowledged, ack_delay, ack_ranges, now)?;
            },
            Frame::ResetStream { stream_id, application_error_code, final_size } => {
                return Ok(
                    FrameStep::ResetStream { stream_id, application_error_code, final_size },
                );
            },
            Frame::StopSending { stream_id, application_error_code } => {
                return Ok(FrameStep::StopSending { stream_id, application_error_code });
            },
            Frame::Crypto { offset, data } => {
                return Ok(FrameStep::ReadHandshake(self.crypto.process_crypto_frame(offset, data)));
            },
            Frame::NewToken { token } => {
                if matches!(self.role, ConnectionRole::Client) {
                    self.address_validation_token = Some(token);
                }
            },
            Frame::Stream { stream_id, offset, data, fin, .. } => {
                return Ok(FrameStep::StreamData { stream_id, offset, data, fin });
            },
            Frame::MaxData { maximum_data } => {
                return Ok(FrameStep::MaxData { maximum_data });
            },
            Frame::MaxStreamData { stream_id, maximum_stream_data } => {
                return Ok(FrameStep::MaxStreamData { stream_id, maximum_stream_data });
            },
            Frame::MaxStreams { maximum_streams, stream_type } => {
                self.flow_control.update_max_streams(stream_type_of(stream_type), maximum_streams);
            },
            Frame::DataBlocked { .. } => {
                self.consider_sending_max_data();
            },
            Frame::StreamDataBlocked { stream_id, .. } => {
                return Ok(FrameStep::StreamDataBlocked { stream_id });
            },
            Frame::StreamsBlocked { maximum_streams, stream_type } => {
                return Ok(FrameStep::StreamsBlocked { stream_type, maximum_streams });
            },
            Frame::NewConnectionId {
                sequence_number,
                retire_prior_to,
                connection_id,
                stateless_reset_token,
            } => {
                if matches!(self.role, ConnectionRole::Client) {
                    let ghost before = self.available_connection_ids@;
                    let id: AvailableId = AvailableId {
                        sequence_number,
                        connection_id,
                        stateless_reset_token,
                    };
                    self.available_connection_ids.push(id);
                    assert(available_views(self.available_connection_ids@) =~= available_views(
                        before,
                    ).push(id@));
                    self.retire_ids(retire_prior_to);
                    self.queue_retirements(retire_prior_to);
                }
            },
            Frame::RetireConnectionId { sequence_number } => {
                if matches!(self.role, ConnectionRole::Server) {
                    self.retired_connection_ids.push(sequence_number);
                }
            },
            Frame::PathChallenge { data } => {
                self.push(Frame::PathResponse { data });
            },
            Frame::PathResponse { data } => {
                let expected: Option<[u8; 8]> = self.path_challenge_data;
                self.path_challenge_data = None;
                if let Some(challenge_data) = expected {
                    if same_bytes(&challenge_data, &data) {
                        self.path_validated = true;
                    }
                }
            },
            Frame::ConnectionClose { error_code, reason_phrase, .. } => {
                return Ok(FrameStep::ConvertErrorCode { error_code, reason_phrase });
            },
            Frame::HandshakeDone => {
                if matches!(self.role, ConnectionRole::Client) && matches!(
                    self.state,
                    ConnectionState::Handshaking
                ) {
                    self.state = ConnectionState::Established;
                }
            },
        }
        Ok(FrameStep::Done)
    }

    /// Takes in that the peer closes the connection, with what the conversion made of the error
    /// code: a code that is refused leaves the connection as it is
    pub fn on_peer_close(
        &mut self,
        converted: Result<u64, Error>,
        reason_phrase: &Bytes,
        now: Instant,
    ) -> (r: Result<(), Error>)
        requires
            old(self)@.wf(),
        ensures
            final(self)@.wf(),
            match converted {
                Ok(error_code) => r == Ok::<(), Error>(()) && final(self)@ == old(self)@.draining(
                    error_code,
                    lossy_text(contents(*reason_phrase)),
                    now,
                ),
                Err(e) => r == Err::<(), Error>(e) && final(self)@ == old(self)@,
            },
    {
        let error_code: u64 = converted?;
        self.state = ConnectionState::Closing {
            error_code,
            reason: text_of(reason_phrase),
            drain_timeout: now.saturating_add(Duration::from_nanos(DRAIN_PERIOD)),
        };
        Ok(())
    }
}

/// Whether a crypto manager is new, with the initial keys of a connection.
pub open spec fn is_initialized<D>(
    c: CryptoManager<D>,
    role: ConnectionRole,
    local_cid: Seq<u8>,
    remote_cid: Seq<u8>,
) -> bool {
    &&& c.wf()
    &&& c.role == role
    &&& c.has_initial_keys(
        if role == ConnectionRole::Client {
            remote_cid
        } else {
            local_cid
        },
    )
    &&& c.local_cid matches Some(id) && id@ == local_cid
    &&& c.remote_cid matches Some(id) && id@ == remote_cid
    &&& c.handshake_keys is None
    &&& c.application_keys is None
    &&& c.next_application_keys is None
    &&& c.handshake_keys_tls is None
    &&& c.application_keys_tls is None
    &&& c.next_application_keys_tls is None
    &&& !c.key_phase
    &&& c.highest_sent_pn == 0
    &&& c.handshake_send_count == 0
    &&& !c.initial_crypto_sent
    &&& c.crypto_buffer@.pieces == Map::<u64, Seq<u8>>::empty()
    &&& c.crypto_buffer@.read_offset == 0
    &&& c.pending_handshake_data@ == Seq::<u8>::empty()
    &&& c.peer_transport_params is None
}

/// The frames of a sequence, copied
pub fn copy_frames(frames: &Vec<Frame>) -> (r: Vec<Frame>)
    ensures
        views(r@) == views(frames@),
{
    let mut copy: Vec<Frame> = Vec::new();
    let mut i: usize = 0;
    while i < frames.len()
        invariant
            i <= frames@.len(),
            copy@.len() == i,
            forall|j: int| 0 <= j < i ==> (#[trigger] copy@[j])@ == frames@[j]@,
        decreases frames@.len() - i,
    {
        copy.push(frames[i].clone());
        i += 1;
    }
    assert(views(copy@) =~= views(frames@));
    copy
}

/// The version that a packet with a long header states
pub fn packet_version(packet_data: &[u8]) -> (r: Option<u32>)
    ensures
        packet_data@.len() < 5 ==> r is None,
        packet_data@.len() >= 5 ==> r == Some(be_value(packet_data@.subrange(1, 5)) as u32),
{
    if packet_data.len() < 5 {
        return None;
    }
    let version: u32 = packet_data[1] as u32 * 0x100_0000 + packet_data[2] as u32 * 0x1_0000
        + packet_data[3] as u32 * 0x100 + packet_data[4] as u32;
    proof {
        let s = packet_data@.subrange(1, 5);
        assert(s.drop_last().drop_last().drop_last().drop_last() =~= Seq::<u8>::empty());
        reveal_with_fuel(be_value, 5);
    }
    Some(version)
}

/// Parse connection IDs from packet header (for version negotiation), destination first
pub fn parse_connection_ids_from_packet(packet_data: &[u8]) -> (r: Result<
    (ConnectionId, ConnectionId),
    Error,
>)
    ensures
        match connection_ids_of(packet_data@) {
            Ok((dst, src)) => r is Ok && r->Ok_0.0@ == dst && r->Ok_0.1@ == src,
            Err(e) => r is Err && r->Err_0 == e,
        },
{
    let len: usize = packet_data.len();
    if len < 6 {
        return Err(Error::PacketTooShort);
    }
    let dcid_len: usize = packet_data[5] as usize;
    if len - 6 <= dcid_len {
        return Err(Error::PacketTooShort);
    }
    let dst_cid: ConnectionId = ConnectionId::from_slice(
        slice_subrange(packet_data, 6, 6 + dcid_len),
    );
    let scid_len: usize = packet_data[6 + dcid_len] as usize;
    let offset: usize = 7 + dcid_len;
    if len - offset < scid_len {
        return Err(Error::PacketTooShort);
    }
    let src_cid: ConnectionId = ConnectionId::from_slice(
        slice_subrange(packet_data, offset, offset + scid_len),
    );
    Ok((dst_cid, src_cid))
}

/// Determine packet type from header
pub fn determine_packet_type(header: &PacketHeader) -> (r: PacketType)
    ensures
        r == header@.packet_type(),
{
    match header {
        PacketHeader::Long(long_header) => long_header.packet_type,
        PacketHeader::Short(_) => PacketType::OneRtt,
    }
}

impl<D> Connection<D> {
    /// A crypto manager with initial keys. The keys come from the connection ID of the server:
    /// for a client that is the remote one, for a server its own
    pub fn new_crypto(
        role: ConnectionRole,
        local_cid: &ConnectionId,
        remote_cid: &ConnectionId,
        transport_params: TransportParameters,
    ) -> (r: Result<CryptoManager<D>, Error>)
        ensures
            r is Ok,
            is_initialized(r->Ok_0, role, local_cid@, remote_cid@),
            r->Ok_0.local_transport_params == Some(transport_params),
    {
        let mut crypto: CryptoManager<D> = CryptoManager::new(role);
        crypto.set_connection_ids(local_cid.clone(), remote_cid.clone());
        let initial_dcid: &[u8] = match role {
            ConnectionRole::Client => remote_cid.as_bytes(),
            ConnectionRole::Server => local_cid.as_bytes(),
        };
        crypto.init_initial_keys(initial_dcid)?;
        crypto.set_transport_params(transport_params);
        Ok(crypto)
    }

    /// Create a new QUIC connection
    pub fn new(
        role: ConnectionRole,
        local_cid: ConnectionId,
        remote_cid: ConnectionId,
        remote_addr: SocketAddress,
        transport_params: TransportParameters,
        quic_version: u32,
        now: Instant,
    ) -> (r: Result<Connection<D>, Error>)
        ensures
            r is Ok,
            ({
                let v = r->Ok_0@;
                &&& v.wf()
                &&& is_initialized(v.crypto, role, local_cid@, remote_cid@)
                &&& v.crypto.local_transport_params == Some(transport_params)
                &&& v.recovery.is_fresh(now)
                &&& v == (ConnectionView {
                    state: StateView::Initial,
                    role,
                    local_cid: local_cid@,
                    remote_cid: remote_cid@,
                    remote_addr,
                    local_addr: None,
                    transport_params,
                    peer_transport_params: None,
                    flow_control: FlowControlLimits::from_params(transport_params),
                    packet_numbers: (BySpace { initial: 0, handshake: 0, application: 0 }),
                    recovery: v.recovery,
                    congestion: CongestionView::fresh(CongestionAlgorithm::NewReno, now),
                    crypto: v.crypto,
                    pending: Seq::empty(),
                    last_activity: now,
                    bytes_in_flight: 0,
                    token: None,
                    available: Seq::empty(),
                    crypto_send_offset: 0,
                    retired: Seq::empty(),
                    path_challenge_data: None,
                    path_validated: false,
                    quic_version,
                })
            }),
    {
        let flow_control: FlowControlLimits = FlowControlLimits::new(&transport_params);
        let recovery: RecoveryManager = RecoveryManager::new(now);
        let congestion: CongestionController = CongestionController::new(now);
        let crypto: CryptoManager<D> = Self::new_crypto(
            role,
            &local_cid,
            &remote_cid,
            transport_params,
        )?;
        let connection: Connection<D> = Connection {
            state: ConnectionState::Initial,
            role,
            local_cid,
            remote_cid,
            remote_addr,
            local_addr: None,
            transport_params,
            peer_transport_params: None,
            flow_control,
            packet_numbers: BySpace { initial: 0, handshake: 0, application: 0 },
            recovery,
            congestion,
            crypto,
            pending_frames: VecDeque::new(),
            last_activity: now,
            bytes_in_flight: 0,
            address_validation_token: None,
            available_connection_ids: Vec::new(),
            crypto_send_offset: 0,
            retired_connection_ids: Vec::new(),
            path_challenge_data: None,
            path_validated: false,
            quic_version,
        };
        assert(views(connection.pending_frames@) =~= Seq::<FrameView>::empty());
        assert(available_views(connection.available_connection_ids@) =~= Seq::<
            AvailableIdView,
        >::empty());
        Ok(connection)
    }

    /// Get the current connection state
    pub fn state(&self) -> (r: ConnectionState)
        ensures
            r@ == self@.state,
    {
        self.state.clone()
    }

    /// Check if the connection is established
    pub fn is_established(&self) -> (r: bool)
        ensures
            r == (self@.state == StateView::Established),
    {
        matches!(self.state, ConnectionState::Established)
    }

    /// Get the connection role
    pub fn role(&self) -> (r: ConnectionRole)
        ensures
            r == self@.role,
    {
        self.role
    }

    /// Get the local connection ID
    pub fn local_cid(&self) -> (r: &ConnectionId)
        ensures
            r@ == self@.local_cid,
    {
        &self.local_cid
    }

    /// Get the remote connection ID
    pub fn remote_cid(&self) -> (r: &ConnectionId)
        ensures
            r@ == self@.remote_cid,
    {
        &self.remote_cid
    }

    /// Get the remote address
    pub fn remote_addr(&self) -> (r: SocketAddress)
        ensures
            r == self@.remote_addr,
    {
        self.remote_addr
    }

    /// Whether 0-RTT data can be sent, which only a client does
    pub fn check_zero_rtt(&self) -> (r: Result<(), Error>)
        ensures
            r == (if self@.role == ConnectionRole::Client {
                Ok::<(), Error>(())
            } else {
                Err(Error::Internal(Reason::Text("0-RTT is only supported for clients")))
            }),
    {
        match self.role {
            ConnectionRole::Client => Ok(()),
            ConnectionRole::Server => Err(
                Error::Internal(Reason::Text("0-RTT is only supported for clients")),
            ),
        }
    }

    /// Queues handshake data in a CRYPTO frame, where there is any
    pub fn queue_handshake_data(&mut self, handshake_data: Vec<u8>)
        requires
            old(self)@.crypto_send_offset + handshake_data@.len() <= u64::MAX,
        ensures
            final(self)@ == old(self)@.with_handshake_data(handshake_data@),
    {
        if handshake_data.len() > 0 {
            let offset: u64 = self.crypto_send_offset;
            self.crypto_send_offset += handshake_data.len() as u64;
            let frame: Frame = Frame::Crypto { offset, data: bytes_from_vec(handshake_data) };
            self.push(frame);
        }
    }

    /// Start the connection handshake with the message that the TLS layer wrote. What is queued
    /// then is to be sent
    pub fn start_handshake(&mut self, hello: Vec<u8>, key_changes: Vec<KeyChange<D>>) -> (r: Result<
        (),
        Error,
    >)
        requires
            old(self)@.wf(),
            old(self)@.state is Initial && old(self)@.crypto.role == ConnectionRole::Client
                ==> old(self)@.crypto_send_offset + hello@.len() <= u64::MAX,
        ensures
            final(self)@.wf(),
            !(old(self)@.state is Initial) ==> r == Err::<(), Error>(
                Error::ProtocolViolation(Reason::Text("Connection not in initial state")),
            ) && final(self)@ == old(self)@,
            old(self)@.state is Initial ==> {
                let started = ConnectionView { state: StateView::Handshaking, ..old(self)@ };
                match old(self)@.crypto.role {
                    ConnectionRole::Server => r == Ok::<(), Error>(()) && final(self)@ == started,
                    ConnectionRole::Client => {
                        &&& old(self)@.crypto.keys_installed(key_changes@, final(self)@.crypto)
                        &&& r == (if hello@.len() == 0 {
                            Err::<(), Error>(
                                Error::Tls(Reason::Text("No handshake data generated")),
                            )
                        } else {
                            Ok(())
                        })
                        &&& final(self)@ == (ConnectionView {
                            crypto: final(self)@.crypto,
                            ..started
                        }).with_handshake_data(hello@)
                    },
                }
            },
    {
        if !matches!(self.state, ConnectionState::Initial) {
            return Err(Error::ProtocolViolation(Reason::Text("Connection not in initial state")));
        }
        self.state = ConnectionState::Handshaking;
        let handshake_data: Vec<u8> = self.crypto.start_handshake(hello, key_changes)?;
        self.queue_handshake_data(handshake_data);
        Ok(())
    }

    /// Confirms that the handshake is done. A server says so to the client
    fn establish(&mut self, now: Instant)
        requires
            old(self)@.wf(),
        ensures
            final(self)@.wf(),
            final(self)@ == old(self)@.established(now),
    {
        self.state = ConnectionState::Established;
        self.recovery.confirm_handshake(now);
        if matches!(self.role, ConnectionRole::Server) {
            self.push(Frame::HandshakeDone);
        }
    }

    /// Takes in what the TLS layer says after it read handshake data: whether the handshake goes
    /// on, and the parameters of the peer, with whether they are valid
    pub fn on_handshake_progress(
        &mut self,
        handshaking: bool,
        peer_params: Option<TransportParameters>,
        validity: Result<(), Error>,
        now: Instant,
    ) -> (r: Result<(), Error>)
        requires
            old(self)@.wf(),
        ensures
            final(self)@.wf(),
            ({
                let v = old(self)@;
                if v.handshake_finished(handshaking) && v.state is Handshaking {
                    let (w, outcome) = match peer_params {
                        Some(p) => v.with_peer_params(p, validity),
                        None => (v, Ok::<(), Error>(())),
                    };
                    &&& r == outcome
                    &&& final(self)@ == (if outcome is Ok {
                        w.established(now)
                    } else {
                        w
                    })
                } else {
                    &&& r == Ok::<(), Error>(())
                    &&& final(self)@ == (if v.handshake_finished(handshaking) && v.state
                        is EarlyData {
                        ConnectionView { state: StateView::Established, ..v }
                    } else {
                        v
                    })
                }
            }),
    {
        if self.crypto.handshake_complete(handshaking) {
            if matches!(self.state, ConnectionState::Handshaking) {
                if let Some(p) = peer_params {
                    self.process_peer_transport_params(p, validity)?;
                }
                self.establish(now);
            } else if matches!(self.state, ConnectionState::EarlyData) {
                self.state = ConnectionState::Established;
            }
        }
        Ok(())
    }

    /// Process peer transport parameters received during handshake, with whether they are valid
    pub fn process_peer_transport_params(
        &mut self,
        peer_params: TransportParameters,
        validity: Result<(), Error>,
    ) -> (r: Result<(), Error>)
        requires
            old(self)@.wf(),
        ensures
            final(self)@.wf(),
            (final(self)@, r) == old(self)@.with_peer_params(peer_params, validity),
    {
        validity?;
        self.peer_transport_params = Some(peer_params);
        self.apply_peer_transport_params(&peer_params)
    }

    /// Update flow control limits based on peer's advertised values
    fn apply_limits(&mut self, peer_params: &TransportParameters)
        ensures
            final(self)@ == old(self)@.with_limits(*peer_params),
    {
        if let Some(max_data) = peer_params.initial_max_data {
            self.flow_control.max_data = max_data.into_inner();
        }
        if let Some(max_streams_bidi) = peer_params.initial_max_streams_bidi {
            self.flow_control.max_streams_bidi = max_streams_bidi.into_inner();
        }
        if let Some(max_streams_uni) = peer_params.initial_max_streams_uni {
            self.flow_control.max_streams_uni = max_streams_uni.into_inner();
        }
    }

    /// Update ACK delay parameters for recovery
    fn apply_ack_params(&mut self, peer_params: &TransportParameters)
        ensures
            final(self)@ == old(self)@.with_ack_params(*peer_params),
    {
        if let Some(ack_delay_exponent) = peer_params.ack_delay_exponent {
            self.recovery.set_ack_delay_exponent(ack_delay_exponent.into_inner() as u8);
        }
        if let Some(max_ack_delay) = peer_params.max_ack_delay {
            self.recovery.set_max_ack_delay(
                Duration::from_millis(max_ack_delay.into_inner()),
            );
        }
    }

    /// Apply peer transport parameters to connection state
    fn apply_peer_transport_params(&mut self, peer_params: &TransportParameters) -> (r: Result<
        (),
        Error,
    >)
        requires
            old(self)@.wf(),
        ensures
            final(self)@.wf(),
            (final(self)@, r) == old(self)@.applied(*peer_params),
    {
        self.apply_limits(peer_params);
        if let Some(max_idle_timeout) = peer_params.max_idle_timeout {
            let local_timeout: u64 = value_or(self.transport_params.max_idle_timeout, u64::MAX);
            let peer_timeout: u64 = max_idle_timeout.into_inner();
            let min_timeout: u64 = if local_timeout <= peer_timeout {
                local_timeout
            } else {
                peer_timeout
            };
            self.transport_params.max_idle_timeout = Some(VarInt::from_u64(min_timeout)?);
        }
        self.apply_ack_params(peer_params);
        if let Some(active_cid_limit) = peer_params.active_connection_id_limit {
            if active_cid_limit.into_inner() < 2 {
                return Err(
                    Error::ProtocolViolation(Reason::Text("Peer active_connection_id_limit too small")),
                );
            }
        }
        Ok(())
    }
}

impl<D> ConnectionView<D> {
    /// The connection with handshake data in a CRYPTO frame, where there is any.
    pub open spec fn with_handshake_data(self, data: Seq<u8>) -> ConnectionView<D> {
        if data.len() == 0 {
            self
        } else {
            ConnectionView {
                crypto_send_offset: (self.crypto_send_offset + data.len()) as u64,
                ..self
            }.queue(FrameView::Crypto { offset: self.crypto_send_offset, data })
        }
    }

    /// Whether the handshake is done: a client must have sent its last message.
    pub open spec fn handshake_finished(self, handshaking: bool) -> bool {
        !handshaking && (self.crypto.role == ConnectionRole::Client
            ==> self.crypto.handshake_send_count > 0)
    }

    /// The connection once the handshake is done. A server says so to the client.
    pub open spec fn established(self, now: Instant) -> ConnectionView<D> {
        let confirmed = ConnectionView {
            state: StateView::Established,
            recovery: self.recovery.confirmed(now),
            ..self
        };
        if self.role == ConnectionRole::Server {
            confirmed.queue(FrameView::HandshakeDone)
        } else {
            confirmed
        }
    }

    /// The connection with the limits that the peer declares.
    pub open spec fn with_limits(self, p: TransportParameters) -> ConnectionView<D> {
        ConnectionView {
            flow_control: FlowControlLimits {
                max_data: declared(p.initial_max_data, self.flow_control.max_data),
                max_streams_bidi: declared(
                    p.initial_max_streams_bidi,
                    self.flow_control.max_streams_bidi,
                ),
                max_streams_uni: declared(
                    p.initial_max_streams_uni,
                    self.flow_control.max_streams_uni,
                ),
                ..self.flow_control
            },
            ..self
        }
    }

    /// The connection with what the peer declares about ACK frames.
    pub open spec fn with_ack_params(self, p: TransportParameters) -> ConnectionView<D> {
        ConnectionView {
            recovery: self.recovery.with_ack_params(
                match p.ack_delay_exponent {
                    Some(e) => Some(e.0 as u8),
                    None => None,
                },
                match p.max_ack_delay {
                    Some(d) => Some(Duration { nanos: (d.0 * 1_000_000) as u128 }),
                    None => None,
                },
            ),
            ..self
        }
    }

    /// The shorter of the own idle timeout and that of the peer.
    pub open spec fn idle_timeout_with(self, p: VarInt) -> int {
        min_int(declared(self.transport_params.max_idle_timeout, u64::MAX) as int, p.0 as int)
    }

    /// The connection with the parameters of the peer applied, and whether they can be.
    pub open spec fn applied(self, p: TransportParameters) -> (
        ConnectionView<D>,
        Result<(), Error>,
    ) {
        let limited = self.with_limits(p);
        if p.max_idle_timeout matches Some(t) && self.idle_timeout_with(t) > MAX_VARINT {
            (limited, Err(Error::VarIntRange))
        } else {
            let done = ConnectionView {
                transport_params: TransportParameters {
                    max_idle_timeout: match p.max_idle_timeout {
                        Some(t) => Some(VarInt(self.idle_timeout_with(t) as u64)),
                        None => self.transport_params.max_idle_timeout,
                    },
                    ..self.transport_params
                },
                ..limited
            }.with_ack_params(p);
            if p.active_connection_id_limit matches Some(n) && n.0 < 2 {
                (
                    done,
                    Err(
                        Error::ProtocolViolation(Reason::Text("Peer active_connection_id_limit too small")),
                    ),
                )
            } else {
                (done, Ok(()))
            }
        }
    }

    /// The connection with the parameters of the peer, unless they are found invalid.
    pub open spec fn with_peer_params(
        self,
        p: TransportParameters,
        validity: Result<(), Error>,
    ) -> (ConnectionView<D>, Result<(), Error>) {
        match validity {
            Err(e) => (self, Err(e)),
            Ok(_) => ConnectionView { peer_transport_params: Some(p), ..self }.applied(p),
        }
    }
}

} // verus!
