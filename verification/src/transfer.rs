//! What goes in and out of a connection: packets, stream data, and the passing of time.

use crate::buffer::contents;
use crate::congestion::{CongestionView, UpdateStep};
use crate::connection::{
    connection_ids_of, copy_frames, is_initialized, parse_connection_ids_from_packet, Connection,
    ConnectionRole, ConnectionState, ConnectionStats, ConnectionView, MaintenanceStep, Outgoing,
    PacketStep, StateView, StreamEvent, DEFAULT_IDLE_TIMEOUT, DRAIN_PERIOD, HEADER_ESTIMATE,
    STREAM_WINDOW_INCREMENT,
};
use crate::crypto_impl::{
    initial_keys_agree, packet_roundtrip, pad_len, CryptoManager, Decrypted, Encrypted,
};
use crate::error::{Error, Reason};
use crate::flow_control::FlowControlLimits;
use crate::frame_types::{Frame, FrameView};
use crate::addr::SocketAddress;
use crate::protection::pn_offset_of;
use crate::packet::{LongHeader, Packet, PacketHeader, PacketType, ShortHeader, TypeSpecificData};
use crate::payload::{frames_bytes, readable, views};
use crate::recovery::{space_of, BySpace, PacketNumberSpace, RecoveryView};
use crate::retransmission::{any_elicits, is_ack_eliciting, only_acks};
use crate::sent_packets::SentView;
use crate::stream::{StreamId, StreamStats, StreamType};
use crate::time::{max_int, min_int, Duration, Instant};
use crate::transport::{declared, value_or, TransportParameters};
use crate::varint::VarInt;
use bytes::Bytes;
use vstd::prelude::*;

verus! {

impl<D> ConnectionView<D> {
    /// Whether stream data of a length may be sent, or why not.
    pub open spec fn send_refusal(self, len: int, enough_tokens: bool) -> Option<Error> {
        let size = len + HEADER_ESTIMATE;
        let may_send = self.congestion.pacing.may_send(enough_tokens);
        if !(self.bytes_in_flight + size < self.congestion.window() && may_send) {
            Some(Error::Internal(Reason::Text("Congestion control limit reached")))
        } else if size > min_int(
            max_int(self.congestion.window() - self.bytes_in_flight, 0),
            (self.congestion.pacing.pacing_rate / 1000 * 10) as int,
        ) {
            Some(Error::Internal(Reason::Text("Pacing limit reached")))
        } else {
            None
        }
    }

    /// How long the connection may be idle, in nanoseconds.
    pub open spec fn idle_limit(self) -> int {
        declared(self.transport_params.max_idle_timeout, DEFAULT_IDLE_TIMEOUT) * 1_000_000
    }

    /// Whether the connection has been idle for too long.
    pub open spec fn is_idle(self, now: Instant) -> bool {
        now.nanos - self.last_activity.nanos > self.idle_limit()
    }

    /// The connection after it was asked to close.
    pub open spec fn closed_with(
        self,
        error_code: u64,
        reason: Seq<char>,
        reason_bytes: Seq<u8>,
        now: Instant,
    ) -> ConnectionView<D> {
        if self.state is Closing || self.state is Closed {
            self
        } else {
            self.draining(error_code, reason, now).queue(
                FrameView::ConnectionClose {
                    error_code,
                    frame_type: None,
                    reason_phrase: reason_bytes,
                },
            )
        }
    }

    /// The packet number that is used next.
    pub open spec fn next_number(self) -> u64 {
        self.packet_numbers.at(self.state.number_space())
    }

    /// The connection after a packet with these frames was encrypted.
    pub open spec fn after_encrypting(self, handshaking: bool) -> ConnectionView<D> {
        ConnectionView {
            pending: Seq::empty(),
            packet_numbers: self.packet_numbers.with(
                self.state.number_space(),
                (self.next_number() + 1) as u64,
            ),
            crypto: self.crypto.after_sending(self.crypto.next_packet_type(handshaking), true),
            ..self
        }
    }

    /// The connection after a packet arrived, before anything in it was looked at.
    pub open spec fn after_arrival(self, len: int, now: Instant) -> ConnectionView<D> {
        ConnectionView {
            last_activity: now,
            recovery: RecoveryView {
                bytes_received: (self.recovery.bytes_received + len) as u64,
                ..self.recovery
            },
            ..self
        }
    }

    /// The connection with an Initial packet of a client noticed.
    pub open spec fn noticing(self, first_byte: u8) -> ConnectionView<D> {
        if self.role == ConnectionRole::Server && self.state is Initial && first_byte & 0xf0 == 0xc0
        {
            ConnectionView { state: StateView::Handshaking, ..self }
        } else {
            self
        }
    }

    /// Whether this is the connection after a packet was opened.
    pub open spec fn has_opened(
        self,
        before: ConnectionView<D>,
        first_byte: u8,
        packet_number: u64,
        frames: Seq<FrameView>,
        handshaking: bool,
        now: Instant,
    ) -> bool {
        &&& self == (ConnectionView { recovery: self.recovery, ..before.noticing(first_byte) })
        &&& self.recovery.has_received(
            before.recovery,
            packet_number,
            space_of(before.crypto.next_packet_type(handshaking)),
            any_elicits(frames),
            now,
        )
    }

    /// Whether a packet that was opened can be counted.
    pub open spec fn can_open(self, handshaking: bool, ack_eliciting: bool) -> bool {
        let space = space_of(self.crypto.next_packet_type(handshaking));
        &&& self.recovery.packets_recv < u64::MAX
        &&& ack_eliciting ==> self.recovery.ack_managers.at(space).ack_eliciting_count < u32::MAX
    }

    /// Whether a received packet is opened here, where it can be.
    pub open spec fn opens_packet(self, packet: Seq<u8>, negotiation_needed: bool) -> bool {
        &&& !(packet.len() >= 5 && packet.subrange(1, 5) == seq![0u8, 0, 0, 0])
        &&& !(self.role == ConnectionRole::Server && packet.len() >= 5 && negotiation_needed)
        &&& !self.crypto.received_with_tls(packet)
    }

    /// The connection after the draining period, where it is over.
    pub open spec fn drained(self, now: Instant) -> ConnectionView<D> {
        if self.state matches StateView::Closing { drain_timeout, .. } && now.nanos
            >= drain_timeout.nanos {
            ConnectionView { state: StateView::Closed, ..self }
        } else {
            self
        }
    }
}

impl<D> Connection<D> {
    /// Takes in what the streams know of a stream that the peer reset
    pub fn on_stream_reset(&mut self, final_size: u64, stats: Option<StreamStats>)
        requires
            stats matches Some(s) ==> old(self)@.flow_control.data_recv + max_int(
                final_size - s.data_recv,
                0,
            ) <= u64::MAX,
        ensures
            final(self)@ == (match stats {
                Some(s) => ConnectionView {
                    flow_control: FlowControlLimits {
                        data_recv: (old(self)@.flow_control.data_recv + max_int(
                            final_size - s.data_recv,
                            0,
                        )) as u64,
                        ..old(self)@.flow_control
                    },
                    ..old(self)@
                },
                None => old(self)@,
            }),
            final(self)@.flow_control.data_recv >= old(self)@.flow_control.data_recv,
            stats matches Some(s) ==> (s.data_recv <= final_size
                ==> final(self)@.flow_control.data_recv - old(self)@.flow_control.data_recv
                == final_size - s.data_recv),
    {
        if let Some(s) = stats {
            self.flow_control.record_data_recv(final_size.saturating_sub(s.data_recv));
        }
    }

    /// Takes in what the streams know of a stream whose data the peer no longer wants
    pub fn on_stop_sending(
        &mut self,
        stream_id: StreamId,
        application_error_code: u64,
        stats: Option<StreamStats>,
    )
        ensures
            final(self)@ == (match stats {
                Some(s) => old(self)@.queue(
                    FrameView::ResetStream {
                        stream_id: stream_id@,
                        application_error_code,
                        final_size: s.data_sent,
                    },
                ),
                None => old(self)@,
            }),
            stats matches Some(s) ==> (final(self)@.pending.last() matches FrameView::ResetStream {
                stream_id: i,
                application_error_code: e,
                final_size: n,
            } && i == stream_id@ && e == application_error_code && n == s.data_sent),
    {
        if let Some(s) = stats {
            self.push(
                Frame::ResetStream { stream_id, application_error_code, final_size: s.data_sent },
            );
        }
    }

    /// Takes in what the streams know of a stream on which the peer is blocked, and returns its
    /// new limit where it gets one
    pub fn on_stream_data_blocked(&mut self, stream_id: StreamId, stats: Option<StreamStats>) -> (r:
        Option<u64>)
        requires
            stats matches Some(s) ==> s.max_data_recv + STREAM_WINDOW_INCREMENT <= u64::MAX,
        ensures
            match stats {
                Some(s) => if s.data_recv > s.max_data_recv / 2 {
                    let new_max = (s.max_data_recv + STREAM_WINDOW_INCREMENT) as u64;
                    &&& r == Some(new_max)
                    &&& final(self)@ == old(self)@.queue(
                        FrameView::MaxStreamData {
                            stream_id: stream_id@,
                            maximum_stream_data: new_max,
                        },
                    )
                } else {
                    r is None && final(self)@ == old(self)@
                },
                None => r is None && final(self)@ == old(self)@,
            },
            r matches Some(m) ==> (final(self)@.pending.last() matches FrameView::MaxStreamData {
                stream_id: i,
                maximum_stream_data: n,
            } && i == stream_id@ && n == m && m > stats->Some_0.max_data_recv),
    {
        if let Some(s) = stats {
            let consumed: u64 = s.data_recv;
            let current_max: u64 = s.max_data_recv;
            if consumed > current_max / 2 {
                let new_max: u64 = current_max + STREAM_WINDOW_INCREMENT;
                self.push(Frame::MaxStreamData { stream_id, maximum_stream_data: new_max });
                return Some(new_max);
            }
        }
        None
    }

    /// Counts stream data that the streams took in
    pub fn on_stream_received(&mut self, data_len: u64) -> (r: Result<(), Error>)
        requires
            old(self)@.flow_control.data_recv + data_len <= u64::MAX,
        ensures
            final(self)@ == (ConnectionView {
                flow_control: FlowControlLimits {
                    data_recv: (old(self)@.flow_control.data_recv + data_len) as u64,
                    ..old(self)@.flow_control
                },
                ..old(self)@
            }),
            r == (if old(self)@.flow_control.data_recv + data_len > old(
                self,
            )@.flow_control.max_data_recv {
                Err::<(), Error>(Error::FlowControl)
            } else {
                Ok(())
            }),
            r is Ok <==> final(self)@.flow_control.data_recv <= old(
                self,
            )@.flow_control.max_data_recv,
            final(self)@.flow_control.data_recv - old(self)@.flow_control.data_recv == data_len,
    {
        self.flow_control.record_data_recv(data_len);
        if self.flow_control.data_recv > self.flow_control.max_data_recv {
            return Err(Error::FlowControl);
        }
        Ok(())
    }

    /// Takes in what happened to a stream, with what the streams know of it
    pub fn on_stream_event(&mut self, event: StreamEvent, stats: Option<StreamStats>)
        ensures
            final(self)@ == (match event {
                StreamEvent::StreamBlocked { stream_id, is_connection_blocked } =>
                    if is_connection_blocked {
                        old(self)@.queue(
                            FrameView::DataBlocked {
                                maximum_data: old(self)@.flow_control.max_data,
                            },
                        )
                    } else {
                        match stats {
                            Some(s) => old(self)@.queue(
                                FrameView::StreamDataBlocked {
                                    stream_id: stream_id@,
                                    maximum_stream_data: s.max_data_send,
                                },
                            ),
                            None => old(self)@,
                        }
                    },
                _ => old(self)@,
            }),
    {
        if let StreamEvent::StreamBlocked { stream_id, is_connection_blocked } = event {
            if is_connection_blocked {
                let maximum_data: u64 = self.flow_control.max_data;
                self.push(Frame::DataBlocked { maximum_data });
            } else if let Some(s) = stats {
                self.push(
                    Frame::StreamDataBlocked { stream_id, maximum_stream_data: s.max_data_send },
                );
            }
        }
    }

    /// Ends the processing of stream data: a MAX_DATA frame where it is due, then the frames
    /// that the stream has to send
    pub fn finish_stream_frame(&mut self, frames: Option<Vec<Frame>>)
        ensures
            final(self)@ == old(self)@.with_max_data().queue_all(
                match frames {
                    Some(f) => views(f@),
                    None => Seq::empty(),
                },
            ),
    {
        self.consider_sending_max_data();
        match frames {
            Some(f) => self.queue_frames(f),
            None => {
                assert(self@.pending + Seq::<FrameView>::empty() =~= self@.pending);
            },
        }
    }

    /// Whether streams can be opened in the current state
    pub fn check_open_stream(&self) -> (r: Result<(), Error>)
        ensures
            r == (if self@.state is Established {
                Ok::<(), Error>(())
            } else {
                Err(Error::ProtocolViolation(Reason::Text("Cannot open streams in current state")))
            }),
    {
        if !self.state.clone().can_accept_streams() {
            return Err(
                Error::ProtocolViolation(Reason::Text("Cannot open streams in current state")),
            );
        }
        Ok(())
    }

    /// Open a new stream, with the answer of the streams when they were asked for one
    pub fn open_stream(&mut self, stream_type: StreamType, created: Result<StreamId, Error>) -> (r:
        Result<StreamId, Error>)
        requires
            old(self)@.state is Established && created is Ok ==> old(self)@.flow_control.streams(
                stream_type,
            ) < u64::MAX,
        ensures
            !(old(self)@.state is Established) ==> r == Err::<StreamId, Error>(
                Error::ProtocolViolation(Reason::Text("Cannot open streams in current state")),
            ) && final(self)@ == old(self)@,
            old(self)@.state is Established ==> r == created && final(self)@ == (if created is Ok {
                ConnectionView {
                    flow_control: old(self)@.flow_control.opened(stream_type),
                    ..old(self)@
                }
            } else {
                old(self)@
            }),
    {
        self.check_open_stream()?;
        let stream_id: StreamId = created?;
        self.flow_control.record_stream_opened(stream_type);
        Ok(stream_id)
    }

    /// Whether congestion control and pacing allow stream data of a length
    pub fn check_stream_send(&self, len: usize, enough_tokens: bool) -> (r: Result<(), Error>)
        requires
            self@.bytes_in_flight + len + HEADER_ESTIMATE <= u64::MAX,
        ensures
            r == (match self@.send_refusal(len as int, enough_tokens) {
                Some(e) => Err::<(), Error>(e),
                None => Ok(()),
            }),
    {
        let packet_size: u64 = len as u64 + HEADER_ESTIMATE;
        if !self.congestion.can_send(self.bytes_in_flight + packet_size, enough_tokens) {
            return Err(Error::Internal(Reason::Text("Congestion control limit reached")));
        }
        let available_window: u64 = self.congestion.sending_window(
            self.bytes_in_flight,
            enough_tokens,
        );
        if packet_size > available_window {
            return Err(Error::Internal(Reason::Text("Pacing limit reached")));
        }
        Ok(())
    }

    /// Send data on a stream, with what the streams knew of it before, and their answer when
    /// they were handed the data. What is queued then is to be sent
    pub fn send_stream_data(
        &mut self,
        stream_id: StreamId,
        data: Bytes,
        fin: bool,
        enough_tokens: bool,
        stats: Option<StreamStats>,
        accepted: Result<(), Error>,
    ) -> (r: Result<(), Error>)
        requires
            old(self)@.bytes_in_flight + contents(data).len() + HEADER_ESTIMATE <= u64::MAX,
            old(self)@.send_refusal(contents(data).len() as int, enough_tokens) is None && accepted
                is Ok ==> old(self)@.flow_control.data_sent + contents(data).len() <= u64::MAX,
        ensures
            r == (match old(self)@.send_refusal(contents(data).len() as int, enough_tokens) {
                Some(e) => Err::<(), Error>(e),
                None => accepted,
            }),
            final(self)@ == (if r is Ok {
                ConnectionView {
                    flow_control: FlowControlLimits {
                        data_sent: (old(self)@.flow_control.data_sent + contents(
                            data,
                        ).len()) as u64,
                        ..old(self)@.flow_control
                    },
                    ..old(self)@
                }.queue(
                    FrameView::Stream {
                        stream_id: stream_id@,
                        offset: match stats {
                            Some(s) => s.data_sent,
                            None => 0,
                        },
                        length: None,
                        fin,
                        data: contents(data),
                    },
                )
            } else {
                old(self)@
            }),
    {
        self.check_stream_send(data.len(), enough_tokens)?;
        let offset: u64 = match stats {
            Some(s) => s.data_sent,
            None => 0,
        };
        accepted?;
        self.flow_control.record_data_sent(data.len() as u64);
        self.push(Frame::Stream { stream_id, offset, data, fin, length: None });
        Ok(())
    }

    /// Close a stream gracefully, with what the streams know of it. What is queued then is to be
    /// sent
    pub fn close_stream(&mut self, stream_id: StreamId, error_code: u64, stats: Option<StreamStats>)
        -> (r: Result<(), Error>)
        ensures
            match stats {
                Some(s) => r == Ok::<(), Error>(()) && final(self)@ == old(self)@.queue(
                    FrameView::ResetStream {
                        stream_id: stream_id@,
                        application_error_code: error_code,
                        final_size: s.data_sent,
                    },
                ),
                None => r == Err::<(), Error>(
                    Error::ProtocolViolation(Reason::Text("Stream not found")),
                )
                    && final(self)@ == old(self)@,
            },
    {
        match stats {
            Some(s) => {
                self.push(
                    Frame::ResetStream {
                        stream_id,
                        application_error_code: error_code,
                        final_size: s.data_sent,
                    },
                );
                Ok(())
            },
            None => Err(Error::ProtocolViolation(Reason::Text("Stream not found"))),
        }
    }

    /// Close the connection. What is queued then is to be sent. A connection that is closed
    /// stays as it is
    pub fn close(&mut self, error_code: u64, reason: String, now: Instant)
        ensures
            final(self)@ == old(self)@.closed_with(
                error_code,
                reason@,
                vstd::utf8::encode_utf8(reason@),
                now,
            ),
    {
        if self.state.clone().is_closed() {
            return;
        }
        let reason_phrase: Bytes = Bytes::copy_from_slice(reason.as_str().as_bytes());
        self.state = ConnectionState::Closing {
            error_code,
            reason,
            drain_timeout: now.saturating_add(Duration::from_nanos(DRAIN_PERIOD)),
        };
        self.push(Frame::ConnectionClose { error_code, frame_type: None, reason_phrase });
    }

    /// Get the next packet number
    pub fn next_packet_number(&mut self) -> (r: u64)
        requires
            old(self)@.next_number() < u64::MAX,
        ensures
            r == old(self)@.next_number(),
            final(self)@ == (ConnectionView {
                packet_numbers: old(self)@.packet_numbers.with(
                    old(self)@.state.number_space(),
                    (r + 1) as u64,
                ),
                ..old(self)@
            }),
    {
        let space: PacketNumberSpace = match self.state {
            ConnectionState::Initial => PacketNumberSpace::Initial,
            ConnectionState::Handshaking => PacketNumberSpace::Handshake,
            _ => PacketNumberSpace::ApplicationData,
        };
        let number: &mut u64 = self.packet_numbers.get_mut(space);
        let pn: u64 = *number;
        *number = pn + 1;
        pn
    }

    /// Puts frames in front of the pending ones, the last of them first
    fn push_front_all(&mut self, frames: Vec<Frame>)
        ensures
            final(self)@ == (ConnectionView {
                pending: views(frames@).reverse() + old(self)@.pending,
                ..old(self)@
            }),
    {
        let ghost all = views(frames@);
        let ghost start = self@.pending;
        let mut rest: Vec<Frame> = frames;
        let ghost mut k: int = 0;
        proof {
            assert(all.take(0).reverse() + start =~= start);
            assert(views(rest@) =~= all.skip(0));
        }
        while rest.len() > 0
            invariant
                0 <= k <= all.len(),
                views(rest@) == all.skip(k),
                self@ == (ConnectionView { pending: all.take(k).reverse() + start, ..old(self)@ }),
            decreases rest@.len(),
        {
            let ghost before = rest@;
            let ghost pending_before = self.pending_frames@;
            let frame: Frame = rest.remove(0);
            let ghost f = frame@;
            self.pending_frames.push_front(frame);
            proof {
                assert(views(before).len() == before.len());
                assert(all.skip(k)[0] == f);
                assert(views(self.pending_frames@) =~= seq![f] + views(pending_before));
                assert(all.take(k + 1).reverse() =~= seq![f] + all.take(k).reverse());
                assert(seq![f] + (all.take(k).reverse() + start) =~= all.take(k + 1).reverse()
                    + start);
                assert forall|i: int| 0 <= i < rest@.len() implies views(rest@)[i] == all.skip(
                    k + 1,
                )[i] by {
                    assert(rest@[i] == before[i + 1]);
                    assert(views(before)[i + 1] == all.skip(k)[i + 1]);
                }
                assert(views(rest@) =~= all.skip(k + 1));
                k = k + 1;
            }
        }
        assert(views(rest@).len() == 0);
        assert(all.take(k) =~= all);
    }

    /// Takes all pending frames
    fn take_pending(&mut self) -> (r: Vec<Frame>)
        ensures
            views(r@) == old(self)@.pending,
            final(self)@ == (ConnectionView { pending: Seq::empty(), ..old(self)@ }),
    {
        let ghost all = self@.pending;
        let mut frames: Vec<Frame> = Vec::new();
        proof {
            assert(views(frames@) =~= all.take(0));
            assert(self@.pending =~= all.skip(0));
        }
        while self.pending_frames.len() > 0
            invariant
                frames@.len() <= all.len(),
                views(frames@) == all.take(frames@.len() as int),
                self@ == (ConnectionView { pending: all.skip(frames@.len() as int), ..old(self)@ }),
            decreases self.pending_frames@.len(),
        {
            let ghost before = self.pending_frames@;
            let ghost taken = frames@;
            if let Some(frame) = self.pending_frames.pop_front() {
                proof {
                    assert(views(before).len() == before.len());
                    assert(all.skip(taken.len() as int)[0] == frame@);
                }
                frames.push(frame);
                proof {
                    let n = taken.len() as int;
                    assert(views(frames@) =~= views(taken).push(frame@));
                    assert(all.take(n + 1) =~= all.take(n).push(frame@));
                    assert forall|i: int| 0 <= i < self.pending_frames@.len() implies views(
                        self.pending_frames@,
                    )[i] == all.skip(n + 1)[i] by {
                        assert(self.pending_frames@[i] == before[i + 1]);
                        assert(views(before)[i + 1] == all.skip(n)[i + 1]);
                    }
                    assert(views(self.pending_frames@) =~= all.skip(n + 1));
                }
            }
        }
        proof {
            assert(views(self.pending_frames@).len() == 0);
            assert(all.take(frames@.len() as int) =~= all);
            assert(views(self.pending_frames@) =~= Seq::<FrameView>::empty());
        }
        frames
    }

    /// Puts all pending frames into a packet. The frames that the streams have for flow control
    /// go first. The packet is to be sent, and then recorded
    pub fn send_pending_frames(&mut self, flow_control_frames: Vec<Frame>, handshaking: bool) -> (r:
        Result<Option<Outgoing>, Error>)
        requires
            old(self)@.wf(),
            ({
                let all = views(flow_control_frames@).reverse() + old(self)@.pending;
                all.len() > 0 ==> {
                    &&& old(self)@.next_number() < u64::MAX
                    &&& old(self)@.crypto.next_packet_type(handshaking) == PacketType::Handshake
                        ==> old(self)@.crypto.handshake_send_count < u32::MAX
                    &&& frames_bytes(all).len() + old(self)@.crypto.cid_bytes() + 0x1_0000
                        <= usize::MAX
                }
            }),
        ensures
            final(self)@.wf(),
            ({
                let all = views(flow_control_frames@).reverse() + old(self)@.pending;
                let pn = old(self)@.next_number();
                if all.len() == 0 {
                    &&& r matches Ok(o) && o is None
                    &&& final(self)@ == old(self)@
                } else {
                    &&& final(self)@ == old(self)@.after_encrypting(handshaking)
                    &&& match r {
                        Ok(o) => {
                            &&& o is Some
                            &&& o->Some_0.packet_number == pn
                            &&& views(o->Some_0.frames@) == all
                            &&& old(self)@.crypto.encrypts(
                                handshaking,
                                pn,
                                all,
                                Ok(o->Some_0.packet),
                            )
                        },
                        Err(e) => old(self)@.crypto.encrypts(handshaking, pn, all, Err(e)),
                    }
                }
            }),
    {
        self.push_front_all(flow_control_frames);
        if self.pending_frames.len() == 0 {
            assert(self@.pending =~= Seq::<FrameView>::empty());
            assert(old(self)@.pending =~= Seq::<FrameView>::empty());
            return Ok(None);
        }
        let frames: Vec<Frame> = self.take_pending();
        let packet_number: u64 = self.next_packet_number();
        let sent: Vec<Frame> = copy_frames(&frames);
        assert(views(sent@).len() == sent@.len());
        match self.crypto.encrypt_packet(handshaking, packet_number, sent) {
            Ok(packet) => Ok(Some(Outgoing { packet_number, packet, frames })),
            Err(e) => Err(e),
        }
    }

    /// Records a packet that was sent, for loss recovery
    pub fn record_sent_packet(
        &mut self,
        packet_number: u64,
        packet: Bytes,
        frames: Vec<Frame>,
        now: Instant,
    )
        requires
            old(self)@.wf(),
            old(self)@.recovery.packets_sent < u64::MAX,
            old(self)@.recovery.spaces.at(space_of(old(self)@.state.sent_type())).has_room_for(
                contents(packet).len() as usize,
            ),
            old(self)@.bytes_in_flight + contents(packet).len() <= u64::MAX,
        ensures
            final(self)@.wf(),
            final(self)@ == (ConnectionView {
                recovery: old(self)@.recovery.after_sending(
                    SentView {
                        packet_number: (packet_number as u32) as u64,
                        sent_time: now,
                        size: contents(packet).len() as usize,
                        ack_eliciting: any_elicits(views(frames@)),
                        ack_only: only_acks(views(frames@)),
                        frames: views(frames@),
                        pn_space: space_of(old(self)@.state.sent_type()),
                    },
                ),
                bytes_in_flight: (old(self)@.bytes_in_flight + contents(packet).len()) as u64,
                ..old(self)@
            }),
    {
        let packet_size: usize = packet.len();
        let header: PacketHeader = self.recorded_header(packet_number as u32, packet_size as u32);
        let source: SocketAddress = match self.local_addr {
            Some(a) => a,
            None => SocketAddress::V4 { ip: 0, port: 0 },
        };
        let sent: Packet = Packet::new(header, packet, source, self.remote_addr);
        self.recovery.on_packet_sent(&sent, frames, now);
        self.bytes_in_flight += packet_size as u64;
    }

    /// The header under which a packet is recorded
    fn recorded_header(&self, packet_number: u32, packet_size: u32) -> (r: PacketHeader)
        ensures
            r@.packet_type() == self@.state.sent_type(),
            r@.number() == Some(packet_number),
    {
        let length: VarInt = VarInt::from_u32(packet_size);
        let (packet_type, type_specific) = match self.state {
            ConnectionState::Initial => (
                PacketType::Initial,
                TypeSpecificData::Initial { token: Bytes::new(), length, packet_number },
            ),
            ConnectionState::Handshaking => (
                PacketType::Handshake,
                TypeSpecificData::Handshake { length, packet_number },
            ),
            ConnectionState::EarlyData => (
                PacketType::ZeroRtt,
                TypeSpecificData::ZeroRtt { length, packet_number },
            ),
            _ => {
                return PacketHeader::Short(
                    ShortHeader::new(false, false, self.local_cid.clone(), packet_number),
                );
            },
        };
        PacketHeader::Long(
            LongHeader::new(
                packet_type,
                crate::VERSION_1,
                self.remote_cid.clone(),
                self.local_cid.clone(),
                type_specific,
            ),
        )
    }

    /// Process an incoming packet. Whether we would have to negotiate its version, and whether
    /// the TLS handshake goes on, is for the caller to say
    pub fn process_packet(
        &mut self,
        packet_data: &[u8],
        negotiation_needed: bool,
        handshaking: bool,
        now: Instant,
    ) -> (r: Result<PacketStep, Error>)
        requires
            old(self)@.wf(),
            packet_data@.len() + 1024 <= usize::MAX,
            old(self)@.recovery.bytes_received + packet_data@.len() <= u64::MAX,
            old(self)@.opens_packet(packet_data@, negotiation_needed) ==> old(self)@.can_open(
                handshaking,
                true,
            ),
        ensures
            final(self)@.wf(),
            ({
                let s = packet_data@;
                let v = old(self)@.after_arrival(s.len() as int, now);
                if s.len() >= 5 && s.subrange(1, 5) == seq![0u8, 0, 0, 0] {
                    &&& final(self)@ == v
                    &&& match v.role {
                        ConnectionRole::Client => r == Ok::<PacketStep, Error>(
                            PacketStep::VersionNegotiation,
                        ),
                        ConnectionRole::Server => r == Err::<PacketStep, Error>(
                            Error::InvalidPacket(Reason::Text("Server received version negotiation packet")),
                        ),
                    }
                } else if v.role == ConnectionRole::Server && s.len() >= 5 && negotiation_needed {
                    &&& final(self)@ == v
                    &&& match connection_ids_of(s) {
                        Ok((dst, src)) => r matches Ok(PacketStep::Negotiate { dst_cid, src_cid })
                            && dst_cid@ == dst && src_cid@ == src,
                        Err(e) => r == Err::<PacketStep, Error>(e),
                    }
                } else if v.crypto.received_with_tls(s) {
                    &&& final(self)@ == v
                    &&& match pn_offset_of(s) {
                        Err(e) => r == Err::<PacketStep, Error>(e),
                        Ok(o) => if s.len() < o + 20 {
                            r == Err::<PacketStep, Error>(
                                Error::Crypto(Reason::Text("Packet too short for decryption")),
                            )
                        } else {
                            r matches Ok(PacketStep::OpenWithTls { pn_offset, sample }) && pn_offset
                                == o && sample@ == s.subrange(o + 4, o + 20)
                        },
                    }
                } else {
                    match v.crypto.decrypted(s) {
                        Err(e) => r == Err::<PacketStep, Error>(e) && final(self)@ == v,
                        Ok((pn, frames, payload)) => {
                            &&& r matches Ok(PacketStep::Frames(p)) && p.packet_number == pn
                                && views(p.frames@) == frames && contents(p.payload) == payload
                            &&& final(self)@.has_opened(v, s[0], pn, frames, handshaking, now)
                        },
                    }
                }
            }),
    {
        self.last_activity = now;
        self.recovery.update_bytes_received(packet_data.len());
        let ghost v = self@;
        assert(v =~= old(self)@.after_arrival(packet_data@.len() as int, now));
        if packet_data.len() >= 5 {
            let states_none: bool = packet_data[1] == 0 && packet_data[2] == 0 && packet_data[3]
                == 0 && packet_data[4] == 0;
            proof {
                let field = packet_data@.subrange(1, 5);
                assert(field[0] == packet_data@[1] && field[1] == packet_data@[2] && field[2]
                    == packet_data@[3] && field[3] == packet_data@[4]);
                assert(states_none ==> field =~= seq![0u8, 0, 0, 0]);
            }
            if states_none {
                return match self.role {
                    ConnectionRole::Client => Ok(PacketStep::VersionNegotiation),
                    ConnectionRole::Server => Err(
                        Error::InvalidPacket(Reason::Text("Server received version negotiation packet")),
                    ),
                };
            }
            if matches!(self.role, ConnectionRole::Server) && negotiation_needed {
                let (dst_cid, src_cid) = parse_connection_ids_from_packet(packet_data)?;
                return Ok(PacketStep::Negotiate { dst_cid, src_cid });
            }
        }
        match self.crypto.decrypt_packet(packet_data)? {
            Decrypted::Packet(p) => {
                let first_byte: u8 = packet_data[0];
                self.on_packet_opened(first_byte, p.packet_number, &p.frames, handshaking, now);
                Ok(PacketStep::Frames(p))
            },
            Decrypted::Tls { pn_offset, sample } => Ok(
                PacketStep::OpenWithTls { pn_offset, sample },
            ),
        }
    }

    /// Whether a packet that was opened can be counted
    pub fn can_open(&self, handshaking: bool, ack_eliciting: bool) -> (r: bool)
        ensures
            r == self@.can_open(handshaking, ack_eliciting),
    {
        let packet_type: PacketType = self.crypto.determine_packet_type(handshaking);
        self.recovery.can_receive(packet_type, ack_eliciting)
    }

    /// Takes in that a packet was opened, before its frames are processed
    pub fn on_packet_opened(
        &mut self,
        first_byte: u8,
        packet_number: u64,
        frames: &Vec<Frame>,
        handshaking: bool,
        now: Instant,
    )
        requires
            old(self)@.wf(),
            old(self)@.can_open(handshaking, any_elicits(views(frames@))),
        ensures
            final(self)@.wf(),
            final(self)@.has_opened(
                old(self)@,
                first_byte,
                packet_number,
                views(frames@),
                handshaking,
                now,
            ),
    {
        if matches!(self.role, ConnectionRole::Server) && matches!(
            self.state,
            ConnectionState::Initial
        ) && first_byte & 0xf0 == 0xc0 {
            self.state = ConnectionState::Handshaking;
        }
        let packet_type: PacketType = self.crypto.determine_packet_type(handshaking);
        let ack_eliciting: bool = is_ack_eliciting(frames);
        self.recovery.on_packet_received(packet_number, packet_type, ack_eliciting, now);
    }

    /// Check if the connection has timed out
    pub fn is_idle_timeout(&self, now: Instant) -> (r: bool)
        ensures
            r == self@.is_idle(now),
    {
        let idle_timeout: Duration = Duration::from_millis(
            value_or(self.transport_params.max_idle_timeout, DEFAULT_IDLE_TIMEOUT),
        );
        now.duration_since(self.last_activity).nanos > idle_timeout.nanos
    }

    /// Whether periodic maintenance can be done: the probe timeout can be doubled, where probe
    /// packets are due
    pub fn can_maintain(&self, now: Instant) -> (r: bool)
        ensures
            r == (!self@.is_idle(now) && self@.recovery.probe_due(now) ==> self@.recovery.pto_count
                < 31),
    {
        self.is_idle_timeout(now) || self.recovery.can_check_loss_detection(now)
    }

    /// Perform periodic maintenance: the idle timeout, and loss recovery
    pub fn maintain(&mut self, now: Instant) -> (r: MaintenanceStep)
        requires
            old(self)@.wf(),
            !old(self)@.is_idle(now) && old(self)@.recovery.probe_due(now)
                ==> old(self)@.recovery.pto_count < 31,
        ensures
            final(self)@.wf(),
            ({
                let v = old(self)@;
                if v.is_idle(now) {
                    &&& r == (if v.state is Closing || v.state is Closed {
                        MaintenanceStep::Stop
                    } else {
                        MaintenanceStep::Close
                    })
                    &&& final(self)@ == v.closed_with(
                        0,
                        "Idle timeout"@,
                        vstd::utf8::encode_utf8("Idle timeout"@),
                        now,
                    )
                } else if v.recovery.timer matches Some(t) && now.nanos >= t.nanos {
                    &&& r == (if v.recovery.timeout_frames(now).len() > 0 {
                        MaintenanceStep::Send
                    } else {
                        MaintenanceStep::Continue
                    })
                    &&& final(self)@ == (ConnectionView {
                        recovery: v.recovery.after_timeout(now),
                        ..v
                    }).queue_all(v.recovery.timeout_frames(now))
                } else {
                    r == MaintenanceStep::Continue && final(self)@ == v
                }
            }),
    {
        if self.is_idle_timeout(now) {
            let closed: bool = self.state.clone().is_closed();
            self.close(0, "Idle timeout".to_owned(), now);
            return if closed {
                MaintenanceStep::Stop
            } else {
                MaintenanceStep::Close
            };
        }
        if let Some(frames) = self.recovery.check_loss_detection(now) {
            assert(views(frames@).len() == frames@.len());
            if frames.len() > 0 {
                self.queue_frames(frames);
                return MaintenanceStep::Send;
            }
            assert(self@.pending + views(frames@) =~= self@.pending);
        }
        MaintenanceStep::Continue
    }

    /// Ends periodic maintenance: congestion control, and the draining period
    pub fn finish_maintenance(&mut self, now: Instant)
        requires
            old(self)@.wf(),
        ensures
            final(self)@.wf(),
            final(self)@ == (ConnectionView {
                congestion: (CongestionView {
                    newreno: old(self)@.congestion.newreno.updated(now),
                    pacing: old(self)@.congestion.pacing.refreshed(now),
                    ecn: old(self)@.congestion.ecn.refreshed(now),
                    ..old(self)@.congestion
                }),
                ..old(self)@
            }).drained(now),
    {
        let _step: UpdateStep = self.congestion.update(now);
        let drained: bool = match &self.state {
            ConnectionState::Closing { drain_timeout, .. } => now.nanos >= drain_timeout.nanos,
            _ => false,
        };
        if drained {
            self.state = ConnectionState::Closed;
        }
    }

    /// Get local transport parameters to send to peer
    pub fn get_transport_params(&self) -> (r: &TransportParameters)
        ensures
            *r == self@.transport_params,
    {
        &self.transport_params
    }

    /// Get peer transport parameters if available
    pub fn get_peer_transport_params(&self) -> (r: Option<&TransportParameters>)
        ensures
            match self@.peer_transport_params {
                Some(p) => r == Some(&p),
                None => r is None,
            },
    {
        self.peer_transport_params.as_ref()
    }

    /// Get statistics about the connection, with the number of streams
    pub fn stats(&self, streams_count: usize, enough_tokens: bool) -> (r: ConnectionStats)
        ensures
            r.state@ == self@.state,
            r.streams_count == streams_count,
            r.data_sent == self@.flow_control.data_sent,
            r.data_recv == self@.flow_control.data_recv,
            r.packets_sent == self@.recovery.packets_sent,
            r.packets_recv == self@.recovery.packets_recv,
            r.rtt == self@.recovery.rtt.smoothed_rtt,
            r.cwnd == self@.congestion.window(),
            r.bytes_in_flight == self@.bytes_in_flight,
            r.available_send_window == max_int(
                self@.flow_control.max_data - self@.flow_control.data_sent,
                0,
            ),
            r.available_recv_window == max_int(
                self@.flow_control.max_data_recv - self@.flow_control.data_recv,
                0,
            ),
            r.congestion_limited == !(self@.bytes_in_flight < self@.congestion.window()
                && self@.congestion.pacing.may_send(enough_tokens)),
            r.flow_control_limited == (self@.flow_control.data_sent >= self@.flow_control.max_data),
    {
        ConnectionStats {
            state: self.state.clone(),
            streams_count,
            data_sent: self.flow_control.data_sent,
            data_recv: self.flow_control.data_recv,
            packets_sent: self.recovery.packets_sent(),
            packets_recv: self.recovery.packets_recv(),
            rtt: self.recovery.rtt(),
            cwnd: self.congestion.congestion_window(),
            bytes_in_flight: self.bytes_in_flight,
            available_send_window: self.flow_control.available_send_window(),
            available_recv_window: self.flow_control.available_recv_window(),
            congestion_limited: !self.congestion.can_send(self.bytes_in_flight, enough_tokens),
            flow_control_limited: !self.flow_control.can_send_data(1),
        }
    }

    /// Handle version negotiation packet (client side), with the version that was chosen from
    /// it. Another version than the current one starts the connection anew
    pub fn handle_version_negotiation(&mut self, selected: Result<u32, Error>) -> (r: Result<
        (),
        Error,
    >)
        requires
            old(self)@.wf(),
        ensures
            final(self)@.wf(),
            r == (if old(self)@.role != ConnectionRole::Client {
                Err::<(), Error>(
                    Error::Internal(Reason::Text("Version negotiation is only for clients")),
                )
            } else {
                match selected {
                    Ok(_) => Ok(()),
                    Err(e) => Err(e),
                }
            }),
            ({
                let changed = r is Ok && selected->Ok_0 != old(self)@.quic_version;
                &&& !changed ==> final(self)@ == old(self)@
                &&& changed ==> {
                    &&& is_initialized(
                        final(self)@.crypto,
                        ConnectionRole::Client,
                        old(self)@.local_cid,
                        old(self)@.remote_cid,
                    )
                    &&& final(self)@.crypto.local_transport_params == Some(
                        old(self)@.transport_params,
                    )
                    &&& final(self)@ == (ConnectionView {
                        quic_version: selected->Ok_0,
                        state: StateView::Initial,
                        packet_numbers: (BySpace { initial: 0, handshake: 0, application: 0 }),
                        crypto: final(self)@.crypto,
                        ..old(self)@
                    })
                }
            }),
    {
        if !matches!(self.role, ConnectionRole::Client) {
            return Err(Error::Internal(Reason::Text("Version negotiation is only for clients")));
        }
        let new_version: u32 = selected?;
        if new_version != self.quic_version {
            self.quic_version = new_version;
            self.state = ConnectionState::Initial;
            self.packet_numbers = BySpace { initial: 0, handshake: 0, application: 0 };
            self.crypto = Self::new_crypto(
                self.role,
                &self.local_cid,
                &self.remote_cid,
                self.transport_params,
            )?;
        }
        Ok(())
    }

    /// Check if version negotiation is needed for incoming packet, whose version is supported or
    /// not: only a server negotiates
    pub fn needs_version_negotiation(&self, version_supported: bool) -> (r: bool)
        ensures
            r == (self@.role == ConnectionRole::Server && !version_supported),
    {
        matches!(self.role, ConnectionRole::Server) && !version_supported
    }

    /// Get current QUIC version
    pub fn quic_version(&self) -> (r: u32)
        ensures
            r == self@.quic_version,
    {
        self.quic_version
    }

    /// Set crypto manager
    pub fn set_crypto_manager(&mut self, crypto: CryptoManager<D>)
        ensures
            final(self)@ == (ConnectionView { crypto, ..old(self)@ }),
    {
        self.crypto = crypto;
    }
}

/// A server opens the first packet of a client that knows it by its connection ID, and gets its
/// frames in their order, with the padding as one PADDING frame. `packet` is what the client
/// makes of the frames.
pub proof fn first_packet_is_understood<C, S>(
    client: CryptoManager<C>,
    server: CryptoManager<S>,
    client_cid: Seq<u8>,
    server_cid: Seq<u8>,
    packet_number: u64,
    frames: Seq<FrameView>,
    packet: Bytes,
)
    requires
        is_initialized(client, ConnectionRole::Client, client_cid, server_cid),
        is_initialized(server, ConnectionRole::Server, server_cid, client_cid),
        client.encrypts(true, packet_number, frames, Ok(Encrypted::Packet(packet))),
        client.cids_fit(PacketType::Initial),
        packet_number < 0x1_0000_0000,
        contents(packet).len() > 0,
        readable(frames, pad_len(PacketType::Initial, frames_bytes(frames).len())),
    ensures
        server.decrypted(contents(packet)) matches Ok((pn, received, _)) && pn == packet_number
            && received.take(frames.len() as int) == frames && (received.len() == frames.len()
            || received == frames.push(FrameView::Padding)),
{
    assert(client.next_packet_type(true) == PacketType::Initial);
    initial_keys_agree(client, server, server_cid);
    let sent_with = client.initial_send_keys->Some_0;
    let received_with = server.initial_recv_keys->Some_0;
    packet_roundtrip(
        server,
        sent_with,
        received_with,
        PacketType::Initial,
        frames,
        packet_number,
        contents(packet),
    );
    let received = server.decrypted(contents(packet))->Ok_0.1;
    assert(received.take(frames.len() as int) =~= frames);
    assert(received.len() == frames.len() || received =~= frames.push(FrameView::Padding));
}

/// No frame opens a closed connection again, nor does a close of the peer.
pub proof fn closed_stays_closed<D>(
    v: ConnectionView<D>,
    f: FrameView,
    error_code: u64,
    reason: Seq<char>,
    now: Instant,
)
    requires
        v.state is Closing || v.state is Closed,
    ensures
        v.after_plain_frame(f).state == v.state,
        v.draining(error_code, reason, now).state is Closing,
        f matches FrameView::Ack { largest_acknowledged, ack_delay, ack_ranges, .. }
            ==> v.after_ack(largest_acknowledged, ack_delay, ack_ranges, now).0.state == v.state,
{
}

/// A path is validated by the answer that the peer gives to our challenge, and the challenge is
/// used up by any answer.
pub proof fn path_answer_validates<A, B>(
    ours: ConnectionView<A>,
    peer: ConnectionView<B>,
    challenge: Seq<u8>,
)
    requires
        ours.path_challenge_data == Some(challenge),
    ensures
        ({
            let answer = peer.after_plain_frame(
                FrameView::PathChallenge { data: challenge },
            ).pending.last();
            let after = ours.after_plain_frame(answer);
            after.path_validated && after.path_challenge_data is None
        }),
{
}

/// A packet number is not used twice: the next one in its space is larger, and the others stay.
pub proof fn packet_numbers_grow<D>(v: ConnectionView<D>, handshaking: bool, space: PacketNumberSpace)
    requires
        v.next_number() < u64::MAX,
    ensures
        ({
            let w = v.after_encrypting(handshaking);
            &&& w.packet_numbers.at(space) >= v.packet_numbers.at(space)
            &&& space == v.state.number_space() ==> w.packet_numbers.at(space) > v.next_number()
            &&& space != v.state.number_space() ==> w.packet_numbers.at(space)
                == v.packet_numbers.at(space)
        }),
{
}

/// A connection that is asked to close drains for three seconds, and is closed then.
pub proof fn closing_drains<D>(
    v: ConnectionView<D>,
    error_code: u64,
    reason: Seq<char>,
    bytes: Seq<u8>,
    asked: Instant,
    later: Instant,
)
    requires
        !(v.state is Closing || v.state is Closed),
        asked.nanos + DRAIN_PERIOD <= u128::MAX,
    ensures
        ({
            let w = v.closed_with(error_code, reason, bytes, asked);
            w.drained(later).state == (if later.nanos - asked.nanos >= DRAIN_PERIOD {
                StateView::Closed
            } else {
                w.state
            }) && w.state is Closing
        }),
{
}

} // verus!
