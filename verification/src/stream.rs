//! QUIC streams (RFC 9000 Sections 2 and 3).

use crate::buffer::{contents, written};
use crate::connection::ConnectionRole;
use crate::error::{Error, Reason, StreamErrorCode};
use crate::varint::VarInt;
use bytes::{Bytes, BytesMut};
use std::collections::{BTreeMap, VecDeque};
use vstd::prelude::*;

verus! {

/// QUIC stream identifier
#[derive(Debug, Clone, Copy, PartialEq, Eq, Hash, PartialOrd, Ord, Structural)]
pub struct StreamId(u64);

/// Stream type (bidirectional or unidirectional)
#[derive(Debug, Clone, Copy, PartialEq, Eq, Hash, Structural)]
pub enum StreamType {
    /// Bidirectional stream (data flows both ways)
    Bidirectional,
    /// Unidirectional stream (data flows one way)
    Unidirectional,
}

impl View for StreamId {
    type V = u64;

    closed spec fn view(&self) -> u64 {
        self.0
    }
}

/// The two low bits of the identifiers of streams of that type which that role opens.
pub open spec fn id_pattern(stream_type: StreamType, initiator: ConnectionRole) -> u64 {
    match (stream_type, initiator) {
        (StreamType::Bidirectional, ConnectionRole::Client) => 0,
        (StreamType::Bidirectional, ConnectionRole::Server) => 1,
        (StreamType::Unidirectional, ConnectionRole::Client) => 2,
        (StreamType::Unidirectional, ConnectionRole::Server) => 3,
    }
}

/// What single bits of a stream identifier say about it modulo four.
proof fn lemma_id_bits(id: u64)
    ensures
        id & 3 == id % 4,
        (id & 1) == id % 2,
        (id & 2) == 2 * ((id / 2) % 2),
{
    assert(id & 3 == id % 4) by (bit_vector);
    assert((id & 1) == id % 2) by (bit_vector);
    assert((id & 2) == 2 * ((id / 2) % 2)) by (bit_vector);
}

impl StreamId {
    /// Create a new stream ID, whose two low bits must name its type and its initiator
    pub fn new(id: u64, stream_type: StreamType, initiator: ConnectionRole) -> (r: Result<
        StreamId,
        Error,
    >)
        ensures
            id % 4 == id_pattern(stream_type, initiator) ==> r is Ok && r->Ok_0@ == id,
            id % 4 != id_pattern(stream_type, initiator) ==> r == Err::<StreamId, Error>(
                Error::ProtocolViolation(Reason::StreamIdPattern(id)),
            ),
    {
        let initiator_bit: u64 = match initiator {
            ConnectionRole::Client => 0,
            ConnectionRole::Server => 1,
        };
        let directionality_bit: u64 = match stream_type {
            StreamType::Bidirectional => 0,
            StreamType::Unidirectional => 2,
        };
        proof {
            lemma_id_bits(id);
        }
        if (id & 3) != initiator_bit + directionality_bit {
            return Err(Error::ProtocolViolation(Reason::StreamIdPattern(id)));
        }
        Ok(StreamId(id))
    }

    /// The stream ID with the given value
    pub fn from_raw(id: u64) -> (r: StreamId)
        ensures
            r@ == id,
    {
        StreamId(id)
    }

    /// Get the raw stream ID value
    pub fn into_inner(self) -> (r: u64)
        ensures
            r == self@,
    {
        self.0
    }

    /// The stream ID as a variable-length integer
    pub fn to_varint(self) -> (r: VarInt)
        ensures
            r == VarInt(self@),
    {
        VarInt(self.0)
    }

    /// Check if this stream was initiated by the client
    pub fn initiated_by_client(self) -> (r: bool)
        ensures
            r == (self@ % 2 == 0),
    {
        proof {
            lemma_id_bits(self.0);
        }
        (self.0 & 1) == 0
    }

    /// Check if this stream was initiated by the server
    pub fn initiated_by_server(self) -> (r: bool)
        ensures
            r == (self@ % 2 == 1),
    {
        proof {
            lemma_id_bits(self.0);
        }
        (self.0 & 1) == 1
    }

    /// Check if this is a bidirectional stream
    pub fn is_bidirectional(self) -> (r: bool)
        ensures
            r == ((self@ / 2) % 2 == 0),
    {
        proof {
            lemma_id_bits(self.0);
        }
        (self.0 & 2) == 0
    }

    /// Check if this is a unidirectional stream
    pub fn is_unidirectional(self) -> (r: bool)
        ensures
            r == ((self@ / 2) % 2 == 1),
    {
        proof {
            lemma_id_bits(self.0);
        }
        (self.0 & 2) == 2
    }

    /// Get the stream type
    pub fn stream_type(self) -> (r: StreamType)
        ensures
            (self@ / 2) % 2 == 0 ==> r == StreamType::Bidirectional,
            (self@ / 2) % 2 == 1 ==> r == StreamType::Unidirectional,
    {
        if self.is_bidirectional() {
            StreamType::Bidirectional
        } else {
            StreamType::Unidirectional
        }
    }

    /// Get the next stream ID for the same role and type
    pub fn next(self, _role: ConnectionRole) -> (r: Result<StreamId, Error>)
        requires
            self@ <= u64::MAX - 4,
        ensures
            self@ + 4 < 0x4000_0000_0000_0000 ==> r is Ok && r->Ok_0@ == self@ + 4,
            self@ + 4 >= 0x4000_0000_0000_0000 ==> r == Err::<StreamId, Error>(
                Error::ProtocolViolation(Reason::Text("Stream ID space exhausted")),
            ),
    {
        let next_id: u64 = self.0 + 4;
        if next_id >= 0x4000_0000_0000_0000 {
            return Err(Error::ProtocolViolation(Reason::Text("Stream ID space exhausted")));
        }
        Ok(StreamId(next_id))
    }
}

impl From<u64> for StreamId {
    fn from(id: u64) -> (r: StreamId)
        ensures
            r@ == id,
    {
        StreamId(id)
    }
}

impl vstd::std_specs::convert::FromSpecImpl<u64> for StreamId {
    open spec fn obeys_from_spec() -> bool {
        true
    }

    closed spec fn from_spec(id: u64) -> StreamId {
        StreamId(id)
    }
}

/// The two low bits name both the type and the initiator, and the next identifier keeps
/// them: streams of one kind are numbered in steps of four.
pub proof fn stream_id_kinds(stream_type: StreamType, initiator: ConnectionRole, id: u64)
    requires
        id % 4 == id_pattern(stream_type, initiator),
    ensures
        (id % 2 == 0) == (initiator == ConnectionRole::Client),
        ((id / 2) % 2 == 0) == (stream_type == StreamType::Bidirectional),
        (id + 4) % 4 == id_pattern(stream_type, initiator),
{
}

/// Stream state according to RFC 9000 Section 3
#[derive(Debug, Clone, Copy, PartialEq, Eq, Hash, Structural)]
pub enum StreamState {
    /// Stream is open and can send/receive data
    Open,
    /// Local side has sent FIN
    HalfClosedLocal,
    /// Remote side has sent FIN
    HalfClosedRemote,
    /// Both sides have sent FIN
    Closed,
    /// Stream was reset by peer
    ResetRecv,
    /// Stream was reset locally
    ResetSent,
}

impl StreamState {
    /// Whether data can be sent in this state.
    pub open spec fn sends(self) -> bool {
        self == StreamState::Open
    }

    /// Whether data can be received in this state.
    pub open spec fn receives(self) -> bool {
        self == StreamState::Open || self == StreamState::HalfClosedLocal
    }

    /// Check if the stream can send data
    pub fn can_send(self) -> (r: bool)
        ensures
            r == self.sends(),
    {
        matches!(self, StreamState::Open)
    }

    /// Check if the stream can receive data
    pub fn can_receive(self) -> (r: bool)
        ensures
            r == self.receives(),
    {
        matches!(self, StreamState::Open | StreamState::HalfClosedLocal)
    }

    /// Check if the stream is closed
    pub fn is_closed(self) -> (r: bool)
        ensures
            r == (self == StreamState::Closed || self == StreamState::ResetRecv || self
                == StreamState::ResetSent),
    {
        matches!(self, StreamState::Closed | StreamState::ResetRecv | StreamState::ResetSent)
    }
}

/// Received data chunk
#[derive(Debug)]
struct DataChunk {
    data: Bytes,
    fin: bool,
}

/// QUIC stream implementation
pub struct Stream {
    /// Stream identifier
    id: StreamId,
    /// Stream state
    state: StreamState,
    /// Stream type
    stream_type: StreamType,
    /// Connection role that created this stream
    local_role: ConnectionRole,
    /// Data to be sent
    send_buffer: BytesMut,
    /// Offset of next byte to send
    send_offset: u64,
    /// Whether FIN has been sent
    fin_sent: bool,
    /// Maximum data allowed to send (flow control)
    max_data_send: u64,
    /// Data already sent
    data_sent: u64,
    /// Received data chunks (may be out of order), by their offset
    recv_chunks: BTreeMap<u64, DataChunk>,
    /// Next expected offset for ordered delivery
    recv_offset: u64,
    /// Whether FIN has been received
    fin_received: bool,
    /// Final size of the stream (if FIN received)
    final_size: Option<u64>,
    /// Maximum data allowed to receive (flow control)
    max_data_recv: u64,
    /// Data already received
    data_recv: u64,
    /// Buffer to store assembled, ordered data for application
    ready_data: VecDeque<Bytes>,
    /// Whether to send MAX_STREAM_DATA frame
    should_send_max_data: bool,
}

/// A chunk that waits for the data before it: its bytes, and whether the stream ends
/// with it.
pub struct ChunkView {
    pub data: Seq<u8>,
    pub fin: bool,
}

/// The state of a stream.
#[verifier::ext_equal]
pub struct StreamView {
    pub id: StreamId,
    pub state: StreamState,
    pub stream_type: StreamType,
    pub local_role: ConnectionRole,
    /// Bytes queued for sending.
    pub send_buffer: Seq<u8>,
    /// Offset of the next byte to be sent.
    pub send_offset: u64,
    /// Bytes accepted for sending so far.
    pub sent: u64,
    pub fin_sent: bool,
    pub max_data_send: u64,
    /// Chunks that wait for the data before them, by their offset.
    pub chunks: Map<u64, ChunkView>,
    /// Offset of the next byte to hand over.
    pub recv_offset: u64,
    pub fin_received: bool,
    pub final_size: Option<u64>,
    pub max_data_recv: u64,
    pub data_recv: u64,
    /// Bytes in order that the application has not read yet.
    pub ready: Seq<u8>,
    pub should_send_max_data: bool,
}

/// The bytes of buffers, one after the other.
spec fn joined(s: Seq<Bytes>) -> Seq<u8>
    decreases s.len(),
{
    if s.len() == 0 {
        Seq::empty()
    } else {
        joined(s.drop_last()) + contents(s.last())
    }
}

/// What a chunk holds.
spec fn chunk_view(c: DataChunk) -> ChunkView {
    ChunkView { data: contents(c.data), fin: c.fin }
}

/// What the chunks hold.
spec fn chunks_view(m: Map<u64, DataChunk>) -> Map<u64, ChunkView> {
    m.map_values(|c: DataChunk| chunk_view(c))
}

impl View for Stream {
    type V = StreamView;

    closed spec fn view(&self) -> StreamView {
        StreamView {
            id: self.id,
            state: self.state,
            stream_type: self.stream_type,
            local_role: self.local_role,
            send_buffer: written(self.send_buffer),
            send_offset: self.send_offset,
            sent: self.data_sent,
            fin_sent: self.fin_sent,
            max_data_send: self.max_data_send,
            chunks: chunks_view(self.recv_chunks@),
            recv_offset: self.recv_offset,
            fin_received: self.fin_received,
            final_size: self.final_size,
            max_data_recv: self.max_data_recv,
            data_recv: self.data_recv,
            ready: joined(self.ready_data@),
            should_send_max_data: self.should_send_max_data,
        }
    }
}

impl StreamView {
    /// A stream as it starts.
    pub open spec fn start(id: StreamId, local_role: ConnectionRole) -> StreamView {
        StreamView {
            id,
            state: StreamState::Open,
            stream_type: if (id@ / 2) % 2 == 0 {
                StreamType::Bidirectional
            } else {
                StreamType::Unidirectional
            },
            local_role,
            send_buffer: Seq::empty(),
            send_offset: 0,
            sent: 0,
            fin_sent: false,
            max_data_send: 1048576,
            chunks: Map::empty(),
            recv_offset: 0,
            fin_received: false,
            final_size: None,
            max_data_recv: 65536,
            data_recv: 0,
            ready: Seq::empty(),
            should_send_max_data: false,
        }
    }

    /// The stream after `data` was queued, and closed for sending with `fin`.
    pub open spec fn queued(self, data: Seq<u8>, fin: bool) -> StreamView {
        StreamView {
            send_buffer: self.send_buffer + data,
            send_offset: (self.send_offset + data.len()) as u64,
            sent: (self.sent + data.len()) as u64,
            fin_sent: fin,
            state: if fin {
                StreamState::HalfClosedLocal
            } else {
                self.state
            },
            ..self
        }
    }

    /// Why data cannot be queued, if it cannot.
    pub open spec fn send_error(self, data: Seq<u8>) -> Option<Error> {
        if !self.state.sends() {
            Some(
                Error::Stream {
                    code: StreamErrorCode::FrameUnexpected,
                    detail: "Stream cannot send data in current state",
                },
            )
        } else if self.fin_sent {
            Some(
                Error::Stream {
                    code: StreamErrorCode::FrameUnexpected,
                    detail: "FIN already sent on stream",
                },
            )
        } else if self.sent + data.len() > self.max_data_send {
            Some(Error::FlowControl)
        } else {
            None
        }
    }

    /// Hands the chunk at the next expected offset over to the application, and goes on
    /// with the chunk after it, until one is missing or the stream has ended.
    pub open spec fn released(self) -> StreamView
        decreases self.chunks.dom().len(),
        when self.chunks.dom().finite()
    {
        if self.chunks.contains_key(self.recv_offset) {
            let c = self.chunks[self.recv_offset];
            let v = StreamView {
                chunks: self.chunks.remove(self.recv_offset),
                recv_offset: (self.recv_offset + c.data.len()) as u64,
                ready: self.ready + c.data,
                ..self
            };
            if c.fin && v.past_end() {
                v
            } else {
                v.released()
            }
        } else {
            self
        }
    }

    /// Whether all data up to the final size was handed over.
    pub open spec fn past_end(self) -> bool {
        self.final_size matches Some(n) && self.recv_offset >= n || self.final_size is None
            && self.recv_offset == u64::MAX
    }

    /// The stream after it learnt from a FIN where it ends.
    pub open spec fn finished_at(self, end: u64) -> StreamView {
        StreamView {
            fin_received: true,
            final_size: Some(end),
            state: if self.state == StreamState::Open {
                StreamState::HalfClosedRemote
            } else if self.state == StreamState::HalfClosedLocal {
                StreamState::Closed
            } else {
                self.state
            },
            ..self
        }
    }

    /// The stream after the receive window was doubled where more than half of it is used.
    pub open spec fn window_updated(self) -> StreamView {
        if self.data_recv > self.max_data_recv / 2 {
            StreamView {
                max_data_recv: if 2 * self.max_data_recv > u64::MAX {
                    u64::MAX
                } else {
                    (2 * self.max_data_recv) as u64
                },
                should_send_max_data: true,
                ..self
            }
        } else {
            self
        }
    }

    /// Whether received data is all known already.
    pub open spec fn is_old(self, offset: u64, data: Seq<u8>) -> bool {
        offset + data.len() <= self.recv_offset
    }

    /// Why received data is refused, if it is.
    pub open spec fn receive_error(self, offset: u64, data: Seq<u8>, fin: bool) -> Option<Error> {
        let end = offset + data.len();
        if !self.state.receives() {
            Some(
                Error::Stream {
                    code: StreamErrorCode::FrameUnexpected,
                    detail: "Stream cannot receive data in current state",
                },
            )
        } else if self.is_old(offset, data) {
            None
        } else if end > self.max_data_recv {
            Some(Error::FlowControl)
        } else if fin && self.fin_received && self.final_size is Some && self.final_size != Some(
            end as u64,
        ) {
            Some(
                Error::Stream {
                    code: StreamErrorCode::FrameError,
                    detail: "Inconsistent final size",
                },
            )
        } else {
            None
        }
    }

    /// The stream after it accepted data: old data changes nothing, new data is kept by its
    /// offset, and what has become contiguous is handed over.
    pub open spec fn received(self, offset: u64, data: Seq<u8>, fin: bool) -> StreamView {
        if self.is_old(offset, data) {
            self
        } else {
            let v = if fin && !self.fin_received {
                self.finished_at((offset + data.len()) as u64)
            } else {
                self
            };
            StreamView {
                chunks: v.chunks.insert(offset, ChunkView { data, fin }),
                data_recv: (v.data_recv + data.len()) as u64,
                ..v
            }.released().window_updated()
        }
    }

    /// Whether the application has read everything up to the end.
    pub open spec fn is_finished(self) -> bool {
        &&& self.fin_received
        &&& self.ready.len() == 0
        &&& (self.final_size matches Some(n) ==> self.recv_offset >= n)
    }

    /// The stream after the peer reset it.
    pub open spec fn reset_by_peer(self, final_size: u64) -> StreamView {
        StreamView {
            state: StreamState::ResetRecv,
            final_size: Some(final_size),
            chunks: Map::empty(),
            ready: Seq::empty(),
            ..self
        }
    }

    /// The stream after sending was stopped.
    pub open spec fn stopped(self) -> StreamView {
        if self.state.sends() {
            StreamView { state: StreamState::ResetSent, send_buffer: Seq::empty(), ..self }
        } else {
            self
        }
    }
}

/// Joining after one more buffer at the back.
proof fn lemma_joined_push(s: Seq<Bytes>, b: Bytes)
    ensures
        joined(s.push(b)) == joined(s) + contents(b),
{
    assert(s.push(b).drop_last() =~= s);
}

/// Joining after one more buffer at the front.
proof fn lemma_joined_front(b: Bytes, s: Seq<Bytes>)
    ensures
        joined(seq![b] + s) == contents(b) + joined(s),
    decreases s.len(),
{
    if s.len() == 0 {
        assert(seq![b] + s =~= Seq::<Bytes>::empty().push(b));
        lemma_joined_push(Seq::<Bytes>::empty(), b);
        assert(joined(seq![b] + s) =~= contents(b) + joined(s));
    } else {
        assert((seq![b] + s).drop_last() =~= seq![b] + s.drop_last());
        lemma_joined_front(b, s.drop_last());
        assert(joined(seq![b] + s) =~= contents(b) + joined(s));
    }
}

/// Without empty buffers, no bytes means no buffers.
proof fn lemma_joined_empty(s: Seq<Bytes>)
    requires
        forall|i: int| 0 <= i < s.len() ==> contents(#[trigger] s[i]).len() > 0,
    ensures
        joined(s).len() == 0 <==> s.len() == 0,
{
    if s.len() > 0 {
        assert(contents(s.last()).len() > 0);
    }
}

impl Stream {
    /// What holds of every stream.
    pub closed spec fn wf(self) -> bool {
        &&& self.send_offset == self.data_sent
        &&& self.state.sends() ==> !self.fin_sent
        &&& forall|i: int|
            0 <= i < self.ready_data@.len() ==> contents(#[trigger] self.ready_data@[i]).len() > 0
        &&& forall|k: u64| #[trigger]
            self.recv_chunks@.contains_key(k) ==> k + contents(self.recv_chunks@[k].data).len()
                <= u64::MAX
    }

    /// The chunks that wait are finitely many, and none reaches past the largest offset.
    pub proof fn wf_chunks(self)
        requires
            self.wf(),
        ensures
            self@.chunks.dom().finite(),
            forall|k: u64| #[trigger]
                self@.chunks.contains_key(k) ==> k + self@.chunks[k].data.len() <= u64::MAX,
    {
        assert(self@.chunks.dom() =~= self.recv_chunks@.dom());
        assert forall|k: u64| #[trigger] self@.chunks.contains_key(k) implies k
            + self@.chunks[k].data.len() <= u64::MAX by {
            assert(self.recv_chunks@.contains_key(k));
        }
    }

    /// The next offset is the number of bytes accepted so far, and a stream that is open for
    /// sending has not sent its FIN yet.
    pub proof fn wf_open(self)
        requires
            self.wf(),
        ensures
            self@.send_offset == self@.sent,
            self@.state.sends() ==> !self@.fin_sent,
    {
    }

    /// Set the limit up to which data may be sent
    pub fn test_set_send_limit(&mut self, limit: u64)
        requires
            old(self).wf(),
        ensures
            final(self).wf(),
            final(self)@ == (StreamView { max_data_send: limit, ..old(self)@ }),
    {
        self.max_data_send = limit;
    }

    /// Create a new stream
    pub fn new(id: StreamId, local_role: ConnectionRole) -> (r: Stream)
        ensures
            r.wf(),
            r@ == StreamView::start(id, local_role),
    {
        let stream_type: StreamType = id.stream_type();
        let r = Stream {
            id,
            state: StreamState::Open,
            stream_type,
            local_role,
            send_buffer: BytesMut::new(),
            send_offset: 0,
            fin_sent: false,
            max_data_send: 1048576,
            data_sent: 0,
            recv_chunks: BTreeMap::new(),
            recv_offset: 0,
            fin_received: false,
            final_size: None,
            max_data_recv: 65536,
            data_recv: 0,
            ready_data: VecDeque::new(),
            should_send_max_data: false,
        };
        assert(r@.chunks =~= Map::empty());
        r
    }

    /// Queue data to be sent on this stream, and say at which offset it starts
    pub fn send_data(&mut self, data: Bytes, fin: bool) -> (r: Result<u64, Error>)
        requires
            old(self).wf(),
            old(self)@.state.sends() ==> old(self)@.sent + contents(data).len() <= u64::MAX,
        ensures
            final(self).wf(),
            match old(self)@.send_error(contents(data)) {
                Some(e) => r == Err::<u64, Error>(e) && final(self)@ == old(self)@,
                None => r == Ok::<u64, Error>(old(self)@.send_offset) && final(self)@ == old(
                    self,
                )@.queued(contents(data), fin),
            },
            r is Ok <==> old(self)@.state.sends() && old(self)@.sent + contents(data).len()
                <= old(self)@.max_data_send,
    {
        if !self.state.can_send() {
            return Err(
                Error::Stream {
                    code: StreamErrorCode::FrameUnexpected,
                    detail: "Stream cannot send data in current state",
                },
            );
        }
        if self.fin_sent {
            return Err(
                Error::Stream {
                    code: StreamErrorCode::FrameUnexpected,
                    detail: "FIN already sent on stream",
                },
            );
        }
        let len: u64 = data.len() as u64;
        if self.data_sent + len > self.max_data_send {
            return Err(Error::FlowControl);
        }
        let offset: u64 = self.send_offset;
        self.send_buffer.extend_from_slice(&data);
        self.send_offset += len;
        self.data_sent += len;
        if fin {
            self.fin_sent = true;
            self.state = StreamState::HalfClosedLocal;
        }
        Ok(offset)
    }

    /// Process received data to make it available for reading
    #[verifier::spinoff_prover]
    #[verifier::rlimit(50)]
    fn process_recv_data(&mut self)
        requires
            old(self).wf(),
        ensures
            final(self).wf(),
            final(self)@ == old(self)@.released(),
    {
        let ghost v0 = self@;
        loop
            invariant_except_break
                self.wf(),
                self@.released() == v0.released(),
            ensures
                self.wf(),
                self@ == v0.released(),
            decreases self.recv_chunks@.dom().len(),
        {
            let ghost before = *self;
            let offset: u64 = self.recv_offset;
            proof {
                self.wf_chunks();
                assert(before@.chunks.contains_key(offset) == before.recv_chunks@.contains_key(
                    offset,
                ));
            }
            match self.recv_chunks.remove(&offset) {
                None => {
                    break ;
                },
                Some(chunk) => {
                    let fin: bool = chunk.fin;
                    let len: u64 = chunk.data.len() as u64;
                    let ghost bytes = contents(chunk.data);
                    self.recv_offset = offset + len;
                    if len > 0 {
                        self.ready_data.push_back(chunk.data);
                    }
                    proof {
                        assert(self@.chunks =~= before@.chunks.remove(offset));
                        if len > 0 {
                            lemma_joined_push(before.ready_data@, chunk.data);
                        } else {
                            assert(before@.ready + bytes =~= before@.ready);
                        }
                        assert(self@ == StreamView {
                            chunks: before@.chunks.remove(offset),
                            recv_offset: (offset + bytes.len()) as u64,
                            ready: before@.ready + bytes,
                            ..before@
                        });
                    }
                    let end: u64 = match self.final_size {
                        Some(n) => n,
                        None => u64::MAX,
                    };
                    if fin && self.recv_offset >= end {
                        break ;
                    }
                },
            }
        }
    }

    /// Receive data for this stream
    pub fn receive_data(&mut self, offset: u64, data: Bytes, fin: bool) -> (r: Result<(), Error>)
        requires
            old(self).wf(),
            old(self)@.state.receives() ==> offset + contents(data).len() <= u64::MAX,
            old(self)@.receive_error(offset, contents(data), fin) is None && !old(self)@.is_old(
                offset,
                contents(data),
            ) ==> old(self)@.data_recv + contents(data).len() <= u64::MAX,
        ensures
            final(self).wf(),
            match old(self)@.receive_error(offset, contents(data), fin) {
                Some(e) => r == Err::<(), Error>(e) && final(self)@ == old(self)@,
                None => r == Ok::<(), Error>(()) && final(self)@ == old(self)@.received(
                    offset,
                    contents(data),
                    fin,
                ),
            },
    {
        if !self.state.can_receive() {
            return Err(
                Error::Stream {
                    code: StreamErrorCode::FrameUnexpected,
                    detail: "Stream cannot receive data in current state",
                },
            );
        }
        let ghost v0 = self@;
        let len: u64 = data.len() as u64;
        let end_offset: u64 = offset + len;
        if end_offset <= self.recv_offset {
            return Ok(());
        }
        if end_offset > self.max_data_recv {
            return Err(Error::FlowControl);
        }
        if fin {
            if self.fin_received {
                if let Some(existing_final_size) = self.final_size {
                    if existing_final_size != end_offset {
                        return Err(
                            Error::Stream {
                                code: StreamErrorCode::FrameError,
                                detail: "Inconsistent final size",
                            },
                        );
                    }
                }
            } else {
                self.fin_received = true;
                self.final_size = Some(end_offset);
                match self.state {
                    StreamState::Open => {
                        self.state = StreamState::HalfClosedRemote;
                    },
                    StreamState::HalfClosedLocal => {
                        self.state = StreamState::Closed;
                    },
                    _ => {},
                }
            }
        }
        let ghost before = *self;
        let ghost bytes = contents(data);
        self.recv_chunks.insert(offset, DataChunk { data, fin });
        self.data_recv += len;
        proof {
            assert(self@.chunks =~= before@.chunks.insert(offset, ChunkView { data: bytes, fin }));
            assert forall|k: u64| #[trigger] self.recv_chunks@.contains_key(k) implies k + contents(
                self.recv_chunks@[k].data,
            ).len() <= u64::MAX by {
                if k != offset {
                    assert(before.recv_chunks@.contains_key(k));
                }
            }
            assert(self@ == StreamView {
                chunks: before@.chunks.insert(offset, ChunkView { data: bytes, fin }),
                data_recv: (before@.data_recv + bytes.len()) as u64,
                ..before@
            });
        }
        self.process_recv_data();
        self.consider_flow_control_update();
        Ok(())
    }

    /// Update flow control window
    fn consider_flow_control_update(&mut self)
        requires
            old(self).wf(),
        ensures
            final(self).wf(),
            final(self)@ == old(self)@.window_updated(),
    {
        if self.data_recv > self.max_data_recv / 2 {
            self.max_data_recv = if self.max_data_recv > u64::MAX / 2 {
                u64::MAX
            } else {
                2 * self.max_data_recv
            };
            self.should_send_max_data = true;
        }
    }

    /// Read up to `max_length` bytes from the stream
    pub fn read_data(&mut self, max_length: usize) -> (r: Option<Bytes>)
        requires
            old(self).wf(),
        ensures
            final(self).wf(),
            ({
                let n = if max_length <= old(self)@.ready.len() {
                    max_length as int
                } else {
                    old(self)@.ready.len() as int
                };
                &&& final(self)@ == (StreamView { ready: old(self)@.ready.skip(n), ..old(self)@ })
                &&& n == 0 ==> r is None
                &&& n > 0 ==> r is Some && contents(r->Some_0) == old(self)@.ready.take(n)
            }),
            r matches Some(d) ==> contents(d) + final(self)@.ready == old(self)@.ready
                && contents(d).len() <= max_length,
            r is None ==> max_length == 0 || old(self)@.ready.len() == 0,
    {
        let ghost v0 = self@;
        let mut result: BytesMut = BytesMut::new();
        let mut remaining: usize = max_length;
        let ghost mut taken: int = 0;
        assert(v0.ready.skip(0) =~= v0.ready);
        assert(v0.ready.take(0) =~= Seq::<u8>::empty());
        while remaining > 0 && self.ready_data.len() > 0
            invariant
                self.wf(),
                0 <= taken <= v0.ready.len(),
                remaining == max_length - taken,
                self@ == (StreamView { ready: v0.ready.skip(taken), ..v0 }),
                written(result) == v0.ready.take(taken),
            decreases remaining,
        {
            let ghost before = *self;
            let mut chunk: Bytes = self.ready_data.pop_front().unwrap();
            let ghost all = contents(chunk);
            let len: usize = chunk.len();
            let ghost tail = self.ready_data@;
            proof {
                assert(before.ready_data@ =~= seq![chunk] + tail);
                lemma_joined_front(chunk, tail);
                assert(before@.ready == v0.ready.skip(taken));
                assert(all + joined(tail) == v0.ready.skip(taken));
                assert((all + joined(tail)).len() == v0.ready.len() - taken);
                assert(all =~= (all + joined(tail)).take(all.len() as int));
                assert(joined(tail) =~= (all + joined(tail)).skip(all.len() as int));
                assert(joined(tail) =~= v0.ready.skip(taken + all.len()));
                assert(contents(before.ready_data@[0]).len() > 0);
                assert forall|i: int| 0 <= i < tail.len() implies contents(#[trigger] tail[i]).len()
                    > 0 by {
                    assert(tail[i] == before.ready_data@[i + 1]);
                }
            }
            if len <= remaining {
                result.extend_from_slice(&chunk);
                remaining -= len;
                proof {
                    assert(written(result) =~= v0.ready.take(taken + len));
                    assert(joined(tail) =~= v0.ready.skip(taken + len));
                    taken = taken + len;
                }
            } else {
                let head: Bytes = chunk.split_to(remaining);
                result.extend_from_slice(&head);
                let ghost rest = chunk;
                self.ready_data.push_front(chunk);
                proof {
                    lemma_joined_front(rest, tail);
                    assert(written(result) =~= v0.ready.take(taken + remaining));
                    assert(joined(self.ready_data@) =~= v0.ready.skip(taken + remaining));
                    assert forall|i: int| 0 <= i < self.ready_data@.len() implies contents(
                        #[trigger] self.ready_data@[i],
                    ).len() > 0 by {
                        if i > 0 {
                            assert(self.ready_data@[i] == tail[i - 1]);
                        }
                    }
                    taken = taken + remaining;
                }
                remaining = 0;
            }
        }
        proof {
            lemma_joined_empty(self.ready_data@);
        }
        if result.is_empty() {
            None
        } else {
            Some(result.freeze())
        }
    }

    /// Get the stream ID
    pub fn id(&self) -> (r: StreamId)
        ensures
            r == self@.id,
    {
        self.id
    }

    /// Get the stream state
    pub fn state(&self) -> (r: StreamState)
        ensures
            r == self@.state,
    {
        self.state
    }

    /// Get the stream type
    pub fn stream_type(&self) -> (r: StreamType)
        ensures
            r == self@.stream_type,
    {
        self.stream_type
    }

    /// Check if this stream was locally initiated
    pub fn is_local(&self) -> (r: bool)
        ensures
            r == (self@.id@ % 2 == (if self@.local_role == ConnectionRole::Client {
                0int
            } else {
                1
            })),
    {
        match self.local_role {
            ConnectionRole::Client => self.id.initiated_by_client(),
            ConnectionRole::Server => self.id.initiated_by_server(),
        }
    }

    /// Check if there is data available to read
    pub fn has_data(&self) -> (r: bool)
        requires
            self.wf(),
        ensures
            r == (self@.ready.len() > 0),
    {
        proof {
            lemma_joined_empty(self.ready_data@);
        }
        self.ready_data.len() > 0
    }

    /// Check if the stream has finished receiving data
    pub fn is_finished(&self) -> (r: bool)
        requires
            self.wf(),
        ensures
            r == self@.is_finished(),
    {
        let end: u64 = match self.final_size {
            Some(n) => n,
            None => 0,
        };
        self.fin_received && !self.has_data() && self.recv_offset >= end
    }

    /// Reset the stream
    pub fn reset(&mut self, _error_code: u64, final_size: u64) -> (r: Result<(), Error>)
        requires
            old(self).wf(),
        ensures
            final(self).wf(),
            r == Ok::<(), Error>(()),
            final(self)@ == old(self)@.reset_by_peer(final_size),
    {
        self.state = StreamState::ResetRecv;
        self.final_size = Some(final_size);
        self.recv_chunks.clear();
        self.ready_data.clear();
        assert(self@.chunks =~= Map::empty());
        Ok(())
    }

    /// Stop sending on the stream (respond to STOP_SENDING)
    pub fn stop_sending(&mut self, _error_code: u64) -> (r: Result<(), Error>)
        requires
            old(self).wf(),
        ensures
            final(self).wf(),
            r == Ok::<(), Error>(()),
            final(self)@ == old(self)@.stopped(),
    {
        if self.state.can_send() {
            self.state = StreamState::ResetSent;
            self.send_buffer.clear();
        }
        Ok(())
    }

    /// Handle STOP_SENDING frame from peer
    pub fn handle_stop_sending(&mut self, error_code: u64) -> (r: Result<(), Error>)
        requires
            old(self).wf(),
        ensures
            final(self).wf(),
            r == Ok::<(), Error>(()),
            final(self)@ == old(self)@.stopped(),
    {
        self.stop_sending(error_code)
    }

    /// Receive a RESET_STREAM frame from peer
    pub fn receive_reset(&mut self, error_code: u64, final_size: u64) -> (r: Result<(), Error>)
        requires
            old(self).wf(),
        ensures
            final(self).wf(),
            r == Ok::<(), Error>(()),
            final(self)@ == old(self)@.reset_by_peer(final_size),
    {
        self.reset(error_code, final_size)
    }

    /// Update the maximum data that can be sent (from MAX_STREAM_DATA frame)
    pub fn update_max_data(&mut self, max_data: u64) -> (r: Result<(), Error>)
        requires
            old(self).wf(),
        ensures
            final(self).wf(),
            max_data < old(self)@.max_data_send ==> r == Err::<(), Error>(
                (Error::Stream {
                    code: StreamErrorCode::FrameUnexpected,
                    detail: "MAX_STREAM_DATA decreased",
                }),
            ) && final(self)@ == old(self)@,
            max_data >= old(self)@.max_data_send ==> r == Ok::<(), Error>(()) && final(self)@ == (
            StreamView { max_data_send: max_data, ..old(self)@ }),
            final(self)@.max_data_send >= old(self)@.max_data_send,
            r is Ok <==> final(self)@.max_data_send == max_data,
    {
        if max_data < self.max_data_send {
            return Err(
                Error::Stream {
                    code: StreamErrorCode::FrameUnexpected,
                    detail: "MAX_STREAM_DATA decreased",
                },
            );
        }
        self.max_data_send = max_data;
        Ok(())
    }

    /// Get the maximum data that can be received
    pub fn max_data_recv(&self) -> (r: u64)
        ensures
            r == self@.max_data_recv,
    {
        self.max_data_recv
    }

    /// Check if we should send MAX_STREAM_DATA frame
    pub fn should_send_max_stream_data(&self) -> (r: bool)
        ensures
            r == self@.should_send_max_data,
    {
        self.should_send_max_data
    }

    /// Consider sending MAX_STREAM_DATA frame: more than half of the window is used
    pub fn consider_sending_max_stream_data(&mut self)
        requires
            old(self).wf(),
        ensures
            final(self).wf(),
            final(self)@ == (StreamView {
                should_send_max_data: 2 * old(self)@.data_recv > old(self)@.max_data_recv,
                ..old(self)@
            }),
    {
        self.should_send_max_data = self.data_recv > self.max_data_recv / 2;
    }

    /// Get the total bytes received on this stream
    pub fn bytes_received(&self) -> (r: u64)
        ensures
            r == self@.data_recv,
    {
        self.data_recv
    }

    /// Get the total bytes sent on this stream
    pub fn bytes_sent(&self) -> (r: u64)
        ensures
            r == self@.sent,
    {
        self.data_sent
    }

    /// Get the current receive maximum data limit
    pub fn receive_max_data(&self) -> (r: u64)
        ensures
            r == self@.max_data_recv,
    {
        self.max_data_recv
    }

    /// Set the receive maximum data limit
    pub fn set_receive_max_data(&mut self, max_data: u64)
        requires
            old(self).wf(),
        ensures
            final(self).wf(),
            final(self)@ == (StreamView { max_data_recv: max_data, ..old(self)@ }),
    {
        self.max_data_recv = max_data;
    }

    /// Get the current send max data limit
    pub fn send_max_data(&self) -> (r: u64)
        ensures
            r == self@.max_data_send,
    {
        self.max_data_send
    }

    /// Check if stream has data ready to send
    pub fn has_data_to_send(&self) -> (r: bool)
        ensures
            r == (self@.send_buffer.len() > 0 || (self@.fin_sent && self@.state
                != StreamState::Closed)),
    {
        !self.send_buffer.is_empty() || (self.fin_sent && self.state != StreamState::Closed)
    }

    /// Get the final size of the stream (if FIN received)
    pub fn final_size(&self) -> (r: Option<u64>)
        ensures
            r == self@.final_size,
    {
        self.final_size
    }

    /// Number of bytes that the application has not read yet
    fn pending_recv(&self) -> (r: usize)
        requires
            self@.ready.len() <= usize::MAX,
        ensures
            r == self@.ready.len(),
    {
        let mut total: usize = 0;
        let mut i: usize = 0;
        assert(self.ready_data@.skip(0) =~= self.ready_data@);
        while i < self.ready_data.len()
            invariant
                i <= self.ready_data@.len(),
                total + joined(self.ready_data@.skip(i as int)).len() == self@.ready.len(),
                self@.ready.len() <= usize::MAX,
            decreases self.ready_data@.len() - i,
        {
            proof {
                let rest = self.ready_data@.skip(i as int);
                assert(rest =~= seq![self.ready_data@[i as int]] + self.ready_data@.skip(i + 1));
                lemma_joined_front(self.ready_data@[i as int], self.ready_data@.skip(i + 1));
            }
            total += self.ready_data[i].len();
            i += 1;
        }
        total
    }

    /// Get stream statistics
    pub fn stats(&self) -> (r: StreamStats)
        requires
            self.wf(),
            self@.ready.len() <= usize::MAX,
        ensures
            r.id == self@.id,
            r.state == self@.state,
            r.stream_type == self@.stream_type,
            r.data_sent == self@.sent,
            r.data_recv == self@.data_recv,
            r.max_data_send == self@.max_data_send,
            r.max_data_recv == self@.max_data_recv,
            r.pending_send == self@.send_buffer.len(),
            r.pending_recv == self@.ready.len(),
            r.is_finished == self@.is_finished(),
    {
        StreamStats {
            id: self.id,
            state: self.state,
            stream_type: self.stream_type,
            data_sent: self.data_sent,
            data_recv: self.data_recv,
            max_data_send: self.max_data_send,
            max_data_recv: self.max_data_recv,
            pending_send: self.send_buffer.len(),
            pending_recv: self.pending_recv(),
            is_finished: self.is_finished(),
        }
    }

    /// Get stream's send offset
    pub fn send_offset(&self) -> (r: u64)
        ensures
            r == self@.send_offset,
    {
        self.send_offset
    }

    /// Get the size of pending send data
    pub fn pending_send_size(&self) -> (r: usize)
        ensures
            r == self@.send_buffer.len(),
    {
        self.send_buffer.len()
    }

    /// Check if send is complete
    pub fn is_send_complete(&self) -> (r: bool)
        ensures
            r == self@.fin_sent,
    {
        self.fin_sent
    }

    /// Get pending send data up to max_size
    pub fn get_pending_send_data(&mut self, max_size: usize) -> (r: Option<Bytes>)
        requires
            old(self).wf(),
        ensures
            final(self).wf(),
            ({
                let n = if max_size <= old(self)@.send_buffer.len() {
                    max_size as int
                } else {
                    old(self)@.send_buffer.len() as int
                };
                &&& final(self)@ == (StreamView {
                    send_buffer: old(self)@.send_buffer.skip(n),
                    ..old(self)@
                })
                &&& n == 0 ==> r is None
                &&& n > 0 ==> r is Some && contents(r->Some_0) == old(self)@.send_buffer.take(n)
            }),
            r matches Some(d) ==> contents(d) + final(self)@.send_buffer == old(self)@.send_buffer
                && contents(d).len() <= max_size,
            r is None ==> max_size == 0 || old(self)@.send_buffer.len() == 0,
    {
        let have: usize = self.send_buffer.len();
        let size: usize = if have <= max_size {
            have
        } else {
            max_size
        };
        if size == 0 {
            assert(self@.send_buffer.skip(0) =~= self@.send_buffer);
            return None;
        }
        let data: BytesMut = self.send_buffer.split_to(size);
        Some(data.freeze())
    }

    /// Advance the send offset
    pub fn advance_send_offset(&mut self, amount: u64)
        requires
            old(self).wf(),
            old(self)@.sent + amount <= u64::MAX,
        ensures
            final(self).wf(),
            final(self)@ == (StreamView {
                send_offset: (old(self)@.send_offset + amount) as u64,
                sent: (old(self)@.sent + amount) as u64,
                ..old(self)@
            }),
    {
        self.send_offset += amount;
        self.data_sent += amount;
    }
}

/// Stream statistics
#[derive(Debug, Clone, Copy)]
pub struct StreamStats {
    /// Stream identifier
    pub id: StreamId,
    /// Current stream state
    pub state: StreamState,
    /// Type of stream (bidirectional/unidirectional)
    pub stream_type: StreamType,
    /// Total bytes sent on this stream
    pub data_sent: u64,
    /// Total bytes received on this stream
    pub data_recv: u64,
    /// Maximum bytes allowed to send
    pub max_data_send: u64,
    /// Maximum bytes allowed to receive
    pub max_data_recv: u64,
    /// Bytes pending to be sent
    pub pending_send: usize,
    /// Bytes pending to be received
    pub pending_recv: usize,
    /// Whether the stream has finished
    pub is_finished: bool,
}

impl StreamView {
    /// Offset of the next byte that the application reads.
    pub open spec fn read_offset(self) -> int {
        self.recv_offset - self.ready.len()
    }

    /// Whether everything that the stream holds are pieces of the message `m` at their
    /// places.
    pub open spec fn carries(self, m: Seq<u8>) -> bool {
        &&& self.chunks.dom().finite()
        &&& self.ready.len() <= self.recv_offset <= m.len()
        &&& m.len() <= u64::MAX
        &&& self.ready == m.subrange(self.read_offset(), self.recv_offset as int)
        &&& forall|k: u64| #[trigger]
            self.chunks.contains_key(k) ==> k + self.chunks[k].data.len() <= m.len()
                && self.chunks[k].data == m.subrange(k as int, k + self.chunks[k].data.len())
    }
}

/// A new stream carries any message: nothing of it has come in yet.
pub proof fn stream_starts_empty(id: StreamId, local_role: ConnectionRole, m: Seq<u8>)
    requires
        m.len() <= u64::MAX,
    ensures
        StreamView::start(id, local_role).carries(m),
        StreamView::start(id, local_role).read_offset() == 0,
{
    assert(Seq::<u8>::empty() =~= m.subrange(0, 0));
}

/// Handing over contiguous chunks hands over the next bytes of the message, and holds
/// none back that could follow.
pub proof fn stream_release_in_order(v: StreamView, m: Seq<u8>)
    requires
        v.carries(m),
    ensures
        v.released().carries(m),
        v.released().read_offset() == v.read_offset(),
        v.released().recv_offset >= v.recv_offset,
        v.released().ready == v.ready + m.subrange(
            v.recv_offset as int,
            v.released().recv_offset as int,
        ),
        v.released().past_end() || !v.released().chunks.contains_key(v.released().recv_offset),
        v.released() == (StreamView {
            chunks: v.released().chunks,
            recv_offset: v.released().recv_offset,
            ready: v.released().ready,
            ..v
        }),
    decreases v.chunks.dom().len(),
{
    if v.chunks.contains_key(v.recv_offset) {
        let c = v.chunks[v.recv_offset];
        let w = StreamView {
            chunks: v.chunks.remove(v.recv_offset),
            recv_offset: (v.recv_offset + c.data.len()) as u64,
            ready: v.ready + c.data,
            ..v
        };
        assert(w.ready =~= m.subrange(w.read_offset(), w.recv_offset as int));
        assert(w.carries(m)) by {
            assert forall|k: u64| #[trigger] w.chunks.contains_key(k) implies k
                + w.chunks[k].data.len() <= m.len() && w.chunks[k].data == m.subrange(
                k as int,
                k + w.chunks[k].data.len(),
            ) by {
                assert(v.chunks.contains_key(k));
            }
        }
        if !(c.fin && w.past_end()) {
            stream_release_in_order(w, m);
            assert(v.released().ready =~= v.ready + m.subrange(
                v.recv_offset as int,
                v.released().recv_offset as int,
            ));
        }
    } else {
        assert(v.ready =~= v.ready + m.subrange(v.recv_offset as int, v.recv_offset as int));
    }
}

/// However the pieces of a message arrive, in whatever order and however often, the
/// stream keeps carrying that message, and what was read stays read.
pub proof fn stream_receive_keeps_message(
    v: StreamView,
    m: Seq<u8>,
    offset: u64,
    data: Seq<u8>,
    fin: bool,
)
    requires
        v.carries(m),
        offset + data.len() <= m.len(),
        data == m.subrange(offset as int, offset + data.len()),
    ensures
        v.received(offset, data, fin).carries(m),
        v.received(offset, data, fin).read_offset() == v.read_offset(),
        v.received(offset, data, fin).recv_offset >= v.recv_offset,
{
    if !v.is_old(offset, data) {
        let v1 = if fin && !v.fin_received {
            v.finished_at((offset + data.len()) as u64)
        } else {
            v
        };
        let v2 = StreamView {
            chunks: v1.chunks.insert(offset, ChunkView { data, fin }),
            data_recv: (v1.data_recv + data.len()) as u64,
            ..v1
        };
        assert(v2.carries(m)) by {
            assert forall|k: u64| #[trigger] v2.chunks.contains_key(k) implies k
                + v2.chunks[k].data.len() <= m.len() && v2.chunks[k].data == m.subrange(
                k as int,
                k + v2.chunks[k].data.len(),
            ) by {
                if k != offset {
                    assert(v.chunks.contains_key(k));
                }
            }
        }
        stream_release_in_order(v2, m);
    }
}

/// A piece that starts where the contiguous data ends becomes readable at once.
pub proof fn stream_receive_delivers_next(
    v: StreamView,
    m: Seq<u8>,
    data: Seq<u8>,
    fin: bool,
)
    requires
        v.carries(m),
        data.len() > 0,
        v.recv_offset + data.len() <= m.len(),
        data == m.subrange(v.recv_offset as int, v.recv_offset + data.len()),
    ensures
        v.received(v.recv_offset, data, fin).recv_offset >= v.recv_offset + data.len(),
{
    let offset = v.recv_offset;
    let v1 = if fin && !v.fin_received {
        v.finished_at((offset + data.len()) as u64)
    } else {
        v
    };
    let v2 = StreamView {
        chunks: v1.chunks.insert(offset, ChunkView { data, fin }),
        data_recv: (v1.data_recv + data.len()) as u64,
        ..v1
    };
    assert(v2.carries(m)) by {
        assert forall|k: u64| #[trigger] v2.chunks.contains_key(k) implies k
            + v2.chunks[k].data.len() <= m.len() && v2.chunks[k].data == m.subrange(
            k as int,
            k + v2.chunks[k].data.len(),
        ) by {
            if k != offset {
                assert(v.chunks.contains_key(k));
            }
        }
    }
    let c = v2.chunks[v2.recv_offset];
    let w = StreamView {
        chunks: v2.chunks.remove(v2.recv_offset),
        recv_offset: (v2.recv_offset + c.data.len()) as u64,
        ready: v2.ready + c.data,
        ..v2
    };
    assert(w.carries(m)) by {
        assert(w.ready =~= m.subrange(w.read_offset(), w.recv_offset as int));
        assert forall|k: u64| #[trigger] w.chunks.contains_key(k) implies k + w.chunks[k].data.len()
            <= m.len() && w.chunks[k].data == m.subrange(k as int, k + w.chunks[k].data.len()) by {
            assert(v2.chunks.contains_key(k));
        }
    }
    if !(c.fin && w.past_end()) {
        stream_release_in_order(w, m);
    }
}

/// Reading gives the next bytes of the message, and the rest stays to be read.
pub proof fn stream_read_gives_message(v: StreamView, m: Seq<u8>, n: int)
    requires
        v.carries(m),
        0 <= n <= v.ready.len(),
    ensures
        v.ready.take(n) == m.subrange(v.read_offset(), v.read_offset() + n),
        (StreamView { ready: v.ready.skip(n), ..v }).carries(m),
        (StreamView { ready: v.ready.skip(n), ..v }).read_offset() == v.read_offset() + n,
{
    let w = StreamView { ready: v.ready.skip(n), ..v };
    assert(v.ready.take(n) =~= m.subrange(v.read_offset(), v.read_offset() + n));
    assert(w.ready =~= m.subrange(w.read_offset(), w.recv_offset as int));
}

/// Whether the positions cut a message of that length into consecutive pieces that are not
/// empty.
pub open spec fn cuts_into_pieces(cuts: Seq<int>, length: int) -> bool {
    &&& cuts.len() > 0
    &&& cuts[0] == 0
    &&& cuts.last() == length
    &&& forall|i: int, j: int| 0 <= i < j < cuts.len() ==> cuts[i] < cuts[j]
}

/// The piece of a message between two neighbouring cuts.
pub open spec fn piece(m: Seq<u8>, cuts: Seq<int>, i: int) -> Seq<u8> {
    m.subrange(cuts[i], cuts[i + 1])
}

/// A stream after pieces of a message have come in, in that order.
pub open spec fn after_pieces(v: StreamView, m: Seq<u8>, cuts: Seq<int>, order: Seq<int>)
    -> StreamView
    decreases order.len(),
{
    if order.len() == 0 {
        v
    } else {
        after_pieces(v, m, cuts, order.drop_last()).received(
            cuts[order.last()] as u64,
            piece(m, cuts, order.last()),
            false,
        )
    }
}

/// How many bytes the pieces of a set make up, among the first `n`.
spec fn covered(cuts: Seq<int>, s: Set<int>, n: int) -> int
    decreases n,
{
    if n <= 0 {
        0
    } else {
        covered(cuts, s, n - 1) + if s.contains(n - 1) {
            cuts[n] - cuts[n - 1]
        } else {
            0
        }
    }
}

/// One more piece adds its length.
proof fn lemma_covered_insert(cuts: Seq<int>, s: Set<int>, x: int, n: int)
    requires
        0 <= x,
        0 <= n < cuts.len(),
        !s.contains(x),
    ensures
        covered(cuts, s.insert(x), n) == covered(cuts, s, n) + (if x < n {
            cuts[x + 1] - cuts[x]
        } else {
            0
        }),
    decreases n,
{
    if n > 0 {
        lemma_covered_insert(cuts, s, x, n - 1);
    }
}

/// All pieces make up the message.
proof fn lemma_covered_all(cuts: Seq<int>, s: Set<int>, n: int)
    requires
        0 <= n < cuts.len(),
        forall|i: int| 0 <= i < n ==> s.contains(i),
    ensures
        covered(cuts, s, n) == cuts[n] - cuts[0],
    decreases n,
{
    if n > 0 {
        lemma_covered_all(cuts, s, n - 1);
    }
}

/// Some pieces make up no more than all.
proof fn lemma_covered_bound(cuts: Seq<int>, s: Set<int>, n: int)
    requires
        0 <= n < cuts.len(),
        forall|i: int, j: int| 0 <= i < j < cuts.len() ==> cuts[i] < cuts[j],
    ensures
        0 <= covered(cuts, s, n) <= cuts[n] - cuts[0],
    decreases n,
{
    if n > 0 {
        lemma_covered_bound(cuts, s, n - 1);
        assert(cuts[n - 1] < cuts[n]);
    }
}

impl StreamView {
    /// Whether the stream holds just the pieces of a set, handed over up to the cut `j`.
    spec fn holds(self, m: Seq<u8>, cuts: Seq<int>, s: Set<int>, j: int) -> bool {
        &&& self.carries(m)
        &&& self.read_offset() == 0
        &&& self.state == StreamState::Open
        &&& self.final_size is None
        &&& self.max_data_recv >= 65536
        &&& 0 <= j < cuts.len()
        &&& self.recv_offset == cuts[j]
        &&& forall|i: int| 0 <= i < j ==> s.contains(i)
        &&& forall|k: u64| #[trigger]
            self.chunks.contains_key(k) ==> exists|i: int|
                j <= i < cuts.len() - 1 && #[trigger] s.contains(i) && cuts[i] == k
                    && self.chunks[k].data == piece(m, cuts, i)
        &&& forall|i: int|
            j <= i < cuts.len() - 1 && #[trigger] s.contains(i) ==> self.chunks.contains_key(
                cuts[i] as u64,
            )
    }
}

/// Handing over goes from cut to cut, until a piece is missing.
proof fn lemma_release_pieces(v: StreamView, m: Seq<u8>, cuts: Seq<int>, s: Set<int>, j: int) -> (k:
    int)
    requires
        m.len() <= 65536,
        cuts_into_pieces(cuts, m.len() as int),
        v.holds(m, cuts, s, j),
    ensures
        v.released().holds(m, cuts, s, k),
        !v.released().chunks.contains_key(v.released().recv_offset),
        v.released().data_recv == v.data_recv,
    decreases v.chunks.dom().len(),
{
    if v.chunks.contains_key(v.recv_offset) {
        let at = v.recv_offset;
        let i = choose|i: int|
            j <= i < cuts.len() - 1 && #[trigger] s.contains(i) && cuts[i] == at
                && v.chunks[at].data == piece(m, cuts, i);
        assert(i == j) by {
            if i > j {
                assert(cuts[j] < cuts[i]);
            }
        }
        assert(cuts[j] < cuts[j + 1]);
        assert(cuts[j + 1] <= m.len()) by {
            if j + 1 < cuts.len() - 1 {
                assert(cuts[j + 1] < cuts[cuts.len() - 1]);
            }
        }
        let c = v.chunks[at];
        assert(c.data.len() == cuts[j + 1] - cuts[j]);
        let w = StreamView {
            chunks: v.chunks.remove(at),
            recv_offset: (at + c.data.len()) as u64,
            ready: v.ready + c.data,
            ..v
        };
        assert(w.carries(m)) by {
            assert(w.ready =~= m.subrange(w.read_offset(), w.recv_offset as int));
            assert forall|k: u64| #[trigger] w.chunks.contains_key(k) implies k
                + w.chunks[k].data.len() <= m.len() && w.chunks[k].data == m.subrange(
                k as int,
                k + w.chunks[k].data.len(),
            ) by {
                assert(v.chunks.contains_key(k));
            }
        }
        assert forall|k: u64| #[trigger] w.chunks.contains_key(k) implies exists|i: int|
            j + 1 <= i < cuts.len() - 1 && #[trigger] s.contains(i) && cuts[i] == k
                && w.chunks[k].data == piece(m, cuts, i) by {
            assert(v.chunks.contains_key(k));
            let i = choose|i: int|
                j <= i < cuts.len() - 1 && #[trigger] s.contains(i) && cuts[i] == k
                    && v.chunks[k].data == piece(m, cuts, i);
            assert(i != j);
        }
        assert forall|i: int| j + 1 <= i < cuts.len() - 1 && #[trigger] s.contains(
            i,
        ) implies w.chunks.contains_key(cuts[i] as u64) by {
            assert(cuts[j] < cuts[i]);
            assert(cuts[i] < cuts[cuts.len() - 1]);
            assert(v.chunks.contains_key(cuts[i] as u64));
        }
        assert(w.holds(m, cuts, s, j + 1));
        lemma_release_pieces(w, m, cuts, s, j + 1)
    } else {
        j
    }
}

/// The stream holds what has come in, and every piece was accepted.
proof fn lemma_pieces_held(
    v: StreamView,
    m: Seq<u8>,
    cuts: Seq<int>,
    order: Seq<int>,
) -> (j: int)
    requires
        m.len() <= 65536,
        cuts_into_pieces(cuts, m.len() as int),
        order.no_duplicates(),
        forall|i: int| 0 <= i < order.len() ==> 0 <= #[trigger] order[i] < cuts.len() - 1,
        v.holds(m, cuts, Set::empty(), 0),
        v.data_recv == 0,
        v.chunks == Map::<u64, ChunkView>::empty(),
    ensures
        after_pieces(v, m, cuts, order).holds(m, cuts, order.to_set(), j),
        after_pieces(v, m, cuts, order).data_recv == covered(
            cuts,
            order.to_set(),
            cuts.len() - 1,
        ),
        !after_pieces(v, m, cuts, order).chunks.contains_key(
            after_pieces(v, m, cuts, order).recv_offset,
        ),
    decreases order.len(),
{
    if order.len() == 0 {
        assert(order.to_set() =~= Set::empty());
        lemma_covered_none(cuts, cuts.len() - 1);
        0
    } else {
        let front = order.drop_last();
        let x = order.last();
        assert(x == order[order.len() - 1]);
        assert forall|i: int| 0 <= i < front.len() implies 0 <= #[trigger] front[i] < cuts.len()
            - 1 by {
            assert(front[i] == order[i]);
        }
        let j = lemma_pieces_held(v, m, cuts, front);
        let s = front.to_set();
        assert(!s.contains(x)) by {
            if front.contains(x) {
                let i = choose|i: int| 0 <= i < front.len() && front[i] == x;
                assert(order[i] == order[order.len() - 1]);
            }
        }
        assert(order.to_set() =~= s.insert(x)) by {
            assert(order =~= front.push(x));
            assert forall|y: int| order.to_set().contains(y) <==> s.insert(x).contains(y) by {
                if order.contains(y) {
                    let i = choose|i: int| 0 <= i < order.len() && order[i] == y;
                    if i < front.len() {
                        assert(front[i] == y);
                    }
                }
                if front.contains(y) {
                    let i = choose|i: int| 0 <= i < front.len() && front[i] == y;
                    assert(order[i] == y);
                }
            }
        }
        let u = after_pieces(v, m, cuts, front);
        lemma_piece_held(u, m, cuts, s, x, j)
    }
}

/// Without pieces there are no bytes.
proof fn lemma_covered_none(cuts: Seq<int>, n: int)
    ensures
        covered(cuts, Set::empty(), n) == 0,
    decreases n,
{
    if n > 0 {
        lemma_covered_none(cuts, n - 1);
    }
}

/// One more piece is held as well.
proof fn lemma_piece_held(
    u: StreamView,
    m: Seq<u8>,
    cuts: Seq<int>,
    s: Set<int>,
    x: int,
    j: int,
) -> (k: int)
    requires
        m.len() <= 65536,
        cuts_into_pieces(cuts, m.len() as int),
        u.holds(m, cuts, s, j),
        u.data_recv == covered(cuts, s, cuts.len() - 1),
        0 <= x < cuts.len() - 1,
        !s.contains(x),
    ensures
        ({
            let w = u.received(cuts[x] as u64, piece(m, cuts, x), false);
            &&& w.holds(m, cuts, s.insert(x), k)
            &&& w.data_recv == covered(cuts, s.insert(x), cuts.len() - 1)
            &&& !w.chunks.contains_key(w.recv_offset)
        }),
{
    let t = s.insert(x);
    let data = piece(m, cuts, x);
    let offset = cuts[x] as u64;
    assert(j <= x);
    assert(cuts[x] < cuts[x + 1]);
    assert(cuts[x] >= 0) by {
        if x > 0 {
            assert(cuts[0] < cuts[x]);
        }
    }
    assert(cuts[x + 1] <= m.len()) by {
        if x + 1 < cuts.len() - 1 {
            assert(cuts[x + 1] < cuts[cuts.len() - 1]);
        }
    }
    assert(cuts[j] <= cuts[x]) by {
        if j < x {
            assert(cuts[j] < cuts[x]);
        }
    }
    assert(!u.is_old(offset, data));
    lemma_covered_insert(cuts, s, x, cuts.len() - 1);
    lemma_covered_bound(cuts, t, cuts.len() - 1);
    let v = StreamView {
        chunks: u.chunks.insert(offset, ChunkView { data, fin: false }),
        data_recv: (u.data_recv + data.len()) as u64,
        ..u
    };
    assert(v.carries(m)) by {
        assert forall|k: u64| #[trigger] v.chunks.contains_key(k) implies k + v.chunks[k].data.len()
            <= m.len() && v.chunks[k].data == m.subrange(k as int, k + v.chunks[k].data.len()) by {
            if k != offset {
                assert(u.chunks.contains_key(k));
            }
        }
    }
    assert forall|k: u64| #[trigger] v.chunks.contains_key(k) implies exists|i: int|
        j <= i < cuts.len() - 1 && #[trigger] t.contains(i) && cuts[i] == k && v.chunks[k].data
            == piece(m, cuts, i) by {
        if k == offset {
            assert(t.contains(x));
        } else {
            assert(u.chunks.contains_key(k));
            let i = choose|i: int|
                j <= i < cuts.len() - 1 && #[trigger] s.contains(i) && cuts[i] == k
                    && u.chunks[k].data == piece(m, cuts, i);
            assert(t.contains(i));
        }
    }
    assert forall|i: int| j <= i < cuts.len() - 1 && #[trigger] t.contains(
        i,
    ) implies v.chunks.contains_key(cuts[i] as u64) by {
        if i != x {
            assert(s.contains(i));
            assert(u.chunks.contains_key(cuts[i] as u64));
        }
    }
    assert forall|i: int| 0 <= i < j implies t.contains(i) by {
        assert(s.contains(i));
    }
    assert(v.holds(m, cuts, t, j));
    let k = lemma_release_pieces(v, m, cuts, t, j);
    let r = v.released();
    let w = r.window_updated();
    assert(w.carries(m)) by {
        assert(w.chunks == r.chunks && w.ready == r.ready && w.recv_offset == r.recv_offset);
    }
    assert(w.holds(m, cuts, t, k));
    k
}

/// Whatever the order in which the pieces of a message come in, each once and none read
/// meanwhile, a new stream accepts them all, and has the whole message to read in the end.
pub proof fn stream_pieces_make_message(
    id: StreamId,
    local_role: ConnectionRole,
    m: Seq<u8>,
    cuts: Seq<int>,
    order: Seq<int>,
)
    requires
        0 < m.len() <= 65536,
        cuts_into_pieces(cuts, m.len() as int),
        order.no_duplicates(),
        order.len() == cuts.len() - 1,
        forall|i: int| 0 <= i < order.len() ==> 0 <= #[trigger] order[i] < cuts.len() - 1,
    ensures
        forall|k: int|
            0 <= k < order.len() ==> after_pieces(
                StreamView::start(id, local_role),
                m,
                cuts,
                #[trigger] order.take(k),
            ).receive_error(cuts[order[k]] as u64, piece(m, cuts, order[k]), false) is None,
        ({
            let v = after_pieces(StreamView::start(id, local_role), m, cuts, order);
            &&& v.data_recv == m.len()
            &&& v.ready == m
            &&& v.ready.take(m.len() as int) == m
        }),
{
    let v = StreamView::start(id, local_role);
    stream_starts_empty(id, local_role, m);
    assert(v.holds(m, cuts, Set::empty(), 0));
    assert forall|k: int| 0 <= k < order.len() implies after_pieces(
        v,
        m,
        cuts,
        #[trigger] order.take(k),
    ).receive_error(cuts[order[k]] as u64, piece(m, cuts, order[k]), false) is None by {
        let t = order.take(k);
        assert forall|i: int| 0 <= i < t.len() implies 0 <= #[trigger] t[i] < cuts.len() - 1 by {
            assert(t[i] == order[i]);
        }
        assert(t.no_duplicates());
        let j = lemma_pieces_held(v, m, cuts, t);
        let x = order[k];
        assert(cuts[x] < cuts[x + 1]);
        assert(cuts[x] >= 0) by {
            if x > 0 {
                assert(cuts[0] < cuts[x]);
            }
        }
        assert(cuts[x + 1] <= m.len()) by {
            if x + 1 < cuts.len() - 1 {
                assert(cuts[x + 1] < cuts[cuts.len() - 1]);
            }
        }
    }
    let n = cuts.len() - 1;
    let j = lemma_pieces_held(v, m, cuts, order);
    let w = after_pieces(v, m, cuts, order);
    let s = order.to_set();
    lemma_all_named(order, n);
    lemma_covered_all(cuts, s, n);
    assert(j == n) by {
        if j < n {
            assert(s.contains(j));
            assert(w.chunks.contains_key(cuts[j] as u64));
        }
    }
    assert(m.subrange(0, m.len() as int) =~= m);
    assert(m.take(m.len() as int) =~= m);
}

/// Distinct numbers below `n`, as many as there are, are all of them.
proof fn lemma_all_named(order: Seq<int>, n: int)
    requires
        order.no_duplicates(),
        order.len() == n,
        forall|i: int| 0 <= i < order.len() ==> 0 <= #[trigger] order[i] < n,
    ensures
        forall|i: int| 0 <= i < n ==> order.to_set().contains(i),
{
    let s = order.to_set();
    let all = vstd::set_lib::set_int_range(0, n);
    vstd::set_lib::lemma_int_range(0, n);
    order.unique_seq_to_set();
    assert(s.subset_of(all));
    vstd::set_lib::lemma_subset_equality(s, all);
}

/// Data goes out in the order in which it was queued: newly queued data stands behind what
/// waits, and a piece that is handed out, with what is left, makes up what waited.
pub proof fn stream_sends_in_order(v: StreamView, data: Seq<u8>, fin: bool, n: int)
    requires
        v.send_error(data) is None,
        0 <= n <= v.queued(data, fin).send_buffer.len(),
    ensures
        v.queued(data, fin).send_buffer.take(n) + v.queued(data, fin).send_buffer.skip(n)
            == v.send_buffer + data,
        n <= v.send_buffer.len() ==> v.queued(data, fin).send_buffer.take(n)
            == v.send_buffer.take(n),
{
    let w = v.queued(data, fin);
    assert(w.send_buffer.take(n) + w.send_buffer.skip(n) =~= v.send_buffer + data);
    if n <= v.send_buffer.len() {
        assert(w.send_buffer.take(n) =~= v.send_buffer.take(n));
    }
}

/// Data that is accepted for sending stays within the limit that the peer granted.
pub proof fn stream_send_within_limit(v: StreamView, data: Seq<u8>, fin: bool)
    requires
        v.send_error(data) is None,
    ensures
        v.queued(data, fin).sent <= v.max_data_send,
        fin ==> v.queued(data, fin).send_error(Seq::empty()) is Some,
{
}

/// Data that is accepted ends within the receive window.
pub proof fn stream_receive_within_window(v: StreamView, offset: u64, data: Seq<u8>, fin: bool)
    requires
        v.receive_error(offset, data, fin) is None,
    ensures
        v.is_old(offset, data) || offset + data.len() <= v.max_data_recv,
        v.window_updated().max_data_recv >= v.max_data_recv,
{
}

} // verus!
