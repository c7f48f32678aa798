//! Laws of streams, of flow control and of paths.

use crate::addr::SocketAddress;
use crate::connection::ConnectionRole;
use crate::error::Error;
use crate::flow_control::FlowControlLimits;
use crate::migration::{first, joining, MigrationConfig, MigrationView, PathStateView, PathView};
use crate::stream::{id_pattern, StreamId, StreamState, StreamType, StreamView};
use crate::time::Instant;
use crate::transport::TransportParameters;
use vstd::prelude::*;

verus! {

/// The lowest bit of a stream ID says who opened the stream, the next one whether it goes one
/// way.
pub proof fn stream_id_bits(t: StreamType, initiator: ConnectionRole)
    ensures
        id_pattern(t, initiator) < 4,
        id_pattern(t, initiator) % 2 == 1 <==> initiator == ConnectionRole::Server,
        id_pattern(t, initiator) / 2 == 1 <==> t == StreamType::Unidirectional,
{
}

/// A stream starts open and empty, with a megabyte to send and 64 kilobytes to receive.
pub proof fn streams_start_open(id: StreamId, role: ConnectionRole)
    ensures
        ({
            let s = StreamView::start(id, role);
            &&& s.state.sends() && s.state.receives()
            &&& s.max_data_send == 1024 * 1024 && s.max_data_recv == 64 * 1024
            &&& s.sent == 0 && s.data_recv == 0 && s.recv_offset == 0
            &&& s.send_buffer.len() == 0 && s.ready.len() == 0
            &&& !s.fin_sent && !s.fin_received && s.final_size is None
            &&& s.stream_type == StreamType::Unidirectional <==> id@ % 4 >= 2
            &&& s.id == id && s.local_role == role
        }),
{
}

/// Data to send is queued behind what is there and counted; the end of it closes this side
/// alone.
pub proof fn queued_data_is_counted(s: StreamView, data: Seq<u8>, fin: bool)
    requires
        s.state == StreamState::Open,
        s.sent + data.len() <= u64::MAX,
        s.send_offset + data.len() <= u64::MAX,
    ensures
        ({
            let n = s.queued(data, fin);
            &&& n.send_buffer.len() == s.send_buffer.len() + data.len()
            &&& n.send_buffer.take(s.send_buffer.len() as int) == s.send_buffer
            &&& n.send_buffer.skip(s.send_buffer.len() as int) == data
            &&& n.sent - s.sent == data.len()
            &&& n.send_offset - s.send_offset == data.len()
            &&& fin ==> !n.state.sends() && n.state.receives() && n.fin_sent
            &&& !fin ==> n.state == s.state
            &&& n.recv_offset == s.recv_offset && n.chunks == s.chunks
        }),
{
    let n = s.queued(data, fin);
    assert(n.send_buffer.take(s.send_buffer.len() as int) =~= s.send_buffer);
    assert(n.send_buffer.skip(s.send_buffer.len() as int) =~= data);
}

/// Data may be sent on an open stream up to its limit, and not behind its end.
pub proof fn sending_is_limited(s: StreamView, data: Seq<u8>)
    ensures
        s.send_error(data) is None <==> s.state == StreamState::Open && !s.fin_sent && s.sent
            + data.len() <= s.max_data_send,
        s.state == StreamState::Open && !s.fin_sent && s.sent + data.len() > s.max_data_send
            ==> s.send_error(data) == Some(Error::FlowControl),
        s.state == StreamState::ResetSent || s.state == StreamState::Closed || s.fin_sent
            ==> s.send_error(data) is Some,
{
}

/// Data is accepted up to the window, whoever sent it; data that was delivered already is
/// accepted and changes nothing.
pub proof fn receiving_is_limited(s: StreamView, offset: u64, data: Seq<u8>, fin: bool)
    ensures
        s.receive_error(offset, data, fin) is None ==> s.state.receives(),
        s.state.receives() && offset + data.len() <= s.recv_offset ==> s.receive_error(
            offset,
            data,
            fin,
        ) is None && s.received(offset, data, fin) == s,
        s.state.receives() && offset + data.len() > s.recv_offset && offset + data.len()
            > s.max_data_recv ==> s.receive_error(offset, data, fin) == Some(Error::FlowControl),
        s.state.receives() && offset + data.len() <= s.max_data_recv && !s.fin_received
            ==> s.receive_error(offset, data, fin) is None,
        s.state.receives() && s.recv_offset < offset + data.len() <= s.max_data_recv
            && s.fin_received && fin && s.final_size is Some && s.final_size->Some_0 != offset
            + data.len() ==> s.receive_error(offset, data, fin) is Some,
        s.state.receives() <==> s.state == StreamState::Open || s.state
            == StreamState::HalfClosedLocal,
        s.state.sends() <==> s.state == StreamState::Open,
{
}

/// The end of what the peer sends fixes the final size and closes its side; with both sides
/// closed the stream is.
pub proof fn end_closes_side(s: StreamView, end: u64)
    ensures
        ({
            let n = s.finished_at(end);
            &&& n.fin_received && n.final_size == Some(end)
            &&& s.state == StreamState::Open ==> n.state == StreamState::HalfClosedRemote
            &&& s.state == StreamState::HalfClosedLocal ==> n.state == StreamState::Closed
            &&& s.state != StreamState::Open && s.state != StreamState::HalfClosedLocal ==> n.state
                == s.state
            &&& !n.state.receives()
            &&& n.ready == s.ready && n.chunks == s.chunks && n.recv_offset == s.recv_offset
        }),
{
}

/// The window doubles, and the peer is to be told, once more than half of it came.
pub proof fn window_doubles_when_half_used(s: StreamView)
    requires
        s.max_data_recv < 0x8000_0000_0000_0000,
    ensures
        ({
            let n = s.window_updated();
            &&& s.data_recv > s.max_data_recv / 2 ==> n.max_data_recv == s.max_data_recv
                + s.max_data_recv && n.should_send_max_data
            &&& s.data_recv <= s.max_data_recv / 2 ==> n == s
            &&& n.ready == s.ready && n.data_recv == s.data_recv
        }),
{
}

/// A stream is finished when all of it up to the end was handed out.
pub proof fn finished_when_all_is_read(s: StreamView, size: u64)
    ensures
        s.is_finished() ==> s.fin_received && s.ready.len() == 0,
        s.fin_received && s.final_size == Some(size) ==> (s.is_finished() <==> s.ready.len() == 0
            && s.recv_offset >= size),
        !s.fin_received ==> !s.is_finished(),
{
}

/// A reset of the peer drops what was received and fixes the final size; a request to stop drops
/// what is to be sent.
pub proof fn resets_drop_data(s: StreamView, size: u64)
    ensures
        ({
            let n = s.reset_by_peer(size);
            &&& !n.state.receives() && !n.state.sends() && n.state == StreamState::ResetRecv
            &&& n.ready.len() == 0 && n.chunks.dom().is_empty() && n.final_size == Some(size)
            &&& n.send_buffer == s.send_buffer
        }),
        ({
            let n = s.stopped();
            &&& s.state == StreamState::Open ==> n.state == StreamState::ResetSent
                && n.send_buffer.len() == 0
            &&& s.state != StreamState::Open ==> n == s
            &&& n.ready == s.ready
        }),
{
}

/// What is declared limits both directions at the start; what is not declared is nothing.
pub proof fn limits_start_as_declared(p: TransportParameters)
    ensures
        ({
            let f = FlowControlLimits::from_params(p);
            &&& p.initial_max_data matches Some(v) ==> f.max_data == v.0 && f.max_data_recv == v.0
            &&& p.initial_max_data is None ==> f.max_data == 0 && f.max_data_recv == 0
            &&& p.initial_max_streams_bidi matches Some(v) ==> f.max_streams_bidi == v.0
            &&& p.initial_max_streams_bidi is None ==> f.max_streams_bidi == 0
            &&& p.initial_max_streams_uni matches Some(v) ==> f.max_streams_uni == v.0
            &&& p.initial_max_streams_uni is None ==> f.max_streams_uni == 0
            &&& f.data_sent == 0 && f.data_recv == 0
            &&& f.streams_bidi_count == 0 && f.streams_uni_count == 0
        }),
{
}

/// A stream that is opened counts once, among those of its kind.
pub proof fn opened_streams_are_counted(f: FlowControlLimits)
    requires
        f.streams_bidi_count < u64::MAX,
        f.streams_uni_count < u64::MAX,
    ensures
        ({
            let n = f.opened(StreamType::Bidirectional);
            &&& n.streams_bidi_count - f.streams_bidi_count == 1
            &&& n == FlowControlLimits { streams_bidi_count: n.streams_bidi_count, ..f }
        }),
        ({
            let n = f.opened(StreamType::Unidirectional);
            &&& n.streams_uni_count - f.streams_uni_count == 1
            &&& n == FlowControlLimits { streams_uni_count: n.streams_uni_count, ..f }
        }),
        f.streams(StreamType::Bidirectional) == f.streams_bidi_count,
        f.streams(StreamType::Unidirectional) == f.streams_uni_count,
        f.max_streams(StreamType::Bidirectional) == f.max_streams_bidi,
        f.max_streams(StreamType::Unidirectional) == f.max_streams_uni,
{
}

/// What is found first fits, and nothing before it does; where nothing is found, nothing fits.
pub proof fn first_is_found(s: Seq<PathView>, p: spec_fn(PathView) -> bool)
    ensures
        first(s, p) matches Some(i) ==> 0 <= i < s.len() && p(s[i]) && forall|j: int|
            0 <= j < i ==> !#[trigger] p(s[j]),
        first(s, p) is None ==> forall|j: int| 0 <= j < s.len() ==> !#[trigger] p(s[j]),
    decreases s.len(),
{
    if s.len() > 0 {
        let d = s.drop_last();
        first_is_found(d, p);
        assert forall|j: int| 0 <= j < d.len() implies d[j] == #[trigger] s[j] by {}
        if first(d, p) is None {
            assert forall|j: int| 0 <= j < s.len() - 1 implies !#[trigger] p(s[j]) by {
                assert(!p(d[j]));
            }
            if first(s, p) is None {
                assert forall|j: int| 0 <= j < s.len() implies !#[trigger] p(s[j]) by {
                    if j < d.len() {
                        assert(!p(d[j]));
                    }
                }
            }
        } else {
            let i = first(d, p)->Some_0;
            assert forall|j: int| 0 <= j < i implies !#[trigger] p(s[j]) by {
                assert(!p(d[j]));
            }
        }
    }
}

/// A path is refused where one joins the same two addresses already or where there are as many
/// as allowed, and not otherwise.
pub proof fn paths_are_unique_and_few(
    m: MigrationView,
    local: SocketAddress,
    remote: SocketAddress,
)
    ensures
        m.refusal(local, remote) is Some <==> m.paths.len() >= m.config.max_paths || exists|i: int|
            0 <= i < m.paths.len() && (#[trigger] m.paths[i]).local_addr == local
                && m.paths[i].remote_addr == remote,
{
    let p = joining(local, remote);
    first_is_found(m.paths, p);
    if first(m.paths, p) is Some {
        let i = first(m.paths, p)->Some_0;
        assert(m.paths[i].local_addr == local);
    } else {
        assert forall|i: int| 0 <= i < m.paths.len() implies !((#[trigger] m.paths[i]).local_addr
            == local && m.paths[i].remote_addr == remote) by {
            assert(!p(m.paths[i]));
        }
    }
}

/// A new path is numbered anew and is to be validated with its challenge.
pub proof fn new_paths_are_validated(
    m: MigrationView,
    local: SocketAddress,
    remote: SocketAddress,
    challenge: Seq<u8>,
    now: Instant,
)
    requires
        m.next_path_id < u64::MAX,
    ensures
        ({
            let p = m.new_path(local, remote, challenge, now);
            &&& p.path_id == m.next_path_id
            &&& m.numbered_once_more().next_path_id > p.path_id
            &&& p.local_addr == local && p.remote_addr == remote && p.last_activity == now
            &&& p.max_packet_size == 1200
            &&& p.state matches PathStateView::Validating { challenge_sent, started_at, attempts }
                && challenge_sent == challenge && started_at == now && attempts == 1
        }),
{
}

/// A path fails where it is not validated in time and was tried as often as allowed. Other paths
/// stay as they are, and the numbers that are given are those of the paths that failed.
pub proof fn late_paths_fail(m: MigrationView, now: Instant, i: int)
    requires
        0 <= i < m.paths.len(),
    ensures
        ({
            let p = m.paths[i];
            let n = m.after_check(now).paths[i];
            let late = p.state is Validating && now.nanos > p.state->Validating_started_at.nanos
                + m.config.validation_timeout.nanos && p.state->attempts
                >= m.config.max_validation_attempts;
            &&& late ==> n.state is Failed && n.path_id == p.path_id && n.remote_addr
                == p.remote_addr
            &&& !late ==> n == p
            &&& late ==> m.expired_ids(now, m.paths.len() as int).contains(p.path_id)
        }),
        m.after_check(now).paths.len() == m.paths.len(),
        m.after_check(now).active_path_id == m.active_path_id,
        forall|id: u64| #[trigger]
            m.expired_ids(now, m.paths.len() as int).contains(id) ==> exists|j: int|
                0 <= j < m.paths.len() && (#[trigger] m.paths[j]).path_id == id
                    && m.paths[j].state is Validating,
{
    let n = m.paths.len() as int;
    if m.expired(m.paths[i], now) {
        lemma_expired_listed(m, now, n, i);
    }
    assert forall|id: u64| #[trigger] m.expired_ids(now, n).contains(id) implies exists|j: int|
        0 <= j < m.paths.len() && (#[trigger] m.paths[j]).path_id == id
            && m.paths[j].state is Validating by {
        let j = lemma_listed_expired(m, now, n, id);
        assert(m.paths[j].path_id == id);
    }
}

/// A path that fails is listed.
proof fn lemma_expired_listed(m: MigrationView, now: Instant, n: int, i: int)
    requires
        0 <= i < n <= m.paths.len(),
        m.expired(m.paths[i], now),
    ensures
        m.expired_ids(now, n).contains(m.paths[i].path_id),
    decreases n,
{
    let (s, t) = (m.expired_ids(now, n - 1), m.expired_ids(now, n));
    if i == n - 1 {
        assert(t[t.len() - 1] == m.paths[i].path_id);
    } else {
        lemma_expired_listed(m, now, n - 1, i);
        let k = choose|k: int| 0 <= k < s.len() && s[k] == m.paths[i].path_id;
        assert(t[k] == m.paths[i].path_id);
    }
}

/// What is listed is a path that fails.
proof fn lemma_listed_expired(m: MigrationView, now: Instant, n: int, id: u64) -> (j: int)
    requires
        0 <= n <= m.paths.len(),
        m.expired_ids(now, n).contains(id),
    ensures
        0 <= j < n,
        m.paths[j].path_id == id,
        m.expired(m.paths[j], now),
    decreases n,
{
    let (s, t) = (m.expired_ids(now, n - 1), m.expired_ids(now, n));
    let k = choose|k: int| 0 <= k < t.len() && t[k] == id;
    if m.expired(m.paths[n - 1], now) && k == t.len() - 1 {
        n - 1
    } else {
        assert(s[k] == id);
        lemma_listed_expired(m, now, n - 1, id)
    }
}

/// Four paths, three seconds and three tries are the standard.
pub proof fn standard_migration()
    ensures
        ({
            let c = MigrationConfig::standard();
            &&& c.max_paths == 4 && c.max_validation_attempts == 3
            &&& c.validation_timeout.millis() == 3000 && c.probe_timeout.millis() == 100
            &&& c.enable_auto_migration
        }),
{
}

/// The answer to a challenge makes the path active, with the time that the answer took as its
/// round-trip time.
pub proof fn answered_path_knows_rtt(
    m: MigrationView,
    data: Seq<u8>,
    source: SocketAddress,
    now: Instant,
    i: int,
)
    requires
        first(m.paths, crate::migration::awaiting(data, source)) == Some(i),
        m.paths[i].state->Validating_started_at.nanos <= now.nanos,
    ensures
        ({
            let p = m.answered(data, source, now).paths[i];
            &&& p.state matches PathStateView::Active { validated_at, rtt } && validated_at == now
                && m.paths[i].state->Validating_started_at.nanos + rtt.nanos == now.nanos
            &&& p.path_id == m.paths[i].path_id && p.remote_addr == source && p.last_activity == now
            &&& m.answered(data, source, now).active_path_id == m.active_path_id
            &&& forall|j: int|
                0 <= j < m.paths.len() && j != i ==> m.answered(data, source, now).paths[j]
                    == #[trigger] m.paths[j]
        }),
{
    first_is_found(m.paths, crate::migration::awaiting(data, source));
}

/// Every path but the one that is stored keeps its place.
pub proof fn stored_path_is_found(m: MigrationView, p: PathView)
    ensures
        m.with_path(p).path(p.path_id) == Some(p),
        m.path(p.path_id) is Some ==> m.with_path(p).paths.len() == m.paths.len(),
        m.path(p.path_id) is None ==> m.with_path(p).paths.len() == m.paths.len() + 1,
{
    let q = crate::migration::numbered(p.path_id);
    first_is_found(m.paths, q);
    let n = m.with_path(p).paths;
    first_is_found(n, q);
    match first(m.paths, q) {
        Some(i) => {
            assert(q(n[i]));
            let k = first(n, q)->Some_0;
            if k < i {
                assert(!q(m.paths[k]));
                assert(n[k] == m.paths[k]);
            }
        },
        None => {
            let i = m.paths.len() as int;
            assert(q(n[i]));
            let k = first(n, q)->Some_0;
            if k < i {
                assert(!q(m.paths[k]));
                assert(n[k] == m.paths[k]);
            }
        },
    }
}

/// Handing data on changes neither the end of a stream nor its state nor its limits.
proof fn lemma_released_keeps(s: StreamView)
    requires
        s.chunks.dom().finite(),
    ensures
        ({
            let n = s.released();
            &&& n.final_size == s.final_size && n.fin_received == s.fin_received && n.state
                == s.state
            &&& n.data_recv == s.data_recv && n.max_data_recv == s.max_data_recv
            &&& n.sent == s.sent && n.max_data_send == s.max_data_send
        }),
    decreases s.chunks.dom().len(),
{
    if s.chunks.contains_key(s.recv_offset) {
        let c = s.chunks[s.recv_offset];
        let v = StreamView {
            chunks: s.chunks.remove(s.recv_offset),
            recv_offset: (s.recv_offset + c.data.len()) as u64,
            ready: s.ready + c.data,
            ..s
        };
        assert(v.chunks.dom() =~= s.chunks.dom().remove(s.recv_offset));
        if !(c.fin && v.past_end()) {
            lemma_released_keeps(v);
        }
    }
}

/// Data that comes in is counted. The end of a stream, where it comes first, fixes the final size
/// and closes the side of the peer; what comes later does not move it.
pub proof fn received_end_is_noted(s: StreamView, offset: u64, data: Seq<u8>, fin: bool)
    requires
        s.chunks.dom().finite(),
        s.recv_offset < offset + data.len() <= u64::MAX,
        s.data_recv + data.len() <= u64::MAX,
    ensures
        ({
            let n = s.received(offset, data, fin);
            &&& n.data_recv - s.data_recv == data.len()
            &&& fin && !s.fin_received ==> n.fin_received && n.final_size == Some(
                (offset + data.len()) as u64,
            ) && !n.state.receives()
            &&& !fin || s.fin_received ==> n.fin_received == s.fin_received && n.final_size
                == s.final_size && n.state == s.state
            &&& n.max_data_recv >= s.max_data_recv
            &&& n.sent == s.sent && n.max_data_send == s.max_data_send
        }),
{
    let v = if fin && !s.fin_received {
        s.finished_at((offset + data.len()) as u64)
    } else {
        s
    };
    let w = StreamView {
        chunks: v.chunks.insert(offset, crate::stream::ChunkView { data, fin }),
        data_recv: (v.data_recv + data.len()) as u64,
        ..v
    };
    assert(w.chunks.dom() =~= v.chunks.dom().insert(offset));
    lemma_released_keeps(w);
}

} // verus!
