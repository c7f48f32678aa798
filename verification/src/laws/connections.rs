//! Laws of connections: what frames of the peer do, how a handshake ends and how a connection
//! closes.

use crate::connection::{
    ack_tuples, connection_ids_of, is_initialized, not_retired, retirements, AvailableIdView,
    ConnectionRole, ConnectionView, FrameStepView, StateView,
};
use crate::congestion::acked_sum;
use crate::crypto_impl::CryptoManager;
use crate::error::Error;
use crate::frame_types::{AckRange, FrameView};
use crate::packet::PacketType;
use crate::recovery::PacketNumberSpace;
use crate::stream::StreamType;
use crate::time::{Duration, Instant};
use crate::transport::TransportParameters;
use vstd::prelude::*;

verus! {

/// The type of what is sent and the space of its number follow the handshake.
pub proof fn state_gives_packet_type(s: StateView)
    ensures
        s is Initial ==> s.sent_type() == PacketType::Initial,
        s is Handshaking ==> s.sent_type() == PacketType::Handshake,
        s is EarlyData ==> s.sent_type() == PacketType::ZeroRtt,
        s is Established || s is Closing || s is Closed ==> s.sent_type() == PacketType::OneRtt,
        s.number_space() == PacketNumberSpace::Initial <==> s is Initial,
        s.number_space() == PacketNumberSpace::Handshake <==> s is Handshaking,
        s.acked_space() == PacketNumberSpace::ApplicationData <==> s is Established,
        s.acked_space() == PacketNumberSpace::Handshake <==> s is Handshaking,
{
}

/// Each number that an ACK frame names takes one datagram of 1200 bytes out of flight, and is
/// one datagram to congestion control.
pub proof fn acks_take_datagrams_out_of_flight<D>(
    c: ConnectionView<D>,
    largest: u64,
    delay: u64,
    ranges: Seq<AckRange>,
    now: Instant,
)
    ensures
        ({
            let n = c.after_ack(largest, delay, ranges, now).0;
            let none = c.after_ack(largest, delay, Seq::empty(), now).0;
            let bytes = acked_sum(ack_tuples(largest, ranges), 1200);
            &&& c.bytes_in_flight >= 1200 ==> c.bytes_in_flight - none.bytes_in_flight == 1200
            &&& c.bytes_in_flight < 1200 ==> none.bytes_in_flight == 0
            &&& bytes <= c.bytes_in_flight ==> c.bytes_in_flight - n.bytes_in_flight == bytes
            &&& bytes > c.bytes_in_flight ==> n.bytes_in_flight == 0
            &&& n.congestion == c.congestion.acked(bytes, Duration { nanos: 100_000_000 }, now)
        }),
{
    let t = ack_tuples(largest, Seq::<AckRange>::empty());
    let e = Seq::<(u64, u64)>::empty();
    assert(t =~= e.push((largest, largest)));
    crate::laws::congestion::acked_bytes_are_full_datagrams(e, 1200, largest, largest);
    lemma_acked_positive(largest, ranges);
}

/// What an ACK frame names is no less than its largest packet.
proof fn lemma_acked_positive(largest: u64, ranges: Seq<AckRange>)
    ensures
        acked_sum(ack_tuples(largest, ranges), 1200) >= 0,
    decreases ranges.len(),
{
    let t = ack_tuples(largest, ranges);
    if ranges.len() == 0 {
        assert(t.drop_last() =~= Seq::<(u64, u64)>::empty());
        assert(acked_sum(t, 1200) == acked_sum(t.drop_last(), 1200) + (largest - largest + 1)
            * 1200);
    } else {
        let before = ack_tuples(largest, ranges.drop_last());
        lemma_acked_positive(largest, ranges.drop_last());
        assert(t.drop_last() =~= before);
        let (a, b) = t.last();
        let start = before.last().0;
        assert(a <= b);
        assert((b - a + 1) * 1200 >= 0) by (nonlinear_arith)
            requires
                a <= b,
        ;
    }
}

/// What an ACK frame shows to be lost is queued behind what is pending, and the address of the
/// peer is validated; a refused one queues nothing.
pub proof fn lost_frames_are_queued<D>(
    c: ConnectionView<D>,
    largest: u64,
    delay: u64,
    ranges: Seq<AckRange>,
    now: Instant,
)
    ensures
        ({
            let (n, r) = c.after_ack(largest, delay, ranges, now);
            let d = Duration { nanos: (delay * 1_000) as u128 };
            let seen = c.recovery.ack_outcome(
                c.state.acked_space(),
                largest,
                ack_tuples(largest, ranges),
                d,
                now,
            );
            &&& d.nanos == 1_000 * delay
            &&& r is Ok <==> seen.1 is Ok
            &&& seen.1 matches Ok(lost) ==> n.pending == c.pending + lost
                && n.recovery.address_validated && n.recovery.spaces == seen.0.spaces
            &&& seen.1 matches Err(e) ==> r == Err::<(), Error>(e) && n.pending == c.pending
            &&& n.state == c.state && n.flow_control == c.flow_control
        }),
{
}

/// Only a client takes a token, and it takes the one that came last.
pub proof fn client_keeps_token<D>(c: ConnectionView<D>, token: Seq<u8>)
    ensures
        c.role == ConnectionRole::Client ==> c.after_plain_frame(FrameView::NewToken { token }).token
            == Some(token),
        c.role == ConnectionRole::Server ==> c.after_plain_frame(FrameView::NewToken { token })
            == c,
{
}

/// A connection ID of the peer is known unless it came before the number to retire; the client
/// retires each number below that one, in order.
pub proof fn connection_ids_are_retired<D>(
    c: ConnectionView<D>,
    id: AvailableIdView,
    retire_prior_to: u64,
    x: AvailableIdView,
)
    requires
        c.role == ConnectionRole::Client,
    ensures
        ({
            let n = c.after_plain_frame(
                FrameView::NewConnectionId {
                    sequence_number: id.sequence_number,
                    retire_prior_to,
                    connection_id: id.connection_id,
                    stateless_reset_token: id.stateless_reset_token,
                },
            );
            &&& n.available.contains(x) <==> (c.available.contains(x) || x == id)
                && x.sequence_number >= retire_prior_to
            &&& n.pending.len() == c.pending.len() + retire_prior_to
            &&& n.pending.take(c.pending.len() as int) == c.pending
            &&& forall|i: int|
                0 <= i < retire_prior_to ==> #[trigger] n.pending[c.pending.len() + i]
                    == (FrameView::RetireConnectionId { sequence_number: i as u64 })
        }),
{
    let all = c.available.push(id);
    lemma_not_retired(all, retire_prior_to, x);
    assert(all.contains(x) <==> c.available.contains(x) || x == id) by {
        if c.available.contains(x) {
            let i = choose|i: int| 0 <= i < c.available.len() && c.available[i] == x;
            assert(all[i] == x);
        }
        if x == id {
            assert(all[c.available.len() as int] == x);
        }
        if all.contains(x) {
            let i = choose|i: int| 0 <= i < all.len() && all[i] == x;
            if i < c.available.len() {
                assert(c.available[i] == x);
            }
        }
    }
    let p = c.pending + retirements(retire_prior_to as int);
    assert(p.take(c.pending.len() as int) =~= c.pending);
}

/// What is kept is what is not retired.
proof fn lemma_not_retired(s: Seq<AvailableIdView>, retire_prior_to: u64, x: AvailableIdView)
    ensures
        not_retired(s, retire_prior_to).contains(x) <==> s.contains(x) && x.sequence_number
            >= retire_prior_to,
    decreases s.len(),
{
    if s.len() > 0 {
        let d = s.drop_last();
        lemma_not_retired(d, retire_prior_to, x);
        let (k, m) = (not_retired(d, retire_prior_to), not_retired(s, retire_prior_to));
        if s.contains(x) {
            let i = choose|i: int| 0 <= i < s.len() && s[i] == x;
            if i < d.len() {
                assert(d[i] == x);
            }
        }
        if d.contains(x) {
            let i = choose|i: int| 0 <= i < d.len() && d[i] == x;
            assert(s[i] == x);
        }
        if k.contains(x) {
            let i = choose|i: int| 0 <= i < k.len() && k[i] == x;
            assert(m[i] == x);
        }
        if s.last() == x {
            assert(s[s.len() - 1] == x);
            if x.sequence_number >= retire_prior_to {
                assert(m[m.len() - 1] == x);
            }
        }
        if m.contains(x) {
            let i = choose|i: int| 0 <= i < m.len() && m[i] == x;
            if i < k.len() {
                assert(k[i] == x);
            }
        }
    }
}

/// A server notes which of its IDs the client retires. New IDs are for the client alone.
pub proof fn server_notes_retired_ids<D>(c: ConnectionView<D>, f: FrameView)
    ensures
        f matches FrameView::RetireConnectionId { sequence_number } ==> (c.role
            == ConnectionRole::Server ==> c.after_plain_frame(f).retired == c.retired.push(
            sequence_number,
        )),
        f is RetireConnectionId && c.role == ConnectionRole::Client ==> c.after_plain_frame(f) == c,
        f is NewConnectionId && c.role == ConnectionRole::Server ==> c.after_plain_frame(f) == c,
{
}

/// A challenge is answered with its own data. An answer validates the path where it is the data
/// of the challenge that was sent, and ends the challenge.
pub proof fn challenges_are_echoed<D>(c: ConnectionView<D>, data: Seq<u8>)
    ensures
        ({
            let n = c.after_plain_frame(FrameView::PathChallenge { data });
            &&& n.pending.len() == c.pending.len() + 1
            &&& n.pending.last() == (FrameView::PathResponse { data })
            &&& n.path_validated == c.path_validated
        }),
        ({
            let n = c.after_plain_frame(FrameView::PathResponse { data });
            &&& c.path_challenge_data == Some(data) ==> n.path_validated
            &&& c.path_challenge_data != Some(data) ==> n.path_validated == c.path_validated
            &&& n.path_challenge_data is None
            &&& n.pending == c.pending
        }),
{
}

/// The handshake is done for a client that is in it when the server says so, and for nobody
/// else.
pub proof fn handshake_done_is_for_client<D>(c: ConnectionView<D>)
    ensures
        ({
            let n = c.after_plain_frame(FrameView::HandshakeDone);
            &&& c.role == ConnectionRole::Client && c.state is Handshaking ==> n.state is Established
            &&& c.role == ConnectionRole::Server || !(c.state is Handshaking) ==> n == c
        }),
{
}

/// A limit on streams is raised to what the peer allows, and never lowered.
pub proof fn stream_limits_only_grow<D>(c: ConnectionView<D>, limit: u64)
    ensures
        ({
            let f = FrameView::MaxStreams {
                stream_type: crate::frame_types::StreamType::Bidirectional,
                maximum_streams: limit,
            };
            let n = c.after_plain_frame(f).flow_control;
            &&& n.max_streams_bidi >= limit && n.max_streams_bidi >= c.flow_control.max_streams_bidi
            &&& n.max_streams_bidi == limit || n.max_streams_bidi == c.flow_control.max_streams_bidi
            &&& n.max_streams_uni == c.flow_control.max_streams_uni
        }),
        ({
            let f = FrameView::MaxStreams {
                stream_type: crate::frame_types::StreamType::Unidirectional,
                maximum_streams: limit,
            };
            let n = c.after_plain_frame(f).flow_control;
            &&& n.max_streams_uni >= limit && n.max_streams_uni >= c.flow_control.max_streams_uni
            &&& n.max_streams_uni == limit || n.max_streams_uni == c.flow_control.max_streams_uni
            &&& n.max_streams_bidi == c.flow_control.max_streams_bidi
        }),
{
}

/// A peer that is blocked is told the limit once more than half of it is used.
pub proof fn blocked_peers_learn_limit<D>(c: ConnectionView<D>, limit: u64)
    ensures
        ({
            let n = c.after_plain_frame(FrameView::DataBlocked { maximum_data: limit });
            let used = c.flow_control.data_recv;
            let all = c.flow_control.max_data_recv;
            &&& used > all - used ==> n.pending == c.pending.push(
                FrameView::MaxData { maximum_data: all },
            )
            &&& used <= all - used ==> n == c
        }),
        ({
            let t = crate::frame_types::StreamType::Bidirectional;
            let n = c.with_max_streams(t);
            let used = c.flow_control.streams_bidi_count;
            let all = c.flow_control.max_streams_bidi;
            &&& used > all - used ==> n.pending == c.pending.push(
                FrameView::MaxStreams { stream_type: t, maximum_streams: all },
            )
            &&& used <= all - used ==> n == c
        }),
        ({
            let t = crate::frame_types::StreamType::Unidirectional;
            let n = c.with_max_streams(t);
            let used = c.flow_control.streams_uni_count;
            let all = c.flow_control.max_streams_uni;
            &&& used > all - used ==> n.pending == c.pending.push(
                FrameView::MaxStreams { stream_type: t, maximum_streams: all },
            )
            &&& used <= all - used ==> n == c
        }),
{
}

/// Padding and pings leave a connection as it is.
pub proof fn pings_change_nothing<D>(c: ConnectionView<D>)
    ensures
        c.after_plain_frame(FrameView::Padding) == c,
        c.after_plain_frame(FrameView::Ping) == c,
{
}

/// What a frame asks of the streams names its stream and carries its fields.
pub proof fn frames_name_their_streams<D>(f: FrameView)
    ensures
        ({
            let s = ConnectionView::<D>::step_for(f);
            &&& f matches FrameView::Stream { stream_id: i, offset: o, fin: e, data: d, .. } ==> s
                matches FrameStepView::StreamData { stream_id, offset, data, fin } && stream_id == i
                && offset == o && data == d && fin == e
            &&& f matches FrameView::ResetStream {
                stream_id: i,
                application_error_code: e,
                final_size: z,
            } ==> s matches FrameStepView::ResetStream {
                stream_id,
                application_error_code,
                final_size,
            } && stream_id == i && application_error_code == e && final_size == z
            &&& f matches FrameView::StopSending { stream_id: i, application_error_code: e } ==> s
                matches FrameStepView::StopSending { stream_id, application_error_code }
                && stream_id == i && application_error_code == e
            &&& f matches FrameView::MaxData { maximum_data: m } ==> s
                matches FrameStepView::MaxData { maximum_data } && maximum_data == m
            &&& f matches FrameView::MaxStreamData { stream_id: i, maximum_stream_data: m } ==> s
                matches FrameStepView::MaxStreamData { stream_id, maximum_stream_data } && stream_id
                == i && maximum_stream_data == m
            &&& f matches FrameView::StreamDataBlocked { stream_id: i, .. } ==> s
                matches FrameStepView::StreamDataBlocked { stream_id } && stream_id == i
            &&& f matches FrameView::StreamsBlocked { stream_type: t, maximum_streams: m } ==> s
                matches FrameStepView::StreamsBlocked { stream_type, maximum_streams }
                && stream_type == t && maximum_streams == m
            &&& f matches FrameView::ConnectionClose { error_code: e, reason_phrase: r, .. } ==> s
                matches FrameStepView::ConvertErrorCode { error_code, reason_phrase } && error_code
                == e && reason_phrase == r
            &&& f is Ping || f is Padding ==> s is Done
        }),
{
}

/// The bytes of the handshake go out without a gap: each piece starts where the last one ended.
pub proof fn handshake_data_is_contiguous<D>(c: ConnectionView<D>, a: Seq<u8>, b: Seq<u8>)
    requires
        a.len() > 0,
        b.len() > 0,
        c.crypto_send_offset + a.len() + b.len() <= u64::MAX,
    ensures
        ({
            let n = c.with_handshake_data(a).with_handshake_data(b);
            let k = c.pending.len() as int;
            &&& n.pending.len() == k + 2
            &&& n.pending[k] matches FrameView::Crypto { offset, data } && offset
                == c.crypto_send_offset && data == a
            &&& n.pending[k + 1] matches FrameView::Crypto { offset, data } && offset
                == c.crypto_send_offset + a.len() && data == b
        }),
        c.with_handshake_data(Seq::empty()) == c,
{
}

/// When the handshake is over a connection is established, and a server says so.
pub proof fn server_confirms_handshake<D>(c: ConnectionView<D>, now: Instant)
    ensures
        ({
            let n = c.established(now);
            &&& n.state is Established && n.recovery.handshake_confirmed
            &&& c.role == ConnectionRole::Server ==> n.pending == c.pending.push(
                FrameView::HandshakeDone,
            )
            &&& c.role == ConnectionRole::Client ==> n.pending == c.pending
            &&& !c.recovery.handshake_confirmed ==> n.recovery.handshake_completion_time == Some(now)
        }),
        c.handshake_finished(true) == false,
        c.crypto.role == ConnectionRole::Server ==> c.handshake_finished(false),
        c.crypto.role == ConnectionRole::Client ==> (c.handshake_finished(false)
            <==> c.crypto.handshake_send_count >= 1),
{
}

/// What the peer declares limits what is sent; what it leaves out stays as it was.
pub proof fn declared_limits_hold<D>(c: ConnectionView<D>, p: TransportParameters)
    ensures
        ({
            let n = c.with_limits(p).flow_control;
            let f = c.flow_control;
            &&& p.initial_max_data matches Some(v) ==> n.max_data == v.0
            &&& p.initial_max_data is None ==> n.max_data == f.max_data
            &&& p.initial_max_streams_bidi matches Some(v) ==> n.max_streams_bidi == v.0
            &&& p.initial_max_streams_bidi is None ==> n.max_streams_bidi == f.max_streams_bidi
            &&& p.initial_max_streams_uni matches Some(v) ==> n.max_streams_uni == v.0
            &&& p.initial_max_streams_uni is None ==> n.max_streams_uni == f.max_streams_uni
            &&& n.max_data_recv == f.max_data_recv && n.data_sent == f.data_sent && n.data_recv
                == f.data_recv
        }),
        ({
            let n = c.with_ack_params(p).recovery.rtt;
            let r = c.recovery.rtt;
            &&& p.max_ack_delay matches Some(v) ==> n.max_ack_delay.nanos == v.0 * 1_000_000
            &&& p.max_ack_delay is None ==> n.max_ack_delay == r.max_ack_delay
            &&& p.ack_delay_exponent matches Some(v) ==> (v.0 < 256 ==> n.ack_delay_exponent == v.0)
            &&& p.ack_delay_exponent is None ==> n.ack_delay_exponent == r.ack_delay_exponent
            &&& n.smoothed_rtt == r.smoothed_rtt
        }),
{
}

/// The idle timeout of a connection is the shorter of the two that are declared.
pub proof fn shorter_idle_timeout_counts<D>(c: ConnectionView<D>, p: TransportParameters)
    requires
        p.max_idle_timeout matches Some(t) && t.0 <= 0x3fff_ffff_ffff_ffff,
        p.active_connection_id_limit is None,
    ensures
        ({
            let (n, r) = c.applied(p);
            let theirs = p.max_idle_timeout->Some_0.0;
            &&& r is Ok
            &&& c.transport_params.max_idle_timeout is None ==> n.idle_limit() == theirs * 1_000_000
            &&& c.transport_params.max_idle_timeout matches Some(ours) ==> {
                &&& n.idle_limit() <= theirs * 1_000_000 && n.idle_limit() <= ours.0 * 1_000_000
                &&& n.idle_limit() == theirs * 1_000_000 || n.idle_limit() == ours.0 * 1_000_000
            }
        }),
{
}

/// A peer has to allow two connection IDs.
pub proof fn two_connection_ids_are_needed<D>(c: ConnectionView<D>, p: TransportParameters)
    requires
        p.max_idle_timeout is None,
    ensures
        c.applied(p).1 is Err <==> p.active_connection_id_limit is Some
            && p.active_connection_id_limit->Some_0.0 <= 1,
        c.with_peer_params(p, Ok(())).0.peer_transport_params == Some(p),
        forall|e: Error|
            c.with_peer_params(p, Err(e)).1 == Err::<(), Error>(e) && (#[trigger] c.with_peer_params(
                p,
                Err(e),
            )).0 == c,
{
}

/// A connection is idle when longer than its limit nothing came; the limit is half a minute
/// where none is declared.
pub proof fn idle_after_limit<D>(c: ConnectionView<D>, now: Instant)
    ensures
        c.transport_params.max_idle_timeout is None ==> (c.is_idle(now) <==> now.nanos
            > c.last_activity.nanos + 30_000_000_000),
        c.transport_params.max_idle_timeout matches Some(ms) ==> (c.is_idle(now) <==> now.nanos
            > c.last_activity.nanos + ms.0 * 1_000_000),
{
}

/// Closing sends the code and the reason once and drains for three seconds; after that the
/// connection is closed.
pub proof fn closing_takes_three_seconds<D>(
    c: ConnectionView<D>,
    code: u64,
    reason: Seq<char>,
    bytes: Seq<u8>,
    now: Instant,
    later: Instant,
)
    requires
        now.nanos < 0x1_0000_0000_0000_0000_0000,
        !(c.state is Closing || c.state is Closed),
    ensures
        ({
            let n = c.closed_with(code, reason, bytes, now);
            &&& n.state matches StateView::Closing { error_code, reason: words, .. } && error_code
                == code && words == reason
            &&& n.pending.len() == c.pending.len() + 1
            &&& n.pending.last() matches FrameView::ConnectionClose {
                error_code,
                frame_type,
                reason_phrase,
            } && error_code == code && frame_type is None && reason_phrase == bytes
            &&& later.nanos >= now.nanos + 3_000_000_000 ==> n.drained(later).state is Closed
            &&& later.nanos < now.nanos + 3_000_000_000 ==> n.drained(later) == n
            &&& n.closed_with(code, reason, bytes, later) == n
            &&& c.drained(later) == c
        }),
{
}

/// A packet is refused where it would fill the window, where the pacer holds it back, or where
/// it is larger than what ten milliseconds of the pace allow.
pub proof fn sending_stays_within_window<D>(c: ConnectionView<D>, len: int, tokens: bool)
    requires
        len >= 0,
    ensures
        ({
            let r = c.send_refusal(len, tokens);
            let window = c.congestion.window();
            &&& c.bytes_in_flight + len + 50 >= window ==> r is Some
            &&& !c.congestion.pacing.may_send(tokens) ==> r is Some
            &&& r is None ==> c.bytes_in_flight + len + 50 < window && len + 50
                <= c.congestion.pacing.pacing_rate / 100
            &&& c.bytes_in_flight + len + 50 < window && c.congestion.pacing.may_send(tokens) && len
                + 50 <= c.congestion.pacing.pacing_rate / 1000 * 10 ==> r is None
        }),
{
}

/// A datagram that came counts with all its bytes and ends the idle time.
pub proof fn arrivals_are_counted<D>(c: ConnectionView<D>, len: int, now: Instant)
    requires
        0 <= len,
        c.recovery.bytes_received + len <= u64::MAX,
    ensures
        ({
            let n = c.after_arrival(len, now);
            &&& n.recovery.bytes_received - c.recovery.bytes_received == len
            &&& n.last_activity == now
            &&& !n.is_idle(now)
            &&& n.state == c.state
        }),
{
}

/// A first long packet takes a server into the handshake; a client stays where it is.
pub proof fn first_packet_starts_handshake<D>(c: ConnectionView<D>, first: u8)
    ensures
        c.role == ConnectionRole::Server && c.state is Initial && 0xc0 <= first < 0xd0
            ==> c.noticing(first).state is Handshaking,
        c.role == ConnectionRole::Client || !(c.state is Initial) || first < 0xc0 || first >= 0xd0
            ==> c.noticing(first) == c,
{
    assert((first & 0xf0u8 == 0xc0u8) <==> (0xc0 <= first && first < 0xd0)) by (bit_vector);
}

/// Behind the first byte and the version stand the two connection IDs, each behind its length:
/// first the one that the packet is for, then that of the sender.
pub proof fn connection_ids_are_where_they_stand(
    start: Seq<u8>,
    dst: Seq<u8>,
    src: Seq<u8>,
    rest: Seq<u8>,
)
    requires
        start.len() == 5,
        dst.len() < 256,
        src.len() < 256,
    ensures
        connection_ids_of(
            start + seq![dst.len() as u8] + dst + seq![src.len() as u8] + src + rest,
        ) == Ok::<(Seq<u8>, Seq<u8>), Error>((dst, src)),
        forall|n: int|
            0 <= n < 7 + dst.len() + src.len() ==> (#[trigger] connection_ids_of(
                (start + seq![dst.len() as u8] + dst + seq![src.len() as u8] + src).take(n),
            )) == Err::<(Seq<u8>, Seq<u8>), Error>(Error::PacketTooShort),
{
    let s = start + seq![dst.len() as u8] + dst + seq![src.len() as u8] + src;
    let t = s + rest;
    let k = dst.len() as int;
    assert(s[5] == dst.len() as u8);
    assert(s[6 + k] == src.len() as u8);
    assert(t[5] == s[5] && t[6 + k] == s[6 + k]);
    assert(t.subrange(6, 6 + k) =~= dst);
    assert(t.subrange(7 + k, 7 + k + src.len()) =~= src);
    assert forall|n: int| 0 <= n < 7 + dst.len() + src.len() implies (#[trigger] connection_ids_of(
        s.take(n),
    )) == Err::<(Seq<u8>, Seq<u8>), Error>(Error::PacketTooShort) by {
        let u = s.take(n);
        if n > 5 {
            assert(u[5] == s[5]);
        }
        if n > 6 + k {
            assert(u[6 + k] == s[6 + k]);
        }
    }
}

/// Each packet takes the next number of its own space, and the other spaces keep theirs.
pub proof fn numbers_are_per_space<D>(c: ConnectionView<D>, handshaking: bool)
    requires
        c.next_number() < u64::MAX,
    ensures
        ({
            let n = c.after_encrypting(handshaking).packet_numbers;
            let b = c.packet_numbers;
            &&& n.initial - b.initial == (if c.state is Initial {
                1int
            } else {
                0
            })
            &&& n.handshake - b.handshake == (if c.state is Handshaking {
                1int
            } else {
                0
            })
            &&& n.application - b.application == (if c.state is Initial || c.state is Handshaking {
                0int
            } else {
                1
            })
            &&& c.after_encrypting(handshaking).pending.len() == 0
        }),
{
}

/// A packet that negotiates a version, one with the version zero, is not opened, nor is one that
/// a server has to answer with a negotiation.
pub proof fn negotiation_is_not_opened<D>(c: ConnectionView<D>, packet: Seq<u8>)
    requires
        packet.len() >= 5,
    ensures
        packet[1] == 0 && packet[2] == 0 && packet[3] == 0 && packet[4] == 0 ==> !c.opens_packet(
            packet,
            false,
        ),
        c.role == ConnectionRole::Server ==> !c.opens_packet(packet, true),
        (packet[1] != 0 || packet[2] != 0 || packet[3] != 0 || packet[4] != 0)
            && !c.crypto.received_with_tls(packet) ==> c.opens_packet(packet, false) && (c.role
            == ConnectionRole::Client ==> c.opens_packet(packet, true)),
{
    let v = packet.subrange(1, 5);
    assert(v[0] == packet[1] && v[1] == packet[2] && v[2] == packet[3] && v[3] == packet[4]);
    if packet[1] == 0 && packet[2] == 0 && packet[3] == 0 && packet[4] == 0 {
        assert(v =~= seq![0u8, 0, 0, 0]);
    }
}

/// Both sides derive the first keys from the ID that the client sends to: that of the server.
pub proof fn first_keys_are_of_server_id<D>(
    client: CryptoManager<D>,
    server: CryptoManager<D>,
    client_cid: Seq<u8>,
    server_cid: Seq<u8>,
)
    requires
        is_initialized(client, ConnectionRole::Client, client_cid, server_cid),
        is_initialized(server, ConnectionRole::Server, server_cid, client_cid),
    ensures
        client.has_initial_keys(server_cid),
        server.has_initial_keys(server_cid),
        client.role == ConnectionRole::Client && server.role == ConnectionRole::Server,
        !client.key_phase && !server.key_phase,
        client.handshake_keys is None && client.application_keys is None,
        client.next_packet_type(true) == PacketType::Initial,
        server.next_packet_type(true) == PacketType::Initial,
{
}

/// A packet that was opened is noted in the space of its type.
pub proof fn opened_packets_are_noted<D>(
    c: ConnectionView<D>,
    n: ConnectionView<D>,
    first: u8,
    number: u64,
    frames: Seq<FrameView>,
    handshaking: bool,
    now: Instant,
)
    requires
        n.has_opened(c, first, number, frames, handshaking, now),
        c.recovery.packets_recv < u64::MAX,
    ensures
        n.recovery.packets_recv - c.recovery.packets_recv == 1,
        c.crypto.next_packet_type(handshaking) == PacketType::Handshake
            ==> n.recovery.ack_managers.handshake.received_packets@.contains(number),
        c.crypto.next_packet_type(handshaking) == PacketType::OneRtt
            ==> n.recovery.ack_managers.application.received_packets@.contains(number),
        c.crypto.next_packet_type(handshaking) == PacketType::Initial
            ==> n.recovery.ack_managers.initial.received_packets@.contains(number),
        n.pending == c.pending && n.flow_control == c.flow_control && n.crypto == c.crypto,
{
    let space = crate::recovery::space_of(c.crypto.next_packet_type(handshaking));
    let (m, b) = (n.recovery.ack_managers.at(space), c.recovery.ack_managers.at(space));
    assert(b.received_packets@.to_set().insert(number).contains(number));
    assert(m.received_packets@.to_set().contains(number));
}

} // verus!
