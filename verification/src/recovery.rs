//! Loss detection and recovery (RFC 9002).

use crate::ack_manager::AckManager;
use crate::buffer::contents;
use crate::congestion::{
    acked_sum, ascending, checked_acked, CongestionAlgorithm, CongestionController,
    CongestionView,
};
use crate::cubic::DecreasedWindow;
use crate::error::{Error, Reason};
use crate::frame_types::{EcnCounts, Frame, FrameView};
use crate::packet::{Packet, PacketType};
use crate::payload::views;
use crate::probes::{create_probe_frames, probe_elicits_ack, probe_frames};
use crate::retransmission::{
    any_elicits, is_ack_eliciting, is_ack_only, only_acks, prioritize_frames_for_retransmission,
    prioritized,
};
use crate::sent_packets::{
    acked_packets_leave, earliest_loss, in_range, lemma_rank_grows, out_of_range, packet_views,
    rank, resend_all, sizes, LossCriteria, PacketNumberSpaceData, SentPacket, SentView, SpaceView,
    MAX_LOST_FRAMES,
};
use crate::time::{countable, max_int, min_int, saturated, Duration, Instant, LONGEST};
use vstd::prelude::*;

verus! {

/// Timer granularity per RFC 9002, in nanoseconds (1ms)
pub const K_GRANULARITY: u64 = 1_000_000;

/// Initial RTT per RFC 9002, in nanoseconds (333ms)
pub const K_INITIAL_RTT: u64 = 333_000_000;

/// Packet threshold for loss detection per RFC 9002 (3 packets)
pub const K_PACKET_THRESHOLD: u64 = 3;

/// Time reordering threshold per RFC 9002 (9/8)
pub const K_TIME_THRESHOLD_NUMERATOR: u32 = 9;

/// Denominator of the time reordering threshold
pub const K_TIME_THRESHOLD_DENOMINATOR: u64 = 8;

/// Maximum number of ACK ranges in one frame
pub const MAX_ACK_RANGES: usize = 64;

/// Packet number space as defined in RFC 9002 Section 6
#[derive(Debug, Clone, Copy, PartialEq, Eq, Hash, Structural)]
pub enum PacketNumberSpace {
    /// Initial packet number space
    Initial,
    /// Handshake packet number space
    Handshake,
    /// Application data packet number space
    ApplicationData,
}

/// The packet number space of a packet type. A Retry packet has no number.
pub open spec fn space_of(packet_type: PacketType) -> PacketNumberSpace {
    match packet_type {
        PacketType::Initial => PacketNumberSpace::Initial,
        PacketType::Handshake => PacketNumberSpace::Handshake,
        PacketType::ZeroRtt | PacketType::OneRtt => PacketNumberSpace::ApplicationData,
        PacketType::Retry => PacketNumberSpace::Initial,
    }
}

impl vstd::std_specs::convert::FromSpecImpl<PacketType> for PacketNumberSpace {
    open spec fn obeys_from_spec() -> bool {
        true
    }

    open spec fn from_spec(packet_type: PacketType) -> PacketNumberSpace {
        space_of(packet_type)
    }
}

impl From<PacketType> for PacketNumberSpace {
    fn from(packet_type: PacketType) -> (r: PacketNumberSpace) {
        match packet_type {
            PacketType::Initial => PacketNumberSpace::Initial,
            PacketType::Handshake => PacketNumberSpace::Handshake,
            PacketType::ZeroRtt | PacketType::OneRtt => PacketNumberSpace::ApplicationData,
            PacketType::Retry => PacketNumberSpace::Initial,
        }
    }
}

/// One value for each packet number space.
#[derive(Debug)]
pub struct BySpace<T> {
    /// Initial packet number space
    pub initial: T,
    /// Handshake packet number space
    pub handshake: T,
    /// Application data packet number space
    pub application: T,
}

impl<T> BySpace<T> {
    /// The value for a space.
    pub open spec fn at(self, space: PacketNumberSpace) -> T {
        match space {
            PacketNumberSpace::Initial => self.initial,
            PacketNumberSpace::Handshake => self.handshake,
            PacketNumberSpace::ApplicationData => self.application,
        }
    }

    /// The values with another one for a space.
    pub open spec fn with(self, space: PacketNumberSpace, value: T) -> BySpace<T> {
        match space {
            PacketNumberSpace::Initial => BySpace { initial: value, ..self },
            PacketNumberSpace::Handshake => BySpace { handshake: value, ..self },
            PacketNumberSpace::ApplicationData => BySpace { application: value, ..self },
        }
    }

    /// The value for a space
    pub fn get(&self, space: PacketNumberSpace) -> (r: &T)
        ensures
            *r == self.at(space),
    {
        match space {
            PacketNumberSpace::Initial => &self.initial,
            PacketNumberSpace::Handshake => &self.handshake,
            PacketNumberSpace::ApplicationData => &self.application,
        }
    }

    /// The value for a space, to change it
    pub fn get_mut(&mut self, space: PacketNumberSpace) -> (r: &mut T)
        ensures
            *r == old(self).at(space),
            *final(self) == old(self).with(space, *final(r)),
    {
        match space {
            PacketNumberSpace::Initial => &mut self.initial,
            PacketNumberSpace::Handshake => &mut self.handshake,
            PacketNumberSpace::ApplicationData => &mut self.application,
        }
    }
}

/// RTT estimation following RFC 9002 Section 5
#[derive(Debug, Clone, Copy, PartialEq, Eq, Structural)]
pub struct RttEstimator {
    /// Smoothed RTT
    pub smoothed_rtt: Duration,
    /// RTT variation
    pub rtt_var: Duration,
    /// Minimum RTT observed
    pub min_rtt: Duration,
    /// Latest RTT sample
    pub latest_rtt: Option<Duration>,
    /// First RTT sample flag
    pub first_rtt_sample: bool,
    /// ACK delay exponent from transport parameters
    pub ack_delay_exponent: u8,
    /// Maximum ACK delay from transport parameters
    pub max_ack_delay: Duration,
}

impl RttEstimator {
    /// An estimator without samples.
    pub open spec fn fresh() -> RttEstimator {
        RttEstimator {
            smoothed_rtt: Duration { nanos: K_INITIAL_RTT as u128 },
            rtt_var: Duration { nanos: 166_500_000 },
            min_rtt: Duration { nanos: LONGEST },
            latest_rtt: None,
            first_rtt_sample: true,
            ack_delay_exponent: 3,
            max_ack_delay: Duration { nanos: 25_000_000 },
        }
    }

    /// An estimator without samples
    pub fn new() -> (r: RttEstimator)
        ensures
            r == Self::fresh(),
    {
        RttEstimator {
            smoothed_rtt: Duration::from_nanos(K_INITIAL_RTT),
            rtt_var: Duration::from_nanos(K_INITIAL_RTT / 2),
            min_rtt: Duration::longest(),
            latest_rtt: None,
            first_rtt_sample: true,
            ack_delay_exponent: 3,
            max_ack_delay: Duration::from_millis(25),
        }
    }

    /// The sample without the delay that the peer reports, as far as the minimum allows.
    pub open spec fn adjusted(self, latest_rtt: Duration, ack_delay: Duration) -> int {
        let min_rtt = min_int(self.min_rtt.nanos as int, latest_rtt.nanos as int);
        if latest_rtt.nanos >= saturated(min_rtt + ack_delay.nanos) {
            max_int(latest_rtt.nanos - ack_delay.nanos, 0)
        } else {
            latest_rtt.nanos as int
        }
    }

    /// The estimator with a sample: the smoothed RTT is 7/8 of the old one and 1/8 of the
    /// sample, the variation 3/4 of the old one and 1/4 of the deviation.
    pub open spec fn updated(self, latest_rtt: Duration, ack_delay: Duration) -> RttEstimator {
        let base = RttEstimator {
            latest_rtt: Some(latest_rtt),
            min_rtt: Duration {
                nanos: min_int(self.min_rtt.nanos as int, latest_rtt.nanos as int) as u128,
            },
            first_rtt_sample: false,
            ..self
        };
        if self.first_rtt_sample {
            RttEstimator {
                smoothed_rtt: latest_rtt,
                rtt_var: Duration { nanos: latest_rtt.nanos / 2 },
                ..base
            }
        } else {
            let adjusted = self.adjusted(latest_rtt, ack_delay);
            let smoothed = saturated(saturated(self.smoothed_rtt.nanos * 7) + adjusted) / 8;
            let deviation = if smoothed > adjusted {
                smoothed - adjusted
            } else {
                adjusted - smoothed
            };
            RttEstimator {
                smoothed_rtt: Duration { nanos: smoothed as u128 },
                rtt_var: Duration {
                    nanos: (saturated(saturated(self.rtt_var.nanos * 3) + deviation) / 4) as u128,
                },
                ..base
            }
        }
    }

    /// Update RTT estimates per RFC 9002 Section 5
    pub fn update_rtt(&mut self, latest_rtt: Duration, ack_delay: Duration)
        ensures
            *final(self) == old(self).updated(latest_rtt, ack_delay),
    {
        self.latest_rtt = Some(latest_rtt);
        self.min_rtt = self.min_rtt.shorter(latest_rtt);
        if self.first_rtt_sample {
            self.smoothed_rtt = latest_rtt;
            self.rtt_var = Duration { nanos: latest_rtt.nanos / 2 };
            self.first_rtt_sample = false;
            return;
        }
        let adjusted_rtt: Duration = if latest_rtt.nanos >= self.min_rtt.saturating_add(
            ack_delay,
        ).nanos {
            latest_rtt.saturating_sub(ack_delay)
        } else {
            latest_rtt
        };
        let weighted: Duration = self.smoothed_rtt.saturating_mul(7).saturating_add(adjusted_rtt);
        self.smoothed_rtt = Duration { nanos: weighted.nanos / 8 };
        let rtt_var_sample: Duration = if self.smoothed_rtt.nanos > adjusted_rtt.nanos {
            self.smoothed_rtt.saturating_sub(adjusted_rtt)
        } else {
            adjusted_rtt.saturating_sub(self.smoothed_rtt)
        };
        let var: Duration = self.rtt_var.saturating_mul(3).saturating_add(rtt_var_sample);
        self.rtt_var = Duration { nanos: var.nanos / 4 };
    }

    /// Get the current RTT estimate
    pub fn rtt(&self) -> (r: Duration)
        ensures
            r == self.smoothed_rtt,
    {
        self.smoothed_rtt
    }

    /// The probe timeout without the delay of acknowledgments: the smoothed RTT and four times
    /// its variation, at least the granularity.
    pub open spec fn base_timeout(self) -> int {
        saturated(
            self.smoothed_rtt.nanos + max_int(
                saturated(self.rtt_var.nanos * 4),
                K_GRANULARITY as int,
            ),
        )
    }

    /// The probe timeout of a space. Acknowledgments are delayed in the application data space
    /// alone.
    pub open spec fn timeout_for(self, space: PacketNumberSpace) -> int {
        match space {
            PacketNumberSpace::Initial | PacketNumberSpace::Handshake => self.base_timeout(),
            PacketNumberSpace::ApplicationData => saturated(
                self.base_timeout() + self.max_ack_delay.nanos,
            ),
        }
    }

    /// Calculate probe timeout per RFC 9002 Section 6.2
    pub fn probe_timeout(&self) -> (r: Duration)
        ensures
            r.nanos == self.timeout_for(PacketNumberSpace::ApplicationData),
    {
        let granularity: Duration = Duration::from_nanos(K_GRANULARITY);
        self.smoothed_rtt.saturating_add(
            self.rtt_var.saturating_mul(4).longer(granularity),
        ).saturating_add(self.max_ack_delay)
    }

    /// Probe timeout for specific packet number space per RFC 9002 Section 6.2.1
    pub fn probe_timeout_for_space(&self, space: PacketNumberSpace) -> (r: Duration)
        ensures
            r.nanos == self.timeout_for(space),
    {
        let granularity: Duration = Duration::from_nanos(K_GRANULARITY);
        let base_pto: Duration = self.smoothed_rtt.saturating_add(
            self.rtt_var.saturating_mul(4).longer(granularity),
        );
        match space {
            PacketNumberSpace::Initial | PacketNumberSpace::Handshake => base_pto,
            PacketNumberSpace::ApplicationData => base_pto.saturating_add(self.max_ack_delay),
        }
    }

    /// The delay that an ACK frame reports, in nanoseconds: none outside of application data,
    /// and at most the maximum delay.
    pub open spec fn decoded_delay(self, space: PacketNumberSpace, ack_delay: Duration) -> int {
        if space == PacketNumberSpace::ApplicationData {
            min_int(
                min_int(
                    (ack_delay.nanos / 1_000) * (1u64 << self.ack_delay_exponent),
                    u128::MAX as int,
                ) % 0x1_0000_0000_0000_0000 * 1_000,
                self.max_ack_delay.nanos as int,
            )
        } else {
            0
        }
    }

    /// Decode the delay that an ACK frame reports (RFC 9002 Section 5.3)
    pub fn decode_ack_delay(&self, space: PacketNumberSpace, ack_delay: Duration) -> (r: Result<
        Duration,
        Error,
    >)
        ensures
            space == PacketNumberSpace::ApplicationData && self.ack_delay_exponent > 20 ==> r
                == Err::<Duration, Error>(
                    Error::ProtocolViolation(Reason::Text("ACK delay exponent too large")),
                ),
            !(space == PacketNumberSpace::ApplicationData && self.ack_delay_exponent > 20) ==> r
                is Ok && r->Ok_0.nanos == self.decoded_delay(space, ack_delay),
    {
        if !matches!(space, PacketNumberSpace::ApplicationData) {
            return Ok(Duration::from_nanos(0));
        }
        let exponent: u8 = self.ack_delay_exponent;
        if exponent > 20 {
            return Err(Error::ProtocolViolation(Reason::Text("ACK delay exponent too large")));
        }
        let multiplier: u64 = 1u64 << exponent;
        let scaled: u128 = match ack_delay.as_micros().checked_mul(multiplier as u128) {
            Some(n) => n,
            None => u128::MAX,
        };
        let low: u64 = (scaled % 0x1_0000_0000_0000_0000) as u64;
        Ok(Duration::from_micros(low).shorter(self.max_ack_delay))
    }
}

/// Recovery statistics
#[derive(Debug, Clone, Copy, PartialEq, Eq, Structural)]
pub struct RecoveryStats {
    /// Total packets sent
    pub packets_sent: u64,
    /// Total packets received
    pub packets_recv: u64,
    /// Smoothed round-trip time
    pub rtt: Duration,
    /// RTT variance
    pub rtt_var: Duration,
    /// Minimum RTT
    pub min_rtt: Duration,
    /// Latest RTT sample
    pub latest_rtt: Option<Duration>,
    /// PTO backoff count
    pub pto_count: u32,
    /// Total bytes in flight
    pub bytes_in_flight: usize,
    /// Number of ack-eliciting packets in flight
    pub ack_eliciting_in_flight: u32,
}

/// The estimates stay between the old ones and the sample: the smoothed RTT never leaves the
/// range of both, and no sample is below the minimum.
pub proof fn rtt_estimates_bounded(e: RttEstimator, latest: Duration, delay: Duration)
    requires
        !e.first_rtt_sample,
        e.smoothed_rtt.nanos * 8 <= LONGEST,
        latest.nanos * 8 <= LONGEST,
    ensures
        ({
            let u = e.updated(latest, delay);
            &&& u.min_rtt.nanos <= latest.nanos
            &&& u.min_rtt.nanos <= e.min_rtt.nanos
            &&& u.smoothed_rtt.nanos <= max_int(e.smoothed_rtt.nanos as int, latest.nanos as int)
            &&& e.smoothed_rtt.nanos <= e.adjusted(latest, delay) ==> e.smoothed_rtt.nanos
                <= u.smoothed_rtt.nanos
            &&& e.adjusted(latest, delay) <= latest.nanos
        }),
{
}

/// Loss recovery manager implementing RFC 9002 algorithms
#[derive(Debug)]
pub struct RecoveryManager {
    /// Per packet number space data
    pub spaces: BySpace<PacketNumberSpaceData>,
    /// ACK managers for each packet number space
    pub ack_managers: BySpace<AckManager>,
    /// Round-trip time estimator
    pub rtt_estimator: RttEstimator,
    /// Loss detection timer
    pub loss_detection_timer: Option<Instant>,
    /// Probe timeout backoff
    pub pto_count: u32,
    /// Total packets sent
    pub packets_sent_count: u64,
    /// Total packets received
    pub packets_recv_count: u64,
    /// Time threshold for loss detection, in eighths (RFC 9002 Section 6.1.2)
    pub time_reordering_fraction: u32,
    /// Packet threshold for loss detection (RFC 9002 Section 6.1.1)
    pub packet_reordering_threshold: u64,
    /// Whether we're using time-based loss detection
    pub using_time_loss_detection: bool,
    /// RFC 9002 Section 6.2.2: Handshake completion detection
    pub handshake_confirmed: bool,
    /// When handshake was confirmed
    pub handshake_completion_time: Option<Instant>,
    /// RFC 9002 Section 8.1: Anti-amplification protection
    pub bytes_sent: u64,
    /// Bytes received from peer (for anti-amplification)
    pub bytes_received: u64,
    /// Whether peer address is validated
    pub address_validated: bool,
    /// Congestion controller
    pub congestion_controller: CongestionController,
}

/// What a recovery manager holds.
pub struct RecoveryView {
    pub spaces: BySpace<SpaceView>,
    pub ack_managers: BySpace<AckManager>,
    pub rtt: RttEstimator,
    pub timer: Option<Instant>,
    pub pto_count: u32,
    pub packets_sent: u64,
    pub packets_recv: u64,
    pub time_reordering_fraction: u32,
    pub packet_reordering_threshold: u64,
    pub using_time_loss_detection: bool,
    pub handshake_confirmed: bool,
    pub handshake_completion_time: Option<Instant>,
    pub bytes_sent: u64,
    pub bytes_received: u64,
    pub address_validated: bool,
    pub congestion: CongestionView,
}

impl View for RecoveryManager {
    type V = RecoveryView;

    closed spec fn view(&self) -> RecoveryView {
        RecoveryView {
            spaces: BySpace {
                initial: self.spaces.initial@,
                handshake: self.spaces.handshake@,
                application: self.spaces.application@,
            },
            ack_managers: self.ack_managers,
            rtt: self.rtt_estimator,
            timer: self.loss_detection_timer,
            pto_count: self.pto_count,
            packets_sent: self.packets_sent_count,
            packets_recv: self.packets_recv_count,
            time_reordering_fraction: self.time_reordering_fraction,
            packet_reordering_threshold: self.packet_reordering_threshold,
            using_time_loss_detection: self.using_time_loss_detection,
            handshake_confirmed: self.handshake_confirmed,
            handshake_completion_time: self.handshake_completion_time,
            bytes_sent: self.bytes_sent,
            bytes_received: self.bytes_received,
            address_validated: self.address_validated,
            congestion: self.congestion_controller@,
        }
    }
}

/// The earlier of two times, where there are any.
pub open spec fn earlier(a: Option<int>, b: Option<int>) -> Option<int> {
    match (a, b) {
        (Some(x), Some(y)) => Some(min_int(x, y)),
        (Some(x), None) => Some(x),
        (None, y) => y,
    }
}

/// Why ranges of an ACK frame are refused, looking from the range at `i` on: a range that
/// does not go upward, or one that does not start below the range before it.
pub open spec fn range_error(ranges: Seq<(u64, u64)>, i: int) -> Option<Error>
    decreases ranges.len() - i,
{
    if i < 0 || i >= ranges.len() {
        None
    } else if ranges[i].0 > ranges[i].1 {
        Some(Error::ProtocolViolation(Reason::Text("Invalid ACK range: start > end")))
    } else if i > 0 && ranges[i].0 >= ranges[i - 1].0 {
        Some(Error::ProtocolViolation(Reason::Text("ACK ranges not in descending order")))
    } else {
        range_error(ranges, i + 1)
    }
}

/// How many ranges come before one that covers more than 1001 packets.
pub open spec fn small_ranges(ranges: Seq<(u64, u64)>, i: int) -> int
    decreases ranges.len() - i,
{
    if i < 0 || i >= ranges.len() {
        ranges.len() as int
    } else if ranges[i].1 - ranges[i].0 > 1000 {
        i
    } else {
        small_ranges(ranges, i + 1)
    }
}

/// A space after an acknowledgment of the first `n` ranges.
pub open spec fn acked_ranges(v: SpaceView, ranges: Seq<(u64, u64)>, n: int) -> SpaceView
    decreases n,
{
    if n <= 0 {
        v
    } else {
        acked_ranges(v, ranges, n - 1).acked(ranges[n - 1].0, ranges[n - 1].1)
    }
}

/// The packets that an acknowledgment of the first `n` ranges takes out of a space.
pub open spec fn newly_acked(v: SpaceView, ranges: Seq<(u64, u64)>, n: int) -> Seq<SentView>
    decreases n,
{
    if n <= 0 {
        Seq::empty()
    } else {
        newly_acked(v, ranges, n - 1) + in_range(
            acked_ranges(v, ranges, n - 1).sent,
            ranges[n - 1].0,
            ranges[n - 1].1,
        )
    }
}

/// The packet with the largest number among those that asked for an acknowledgment.
pub open spec fn newest_eliciting(s: Seq<SentView>) -> Option<SentView>
    decreases s.len(),
{
    if s.len() == 0 {
        None
    } else {
        let rest = newest_eliciting(s.drop_last());
        let p = s.last();
        if p.ack_eliciting && (rest matches Some(q) ==> p.packet_number >= q.packet_number) {
            Some(p)
        } else {
            rest
        }
    }
}

/// A congestion controller after losses of these sizes.
pub open spec fn after_losses(c: CongestionView, lost: Seq<usize>, now: Instant) -> CongestionView
    decreases lost.len(),
{
    if lost.len() == 0 {
        c
    } else {
        after_losses(c, lost.drop_last(), now).lost(lost.last() as u64, no_decrease(), now)
    }
}

/// Decreased windows of an algorithm that does not use them.
pub open spec fn no_decrease() -> DecreasedWindow {
    DecreasedWindow { fast_convergence: 0, normal: 0 }
}

impl RecoveryView {
    /// A manager to which nothing has happened.
    pub open spec fn is_fresh(self, now: Instant) -> bool {
        &&& self.spaces == (BySpace {
            initial: SpaceView::fresh(),
            handshake: SpaceView::fresh(),
            application: SpaceView::fresh(),
        })
        &&& self.ack_managers.initial.is_fresh(PacketNumberSpace::Initial)
        &&& self.ack_managers.handshake.is_fresh(PacketNumberSpace::Handshake)
        &&& self.ack_managers.application.is_fresh(PacketNumberSpace::ApplicationData)
        &&& self.rtt == RttEstimator::fresh()
        &&& self.timer is None
        &&& self.pto_count == 0
        &&& self.packets_sent == 0
        &&& self.packets_recv == 0
        &&& self.time_reordering_fraction == 9
        &&& self.packet_reordering_threshold == 3
        &&& self.using_time_loss_detection
        &&& !self.handshake_confirmed
        &&& self.handshake_completion_time is None
        &&& self.bytes_sent == 0
        &&& self.bytes_received == 0
        &&& !self.address_validated
        &&& self.congestion == CongestionView::fresh(CongestionAlgorithm::NewReno, now)
    }

    /// What holds of every manager.
    pub open spec fn wf(self) -> bool {
        &&& self.spaces.initial.wf()
        &&& self.spaces.handshake.wf()
        &&& self.spaces.application.wf()
        &&& self.ack_managers.initial.wf()
        &&& self.ack_managers.handshake.wf()
        &&& self.ack_managers.application.wf()
        &&& self.congestion.algorithm == CongestionAlgorithm::NewReno
        &&& self.congestion.max_datagram_size == 1200
        &&& self.pto_count < 32
    }

    /// The time after which an unacknowledged packet is lost: 9/8 of the smoothed RTT, at least
    /// the granularity.
    pub open spec fn loss_delay(self) -> int {
        max_int(
            saturated(self.rtt.smoothed_rtt.nanos * self.time_reordering_fraction) / 8,
            K_GRANULARITY as int,
        )
    }

    /// When packets of a space are lost, where one was acknowledged.
    pub open spec fn criteria(self, space: PacketNumberSpace, now: Instant) -> LossCriteria {
        LossCriteria {
            largest_acked: self.spaces.at(space).largest_acked->Some_0,
            loss_delay: Duration {
                nanos: if self.using_time_loss_detection {
                    self.loss_delay() as u128
                } else {
                    LONGEST
                },
            },
            packet_threshold: self.packet_reordering_threshold,
            now,
        }
    }

    /// The earliest loss in one space.
    pub open spec fn earliest_in(self, space: PacketNumberSpace) -> Option<int> {
        let v = self.spaces.at(space);
        match v.largest_acked {
            Some(n) => earliest_loss(v.sent, n, self.loss_delay()),
            None => None,
        }
    }

    /// The earliest loss in all spaces.
    pub open spec fn earliest(self) -> Option<int> {
        earlier(
            earlier(
                self.earliest_in(PacketNumberSpace::Initial),
                self.earliest_in(PacketNumberSpace::Handshake),
            ),
            self.earliest_in(PacketNumberSpace::ApplicationData),
        )
    }

    /// The oldest packet of a space, where ack-eliciting packets are in flight.
    pub open spec fn oldest_in(self, space: PacketNumberSpace) -> Option<int> {
        let v = self.spaces.at(space);
        if v.ack_eliciting_in_flight > 0 && v.sent.len() > 0 {
            Some(v.sent[0].sent_time.nanos as int)
        } else {
            None
        }
    }

    /// From which packet on, and for which space, the probe timeout runs: the one that was sent
    /// first, of the earlier space where two were sent at once.
    pub open spec fn probe_start(self) -> Option<(int, PacketNumberSpace)> {
        let i = self.oldest_in(PacketNumberSpace::Initial);
        let h = self.oldest_in(PacketNumberSpace::Handshake);
        let a = self.oldest_in(PacketNumberSpace::ApplicationData);
        let first = match (i, h) {
            (Some(x), Some(y)) => if y < x {
                Some((y, PacketNumberSpace::Handshake))
            } else {
                Some((x, PacketNumberSpace::Initial))
            },
            (Some(x), None) => Some((x, PacketNumberSpace::Initial)),
            (None, Some(y)) => Some((y, PacketNumberSpace::Handshake)),
            (None, None) => None,
        };
        match (first, a) {
            (Some(f), Some(z)) => if z < f.0 {
                Some((z, PacketNumberSpace::ApplicationData))
            } else {
                Some(f)
            },
            (Some(f), None) => Some(f),
            (None, Some(z)) => Some((z, PacketNumberSpace::ApplicationData)),
            (None, None) => None,
        }
    }

    /// When the probe timeout expires. It doubles with each expiry.
    pub open spec fn probe_deadline(self) -> Option<int> {
        match self.probe_start() {
            Some((t, space)) => Some(
                countable(t + saturated(self.rtt.timeout_for(space) * (1u32 << self.pto_count))),
            ),
            None => None,
        }
    }

    /// When the loss detection timer is due: at the earliest loss, else when the probe timeout
    /// expires.
    pub open spec fn due(self) -> Option<int> {
        match self.earliest() {
            Some(t) => Some(t),
            None => self.probe_deadline(),
        }
    }

    /// The manager with its timer set.
    pub open spec fn timed(self) -> RecoveryView {
        RecoveryView {
            timer: match self.due() {
                Some(t) => Some(Instant { nanos: t as u128 }),
                None => None,
            },
            ..self
        }
    }

    /// The manager with another state of a space.
    pub open spec fn with_space(self, space: PacketNumberSpace, v: SpaceView) -> RecoveryView {
        RecoveryView { spaces: self.spaces.with(space, v), ..self }
    }

    /// The manager after a packet was sent.
    pub open spec fn after_sending(self, p: SentView) -> RecoveryView {
        (RecoveryView {
            packets_sent: (self.packets_sent + 1) as u64,
            ..self.with_space(p.pn_space, self.spaces.at(p.pn_space).after_sending(p))
        }).timed()
    }

    /// The frames to send again, or the error, when losses are looked for in a space.
    pub open spec fn lost_frames(self, space: PacketNumberSpace, now: Instant) -> Result<
        Seq<FrameView>,
        Error,
    > {
        if self.spaces.at(space).largest_acked is None {
            Ok(Seq::empty())
        } else {
            let frames = resend_all(self.criteria(space, now).lost_of(self.spaces.at(space).sent));
            if frames.len() <= MAX_LOST_FRAMES {
                Ok(frames)
            } else {
                Err(Error::Internal(Reason::Text("Too many lost frames")))
            }
        }
    }

    /// The manager after losses were looked for in a space.
    pub open spec fn after_detection(self, space: PacketNumberSpace, now: Instant) -> RecoveryView {
        if self.spaces.at(space).largest_acked is None || self.lost_frames(space, now) is Err {
            self
        } else {
            let c = self.criteria(space, now);
            let v = self.spaces.at(space);
            RecoveryView {
                congestion: after_losses(self.congestion, sizes(c.lost_of(v.sent)), now),
                ..self.with_space(space, v.after_loss(c))
            }
        }
    }

    /// Why an ACK frame is refused before any packet leaves.
    pub open spec fn ack_error(
        self,
        space: PacketNumberSpace,
        largest_acked: u64,
        ranges: Seq<(u64, u64)>,
    ) -> Option<Error> {
        if ranges.len() > MAX_ACK_RANGES {
            Some(Error::ProtocolViolation(Reason::Text("Too many ACK ranges")))
        } else if range_error(ranges, 0) is Some {
            range_error(ranges, 0)
        } else if self.spaces.at(space).largest_acked matches Some(n) && largest_acked < n {
            Some(Error::ProtocolViolation(Reason::Text("Largest acknowledged decreased")))
        } else {
            None
        }
    }

    /// The space after the first `n` ranges of an ACK frame were taken in.
    pub open spec fn acked_space(
        self,
        space: PacketNumberSpace,
        largest_acked: u64,
        ranges: Seq<(u64, u64)>,
        n: int,
    ) -> SpaceView {
        acked_ranges(
            SpaceView { largest_acked: Some(largest_acked), ..self.spaces.at(space) },
            ranges,
            n,
        )
    }

    /// Whether an ACK frame gets as far as being counted: it is not refused, and acknowledges
    /// packets that are kept.
    pub open spec fn counts_ack(
        self,
        space: PacketNumberSpace,
        largest_acked: u64,
        ranges: Seq<(u64, u64)>,
    ) -> bool {
        let newly = newly_acked(
            SpaceView { largest_acked: Some(largest_acked), ..self.spaces.at(space) },
            ranges,
            ranges.len() as int,
        );
        &&& self.ack_error(space, largest_acked, ranges) is None
        &&& small_ranges(ranges, 0) == ranges.len()
        &&& newly.len() > 0
        &&& !(newest_eliciting(newly) is Some && space == PacketNumberSpace::ApplicationData
            && self.rtt.ack_delay_exponent > 20)
    }

    /// Whether the controller can count an ACK frame that gets so far.
    #[verifier::opaque]
    pub open spec fn has_room_for_ack(
        self,
        space: PacketNumberSpace,
        largest_acked: u64,
        ranges: Seq<(u64, u64)>,
    ) -> bool {
        self.counts_ack(space, largest_acked, ranges) ==> {
            &&& self.congestion.newreno.has_room_for(acked_sum(ranges, 1200), 1200)
            &&& self.congestion.rtt.sample_count < u64::MAX
        }
    }

    /// Whether the timer is due, and probe packets are.
    pub open spec fn probe_due(self, now: Instant) -> bool {
        &&& self.timer matches Some(t) && now.nanos >= t.nanos
        &&& self.earliest() is None
    }

    /// The manager with the RTT sample, and the acknowledgment counted, of newly acknowledged
    /// packets.
    pub open spec fn ack_counted(
        self,
        space: PacketNumberSpace,
        newly: Seq<SentView>,
        ranges: Seq<(u64, u64)>,
        ack_delay: Duration,
        now: Instant,
    ) -> RecoveryView {
        RecoveryView {
            rtt: match newest_eliciting(newly) {
                Some(p) => self.rtt.updated(
                    Duration { nanos: max_int(now.nanos - p.sent_time.nanos, 0) as u128 },
                    Duration { nanos: self.rtt.decoded_delay(space, ack_delay) as u128 },
                ),
                None => self.rtt,
            },
            pto_count: 0,
            congestion: self.congestion.acked(
                acked_sum(ranges, 1200),
                Duration { nanos: 100_000_000 },
                now,
            ),
            ..self
        }
    }

    /// The manager after an ACK frame, and the frames to send again or why the frame is refused.
    /// A frame that is refused for a range that is too large, for the delay it reports or for
    /// the number of lost frames has taken its packets out by then.
    #[verifier::opaque]
    pub open spec fn ack_outcome(
        self,
        space: PacketNumberSpace,
        largest_acked: u64,
        ranges: Seq<(u64, u64)>,
        ack_delay: Duration,
        now: Instant,
    ) -> (RecoveryView, Result<Seq<FrameView>, Error>) {
        match self.ack_error(space, largest_acked, ranges) {
            Some(e) => (self, Err(e)),
            None => {
                let n = small_ranges(ranges, 0);
                let a = self.with_space(space, self.acked_space(space, largest_acked, ranges, n));
                let newly = newly_acked(
                    SpaceView { largest_acked: Some(largest_acked), ..self.spaces.at(space) },
                    ranges,
                    n,
                );
                if n < ranges.len() {
                    (a, Err(Error::ProtocolViolation(Reason::Text("ACK range too large"))))
                } else if newly.len() == 0 {
                    (a.timed(), Ok(Seq::empty()))
                } else if newest_eliciting(newly) is Some && space
                    == PacketNumberSpace::ApplicationData && self.rtt.ack_delay_exponent > 20 {
                    (a, Err(Error::ProtocolViolation(Reason::Text("ACK delay exponent too large"))))
                } else {
                    let c = a.ack_counted(space, newly, ranges, ack_delay, now);
                    match c.lost_frames(space, now) {
                        Err(e) => (c, Err(e)),
                        Ok(f) => (c.after_detection(space, now).timed(), Ok(f)),
                    }
                }
            },
        }
    }

    /// What taking a packet in makes of a manager.
    pub open spec fn has_received(
        self,
        before: RecoveryView,
        packet_number: u64,
        space: PacketNumberSpace,
        ack_eliciting: bool,
        received_time: Instant,
    ) -> bool {
        let v = before.spaces.at(space);
        let largest = match v.largest_acked {
            Some(n) => n,
            None => 0,
        };
        let m = self.ack_managers.at(space);
        &&& self == (RecoveryView {
            packets_recv: (before.packets_recv + 1) as u64,
            ack_managers: before.ack_managers.with(space, m),
            ..before.with_space(
                space,
                SpaceView {
                    largest_acked: if packet_number > largest {
                        Some(packet_number)
                    } else {
                        v.largest_acked
                    },
                    ..v
                },
            )
        })
        &&& m.has_received(
            before.ack_managers.at(space),
            packet_number,
            ack_eliciting,
            received_time,
        )
    }

    /// The bytes in flight in all spaces.
    pub open spec fn in_flight(self) -> int {
        self.spaces.initial.bytes_in_flight + self.spaces.handshake.bytes_in_flight
            + self.spaces.application.bytes_in_flight
    }

    /// The ack-eliciting packets in flight in all spaces.
    pub open spec fn eliciting_in_flight(self) -> int {
        self.spaces.initial.ack_eliciting_in_flight + self.spaces.handshake.ack_eliciting_in_flight
            + self.spaces.application.ack_eliciting_in_flight
    }
}

impl RecoveryView {
    /// Whether ack-eliciting packets of a space are in flight.
    pub open spec fn active(self, space: PacketNumberSpace) -> bool {
        self.spaces.at(space).ack_eliciting_in_flight > 0
    }

    /// A space in a list, where ack-eliciting packets of it are in flight.
    pub open spec fn if_active(self, space: PacketNumberSpace) -> Seq<PacketNumberSpace> {
        if self.active(space) {
            seq![space]
        } else {
            Seq::empty()
        }
    }

    /// The spaces to probe, most important first: application data once the handshake is
    /// confirmed, the handshake before that.
    pub open spec fn to_probe(self) -> Seq<PacketNumberSpace> {
        if self.handshake_confirmed {
            self.if_active(PacketNumberSpace::ApplicationData) + self.if_active(
                PacketNumberSpace::Handshake,
            ) + self.if_active(PacketNumberSpace::Initial)
        } else {
            self.if_active(PacketNumberSpace::Handshake) + self.if_active(
                PacketNumberSpace::Initial,
            ) + self.if_active(PacketNumberSpace::ApplicationData)
        }
    }

    /// The probe packets: at most two.
    pub open spec fn probes(self) -> Seq<(PacketNumberSpace, Seq<FrameView>)> {
        let order = self.to_probe();
        Seq::new(
            min_int(order.len() as int, 2) as nat,
            |i: int| (order[i], probe_frames(self.spaces.at(order[i]).sent, order[i])),
        )
    }

    /// The frames of lost packets by priority, or none where there are too many.
    pub open spec fn urgent(self, space: PacketNumberSpace, now: Instant) -> Seq<FrameView> {
        match self.lost_frames(space, now) {
            Ok(f) => prioritized(f),
            Err(_) => Seq::empty(),
        }
    }

    /// The manager after losses were looked for in all spaces.
    pub open spec fn after_all_detections(self, now: Instant) -> RecoveryView {
        self.after_detection(PacketNumberSpace::Initial, now).after_detection(
            PacketNumberSpace::Handshake,
            now,
        ).after_detection(PacketNumberSpace::ApplicationData, now)
    }

    /// The frames of the losses in all spaces.
    pub open spec fn all_urgent(self, now: Instant) -> Seq<FrameView> {
        let i = self.after_detection(PacketNumberSpace::Initial, now);
        let h = i.after_detection(PacketNumberSpace::Handshake, now);
        self.urgent(PacketNumberSpace::Initial, now) + i.urgent(PacketNumberSpace::Handshake, now)
            + h.urgent(PacketNumberSpace::ApplicationData, now)
    }

    /// The frames to send when the timer is due.
    pub open spec fn timeout_frames(self, now: Instant) -> Seq<FrameView> {
        let all = if self.earliest() is Some {
            self.all_urgent(now)
        } else {
            joined(self.probes())
        };
        all.take(min_int(all.len() as int, MAX_LOST_FRAMES as int))
    }

    /// The manager after its timer was due.
    pub open spec fn after_timeout(self, now: Instant) -> RecoveryView {
        if self.earliest() is Some {
            self.after_all_detections(now).timed()
        } else {
            (RecoveryView { pto_count: (self.pto_count + 1) as u32, ..self }).timed()
        }
    }
}

/// The frames of probe packets, one packet after another.
pub open spec fn joined(p: Seq<(PacketNumberSpace, Seq<FrameView>)>) -> Seq<FrameView>
    decreases p.len(),
{
    if p.len() == 0 {
        Seq::empty()
    } else {
        joined(p.drop_last()) + p.last().1
    }
}

/// What probe packets hold.
pub open spec fn probe_views(p: Seq<(PacketNumberSpace, Vec<Frame>)>) -> Seq<
    (PacketNumberSpace, Seq<FrameView>),
> {
    Seq::new(p.len(), |i: int| (p[i].0, views(p[i].1@)))
}

/// Losses change the windows of a controller and nothing else.
proof fn lemma_after_losses(c: CongestionView, lost: Seq<usize>, now: Instant)
    ensures
        after_losses(c, lost, now).algorithm == c.algorithm,
        after_losses(c, lost, now).max_datagram_size == c.max_datagram_size,
    decreases lost.len(),
{
    if lost.len() > 0 {
        lemma_after_losses(c, lost.drop_last(), now);
    }
}

/// Ranges that are not refused go upward.
pub(crate) proof fn lemma_no_range_error(ranges: Seq<(u64, u64)>, i: int)
    requires
        0 <= i <= ranges.len(),
        range_error(ranges, i) is None,
    ensures
        forall|j: int| i <= j < ranges.len() ==> (#[trigger] ranges[j]).0 <= ranges[j].1,
    decreases ranges.len() - i,
{
    if i < ranges.len() {
        lemma_no_range_error(ranges, i + 1);
    }
}

/// The ranges before a large one are small.
pub(crate) proof fn lemma_small_ranges(ranges: Seq<(u64, u64)>, i: int)
    requires
        0 <= i <= ranges.len(),
    ensures
        i <= small_ranges(ranges, i) <= ranges.len(),
        forall|j: int|
            i <= j < small_ranges(ranges, i) ==> (#[trigger] ranges[j]).1 - ranges[j].0 <= 1000,
    decreases ranges.len() - i,
{
    if i < ranges.len() && !(ranges[i].1 - ranges[i].0 > 1000) {
        lemma_small_ranges(ranges, i + 1);
    }
}

/// What accepted ranges stand for is bounded.
proof fn lemma_acked_bound(ranges: Seq<(u64, u64)>)
    requires
        forall|j: int|
            0 <= j < ranges.len() ==> (#[trigger] ranges[j]).0 <= ranges[j].1 && ranges[j].1
                - ranges[j].0 <= 1000,
    ensures
        ascending(ranges),
        0 <= acked_sum(ranges, 1200) <= ranges.len() * 1_201_200,
    decreases ranges.len(),
{
    if ranges.len() > 0 {
        let d = ranges.drop_last();
        assert forall|j: int| 0 <= j < d.len() implies (#[trigger] d[j]).0 <= d[j].1 && d[j].1
            - d[j].0 <= 1000 by {
            assert(d[j] == ranges[j]);
        }
        lemma_acked_bound(d);
        assert(ranges.last() == ranges[ranges.len() - 1]);
    }
}

/// The frames of probe packets, one packet after another
fn join_probes(probes: Vec<(PacketNumberSpace, Vec<Frame>)>) -> (r: Vec<Frame>)
    ensures
        views(r@) == joined(probe_views(probes@)),
{
    let ghost p = probe_views(probes@);
    let mut frames: Vec<Frame> = Vec::new();
    let mut rest: Vec<(PacketNumberSpace, Vec<Frame>)> = probes;
    let ghost mut k: int = 0;
    proof {
        assert(p.take(0) =~= Seq::<(PacketNumberSpace, Seq<FrameView>)>::empty());
        assert(probe_views(rest@) =~= p.skip(0));
        assert(views(frames@) =~= Seq::<FrameView>::empty());
    }
    while rest.len() > 0
        invariant
            0 <= k <= p.len(),
            probe_views(rest@) == p.skip(k),
            views(frames@) == joined(p.take(k)),
        decreases rest@.len(),
    {
        let ghost rest_before = rest@;
        let ghost frames_before = frames@;
        let (_space, mut packet) = rest.remove(0);
        let ghost added = packet@;
        frames.append(&mut packet);
        proof {
            assert(probe_views(rest_before).len() == rest_before.len());
            assert(p.skip(k).len() == p.len() - k);
            assert(probe_views(rest_before)[0].1 == views(added));
            assert(p[k].1 == views(added));
            assert(p.take(k + 1).drop_last() =~= p.take(k));
            assert(views(frames@) =~= views(frames_before) + views(added));
            assert forall|i: int| 0 <= i < rest@.len() implies probe_views(rest@)[i] == p.skip(
                k + 1,
            )[i] by {
                assert(rest@[i] == rest_before[i + 1]);
                assert(probe_views(rest_before)[i + 1] == p.skip(k)[i + 1]);
            }
            assert(probe_views(rest@) =~= p.skip(k + 1));
            k = k + 1;
        }
    }
    assert(probe_views(rest@).len() == 0);
    assert(p.take(k) =~= p);
    frames
}

impl RecoveryManager {
    /// Create a new recovery manager
    pub fn new(now: Instant) -> (r: RecoveryManager)
        ensures
            r@.is_fresh(now),
            r@.wf(),
    {
        RecoveryManager {
            spaces: BySpace {
                initial: PacketNumberSpaceData::new(),
                handshake: PacketNumberSpaceData::new(),
                application: PacketNumberSpaceData::new(),
            },
            ack_managers: BySpace {
                initial: AckManager::new(PacketNumberSpace::Initial),
                handshake: AckManager::new(PacketNumberSpace::Handshake),
                application: AckManager::new(PacketNumberSpace::ApplicationData),
            },
            rtt_estimator: RttEstimator::new(),
            loss_detection_timer: None,
            pto_count: 0,
            packets_sent_count: 0,
            packets_recv_count: 0,
            time_reordering_fraction: K_TIME_THRESHOLD_NUMERATOR,
            packet_reordering_threshold: K_PACKET_THRESHOLD,
            using_time_loss_detection: true,
            handshake_confirmed: false,
            handshake_completion_time: None,
            bytes_sent: 0,
            bytes_received: 0,
            address_validated: false,
            congestion_controller: CongestionController::new(now),
        }
    }

    /// The time after which an unacknowledged packet is lost
    fn loss_delay(&self) -> (r: Duration)
        ensures
            r.nanos == self@.loss_delay(),
    {
        let scaled: Duration = self.rtt_estimator.rtt().saturating_mul(
            self.time_reordering_fraction,
        );
        Duration { nanos: scaled.nanos / K_TIME_THRESHOLD_DENOMINATOR as u128 }.longer(
            Duration::from_nanos(K_GRANULARITY),
        )
    }

    /// Get earliest time at which a packet should be declared lost
    pub fn get_earliest_loss_time(&self) -> (r: Option<Instant>)
        ensures
            match self@.earliest() {
                Some(t) => r is Some && r->Some_0.nanos == t,
                None => r is None,
            },
    {
        let loss_delay: Duration = self.loss_delay();
        let i: Option<Instant> = self.spaces.initial.earliest_loss_time(loss_delay);
        let h: Option<Instant> = self.spaces.handshake.earliest_loss_time(loss_delay);
        let a: Option<Instant> = self.spaces.application.earliest_loss_time(loss_delay);
        Self::earlier_of(Self::earlier_of(i, h), a)
    }

    /// The earlier of two times, where there are any
    fn earlier_of(a: Option<Instant>, b: Option<Instant>) -> (r: Option<Instant>)
        ensures
            match (a, b) {
                (Some(x), Some(y)) => r is Some && r->Some_0.nanos == min_int(
                    x.nanos as int,
                    y.nanos as int,
                ),
                (Some(x), None) => r == Some(x),
                (None, _) => r == b,
            },
    {
        match (a, b) {
            (Some(x), Some(y)) => if x.nanos <= y.nanos {
                Some(x)
            } else {
                Some(y)
            },
            (Some(x), None) => Some(x),
            (None, _) => b,
        }
    }

    /// Set the loss detection timer per RFC 9002 Section 6.2
    pub fn set_loss_detection_timer(&mut self)
        requires
            old(self)@.wf(),
        ensures
            final(self)@ == old(self)@.timed(),
            final(self)@.wf(),
    {
        let earliest_loss_time: Option<Instant> = self.get_earliest_loss_time();
        if let Some(loss_time) = earliest_loss_time {
            self.loss_detection_timer = Some(loss_time);
            return;
        }
        self.set_pto_timer();
    }

    /// The oldest packet of a space, where ack-eliciting packets are in flight
    fn oldest_in(&self, space: PacketNumberSpace) -> (r: Option<Instant>)
        ensures
            match self@.oldest_in(space) {
                Some(t) => r is Some && r->Some_0.nanos == t,
                None => r is None,
            },
    {
        let data: &PacketNumberSpaceData = self.spaces.get(space);
        if data.ack_eliciting_in_flight > 0 && data.sent_packets.len() > 0 {
            assert(data@.sent[0] == data.sent_packets@[0]@);
            Some(data.sent_packets[0].sent_time)
        } else {
            None
        }
    }

    /// Set PTO timer per RFC 9002 Section 6.2.2
    fn set_pto_timer(&mut self)
        requires
            old(self)@.wf(),
        ensures
            final(self)@ == (RecoveryView {
                timer: match old(self)@.probe_deadline() {
                    Some(t) => Some(Instant { nanos: t as u128 }),
                    None => None,
                },
                ..old(self)@
            }),
    {
        let mut start: Option<(Instant, PacketNumberSpace)> = None;
        if let Some(t) = self.oldest_in(PacketNumberSpace::Initial) {
            start = Some((t, PacketNumberSpace::Initial));
        }
        if let Some(t) = self.oldest_in(PacketNumberSpace::Handshake) {
            match start {
                Some((earliest, _)) => {
                    if t.nanos < earliest.nanos {
                        start = Some((t, PacketNumberSpace::Handshake));
                    }
                },
                None => {
                    start = Some((t, PacketNumberSpace::Handshake));
                },
            }
        }
        if let Some(t) = self.oldest_in(PacketNumberSpace::ApplicationData) {
            match start {
                Some((earliest, _)) => {
                    if t.nanos < earliest.nanos {
                        start = Some((t, PacketNumberSpace::ApplicationData));
                    }
                },
                None => {
                    start = Some((t, PacketNumberSpace::ApplicationData));
                },
            }
        }
        match start {
            Some((sent_time, space)) => {
                let pto: Duration = self.rtt_estimator.probe_timeout_for_space(space);
                let backoff: u32 = 1u32 << self.pto_count;
                let timeout: Instant = sent_time.saturating_add(pto.saturating_mul(backoff));
                self.loss_detection_timer = Some(timeout);
            },
            None => {
                self.loss_detection_timer = None;
            },
        }
    }

    /// Record a packet being sent. Retry packets do not have packet numbers, and are not
    /// recorded
    pub fn on_packet_sent(&mut self, packet: &Packet, frames: Vec<Frame>, now: Instant)
        requires
            old(self)@.wf(),
            old(self)@.packets_sent < u64::MAX,
            old(self)@.spaces.at(space_of(packet.header@.packet_type())).has_room_for(
                contents(packet.payload).len() as usize,
            ),
        ensures
            final(self)@.wf(),
            match packet.header@.number() {
                None => final(self)@ == old(self)@,
                Some(n) => final(self)@ == old(self)@.after_sending(
                    SentView {
                        packet_number: n as u64,
                        sent_time: now,
                        size: contents(packet.payload).len() as usize,
                        ack_eliciting: any_elicits(views(frames@)),
                        ack_only: only_acks(views(frames@)),
                        frames: views(frames@),
                        pn_space: space_of(packet.header@.packet_type()),
                    },
                ),
            },
    {
        let packet_number: u64 = match packet.header.packet_number() {
            Some(pn) => pn as u64,
            None => {
                return;
            },
        };
        let size: usize = packet.payload.len();
        let pn_space: PacketNumberSpace = PacketNumberSpace::from(packet.packet_type());
        let ack_eliciting: bool = is_ack_eliciting(&frames);
        let ack_only: bool = is_ack_only(&frames);
        let sent_packet: SentPacket = SentPacket {
            packet_number,
            sent_time: now,
            size,
            ack_eliciting,
            ack_only,
            frames,
            pn_space,
        };
        self.spaces.get_mut(pn_space).on_packet_sent(sent_packet);
        self.packets_sent_count += 1;
        self.set_loss_detection_timer();
    }

    /// Whether a range covers more than 1001 packets
    fn has_large_range(ack_ranges: &[(u64, u64)]) -> (r: bool)
        requires
            forall|j: int|
                0 <= j < ack_ranges@.len() ==> (#[trigger] ack_ranges@[j]).0 <= ack_ranges@[j].1,
        ensures
            r == (small_ranges(ack_ranges@, 0) < ack_ranges@.len()),
    {
        let len: usize = ack_ranges.len();
        let mut i: usize = 0;
        while i < len
            invariant
                len == ack_ranges@.len(),
                i <= len,
                small_ranges(ack_ranges@, i as int) == small_ranges(ack_ranges@, 0),
                forall|j: int|
                    0 <= j < ack_ranges@.len() ==> (#[trigger] ack_ranges@[j]).0
                        <= ack_ranges@[j].1,
            decreases len - i,
        {
            let (start, end) = ack_ranges[i];
            assert(ack_ranges@[i as int].0 <= ack_ranges@[i as int].1);
            if end - start > 1000 {
                return true;
            }
            i += 1;
        }
        false
    }

    /// Whether ranges of an ACK frame name a packet that is kept, and one that asked for an
    /// acknowledgment
    fn named_packets(data: &PacketNumberSpaceData, ack_ranges: &[(u64, u64)]) -> (r: (bool, bool))
        ensures
            r.0 == names_some(data@.sent, ack_ranges@, false),
            r.1 == names_some(data@.sent, ack_ranges@, true),
    {
        let mut any: bool = false;
        let mut eliciting: bool = false;
        let mut i: usize = 0;
        let ghost s = data@.sent;
        while i < data.sent_packets.len()
            invariant
                s == data@.sent,
                i <= data.sent_packets@.len(),
                any == names_some(s.take(i as int), ack_ranges@, false),
                eliciting == names_some(s.take(i as int), ack_ranges@, true),
            decreases data.sent_packets@.len() - i,
        {
            let packet: &SentPacket = &data.sent_packets[i];
            let named: bool = Self::is_named(packet.packet_number, ack_ranges);
            proof {
                assert(s[i as int] == packet@);
                lemma_names_push(s, i as int, ack_ranges@, false);
                lemma_names_push(s, i as int, ack_ranges@, true);
            }
            any = any || named;
            eliciting = eliciting || (named && packet.ack_eliciting);
            i += 1;
        }
        assert(s.take(i as int) =~= s);
        (any, eliciting)
    }

    /// Whether ranges of an ACK frame name a packet number
    fn is_named(packet_number: u64, ack_ranges: &[(u64, u64)]) -> (r: bool)
        ensures
            r == named_by(ack_ranges@, packet_number),
    {
        let len: usize = ack_ranges.len();
        let mut i: usize = 0;
        while i < len
            invariant
                len == ack_ranges@.len(),
                i <= len,
                forall|j: int| 0 <= j < i ==> !(#[trigger] covers(ack_ranges@[j], packet_number)),
            decreases len - i,
        {
            let (start, end) = ack_ranges[i];
            if start <= packet_number && packet_number <= end {
                assert(covers(ack_ranges@[i as int], packet_number));
                return true;
            }
            i += 1;
        }
        false
    }

    /// Whether the controller can count an ACK frame, where it gets as far as that
    pub fn has_room_for_ack(
        &self,
        pn_space: PacketNumberSpace,
        largest_acked: u64,
        ack_ranges: &[(u64, u64)],
    ) -> (r: bool)
        requires
            self@.wf(),
        ensures
            r == self@.has_room_for_ack(pn_space, largest_acked, ack_ranges@),
    {
        proof {
            reveal(RecoveryView::has_room_for_ack);
        }
        if Self::check_ranges(ack_ranges).is_err() {
            return true;
        }
        let data: &PacketNumberSpaceData = self.spaces.get(pn_space);
        if let Some(prev_largest) = data.largest_acked {
            if largest_acked < prev_largest {
                return true;
            }
        }
        proof {
            lemma_no_range_error(ack_ranges@, 0);
            lemma_small_ranges(ack_ranges@, 0);
        }
        if Self::has_large_range(ack_ranges) {
            return true;
        }
        let (any, eliciting) = Self::named_packets(data, ack_ranges);
        proof {
            let u = SpaceView {
                largest_acked: Some(largest_acked),
                ..self@.spaces.at(pn_space)
            };
            assert(u.wf());
            lemma_newly_named(u, ack_ranges@);
            lemma_acked_bound(ack_ranges@);
        }
        if !any || (eliciting && matches!(pn_space, PacketNumberSpace::ApplicationData)
            && self.rtt_estimator.ack_delay_exponent > 20) {
            return true;
        }
        match checked_acked(ack_ranges, 1200) {
            Some(acked) => self.congestion_controller.has_room_for_bytes(acked),
            None => true,
        }
    }

    /// Checks the ranges of an ACK frame
    fn check_ranges(ack_ranges: &[(u64, u64)]) -> (r: Result<(), Error>)
        ensures
            r == (if ack_ranges@.len() > MAX_ACK_RANGES {
                Err::<(), Error>(Error::ProtocolViolation(Reason::Text("Too many ACK ranges")))
            } else {
                match range_error(ack_ranges@, 0) {
                    Some(e) => Err(e),
                    None => Ok(()),
                }
            }),
    {
        let len: usize = ack_ranges.len();
        if len > MAX_ACK_RANGES {
            return Err(Error::ProtocolViolation(Reason::Text("Too many ACK ranges")));
        }
        let mut i: usize = 0;
        while i < len
            invariant
                len == ack_ranges@.len(),
                len <= MAX_ACK_RANGES,
                i <= len,
                range_error(ack_ranges@, i as int) == range_error(ack_ranges@, 0),
            decreases len - i,
        {
            let (start, end) = ack_ranges[i];
            if start > end {
                return Err(
                    Error::ProtocolViolation(Reason::Text("Invalid ACK range: start > end")),
                );
            }
            if i > 0 && start >= ack_ranges[i - 1].0 {
                return Err(
                    Error::ProtocolViolation(Reason::Text("ACK ranges not in descending order")),
                );
            }
            i += 1;
        }
        Ok(())
    }

    /// The newest packet that asked for an acknowledgment: when it was sent
    fn newest_sent_time(acked: &Vec<SentPacket>) -> (r: Option<Instant>)
        ensures
            match newest_eliciting(packet_views(acked@)) {
                Some(p) => r == Some(p.sent_time),
                None => r is None,
            },
    {
        let ghost s = packet_views(acked@);
        let mut newest: Option<(u64, Instant)> = None;
        let mut i: usize = 0;
        assert(s.take(0) =~= Seq::<SentView>::empty());
        while i < acked.len()
            invariant
                s == packet_views(acked@),
                i <= s.len(),
                match newest_eliciting(s.take(i as int)) {
                    Some(p) => newest == Some((p.packet_number, p.sent_time)),
                    None => newest is None,
                },
            decreases s.len() - i,
        {
            let packet: &SentPacket = &acked[i];
            proof {
                assert(s[i as int] == packet@);
                assert(s.take(i + 1).drop_last() =~= s.take(i as int));
                assert(s.take(i + 1).last() == packet@);
            }
            if packet.ack_eliciting {
                let later: bool = match newest {
                    Some((n, _)) => packet.packet_number >= n,
                    None => true,
                };
                if later {
                    newest = Some((packet.packet_number, packet.sent_time));
                }
            }
            i += 1;
        }
        assert(s.take(i as int) =~= s);
        match newest {
            Some((_, t)) => Some(t),
            None => None,
        }
    }

    /// Takes the packets of the ranges out of a space
    fn take_acked(
        &mut self,
        pn_space: PacketNumberSpace,
        largest_acked: u64,
        ack_ranges: &[(u64, u64)],
    ) -> (r: Result<Vec<SentPacket>, Error>)
        requires
            old(self)@.wf(),
            range_error(ack_ranges@, 0) is None,
        ensures
            final(self)@.wf(),
            ({
                let v = old(self)@;
                let n = small_ranges(ack_ranges@, 0);
                &&& final(self)@ == v.with_space(
                    pn_space,
                    v.acked_space(pn_space, largest_acked, ack_ranges@, n),
                )
                &&& n < ack_ranges@.len() ==> r == Err::<Vec<SentPacket>, Error>(
                    Error::ProtocolViolation(Reason::Text("ACK range too large")),
                )
                &&& n == ack_ranges@.len() ==> r is Ok && packet_views(r->Ok_0@) == newly_acked(
                    SpaceView { largest_acked: Some(largest_acked), ..v.spaces.at(pn_space) },
                    ack_ranges@,
                    n,
                )
            }),
    {
        let ghost v = self@;
        let ghost ranges = ack_ranges@;
        let ghost base = SpaceView { largest_acked: Some(largest_acked), ..v.spaces.at(pn_space) };
        let space: &mut PacketNumberSpaceData = self.spaces.get_mut(pn_space);
        space.largest_acked = Some(largest_acked);
        let mut acked: Vec<SentPacket> = Vec::new();
        let mut too_large: bool = false;
        let mut i: usize = 0;
        let len: usize = ack_ranges.len();
        proof {
            lemma_no_range_error(ranges, 0);
            assert(packet_views(acked@) =~= newly_acked(base, ranges, 0));
            assert(space@ =~= base);
        }
        while i < len && !too_large
            invariant
                len == ranges.len(),
                ranges == ack_ranges@,
                i <= len,
                base.wf(),
                space@ == acked_ranges(base, ranges, i as int),
                space@.wf(),
                packet_views(acked@) == newly_acked(base, ranges, i as int),
                forall|j: int| 0 <= j < ranges.len() ==> (#[trigger] ranges[j]).0 <= ranges[j].1,
                small_ranges(ranges, 0) == small_ranges(ranges, i as int),
                too_large ==> small_ranges(ranges, 0) == i && i < len,
            decreases len - i + if too_large {
                0int
            } else {
                1
            },
        {
            let (start, end) = ack_ranges[i];
            assert(ranges[i as int].0 <= ranges[i as int].1);
            if end - start > 1000 {
                too_large = true;
            } else {
                space.on_range_acked(start, end, &mut acked);
                i += 1;
            }
        }
        if too_large {
            Err(Error::ProtocolViolation(Reason::Text("ACK range too large")))
        } else {
            Ok(acked)
        }
    }

    /// Process received acknowledgment per RFC 9002 Section 6, and return the frames of packets
    /// that it shows to be lost
    #[verifier::rlimit(40)]
    pub fn on_ack_received(
        &mut self,
        pn_space: PacketNumberSpace,
        largest_acked: u64,
        ack_ranges: &[(u64, u64)],
        ack_delay: Duration,
        now: Instant,
    ) -> (r: Result<Vec<Frame>, Error>)
        requires
            old(self)@.wf(),
            old(self)@.has_room_for_ack(pn_space, largest_acked, ack_ranges@),
        ensures
            final(self)@.wf(),
            ({
                let (after, outcome) = old(self)@.ack_outcome(
                    pn_space,
                    largest_acked,
                    ack_ranges@,
                    ack_delay,
                    now,
                );
                &&& final(self)@ == after
                &&& match outcome {
                    Ok(f) => r is Ok && views(r->Ok_0@) == f,
                    Err(e) => r == Err::<Vec<Frame>, Error>(e),
                }
            }),
    {
        proof {
            reveal(RecoveryView::ack_outcome);
            reveal(RecoveryView::has_room_for_ack);
        }
        Self::check_ranges(ack_ranges)?;
        if let Some(prev_largest) = self.spaces.get(pn_space).largest_acked {
            if largest_acked < prev_largest {
                return Err(
                    Error::ProtocolViolation(Reason::Text("Largest acknowledged decreased")),
                );
            }
        }
        proof {
            lemma_no_range_error(ack_ranges@, 0);
            lemma_small_ranges(ack_ranges@, 0);
        }
        let newly_acked_packets: Vec<SentPacket> = self.take_acked(
            pn_space,
            largest_acked,
            ack_ranges,
        )?;
        let mut lost_frames: Vec<Frame> = Vec::new();
        assert(views(lost_frames@) =~= Seq::<FrameView>::empty());
        assert(packet_views(newly_acked_packets@).len() == newly_acked_packets@.len());
        if newly_acked_packets.len() > 0 {
            if let Some(sent_time) = Self::newest_sent_time(&newly_acked_packets) {
                let latest_rtt: Duration = now.duration_since(sent_time);
                let ack_delay_decoded: Duration = self.rtt_estimator.decode_ack_delay(
                    pn_space,
                    ack_delay,
                )?;
                self.rtt_estimator.update_rtt(latest_rtt, ack_delay_decoded);
            }
            self.pto_count = 0;
            proof {
                lemma_acked_bound(ack_ranges@);
            }
            let _step = self.congestion_controller.on_ack_received(ack_ranges, now);
            lost_frames = self.detect_lost_packets(pn_space, now)?;
        }
        self.set_loss_detection_timer();
        Ok(lost_frames)
    }

    /// Detect lost packets using time and packet thresholds per RFC 9002 Section 6.1
    pub fn detect_lost_packets(&mut self, pn_space: PacketNumberSpace, now: Instant) -> (r: Result<
        Vec<Frame>,
        Error,
    >)
        requires
            old(self)@.wf(),
        ensures
            final(self)@.wf(),
            final(self)@ == old(self)@.after_detection(pn_space, now),
            match old(self)@.lost_frames(pn_space, now) {
                Ok(f) => r is Ok && views(r->Ok_0@) == f,
                Err(e) => r == Err::<Vec<Frame>, Error>(e),
            },
    {
        let ghost v = self@;
        let loss_delay: Duration = if self.using_time_loss_detection {
            self.loss_delay()
        } else {
            Duration::longest()
        };
        let largest_acked: u64 = match self.spaces.get(pn_space).largest_acked {
            Some(la) => la,
            None => {
                let none: Vec<Frame> = Vec::new();
                assert(views(none@) =~= Seq::<FrameView>::empty());
                return Ok(none);
            },
        };
        let criteria: LossCriteria = LossCriteria {
            largest_acked,
            loss_delay,
            packet_threshold: self.packet_reordering_threshold,
            now,
        };
        assert(criteria == v.criteria(pn_space, now));
        let lost_frames: Vec<Frame> = self.spaces.get(pn_space).frames_to_resend(&criteria)?;
        let lost_sizes: Vec<usize> = self.spaces.get_mut(pn_space).remove_lost(&criteria);
        let ghost mid = self@;
        let mut i: usize = 0;
        assert(lost_sizes@.take(0) =~= Seq::<usize>::empty());
        while i < lost_sizes.len()
            invariant
                i <= lost_sizes@.len(),
                self@ == (RecoveryView {
                    congestion: after_losses(mid.congestion, lost_sizes@.take(i as int), now),
                    ..mid
                }),
            decreases lost_sizes@.len() - i,
        {
            assert(lost_sizes@.take(i + 1).drop_last() =~= lost_sizes@.take(i as int));
            let _done = self.congestion_controller.on_packet_lost(
                lost_sizes[i] as u64,
                DecreasedWindow { fast_convergence: 0, normal: 0 },
                now,
            );
            i += 1;
        }
        proof {
            assert(lost_sizes@.take(i as int) =~= lost_sizes@);
            lemma_after_losses(mid.congestion, lost_sizes@, now);
        }
        Ok(lost_frames)
    }

    /// Whether a received packet can be counted
    pub fn can_receive(&self, packet_type: PacketType, ack_eliciting: bool) -> (r: bool)
        ensures
            r == (self@.packets_recv < u64::MAX && (ack_eliciting ==> self@.ack_managers.at(
                space_of(packet_type),
            ).ack_eliciting_count < u32::MAX)),
    {
        self.packets_recv_count < u64::MAX && (!ack_eliciting || self.ack_managers.get(
            PacketNumberSpace::from(packet_type),
        ).ack_eliciting_count < u32::MAX)
    }

    /// Process a received packet
    pub fn on_packet_received(
        &mut self,
        packet_number: u64,
        packet_type: PacketType,
        ack_eliciting: bool,
        received_time: Instant,
    )
        requires
            old(self)@.wf(),
            old(self)@.packets_recv < u64::MAX,
            ack_eliciting ==> old(self)@.ack_managers.at(space_of(packet_type)).ack_eliciting_count
                < u32::MAX,
        ensures
            final(self)@.wf(),
            final(self)@.has_received(
                old(self)@,
                packet_number,
                space_of(packet_type),
                ack_eliciting,
                received_time,
            ),
    {
        self.packets_recv_count += 1;
        let pn_space: PacketNumberSpace = PacketNumberSpace::from(packet_type);
        let space_data: &mut PacketNumberSpaceData = self.spaces.get_mut(pn_space);
        let before: u64 = match space_data.largest_acked {
            Some(n) => n,
            None => 0,
        };
        if packet_number > before {
            space_data.largest_acked = Some(packet_number);
        }
        self.ack_managers.get_mut(pn_space).on_packet_received(
            packet_number,
            ack_eliciting,
            received_time,
        );
    }

    /// Whether the probe timeout can be doubled, where probe packets are due
    pub fn can_check_loss_detection(&self, now: Instant) -> (r: bool)
        ensures
            r == (self@.probe_due(now) ==> self@.pto_count < 31),
    {
        match self.loss_detection_timer {
            Some(timer) => now.nanos < timer.nanos || self.pto_count < 31
                || self.get_earliest_loss_time().is_some(),
            None => true,
        }
    }

    /// Check for loss detection timeout and return frames to retransmit
    pub fn check_loss_detection(&mut self, now: Instant) -> (r: Option<Vec<Frame>>)
        requires
            old(self)@.wf(),
            old(self)@.probe_due(now) ==> old(self)@.pto_count < 31,
        ensures
            final(self)@.wf(),
            if old(self)@.timer matches Some(t) && now.nanos >= t.nanos {
                r is Some && views(r->Some_0@) == old(self)@.timeout_frames(now) && final(self)@
                    == old(self)@.after_timeout(now)
            } else {
                r is None && final(self)@ == old(self)@
            },
    {
        if let Some(timer) = self.loss_detection_timer {
            if now.nanos >= timer.nanos {
                return Some(self.on_loss_detection_timeout(now));
            }
        }
        None
    }

    /// Losses of a space, most important frames first
    fn detect_urgent(&mut self, pn_space: PacketNumberSpace, now: Instant, frames: &mut Vec<Frame>)
        requires
            old(self)@.wf(),
        ensures
            final(self)@.wf(),
            final(self)@ == old(self)@.after_detection(pn_space, now),
            views(final(frames)@) == views(old(frames)@) + old(self)@.urgent(pn_space, now),
    {
        let ghost before = frames@;
        match self.detect_lost_packets(pn_space, now) {
            Ok(lost) => {
                let mut urgent: Vec<Frame> = prioritize_frames_for_retransmission(lost);
                frames.append(&mut urgent);
                assert(views(frames@) =~= views(before) + old(self)@.urgent(pn_space, now));
            },
            Err(_) => {
                assert(views(frames@) =~= views(before) + Seq::<FrameView>::empty());
            },
        }
    }

    /// Handle loss detection timeout: packets that are lost by now, else probe packets
    pub fn on_loss_detection_timeout(&mut self, now: Instant) -> (r: Vec<Frame>)
        requires
            old(self)@.wf(),
            old(self)@.earliest() is None ==> old(self)@.pto_count < 31,
        ensures
            final(self)@.wf(),
            views(r@) == old(self)@.timeout_frames(now),
            final(self)@ == old(self)@.after_timeout(now),
    {
        let mut probe_frames: Vec<Frame> = Vec::new();
        assert(views(probe_frames@) =~= Seq::<FrameView>::empty());
        if self.get_earliest_loss_time().is_some() {
            self.detect_urgent(PacketNumberSpace::Initial, now, &mut probe_frames);
            self.detect_urgent(PacketNumberSpace::Handshake, now, &mut probe_frames);
            self.detect_urgent(PacketNumberSpace::ApplicationData, now, &mut probe_frames);
            assert(views(probe_frames@) =~= old(self)@.all_urgent(now));
        } else {
            self.pto_count += 1;
            assert(old(self)@.probes() =~= self@.probes());
            probe_frames = join_probes(self.generate_enhanced_probe_packets());
        }
        let ghost all = views(probe_frames@);
        if probe_frames.len() > MAX_LOST_FRAMES {
            probe_frames.truncate(MAX_LOST_FRAMES);
        }
        assert(views(probe_frames@) =~= all.take(
            min_int(all.len() as int, MAX_LOST_FRAMES as int),
        ));
        self.set_loss_detection_timer();
        probe_frames
    }

    /// Adds a probe packet for a space, where one is due and there are not two yet
    fn add_probe(
        &self,
        space: PacketNumberSpace,
        probe_packets: &mut Vec<(PacketNumberSpace, Vec<Frame>)>,
    )
        ensures
            probe_views(final(probe_packets)@) == (if self@.active(space) && old(
                probe_packets,
            )@.len() < 2 {
                probe_views(old(probe_packets)@).push(
                    (space, probe_frames(self@.spaces.at(space).sent, space)),
                )
            } else {
                probe_views(old(probe_packets)@)
            }),
    {
        let data: &PacketNumberSpaceData = self.spaces.get(space);
        if data.ack_eliciting_in_flight > 0 && probe_packets.len() < 2 {
            let ghost before = probe_packets@;
            let frames: Vec<Frame> = create_probe_frames(data, space);
            probe_packets.push((space, frames));
            assert(probe_views(probe_packets@) =~= probe_views(before).push(
                (space, probe_frames(self@.spaces.at(space).sent, space)),
            ));
        }
    }

    /// Probe packet generation per RFC 9002 Section 6.2.4: up to two probe packets
    pub fn generate_enhanced_probe_packets(&self) -> (r: Vec<(PacketNumberSpace, Vec<Frame>)>)
        ensures
            probe_views(r@) == self@.probes(),
    {
        let mut probe_packets: Vec<(PacketNumberSpace, Vec<Frame>)> = Vec::new();
        if self.handshake_confirmed {
            self.add_probe(PacketNumberSpace::ApplicationData, &mut probe_packets);
            self.add_probe(PacketNumberSpace::Handshake, &mut probe_packets);
            self.add_probe(PacketNumberSpace::Initial, &mut probe_packets);
        } else {
            self.add_probe(PacketNumberSpace::Handshake, &mut probe_packets);
            self.add_probe(PacketNumberSpace::Initial, &mut probe_packets);
            self.add_probe(PacketNumberSpace::ApplicationData, &mut probe_packets);
        }
        assert(probe_views(probe_packets@) =~= self@.probes());
        probe_packets
    }

    /// Create probe frames for a specific packet number space
    pub fn create_probe_frames_for_space(&self, space: PacketNumberSpace) -> (r: Vec<Frame>)
        ensures
            views(r@) == probe_frames(self@.spaces.at(space).sent, space),
    {
        create_probe_frames(self.spaces.get(space), space)
    }

    /// Check if any packet number space has ack-eliciting packets in flight
    pub fn has_any_ack_eliciting_in_flight(&self) -> (r: bool)
        ensures
            r == (self@.eliciting_in_flight() > 0),
    {
        self.spaces.initial.ack_eliciting_in_flight > 0
            || self.spaces.handshake.ack_eliciting_in_flight > 0
            || self.spaces.application.ack_eliciting_in_flight > 0
    }
}

/// The ACK frames that are due in one space.
pub open spec fn due_ack(m: AckManager, now: Instant) -> Seq<FrameView> {
    match m.ack_frame(now) {
        Some(f) => if m.wants_ack(now) {
            seq![f]
        } else {
            Seq::empty()
        },
        None => Seq::empty(),
    }
}

/// What sending the ACK frame that is due makes of the ACK manager of a space.
pub open spec fn ack_sent(after: AckManager, before: AckManager, now: Instant) -> bool {
    if before.wants_ack(now) {
        after.has_reported(before)
    } else {
        after == before
    }
}

/// Adds the ACK frame of a space, where one is due
fn push_due_ack(manager: &mut AckManager, now: Instant, ack_frames: &mut Vec<Frame>)
    requires
        old(manager).wf(),
    ensures
        final(manager).wf(),
        ack_sent(*final(manager), *old(manager), now),
        views(final(ack_frames)@) == views(old(ack_frames)@) + due_ack(*old(manager), now),
{
    let ghost before = ack_frames@;
    if manager.should_send_ack(now) {
        if let Some(ack_frame) = manager.generate_ack_frame(now) {
            ack_frames.push(ack_frame);
        }
    }
    assert(views(ack_frames@) =~= views(before) + due_ack(*old(manager), now));
}

impl RecoveryView {
    /// The manager once the handshake is confirmed.
    pub open spec fn confirmed(self, now: Instant) -> RecoveryView {
        if self.handshake_confirmed {
            self
        } else {
            (RecoveryView {
                handshake_confirmed: true,
                handshake_completion_time: Some(now),
                ..self
            }).timed()
        }
    }

    /// The manager with what the peer declares about ACK frames, where it declares it.
    pub open spec fn with_ack_params(self, exponent: Option<u8>, max_delay: Option<Duration>) ->
        RecoveryView {
        RecoveryView {
            rtt: RttEstimator {
                ack_delay_exponent: match exponent {
                    Some(e) => e,
                    None => self.rtt.ack_delay_exponent,
                },
                max_ack_delay: match max_delay {
                    Some(d) => d,
                    None => self.rtt.max_ack_delay,
                },
                ..self.rtt
            },
            ..self
        }
    }

    /// Whether the address validation rule allows a packet: three times what was received, until
    /// the address of the peer is validated.
    pub open spec fn within_amplification_limit(self, packet_size: int) -> bool {
        self.address_validated || self.bytes_sent + packet_size <= 3 * self.bytes_received
    }
}

impl RecoveryManager {
    /// Get ACK frames for all packet number spaces that need acknowledgment
    pub fn get_ack_frames(&mut self, now: Instant) -> (r: Vec<Frame>)
        requires
            old(self)@.wf(),
        ensures
            final(self)@.wf(),
            ({
                let m = old(self)@.ack_managers;
                views(r@) == due_ack(m.initial, now) + due_ack(m.handshake, now) + due_ack(
                    m.application,
                    now,
                )
            }),
            final(self)@ == (RecoveryView {
                ack_managers: final(self)@.ack_managers,
                ..old(self)@
            }),
            ack_sent(final(self)@.ack_managers.initial, old(self)@.ack_managers.initial, now),
            ack_sent(final(self)@.ack_managers.handshake, old(self)@.ack_managers.handshake, now),
            ack_sent(
                final(self)@.ack_managers.application,
                old(self)@.ack_managers.application,
                now,
            ),
    {
        let mut ack_frames: Vec<Frame> = Vec::new();
        assert(views(ack_frames@) =~= Seq::<FrameView>::empty());
        push_due_ack(&mut self.ack_managers.initial, now, &mut ack_frames);
        push_due_ack(&mut self.ack_managers.handshake, now, &mut ack_frames);
        push_due_ack(&mut self.ack_managers.application, now, &mut ack_frames);
        assert(views(ack_frames@) =~= due_ack(old(self)@.ack_managers.initial, now) + due_ack(
            old(self)@.ack_managers.handshake,
            now,
        ) + due_ack(old(self)@.ack_managers.application, now));
        ack_frames
    }

    /// Generate ACK frame for a specific packet number space
    pub fn generate_ack_frame(&mut self, pn_space: PacketNumberSpace, now: Instant) -> (r: Option<
        Frame,
    >)
        requires
            old(self)@.wf(),
        ensures
            final(self)@.wf(),
            match old(self)@.ack_managers.at(pn_space).ack_frame(now) {
                Some(f) => r is Some && r->Some_0@ == f,
                None => r is None,
            },
            final(self)@ == (RecoveryView {
                ack_managers: old(self)@.ack_managers.with(
                    pn_space,
                    final(self)@.ack_managers.at(pn_space),
                ),
                ..old(self)@
            }),
            final(self)@.ack_managers.at(pn_space).has_reported(
                old(self)@.ack_managers.at(pn_space),
            ),
    {
        self.ack_managers.get_mut(pn_space).generate_ack_frame(now)
    }

    /// Discard state for a packet number space (e.g., after handshake completion)
    pub fn discard_space(&mut self, pn_space: PacketNumberSpace)
        requires
            old(self)@.wf(),
        ensures
            final(self)@.wf(),
            ({
                let m = final(self)@.ack_managers.at(pn_space);
                let before = old(self)@.ack_managers.at(pn_space);
                &&& m.received_packets@ == Seq::<u64>::empty()
                &&& m == (AckManager {
                    received_packets: m.received_packets,
                    largest_received: None,
                    largest_received_time: None,
                    ack_eliciting_count: 0,
                    first_ack_eliciting_time: None,
                    needs_ack: false,
                    ecn_counts: EcnCounts { ect0: 0, ect1: 0, ecn_ce: 0 },
                    ..before
                })
                &&& final(self)@ == (RecoveryView {
                    ack_managers: old(self)@.ack_managers.with(pn_space, m),
                    ..old(self)@.with_space(pn_space, SpaceView::fresh())
                }).timed()
            }),
    {
        *self.spaces.get_mut(pn_space) = PacketNumberSpaceData::new();
        self.ack_managers.get_mut(pn_space).reset();
        self.set_loss_detection_timer();
    }

    /// Get total packets sent
    pub fn packets_sent(&self) -> (r: u64)
        ensures
            r == self@.packets_sent,
    {
        self.packets_sent_count
    }

    /// Get total packets received
    pub fn packets_recv(&self) -> (r: u64)
        ensures
            r == self@.packets_recv,
    {
        self.packets_recv_count
    }

    /// Set ACK delay exponent from transport parameters
    pub fn set_ack_delay_exponent(&mut self, exponent: u8)
        ensures
            final(self)@ == (RecoveryView {
                rtt: (RttEstimator { ack_delay_exponent: exponent, ..old(self)@.rtt }),
                ..old(self)@
            }),
    {
        self.rtt_estimator.ack_delay_exponent = exponent;
    }

    /// Set maximum ACK delay from transport parameters
    pub fn set_max_ack_delay(&mut self, max_delay: Duration)
        ensures
            final(self)@ == (RecoveryView {
                rtt: (RttEstimator { max_ack_delay: max_delay, ..old(self)@.rtt }),
                ..old(self)@
            }),
    {
        self.rtt_estimator.max_ack_delay = max_delay;
    }

    /// Get current RTT estimate
    pub fn rtt(&self) -> (r: Duration)
        ensures
            r == self@.rtt.smoothed_rtt,
    {
        self.rtt_estimator.rtt()
    }

    /// Get access to RTT estimator
    pub fn rtt_estimator(&self) -> (r: &RttEstimator)
        ensures
            *r == self@.rtt,
    {
        &self.rtt_estimator
    }

    /// Get current PTO value
    pub fn probe_timeout(&self) -> (r: Duration)
        ensures
            r.nanos == self@.rtt.timeout_for(PacketNumberSpace::ApplicationData),
    {
        self.rtt_estimator.probe_timeout()
    }

    /// Get the PTO value of a space
    pub fn probe_timeout_for_space(&self, space: PacketNumberSpace) -> (r: Duration)
        ensures
            r.nanos == self@.rtt.timeout_for(space),
    {
        self.rtt_estimator.probe_timeout_for_space(space)
    }

    /// Get PTO count
    pub fn pto_count(&self) -> (r: u32)
        ensures
            r == self@.pto_count,
    {
        self.pto_count
    }

    /// RFC 9002 Section 8.1: Anti-amplification protection
    /// Check if we can send a packet of given size without violating amplification limits
    pub fn can_send_packet(&self, packet_size: usize) -> (r: bool)
        ensures
            r == self@.within_amplification_limit(packet_size as int),
    {
        if self.address_validated {
            return true;
        }
        let amplification_limit: u128 = self.bytes_received as u128 * 3;
        self.bytes_sent as u128 + packet_size as u128 <= amplification_limit
    }

    /// Mark peer address as validated (e.g., after receiving a valid ACK)
    pub fn validate_address(&mut self)
        ensures
            final(self)@ == (RecoveryView { address_validated: true, ..old(self)@ }),
    {
        self.address_validated = true;
    }

    /// Get current congestion window size
    pub fn congestion_window(&self) -> (r: u64)
        ensures
            r == self@.congestion.window(),
    {
        self.congestion_controller.congestion_window()
    }

    /// Get bytes in flight for congestion control
    pub fn bytes_in_flight(&self) -> (r: u64)
        requires
            self@.in_flight() <= u64::MAX,
        ensures
            r == self@.in_flight(),
    {
        self.spaces.initial.bytes_in_flight as u64 + self.spaces.handshake.bytes_in_flight as u64
            + self.spaces.application.bytes_in_flight as u64
    }

    /// Check if we can send a packet based on congestion control
    pub fn can_send_packet_cc(&self, packet_size: u64) -> (r: bool)
        requires
            self@.in_flight() <= u64::MAX,
        ensures
            r == (self@.in_flight() + packet_size <= self@.congestion.window()),
    {
        let bytes_in_flight: u64 = self.bytes_in_flight();
        let congestion_window: u64 = self.congestion_window();
        bytes_in_flight as u128 + packet_size as u128 <= congestion_window as u128
    }

    /// RFC 9002 Section 6.2.2: Mark handshake as confirmed
    pub fn confirm_handshake(&mut self, now: Instant)
        requires
            old(self)@.wf(),
        ensures
            final(self)@.wf(),
            final(self)@ == old(self)@.confirmed(now),
    {
        if !self.handshake_confirmed {
            self.handshake_confirmed = true;
            self.handshake_completion_time = Some(now);
            self.set_loss_detection_timer();
        }
    }

    /// Check if handshake is confirmed
    pub fn is_handshake_confirmed(&self) -> (r: bool)
        ensures
            r == self@.handshake_confirmed,
    {
        self.handshake_confirmed
    }

    /// Update bytes sent (for anti-amplification tracking)
    pub fn update_bytes_sent(&mut self, bytes: usize)
        requires
            old(self)@.bytes_sent + bytes <= u64::MAX,
        ensures
            final(self)@ == (RecoveryView {
                bytes_sent: (old(self)@.bytes_sent + bytes) as u64,
                ..old(self)@
            }),
    {
        self.bytes_sent += bytes as u64;
    }

    /// Update bytes received (for anti-amplification tracking)
    pub fn update_bytes_received(&mut self, bytes: usize)
        requires
            old(self)@.bytes_received + bytes <= u64::MAX,
        ensures
            final(self)@ == (RecoveryView {
                bytes_received: (old(self)@.bytes_received + bytes) as u64,
                ..old(self)@
            }),
    {
        self.bytes_received += bytes as u64;
    }

    /// Get statistics
    pub fn stats(&self) -> (r: RecoveryStats)
        requires
            self@.in_flight() <= usize::MAX,
            self@.eliciting_in_flight() <= u32::MAX,
        ensures
            r == (RecoveryStats {
                packets_sent: self@.packets_sent,
                packets_recv: self@.packets_recv,
                rtt: self@.rtt.smoothed_rtt,
                rtt_var: self@.rtt.rtt_var,
                min_rtt: self@.rtt.min_rtt,
                latest_rtt: self@.rtt.latest_rtt,
                pto_count: self@.pto_count,
                bytes_in_flight: self@.in_flight() as usize,
                ack_eliciting_in_flight: self@.eliciting_in_flight() as u32,
            }),
    {
        RecoveryStats {
            packets_sent: self.packets_sent_count,
            packets_recv: self.packets_recv_count,
            rtt: self.rtt_estimator.rtt(),
            rtt_var: self.rtt_estimator.rtt_var,
            min_rtt: self.rtt_estimator.min_rtt,
            latest_rtt: self.rtt_estimator.latest_rtt,
            pto_count: self.pto_count,
            bytes_in_flight: self.bytes_in_flight() as usize,
            ack_eliciting_in_flight: self.spaces.initial.ack_eliciting_in_flight
                + self.spaces.handshake.ack_eliciting_in_flight
                + self.spaces.application.ack_eliciting_in_flight,
        }
    }
}

/// Whether a range of an ACK frame acknowledges a packet number.
pub open spec fn covers(range: (u64, u64), packet_number: u64) -> bool {
    range.0 <= packet_number <= range.1
}

/// What an ACK frame acknowledges is not kept, so it is never found lost later.
pub proof fn acked_ranges_leave(v: SpaceView, ranges: Seq<(u64, u64)>, n: int)
    requires
        v.wf(),
        0 <= n <= ranges.len(),
        forall|j: int| 0 <= j < ranges.len() ==> (#[trigger] ranges[j]).0 <= ranges[j].1,
    ensures
        acked_ranges(v, ranges, n).wf(),
        forall|i: int, j: int|
            0 <= i < acked_ranges(v, ranges, n).sent.len() && 0 <= j < n ==> !(#[trigger] covers(
                ranges[j],
                acked_ranges(v, ranges, n).sent[i].packet_number,
            )),
    decreases n,
{
    if n > 0 {
        acked_ranges_leave(v, ranges, n - 1);
        let w = acked_ranges(v, ranges, n - 1);
        let (start, end) = ranges[n - 1];
        assert(ranges[n - 1].0 <= ranges[n - 1].1);
        crate::sent_packets::lemma_acked(w, start, end);
        acked_packets_leave(w.sent, start, end);
        let rest = out_of_range(w.sent, start, end);
        assert forall|i: int, j: int| 0 <= i < rest.len() && 0 <= j < n implies !(
        #[trigger] covers(ranges[j], rest[i].packet_number)) by {
            let lo = rank(w.sent, start as int);
            let hi = rank(w.sent, end + 1);
            if j < n - 1 {
                let k = if i < lo {
                    i
                } else {
                    i - lo + hi
                };
                assert(rest[i] == w.sent[k]);
                assert(!covers(ranges[j], w.sent[k].packet_number));
            }
        }
    }
}

/// Whether no packet of a space is named by the ranges of an ACK frame.
spec fn none_covered(v: SpaceView, ranges: Seq<(u64, u64)>) -> bool {
    forall|i: int, j: int|
        0 <= i < v.sent.len() && 0 <= j < ranges.len() ==> !(#[trigger] covers(
            ranges[j],
            v.sent[i].packet_number,
        ))
}

/// An acknowledgment of packets that are not there changes nothing.
proof fn lemma_none_covered(v: SpaceView, ranges: Seq<(u64, u64)>, n: int)
    requires
        v.wf(),
        none_covered(v, ranges),
        0 <= n <= ranges.len(),
        forall|j: int| 0 <= j < ranges.len() ==> (#[trigger] ranges[j]).0 <= ranges[j].1,
    ensures
        acked_ranges(v, ranges, n) == v,
        newly_acked(v, ranges, n).len() == 0,
    decreases n,
{
    if n > 0 {
        lemma_none_covered(v, ranges, n - 1);
        let (start, end) = ranges[n - 1];
        assert(ranges[n - 1].0 <= ranges[n - 1].1);
        let a = rank(v.sent, start as int);
        let b = rank(v.sent, end + 1);
        crate::sent_packets::lemma_rank(v.sent, start as int);
        crate::sent_packets::lemma_rank(v.sent, end + 1);
        crate::sent_packets::lemma_rank_grows(v.sent, start as int, end + 1);
        if a < b {
            assert(v.sent[a].packet_number >= start);
            assert(v.sent[a].packet_number < end + 1);
            assert(covers(ranges[n - 1], v.sent[a].packet_number));
        }
        assert(in_range(v.sent, start, end) =~= Seq::<SentView>::empty());
        assert(out_of_range(v.sent, start, end) =~= v.sent);
        assert(v.acked(start, end) == v);
    }
}

/// Whether a range of an ACK frame names a packet number.
pub open spec fn named_by(ranges: Seq<(u64, u64)>, packet_number: u64) -> bool {
    exists|j: int| 0 <= j < ranges.len() && #[trigger] covers(ranges[j], packet_number)
}

/// Whether the ranges name some packet, or some that asked for an acknowledgment.
spec fn names_some(s: Seq<SentView>, ranges: Seq<(u64, u64)>, eliciting: bool) -> bool {
    exists|i: int|
        0 <= i < s.len() && named_by(ranges, (#[trigger] s[i]).packet_number) && (eliciting
            ==> s[i].ack_eliciting)
}

/// One more packet may be named as well.
proof fn lemma_names_push(s: Seq<SentView>, i: int, ranges: Seq<(u64, u64)>, eliciting: bool)
    requires
        0 <= i < s.len(),
    ensures
        names_some(s.take(i + 1), ranges, eliciting) == (names_some(s.take(i), ranges, eliciting)
            || (named_by(ranges, s[i].packet_number) && (eliciting ==> s[i].ack_eliciting))),
{
    let a = s.take(i);
    let b = s.take(i + 1);
    if names_some(a, ranges, eliciting) {
        let k = choose|k: int|
            0 <= k < a.len() && named_by(ranges, (#[trigger] a[k]).packet_number) && (eliciting
                ==> a[k].ack_eliciting);
        assert(b[k] == a[k]);
    }
    if names_some(b, ranges, eliciting) {
        let k = choose|k: int|
            0 <= k < b.len() && named_by(ranges, (#[trigger] b[k]).packet_number) && (eliciting
                ==> b[k].ack_eliciting);
        if k < i {
            assert(a[k] == b[k]);
        }
    }
    assert(b[i] == s[i]);
}

/// The packets that an acknowledgment takes out are those that its ranges name.
pub(crate) proof fn lemma_newly_members(v: SpaceView, ranges: Seq<(u64, u64)>, n: int, p: SentView)
    requires
        v.wf(),
        0 <= n <= ranges.len(),
        forall|j: int| 0 <= j < ranges.len() ==> (#[trigger] ranges[j]).0 <= ranges[j].1,
    ensures
        acked_ranges(v, ranges, n).wf(),
        newly_acked(v, ranges, n).contains(p) <==> v.sent.contains(p) && named_by(
            ranges.take(n),
            p.packet_number,
        ),
        acked_ranges(v, ranges, n).sent.contains(p) <==> v.sent.contains(p) && !named_by(
            ranges.take(n),
            p.packet_number,
        ),
    decreases n,
{
    if n == 0 {
        assert(!named_by(ranges.take(0), p.packet_number));
        assert(!newly_acked(v, ranges, 0).contains(p));
    } else {
        lemma_newly_members(v, ranges, n - 1, p);
        let w = acked_ranges(v, ranges, n - 1);
        let (start, end) = ranges[n - 1];
        assert(ranges[n - 1].0 <= ranges[n - 1].1);
        crate::sent_packets::lemma_acked(w, start, end);
        lemma_range_members(w.sent, start, end, p);
        let (r0, r1) = (ranges.take(n - 1), ranges.take(n));
        assert(named_by(r1, p.packet_number) == (named_by(r0, p.packet_number) || covers(
            ranges[n - 1],
            p.packet_number,
        ))) by {
            if named_by(r0, p.packet_number) {
                let j = choose|j: int| 0 <= j < r0.len() && #[trigger] covers(r0[j], p.packet_number);
                assert(covers(r1[j], p.packet_number));
            }
            if named_by(r1, p.packet_number) {
                let j = choose|j: int| 0 <= j < r1.len() && #[trigger] covers(r1[j], p.packet_number);
                if j < n - 1 {
                    assert(covers(r0[j], p.packet_number));
                }
            }
            if covers(ranges[n - 1], p.packet_number) {
                assert(covers(r1[n - 1], p.packet_number));
            }
        }
        let a = newly_acked(v, ranges, n - 1);
        let b = in_range(w.sent, start, end);
        assert((a + b).contains(p) == (a.contains(p) || b.contains(p))) by {
            if (a + b).contains(p) {
                let k = choose|k: int| 0 <= k < (a + b).len() && (a + b)[k] == p;
                if k < a.len() {
                    assert(a[k] == p);
                } else {
                    assert(b[k - a.len()] == p);
                }
            }
            if a.contains(p) {
                let k = choose|k: int| 0 <= k < a.len() && a[k] == p;
                assert((a + b)[k] == p);
            }
            if b.contains(p) {
                let k = choose|k: int| 0 <= k < b.len() && b[k] == p;
                assert((a + b)[a.len() + k] == p);
            }
        }
    }
}

/// A range takes out the packets with its numbers.
proof fn lemma_range_members(s: Seq<SentView>, start: u64, end: u64, p: SentView)
    requires
        crate::sent_packets::ordered(s),
        start <= end,
    ensures
        in_range(s, start, end).contains(p) <==> s.contains(p) && start <= p.packet_number <= end,
        out_of_range(s, start, end).contains(p) <==> s.contains(p) && !(start <= p.packet_number
            <= end),
{
    let a = rank(s, start as int);
    let b = rank(s, end + 1);
    crate::sent_packets::lemma_rank(s, start as int);
    crate::sent_packets::lemma_rank(s, end + 1);
    crate::sent_packets::lemma_rank_grows(s, start as int, end + 1);
    let (m, o) = (in_range(s, start, end), out_of_range(s, start, end));
    if m.contains(p) {
        let k = choose|k: int| 0 <= k < m.len() && m[k] == p;
        assert(s[a + k] == p);
    }
    if o.contains(p) {
        let k = choose|k: int| 0 <= k < o.len() && o[k] == p;
        if k < a {
            assert(s[k] == p);
        } else {
            assert(s[k - a + b] == p);
        }
    }
    if s.contains(p) {
        let k = choose|k: int| 0 <= k < s.len() && s[k] == p;
        if k < a {
            assert(o[k] == p);
        } else if k < b {
            assert(m[k - a] == p);
        } else {
            assert(o[k - b + a] == p);
        }
    }
}

/// Whether an acknowledgment takes out packets, and some that asked for it.
proof fn lemma_newly_named(v: SpaceView, ranges: Seq<(u64, u64)>)
    requires
        v.wf(),
        forall|j: int| 0 <= j < ranges.len() ==> (#[trigger] ranges[j]).0 <= ranges[j].1,
    ensures
        ({
            let newly = newly_acked(v, ranges, ranges.len() as int);
            &&& newly.len() > 0 <==> names_some(v.sent, ranges, false)
            &&& newest_eliciting(newly) is Some <==> names_some(v.sent, ranges, true)
        }),
{
    let n = ranges.len() as int;
    let newly = newly_acked(v, ranges, n);
    assert(ranges.take(n) =~= ranges);
    lemma_newest_eliciting(newly);
    if newly.len() > 0 {
        lemma_newly_members(v, ranges, n, newly[0]);
        assert(newly.contains(newly[0]));
        let k = choose|k: int| 0 <= k < v.sent.len() && v.sent[k] == newly[0];
        assert(named_by(ranges, v.sent[k].packet_number));
    }
    if names_some(v.sent, ranges, false) {
        let k = choose|k: int|
            0 <= k < v.sent.len() && named_by(ranges, (#[trigger] v.sent[k]).packet_number);
        lemma_newly_members(v, ranges, n, v.sent[k]);
        assert(v.sent.contains(v.sent[k]));
        assert(newly.contains(v.sent[k]));
    }
    if newest_eliciting(newly) is Some {
        let i = choose|i: int| 0 <= i < newly.len() && (#[trigger] newly[i]).ack_eliciting;
        lemma_newly_members(v, ranges, n, newly[i]);
        assert(newly.contains(newly[i]));
        let k = choose|k: int| 0 <= k < v.sent.len() && v.sent[k] == newly[i];
        assert(named_by(ranges, v.sent[k].packet_number));
    }
    if names_some(v.sent, ranges, true) {
        let k = choose|k: int|
            0 <= k < v.sent.len() && named_by(ranges, (#[trigger] v.sent[k]).packet_number)
                && v.sent[k].ack_eliciting;
        lemma_newly_members(v, ranges, n, v.sent[k]);
        assert(v.sent.contains(v.sent[k]));
        let i = choose|i: int| 0 <= i < newly.len() && newly[i] == v.sent[k];
        assert(newly[i].ack_eliciting);
    }
}

/// There is a newest packet that asked for an acknowledgment where any did.
pub(crate) proof fn lemma_newest_eliciting(s: Seq<SentView>)
    ensures
        newest_eliciting(s) is Some <==> exists|i: int|
            0 <= i < s.len() && (#[trigger] s[i]).ack_eliciting,
    decreases s.len(),
{
    if s.len() > 0 {
        let d = s.drop_last();
        lemma_newest_eliciting(d);
        if exists|i: int| 0 <= i < d.len() && (#[trigger] d[i]).ack_eliciting {
            let i = choose|i: int| 0 <= i < d.len() && (#[trigger] d[i]).ack_eliciting;
            assert(s[i].ack_eliciting);
        }
        if exists|i: int| 0 <= i < s.len() && (#[trigger] s[i]).ack_eliciting {
            let i = choose|i: int| 0 <= i < s.len() && (#[trigger] s[i]).ack_eliciting;
            if i < d.len() {
                assert(d[i].ack_eliciting);
            }
        }
    }
}

/// Setting the timer a second time changes nothing.
proof fn lemma_timed_twice(v: RecoveryView)
    ensures
        v.timed().timed() == v.timed(),
{
    let w = v.timed();
    assert(w.spaces == v.spaces && w.rtt == v.rtt);
    assert(w.loss_delay() == v.loss_delay());
    assert(w.earliest() == v.earliest());
    assert(w.probe_start() == v.probe_start());
    assert(w.due() == v.due());
}

/// What is left of a space after an ACK frame and the losses that follow from it.
proof fn lemma_ack_leaves_none(
    v: RecoveryView,
    space: PacketNumberSpace,
    largest_acked: u64,
    ranges: Seq<(u64, u64)>,
    ack_delay: Duration,
    now: Instant,
)
    requires
        v.wf(),
        v.ack_outcome(space, largest_acked, ranges, ack_delay, now).1 is Ok,
    ensures
        ({
            let w = v.ack_outcome(space, largest_acked, ranges, ack_delay, now).0;
            let b = w.spaces.at(space);
            &&& b.wf()
            &&& none_covered(b, ranges)
            &&& b.largest_acked == Some(largest_acked)
            &&& w.timed() == w
            &&& ranges.len() <= MAX_ACK_RANGES
            &&& range_error(ranges, 0) is None
            &&& small_ranges(ranges, 0) == ranges.len()
        }),
{
    reveal(RecoveryView::ack_outcome);
    let w = v.ack_outcome(space, largest_acked, ranges, ack_delay, now).0;
    let n = small_ranges(ranges, 0);
    lemma_no_range_error(ranges, 0);
    lemma_small_ranges(ranges, 0);
    assert(n == ranges.len());
    let u = SpaceView { largest_acked: Some(largest_acked), ..v.spaces.at(space) };
    assert(u.wf());
    acked_ranges_leave(u, ranges, n);
    lemma_acked_keeps_largest(u, ranges, n);
    let a = acked_ranges(u, ranges, n);
    assert(none_covered(a, ranges));
    let b = w.spaces.at(space);
    let av = v.with_space(space, a);
    let newly = newly_acked(u, ranges, n);
    if newly.len() > 0 {
        let c = av.ack_counted(space, newly, ranges, ack_delay, now);
        let k = c.criteria(space, now);
        lemma_timed_twice(c.after_detection(space, now));
        crate::sent_packets::loss_splits_packets(k, a.sent);
        crate::sent_packets::lemma_after_loss(a, k);
        assert(b == a.after_loss(k));
        assert forall|i: int, j: int| 0 <= i < b.sent.len() && 0 <= j < ranges.len() implies !(
        #[trigger] covers(ranges[j], b.sent[i].packet_number)) by {
            assert(a.sent.contains(k.kept_of(a.sent)[i]));
            let m = choose|m: int| 0 <= m < a.sent.len() && a.sent[m] == b.sent[i];
            assert(!covers(ranges[j], a.sent[m].packet_number));
        }
    } else {
        lemma_timed_twice(av);
        assert(b == a);
    }
}

/// Taking the same ACK frame in a second time, with no other call between, is always possible
/// and changes nothing: no
/// frame is to be sent again, and the bytes in flight, the RTT estimates, the congestion window
/// and the count of packets stay as the first time left them.
pub proof fn repeated_ack_changes_nothing(
    v: RecoveryView,
    space: PacketNumberSpace,
    largest_acked: u64,
    ranges: Seq<(u64, u64)>,
    ack_delay: Duration,
    now: Instant,
    later: Instant,
)
    requires
        v.wf(),
        v.ack_outcome(space, largest_acked, ranges, ack_delay, now).1 is Ok,
    ensures
        ({
            let w = v.ack_outcome(space, largest_acked, ranges, ack_delay, now).0;
            &&& w.has_room_for_ack(space, largest_acked, ranges)
            &&& w.ack_outcome(space, largest_acked, ranges, ack_delay, later) == (
                w,
                Ok::<Seq<FrameView>, Error>(Seq::empty()),
            )
        }),
{
    let w = v.ack_outcome(space, largest_acked, ranges, ack_delay, now).0;
    lemma_ack_leaves_none(v, space, largest_acked, ranges, ack_delay, now);
    lemma_no_range_error(ranges, 0);
    let b = w.spaces.at(space);
    lemma_none_covered(b, ranges, ranges.len() as int);
    assert(SpaceView { largest_acked: Some(largest_acked), ..b } == b);
    assert(w.with_space(space, b) == w);
    reveal(RecoveryView::ack_outcome);
    reveal(RecoveryView::has_room_for_ack);
}

/// Acknowledged packets leave without a change of the largest acknowledged number.
proof fn lemma_acked_keeps_largest(v: SpaceView, ranges: Seq<(u64, u64)>, n: int)
    requires
        0 <= n <= ranges.len(),
    ensures
        acked_ranges(v, ranges, n).largest_acked == v.largest_acked,
    decreases n,
{
    if n > 0 {
        lemma_acked_keeps_largest(v, ranges, n - 1);
    }
}

/// The probe timeout doubles with each expiry, until it no longer fits.
pub proof fn probe_timeout_doubles(v: RecoveryView)
    requires
        v.pto_count < 31,
        v.probe_start() is Some,
    ensures
        ({
            let (start, space) = v.probe_start()->Some_0;
            let next = RecoveryView { pto_count: (v.pto_count + 1) as u32, ..v };
            let wait = v.probe_deadline()->Some_0 - start;
            next.probe_deadline()->Some_0 - start == min_int(
                2 * wait,
                min_int(LONGEST as int, u128::MAX - start),
            )
        }),
{
    let n = v.pto_count;
    let next = RecoveryView { pto_count: (n + 1) as u32, ..v };
    assert(next.probe_start() == v.probe_start());
    let (start, space) = v.probe_start()->Some_0;
    let base = v.rtt.timeout_for(space);
    let b = 1u32 << n;
    let m = (n + 1) as u32;
    let b2 = 1u32 << m;
    assert(b2 == 2 * b && b >= 1) by (bit_vector)
        requires
            n < 31,
            m == n + 1,
            b == 1u32 << n,
            b2 == 1u32 << m,
    ;
    assert(base * b2 == 2 * (base * b)) by (nonlinear_arith)
        requires
            b2 == 2 * b,
    ;
    assert(base * b >= 0) by (nonlinear_arith)
        requires
            base >= 0,
            b >= 1,
    ;
}

/// After a packet that asks for an acknowledgment was sent, the timer runs.
pub proof fn sending_starts_timer(v: RecoveryView, p: SentView)
    requires
        v.wf(),
        p.ack_eliciting,
        v.spaces.at(p.pn_space).has_room_for(p.size),
    ensures
        v.after_sending(p).timer is Some,
{
    let s = v.spaces.at(p.pn_space);
    lemma_rank_grows(s.sent, p.packet_number as int, p.packet_number + 1);
    let w = v.with_space(p.pn_space, s.after_sending(p));
    assert(s.after_sending(p).sent.len() > 0);
    assert(w.oldest_in(p.pn_space) is Some);
}

/// A probe timeout sends at most two packets, and each of them asks for an acknowledgment.
pub proof fn probes_elicit_acks(v: RecoveryView)
    ensures
        v.probes().len() <= 2,
        v.eliciting_in_flight() > 0 ==> v.probes().len() > 0,
        forall|i: int|
            0 <= i < v.probes().len() ==> any_elicits((#[trigger] v.probes()[i]).1) && v.active(
                v.probes()[i].0,
            ),
{
    let order = v.to_probe();
    assert forall|i: int| 0 <= i < v.probes().len() implies any_elicits(
        (#[trigger] v.probes()[i]).1,
    ) && v.active(v.probes()[i].0) by {
        probe_elicits_ack(v.spaces.at(order[i]).sent, order[i]);
    }
}

/// What the address validation rule allows stays within three times what was received, however
/// packets are sent and received.
pub proof fn amplification_is_limited(v: RecoveryView, sent: int, received: int)
    requires
        !v.address_validated,
        v.bytes_sent <= 3 * v.bytes_received,
        0 <= sent,
        0 <= received,
        v.bytes_sent + sent <= u64::MAX,
        v.bytes_received + received <= u64::MAX,
        v.within_amplification_limit(sent),
    ensures
        ({
            let w = RecoveryView {
                bytes_sent: (v.bytes_sent + sent) as u64,
                bytes_received: (v.bytes_received + received) as u64,
                ..v
            };
            w.bytes_sent <= 3 * w.bytes_received
        }),
{
}

} // verus!
