//! Explicit Congestion Notification (ECN) support.
//!
//! - RFC 3168: "The Addition of Explicit Congestion Notification (ECN) to IP"
//! - RFC 9000: "QUIC: A UDP-Based Multiplexed and Secure Transport"
//! - RFC 9002: "QUIC Loss Detection and Congestion Control"
//!
//! ECN allows routers to mark packets instead of dropping them when congestion
//! occurs, providing earlier congestion signals to improve performance.

use crate::time::{max_int, Duration, Instant};
use std::collections::VecDeque;
use vstd::prelude::*;

verus! {

/// ECN codepoints as defined in RFC 3168
#[derive(Debug, Clone, Copy, PartialEq, Eq, Structural)]
pub enum EcnCodepoint {
    /// Not-ECT (Not ECN-Capable Transport) - 00
    NotEct,
    /// ECT(1) (ECN-Capable Transport) - 01
    Ect1,
    /// ECT(0) (ECN-Capable Transport) - 10
    Ect0,
    /// CE (Congestion Experienced) - 11
    Ce,
}

impl EcnCodepoint {
    /// The two bits of the codepoint.
    pub open spec fn bits(self) -> u8 {
        match self {
            EcnCodepoint::NotEct => 0,
            EcnCodepoint::Ect1 => 1,
            EcnCodepoint::Ect0 => 2,
            EcnCodepoint::Ce => 3,
        }
    }

    /// Create ECN codepoint from raw bits, of which the lower two count
    pub fn from_bits(bits: u8) -> (r: Option<EcnCodepoint>)
        ensures
            r is Some,
            r->Some_0.bits() == bits % 4,
    {
        assert(bits & 0b11 == bits % 4) by (bit_vector);
        match bits & 0b11 {
            0b00 => Some(EcnCodepoint::NotEct),
            0b01 => Some(EcnCodepoint::Ect1),
            0b10 => Some(EcnCodepoint::Ect0),
            0b11 => Some(EcnCodepoint::Ce),
            _ => None,
        }
    }

    /// Convert to raw bits
    pub fn to_bits(self) -> (r: u8)
        ensures
            r == self.bits(),
    {
        match self {
            EcnCodepoint::NotEct => 0b00,
            EcnCodepoint::Ect1 => 0b01,
            EcnCodepoint::Ect0 => 0b10,
            EcnCodepoint::Ce => 0b11,
        }
    }

    /// Check if this codepoint indicates ECN capability
    pub fn is_ect(self) -> (r: bool)
        ensures
            r == (self == EcnCodepoint::Ect0 || self == EcnCodepoint::Ect1),
    {
        matches!(self, EcnCodepoint::Ect0 | EcnCodepoint::Ect1)
    }

    /// Check if this codepoint indicates congestion
    pub fn is_ce(self) -> (r: bool)
        ensures
            r == (self == EcnCodepoint::Ce),
    {
        matches!(self, EcnCodepoint::Ce)
    }
}

/// No two codepoints have the same bits, so that reading the bits gives the codepoint back.
pub proof fn codepoint_bits_unique(a: EcnCodepoint, b: EcnCodepoint)
    ensures
        a.bits() == b.bits() ==> a == b,
        a.bits() < 4,
{
}

/// A share of marked packets among all ECN-capable ones. Where there are none, it is zero.
#[derive(Debug, Clone, Copy, PartialEq, Eq, Structural)]
pub struct MarkingRate {
    /// Marked packets
    pub marked: u64,
    /// All packets
    pub total: u64,
}

impl MarkingRate {
    /// Whether more than `percent` of a hundred packets are marked.
    pub open spec fn above(self, percent: int) -> bool {
        self.total > 0 && self.marked * 100 > percent * self.total
    }

    /// Check if more than `percent` of a hundred packets are marked
    pub fn exceeds(self, percent: u64) -> (r: bool)
        ensures
            r == self.above(percent as int),
    {
        proof {
            let t = self.total as int;
            let p = percent as int;
            assert(p * t <= u64::MAX * u64::MAX) by (nonlinear_arith)
                requires
                    0 <= p <= u64::MAX,
                    0 <= t <= u64::MAX,
            ;
            assert(0 <= p * t) by (nonlinear_arith)
                requires
                    p >= 0,
                    t >= 0,
            ;
        }
        self.total > 0 && self.marked as u128 * 100 > percent as u128 * self.total as u128
    }
}

/// ECN counters for tracking received marks
#[derive(Debug, Clone, Copy, PartialEq, Eq, Structural)]
pub struct EcnCounters {
    /// ECT(0) packets received
    pub ect0_count: u64,
    /// ECT(1) packets received
    pub ect1_count: u64,
    /// CE packets received
    pub ce_count: u64,
    /// Total ECN-capable packets received
    pub total_ect_count: u64,
}

impl Default for EcnCounters {
    fn default() -> (r: EcnCounters)
        ensures
            r == (EcnCounters { ect0_count: 0, ect1_count: 0, ce_count: 0, total_ect_count: 0 }),
            r.consistent(),
    {
        EcnCounters { ect0_count: 0, ect1_count: 0, ce_count: 0, total_ect_count: 0 }
    }
}

impl EcnCounters {
    /// Whether the total is that of the three counts.
    pub open spec fn consistent(self) -> bool {
        self.total_ect_count == self.ect0_count + self.ect1_count + self.ce_count
    }

    /// The counters after one more packet.
    pub open spec fn counted(self, ecn: EcnCodepoint) -> EcnCounters {
        match ecn {
            EcnCodepoint::Ect0 => EcnCounters {
                ect0_count: (self.ect0_count + 1) as u64,
                total_ect_count: (self.total_ect_count + 1) as u64,
                ..self
            },
            EcnCodepoint::Ect1 => EcnCounters {
                ect1_count: (self.ect1_count + 1) as u64,
                total_ect_count: (self.total_ect_count + 1) as u64,
                ..self
            },
            EcnCodepoint::Ce => EcnCounters {
                ce_count: (self.ce_count + 1) as u64,
                total_ect_count: (self.total_ect_count + 1) as u64,
                ..self
            },
            EcnCodepoint::NotEct => self,
        }
    }

    /// Whether one more packet can be counted.
    pub open spec fn can_count(self, ecn: EcnCodepoint) -> bool {
        &&& ecn == EcnCodepoint::Ect0 ==> self.ect0_count < u64::MAX
        &&& ecn == EcnCodepoint::Ect1 ==> self.ect1_count < u64::MAX
        &&& ecn == EcnCodepoint::Ce ==> self.ce_count < u64::MAX
        &&& ecn != EcnCodepoint::NotEct ==> self.total_ect_count < u64::MAX
    }

    /// Update counters with received ECN marking
    pub fn update(&mut self, ecn: EcnCodepoint)
        requires
            old(self).can_count(ecn),
        ensures
            *final(self) == old(self).counted(ecn),
            old(self).consistent() ==> final(self).consistent(),
    {
        match ecn {
            EcnCodepoint::Ect0 => {
                self.ect0_count += 1;
                self.total_ect_count += 1;
            },
            EcnCodepoint::Ect1 => {
                self.ect1_count += 1;
                self.total_ect_count += 1;
            },
            EcnCodepoint::Ce => {
                self.ce_count += 1;
                self.total_ect_count += 1;
            },
            EcnCodepoint::NotEct => {},
        }
    }

    /// Get total ECN marks (CE packets)
    pub fn total_marks(&self) -> (r: u64)
        ensures
            r == self.ce_count,
    {
        self.ce_count
    }

    /// Get ECN marking rate
    pub fn marking_rate(&self) -> (r: MarkingRate)
        ensures
            r == (MarkingRate { marked: self.ce_count, total: self.total_ect_count }),
    {
        MarkingRate { marked: self.ce_count, total: self.total_ect_count }
    }
}

/// ECN validation state for connection
#[derive(Debug, Clone, Copy, PartialEq, Eq, Structural)]
pub enum EcnState {
    /// ECN validation not started
    Unknown,
    /// Testing ECN capability
    Testing,
    /// ECN capability confirmed
    Capable,
    /// ECN validation failed
    Failed,
}

/// ECN validation configuration
#[derive(Debug, Clone, Copy, PartialEq, Eq, Structural)]
pub struct EcnValidationConfig {
    /// Number of packets to send for ECN validation
    pub validation_packets: u32,
    /// Maximum time to wait for ECN validation
    pub validation_timeout: Duration,
    /// Minimum number of ECN-marked packets to consider path capable
    pub min_ecn_packets: u32,
    /// Enable conservative ECN validation
    pub conservative_validation: bool,
}

impl EcnValidationConfig {
    /// The configuration that is used where none is given.
    pub open spec fn standard() -> EcnValidationConfig {
        EcnValidationConfig {
            validation_packets: 10,
            validation_timeout: Duration { nanos: 5_000_000_000 },
            min_ecn_packets: 3,
            conservative_validation: true,
        }
    }
}

impl Default for EcnValidationConfig {
    fn default() -> (r: EcnValidationConfig)
        ensures
            r == Self::standard(),
    {
        EcnValidationConfig {
            validation_packets: 10,
            validation_timeout: Duration::from_secs(5),
            min_ecn_packets: 3,
            conservative_validation: true,
        }
    }
}

/// ECN validation tracker
#[derive(Debug, Clone, Copy, PartialEq, Eq, Structural)]
pub struct EcnValidation {
    /// Current validation state
    pub state: EcnState,
    /// Configuration
    pub config: EcnValidationConfig,
    /// Packets sent with ECN marking during validation
    pub packets_sent: u32,
    /// ECN-capable packets received during validation
    pub ecn_packets_received: u32,
    /// Validation start time
    pub validation_start: Option<Instant>,
    /// Last ECN test packet sent
    pub last_test_packet: Option<Instant>,
}

impl EcnValidation {
    /// A validation that has not started
    pub fn new(config: EcnValidationConfig) -> (r: EcnValidation)
        ensures
            r == Self::fresh(config),
    {
        EcnValidation {
            state: EcnState::Unknown,
            config,
            packets_sent: 0,
            ecn_packets_received: 0,
            validation_start: None,
            last_test_packet: None,
        }
    }

    /// A validation that has not started.
    pub open spec fn fresh(config: EcnValidationConfig) -> EcnValidation {
        EcnValidation {
            state: EcnState::Unknown,
            config,
            packets_sent: 0,
            ecn_packets_received: 0,
            validation_start: None,
            last_test_packet: None,
        }
    }

    /// The validation once it was started.
    pub open spec fn started(self, now: Instant) -> EcnValidation {
        if self.state == EcnState::Unknown {
            EcnValidation {
                state: EcnState::Testing,
                validation_start: Some(now),
                packets_sent: 0,
                ecn_packets_received: 0,
                ..self
            }
        } else {
            self
        }
    }

    /// Starts the validation, once
    pub fn start_validation(&mut self, now: Instant)
        ensures
            *final(self) == old(self).started(now),
    {
        if matches!(self.state, EcnState::Unknown) {
            self.state = EcnState::Testing;
            self.validation_start = Some(now);
            self.packets_sent = 0;
            self.ecn_packets_received = 0;
        }
    }

    /// Whether a test packet is due: packets are left to send, and 100 milliseconds passed
    /// since the last one.
    pub open spec fn test_due(self, now: Instant) -> bool {
        &&& self.state == EcnState::Testing
        &&& self.packets_sent < self.config.validation_packets
        &&& self.last_test_packet matches Some(t) ==> now.nanos - t.nanos >= 100_000_000
    }

    /// Check if a test packet is to be sent now
    pub fn should_send_test_packet(&self, now: Instant) -> (r: bool)
        ensures
            r == self.test_due(now),
    {
        match self.state {
            EcnState::Testing => {
                if self.packets_sent < self.config.validation_packets {
                    if let Some(last_test) = self.last_test_packet {
                        now.duration_since(last_test).nanos >= Duration::from_millis(100).nanos
                    } else {
                        true
                    }
                } else {
                    false
                }
            },
            _ => false,
        }
    }

    /// Records a test packet
    pub fn on_test_packet_sent(&mut self, now: Instant)
        requires
            old(self).state == EcnState::Testing ==> old(self).packets_sent < u32::MAX,
        ensures
            *final(self) == (if old(self).state == EcnState::Testing {
                EcnValidation {
                    packets_sent: (old(self).packets_sent + 1) as u32,
                    last_test_packet: Some(now),
                    ..*old(self)
                }
            } else {
                *old(self)
            }),
    {
        if matches!(self.state, EcnState::Testing) {
            self.packets_sent += 1;
            self.last_test_packet = Some(now);
        }
    }

    /// The validation after a received packet, before it is checked for completion.
    pub open spec fn received(self, ecn: EcnCodepoint) -> EcnValidation {
        if self.state == EcnState::Testing && (ecn == EcnCodepoint::Ect0 || ecn
            == EcnCodepoint::Ect1) {
            EcnValidation {
                ecn_packets_received: (self.ecn_packets_received + 1) as u32,
                ..self
            }
        } else {
            self
        }
    }

    /// Whether a packet can be counted, where it is.
    pub open spec fn can_receive(self, ecn: EcnCodepoint) -> bool {
        self.state == EcnState::Testing && (ecn == EcnCodepoint::Ect0 || ecn == EcnCodepoint::Ect1)
            ==> self.ecn_packets_received < u32::MAX
    }

    /// The validation after it ended.
    pub open spec fn completed(self) -> EcnValidation {
        EcnValidation {
            state: if self.ecn_packets_received >= self.config.min_ecn_packets {
                EcnState::Capable
            } else {
                EcnState::Failed
            },
            ..self
        }
    }

    /// Whether a running validation is over: its time is up, or all test packets are sent.
    pub open spec fn over(self, now: Instant) -> bool {
        &&& self.state == EcnState::Testing
        &&& self.validation_start is Some
        &&& max_int(now.nanos - self.validation_start->Some_0.nanos, 0)
            >= self.config.validation_timeout.nanos || self.packets_sent
            >= self.config.validation_packets
    }

    /// The validation, ended where it is over.
    pub open spec fn checked(self, now: Instant) -> EcnValidation {
        if self.over(now) {
            self.completed()
        } else {
            self
        }
    }

    /// Takes in a received packet
    pub fn on_ecn_packet_received(&mut self, ecn: EcnCodepoint, now: Instant)
        requires
            old(self).can_receive(ecn),
        ensures
            *final(self) == (if old(self).received(ecn) == *old(self) {
                *old(self)
            } else {
                old(self).received(ecn).checked(now)
            }),
    {
        if matches!(self.state, EcnState::Testing) && ecn.is_ect() {
            self.ecn_packets_received += 1;
            self.check_validation_complete(now);
        }
    }

    /// Completes the validation where it is over
    pub fn check_validation_complete(&mut self, now: Instant)
        ensures
            *final(self) == old(self).checked(now),
    {
        if !matches!(self.state, EcnState::Testing) {
            return;
        }
        let validation_elapsed: Duration = if let Some(start) = self.validation_start {
            now.duration_since(start)
        } else {
            return;
        };
        if validation_elapsed.nanos >= self.config.validation_timeout.nanos {
            self.complete_validation();
            return;
        }
        if self.packets_sent >= self.config.validation_packets {
            self.complete_validation();
        }
    }

    /// Ends the validation: the path is capable where enough marked packets came
    pub fn complete_validation(&mut self)
        ensures
            *final(self) == old(self).completed(),
    {
        if self.ecn_packets_received >= self.config.min_ecn_packets {
            self.state = EcnState::Capable;
        } else {
            self.state = EcnState::Failed;
        }
    }

    /// Check if the path was found capable
    pub fn is_capable(&self) -> (r: bool)
        ensures
            r == (self.state == EcnState::Capable),
    {
        matches!(self.state, EcnState::Capable)
    }

    /// Check if the validation failed
    pub fn has_failed(&self) -> (r: bool)
        ensures
            r == (self.state == EcnState::Failed),
    {
        matches!(self.state, EcnState::Failed)
    }
}

/// ECN congestion event information
#[derive(Debug, Clone, Copy, PartialEq, Eq, Structural)]
pub struct EcnCongestionEvent {
    /// Time when congestion was detected
    pub timestamp: Instant,
    /// Number of CE marks that triggered this event
    pub ce_count: u64,
    /// ECN marking rate at time of event
    pub marking_rate: MarkingRate,
    /// Bytes in flight when event occurred
    pub bytes_in_flight: u64,
}

/// The last `n` elements.
pub open spec fn last_of<T>(s: Seq<T>, n: int) -> Seq<T> {
    if s.len() > n {
        s.skip(s.len() - n)
    } else {
        s
    }
}

/// The history without the entries in front that are older than `cutoff`.
pub open spec fn drop_older(s: Seq<(Instant, u64)>, cutoff: int) -> Seq<(Instant, u64)>
    decreases s.len(),
{
    if s.len() > 0 && s[0].0.nanos < cutoff {
        drop_older(s.skip(1), cutoff)
    } else {
        s
    }
}

/// The marks of the events that are not older than `cutoff`.
pub open spec fn recent_marks(s: Seq<EcnCongestionEvent>, cutoff: int) -> int
    decreases s.len(),
{
    if s.len() == 0 {
        0
    } else {
        recent_marks(s.drop_last(), cutoff) + if s.last().timestamp.nanos >= cutoff {
            s.last().ce_count as int
        } else {
            0
        }
    }
}

/// How many entries are not older than `cutoff`.
pub open spec fn recent_entries(s: Seq<(Instant, u64)>, cutoff: int) -> int
    decreases s.len(),
{
    if s.len() == 0 {
        0
    } else {
        recent_entries(s.drop_last(), cutoff) + if s.last().0.nanos >= cutoff {
            1int
        } else {
            0
        }
    }
}

/// Keeps the last `n` elements
fn keep_last<T>(d: &mut VecDeque<T>, n: usize)
    ensures
        final(d)@ == last_of(old(d)@, n as int),
{
    let ghost s = d@;
    let ghost mut k: int = 0;
    assert(s.skip(0) =~= s);
    while d.len() > n
        invariant
            d@ == s.skip(k),
            0 <= k <= s.len(),
            s.len() > n ==> k <= s.len() - n,
            s.len() <= n ==> k == 0,
        decreases d@.len(),
    {
        d.pop_front();
        proof {
            assert(d@ =~= s.skip(k + 1));
            k = k + 1;
        }
    }
}

/// ECN controller for QUIC connections
#[derive(Debug)]
pub struct EcnController {
    /// ECN validation tracker
    pub validation: EcnValidation,
    /// ECN counters for received packets
    pub counters: EcnCounters,
    /// Last reported CE count to congestion control
    pub last_reported_ce: u64,
    /// ECN marking history for rate calculation
    pub marking_history: VecDeque<(Instant, u64)>,
    /// Recent congestion events
    pub congestion_events: VecDeque<EcnCongestionEvent>,
    /// Maximum history size
    pub max_history_size: usize,
    /// Enable ECN usage (can be disabled by application)
    pub enabled: bool,
    /// Conservative ECN reaction (reduce aggressiveness)
    pub conservative_reaction: bool,
}

/// What an ECN controller holds.
#[verifier::ext_equal]
pub struct EcnControllerView {
    pub validation: EcnValidation,
    pub counters: EcnCounters,
    pub last_reported_ce: u64,
    pub marking_history: Seq<(Instant, u64)>,
    pub congestion_events: Seq<EcnCongestionEvent>,
    pub max_history_size: usize,
    pub enabled: bool,
    pub conservative_reaction: bool,
}

impl View for EcnController {
    type V = EcnControllerView;

    open spec fn view(&self) -> EcnControllerView {
        EcnControllerView {
            validation: self.validation,
            counters: self.counters,
            last_reported_ce: self.last_reported_ce,
            marking_history: self.marking_history@,
            congestion_events: self.congestion_events@,
            max_history_size: self.max_history_size,
            enabled: self.enabled,
            conservative_reaction: self.conservative_reaction,
        }
    }
}

impl EcnControllerView {
    /// A controller to which nothing has happened.
    pub open spec fn fresh(config: EcnValidationConfig) -> EcnControllerView {
        EcnControllerView {
            validation: EcnValidation::fresh(config),
            counters: EcnCounters {
                ect0_count: 0,
                ect1_count: 0,
                ce_count: 0,
                total_ect_count: 0,
            },
            last_reported_ce: 0,
            marking_history: Seq::empty(),
            congestion_events: Seq::empty(),
            max_history_size: 100,
            enabled: true,
            conservative_reaction: true,
        }
    }

    /// The marking history with a new entry: at most as many entries as the limit says, and
    /// none in front that is older than 30 seconds.
    pub open spec fn with_history(self, now: Instant) -> EcnControllerView {
        EcnControllerView {
            marking_history: drop_older(
                last_of(
                    self.marking_history.push((now, self.counters.ce_count)),
                    self.max_history_size as int,
                ),
                max_int(now.nanos - 30_000_000_000, 0),
            ),
            ..self
        }
    }

    /// The controller after a periodic update: a validation whose time is up has failed.
    pub open spec fn refreshed(self, now: Instant) -> EcnControllerView {
        let next = self.with_history(now);
        let v = next.validation;
        let timed_out = v.state == EcnState::Testing && v.validation_start is Some && max_int(
            now.nanos - v.validation_start->Some_0.nanos,
            0,
        ) > v.config.validation_timeout.nanos;
        EcnControllerView {
            validation: EcnValidation {
                state: if timed_out {
                    EcnState::Failed
                } else {
                    v.state
                },
                ..v
            },
            ..next
        }
    }

    /// The statistics.
    pub open spec fn summary(self) -> EcnStats {
        EcnStats {
            state: self.validation.state,
            enabled: self.enabled,
            counters: self.counters,
            marking_rate: MarkingRate {
                marked: self.counters.ce_count,
                total: self.counters.total_ect_count,
            },
            validation_packets_sent: self.validation.packets_sent,
            congestion_events: self.congestion_events.len() as u64,
            total_marks: self.counters.ce_count,
        }
    }

    /// Whether ECN is in use.
    pub open spec fn capable(self) -> bool {
        self.enabled && self.validation.state == EcnState::Capable
    }

    /// The event that the marks since the last report make.
    pub open spec fn new_event(self, bytes_in_flight: u64, now: Instant) -> EcnCongestionEvent {
        EcnCongestionEvent {
            timestamp: now,
            ce_count: (self.counters.ce_count - self.last_reported_ce) as u64,
            marking_rate: MarkingRate {
                marked: self.counters.ce_count,
                total: self.counters.total_ect_count,
            },
            bytes_in_flight,
        }
    }
}

/// ECN statistics
#[derive(Debug, Clone, Copy, PartialEq, Eq, Structural)]
pub struct EcnStats {
    /// Current ECN validation state
    pub state: EcnState,
    /// ECN enabled flag
    pub enabled: bool,
    /// ECN counters
    pub counters: EcnCounters,
    /// Current marking rate
    pub marking_rate: MarkingRate,
    /// Validation packets sent
    pub validation_packets_sent: u32,
    /// Total congestion events detected
    pub congestion_events: u64,
    /// Total ECN marks
    pub total_marks: u64,
}

impl Default for EcnController {
    fn default() -> (r: EcnController)
        ensures
            r@ == EcnControllerView::fresh(EcnValidationConfig::standard()),
    {
        Self::new()
    }
}

impl EcnController {
    /// Create a new ECN controller
    pub fn new() -> (r: EcnController)
        ensures
            r@ == EcnControllerView::fresh(EcnValidationConfig::standard()),
    {
        Self::with_config(EcnValidationConfig::default())
    }

    /// Create ECN controller with custom configuration
    pub fn with_config(config: EcnValidationConfig) -> (r: EcnController)
        ensures
            r@ == EcnControllerView::fresh(config),
    {
        EcnController {
            validation: EcnValidation::new(config),
            counters: EcnCounters::default(),
            last_reported_ce: 0,
            marking_history: VecDeque::new(),
            congestion_events: VecDeque::new(),
            max_history_size: 100,
            enabled: true,
            conservative_reaction: true,
        }
    }

    /// Enable or disable ECN usage
    pub fn set_enabled(&mut self, enabled: bool)
        ensures
            final(self)@ == (EcnControllerView { enabled, ..old(self)@ }),
    {
        self.enabled = enabled;
    }

    /// Check if ECN is enabled and validated
    pub fn is_ecn_capable(&self) -> (r: bool)
        ensures
            r == self@.capable(),
    {
        self.enabled && self.validation.is_capable()
    }

    /// Check if ECN validation has failed
    pub fn has_validation_failed(&self) -> (r: bool)
        ensures
            r == (self@.validation.state == EcnState::Failed),
    {
        self.validation.has_failed()
    }

    /// Get ECN codepoint to use for outgoing packets. The first packet starts the validation;
    /// while it runs, test packets are marked
    pub fn outgoing_ecn_codepoint(&mut self, now: Instant) -> (r: EcnCodepoint)
        ensures
            ({
                let v = old(self)@.validation;
                let due = v.test_due(now);
                &&& r == (if old(self)@.enabled && (v.state == EcnState::Unknown || v.state
                    == EcnState::Capable || due) {
                    EcnCodepoint::Ect0
                } else {
                    EcnCodepoint::NotEct
                })
                &&& final(self)@ == (EcnControllerView {
                    validation: if !old(self)@.enabled {
                        v
                    } else if due {
                        EcnValidation {
                            packets_sent: (v.packets_sent + 1) as u32,
                            last_test_packet: Some(now),
                            ..v
                        }
                    } else {
                        v.started(now)
                    },
                    ..old(self)@
                })
            }),
            r == EcnCodepoint::Ect0 || r == EcnCodepoint::NotEct,
            !old(self)@.enabled || old(self)@.validation.state == EcnState::Failed ==> r
                == EcnCodepoint::NotEct,
            old(self)@.capable() ==> r == EcnCodepoint::Ect0,
    {
        if !self.enabled {
            return EcnCodepoint::NotEct;
        }
        match self.validation.state {
            EcnState::Unknown => {
                self.validation.start_validation(now);
                EcnCodepoint::Ect0
            },
            EcnState::Testing => {
                if self.validation.should_send_test_packet(now) {
                    self.validation.on_test_packet_sent(now);
                    EcnCodepoint::Ect0
                } else {
                    EcnCodepoint::NotEct
                }
            },
            EcnState::Capable => EcnCodepoint::Ect0,
            EcnState::Failed => EcnCodepoint::NotEct,
        }
    }

    /// Process received packet with ECN marking
    pub fn on_packet_received(&mut self, ecn: EcnCodepoint, now: Instant)
        requires
            old(self)@.enabled ==> old(self)@.counters.can_count(ecn)
                && old(self)@.validation.can_receive(ecn),
        ensures
            !old(self)@.enabled ==> final(self)@ == old(self)@,
            old(self)@.enabled ==> final(self)@ == ({
                let next = EcnControllerView {
                    counters: old(self)@.counters.counted(ecn),
                    validation: old(self)@.validation.received(ecn).checked(now),
                    ..old(self)@
                };
                if ecn == EcnCodepoint::Ce {
                    next.with_history(now)
                } else {
                    next
                }
            }),
    {
        if !self.enabled {
            return;
        }
        self.counters.update(ecn);
        self.validation.on_ecn_packet_received(ecn, now);
        self.validation.check_validation_complete(now);
        if ecn.is_ce() {
            self.update_marking_history(now);
        }
    }

    /// Check for new congestion events and return them. Marks that came since the last report
    /// make one event
    pub fn check_congestion_events(&mut self, bytes_in_flight: u64, now: Instant) -> (r: Vec<
        EcnCongestionEvent,
    >)
        ensures
            ({
                let o = old(self)@;
                let event = o.new_event(bytes_in_flight, now);
                if o.capable() && o.counters.ce_count > o.last_reported_ce {
                    &&& r@ == seq![event]
                    &&& final(self)@ == (EcnControllerView {
                        last_reported_ce: o.counters.ce_count,
                        congestion_events: last_of(
                            o.congestion_events.push(event),
                            o.max_history_size as int,
                        ),
                        ..o
                    })
                } else {
                    &&& r@ == Seq::<EcnCongestionEvent>::empty()
                    &&& final(self)@ == o
                }
            }),
            r@.len() > 0 ==> old(self)@.last_reported_ce + r@[0].ce_count == old(
                self,
            )@.counters.ce_count,
            old(self)@.capable() && old(self)@.last_reported_ce <= old(self)@.counters.ce_count
                ==> final(self)@.last_reported_ce == old(self)@.counters.ce_count,
    {
        if !self.is_ecn_capable() {
            return Vec::new();
        }
        let mut events: Vec<EcnCongestionEvent> = Vec::new();
        let current_ce: u64 = self.counters.ce_count;
        if current_ce > self.last_reported_ce {
            let new_ce_marks: u64 = current_ce - self.last_reported_ce;
            let event: EcnCongestionEvent = EcnCongestionEvent {
                timestamp: now,
                ce_count: new_ce_marks,
                marking_rate: self.counters.marking_rate(),
                bytes_in_flight,
            };
            events.push(event);
            self.congestion_events.push_back(event);
            self.last_reported_ce = current_ce;
            keep_last(&mut self.congestion_events, self.max_history_size);
            assert(events@ =~= seq![event]);
        }
        events
    }

    /// Get current ECN statistics
    pub fn stats(&self) -> (r: EcnStats)
        ensures
            r == self@.summary(),
    {
        EcnStats {
            state: self.validation.state,
            enabled: self.enabled,
            counters: self.counters,
            marking_rate: self.counters.marking_rate(),
            validation_packets_sent: self.validation.packets_sent,
            congestion_events: self.congestion_events.len() as u64,
            total_marks: self.counters.total_marks(),
        }
    }

    /// Reset ECN state (for connection migration, etc.)
    pub fn reset(&mut self)
        ensures
            final(self)@ == (EcnControllerView {
                max_history_size: old(self)@.max_history_size,
                enabled: old(self)@.enabled,
                conservative_reaction: old(self)@.conservative_reaction,
                ..EcnControllerView::fresh(old(self)@.validation.config)
            }),
    {
        self.validation = EcnValidation::new(self.validation.config);
        self.counters = EcnCounters::default();
        self.last_reported_ce = 0;
        self.marking_history.clear();
        self.congestion_events.clear();
    }

    /// Get recent congestion event rate: the marks of the events in the window, for each
    /// entry of the marking history in it
    pub fn recent_congestion_rate(&self, window: Duration, now: Instant) -> (r: MarkingRate)
        requires
            recent_marks(self@.congestion_events, max_int(now.nanos - window.nanos, 0)) <= u64::MAX,
        ensures
            ({
                let cutoff = max_int(now.nanos - window.nanos, 0);
                &&& r.marked == recent_marks(self@.congestion_events, cutoff)
                &&& r.total == recent_entries(self@.marking_history, cutoff)
            }),
    {
        let cutoff: Instant = now.saturating_sub(window);
        let ghost c = cutoff.nanos as int;
        let ghost events = self@.congestion_events;
        let ghost history = self@.marking_history;
        let mut recent_events: u64 = 0;
        let mut i: usize = 0;
        assert(events.take(0) =~= Seq::<EcnCongestionEvent>::empty());
        while i < self.congestion_events.len()
            invariant
                i <= events.len(),
                events == self@.congestion_events,
                c == cutoff.nanos,
                recent_marks(events, c) <= u64::MAX,
                recent_events == recent_marks(events.take(i as int), c),
            decreases events.len() - i,
        {
            proof {
                assert(events.take(i + 1).drop_last() =~= events.take(i as int));
                lemma_fewer_marks(events, i + 1, c);
            }
            if self.congestion_events[i].timestamp.nanos >= cutoff.nanos {
                recent_events += self.congestion_events[i].ce_count;
            }
            i += 1;
        }
        assert(events.take(i as int) =~= events);
        let mut total_recent_packets: u64 = 0;
        let mut j: usize = 0;
        assert(history.take(0) =~= Seq::<(Instant, u64)>::empty());
        while j < self.marking_history.len()
            invariant
                j <= history.len(),
                history == self@.marking_history,
                c == cutoff.nanos,
                total_recent_packets == recent_entries(history.take(j as int), c),
                total_recent_packets <= j,
            decreases history.len() - j,
        {
            proof {
                assert(history.take(j + 1).drop_last() =~= history.take(j as int));
            }
            if self.marking_history[j].0.nanos >= cutoff.nanos {
                total_recent_packets += 1;
            }
            j += 1;
        }
        assert(history.take(j as int) =~= history);
        MarkingRate { marked: recent_events, total: total_recent_packets }
    }

    /// Check if ECN reaction should be conservative
    pub fn should_react_conservatively(&self) -> (r: bool)
        ensures
            r == self@.conservative_reaction,
    {
        self.conservative_reaction
    }

    /// Adds an entry to the marking history
    fn update_marking_history(&mut self, now: Instant)
        ensures
            final(self)@ == old(self)@.with_history(now),
    {
        self.marking_history.push_back((now, self.counters.ce_count));
        keep_last(&mut self.marking_history, self.max_history_size);
        let cutoff: Instant = now.saturating_sub(Duration::from_secs(30));
        let ghost c = cutoff.nanos as int;
        let ghost whole = self.marking_history@;
        while self.marking_history.len() > 0 && self.marking_history[0].0.nanos < cutoff.nanos
            invariant
                c == cutoff.nanos,
                drop_older(self.marking_history@, c) == drop_older(whole, c),
                self@ == (EcnControllerView {
                    marking_history: self.marking_history@,
                    ..old(self)@
                }),
            decreases self.marking_history@.len(),
        {
            let ghost before = self.marking_history@;
            self.marking_history.pop_front();
            assert(self.marking_history@ =~= before.skip(1));
        }
    }

    /// Handle ACK received event: an acknowledgment leaves the ECN state as it is
    pub fn on_ack_received(&mut self, _bytes_acked: u64, _rtt: Duration)
        ensures
            *final(self) == *old(self),
    {
    }

    /// Handle packet loss event: a loss leaves the ECN state as it is
    pub fn on_packet_lost(&mut self, _lost_bytes: u64)
        ensures
            *final(self) == *old(self),
    {
    }

    /// Handle a congestion event: it was counted when it was found, so nothing changes here
    pub fn on_congestion_event(&mut self, _event: EcnCongestionEvent)
        ensures
            *final(self) == *old(self),
    {
    }

    /// Update ECN controller state
    pub fn update(&mut self, now: Instant)
        ensures
            final(self)@ == old(self)@.refreshed(now),
    {
        self.update_marking_history(now);
        if matches!(self.validation.state, EcnState::Testing) {
            if let Some(start_time) = self.validation.validation_start {
                if now.duration_since(start_time).nanos
                    > self.validation.config.validation_timeout.nanos {
                    self.validation.state = EcnState::Failed;
                }
            }
        }
    }

    /// Get total ECN marks
    pub fn total_marks(&self) -> (r: u64)
        ensures
            r == self@.counters.ce_count,
    {
        self.counters.total_marks()
    }
}

/// Fewer events, or a later cutoff, make no more marks.
proof fn lemma_fewer_marks(s: Seq<EcnCongestionEvent>, n: int, cutoff: int)
    requires
        0 <= n <= s.len(),
    ensures
        0 <= recent_marks(s.take(n), cutoff) <= recent_marks(s, cutoff),
    decreases s.len(),
{
    if s.len() > 0 {
        if n == s.len() {
            assert(s.take(n) =~= s);
            lemma_fewer_marks(s.drop_last(), n - 1, cutoff);
            assert(s.drop_last().take(n - 1) =~= s.drop_last());
        } else {
            lemma_fewer_marks(s.drop_last(), n, cutoff);
            assert(s.drop_last().take(n) =~= s.take(n));
        }
    } else {
        assert(s.take(n) =~= s);
    }
}

/// Every mark is reported once: after a check, nothing is left to report until a packet with
/// a mark comes.
pub proof fn marks_reported_once(before: EcnControllerView, after: EcnControllerView)
    requires
        before.capable(),
        before.last_reported_ce <= before.counters.ce_count,
        after == (EcnControllerView {
            last_reported_ce: before.counters.ce_count,
            congestion_events: after.congestion_events,
            ..before
        }),
    ensures
        !(after.capable() && after.counters.ce_count > after.last_reported_ce),
        forall|ecn: EcnCodepoint|
            ecn != EcnCodepoint::Ce ==> (#[trigger] after.counters.counted(ecn)).ce_count
                == after.last_reported_ce,
{
}

} // verus!
