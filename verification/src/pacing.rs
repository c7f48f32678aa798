//! Packet pacing to smooth transmission and prevent traffic bursts.
//!
//! The token bucket counts in fractions of a token, and stands beside the controller. The
//! controller is told what the bucket says: whether it holds enough tokens for a packet, how
//! long it takes until it does, and the smoothed values of the rate and of the round-trip
//! time.

use crate::time::{max_int, min_int, Duration, Instant};
use vstd::prelude::*;

verus! {

/// Pacing configuration parameters
#[derive(Debug, Clone, Copy, PartialEq, Eq, Structural)]
pub struct PacingConfig {
    /// Minimum pacing rate (bytes per second)
    pub min_pacing_rate: u64,
    /// Maximum pacing rate (bytes per second)
    pub max_pacing_rate: u64,
    /// Initial burst allowance in packets
    pub initial_burst: u32,
    /// Maximum burst size in packets
    pub max_burst: u32,
    /// Minimum interval between packet sends
    pub min_send_interval: Duration,
    /// Enable burst allowance during app-limited periods
    pub enable_burst_allowance: bool,
}

impl PacingConfig {
    /// The configuration that is used where none is given.
    pub open spec fn standard() -> PacingConfig {
        PacingConfig {
            min_pacing_rate: 64000,
            max_pacing_rate: 10_000_000_000,
            initial_burst: 10,
            max_burst: 64,
            min_send_interval: Duration { nanos: 100_000 },
            enable_burst_allowance: true,
        }
    }

    /// A rate within the configured bounds.
    pub open spec fn clamped(self, rate: u64) -> u64 {
        max_int(
            self.min_pacing_rate as int,
            min_int(rate as int, self.max_pacing_rate as int),
        ) as u64
    }
}

impl Default for PacingConfig {
    fn default() -> (r: PacingConfig)
        ensures
            r == Self::standard(),
    {
        PacingConfig {
            min_pacing_rate: 64000,
            max_pacing_rate: 10_000_000_000,
            initial_burst: 10,
            max_burst: 64,
            min_send_interval: Duration::from_micros(100),
            enable_burst_allowance: true,
        }
    }
}

/// Packet pacing state
#[derive(Debug, Clone, Copy, PartialEq, Eq, Structural)]
pub enum PacingState {
    /// Normal pacing active
    Active,
    /// Application-limited, no pacing needed
    AppLimited,
    /// Burst mode allowed
    Burst,
    /// Pacing disabled
    Disabled,
}

/// Packet pacing controller
#[derive(Debug, Clone, Copy, PartialEq, Eq, Structural)]
pub struct PacingController {
    /// Configuration
    pub config: PacingConfig,
    /// Current pacing state
    pub state: PacingState,
    /// Current pacing rate (bytes per second)
    pub pacing_rate: u64,
    /// Target pacing rate (for smooth transitions)
    pub target_pacing_rate: u64,
    /// Current burst allowance (in packets)
    pub burst_allowance: u32,
    /// Time of last packet send
    pub last_send_time: Instant,
    /// Packets sent
    pub packets_sent: u64,
    /// Bytes sent
    pub bytes_sent: u64,
    /// Packets that were delayed
    pub packets_delayed: u64,
    /// Delay of all packets
    pub total_delay: Duration,
    /// App-limited tracking
    pub app_limited_start: Option<Instant>,
    /// Smoothed RTT for pacing calculations
    pub smoothed_rtt: Duration,
}

/// Pacing statistics
#[derive(Debug, Clone, Copy, PartialEq, Eq, Structural)]
pub struct PacingStats {
    /// Current pacing state
    pub state: PacingState,
    /// Current pacing rate (bytes per second)
    pub pacing_rate: u64,
    /// Target pacing rate (bytes per second)
    pub target_pacing_rate: u64,
    /// Current burst allowance
    pub burst_allowance: u32,
    /// Total packets sent
    pub packets_sent: u64,
    /// Total bytes sent
    pub bytes_sent: u64,
    /// Packets that were delayed by pacing
    pub packets_delayed: u64,
    /// Average pacing delay
    pub average_delay: Duration,
}

/// The distance between the numbers that double precision has next to a number.
pub open spec fn spacing(n: int) -> int
    decreases n,
{
    if n < 0x20_0000_0000_0000 {
        1
    } else {
        2 * spacing(n / 2)
    }
}

/// The number of double precision that is nearest to a number, the even one of two.
pub open spec fn nearest(n: int) -> int {
    let u = spacing(n);
    if 2 * (n % u) > u || (2 * (n % u) == u && (n / u) % 2 == 1) {
        (n / u + 1) * u
    } else {
        n / u * u
    }
}

/// The mean of a smoothed RTT and a sample, with the weights 7/8 and 1/8: it is taken in double
/// precision, and fits 64 bits of nanoseconds.
pub open spec fn averaged(smoothed: Duration, rtt: Duration) -> Duration {
    if smoothed.nanos >= 0x1_00_0000_0000_0000_0000 || rtt.nanos >= 0x1_00_0000_0000_0000_0000 {
        Duration { nanos: u64::MAX as u128 }
    } else {
        let weighted = nearest(7 * nearest(smoothed.nanos as int));
        let eighths = nearest(weighted + nearest(rtt.nanos as int));
        Duration { nanos: min_int(eighths / 8, u64::MAX as int) as u128 }
    }
}

/// The number of double precision that is nearest to a number
fn nearest_double(n: u128) -> (r: u128)
    requires
        n < 0x1_0000_0000_0000_0000_0000_0000,
    ensures
        r == nearest(n as int),
        r <= 2 * n,
{
    let mut u: u128 = 1;
    let mut m: u128 = n;
    while m >= 0x20_0000_0000_0000
        invariant
            n < 0x1_0000_0000_0000_0000_0000_0000,
            u >= 1,
            u * m <= n,
            u <= n || u == 1,
            spacing(n as int) == u * spacing(m as int),
        decreases m,
    {
        proof {
            let (x, y, h) = (u as int, m as int, (m / 2) as int);
            assert(2 * x * h <= x * y && 2 * x <= x * y) by (nonlinear_arith)
                requires
                    x >= 1,
                    y >= 2,
                    2 * h <= y,
            ;
            let s = spacing(h);
            assert(x * (2 * s) == 2 * x * s) by (nonlinear_arith);
        }
        u = 2 * u;
        m = m / 2;
    }
    let (q, rest): (u128, u128) = (n / u, n % u);
    proof {
        assert(spacing(n as int) == u) by {
            assert(u * 1 == u);
        }
        vstd::arithmetic::div_mod::lemma_fundamental_div_mod(n as int, u as int);
        let (x, y) = (u as int, q as int);
        assert((y + 1) * x == x * y + x && y * x == x * y && x * y >= 0) by (nonlinear_arith)
            requires
                x >= 1,
                y >= 0,
        ;
    }
    if 2 * rest > u || (2 * rest == u && q % 2 == 1) {
        (q + 1) * u
    } else {
        q * u
    }
}

/// Up to 2^53, double precision has every number: the mean is the exact one, rounded down.
pub proof fn averages_are_exact(smoothed: Duration, rtt: Duration)
    requires
        smoothed.nanos < 0x2_0000_0000_0000,
        rtt.nanos < 0x2_0000_0000_0000,
    ensures
        averaged(smoothed, rtt).nanos == (7 * smoothed.nanos + rtt.nanos) / 8,
{
    assert(nearest(smoothed.nanos as int) == smoothed.nanos);
    assert(nearest(rtt.nanos as int) == rtt.nanos);
    assert(nearest(7 * smoothed.nanos) == 7 * smoothed.nanos);
    assert(nearest(7 * smoothed.nanos + rtt.nanos) == 7 * smoothed.nanos + rtt.nanos);
}

impl PacingController {
    /// A controller to which nothing has happened.
    pub open spec fn fresh(config: PacingConfig, now: Instant) -> PacingController {
        PacingController {
            config,
            state: PacingState::Active,
            pacing_rate: config.min_pacing_rate,
            target_pacing_rate: config.min_pacing_rate,
            burst_allowance: config.initial_burst,
            last_send_time: now,
            packets_sent: 0,
            bytes_sent: 0,
            packets_delayed: 0,
            total_delay: Duration { nanos: 0 },
            app_limited_start: None,
            smoothed_rtt: Duration { nanos: 100_000_000 },
        }
    }

    /// Create a new pacing controller
    pub fn new(config: PacingConfig, now: Instant) -> (r: PacingController)
        ensures
            r == Self::fresh(config, now),
    {
        PacingController {
            config,
            state: PacingState::Active,
            pacing_rate: config.min_pacing_rate,
            target_pacing_rate: config.min_pacing_rate,
            burst_allowance: config.initial_burst,
            last_send_time: now,
            packets_sent: 0,
            bytes_sent: 0,
            packets_delayed: 0,
            total_delay: Duration::from_nanos(0),
            app_limited_start: None,
            smoothed_rtt: Duration::from_millis(100),
        }
    }

    /// Create pacing controller with custom configuration
    pub fn with_config(config: PacingConfig, now: Instant) -> (r: PacingController)
        ensures
            r == Self::fresh(config, now),
    {
        Self::new(config, now)
    }

    /// A rate within the configured bounds, to which the current rate moves
    pub fn clamp_rate(&self, new_rate: u64) -> (r: u64)
        ensures
            r == self.config.clamped(new_rate),
    {
        let upper: u64 = if new_rate <= self.config.max_pacing_rate {
            new_rate
        } else {
            self.config.max_pacing_rate
        };
        if self.config.min_pacing_rate >= upper {
            self.config.min_pacing_rate
        } else {
            upper
        }
    }

    /// The controller once a new rate is asked for: it aims at that rate within the bounds,
    /// and moves to the smoothed rate where there is a current one.
    pub open spec fn with_rate(self, new_rate: u64, smoothed: u64) -> PacingController {
        PacingController {
            target_pacing_rate: self.config.clamped(new_rate),
            pacing_rate: if self.pacing_rate > 0 {
                smoothed
            } else {
                self.config.clamped(new_rate)
            },
            ..self
        }
    }

    /// Update pacing rate based on congestion control feedback. `smoothed` is the mix of the
    /// current rate and of the new one within its bounds; it counts where there is a current
    /// rate
    pub fn update_pacing_rate(&mut self, new_rate: u64, smoothed: u64)
        ensures
            *final(self) == old(self).with_rate(new_rate, smoothed),
    {
        let clamped_rate: u64 = self.clamp_rate(new_rate);
        let smoothed_rate: u64 = if self.pacing_rate > 0 {
            smoothed
        } else {
            clamped_rate
        };
        self.target_pacing_rate = clamped_rate;
        self.pacing_rate = smoothed_rate;
    }

    /// The rate to move to after a loss, where `reduced` is the current rate less a tenth
    pub fn rate_after_loss(&self, reduced: u64) -> (r: u64)
        ensures
            r == max_int(reduced as int, self.config.min_pacing_rate as int),
    {
        if reduced >= self.config.min_pacing_rate {
            reduced
        } else {
            self.config.min_pacing_rate
        }
    }

    /// The controller with an RTT sample.
    pub open spec fn with_rtt(self, rtt: Duration) -> PacingController {
        PacingController { smoothed_rtt: averaged(self.smoothed_rtt, rtt), ..self }
    }

    /// Update smoothed RTT for pacing calculations, by an exponential moving average
    pub fn update_rtt(&mut self, rtt: Duration)
        ensures
            *final(self) == old(self).with_rtt(rtt),
    {
        let (old_nanos, nanos): (u128, u128) = (self.smoothed_rtt.nanos, rtt.nanos);
        if old_nanos >= 0x1_00_0000_0000_0000_0000 || nanos >= 0x1_00_0000_0000_0000_0000 {
            self.smoothed_rtt = Duration { nanos: u64::MAX as u128 };
            return;
        }
        let weighted: u128 = nearest_double(7 * nearest_double(old_nanos));
        let eighths: u128 = nearest_double(weighted + nearest_double(nanos));
        let mean: u128 = eighths / 8;
        self.smoothed_rtt = Duration {
            nanos: if mean <= u64::MAX as u128 {
                mean
            } else {
                u64::MAX as u128
            },
        };
    }

    /// Handle ACK received
    pub fn on_ack_received(&mut self, _bytes_acked: u64, rtt: Duration)
        ensures
            *final(self) == old(self).with_rtt(rtt),
    {
        self.update_rtt(rtt);
    }

    /// Handle packet loss: `reduced` is the current rate less a tenth, and `smoothed` the
    /// current rate smoothed toward what is then asked for
    pub fn on_packet_lost(&mut self, _lost_bytes: u64, reduced: u64, smoothed: u64)
        ensures
            *final(self) == old(self).with_rate(
                max_int(reduced as int, old(self).config.min_pacing_rate as int) as u64,
                smoothed,
            ),
    {
        let new_rate: u64 = self.rate_after_loss(reduced);
        self.update_pacing_rate(new_rate, smoothed);
    }

    /// Whether a packet can be sent: without pacing always, in a burst while the allowance
    /// lasts, else where there are enough tokens.
    pub open spec fn may_send(self, enough_tokens: bool) -> bool {
        match self.state {
            PacingState::Disabled | PacingState::AppLimited => true,
            PacingState::Burst => self.burst_allowance > 0 || enough_tokens,
            PacingState::Active => enough_tokens,
        }
    }

    /// The controller after a check: a burst ends with its allowance.
    pub open spec fn after_check(self) -> PacingController {
        if self.state == PacingState::Burst && self.burst_allowance == 0 {
            PacingController { state: PacingState::Active, ..self }
        } else {
            self
        }
    }

    /// Check if a packet can be sent immediately
    pub fn can_send(&mut self, enough_tokens: bool) -> (r: bool)
        ensures
            r == old(self).may_send(enough_tokens),
            *final(self) == old(self).after_check(),
    {
        match self.state {
            PacingState::Disabled | PacingState::AppLimited => true,
            PacingState::Burst => {
                if self.burst_allowance > 0 {
                    true
                } else {
                    self.state = PacingState::Active;
                    enough_tokens
                }
            },
            PacingState::Active => enough_tokens,
        }
    }

    /// Get the delay required before sending, where the tokens take `token_delay`
    pub fn send_delay(&mut self, token_delay: Duration, now: Instant) -> (r: Duration)
        ensures
            r == (if old(self).state == PacingState::Disabled || old(self).state
                == PacingState::AppLimited || (old(self).state == PacingState::Burst && old(
                self,
            ).burst_allowance > 0) {
                Duration { nanos: 0 }
            } else {
                old(self).paced_delay(token_delay, now)
            }),
            *final(self) == old(self).after_check(),
            old(self).may_send(false) ==> r.nanos == 0,
            !old(self).may_send(false) ==> r.nanos >= token_delay.nanos,
    {
        match self.state {
            PacingState::Disabled | PacingState::AppLimited => Duration::from_nanos(0),
            PacingState::Burst => {
                if self.burst_allowance > 0 {
                    Duration::from_nanos(0)
                } else {
                    self.state = PacingState::Active;
                    self.calculate_pacing_delay(token_delay, now)
                }
            },
            PacingState::Active => self.calculate_pacing_delay(token_delay, now),
        }
    }

    /// The delay for a paced packet: until there are enough tokens, and until the minimum
    /// interval since the last packet has passed.
    pub open spec fn paced_delay(self, token_delay: Duration, now: Instant) -> Duration {
        let since_last = max_int(now.nanos - self.last_send_time.nanos, 0);
        Duration {
            nanos: max_int(
                token_delay.nanos as int,
                self.config.min_send_interval.nanos - since_last,
            ) as u128,
        }
    }

    /// Calculate required pacing delay
    pub fn calculate_pacing_delay(&self, token_delay: Duration, now: Instant) -> (r: Duration)
        ensures
            r == self.paced_delay(token_delay, now),
    {
        let time_since_last: Duration = now.duration_since(self.last_send_time);
        let min_delay: Duration = self.config.min_send_interval;
        if time_since_last.nanos < min_delay.nanos {
            token_delay.longer(min_delay.saturating_sub(time_since_last))
        } else {
            token_delay
        }
    }

    /// The controller after a packet was sent.
    pub open spec fn after_sending(self, packet_size: usize, now: Instant) -> PacingController {
        PacingController {
            burst_allowance: if self.state == PacingState::Burst && self.burst_allowance > 0 {
                (self.burst_allowance - 1) as u32
            } else {
                self.burst_allowance
            },
            packets_sent: (self.packets_sent + 1) as u64,
            bytes_sent: (self.bytes_sent + packet_size) as u64,
            last_send_time: now,
            state: if self.state == PacingState::AppLimited {
                PacingState::Active
            } else {
                self.state
            },
            app_limited_start: if self.state == PacingState::AppLimited {
                None
            } else {
                self.app_limited_start
            },
            ..self
        }
    }

    /// Record a packet send
    pub fn on_packet_sent(&mut self, packet_size: usize, now: Instant)
        requires
            old(self).packets_sent < u64::MAX,
            old(self).bytes_sent + packet_size <= u64::MAX,
        ensures
            *final(self) == old(self).after_sending(packet_size, now),
    {
        match self.state {
            PacingState::Burst => {
                if self.burst_allowance > 0 {
                    self.burst_allowance -= 1;
                }
            },
            _ => {},
        }
        self.packets_sent += 1;
        self.bytes_sent += packet_size as u64;
        self.last_send_time = now;
        if matches!(self.state, PacingState::AppLimited) {
            self.state = PacingState::Active;
            self.app_limited_start = None;
        }
    }

    /// The controller after a congestion event.
    pub open spec fn congested(self) -> PacingController {
        PacingController {
            burst_allowance: max_int(1, (self.burst_allowance / 2) as int) as u32,
            state: if self.state == PacingState::Burst {
                PacingState::Active
            } else {
                self.state
            },
            ..self
        }
    }

    /// Handle congestion event: the burst allowance is halved, and a burst ends
    pub fn on_congestion_event(&mut self)
        ensures
            *final(self) == old(self).congested(),
    {
        let half: u32 = self.burst_allowance / 2;
        self.burst_allowance = if half > 1 {
            half
        } else {
            1
        };
        if matches!(self.state, PacingState::Burst) {
            self.state = PacingState::Active;
        }
    }

    /// The burst allowance with what was accumulated, up to the maximum.
    pub open spec fn accumulated_burst(self, accumulated: u32) -> u32 {
        if self.burst_allowance < self.config.max_burst {
            min_int(
                self.config.max_burst as int,
                self.burst_allowance + accumulated,
            ) as u32
        } else {
            self.burst_allowance
        }
    }

    /// The controller in an app-limited period.
    pub open spec fn app_limited(self, now: Instant, accumulated: u32) -> PacingController {
        if self.state == PacingState::AppLimited {
            self
        } else {
            PacingController {
                state: PacingState::AppLimited,
                app_limited_start: Some(now),
                burst_allowance: if self.config.enable_burst_allowance {
                    self.accumulated_burst(accumulated)
                } else {
                    self.burst_allowance
                },
                ..self
            }
        }
    }

    /// Signal that application is limiting sends. `accumulated` is the burst that a
    /// round-trip time brings at the accumulation rate
    pub fn set_app_limited(&mut self, now: Instant, accumulated: u32)
        ensures
            *final(self) == old(self).app_limited(now, accumulated),
    {
        if !matches!(self.state, PacingState::AppLimited) {
            self.state = PacingState::AppLimited;
            self.app_limited_start = Some(now);
            if self.config.enable_burst_allowance {
                self.start_burst_accumulation(accumulated);
            }
        }
    }

    /// Start accumulating burst allowance
    fn start_burst_accumulation(&mut self, accumulated: u32)
        ensures
            *final(self) == (PacingController {
                burst_allowance: old(self).accumulated_burst(accumulated),
                ..*old(self)
            }),
    {
        let max_additional: u32 = self.config.max_burst.saturating_sub(self.burst_allowance);
        if max_additional > 0 {
            let additional: u32 = if accumulated < max_additional {
                accumulated
            } else {
                max_additional
            };
            self.burst_allowance = self.burst_allowance + additional;
        }
    }

    /// Check if should enter burst mode
    pub fn should_enter_burst(&self) -> (r: bool)
        ensures
            r == (self.burst_allowance > self.config.initial_burst && self.state
                == PacingState::AppLimited),
    {
        self.burst_allowance > self.config.initial_burst && matches!(
            self.state,
            PacingState::AppLimited
        )
    }

    /// Enter burst mode
    pub fn enter_burst_mode(&mut self)
        ensures
            *final(self) == (if old(self).burst_allowance > old(self).config.initial_burst && old(
                self,
            ).state == PacingState::AppLimited {
                PacingController { state: PacingState::Burst, ..*old(self) }
            } else {
                *old(self)
            }),
    {
        if self.should_enter_burst() {
            self.state = PacingState::Burst;
        }
    }

    /// Disable pacing (for testing or special scenarios)
    pub fn disable(&mut self)
        ensures
            *final(self) == (PacingController { state: PacingState::Disabled, ..*old(self) }),
    {
        self.state = PacingState::Disabled;
    }

    /// Enable pacing
    pub fn enable(&mut self)
        ensures
            *final(self) == (PacingController { state: PacingState::Active, ..*old(self) }),
    {
        self.state = PacingState::Active;
    }

    /// Get current pacing rate
    pub fn pacing_rate(&self) -> (r: u64)
        ensures
            r == self.pacing_rate,
    {
        self.pacing_rate
    }

    /// Get current state
    pub fn state(&self) -> (r: PacingState)
        ensures
            r == self.state,
    {
        self.state
    }

    /// Whether the delays can be averaged: they are divided by the lower half of their number.
    pub open spec fn can_average(self) -> bool {
        self.packets_delayed > 0 ==> self.packets_delayed % 0x1_0000_0000 > 0
    }

    /// The statistics.
    pub open spec fn summary(self) -> PacingStats {
        PacingStats {
            state: self.state,
            pacing_rate: self.pacing_rate,
            target_pacing_rate: self.target_pacing_rate,
            burst_allowance: self.burst_allowance,
            packets_sent: self.packets_sent,
            bytes_sent: self.bytes_sent,
            packets_delayed: self.packets_delayed,
            average_delay: Duration {
                nanos: if self.packets_delayed > 0 {
                    self.total_delay.nanos / (self.packets_delayed % 0x1_0000_0000) as u128
                } else {
                    0
                },
            },
        }
    }

    /// Get pacing statistics
    pub fn stats(&self) -> (r: PacingStats)
        requires
            self.can_average(),
        ensures
            r == self.summary(),
    {
        PacingStats {
            state: self.state,
            pacing_rate: self.pacing_rate,
            target_pacing_rate: self.target_pacing_rate,
            burst_allowance: self.burst_allowance,
            packets_sent: self.packets_sent,
            bytes_sent: self.bytes_sent,
            packets_delayed: self.packets_delayed,
            average_delay: if self.packets_delayed > 0 {
                Duration {
                    nanos: self.total_delay.nanos / (self.packets_delayed % 0x1_0000_0000) as u128,
                }
            } else {
                Duration::from_nanos(0)
            },
        }
    }

    /// Reset pacing controller. What is known of the round-trip time stays
    pub fn reset(&mut self, now: Instant)
        ensures
            *final(self) == (PacingController {
                smoothed_rtt: old(self).smoothed_rtt,
                ..Self::fresh(old(self).config, now)
            }),
    {
        self.state = PacingState::Active;
        self.pacing_rate = self.config.min_pacing_rate;
        self.target_pacing_rate = self.config.min_pacing_rate;
        self.burst_allowance = self.config.initial_burst;
        self.last_send_time = now;
        self.packets_sent = 0;
        self.bytes_sent = 0;
        self.packets_delayed = 0;
        self.total_delay = Duration::from_nanos(0);
        self.app_limited_start = None;
    }

    /// Check if a packet can be sent immediately, and change nothing
    pub fn can_send_now(&self, enough_tokens: bool) -> (r: bool)
        ensures
            r == self.may_send(enough_tokens),
    {
        let mut temp_self: PacingController = *self;
        temp_self.can_send(enough_tokens)
    }

    /// Get available sending window based on pacing: what ten milliseconds bring at the
    /// current rate
    pub fn available_window(&self, enough_tokens: bool) -> (r: u64)
        ensures
            r == (if self.may_send(enough_tokens) {
                self.pacing_rate / 1000 * 10
            } else {
                0
            }),
            100 * r <= self.pacing_rate,
            self.may_send(enough_tokens) ==> self.pacing_rate < 100 * (r + 10),
    {
        if self.can_send_now(enough_tokens) {
            let rate_per_ms: u64 = self.pacing_rate / 1000;
            rate_per_ms * 10
        } else {
            0
        }
    }

    /// The controller after a periodic update.
    pub open spec fn refreshed(self, now: Instant) -> PacingController {
        if self.app_limited_start is Some && max_int(
            now.nanos - self.app_limited_start->Some_0.nanos,
            0,
        ) > self.smoothed_rtt.nanos * 2 {
            PacingController { app_limited_start: None, state: PacingState::Active, ..self }
        } else {
            self
        }
    }

    /// Update controller state: an app-limited period ends after two round-trip times
    pub fn update(&mut self, now: Instant)
        ensures
            *final(self) == old(self).refreshed(now),
    {
        if let Some(start_time) = self.app_limited_start {
            let limited: u128 = now.duration_since(start_time).nanos;
            let rtt: u128 = self.smoothed_rtt.nanos;
            if limited > rtt && limited - rtt > rtt {
                self.app_limited_start = None;
                self.state = PacingState::Active;
            }
        }
    }

    /// Check if pacing is enabled
    pub fn is_enabled(&self) -> (r: bool)
        ensures
            r == (self.state != PacingState::Disabled),
    {
        !matches!(self.state, PacingState::Disabled)
    }

    /// Enable/disable pacing
    pub fn set_enabled(&mut self, enabled: bool)
        ensures
            *final(self) == (PacingController {
                state: if enabled {
                    PacingState::Active
                } else {
                    PacingState::Disabled
                },
                ..*old(self)
            }),
    {
        self.state = if enabled {
            PacingState::Active
        } else {
            PacingState::Disabled
        };
    }
}

/// A rate is moved into the configured bounds, and one within them stays as it is.
pub proof fn clamped_rate_in_bounds(config: PacingConfig, rate: u64)
    requires
        config.min_pacing_rate <= config.max_pacing_rate,
    ensures
        config.min_pacing_rate <= config.clamped(rate) <= config.max_pacing_rate,
        config.min_pacing_rate <= rate <= config.max_pacing_rate ==> config.clamped(rate) == rate,
        config.clamped(config.clamped(rate)) == config.clamped(rate),
{
}

/// A burst sends as many packets without tokens as its allowance says, and then is over.
pub proof fn burst_is_bounded(c: PacingController, packet_size: usize, now: Instant)
    requires
        c.state == PacingState::Burst,
    ensures
        c.burst_allowance > 0 ==> c.may_send(false) && c.after_sending(
            packet_size,
            now,
        ).burst_allowance == c.burst_allowance - 1,
        c.burst_allowance == 0 ==> !c.may_send(false) && c.after_check().state
            == PacingState::Active,
{
}

} // verus!
