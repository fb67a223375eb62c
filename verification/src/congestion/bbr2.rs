//! BBRv2 congestion control over per-ack rate samples.
//!
//! The connection stamps delivery-rate state into every sent packet
//! (draft-cheng-iccrg-delivery-rate-estimation) and delivers a `RateSample` per ack and a
//! `LossSample` per loss:
//!
//!   * Loss bursts are counted per discrete loss event (`LossSample::new_loss_burst`,
//!     packet-number contiguity), not per ack batch that happened to carry loss.
//!   * `inflight_latest` is the loss-round max of per-ack `delivered`, not the whole round's
//!     delivered volume.
//!   * `bw_probe_wait` is randomized 2..3 s so competing flows' probe cycles desynchronize; a
//!     round bound lets the flow coexist with Reno.
//!   * `adapt_upper_bounds` reads the rate sample's true `tx_in_flight` (in flight at the acked
//!     packet's send), not the batch's lagging post-ack `in_flight`.
//!   * `probe_inflight_hi_upward` is driven by the acked bytes of real delivery samples, and the
//!     per-loss path reacts through `inflight_hi_from_lost_packet`.
//!
//! `window()` clamps to min(cwnd, inflight_hi, inflight_lo) in all modes; there is no headroom cap
//! in the CRUISE phase. ECN does not enter.
//!
//! A state is a value of [`Bbr2`]. Each step is stated as a function from state to state; where a
//! step draws a random wait, that function takes what was drawn as a `ProbeWait`.

pub mod ack_aggregation;
pub mod batch;
pub mod controller;
pub mod inflight;
pub mod laws;
pub mod modes;
pub mod probe_bw;
pub mod random;
pub mod room;
pub mod round_counter;
pub mod scale;
pub mod window;

use crate::congestion::bbr::bw_estimation::{bytes_per_second, rate, rate_fits};
use crate::congestion::bbr2::ack_aggregation::AckAggregationState;
use crate::congestion::bbr2::random::{clone_rng, seed_from_os, share};
use crate::congestion::bbr2::round_counter::RoundCounter;
use crate::congestion::min_max::{MinMax, MinMaxSample};
use crate::congestion::{RateSample, BASE_DATAGRAM_SIZE};
use crate::float::F32;
use crate::ints::saturating_mul;
use crate::time::{Duration, Instant};
use std::sync::Arc;
use vstd::prelude::*;

verus! {

/// 2.885 in single precision: the gain of STARTUP.
pub const K_DEFAULT_HIGH_GAIN: u32 = 0x4038_a3d7;

/// 1 / 2.885 in single precision: the pacing gain of DRAIN.
pub const K_DRAIN_GAIN: u32 = 0x3eb1_783c;

/// 2.0 in single precision: the window gain of PROBE_BW.
pub const K_DERIVED_HIGH_CWNDGAIN: u32 = 0x4000_0000;

/// 1.25 in single precision: the growth per round that STARTUP looks for.
pub const K_STARTUP_GROWTH_TARGET: u32 = 0x3fa0_0000;

pub const K_ROUND_TRIPS_WITHOUT_GROWTH_BEFORE_EXITING_STARTUP: u8 = 3;

pub const K_MAX_INITIAL_CONGESTION_WINDOW: u64 = 200;

pub const PROBE_RTT_BASED_ON_BDP: bool = true;

/// 0.75 in single precision: the window gain of PROBE_RTT.
pub const K_MODERATE_PROBE_RTT_MULTIPLIER: u32 = 0x3f40_0000;

/// Time spent in PROBE_RTT with a drained pipe: 200 ms, in nanoseconds.
pub const K_PROBE_RTT_TIME_NANOS: u128 = 200_000_000;

/// Age at which the minimum round-trip time has to be measured again: 10 s, in nanoseconds.
pub const K_MIN_RTT_EXPIRY_NANOS: u128 = 10_000_000_000;

/// 0.7 in single precision: multiplicative factor for the inflight lower/upper bounds
pub const K_BETA: u32 = 0x3f33_3333;

/// 0.85 in single precision: fraction of inflight_hi to stay under for headroom
pub const K_HEADROOM: u32 = 0x3f59_999a;

/// Loss bursts before reacting in PROBE_BW
pub const K_PROBE_BW_FULL_LOSS_COUNT: u8 = 2;

/// Cap on the inflight_hi growth exponent
pub const K_MAX_BW_PROBE_UP_ROUNDS: u32 = 30;

/// Cap on the reno-coexistence round bound
pub const K_MAX_BW_PROBE_ROUNDS: u8 = 63;

/// 0.9 in single precision: the pacing gain of the DOWN phase.
pub const K_GAIN_DOWN: u32 = 0x3f66_6666;

/// 1.0 in single precision.
pub const K_GAIN_ONE: u32 = 0x3f80_0000;

/// 1.25 in single precision: the pacing gain of the UP phase.
pub const K_GAIN_UP: u32 = 0x3fa0_0000;

/// 0.02 in single precision.
pub const K_DEFAULT_LOSS_THRESH: u32 = 0x3ca3_d70a;

/// 0.3 in single precision.
pub const K_DEFAULT_BETA: u32 = 0x3e99_999a;

/// The four phases of the BBRv2 PROBE_BW cycle.
/// Legal transitions: Up -> Down -> (Cruise ->) Refill -> Up.
#[derive(Debug, Clone, Copy, PartialEq, Eq, Structural)]
pub enum CyclePhase {
    /// Pace below bw (0.9) to drain the queue and leave headroom for others.
    Down,
    /// Hold steady (1.0), staying below inflight_hi with headroom.
    Cruise,
    /// One round at 1.0 to refill the pipe before probing up.
    Refill,
    /// Probe upward (1.25) to look for more bandwidth.
    Up,
}

impl CyclePhase {
    pub open spec fn gain(self) -> F32 {
        match self {
            CyclePhase::Down => F32 { bits: K_GAIN_DOWN },
            CyclePhase::Cruise | CyclePhase::Refill => F32 { bits: K_GAIN_ONE },
            CyclePhase::Up => F32 { bits: K_GAIN_UP },
        }
    }

    /// Pacing gain per phase.
    pub fn pacing_gain(&self) -> (gain: F32)
        ensures
            gain == self.gain(),
    {
        match self {
            CyclePhase::Down => F32 { bits: K_GAIN_DOWN },
            CyclePhase::Cruise | CyclePhase::Refill => F32 { bits: K_GAIN_ONE },
            CyclePhase::Up => F32 { bits: K_GAIN_UP },
        }
    }
}

#[derive(Debug, Clone, Copy, PartialEq, Eq, Structural)]
pub enum Mode {
    /// Startup phase of the connection.
    Startup,
    /// After achieving the highest possible bandwidth during the startup, lower
    /// the pacing rate in order to drain the queue.
    Drain,
    /// Cruising mode.
    ProbeBw,
    /// Temporarily slow down sending in order to empty the buffer and measure
    /// the real minimum RTT.
    ProbeRtt,
}

/// Indicates how the congestion control limits the amount of bytes in flight.
#[derive(Debug, Clone, Copy, PartialEq, Eq, Structural)]
pub enum RecoveryState {
    /// Do not limit.
    NotInRecovery,
    /// Allow an extra outstanding byte for each byte acknowledged.
    Conservation,
    /// Allow two extra outstanding bytes for each byte acknowledged (slow
    /// start).
    Growth,
}

impl RecoveryState {
    pub fn in_recovery(&self) -> (r: bool)
        ensures
            r == (*self != RecoveryState::NotInRecovery),
    {
        !matches!(self, RecoveryState::NotInRecovery)
    }
}

/// Bytes lost since the last ack batch.
#[derive(Debug, Clone, Copy, PartialEq, Eq, Structural)]
pub struct LossState {
    pub lost_bytes: u64,
}

impl LossState {
    pub fn reset(&mut self)
        ensures
            final(self).lost_bytes == 0,
    {
        self.lost_bytes = 0;
    }

    pub fn has_losses(&self) -> (r: bool)
        ensures
            r == (self.lost_bytes != 0),
    {
        self.lost_bytes != 0
    }
}

impl Default for LossState {
    fn default() -> (state: Self)
        ensures
            state.lost_bytes == 0,
    {
        LossState { lost_bytes: 0 }
    }
}

/// The rate of `sample` in bytes/s, none when the interval is empty.
pub open spec fn delivery_rate(sample: RateSample) -> Option<u64> {
    let micros = sample.interval.micros();
    if micros == 0 {
        None
    } else {
        Some(saturating_mul(sample.delivered, 1_000_000) / micros)
    }
}

/// Delivery rate of a sample in bytes/s, `None` when the interval is empty
pub fn sample_delivery_rate(sample: &RateSample) -> (r: Option<u64>)
    ensures
        r == delivery_rate(*sample),
{
    let micros: u64 = sample.interval.low_micros();
    if micros == 0 {
        return None;
    }
    Some(saturating_mul(sample.delivered, 1_000_000) / micros)
}

/// Bytes per second of `bytes` bytes over `delta`, `None` when the span is empty
pub fn bw_from_delta(bytes: u64, delta: Duration) -> (r: Option<u64>)
    requires
        rate_fits(bytes as nat, delta),
    ensures
        r == rate(bytes as nat, delta),
{
    bytes_per_second(bytes, delta)
}

/// Four datagrams
pub fn calculate_min_window(current_mtu: u64) -> (window: u64)
    requires
        4 * current_mtu <= u64::MAX,
    ensures
        window == 4 * current_mtu,
{
    4 * current_mtu
}

/// Configuration for [`Bbr2`]
///
/// `loss_thresh` and `beta` feed the STARTUP/DRAIN `inflight_hi` ceiling and the loss-too-high
/// test. Defaults are the BBRv2 values; [`K_BETA`] and [`K_HEADROOM`] are separate from them.
#[derive(Debug, Clone, Copy, PartialEq, Eq, Structural)]
pub struct Bbr2Config {
    pub initial_window: u64,
    pub loss_thresh: F32,
    pub beta: F32,
}

impl Bbr2Config {
    /// Default limit on the amount of outstanding data in bytes.
    ///
    /// Recommended value: `min(10 * max_datagram_size, max(2 * max_datagram_size, 14720))`
    pub fn initial_window(&mut self, value: u64) -> (config: &mut Self)
        ensures
            *config == (Bbr2Config { initial_window: value, ..*old(self) }),
            *final(self) == *final(config),
    {
        self.initial_window = value;
        self
    }

    /// Loss threshold as a fraction of inflight above which the round is
    /// considered congested
    pub fn loss_thresh(&mut self, value: F32) -> (config: &mut Self)
        ensures
            *config == (Bbr2Config { loss_thresh: value, ..*old(self) }),
            *final(self) == *final(config),
    {
        self.loss_thresh = value;
        self
    }

    /// Multiplicative reduction applied to the STARTUP/DRAIN inflight ceiling
    /// on a congested round
    pub fn beta(&mut self, value: F32) -> (config: &mut Self)
        ensures
            *config == (Bbr2Config { beta: value, ..*old(self) }),
            *final(self) == *final(config),
    {
        self.beta = value;
        self
    }
}

impl Default for Bbr2Config {
    fn default() -> (config: Self)
        ensures
            config.initial_window == 240_000,
            config.loss_thresh == (F32 { bits: K_DEFAULT_LOSS_THRESH }),
            config.loss_thresh.bits == 0x3ca3_d70a,
            config.beta == (F32 { bits: K_DEFAULT_BETA }),
            config.beta.bits == 0x3e99_999a,
    {
        Bbr2Config {
            initial_window: K_MAX_INITIAL_CONGESTION_WINDOW * BASE_DATAGRAM_SIZE,
            loss_thresh: F32 { bits: K_DEFAULT_LOSS_THRESH },
            beta: F32 { bits: K_DEFAULT_BETA },
        }
    }
}

/// Experimental! Use at your own risk.
///
/// BBRv2 with per-ack and per-loss rate samples.
#[derive(Debug)]
pub struct Bbr2 {
    pub config: Arc<Bbr2Config>,
    pub current_mtu: u64,
    // --- delivery-rate model (fed by `on_ack_sample`) ---
    /// Windowed max filter over rate-sample delivery rates (bytes/s)
    pub max_bw_filter: MinMax,
    /// The newest rate sample (highest `prior_delivered`); persists across batches
    pub rate_sample: RateSample,
    /// The connection's delivered total (C.delivered) inferred from samples
    pub delivered_total: u64,
    /// Bytes acked by the samples of the current ack batch
    pub batch_acked: u64,
    /// Lifetime acked bytes (cwnd bootstrap, from `on_ack`)
    pub acked_bytes: u64,
    // --- modes, pacing and window ---
    pub mode: Mode,
    pub loss_state: LossState,
    pub recovery_state: RecoveryState,
    pub recovery_window: u64,
    pub is_at_full_bandwidth: bool,
    pub pacing_gain: F32,
    pub high_gain: F32,
    pub drain_gain: F32,
    pub cwnd_gain: F32,
    pub high_cwnd_gain: F32,
    pub init_cwnd: u64,
    pub min_cwnd: u64,
    pub exit_probe_rtt_at: Option<Instant>,
    pub probe_rtt_last_started_at: Option<Instant>,
    pub min_rtt: Duration,
    pub exiting_quiescence: bool,
    pub pacing_rate: u64,
    pub max_acked_packet_number: u64,
    pub max_sent_packet_number: u64,
    pub end_recovery_at_packet_number: u64,
    pub cwnd: u64,
    pub current_round_trip_end_packet_number: u64,
    pub round_count: u64,
    pub bw_at_last_round: u64,
    pub round_wo_bw_gain: u64,
    pub ack_aggregation: AckAggregationState,
    // --- upper/lower inflight bounds ---
    /// Inflight ceiling. `u64::MAX` = disengaged (no loss reaction yet).
    pub inflight_hi: u64,
    /// Short-term inflight lower bound. `u64::MAX` = disengaged. Collapses on
    /// a loss round, reset on Refill.
    pub inflight_lo: u64,
    /// Bytes lost / delivered within the main round currently accumulating
    /// (drives the STARTUP/DRAIN `inflight_hi` ceiling)
    pub round_lost: u64,
    pub round_delivered: u64,
    // --- PROBE_BW cycle ---
    /// The current PROBE_BW cycle phase (only meaningful while mode == ProbeBw)
    pub cycle_phase: CyclePhase,
    /// Wall-clock stamp of the current cycle phase's start
    pub cycle_start: Option<Instant>,
    /// Randomized per-cycle wait before re-probing bandwidth (2..3 s)
    pub bw_probe_wait: Duration,
    /// Whether the current samples come from an UP bandwidth probe. Gates the
    /// `on_inflight_too_high` reaction.
    pub bw_probe_samples: bool,
    /// Exponential-growth accounting for raising inflight_hi in UP
    pub bw_probe_up_rounds: u32,
    pub bw_probe_up_acks: u64,
    pub bw_probe_up_cnt: u64,
    /// Rounds elapsed since the last bandwidth probe, seeded randomly 0..=1
    /// (reno coexistence)
    pub rounds_since_bw_probe: u8,
    /// Whether the flow was cwnd-limited at the start of the current round
    /// (gates probing inflight_hi upward)
    pub cwnd_limited_in_round: bool,
    // --- congestion signals ---
    /// Loss-round counter: BBR reacts to congestion once per loss round
    pub loss_round: RoundCounter,
    /// 1-loss-round max of per-sample delivery rate (bytes/s)
    pub bw_latest: u64,
    /// 1-loss-round max of per-sample `delivered`
    pub inflight_latest: u64,
    /// Discrete loss bursts in the current loss round (a burst per
    /// run of contiguous lost packet numbers)
    pub loss_bursts_in_round: u8,
    /// RNG for `pick_probe_wait`
    pub random_number_generator: rand::rngs::StdRng,
}

impl Bbr2 {
    /// The counters are in step with each other, and the window gains are two of moderate size.
    pub open spec fn valid(self) -> bool {
        &&& self.current_mtu <= u16::MAX
        &&& self.min_cwnd == 4 * self.current_mtu
        &&& self.bw_probe_up_rounds <= K_MAX_BW_PROBE_UP_ROUNDS
        &&& self.max_bw_filter.wf()
        &&& self.max_bw_filter.third.time <= self.round_count
        &&& self.ack_aggregation.max_ack_height.wf()
        &&& self.ack_aggregation.max_ack_height.third.time <= self.round_count
        &&& self.high_gain == (F32 { bits: K_DEFAULT_HIGH_GAIN })
        &&& self.drain_gain == (F32 { bits: K_DRAIN_GAIN })
        &&& self.high_cwnd_gain == (F32 { bits: K_DEFAULT_HIGH_GAIN })
        &&& self.cwnd_gain == (F32 { bits: K_DEFAULT_HIGH_GAIN }) || self.cwnd_gain == (F32 {
            bits: K_DERIVED_HIGH_CWNDGAIN,
        })
    }

    /// The state that a controller starts in, but for its random number generator.
    pub open spec fn is_initial(self, config: Bbr2Config, mtu: u16) -> bool {
        let gain = F32 { bits: K_DEFAULT_HIGH_GAIN };
        let zero = MinMaxSample { time: 0, value: 0 };
        let filter = MinMax { window: 10, first: zero, second: zero, third: zero };
        self == Bbr2 {
            config: Arc::new(config),
            current_mtu: mtu as u64,
            max_bw_filter: filter,
            rate_sample: RateSample {
                delivered: 0,
                prior_delivered: 0,
                interval: Duration { nanos: 0 },
                tx_in_flight: 0,
                lost: 0,
                is_app_limited: false,
                bytes_acked: 0,
            },
            delivered_total: 0,
            batch_acked: 0,
            acked_bytes: 0,
            mode: Mode::Startup,
            loss_state: LossState { lost_bytes: 0 },
            recovery_state: RecoveryState::NotInRecovery,
            recovery_window: 0,
            is_at_full_bandwidth: false,
            pacing_gain: gain,
            high_gain: gain,
            drain_gain: F32 { bits: K_DRAIN_GAIN },
            cwnd_gain: gain,
            high_cwnd_gain: gain,
            init_cwnd: config.initial_window,
            min_cwnd: (4 * mtu) as u64,
            exit_probe_rtt_at: None,
            probe_rtt_last_started_at: None,
            min_rtt: Duration { nanos: 0 },
            exiting_quiescence: false,
            pacing_rate: 0,
            max_acked_packet_number: 0,
            max_sent_packet_number: 0,
            end_recovery_at_packet_number: 0,
            cwnd: config.initial_window,
            current_round_trip_end_packet_number: 0,
            round_count: 0,
            bw_at_last_round: 0,
            round_wo_bw_gain: 0,
            ack_aggregation: AckAggregationState {
                max_ack_height: filter,
                aggregation_epoch_start_time: None,
                aggregation_epoch_bytes: 0,
            },
            inflight_hi: u64::MAX,
            inflight_lo: u64::MAX,
            round_lost: 0,
            round_delivered: 0,
            cycle_phase: CyclePhase::Up,
            cycle_start: None,
            bw_probe_wait: Duration { nanos: 2_000_000_000 },
            bw_probe_samples: false,
            bw_probe_up_rounds: 0,
            bw_probe_up_acks: 0,
            bw_probe_up_cnt: u64::MAX,
            rounds_since_bw_probe: 0,
            cwnd_limited_in_round: false,
            loss_round: RoundCounter { next_round_delivered: 0, round_start: false },
            bw_latest: 0,
            inflight_latest: 0,
            loss_bursts_in_round: 0,
            random_number_generator: self.random_number_generator,
        }
    }

    /// Construct a state using the given `config`
    pub fn new(config: Arc<Bbr2Config>, current_mtu: u16) -> (controller: Self)
        ensures
            controller.is_initial(*config, current_mtu),
            controller.valid(),
    {
        let initial_window: u64 = config.initial_window;
        Bbr2 {
            config,
            current_mtu: current_mtu as u64,
            max_bw_filter: MinMax::default(),
            rate_sample: RateSample::default(),
            delivered_total: 0,
            batch_acked: 0,
            acked_bytes: 0,
            mode: Mode::Startup,
            loss_state: LossState::default(),
            recovery_state: RecoveryState::NotInRecovery,
            recovery_window: 0,
            is_at_full_bandwidth: false,
            pacing_gain: F32 { bits: K_DEFAULT_HIGH_GAIN },
            high_gain: F32 { bits: K_DEFAULT_HIGH_GAIN },
            drain_gain: F32 { bits: K_DRAIN_GAIN },
            cwnd_gain: F32 { bits: K_DEFAULT_HIGH_GAIN },
            high_cwnd_gain: F32 { bits: K_DEFAULT_HIGH_GAIN },
            init_cwnd: initial_window,
            min_cwnd: calculate_min_window(current_mtu as u64),
            exit_probe_rtt_at: None,
            probe_rtt_last_started_at: None,
            min_rtt: Duration::default(),
            exiting_quiescence: false,
            pacing_rate: 0,
            max_acked_packet_number: 0,
            max_sent_packet_number: 0,
            end_recovery_at_packet_number: 0,
            cwnd: initial_window,
            current_round_trip_end_packet_number: 0,
            round_count: 0,
            bw_at_last_round: 0,
            round_wo_bw_gain: 0,
            ack_aggregation: AckAggregationState::default(),
            inflight_hi: u64::MAX,
            inflight_lo: u64::MAX,
            round_lost: 0,
            round_delivered: 0,
            cycle_phase: CyclePhase::Up,
            cycle_start: None,
            bw_probe_wait: Duration::from_millis(2000),
            bw_probe_samples: false,
            bw_probe_up_rounds: 0,
            bw_probe_up_acks: 0,
            bw_probe_up_cnt: u64::MAX,
            rounds_since_bw_probe: 0,
            cwnd_limited_in_round: false,
            loss_round: RoundCounter::default(),
            bw_latest: 0,
            inflight_latest: 0,
            loss_bursts_in_round: 0,
            random_number_generator: seed_from_os(),
        }
    }

    /// The estimate of the bandwidth in bytes/s.
    pub open spec fn bandwidth(self) -> u64 {
        self.max_bw_filter.first.value
    }

    /// The current maximum-bandwidth estimate (bytes/s)
    pub fn max_bw(&self) -> (bw: u64)
        ensures
            bw == self.bandwidth(),
    {
        self.max_bw_filter.get()
    }

    /// Any loss burst counted this round
    pub fn loss_in_round(&self) -> (r: bool)
        ensures
            r == (self.loss_bursts_in_round > 0),
    {
        self.loss_bursts_in_round > 0
    }

    pub open spec fn probes_for_bandwidth(self) -> bool {
        self.mode == Mode::Startup || (self.mode == Mode::ProbeBw && (self.cycle_phase
            == CyclePhase::Refill || self.cycle_phase == CyclePhase::Up))
    }

    /// States that accelerate sending to probe for bandwidth (Startup, ProbeBW_REFILL, ProbeBW_UP)
    pub fn is_probing_for_bandwidth(&self) -> (r: bool)
        ensures
            r == self.probes_for_bandwidth(),
    {
        self.mode == Mode::Startup || (self.mode == Mode::ProbeBw && matches!(
            self.cycle_phase,
            CyclePhase::Refill | CyclePhase::Up
        ))
    }
}

impl Clone for Bbr2 {
    /// Duplicate the controller's state
    fn clone(&self) -> (copy: Self)
        ensures
            copy == *self,
    {
        Bbr2 {
            config: share(&self.config),
            current_mtu: self.current_mtu,
            max_bw_filter: self.max_bw_filter,
            rate_sample: self.rate_sample,
            delivered_total: self.delivered_total,
            batch_acked: self.batch_acked,
            acked_bytes: self.acked_bytes,
            mode: self.mode,
            loss_state: self.loss_state,
            recovery_state: self.recovery_state,
            recovery_window: self.recovery_window,
            is_at_full_bandwidth: self.is_at_full_bandwidth,
            pacing_gain: self.pacing_gain,
            high_gain: self.high_gain,
            drain_gain: self.drain_gain,
            cwnd_gain: self.cwnd_gain,
            high_cwnd_gain: self.high_cwnd_gain,
            init_cwnd: self.init_cwnd,
            min_cwnd: self.min_cwnd,
            exit_probe_rtt_at: self.exit_probe_rtt_at,
            probe_rtt_last_started_at: self.probe_rtt_last_started_at,
            min_rtt: self.min_rtt,
            exiting_quiescence: self.exiting_quiescence,
            pacing_rate: self.pacing_rate,
            max_acked_packet_number: self.max_acked_packet_number,
            max_sent_packet_number: self.max_sent_packet_number,
            end_recovery_at_packet_number: self.end_recovery_at_packet_number,
            cwnd: self.cwnd,
            current_round_trip_end_packet_number: self.current_round_trip_end_packet_number,
            round_count: self.round_count,
            bw_at_last_round: self.bw_at_last_round,
            round_wo_bw_gain: self.round_wo_bw_gain,
            ack_aggregation: self.ack_aggregation,
            inflight_hi: self.inflight_hi,
            inflight_lo: self.inflight_lo,
            round_lost: self.round_lost,
            round_delivered: self.round_delivered,
            cycle_phase: self.cycle_phase,
            cycle_start: self.cycle_start,
            bw_probe_wait: self.bw_probe_wait,
            bw_probe_samples: self.bw_probe_samples,
            bw_probe_up_rounds: self.bw_probe_up_rounds,
            bw_probe_up_acks: self.bw_probe_up_acks,
            bw_probe_up_cnt: self.bw_probe_up_cnt,
            rounds_since_bw_probe: self.rounds_since_bw_probe,
            cwnd_limited_in_round: self.cwnd_limited_in_round,
            loss_round: self.loss_round,
            bw_latest: self.bw_latest,
            inflight_latest: self.inflight_latest,
            loss_bursts_in_round: self.loss_bursts_in_round,
            random_number_generator: clone_rng(&self.random_number_generator),
        }
    }
}

} // verus!
