//! The windows, in terms of bandwidth, round-trip time and acknowledgements.

use crate::congestion::bbr2::ack_aggregation::AckAggregationState;
use crate::congestion::bbr2::batch::Draws;
use crate::congestion::bbr2::{Bbr2, Mode, RecoveryState};
use crate::congestion::min_max::{MinMax, MinMaxSample};
use crate::congestion::Controller;
use crate::float::exact::lemma_scaled_exact;
use crate::float::near::{lemma_windowed, near};
use crate::float::ratio::lemma_above_gain;
use crate::float::{Format, F32};
use crate::ints::{max, quotient_of};
use crate::time::Instant;
use vstd::arithmetic::power2::{lemma2_to64, lemma2_to64_rest};
use vstd::prelude::*;

verus! {

/// `t` is a window of `num / den` bytes, rounded down but no smaller than `least`; `initial` where
/// that is no byte.
pub open spec fn is_target(t: u64, num: int, den: int, least: u64, initial: u64) -> bool {
    exists|s: u64| #[trigger]
        near(s, num, den, 10_000_000) && t == if s == 0 {
            initial
        } else if s < least {
            least
        } else {
            s
        }
}

impl Bbr2 {
    /// The bandwidth-delay product is the bandwidth times the minimum round-trip time, rounded down;
    /// the initial window while that is no byte. What should be in flight is that, up to the window.
    pub proof fn lemma_bdp(self)
        requires
            self.min_rtt.nanos / 1_000 <= u64::MAX,
            self.bdp_fits(),
        ensures
            ({
                let x = (self.min_rtt.nanos / 1_000) * self.max_bw_filter.first.value;
                &&& x < 1_000_000 ==> self.bdp() == self.init_cwnd
                &&& x >= 1_000_000 ==> quotient_of(self.bdp() as int, x, 1_000_000)
                &&& self.inflight_target() <= self.bdp() && self.inflight_target() <= self.cwnd
                &&& self.inflight_target() == self.bdp() || self.inflight_target() == self.cwnd
            }),
    {
        let micros = self.min_rtt.nanos / 1_000;
        assert(self.min_rtt.micros() == micros);
        let bw = self.max_bw_filter.first.value;
        assert(micros * bw >= 0) by (nonlinear_arith);
    }

    /// A target window is the gain times the bandwidth-delay product, rounded down: for PROBE_RTT
    /// three quarters of it, for DOWN once, for UP five quarters, for PROBE_BW twice and for STARTUP
    /// 2.885 times. It is no less than the minimum window, and the initial window while there is no
    /// product.
    pub proof fn lemma_target_windows(self)
        requires
            self.min_rtt.nanos / 1_000 <= u64::MAX,
            self.bdp_fits(),
        ensures
            ({
                let x = (self.min_rtt.nanos / 1_000) * self.max_bw_filter.first.value;
                let (least, initial) = (self.min_cwnd, self.init_cwnd);
                &&& is_target(self.probe_rtt_cwnd(), 3 * x, 4_000_000, least, initial)
                &&& is_target(
                    self.target_cwnd(F32 { bits: 0x3f80_0000 }),
                    1 * x,
                    1_000_000,
                    least,
                    initial,
                )
                &&& is_target(
                    self.target_cwnd(F32 { bits: 0x3fa0_0000 }),
                    5 * x,
                    4_000_000,
                    least,
                    initial,
                )
                &&& is_target(
                    self.target_cwnd(F32 { bits: 0x4000_0000 }),
                    2 * x,
                    1_000_000,
                    least,
                    initial,
                )
                &&& is_target(
                    self.target_cwnd(F32 { bits: 0x4038_a3d7 }),
                    2885 * x,
                    1_000_000_000,
                    least,
                    initial,
                )
            }),
    {
        let micros = self.min_rtt.nanos / 1_000;
        assert(self.min_rtt.micros() == micros);
        let bw = self.max_bw_filter.first.value;
        assert(micros * bw >= 0) by (nonlinear_arith);
        let x = (micros * bw) as u64;
        assert(self.bdp_micros() == x);
        lemma_windowed(x);
    }

    /// With a full pipe, the window follows its target: it is no larger than the target window with
    /// what aggregation adds, whatever it was before, and as large as that wherever the acked bytes
    /// take it there; short of that it grows by the acked bytes.
    pub proof fn lemma_full_pipe_window(self, bytes_acked: u64, excess_acked: u64)
        requires
            self.is_at_full_bandwidth,
            self.mode != Mode::ProbeRtt,
            self.growth_fits(bytes_acked, excess_acked),
        ensures
            ({
                let next = self.grown(bytes_acked, excess_acked);
                let bound = self.target_cwnd(self.cwnd_gain)
                    + self.ack_aggregation.max_ack_height.first.value;
                &&& next.cwnd <= max(bound as u64, self.min_cwnd)
                &&& self.cwnd + bytes_acked >= bound ==> next.cwnd == max(
                    bound as u64,
                    self.min_cwnd,
                )
                &&& self.cwnd + bytes_acked < bound ==> next.cwnd == max(
                    (self.cwnd + bytes_acked) as u64,
                    self.min_cwnd,
                )
                &&& next == Bbr2 { cwnd: next.cwnd, ..self }
            }),
    {
    }

    /// The same at the end of a batch, with the gain, the target and the aggregation that it leaves.
    pub proof fn lemma_batch_window_of_full_pipe(
        self,
        now: Instant,
        in_flight: u64,
        app_limited: bool,
        largest_packet_num_acked: Option<u64>,
        draws: Draws,
    )
        requires
            self.valid(),
            self.batch_fits(now, in_flight, app_limited, largest_packet_num_acked),
            draws.valid(),
            ({
                let next = self.batch_ended(
                    now,
                    in_flight,
                    app_limited,
                    largest_packet_num_acked,
                    draws,
                );
                next.is_at_full_bandwidth && next.mode != Mode::ProbeRtt
            }),
        ensures
            ({
                let next = self.batch_ended(
                    now,
                    in_flight,
                    app_limited,
                    largest_packet_num_acked,
                    draws,
                );
                let bound = next.target_cwnd(next.cwnd_gain)
                    + next.ack_aggregation.max_ack_height.first.value;
                &&& next.cwnd <= max(bound as u64, next.min_cwnd)
                &&& self.cwnd + self.batch_acked >= bound ==> next.cwnd == max(
                    bound as u64,
                    next.min_cwnd,
                )
                &&& self.cwnd + self.batch_acked < bound ==> next.cwnd == max(
                    (self.cwnd + self.batch_acked) as u64,
                    next.min_cwnd,
                )
            }),
    {
        self.lemma_scale_before_sizing(
            now,
            in_flight,
            app_limited,
            largest_packet_num_acked,
            draws,
        );
        let moded = self.batch_moded(now, in_flight, app_limited, largest_packet_num_acked, draws);
        reveal(Bbr2::sizing_fits);
        reveal(Bbr2::sized);
        reveal(Bbr2::closed);
        assert(moded.sizing_fits(self.batch_acked, self.batch_excess(now), in_flight));
        let paced = moded.paced();
        assert(paced.growth_fits(self.batch_acked, self.batch_excess(now)));
        paced.lemma_full_pipe_window(self.batch_acked, self.batch_excess(now));
    }

    /// Before the pipe is full, the window grows by the acked bytes, without a limit: always until
    /// the initial window has been acked, and after that where the target is more than the gain.
    pub proof fn lemma_startup_window(self, bytes_acked: u64, excess_acked: u64)
        requires
            self.valid(),
            !self.is_at_full_bandwidth,
            self.mode != Mode::ProbeRtt,
            self.growth_fits(bytes_acked, excess_acked),
        ensures
            ({
                let next = self.grown(bytes_acked, excess_acked);
                let target = self.target_cwnd(self.cwnd_gain) + excess_acked;
                &&& self.acked_bytes < self.init_cwnd || target >= 3 ==> next.cwnd == max(
                    (self.cwnd + bytes_acked) as u64,
                    self.min_cwnd,
                )
                &&& self.acked_bytes >= self.init_cwnd && target <= 1 ==> next.cwnd == max(
                    self.cwnd,
                    self.min_cwnd,
                )
                &&& next.cwnd >= self.cwnd && next.cwnd >= self.min_cwnd
                &&& next == Bbr2 { cwnd: next.cwnd, ..self }
            }),
    {
        let target = self.target_cwnd(self.cwnd_gain) + excess_acked;
        lemma_above_gain(target as u64);
    }

    /// In PROBE_RTT the window stays.
    pub proof fn lemma_probe_rtt_leaves_window(self, bytes_acked: u64, excess_acked: u64)
        requires
            self.mode == Mode::ProbeRtt,
        ensures
            self.grown(bytes_acked, excess_acked) == self,
    {
    }

    /// The recovery window: an unset one starts at what was in flight before the acks; a set one
    /// loses what was lost, down to a datagram if all of it is gone, and in growth gains what was
    /// acked. It is never below what was in flight, nor below the minimum window. Outside of recovery
    /// it stays, and nothing else changes.
    pub proof fn lemma_recovery_window_steps(self, acked: u64, lost: u64, in_flight: u64)
        requires
            self.recovery_fits(acked, lost, in_flight),
        ensures
            ({
                let next = self.recovering(acked, lost, in_flight);
                let kept = if lost <= self.recovery_window {
                    self.recovery_window - lost
                } else {
                    self.current_mtu as int
                };
                let grown = if self.recovery_state == RecoveryState::Growth {
                    kept + acked
                } else {
                    kept
                };
                let recovers = self.recovery_state == RecoveryState::Conservation
                    || self.recovery_state == RecoveryState::Growth;
                &&& next == Bbr2 { recovery_window: next.recovery_window, ..self }
                &&& !recovers ==> next.recovery_window == self.recovery_window
                &&& recovers ==> {
                    &&& next.recovery_window >= in_flight + acked
                    &&& next.recovery_window >= self.min_cwnd
                    &&& next.recovery_window == in_flight + acked || next.recovery_window
                        == self.min_cwnd || (self.recovery_window > 0 && next.recovery_window
                        == grown)
                    &&& self.recovery_window > 0 ==> next.recovery_window >= grown
                }
            }),
    {
    }

    /// In recovery, in its first round and in later ones, the recovery window limits what may be in
    /// flight, in every mode but STARTUP; PROBE_RTT has a limit of its own.
    pub proof fn lemma_window_in_recovery(self)
        requires
            self.recovery_state == RecoveryState::Conservation || self.recovery_state
                == RecoveryState::Growth,
            self.mode == Mode::Drain || self.mode == Mode::ProbeBw,
        ensures
            self.window_size() <= max(self.recovery_window, self.min_cwnd),
            self.recovery_window <= self.cwnd && self.recovery_window <= self.inflight_hi
                && self.recovery_window <= self.inflight_lo ==> self.window_size() == max(
                self.recovery_window,
                self.min_cwnd,
            ),
    {
    }

    /// The window is the smallest of the limits that hold, or the minimum window if that is larger.
    /// The congestion window and both bounds on what is in flight always hold, the recovery window in
    /// recovery outside of STARTUP and PROBE_RTT, and in PROBE_RTT three quarters of the
    /// bandwidth-delay product.
    pub proof fn lemma_window_is_least_limit(self)
        ensures
            ({
                let w = self.window_size();
                let m = self.min_cwnd;
                let recovers = self.recovery_state != RecoveryState::NotInRecovery && self.mode
                    != Mode::Startup && self.mode != Mode::ProbeRtt;
                let probes = self.mode == Mode::ProbeRtt;
                &&& w >= m
                &&& w <= max(self.cwnd, m)
                &&& w <= max(self.inflight_hi, m)
                &&& w <= max(self.inflight_lo, m)
                &&& recovers ==> w <= max(self.recovery_window, m)
                &&& probes ==> w <= max(self.probe_rtt_cwnd(), m)
                &&& {
                    ||| w == m
                    ||| w == self.cwnd
                    ||| w == self.inflight_hi
                    ||| w == self.inflight_lo
                    ||| recovers && w == self.recovery_window
                    ||| probes && w == self.probe_rtt_cwnd()
                }
            }),
    {
    }

    /// A round of STARTUP with an estimate of five quarters of the last one's, rounded down, counts as
    /// growth: the estimate is the one to beat, the count of rounds without growth starts over, and
    /// the largest aggregation is forgotten. Without growth the round is counted, and the third such
    /// round fills the pipe, as does one in recovery. App-limited rounds say nothing.
    pub proof fn lemma_growth_of_a_round(self, app_limited: bool)
        requires
            self.bw_at_last_round < 0x4_0000_0000_0000,
            self.round_wo_bw_gain < u64::MAX,
        ensures
            ({
                let next = self.full_bw_checked(app_limited);
                let bw = self.max_bw_filter.first.value;
                let grows = 4 * bw + 3 >= 5 * self.bw_at_last_round;
                &&& app_limited ==> next == self
                &&& !app_limited && grows ==> {
                    &&& next.bw_at_last_round == bw
                    &&& next.round_wo_bw_gain == 0
                    &&& next.ack_aggregation.max_ack_height == MinMax {
                        window: self.ack_aggregation.max_ack_height.window,
                        first: MinMaxSample { time: 0, value: 0 },
                        second: MinMaxSample { time: 0, value: 0 },
                        third: MinMaxSample { time: 0, value: 0 },
                    }
                    &&& next.ack_aggregation == AckAggregationState {
                        max_ack_height: next.ack_aggregation.max_ack_height,
                        ..self.ack_aggregation
                    }
                    &&& next.is_at_full_bandwidth == self.is_at_full_bandwidth
                }
                &&& !app_limited && !grows ==> {
                    &&& next.bw_at_last_round == self.bw_at_last_round
                    &&& next.round_wo_bw_gain == self.round_wo_bw_gain + 1
                    &&& next.ack_aggregation == self.ack_aggregation
                    &&& next.is_at_full_bandwidth == (self.is_at_full_bandwidth
                        || self.round_wo_bw_gain >= 2 || self.recovery_state
                        != RecoveryState::NotInRecovery)
                }
                &&& next == Bbr2 {
                    bw_at_last_round: next.bw_at_last_round,
                    round_wo_bw_gain: next.round_wo_bw_gain,
                    ack_aggregation: next.ack_aggregation,
                    is_at_full_bandwidth: next.is_at_full_bandwidth,
                    ..self
                }
            }),
    {
        lemma2_to64();
        lemma2_to64_rest();
        lemma_scaled_exact(5, 21, 0xa0_0000, -23i32, self.bw_at_last_round, Format::Double);
        assert(self.growth_target() == (5 * self.bw_at_last_round) / 4);
    }
}

} // verus!
