//! The window and the pacing rate: targets derived from bandwidth and round-trip time.

use crate::congestion::bbr::bw_estimation::{rate, rate_fits};
use crate::congestion::bbr2::ack_aggregation::AckAggregationState;
use crate::congestion::bbr2::{
    bw_from_delta, Bbr2, Mode, RecoveryState, K_DEFAULT_HIGH_GAIN, K_DERIVED_HIGH_CWNDGAIN,
    K_GAIN_ONE, K_GAIN_UP, K_MODERATE_PROBE_RTT_MULTIPLIER,
    K_ROUND_TRIPS_WITHOUT_GROWTH_BEFORE_EXITING_STARTUP, K_STARTUP_GROWTH_TARGET,
    PROBE_RTT_BASED_ON_BDP,
};
use crate::congestion::min_max::MinMaxSample;
use crate::float::scaling::{lemma_scaled_per_million_bound, scaled, scaled_per_million};
use crate::float::{integer, less, Float, Format, F32};
use crate::ints::{max, min};
use vstd::prelude::*;

verus! {

/// No target window is beyond this, unless it is one of the two windows that do not depend on the
/// bandwidth.
pub const TARGET_LIMIT: u64 = 0x1_0000_0000_0000;

impl Bbr2 {
    /// Microseconds of the minimum round-trip time, times bytes per second.
    pub open spec fn bdp_micros(self) -> int {
        self.min_rtt.micros() * self.bandwidth()
    }

    /// The bandwidth-delay product can be computed in 64 bits.
    pub open spec fn bdp_fits(self) -> bool {
        self.bdp_micros() <= u64::MAX
    }

    /// The bandwidth-delay product; the initial window while it is not known.
    pub open spec fn bdp(self) -> u64 {
        let bdp = self.bdp_micros() / 1_000_000;
        if bdp == 0 {
            self.init_cwnd
        } else {
            bdp as u64
        }
    }

    /// The volume to have in flight.
    pub open spec fn inflight_target(self) -> u64 {
        min(self.bdp(), self.cwnd)
    }

    /// `gain` times the bandwidth-delay product, but no less than the minimum window; the initial
    /// window while it is not known.
    pub open spec fn target_cwnd(self, gain: F32) -> u64 {
        let cwnd = scaled_per_million(gain, self.bdp_micros() as u64);
        if cwnd == 0 {
            self.init_cwnd
        } else {
            max(cwnd, self.min_cwnd)
        }
    }

    pub open spec fn probe_rtt_cwnd(self) -> u64 {
        self.target_cwnd(F32 { bits: K_MODERATE_PROBE_RTT_MULTIPLIER })
    }

    /// min(bdp, cwnd).
    pub fn target_inflight(&self) -> (r: u64)
        requires
            self.bdp_fits(),
        ensures
            r == self.inflight_target(),
    {
        min(self.get_bdp(), self.cwnd)
    }

    /// BDP at unit gain.
    pub fn get_bdp(&self) -> (r: u64)
        requires
            self.bdp_fits(),
        ensures
            r == self.bdp(),
    {
        let bw: u64 = self.max_bw();
        let bdp: u64 = self.min_rtt.low_micros() * bw / 1_000_000;
        if bdp == 0 {
            self.init_cwnd
        } else {
            bdp
        }
    }

    pub fn get_target_cwnd(&self, gain: F32) -> (r: u64)
        requires
            self.bdp_fits(),
        ensures
            r == self.target_cwnd(gain),
    {
        let bw: u64 = self.max_bw();
        let bdp: u64 = self.min_rtt.low_micros() * bw;
        let cwnd: u64 = gain.scale_per_million(bdp);
        if cwnd == 0 {
            return self.init_cwnd;
        }
        max(cwnd, self.min_cwnd)
    }

    pub fn get_probe_rtt_cwnd(&self) -> (r: u64)
        requires
            self.bdp_fits(),
        ensures
            r == self.probe_rtt_cwnd(),
    {
        if PROBE_RTT_BASED_ON_BDP {
            return self.get_target_cwnd(F32 { bits: K_MODERATE_PROBE_RTT_MULTIPLIER });
        }
        self.min_cwnd
    }

    /// Every gain in use leads to a target within [`TARGET_LIMIT`], to the minimum window or to the
    /// initial window.
    pub proof fn lemma_target_bound(self, gain: F32)
        requires
            gain.is_moderate(),
        ensures
            self.target_cwnd(gain) <= max(TARGET_LIMIT, max(self.min_cwnd, self.init_cwnd)),
    {
        lemma_scaled_per_million_bound(gain, self.bdp_micros() as u64);
    }

    /// The pacing rate that the estimate calls for.
    pub open spec fn target_rate(self) -> u64 {
        scaled(self.pacing_gain, self.bandwidth(), Format::Double)
    }

    /// The state with its pacing rate brought up to date: nothing changes while the bandwidth is
    /// unknown; a full pipe follows the target; before that the first rate spreads the initial
    /// window over a round trip, and later ones only go up.
    pub open spec fn paced(self) -> Bbr2 {
        let rate = if self.bandwidth() == 0 {
            self.pacing_rate
        } else if self.is_at_full_bandwidth {
            self.target_rate()
        } else if self.pacing_rate == 0 && self.min_rtt.nanos != 0 {
            rate(self.init_cwnd as nat, self.min_rtt)->0
        } else {
            max(self.pacing_rate, self.target_rate())
        };
        Bbr2 { pacing_rate: rate, ..self }
    }

    /// The pacing rate can be computed in 64 bits.
    pub open spec fn pacing_fits(self) -> bool {
        self.bandwidth() == 0 || self.is_at_full_bandwidth || self.pacing_rate != 0 || rate_fits(
            self.init_cwnd as nat,
            self.min_rtt,
        )
    }

    pub fn calculate_pacing_rate(&mut self)
        requires
            old(self).pacing_fits(),
        ensures
            *final(self) == old(self).paced(),
    {
        let bw: u64 = self.max_bw();
        if bw == 0 {
            return ;
        }
        let target_rate: u64 = self.pacing_gain.scale(bw, Format::Double);
        if self.is_at_full_bandwidth {
            self.pacing_rate = target_rate;
            return ;
        }
        if self.pacing_rate == 0 && self.min_rtt.nanos != 0 {
            self.pacing_rate = bw_from_delta(self.init_cwnd, self.min_rtt).unwrap_or(0);
            return ;
        }
        if self.pacing_rate < target_rate {
            self.pacing_rate = target_rate;
        }
    }

    /// What aggregation adds to the target window.
    pub open spec fn aggregation_allowance(self, excess_acked: u64) -> u64 {
        if self.is_at_full_bandwidth {
            self.ack_aggregation.max_ack_height.first.value
        } else {
            excess_acked
        }
    }

    /// The target window, with what aggregation adds.
    pub open spec fn aggregated_target(self, excess_acked: u64) -> int {
        self.target_cwnd(self.cwnd_gain) + self.aggregation_allowance(excess_acked)
    }

    /// Before the pipe is full: the window is still to grow.
    pub open spec fn may_grow(self, excess_acked: u64) -> bool {
        let target = self.aggregated_target(excess_acked) as u64;
        less(self.cwnd_gain.value(), integer(target as nat, Format::Single)) || self.acked_bytes
            < self.init_cwnd
    }

    /// The window can grow in 64 bits.
    pub open spec fn growth_fits(self, bytes_acked: u64, excess_acked: u64) -> bool {
        self.mode == Mode::ProbeRtt || {
            &&& self.bdp_fits()
            &&& self.aggregated_target(excess_acked) <= u64::MAX
            &&& self.is_at_full_bandwidth || self.may_grow(excess_acked) ==> self.cwnd + bytes_acked
                <= u64::MAX
        }
    }

    /// The window after `bytes_acked` were acked, before the minimum applies: a full pipe grows up
    /// to the target; before that, growth has no limit.
    pub open spec fn grown_cwnd(self, bytes_acked: u64, excess_acked: u64) -> u64 {
        let target = self.aggregated_target(excess_acked) as u64;
        if self.is_at_full_bandwidth {
            min(target, (self.cwnd + bytes_acked) as u64)
        } else if self.may_grow(excess_acked) {
            (self.cwnd + bytes_acked) as u64
        } else {
            self.cwnd
        }
    }

    /// The state with its window brought up to date, which PROBE_RTT leaves alone.
    pub open spec fn grown(self, bytes_acked: u64, excess_acked: u64) -> Bbr2 {
        if self.mode == Mode::ProbeRtt {
            self
        } else {
            Bbr2 { cwnd: max(self.grown_cwnd(bytes_acked, excess_acked), self.min_cwnd), ..self }
        }
    }

    pub fn calculate_cwnd(&mut self, bytes_acked: u64, excess_acked: u64)
        requires
            old(self).growth_fits(bytes_acked, excess_acked),
        ensures
            *final(self) == old(self).grown(bytes_acked, excess_acked),
    {
        if self.mode == Mode::ProbeRtt {
            return ;
        }
        let mut target_window: u64 = self.get_target_cwnd(self.cwnd_gain);
        if self.is_at_full_bandwidth {
            // Add the max recently measured ack aggregation to CWND.
            target_window = target_window + self.ack_aggregation.max_ack_height.get();
        } else {
            target_window = target_window + excess_acked;
        }
        if self.is_at_full_bandwidth {
            self.cwnd = min(target_window, self.cwnd + bytes_acked);
        } else if self.cwnd_gain.get().lt(Float::from_u64(target_window, Format::Single))
            || self.acked_bytes < self.init_cwnd {
            self.cwnd = self.cwnd + bytes_acked;
        }
        if self.cwnd < self.min_cwnd {
            self.cwnd = self.min_cwnd;
        }
    }

    /// The recovery window can be computed in 64 bits.
    pub open spec fn recovery_fits(self, bytes_acked: u64, bytes_lost: u64, in_flight: u64) -> bool {
        self.recovery_state == RecoveryState::NotInRecovery || {
            &&& in_flight + bytes_acked <= u64::MAX
            &&& (self.recovery_window != 0 && self.recovery_state == RecoveryState::Growth)
                ==> self.shrunk_recovery_window(bytes_lost) + bytes_acked <= u64::MAX
        }
    }

    /// What losses leave of the recovery window.
    pub open spec fn shrunk_recovery_window(self, bytes_lost: u64) -> u64 {
        if self.recovery_window >= bytes_lost {
            (self.recovery_window - bytes_lost) as u64
        } else {
            self.current_mtu
        }
    }

    /// The recovery window after an ack batch: it starts at what is in flight, shrinks by what is
    /// lost, grows by what is acked in the growth state, and covers what was in flight.
    pub open spec fn next_recovery_window(
        self,
        bytes_acked: u64,
        bytes_lost: u64,
        in_flight: u64,
    ) -> u64 {
        let floor = max(self.min_cwnd, (in_flight + bytes_acked) as u64);
        if self.recovery_window == 0 {
            floor
        } else if self.recovery_state == RecoveryState::Growth {
            max((self.shrunk_recovery_window(bytes_lost) + bytes_acked) as u64, floor)
        } else {
            max(self.shrunk_recovery_window(bytes_lost), floor)
        }
    }

    pub open spec fn recovering(self, bytes_acked: u64, bytes_lost: u64, in_flight: u64) -> Bbr2 {
        if self.recovery_state == RecoveryState::NotInRecovery {
            self
        } else {
            Bbr2 {
                recovery_window: self.next_recovery_window(bytes_acked, bytes_lost, in_flight),
                ..self
            }
        }
    }

    pub fn calculate_recovery_window(&mut self, bytes_acked: u64, bytes_lost: u64, in_flight: u64)
        requires
            old(self).recovery_fits(bytes_acked, bytes_lost, in_flight),
        ensures
            *final(self) == old(self).recovering(bytes_acked, bytes_lost, in_flight),
    {
        if !self.recovery_state.in_recovery() {
            return ;
        }
        if self.recovery_window == 0 {
            self.recovery_window = max(self.min_cwnd, in_flight + bytes_acked);
            return ;
        }
        if self.recovery_window >= bytes_lost {
            self.recovery_window = self.recovery_window - bytes_lost;
        } else {
            self.recovery_window = self.current_mtu;
        }
        if self.recovery_state == RecoveryState::Growth {
            self.recovery_window = self.recovery_window + bytes_acked;
        }
        self.recovery_window = max(
            max(self.recovery_window, in_flight + bytes_acked),
            self.min_cwnd,
        );
    }

    /// The bandwidth that the next round has to reach for the pipe not to count as full.
    pub open spec fn growth_target(self) -> u64 {
        scaled(F32 { bits: K_STARTUP_GROWTH_TARGET }, self.bw_at_last_round, Format::Double)
    }

    /// The bandwidth that the next round has to reach for the pipe not to count as full.
    pub(crate) fn next_bw_target(&self) -> (target: u64)
        ensures
            target == self.growth_target(),
    {
        F32 { bits: K_STARTUP_GROWTH_TARGET }.scale(self.bw_at_last_round, Format::Double)
    }

    /// The state after a round of STARTUP: with growth, the new bandwidth is the one to beat;
    /// without it, rounds are counted until the pipe counts as full, at once in recovery.
    pub open spec fn full_bw_checked(self, app_limited: bool) -> Bbr2 {
        if app_limited {
            self
        } else if self.bandwidth() >= self.growth_target() {
            Bbr2 {
                bw_at_last_round: self.bandwidth(),
                round_wo_bw_gain: 0,
                ack_aggregation: AckAggregationState {
                    max_ack_height: self.ack_aggregation.max_ack_height.filled(
                        MinMaxSample { time: 0, value: 0 },
                    ),
                    ..self.ack_aggregation
                },
                ..self
            }
        } else {
            let rounds = (self.round_wo_bw_gain + 1) as u64;
            Bbr2 {
                round_wo_bw_gain: rounds,
                is_at_full_bandwidth: self.is_at_full_bandwidth || rounds
                    >= K_ROUND_TRIPS_WITHOUT_GROWTH_BEFORE_EXITING_STARTUP || self.recovery_state
                    != RecoveryState::NotInRecovery,
                ..self
            }
        }
    }

    pub fn check_if_full_bw_reached(&mut self, app_limited: bool)
        requires
            app_limited || old(self).bandwidth() >= old(self).growth_target()
                || old(self).round_wo_bw_gain < u64::MAX,
        ensures
            *final(self) == old(self).full_bw_checked(app_limited),
            old(self).valid() ==> final(self).valid(),
    {
        if app_limited {
            return ;
        }
        let target: u64 = self.next_bw_target();
        let bw: u64 = self.max_bw();
        if bw >= target {
            self.bw_at_last_round = bw;
            self.round_wo_bw_gain = 0;
            self.ack_aggregation.max_ack_height.reset();
            return ;
        }
        self.round_wo_bw_gain = self.round_wo_bw_gain + 1;
        if self.round_wo_bw_gain >= K_ROUND_TRIPS_WITHOUT_GROWTH_BEFORE_EXITING_STARTUP as u64 || (
        self.recovery_state.in_recovery()) {
            self.is_at_full_bandwidth = true;
        }
    }
}

/// The gains that windows are computed with are moderate.
pub proof fn lemma_gains_are_moderate()
    ensures
        (F32 { bits: K_DEFAULT_HIGH_GAIN }).is_moderate(),
        (F32 { bits: K_DERIVED_HIGH_CWNDGAIN }).is_moderate(),
        (F32 { bits: K_MODERATE_PROBE_RTT_MULTIPLIER }).is_moderate(),
        (F32 { bits: K_GAIN_ONE }).is_moderate(),
        (F32 { bits: K_GAIN_UP }).is_moderate(),
{
}

} // verus!
