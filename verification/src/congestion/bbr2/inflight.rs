//! The bounds on what is in flight: `inflight_hi` and `inflight_lo`.

use crate::congestion::bbr2::probe_bw::{lemma_some_wait, ProbeWait};
use crate::congestion::bbr2::{
    Bbr2, CyclePhase, Mode, K_BETA, K_HEADROOM, K_MAX_BW_PROBE_UP_ROUNDS, K_PROBE_BW_FULL_LOSS_COUNT,
};
use crate::congestion::{LossSample, RateSample};
use crate::float::rounding::lemma_pow2_at_least;
use crate::float::scaling::scaled;
use crate::float::{complement, integer, less, product, quotient, truncated, Float, Format, F32};
use crate::ints::{max, min};
use crate::time::Instant;
use vstd::arithmetic::power2::pow2;
use vstd::prelude::*;

verus! {

impl Bbr2 {
    /// The state with a steeper slope: acked bytes per datagram of growth halve each round, down to
    /// one datagram.
    pub open spec fn slope_raised(self) -> Bbr2 {
        let rounds = if self.bw_probe_up_rounds <= 30 {
            self.bw_probe_up_rounds as nat
        } else {
            30
        };
        Bbr2 {
            bw_probe_up_cnt: max((self.cwnd as nat / pow2(rounds)) as u64, self.current_mtu),
            bw_probe_up_rounds: if self.bw_probe_up_rounds + 1 <= K_MAX_BW_PROBE_UP_ROUNDS {
                (self.bw_probe_up_rounds + 1) as u32
            } else {
                K_MAX_BW_PROBE_UP_ROUNDS
            },
            ..self
        }
    }

    /// Exponentially grow the per-round inflight_hi increment.
    pub fn raise_inflight_hi_slope(&mut self)
        requires
            old(self).bw_probe_up_rounds < u32::MAX,
        ensures
            *final(self) == old(self).slope_raised(),
    {
        let rounds: u32 = if self.bw_probe_up_rounds <= 30 {
            self.bw_probe_up_rounds
        } else {
            30
        };
        let growth_this_round: u64 = 1u64 << rounds;
        proof {
            vstd::arithmetic::power2::lemma2_to64();
            vstd::arithmetic::power2::lemma_pow2_pos(rounds as nat);
            lemma_pow2_at_least(rounds as nat, 30);
            vstd::bits::lemma_u64_shl_is_mul(1, rounds as u64);
            assert(growth_this_round == pow2(rounds as nat));
            vstd::arithmetic::div_mod::lemma_div_nonincreasing(
                self.cwnd as int,
                growth_this_round as int,
            );
        }
        self.bw_probe_up_rounds = if self.bw_probe_up_rounds + 1 <= K_MAX_BW_PROBE_UP_ROUNDS {
            self.bw_probe_up_rounds + 1
        } else {
            K_MAX_BW_PROBE_UP_ROUNDS
        };
        self.bw_probe_up_cnt = max(self.cwnd / growth_this_round, self.current_mtu);
    }

    /// Datagrams that `bytes_acked` more acked bytes are worth.
    pub open spec fn probe_up_datagrams(self, bytes_acked: u64) -> int {
        if self.bw_probe_up_cnt > 0 {
            (self.bw_probe_up_acks + bytes_acked) / (self.bw_probe_up_cnt as int)
        } else {
            0
        }
    }

    /// The growth can be computed in 64 bits.
    pub open spec fn probe_up_fits(self, bytes_acked: u64) -> bool {
        &&& self.bw_probe_up_acks + bytes_acked <= u64::MAX
        &&& self.inflight_hi != u64::MAX ==> self.probe_up_datagrams(bytes_acked) * self.current_mtu
            <= u64::MAX
    }

    /// The state with `inflight_hi` raised by a datagram for every `bw_probe_up_cnt` acked bytes,
    /// and what is left over kept for the next batch.
    pub open spec fn probed_upward(self, bytes_acked: u64, round_start: bool) -> Bbr2 {
        let acks = (self.bw_probe_up_acks + bytes_acked) as u64;
        let datagrams = self.probe_up_datagrams(bytes_acked);
        let raised = Bbr2 {
            bw_probe_up_acks: if self.bw_probe_up_cnt > 0 {
                acks % self.bw_probe_up_cnt
            } else {
                acks
            },
            inflight_hi: if self.inflight_hi != u64::MAX {
                self.inflight_hi.saturating_add((datagrams * self.current_mtu) as u64)
            } else {
                self.inflight_hi
            },
            ..self
        };
        if round_start {
            raised.slope_raised()
        } else {
            raised
        }
    }

    /// While UP and fully using inflight_hi, grow it by ~one MSS per `bw_probe_up_cnt` acked bytes.
    /// Driven by the batch's real delivered bytes.
    pub fn probe_inflight_hi_upward(&mut self, bytes_acked: u64, round_start: bool)
        requires
            old(self).probe_up_fits(bytes_acked),
            round_start ==> old(self).bw_probe_up_rounds < u32::MAX,
        ensures
            *final(self) == old(self).probed_upward(bytes_acked, round_start),
    {
        self.bw_probe_up_acks = self.bw_probe_up_acks + bytes_acked;
        proof {
            if self.bw_probe_up_cnt > 0 {
                let acks = self.bw_probe_up_acks as int;
                let cnt = self.bw_probe_up_cnt as int;
                vstd::arithmetic::div_mod::lemma_fundamental_div_mod(acks, cnt);
                if acks < cnt {
                    vstd::arithmetic::div_mod::lemma_basic_div(acks, cnt);
                    vstd::arithmetic::div_mod::lemma_small_mod(acks as nat, cnt as nat);
                }
                assert(cnt * (acks / cnt) == (acks / cnt) * cnt) by (nonlinear_arith);
            }
            assert(0 * self.current_mtu == 0);
        }
        if self.bw_probe_up_cnt > 0 && self.bw_probe_up_acks >= self.bw_probe_up_cnt {
            let delta: u64 = self.bw_probe_up_acks / self.bw_probe_up_cnt;
            self.bw_probe_up_acks = self.bw_probe_up_acks - delta * self.bw_probe_up_cnt;
            if self.inflight_hi != u64::MAX {
                self.inflight_hi = self.inflight_hi.saturating_add(delta * self.current_mtu);
            }
        }
        if round_start {
            self.raise_inflight_hi_slope();
        }
    }

    pub open spec fn headroom(self) -> u64 {
        if self.inflight_hi == u64::MAX {
            u64::MAX
        } else {
            max(scaled(F32 { bits: K_HEADROOM }, self.inflight_hi, Format::Double), self.min_cwnd)
        }
    }

    /// 85% of inflight_hi, min-clamped.
    /// Returns u64::MAX when inflight_hi is disengaged.
    pub fn inflight_with_headroom(&self) -> (r: u64)
        ensures
            r == self.headroom(),
    {
        if self.inflight_hi == u64::MAX {
            return u64::MAX;
        }
        let hr: u64 = F32 { bits: K_HEADROOM }.scale(self.inflight_hi, Format::Double);
        max(hr, self.min_cwnd)
    }

    /// More bytes lost than the threshold allows of what was in flight.
    pub open spec fn over_threshold(self, lost_bytes: u64, bytes_in_flight: u64) -> bool {
        less(
            product(
                self.config.loss_thresh.value(),
                integer(bytes_in_flight as nat, Format::Single),
                Format::Single,
            ),
            integer(lost_bytes as nat, Format::Single),
        )
    }

    /// Enough loss bursts, and more bytes lost than the threshold allows of what was in flight.
    pub open spec fn loss_too_high(self, lost_bytes: u64, bytes_in_flight: u64) -> bool {
        &&& self.loss_bursts_in_round >= K_PROBE_BW_FULL_LOSS_COUNT
        &&& self.over_threshold(lost_bytes, bytes_in_flight)
    }

    /// The loss over the sample exceeded the threshold.
    pub(crate) fn exceeds_threshold(&self, lost_bytes: u64, bytes_in_flight: u64) -> (r: bool)
        ensures
            r == self.over_threshold(lost_bytes, bytes_in_flight),
    {
        let allowed = self.config.loss_thresh.get().times(
            Float::from_u64(bytes_in_flight, Format::Single),
            Format::Single,
        );
        allowed.lt(Float::from_u64(lost_bytes, Format::Single))
    }

    /// The loss over the sample exceeded the ceiling. Gated on `loss_bursts_in_round` reaching
    /// [`K_PROBE_BW_FULL_LOSS_COUNT`] discrete bursts.
    pub fn is_loss_too_high(&self, lost_bytes: u64, bytes_in_flight: u64) -> (r: bool)
        ensures
            r == self.loss_too_high(lost_bytes, bytes_in_flight),
    {
        self.loss_bursts_in_round >= K_PROBE_BW_FULL_LOSS_COUNT && self.exceeds_threshold(
            lost_bytes,
            bytes_in_flight,
        )
    }

    /// The part of `sample` at which losses crossed the threshold, counted from the packets sent
    /// before the lost one: what the threshold still allowed, over the fraction it leaves.
    pub open spec fn lost_prefix(self, sample: LossSample) -> u64 {
        let thresh = self.config.loss_thresh;
        let inflight_prev = sample.tx_in_flight.saturating_sub(sample.bytes);
        let lost_prev = sample.lost.saturating_sub(sample.bytes);
        let budget = scaled(thresh, inflight_prev, Format::Single).saturating_sub(lost_prev);
        truncated(
            quotient(
                integer(budget as nat, Format::Single),
                complement(thresh.value(), Format::Single),
                Format::Single,
            ),
        )
    }

    /// The inflight volume at which losses crossed the threshold.
    pub open spec fn crossing(self, sample: LossSample) -> int {
        sample.tx_in_flight.saturating_sub(sample.bytes) + self.lost_prefix(sample)
    }

    /// The part of `sample` at which losses crossed the threshold.
    pub(crate) fn lost_prefix_of(&self, sample: &LossSample) -> (r: u64)
        ensures
            r == self.lost_prefix(*sample),
    {
        let loss_thresh: F32 = self.config.loss_thresh;
        // What was in flight before this packet?
        let inflight_prev: u64 = sample.tx_in_flight.saturating_sub(sample.bytes);
        // What was lost before this packet?
        let lost_prev: u64 = sample.lost.saturating_sub(sample.bytes);
        // BBRLossThresh * inflight_prev - lost_prev
        let loss_budget: u64 = loss_thresh.scale(inflight_prev, Format::Single).saturating_sub(
            lost_prev,
        );
        // At what inflight value did losses cross BBRLossThresh?
        Float::from_u64(loss_budget, Format::Single).over(
            loss_thresh.one_minus(),
            Format::Single,
        ).to_u64()
    }

    /// The inflight volume at which losses crossed the loss threshold, computed
    /// from the lost packet's send-time stamps.
    pub fn inflight_hi_from_lost_packet(&self, sample: &LossSample) -> (r: u64)
        requires
            self.crossing(*sample) <= u64::MAX,
        ensures
            r == self.crossing(*sample),
    {
        let inflight_prev: u64 = sample.tx_in_flight.saturating_sub(sample.bytes);
        inflight_prev + self.lost_prefix_of(sample)
    }

    /// The part of `target_inflight` that a reaction to loss keeps.
    pub open spec fn beta_target(self) -> u64 {
        scaled(F32 { bits: K_BETA }, self.inflight_target(), Format::Single)
    }

    /// The state after too much was in flight: the probe is over, `inflight_hi` is set unless the
    /// sample was app-limited, and UP turns to DOWN.
    pub open spec fn backed_off(
        self,
        now: Instant,
        is_app_limited: bool,
        bytes_in_flight: u64,
        wait: ProbeWait,
    ) -> Bbr2 {
        let bounded = Bbr2 {
            bw_probe_samples: false,
            inflight_hi: if is_app_limited {
                self.inflight_hi
            } else {
                max(bytes_in_flight, self.beta_target())
            },
            ..self
        };
        if self.mode == Mode::ProbeBw && self.cycle_phase == CyclePhase::Up {
            bounded.went_down(now, wait)
        } else {
            bounded
        }
    }

    /// React once per probe: set inflight_hi = max(inflight, BETA * target_inflight) unless
    /// the sample was app-limited; if in UP, start DOWN.
    pub fn on_inflight_too_high(&mut self, now: Instant, is_app_limited: bool, bytes_in_flight: u64)
        requires
            is_app_limited || old(self).bdp_fits(),
        ensures
            exists|wait: ProbeWait| #[trigger]
                wait.valid() && *final(self) == old(self).backed_off(
                    now,
                    is_app_limited,
                    bytes_in_flight,
                    wait,
                ),
    {
        self.bw_probe_samples = false;  // only react once per bw probe
        if !is_app_limited {
            let beta_target: u64 = F32 { bits: K_BETA }.scale(
                self.target_inflight(),
                Format::Single,
            );
            self.inflight_hi = max(bytes_in_flight, beta_target);
        }
        proof {
            lemma_some_wait(self.random_number_generator);
        }
        if self.mode == Mode::ProbeBw && self.cycle_phase == CyclePhase::Up {
            self.start_down(now);
        }
    }

    /// UP, with `inflight_hi` fully used.
    pub open spec fn uses_inflight_hi(self) -> bool {
        &&& self.mode == Mode::ProbeBw
        &&& self.cycle_phase == CyclePhase::Up
        &&& self.cwnd_limited_in_round
        &&& self.cwnd >= self.inflight_hi
    }

    /// The state with `inflight_hi` raised to what the sample had in flight.
    pub open spec fn lifted(self) -> Bbr2 {
        Bbr2 { inflight_hi: max(self.inflight_hi, self.rate_sample.tx_in_flight), ..self }
    }

    /// The newest rate sample leads to growth of an engaged `inflight_hi`.
    pub open spec fn probes_upward(self) -> bool {
        &&& !self.loss_too_high(self.rate_sample.lost, self.rate_sample.tx_in_flight)
        &&& self.inflight_hi != u64::MAX
        &&& self.lifted().uses_inflight_hi()
    }

    /// The newest rate sample leads to a reaction to loss.
    pub open spec fn backs_off(self) -> bool {
        self.bw_probe_samples && self.loss_too_high(
            self.rate_sample.lost,
            self.rate_sample.tx_in_flight,
        )
    }

    /// The bounds can be adapted in 64 bits.
    pub open spec fn adapt_fits(self, bytes_acked: u64) -> bool {
        &&& self.backs_off() && !self.rate_sample.is_app_limited ==> self.bdp_fits()
        &&& self.probes_upward() ==> self.lifted().probe_up_fits(bytes_acked)
    }

    /// The state after the newest rate sample has acted on `inflight_hi`: too much loss while
    /// probing pulls it down; otherwise it is raised to what was in flight, and in UP beyond that.
    pub open spec fn adapted(
        self,
        now: Instant,
        bytes_acked: u64,
        is_round_start: bool,
        wait: ProbeWait,
    ) -> Bbr2 {
        let rs = self.rate_sample;
        if self.loss_too_high(rs.lost, rs.tx_in_flight) {
            if self.bw_probe_samples {
                self.backed_off(now, rs.is_app_limited, rs.tx_in_flight, wait)
            } else {
                self
            }
        } else if self.inflight_hi == u64::MAX {
            self
        } else if self.lifted().uses_inflight_hi() {
            self.lifted().probed_upward(bytes_acked, is_round_start)
        } else {
            self.lifted()
        }
    }

    /// If the current rate sample's loss is too high and we're probing, pull inflight_hi down;
    /// otherwise raise inflight_hi toward the sample's true `tx_in_flight`
    /// and, while UP and cwnd-limited, probe it upward.
    pub fn adapt_upper_bounds(&mut self, now: Instant, bytes_acked: u64, is_round_start: bool)
        requires
            old(self).adapt_fits(bytes_acked),
            is_round_start && old(self).probes_upward() ==> old(self).bw_probe_up_rounds < u32::MAX,
        ensures
            old(self).valid() ==> final(self).valid(),
            exists|wait: ProbeWait| #[trigger]
                wait.valid() && *final(self) == old(self).adapted(
                    now,
                    bytes_acked,
                    is_round_start,
                    wait,
                ),
    {
        let rs: RateSample = self.rate_sample;
        proof {
            lemma_some_wait(self.random_number_generator);
        }
        if self.is_loss_too_high(rs.lost, rs.tx_in_flight) {
            if self.bw_probe_samples {
                self.on_inflight_too_high(now, rs.is_app_limited, rs.tx_in_flight);
            }
        } else {
            if self.inflight_hi == u64::MAX {
                return ;  // no upper bound to raise
            }
            if rs.tx_in_flight > self.inflight_hi {
                self.inflight_hi = rs.tx_in_flight;
            }
            if self.mode == Mode::ProbeBw && self.cycle_phase == CyclePhase::Up
                && self.cwnd_limited_in_round && self.cwnd >= self.inflight_hi {
                // inflight_hi is fully utilized: probe if we can increase it
                self.probe_inflight_hi_upward(bytes_acked, is_round_start);
            }
        }
    }

    /// The state after a loss round: a lossy one cuts the short-term bound, which starts at the
    /// window, but not below what the round delivered.
    pub open spec fn lowered(self) -> Bbr2 {
        if self.loss_bursts_in_round == 0 {
            self
        } else {
            let lo = if self.inflight_lo == u64::MAX {
                self.cwnd
            } else {
                self.inflight_lo
            };
            Bbr2 {
                inflight_lo: max(
                    self.inflight_latest,
                    scaled(F32 { bits: K_BETA }, lo, Format::Single),
                ),
                ..self
            }
        }
    }

    /// Called once per loss round when not probing for bandwidth: collapse
    /// inflight_lo toward BETA * inflight_lo but not below the loss round's
    /// `inflight_latest` (the per-sample delivered max).
    pub fn update_inflight_lo(&mut self)
        ensures
            *final(self) == old(self).lowered(),
    {
        if !self.loss_in_round() {
            return ;
        }
        if self.inflight_lo == u64::MAX {
            self.inflight_lo = self.cwnd;
        }
        let beta_bound: u64 = F32 { bits: K_BETA }.scale(self.inflight_lo, Format::Single);
        self.inflight_lo = max(self.inflight_latest, beta_bound);
    }

    /// The round lost a larger fraction of its bytes than the threshold allows.
    pub open spec fn round_congested(self) -> bool {
        less(
            self.config.loss_thresh.value(),
            quotient(
                integer(self.round_lost as nat, Format::Single),
                integer((self.round_lost + self.round_delivered) as nat, Format::Single),
                Format::Single,
            ),
        )
    }

    /// What a congested round leaves of `in_flight`.
    pub open spec fn reduced(self, in_flight: u64) -> u64 {
        truncated(
            product(
                integer(in_flight as nat, Format::Single),
                complement(self.config.beta.value(), Format::Single),
                Format::Single,
            ),
        )
    }

    /// The state after a round: a congested one lowers `inflight_hi`, a clean one outside PROBE_BW
    /// raises an engaged one.
    pub open spec fn ceiling_updated(self, in_flight: u64) -> Bbr2 {
        if self.round_lost + self.round_delivered == 0 {
            self
        } else if self.round_congested() {
            Bbr2 {
                inflight_hi: min(self.inflight_hi, max(self.reduced(in_flight), self.min_cwnd)),
                ..self
            }
        } else if self.inflight_hi != u64::MAX && self.mode != Mode::ProbeBw {
            Bbr2 {
                inflight_hi: self.inflight_hi.saturating_add(
                    max(self.round_delivered, self.current_mtu),
                ),
                ..self
            }
        } else {
            self
        }
    }

    /// At each round boundary, adjust the persistent inflight ceiling from the
    /// completed round's loss rate. This is the STARTUP/DRAIN-phase ceiling;
    /// PROBE_BW drives inflight_hi via adapt_upper_bounds.
    pub fn update_inflight_hi(&mut self, in_flight: u64)
        requires
            old(self).round_lost + old(self).round_delivered <= u64::MAX,
        ensures
            *final(self) == old(self).ceiling_updated(in_flight),
    {
        let total: u64 = self.round_lost + self.round_delivered;
        if total > 0 {
            let loss_rate = Float::from_u64(self.round_lost, Format::Single).over(
                Float::from_u64(total, Format::Single),
                Format::Single,
            );
            if self.config.loss_thresh.get().lt(loss_rate) {
                let reduced: u64 = Float::from_u64(in_flight, Format::Single).times(
                    self.config.beta.one_minus(),
                    Format::Single,
                ).to_u64();
                self.inflight_hi = min(self.inflight_hi, max(reduced, self.min_cwnd));
            } else if self.inflight_hi != u64::MAX && self.mode != Mode::ProbeBw {
                // In PROBE_BW, inflight_hi growth is handled by the cycle; only
                // additively re-probe here for the STARTUP/DRAIN ceiling.
                self.inflight_hi = self.inflight_hi.saturating_add(
                    max(self.round_delivered, self.current_mtu),
                );
            }
        }
    }
}

} // verus!
