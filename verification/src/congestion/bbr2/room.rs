//! Room in the counters: tests that tell beforehand whether an event can be taken in within 64 bits.

use crate::congestion::bbr2::batch::Draws;
use crate::congestion::bbr2::probe_bw::{lemma_some_wait, ProbeWait};
use crate::congestion::bbr2::{
    Bbr2, CyclePhase, Mode, RecoveryState, K_PROBE_BW_FULL_LOSS_COUNT, K_PROBE_RTT_TIME_NANOS,
};
use crate::congestion::{Controller, LossSample};
use crate::float::{Float, Format};
use crate::ints::max;
use crate::time::{Duration, Instant};
use vstd::prelude::*;

verus! {

impl Bbr2 {
    /// Tests whether the bandwidth-delay product can be computed.
    fn bdp_is_in_range(&self) -> (r: bool)
        ensures
            r == self.bdp_fits(),
    {
        let bw: u128 = self.max_bw() as u128;
        let rtt: u128 = self.min_rtt.low_micros() as u128;
        assert(0 <= rtt * bw <= 0xffff_ffff_ffff_ffff * 0xffff_ffff_ffff_ffff) by (nonlinear_arith)
            requires
                0 <= bw <= 0xffff_ffff_ffff_ffff,
                0 <= rtt <= 0xffff_ffff_ffff_ffff,
        ;
        rtt * bw <= u64::MAX as u128
    }

    /// Tests whether the window can be computed.
    pub fn has_room_for_window(&self) -> (r: bool)
        ensures
            r == self.window_fits(),
    {
        self.mode != Mode::ProbeRtt || self.bdp_is_in_range()
    }

    /// Tests whether the loss of `sample` can be taken in.
    pub fn has_room_for_loss(&self, now: Instant, sample: &LossSample) -> (r: bool)
        ensures
            r == self.loss_sample_fits(now, sample),
    {
        let bursts: u8 = if sample.new_loss_burst {
            self.loss_bursts_in_round.saturating_add(1)
        } else {
            self.loss_bursts_in_round
        };
        if !self.bw_probe_samples || bursts < K_PROBE_BW_FULL_LOSS_COUNT || !self.exceeds_threshold(
            sample.lost,
            sample.tx_in_flight,
        ) {
            return true;
        }
        let inflight_prev: u64 = sample.tx_in_flight.saturating_sub(sample.bytes);
        let prefix: u64 = self.lost_prefix_of(sample);
        inflight_prev <= u64::MAX - prefix && (sample.is_app_limited || self.bdp_is_in_range())
    }

    /// Tests whether the batch can be counted.
    fn intake_is_in_range(
        &self,
        now: Instant,
        in_flight: u64,
        largest_packet_num_acked: Option<u64>,
    ) -> (r: bool)
        ensures
            r == self.intake_fits(now, in_flight, largest_packet_num_acked),
    {
        let acked: u64 = self.batch_acked;
        let newest: u64 = largest_packet_num_acked.unwrap_or(self.max_acked_packet_number);
        let is_round_start: bool = acked > 0 && newest > self.current_round_trip_end_packet_number;
        let start: Instant = self.ack_aggregation.aggregation_epoch_start_time.unwrap_or(now);
        let epoch: u64 = now.saturating_duration_since(start).low_micros();
        let epoch_bytes: u64 = self.ack_aggregation.aggregation_epoch_bytes;
        let aggregation: bool = match self.max_bw().checked_mul(epoch) {
            Some(expected) => epoch_bytes <= expected / 1_000_000 || epoch_bytes.checked_add(
                acked,
            ).is_some(),
            None => false,
        };
        in_flight.checked_add(acked).is_some() && aggregation && self.round_lost.checked_add(
            self.loss_state.lost_bytes,
        ).is_some() && self.round_delivered.checked_add(acked).is_some() && (!is_round_start
            || self.round_count < u64::MAX)
    }

    /// Tests whether the upper bound can be adapted.
    fn adaptation_is_in_range(&self, bytes_acked: u64) -> (r: bool)
        ensures
            r == self.adapt_fits(bytes_acked),
    {
        if self.is_loss_too_high(self.rate_sample.lost, self.rate_sample.tx_in_flight) {
            return !self.bw_probe_samples || self.rate_sample.is_app_limited
                || self.bdp_is_in_range();
        }
        let ceiling: u64 = max(self.inflight_hi, self.rate_sample.tx_in_flight);
        if self.inflight_hi == u64::MAX || self.mode != Mode::ProbeBw || self.cycle_phase
            != CyclePhase::Up || !self.cwnd_limited_in_round || self.cwnd < ceiling {
            return true;
        }
        match self.bw_probe_up_acks.checked_add(bytes_acked) {
            Some(acks) => {
                proof {
                    assert(0 * self.current_mtu == 0);
                }
                ceiling == u64::MAX || self.bw_probe_up_cnt == 0 || (acks
                    / self.bw_probe_up_cnt).checked_mul(self.current_mtu).is_some()
            },
            None => false,
        }
    }

    /// Tests whether the cycle can be moved.
    fn cycle_is_in_range(&self, now: Instant) -> (r: bool)
        ensures
            r == self.cycle_fits(now),
    {
        let in_phase: Option<Duration> = match self.cycle_start {
            Some(cs) => Some(now.saturating_duration_since(cs)),
            None => None,
        };
        match self.cycle_phase {
            CyclePhase::Down | CyclePhase::Cruise => (match in_phase {
                Some(d) => d.nanos >= self.bw_probe_wait.nanos,
                None => false,
            }) || self.bdp_is_in_range(),
            CyclePhase::Refill => true,
            CyclePhase::Up => !(match in_phase {
                Some(d) => d.nanos > self.min_rtt.nanos,
                None => false,
            }) || self.bdp_is_in_range(),
        }
    }

    /// Tests whether the upper bound can be adapted and the cycle moved, whatever is drawn.
    fn probing_is_in_range(&self, now: Instant, bytes_acked: u64, is_round_start: bool) -> (r: bool)
        ensures
            r == (forall|adapt: ProbeWait| #[trigger]
                adapt.valid() ==> self.probing_fits(now, bytes_acked, is_round_start, adapt)),
    {
        proof {
            reveal(Bbr2::probing_fits);
            lemma_some_wait(self.random_number_generator);
        }
        if !self.is_at_full_bandwidth {
            return true;
        }
        if !self.adaptation_is_in_range(bytes_acked) {
            return false;
        }
        if self.mode != Mode::ProbeBw {
            return true;
        }
        // A reaction to loss turns UP to DOWN, whose wait has then just begun.
        if self.cycle_phase == CyclePhase::Up && self.bw_probe_samples && self.is_loss_too_high(
            self.rate_sample.lost,
            self.rate_sample.tx_in_flight,
        ) {
            self.bdp_is_in_range()
        } else {
            self.cycle_is_in_range(now)
        }
    }

    /// Tests whether PROBE_RTT can be entered and carried on.
    fn rtt_probe_is_in_range(&self, now: Instant, bytes_in_flight: u64, app_limited: bool) -> (r:
        bool)
        ensures
            r == self.rtt_probe_fits(now, bytes_in_flight, app_limited),
    {
        let enters: bool = self.is_min_rtt_expired(now, app_limited) && !self.exiting_quiescence
            && self.mode != Mode::ProbeRtt;
        let sets_time: bool = enters || (self.mode == Mode::ProbeRtt
            && self.exit_probe_rtt_at.is_none());
        if !sets_time {
            return true;
        }
        if !self.bdp_is_in_range() {
            return false;
        }
        match self.get_probe_rtt_cwnd().checked_add(self.current_mtu) {
            Some(limit) => bytes_in_flight >= limit || now.nanos <= u128::MAX
                - K_PROBE_RTT_TIME_NANOS,
            None => false,
        }
    }

    /// Changes the mode, if that can be computed; returns whether it can.
    fn try_change_mode(
        &mut self,
        now: Instant,
        in_flight: u64,
        app_limited: bool,
        is_round_start: bool,
    ) -> (r: bool)
        requires
            old(self).valid(),
        ensures
            r == (forall|drain: ProbeWait| #[trigger]
                drain.valid() ==> old(self).mode_fits(
                    now,
                    in_flight,
                    app_limited,
                    is_round_start,
                    drain,
                )),
            r ==> exists|drain: ProbeWait, probe_rtt: ProbeWait| #[trigger]
                drain.valid() && #[trigger] probe_rtt.valid() && *final(self)
                    == old(self).mode_changed(
                    now,
                    in_flight,
                    app_limited,
                    is_round_start,
                    drain,
                    probe_rtt,
                ),
    {
        proof {
            reveal(Bbr2::mode_changed);
            reveal(Bbr2::mode_fits);
            lemma_some_wait(self.random_number_generator);
        }
        if is_round_start && !self.is_at_full_bandwidth {
            if !app_limited && self.round_wo_bw_gain == u64::MAX && self.max_bw()
                < self.next_bw_target() {
                return false;
            }
            self.check_if_full_bw_reached(app_limited);
        }
        let ghost checked = *self;
        let drains: bool = self.mode == Mode::Drain || (self.mode == Mode::Startup
            && self.is_at_full_bandwidth);
        if drains && !self.bdp_is_in_range() {
            return false;
        }
        self.maybe_exit_startup_or_drain(now, in_flight);
        proof {
            assert forall|drain: ProbeWait| #[trigger] drain.valid() implies checked.drained(
                now,
                in_flight,
                drain,
            ).rtt_probe_fits(now, in_flight, app_limited) == self.rtt_probe_fits(
                now,
                in_flight,
                app_limited,
            ) by {}
        }
        if !self.rtt_probe_is_in_range(now, in_flight, app_limited) {
            return false;
        }
        self.maybe_enter_or_exit_probe_rtt(now, is_round_start, in_flight, app_limited);
        true
    }

    /// Tests whether pacing rate, window and recovery window can be computed.
    fn sizing_is_in_range(&self, bytes_acked: u64, excess_acked: u64, in_flight: u64) -> (r: bool)
        ensures
            r == self.sizing_fits(bytes_acked, excess_acked, in_flight),
    {
        proof {
            reveal(Bbr2::sizing_fits);
        }
        let pacing: bool = self.max_bw() == 0 || self.is_at_full_bandwidth || self.pacing_rate != 0
            || self.min_rtt.nanos == 0 || (self.init_cwnd.checked_mul(1_000_000_000).is_some()
            && self.min_rtt.low_nanos() != 0);
        let lost: u64 = self.loss_state.lost_bytes;
        let shrunk: u64 = if self.recovery_window >= lost {
            self.recovery_window - lost
        } else {
            self.current_mtu
        };
        let recovery: bool = !self.recovery_state.in_recovery() || (in_flight.checked_add(
            bytes_acked,
        ).is_some() && (self.recovery_window == 0 || self.recovery_state != RecoveryState::Growth
            || shrunk.checked_add(bytes_acked).is_some()));
        if !pacing || !recovery {
            return false;
        }
        if self.mode == Mode::ProbeRtt {
            return true;
        }
        if !self.bdp_is_in_range() {
            return false;
        }
        let allowance: u64 = if self.is_at_full_bandwidth {
            self.ack_aggregation.max_ack_height.get()
        } else {
            excess_acked
        };
        match self.get_target_cwnd(self.cwnd_gain).checked_add(allowance) {
            Some(target) => {
                let grows: bool = self.is_at_full_bandwidth || self.cwnd_gain.get().lt(
                    Float::from_u64(target, Format::Single),
                ) || self.acked_bytes < self.init_cwnd;
                !grows || self.cwnd.checked_add(bytes_acked).is_some()
            },
            None => false,
        }
    }

    /// What a draw has no influence on: the state with all that belongs to the PROBE_BW cycle set
    /// aside.
    spec fn apart_from_cycle(self) -> Bbr2 {
        Bbr2 {
            pacing_gain: arbitrary(),
            current_round_trip_end_packet_number: arbitrary(),
            inflight_hi: arbitrary(),
            inflight_lo: arbitrary(),
            cycle_phase: arbitrary(),
            cycle_start: arbitrary(),
            bw_probe_wait: arbitrary(),
            bw_probe_samples: arbitrary(),
            bw_probe_up_rounds: arbitrary(),
            bw_probe_up_acks: arbitrary(),
            bw_probe_up_cnt: arbitrary(),
            rounds_since_bw_probe: arbitrary(),
            bw_latest: arbitrary(),
            inflight_latest: arbitrary(),
            loss_bursts_in_round: arbitrary(),
            random_number_generator: arbitrary(),
            ..self
        }
    }

    proof fn lemma_probing_stays_in_cycle(
        self,
        now: Instant,
        bytes_acked: u64,
        in_flight: u64,
        is_round_start: bool,
        adapt: ProbeWait,
        cycle: ProbeWait,
    )
        ensures
            self.bandwidth_probed(
                now,
                bytes_acked,
                in_flight,
                is_round_start,
                adapt,
                cycle,
            ).apart_from_cycle() == self.apart_from_cycle(),
    {
        reveal(Bbr2::bandwidth_probed);
    }

    proof fn lemma_growth_apart_from_cycle(
        self,
        other: Bbr2,
        app_limited: bool,
        is_round_start: bool,
    )
        requires
            self.apart_from_cycle() == other.apart_from_cycle(),
        ensures
            self.growth_checked(app_limited, is_round_start).apart_from_cycle()
                == other.growth_checked(app_limited, is_round_start).apart_from_cycle(),
            self.bandwidth() == other.bandwidth(),
            self.growth_target() == other.growth_target(),
    {
    }

    proof fn lemma_drain_apart_from_cycle(
        self,
        other: Bbr2,
        now: Instant,
        in_flight: u64,
        wait: ProbeWait,
        other_wait: ProbeWait,
    )
        requires
            self.apart_from_cycle() == other.apart_from_cycle(),
        ensures
            self.drain_fits() == other.drain_fits(),
            self.drained(now, in_flight, wait).apart_from_cycle() == other.drained(
                now,
                in_flight,
                other_wait,
            ).apart_from_cycle(),
    {
    }

    proof fn lemma_rtt_probe_apart_from_cycle(
        self,
        other: Bbr2,
        now: Instant,
        is_round_start: bool,
        bytes_in_flight: u64,
        app_limited: bool,
        wait: ProbeWait,
        other_wait: ProbeWait,
    )
        requires
            self.apart_from_cycle() == other.apart_from_cycle(),
        ensures
            self.rtt_probe_fits(now, bytes_in_flight, app_limited) == other.rtt_probe_fits(
                now,
                bytes_in_flight,
                app_limited,
            ),
            self.rtt_probed(
                now,
                is_round_start,
                bytes_in_flight,
                app_limited,
                wait,
            ).apart_from_cycle() == other.rtt_probed(
                now,
                is_round_start,
                bytes_in_flight,
                app_limited,
                other_wait,
            ).apart_from_cycle(),
    {
    }

    proof fn lemma_modes_apart_from_cycle(
        self,
        other: Bbr2,
        now: Instant,
        in_flight: u64,
        app_limited: bool,
        is_round_start: bool,
        drain: ProbeWait,
        probe_rtt: ProbeWait,
        other_drain: ProbeWait,
        other_probe_rtt: ProbeWait,
    )
        requires
            self.apart_from_cycle() == other.apart_from_cycle(),
        ensures
            self.mode_fits(now, in_flight, app_limited, is_round_start, drain) == other.mode_fits(
                now,
                in_flight,
                app_limited,
                is_round_start,
                other_drain,
            ),
            self.mode_changed(
                now,
                in_flight,
                app_limited,
                is_round_start,
                drain,
                probe_rtt,
            ).apart_from_cycle() == other.mode_changed(
                now,
                in_flight,
                app_limited,
                is_round_start,
                other_drain,
                other_probe_rtt,
            ).apart_from_cycle(),
    {
        reveal(Bbr2::mode_fits);
        reveal(Bbr2::mode_changed);
        self.lemma_growth_apart_from_cycle(other, app_limited, is_round_start);
        let a = self.growth_checked(app_limited, is_round_start);
        let b = other.growth_checked(app_limited, is_round_start);
        a.lemma_drain_apart_from_cycle(b, now, in_flight, drain, other_drain);
        let c = a.drained(now, in_flight, drain);
        let d = b.drained(now, in_flight, other_drain);
        c.lemma_rtt_probe_apart_from_cycle(
            d,
            now,
            is_round_start,
            in_flight,
            app_limited,
            probe_rtt,
            other_probe_rtt,
        );
    }

    proof fn lemma_sizing_apart_from_cycle(
        self,
        other: Bbr2,
        bytes_acked: u64,
        excess_acked: u64,
        in_flight: u64,
    )
        requires
            self.apart_from_cycle() == other.apart_from_cycle(),
        ensures
            self.sizing_fits(bytes_acked, excess_acked, in_flight) == other.sizing_fits(
                bytes_acked,
                excess_acked,
                in_flight,
            ),
    {
        reveal(Bbr2::sizing_fits);
    }

    /// Whether the end of a batch can be computed does not depend on what is drawn: if it can after
    /// `draws`, it can after any.
    proof fn lemma_draws_do_not_decide(
        self,
        now: Instant,
        in_flight: u64,
        app_limited: bool,
        largest_packet_num_acked: Option<u64>,
        draws: Draws,
        other: Draws,
    )
        ensures
            ({
                let rs = self.round_starts(largest_packet_num_acked);
                let excess = self.batch_excess(now);
                &&& self.batch_probed(now, in_flight, largest_packet_num_acked, draws).mode_fits(
                    now,
                    in_flight,
                    app_limited,
                    rs,
                    draws.drain,
                ) == self.batch_probed(now, in_flight, largest_packet_num_acked, other).mode_fits(
                    now,
                    in_flight,
                    app_limited,
                    rs,
                    other.drain,
                )
                &&& self.batch_moded(
                    now,
                    in_flight,
                    app_limited,
                    largest_packet_num_acked,
                    draws,
                ).sizing_fits(self.batch_acked, excess, in_flight) == self.batch_moded(
                    now,
                    in_flight,
                    app_limited,
                    largest_packet_num_acked,
                    other,
                ).sizing_fits(self.batch_acked, excess, in_flight)
            }),
    {
        let rs = self.round_starts(largest_packet_num_acked);
        let counted = self.batch_counted(now, in_flight, largest_packet_num_acked);
        let a = self.batch_probed(now, in_flight, largest_packet_num_acked, draws);
        let b = self.batch_probed(now, in_flight, largest_packet_num_acked, other);
        counted.lemma_probing_stays_in_cycle(
            now,
            self.batch_acked,
            in_flight,
            rs,
            draws.adapt,
            draws.cycle,
        );
        counted.lemma_probing_stays_in_cycle(
            now,
            self.batch_acked,
            in_flight,
            rs,
            other.adapt,
            other.cycle,
        );
        a.lemma_modes_apart_from_cycle(
            b,
            now,
            in_flight,
            app_limited,
            rs,
            draws.drain,
            draws.probe_rtt,
            other.drain,
            other.probe_rtt,
        );
        self.batch_moded(
            now,
            in_flight,
            app_limited,
            largest_packet_num_acked,
            draws,
        ).lemma_sizing_apart_from_cycle(
            self.batch_moded(now, in_flight, app_limited, largest_packet_num_acked, other),
            self.batch_acked,
            self.batch_excess(now),
            in_flight,
        );
    }

    /// Tests whether the end of a batch can be computed, on a copy of the state.
    pub fn has_room_for_batch(
        &self,
        now: Instant,
        in_flight: u64,
        app_limited: bool,
        largest_packet_num_acked: Option<u64>,
    ) -> (r: bool)
        requires
            self.valid(),
        ensures
            r == self.end_acks_fits(now, in_flight, app_limited, largest_packet_num_acked),
    {
        if !self.intake_is_in_range(now, in_flight, largest_packet_num_acked) {
            return false;
        }
        let mut trial: Bbr2 = self.clone();
        let (acked, excess, is_round_start): (u64, u64, bool) = trial.take_in(
            now,
            in_flight,
            largest_packet_num_acked,
        );
        trial.update_recovery_state(is_round_start);
        assert(trial.round_lost == self.round_lost + self.loss_state.lost_bytes
            && trial.round_delivered == self.round_delivered + self.batch_acked) by {
            reveal(Bbr2::taken_in);
        }
        if is_round_start && trial.round_lost.checked_add(trial.round_delivered).is_none() {
            return false;
        }
        let _ = trial.adjust_bounds(acked, in_flight, is_round_start);
        let ghost counted = trial;
        assert(counted == self.batch_counted(now, in_flight, largest_packet_num_acked));
        if !trial.probing_is_in_range(now, acked, is_round_start) {
            proof {
                let adapt = choose|adapt: ProbeWait| #[trigger]
                    adapt.valid() && !counted.probing_fits(now, acked, is_round_start, adapt);
                let draws = Draws { adapt, cycle: adapt, drain: adapt, probe_rtt: adapt };
                assert(draws.valid());
            }
            return false;
        }
        trial.probe_bandwidth(now, acked, in_flight, is_round_start);
        let ghost (adapt, cycle) = choose|adapt: ProbeWait, cycle: ProbeWait| #[trigger]
            adapt.valid() && #[trigger] cycle.valid() && trial == counted.bandwidth_probed(
                now,
                acked,
                in_flight,
                is_round_start,
                adapt,
                cycle,
            );
        let ghost probed = trial;
        if !trial.try_change_mode(now, in_flight, app_limited, is_round_start) {
            proof {
                let drain = choose|drain: ProbeWait| #[trigger]
                    drain.valid() && !probed.mode_fits(
                        now,
                        in_flight,
                        app_limited,
                        is_round_start,
                        drain,
                    );
                let draws = Draws { adapt, cycle, drain, probe_rtt: drain };
                assert(draws.valid());
            }
            return false;
        }
        let ghost (drain, probe_rtt) = choose|drain: ProbeWait, probe_rtt: ProbeWait| #[trigger]
            drain.valid() && #[trigger] probe_rtt.valid() && trial == probed.mode_changed(
                now,
                in_flight,
                app_limited,
                is_round_start,
                drain,
                probe_rtt,
            );
        let ghost draws = Draws { adapt, cycle, drain, probe_rtt };
        assert(draws.valid());
        let r: bool = trial.sizing_is_in_range(acked, excess, in_flight);
        proof {
            assert forall|other: Draws| #[trigger] other.valid() && r implies {
                &&& counted.probing_fits(now, acked, is_round_start, other.adapt)
                &&& self.batch_probed(now, in_flight, largest_packet_num_acked, other).mode_fits(
                    now,
                    in_flight,
                    app_limited,
                    is_round_start,
                    other.drain,
                )
                &&& self.batch_moded(
                    now,
                    in_flight,
                    app_limited,
                    largest_packet_num_acked,
                    other,
                ).sizing_fits(acked, excess, in_flight)
            } by {
                self.lemma_draws_do_not_decide(
                    now,
                    in_flight,
                    app_limited,
                    largest_packet_num_acked,
                    draws,
                    other,
                );
            }
        }
        r
    }
}

} // verus!
