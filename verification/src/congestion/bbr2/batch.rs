//! The end of a batch of acknowledgements, step by step.
//!
//! [`Bbr2::batch_ended`] is the composition of the steps. The steps themselves are opaque, so that
//! a proof unfolds only those that it needs.

use crate::congestion::bbr2::probe_bw::{lemma_some_wait, ProbeWait};
use crate::congestion::bbr2::{delivery_rate, sample_delivery_rate, Bbr2, LossState, Mode};
use crate::time::Instant;
use vstd::prelude::*;

verus! {

/// The waits drawn at the end of a batch. A wait that a step has no use for is not drawn.
pub struct Draws {
    /// Drawn where too much loss turns UP to DOWN.
    pub adapt: ProbeWait,
    /// Drawn where UP turns to DOWN by itself.
    pub cycle: ProbeWait,
    /// Drawn where DRAIN ends.
    pub drain: ProbeWait,
    /// Drawn where PROBE_RTT ends.
    pub probe_rtt: ProbeWait,
}

impl Draws {
    pub open spec fn valid(self) -> bool {
        &&& self.adapt.valid()
        &&& self.cycle.valid()
        &&& self.drain.valid()
        &&& self.probe_rtt.valid()
    }
}

impl Bbr2 {
    /// The largest acknowledged packet number, with that of this batch.
    pub open spec fn newest_acked(self, largest_packet_num_acked: Option<u64>) -> u64 {
        match largest_packet_num_acked {
            Some(largest) => largest,
            None => self.max_acked_packet_number,
        }
    }

    /// The batch starts a round: a packet is acked that was sent after the last round started.
    pub open spec fn round_starts(self, largest_packet_num_acked: Option<u64>) -> bool {
        self.batch_acked > 0 && self.newest_acked(largest_packet_num_acked)
            > self.current_round_trip_end_packet_number
    }

    /// The batch had used up the window, but for less than a datagram.
    pub open spec fn cwnd_limited(self, in_flight: u64) -> bool {
        self.cwnd.saturating_sub((in_flight + self.batch_acked) as u64) < self.current_mtu
    }

    /// Bytes of the batch that arrived faster than the bandwidth allows.
    pub open spec fn batch_excess(self, now: Instant) -> u64 {
        self.ack_aggregation.excess(self.batch_acked, now, self.bandwidth())
    }

    /// The batch can be counted in 64 bits.
    pub open spec fn intake_fits(
        self,
        now: Instant,
        in_flight: u64,
        largest_packet_num_acked: Option<u64>,
    ) -> bool {
        &&& in_flight + self.batch_acked <= u64::MAX
        &&& self.ack_aggregation.fits(self.batch_acked, now, self.bandwidth())
        &&& self.round_lost + self.loss_state.lost_bytes <= u64::MAX
        &&& self.round_delivered + self.batch_acked <= u64::MAX
        &&& self.round_starts(largest_packet_num_acked) ==> self.round_count < u64::MAX
    }

    /// The state with the batch counted.
    #[verifier::opaque]
    pub open spec fn taken_in(
        self,
        now: Instant,
        in_flight: u64,
        largest_packet_num_acked: Option<u64>,
    ) -> Bbr2 {
        let counted = Bbr2 {
            batch_acked: 0,
            ack_aggregation: self.ack_aggregation.acked(
                self.batch_acked,
                now,
                self.round_count,
                self.bandwidth(),
            ),
            max_acked_packet_number: self.newest_acked(largest_packet_num_acked),
            round_lost: (self.round_lost + self.loss_state.lost_bytes) as u64,
            round_delivered: (self.round_delivered + self.batch_acked) as u64,
            ..self
        };
        if self.round_starts(largest_packet_num_acked) {
            Bbr2 {
                current_round_trip_end_packet_number: self.max_sent_packet_number,
                round_count: (self.round_count + 1) as u64,
                cwnd_limited_in_round: self.cwnd_limited(in_flight),
                ..counted
            }
        } else {
            counted
        }
    }

    /// Counts the batch. Returns its bytes, those in excess of the bandwidth, and whether it starts
    /// a round.
    pub(crate) fn take_in(
        &mut self,
        now: Instant,
        in_flight: u64,
        largest_packet_num_acked: Option<u64>,
    ) -> (r: (u64, u64, bool))
        requires
            old(self).valid(),
            old(self).intake_fits(now, in_flight, largest_packet_num_acked),
        ensures
            *final(self) == old(self).taken_in(now, in_flight, largest_packet_num_acked),
            final(self).valid(),
            r.0 == old(self).batch_acked,
            r.1 == old(self).batch_excess(now),
            r.2 == old(self).round_starts(largest_packet_num_acked),
    {
        proof {
            reveal(Bbr2::taken_in);
        }
        let bytes_acked: u64 = self.batch_acked;
        self.batch_acked = 0;
        // Whether the window limits is told before acked bytes leave the pipe; `in_flight` is
        // what is left after the acks, so add them back.
        let is_cwnd_limited: bool = self.cwnd.saturating_sub(in_flight + bytes_acked)
            < self.current_mtu;
        let max_bw: u64 = self.max_bw();
        let excess_acked: u64 = self.ack_aggregation.update_ack_aggregation_bytes(
            bytes_acked,
            now,
            self.round_count,
            max_bw,
        );
        if let Some(largest_acked_packet) = largest_packet_num_acked {
            self.max_acked_packet_number = largest_acked_packet;
        }
        // Accumulate this batch's loss + delivery into the main round (STARTUP/DRAIN ceiling
        // accounting).

        self.round_lost = self.round_lost + self.loss_state.lost_bytes;
        self.round_delivered = self.round_delivered + bytes_acked;

        let mut is_round_start: bool = false;
        if bytes_acked > 0 {
            is_round_start =
            self.max_acked_packet_number > self.current_round_trip_end_packet_number;
            if is_round_start {
                self.current_round_trip_end_packet_number = self.max_sent_packet_number;
                self.round_count = self.round_count + 1;
                // latch the cwnd-limited flag once per round
                self.cwnd_limited_in_round = is_cwnd_limited;
            }
        }
        (bytes_acked, excess_acked, is_round_start)
    }

    /// A batch of `bytes_acked` starts a loss round.
    pub open spec fn loss_round_starts(self, bytes_acked: u64) -> bool {
        bytes_acked > 0 && self.loss_round.acked(
            self.rate_sample.prior_delivered,
            self.delivered_total,
        ).round_start
    }

    /// The state with its bounds adjusted: the ceiling once per round, the short-term bound once
    /// per loss round, unless the flow probes for bandwidth.
    #[verifier::opaque]
    pub open spec fn bounds_adjusted(
        self,
        bytes_acked: u64,
        in_flight: u64,
        is_round_start: bool,
    ) -> Bbr2 {
        let counted = if bytes_acked > 0 {
            Bbr2 {
                loss_round: self.loss_round.acked(
                    self.rate_sample.prior_delivered,
                    self.delivered_total,
                ),
                ..self
            }
        } else {
            self
        };
        let capped = if is_round_start {
            counted.ceiling_updated(in_flight)
        } else {
            counted
        };
        if self.loss_round_starts(bytes_acked) && !self.probes_for_bandwidth() {
            capped.lowered()
        } else {
            capped
        }
    }

    /// Adjusts the bounds. Returns whether a loss round starts.
    pub(crate) fn adjust_bounds(&mut self, bytes_acked: u64, in_flight: u64, is_round_start: bool) -> (r: bool)
        requires
            old(self).valid(),
            is_round_start ==> old(self).round_lost + old(self).round_delivered <= u64::MAX,
        ensures
            *final(self) == old(self).bounds_adjusted(bytes_acked, in_flight, is_round_start),
            final(self).valid(),
            r == old(self).loss_round_starts(bytes_acked),
    {
        proof {
            reveal(Bbr2::bounds_adjusted);
        }
        // Loss-round counter, driven by the newest real sample, once per ack event.
        let mut loss_round_start: bool = false;
        if bytes_acked > 0 {
            self.loss_round.on_ack(self.rate_sample.prior_delivered, self.delivered_total);
            loss_round_start = self.loss_round.round_start;
        }
        // Persistent STARTUP/DRAIN ceiling per main round.

        if is_round_start {
            self.update_inflight_hi(in_flight);
        }
        // Once per loss round, only when not accelerating to probe for bandwidth.

        if loss_round_start && !self.is_probing_for_bandwidth() {
            self.update_inflight_lo();
        }
        loss_round_start
    }

    /// The state with the upper bound adapted and the cycle moved, both only once the pipe is full.
    #[verifier::opaque]
    pub open spec fn bandwidth_probed(
        self,
        now: Instant,
        bytes_acked: u64,
        in_flight: u64,
        is_round_start: bool,
        adapt: ProbeWait,
        cycle: ProbeWait,
    ) -> Bbr2 {
        if self.is_at_full_bandwidth {
            let adapted = self.adapted(now, bytes_acked, is_round_start, adapt);
            if adapted.mode == Mode::ProbeBw {
                adapted.cycled(now, in_flight, is_round_start, cycle)
            } else {
                adapted
            }
        } else {
            self
        }
    }

    /// The upper bound can be adapted and the cycle moved in 64 bits.
    #[verifier::opaque]
    pub open spec fn probing_fits(
        self,
        now: Instant,
        bytes_acked: u64,
        is_round_start: bool,
        adapt: ProbeWait,
    ) -> bool {
        self.is_at_full_bandwidth ==> {
            let adapted = self.adapted(now, bytes_acked, is_round_start, adapt);
            &&& self.adapt_fits(bytes_acked)
            &&& adapted.mode == Mode::ProbeBw ==> adapted.cycle_fits(now)
        }
    }

    /// Adapts the upper bound whenever the pipe is filled; advances the cycle only while in
    /// ProbeBw.
    pub(crate) fn probe_bandwidth(
        &mut self,
        now: Instant,
        bytes_acked: u64,
        in_flight: u64,
        is_round_start: bool,
    )
        requires
            old(self).valid(),
            forall|adapt: ProbeWait| #[trigger]
                adapt.valid() ==> old(self).probing_fits(now, bytes_acked, is_round_start, adapt),
        ensures
            final(self).valid(),
            exists|adapt: ProbeWait, cycle: ProbeWait| #[trigger]
                adapt.valid() && #[trigger] cycle.valid() && *final(self)
                    == old(self).bandwidth_probed(
                    now,
                    bytes_acked,
                    in_flight,
                    is_round_start,
                    adapt,
                    cycle,
                ),
    {
        proof {
            reveal(Bbr2::bandwidth_probed);
            reveal(Bbr2::probing_fits);
            lemma_some_wait(self.random_number_generator);
        }
        if self.is_at_full_bandwidth {
            self.adapt_upper_bounds(now, bytes_acked, is_round_start);
            if self.mode == Mode::ProbeBw {
                self.update_gain_cycle_phase(now, in_flight, is_round_start);
            }
        }
    }

    /// The state with a full pipe told, and the mode changed.
    #[verifier::opaque]
    pub open spec fn mode_changed(
        self,
        now: Instant,
        in_flight: u64,
        app_limited: bool,
        is_round_start: bool,
        drain: ProbeWait,
        probe_rtt: ProbeWait,
    ) -> Bbr2 {
        self.growth_checked(app_limited, is_round_start).drained(now, in_flight, drain).rtt_probed(
            now,
            is_round_start,
            in_flight,
            app_limited,
            probe_rtt,
        )
    }

    /// The state after a look for growth, once per round until the pipe is full.
    pub open spec fn growth_checked(self, app_limited: bool, is_round_start: bool) -> Bbr2 {
        if is_round_start && !self.is_at_full_bandwidth {
            self.full_bw_checked(app_limited)
        } else {
            self
        }
    }

    /// The mode can be told in 64 bits.
    #[verifier::opaque]
    pub open spec fn mode_fits(
        self,
        now: Instant,
        in_flight: u64,
        app_limited: bool,
        is_round_start: bool,
        drain: ProbeWait,
    ) -> bool {
        let checked = self.growth_checked(app_limited, is_round_start);
        &&& is_round_start && !self.is_at_full_bandwidth && !app_limited && self.bandwidth()
            < self.growth_target() ==> self.round_wo_bw_gain < u64::MAX
        &&& checked.drain_fits()
        &&& checked.drained(now, in_flight, drain).rtt_probe_fits(now, in_flight, app_limited)
    }

    /// Tells a full pipe, and changes the mode.
    fn change_mode(
        &mut self,
        now: Instant,
        in_flight: u64,
        app_limited: bool,
        is_round_start: bool,
    )
        requires
            old(self).valid(),
            forall|drain: ProbeWait| #[trigger]
                drain.valid() ==> old(self).mode_fits(
                    now,
                    in_flight,
                    app_limited,
                    is_round_start,
                    drain,
                ),
        ensures
            final(self).valid(),
            exists|drain: ProbeWait, probe_rtt: ProbeWait| #[trigger]
                drain.valid() && #[trigger] probe_rtt.valid() && *final(self)
                    == old(self).mode_changed(
                    now,
                    in_flight,
                    app_limited,
                    is_round_start,
                    drain,
                    probe_rtt,
                ),
    {
        proof {
            reveal(Bbr2::mode_changed);
            reveal(Bbr2::mode_fits);
            lemma_some_wait(self.random_number_generator);
        }
        if is_round_start && !self.is_at_full_bandwidth {
            self.check_if_full_bw_reached(app_limited);
        }
        self.maybe_exit_startup_or_drain(now, in_flight);
        self.maybe_enter_or_exit_probe_rtt(now, is_round_start, in_flight, app_limited);
    }

    /// The state with pacing rate, window and recovery window brought up to date.
    #[verifier::opaque]
    pub open spec fn sized(self, bytes_acked: u64, excess_acked: u64, in_flight: u64) -> Bbr2 {
        self.paced().grown(bytes_acked, excess_acked).recovering(
            bytes_acked,
            self.loss_state.lost_bytes,
            in_flight,
        )
    }

    /// Pacing rate, window and recovery window can be computed in 64 bits.
    #[verifier::opaque]
    pub open spec fn sizing_fits(self, bytes_acked: u64, excess_acked: u64, in_flight: u64) -> bool {
        &&& self.pacing_fits()
        &&& self.growth_fits(bytes_acked, excess_acked)
        &&& self.recovery_fits(bytes_acked, self.loss_state.lost_bytes, in_flight)
    }

    /// Brings pacing rate, window and recovery window up to date.
    fn size(&mut self, bytes_acked: u64, excess_acked: u64, in_flight: u64)
        requires
            old(self).valid(),
            old(self).sizing_fits(bytes_acked, excess_acked, in_flight),
        ensures
            *final(self) == old(self).sized(bytes_acked, excess_acked, in_flight),
            final(self).valid(),
    {
        proof {
            reveal(Bbr2::sized);
            reveal(Bbr2::sizing_fits);
        }
        self.calculate_pacing_rate();
        self.calculate_cwnd(bytes_acked, excess_acked);
        self.calculate_recovery_window(bytes_acked, self.loss_state.lost_bytes, in_flight);
    }

    /// The state with what belongs to the batch, the round and the loss round cleared.
    #[verifier::opaque]
    pub open spec fn closed(self, is_round_start: bool, loss_round_start: bool) -> Bbr2 {
        let advanced = if loss_round_start {
            Bbr2 {
                bw_latest: match delivery_rate(self.rate_sample) {
                    Some(rate) => rate,
                    None => 0,
                },
                inflight_latest: self.rate_sample.delivered,
                loss_bursts_in_round: 0,
                ..self
            }
        } else {
            self
        };
        let cleared = if is_round_start {
            Bbr2 { round_lost: 0, round_delivered: 0, ..advanced }
        } else {
            advanced
        };
        Bbr2 { loss_state: LossState { lost_bytes: 0 }, ..cleared }
    }

    /// Clears what belongs to the batch, the round and the loss round.
    fn close(&mut self, is_round_start: bool, loss_round_start: bool)
        requires
            old(self).valid(),
        ensures
            *final(self) == old(self).closed(is_round_start, loss_round_start),
            final(self).valid(),
    {
        proof {
            reveal(Bbr2::closed);
        }
        // BBRAdvanceLatestDeliverySignals: reseed the loss-round maxima from the current sample.
        if loss_round_start {
            self.bw_latest = sample_delivery_rate(&self.rate_sample).unwrap_or(0);
            self.inflight_latest = self.rate_sample.delivered;
            self.loss_bursts_in_round = 0;
        }
        // Clear the main-round accumulators at a round boundary.

        if is_round_start {
            self.round_lost = 0;
            self.round_delivered = 0;
        }
        self.loss_state.reset();
    }

    /// The state with the batch counted and the bounds adjusted.
    pub open spec fn batch_counted(
        self,
        now: Instant,
        in_flight: u64,
        largest_packet_num_acked: Option<u64>,
    ) -> Bbr2 {
        let is_round_start = self.round_starts(largest_packet_num_acked);
        self.taken_in(now, in_flight, largest_packet_num_acked).recovery_updated(
            is_round_start,
        ).bounds_adjusted(self.batch_acked, in_flight, is_round_start)
    }

    /// The state with bandwidth probed.
    pub open spec fn batch_probed(
        self,
        now: Instant,
        in_flight: u64,
        largest_packet_num_acked: Option<u64>,
        draws: Draws,
    ) -> Bbr2 {
        self.batch_counted(now, in_flight, largest_packet_num_acked).bandwidth_probed(
            now,
            self.batch_acked,
            in_flight,
            self.round_starts(largest_packet_num_acked),
            draws.adapt,
            draws.cycle,
        )
    }

    /// The state with the mode changed.
    pub open spec fn batch_moded(
        self,
        now: Instant,
        in_flight: u64,
        app_limited: bool,
        largest_packet_num_acked: Option<u64>,
        draws: Draws,
    ) -> Bbr2 {
        self.batch_probed(now, in_flight, largest_packet_num_acked, draws).mode_changed(
            now,
            in_flight,
            app_limited,
            self.round_starts(largest_packet_num_acked),
            draws.drain,
            draws.probe_rtt,
        )
    }

    /// The state after the end of a batch.
    pub open spec fn batch_ended(
        self,
        now: Instant,
        in_flight: u64,
        app_limited: bool,
        largest_packet_num_acked: Option<u64>,
        draws: Draws,
    ) -> Bbr2 {
        self.batch_moded(now, in_flight, app_limited, largest_packet_num_acked, draws).sized(
            self.batch_acked,
            self.batch_excess(now),
            in_flight,
        ).closed(
            self.round_starts(largest_packet_num_acked),
            self.loss_round_starts(self.batch_acked),
        )
    }

    /// Whatever waits are drawn, the end of the batch can be computed in 64 bits.
    pub open spec fn batch_fits(
        self,
        now: Instant,
        in_flight: u64,
        app_limited: bool,
        largest_packet_num_acked: Option<u64>,
    ) -> bool {
        let acked = self.batch_acked;
        let is_round_start = self.round_starts(largest_packet_num_acked);
        let counted = self.batch_counted(now, in_flight, largest_packet_num_acked);
        &&& self.intake_fits(now, in_flight, largest_packet_num_acked)
        &&& is_round_start ==> self.round_lost + self.loss_state.lost_bytes + self.round_delivered
            + acked <= u64::MAX
        &&& forall|draws: Draws| #[trigger]
            draws.valid() ==> {
                &&& counted.probing_fits(now, acked, is_round_start, draws.adapt)
                &&& self.batch_probed(now, in_flight, largest_packet_num_acked, draws).mode_fits(
                    now,
                    in_flight,
                    app_limited,
                    is_round_start,
                    draws.drain,
                )
                &&& self.batch_moded(
                    now,
                    in_flight,
                    app_limited,
                    largest_packet_num_acked,
                    draws,
                ).sizing_fits(acked, self.batch_excess(now), in_flight)
            }
    }

    /// The end of a batch.
    pub(crate) fn end_batch(
        &mut self,
        now: Instant,
        in_flight: u64,
        app_limited: bool,
        largest_packet_num_acked: Option<u64>,
    )
        requires
            old(self).valid(),
            old(self).batch_fits(now, in_flight, app_limited, largest_packet_num_acked),
        ensures
            final(self).valid(),
            exists|draws: Draws| #[trigger]
                draws.valid() && *final(self) == old(self).batch_ended(
                    now,
                    in_flight,
                    app_limited,
                    largest_packet_num_acked,
                    draws,
                ),
    {
        let ghost start = *self;
        let (bytes_acked, excess_acked, is_round_start): (u64, u64, bool) = self.take_in(
            now,
            in_flight,
            largest_packet_num_acked,
        );
        self.update_recovery_state(is_round_start);
        assert(self.round_lost == start.round_lost + start.loss_state.lost_bytes
            && self.round_delivered == start.round_delivered + start.batch_acked
            && self.loss_round_starts(bytes_acked) == start.loss_round_starts(bytes_acked)) by {
            reveal(Bbr2::taken_in);
        }
        let loss_round_start: bool = self.adjust_bounds(bytes_acked, in_flight, is_round_start);
        let ghost counted = *self;
        assert(counted == start.batch_counted(now, in_flight, largest_packet_num_acked));
        proof {
            assert forall|adapt: ProbeWait| #[trigger] adapt.valid() implies self.probing_fits(
                now,
                bytes_acked,
                is_round_start,
                adapt,
            ) by {
                assert((Draws { adapt, cycle: adapt, drain: adapt, probe_rtt: adapt }).valid());
            }
        }
        self.probe_bandwidth(now, bytes_acked, in_flight, is_round_start);
        let ghost (adapt, cycle) = choose|adapt: ProbeWait, cycle: ProbeWait| #[trigger]
            adapt.valid() && #[trigger] cycle.valid() && *self == counted.bandwidth_probed(
                now,
                bytes_acked,
                in_flight,
                is_round_start,
                adapt,
                cycle,
            );
        let ghost probed = *self;
        proof {
            assert forall|drain: ProbeWait| #[trigger] drain.valid() implies self.mode_fits(
                now,
                in_flight,
                app_limited,
                is_round_start,
                drain,
            ) by {
                assert((Draws { adapt, cycle, drain, probe_rtt: drain }).valid());
            }
        }
        self.change_mode(now, in_flight, app_limited, is_round_start);
        let ghost (drain, probe_rtt) = choose|drain: ProbeWait, probe_rtt: ProbeWait| #[trigger]
            drain.valid() && #[trigger] probe_rtt.valid() && *self == probed.mode_changed(
                now,
                in_flight,
                app_limited,
                is_round_start,
                drain,
                probe_rtt,
            );
        assert((Draws { adapt, cycle, drain, probe_rtt }).valid());
        self.size(bytes_acked, excess_acked, in_flight);
        self.close(is_round_start, loss_round_start);
    }
}

} // verus!
