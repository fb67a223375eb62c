//! The end of a batch as a whole, in terms of the state before it.

use crate::congestion::bbr2::batch::Draws;
use crate::congestion::bbr2::laws::cycle::elapsed;
use crate::congestion::bbr2::laws::pacing::is_paced;
use crate::congestion::bbr2::{delivery_rate, Bbr2, CyclePhase, Mode, RecoveryState};
use crate::float::ratio::lemma_above_gain;
use crate::float::F32;
use crate::ints::max;
use crate::time::Instant;
use vstd::prelude::*;

verus! {

impl Bbr2 {
    /// `next` differs from `self` at most in what a batch counts, in recovery, in the bounds and in the
    /// cycle.
    spec fn same_but_for_cycle(self, next: Bbr2) -> bool {
        next == Bbr2 {
            batch_acked: next.batch_acked,
            ack_aggregation: next.ack_aggregation,
            max_acked_packet_number: next.max_acked_packet_number,
            round_lost: next.round_lost,
            round_delivered: next.round_delivered,
            current_round_trip_end_packet_number: next.current_round_trip_end_packet_number,
            round_count: next.round_count,
            cwnd_limited_in_round: next.cwnd_limited_in_round,
            recovery_state: next.recovery_state,
            recovery_window: next.recovery_window,
            end_recovery_at_packet_number: next.end_recovery_at_packet_number,
            loss_round: next.loss_round,
            inflight_hi: next.inflight_hi,
            inflight_lo: next.inflight_lo,
            loss_bursts_in_round: next.loss_bursts_in_round,
            bw_latest: next.bw_latest,
            inflight_latest: next.inflight_latest,
            cycle_phase: next.cycle_phase,
            cycle_start: next.cycle_start,
            pacing_gain: next.pacing_gain,
            bw_probe_wait: next.bw_probe_wait,
            bw_probe_samples: next.bw_probe_samples,
            bw_probe_up_rounds: next.bw_probe_up_rounds,
            bw_probe_up_acks: next.bw_probe_up_acks,
            bw_probe_up_cnt: next.bw_probe_up_cnt,
            rounds_since_bw_probe: next.rounds_since_bw_probe,
            random_number_generator: next.random_number_generator,
            ..self
        }
    }

    /// What the steps before the mode changes leave alone.
    proof fn lemma_before_modes(
        self,
        now: Instant,
        in_flight: u64,
        largest_packet_num_acked: Option<u64>,
        draws: Draws,
    )
        ensures
            self.same_but_for_cycle(
                self.batch_probed(now, in_flight, largest_packet_num_acked, draws),
            ),
    {
        let is_round_start = self.round_starts(largest_packet_num_acked);
        let counted = self.batch_counted(now, in_flight, largest_packet_num_acked);
        assert(self.same_but_for_cycle(counted)) by {
            reveal(Bbr2::taken_in);
            reveal(Bbr2::bounds_adjusted);
        }
        counted.lemma_probing_is_of_the_cycle(
            now,
            self.batch_acked,
            in_flight,
            is_round_start,
            draws,
        );
    }

    proof fn lemma_probing_is_of_the_cycle(
        self,
        now: Instant,
        bytes_acked: u64,
        in_flight: u64,
        is_round_start: bool,
        draws: Draws,
    )
        ensures
            self.same_but_for_cycle(
                self.bandwidth_probed(
                    now,
                    bytes_acked,
                    in_flight,
                    is_round_start,
                    draws.adapt,
                    draws.cycle,
                ),
            ),
    {
        reveal(Bbr2::bandwidth_probed);
    }

    /// The mode after a batch. PROBE_RTT is entered from any other mode once it is due. Otherwise
    /// STARTUP ends with a full pipe, in DRAIN, and DRAIN ends, at once or later, in PROBE_BW with no
    /// more in flight than the bandwidth-delay product; PROBE_BW stays; and PROBE_RTT ends at the start
    /// of a round after its time, in PROBE_BW with a full pipe, else in STARTUP. That time is 200 ms from
    /// the first batch in PROBE_RTT with less in flight than a datagram above its window.
    pub proof fn lemma_mode_after_batch(
        self,
        now: Instant,
        in_flight: u64,
        app_limited: bool,
        largest_packet_num_acked: Option<u64>,
        draws: Draws,
    )
        ensures
            ({
                let next = self.batch_ended(
                    now,
                    in_flight,
                    app_limited,
                    largest_packet_num_acked,
                    draws,
                );
                let newest = match largest_packet_num_acked {
                    Some(largest) => largest,
                    None => self.max_acked_packet_number,
                };
                let starts = self.batch_acked > 0 && newest
                    > self.current_round_trip_end_packet_number;
                let due = !app_limited && !self.exiting_quiescence && match
                self.probe_rtt_last_started_at {
                    Some(last) => elapsed(now, last) > 10_000_000_000,
                    None => true,
                };
                let empty = in_flight <= self.target_cwnd(F32 { bits: 0x3f80_0000 });
                let over = starts && match self.exit_probe_rtt_at {
                    Some(exit) => exit.nanos <= now.nanos,
                    None => false,
                };
                &&& next.mode == match self.mode {
                    Mode::ProbeRtt => if !over {
                        Mode::ProbeRtt
                    } else if next.is_at_full_bandwidth {
                        Mode::ProbeBw
                    } else {
                        Mode::Startup
                    },
                    Mode::ProbeBw => if due {
                        Mode::ProbeRtt
                    } else {
                        Mode::ProbeBw
                    },
                    Mode::Drain => if due {
                        Mode::ProbeRtt
                    } else if empty {
                        Mode::ProbeBw
                    } else {
                        Mode::Drain
                    },
                    Mode::Startup => if due {
                        Mode::ProbeRtt
                    } else if !next.is_at_full_bandwidth {
                        Mode::Startup
                    } else if empty {
                        Mode::ProbeBw
                    } else {
                        Mode::Drain
                    },
                }
                &&& next.probe_rtt_last_started_at == if due && self.mode != Mode::ProbeRtt {
                    Some(now)
                } else {
                    self.probe_rtt_last_started_at
                }
                &&& !next.exiting_quiescence
                &&& next.exit_probe_rtt_at == if self.mode != Mode::ProbeRtt && !due {
                    self.exit_probe_rtt_at
                } else if self.mode == Mode::ProbeRtt && self.exit_probe_rtt_at is Some {
                    self.exit_probe_rtt_at
                } else if in_flight < self.probe_rtt_cwnd() + self.current_mtu {
                    Some(Instant { nanos: (now.nanos + 200_000_000) as u128 })
                } else {
                    None
                }
            }),
    {
        let is_round_start = self.round_starts(largest_packet_num_acked);
        let probed = self.batch_probed(now, in_flight, largest_packet_num_acked, draws);
        self.lemma_before_modes(now, in_flight, largest_packet_num_acked, draws);
        let checked = probed.growth_checked(app_limited, is_round_start);
        let left = checked.startup_left();
        let one = F32 { bits: 0x3f80_0000 };
        assert(left.target_cwnd(one) == self.target_cwnd(one));
        let drained = checked.drained(now, in_flight, draws.drain);
        let entered = drained.probe_rtt_entered(now, app_limited);
        assert(entered.probe_rtt_cwnd() == self.probe_rtt_cwnd());
        reveal(Bbr2::mode_changed);
        reveal(Bbr2::sized);
        reveal(Bbr2::closed);
    }

    /// What a batch leaves of the totals. A round that starts forgets what the last one lost and
    /// delivered; otherwise both grow by the batch. A loss round that ends forgets its bursts and takes
    /// its maxima from the newest sample; one that goes on keeps them while mode and phase stay. What
    /// aggregation keeps follows the batch alone, unless the round is checked for growth.
    pub proof fn lemma_totals_after_batch(
        self,
        now: Instant,
        in_flight: u64,
        app_limited: bool,
        largest_packet_num_acked: Option<u64>,
        draws: Draws,
    )
        requires
            self.intake_fits(now, in_flight, largest_packet_num_acked),
        ensures
            ({
                let next = self.batch_ended(
                    now,
                    in_flight,
                    app_limited,
                    largest_packet_num_acked,
                    draws,
                );
                let newest = match largest_packet_num_acked {
                    Some(largest) => largest,
                    None => self.max_acked_packet_number,
                };
                let starts = self.batch_acked > 0 && newest
                    > self.current_round_trip_end_packet_number;
                let ends = self.batch_acked > 0 && self.rate_sample.prior_delivered
                    >= self.loss_round.next_round_delivered;
                &&& next.batch_acked == 0
                &&& next.loss_state.lost_bytes == 0
                &&& next.max_acked_packet_number == newest
                &&& starts ==> next.round_count == self.round_count + 1 && next.round_lost == 0
                    && next.round_delivered == 0
                &&& !starts ==> {
                    &&& next.round_count == self.round_count
                    &&& next.round_lost == self.round_lost + self.loss_state.lost_bytes
                    &&& next.round_delivered == self.round_delivered + self.batch_acked
                }
                &&& ends ==> {
                    &&& next.loss_round.next_round_delivered == self.delivered_total
                    &&& next.loss_bursts_in_round == 0
                    &&& next.inflight_latest == self.rate_sample.delivered
                    &&& match delivery_rate(self.rate_sample) {
                        Some(rate) => next.bw_latest == rate,
                        None => next.bw_latest == 0,
                    }
                }
                &&& !ends ==> next.loss_round.next_round_delivered
                    == self.loss_round.next_round_delivered
                &&& !ends && next.mode == self.mode && next.cycle_phase == self.cycle_phase ==> {
                    &&& next.loss_bursts_in_round == self.loss_bursts_in_round
                    &&& next.inflight_latest == self.inflight_latest
                    &&& next.bw_latest == self.bw_latest
                }
                &&& self.is_at_full_bandwidth || !starts || app_limited ==> next.ack_aggregation
                    == self.ack_aggregation.acked(
                    self.batch_acked,
                    now,
                    self.round_count,
                    self.max_bw_filter.first.value,
                )
                &&& next.max_bw_filter == self.max_bw_filter
                &&& next.min_rtt == self.min_rtt
                &&& next.min_cwnd == self.min_cwnd
                &&& next.init_cwnd == self.init_cwnd
                &&& next.current_mtu == self.current_mtu
                &&& next.acked_bytes == self.acked_bytes
                &&& next.rate_sample == self.rate_sample
                &&& next.delivered_total == self.delivered_total
                &&& next.max_sent_packet_number == self.max_sent_packet_number
                &&& next.config == self.config
            }),
    {
        let is_round_start = self.round_starts(largest_packet_num_acked);
        let counted = self.batch_counted(now, in_flight, largest_packet_num_acked);
        let probed = self.batch_probed(now, in_flight, largest_packet_num_acked, draws);
        self.lemma_before_modes(now, in_flight, largest_packet_num_acked, draws);
        self.lemma_counts_before_probing(now, in_flight, largest_packet_num_acked);
        counted.lemma_probing_keeps_counts(now, self.batch_acked, in_flight, is_round_start, draws);
        probed.lemma_modes_keep_counts(now, in_flight, app_limited, is_round_start, draws);
        reveal(Bbr2::sized);
        reveal(Bbr2::closed);
    }

    proof fn lemma_counts_before_probing(
        self,
        now: Instant,
        in_flight: u64,
        largest_packet_num_acked: Option<u64>,
    )
        requires
            self.intake_fits(now, in_flight, largest_packet_num_acked),
        ensures
            ({
                let next = self.batch_counted(now, in_flight, largest_packet_num_acked);
                let starts = self.round_starts(largest_packet_num_acked);
                &&& next.batch_acked == 0
                &&& next.ack_aggregation == self.ack_aggregation.acked(
                    self.batch_acked,
                    now,
                    self.round_count,
                    self.max_bw_filter.first.value,
                )
                &&& next.max_acked_packet_number == self.newest_acked(largest_packet_num_acked)
                &&& next.round_count == self.round_count + if starts {
                    1int
                } else {
                    0int
                }
                &&& next.round_lost == self.round_lost + self.loss_state.lost_bytes
                &&& next.round_delivered == self.round_delivered + self.batch_acked
                &&& self.loss_round_starts(self.batch_acked) ==> next.loss_round.next_round_delivered
                    == self.delivered_total
                &&& !self.loss_round_starts(self.batch_acked)
                    ==> next.loss_round.next_round_delivered == self.loss_round.next_round_delivered
                &&& next.loss_bursts_in_round == self.loss_bursts_in_round
                &&& next.inflight_latest == self.inflight_latest
                &&& next.bw_latest == self.bw_latest
                &&& next.cycle_phase == self.cycle_phase
                &&& next.mode == self.mode
            }),
    {
        reveal(Bbr2::taken_in);
        reveal(Bbr2::bounds_adjusted);
    }

    proof fn lemma_probing_keeps_counts(
        self,
        now: Instant,
        bytes_acked: u64,
        in_flight: u64,
        is_round_start: bool,
        draws: Draws,
    )
        ensures
            ({
                let next = self.bandwidth_probed(
                    now,
                    bytes_acked,
                    in_flight,
                    is_round_start,
                    draws.adapt,
                    draws.cycle,
                );
                &&& next.batch_acked == self.batch_acked
                &&& next.max_acked_packet_number == self.max_acked_packet_number
                &&& next.ack_aggregation == self.ack_aggregation
                &&& next.is_at_full_bandwidth == self.is_at_full_bandwidth
                &&& next.round_count == self.round_count
                &&& next.round_lost == self.round_lost
                &&& next.round_delivered == self.round_delivered
                &&& next.loss_round == self.loss_round
                &&& next.mode == self.mode
                &&& next.cycle_phase == self.cycle_phase ==> {
                    &&& next.loss_bursts_in_round == self.loss_bursts_in_round
                    &&& next.inflight_latest == self.inflight_latest
                    &&& next.bw_latest == self.bw_latest
                }
            }),
    {
        reveal(Bbr2::bandwidth_probed);
    }

    proof fn lemma_modes_keep_counts(
        self,
        now: Instant,
        in_flight: u64,
        app_limited: bool,
        is_round_start: bool,
        draws: Draws,
    )
        ensures
            ({
                let next = self.mode_changed(
                    now,
                    in_flight,
                    app_limited,
                    is_round_start,
                    draws.drain,
                    draws.probe_rtt,
                );
                &&& next.batch_acked == self.batch_acked
                &&& next.max_acked_packet_number == self.max_acked_packet_number
                &&& self.is_at_full_bandwidth || !is_round_start || app_limited
                    ==> next.ack_aggregation == self.ack_aggregation
                &&& next.round_count == self.round_count
                &&& next.round_lost == self.round_lost
                &&& next.round_delivered == self.round_delivered
                &&& next.loss_round == self.loss_round
                &&& next.rate_sample == self.rate_sample
                &&& next.delivered_total == self.delivered_total
                &&& next.max_bw_filter == self.max_bw_filter
                &&& next.min_rtt == self.min_rtt
                &&& next.min_cwnd == self.min_cwnd
                &&& next.init_cwnd == self.init_cwnd
                &&& next.current_mtu == self.current_mtu
                &&& next.acked_bytes == self.acked_bytes
                &&& next.max_sent_packet_number == self.max_sent_packet_number
                &&& next.config == self.config
                &&& next.cwnd == self.cwnd
                &&& next.pacing_rate == self.pacing_rate
                &&& next.inflight_hi == self.inflight_hi
                &&& next.inflight_lo == self.inflight_lo
                &&& next.bw_probe_samples == self.bw_probe_samples
                &&& next.loss_state == self.loss_state
                &&& next.recovery_state == self.recovery_state
                &&& next.recovery_window == self.recovery_window
                &&& next.end_recovery_at_packet_number == self.end_recovery_at_packet_number
                &&& self.mode == Mode::ProbeBw ==> next.cycle_phase == self.cycle_phase
                &&& next.mode == self.mode ==> {
                    &&& next.cycle_phase == self.cycle_phase
                    &&& next.pacing_gain == self.pacing_gain
                    &&& next.cwnd_gain == self.cwnd_gain
                    &&& next.loss_bursts_in_round == self.loss_bursts_in_round
                    &&& next.inflight_latest == self.inflight_latest
                    &&& next.bw_latest == self.bw_latest
                }
            }),
    {
        reveal(Bbr2::mode_changed);
    }

    /// The bounds after a batch. Before the pipe is full, both are what the end of the round and of the
    /// loss round made of them. With a full pipe, the newest sample then acts on the ceiling, and REFILL
    /// lifts the short-term bound where it begins. Changes of mode do not touch them.
    pub proof fn lemma_bounds_after_batch(
        self,
        now: Instant,
        in_flight: u64,
        app_limited: bool,
        largest_packet_num_acked: Option<u64>,
        draws: Draws,
    )
        ensures
            ({
                let next = self.batch_ended(
                    now,
                    in_flight,
                    app_limited,
                    largest_packet_num_acked,
                    draws,
                );
                let newest = match largest_packet_num_acked {
                    Some(largest) => largest,
                    None => self.max_acked_packet_number,
                };
                let starts = self.batch_acked > 0 && newest
                    > self.current_round_trip_end_packet_number;
                let counted = self.batch_counted(now, in_flight, largest_packet_num_acked);
                let adapted = counted.adapted(now, self.batch_acked, starts, draws.adapt);
                let cycled = adapted.cycled(now, in_flight, starts, draws.cycle);
                &&& !self.is_at_full_bandwidth ==> {
                    &&& next.inflight_hi == counted.inflight_hi
                    &&& next.inflight_lo == counted.inflight_lo
                    &&& next.bw_probe_samples == self.bw_probe_samples
                }
                &&& self.is_at_full_bandwidth ==> next.inflight_hi == adapted.inflight_hi
                &&& self.is_at_full_bandwidth && self.mode == Mode::ProbeBw ==> {
                    &&& next.cycle_phase == cycled.cycle_phase
                    &&& next.bw_probe_samples == cycled.bw_probe_samples
                    &&& next.inflight_lo == if adapted.cycle_phase != CyclePhase::Refill
                        && next.cycle_phase == CyclePhase::Refill {
                        u64::MAX
                    } else {
                        counted.inflight_lo
                    }
                }
                &&& self.is_at_full_bandwidth && self.mode != Mode::ProbeBw ==> {
                    &&& next.inflight_lo == counted.inflight_lo
                    &&& next.bw_probe_samples == adapted.bw_probe_samples
                }
            }),
    {
        let is_round_start = self.round_starts(largest_packet_num_acked);
        let counted = self.batch_counted(now, in_flight, largest_packet_num_acked);
        let probed = self.batch_probed(now, in_flight, largest_packet_num_acked, draws);
        assert(counted.mode == self.mode && counted.is_at_full_bandwidth
            == self.is_at_full_bandwidth && counted.bw_probe_samples == self.bw_probe_samples) by {
            reveal(Bbr2::taken_in);
            reveal(Bbr2::bounds_adjusted);
        }
        self.lemma_before_modes(now, in_flight, largest_packet_num_acked, draws);
        counted.lemma_probing_needs_a_full_pipe(
            now,
            self.batch_acked,
            in_flight,
            is_round_start,
            draws.adapt,
            draws.cycle,
        );
        probed.lemma_modes_keep_counts(now, in_flight, app_limited, is_round_start, draws);
        reveal(Bbr2::sized);
        reveal(Bbr2::closed);
    }

    /// Recovery after a batch: the state follows the losses, the start of a round and what was acked;
    /// the window starts at what was in flight before the acks, loses what was lost, and in growth gains
    /// what was acked, but covers what was in flight and the minimum window.
    pub proof fn lemma_recovery_after_batch(
        self,
        now: Instant,
        in_flight: u64,
        app_limited: bool,
        largest_packet_num_acked: Option<u64>,
        draws: Draws,
    )
        requires
            self.valid(),
            self.batch_fits(now, in_flight, app_limited, largest_packet_num_acked),
            draws.valid(),
        ensures
            ({
                let next = self.batch_ended(
                    now,
                    in_flight,
                    app_limited,
                    largest_packet_num_acked,
                    draws,
                );
                let newest = match largest_packet_num_acked {
                    Some(largest) => largest,
                    None => self.max_acked_packet_number,
                };
                let acked = self.batch_acked;
                let starts = acked > 0 && newest > self.current_round_trip_end_packet_number;
                let lost = self.loss_state.lost_bytes;
                let kept = if lost <= self.recovery_window {
                    self.recovery_window - lost
                } else {
                    self.current_mtu as int
                };
                let grown = if next.recovery_state == RecoveryState::Growth {
                    kept + acked
                } else {
                    kept
                };
                let recovers = self.recovery_state != RecoveryState::NotInRecovery;
                let set = recovers && self.recovery_window > 0;
                &&& !recovers ==> next.recovery_state == if lost > 0 {
                    RecoveryState::Conservation
                } else {
                    RecoveryState::NotInRecovery
                }
                &&& recovers ==> next.recovery_state == if lost == 0 && newest
                    > self.end_recovery_at_packet_number {
                    RecoveryState::NotInRecovery
                } else if starts {
                    RecoveryState::Growth
                } else {
                    self.recovery_state
                }
                &&& next.end_recovery_at_packet_number == if lost > 0 {
                    self.max_sent_packet_number
                } else {
                    self.end_recovery_at_packet_number
                }
                &&& next.recovery_state == RecoveryState::NotInRecovery ==> next.recovery_window
                    == self.recovery_window
                &&& next.recovery_state != RecoveryState::NotInRecovery ==> {
                    &&& next.recovery_window >= in_flight + acked
                    &&& next.recovery_window >= self.min_cwnd
                    &&& set ==> next.recovery_window >= grown
                    &&& next.recovery_window == in_flight + acked || next.recovery_window
                        == self.min_cwnd || (set && next.recovery_window == grown)
                }
            }),
    {
        let is_round_start = self.round_starts(largest_packet_num_acked);
        let counted = self.batch_counted(now, in_flight, largest_packet_num_acked);
        let probed = self.batch_probed(now, in_flight, largest_packet_num_acked, draws);
        let moded = self.batch_moded(now, in_flight, app_limited, largest_packet_num_acked, draws);
        let taken = self.taken_in(now, in_flight, largest_packet_num_acked);
        let updated = taken.recovery_updated(is_round_start);
        assert(taken.recovery_state == self.recovery_state && taken.recovery_window
            == self.recovery_window && taken.loss_state == self.loss_state
            && taken.max_acked_packet_number == self.newest_acked(largest_packet_num_acked)
            && taken.end_recovery_at_packet_number == self.end_recovery_at_packet_number
            && taken.max_sent_packet_number == self.max_sent_packet_number) by {
            reveal(Bbr2::taken_in);
        }
        taken.lemma_recovery_steps(is_round_start);
        self.lemma_recovery_before_sizing(
            now,
            in_flight,
            app_limited,
            largest_packet_num_acked,
            draws,
        );
        self.lemma_scale_before_sizing(
            now,
            in_flight,
            app_limited,
            largest_packet_num_acked,
            draws,
        );
        reveal(Bbr2::sizing_fits);
        reveal(Bbr2::sized);
        reveal(Bbr2::closed);
        assert(moded.sizing_fits(self.batch_acked, self.batch_excess(now), in_flight));
        let sized = moded.paced().grown(self.batch_acked, self.batch_excess(now));
        sized.lemma_recovery_window_steps(
            self.batch_acked,
            self.loss_state.lost_bytes,
            in_flight,
        );
    }

    /// A batch of STARTUP that leaves the flow there: the window grows by the acked bytes until the
    /// initial window has been acked, and after that where the target with the excess of the batch is
    /// more than the gain. The pacing rate does not go down, is the estimate times 2.885 or what it was,
    /// and no less than the former, once it is set.
    pub proof fn lemma_startup_batch(
        self,
        now: Instant,
        in_flight: u64,
        app_limited: bool,
        largest_packet_num_acked: Option<u64>,
        draws: Draws,
    )
        requires
            self.valid(),
            self.batch_fits(now, in_flight, app_limited, largest_packet_num_acked),
            draws.valid(),
            self.mode == Mode::Startup,
            self.pacing_gain.bits == 0x4038_a3d7,
            self.cwnd_gain.bits == 0x4038_a3d7,
            self.min_rtt.nanos <= u64::MAX,
            ({
                let next = self.batch_ended(
                    now,
                    in_flight,
                    app_limited,
                    largest_packet_num_acked,
                    draws,
                );
                next.mode == Mode::Startup && !next.is_at_full_bandwidth
            }),
        ensures
            ({
                let next = self.batch_ended(
                    now,
                    in_flight,
                    app_limited,
                    largest_packet_num_acked,
                    draws,
                );
                let gain = F32 { bits: 0x4038_a3d7 };
                let target = self.target_cwnd(gain) + self.batch_excess(now);
                let bw = self.max_bw_filter.first.value;
                &&& self.acked_bytes < self.init_cwnd || target >= 3 ==> next.cwnd == max(
                    (self.cwnd + self.batch_acked) as u64,
                    self.min_cwnd,
                )
                &&& self.acked_bytes >= self.init_cwnd && target <= 1 ==> next.cwnd == max(
                    self.cwnd,
                    self.min_cwnd,
                )
                &&& bw == 0 ==> next.pacing_rate == self.pacing_rate
                &&& bw > 0 && self.pacing_rate > 0 ==> {
                    &&& next.pacing_rate >= self.pacing_rate
                    &&& next.pacing_rate == self.pacing_rate || is_paced(next.pacing_rate, bw, gain)
                    &&& exists|t: u64| #[trigger] is_paced(t, bw, gain) && next.pacing_rate >= t
                }
            }),
    {
        let is_round_start = self.round_starts(largest_packet_num_acked);
        let probed = self.batch_probed(now, in_flight, largest_packet_num_acked, draws);
        let moded = self.batch_moded(now, in_flight, app_limited, largest_packet_num_acked, draws);
        let gain = F32 { bits: 0x4038_a3d7 };
        self.lemma_mode_after_batch(
            now,
            in_flight,
            app_limited,
            largest_packet_num_acked,
            draws,
        );
        self.lemma_before_modes(now, in_flight, largest_packet_num_acked, draws);
        probed.lemma_modes_keep_counts(now, in_flight, app_limited, is_round_start, draws);
        self.lemma_scale_before_sizing(
            now,
            in_flight,
            app_limited,
            largest_packet_num_acked,
            draws,
        );
        reveal(Bbr2::sizing_fits);
        reveal(Bbr2::sized);
        reveal(Bbr2::closed);
        assert(moded.sizing_fits(self.batch_acked, self.batch_excess(now), in_flight));
        assert(moded.mode == Mode::Startup && !moded.is_at_full_bandwidth);
        self.lemma_startup_keeps_gain(
            now,
            in_flight,
            app_limited,
            largest_packet_num_acked,
            draws,
        );
        assert(moded.target_cwnd(gain) == self.target_cwnd(gain));
        let paced = moded.paced();
        moded.lemma_pacing_before_full_pipe();
        assert(paced.target_cwnd(gain) == self.target_cwnd(gain));
        assert(paced.cwnd_gain == gain);
        lemma_above_gain(
            (self.target_cwnd(gain) + self.batch_excess(now)) as u64,
        );
    }

    proof fn lemma_startup_keeps_gain(
        self,
        now: Instant,
        in_flight: u64,
        app_limited: bool,
        largest_packet_num_acked: Option<u64>,
        draws: Draws,
    )
        requires
            self.mode == Mode::Startup,
            self.batch_moded(
                now,
                in_flight,
                app_limited,
                largest_packet_num_acked,
                draws,
            ).mode == Mode::Startup,
            !self.batch_moded(
                now,
                in_flight,
                app_limited,
                largest_packet_num_acked,
                draws,
            ).is_at_full_bandwidth,
        ensures
            ({
                let next = self.batch_moded(
                    now,
                    in_flight,
                    app_limited,
                    largest_packet_num_acked,
                    draws,
                );
                next.pacing_gain == self.pacing_gain && next.cwnd_gain == self.cwnd_gain
            }),
    {
        let is_round_start = self.round_starts(largest_packet_num_acked);
        let counted = self.batch_counted(now, in_flight, largest_packet_num_acked);
        let probed = self.batch_probed(now, in_flight, largest_packet_num_acked, draws);
        assert(counted.pacing_gain == self.pacing_gain && counted.cwnd_gain == self.cwnd_gain
            && counted.mode == self.mode) by {
            reveal(Bbr2::taken_in);
            reveal(Bbr2::bounds_adjusted);
        }
        assert(probed.pacing_gain == counted.pacing_gain && probed.cwnd_gain == counted.cwnd_gain
            && probed.mode == counted.mode) by {
            reveal(Bbr2::bandwidth_probed);
        }
        probed.lemma_modes_keep_counts(now, in_flight, app_limited, is_round_start, draws);
    }
}

} // verus!
