//! Whole batches, and what a controller starts with.

use crate::congestion::bbr2::batch::Draws;
use crate::congestion::bbr2::laws::bounds::is_seven_tenths_above;
use crate::congestion::bbr2::{delivery_rate, Bbr2, Bbr2Config, CyclePhase, LossState, Mode, RecoveryState};
use crate::congestion::Controller;
use crate::float::F32;
use crate::ints::max;
use crate::time::{Duration, Instant};
use vstd::prelude::*;

verus! {

impl Bbr2 {
    /// A batch is counted: what it lost and delivered adds to the round, and the largest packet acked is
    /// noted. With acked bytes, a packet that was sent after the last round started starts a round: what
    /// was sent by then ends it, and whether the window was used up but for less than a datagram, acked
    /// bytes included, is noted for the round. Aggregation takes the acked bytes in with the round that
    /// was under way and the estimate. Nothing else changes.
    pub proof fn lemma_batch_is_counted(
        self,
        now: Instant,
        in_flight: u64,
        largest_packet_num_acked: Option<u64>,
    )
        requires
            self.intake_fits(now, in_flight, largest_packet_num_acked),
        ensures
            ({
                let next = self.taken_in(now, in_flight, largest_packet_num_acked);
                let newest = match largest_packet_num_acked {
                    Some(largest) => largest,
                    None => self.max_acked_packet_number,
                };
                let starts = self.batch_acked > 0 && newest
                    > self.current_round_trip_end_packet_number;
                &&& next.batch_acked == 0
                &&& next.ack_aggregation == self.ack_aggregation.acked(
                    self.batch_acked,
                    now,
                    self.round_count,
                    self.max_bw_filter.first.value,
                )
                &&& self.batch_excess(now) == self.ack_aggregation.excess(
                    self.batch_acked,
                    now,
                    self.max_bw_filter.first.value,
                )
                &&& next.max_acked_packet_number == newest
                &&& next.round_lost - self.round_lost == self.loss_state.lost_bytes
                &&& next.round_delivered - self.round_delivered == self.batch_acked
                &&& starts ==> {
                    &&& next.round_count == self.round_count + 1
                    &&& next.current_round_trip_end_packet_number == self.max_sent_packet_number
                    &&& self.current_mtu > 0 ==> next.cwnd_limited_in_round == (self.cwnd
                        < in_flight + self.batch_acked + self.current_mtu)
                }
                &&& !starts ==> {
                    &&& next.round_count == self.round_count
                    &&& next.current_round_trip_end_packet_number
                        == self.current_round_trip_end_packet_number
                    &&& next.cwnd_limited_in_round == self.cwnd_limited_in_round
                }
                &&& next == Bbr2 {
                    batch_acked: next.batch_acked,
                    max_acked_packet_number: next.max_acked_packet_number,
                    round_lost: next.round_lost,
                    round_delivered: next.round_delivered,
                    round_count: next.round_count,
                    current_round_trip_end_packet_number: next.current_round_trip_end_packet_number,
                    cwnd_limited_in_round: next.cwnd_limited_in_round,
                    ack_aggregation: next.ack_aggregation,
                    ..self
                }
            }),
    {
        reveal(Bbr2::taken_in);
    }

    /// The bounds at the end of a batch, before bandwidth is probed: the short-term bound collapses at
    /// the end of a loss round with a loss, in DRAIN, PROBE_RTT, DOWN and CRUISE; the ceiling follows
    /// the round that ends, with this batch in it.
    pub proof fn lemma_batch_adjusts_bounds(
        self,
        now: Instant,
        in_flight: u64,
        largest_packet_num_acked: Option<u64>,
    )
        requires
            self.intake_fits(now, in_flight, largest_packet_num_acked),
        ensures
            ({
                let next = self.batch_counted(now, in_flight, largest_packet_num_acked);
                let newest = match largest_packet_num_acked {
                    Some(largest) => largest,
                    None => self.max_acked_packet_number,
                };
                let starts = self.batch_acked > 0 && newest
                    > self.current_round_trip_end_packet_number;
                let ends = self.batch_acked > 0 && self.rate_sample.prior_delivered
                    >= self.loss_round.next_round_delivered;
                let steady = self.mode == Mode::Drain || self.mode == Mode::ProbeRtt || (self.mode
                    == Mode::ProbeBw && (self.cycle_phase == CyclePhase::Down || self.cycle_phase
                    == CyclePhase::Cruise));
                let before = if self.inflight_lo == u64::MAX {
                    self.cwnd
                } else {
                    self.inflight_lo
                };
                let round = Bbr2 {
                    round_lost: (self.round_lost + self.loss_state.lost_bytes) as u64,
                    round_delivered: (self.round_delivered + self.batch_acked) as u64,
                    ..self
                };
                &&& ends && steady && self.loss_bursts_in_round > 0 ==> is_seven_tenths_above(
                    next.inflight_lo,
                    before,
                    self.inflight_latest,
                )
                &&& !ends || !steady || self.loss_bursts_in_round == 0 ==> next.inflight_lo
                    == self.inflight_lo
                &&& next.inflight_hi == if starts {
                    round.ceiling_updated(in_flight).inflight_hi
                } else {
                    self.inflight_hi
                }
            }),
    {
        let is_round_start = self.round_starts(largest_packet_num_acked);
        let counted = self.taken_in(now, in_flight, largest_packet_num_acked).recovery_updated(
            is_round_start,
        );
        reveal(Bbr2::taken_in);
        counted.lemma_lossy_round_lowers(self.batch_acked, in_flight, is_round_start);
    }

    /// Up to the sizing of the windows, the end of a batch leaves the recovery state as its losses put
    /// it.
    pub(crate) proof fn lemma_recovery_before_sizing(
        self,
        now: Instant,
        in_flight: u64,
        app_limited: bool,
        largest_packet_num_acked: Option<u64>,
        draws: Draws,
    )
        ensures
            ({
                let next = self.batch_moded(
                    now,
                    in_flight,
                    app_limited,
                    largest_packet_num_acked,
                    draws,
                );
                let updated = self.taken_in(
                    now,
                    in_flight,
                    largest_packet_num_acked,
                ).recovery_updated(self.round_starts(largest_packet_num_acked));
                &&& next.recovery_state == updated.recovery_state
                &&& next.recovery_window == updated.recovery_window
                &&& next.end_recovery_at_packet_number == updated.end_recovery_at_packet_number
            }),
    {
        let is_round_start = self.round_starts(largest_packet_num_acked);
        let counted = self.batch_counted(now, in_flight, largest_packet_num_acked);
        let probed = self.batch_probed(now, in_flight, largest_packet_num_acked, draws);
        let updated = self.taken_in(now, in_flight, largest_packet_num_acked).recovery_updated(
            is_round_start,
        );
        assert(counted.recovery_state == updated.recovery_state && counted.recovery_window
            == updated.recovery_window && counted.end_recovery_at_packet_number
            == updated.end_recovery_at_packet_number) by {
            reveal(Bbr2::bounds_adjusted);
        }
        counted.lemma_probing_keeps_recovery(
            now,
            self.batch_acked,
            in_flight,
            is_round_start,
            draws,
        );
        probed.lemma_modes_keep_recovery(now, in_flight, app_limited, is_round_start, draws);
    }

    proof fn lemma_probing_keeps_recovery(
        self,
        now: Instant,
        bytes_acked: u64,
        in_flight: u64,
        is_round_start: bool,
        draws: Draws,
    )
        ensures
            ({
                let next = self.bandwidth_probed(
                    now,
                    bytes_acked,
                    in_flight,
                    is_round_start,
                    draws.adapt,
                    draws.cycle,
                );
                &&& next.recovery_state == self.recovery_state
                &&& next.recovery_window == self.recovery_window
                &&& next.end_recovery_at_packet_number == self.end_recovery_at_packet_number
                &&& next.mode == self.mode
                &&& next.is_at_full_bandwidth == self.is_at_full_bandwidth
                &&& next.bw_at_last_round == self.bw_at_last_round
                &&& next.round_wo_bw_gain == self.round_wo_bw_gain
            }),
    {
        reveal(Bbr2::bandwidth_probed);
    }

    proof fn lemma_modes_keep_recovery(
        self,
        now: Instant,
        in_flight: u64,
        app_limited: bool,
        is_round_start: bool,
        draws: Draws,
    )
        ensures
            ({
                let next = self.mode_changed(
                    now,
                    in_flight,
                    app_limited,
                    is_round_start,
                    draws.drain,
                    draws.probe_rtt,
                );
                &&& next.recovery_state == self.recovery_state
                &&& next.recovery_window == self.recovery_window
                &&& next.end_recovery_at_packet_number == self.end_recovery_at_packet_number
            }),
    {
        reveal(Bbr2::mode_changed);
    }

    /// Whether the pipe counts as full after a batch: as before, but for the start of a round that is
    /// not app-limited, without growth, and the third in a row or in recovery.
    pub proof fn lemma_batch_fills_the_pipe(
        self,
        now: Instant,
        in_flight: u64,
        app_limited: bool,
        largest_packet_num_acked: Option<u64>,
        draws: Draws,
    )
        requires
            self.valid(),
            self.bw_at_last_round < 0x4_0000_0000_0000,
            self.round_wo_bw_gain < u64::MAX,
        ensures
            ({
                let next = self.batch_ended(
                    now,
                    in_flight,
                    app_limited,
                    largest_packet_num_acked,
                    draws,
                );
                let newest = match largest_packet_num_acked {
                    Some(largest) => largest,
                    None => self.max_acked_packet_number,
                };
                let starts = self.batch_acked > 0 && newest
                    > self.current_round_trip_end_packet_number;
                let grows = 4 * self.max_bw_filter.first.value + 3 >= 5 * self.bw_at_last_round;
                next.is_at_full_bandwidth == (self.is_at_full_bandwidth || (starts && !app_limited
                    && !grows && (self.round_wo_bw_gain >= 2 || next.recovery_state
                    != RecoveryState::NotInRecovery)))
            }),
    {
        let is_round_start = self.round_starts(largest_packet_num_acked);
        let counted = self.batch_counted(now, in_flight, largest_packet_num_acked);
        let probed = self.batch_probed(now, in_flight, largest_packet_num_acked, draws);
        assert(counted.is_at_full_bandwidth == self.is_at_full_bandwidth
            && counted.bw_at_last_round == self.bw_at_last_round && counted.round_wo_bw_gain
            == self.round_wo_bw_gain && counted.max_bw_filter == self.max_bw_filter) by {
            reveal(Bbr2::taken_in);
            reveal(Bbr2::bounds_adjusted);
        }
        counted.lemma_probing_keeps_recovery(
            now,
            self.batch_acked,
            in_flight,
            is_round_start,
            draws,
        );
        self.lemma_recovery_before_sizing(
            now,
            in_flight,
            app_limited,
            largest_packet_num_acked,
            draws,
        );
        probed.lemma_modes_keep_recovery(now, in_flight, app_limited, is_round_start, draws);
        assert(probed.max_bw_filter == self.max_bw_filter) by {
            reveal(Bbr2::bandwidth_probed);
        }
        probed.lemma_growth_of_a_round(app_limited);
        let moded = self.batch_moded(now, in_flight, app_limited, largest_packet_num_acked, draws);
        let checked = probed.growth_checked(app_limited, is_round_start);
        assert(moded.is_at_full_bandwidth == checked.is_at_full_bandwidth) by {
            reveal(Bbr2::mode_changed);
        }
        assert(self.batch_ended(
            now,
            in_flight,
            app_limited,
            largest_packet_num_acked,
            draws,
        ).is_at_full_bandwidth == moded.is_at_full_bandwidth && self.batch_ended(
            now,
            in_flight,
            app_limited,
            largest_packet_num_acked,
            draws,
        ).recovery_state == moded.recovery_state) by {
            reveal(Bbr2::sized);
            reveal(Bbr2::closed);
        }
    }

    /// Where a batch ends: the start of a loss round forgets its bursts and takes its maxima from the
    /// newest sample; the start of a round forgets what the last one lost and delivered; the losses of
    /// the batch are forgotten. Nothing else changes.
    pub proof fn lemma_batch_is_closed(self, is_round_start: bool, loss_round_start: bool)
        ensures
            ({
                let next = self.closed(is_round_start, loss_round_start);
                &&& next.loss_state.lost_bytes == 0
                &&& is_round_start ==> next.round_lost == 0 && next.round_delivered == 0
                &&& !is_round_start ==> next.round_lost == self.round_lost && next.round_delivered
                    == self.round_delivered
                &&& loss_round_start ==> {
                    &&& next.loss_bursts_in_round == 0
                    &&& next.inflight_latest == self.rate_sample.delivered
                    &&& match delivery_rate(self.rate_sample) {
                        Some(rate) => next.bw_latest == rate,
                        None => next.bw_latest == 0,
                    }
                }
                &&& !loss_round_start ==> next.loss_bursts_in_round == self.loss_bursts_in_round
                    && next.inflight_latest == self.inflight_latest && next.bw_latest
                    == self.bw_latest
                &&& next == Bbr2 {
                    loss_state: LossState { lost_bytes: 0 },
                    round_lost: next.round_lost,
                    round_delivered: next.round_delivered,
                    loss_bursts_in_round: next.loss_bursts_in_round,
                    inflight_latest: next.inflight_latest,
                    bw_latest: next.bw_latest,
                    ..self
                }
            }),
    {
        reveal(Bbr2::closed);
    }

    /// What packets sent and lost do: the number of the last packet sent is noted; lost bytes add up.
    /// Nothing else changes.
    pub proof fn lemma_sent_and_lost(self, last_packet_number: u64, lost_bytes: u64)
        requires
            self.loss_state.lost_bytes + lost_bytes <= u64::MAX,
        ensures
            self.sent(last_packet_number).max_sent_packet_number == last_packet_number,
            self.sent(last_packet_number) == (Bbr2 {
                max_sent_packet_number: last_packet_number,
                ..self
            }),
            self.lost(lost_bytes).loss_state.lost_bytes - self.loss_state.lost_bytes == lost_bytes,
            self.lost(lost_bytes) == (Bbr2 {
                loss_state: self.lost(lost_bytes).loss_state,
                ..self
            }),
    {
    }

    /// The pacing rate is reported in bits per second, up to the largest integer.
    pub proof fn lemma_reported_rate(self)
        ensures
            8 * self.pacing_rate <= u64::MAX ==> self.rate_in_bits() == 8 * self.pacing_rate,
            8 * self.pacing_rate > u64::MAX ==> self.rate_in_bits() == u64::MAX,
    {
    }

    /// The initial window is the configured one, in every state.
    pub proof fn lemma_first_window(self)
        ensures
            self.first_window() == self.config.initial_window,
    {
    }

    /// What holds of every valid state: datagrams are those of a path, the minimum window is four of
    /// them, the slope of UP has its cap, the filters are in order and not ahead of the round, and the
    /// gains are 2.885, its inverse, and 2.885 or 2 for the window.
    pub proof fn lemma_valid_states(self)
        ensures
            self.valid() <==> {
                &&& self.current_mtu <= 65_535
                &&& self.min_cwnd == 4 * self.current_mtu
                &&& self.bw_probe_up_rounds <= 30
                &&& self.max_bw_filter.first.value >= self.max_bw_filter.second.value
                    >= self.max_bw_filter.third.value
                &&& self.max_bw_filter.first.time <= self.max_bw_filter.second.time
                    <= self.max_bw_filter.third.time <= self.round_count
                &&& self.ack_aggregation.max_ack_height.first.value
                    >= self.ack_aggregation.max_ack_height.second.value
                    >= self.ack_aggregation.max_ack_height.third.value
                &&& self.ack_aggregation.max_ack_height.first.time
                    <= self.ack_aggregation.max_ack_height.second.time
                    <= self.ack_aggregation.max_ack_height.third.time <= self.round_count
                &&& self.high_gain.bits == 0x4038_a3d7
                &&& self.drain_gain.bits == 0x3eb1_783c
                &&& self.high_cwnd_gain.bits == 0x4038_a3d7
                &&& self.cwnd_gain.bits == 0x4038_a3d7 || self.cwnd_gain.bits == 0x4000_0000
            },
    {
    }

    /// A new controller is in STARTUP with the configured window, or the minimum window of four
    /// datagrams if that is larger; it has no estimate, no pacing rate, no bounds and no losses, and
    /// grows by 2.885 each round.
    pub proof fn lemma_new_controller(self, config: Bbr2Config, mtu: u16)
        requires
            self.is_initial(config, mtu),
        ensures
            self.valid(),
            self.window_fits(),
            self.window_size() == max(config.initial_window, (4 * mtu) as u64),
            self.first_window() == config.initial_window,
            *self.config == config,
            self.cwnd == config.initial_window,
            self.init_cwnd == config.initial_window,
            self.min_cwnd == 4 * mtu,
            self.current_mtu == mtu,
            self.mode == Mode::Startup,
            self.recovery_state == RecoveryState::NotInRecovery,
            !self.is_at_full_bandwidth,
            !self.bw_probe_samples,
            !self.exiting_quiescence,
            self.pacing_gain == (F32 { bits: 0x4038_a3d7 }),
            self.cwnd_gain == (F32 { bits: 0x4038_a3d7 }),
            self.max_bw_filter.window == 10,
            self.max_bw_filter.first.value == 0,
            self.ack_aggregation.max_ack_height.window == 10,
            self.ack_aggregation.max_ack_height.first.value == 0,
            self.ack_aggregation.aggregation_epoch_start_time is None,
            self.ack_aggregation.aggregation_epoch_bytes == 0,
            self.pacing_rate == 0,
            self.min_rtt == (Duration { nanos: 0 }),
            self.probe_rtt_last_started_at is None,
            self.exit_probe_rtt_at is None,
            self.cycle_start is None,
            self.inflight_hi == u64::MAX,
            self.inflight_lo == u64::MAX,
            self.loss_state.lost_bytes == 0,
            self.loss_bursts_in_round == 0,
            self.batch_acked == 0,
            self.acked_bytes == 0,
            self.round_count == 0,
            self.round_lost == 0,
            self.round_delivered == 0,
            self.round_wo_bw_gain == 0,
            self.bw_at_last_round == 0,
            self.max_sent_packet_number == 0,
            self.max_acked_packet_number == 0,
            self.loss_round.next_round_delivered == 0,
            self.rate_sample.prior_delivered == 0,
            self.rate_sample.delivered == 0,
            self.delivered_total == 0,
            self.recovery_window == 0,
            self.end_recovery_at_packet_number == 0,
            self.current_round_trip_end_packet_number == 0,
            self.cycle_phase == CyclePhase::Up,
            self.bw_probe_wait == (Duration { nanos: 2_000_000_000 }),
            self.bw_probe_up_rounds == 0,
            self.bw_probe_up_acks == 0,
            self.bw_probe_up_cnt == u64::MAX,
            self.rounds_since_bw_probe == 0,
            self.bw_latest == 0,
            self.inflight_latest == 0,
            self.high_gain == (F32 { bits: 0x4038_a3d7 }),
            self.high_cwnd_gain == (F32 { bits: 0x4038_a3d7 }),
            self.drain_gain == (F32 { bits: 0x3eb1_783c }),
    {
    }
}

} // verus!
