//! The scale of a controller: bandwidth, round-trip time and windows, which the end of a batch leaves
//! alone until it sizes the windows.

use crate::congestion::bbr2::batch::Draws;
use crate::congestion::bbr2::probe_bw::ProbeWait;
use crate::congestion::bbr2::window::{lemma_gains_are_moderate, TARGET_LIMIT};
use crate::congestion::bbr2::{
    Bbr2, K_DERIVED_HIGH_CWNDGAIN, K_MODERATE_PROBE_RTT_MULTIPLIER, K_PROBE_RTT_TIME_NANOS,
};
use crate::float::F32;
use crate::ints::max;
use crate::time::Instant;
use vstd::prelude::*;

verus! {

impl Bbr2 {
    /// The largest window that the bandwidth can call for.
    pub open spec fn target_ceiling(self) -> u64 {
        max(TARGET_LIMIT, max(self.min_cwnd, self.init_cwnd))
    }

    /// What the end of a batch adds to has room for it, with the target windows taken at their
    /// largest.
    pub open spec fn has_room(
        self,
        now: Instant,
        in_flight: u64,
        largest_packet_num_acked: Option<u64>,
    ) -> bool {
        let acked = self.batch_acked;
        &&& self.intake_fits(now, in_flight, largest_packet_num_acked)
        &&& self.round_starts(largest_packet_num_acked) ==> self.round_lost
            + self.loss_state.lost_bytes + self.round_delivered + acked <= u64::MAX
        &&& self.bdp_fits()
        &&& self.is_at_full_bandwidth || self.round_wo_bw_gain < u64::MAX
        &&& self.is_at_full_bandwidth ==> self.batch_counted(
            now,
            in_flight,
            largest_packet_num_acked,
        ).adapt_fits(acked)
        &&& self.cwnd + acked <= u64::MAX
        &&& self.recovery_window == 0 || max(self.recovery_window, self.current_mtu) + acked
            <= u64::MAX
        &&& self.pacing_fits()
        &&& self.target_ceiling() + self.current_mtu <= u64::MAX
        &&& self.target_ceiling() + self.batch_excess(now) <= u64::MAX
        &&& self.target_ceiling() + self.ack_aggregation.max_ack_height.first.value <= u64::MAX
        &&& now.nanos + K_PROBE_RTT_TIME_NANOS <= u128::MAX
    }

    /// `next` has the same bandwidth, round-trip time and windows as `self`; its recovery window may
    /// have been unset.
    pub open spec fn same_scale(self, next: Bbr2) -> bool {
        &&& next.current_mtu == self.current_mtu
        &&& next.max_bw_filter == self.max_bw_filter
        &&& next.min_rtt == self.min_rtt
        &&& next.init_cwnd == self.init_cwnd
        &&& next.min_cwnd == self.min_cwnd
        &&& next.cwnd == self.cwnd
        &&& next.loss_state == self.loss_state
        &&& next.high_cwnd_gain == self.high_cwnd_gain
        &&& next.recovery_window == self.recovery_window || next.recovery_window == 0
        &&& {
            ||| next.cwnd_gain == self.cwnd_gain
            ||| next.cwnd_gain == self.high_cwnd_gain
            ||| next.cwnd_gain == (F32 { bits: K_DERIVED_HIGH_CWNDGAIN })
        }
    }

    proof fn lemma_counting_keeps_scale(
        self,
        now: Instant,
        in_flight: u64,
        largest_packet_num_acked: Option<u64>,
    )
        requires
            self.valid(),
        ensures
            ({
                let next = self.batch_counted(now, in_flight, largest_packet_num_acked);
                &&& self.same_scale(next)
                &&& next.batch_acked == 0
                &&& next.is_at_full_bandwidth == self.is_at_full_bandwidth
                &&& next.pacing_rate == self.pacing_rate
                &&& next.round_wo_bw_gain == self.round_wo_bw_gain
                &&& next.ack_aggregation.max_ack_height.first.value <= max(
                    self.ack_aggregation.max_ack_height.first.value,
                    self.batch_excess(now),
                )
            }),
    {
        reveal(Bbr2::taken_in);
        reveal(Bbr2::bounds_adjusted);
        self.ack_aggregation.max_ack_height.lemma_estimate_bound(
            self.round_count,
            self.batch_excess(now),
        );
    }

    proof fn lemma_probing_keeps_scale(
        self,
        now: Instant,
        bytes_acked: u64,
        in_flight: u64,
        is_round_start: bool,
        adapt: ProbeWait,
        cycle: ProbeWait,
    )
        ensures
            ({
                let adapted = self.adapted(now, bytes_acked, is_round_start, adapt);
                let next = self.bandwidth_probed(
                    now,
                    bytes_acked,
                    in_flight,
                    is_round_start,
                    adapt,
                    cycle,
                );
                &&& self.same_scale(adapted)
                &&& self.same_scale(next)
                &&& next.batch_acked == self.batch_acked
                &&& next.is_at_full_bandwidth == self.is_at_full_bandwidth
                &&& next.pacing_rate == self.pacing_rate
                &&& next.round_wo_bw_gain == self.round_wo_bw_gain
                &&& next.ack_aggregation == self.ack_aggregation
            }),
    {
        reveal(Bbr2::bandwidth_probed);
    }

    proof fn lemma_modes_keep_scale(
        self,
        now: Instant,
        in_flight: u64,
        app_limited: bool,
        is_round_start: bool,
        drain: ProbeWait,
        probe_rtt: ProbeWait,
    )
        ensures
            ({
                let checked = self.growth_checked(app_limited, is_round_start);
                let drained = checked.drained(now, in_flight, drain);
                let next = self.mode_changed(
                    now,
                    in_flight,
                    app_limited,
                    is_round_start,
                    drain,
                    probe_rtt,
                );
                &&& self.same_scale(checked)
                &&& self.same_scale(drained)
                &&& self.same_scale(next)
                &&& next.batch_acked == self.batch_acked
                &&& self.is_at_full_bandwidth ==> next.is_at_full_bandwidth
                &&& next.pacing_rate == self.pacing_rate
                &&& next.ack_aggregation.max_ack_height.first.value
                    <= self.ack_aggregation.max_ack_height.first.value
            }),
    {
        reveal(Bbr2::mode_changed);
    }

    /// Up to the sizing of the window, the end of a batch leaves the scale alone, and has counted the
    /// batch.
    pub(crate) proof fn lemma_scale_before_sizing(
        self,
        now: Instant,
        in_flight: u64,
        app_limited: bool,
        largest_packet_num_acked: Option<u64>,
        draws: Draws,
    )
        requires
            self.valid(),
        ensures
            ({
                let next = self.batch_moded(
                    now,
                    in_flight,
                    app_limited,
                    largest_packet_num_acked,
                    draws,
                );
                &&& self.same_scale(next)
                &&& next.batch_acked == 0
            }),
    {
        let is_round_start = self.round_starts(largest_packet_num_acked);
        self.lemma_counting_keeps_scale(now, in_flight, largest_packet_num_acked);
        self.batch_counted(now, in_flight, largest_packet_num_acked).lemma_probing_keeps_scale(
            now,
            self.batch_acked,
            in_flight,
            is_round_start,
            draws.adapt,
            draws.cycle,
        );
        self.batch_probed(now, in_flight, largest_packet_num_acked, draws).lemma_modes_keep_scale(
            now,
            in_flight,
            app_limited,
            is_round_start,
            draws.drain,
            draws.probe_rtt,
        );
    }

    /// With room for what it adds, the end of the batch can be computed, whatever is drawn.
    pub proof fn lemma_room_is_enough(
        self,
        now: Instant,
        in_flight: u64,
        app_limited: bool,
        largest_packet_num_acked: Option<u64>,
    )
        requires
            self.valid(),
            self.has_room(now, in_flight, largest_packet_num_acked),
        ensures
            self.batch_fits(now, in_flight, app_limited, largest_packet_num_acked),
    {
        let acked = self.batch_acked;
        let is_round_start = self.round_starts(largest_packet_num_acked);
        let counted = self.batch_counted(now, in_flight, largest_packet_num_acked);
        self.lemma_counting_keeps_scale(now, in_flight, largest_packet_num_acked);
        lemma_gains_are_moderate();
        assert forall|draws: Draws| #[trigger] draws.valid() implies {
            &&& counted.probing_fits(now, acked, is_round_start, draws.adapt)
            &&& self.batch_probed(now, in_flight, largest_packet_num_acked, draws).mode_fits(
                now,
                in_flight,
                app_limited,
                is_round_start,
                draws.drain,
            )
            &&& self.batch_moded(
                now,
                in_flight,
                app_limited,
                largest_packet_num_acked,
                draws,
            ).sizing_fits(acked, self.batch_excess(now), in_flight)
        } by {
            let probed = self.batch_probed(now, in_flight, largest_packet_num_acked, draws);
            let moded = self.batch_moded(
                now,
                in_flight,
                app_limited,
                largest_packet_num_acked,
                draws,
            );
            counted.lemma_probing_keeps_scale(
                now,
                acked,
                in_flight,
                is_round_start,
                draws.adapt,
                draws.cycle,
            );
            probed.lemma_modes_keep_scale(
                now,
                in_flight,
                app_limited,
                is_round_start,
                draws.drain,
                draws.probe_rtt,
            );
            assert(counted.probing_fits(now, acked, is_round_start, draws.adapt)) by {
                reveal(Bbr2::probing_fits);
            }
            assert(probed.mode_fits(now, in_flight, app_limited, is_round_start, draws.drain)) by {
                reveal(Bbr2::mode_fits);
                let drained = probed.growth_checked(app_limited, is_round_start).drained(
                    now,
                    in_flight,
                    draws.drain,
                );
                drained.lemma_target_bound(F32 { bits: K_MODERATE_PROBE_RTT_MULTIPLIER });
            }
            assert(moded.sizing_fits(acked, self.batch_excess(now), in_flight)) by {
                reveal(Bbr2::sizing_fits);
                moded.lemma_target_bound(moded.cwnd_gain);
            }
        }
    }
}

} // verus!
