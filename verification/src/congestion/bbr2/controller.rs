//! The events that the controller is told of.

use crate::congestion::bbr2::batch::Draws;
use crate::congestion::bbr2::probe_bw::{lemma_some_wait, ProbeWait};
use crate::congestion::bbr2::{
    calculate_min_window, delivery_rate, sample_delivery_rate, Bbr2, Bbr2Config, LossState, Mode,
    RecoveryState,
};
use crate::congestion::{
    Controller, ControllerFactory, ControllerMetrics, LossSample, RateSample, RttEstimator,
};
use crate::ints::{max, min, saturating_mul};
use crate::time::Instant;
use std::sync::Arc;
use vstd::prelude::*;

verus! {

impl Bbr2 {
    /// The state after packets up to `last_packet_number` were sent.
    pub open spec fn sent(self, last_packet_number: u64) -> Bbr2 {
        Bbr2 { max_sent_packet_number: last_packet_number, ..self }
    }

    /// The state after `bytes` were lost.
    pub open spec fn lost(self, bytes: u64) -> Bbr2 {
        Bbr2 {
            loss_state: LossState { lost_bytes: (self.loss_state.lost_bytes + bytes) as u64 },
            ..self
        }
    }

    /// The pacing rate in bits per second.
    pub open spec fn rate_in_bits(self) -> u64 {
        saturating_mul(self.pacing_rate, 8)
    }

    /// The state after `bytes` were acked: the minimum round-trip time follows the estimate where
    /// that is lower, or where its own is out of date.
    pub open spec fn acked(
        self,
        now: Instant,
        bytes: u64,
        app_limited: bool,
        rtt: RttEstimator,
    ) -> Bbr2 {
        Bbr2 {
            acked_bytes: (self.acked_bytes + bytes) as u64,
            min_rtt: if self.min_rtt_expired(now, app_limited) || self.min_rtt.nanos
                > rtt.min.nanos {
                rtt.min
            } else {
                self.min_rtt
            },
            ..self
        }
    }

    /// `sample` enters the bandwidth estimate: one that was app-limited only if it does not lower
    /// it.
    pub open spec fn counts_for_bandwidth(self, sample: RateSample) -> bool {
        match delivery_rate(sample) {
            Some(rate) => !sample.is_app_limited || rate >= self.bandwidth(),
            None => false,
        }
    }

    /// The state after `sample`: the sample of the packet sent last is kept, the totals grow, and
    /// the maxima take the sample in.
    pub open spec fn sampled(self, sample: RateSample) -> Bbr2 {
        let rate = delivery_rate(sample);
        Bbr2 {
            rate_sample: if sample.prior_delivered >= self.rate_sample.prior_delivered {
                sample
            } else {
                self.rate_sample
            },
            delivered_total: max(
                self.delivered_total,
                (sample.prior_delivered + sample.delivered) as u64,
            ),
            batch_acked: (self.batch_acked + sample.bytes_acked) as u64,
            max_bw_filter: if self.counts_for_bandwidth(sample) {
                self.max_bw_filter.updated(self.round_count, rate->0)
            } else {
                self.max_bw_filter
            },
            bw_latest: match rate {
                Some(rate) => max(self.bw_latest, rate),
                None => self.bw_latest,
            },
            inflight_latest: max(self.inflight_latest, sample.delivered),
            ..self
        }
    }

    /// The state with the loss of `sample` counted: the first one of a loss round sets the round's
    /// end.
    pub open spec fn burst_counted(self, sample: LossSample) -> Bbr2 {
        Bbr2 {
            loss_round: if self.loss_bursts_in_round == 0 {
                self.loss_round.extended(sample.delivered)
            } else {
                self.loss_round
            },
            loss_bursts_in_round: if sample.new_loss_burst {
                self.loss_bursts_in_round.saturating_add(1)
            } else {
                self.loss_bursts_in_round
            },
            ..self
        }
    }

    /// `sample` is of a probe for bandwidth, and calls for a reaction.
    pub open spec fn reacts_to(self, sample: LossSample) -> bool {
        self.bw_probe_samples && self.burst_counted(sample).loss_too_high(
            sample.lost,
            sample.tx_in_flight,
        )
    }

    /// The state after the loss of `sample`.
    pub open spec fn loss_sampled(self, now: Instant, sample: LossSample, wait: ProbeWait) -> Bbr2 {
        let counted = self.burst_counted(sample);
        if self.reacts_to(sample) {
            counted.backed_off(now, sample.is_app_limited, self.crossing(sample) as u64, wait)
        } else {
            counted
        }
    }

    /// The state on a path with datagrams of `new_mtu` bytes.
    pub open spec fn mtu_updated(self, new_mtu: u16) -> Bbr2 {
        let min_cwnd = (4 * new_mtu) as u64;
        Bbr2 {
            current_mtu: new_mtu as u64,
            min_cwnd,
            init_cwnd: max(self.config.initial_window, min_cwnd),
            cwnd: max(self.cwnd, min_cwnd),
            ..self
        }
    }

    /// The window before the bounds on what is in flight apply.
    pub open spec fn base_window(self) -> u64 {
        if self.mode == Mode::ProbeRtt {
            min(self.cwnd, self.probe_rtt_cwnd())
        } else if self.recovery_state != RecoveryState::NotInRecovery && self.mode
            != Mode::Startup {
            min(self.cwnd, self.recovery_window)
        } else {
            self.cwnd
        }
    }
}

impl Controller for Bbr2 {
    open spec fn wf(&self) -> bool {
        self.valid()
    }

    open spec fn sent_fits(&self, now: Instant, bytes: u64, last_packet_number: u64) -> bool {
        true
    }

    open spec fn ack_fits(
        &self,
        now: Instant,
        sent: Instant,
        bytes: u64,
        app_limited: bool,
        rtt: &RttEstimator,
    ) -> bool {
        self.acked_bytes + bytes <= u64::MAX
    }

    open spec fn end_acks_fits(
        &self,
        now: Instant,
        in_flight: u64,
        app_limited: bool,
        largest_packet_num_acked: Option<u64>,
    ) -> bool {
        self.batch_fits(now, in_flight, app_limited, largest_packet_num_acked)
    }

    open spec fn congestion_event_fits(
        &self,
        now: Instant,
        sent: Instant,
        is_persistent_congestion: bool,
        lost_bytes: u64,
    ) -> bool {
        self.loss_state.lost_bytes + lost_bytes <= u64::MAX
    }

    open spec fn ack_sample_fits(&self, now: Instant, sample: &RateSample) -> bool {
        &&& sample.prior_delivered + sample.delivered <= u64::MAX
        &&& self.batch_acked + sample.bytes_acked <= u64::MAX
    }

    open spec fn loss_sample_fits(&self, now: Instant, sample: &LossSample) -> bool {
        self.reacts_to(*sample) ==> {
            &&& self.crossing(*sample) <= u64::MAX
            &&& sample.is_app_limited || self.bdp_fits()
        }
    }

    open spec fn window_fits(&self) -> bool {
        self.mode == Mode::ProbeRtt ==> self.bdp_fits()
    }

    open spec fn window_size(&self) -> u64 {
        max(min(min(self.base_window(), self.inflight_hi), self.inflight_lo), self.min_cwnd)
    }

    open spec fn first_window(&self) -> u64 {
        self.config.initial_window
    }

    fn on_sent(&mut self, now: Instant, bytes: u64, last_packet_number: u64)
        ensures
            *final(self) == old(self).sent(last_packet_number),
    {
        self.max_sent_packet_number = last_packet_number;
    }

    fn on_ack(
        &mut self,
        now: Instant,
        sent: Instant,
        bytes: u64,
        app_limited: bool,
        rtt: &RttEstimator,
    )
        ensures
            *final(self) == old(self).acked(now, bytes, app_limited, *rtt),
    {
        self.acked_bytes = self.acked_bytes + bytes;
        if self.is_min_rtt_expired(now, app_limited) || self.min_rtt.nanos > rtt.min().nanos {
            self.min_rtt = rtt.min();
        }
    }

    fn on_ack_sample(&mut self, now: Instant, sample: &RateSample)
        ensures
            *final(self) == old(self).sampled(*sample),
    {
        // Newest-sample rule (draft-cheng section 3.3): keep the sample from the
        // packet with the highest P.delivered. Persists across batches.
        if sample.prior_delivered >= self.rate_sample.prior_delivered {
            self.rate_sample = *sample;
        }
        self.delivered_total = max(
            self.delivered_total,
            sample.prior_delivered + sample.delivered,
        );
        self.batch_acked = self.batch_acked + sample.bytes_acked;

        let rate: Option<u64> = sample_delivery_rate(sample);
        // BBRUpdateMaxBw: app-limited samples may only raise the estimate
        if let Some(rate) = rate {
            if !sample.is_app_limited || rate >= self.max_bw() {
                self.max_bw_filter.update_max(self.round_count, rate);
            }
        }
        // BBRUpdateLatestDeliverySignals: 1-loss-round maxima

        if let Some(rate) = rate {
            self.bw_latest = max(self.bw_latest, rate);
        }
        self.inflight_latest = max(self.inflight_latest, sample.delivered);
    }

    fn on_loss_sample(&mut self, now: Instant, sample: &LossSample)
        ensures
            exists|wait: ProbeWait| #[trigger]
                wait.valid() && *final(self) == old(self).loss_sampled(now, *sample, wait),
    {
        proof {
            lemma_some_wait(self.random_number_generator);
        }
        // Pin the loss round's end and count discrete loss bursts.
        if !self.loss_in_round() {
            self.loss_round.set_round_end(sample.delivered);
        }
        if sample.new_loss_burst {
            self.loss_bursts_in_round = self.loss_bursts_in_round.saturating_add(1);
        }
        assert(*self == old(self).burst_counted(*sample));
        if !self.bw_probe_samples {
            return ;  // not a packet sent while probing bandwidth
        }
        if self.is_loss_too_high(sample.lost, sample.tx_in_flight) {
            let inflight_hi_from_lost_packet: u64 = self.inflight_hi_from_lost_packet(sample);
            self.on_inflight_too_high(now, sample.is_app_limited, inflight_hi_from_lost_packet);
        }
    }

    fn on_end_acks(
        &mut self,
        now: Instant,
        in_flight: u64,
        app_limited: bool,
        largest_packet_num_acked: Option<u64>,
    )
        ensures
            exists|draws: Draws| #[trigger]
                draws.valid() && *final(self) == old(self).batch_ended(
                    now,
                    in_flight,
                    app_limited,
                    largest_packet_num_acked,
                    draws,
                ),
    {
        self.end_batch(now, in_flight, app_limited, largest_packet_num_acked);
    }

    fn on_congestion_event(
        &mut self,
        now: Instant,
        sent: Instant,
        is_persistent_congestion: bool,
        lost_bytes: u64,
    )
        ensures
            *final(self) == old(self).lost(lost_bytes),
    {
        self.loss_state.lost_bytes = self.loss_state.lost_bytes + lost_bytes;
    }

    fn on_mtu_update(&mut self, new_mtu: u16)
        ensures
            *final(self) == old(self).mtu_updated(new_mtu),
    {
        self.current_mtu = new_mtu as u64;
        self.min_cwnd = calculate_min_window(self.current_mtu);
        self.init_cwnd = max(self.config.initial_window, self.min_cwnd);
        self.cwnd = max(self.cwnd, self.min_cwnd);
    }

    fn window(&self) -> (window: u64) {
        let base: u64 = if self.mode == Mode::ProbeRtt {
            min(self.cwnd, self.get_probe_rtt_cwnd())
        } else if self.recovery_state.in_recovery() && self.mode != Mode::Startup {
            min(self.cwnd, self.recovery_window)
        } else {
            self.cwnd
        };
        // Clamp to BOTH the loss-driven upper ceiling AND the short-term
        // lower bound. This min(cwnd, inflight_hi, inflight_lo) is the
        // yielding that produces fairness.
        max(min(min(base, self.inflight_hi), self.inflight_lo), self.min_cwnd)
    }

    fn metrics(&self) -> (metrics: ControllerMetrics)
        ensures
            metrics == (ControllerMetrics {
                congestion_window: self.window_size(),
                ssthresh: None,
                pacing_rate: Some(self.rate_in_bits()),
            }),
    {
        ControllerMetrics {
            congestion_window: self.window(),
            ssthresh: None,
            pacing_rate: Some(saturating_mul(self.pacing_rate, 8)),
        }
    }

    fn initial_window(&self) -> (window: u64) {
        self.config.initial_window
    }
}

impl ControllerFactory for Bbr2Config {
    type Built = Bbr2;

    fn build(self: Arc<Self>, now: Instant, current_mtu: u16) -> (controller: Bbr2)
        ensures
            controller.is_initial(*self, current_mtu),
    {
        Bbr2::new(self, current_mtu)
    }
}

} // verus!
