//! What the controller can count: the events that it takes at all sizes, and the batches that it takes
//! at the sizes that a path has.

use crate::congestion::bbr2::laws::cycle::elapsed;
use crate::congestion::bbr2::{Bbr2, Mode};
use crate::congestion::{Controller, LossSample, RateSample, RttEstimator};
use crate::ints::lemma_quotient_of;
use crate::time::Instant;
use vstd::prelude::*;

verus! {

impl Bbr2 {
    /// Packets sent always fit. Acks, samples and congestion events fit as long as their sums do. The
    /// window can be computed but for PROBE_RTT with a bandwidth-delay product beyond 64 bits. Losses fit
    /// outside of probes, and in them with such a product and a crossing within 64 bits.
    pub proof fn lemma_events_that_fit(
        self,
        now: Instant,
        sent: Instant,
        bytes: u64,
        number: u64,
        flag: bool,
        rtt: RttEstimator,
        sample: RateSample,
        loss: LossSample,
    )
        requires
            self.min_rtt.nanos / 1_000 <= u64::MAX,
        ensures
            self.sent_fits(now, bytes, number),
            self.ack_fits(now, sent, bytes, flag, &rtt) <==> self.acked_bytes + bytes <= u64::MAX,
            self.congestion_event_fits(now, sent, flag, bytes) <==> self.loss_state.lost_bytes + bytes
                <= u64::MAX,
            self.ack_sample_fits(now, &sample) <==> sample.prior_delivered + sample.delivered
                <= u64::MAX && self.batch_acked + sample.bytes_acked <= u64::MAX,
            self.mode != Mode::ProbeRtt ==> self.window_fits(),
            (self.min_rtt.nanos / 1_000) * self.max_bw_filter.first.value <= u64::MAX
                ==> self.window_fits(),
            !self.bw_probe_samples ==> self.loss_sample_fits(now, &loss),
            self.crossing(loss) <= u64::MAX && (self.min_rtt.nanos / 1_000)
                * self.max_bw_filter.first.value <= u64::MAX ==> self.loss_sample_fits(now, &loss),
    {
        assert(self.min_rtt.micros() == self.min_rtt.nanos / 1_000);
    }

    /// The bandwidth is within 2^37 bytes per second, the round-trip time within ten seconds, the
    /// aggregation epoch within a hundred, the initial window within 2^34 bytes, and every other volume
    /// within 2^60 bytes. The clock is within 2^80 nanoseconds.
    pub open spec fn is_ordinary(self, now: Instant, in_flight: u64) -> bool {
        &&& self.max_bw_filter.first.value <= 0x20_0000_0000
        &&& self.min_rtt.nanos <= 10_000_000_000
        &&& match self.ack_aggregation.aggregation_epoch_start_time {
            Some(start) => elapsed(now, start) <= 100_000_000_000,
            None => true,
        }
        &&& self.init_cwnd <= 0x4_0000_0000
        &&& in_flight <= 0x1000_0000_0000_0000
        &&& self.batch_acked <= 0x1000_0000_0000_0000
        &&& self.loss_state.lost_bytes <= 0x1000_0000_0000_0000
        &&& self.round_lost <= 0x1000_0000_0000_0000
        &&& self.round_delivered <= 0x1000_0000_0000_0000
        &&& self.ack_aggregation.aggregation_epoch_bytes <= 0x1000_0000_0000_0000
        &&& self.ack_aggregation.max_ack_height.first.value <= 0x1000_0000_0000_0000
        &&& self.cwnd <= 0x1000_0000_0000_0000
        &&& self.recovery_window <= 0x1000_0000_0000_0000
        &&& self.bw_probe_up_acks <= 0x1000_0000_0000_0000
        &&& self.bw_probe_up_cnt >= self.current_mtu
        &&& self.round_count < u64::MAX
        &&& self.round_wo_bw_gain < u64::MAX
        &&& now.nanos <= 0x1_0000_0000_0000_0000_0000
    }

    /// The end of a batch can always be computed at these sizes.
    pub proof fn lemma_ordinary_batches_fit(
        self,
        now: Instant,
        in_flight: u64,
        app_limited: bool,
        largest_packet_num_acked: Option<u64>,
    )
        requires
            self.valid(),
            self.is_ordinary(now, in_flight),
        ensures
            self.end_acks_fits(now, in_flight, app_limited, largest_packet_num_acked),
    {
        let bw = self.max_bw_filter.first.value;
        let acked = self.batch_acked;
        let micros = self.min_rtt.micros();
        assert(micros == self.min_rtt.nanos / 1_000);
        assert(micros * bw <= 10_000_000 * 0x20_0000_0000) by (nonlinear_arith)
            requires
                0 <= micros <= 10_000_000,
                0 <= bw <= 0x20_0000_0000,
        ;
        let epoch = self.ack_aggregation.epoch_micros(now);
        assert(epoch <= 100_000_000);
        assert(0 <= bw * epoch <= 100_000_000 * 0x20_0000_0000) by (nonlinear_arith)
            requires
                0 <= epoch <= 100_000_000,
                0 <= bw <= 0x20_0000_0000,
        ;
        assert(self.intake_fits(now, in_flight, largest_packet_num_acked));
        assert(self.batch_excess(now) <= self.ack_aggregation.aggregation_epoch_bytes + acked);
        let counted = self.batch_counted(now, in_flight, largest_packet_num_acked);
        assert(counted.bw_probe_up_acks == self.bw_probe_up_acks && counted.bw_probe_up_cnt
            == self.bw_probe_up_cnt && counted.current_mtu == self.current_mtu && counted.min_rtt
            == self.min_rtt && counted.max_bw_filter == self.max_bw_filter) by {
            reveal(Bbr2::taken_in);
            reveal(Bbr2::bounds_adjusted);
        }
        let cnt = self.bw_probe_up_cnt as int;
        let sum = self.bw_probe_up_acks + acked;
        let mtu = self.current_mtu as int;
        let k = counted.lifted().probe_up_datagrams(acked);
        if cnt > 0 {
            lemma_quotient_of(sum, cnt);
            assert(k * mtu <= sum) by (nonlinear_arith)
                requires
                    k * cnt <= sum,
                    0 <= mtu <= cnt,
                    k >= 0,
            ;
        }
        assert(counted.adapt_fits(acked));
        assert(self.pacing_fits());
        self.lemma_room_is_enough(now, in_flight, app_limited, largest_packet_num_acked);
    }
}

} // verus!
