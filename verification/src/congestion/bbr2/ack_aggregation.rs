//! Acknowledgements that arrive faster than the bandwidth allows.

use crate::congestion::min_max::{MinMax, MinMaxSample};
use crate::ints::{lemma_quotient_of, quotient_of};
use crate::time::Instant;
use vstd::prelude::*;

verus! {

#[derive(Debug, Clone, Copy, PartialEq, Eq, Structural)]
pub struct AckAggregationState {
    pub max_ack_height: MinMax,
    pub aggregation_epoch_start_time: Option<Instant>,
    pub aggregation_epoch_bytes: u64,
}

impl AckAggregationState {
    /// Microseconds since the epoch started.
    pub open spec fn epoch_micros(self, now: Instant) -> u64 {
        match self.aggregation_epoch_start_time {
            Some(start) => now.since(start).micros(),
            None => now.since(now).micros(),
        }
    }

    /// Bytes that `max_bandwidth` accounts for since the epoch started.
    pub open spec fn expected(self, now: Instant, max_bandwidth: u64) -> int {
        max_bandwidth * self.epoch_micros(now) / 1_000_000
    }

    /// Acks arrive no faster than the bandwidth: the epoch is over.
    pub open spec fn is_over(self, now: Instant, max_bandwidth: u64) -> bool {
        self.aggregation_epoch_bytes <= self.expected(now, max_bandwidth)
    }

    /// Bytes in excess of the bandwidth.
    pub open spec fn excess(self, newly_acked_bytes: u64, now: Instant, max_bandwidth: u64) -> u64 {
        if self.is_over(now, max_bandwidth) {
            0
        } else {
            (self.aggregation_epoch_bytes + newly_acked_bytes - self.expected(
                now,
                max_bandwidth,
            )) as u64
        }
    }

    /// The state after `newly_acked_bytes`: a new epoch, or an excess that is kept.
    pub open spec fn acked(
        self,
        newly_acked_bytes: u64,
        now: Instant,
        round: u64,
        max_bandwidth: u64,
    ) -> AckAggregationState {
        if self.is_over(now, max_bandwidth) {
            AckAggregationState {
                aggregation_epoch_bytes: newly_acked_bytes,
                aggregation_epoch_start_time: Some(now),
                ..self
            }
        } else {
            AckAggregationState {
                aggregation_epoch_bytes: (self.aggregation_epoch_bytes + newly_acked_bytes) as u64,
                max_ack_height: self.max_ack_height.updated(
                    round,
                    self.excess(newly_acked_bytes, now, max_bandwidth),
                ),
                ..self
            }
        }
    }

    /// What is counted fits in 64 bits.
    pub open spec fn fits(self, newly_acked_bytes: u64, now: Instant, max_bandwidth: u64) -> bool {
        &&& max_bandwidth * self.epoch_micros(now) <= u64::MAX
        &&& !self.is_over(now, max_bandwidth) ==> self.aggregation_epoch_bytes + newly_acked_bytes
            <= u64::MAX
    }

    /// Takes in acked bytes; returns how many are in excess of the bandwidth.
    pub fn update_ack_aggregation_bytes(
        &mut self,
        newly_acked_bytes: u64,
        now: Instant,
        round: u64,
        max_bandwidth: u64,
    ) -> (excess: u64)
        requires
            old(self).max_ack_height.wf(),
            old(self).max_ack_height.third.time <= round,
            old(self).fits(newly_acked_bytes, now, max_bandwidth),
        ensures
            excess == old(self).excess(newly_acked_bytes, now, max_bandwidth),
            *final(self) == old(self).acked(newly_acked_bytes, now, round, max_bandwidth),
            final(self).max_ack_height.wf(),
            final(self).max_ack_height.third.time <= round,
    {
        // Compute how many bytes are expected to be delivered, assuming max
        // bandwidth is correct.
        let start: Instant = self.aggregation_epoch_start_time.unwrap_or(now);
        let expected_bytes_acked: u64 = max_bandwidth * now.saturating_duration_since(
            start,
        ).low_micros() / 1_000_000;

        // Reset the current aggregation epoch as soon as the ack arrival rate
        // is less than or equal to the max bandwidth.
        if self.aggregation_epoch_bytes <= expected_bytes_acked {
            // Reset to start measuring a new aggregation epoch.
            self.aggregation_epoch_bytes = newly_acked_bytes;
            self.aggregation_epoch_start_time = Some(now);
            return 0;
        }
        // Compute how many extra bytes were delivered vs max bandwidth.

        self.aggregation_epoch_bytes = self.aggregation_epoch_bytes + newly_acked_bytes;
        let diff: u64 = self.aggregation_epoch_bytes - expected_bytes_acked;
        self.max_ack_height.update_max(round, diff);
        diff
    }

    /// What the bandwidth accounts for is what it carries in the time since the epoch started. An
    /// epoch with no more acked bytes than that is over: the next one starts now, with the bytes
    /// just acked, and nothing is in excess. Otherwise the bytes just acked join the epoch, and what
    /// the epoch has beyond the bandwidth is the excess, which enters the maximum of the round.
    pub proof fn lemma_excess(
        self,
        newly_acked_bytes: u64,
        now: Instant,
        round: u64,
        max_bandwidth: u64,
    )
        requires
            self.max_ack_height.wf(),
            self.max_ack_height.third.time <= round,
            self.fits(newly_acked_bytes, now, max_bandwidth),
            self.aggregation_epoch_start_time matches Some(start) ==> now.nanos - start.nanos
                < 18_446_744_073_709_551_616_000,
        ensures
            ({
                let next = self.acked(newly_acked_bytes, now, round, max_bandwidth);
                let excess = self.excess(newly_acked_bytes, now, max_bandwidth);
                let micros = match self.aggregation_epoch_start_time {
                    Some(start) => if now.nanos >= start.nanos {
                        (now.nanos - start.nanos) / 1_000
                    } else {
                        0
                    },
                    None => 0,
                };
                let carried = max_bandwidth * micros;
                &&& self.aggregation_epoch_bytes * 1_000_000 <= carried ==> {
                    &&& excess == 0
                    &&& next.aggregation_epoch_bytes == newly_acked_bytes
                    &&& next.aggregation_epoch_start_time == Some(now)
                    &&& next.max_ack_height == self.max_ack_height
                }
                &&& self.aggregation_epoch_bytes * 1_000_000 > carried ==> {
                    &&& next.aggregation_epoch_bytes == self.aggregation_epoch_bytes
                        + newly_acked_bytes
                    &&& next.aggregation_epoch_start_time == self.aggregation_epoch_start_time
                    &&& quotient_of(
                        self.aggregation_epoch_bytes + newly_acked_bytes - excess,
                        carried,
                        1_000_000,
                    )
                    &&& excess >= self.max_ack_height.first.value
                        ==> next.max_ack_height.first.value == excess
                        && next.max_ack_height.first.time == round
                    &&& excess < self.max_ack_height.first.value && round
                        <= self.max_ack_height.first.time + self.max_ack_height.window
                        ==> next.max_ack_height.first == self.max_ack_height.first
                }
            }),
    {
        let micros = match self.aggregation_epoch_start_time {
            Some(start) => if now.nanos >= start.nanos {
                (now.nanos - start.nanos) / 1_000
            } else {
                0
            },
            None => 0,
        };
        assert(self.epoch_micros(now) == micros);
        let carried = max_bandwidth * micros;
        assert(carried >= 0) by (nonlinear_arith)
            requires
                carried == max_bandwidth * micros,
                micros >= 0,
                max_bandwidth >= 0,
        ;
        lemma_quotient_of(carried, 1_000_000);
    }
}

impl Default for AckAggregationState {
    fn default() -> (state: Self)
        ensures
            state.max_ack_height.window == 10,
            state.max_ack_height == state.max_ack_height.filled(MinMaxSample { time: 0, value: 0 }),
            state.aggregation_epoch_start_time is None,
            state.aggregation_epoch_bytes == 0,
    {
        AckAggregationState {
            max_ack_height: MinMax::default(),
            aggregation_epoch_start_time: None,
            aggregation_epoch_bytes: 0,
        }
    }
}

} // verus!
