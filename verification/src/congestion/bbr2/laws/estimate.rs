//! The bandwidth estimate and the totals, in terms of the samples.

use crate::congestion::bbr2::{delivery_rate, Bbr2};
use crate::congestion::RateSample;
use crate::ints::{lemma_quotient_of, quotient_of};
use vstd::prelude::*;

verus! {

/// The rate of a sample is what was delivered over its interval, in bytes per second and rounded
/// down: the whole volume that was delivered, not the packet that was acked.
pub proof fn lemma_rate_is_delivered_over_interval(sample: RateSample)
    requires
        sample.interval.nanos / 1_000 <= u64::MAX,
    ensures
        ({
            let micros = (sample.interval.nanos / 1_000) as int;
            &&& delivery_rate(sample) is None <==> micros == 0
            &&& delivery_rate(sample) matches Some(r) ==> {
                &&& sample.delivered * 1_000_000 <= u64::MAX ==> quotient_of(
                    r as int,
                    sample.delivered * 1_000_000,
                    micros,
                )
                &&& sample.delivered * 1_000_000 > u64::MAX ==> quotient_of(
                    r as int,
                    u64::MAX as int,
                    micros,
                )
            }
        }),
{
    let micros = (sample.interval.nanos / 1_000) as int;
    assert(sample.interval.micros() == micros);
    if micros > 0 {
        lemma_quotient_of(sample.delivered * 1_000_000, micros);
        lemma_quotient_of(u64::MAX as int, micros);
    }
}

impl Bbr2 {
    /// The first sample that is not app-limited is the estimate: what was delivered, over the
    /// interval.
    pub proof fn lemma_first_sample_is_the_estimate(self, sample: RateSample)
        requires
            self.max_bw_filter.first.value == 0,
            !sample.is_app_limited,
            1_000 <= sample.interval.nanos,
            sample.interval.nanos / 1_000 <= u64::MAX,
            sample.delivered * 1_000_000 <= u64::MAX,
        ensures
            quotient_of(
                self.sampled(sample).max_bw_filter.first.value as int,
                sample.delivered * 1_000_000,
                (sample.interval.nanos / 1_000) as int,
            ),
    {
        lemma_rate_is_delivered_over_interval(sample);
        assert(sample.interval.nanos / 1_000 >= 1);
    }

    /// A rate that is no lower than the estimate becomes the estimate, app-limited or not; a lower
    /// one that is app-limited leaves it alone, and so does a sample of an empty interval.
    pub proof fn lemma_higher_rate_is_the_estimate(self, sample: RateSample)
        ensures
            ({
                let next = self.sampled(sample);
                let estimate = self.max_bw_filter.first.value;
                match delivery_rate(sample) {
                    Some(rate) => {
                        &&& rate >= estimate ==> next.max_bw_filter.first.value == rate
                            && next.max_bw_filter.first.time == self.round_count
                        &&& rate < estimate && sample.is_app_limited ==> next.max_bw_filter
                            == self.max_bw_filter
                    },
                    None => next.max_bw_filter == self.max_bw_filter,
                }
            }),
    {
    }

    /// What a sample does to the rest: the batch grows by the packet that was acked, the totals
    /// cover what the sample saw and are no larger than that or what they were, and nothing else
    /// changes.
    pub proof fn lemma_sample_counts(self, sample: RateSample)
        requires
            sample.prior_delivered + sample.delivered <= u64::MAX,
            self.batch_acked + sample.bytes_acked <= u64::MAX,
        ensures
            ({
                let next = self.sampled(sample);
                let total = sample.prior_delivered + sample.delivered;
                &&& next.batch_acked - self.batch_acked == sample.bytes_acked
                &&& next.delivered_total >= total && next.delivered_total >= self.delivered_total
                &&& next.delivered_total == total || next.delivered_total == self.delivered_total
                &&& next.inflight_latest >= sample.delivered && next.inflight_latest
                    >= self.inflight_latest
                &&& next.inflight_latest == sample.delivered || next.inflight_latest
                    == self.inflight_latest
                &&& match delivery_rate(sample) {
                    Some(rate) => {
                        &&& next.bw_latest >= rate && next.bw_latest >= self.bw_latest
                        &&& next.bw_latest == rate || next.bw_latest == self.bw_latest
                    },
                    None => next.bw_latest == self.bw_latest,
                }
                &&& sample.prior_delivered < self.rate_sample.prior_delivered ==> next.rate_sample
                    == self.rate_sample
                &&& sample.prior_delivered >= self.rate_sample.prior_delivered ==> next.rate_sample
                    == sample
                &&& next == Bbr2 {
                    rate_sample: next.rate_sample,
                    delivered_total: next.delivered_total,
                    batch_acked: next.batch_acked,
                    max_bw_filter: next.max_bw_filter,
                    bw_latest: next.bw_latest,
                    inflight_latest: next.inflight_latest,
                    ..self
                }
            }),
    {
    }
}

} // verus!
