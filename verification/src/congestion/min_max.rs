//! Kathleen Nichols' windowed max filter.
//!
//! The filter keeps the best three samples of a window of rounds, so that the maximum over the
//! window is at hand when an older one expires.

use crate::ints::max;
use vstd::prelude::*;

verus! {

/// A measurement and the round it was taken in.
#[derive(Debug, Clone, Copy, PartialEq, Eq, Structural)]
pub struct MinMaxSample {
    /// round number, not time
    pub time: u64,
    pub value: u64,
}

impl Default for MinMaxSample {
    fn default() -> (sample: Self)
        ensures
            sample == (MinMaxSample { time: 0, value: 0 }),
    {
        MinMaxSample { time: 0, value: 0 }
    }
}

/// A windowed max filter.
#[derive(Debug, Clone, Copy, PartialEq, Eq, Structural)]
pub struct MinMax {
    /// round count, not time
    pub window: u64,
    /// The best sample in the window: the estimate.
    pub first: MinMaxSample,
    /// The best one since `first`.
    pub second: MinMaxSample,
    /// The best one since `second`.
    pub third: MinMaxSample,
}

impl MinMax {
    /// The choices get worse and newer from the first to the third.
    pub open spec fn wf(self) -> bool {
        &&& self.first.value >= self.second.value >= self.third.value
        &&& self.first.time <= self.second.time <= self.third.time
    }

    /// All three choices are `sample`.
    pub open spec fn filled(self, sample: MinMaxSample) -> MinMax {
        MinMax { first: sample, second: sample, third: sample, ..self }
    }

    /// A measurement in `round` starts the filter afresh: nothing is known, it is a new maximum,
    /// or nothing is left in the window.
    pub open spec fn restarts(self, round: u64, measurement: u64) -> bool {
        ||| self.first.value == 0
        ||| measurement >= self.first.value
        ||| round - self.third.time > self.window
    }

    /// `sample` takes the place of every choice after the first that it is not below.
    pub open spec fn ranked(self, sample: MinMaxSample) -> MinMax {
        MinMax {
            second: if sample.value >= self.second.value {
                sample
            } else {
                self.second
            },
            third: if sample.value >= self.third.value || sample.value >= self.second.value {
                sample
            } else {
                self.third
            },
            ..self
        }
    }

    /// Each choice moves up by one.
    pub open spec fn shifted(self, sample: MinMaxSample) -> MinMax {
        MinMax { first: self.second, second: self.third, third: sample, ..self }
    }

    /// What becomes of the choices as time advances to that of `sample`: those that have left the
    /// window are dropped, and those that have grown old have a newer one put behind them.
    pub open spec fn aged(self, sample: MinMaxSample) -> MinMax {
        let age = sample.time - self.first.time;
        if age > self.window {
            if sample.time - self.second.time > self.window {
                self.shifted(sample).shifted(sample)
            } else {
                self.shifted(sample)
            }
        } else if self.second.time == self.first.time && age > self.window / 4 {
            MinMax { second: sample, third: sample, ..self }
        } else if self.third.time == self.second.time && age > self.window / 2 {
            MinMax { third: sample, ..self }
        } else {
            self
        }
    }

    /// The filter after `measurement` in `round`.
    pub open spec fn updated(self, round: u64, measurement: u64) -> MinMax {
        let sample = MinMaxSample { time: round, value: measurement };
        if self.restarts(round, measurement) {
            self.filled(sample)
        } else {
            self.ranked(sample).aged(sample)
        }
    }

    /// The estimate.
    pub fn get(&self) -> (value: u64)
        ensures
            value == self.first.value,
    {
        self.first.value
    }

    pub fn fill(&mut self, sample: MinMaxSample)
        ensures
            *final(self) == old(self).filled(sample),
    {
        self.first = sample;
        self.second = sample;
        self.third = sample;
    }

    /// Forgets all measurements.
    pub fn reset(&mut self)
        ensures
            *final(self) == old(self).filled(MinMaxSample { time: 0, value: 0 }),
            final(self).wf(),
    {
        self.fill(MinMaxSample::default());
    }

    /// Check if new measurement updates the 1st, 2nd or 3rd choice max.
    pub fn update_max(&mut self, current_round: u64, measurement: u64)
        requires
            old(self).wf(),
            old(self).first.value == 0 || measurement >= old(self).first.value
                || current_round >= old(self).third.time,
        ensures
            *final(self) == old(self).updated(current_round, measurement),
            final(self).wf(),
            final(self).third.time <= current_round,
    {
        let sample = MinMaxSample { time: current_round, value: measurement };
        if self.first.value == 0  /* uninitialized */
            || sample.value >= self.first.value  /* found new max? */
            || sample.time - self.third.time > self.window  /* nothing left in window? */
        {
            self.fill(sample);  /* forget earlier samples */
            return ;
        }
        if sample.value >= self.second.value {
            self.third = sample;
            self.second = sample;
        } else if sample.value >= self.third.value {
            self.third = sample;
        }
        self.subwin_update(sample);
    }

    /// As time advances, update the 1st, 2nd, and 3rd choices.
    pub fn subwin_update(&mut self, sample: MinMaxSample)
        requires
            sample.time >= old(self).first.time,
            sample.time - old(self).first.time > old(self).window ==> sample.time >= old(
                self,
            ).second.time,
        ensures
            *final(self) == old(self).aged(sample),
    {
        let dt: u64 = sample.time - self.first.time;
        if dt > self.window {
            // Passed the entire window without a new sample, so the second choice becomes the
            // first. It may be outside the window too; the third is not.
            self.first = self.second;
            self.second = self.third;
            self.third = sample;
            if sample.time - self.first.time > self.window {
                self.first = self.second;
                self.second = self.third;
                self.third = sample;
            }
        } else if self.second.time == self.first.time && dt > self.window / 4 {
            // Passed a quarter of the window without a new sample, so take a second choice from
            // the second quarter of the window.
            self.third = sample;
            self.second = sample;
        } else if self.third.time == self.second.time && dt > self.window / 2 {
            // Passed half the window without a new sample, so take a third choice from the last
            // half of the window.
            self.third = sample;
        }
    }

    /// No estimate is below the measurement just made.
    pub proof fn lemma_estimate_covers(self, round: u64, measurement: u64)
        requires
            self.wf(),
            round >= self.third.time,
        ensures
            self.updated(round, measurement).first.value >= measurement,
    {
    }

    /// The estimate is a measurement of the last `window` rounds.
    pub proof fn lemma_estimate_is_recent(self, round: u64, measurement: u64)
        requires
            self.wf(),
            round >= self.third.time,
        ensures
            round - self.updated(round, measurement).first.time <= self.window,
    {
    }

    /// The estimate is the new measurement or one of the choices that were kept.
    pub proof fn lemma_estimate_is_measured(self, round: u64, measurement: u64)
        ensures
            ({
                let estimate = self.updated(round, measurement).first;
                ||| estimate == (MinMaxSample { time: round, value: measurement })
                ||| estimate == self.first
                ||| estimate == self.second
                ||| estimate == self.third
            }),
    {
    }

    /// Within the window of its best sample, the estimate never goes down.
    pub proof fn lemma_estimate_holds(self, round: u64, measurement: u64)
        requires
            self.wf(),
            self.third.time <= round <= self.first.time + self.window,
        ensures
            self.updated(round, measurement).first.value >= self.first.value,
    {
    }

    /// What a measurement does to the choices. A new maximum, a first measurement, or one after all
    /// choices have left the window is all that is kept. Any other takes the places of the choices
    /// that it is not below, and stands behind those that are left. The best choice that is still in
    /// the window leads. With none but the leading one known, a second one is taken after a quarter of
    /// the window, and a third one after half of it.
    pub proof fn lemma_choices(self, round: u64, measurement: u64)
        requires
            self.wf(),
            round >= self.third.time,
        ensures
            ({
                let next = self.updated(round, measurement);
                let sample = MinMaxSample { time: round, value: measurement };
                let newer = self.first.value == 0 || measurement >= self.first.value || round
                    > self.third.time + self.window;
                let second = if measurement >= self.second.value {
                    sample
                } else {
                    self.second
                };
                let third = if measurement >= self.third.value {
                    sample
                } else {
                    self.third
                };
                let age = round - self.first.time;
                &&& next.window == self.window
                &&& newer ==> next.first == sample && next.second == sample && next.third == sample
                &&& !newer && age <= self.window ==> {
                    let quarter = second.time == self.first.time && 4 * age >= self.window + 4 - (
                    self.window % 4);
                    let half = third.time == second.time && 2 * age >= self.window + 2 - (self.window
                        % 2);
                    &&& next.first == self.first
                    &&& next.second == if quarter {
                        sample
                    } else {
                        second
                    }
                    &&& next.third == if quarter || half {
                        sample
                    } else {
                        third
                    }
                }
                &&& !newer && age > self.window && second.time + self.window >= round ==> {
                    &&& next.first == second
                    &&& next.second == third
                    &&& next.third == sample
                }
                &&& !newer && age > self.window && second.time + self.window < round ==> {
                    &&& next.first == third
                    &&& next.second == sample
                    &&& next.third == sample
                }
            }),
    {
        let age = round - self.first.time;
        assert(age > self.window / 4 <==> 4 * age >= self.window + 4 - (self.window % 4));
        assert(age > self.window / 2 <==> 2 * age >= self.window + 2 - (self.window % 2));
    }

    /// The estimate is no larger than the last one or the measurement.
    pub proof fn lemma_estimate_bound(self, round: u64, measurement: u64)
        requires
            self.wf(),
        ensures
            self.updated(round, measurement).first.value <= max(self.first.value, measurement),
    {
    }
}

impl Default for MinMax {
    fn default() -> (filter: Self)
        ensures
            filter.window == 10,
            filter == filter.filled(MinMaxSample { time: 0, value: 0 }),
            filter.wf(),
    {
        MinMax {
            window: 10,
            first: MinMaxSample::default(),
            second: MinMaxSample::default(),
            third: MinMaxSample::default(),
        }
    }
}

} // verus!
