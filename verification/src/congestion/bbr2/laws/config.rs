//! What a configuration sets: the loss threshold, the reduction and the initial window, whatever they
//! are.

use crate::congestion::bbr2::Bbr2;
use crate::congestion::LossSample;
use crate::float::near::{lemma_single_product, near};
use crate::float::ratio::{lemma_divided_by, lemma_ratio_over_fraction};
use crate::float::rounding::{lemma_exponent_unique, pow2_up};
use crate::float::scaling::scaled;
use crate::float::{complement, integer, product, Float, Format};
use vstd::arithmetic::power2::{lemma2_to64, pow2};
use vstd::prelude::*;

verus! {

/// What `part` leaves of `whole`.
pub open spec fn rest(whole: u64, part: u64) -> u64 {
    if whole >= part {
        (whole - part) as u64
    } else {
        0
    }
}

impl Bbr2 {
    /// The end of a round, with a threshold of `man * 2^exp` and a reduction that leaves `left * 2^-24`:
    /// where the round lost more than the threshold allows of its bytes, to one part in a million, the
    /// ceiling comes down to what the reduction leaves of what is in flight, or to the minimum window,
    /// and never goes up. Where it lost less, the ceiling does not come down.
    pub proof fn lemma_round_by_config(self, in_flight: u64, man: u64, exp: i32, left: u64)
        requires
            self.config.loss_thresh.value() == (Float::Finite { neg: false, man, exp }),
            0 < man < 0x100_0000,
            -40 <= exp <= 0,
            complement(self.config.beta.value(), Format::Single) == (Float::Finite {
                neg: false,
                man: left,
                exp: -24i32,
            }),
            0 < left < 0x100_0000,
            self.round_lost + self.round_delivered <= u64::MAX,
        ensures
            ({
                let next = self.ceiling_updated(in_flight);
                let total = self.round_lost + self.round_delivered;
                let d = pow2((-exp) as nat);
                let congested = self.round_lost * d * 999_999 > man * total * 1_000_000;
                let clean = self.round_lost * d * 1_000_000 <= man * total * 999_999;
                &&& total > 0 && congested ==> {
                    &&& next.inflight_hi <= self.inflight_hi
                    &&& exists|t: u64| #[trigger]
                        near(t, left * in_flight, 0x100_0000, 4_000_000) && {
                            ||| next.inflight_hi == self.inflight_hi && (self.inflight_hi <= t
                                || self.inflight_hi <= self.min_cwnd)
                            ||| next.inflight_hi == t && t >= self.min_cwnd
                            ||| next.inflight_hi == self.min_cwnd && t <= self.min_cwnd
                        }
                }
                &&& clean ==> next.inflight_hi >= self.inflight_hi
            }),
    {
        lemma2_to64();
        let total = self.round_lost + self.round_delivered;
        if total > 0 {
            lemma_ratio_over_fraction(man, exp, self.round_lost, total as u64);
        }
        lemma_single_product(left, -24i32, in_flight);
        let factor = Float::Finite { neg: false, man: left, exp: -24i32 };
        let volume = integer(in_flight as nat, Format::Single);
        assert(product(factor, volume, Format::Single) == product(volume, factor, Format::Single))
            by {
            match volume {
                Float::Finite { man: b, .. } => {
                    assert(left * b == b * left) by (nonlinear_arith);
                },
                _ => {},
            }
        }
        let t = self.reduced(in_flight);
        assert(near(t, left * in_flight, 0x100_0000, 4_000_000));
    }

    /// The volume at which a lost packet's losses crossed a threshold of `man * 2^exp`, of which
    /// `left * 2^-24` is the complement: what was in flight before the packet, and what the threshold
    /// allowed of that beyond the losses before, over the complement.
    pub proof fn lemma_crossing_by_config(self, sample: LossSample, man: u64, exp: i32, left: u64)
        requires
            self.config.loss_thresh.value() == (Float::Finite { neg: false, man, exp }),
            0 < man < 0x100_0000,
            -40 <= exp <= 0,
            complement(self.config.loss_thresh.value(), Format::Single) == (Float::Finite {
                neg: false,
                man: left,
                exp: -24i32,
            }),
            0 < left < 0x100_0000,
        ensures
            ({
                let before = rest(sample.tx_in_flight, sample.bytes);
                let lost = rest(sample.lost, sample.bytes);
                let p = self.crossing(sample) - before;
                &&& 0 <= p <= u64::MAX
                &&& exists|allowed: u64| #[trigger]
                    near(allowed, man * before, pow2((-exp) as nat) as int, 4_000_000) && near(
                        p as u64,
                        0x100_0000 * rest(allowed, lost),
                        left as int,
                        4_000_000,
                    )
            }),
    {
        let thresh = self.config.loss_thresh;
        let before = rest(sample.tx_in_flight, sample.bytes);
        let lost = rest(sample.lost, sample.bytes);
        let allowed = scaled(thresh, before, Format::Single);
        let budget = rest(allowed, lost);
        assert(before == sample.tx_in_flight.saturating_sub(sample.bytes));
        assert(lost == sample.lost.saturating_sub(sample.bytes));
        assert(budget == allowed.saturating_sub(lost));
        let p = self.lost_prefix(sample);
        lemma_single_product(man, exp, before);
        lemma_divided_by(budget, left);
        assert(near(allowed, man * before, pow2((-exp) as nat) as int, 4_000_000));
        assert(near(p, 0x100_0000 * budget, left as int, 4_000_000));
    }
}

/// The complement of `man * 2^-24` is `(2^24 - man) * 2^-24`.
pub proof fn lemma_complement(man: u64)
    requires
        0 < man <= 0x80_0000,
    ensures
        complement(Float::Finite { neg: false, man, exp: -24i32 }, Format::Single)
            == (Float::Finite { neg: false, man: (0x100_0000 - man) as u64, exp: -24i32 }),
{
    lemma2_to64();
    let v = (0x100_0000 - man) as nat;
    assert(man * pow2(0) == man) by (nonlinear_arith)
        requires
            pow2(0) == 1,
    ;
    assert(pow2_up(0) == 1);
    assert(pow2_up(1) == 2);
    assert(pow2_up(-1) == 1);
    assert(v * pow2_up(0) == v && v * pow2_up(1) == 2 * v) by (nonlinear_arith)
        requires
            pow2_up(0) == 1,
            pow2_up(1) == 2,
    ;
    lemma_exponent_unique(v, 1, -24, Format::Single, -24);
}

} // verus!
