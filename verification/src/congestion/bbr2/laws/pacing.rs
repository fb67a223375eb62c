//! The pacing rate, in terms of the bandwidth estimate.

use crate::congestion::bbr2::batch::Draws;
use crate::congestion::bbr2::{Bbr2, CyclePhase, Mode};
use crate::float::exact::lemma_scaled_exact;
use crate::float::near::{lemma_paced, near};
use crate::float::scaling::{lemma_scaled_less, scaled};
use crate::float::{Float, Format, F32};
use crate::time::Instant;
use crate::ints::{lemma_quotient_of, quotient_of};
use vstd::arithmetic::power2::{lemma2_to64, lemma2_to64_rest, lemma_pow2_pos, pow2};
use vstd::prelude::*;

verus! {

/// `rate` is `bw` times a gain of the modes and phases, rounded down. The gains are 0.9 (DOWN), 1,
/// 1.25 (UP), 2.885 (STARTUP) and its inverse (DRAIN).
pub open spec fn is_paced(rate: u64, bw: u64, gain: F32) -> bool {
    &&& gain.bits == 0x3f66_6666 ==> near(rate, 9 * bw, 10, 10_000_000) && (bw > 0 ==> rate < bw)
    &&& gain.bits == 0x3f80_0000 ==> near(rate, 1 * bw, 1, 10_000_000) && (bw
        < 0x20_0000_0000_0000 ==> rate == bw)
    &&& gain.bits == 0x3fa0_0000 ==> near(rate, 5 * bw, 4, 10_000_000) && (bw
        < 0x4_0000_0000_0000 ==> 4 * rate <= 5 * bw < 4 * rate + 4)
    &&& gain.bits == 0x4038_a3d7 ==> near(rate, 2885 * bw, 1000, 10_000_000)
    &&& gain.bits == 0x3eb1_783c ==> near(rate, 1000 * bw, 2885, 10_000_000) && (bw > 0 ==> rate
        < bw)
}

/// The product of a gain and an estimate, as it is computed, is that.
proof fn lemma_scaled_is_paced(bw: u64, gain: F32)
    ensures
        is_paced(scaled(gain, bw, Format::Double), bw, gain),
{
    lemma2_to64();
    lemma2_to64_rest();
    lemma_paced(bw);
    let t = scaled(gain, bw, Format::Double);
    if gain.bits == 0x3f66_6666 {
        assert(gain == (F32 { bits: 0x3f66_6666 }));
        if bw > 0 {
            lemma_scaled_less(gain.value(), bw, Format::Double);
        }
    } else if gain.bits == 0x3f80_0000 {
        assert(gain == (F32 { bits: 0x3f80_0000 }));
        if bw < 0x20_0000_0000_0000 {
            lemma_scaled_exact(1, 23, 0x80_0000, -23i32, bw, Format::Double);
            assert((1 * bw) / 1 == bw);
        }
    } else if gain.bits == 0x3fa0_0000 {
        assert(gain == (F32 { bits: 0x3fa0_0000 }));
        if bw < 0x4_0000_0000_0000 {
            lemma_scaled_exact(5, 21, 0xa0_0000, -23i32, bw, Format::Double);
            assert(t == (5 * bw) / 4);
        }
    } else if gain.bits == 0x4038_a3d7 {
        assert(gain == (F32 { bits: 0x4038_a3d7 }));
    } else if gain.bits == 0x3eb1_783c {
        assert(gain == (F32 { bits: 0x3eb1_783c }));
        assert(t * 2885 * 10_000_000 <= 1000 * bw * 10_000_001);
    }
}

impl Bbr2 {
    /// With a full pipe and an estimate, the pacing rate is the pacing gain times the estimate,
    /// rounded down; nothing else changes.
    pub proof fn lemma_full_pipe_paces_by_gain(self)
        requires
            self.is_at_full_bandwidth,
            self.max_bw_filter.first.value > 0,
        ensures
            is_paced(self.paced().pacing_rate, self.max_bw_filter.first.value, self.pacing_gain),
            self.paced() == (Bbr2 { pacing_rate: self.paced().pacing_rate, ..self }),
    {
        lemma_scaled_is_paced(self.max_bw_filter.first.value, self.pacing_gain);
    }

    /// The same of any gain of `man * 2^exp`, exactly, where the product has 53 significant bits at
    /// most.
    pub proof fn lemma_full_pipe_paces_exactly(self, man: u64, exp: i32)
        requires
            self.is_at_full_bandwidth,
            self.max_bw_filter.first.value > 0,
            self.pacing_gain.value() == (Float::Finite { neg: false, man, exp }),
            man > 0,
            -60 <= exp <= 0,
            man * self.max_bw_filter.first.value < 0x20_0000_0000_0000,
        ensures
            quotient_of(
                self.paced().pacing_rate as int,
                man * self.max_bw_filter.first.value,
                pow2((-exp) as nat) as int,
            ),
    {
        lemma2_to64();
        lemma2_to64_rest();
        let bw = self.max_bw_filter.first.value;
        lemma_pow2_pos((-exp) as nat);
        assert(man * 1 == man);
        lemma_scaled_exact(man as nat, 0, man, exp, bw, Format::Double);
        lemma_quotient_of(man * bw, pow2((-exp) as nat) as int);
    }

    /// After a batch, a full pipe is paced by the gain of its mode and phase: nine tenths of the
    /// estimate in DOWN, the estimate in CRUISE, REFILL and PROBE_RTT, five quarters of it in UP, and
    /// less than half of it in DRAIN.
    pub proof fn lemma_batch_paces_by_mode(
        self,
        now: Instant,
        in_flight: u64,
        app_limited: bool,
        largest_packet_num_acked: Option<u64>,
        draws: Draws,
    )
        requires
            ({
                let next = self.batch_ended(
                    now,
                    in_flight,
                    app_limited,
                    largest_packet_num_acked,
                    draws,
                );
                &&& next.is_at_full_bandwidth
                &&& next.max_bw_filter.first.value > 0
                &&& next.paces_by_mode()
            }),
        ensures
            ({
                let next = self.batch_ended(
                    now,
                    in_flight,
                    app_limited,
                    largest_packet_num_acked,
                    draws,
                );
                let rate = next.pacing_rate;
                let bw = next.max_bw_filter.first.value;
                match next.mode {
                    Mode::Startup => near(rate, 2885 * bw, 1000, 10_000_000),
                    Mode::Drain => near(rate, 1000 * bw, 2885, 10_000_000) && rate < bw,
                    Mode::ProbeRtt => bw < 0x20_0000_0000_0000 ==> rate == bw,
                    Mode::ProbeBw => match next.cycle_phase {
                        CyclePhase::Down => near(rate, 9 * bw, 10, 10_000_000) && rate < bw,
                        CyclePhase::Cruise | CyclePhase::Refill => bw < 0x20_0000_0000_0000 ==> rate
                            == bw,
                        CyclePhase::Up => near(rate, 5 * bw, 4, 10_000_000) && (bw
                            < 0x4_0000_0000_0000 ==> 4 * rate <= 5 * bw < 4 * rate + 4),
                    },
                }
            }),
    {
        let moded = self.batch_moded(now, in_flight, app_limited, largest_packet_num_acked, draws);
        reveal(Bbr2::sized);
        reveal(Bbr2::closed);
        moded.lemma_full_pipe_paces_by_gain();
    }

    /// Before the pipe is full: without an estimate the rate stays; the first rate spreads the initial
    /// window over the minimum round-trip time; later the rate only goes up, to the estimate times the
    /// gain. Nothing else changes.
    pub proof fn lemma_pacing_before_full_pipe(self)
        requires
            !self.is_at_full_bandwidth,
            self.pacing_fits(),
            self.min_rtt.nanos <= u64::MAX,
        ensures
            ({
                let next = self.paced();
                let bw = self.max_bw_filter.first.value;
                &&& next == Bbr2 { pacing_rate: next.pacing_rate, ..self }
                &&& bw == 0 ==> next.pacing_rate == self.pacing_rate
                &&& bw > 0 && self.pacing_rate == 0 && self.min_rtt.nanos > 0 ==> quotient_of(
                    next.pacing_rate as int,
                    self.init_cwnd * 1_000_000_000,
                    self.min_rtt.nanos as int,
                )
                &&& bw > 0 && (self.pacing_rate > 0 || self.min_rtt.nanos == 0) ==> {
                    &&& next.pacing_rate >= self.pacing_rate
                    &&& next.pacing_rate == self.pacing_rate || is_paced(
                        next.pacing_rate,
                        bw,
                        self.pacing_gain,
                    )
                    &&& exists|t: u64| #[trigger]
                        is_paced(t, bw, self.pacing_gain) && next.pacing_rate >= t
                }
            }),
    {
        let bw = self.max_bw_filter.first.value;
        lemma_scaled_is_paced(bw, self.pacing_gain);
        if self.min_rtt.nanos > 0 {
            lemma_quotient_of(self.init_cwnd * 1_000_000_000, self.min_rtt.nanos as int);
        }
    }
}

} // verus!
