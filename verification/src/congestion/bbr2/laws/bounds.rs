//! The bounds on what is in flight, in terms of losses and of what was in flight.

use crate::congestion::bbr2::laws::{lemma_default_reduction, lemma_default_remainder};
use crate::congestion::bbr2::probe_bw::ProbeWait;
use crate::congestion::bbr2::{Bbr2, CyclePhase, Mode};
use crate::congestion::LossSample;
use crate::float::near::{lemma_85_percent, lemma_one_fiftieth, lemma_seven_tenths};
use crate::float::ratio::{lemma_divided_by, lemma_over_fraction, lemma_ratio_over_fraction};
use crate::float::scaling::scaled;
use crate::float::{integer, product, Float, Format, F32};
use crate::ints::{lemma_quotient_of, max};
use crate::time::Instant;
use vstd::arithmetic::power2::{lemma2_to64, lemma_pow2_pos, pow2};
use vstd::prelude::*;

verus! {

/// `t` is the larger of `floor` and seven tenths of `n`, rounded down.
pub open spec fn is_seven_tenths_above(t: u64, n: u64, floor: u64) -> bool {
    &&& t >= floor
    &&& t == floor || t * 10 * 1_000_000 <= 7 * n * 1_000_001
    &&& (t + 1) * 10 * 1_000_000 > 7 * n * 999_999
}

/// Seven tenths as they are computed, with a floor, are that.
proof fn lemma_seven_tenths_above(n: u64, floor: u64)
    ensures
        is_seven_tenths_above(
            max(floor, scaled(F32 { bits: 0x3f33_3333 }, n, Format::Single)),
            n,
            floor,
        ),
{
    lemma_seven_tenths(n);
}

/// The default threshold is a fiftieth, to one part in a million.
proof fn lemma_fiftieth(part: int, whole: int, d: int)
    requires
        d == 0x2000_0000,
        part >= 0,
        whole >= 0,
    ensures
        part * d * 1_000_000 > 0xa3_d70a * whole * 999_999 ==> 50 * part * 1_000_000 > whole
            * 999_998,
        50 * part * 999_998 > whole * 1_000_000 ==> part * d * 999_999 > 0xa3_d70a * whole
            * 1_000_000,
{
    assert(part * d == part * 0x2000_0000) by (nonlinear_arith)
        requires
            d == 0x2000_0000,
    ;
}

// ---- loss ----

impl Bbr2 {
    /// Loss is too high where two bursts or more lost more than the threshold allows of what was in
    /// flight, to one part in a million: with the default threshold, more than a fiftieth.
    pub proof fn lemma_loss_threshold(self, lost: u64, in_flight: u64)
        requires
            self.config.loss_thresh.bits == 0x3ca3_d70a,
        ensures
            self.loss_bursts_in_round < 2 ==> !self.loss_too_high(lost, in_flight),
            self.loss_too_high(lost, in_flight) ==> 50 * lost * 1_000_000 > in_flight * 999_998,
            self.loss_bursts_in_round >= 2 && 50 * lost * 999_998 > in_flight * 1_000_000
                ==> self.loss_too_high(lost, in_flight),
    {
        lemma2_to64();
        assert(self.config.loss_thresh.value() == Float::Finite {
            neg: false,
            man: 0xa3_d70a,
            exp: -29i32,
        });
        lemma_over_fraction(0xa3_d70a, -29i32, lost, in_flight);
        lemma_fiftieth(lost as int, in_flight as int, pow2(29) as int);
    }

    /// The same of any threshold of `man * 2^exp`.
    pub proof fn lemma_any_loss_threshold(self, man: u64, exp: i32, lost: u64, in_flight: u64)
        requires
            self.config.loss_thresh.value() == (Float::Finite { neg: false, man, exp }),
            0 < man < 0x100_0000,
            -40 <= exp <= 0,
        ensures
            ({
                let d = pow2((-exp) as nat);
                &&& self.loss_bursts_in_round < 2 ==> !self.loss_too_high(lost, in_flight)
                &&& self.loss_too_high(lost, in_flight) ==> lost * d * 1_000_000 > man * in_flight
                    * 999_999
                &&& self.loss_bursts_in_round >= 2 && lost * d * 999_999 > man * in_flight
                    * 1_000_000 ==> self.loss_too_high(lost, in_flight)
            }),
    {
        lemma_over_fraction(man, exp, lost, in_flight);
    }

    /// The volume at which a lost packet's losses crossed the default threshold: what was in flight
    /// before the packet, and beyond that `p` such that two percent of `before + p` are `before_lost +
    /// p`. Where the losses before the packet used up the threshold already, `p` is nothing.
    pub proof fn lemma_threshold_crossing(self, sample: LossSample)
        requires
            self.config.loss_thresh.bits == 0x3ca3_d70a,
        ensures
            ({
                let before = if sample.tx_in_flight >= sample.bytes {
                    sample.tx_in_flight - sample.bytes
                } else {
                    0
                };
                let lost = if sample.lost >= sample.bytes {
                    sample.lost - sample.bytes
                } else {
                    0
                };
                let p = self.crossing(sample) - before;
                &&& p >= 0
                &&& p == 0 || 98 * p * 100_000 <= (2 * before - 100 * lost) * 100_000 + before
                &&& self.crossing(sample) <= u64::MAX ==> 98 * (p + 1) * 100_000 >= (2 * before - 100
                    * lost - 100) * 100_000 - before
            }),
    {
        let before = sample.tx_in_flight.saturating_sub(sample.bytes);
        let lost = sample.lost.saturating_sub(sample.bytes);
        let thresh = self.config.loss_thresh;
        assert(thresh == (F32 { bits: 0x3ca3_d70a }));
        lemma_one_fiftieth(before);
        let s = scaled(thresh, before, Format::Single);
        let budget = s.saturating_sub(lost);
        lemma_default_remainder();
        lemma_divided_by(budget, 16_441_672);
        let p = self.lost_prefix(sample);
        lemma_crossing_arithmetic(
            before as int,
            lost as int,
            s as int,
            budget as int,
            p as int,
            p == u64::MAX,
        );
    }

    /// A reaction to loss: the probe is over, and unless the sample was app-limited the ceiling is
    /// what was in flight, or seven tenths of the volume that should be, if that is more. UP turns to
    /// DOWN.
    pub proof fn lemma_reaction_to_loss(
        self,
        now: Instant,
        is_app_limited: bool,
        bytes_in_flight: u64,
        wait: ProbeWait,
    )
        ensures
            ({
                let next = self.backed_off(now, is_app_limited, bytes_in_flight, wait);
                let turns = self.mode == Mode::ProbeBw && self.cycle_phase == CyclePhase::Up;
                &&& !next.bw_probe_samples
                &&& is_app_limited ==> next.inflight_hi == self.inflight_hi
                &&& !is_app_limited ==> is_seven_tenths_above(
                    next.inflight_hi,
                    self.inflight_target(),
                    bytes_in_flight,
                )
                &&& turns ==> next.cycle_phase == CyclePhase::Down && next.cycle_start == Some(now)
                    && next.loss_bursts_in_round == 0 && next.bw_probe_up_cnt == u64::MAX
                    && next.bw_probe_wait == wait.wait && next.rounds_since_bw_probe == wait.rounds
                &&& !turns ==> next == Bbr2 {
                    bw_probe_samples: false,
                    inflight_hi: next.inflight_hi,
                    ..self
                }
                &&& next.inflight_lo == self.inflight_lo && next.cwnd == self.cwnd && next.mode
                    == self.mode
            }),
    {
        lemma_seven_tenths_above(self.inflight_target(), bytes_in_flight);
    }

    /// A lost packet: a packet that is not contiguous with the last one lost starts a burst; the first
    /// loss of a loss round puts its end at what was delivered by then, if that is further out. During
    /// a probe, too much loss is reacted to at the volume where it crossed the threshold.
    pub proof fn lemma_lost_packet(self, now: Instant, sample: LossSample, wait: ProbeWait)
        requires
            self.crossing(sample) <= u64::MAX,
        ensures
            ({
                let next = self.loss_sampled(now, sample, wait);
                let bursts = self.loss_bursts_in_round + if sample.new_loss_burst
                    && self.loss_bursts_in_round < 255 {
                    1int
                } else {
                    0int
                };
                let counted = Bbr2 { loss_bursts_in_round: bursts as u8, ..self };
                let reacts = self.bw_probe_samples && counted.loss_too_high(
                    sample.lost,
                    sample.tx_in_flight,
                );
                let turns = reacts && self.mode == Mode::ProbeBw && self.cycle_phase
                    == CyclePhase::Up;
                &&& next.loss_bursts_in_round == if turns {
                    0
                } else {
                    bursts
                }
                &&& self.loss_bursts_in_round > 0 ==> next.loss_round == self.loss_round
                &&& self.loss_bursts_in_round == 0 ==> {
                    &&& next.loss_round.next_round_delivered >= sample.delivered
                    &&& next.loss_round.next_round_delivered
                        >= self.loss_round.next_round_delivered
                    &&& next.loss_round.next_round_delivered == sample.delivered
                        || next.loss_round.next_round_delivered
                        == self.loss_round.next_round_delivered
                    &&& next.loss_round.round_start == self.loss_round.round_start
                }
                &&& next.bw_probe_samples == (self.bw_probe_samples && !reacts)
                &&& reacts && !sample.is_app_limited ==> is_seven_tenths_above(
                    next.inflight_hi,
                    self.inflight_target(),
                    self.crossing(sample) as u64,
                )
                &&& !reacts || sample.is_app_limited ==> next.inflight_hi == self.inflight_hi
                &&& turns ==> next.cycle_phase == CyclePhase::Down
                &&& !reacts ==> next == Bbr2 {
                    loss_bursts_in_round: next.loss_bursts_in_round,
                    loss_round: next.loss_round,
                    ..self
                }
            }),
    {
        lemma_seven_tenths_above(self.inflight_target(), self.crossing(sample) as u64);
        let counted = self.burst_counted(sample);
        assert(counted.inflight_target() == self.inflight_target());
    }
}

/// `s` is a fiftieth of `before`, `budget` what `lost` leaves of it, and `p` that over 0.98.
proof fn lemma_crossing_arithmetic(
    before: int,
    lost: int,
    s: int,
    budget: int,
    p: int,
    saturated: bool,
)
    requires
        before >= 0,
        lost >= 0,
        s >= 0,
        p >= 0,
        s < 0x1_0000_0000_0000_0000,
        before < 0x1_0000_0000_0000_0000,
        s * 50 * 1_000_000 <= before * 1_000_001,
        s == 0xffff_ffff_ffff_ffff || (s + 1) * 50 * 1_000_000 > before * 999_999,
        budget == if s >= lost {
            s - lost
        } else {
            0
        },
        p * 16_441_672 * 4_000_000 <= 0x100_0000 * budget * 4_000_001,
        saturated || (p + 1) * 16_441_672 * 4_000_000 > 0x100_0000 * budget * 3_999_999,
    ensures
        p == 0 || 98 * p * 100_000 <= (2 * before - 100 * lost) * 100_000 + before,
        !saturated ==> 98 * (p + 1) * 100_000 >= (2 * before - 100 * lost - 100) * 100_000
            - before,
{
}

// ---- the ceiling and the short-term bound ----

impl Bbr2 {
    /// The end of a round: where it lost more than the threshold allows of its bytes, to one part in a
    /// million, the ceiling comes down to seven tenths of what is in flight, but not below the minimum
    /// window, and never goes up. Otherwise, outside of PROBE_BW, an engaged ceiling goes up by what
    /// the round delivered, or by a datagram. Nothing else changes. With the default threshold and
    /// reduction.
    pub proof fn lemma_ceiling_after_a_round(self, in_flight: u64)
        requires
            self.config.loss_thresh.bits == 0x3ca3_d70a,
            self.config.beta.bits == 0x3e99_999a,
            self.round_lost + self.round_delivered <= u64::MAX,
        ensures
            ({
                let next = self.ceiling_updated(in_flight);
                let total = self.round_lost + self.round_delivered;
                let congested = 50 * self.round_lost * 999_998 > total * 1_000_000;
                let clean = 50 * self.round_lost * 1_000_000 <= total * 999_998;
                &&& next == Bbr2 { inflight_hi: next.inflight_hi, ..self }
                &&& congested ==> {
                    &&& next.inflight_hi <= self.inflight_hi
                    &&& next.inflight_hi == self.inflight_hi || is_seven_tenths_above(
                        next.inflight_hi,
                        in_flight,
                        self.min_cwnd,
                    )
                    &&& exists|t: u64| #[trigger]
                        is_seven_tenths_above(t, in_flight, self.min_cwnd) && next.inflight_hi <= t
                }
                &&& clean && (total == 0 || self.inflight_hi == u64::MAX || self.mode
                    == Mode::ProbeBw) ==> next.inflight_hi == self.inflight_hi
                &&& clean && total > 0 && self.inflight_hi != u64::MAX && self.mode != Mode::ProbeBw
                    ==> {
                    let step = if self.round_delivered >= self.current_mtu {
                        self.round_delivered
                    } else {
                        self.current_mtu
                    };
                    next.inflight_hi == if self.inflight_hi + step <= u64::MAX {
                        self.inflight_hi + step
                    } else {
                        u64::MAX as int
                    }
                }
            }),
    {
        lemma2_to64();
        let total = self.round_lost + self.round_delivered;
        assert(self.config.loss_thresh.value() == Float::Finite {
            neg: false,
            man: 0xa3_d70a,
            exp: -29i32,
        });
        if total > 0 {
            lemma_ratio_over_fraction(0xa3_d70a, -29i32, self.round_lost, total as u64);
            lemma_fiftieth(self.round_lost as int, total, pow2(29) as int);
        }
        assert(self.config.beta == (F32 { bits: 0x3e99_999a }));
        lemma_default_reduction();
        lemma_seven_tenths_above(in_flight, self.min_cwnd);
        let factor = (F32 { bits: 0x3f33_3333 }).value();
        let volume = integer(in_flight as nat, Format::Single);
        assert(product(factor, volume, Format::Single) == product(volume, factor, Format::Single))
            by {
            match (factor, volume) {
                (Float::Finite { man: a, .. }, Float::Finite { man: b, .. }) => {
                    assert(a * b == b * a) by (nonlinear_arith);
                },
                _ => {},
            }
        }
        let reduced = self.reduced(in_flight);
        assert(reduced == scaled(F32 { bits: 0x3f33_3333 }, in_flight, Format::Single));
        assert(is_seven_tenths_above(max(reduced, self.min_cwnd), in_flight, self.min_cwnd));
    }

    /// The end of a loss round with a loss, where the flow does not accelerate: in DRAIN, in PROBE_RTT,
    /// and in DOWN and CRUISE the short-term bound collapses to seven tenths of itself, or of the
    /// window where it was disengaged, but not below what a sample of the loss round delivered. In
    /// STARTUP, REFILL and UP it stays, as it does without a loss and before the end of the loss round.
    pub proof fn lemma_lossy_round_lowers(self, bytes_acked: u64, in_flight: u64, is_round_start: bool)
        ensures
            ({
                let next = self.bounds_adjusted(bytes_acked, in_flight, is_round_start);
                let ends = bytes_acked > 0 && self.rate_sample.prior_delivered
                    >= self.loss_round.next_round_delivered;
                let steady = self.mode == Mode::Drain || self.mode == Mode::ProbeRtt || (self.mode
                    == Mode::ProbeBw && (self.cycle_phase == CyclePhase::Down || self.cycle_phase
                    == CyclePhase::Cruise));
                let before = if self.inflight_lo == u64::MAX {
                    self.cwnd
                } else {
                    self.inflight_lo
                };
                &&& ends && steady && self.loss_bursts_in_round > 0 ==> is_seven_tenths_above(
                    next.inflight_lo,
                    before,
                    self.inflight_latest,
                )
                &&& !ends || !steady || self.loss_bursts_in_round == 0 ==> next.inflight_lo
                    == self.inflight_lo
                &&& ends ==> next.loss_round.round_start && next.loss_round.next_round_delivered
                    == self.delivered_total
                &&& bytes_acked > 0 && !ends ==> !next.loss_round.round_start
                    && next.loss_round.next_round_delivered == self.loss_round.next_round_delivered
                &&& bytes_acked == 0 ==> next.loss_round == self.loss_round
                &&& !is_round_start ==> next.inflight_hi == self.inflight_hi
                &&& is_round_start ==> next.inflight_hi == self.ceiling_updated(
                    in_flight,
                ).inflight_hi
                &&& next == Bbr2 {
                    inflight_lo: next.inflight_lo,
                    inflight_hi: next.inflight_hi,
                    loss_round: next.loss_round,
                    ..self
                }
            }),
    {
        reveal(Bbr2::bounds_adjusted);
        let before = if self.inflight_lo == u64::MAX {
            self.cwnd
        } else {
            self.inflight_lo
        };
        lemma_seven_tenths_above(before, self.inflight_latest);
    }

    /// What is left of the ceiling with headroom: 85 percent of it, rounded down, but no less than the
    /// minimum window; no limit without a ceiling.
    pub proof fn lemma_headroom(self)
        ensures
            self.inflight_hi == u64::MAX ==> self.headroom() == u64::MAX,
            self.inflight_hi != u64::MAX ==> {
                let h = self.headroom();
                &&& h >= self.min_cwnd
                &&& h == self.min_cwnd || h * 100 * 10_000_000 <= 85 * self.inflight_hi * 10_000_001
                &&& (h + 1) * 100 * 10_000_000 > 85 * self.inflight_hi * 9_999_999
            },
    {
        lemma_85_percent(self.inflight_hi);
    }

    /// What a rate sample does to the ceiling once the pipe is full. Too much loss is reacted to at
    /// what was in flight during a probe, and ignored otherwise. Without it an engaged ceiling covers
    /// what was in flight, and in UP, with the window as large as that and the flow limited by it, it
    /// grows.
    pub proof fn lemma_ceiling_follows_samples(
        self,
        now: Instant,
        bytes_acked: u64,
        is_round_start: bool,
        wait: ProbeWait,
    )
        ensures
            ({
                let next = self.adapted(now, bytes_acked, is_round_start, wait);
                let rs = self.rate_sample;
                let lossy = self.loss_too_high(rs.lost, rs.tx_in_flight);
                let covered = Bbr2 {
                    inflight_hi: if rs.tx_in_flight > self.inflight_hi {
                        rs.tx_in_flight
                    } else {
                        self.inflight_hi
                    },
                    ..self
                };
                let limited = self.mode == Mode::ProbeBw && self.cycle_phase == CyclePhase::Up
                    && self.cwnd_limited_in_round && self.cwnd >= self.inflight_hi && self.cwnd
                    >= rs.tx_in_flight;
                &&& lossy && !self.bw_probe_samples ==> next == self
                &&& lossy && self.bw_probe_samples ==> next == self.backed_off(
                    now,
                    rs.is_app_limited,
                    rs.tx_in_flight,
                    wait,
                )
                &&& !lossy && self.inflight_hi == u64::MAX ==> next == self
                &&& !lossy && self.inflight_hi != u64::MAX && !limited ==> next == covered
                &&& !lossy && self.inflight_hi != u64::MAX && limited ==> next
                    == covered.probed_upward(bytes_acked, is_round_start)
            }),
    {
    }

    /// Growth in UP: for every `bw_probe_up_cnt` acked bytes an engaged ceiling goes up by a datagram,
    /// and less than that count is carried over. A round start makes the slope steeper.
    pub proof fn lemma_ceiling_grows_in_up(self, bytes_acked: u64, round_start: bool)
        requires
            self.probe_up_fits(bytes_acked),
            self.bw_probe_up_cnt > 0,
            self.inflight_hi != u64::MAX,
        ensures
            ({
                let next = self.probed_upward(bytes_acked, round_start);
                let cnt = self.bw_probe_up_cnt;
                let spent = self.bw_probe_up_acks + bytes_acked - next.bw_probe_up_acks;
                &&& next.bw_probe_up_acks < cnt
                &&& spent >= 0
                &&& next.inflight_hi < u64::MAX ==> (next.inflight_hi - self.inflight_hi) * cnt
                    == spent * self.current_mtu
                &&& next.inflight_hi >= self.inflight_hi
                &&& next.inflight_hi == u64::MAX ==> (u64::MAX - self.inflight_hi) * cnt <= spent
                    * self.current_mtu
                &&& !round_start ==> next.bw_probe_up_cnt == cnt && next.bw_probe_up_rounds
                    == self.bw_probe_up_rounds
                &&& round_start ==> next.bw_probe_up_cnt == self.slope_raised().bw_probe_up_cnt
                    && next.bw_probe_up_rounds == self.slope_raised().bw_probe_up_rounds
                &&& next == Bbr2 {
                    bw_probe_up_acks: next.bw_probe_up_acks,
                    inflight_hi: next.inflight_hi,
                    bw_probe_up_cnt: next.bw_probe_up_cnt,
                    bw_probe_up_rounds: next.bw_probe_up_rounds,
                    ..self
                }
            }),
    {
        let cnt = self.bw_probe_up_cnt as int;
        let sum = self.bw_probe_up_acks + bytes_acked;
        let mtu = self.current_mtu as int;
        lemma_quotient_of(sum, cnt);
        vstd::arithmetic::div_mod::lemma_fundamental_div_mod(sum, cnt);
        let k = sum / cnt;
        assert(cnt * k == k * cnt) by (nonlinear_arith);
        assert((k * mtu) * cnt == (k * cnt) * mtu) by (nonlinear_arith);
        assert(k * mtu >= 0) by (nonlinear_arith)
            requires
                k >= 0,
                mtu >= 0,
        ;
        let room = u64::MAX - self.inflight_hi;
        if room <= k * mtu {
            assert(room * cnt <= (k * mtu) * cnt) by (nonlinear_arith)
                requires
                    room <= k * mtu,
                    cnt > 0,
            ;
        }
    }

    /// The slope: after `n` rounds of UP a datagram for every `1 / 2^n` of the window, rounded down,
    /// but for no less than a datagram; the rounds count up to 30.
    pub proof fn lemma_slope_of_a_round(self)
        ensures
            ({
                let next = self.slope_raised();
                let n = if self.bw_probe_up_rounds < 30 {
                    self.bw_probe_up_rounds as nat
                } else {
                    30
                };
                let cnt = next.bw_probe_up_cnt;
                &&& cnt >= self.current_mtu
                &&& cnt == self.current_mtu || cnt * pow2(n) <= self.cwnd
                &&& self.cwnd < (cnt + 1) * pow2(n)
                &&& next.bw_probe_up_rounds == if self.bw_probe_up_rounds < 30 {
                    self.bw_probe_up_rounds + 1
                } else {
                    30
                }
                &&& next == Bbr2 {
                    bw_probe_up_cnt: cnt,
                    bw_probe_up_rounds: next.bw_probe_up_rounds,
                    ..self
                }
            }),
    {
        let n = if self.bw_probe_up_rounds < 30 {
            self.bw_probe_up_rounds as nat
        } else {
            30
        };
        lemma_pow2_pos(n);
        let d = pow2(n) as int;
        lemma_quotient_of(self.cwnd as int, d);
        vstd::arithmetic::div_mod::lemma_div_nonincreasing(self.cwnd as int, d);
        let q = self.cwnd as int / d;
        let cnt = self.slope_raised().bw_probe_up_cnt;
        assert((q + 1) * d <= (cnt + 1) * d) by (nonlinear_arith)
            requires
                q <= cnt,
                d > 0,
        ;
    }
}

} // verus!
