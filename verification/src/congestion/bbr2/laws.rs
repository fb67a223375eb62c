//! What holds of the controller as a whole.

pub mod batches;
pub mod bounds;
pub mod config;
pub mod cycle;
pub mod estimate;
pub mod limits;
pub mod modes;
pub mod pacing;
pub mod sizing;
pub mod whole;

use crate::congestion::bbr2::batch::Draws;
use crate::congestion::bbr2::probe_bw::ProbeWait;
use crate::congestion::bbr2::{
    delivery_rate, Bbr2, Bbr2Config, CyclePhase, Mode, RecoveryState, K_BETA,
    K_DEFAULT_BETA, K_DEFAULT_HIGH_GAIN, K_DRAIN_GAIN, K_GAIN_DOWN, K_GAIN_ONE, K_GAIN_UP,
    K_HEADROOM, K_MAX_BW_PROBE_ROUNDS, K_MIN_RTT_EXPIRY_NANOS,
};
use crate::congestion::{Controller, LossSample, RateSample, RttEstimator};
use crate::float::rounding::{lemma_exponent_unique, nearest, pow2_up};
use crate::float::scaling::lemma_scaled_no_more;
use crate::float::{complement, integer, less, product, quotient, Float, Format, F32};
use crate::ints::max;
use crate::time::Instant;
use vstd::arithmetic::power2::{lemma2_to64, lemma2_to64_rest, pow2};
use vstd::prelude::*;

verus! {

// ---- gains ----

/// DOWN paces below the bottleneck rate, CRUISE and REFILL at it, and UP above it.
pub proof fn lemma_phase_gains()
    ensures
        ({
            let one = F32 { bits: K_GAIN_ONE };
            &&& less(CyclePhase::Down.gain().value(), one.value())
            &&& CyclePhase::Cruise.gain() == one
            &&& CyclePhase::Refill.gain() == one
            &&& less(one.value(), CyclePhase::Up.gain().value())
        }),
{
    lemma2_to64();
    assert((F32 { bits: K_GAIN_ONE }).value() == Float::Finite {
        neg: false,
        man: 0x80_0000,
        exp: -23i32,
    });
    assert((F32 { bits: K_GAIN_DOWN }).value() == Float::Finite {
        neg: false,
        man: 0xe6_6666,
        exp: -24i32,
    });
    assert((F32 { bits: K_GAIN_UP }).value() == Float::Finite {
        neg: false,
        man: 0xa0_0000,
        exp: -23i32,
    });
    assert(pow2_up(1) == 2);
    assert(pow2_up(-1) == 1);
    assert(pow2_up(0) == 1);
}

/// DRAIN undoes STARTUP: its gain is one over that of STARTUP, in single precision, and paces below
/// the bottleneck rate.
pub proof fn lemma_drain_gain()
    ensures
        quotient(
            (F32 { bits: K_GAIN_ONE }).value(),
            (F32 { bits: K_DEFAULT_HIGH_GAIN }).value(),
            Format::Single,
        ) == (F32 { bits: K_DRAIN_GAIN }).value(),
        less((F32 { bits: K_DRAIN_GAIN }).value(), (F32 { bits: K_GAIN_ONE }).value()),
{
    lemma2_to64();
    lemma2_to64_rest();
    lemma_exponent_unique(0x80_0000, 0xb8_a3d7, -1, Format::Single, -25);
}

/// What the default reduction leaves of a volume is the factor of the bounds.
pub proof fn lemma_default_reduction()
    ensures
        complement((F32 { bits: K_DEFAULT_BETA }).value(), Format::Single) == (F32 {
            bits: K_BETA,
        }).value(),
{
    lemma2_to64();
    lemma2_to64_rest();
    assert((F32 { bits: K_DEFAULT_BETA }).value() == Float::Finite {
        neg: false,
        man: 0x99_999a,
        exp: -25i32,
    });
    assert(0x99_999a * pow2(0) == 0x99_999a);
    assert(pow2_up(1) == 2);
    assert(pow2_up(-1) == 1);
    lemma_exponent_unique(23_488_102, 1, -25, Format::Single, -24);
    assert(nearest(23_488_102, 2) == 11_744_051);
}

/// What the default threshold leaves of a volume is 0.98 of it.
pub proof fn lemma_default_remainder()
    ensures
        complement((F32 { bits: 0x3ca3_d70a }).value(), Format::Single) == (Float::Finite {
            neg: false,
            man: 16_441_672,
            exp: -24i32,
        }),
{
    lemma2_to64();
    lemma2_to64_rest();
    assert((F32 { bits: 0x3ca3_d70a }).value() == Float::Finite {
        neg: false,
        man: 0xa3_d70a,
        exp: -29i32,
    });
    assert(0xa3_d70a * pow2(0) == 0xa3_d70a);
    assert(pow2_up(5) == 32);
    assert(pow2_up(4) == 16);
    assert(pow2_up(-5) == 1);
    assert(pow2_up(-4) == 1);
    lemma_exponent_unique(526_133_494, 1, -29, Format::Single, -24);
    assert(nearest(526_133_494, 32) == 16_441_672);
}

// ---- the window ----

impl Bbr2 {
    /// The window is never below the minimum window, no matter how far the bounds have collapsed.
    pub proof fn lemma_window_never_below_min(self)
        ensures
            self.window_size() >= self.min_cwnd,
    {
    }

    /// The congestion window and each bound on what is in flight limit the window, in every mode,
    /// down to the minimum window.
    pub proof fn lemma_window_yields(self)
        ensures
            self.window_size() <= max(self.inflight_hi, self.min_cwnd),
            self.window_size() <= max(self.inflight_lo, self.min_cwnd),
            self.window_size() <= max(self.cwnd, self.min_cwnd),
    {
    }

    /// With both bounds disengaged, outside of recovery and of PROBE_RTT, the window is the
    /// congestion window.
    pub proof fn lemma_window_without_bounds(self)
        requires
            self.inflight_hi == u64::MAX,
            self.inflight_lo == u64::MAX,
            self.mode != Mode::ProbeRtt,
            self.recovery_state == RecoveryState::NotInRecovery,
            self.cwnd >= self.min_cwnd,
        ensures
            self.window_size() == self.cwnd,
    {
    }

    /// The end of a batch leaves the congestion window at the minimum window or above, outside of
    /// PROBE_RTT; in PROBE_RTT, it leaves the congestion window alone.
    pub proof fn lemma_batch_keeps_cwnd_floor(
        self,
        now: Instant,
        in_flight: u64,
        app_limited: bool,
        largest_packet_num_acked: Option<u64>,
        draws: Draws,
    )
        requires
            self.valid(),
        ensures
            ({
                let next = self.batch_ended(
                    now,
                    in_flight,
                    app_limited,
                    largest_packet_num_acked,
                    draws,
                );
                &&& next.min_cwnd == self.min_cwnd
                &&& next.mode != Mode::ProbeRtt ==> next.cwnd >= next.min_cwnd
                &&& next.mode == Mode::ProbeRtt ==> next.cwnd == self.cwnd
            }),
    {
        self.lemma_scale_before_sizing(
            now,
            in_flight,
            app_limited,
            largest_packet_num_acked,
            draws,
        );
        reveal(Bbr2::sized);
        reveal(Bbr2::closed);
    }

    /// A new path has no smaller a congestion window than its minimum window.
    pub proof fn lemma_mtu_keeps_cwnd_floor(self, new_mtu: u16)
        ensures
            ({
                let next = self.mtu_updated(new_mtu);
                &&& next.min_cwnd == 4 * new_mtu
                &&& next.cwnd >= next.min_cwnd
                &&& next.init_cwnd >= next.min_cwnd
                &&& next.cwnd >= self.cwnd
            }),
    {
    }

    /// In recovery, the recovery window covers the minimum window and what was in flight before the
    /// batch was acked.
    pub proof fn lemma_recovery_window_floor(self, bytes_acked: u64, bytes_lost: u64, in_flight: u64)
        requires
            self.recovery_state != RecoveryState::NotInRecovery,
            self.recovery_fits(bytes_acked, bytes_lost, in_flight),
        ensures
            self.recovering(bytes_acked, bytes_lost, in_flight).recovery_window >= self.min_cwnd,
            self.recovering(bytes_acked, bytes_lost, in_flight).recovery_window >= in_flight
                + bytes_acked,
    {
    }

    /// Losses put the flow into recovery.
    pub proof fn lemma_losses_start_recovery(self, is_round_start: bool)
        requires
            self.has_losses(),
        ensures
            self.recovery_updated(is_round_start).recovery_state != RecoveryState::NotInRecovery,
    {
    }

    /// Recovery lasts until a packet is acked that was sent after the last loss.
    pub proof fn lemma_recovery_ends_after_last_loss(self, is_round_start: bool)
        requires
            self.recovery_state != RecoveryState::NotInRecovery,
        ensures
            self.recovery_updated(is_round_start).recovery_state == RecoveryState::NotInRecovery
                <==> !self.has_losses() && self.max_acked_packet_number
                > self.end_recovery_at_packet_number,
    {
    }

    /// Until the pipe is full, a pacing rate that has been set only goes up.
    pub proof fn lemma_startup_pacing_goes_up(self)
        requires
            !self.is_at_full_bandwidth,
        ensures
            self.paced().pacing_rate >= self.pacing_rate,
    {
    }
}

// ---- the bounds on what is in flight ----

impl Bbr2 {
    /// A congested round never raises the ceiling, nor takes one from above the minimum window
    /// below it; with the default reduction, the ceiling ends up at what is in flight or below,
    /// down to the minimum window.
    pub proof fn lemma_congested_round_ratchets_down(self, in_flight: u64)
        requires
            self.round_lost + self.round_delivered > 0,
            self.round_congested(),
        ensures
            ({
                let next = self.ceiling_updated(in_flight);
                &&& next.inflight_hi <= self.inflight_hi
                &&& self.inflight_hi >= self.min_cwnd ==> next.inflight_hi >= self.min_cwnd
                &&& self.config.beta.bits == K_DEFAULT_BETA ==> next.inflight_hi <= max(
                    in_flight,
                    self.min_cwnd,
                )
            }),
    {
        if self.config.beta.bits == K_DEFAULT_BETA {
            lemma_default_reduction();
            let factor = (F32 { bits: K_BETA }).value();
            lemma_scaled_no_more(factor, in_flight, Format::Single);
            let volume = integer(in_flight as nat, Format::Single);
            assert(product(factor, volume, Format::Single) == product(
                volume,
                factor,
                Format::Single,
            )) by {
                match (factor, volume) {
                    (Float::Finite { man: a, .. }, Float::Finite { man: b, .. }) => {
                        assert(a * b == b * a) by (nonlinear_arith);
                    },
                    _ => {},
                }
            }
        }
    }

    /// A round without congestion never lowers the ceiling, and leaves a disengaged one so.
    pub proof fn lemma_clean_round_raises(self, in_flight: u64)
        requires
            self.round_lost + self.round_delivered == 0 || !self.round_congested(),
        ensures
            self.ceiling_updated(in_flight).inflight_hi >= self.inflight_hi,
    {
    }

    /// A lossy loss round collapses the short-term bound: not below what the round delivered, and
    /// not above that or what the bound was before, which is the window where it was disengaged.
    pub proof fn lemma_inflight_lo_collapses(self)
        requires
            self.loss_bursts_in_round > 0,
        ensures
            ({
                let before = if self.inflight_lo == u64::MAX {
                    self.cwnd
                } else {
                    self.inflight_lo
                };
                &&& self.lowered().inflight_lo >= self.inflight_latest
                &&& self.lowered().inflight_lo <= max(self.inflight_latest, before)
            }),
    {
        let before = if self.inflight_lo == u64::MAX {
            self.cwnd
        } else {
            self.inflight_lo
        };
        lemma_scaled_no_more((F32 { bits: K_BETA }).value(), before, Format::Single);
    }

    /// While the flow probes for bandwidth, and without a loss burst, the short-term bound stays.
    pub proof fn lemma_inflight_lo_stays(
        self,
        bytes_acked: u64,
        in_flight: u64,
        is_round_start: bool,
    )
        requires
            self.probes_for_bandwidth() || self.loss_bursts_in_round == 0,
        ensures
            self.bounds_adjusted(bytes_acked, in_flight, is_round_start).inflight_lo
                == self.inflight_lo,
    {
        reveal(Bbr2::bounds_adjusted);
    }

    /// An engaged ceiling leaves headroom below it, down to the minimum window.
    pub proof fn lemma_headroom_below_ceiling(self)
        ensures
            self.headroom() <= max(self.inflight_hi, self.min_cwnd),
            self.headroom() >= self.min_cwnd,
    {
        lemma_scaled_no_more((F32 { bits: K_HEADROOM }).value(), self.inflight_hi, Format::Double);
    }

    /// One burst of losses does not trigger the reaction, however heavy it is.
    pub proof fn lemma_single_burst_is_tolerated(
        self,
        now: Instant,
        sample: LossSample,
        wait: ProbeWait,
    )
        requires
            self.burst_counted(sample).loss_bursts_in_round < 2,
        ensures
            self.loss_sampled(now, sample, wait) == self.burst_counted(sample),
            self.loss_sampled(now, sample, wait).inflight_hi == self.inflight_hi,
            self.loss_sampled(now, sample, wait).bw_probe_samples == self.bw_probe_samples,
    {
    }

    /// Contiguous losses are one burst.
    pub proof fn lemma_contiguous_losses_are_one_burst(self, sample: LossSample)
        requires
            !sample.new_loss_burst,
        ensures
            self.burst_counted(sample).loss_bursts_in_round == self.loss_bursts_in_round,
    {
    }

    /// A probe is reacted to once: the reaction to a loss uses it up, and the losses after it leave
    /// the ceiling alone.
    pub proof fn lemma_one_reaction_per_probe(
        self,
        now: Instant,
        sample: LossSample,
        wait: ProbeWait,
        later: Instant,
        next: LossSample,
        next_wait: ProbeWait,
    )
        requires
            self.reacts_to(sample),
        ensures
            ({
                let once = self.loss_sampled(now, sample, wait);
                let twice = once.loss_sampled(later, next, next_wait);
                &&& !once.bw_probe_samples
                &&& !twice.bw_probe_samples
                &&& twice.inflight_hi == once.inflight_hi
            }),
    {
    }

    /// An app-limited loss never moves the ceiling.
    pub proof fn lemma_app_limited_loss_keeps_ceiling(
        self,
        now: Instant,
        sample: LossSample,
        wait: ProbeWait,
    )
        requires
            sample.is_app_limited,
        ensures
            self.loss_sampled(now, sample, wait).inflight_hi == self.inflight_hi,
    {
    }

    /// A rate sample without too much loss never lowers the ceiling.
    pub proof fn lemma_clean_sample_raises(
        self,
        now: Instant,
        bytes_acked: u64,
        is_round_start: bool,
        wait: ProbeWait,
    )
        requires
            !self.loss_too_high(self.rate_sample.lost, self.rate_sample.tx_in_flight),
        ensures
            self.adapted(now, bytes_acked, is_round_start, wait).inflight_hi >= self.inflight_hi,
    {
    }

    /// Growth of the ceiling in UP accounts for every acked byte: a datagram for each
    /// `bw_probe_up_cnt` of them, and less than that carried over.
    pub proof fn lemma_probe_up_accounts(self, bytes_acked: u64, round_start: bool)
        requires
            self.probe_up_fits(bytes_acked),
            self.bw_probe_up_cnt > 0,
        ensures
            ({
                let next = self.probed_upward(bytes_acked, round_start);
                let datagrams = self.probe_up_datagrams(bytes_acked);
                &&& next.bw_probe_up_acks < self.bw_probe_up_cnt
                &&& datagrams * self.bw_probe_up_cnt + next.bw_probe_up_acks
                    == self.bw_probe_up_acks + bytes_acked
                &&& self.inflight_hi != u64::MAX && self.inflight_hi + datagrams * self.current_mtu
                    <= u64::MAX ==> next.inflight_hi == self.inflight_hi + datagrams
                    * self.current_mtu
            }),
    {
        let sum = self.bw_probe_up_acks + bytes_acked;
        let cnt = self.bw_probe_up_cnt as int;
        vstd::arithmetic::div_mod::lemma_fundamental_div_mod(sum, cnt);
        assert(cnt * (sum / cnt) == (sum / cnt) * cnt) by (nonlinear_arith);
        assert(0 <= (sum / cnt) * self.current_mtu) by (nonlinear_arith)
            requires
                sum >= 0,
                cnt > 0,
                self.current_mtu >= 0,
        ;
    }

    /// The slope gets no steeper than a datagram per acked datagram, and no flatter than a datagram
    /// per window.
    pub proof fn lemma_slope_range(self)
        ensures
            self.slope_raised().bw_probe_up_cnt >= self.current_mtu,
            self.slope_raised().bw_probe_up_cnt <= max(self.cwnd, self.current_mtu),
    {
        let rounds = if self.bw_probe_up_rounds <= 30 {
            self.bw_probe_up_rounds as nat
        } else {
            30
        };
        vstd::arithmetic::power2::lemma_pow2_pos(rounds);
        vstd::arithmetic::div_mod::lemma_div_nonincreasing(self.cwnd as int, pow2(rounds) as int);
    }
}

// ---- samples ----

impl Bbr2 {
    /// App-limited samples can only raise the bandwidth estimate.
    pub proof fn lemma_app_limited_only_raises(self, sample: RateSample)
        requires
            self.valid(),
            sample.is_app_limited,
        ensures
            self.sampled(sample).bandwidth() >= self.bandwidth(),
    {
    }

    /// The estimate is never below the rate of a sample just taken in, app-limited or not.
    pub proof fn lemma_estimate_covers_sample(self, sample: RateSample)
        requires
            self.valid(),
        ensures
            delivery_rate(sample) matches Some(rate) ==> self.sampled(
                sample,
            ).bandwidth() >= rate,
    {
    }

    /// The sample kept is the one of the packet sent last, and of two that were sent at the same
    /// delivered total the later one.
    pub proof fn lemma_newest_sample_is_kept(self, sample: RateSample)
        ensures
            self.sampled(sample).rate_sample.prior_delivered == max(
                self.rate_sample.prior_delivered,
                sample.prior_delivered,
            ),
            self.sampled(sample).rate_sample == sample || self.sampled(sample).rate_sample
                == self.rate_sample,
            self.sampled(sample).delivered_total >= self.delivered_total,
    {
    }

    /// The maxima of a loss round cover every sample of it.
    pub proof fn lemma_latest_covers_sample(self, sample: RateSample)
        ensures
            self.sampled(sample).inflight_latest >= sample.delivered,
            self.sampled(sample).inflight_latest >= self.inflight_latest,
            self.sampled(sample).bw_latest >= self.bw_latest,
            delivery_rate(sample) matches Some(rate) ==> self.sampled(
                sample,
            ).bw_latest >= rate,
    {
    }

    /// Until it expires, the minimum round-trip time is the minimum of what was reported.
    pub proof fn lemma_min_rtt_is_minimum(
        self,
        now: Instant,
        bytes: u64,
        app_limited: bool,
        rtt: RttEstimator,
    )
        requires
            !self.min_rtt_expired(now, app_limited),
        ensures
            ({
                let next = self.acked(now, bytes, app_limited, rtt);
                &&& next.min_rtt.nanos <= self.min_rtt.nanos
                &&& next.min_rtt.nanos <= rtt.min.nanos
                &&& next.min_rtt == self.min_rtt || next.min_rtt == rtt.min
            }),
    {
    }
}

// ---- modes and phases ----

/// `to` may come after `from` in the cycle, or is the same phase.
pub open spec fn may_follow(from: CyclePhase, to: CyclePhase) -> bool {
    from == to || match from {
        CyclePhase::Up => to == CyclePhase::Down,
        CyclePhase::Down => to == CyclePhase::Cruise || to == CyclePhase::Refill,
        CyclePhase::Cruise => to == CyclePhase::Refill,
        CyclePhase::Refill => to == CyclePhase::Up,
    }
}

impl Bbr2 {
    /// The cycle goes Up -> Down -> (Cruise ->) Refill -> Up, by the clock and by losses alike.
    pub proof fn lemma_cycle_order(
        self,
        now: Instant,
        in_flight: u64,
        bytes_acked: u64,
        is_round_start: bool,
        sample: LossSample,
        wait: ProbeWait,
    )
        ensures
            may_follow(
                self.cycle_phase,
                self.cycled(now, in_flight, is_round_start, wait).cycle_phase,
            ),
            may_follow(
                self.cycle_phase,
                self.adapted(now, bytes_acked, is_round_start, wait).cycle_phase,
            ),
            may_follow(self.cycle_phase, self.loss_sampled(now, sample, wait).cycle_phase),
    {
    }

    /// PROBE_BW is entered in DOWN; otherwise a change of mode leaves the phase alone.
    pub proof fn lemma_probe_bw_starts_in_down(
        self,
        now: Instant,
        in_flight: u64,
        app_limited: bool,
        is_round_start: bool,
        drain: ProbeWait,
        probe_rtt: ProbeWait,
    )
        ensures
            ({
                let next = self.mode_changed(
                    now,
                    in_flight,
                    app_limited,
                    is_round_start,
                    drain,
                    probe_rtt,
                );
                &&& next.mode == Mode::ProbeBw && self.mode != Mode::ProbeBw ==> next.cycle_phase
                    == CyclePhase::Down
                &&& next.cycle_phase == self.cycle_phase || next.cycle_phase == CyclePhase::Down
            }),
    {
        reveal(Bbr2::mode_changed);
    }

    /// A probe for bandwidth begins where REFILL turns to UP, and nowhere else.
    pub proof fn lemma_probe_begins_in_up(
        self,
        now: Instant,
        in_flight: u64,
        is_round_start: bool,
        wait: ProbeWait,
    )
        requires
            !self.bw_probe_samples,
        ensures
            ({
                let next = self.cycled(now, in_flight, is_round_start, wait);
                next.bw_probe_samples <==> self.cycle_phase == CyclePhase::Refill
                    && next.cycle_phase == CyclePhase::Up
            }),
    {
    }

    /// One round of REFILL, then UP.
    pub proof fn lemma_refill_lasts_a_round(
        self,
        now: Instant,
        in_flight: u64,
        is_round_start: bool,
        wait: ProbeWait,
    )
        requires
            self.cycle_phase == CyclePhase::Refill,
        ensures
            self.cycled(now, in_flight, is_round_start, wait).cycle_phase == if is_round_start {
                CyclePhase::Up
            } else {
                CyclePhase::Refill
            },
    {
    }

    /// DOWN and CRUISE last no longer than the wait that was drawn, nor than the cap on rounds.
    pub proof fn lemma_probing_is_due(
        self,
        now: Instant,
        in_flight: u64,
        is_round_start: bool,
        wait: ProbeWait,
    )
        requires
            self.cycle_phase == CyclePhase::Down || self.cycle_phase == CyclePhase::Cruise,
            self.wait_is_over(now) || self.rounds_since_bw_probe >= K_MAX_BW_PROBE_ROUNDS,
        ensures
            self.cycled(now, in_flight, is_round_start, wait).cycle_phase == CyclePhase::Refill,
    {
    }

    /// STARTUP lasts until the pipe is full, and then gives way to DRAIN, or past it.
    pub proof fn lemma_startup_ends_when_full(self, now: Instant, in_flight: u64, wait: ProbeWait)
        requires
            self.mode == Mode::Startup,
        ensures
            !self.is_at_full_bandwidth ==> self.drained(now, in_flight, wait) == self,
            self.is_at_full_bandwidth ==> self.drained(now, in_flight, wait).mode == (
            if in_flight <= self.target_cwnd(F32 { bits: K_GAIN_ONE }) {
                Mode::ProbeBw
            } else {
                Mode::Drain
            }),
    {
    }

    /// The pipe counts as full after three rounds without growth, or at once in recovery; a round
    /// with growth starts the count again.
    pub proof fn lemma_full_pipe(self, app_limited: bool)
        requires
            !self.is_at_full_bandwidth,
            self.round_wo_bw_gain < u64::MAX,
        ensures
            self.full_bw_checked(app_limited).is_at_full_bandwidth <==> {
                &&& !app_limited
                &&& self.bandwidth() < self.growth_target()
                &&& self.round_wo_bw_gain >= 2 || self.recovery_state
                    != RecoveryState::NotInRecovery
            },
            !app_limited && self.bandwidth() >= self.growth_target() ==> self.full_bw_checked(
                app_limited,
            ).round_wo_bw_gain == 0,
    {
    }

    /// PROBE_RTT is not entered while the connection is app-limited, nor again within ten seconds.
    pub proof fn lemma_probe_rtt_is_rare(
        self,
        now: Instant,
        is_round_start: bool,
        bytes_in_flight: u64,
        app_limited: bool,
        wait: ProbeWait,
    )
        requires
            self.mode != Mode::ProbeRtt,
            app_limited || (self.probe_rtt_last_started_at matches Some(last) && now.nanos
                <= last.nanos + K_MIN_RTT_EXPIRY_NANOS),
        ensures
            self.rtt_probed(now, is_round_start, bytes_in_flight, app_limited, wait).mode
                == self.mode,
    {
    }

    /// PROBE_RTT is left only at the start of a round, and not before the time that was set once
    /// the pipe had drained.
    pub proof fn lemma_probe_rtt_lasts(
        self,
        now: Instant,
        is_round_start: bool,
        bytes_in_flight: u64,
        app_limited: bool,
        wait: ProbeWait,
    )
        requires
            self.mode == Mode::ProbeRtt,
        ensures
            self.rtt_probed(now, is_round_start, bytes_in_flight, app_limited, wait).mode
                != Mode::ProbeRtt <==> is_round_start && (
            self.exit_probe_rtt_at matches Some(exit) && now.nanos >= exit.nanos),
    {
    }
}

// ---- every event ----

/// What a controller can be told of, with the waits that are drawn on it.
pub enum Event {
    Sent { last_packet_number: u64 },
    Ack { now: Instant, bytes: u64, app_limited: bool, rtt: RttEstimator },
    AckSample { sample: RateSample },
    Loss { now: Instant, loss: LossSample, wait: ProbeWait },
    EndAcks {
        now: Instant,
        in_flight: u64,
        app_limited: bool,
        largest_packet_num_acked: Option<u64>,
        draws: Draws,
    },
    Congestion { lost_bytes: u64 },
    MtuUpdate { new_mtu: u16 },
}

impl Bbr2 {
    /// The state after `event`.
    pub open spec fn after(self, event: Event) -> Bbr2 {
        match event {
            Event::Sent { last_packet_number } => self.sent(last_packet_number),
            Event::Ack { now, bytes, app_limited, rtt } => self.acked(now, bytes, app_limited, rtt),
            Event::AckSample { sample } => self.sampled(sample),
            Event::Loss { now, loss, wait } => self.loss_sampled(now, loss, wait),
            Event::EndAcks { now, in_flight, app_limited, largest_packet_num_acked, draws } =>
                self.batch_ended(now, in_flight, app_limited, largest_packet_num_acked, draws),
            Event::Congestion { lost_bytes } => self.lost(lost_bytes),
            Event::MtuUpdate { new_mtu } => self.mtu_updated(new_mtu),
        }
    }

    /// The state after `events`, in their order.
    pub open spec fn after_all(self, events: Seq<Event>) -> Bbr2
        decreases events.len(),
    {
        if events.len() == 0 {
            self
        } else {
            self.after_all(events.drop_last()).after(events.last())
        }
    }

    /// The pacing gain is the one of the mode and, in PROBE_BW, of the phase.
    pub open spec fn paces_by_mode(self) -> bool {
        &&& self.high_gain == (F32 { bits: K_DEFAULT_HIGH_GAIN })
        &&& self.drain_gain == (F32 { bits: K_DRAIN_GAIN })
        &&& self.pacing_gain == match self.mode {
            Mode::Startup => F32 { bits: K_DEFAULT_HIGH_GAIN },
            Mode::Drain => F32 { bits: K_DRAIN_GAIN },
            Mode::ProbeBw => self.cycle_phase.gain(),
            Mode::ProbeRtt => F32 { bits: K_GAIN_ONE },
        }
    }

    /// `next` paces by its mode if `self` does, and counts the pipe as full if `self` does.
    spec fn keeps_gain_and_full_pipe(self, next: Bbr2) -> bool {
        &&& self.is_at_full_bandwidth ==> next.is_at_full_bandwidth
        &&& self.paces_by_mode() ==> next.paces_by_mode()
    }

    proof fn lemma_counting_keeps_gain(
        self,
        now: Instant,
        in_flight: u64,
        largest_packet_num_acked: Option<u64>,
    )
        ensures
            self.keeps_gain_and_full_pipe(
                self.batch_counted(now, in_flight, largest_packet_num_acked),
            ),
    {
        reveal(Bbr2::taken_in);
        reveal(Bbr2::bounds_adjusted);
    }

    proof fn lemma_probing_keeps_gain(
        self,
        now: Instant,
        bytes_acked: u64,
        in_flight: u64,
        is_round_start: bool,
        adapt: ProbeWait,
        cycle: ProbeWait,
    )
        ensures
            self.keeps_gain_and_full_pipe(
                self.bandwidth_probed(now, bytes_acked, in_flight, is_round_start, adapt, cycle),
            ),
    {
        reveal(Bbr2::bandwidth_probed);
        let adapted = self.adapted(now, bytes_acked, is_round_start, adapt);
        assert(self.keeps_gain_and_full_pipe(adapted));
        assert(adapted.mode == Mode::ProbeBw ==> adapted.keeps_gain_and_full_pipe(
            adapted.cycled(now, in_flight, is_round_start, cycle),
        ));
    }

    proof fn lemma_modes_keep_gain(
        self,
        now: Instant,
        in_flight: u64,
        app_limited: bool,
        is_round_start: bool,
        drain: ProbeWait,
        probe_rtt: ProbeWait,
    )
        ensures
            self.keeps_gain_and_full_pipe(
                self.mode_changed(now, in_flight, app_limited, is_round_start, drain, probe_rtt),
            ),
    {
        reveal(Bbr2::mode_changed);
        let checked = self.growth_checked(app_limited, is_round_start);
        assert(self.keeps_gain_and_full_pipe(checked));
        let drained = checked.drained(now, in_flight, drain);
        assert(checked.keeps_gain_and_full_pipe(drained));
        let next = drained.rtt_probed(now, is_round_start, in_flight, app_limited, probe_rtt);
        assert(drained.keeps_gain_and_full_pipe(next));
    }

    proof fn lemma_batch_keeps_gain(
        self,
        now: Instant,
        in_flight: u64,
        app_limited: bool,
        largest_packet_num_acked: Option<u64>,
        draws: Draws,
    )
        ensures
            self.keeps_gain_and_full_pipe(
                self.batch_ended(now, in_flight, app_limited, largest_packet_num_acked, draws),
            ),
    {
        let is_round_start = self.round_starts(largest_packet_num_acked);
        let counted = self.batch_counted(now, in_flight, largest_packet_num_acked);
        let probed = self.batch_probed(now, in_flight, largest_packet_num_acked, draws);
        self.lemma_counting_keeps_gain(now, in_flight, largest_packet_num_acked);
        counted.lemma_probing_keeps_gain(
            now,
            self.batch_acked,
            in_flight,
            is_round_start,
            draws.adapt,
            draws.cycle,
        );
        probed.lemma_modes_keep_gain(
            now,
            in_flight,
            app_limited,
            is_round_start,
            draws.drain,
            draws.probe_rtt,
        );
        reveal(Bbr2::sized);
        reveal(Bbr2::closed);
    }

    /// Once the pipe counts as full, it does so for good.
    pub proof fn lemma_full_pipe_is_for_good(self, event: Event)
        requires
            self.is_at_full_bandwidth,
        ensures
            self.after(event).is_at_full_bandwidth,
    {
        match event {
            Event::EndAcks { now, in_flight, app_limited, largest_packet_num_acked, draws } => {
                self.lemma_batch_keeps_gain(
                    now,
                    in_flight,
                    app_limited,
                    largest_packet_num_acked,
                    draws,
                );
            },
            _ => {},
        }
    }

    proof fn lemma_event_keeps_gain(self, event: Event)
        requires
            self.paces_by_mode(),
        ensures
            self.after(event).paces_by_mode(),
    {
        match event {
            Event::EndAcks { now, in_flight, app_limited, largest_packet_num_acked, draws } => {
                self.lemma_batch_keeps_gain(
                    now,
                    in_flight,
                    app_limited,
                    largest_packet_num_acked,
                    draws,
                );
            },
            _ => {},
        }
    }

    /// Whatever a new controller is told of, it paces by the gain of its mode and phase.
    pub proof fn lemma_paces_by_mode(
        self,
        config: Bbr2Config,
        mtu: u16,
        events: Seq<Event>,
    )
        requires
            self.is_initial(config, mtu),
        ensures
            self.after_all(events).paces_by_mode(),
        decreases events.len(),
    {
        if events.len() > 0 {
            self.lemma_paces_by_mode(config, mtu, events.drop_last());
            self.after_all(events.drop_last()).lemma_event_keeps_gain(events.last());
        }
    }

    /// The end of a batch leaves nothing of it to be counted again.
    pub proof fn lemma_batch_is_counted_once(
        self,
        now: Instant,
        in_flight: u64,
        app_limited: bool,
        largest_packet_num_acked: Option<u64>,
        draws: Draws,
    )
        requires
            self.valid(),
        ensures
            ({
                let next = self.batch_ended(
                    now,
                    in_flight,
                    app_limited,
                    largest_packet_num_acked,
                    draws,
                );
                &&& next.batch_acked == 0
                &&& next.loss_state.lost_bytes == 0
                &&& self.round_starts(largest_packet_num_acked) ==> next.round_lost == 0
                    && next.round_delivered == 0
                &&& self.loss_round_starts(self.batch_acked) ==> next.loss_bursts_in_round == 0
            }),
    {
        self.lemma_scale_before_sizing(
            now,
            in_flight,
            app_limited,
            largest_packet_num_acked,
            draws,
        );
        reveal(Bbr2::sized);
        reveal(Bbr2::closed);
    }
}

} // verus!
