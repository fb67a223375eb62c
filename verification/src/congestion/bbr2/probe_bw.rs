//! The PROBE_BW cycle.

use crate::congestion::bbr2::random::random_range;
use crate::congestion::bbr2::{Bbr2, CyclePhase, K_GAIN_ONE, K_GAIN_UP, K_MAX_BW_PROBE_ROUNDS};
use crate::float::F32;
use crate::ints::{max, min};
use crate::time::{Duration, Instant};
use rand::rngs::StdRng;
use vstd::prelude::*;

verus! {

/// What a draw of a wait leaves behind: the wait, and the generator after the draw.
pub struct ProbeWait {
    /// The rounds that count as elapsed.
    pub rounds: u8,
    /// The time to wait.
    pub wait: Duration,
    pub rng: StdRng,
}

impl ProbeWait {
    /// No round or one, and two to three seconds in whole milliseconds.
    pub open spec fn valid(self) -> bool {
        &&& self.rounds <= 1
        &&& 2_000_000_000 <= self.wait.nanos <= 3_000_000_000
        &&& self.wait.nanos % 1_000_000 == 0
    }
}

/// There is a wait to draw.
pub(crate) proof fn lemma_some_wait(rng: StdRng)
    ensures
        (ProbeWait { rounds: 0, wait: Duration { nanos: 2_000_000_000 }, rng }).valid(),
{
}

impl Bbr2 {
    /// The state with `wait` drawn.
    pub open spec fn with_wait(self, wait: ProbeWait) -> Bbr2 {
        Bbr2 {
            rounds_since_bw_probe: wait.rounds,
            bw_probe_wait: wait.wait,
            random_number_generator: wait.rng,
            ..self
        }
    }

    /// The state in a new round.
    pub open spec fn in_new_round(self) -> Bbr2 {
        Bbr2 { current_round_trip_end_packet_number: self.max_sent_packet_number, ..self }
    }

    /// The state without congestion signals.
    pub open spec fn signals_reset(self) -> Bbr2 {
        Bbr2 { loss_bursts_in_round: 0, bw_latest: 0, inflight_latest: 0, ..self }
    }

    /// The state at the start of DOWN: no congestion signals, no growth of `inflight_hi`, a new
    /// wait, a new round.
    pub open spec fn went_down(self, now: Instant, wait: ProbeWait) -> Bbr2 {
        Bbr2 {
            loss_bursts_in_round: 0,
            bw_latest: 0,
            inflight_latest: 0,
            bw_probe_up_cnt: u64::MAX,
            rounds_since_bw_probe: wait.rounds,
            bw_probe_wait: wait.wait,
            random_number_generator: wait.rng,
            cycle_start: Some(now),
            cycle_phase: CyclePhase::Down,
            pacing_gain: CyclePhase::Down.gain(),
            current_round_trip_end_packet_number: self.max_sent_packet_number,
            ..self
        }
    }

    /// The state at the start of CRUISE.
    pub open spec fn went_cruising(self) -> Bbr2 {
        Bbr2 {
            cycle_phase: CyclePhase::Cruise,
            pacing_gain: CyclePhase::Cruise.gain(),
            ..self
        }
    }

    /// The state at the start of REFILL: no short-term bound, a fresh probe, a new round.
    pub open spec fn went_refilling(self) -> Bbr2 {
        Bbr2 {
            inflight_lo: u64::MAX,
            bw_probe_up_rounds: 0,
            bw_probe_up_acks: 0,
            cycle_phase: CyclePhase::Refill,
            pacing_gain: CyclePhase::Refill.gain(),
            current_round_trip_end_packet_number: self.max_sent_packet_number,
            ..self
        }
    }

    /// The state at the start of UP: a new round, and a slope to grow `inflight_hi` at.
    pub open spec fn went_up(self, now: Instant) -> Bbr2 {
        (Bbr2 {
            cycle_start: Some(now),
            cycle_phase: CyclePhase::Up,
            pacing_gain: CyclePhase::Up.gain(),
            current_round_trip_end_packet_number: self.max_sent_packet_number,
            ..self
        }).slope_raised()
    }

    /// BBRStartRound, in packet numbers
    pub fn start_new_round(&mut self)
        ensures
            *final(self) == old(self).in_new_round(),
    {
        self.current_round_trip_end_packet_number = self.max_sent_packet_number;
    }

    /// BBRResetCongestionSignals
    pub fn reset_congestion_signals(&mut self)
        ensures
            *final(self) == old(self).signals_reset(),
    {
        self.loss_bursts_in_round = 0;
        self.bw_latest = 0;
        self.inflight_latest = 0;
    }

    /// Reset congestion signals, stop growing inflight_hi,
    /// pick a randomized probe wait, stamp the phase, start a round, enter DOWN.
    pub fn start_down(&mut self, now: Instant)
        ensures
            exists|wait: ProbeWait| #[trigger]
                wait.valid() && *final(self) == old(self).went_down(now, wait),
    {
        self.reset_congestion_signals();
        self.bw_probe_up_cnt = u64::MAX;
        self.pick_probe_wait();
        self.cycle_start = Some(now);
        self.cycle_phase = CyclePhase::Down;
        self.pacing_gain = self.cycle_phase.pacing_gain();
        self.start_new_round();
    }

    /// Hold steady below inflight_hi.
    pub fn start_cruise(&mut self)
        ensures
            *final(self) == old(self).went_cruising(),
    {
        self.cycle_phase = CyclePhase::Cruise;
        self.pacing_gain = self.cycle_phase.pacing_gain();
    }

    /// Reset the lower bound and probe-up accounting, one
    /// round of REFILL before probing up.
    pub fn start_refill(&mut self)
        ensures
            *final(self) == old(self).went_refilling(),
    {
        self.inflight_lo = u64::MAX;  // reset the lower bound
        self.bw_probe_up_rounds = 0;
        self.bw_probe_up_acks = 0;
        self.cycle_phase = CyclePhase::Refill;
        self.pacing_gain = self.cycle_phase.pacing_gain();
        self.start_new_round();
    }

    /// Stamp the phase and prime the inflight_hi growth slope.
    pub fn start_up(&mut self, now: Instant)
        requires
            old(self).bw_probe_up_rounds < u32::MAX,
        ensures
            *final(self) == old(self).went_up(now),
    {
        self.cycle_start = Some(now);
        self.cycle_phase = CyclePhase::Up;
        self.pacing_gain = self.cycle_phase.pacing_gain();
        self.start_new_round();
        self.raise_inflight_hi_slope();
    }

    /// BBRPickProbeWait: randomize the wall-clock wait
    /// (2..3 s) and the round bound (0 or 1) so competing flows' probe cycles
    /// desynchronize. This randomization is the coordination fairness depends
    /// on.
    pub fn pick_probe_wait(&mut self)
        ensures
            exists|wait: ProbeWait| #[trigger]
                wait.valid() && *final(self) == old(self).with_wait(wait),
    {
        let rounds: u64 = random_range(&mut self.random_number_generator, 0, 1);
        let millis: u64 = random_range(&mut self.random_number_generator, 2000, 3000);
        self.set_probe_wait(rounds as u8, millis);
        proof {
            let wait = ProbeWait {
                rounds: rounds as u8,
                wait: self.bw_probe_wait,
                rng: self.random_number_generator,
            };
            assert(wait.valid());
            assert(*self == old(self).with_wait(wait));
        }
    }

    /// Sets the round bound and the wait in milliseconds.
    pub fn set_probe_wait(&mut self, rounds: u8, millis: u64)
        ensures
            *final(self) == (Bbr2 {
                rounds_since_bw_probe: rounds,
                bw_probe_wait: Duration { nanos: (millis * 1_000_000) as u128 },
                ..*old(self)
            }),
    {
        self.rounds_since_bw_probe = rounds;
        self.bw_probe_wait = Duration::from_millis(millis);
    }

    /// More than the minimum round-trip time has passed in this phase.
    pub open spec fn phase_outlasts_rtt(self, now: Instant) -> bool {
        self.cycle_start is Some && now.since(self.cycle_start->0).nanos > self.min_rtt.nanos
    }

    /// DOWN has drained the queue, or has lasted a round trip.
    pub open spec fn time_to_cruise(self, now: Instant, in_flight: u64) -> bool {
        self.phase_outlasts_rtt(now) || (in_flight <= self.headroom() && in_flight
            <= self.target_cwnd(F32 { bits: K_GAIN_ONE }))
    }

    /// DOWN -> CRUISE readiness.
    pub fn is_time_to_cruise(&self, now: Instant, in_flight: u64) -> (r: bool)
        requires
            self.phase_outlasts_rtt(now) || in_flight > self.headroom() || self.bdp_fits(),
        ensures
            r == self.time_to_cruise(now, in_flight),
    {
        // Chromium/Linux bound the time spent in DOWN to min_rtt, which
        // dominates on a real path.
        if let Some(cs) = self.cycle_start {
            if now.saturating_duration_since(cs).nanos > self.min_rtt.nanos {
                return true;
            }
        }
        if in_flight > self.inflight_with_headroom() {
            return false;  // not enough headroom
        }
        // inflight <= estimated BDP

        in_flight <= self.get_target_cwnd(F32 { bits: K_GAIN_ONE })
    }

    /// The wait has elapsed.
    pub open spec fn wait_is_over(self, now: Instant) -> bool {
        self.cycle_start is Some && now.since(self.cycle_start->0).nanos >= self.bw_probe_wait.nanos
    }

    /// Rounds that Reno takes to grow its window by as much as is in flight, up to a cap.
    pub open spec fn reno_rounds(self) -> u64 {
        min(
            self.inflight_target() / max(self.current_mtu, 1),
            K_MAX_BW_PROBE_ROUNDS as u64,
        )
    }

    pub open spec fn reno_probe_time(self) -> bool {
        self.rounds_since_bw_probe >= self.reno_rounds()
    }

    pub open spec fn time_to_probe(self, now: Instant) -> bool {
        self.wait_is_over(now) || self.reno_probe_time()
    }

    /// BBRCheckTimeToProbeBW: DOWN/CRUISE -> REFILL
    /// when the randomized wait has elapsed or the reno-coexistence round
    /// bound is hit.
    pub fn is_time_to_probe_bw(&self, now: Instant) -> (r: bool)
        requires
            self.wait_is_over(now) || self.bdp_fits(),
        ensures
            r == self.time_to_probe(now),
    {
        if let Some(cs) = self.cycle_start {
            if now.saturating_duration_since(cs).nanos >= self.bw_probe_wait.nanos {
                return true;
            }
        }
        self.is_reno_coexistence_probe_time()
    }

    /// BBRIsRenoCoexistenceProbeTime
    pub fn is_reno_coexistence_probe_time(&self) -> (r: bool)
        requires
            self.bdp_fits(),
        ensures
            r == self.reno_probe_time(),
    {
        let reno_rounds: u64 = self.target_inflight() / max(self.current_mtu, 1);
        let rounds: u8 = min(reno_rounds, K_MAX_BW_PROBE_ROUNDS as u64) as u8;
        self.rounds_since_bw_probe >= rounds
    }

    /// UP has lasted a round trip and has more in flight than its target.
    pub open spec fn time_to_go_down(self, now: Instant, in_flight: u64) -> bool {
        self.phase_outlasts_rtt(now) && in_flight > self.target_cwnd(F32 { bits: K_GAIN_UP })
    }

    /// The state with a round counted since the last probe.
    pub open spec fn round_counted(self, is_round_start: bool) -> Bbr2 {
        if is_round_start {
            Bbr2 { rounds_since_bw_probe: self.rounds_since_bw_probe.saturating_add(1), ..self }
        } else {
            self
        }
    }

    /// The cycle can be moved in 64 bits.
    pub open spec fn cycle_fits(self, now: Instant) -> bool {
        match self.cycle_phase {
            CyclePhase::Down | CyclePhase::Cruise => self.wait_is_over(now) || self.bdp_fits(),
            CyclePhase::Refill => true,
            CyclePhase::Up => self.phase_outlasts_rtt(now) ==> self.bdp_fits(),
        }
    }

    /// The state after one step of the cycle.
    pub open spec fn phase_advanced(
        self,
        now: Instant,
        in_flight: u64,
        is_round_start: bool,
        wait: ProbeWait,
    ) -> Bbr2 {
        match self.cycle_phase {
            CyclePhase::Down | CyclePhase::Cruise => if self.time_to_probe(now) {
                self.went_refilling()
            } else if self.cycle_phase == CyclePhase::Down && self.time_to_cruise(now, in_flight) {
                self.went_cruising()
            } else {
                self
            },
            CyclePhase::Refill => if is_round_start {
                (Bbr2 { bw_probe_samples: true, ..self }).went_up(now)
            } else {
                self
            },
            CyclePhase::Up => if self.time_to_go_down(now, in_flight) {
                self.went_down(now, wait)
            } else {
                self
            },
        }
    }

    /// The state after an ack batch has moved the cycle.
    pub open spec fn cycled(
        self,
        now: Instant,
        in_flight: u64,
        is_round_start: bool,
        wait: ProbeWait,
    ) -> Bbr2 {
        self.round_counted(is_round_start).phase_advanced(now, in_flight, is_round_start, wait)
    }

    /// BBRUpdateProbeBWCyclePhase: advance
    /// the cycle. Called once per ack batch while mode == ProbeBw and the pipe
    /// is filled; `adapt_upper_bounds` runs separately.
    pub fn update_gain_cycle_phase(&mut self, now: Instant, in_flight: u64, is_round_start: bool)
        requires
            old(self).cycle_fits(now),
            is_round_start && old(self).cycle_phase == CyclePhase::Refill ==> old(
                self,
            ).bw_probe_up_rounds < u32::MAX,
        ensures
            old(self).valid() ==> final(self).valid(),
            exists|wait: ProbeWait| #[trigger]
                wait.valid() && *final(self) == old(self).cycled(
                    now,
                    in_flight,
                    is_round_start,
                    wait,
                ),
    {
        if is_round_start {
            // reno-coexistence round count
            self.rounds_since_bw_probe = self.rounds_since_bw_probe.saturating_add(1);
        }
        proof {
            lemma_some_wait(self.random_number_generator);
        }
        match self.cycle_phase {
            CyclePhase::Down | CyclePhase::Cruise => {
                if self.is_time_to_probe_bw(now) {
                    self.start_refill();
                } else if self.cycle_phase == CyclePhase::Down && self.is_time_to_cruise(
                    now,
                    in_flight,
                ) {
                    self.start_cruise();
                }
            },
            CyclePhase::Refill => {
                // After one full round of Refill, start Up.
                if is_round_start {
                    self.bw_probe_samples = true;
                    self.start_up(now);
                }
            },
            CyclePhase::Up => {
                // Leave UP once min_rtt has elapsed in-phase AND inflight has
                // exceeded the 1.25-gain target.
                let elapsed: bool = match self.cycle_start {
                    Some(cs) => now.saturating_duration_since(cs).nanos > self.min_rtt.nanos,
                    None => false,
                };
                if elapsed && in_flight > self.get_target_cwnd(F32 { bits: K_GAIN_UP }) {
                    self.start_down(now);
                }
            },
        }
    }
}

} // verus!
