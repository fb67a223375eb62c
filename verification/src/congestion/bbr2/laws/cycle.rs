//! The PROBE_BW cycle, in terms of time, rounds and what is in flight.

use crate::congestion::bbr2::probe_bw::ProbeWait;
use crate::congestion::bbr2::{Bbr2, CyclePhase, Mode};
use crate::float::F32;
use crate::ints::{lemma_quotient_of, max};
use crate::time::{Duration, Instant};
use vstd::prelude::*;

verus! {

/// Nanoseconds from `start` to `now`, none if `start` is the later of the two.
pub open spec fn elapsed(now: Instant, start: Instant) -> int {
    if now.nanos >= start.nanos {
        now.nanos - start.nanos
    } else {
        0
    }
}

/// More than `span` has passed since `start`, if there is one.
pub open spec fn outlasted(now: Instant, start: Option<Instant>, span: Duration) -> bool {
    start is Some && elapsed(now, start->0) > span.nanos
}

impl Bbr2 {
    /// Rounds since the last probe, with the one that starts.
    pub open spec fn rounds_with(self, is_round_start: bool) -> int {
        if is_round_start && self.rounds_since_bw_probe < 255 {
            self.rounds_since_bw_probe + 1
        } else {
            self.rounds_since_bw_probe as int
        }
    }

    /// DOWN and CRUISE end in REFILL once the wait is over, or after as many rounds as there are
    /// datagrams in the volume that should be in flight, but 63 at most. Before that, DOWN ends in
    /// CRUISE once it has lasted more than a round trip, or what is in flight leaves the headroom and is
    /// within the bandwidth-delay product. REFILL ends in UP at the start of a round. UP ends in DOWN
    /// once it has lasted more than a round trip with more in flight than five quarters of the
    /// bandwidth-delay product.
    pub proof fn lemma_phase_ends(
        self,
        now: Instant,
        in_flight: u64,
        is_round_start: bool,
        wait: ProbeWait,
    )
        ensures
            ({
                let next = self.cycled(now, in_flight, is_round_start, wait).cycle_phase;
                let rounds = self.rounds_with(is_round_start);
                let mtu = max(self.current_mtu, 1);
                let due = (self.cycle_start is Some && elapsed(now, self.cycle_start->0)
                    >= self.bw_probe_wait.nanos) || rounds >= 63 || (rounds + 1) * mtu
                    > self.inflight_target();
                let drained = in_flight <= self.headroom() && in_flight <= self.target_cwnd(
                    F32 { bits: 0x3f80_0000 },
                );
                let lasted = outlasted(now, self.cycle_start, self.min_rtt);
                match self.cycle_phase {
                    CyclePhase::Down => if due {
                        next == CyclePhase::Refill
                    } else if lasted || drained {
                        next == CyclePhase::Cruise
                    } else {
                        next == CyclePhase::Down
                    },
                    CyclePhase::Cruise => next == if due {
                        CyclePhase::Refill
                    } else {
                        CyclePhase::Cruise
                    },
                    CyclePhase::Refill => next == if is_round_start {
                        CyclePhase::Up
                    } else {
                        CyclePhase::Refill
                    },
                    CyclePhase::Up => next == if lasted && in_flight > self.target_cwnd(
                        F32 { bits: 0x3fa0_0000 },
                    ) {
                        CyclePhase::Down
                    } else {
                        CyclePhase::Up
                    },
                }
            }),
    {
        let rounds = self.rounds_with(is_round_start);
        let mtu = max(self.current_mtu, 1) as int;
        let target = self.inflight_target() as int;
        lemma_quotient_of(target, mtu);
        let q = target / mtu;
        assert((rounds >= q) == ((rounds + 1) * mtu > target)) by (nonlinear_arith)
            requires
                q * mtu <= target < (q + 1) * mtu,
                mtu > 0,
        {
            if rounds >= q {
                assert((rounds + 1) * mtu >= (q + 1) * mtu);
            } else {
                assert((rounds + 1) * mtu <= q * mtu);
            }
        }
        let counted = self.round_counted(is_round_start);
        assert(counted.rounds_since_bw_probe == rounds);
        assert(counted.inflight_target() == target);
    }

    /// What the phases do where they begin. DOWN forgets the loss round, stops the growth of the
    /// ceiling and takes the wait that was drawn. CRUISE changes the pacing alone. REFILL lifts the
    /// short-term bound and starts the accounts of a probe over. UP marks the samples as those of a
    /// probe and sets the slope. DOWN and UP are stamped with the time, and all but CRUISE start a
    /// round. Only the ceiling's slope, and what is named here, changes.
    pub proof fn lemma_phase_begins(
        self,
        now: Instant,
        in_flight: u64,
        is_round_start: bool,
        wait: ProbeWait,
    )
        ensures
            ({
                let next = self.cycled(now, in_flight, is_round_start, wait);
                let rounds = self.rounds_with(is_round_start) as u8;
                let sent = self.max_sent_packet_number;
                &&& next.cycle_phase == self.cycle_phase ==> next == Bbr2 {
                    rounds_since_bw_probe: rounds,
                    ..self
                }
                &&& next.cycle_phase != self.cycle_phase ==> match next.cycle_phase {
                    CyclePhase::Down => next == Bbr2 {
                        cycle_phase: CyclePhase::Down,
                        pacing_gain: F32 { bits: 0x3f66_6666 },
                        loss_bursts_in_round: 0,
                        bw_latest: 0,
                        inflight_latest: 0,
                        bw_probe_up_cnt: u64::MAX,
                        rounds_since_bw_probe: wait.rounds,
                        bw_probe_wait: wait.wait,
                        random_number_generator: wait.rng,
                        cycle_start: Some(now),
                        current_round_trip_end_packet_number: sent,
                        ..self
                    },
                    CyclePhase::Cruise => next == Bbr2 {
                        cycle_phase: CyclePhase::Cruise,
                        pacing_gain: F32 { bits: 0x3f80_0000 },
                        rounds_since_bw_probe: rounds,
                        ..self
                    },
                    CyclePhase::Refill => next == Bbr2 {
                        cycle_phase: CyclePhase::Refill,
                        pacing_gain: F32 { bits: 0x3f80_0000 },
                        rounds_since_bw_probe: rounds,
                        inflight_lo: u64::MAX,
                        bw_probe_up_rounds: 0,
                        bw_probe_up_acks: 0,
                        current_round_trip_end_packet_number: sent,
                        ..self
                    },
                    CyclePhase::Up => next == Bbr2 {
                        cycle_phase: CyclePhase::Up,
                        pacing_gain: F32 { bits: 0x3fa0_0000 },
                        rounds_since_bw_probe: rounds,
                        cycle_start: Some(now),
                        bw_probe_samples: true,
                        bw_probe_up_cnt: self.slope_raised().bw_probe_up_cnt,
                        bw_probe_up_rounds: self.slope_raised().bw_probe_up_rounds,
                        current_round_trip_end_packet_number: sent,
                        ..self
                    },
                }
            }),
    {
    }

    /// A wait lasts two to three seconds, in whole milliseconds, with no round or one counted as elapsed,
    /// and nothing else of a state changes where it is drawn. A new round ends with what was sent by its
    /// start. Congestion signals are reset to none.
    pub proof fn lemma_wait(self, wait: ProbeWait)
        ensures
            wait.valid() <==> {
                &&& 2_000_000_000 <= wait.wait.nanos <= 3_000_000_000
                &&& wait.wait.nanos % 1_000_000 == 0
                &&& wait.rounds == 0 || wait.rounds == 1
            },
            self.with_wait(wait).bw_probe_wait == wait.wait,
            self.with_wait(wait).rounds_since_bw_probe == wait.rounds,
            self.with_wait(wait) == (Bbr2 {
                bw_probe_wait: wait.wait,
                rounds_since_bw_probe: wait.rounds,
                random_number_generator: wait.rng,
                ..self
            }),
            self.in_new_round() == (Bbr2 {
                current_round_trip_end_packet_number: self.max_sent_packet_number,
                ..self
            }),
            self.signals_reset() == (Bbr2 {
                loss_bursts_in_round: 0,
                bw_latest: 0,
                inflight_latest: 0,
                ..self
            }),
    {
    }

    /// The cycle and the ceiling move only once the pipe is full, and the cycle only in PROBE_BW; the
    /// ceiling first.
    pub proof fn lemma_probing_needs_a_full_pipe(
        self,
        now: Instant,
        bytes_acked: u64,
        in_flight: u64,
        is_round_start: bool,
        adapt: ProbeWait,
        cycle: ProbeWait,
    )
        ensures
            ({
                let next = self.bandwidth_probed(
                    now,
                    bytes_acked,
                    in_flight,
                    is_round_start,
                    adapt,
                    cycle,
                );
                let adapted = self.adapted(now, bytes_acked, is_round_start, adapt);
                &&& !self.is_at_full_bandwidth ==> next == self
                &&& self.is_at_full_bandwidth && self.mode != Mode::ProbeBw
                    ==> next == adapted
                &&& self.is_at_full_bandwidth && self.mode == Mode::ProbeBw
                    ==> next == adapted.cycled(now, in_flight, is_round_start, cycle)
            }),
    {
        reveal(Bbr2::bandwidth_probed);
    }
}

} // verus!
