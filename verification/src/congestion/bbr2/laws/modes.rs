//! The modes and recovery, in terms of time, losses and what is in flight.

use crate::congestion::bbr2::laws::cycle::elapsed;
use crate::congestion::bbr2::probe_bw::ProbeWait;
use crate::congestion::bbr2::{Bbr2, CyclePhase, Mode, RecoveryState};
use crate::congestion::RttEstimator;
use crate::float::F32;
use crate::time::Instant;
use vstd::prelude::*;

verus! {

impl Bbr2 {
    /// `next` is `self` at the start of PROBE_BW: in DOWN at `now`, with the gains and the wait that
    /// belong to it.
    pub open spec fn enters_probe_bw(self, next: Bbr2, now: Instant, wait: ProbeWait) -> bool {
        next == Bbr2 {
            mode: Mode::ProbeBw,
            cwnd_gain: F32 { bits: 0x4000_0000 },
            cycle_phase: CyclePhase::Down,
            pacing_gain: F32 { bits: 0x3f66_6666 },
            loss_bursts_in_round: 0,
            bw_latest: 0,
            inflight_latest: 0,
            bw_probe_up_cnt: u64::MAX,
            rounds_since_bw_probe: wait.rounds,
            bw_probe_wait: wait.wait,
            random_number_generator: wait.rng,
            cycle_start: Some(now),
            current_round_trip_end_packet_number: self.max_sent_packet_number,
            ..self
        }
    }

    /// STARTUP gives way to DRAIN with a full pipe, and DRAIN to PROBE_BW once no more is in flight
    /// than the bandwidth-delay product; a full pipe with no more in flight goes through DRAIN at once.
    /// Nothing else happens, in these modes or in others.
    pub proof fn lemma_startup_and_drain(self, now: Instant, in_flight: u64, wait: ProbeWait)
        ensures
            ({
                let next = self.drained(now, in_flight, wait);
                let left = Bbr2 {
                    mode: Mode::Drain,
                    pacing_gain: self.drain_gain,
                    cwnd_gain: self.high_cwnd_gain,
                    ..self
                };
                let empty = in_flight <= self.target_cwnd(F32 { bits: 0x3f80_0000 });
                match self.mode {
                    Mode::Startup => if !self.is_at_full_bandwidth {
                        next == self
                    } else if empty {
                        self.enters_probe_bw(next, now, wait)
                    } else {
                        next == left
                    },
                    Mode::Drain => if empty {
                        self.enters_probe_bw(next, now, wait)
                    } else {
                        next == self
                    },
                    _ => next == self,
                }
            }),
    {
        let left = self.startup_left();
        assert(left.target_cwnd(F32 { bits: 0x3f80_0000 }) == self.target_cwnd(
            F32 { bits: 0x3f80_0000 },
        ));
    }

    /// PROBE_RTT is entered where the connection has data to send and ten seconds have passed since the
    /// last time, if there was one, unless the flow comes out of quiescence.
    pub proof fn lemma_probe_rtt_is_entered(
        self,
        now: Instant,
        is_round_start: bool,
        in_flight: u64,
        app_limited: bool,
        wait: ProbeWait,
    )
        requires
            self.mode != Mode::ProbeRtt,
            self.rtt_probe_fits(now, in_flight, app_limited),
        ensures
            ({
                let next = self.rtt_probed(now, is_round_start, in_flight, app_limited, wait);
                let old = match self.probe_rtt_last_started_at {
                    Some(last) => elapsed(now, last) > 10_000_000_000,
                    None => true,
                };
                let enters = !app_limited && old && !self.exiting_quiescence;
                let empty = in_flight < self.probe_rtt_cwnd() + self.current_mtu;
                &&& !enters ==> next == Bbr2 { exiting_quiescence: false, ..self }
                &&& enters ==> {
                    &&& next.exit_probe_rtt_at is Some <==> empty
                    &&& next.exit_probe_rtt_at matches Some(exit) ==> exit.nanos - now.nanos
                        == 200_000_000
                    &&& next == Bbr2 {
                        mode: Mode::ProbeRtt,
                        pacing_gain: F32 { bits: 0x3f80_0000 },
                        probe_rtt_last_started_at: Some(now),
                        exit_probe_rtt_at: next.exit_probe_rtt_at,
                        exiting_quiescence: false,
                        ..self
                    }
                }
            }),
    {
    }

    /// PROBE_RTT, once the pipe has drained to less than a datagram above three quarters of the
    /// bandwidth-delay product, lasts 200 ms more, and ends at the next start of a round: in PROBE_BW
    /// with a full pipe, else in STARTUP.
    pub proof fn lemma_probe_rtt_runs_its_course(
        self,
        now: Instant,
        is_round_start: bool,
        in_flight: u64,
        app_limited: bool,
        wait: ProbeWait,
    )
        requires
            self.mode == Mode::ProbeRtt,
            self.rtt_probe_fits(now, in_flight, app_limited),
        ensures
            ({
                let next = self.rtt_probed(now, is_round_start, in_flight, app_limited, wait);
                let quiet = Bbr2 { exiting_quiescence: false, ..self };
                match self.exit_probe_rtt_at {
                    None => {
                        let empty = in_flight < self.probe_rtt_cwnd() + self.current_mtu;
                        &&& next == Bbr2 { exit_probe_rtt_at: next.exit_probe_rtt_at, ..quiet }
                        &&& next.exit_probe_rtt_at is Some <==> empty
                        &&& next.exit_probe_rtt_at matches Some(exit) ==> exit.nanos - now.nanos
                            == 200_000_000
                    },
                    Some(exit) => if !is_round_start || now.nanos < exit.nanos {
                        next == quiet
                    } else if self.is_at_full_bandwidth {
                        quiet.enters_probe_bw(next, now, wait)
                    } else {
                        next == Bbr2 {
                            mode: Mode::Startup,
                            pacing_gain: self.high_gain,
                            cwnd_gain: self.high_cwnd_gain,
                            ..quiet
                        }
                    },
                }
            }),
    {
    }

    /// An ack adds to the acked bytes. The minimum round-trip time becomes the one reported where that
    /// is lower, and where the connection has data to send and ten seconds have passed since PROBE_RTT
    /// last began, or it never did. Nothing else changes.
    pub proof fn lemma_ack(self, now: Instant, bytes: u64, app_limited: bool, rtt: RttEstimator)
        requires
            self.acked_bytes + bytes <= u64::MAX,
        ensures
            ({
                let next = self.acked(now, bytes, app_limited, rtt);
                let old = match self.probe_rtt_last_started_at {
                    Some(last) => elapsed(now, last) > 10_000_000_000,
                    None => true,
                };
                &&& next.acked_bytes - self.acked_bytes == bytes
                &&& rtt.min.nanos < self.min_rtt.nanos || (!app_limited && old) ==> next.min_rtt
                    == rtt.min
                &&& rtt.min.nanos >= self.min_rtt.nanos && (app_limited || !old) ==> next.min_rtt
                    == self.min_rtt
                &&& next == Bbr2 { acked_bytes: next.acked_bytes, min_rtt: next.min_rtt, ..self }
            }),
    {
    }

    /// Recovery begins with a loss, in conservation, with an unset window and a new round. It lasts
    /// until what was sent by the last loss is acked without another; the start of a round turns
    /// conservation into growth. Each loss moves its end to what was sent by then. Nothing else changes.
    pub proof fn lemma_recovery_steps(self, is_round_start: bool)
        ensures
            ({
                let next = self.recovery_updated(is_round_start);
                let lossy = self.loss_state.lost_bytes > 0;
                let sent = self.max_sent_packet_number;
                let done = !lossy && self.max_acked_packet_number
                    > self.end_recovery_at_packet_number;
                &&& next.end_recovery_at_packet_number == if lossy {
                    sent
                } else {
                    self.end_recovery_at_packet_number
                }
                &&& match self.recovery_state {
                    RecoveryState::NotInRecovery => if lossy {
                        &&& next.recovery_state == RecoveryState::Conservation
                        &&& next.recovery_window == 0
                        &&& next.current_round_trip_end_packet_number == sent
                    } else {
                        next == self
                    },
                    RecoveryState::Conservation => next.recovery_state == if done {
                        RecoveryState::NotInRecovery
                    } else if is_round_start {
                        RecoveryState::Growth
                    } else {
                        RecoveryState::Conservation
                    },
                    RecoveryState::Growth => next.recovery_state == if done {
                        RecoveryState::NotInRecovery
                    } else {
                        RecoveryState::Growth
                    },
                }
                &&& self.recovery_state != RecoveryState::NotInRecovery ==> next.recovery_window
                    == self.recovery_window && next.current_round_trip_end_packet_number
                    == self.current_round_trip_end_packet_number
                &&& next == Bbr2 {
                    recovery_state: next.recovery_state,
                    recovery_window: next.recovery_window,
                    end_recovery_at_packet_number: next.end_recovery_at_packet_number,
                    current_round_trip_end_packet_number: next.current_round_trip_end_packet_number,
                    ..self
                }
            }),
    {
    }

    /// A new path: the minimum window is four datagrams, and neither the window nor the initial one,
    /// which is the configured one otherwise, is smaller. Nothing else changes.
    pub proof fn lemma_new_path(self, new_mtu: u16)
        ensures
            ({
                let next = self.mtu_updated(new_mtu);
                let least = 4 * new_mtu;
                &&& next.current_mtu == new_mtu
                &&& next.min_cwnd == least
                &&& next.cwnd == self.cwnd || (next.cwnd == least && self.cwnd < least)
                &&& next.cwnd >= least && next.init_cwnd >= least
                &&& next.init_cwnd == self.config.initial_window || (next.init_cwnd == least
                    && self.config.initial_window < least)
                &&& next == Bbr2 {
                    current_mtu: next.current_mtu,
                    min_cwnd: next.min_cwnd,
                    cwnd: next.cwnd,
                    init_cwnd: next.init_cwnd,
                    ..self
                }
            }),
    {
    }
}

} // verus!
