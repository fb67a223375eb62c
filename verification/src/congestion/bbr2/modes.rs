//! The modes and the recovery state.

use crate::congestion::bbr2::probe_bw::{lemma_some_wait, ProbeWait};
use crate::congestion::bbr2::{
    Bbr2, Mode, RecoveryState, K_DERIVED_HIGH_CWNDGAIN, K_GAIN_ONE, K_MIN_RTT_EXPIRY_NANOS,
    K_PROBE_RTT_TIME_NANOS,
};
use crate::float::F32;
use crate::time::{Duration, Instant};
use vstd::prelude::*;

verus! {

impl Bbr2 {
    /// The state in STARTUP.
    pub open spec fn in_startup(self) -> Bbr2 {
        Bbr2 {
            mode: Mode::Startup,
            pacing_gain: self.high_gain,
            cwnd_gain: self.high_cwnd_gain,
            ..self
        }
    }

    /// The state in PROBE_BW, at the start of DOWN.
    pub open spec fn in_probe_bw(self, now: Instant, wait: ProbeWait) -> Bbr2 {
        (Bbr2 {
            mode: Mode::ProbeBw,
            cwnd_gain: F32 { bits: K_DERIVED_HIGH_CWNDGAIN },
            ..self
        }).went_down(now, wait)
    }

    pub fn enter_startup_mode(&mut self)
        ensures
            *final(self) == old(self).in_startup(),
    {
        self.mode = Mode::Startup;
        self.pacing_gain = self.high_gain;
        self.cwnd_gain = self.high_cwnd_gain;
    }

    /// Enter PROBE_BW by starting the DOWN phase. DOWN paces at 0.9 to drain the queue and yield
    /// headroom.
    pub fn enter_probe_bandwidth_mode(&mut self, now: Instant)
        ensures
            exists|wait: ProbeWait| #[trigger]
                wait.valid() && *final(self) == old(self).in_probe_bw(now, wait),
    {
        self.mode = Mode::ProbeBw;
        self.cwnd_gain = F32 { bits: K_DERIVED_HIGH_CWNDGAIN };
        self.start_down(now);
    }

    /// Losses since the last ack batch.
    pub open spec fn has_losses(self) -> bool {
        self.loss_state.lost_bytes != 0
    }

    /// The recovery state after an ack batch: losses start recovery; a new round turns conservation
    /// into growth; recovery ends without losses, once everything sent before the last loss is
    /// acked.
    pub open spec fn next_recovery_state(self, is_round_start: bool) -> RecoveryState {
        if self.recovery_state == RecoveryState::NotInRecovery {
            if self.has_losses() {
                RecoveryState::Conservation
            } else {
                RecoveryState::NotInRecovery
            }
        } else if !self.has_losses() && self.max_acked_packet_number
            > self.end_recovery_at_packet_number {
            RecoveryState::NotInRecovery
        } else if is_round_start {
            RecoveryState::Growth
        } else {
            self.recovery_state
        }
    }

    /// The state with its recovery state brought up to date. Recovery starts with a new round and
    /// an unset window.
    pub open spec fn recovery_updated(self, is_round_start: bool) -> Bbr2 {
        let starts = self.recovery_state == RecoveryState::NotInRecovery && self.has_losses();
        Bbr2 {
            recovery_state: self.next_recovery_state(is_round_start),
            end_recovery_at_packet_number: if self.has_losses() {
                self.max_sent_packet_number
            } else {
                self.end_recovery_at_packet_number
            },
            recovery_window: if starts {
                0
            } else {
                self.recovery_window
            },
            current_round_trip_end_packet_number: if starts {
                self.max_sent_packet_number
            } else {
                self.current_round_trip_end_packet_number
            },
            ..self
        }
    }

    pub fn update_recovery_state(&mut self, is_round_start: bool)
        ensures
            old(self).valid() ==> final(self).valid(),
            *final(self) == old(self).recovery_updated(is_round_start),
    {
        if self.loss_state.has_losses() {
            self.end_recovery_at_packet_number = self.max_sent_packet_number;
        }
        match self.recovery_state {
            RecoveryState::NotInRecovery if self.loss_state.has_losses() => {
                self.recovery_state = RecoveryState::Conservation;
                self.recovery_window = 0;
                self.current_round_trip_end_packet_number = self.max_sent_packet_number;
            },
            RecoveryState::Growth | RecoveryState::Conservation => {
                if self.recovery_state == RecoveryState::Conservation && is_round_start {
                    self.recovery_state = RecoveryState::Growth;
                }
                if !self.loss_state.has_losses() && self.max_acked_packet_number
                    > self.end_recovery_at_packet_number {
                    self.recovery_state = RecoveryState::NotInRecovery;
                }
            },
            _ => {},
        }
    }

    /// The state with STARTUP left for DRAIN, if the pipe is full.
    pub open spec fn startup_left(self) -> Bbr2 {
        if self.mode == Mode::Startup && self.is_at_full_bandwidth {
            Bbr2 {
                mode: Mode::Drain,
                pacing_gain: self.drain_gain,
                cwnd_gain: self.high_cwnd_gain,
                ..self
            }
        } else {
            self
        }
    }

    /// The state with STARTUP left once the pipe is full, and DRAIN once the queue is drained.
    pub open spec fn drained(self, now: Instant, in_flight: u64, wait: ProbeWait) -> Bbr2 {
        let left = self.startup_left();
        if left.mode == Mode::Drain && in_flight <= left.target_cwnd(F32 { bits: K_GAIN_ONE }) {
            left.in_probe_bw(now, wait)
        } else {
            left
        }
    }

    /// Whether DRAIN is over can be told in 64 bits.
    pub open spec fn drain_fits(self) -> bool {
        self.startup_left().mode == Mode::Drain ==> self.bdp_fits()
    }

    pub fn maybe_exit_startup_or_drain(&mut self, now: Instant, in_flight: u64)
        requires
            old(self).drain_fits(),
        ensures
            old(self).valid() ==> final(self).valid(),
            exists|wait: ProbeWait| #[trigger]
                wait.valid() && *final(self) == old(self).drained(now, in_flight, wait),
    {
        proof {
            lemma_some_wait(self.random_number_generator);
        }
        if self.mode == Mode::Startup && self.is_at_full_bandwidth {
            self.mode = Mode::Drain;
            self.pacing_gain = self.drain_gain;
            self.cwnd_gain = self.high_cwnd_gain;
        }
        if self.mode == Mode::Drain && in_flight <= self.get_target_cwnd(
            F32 { bits: K_GAIN_ONE },
        ) {
            self.enter_probe_bandwidth_mode(now);
        }
    }

    /// The minimum round-trip time has not been measured for ten seconds, or ever, and the
    /// connection has data to send.
    pub open spec fn min_rtt_expired(self, now: Instant, app_limited: bool) -> bool {
        !app_limited && match self.probe_rtt_last_started_at {
            Some(last) => now.since(last).nanos > K_MIN_RTT_EXPIRY_NANOS,
            None => true,
        }
    }

    pub fn is_min_rtt_expired(&self, now: Instant, app_limited: bool) -> (r: bool)
        ensures
            r == self.min_rtt_expired(now, app_limited),
    {
        !app_limited && match self.probe_rtt_last_started_at {
            Some(last) => now.saturating_duration_since(last).nanos > K_MIN_RTT_EXPIRY_NANOS,
            None => true,
        }
    }

    /// The state with PROBE_RTT entered, if the minimum round-trip time has expired.
    pub open spec fn probe_rtt_entered(self, now: Instant, app_limited: bool) -> Bbr2 {
        if self.min_rtt_expired(now, app_limited) && !self.exiting_quiescence && self.mode
            != Mode::ProbeRtt {
            Bbr2 {
                mode: Mode::ProbeRtt,
                pacing_gain: F32 { bits: K_GAIN_ONE },
                exit_probe_rtt_at: None,
                probe_rtt_last_started_at: Some(now),
                ..self
            }
        } else {
            self
        }
    }

    /// In PROBE_RTT the pipe has drained: the time to leave can be set.
    pub open spec fn probe_rtt_drained(self, bytes_in_flight: u64) -> bool {
        bytes_in_flight < self.probe_rtt_cwnd() + self.current_mtu
    }

    /// The state after a batch in PROBE_RTT: once the pipe has drained, PROBE_RTT lasts a set time,
    /// and is left at the next start of a round.
    pub open spec fn probe_rtt_advanced(
        self,
        now: Instant,
        is_round_start: bool,
        bytes_in_flight: u64,
        wait: ProbeWait,
    ) -> Bbr2 {
        match self.exit_probe_rtt_at {
            None => if self.probe_rtt_drained(bytes_in_flight) {
                Bbr2 {
                    exit_probe_rtt_at: Some(
                        Instant { nanos: (now.nanos + K_PROBE_RTT_TIME_NANOS) as u128 },
                    ),
                    ..self
                }
            } else {
                self
            },
            Some(exit_time) => if !(is_round_start && now.nanos >= exit_time.nanos) {
                self
            } else if self.is_at_full_bandwidth {
                self.in_probe_bw(now, wait)
            } else {
                self.in_startup()
            },
        }
    }

    /// The state after PROBE_RTT has been entered, carried on or left.
    pub open spec fn rtt_probed(
        self,
        now: Instant,
        is_round_start: bool,
        bytes_in_flight: u64,
        app_limited: bool,
        wait: ProbeWait,
    ) -> Bbr2 {
        let entered = self.probe_rtt_entered(now, app_limited);
        let advanced = if entered.mode == Mode::ProbeRtt {
            entered.probe_rtt_advanced(now, is_round_start, bytes_in_flight, wait)
        } else {
            entered
        };
        Bbr2 { exiting_quiescence: false, ..advanced }
    }

    /// What PROBE_RTT computes fits.
    pub open spec fn rtt_probe_fits(
        self,
        now: Instant,
        bytes_in_flight: u64,
        app_limited: bool,
    ) -> bool {
        let entered = self.probe_rtt_entered(now, app_limited);
        entered.mode == Mode::ProbeRtt && entered.exit_probe_rtt_at is None ==> {
            &&& self.bdp_fits()
            &&& self.probe_rtt_cwnd() + self.current_mtu <= u64::MAX
            &&& self.probe_rtt_drained(bytes_in_flight) ==> now.nanos + K_PROBE_RTT_TIME_NANOS
                <= u128::MAX
        }
    }

    pub fn maybe_enter_or_exit_probe_rtt(
        &mut self,
        now: Instant,
        is_round_start: bool,
        bytes_in_flight: u64,
        app_limited: bool,
    )
        requires
            old(self).rtt_probe_fits(now, bytes_in_flight, app_limited),
        ensures
            old(self).valid() ==> final(self).valid(),
            exists|wait: ProbeWait| #[trigger]
                wait.valid() && *final(self) == old(self).rtt_probed(
                    now,
                    is_round_start,
                    bytes_in_flight,
                    app_limited,
                    wait,
                ),
    {
        proof {
            lemma_some_wait(self.random_number_generator);
        }
        let min_rtt_expired: bool = self.is_min_rtt_expired(now, app_limited);
        if min_rtt_expired && !self.exiting_quiescence && self.mode != Mode::ProbeRtt {
            self.mode = Mode::ProbeRtt;
            self.pacing_gain = F32 { bits: K_GAIN_ONE };
            self.exit_probe_rtt_at = None;
            self.probe_rtt_last_started_at = Some(now);
        }
        if self.mode == Mode::ProbeRtt {
            match self.exit_probe_rtt_at {
                None => {
                    if bytes_in_flight < self.get_probe_rtt_cwnd() + self.current_mtu {
                        let probe_time = Duration { nanos: K_PROBE_RTT_TIME_NANOS };
                        self.exit_probe_rtt_at = Some(now.plus(probe_time));
                    }
                },
                Some(exit_time) if is_round_start && now.nanos >= exit_time.nanos => {
                    if !self.is_at_full_bandwidth {
                        self.enter_startup_mode();
                    } else {
                        self.enter_probe_bandwidth_mode(now);
                    }
                },
                Some(_) => {},
            }
        }
        self.exiting_quiescence = false;
    }
}

} // verus!
