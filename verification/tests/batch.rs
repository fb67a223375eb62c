//! Whole batches of acknowledgements.

use quinn_proto::congestion::bbr2::{Bbr2, Bbr2Config, CyclePhase, Mode, RecoveryState};
use quinn_proto::congestion::{Controller, LossSample, RateSample, RttEstimator};
use quinn_proto::float::F32;
use quinn_proto::time::{Duration, Instant};
use std::sync::Arc;

const MTU: u64 = 1200;

fn controller() -> Bbr2 {
    Bbr2::new(Arc::new(Bbr2Config::default()), MTU as u16)
}

fn at(millis: u64) -> Instant {
    Instant { nanos: 1_000_000_000_000 + millis as u128 * 1_000_000 }
}

fn of(x: f32) -> F32 {
    F32 { bits: x.to_bits() }
}

fn rtt(millis: u64) -> RttEstimator {
    RttEstimator { min: Duration::from_millis(millis) }
}

fn sample(prior_delivered: u64, delivered: u64, millis: u64) -> RateSample {
    RateSample {
        delivered,
        prior_delivered,
        interval: Duration::from_millis(millis),
        tx_in_flight: delivered,
        lost: 0,
        is_app_limited: false,
        bytes_acked: delivered,
    }
}

fn paces_by_mode(cc: &Bbr2) -> bool {
    let gain = match cc.mode {
        Mode::Startup => of(2.885),
        Mode::Drain => of(1.0 / 2.885),
        Mode::ProbeBw => cc.cycle_phase.pacing_gain(),
        Mode::ProbeRtt => of(1.0),
    };
    cc.pacing_gain == gain
}

#[test]
fn batch_without_acks_changes_little() {
    let mut cc = controller();
    // Sleep through the probe of the round-trip time, which a new controller starts with.
    cc.probe_rtt_last_started_at = Some(at(0));
    cc.on_sent(at(0), MTU, 9);
    assert!(cc.has_room_for_batch(at(1), 0, false, Some(9)));
    cc.on_end_acks(at(1), 0, false, Some(9));
    assert_eq!(cc.mode, Mode::Startup);
    assert_eq!(cc.max_acked_packet_number, 9);
    assert_eq!(cc.round_count, 0);
    assert_eq!(cc.cwnd, 240_000);
    assert_eq!(cc.batch_acked, 0);
}

#[test]
fn batch_starts_a_round() {
    let mut cc = controller();
    cc.probe_rtt_last_started_at = Some(at(0));
    cc.min_rtt = Duration::from_millis(20);
    cc.on_sent(at(0), MTU, 9);
    cc.on_ack(at(20), at(0), 12_000, false, &rtt(20));
    cc.on_ack_sample(at(20), &sample(0, 12_000, 20));
    assert_eq!(cc.batch_acked, 12_000);
    cc.on_end_acks(at(20), 228_000, false, Some(5));
    assert_eq!(cc.round_count, 1);
    assert_eq!(cc.current_round_trip_end_packet_number, 9);
    assert!(cc.cwnd_limited_in_round);
    assert_eq!(cc.round_delivered, 0);
    assert_eq!(cc.bw_at_last_round, 600_000);
    assert_eq!(cc.cwnd, 252_000);
    assert_eq!(cc.pacing_rate, 12_000_000);
    assert_eq!(cc.loss_round.next_round_delivered, 12_000);
    assert_eq!(cc.inflight_latest, 12_000);
    // Packet 6 was sent before the round started.
    cc.on_ack_sample(at(21), &sample(0, 13_200, 20));
    cc.on_end_acks(at(21), 0, false, Some(6));
    assert_eq!(cc.round_count, 1);
    assert_eq!(cc.round_delivered, 13_200);
    // Packet 10 was sent after it.
    cc.on_sent(at(22), MTU, 12);
    cc.on_ack_sample(at(42), &sample(13_200, 1_200, 20));
    cc.on_end_acks(at(42), 0, false, Some(10));
    assert_eq!(cc.round_count, 2);
    assert!(!cc.cwnd_limited_in_round);
    assert_eq!(cc.current_round_trip_end_packet_number, 12);
}

#[test]
fn lossy_batch_starts_recovery_and_lowers_the_ceiling() {
    let mut cc = controller();
    cc.probe_rtt_last_started_at = Some(at(0));
    cc.on_sent(at(0), MTU, 100);
    cc.on_ack(at(20), at(0), 90_000, false, &rtt(20));
    cc.on_ack_sample(at(20), &sample(0, 90_000, 20));
    cc.on_congestion_event(at(20), at(0), false, 10_000);
    cc.on_end_acks(at(20), 100_000, false, Some(80));
    assert_eq!(cc.recovery_state, RecoveryState::Conservation);
    assert_eq!(cc.recovery_window, 190_000);
    assert_eq!(cc.end_recovery_at_packet_number, 100);
    assert_eq!(cc.inflight_hi, 70_000);
    assert_eq!(cc.window(), 70_000);
    assert_eq!(cc.loss_state.lost_bytes, 0);
    assert_eq!(cc.round_lost, 0);
}

#[test]
fn loss_round_collapses_the_short_term_bound() {
    let mut cc = controller();
    cc.probe_rtt_last_started_at = Some(at(0));
    cc.min_rtt = Duration::from_millis(20);
    cc.max_bw_filter.update_max(0, 10_000_000);
    cc.is_at_full_bandwidth = true;
    cc.enter_probe_bandwidth_mode(at(0));
    cc.set_probe_wait(0, 2500);
    let loss = LossSample {
        bytes: MTU,
        tx_in_flight: 100 * MTU,
        lost: MTU,
        delivered: 500,
        is_app_limited: false,
        new_loss_burst: true,
    };
    cc.on_loss_sample(at(1), &loss);
    // Not yet the end of the loss round.
    cc.on_ack_sample(at(5), &sample(400, 1_000, 20));
    cc.on_end_acks(at(5), 150_000, false, None);
    assert_eq!(cc.inflight_lo, u64::MAX);
    assert_eq!(cc.loss_bursts_in_round, 1);
    // Its end.
    cc.on_ack_sample(at(6), &sample(500, 2_000, 20));
    let cwnd = cc.cwnd;
    cc.on_end_acks(at(6), 150_000, false, None);
    assert_eq!(cc.inflight_lo, (0.7f32 * cwnd as f32) as u64);
    assert_eq!(cc.loss_bursts_in_round, 0);
    assert_eq!(cc.inflight_latest, 2_000);
    assert_eq!(cc.bw_latest, 100_000);
    assert!(cc.window() < cwnd);
}

fn has_room(cc: &Bbr2, in_flight: u64) -> bool {
    cc.has_room_for_batch(at(0), in_flight, false, Some(1))
}

#[test]
fn room_for_sums_is_tested() {
    let mut cc = controller();
    assert!(has_room(&cc, 0));
    assert!(has_room(&cc, u64::MAX));
    cc.batch_acked = 1;
    assert!(!has_room(&cc, u64::MAX));
    assert!(has_room(&cc, u64::MAX - 1));
    cc.batch_acked = u64::MAX;
    cc.probe_rtt_last_started_at = Some(at(0));
    assert!(!has_room(&cc, 0));
    cc.batch_acked = u64::MAX - 240_000;
    assert!(has_room(&cc, 0));
    cc.batch_acked += 1;
    assert!(!has_room(&cc, 0));
    // The test leaves the state alone.
    assert_eq!(cc.batch_acked, u64::MAX - 239_999);
    assert_eq!(cc.round_count, 0);
}

#[test]
fn room_for_rounds_is_tested() {
    let mut cc = controller();
    cc.round_count = u64::MAX;
    // Without acks no round starts.
    assert!(has_room(&cc, 0));
    cc.batch_acked = 1;
    assert!(!has_room(&cc, 0));
    cc.round_count = 0;
    cc.round_lost = u64::MAX - 1;
    assert!(has_room(&cc, 0));
    cc.round_delivered = 1;
    assert!(!has_room(&cc, 0));
    // Rounds without growth are counted until the pipe is full.
    let mut cc = controller();
    cc.batch_acked = 1;
    cc.bw_at_last_round = 1_000_000;
    cc.round_wo_bw_gain = u64::MAX;
    assert!(!has_room(&cc, 0));
    assert!(cc.has_room_for_batch(at(0), 0, true, Some(1)));
    cc.is_at_full_bandwidth = true;
    assert!(has_room(&cc, 0));
}

#[test]
fn room_for_products_is_tested() {
    let mut cc = controller();
    cc.min_rtt = Duration::from_secs(4);
    cc.max_bw_filter.update_max(0, u64::MAX / 4_000_000);
    assert!(has_room(&cc, 0));
    cc.max_bw_filter.update_max(0, u64::MAX / 4_000_000 + 1);
    assert!(!has_room(&cc, 0));
    // The first pacing rate is the only one that is spread over a round trip.
    let mut cc = controller();
    cc.min_rtt = Duration { nanos: 1 << 64 };
    assert!(has_room(&cc, 0));
    cc.max_bw_filter.update_max(0, 1);
    assert!(!has_room(&cc, 0));
    cc.pacing_rate = 1;
    assert!(has_room(&cc, 0));
    // Growth of the ceiling counts only with one that is engaged and in use.
    let mut cc = controller();
    cc.is_at_full_bandwidth = true;
    cc.mode = Mode::ProbeBw;
    cc.cwnd_limited_in_round = true;
    cc.bw_probe_up_acks = u64::MAX / 1200 + 1;
    cc.bw_probe_up_cnt = 1;
    assert!(has_room(&cc, 0));
    cc.inflight_hi = 240_000;
    assert!(!has_room(&cc, 0));
    cc.bw_probe_up_cnt = 2;
    assert!(has_room(&cc, 0));
    cc.bw_probe_up_cnt = 1;
    cc.inflight_hi = 240_001;
    assert!(has_room(&cc, 0));
}

#[test]
fn room_for_the_end_of_probe_rtt_is_tested() {
    let cc = controller();
    let late = Instant { nanos: u128::MAX - 199_999_999 };
    let in_time = Instant { nanos: u128::MAX - 200_000_000 };
    assert!(!cc.has_room_for_batch(late, 0, false, None));
    assert!(cc.has_room_for_batch(late, 0, true, None));
    assert!(cc.has_room_for_batch(late, 241_200, false, None));
    assert!(!cc.has_room_for_batch(late, 241_199, false, None));
    assert!(cc.has_room_for_batch(in_time, 0, false, None));
}

#[test]
fn window_in_probe_rtt_is_clamped_to_cwnd() {
    let mut cc = controller();
    cc.mode = Mode::ProbeRtt;
    // Nothing is known yet, so that the target is the initial window.
    assert_eq!(cc.get_probe_rtt_cwnd(), 240_000);
    assert_eq!(cc.window(), 240_000);
    cc.cwnd = 4_800;
    assert_eq!(cc.window(), 4_800);
    cc.cwnd = 10_000;
    assert_eq!(cc.window(), 10_000);
    // A first sample of 120 MB/s over 20 ms.
    cc.cwnd = 240_000;
    cc.min_rtt = Duration::from_millis(20);
    cc.on_ack_sample(at(20), &sample(0, 2_400_000, 20));
    assert_eq!(cc.get_probe_rtt_cwnd(), 1_800_000);
    assert_eq!(cc.window(), 240_000);
    cc.cwnd = 5_000_000;
    assert_eq!(cc.window(), 1_800_000);
    cc.inflight_hi = 100_000;
    assert_eq!(cc.window(), 100_000);
    cc.inflight_lo = 50_000;
    assert_eq!(cc.window(), 50_000);
}

/// A path of 10 MB/s and 20 ms, with a flow that fills its window each round, and losses in some.
#[test]
fn connection_keeps_its_laws() {
    let mut cc = controller();
    cc.probe_rtt_last_started_at = Some(at(0));
    cc.min_rtt = Duration::from_millis(20);
    let mut packet = 0u64;
    let mut delivered = 0u64;
    let mut now = 0u64;
    let mut was_full = false;
    let mut seen = Vec::new();
    let mut phases = Vec::new();
    for round in 0..2_500u64 {
        let in_flight = cc.window().min(500_000);
        packet += in_flight / MTU;
        cc.on_sent(at(now), in_flight, packet);
        now += 20;
        let got = in_flight.min(200_000);
        let mut rate = sample(delivered, got, 20);
        rate.tx_in_flight = in_flight;
        if round % 97 == 5 || round % 97 == 6 {
            for burst in 0..3 {
                let loss = LossSample {
                    bytes: MTU,
                    tx_in_flight: in_flight,
                    lost: in_flight / 10 + burst,
                    delivered,
                    is_app_limited: false,
                    new_loss_burst: true,
                };
                let hi = cc.inflight_hi;
                let probing = cc.bw_probe_samples;
                let bursts = cc.loss_bursts_in_round;
                cc.on_loss_sample(at(now), &loss);
                if !probing || bursts == 0 {
                    assert_eq!(cc.inflight_hi, hi);
                }
            }
            cc.on_congestion_event(at(now), at(now - 20), false, in_flight / 10);
            rate.lost = in_flight / 10;
        }
        cc.on_ack(at(now), at(now - 20), got, false, &rtt(20));
        cc.on_ack_sample(at(now), &rate);
        delivered += got;
        let before = cc.clone();
        assert!(cc.has_room_for_batch(at(now), in_flight - got, false, Some(packet)));
        cc.on_end_acks(at(now), in_flight - got, false, Some(packet));

        assert!(cc.window() >= cc.min_cwnd);
        assert!(cc.window() <= cc.inflight_hi.max(cc.min_cwnd));
        assert!(cc.window() <= cc.inflight_lo.max(cc.min_cwnd));
        assert!(cc.window() <= cc.cwnd.max(cc.min_cwnd));
        assert!(paces_by_mode(&cc));
        assert!(!was_full || cc.is_at_full_bandwidth);
        assert_eq!(cc.batch_acked, 0);
        assert_eq!(cc.loss_state.lost_bytes, 0);
        if cc.mode != Mode::ProbeRtt {
            assert!(cc.cwnd >= cc.min_cwnd);
        } else {
            assert_eq!(cc.cwnd, before.cwnd);
        }
        if before.mode != Mode::ProbeBw && cc.mode == Mode::ProbeBw {
            assert_eq!(cc.cycle_phase, CyclePhase::Down);
        }
        was_full = cc.is_at_full_bandwidth;
        if !seen.contains(&cc.mode) {
            seen.push(cc.mode);
        }
        if cc.mode == Mode::ProbeBw && phases.last() != Some(&cc.cycle_phase) {
            phases.push(cc.cycle_phase);
        }
    }
    assert_eq!(seen.len(), 4, "every mode is visited: {:?}", seen);
    assert!(phases.contains(&CyclePhase::Up));
    assert!(phases.contains(&CyclePhase::Refill));
    assert!(phases.contains(&CyclePhase::Down));
    assert!(cc.max_bw() <= 10_000_000);
}

#[test]
fn room_for_windows_and_losses() {
    let mut cc = controller();
    let loss = LossSample {
        bytes: MTU,
        tx_in_flight: 100 * MTU,
        lost: MTU,
        delivered: 0,
        is_app_limited: false,
        new_loss_burst: true,
    };
    assert!(cc.has_room_for_window());
    assert!(cc.has_room_for_loss(at(0), &loss));
    // Where nothing has to be computed, there is room.
    let huge = LossSample { bytes: 0, tx_in_flight: u64::MAX, lost: u64::MAX, ..loss };
    assert!(cc.has_room_for_loss(at(0), &huge));
    cc.bw_probe_samples = true;
    assert!(cc.has_room_for_loss(at(0), &huge));
    cc.loss_bursts_in_round = 1;
    assert!(cc.has_room_for_loss(at(0), &huge));
    cc.min_rtt = Duration::from_secs(1);
    cc.max_bw_filter.update_max(0, u64::MAX / 1_000_000);
    let heavy = LossSample { lost: 50 * MTU, ..loss };
    assert!(cc.has_room_for_loss(at(0), &heavy));
    cc.max_bw_filter.update_max(0, u64::MAX / 1_000_000 + 1);
    assert!(!cc.has_room_for_loss(at(0), &heavy));
    assert!(cc.has_room_for_loss(at(0), &LossSample { is_app_limited: true, ..heavy }));
    assert!(cc.has_room_for_window());
    cc.mode = Mode::ProbeRtt;
    assert!(!cc.has_room_for_window());
}
