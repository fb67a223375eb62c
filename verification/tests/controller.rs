//! The controller's steps on concrete values.

use quinn_proto::congestion::bbr2::{
    bw_from_delta, calculate_min_window, sample_delivery_rate, Bbr2, Bbr2Config, CyclePhase,
    LossState, Mode, RecoveryState,
};
use quinn_proto::congestion::{
    Controller, ControllerFactory, ControllerMetrics, LossSample, RateSample, RttEstimator,
};
use quinn_proto::float::F32;
use quinn_proto::time::{Duration, Instant};
use std::sync::Arc;

const MTU: u64 = 1200;

fn controller() -> Bbr2 {
    Bbr2::new(Arc::new(Bbr2Config::default()), MTU as u16)
}

fn at(millis: u64) -> Instant {
    Instant { nanos: 1_000_000_000_000 + millis as u128 * 1_000_000 }
}

fn of(x: f32) -> F32 {
    F32 { bits: x.to_bits() }
}

/// In PROBE_BW:DOWN with 10 MB/s over 20 ms: 200 kB in flight.
fn steady() -> Bbr2 {
    let mut cc = controller();
    cc.min_rtt = Duration::from_millis(20);
    cc.max_bw_filter.update_max(0, 10_000_000);
    cc.is_at_full_bandwidth = true;
    cc.enter_probe_bandwidth_mode(at(0));
    cc
}

fn rate_sample(prior_delivered: u64, delivered: u64, millis: u64) -> RateSample {
    RateSample {
        delivered,
        prior_delivered,
        interval: Duration::from_millis(millis),
        tx_in_flight: 0,
        lost: 0,
        is_app_limited: false,
        bytes_acked: delivered,
    }
}

fn loss(lost: u64, tx_in_flight: u64, new_loss_burst: bool) -> LossSample {
    LossSample {
        bytes: MTU,
        tx_in_flight,
        lost,
        delivered: 0,
        is_app_limited: false,
        new_loss_burst,
    }
}

#[test]
fn constants_are_the_decimal_ones() {
    let cc = controller();
    assert_eq!(cc.high_gain, of(2.885));
    assert_eq!(cc.high_cwnd_gain, of(2.885));
    assert_eq!(cc.pacing_gain, of(2.885));
    assert_eq!(cc.cwnd_gain, of(2.885));
    assert_eq!(cc.drain_gain, of(1.0 / 2.885));
    assert_eq!(CyclePhase::Down.pacing_gain(), of(0.9));
    assert_eq!(CyclePhase::Up.pacing_gain(), of(1.25));
    let config = Bbr2Config::default();
    assert_eq!(config.initial_window, 240_000);
    assert_eq!(config.loss_thresh, of(0.02));
    assert_eq!(config.beta, of(0.3));
    assert_eq!(quinn_proto::congestion::bbr2::K_BETA, 0.7f32.to_bits());
    assert_eq!(quinn_proto::congestion::bbr2::K_HEADROOM, 0.85f32.to_bits());
    assert_eq!(steady().cwnd_gain, of(2.0));
}

#[test]
fn config_is_built_step_by_step() {
    let mut config = Bbr2Config::default();
    config.initial_window(50_000).loss_thresh(of(0.1)).beta(of(0.5));
    assert_eq!(config.initial_window, 50_000);
    assert_eq!(config.loss_thresh, of(0.1));
    assert_eq!(config.beta, of(0.5));
    let cc = Arc::new(config).build(at(0), 1500);
    assert_eq!(cc.initial_window(), 50_000);
    assert_eq!(cc.cwnd, 50_000);
    assert_eq!(cc.init_cwnd, 50_000);
    assert_eq!(cc.min_cwnd, 6000);
    assert_eq!(cc.current_mtu, 1500);
}

#[test]
fn new_controller_is_in_startup() {
    let cc = controller();
    assert_eq!(cc.mode, Mode::Startup);
    assert_eq!(cc.recovery_state, RecoveryState::NotInRecovery);
    assert_eq!(cc.cycle_phase, CyclePhase::Up);
    assert_eq!(cc.window(), 240_000);
    assert_eq!(cc.inflight_hi, u64::MAX);
    assert_eq!(cc.inflight_lo, u64::MAX);
    assert_eq!(cc.bw_probe_wait, Duration::from_secs(2));
    assert_eq!(cc.max_bw(), 0);
    assert!(cc.is_probing_for_bandwidth());
    assert!(!cc.loss_in_round());
    assert!(!cc.is_at_full_bandwidth);
    assert_eq!(calculate_min_window(1200), 4800);
}

#[test]
fn targets_follow_the_bandwidth_delay_product() {
    let mut cc = steady();
    assert_eq!(cc.get_bdp(), 200_000);
    assert_eq!(cc.target_inflight(), 200_000);
    cc.cwnd = 150_000;
    assert_eq!(cc.target_inflight(), 150_000);
    assert_eq!(cc.get_target_cwnd(of(1.0)), 200_000);
    assert_eq!(cc.get_target_cwnd(of(1.25)), 250_000);
    assert_eq!(
        cc.get_target_cwnd(of(2.885)),
        ((2.885f32 as f64 * 200_000_000_000f64) / 1_000_000f64) as u64
    );
    assert_eq!(cc.get_probe_rtt_cwnd(), 150_000);
    // A small product gives the minimum window, none the initial window.
    cc.min_rtt = Duration::from_micros(10);
    assert_eq!(cc.get_target_cwnd(of(1.0)), 4800);
    cc.min_rtt = Duration::default();
    assert_eq!(cc.get_target_cwnd(of(1.0)), 240_000);
    assert_eq!(cc.get_bdp(), 240_000);
}

#[test]
fn pacing_rate_in_each_stage() {
    let mut cc = controller();
    // Without a bandwidth, nothing is paced.
    cc.calculate_pacing_rate();
    assert_eq!(cc.pacing_rate, 0);
    assert_eq!(cc.metrics().pacing_rate, Some(0));
    // The first rate spreads the initial window over a round trip.
    cc.min_rtt = Duration::from_millis(20);
    cc.max_bw_filter.update_max(0, 1_000_000);
    cc.calculate_pacing_rate();
    assert_eq!(cc.pacing_rate, 12_000_000);
    // Before the pipe is full the rate does not go down.
    cc.calculate_pacing_rate();
    assert_eq!(cc.pacing_rate, 12_000_000);
    cc.max_bw_filter.update_max(0, 10_000_000);
    cc.calculate_pacing_rate();
    assert_eq!(cc.pacing_rate, (10_000_000f64 * 2.885f32 as f64) as u64);
    // A full pipe follows the target.
    cc.is_at_full_bandwidth = true;
    cc.enter_probe_bandwidth_mode(at(0));
    cc.calculate_pacing_rate();
    assert_eq!(cc.pacing_rate, (10_000_000f64 * 0.9f32 as f64) as u64);
    assert_eq!(
        cc.metrics().pacing_rate,
        Some(8 * (10_000_000f64 * 0.9f32 as f64) as u64)
    );
    cc.pacing_rate = u64::MAX / 4;
    assert_eq!(cc.metrics().pacing_rate, Some(u64::MAX));
    assert_eq!(cc.metrics().congestion_window, cc.window());
    assert_eq!(cc.metrics().ssthresh, None);
    assert_eq!(ControllerMetrics::default().congestion_window, 0);
}

#[test]
fn window_grows_by_stages() {
    // Before the pipe is full, by what is acked.
    let mut cc = controller();
    cc.calculate_cwnd(10_000, 0);
    assert_eq!(cc.cwnd, 250_000);
    // In a full pipe, up to the target.
    let mut cc = steady();
    cc.cwnd = 390_000;
    cc.calculate_cwnd(5_000, 0);
    assert_eq!(cc.cwnd, 395_000);
    cc.calculate_cwnd(50_000, 0);
    assert_eq!(cc.cwnd, 400_000);
    // The largest aggregation adds to the target.
    cc.ack_aggregation.max_ack_height.update_max(0, 30_000);
    cc.calculate_cwnd(50_000, 0);
    assert_eq!(cc.cwnd, 430_000);
    // PROBE_RTT leaves the window alone.
    cc.mode = Mode::ProbeRtt;
    cc.calculate_cwnd(50_000, 0);
    assert_eq!(cc.cwnd, 430_000);
    // Never below the minimum window.
    let mut cc = controller();
    cc.cwnd = 10;
    cc.calculate_cwnd(20, 0);
    assert_eq!(cc.cwnd, 4800);
}

#[test]
fn startup_window_stops_at_a_tiny_target() {
    let mut cc = controller();
    // The target is the initial window while nothing is known.
    cc.init_cwnd = 1;
    cc.min_cwnd = 0;
    cc.acked_bytes = 10;
    cc.cwnd = 100;
    cc.calculate_cwnd(50, 0);
    assert_eq!(cc.cwnd, 100);
    cc.calculate_cwnd(50, 3);
    assert_eq!(cc.cwnd, 150);
}

#[test]
fn recovery_window_tracks_what_is_in_flight() {
    let mut cc = controller();
    cc.calculate_recovery_window(1000, 0, 50_000);
    assert_eq!(cc.recovery_window, 0);
    cc.recovery_state = RecoveryState::Conservation;
    cc.calculate_recovery_window(1000, 0, 50_000);
    assert_eq!(cc.recovery_window, 51_000);
    cc.calculate_recovery_window(1000, 2000, 10_000);
    assert_eq!(cc.recovery_window, 49_000);
    cc.recovery_state = RecoveryState::Growth;
    cc.calculate_recovery_window(1500, 0, 10_000);
    assert_eq!(cc.recovery_window, 50_500);
    // More lost than the window: a datagram, but no less than the floor.
    cc.calculate_recovery_window(0, 60_000, 0);
    assert_eq!(cc.recovery_window, 4800);
    cc.calculate_recovery_window(0, 60_000, 9_000);
    assert_eq!(cc.recovery_window, 9_000);
}

#[test]
fn recovery_starts_grows_and_ends() {
    let mut cc = controller();
    cc.on_sent(at(0), MTU, 10);
    cc.on_congestion_event(at(1), at(0), false, 3000);
    cc.on_congestion_event(at(1), at(0), false, 1000);
    assert_eq!(cc.loss_state, LossState { lost_bytes: 4000 });
    cc.recovery_window = 77;
    cc.update_recovery_state(false);
    assert_eq!(cc.recovery_state, RecoveryState::Conservation);
    assert_eq!(cc.end_recovery_at_packet_number, 10);
    assert_eq!(cc.current_round_trip_end_packet_number, 10);
    assert_eq!(cc.recovery_window, 0);
    // A round later: growth.
    cc.loss_state.reset();
    cc.max_acked_packet_number = 10;
    cc.update_recovery_state(true);
    assert_eq!(cc.recovery_state, RecoveryState::Growth);
    // Not before a packet is acked that was sent after the last loss.
    cc.update_recovery_state(true);
    assert_eq!(cc.recovery_state, RecoveryState::Growth);
    cc.max_acked_packet_number = 11;
    cc.update_recovery_state(false);
    assert_eq!(cc.recovery_state, RecoveryState::NotInRecovery);
    assert!(!cc.recovery_state.in_recovery());
}

#[test]
fn window_in_recovery() {
    let mut cc = controller();
    cc.recovery_state = RecoveryState::Conservation;
    cc.recovery_window = 60_000;
    // STARTUP is not limited by the recovery window.
    assert_eq!(cc.window(), 240_000);
    cc.mode = Mode::Drain;
    assert_eq!(cc.window(), 60_000);
    cc.inflight_hi = 50_000;
    assert_eq!(cc.window(), 50_000);
    cc.inflight_lo = 40_000;
    assert_eq!(cc.window(), 40_000);
    cc.recovery_window = 30_000;
    assert_eq!(cc.window(), 30_000);
    cc.mode = Mode::ProbeRtt;
    cc.inflight_lo = u64::MAX;
    cc.min_rtt = Duration::from_millis(20);
    cc.max_bw_filter.update_max(0, 1_000_000);
    assert_eq!(cc.window(), 15_000);
}

#[test]
fn full_pipe_takes_three_rounds_without_growth() {
    let mut cc = controller();
    cc.max_bw_filter.update_max(0, 1_000_000);
    cc.ack_aggregation.max_ack_height.update_max(0, 99);
    cc.check_if_full_bw_reached(false);
    assert_eq!(cc.bw_at_last_round, 1_000_000);
    assert_eq!(cc.ack_aggregation.max_ack_height.get(), 0);
    // Growth of a quarter is enough.
    cc.max_bw_filter.update_max(0, 1_250_000);
    cc.check_if_full_bw_reached(false);
    assert_eq!(cc.bw_at_last_round, 1_250_000);
    assert_eq!(cc.round_wo_bw_gain, 0);
    cc.check_if_full_bw_reached(true);
    assert_eq!(cc.round_wo_bw_gain, 0);
    cc.check_if_full_bw_reached(false);
    cc.check_if_full_bw_reached(false);
    assert_eq!(cc.round_wo_bw_gain, 2);
    assert!(!cc.is_at_full_bandwidth);
    cc.check_if_full_bw_reached(false);
    assert!(cc.is_at_full_bandwidth);
}

#[test]
fn recovery_makes_the_pipe_full_at_once() {
    let mut cc = controller();
    cc.max_bw_filter.update_max(0, 1_000_000);
    cc.check_if_full_bw_reached(false);
    cc.recovery_state = RecoveryState::Growth;
    cc.check_if_full_bw_reached(false);
    assert!(cc.is_at_full_bandwidth);
    assert_eq!(cc.round_wo_bw_gain, 1);
}

#[test]
fn drain_ends_at_the_bandwidth_delay_product() {
    let mut cc = steady();
    cc.mode = Mode::Drain;
    cc.cycle_phase = CyclePhase::Cruise;
    cc.maybe_exit_startup_or_drain(at(5), 200_001);
    assert_eq!(cc.mode, Mode::Drain);
    cc.maybe_exit_startup_or_drain(at(5), 200_000);
    assert_eq!(cc.mode, Mode::ProbeBw);
    assert_eq!(cc.cycle_phase, CyclePhase::Down);
    assert_eq!(cc.cycle_start, Some(at(5)));
    assert_eq!(cc.pacing_gain, of(0.9));
    // STARTUP with a full pipe and nothing in flight goes through DRAIN at once.
    let mut cc = controller();
    cc.is_at_full_bandwidth = true;
    cc.maybe_exit_startup_or_drain(at(0), 0);
    assert_eq!(cc.mode, Mode::ProbeBw);
}

#[test]
fn probe_rtt_runs_its_course() {
    let mut cc = steady();
    cc.probe_rtt_last_started_at = Some(at(0));
    assert!(!cc.is_min_rtt_expired(at(10_000), false));
    assert!(!cc.is_min_rtt_expired(at(10_001), true));
    assert!(cc.is_min_rtt_expired(at(10_001), false));
    cc.maybe_enter_or_exit_probe_rtt(at(10_000), true, 0, false);
    assert_eq!(cc.mode, Mode::ProbeBw);
    // Entered with too much in flight to set the time.
    cc.maybe_enter_or_exit_probe_rtt(at(10_001), false, 151_200, false);
    assert_eq!(cc.mode, Mode::ProbeRtt);
    assert_eq!(cc.pacing_gain, of(1.0));
    assert_eq!(cc.exit_probe_rtt_at, None);
    assert_eq!(cc.probe_rtt_last_started_at, Some(at(10_001)));
    // Drained: 200 ms from now.
    cc.maybe_enter_or_exit_probe_rtt(at(10_010), false, 151_199, false);
    assert_eq!(cc.exit_probe_rtt_at, Some(at(10_210)));
    cc.maybe_enter_or_exit_probe_rtt(at(10_209), true, 0, false);
    assert_eq!(cc.mode, Mode::ProbeRtt);
    cc.maybe_enter_or_exit_probe_rtt(at(10_210), false, 0, false);
    assert_eq!(cc.mode, Mode::ProbeRtt);
    cc.maybe_enter_or_exit_probe_rtt(at(10_210), true, 0, false);
    assert_eq!(cc.mode, Mode::ProbeBw);
    assert_eq!(cc.cycle_phase, CyclePhase::Down);
}

#[test]
fn probe_rtt_returns_to_startup_before_the_pipe_is_full() {
    let mut cc = controller();
    cc.exiting_quiescence = true;
    cc.maybe_enter_or_exit_probe_rtt(at(0), true, 0, false);
    assert_eq!(cc.mode, Mode::Startup);
    assert!(!cc.exiting_quiescence);
    cc.maybe_enter_or_exit_probe_rtt(at(0), true, 0, false);
    assert_eq!(cc.mode, Mode::ProbeRtt);
    cc.maybe_enter_or_exit_probe_rtt(at(300), true, 0, false);
    assert_eq!(cc.mode, Mode::Startup);
    assert_eq!(cc.pacing_gain, of(2.885));
}

#[test]
fn minimum_round_trip_time_follows_the_estimate() {
    let mut cc = controller();
    let rtt = RttEstimator { min: Duration::from_millis(30) };
    cc.on_ack(at(0), at(0), 1000, false, &rtt);
    assert_eq!(cc.min_rtt, Duration::from_millis(30));
    assert_eq!(cc.acked_bytes, 1000);
    cc.probe_rtt_last_started_at = Some(at(0));
    let longer = RttEstimator { min: Duration::from_millis(40) };
    cc.on_ack(at(1), at(0), 500, false, &longer);
    assert_eq!(cc.min_rtt, Duration::from_millis(30));
    let shorter = RttEstimator { min: Duration::from_millis(20) };
    cc.on_ack(at(1), at(0), 500, true, &shorter);
    assert_eq!(cc.min_rtt, Duration::from_millis(20));
    // Out of date: taken as it is.
    cc.on_ack(at(10_001), at(0), 500, false, &longer);
    assert_eq!(cc.min_rtt, Duration::from_millis(40));
    assert_eq!(cc.acked_bytes, 2500);
}

#[test]
fn rate_samples_enter_the_estimate() {
    let mut cc = controller();
    cc.on_ack_sample(at(0), &rate_sample(1000, 2000, 10));
    assert_eq!(cc.max_bw(), 200_000);
    assert_eq!(cc.bw_latest, 200_000);
    assert_eq!(cc.inflight_latest, 2000);
    assert_eq!(cc.delivered_total, 3000);
    assert_eq!(cc.batch_acked, 2000);
    // An older packet's sample is not kept, but counted.
    cc.on_ack_sample(at(0), &rate_sample(500, 1000, 10));
    assert_eq!(cc.rate_sample.prior_delivered, 1000);
    assert_eq!(cc.delivered_total, 3000);
    assert_eq!(cc.batch_acked, 3000);
    assert_eq!(cc.max_bw(), 200_000);
    // Of two from the same delivered total, the later one is kept.
    cc.on_ack_sample(at(0), &rate_sample(1000, 2400, 12));
    assert_eq!(cc.rate_sample.delivered, 2400);
    // An empty interval has no rate.
    cc.on_ack_sample(at(0), &rate_sample(2000, 9000, 0));
    assert_eq!(cc.max_bw(), 200_000);
    assert_eq!(cc.inflight_latest, 9000);
    assert_eq!(sample_delivery_rate(&rate_sample(0, 9000, 0)), None);
    assert_eq!(sample_delivery_rate(&rate_sample(0, u64::MAX, 1)), Some(u64::MAX / 1000));
}

#[test]
fn app_limited_samples_only_raise_the_estimate() {
    let mut cc = controller();
    cc.on_ack_sample(at(0), &rate_sample(0, 2000, 10));
    // Eleven rounds later nothing is left in the window, but an app-limited sample does not count.
    cc.round_count = 11;
    let low = RateSample { is_app_limited: true, ..rate_sample(0, 1000, 10) };
    cc.on_ack_sample(at(0), &low);
    assert_eq!(cc.max_bw(), 200_000);
    let high = RateSample { is_app_limited: true, ..rate_sample(0, 3000, 10) };
    cc.on_ack_sample(at(0), &high);
    assert_eq!(cc.max_bw(), 300_000);
    // One that is not app-limited does.
    cc.round_count = 22;
    cc.on_ack_sample(at(0), &rate_sample(0, 1000, 10));
    assert_eq!(cc.max_bw(), 100_000);
}

#[test]
fn rates_from_spans() {
    assert_eq!(bw_from_delta(240_000, Duration::from_millis(20)), Some(12_000_000));
    assert_eq!(bw_from_delta(240_000, Duration::default()), None);
}

#[test]
fn loss_threshold_needs_two_bursts() {
    let mut cc = controller();
    cc.loss_bursts_in_round = 1;
    assert!(!cc.is_loss_too_high(u64::MAX, 1));
    cc.loss_bursts_in_round = 2;
    // 2% of 100000: the threshold itself is not too high.
    assert_eq!(cc.is_loss_too_high(2000, 100_000), 2000f32 > 0.02f32 * 100_000f32);
    assert!(!cc.is_loss_too_high(1999, 100_000));
    assert!(cc.is_loss_too_high(2001, 100_000));
}

#[test]
fn loss_reaction_sets_the_ceiling_where_the_threshold_was_crossed() {
    let cc = controller();
    let sample = LossSample { lost: 3 * MTU, ..loss(0, 100 * MTU, true) };
    let prev = 99 * MTU;
    let budget = ((0.02f32 * prev as f32) as u64).saturating_sub(2 * MTU);
    let expected = prev + (budget as f32 / (1.0f32 - 0.02f32)) as u64;
    assert_eq!(cc.inflight_hi_from_lost_packet(&sample), expected);
    // Within the budget, part of it is left.
    let sample = loss(MTU, 100 * MTU, true);
    let budget = (0.02f32 * prev as f32) as u64;
    let expected = prev + (budget as f32 / (1.0f32 - 0.02f32)) as u64;
    assert_eq!(expected, 121_224);
    assert_eq!(cc.inflight_hi_from_lost_packet(&sample), expected);
    // A packet larger than what was in flight.
    assert_eq!(cc.inflight_hi_from_lost_packet(&loss(0, 100, true)), 0);
}

#[test]
fn too_much_in_flight_turns_up_to_down() {
    let mut cc = steady();
    cc.cycle_phase = CyclePhase::Up;
    cc.bw_probe_samples = true;
    cc.on_inflight_too_high(at(7), false, 1000);
    // 70% of 200 kB.
    assert_eq!(cc.inflight_hi, (0.7f32 * 200_000f32) as u64);
    assert_eq!(cc.cycle_phase, CyclePhase::Down);
    assert_eq!(cc.cycle_start, Some(at(7)));
    assert_eq!(cc.bw_probe_up_cnt, u64::MAX);
    assert!(!cc.bw_probe_samples);
    // App-limited: the ceiling stays.
    let mut cc = steady();
    cc.cycle_phase = CyclePhase::Refill;
    cc.inflight_hi = 5;
    cc.on_inflight_too_high(at(7), true, 1000);
    assert_eq!(cc.inflight_hi, 5);
    assert_eq!(cc.cycle_phase, CyclePhase::Refill);
    // More in flight than the target.
    cc.on_inflight_too_high(at(7), false, 900_000);
    assert_eq!(cc.inflight_hi, 900_000);
}

#[test]
fn losses_react_once_per_probe() {
    let mut cc = steady();
    cc.bw_probe_samples = true;
    cc.cycle_phase = CyclePhase::Up;
    cc.on_loss_sample(at(1), &loss(10 * MTU, 100 * MTU, true));
    cc.on_loss_sample(at(1), &loss(11 * MTU, 100 * MTU, false));
    assert_eq!(cc.loss_bursts_in_round, 1);
    assert_eq!(cc.inflight_hi, u64::MAX);
    cc.on_loss_sample(at(2), &loss(12 * MTU, 300 * MTU, true));
    assert!(!cc.bw_probe_samples);
    assert_eq!(cc.inflight_hi, 299 * MTU);
    assert_eq!(cc.cycle_phase, CyclePhase::Down);
    // The turn to DOWN has reset the count; more losses leave the ceiling alone.
    assert_eq!(cc.loss_bursts_in_round, 0);
    for _ in 0..5 {
        cc.on_loss_sample(at(3), &loss(90 * MTU, 100 * MTU, true));
    }
    assert_eq!(cc.inflight_hi, 299 * MTU);
}

#[test]
fn first_loss_of_a_round_sets_its_end() {
    let mut cc = controller();
    let first = LossSample { delivered: 5000, ..loss(MTU, 10 * MTU, true) };
    cc.on_loss_sample(at(0), &first);
    assert_eq!(cc.loss_round.next_round_delivered, 5000);
    let second = LossSample { delivered: 9000, ..loss(MTU, 10 * MTU, true) };
    cc.on_loss_sample(at(0), &second);
    assert_eq!(cc.loss_round.next_round_delivered, 5000);
    assert_eq!(cc.loss_bursts_in_round, 2);
    cc.loss_bursts_in_round = 255;
    cc.on_loss_sample(at(0), &second);
    assert_eq!(cc.loss_bursts_in_round, 255);
}

#[test]
fn ceiling_of_startup_follows_the_loss_rate() {
    let mut cc = controller();
    // A round without traffic says nothing.
    cc.update_inflight_hi(100_000);
    assert_eq!(cc.inflight_hi, u64::MAX);
    cc.round_lost = 10_000;
    cc.round_delivered = 90_000;
    cc.update_inflight_hi(100_000);
    assert_eq!(cc.inflight_hi, (100_000f32 * (1.0f32 - 0.3f32)) as u64);
    assert_eq!(cc.inflight_hi, 70_000);
    // Down to the minimum window.
    cc.update_inflight_hi(1_000);
    assert_eq!(cc.inflight_hi, 4800);
    // A clean round raises it by what was delivered, or by a datagram.
    cc.round_lost = 1_000;
    cc.round_delivered = 99_000;
    cc.update_inflight_hi(1_000);
    assert_eq!(cc.inflight_hi, 4800 + 99_000);
    cc.round_lost = 0;
    cc.round_delivered = 1;
    cc.update_inflight_hi(1_000);
    assert_eq!(cc.inflight_hi, 4800 + 99_000 + 1200);
    // In PROBE_BW a clean round leaves it to the cycle.
    cc.mode = Mode::ProbeBw;
    cc.update_inflight_hi(1_000);
    assert_eq!(cc.inflight_hi, 4800 + 99_000 + 1200);
}

#[test]
fn short_term_bound_collapses_step_by_step() {
    let mut cc = controller();
    cc.update_inflight_lo();
    assert_eq!(cc.inflight_lo, u64::MAX);
    cc.loss_bursts_in_round = 1;
    cc.update_inflight_lo();
    assert_eq!(cc.inflight_lo, (0.7f32 * 240_000f32) as u64);
    assert_eq!(cc.inflight_lo, 168_000);
    cc.update_inflight_lo();
    assert_eq!(cc.inflight_lo, (0.7f32 * 168_000f32) as u64);
    cc.inflight_latest = 150_000;
    cc.update_inflight_lo();
    assert_eq!(cc.inflight_lo, 150_000);
}

#[test]
fn headroom_is_a_part_of_the_ceiling() {
    let mut cc = controller();
    assert_eq!(cc.inflight_with_headroom(), u64::MAX);
    cc.inflight_hi = 100_000;
    assert_eq!(cc.inflight_with_headroom(), 85_000);
    cc.inflight_hi = 5_000;
    assert_eq!(cc.inflight_with_headroom(), 4800);
}

#[test]
fn ceiling_grows_by_a_datagram_per_count() {
    let mut cc = steady();
    cc.inflight_hi = 100_000;
    cc.bw_probe_up_cnt = 3_000;
    cc.bw_probe_up_acks = 500;
    cc.probe_inflight_hi_upward(8_000, false);
    assert_eq!(cc.inflight_hi, 100_000 + 2 * 1200);
    assert_eq!(cc.bw_probe_up_acks, 2_500);
    cc.probe_inflight_hi_upward(499, false);
    assert_eq!(cc.inflight_hi, 100_000 + 2 * 1200);
    assert_eq!(cc.bw_probe_up_acks, 2_999);
    // A disengaged ceiling stays so.
    cc.inflight_hi = u64::MAX;
    cc.probe_inflight_hi_upward(1, false);
    assert_eq!(cc.inflight_hi, u64::MAX);
    assert_eq!(cc.bw_probe_up_acks, 0);
    // It saturates.
    cc.inflight_hi = u64::MAX - 1;
    cc.probe_inflight_hi_upward(3_000, false);
    assert_eq!(cc.inflight_hi, u64::MAX);
    // No count, no growth.
    cc.inflight_hi = 7;
    cc.bw_probe_up_cnt = 0;
    cc.probe_inflight_hi_upward(3_000, false);
    assert_eq!(cc.inflight_hi, 7);
    assert_eq!(cc.bw_probe_up_acks, 3_000);
}

#[test]
fn slope_doubles_each_round() {
    let mut cc = steady();
    cc.cwnd = 240_000;
    let mut counts = Vec::new();
    for _ in 0..40 {
        cc.raise_inflight_hi_slope();
        counts.push(cc.bw_probe_up_cnt);
    }
    assert_eq!(counts[0], 240_000);
    assert_eq!(counts[1], 120_000);
    assert_eq!(counts[7], 1875);
    assert_eq!(counts[8], 1200);
    assert_eq!(counts[39], 1200);
    assert_eq!(cc.bw_probe_up_rounds, 30);
    cc.cwnd = u64::MAX;
    cc.raise_inflight_hi_slope();
    assert_eq!(cc.bw_probe_up_cnt, u64::MAX >> 30);
}

#[test]
fn bounds_adapt_to_the_sample() {
    // Without an engaged ceiling there is nothing to raise.
    let mut cc = steady();
    cc.rate_sample.tx_in_flight = 90_000;
    cc.adapt_upper_bounds(at(1), 1000, false);
    assert_eq!(cc.inflight_hi, u64::MAX);
    // It is raised to what was in flight.
    cc.inflight_hi = 50_000;
    cc.adapt_upper_bounds(at(1), 1000, false);
    assert_eq!(cc.inflight_hi, 90_000);
    // Too much loss without a probe: no reaction.
    cc.loss_bursts_in_round = 2;
    cc.rate_sample.lost = 50_000;
    cc.adapt_upper_bounds(at(1), 1000, false);
    assert_eq!(cc.inflight_hi, 90_000);
    // With one: a reaction.
    cc.bw_probe_samples = true;
    cc.adapt_upper_bounds(at(1), 1000, false);
    assert_eq!(cc.inflight_hi, (0.7f32 * 200_000f32) as u64);
    assert!(!cc.bw_probe_samples);
}

#[test]
fn up_ends_above_its_target() {
    let mut cc = steady();
    cc.cycle_phase = CyclePhase::Up;
    cc.cycle_start = Some(at(0));
    cc.update_gain_cycle_phase(at(20), 300_000, false);
    assert_eq!(cc.cycle_phase, CyclePhase::Up);
    cc.update_gain_cycle_phase(at(21), 250_000, false);
    assert_eq!(cc.cycle_phase, CyclePhase::Up);
    cc.update_gain_cycle_phase(at(21), 250_001, false);
    assert_eq!(cc.cycle_phase, CyclePhase::Down);
    assert_eq!(cc.cycle_start, Some(at(21)));
}

#[test]
fn down_ends_when_drained() {
    let mut cc = steady();
    cc.rounds_since_bw_probe = 0;
    assert!(!cc.is_time_to_cruise(at(20), 200_001));
    assert!(cc.is_time_to_cruise(at(20), 200_000));
    assert!(cc.is_time_to_cruise(at(21), u64::MAX));
    cc.inflight_hi = 100_000;
    assert!(!cc.is_time_to_cruise(at(20), 85_001));
    assert!(cc.is_time_to_cruise(at(20), 85_000));
}

#[test]
fn probing_is_due_after_the_wait_or_enough_rounds() {
    let mut cc = steady();
    cc.rounds_since_bw_probe = 0;
    cc.bw_probe_wait = Duration::from_millis(2500);
    assert!(!cc.is_time_to_probe_bw(at(2499)));
    assert!(cc.is_time_to_probe_bw(at(2500)));
    // 200000 / 1200 rounds, capped at 63.
    cc.rounds_since_bw_probe = 62;
    assert!(!cc.is_reno_coexistence_probe_time());
    cc.update_gain_cycle_phase(at(1), u64::MAX, true);
    assert_eq!(cc.rounds_since_bw_probe, 63);
    assert_eq!(cc.cycle_phase, CyclePhase::Refill);
    assert_eq!(cc.inflight_lo, u64::MAX);
    // With a smaller window sooner.
    cc.cwnd = 12_000;
    cc.rounds_since_bw_probe = 9;
    assert!(!cc.is_reno_coexistence_probe_time());
    cc.rounds_since_bw_probe = 10;
    assert!(cc.is_reno_coexistence_probe_time());
}

#[test]
fn refill_clears_the_way_for_a_probe() {
    let mut cc = steady();
    cc.inflight_lo = 9;
    cc.bw_probe_up_rounds = 7;
    cc.bw_probe_up_acks = 8;
    cc.max_sent_packet_number = 33;
    cc.start_refill();
    assert_eq!(cc.inflight_lo, u64::MAX);
    assert_eq!(cc.bw_probe_up_rounds, 0);
    assert_eq!(cc.bw_probe_up_acks, 0);
    assert_eq!(cc.current_round_trip_end_packet_number, 33);
    assert_eq!(cc.pacing_gain, of(1.0));
    assert!(cc.is_probing_for_bandwidth());
    cc.update_gain_cycle_phase(at(9), 0, true);
    assert_eq!(cc.cycle_phase, CyclePhase::Up);
    assert!(cc.bw_probe_samples);
    assert_eq!(cc.bw_probe_up_rounds, 1);
    assert_eq!(cc.bw_probe_up_cnt, 240_000);
    assert_eq!(cc.cycle_start, Some(at(9)));
    cc.start_cruise();
    assert_eq!(cc.cycle_phase, CyclePhase::Cruise);
    assert!(!cc.is_probing_for_bandwidth());
}

#[test]
fn waits_are_drawn_at_random() {
    let mut cc = controller();
    let mut waits = Vec::new();
    let mut rounds = Vec::new();
    for _ in 0..200 {
        cc.start_down(at(0));
        assert!(cc.bw_probe_wait.nanos >= 2_000_000_000);
        assert!(cc.bw_probe_wait.nanos <= 3_000_000_000);
        assert_eq!(cc.bw_probe_wait.nanos % 1_000_000, 0);
        assert!(cc.rounds_since_bw_probe <= 1);
        waits.push(cc.bw_probe_wait.nanos);
        rounds.push(cc.rounds_since_bw_probe);
    }
    assert!(rounds.contains(&0));
    assert!(rounds.contains(&1));
    waits.sort();
    waits.dedup();
    assert!(waits.len() > 50);
    // Another controller draws other waits.
    let mut other = controller();
    let mut differs = false;
    for _ in 0..50 {
        cc.pick_probe_wait();
        other.pick_probe_wait();
        differs = differs || cc.bw_probe_wait != other.bw_probe_wait;
    }
    assert!(differs);
}

#[test]
fn drawn_waits_can_be_set() {
    let mut cc = controller();
    cc.set_probe_wait(1, 2345);
    assert_eq!(cc.rounds_since_bw_probe, 1);
    assert_eq!(cc.bw_probe_wait, Duration::from_millis(2345));
}

#[test]
fn clones_are_equal_and_independent() {
    let mut cc = steady();
    let mut copy = cc.clone();
    assert!(Arc::ptr_eq(&cc.config, &copy.config));
    assert_eq!(copy.cwnd, cc.cwnd);
    assert_eq!(copy.cycle_start, cc.cycle_start);
    // The generator is in the same state.
    for _ in 0..20 {
        cc.pick_probe_wait();
        copy.pick_probe_wait();
        assert_eq!(cc.bw_probe_wait, copy.bw_probe_wait);
        assert_eq!(cc.rounds_since_bw_probe, copy.rounds_since_bw_probe);
    }
    copy.on_congestion_event(at(0), at(0), true, 5);
    assert_eq!(copy.loss_state.lost_bytes, 5);
    assert_eq!(cc.loss_state.lost_bytes, 0);
}

#[test]
fn mtu_update_moves_the_minimum() {
    let mut cc = controller();
    cc.cwnd = 5000;
    cc.on_mtu_update(1500);
    assert_eq!(cc.current_mtu, 1500);
    assert_eq!(cc.min_cwnd, 6000);
    assert_eq!(cc.cwnd, 6000);
    assert_eq!(cc.init_cwnd, 240_000);
    cc.on_mtu_update(65535);
    assert_eq!(cc.min_cwnd, 262_140);
    assert_eq!(cc.init_cwnd, 262_140);
    assert_eq!(cc.initial_window(), 240_000);
}
