//! The filters and counters under the controller.

use quinn_proto::congestion::bbr::bw_estimation::{BandwidthEstimation, HISTORY_LEN};
use quinn_proto::congestion::bbr2::ack_aggregation::AckAggregationState;
use quinn_proto::congestion::bbr2::round_counter::RoundCounter;
use quinn_proto::congestion::min_max::{MinMax, MinMaxSample};
use quinn_proto::time::{Duration, Instant};

fn at_micros(micros: u64) -> Instant {
    Instant { nanos: 1_000_000_000_000 + micros as u128 * 1_000 }
}

fn at_millis(millis: u64) -> Instant {
    at_micros(millis * 1_000)
}

#[test]
fn filter_holds_the_maximum_of_its_window() {
    let mut filter = MinMax::default();
    assert_eq!(filter.get(), 0);
    assert_eq!(filter.window, 10);
    filter.update_max(1, 100);
    filter.update_max(2, 80);
    filter.update_max(5, 90);
    filter.update_max(11, 70);
    assert_eq!(filter.get(), 100);
    // Round 12 is more than ten rounds after round 1.
    filter.update_max(12, 60);
    assert_eq!(filter.get(), 90);
    // Round 16 is more than ten rounds after round 5.
    filter.update_max(16, 10);
    assert_eq!(filter.get(), 70);
}

#[test]
fn filter_takes_a_new_maximum_at_once() {
    let mut filter = MinMax::default();
    filter.update_max(3, 50);
    filter.update_max(4, 50);
    let last = MinMaxSample { time: 4, value: 50 };
    assert_eq!(filter.first, last);
    assert_eq!(filter.second, last);
    assert_eq!(filter.third, last);
    filter.update_max(4, 51);
    assert_eq!(filter.get(), 51);
}

#[test]
fn filter_forgets_what_left_the_window() {
    let mut filter = MinMax::default();
    filter.update_max(1, 100);
    // Nothing is left in the window.
    filter.update_max(12, 5);
    assert_eq!(filter.get(), 5);
    filter.reset();
    assert_eq!(filter.get(), 0);
    assert_eq!(filter.first, MinMaxSample::default());
}

#[test]
fn filter_keeps_choices_of_later_quarters() {
    let mut filter = MinMax::default();
    filter.update_max(0, 100);
    // More than a quarter of the window without a better one.
    filter.update_max(3, 10);
    assert_eq!(filter.first, MinMaxSample { time: 0, value: 100 });
    assert_eq!(filter.second, MinMaxSample { time: 3, value: 10 });
    assert_eq!(filter.third, MinMaxSample { time: 3, value: 10 });
    // More than half of the window.
    filter.update_max(6, 5);
    assert_eq!(filter.second, MinMaxSample { time: 3, value: 10 });
    assert_eq!(filter.third, MinMaxSample { time: 6, value: 5 });
    // The first two choices leave the window at once.
    filter.update_max(14, 1);
    assert_eq!(filter.first, MinMaxSample { time: 6, value: 5 });
    assert_eq!(filter.second, MinMaxSample { time: 14, value: 1 });
}

#[test]
fn filter_estimate_bounds() {
    let mut filter = MinMax::default();
    let values = [7u64, 3, 9, 2, 2, 8, 1, 6, 0, 4, 5, 3, 2, 1, 1, 9, 0, 2];
    for (round, value) in values.into_iter().enumerate() {
        let before = filter.get();
        filter.update_max(round as u64, value);
        assert!(filter.get() >= value);
        assert!(filter.get() <= before.max(value));
        assert!(round as u64 - filter.first.time <= filter.window);
    }
}

#[test]
fn rounds_end_when_the_delivered_total_is_reached() {
    let mut counter = RoundCounter::default();
    counter.on_ack(0, 1200);
    assert!(counter.round_start);
    assert_eq!(counter.next_round_delivered, 1200);
    // Sent before the round started.
    counter.on_ack(600, 2400);
    assert!(!counter.round_start);
    assert_eq!(counter.next_round_delivered, 1200);
    counter.on_ack(1200, 3600);
    assert!(counter.round_start);
    assert_eq!(counter.next_round_delivered, 3600);
}

#[test]
fn round_end_only_moves_out() {
    let mut counter = RoundCounter { next_round_delivered: 1000, round_start: false };
    counter.set_round_end(400);
    assert_eq!(counter.next_round_delivered, 1000);
    counter.set_round_end(5000);
    assert_eq!(counter.next_round_delivered, 5000);
    counter.on_ack(4999, 6000);
    assert!(!counter.round_start);
    counter.on_ack(5000, 6000);
    assert!(counter.round_start);
}

#[test]
fn aggregation_counts_what_exceeds_the_bandwidth() {
    let mut state = AckAggregationState::default();
    // The first batch opens an epoch.
    assert_eq!(state.update_ack_aggregation_bytes(3000, at_millis(0), 0, 1_000_000), 0);
    assert_eq!(state.aggregation_epoch_bytes, 3000);
    assert_eq!(state.aggregation_epoch_start_time, Some(at_millis(0)));
    // After 1 ms, 1000 bytes are expected, and 3000 + 500 have come.
    assert_eq!(state.update_ack_aggregation_bytes(500, at_millis(1), 0, 1_000_000), 2500);
    assert_eq!(state.max_ack_height.get(), 2500);
    assert_eq!(state.aggregation_epoch_bytes, 3500);
    // After 4 ms, 4000 bytes are expected: the epoch is over.
    assert_eq!(state.update_ack_aggregation_bytes(700, at_millis(4), 1, 1_000_000), 0);
    assert_eq!(state.aggregation_epoch_bytes, 700);
    assert_eq!(state.aggregation_epoch_start_time, Some(at_millis(4)));
    assert_eq!(state.max_ack_height.get(), 2500);
}

#[test]
fn bandwidth_is_rated_over_the_flight() {
    let mut bw = BandwidthEstimation::default();
    bw.on_sent(at_millis(0), 1200);
    bw.on_sent(at_millis(10), 1200);
    assert_eq!(bw.total_sent, 2400);
    assert_eq!(bw.prev_total_sent, 1200);
    bw.on_ack(at_millis(40), at_millis(0), 2400, 0, false);
    // 1200 bytes in 10 ms were sent, 2400 bytes in 40 ms delivered.
    assert_eq!(bw.get_estimate(), 60_000);
    assert_eq!(bw.delivered_history.len(), 1);
    assert_eq!(bw.bytes_acked_this_window(), 2400);
    bw.end_acks(0, false);
    assert_eq!(bw.bytes_acked_this_window(), 0);
    // An ack right after the last one: what was acked before the send does not count.
    bw.on_ack(at_micros(50_001), at_millis(40), 1200, 0, false);
    assert_eq!(bw.delivered_before(at_millis(40)), 2400);
    assert_eq!(bw.get_estimate(), 119_988);
    assert_eq!(bw.total_acked, 3600);
    assert_eq!(bw.prev_total_acked, 2400);
}

#[test]
fn batched_acks_do_not_inflate_the_rate() {
    let mut bw = BandwidthEstimation::default();
    bw.on_sent(at_millis(0), 100);
    bw.on_sent(at_micros(1), 100_000);
    // Acks come a microsecond apart, for packets that were in flight for 100 ms.
    for i in 0..100 {
        bw.on_ack(at_micros(100_000 + i), at_millis(0), 1000, 0, false);
    }
    // All but the first 1000 bytes over 100.099 ms: the history starts with the first ack.
    assert_eq!(bw.get_estimate(), 989_020);
}

#[test]
fn app_limited_acks_do_not_move_the_rate() {
    let mut bw = BandwidthEstimation::default();
    bw.on_sent(at_millis(0), 1200);
    bw.on_sent(at_millis(10), 1200);
    bw.on_ack(at_millis(20), at_millis(0), 2400, 0, true);
    assert_eq!(bw.get_estimate(), 0);
    assert_eq!(bw.total_acked, 2400);
    assert_eq!(bw.delivered_history.len(), 1);
}

#[test]
fn nothing_is_rated_before_the_second_send() {
    let mut bw = BandwidthEstimation::default();
    bw.on_sent(at_millis(0), 1200);
    bw.on_ack(at_millis(20), at_millis(0), 1200, 0, false);
    assert_eq!(bw.get_estimate(), 0);
    assert_eq!(bw.delivered_history.len(), 0);
    assert_eq!(bw.acked_time, Some(at_millis(20)));
}

#[test]
fn history_is_spaced_and_bounded() {
    let mut bw = BandwidthEstimation::default();
    bw.on_sent(at_millis(0), 1);
    bw.on_sent(at_millis(1), 1);
    for i in 0..2_000 {
        bw.on_ack(at_millis(i), at_millis(0), 10, 0, true);
    }
    assert_eq!(bw.delivered_history.len(), HISTORY_LEN);
    let history: Vec<(Instant, u64)> = bw.delivered_history.iter().copied().collect();
    for pair in history.windows(2) {
        assert_eq!(pair[1].0.nanos - pair[0].0.nanos, 4_000_000);
        assert_eq!(pair[1].1 - pair[0].1, 40);
    }
    // The newest snapshot at or before the time, else the oldest.
    assert_eq!(bw.delivered_before(at_millis(1996)), 19_970);
    assert_eq!(bw.delivered_before(at_millis(1995)), 19_930);
    assert_eq!(bw.delivered_before(at_millis(0)), history[0].1);
    assert_eq!(BandwidthEstimation::default().delivered_before(at_millis(5)), 0);
}

#[test]
fn rate_over_an_empty_span_is_none() {
    assert_eq!(BandwidthEstimation::bw_from_delta(1200, Duration::from_nanos(0)), None);
    assert_eq!(BandwidthEstimation::bw_from_delta(1200, Duration::from_millis(10)), Some(120_000));
    assert_eq!(BandwidthEstimation::bw_from_delta(1, Duration::from_secs(3)), Some(0));
}

#[test]
fn spans_count_in_microseconds() {
    assert_eq!(Duration::from_secs(2), Duration::from_millis(2000));
    assert_eq!(Duration::from_micros(7), Duration::from_nanos(7000));
    assert_eq!(Duration::from_nanos(1999).low_micros(), 1);
    assert_eq!(Duration { nanos: (1 << 64) * 1000 + 5000 }.low_micros(), 5);
    assert_eq!(Duration { nanos: (1 << 64) + 3 }.low_nanos(), 3);
    assert_eq!(at_millis(5).saturating_duration_since(at_millis(2)), Duration::from_millis(3));
    assert_eq!(at_millis(2).saturating_duration_since(at_millis(5)), Duration::default());
    assert_eq!(at_millis(2).plus(Duration::from_millis(3)), at_millis(5));
}
