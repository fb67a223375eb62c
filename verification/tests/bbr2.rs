//! Deterministic state-machine tests for the BBRv2 machinery
//! (`inflight_lo`, the 4-phase PROBE_BW cycle, the min(cwnd, hi, lo)
//! window clamp, and the real-sample loss-burst gating). Each
//! test encodes WHY the behavior matters (fairness / correctness), not
//! just the mechanical transition.

use quinn_proto::congestion::bbr2::{Bbr2, Bbr2Config, CyclePhase, Mode};
use quinn_proto::congestion::{Controller, ControllerFactory, LossSample, RateSample};
use quinn_proto::float::F32;
use quinn_proto::time::{Duration, Instant};
use std::sync::Arc;

const MTU: u16 = 1200;

fn controller() -> Bbr2 {
    Bbr2::new(Arc::new(Bbr2Config::default()), MTU)
}

fn start() -> Instant {
    Instant { nanos: 1_000_000_000_000 }
}

fn number(x: F32) -> f32 {
    f32::from_bits(x.bits)
}

/// Put the controller in a steady PROBE_BW state with a known bandwidth
/// and min_rtt so cycle/bound math is deterministic. `bw` is bytes/sec,
/// `rtt` the path min RTT. Seeds the max-bw filter directly (round 0).
fn prime_steady(cc: &mut Bbr2, bw: u64, rtt: Duration, now: Instant) {
    cc.min_rtt = rtt;
    cc.max_bw_filter.update_max(0, bw);
    cc.is_at_full_bandwidth = true;
    cc.mode = Mode::ProbeBw;
    cc.start_down(now);
}

fn loss_sample(bytes: u64, tx_in_flight: u64, lost: u64, new_loss_burst: bool) -> LossSample {
    LossSample {
        bytes,
        tx_in_flight,
        lost,
        delivered: 0,
        is_app_limited: false,
        new_loss_burst,
    }
}

// (1) STARTUP exits to DRAIN once the pipe is detected full. DRAIN is the
// step that stops the exponential STARTUP ramp; without it the flow never
// stops overshooting.
#[test]
fn startup_exits_to_drain_on_full_pipe() {
    let mut cc = controller();
    let now = start();
    assert_eq!(cc.mode, Mode::Startup);
    // Not full yet: stays in Startup.
    cc.maybe_exit_startup_or_drain(now, u64::MAX);
    assert_eq!(
        cc.mode,
        Mode::Startup,
        "must not leave Startup before full pipe"
    );
    // Full-pipe detected -> Drain, with the draining pacing gain (< 1.0).
    cc.is_at_full_bandwidth = true;
    cc.maybe_exit_startup_or_drain(now, u64::MAX);
    assert_eq!(
        cc.mode,
        Mode::Drain,
        "full pipe must transition Startup -> Drain"
    );
    assert!(
        number(cc.pacing_gain) < 1.0,
        "Drain must pace below 1.0 to drain the queue"
    );
}

// (2a) A round whose loss rate exceeds the threshold ratchets the
// persistent inflight_hi ceiling DOWN. This is the yield-under-congestion
// mechanism for STARTUP/DRAIN.
#[test]
fn congestion_round_ratchets_inflight_hi_down() {
    let mut cc = controller();
    cc.mode = Mode::Startup; // exercise the STARTUP/DRAIN ceiling path
    let in_flight = 100 * MTU as u64;
    // A round that lost 10% (>> 2% thresh) of (lost+delivered).
    cc.round_delivered = 90 * MTU as u64;
    cc.round_lost = 10 * MTU as u64;
    cc.update_inflight_hi(in_flight);
    assert!(
        cc.inflight_hi < u64::MAX,
        "lossy round must engage the ceiling"
    );
    assert!(
        cc.inflight_hi <= in_flight,
        "ceiling must be at or below the outstanding volume, got {} vs {}",
        cc.inflight_hi,
        in_flight
    );
    assert!(
        cc.inflight_hi >= cc.min_cwnd,
        "ceiling must never drop below min window"
    );
}

// (2b) A clean round while probing in PROBE_BW:UP raises inflight_hi
// (probes for more bandwidth once congestion clears, i.e. throughput
// recovery). Driven by the real rate sample: tx_in_flight and per-ack
// delivered bytes.
#[test]
fn clean_probe_up_round_raises_inflight_hi() {
    let mut cc = controller();
    let now = start();
    prime_steady(&mut cc, 10_000_000, Duration::from_millis(20), now);
    // Force UP with an engaged ceiling that cwnd is fully using.
    cc.cycle_phase = CyclePhase::Up;
    cc.inflight_hi = 50 * MTU as u64;
    cc.cwnd = 60 * MTU as u64;
    cc.bw_probe_samples = true;
    cc.bw_probe_up_cnt = 1; // make growth fire on the acked bytes below
    cc.cwnd_limited_in_round = true; // probe-up gate
    // Clean rate sample (no loss since the acked packet's send).
    cc.rate_sample = RateSample {
        tx_in_flight: 45 * MTU as u64,
        lost: 0,
        ..RateSample::default()
    };
    let before = cc.inflight_hi;
    // Clean batch: adapt_upper_bounds grows the ceiling.
    cc.adapt_upper_bounds(now, 20 * MTU as u64, true);
    assert!(
        cc.inflight_hi > before,
        "clean PROBE_BW:UP batch must raise inflight_hi ({} !> {})",
        cc.inflight_hi,
        before
    );
}

// (3) PROBE_BW visits its phases in the canonical order Down -> Cruise ->
// Refill -> Up. The DOWN phase (gain 0.9) is what creates headroom for the
// competing flow; the order is what makes the cycle converge to fairness.
#[test]
fn probe_bw_cycles_down_cruise_refill_up() {
    let mut cc = controller();
    let t0 = start();
    let rtt = Duration::from_millis(10);
    prime_steady(&mut cc, 10_000_000, rtt, t0);
    // bw_probe_wait must exceed min_rtt so DOWN reaches CRUISE (min_rtt
    // elapsed) before it would jump to REFILL (bw_probe_wait elapsed).
    // start_down randomized it to 2..3s; pin it for determinism.
    cc.bw_probe_wait = Duration::from_millis(50);
    cc.rounds_since_bw_probe = 0; // pin the randomized reno-coexistence seed
    assert_eq!(cc.cycle_phase, CyclePhase::Down, "PROBE_BW starts in Down");

    // Advance past min_rtt but not past bw_probe_wait, low inflight -> Cruise.
    let t1 = t0.plus(Duration::from_millis(15));
    cc.update_gain_cycle_phase(t1, cc.min_cwnd, false);
    assert_eq!(
        cc.cycle_phase,
        CyclePhase::Cruise,
        "Down -> Cruise after min_rtt"
    );

    // Advance past bw_probe_wait -> Refill.
    let t2 = t0.plus(Duration::from_millis(60));
    cc.update_gain_cycle_phase(t2, cc.min_cwnd, false);
    assert_eq!(
        cc.cycle_phase,
        CyclePhase::Refill,
        "Cruise -> Refill after bw_probe_wait"
    );

    // One round-start in Refill -> Up.
    cc.update_gain_cycle_phase(t2, cc.min_cwnd, true);
    assert_eq!(cc.cycle_phase, CyclePhase::Up, "Refill -> Up after one round");
    assert!(
        (number(cc.pacing_gain) - 1.25).abs() < 1e-6,
        "Up must pace at 1.25"
    );
}

// (3b) The DOWN phase paces below the bottleneck rate (0.9): this is the
// concrete yielding gain that leaves room for the competing flow.
#[test]
fn down_phase_paces_below_one() {
    assert!(number(CyclePhase::Down.pacing_gain()) < 1.0);
    assert_eq!(number(CyclePhase::Cruise.pacing_gain()), 1.0);
    assert_eq!(number(CyclePhase::Refill.pacing_gain()), 1.0);
    assert!(number(CyclePhase::Up.pacing_gain()) > 1.0);
}

// (4) window() is never below the minimum window, no matter how far the
// loss-driven bounds have collapsed. A window below min_cwnd would stall
// the connection entirely.
#[test]
fn window_never_below_min() {
    let mut cc = controller();
    // Collapse both bounds to (near) zero.
    cc.inflight_hi = 1;
    cc.inflight_lo = 1;
    cc.cwnd = 1;
    assert_eq!(cc.window(), cc.min_cwnd, "window must clamp up to min_cwnd");
    // Even in recovery / probe-rtt the floor holds.
    cc.mode = Mode::ProbeRtt;
    assert!(
        cc.window() >= cc.min_cwnd,
        "ProbeRtt window must respect the floor"
    );
}

// (4b) The lower bound actually participates in window(): once
// inflight_lo collapses on a loss round, window() reflects it (the flow
// yields), while still respecting the floor. The collapse floor is the
// loss round's real per-sample delivered max (inflight_latest), not the
// whole round's delivered volume.
#[test]
fn inflight_lo_collapses_window_on_loss() {
    let mut cc = controller();
    let now = start();
    cc.cwnd = 500 * MTU as u64;
    cc.inflight_hi = u64::MAX;
    // No loss yet: window == cwnd (both bounds disengaged).
    assert_eq!(cc.window(), cc.cwnd);
    // A real loss event opens the loss round (burst counted from the
    // sample, not inferred from batch timing).
    cc.on_loss_sample(now, &loss_sample(MTU as u64, 200 * MTU as u64, MTU as u64, true));
    assert!(cc.loss_in_round(), "loss sample must open the loss round");
    // The loss round's delivered ceiling observed via ack samples.
    cc.inflight_latest = 100 * MTU as u64;
    cc.update_inflight_lo();
    assert!(
        cc.inflight_lo < u64::MAX,
        "loss round must engage inflight_lo"
    );
    assert!(
        cc.window() < cc.cwnd,
        "engaged inflight_lo must reduce window below cwnd ({} !< {})",
        cc.window(),
        cc.cwnd
    );
    assert!(cc.window() >= cc.min_cwnd);
}

// (5) The factory produces independent per-connection controllers:
// cloning / building twice from one config must not share mutable state,
// or two connections would corrupt each other's congestion window.
#[test]
fn factory_builds_independent_state() {
    let cfg = Arc::new(Bbr2Config::default());
    let mut a_cc = cfg.clone().build(start(), MTU);
    let b_cc = cfg.clone().build(start(), MTU);
    // Mutate a's state via the trait, leaving b untouched.
    a_cc.on_congestion_event(start(), start(), false, 999_999);
    assert_eq!(a_cc.loss_state.lost_bytes, 999_999, "a recorded its own loss");
    assert_eq!(
        b_cc.loss_state.lost_bytes, 0,
        "b must be unaffected by a's loss"
    );
    // Same starting window, independent instances.
    assert_eq!(b_cc.window(), controller().window());
}

// (6) The PROBE_BW loss reaction is gated on >= 2 DISCRETE loss bursts
// per round: one contiguous burst must not
// collapse inflight_hi, or a single stray drop run would forfeit
// throughput.
#[test]
fn single_loss_burst_does_not_trigger_inflight_too_high() {
    let mut cc = controller();
    let now = start();
    prime_steady(&mut cc, 10_000_000, Duration::from_millis(20), now);
    cc.bw_probe_samples = true;
    let initial_hi = 200 * MTU as u64;
    cc.inflight_hi = initial_hi;
    // One burst with heavy loss (10 MTU lost of 100 MTU in flight >> 2%):
    // burst count 1 < 2, so no reaction yet.
    cc.on_loss_sample(
        now,
        &loss_sample(MTU as u64, 100 * MTU as u64, 10 * MTU as u64, true),
    );
    assert_eq!(
        cc.inflight_hi, initial_hi,
        "a single loss burst must not collapse inflight_hi"
    );
    assert!(cc.bw_probe_samples, "reaction must not have been consumed");
    // A second discrete burst crosses the burst count: react.
    cc.on_loss_sample(
        now,
        &loss_sample(MTU as u64, 100 * MTU as u64, 10 * MTU as u64, true),
    );
    assert!(
        cc.inflight_hi < initial_hi,
        "two discrete bursts above loss_thresh must pull inflight_hi down"
    );
    assert!(
        !cc.bw_probe_samples,
        "the reaction fires once per bandwidth probe"
    );
}
