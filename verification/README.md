# quinn-proto: BBRv2 congestion control, verified

A BBRv2 congestion controller for QUIC, fed by a delivery-rate sample per ack and a loss sample per
lost packet. Verus proves the contracts of the library's functions. What it believes without proof is
in `src/congestion/bbr2/random.rs`: four wrappers, of `rand`'s generator (seeding, of which nothing is
claimed; drawing from a range; cloning) and of `Arc::clone`.

* `src/congestion.rs`: the traits `Controller` and `ControllerFactory`, and the samples.
* `src/congestion/bbr2.rs` and below: the controller. `inflight` holds the bounds on what is in
  flight, `probe_bw` the PROBE_BW cycle, `window` targets, pacing and windows, `modes` the modes and
  recovery, `batch` the end of an ack batch, `controller` the events, `laws` what holds of the
  controller as a whole, `scale` what the end of a batch leaves alone, and `room` tests for room in
  the counters.
* `src/congestion/min_max.rs`: the windowed max filter.
* `src/congestion/bbr/bw_estimation.rs`: bandwidth from the flight time of acked packets.
* `src/float.rs` and below: IEEE 754 arithmetic carried out in integers, with which gains and
  thresholds are applied exactly as the machine's own floats would apply them.
* `src/time.rs`: points in time and spans, in nanoseconds.

A state of the controller is a value of `Bbr2`, and each step is stated as a function from state to
state. The random waits between bandwidth probes come from `rand`; a step that draws one is stated
for every wait that can be drawn.

`app/` puts the controllers behind trait objects, on the machine's clock and floats. `tests/` runs
the library, its arithmetic side by side with the machine's.
