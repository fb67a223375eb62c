//! Bandwidth from acknowledgements.

use crate::congestion::min_max::{MinMax, MinMaxSample};
use crate::ints::{lemma_quotient_of, quotient_of};
use crate::time::{low_u64, Duration, Instant};
use std::collections::VecDeque;
use vstd::prelude::*;

verus! {

/// Snapshot spacing for `delivered_history`: 4 ms, in nanoseconds.
///
/// ~4 ms grain x 256 entries is the last second of delivery history, enough to
/// look back one full RTT on any realistic WAN path.
pub const HISTORY_GRAIN_NANOS: u128 = 4_000_000;

/// Snapshot retention for `delivered_history`.
pub const HISTORY_LEN: usize = 256;

/// A time and the bytes acknowledged by then.
pub type Snapshot = (Instant, u64);

/// Bytes per second of `bytes` bytes over `delta`; none for an empty span.
pub open spec fn rate(bytes: nat, delta: Duration) -> Option<u64> {
    if delta.nanos == 0 {
        None
    } else {
        Some(((bytes * 1_000_000_000) / (low_u64(delta.nanos as nat) as nat)) as u64)
    }
}

/// The rate can be computed in 64 bits.
pub open spec fn rate_fits(bytes: nat, delta: Duration) -> bool {
    delta.nanos == 0 || {
        &&& bytes * 1_000_000_000 <= u64::MAX
        &&& low_u64(delta.nanos as nat) != 0
    }
}

/// Bytes per second of `bytes` bytes over `delta`.
pub fn bytes_per_second(bytes: u64, delta: Duration) -> (r: Option<u64>)
    requires
        rate_fits(bytes as nat, delta),
    ensures
        r == rate(bytes as nat, delta),
{
    if delta.nanos == 0 {
        return None;
    }
    let b_ns: u64 = bytes * 1_000_000_000;
    let n: u64 = delta.low_nanos();
    let bytes_per_second: u64 = b_ns / n;
    Some(bytes_per_second)
}

/// A rate is the bytes over the span, in bytes per second and rounded down; an empty span has none.
pub proof fn lemma_rate(bytes: u64, delta: Duration)
    requires
        bytes * 1_000_000_000 <= u64::MAX,
        delta.nanos <= u64::MAX,
    ensures
        rate(bytes as nat, delta) is None <==> delta.nanos == 0,
        rate(bytes as nat, delta) matches Some(r) ==> quotient_of(
            r as int,
            bytes * 1_000_000_000,
            delta.nanos as int,
        ),
{
    if delta.nanos > 0 {
        let num = bytes * 1_000_000_000;
        let den = delta.nanos as int;
        lemma_quotient_of(num, den);
        let q = num / den;
        assert(q <= num) by (nonlinear_arith)
            requires
                q * den <= num,
                den >= 1,
                q >= 0,
        ;
        assert(low_u64(delta.nanos as nat) == delta.nanos);
        assert(((bytes as nat) * 1_000_000_000) / (delta.nanos as nat) == num / den);
    }
}

/// What a snapshot history tells of the bytes acknowledged by `t`: the total of the newest
/// snapshot at or before `t`, else that of the oldest, else zero.
pub open spec fn delivered_as_of(history: Seq<Snapshot>, t: Instant) -> u64
    decreases history.len(),
{
    if history.len() == 0 {
        0
    } else if history.len() == 1 || history.last().0.nanos <= t.nanos {
        history.last().1
    } else {
        delivered_as_of(history.drop_last(), t)
    }
}

/// The history after a snapshot `(now, total)`, unless the newest one is less than a grain old;
/// the oldest one makes room.
pub open spec fn recorded(history: Seq<Snapshot>, now: Instant, total: u64) -> Seq<Snapshot> {
    if history.len() > 0 && now.since(history.last().0).nanos < HISTORY_GRAIN_NANOS {
        history
    } else if history.len() >= HISTORY_LEN {
        history.push((now, total)).drop_first()
    } else {
        history.push((now, total))
    }
}

/// The snapshots are at least a grain apart, and their totals do not go down.
pub open spec fn ordered(history: Seq<Snapshot>) -> bool {
    forall|i: int, j: int|
        #![trigger history[i], history[j]]
        0 <= i < j < history.len() ==> {
            &&& history[i].0.nanos + HISTORY_GRAIN_NANOS <= history[j].0.nanos
            &&& history[i].1 <= history[j].1
        }
}

/// The snapshots stand in the order of their times.
pub open spec fn chronological(history: Seq<Snapshot>) -> bool {
    forall|i: int, j: int|
        #![trigger history[i], history[j]]
        0 <= i < j < history.len() ==> history[i].0.nanos <= history[j].0.nanos
}

/// Where the first `i` snapshots, and no others, are at or before `t`, the last of them counts.
proof fn lemma_newest(history: Seq<Snapshot>, t: Instant, i: int)
    requires
        chronological(history),
        0 <= i <= history.len(),
        history.len() > 0,
        forall|j: int| 0 <= j < i ==> (#[trigger] history[j]).0.nanos <= t.nanos,
        i < history.len() ==> history[i].0.nanos > t.nanos,
    ensures
        delivered_as_of(history, t) == history[if i == 0 {
            0
        } else {
            i - 1
        }].1,
    decreases history.len(),
{
    if i < history.len() && history.len() > 1 {
        assert(history[i].0.nanos <= history.last().0.nanos);
        lemma_newest(history.drop_last(), t, i);
    }
}

/// The snapshot that counts for `t` is the newest at or before it: a snapshot that `t` does not
/// precede, and whose successor it does. With none so old, it is the oldest one, and without any,
/// nothing was acknowledged.
pub proof fn lemma_newest_counts(history: Seq<Snapshot>, t: Instant, i: int)
    requires
        chronological(history),
        0 <= i < history.len(),
    ensures
        history[i].0.nanos <= t.nanos && (i + 1 == history.len() || history[i + 1].0.nanos
            > t.nanos) ==> delivered_as_of(history, t) == history[i].1,
        history[0].0.nanos > t.nanos ==> delivered_as_of(history, t) == history[0].1,
        delivered_as_of(Seq::empty(), t) == 0,
{
    if history[i].0.nanos <= t.nanos && (i + 1 == history.len() || history[i + 1].0.nanos
        > t.nanos) {
        assert forall|j: int| 0 <= j < i + 1 implies (#[trigger] history[j]).0.nanos <= t.nanos by {
            if j < i {
                assert(history[j].0.nanos <= history[i].0.nanos);
            }
        }
        lemma_newest(history, t, i + 1);
    }
    if history[0].0.nanos > t.nanos {
        lemma_newest(history, t, 0);
    }
}

/// A snapshot is taken of the time and the total once the newest one is 4 ms old; it becomes the
/// newest one, and the others stay, but for the oldest where there would be more than 256.
pub proof fn lemma_recorded(history: Seq<Snapshot>, now: Instant, total: u64)
    requires
        history.len() <= 256,
    ensures
        ({
            let next = recorded(history, now, total);
            let fresh = history.len() > 0 && now.nanos < history.last().0.nanos + 4_000_000;
            let dropped = if history.len() == 256 {
                1int
            } else {
                0
            };
            &&& fresh ==> next == history
            &&& !fresh ==> {
                &&& next.len() == history.len() + 1 - dropped
                &&& next.last() == (now, total)
                &&& forall|i: int|
                    0 <= i < next.len() - 1 ==> #[trigger] next[i] == history[i + dropped]
            }
        }),
{
}

/// No snapshot at or before `t` is missed: what is taken as acknowledged by `t` is no less than any
/// of their totals.
pub proof fn lemma_snapshots_count(history: Seq<Snapshot>, t: Instant, i: int)
    requires
        ordered(history),
        0 <= i < history.len(),
        history[i].0.nanos <= t.nanos,
    ensures
        delivered_as_of(history, t) >= history[i].1,
    decreases history.len(),
{
    if history.len() > 1 && history.last().0.nanos > t.nanos {
        lemma_snapshots_count(history.drop_last(), t, i);
    }
}

/// A delivery-rate estimate.
#[derive(Debug, Clone)]
pub struct BandwidthEstimation {
    pub total_acked: u64,
    pub prev_total_acked: u64,
    pub acked_time: Option<Instant>,
    pub prev_acked_time: Option<Instant>,
    pub total_sent: u64,
    pub prev_total_sent: u64,
    pub sent_time: Option<Instant>,
    pub prev_sent_time: Option<Instant>,
    pub max_filter: MinMax,
    pub acked_at_last_window: u64,
    /// Snapshots ~4 ms apart covering the last ~1 s, so an ack can be rated over the acked
    /// packet's whole flight time instead of the gap since the previous ack event.
    pub delivered_history: VecDeque<(Instant, u64)>,
}

impl Default for BandwidthEstimation {
    fn default() -> (b: Self)
        ensures
            b.total_acked == 0,
            b.prev_total_acked == 0,
            b.acked_time is None,
            b.prev_acked_time is None,
            b.total_sent == 0,
            b.prev_total_sent == 0,
            b.sent_time is None,
            b.prev_sent_time is None,
            b.max_filter.window == 10,
            b.max_filter == b.max_filter.filled(MinMaxSample { time: 0, value: 0 }),
            b.acked_at_last_window == 0,
            b.delivered_history@ == Seq::<Snapshot>::empty(),
            b.wf(),
    {
        BandwidthEstimation {
            total_acked: 0,
            prev_total_acked: 0,
            acked_time: None,
            prev_acked_time: None,
            total_sent: 0,
            prev_total_sent: 0,
            sent_time: None,
            prev_sent_time: None,
            max_filter: MinMax::default(),
            acked_at_last_window: 0,
            delivered_history: VecDeque::new(),
        }
    }
}

impl BandwidthEstimation {
    pub open spec fn wf(self) -> bool {
        &&& self.prev_total_sent <= self.total_sent
        &&& self.prev_total_acked <= self.total_acked
        &&& self.acked_at_last_window <= self.total_acked
        &&& self.max_filter.wf()
        &&& self.delivered_history@.len() <= HISTORY_LEN
        &&& ordered(self.delivered_history@)
        &&& forall|i: int|
            0 <= i < self.delivered_history@.len() ==> (#[trigger] self.delivered_history@[i]).1
                <= self.total_acked
    }

    /// The state after `bytes` bytes were sent.
    pub open spec fn sent(self, now: Instant, bytes: u64) -> BandwidthEstimation {
        BandwidthEstimation {
            prev_total_sent: self.total_sent,
            total_sent: (self.total_sent + bytes) as u64,
            prev_sent_time: self.sent_time,
            sent_time: Some(now),
            ..self
        }
    }

    pub fn on_sent(&mut self, now: Instant, bytes: u64)
        requires
            old(self).wf(),
            old(self).total_sent + bytes <= u64::MAX,
        ensures
            *final(self) == old(self).sent(now, bytes),
            final(self).wf(),
    {
        self.prev_total_sent = self.total_sent;
        self.total_sent = self.total_sent + bytes;
        self.prev_sent_time = self.sent_time;
        self.sent_time = Some(now);
    }

    /// Both sends took place, the second after the first.
    pub open spec fn has_send_span(self) -> bool {
        &&& self.prev_sent_time is Some
        &&& self.sent_time is Some
        &&& self.sent_time->0.nanos > self.prev_sent_time->0.nanos
    }

    /// The rate of the last send; no limit where there is nothing to rate.
    pub open spec fn send_rate(self) -> u64 {
        if self.has_send_span() {
            match rate(
                (self.total_sent - self.prev_total_sent) as nat,
                self.sent_time->0.since(self.prev_sent_time->0),
            ) {
                Some(r) => r,
                None => 0,
            }
        } else {
            u64::MAX
        }
    }

    /// Bytes that were acknowledged during the flight of a packet sent at `sent`, as of `total`.
    pub open spec fn delivered_in_flight(self, sent: Instant, total: nat) -> nat {
        let before = delivered_as_of(self.delivered_history@, sent);
        if total >= before {
            (total - before) as nat
        } else {
            0
        }
    }

    /// The rate over the flight of the acknowledged packet.
    pub open spec fn ack_rate(self, now: Instant, sent: Instant, total: nat) -> u64 {
        match rate(self.delivered_in_flight(sent, total), now.since(sent)) {
            Some(r) => r,
            None => 0,
        }
    }

    /// The smaller of the two rates.
    pub open spec fn sampled_bandwidth(self, now: Instant, sent: Instant, total: nat) -> u64 {
        let a = self.ack_rate(now, sent, total);
        if self.send_rate() < a {
            self.send_rate()
        } else {
            a
        }
    }

    /// The acknowledgement can be counted and rated in 64 bits.
    pub open spec fn ack_fits(self, now: Instant, sent: Instant, bytes: u64) -> bool {
        let total = (self.total_acked + bytes) as nat;
        &&& total <= u64::MAX
        &&& self.prev_sent_time is Some ==> {
            &&& self.has_send_span() ==> rate_fits(
                (self.total_sent - self.prev_total_sent) as nat,
                self.sent_time->0.since(self.prev_sent_time->0),
            )
            &&& rate_fits(self.delivered_in_flight(sent, total), now.since(sent))
        }
    }

    /// The state with `bytes` acknowledged bytes counted.
    pub open spec fn counted(self, now: Instant, bytes: u64) -> BandwidthEstimation {
        BandwidthEstimation {
            prev_total_acked: self.total_acked,
            total_acked: (self.total_acked + bytes) as u64,
            prev_acked_time: self.acked_time,
            acked_time: Some(now),
            ..self
        }
    }

    /// The history after `bytes` acknowledged bytes: nothing is recorded before the second send.
    pub open spec fn remembered(self, now: Instant, bytes: u64) -> Seq<Snapshot> {
        if self.prev_sent_time is Some {
            recorded(self.delivered_history@, now, (self.total_acked + bytes) as u64)
        } else {
            self.delivered_history@
        }
    }

    /// The filter after an acknowledgement of `bytes` bytes that were sent at `sent`: a sample that
    /// is not app-limited counts where it is above the estimate.
    pub open spec fn filtered(
        self,
        now: Instant,
        sent: Instant,
        bytes: u64,
        round: u64,
        app_limited: bool,
    ) -> MinMax {
        let bandwidth = self.sampled_bandwidth(now, sent, (self.total_acked + bytes) as nat);
        if self.prev_sent_time is Some && !app_limited && self.max_filter.first.value < bandwidth {
            self.max_filter.updated(round, bandwidth)
        } else {
            self.max_filter
        }
    }

    /// Takes in an acknowledgement of `bytes` bytes that were sent at `sent`.
    ///
    /// The delivery rate is sampled over the acked packet's flight time
    /// (draft-cheng-iccrg-delivery-rate-estimation), not over the gap since the previous ack
    /// event: when many connections share one receiver socket, acks arrive in bursts with
    /// microsecond gaps, and samples over those gaps exceed the real rate many times. What the
    /// path delivered in a round trip, ack batching cannot inflate.
    pub fn on_ack(&mut self, now: Instant, sent: Instant, bytes: u64, round: u64, app_limited: bool)
        requires
            old(self).wf(),
            old(self).ack_fits(now, sent, bytes),
        ensures
            ({
                let total = (old(self).total_acked + bytes) as u64;
                let bandwidth = old(self).sampled_bandwidth(now, sent, total as nat);
                let rated = old(self).prev_sent_time is Some;
                &&& final(self).prev_total_acked == old(self).total_acked
                &&& final(self).total_acked == total
                &&& final(self).prev_acked_time == old(self).acked_time
                &&& final(self).acked_time == Some(now)
                &&& final(self).total_sent == old(self).total_sent
                &&& final(self).prev_total_sent == old(self).prev_total_sent
                &&& final(self).sent_time == old(self).sent_time
                &&& final(self).prev_sent_time == old(self).prev_sent_time
                &&& final(self).acked_at_last_window == old(self).acked_at_last_window
                &&& *final(self) == BandwidthEstimation {
                    delivered_history: final(self).delivered_history,
                    max_filter: final(self).max_filter,
                    ..old(self).counted(now, bytes)
                }
                &&& final(self).delivered_history@ == if rated {
                    recorded(old(self).delivered_history@, now, total)
                } else {
                    old(self).delivered_history@
                }
                &&& final(self).delivered_history@ == old(self).remembered(now, bytes)
                &&& final(self).max_filter == if rated && !app_limited
                    && old(self).max_filter.first.value < bandwidth {
                    old(self).max_filter.updated(round, bandwidth)
                } else {
                    old(self).max_filter
                }
                &&& final(self).max_filter == old(self).filtered(
                    now,
                    sent,
                    bytes,
                    round,
                    app_limited,
                )
            }),
            final(self).max_filter.first.value >= old(self).max_filter.first.value,
            final(self).wf(),
    {
        self.prev_total_acked = self.total_acked;
        self.total_acked = self.total_acked + bytes;
        self.prev_acked_time = self.acked_time;
        self.acked_time = Some(now);

        let prev_sent_time: Instant = match self.prev_sent_time {
            Some(prev_sent_time) => prev_sent_time,
            None => {
                return ;
            },
        };

        let send_rate: u64 = match self.sent_time {
            Some(sent_time) => if sent_time.nanos > prev_sent_time.nanos {
                Self::bw_from_delta(
                    self.total_sent - self.prev_total_sent,
                    sent_time.saturating_duration_since(prev_sent_time),
                ).unwrap_or(0)
            } else {
                u64::MAX
            },
            None => u64::MAX,  // will take the min of send and ack, so this is just a skip
        };

        let delivered_at_send: u64 = self.delivered_before(sent);
        let ack_rate: u64 = if now.nanos > sent.nanos {
            Self::bw_from_delta(
                self.total_acked.saturating_sub(delivered_at_send),
                now.saturating_duration_since(sent),
            ).unwrap_or(0)
        } else {
            0
        };

        // Snapshot AFTER sampling, throttled to the history grain.
        let n: usize = self.delivered_history.len();
        let fresh: bool = n > 0 && now.saturating_duration_since(
            self.delivered_history[n - 1].0,
        ).nanos < HISTORY_GRAIN_NANOS;
        if !fresh {
            self.delivered_history.push_back((now, self.total_acked));
            if self.delivered_history.len() > HISTORY_LEN {
                let _ = self.delivered_history.pop_front();
            }
        }
        let bandwidth: u64 = if send_rate < ack_rate {
            send_rate
        } else {
            ack_rate
        };
        if !app_limited && self.max_filter.get() < bandwidth {
            self.max_filter.update_max(round, bandwidth);
        }
    }

    /// `total_acked` as of the newest snapshot at or before `t`.
    ///
    /// Falls back to the oldest snapshot when history doesn't reach back to
    /// `t` (short-lived underestimate, the safe direction), and to 0 when empty
    /// (connection start: everything delivered happened within this flight).
    pub fn delivered_before(&self, t: Instant) -> (total: u64)
        requires
            chronological(self.delivered_history@),
        ensures
            total == delivered_as_of(self.delivered_history@, t),
    {
        let n: usize = self.delivered_history.len();
        if n == 0 {
            return 0;
        }
        let mut best: u64 = self.delivered_history[0].1;
        let mut i: usize = 0;
        while i < n && self.delivered_history[i].0.nanos <= t.nanos
            invariant
                0 <= i <= n,
                n == self.delivered_history@.len(),
                n > 0,
                forall|j: int|
                    0 <= j < i ==> (#[trigger] self.delivered_history@[j]).0.nanos <= t.nanos,
                best == self.delivered_history@[if i == 0 {
                    0
                } else {
                    i - 1
                }].1,
            decreases n - i,
        {
            best = self.delivered_history[i].1;
            i = i + 1;
        }
        proof {
            lemma_newest(self.delivered_history@, t, i as int);
        }
        best
    }

    /// Bytes acknowledged since the last window ended.
    pub open spec fn acked_this_window(self) -> int {
        self.total_acked - self.acked_at_last_window
    }

    /// The state at the end of a window.
    pub open spec fn window_ended(self) -> BandwidthEstimation {
        BandwidthEstimation { acked_at_last_window: self.total_acked, ..self }
    }

    pub fn bytes_acked_this_window(&self) -> (bytes: u64)
        requires
            self.wf(),
        ensures
            bytes == self.acked_this_window(),
    {
        self.total_acked - self.acked_at_last_window
    }

    pub fn end_acks(&mut self, _current_round: u64, _app_limited: bool)
        requires
            old(self).wf(),
        ensures
            *final(self) == old(self).window_ended(),
            final(self).wf(),
    {
        self.acked_at_last_window = self.total_acked;
    }

    /// The estimate in bytes per second.
    pub fn get_estimate(&self) -> (estimate: u64)
        ensures
            estimate == self.max_filter.first.value,
    {
        self.max_filter.get()
    }

    /// Two sends leave behind their times, and between them the bytes of the second one.
    pub proof fn lemma_two_sends(self, now: Instant, bytes: u64, later: Instant, more: u64)
        requires
            self.total_sent + bytes + more <= u64::MAX,
        ensures
            ({
                let next = self.sent(now, bytes).sent(later, more);
                &&& next.prev_sent_time == Some(now)
                &&& next.sent_time == Some(later)
                &&& next.total_sent == self.total_sent + bytes + more
                &&& next.total_sent - next.prev_total_sent == more
                &&& next == BandwidthEstimation {
                    prev_sent_time: next.prev_sent_time,
                    sent_time: next.sent_time,
                    total_sent: next.total_sent,
                    prev_total_sent: next.prev_total_sent,
                    ..self
                }
            }),
    {
    }

    /// An acknowledgement is remembered with its bytes counted, once two sends have taken place and 4 ms
    /// after the last one remembered.
    pub proof fn lemma_acks_are_remembered(self, now: Instant, bytes: u64)
        requires
            self.wf(),
            self.total_acked + bytes <= u64::MAX,
        ensures
            ({
                let history = self.delivered_history@;
                let next = self.remembered(now, bytes);
                let due = history.len() == 0 || now.nanos >= history.last().0.nanos + 4_000_000;
                &&& self.prev_sent_time is None || !due ==> next == history
                &&& self.prev_sent_time is Some && due ==> {
                    &&& next.len() > 0
                    &&& next.last().0 == now
                    &&& next.last().1 == self.total_acked + bytes
                }
            }),
    {
        lemma_recorded(self.delivered_history@, now, (self.total_acked + bytes) as u64);
    }

    /// Acknowledged bytes add up over a window, and the end of a window starts the count over; nothing
    /// else of the totals changes.
    pub proof fn lemma_acks_add_up(self, now: Instant, bytes: u64, later: Instant, more: u64)
        requires
            self.wf(),
            self.total_acked + bytes + more <= u64::MAX,
        ensures
            ({
                let next = self.counted(now, bytes).counted(later, more);
                &&& next.acked_this_window() == self.acked_this_window() + bytes + more
                &&& next.total_acked == self.total_acked + bytes + more
                &&& next.total_acked - next.prev_total_acked == more
                &&& next.prev_acked_time == Some(now)
                &&& next.acked_time == Some(later)
                &&& next.window_ended().acked_this_window() == 0
                &&& next.window_ended().total_acked == next.total_acked
                &&& next.window_ended() == BandwidthEstimation {
                    acked_at_last_window: next.total_acked,
                    ..next
                }
            }),
    {
    }

    /// A sample is the rate of the last send or the rate at which the flight was acknowledged,
    /// whichever is lower. Two sends at one time set no limit, and an acknowledgement at the time of
    /// its send rates nothing.
    pub proof fn lemma_sample_is_the_lower_rate(self, now: Instant, sent: Instant, total: u64)
        requires
            self.wf(),
            self.sent_time is Some,
            self.prev_sent_time is Some,
            self.sent_time->0.nanos - self.prev_sent_time->0.nanos <= u64::MAX,
            now.nanos - sent.nanos <= u64::MAX,
            (self.total_sent - self.prev_total_sent) * 1_000_000_000 <= u64::MAX,
            self.delivered_in_flight(sent, total as nat) * 1_000_000_000 <= u64::MAX,
        ensures
            ({
                let sample = self.sampled_bandwidth(now, sent, total as nat);
                let apart = self.sent_time->0.nanos - self.prev_sent_time->0.nanos;
                let flight = now.nanos - sent.nanos;
                let bytes = (self.total_sent - self.prev_total_sent) * 1_000_000_000;
                let before = delivered_as_of(self.delivered_history@, sent);
                let acked = if total >= before {
                    (total - before) * 1_000_000_000
                } else {
                    0
                };
                &&& flight <= 0 ==> sample == 0
                &&& flight > 0 ==> sample * flight <= acked
                &&& apart > 0 ==> sample * apart <= bytes
                &&& flight > 0 ==> {
                    ||| quotient_of(sample as int, acked, flight)
                    ||| apart > 0 && quotient_of(sample as int, bytes, apart)
                }
            }),
    {
        let apart = self.sent_time->0.nanos - self.prev_sent_time->0.nanos;
        let flight = now.nanos - sent.nanos;
        let sample = self.sampled_bandwidth(now, sent, total as nat);
        let by_send = self.send_rate();
        let by_ack = self.ack_rate(now, sent, total as nat);
        let bytes = (self.total_sent - self.prev_total_sent) * 1_000_000_000;
        let acked = self.delivered_in_flight(sent, total as nat) * 1_000_000_000;
        assert(self.delivered_in_flight(sent, total as nat) <= u64::MAX);
        if apart > 0 {
            lemma_rate(
                (self.total_sent - self.prev_total_sent) as u64,
                self.sent_time->0.since(self.prev_sent_time->0),
            );
            assert(quotient_of(by_send as int, bytes, apart));
            assert(sample * apart <= by_send * apart) by (nonlinear_arith)
                requires
                    sample <= by_send,
                    apart > 0,
            ;
        }
        if flight > 0 {
            lemma_rate(self.delivered_in_flight(sent, total as nat) as u64, now.since(sent));
            assert(quotient_of(by_ack as int, acked as int, flight));
            assert(sample * flight <= by_ack * flight) by (nonlinear_arith)
                requires
                    sample <= by_ack,
                    flight > 0,
            ;
        }
    }

    /// A sample above the estimate becomes the estimate, unless it is app-limited or nothing was sent
    /// before; any other leaves the filter alone.
    pub proof fn lemma_higher_sample_is_the_estimate(
        self,
        now: Instant,
        sent: Instant,
        bytes: u64,
        round: u64,
        app_limited: bool,
    )
        requires
            self.wf(),
            self.total_acked + bytes <= u64::MAX,
        ensures
            ({
                let sample = self.sampled_bandwidth(
                    now,
                    sent,
                    (self.total_acked + bytes) as nat,
                );
                let next = self.filtered(now, sent, bytes, round, app_limited);
                let counts = self.prev_sent_time is Some && !app_limited && sample
                    > self.max_filter.first.value;
                &&& counts ==> next.first.value == sample && next.first.time == round
                &&& !counts ==> next == self.max_filter
            }),
    {
    }

    /// A sample counts only what was acknowledged during the flight of the packet: the bytes that
    /// any snapshot from before the send already held are left out, however the
    /// acknowledgements were batched.
    pub proof fn lemma_sample_is_of_the_flight(self, sent: Instant, total: nat, i: int)
        requires
            self.wf(),
            0 <= i < self.delivered_history@.len(),
            self.delivered_history@[i].0.nanos <= sent.nanos,
            total >= self.total_acked,
        ensures
            self.delivered_in_flight(sent, total) <= total - self.delivered_history@[i].1,
    {
        lemma_snapshots_count(self.delivered_history@, sent, i);
        assert(self.delivered_history@[i].1 <= self.total_acked);
    }

    /// Bytes per second of `bytes` bytes over `delta`.
    pub fn bw_from_delta(bytes: u64, delta: Duration) -> (r: Option<u64>)
        requires
            rate_fits(bytes as nat, delta),
        ensures
            r == rate(bytes as nat, delta),
    {
        bytes_per_second(bytes, delta)
    }
}

} // verus!
