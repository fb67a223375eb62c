//! Rounds counted in delivered bytes.

use crate::ints::max;
use vstd::prelude::*;

verus! {

/// Delivered-bytes round counter
///
/// A round ends when a packet sent after the current round end is acked, i.e.
/// when an acked packet's `prior_delivered` reaches the connection's delivered
/// total recorded at the round start.
#[derive(Debug, Clone, Copy, PartialEq, Eq, Structural)]
pub struct RoundCounter {
    pub next_round_delivered: u64,
    pub round_start: bool,
}

impl RoundCounter {
    /// The counter after an ack batch.
    pub open spec fn acked(self, prior_delivered: u64, delivered: u64) -> RoundCounter {
        if prior_delivered >= self.next_round_delivered {
            RoundCounter { next_round_delivered: delivered, round_start: true }
        } else {
            RoundCounter { round_start: false, ..self }
        }
    }

    /// The counter with its round extended to `delivered`.
    pub open spec fn extended(self, delivered: u64) -> RoundCounter {
        RoundCounter {
            next_round_delivered: max(self.next_round_delivered, delivered),
            ..self
        }
    }

    /// Called once per ack batch with the newest sample's `prior_delivered` and the current
    /// delivered total.
    pub fn on_ack(&mut self, prior_delivered: u64, delivered: u64)
        ensures
            *final(self) == old(self).acked(prior_delivered, delivered),
    {
        if prior_delivered >= self.next_round_delivered {
            self.next_round_delivered = delivered;
            self.round_start = true;
        } else {
            self.round_start = false;
        }
    }

    /// Extend the round to the current delivered total.
    pub fn set_round_end(&mut self, delivered: u64)
        ensures
            *final(self) == old(self).extended(delivered),
    {
        self.next_round_delivered = max(self.next_round_delivered, delivered);
    }

    /// A packet sent before the round end does not end the round, and the first one that was sent
    /// at or after it does.
    pub proof fn lemma_round_ends_after_its_end(
        self,
        round_end: u64,
        prior_delivered: u64,
        delivered: u64,
    )
        ensures
            self.extended(round_end).acked(prior_delivered, delivered).round_start ==> prior_delivered
                >= round_end,
            prior_delivered >= max(self.next_round_delivered, round_end) ==> self.extended(
                round_end,
            ).acked(prior_delivered, delivered).round_start,
    {
    }

    /// What ends a round, and what the counter holds after it: the delivered total if a round
    /// starts, else what it held. Extending a round never brings its end forward.
    pub proof fn lemma_round_end(self, prior_delivered: u64, delivered: u64)
        ensures
            ({
                let next = self.acked(prior_delivered, delivered);
                let extended = self.extended(delivered);
                &&& next.round_start <==> self.next_round_delivered <= prior_delivered
                &&& next.round_start ==> next.next_round_delivered == delivered
                &&& !next.round_start ==> next.next_round_delivered == self.next_round_delivered
                &&& extended.round_start == self.round_start
                &&& extended.next_round_delivered >= delivered && extended.next_round_delivered
                    >= self.next_round_delivered
                &&& extended.next_round_delivered == delivered || extended.next_round_delivered
                    == self.next_round_delivered
            }),
    {
    }

    /// Once a round has started at a delivered total, packets sent before that total was reached
    /// start no further one.
    pub proof fn lemma_one_start_per_round(
        self,
        prior_delivered: u64,
        delivered: u64,
        prior_delivered2: u64,
        delivered2: u64,
    )
        requires
            self.acked(prior_delivered, delivered).round_start,
            prior_delivered2 < delivered,
        ensures
            !self.acked(prior_delivered, delivered).acked(prior_delivered2, delivered2).round_start,
    {
    }
}

impl Default for RoundCounter {
    fn default() -> (counter: Self)
        ensures
            counter == (RoundCounter { next_round_delivered: 0, round_start: false }),
    {
        RoundCounter { next_round_delivered: 0, round_start: false }
    }
}

} // verus!
