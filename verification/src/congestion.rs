//! Logic for controlling the rate at which data is sent

pub mod bbr;
pub mod bbr2;
pub mod min_max;

pub use crate::congestion::bbr2::{Bbr2, Bbr2Config};

use crate::time::{Duration, Instant};
use std::sync::Arc;
use vstd::prelude::*;

verus! {

/// Smallest datagram that every path has to carry.
pub const BASE_DATAGRAM_SIZE: u64 = 1200;

/// What a controller reads of the round-trip estimate of a connection.
#[derive(Debug, Clone, Copy, PartialEq, Eq, Structural)]
pub struct RttEstimator {
    pub min: Duration,
}

impl RttEstimator {
    /// The smallest round-trip time seen.
    pub fn min(&self) -> (min: Duration)
        ensures
            min == self.min,
    {
        self.min
    }
}

/// Common interface for different congestion controllers
///
/// A controller counts bytes and packets in integers of 64 bits. For each event that it is told
/// of, it says under which condition what follows from the event can be counted.
pub trait Controller: Send + Sync {
    /// The controller's own invariant.
    spec fn wf(&self) -> bool;

    /// The controller can be told that `bytes` bytes were sent.
    spec fn sent_fits(&self, now: Instant, bytes: u64, last_packet_number: u64) -> bool;

    /// The controller can be told that `bytes` bytes were acknowledged.
    spec fn ack_fits(
        &self,
        now: Instant,
        sent: Instant,
        bytes: u64,
        app_limited: bool,
        rtt: &RttEstimator,
    ) -> bool;

    /// The controller can be told that a batch of acknowledgements is complete.
    spec fn end_acks_fits(
        &self,
        now: Instant,
        in_flight: u64,
        app_limited: bool,
        largest_packet_num_acked: Option<u64>,
    ) -> bool;

    /// The controller can be told of a congestion event.
    spec fn congestion_event_fits(
        &self,
        now: Instant,
        sent: Instant,
        is_persistent_congestion: bool,
        lost_bytes: u64,
    ) -> bool;

    /// The controller can be handed `sample`.
    spec fn ack_sample_fits(&self, now: Instant, sample: &RateSample) -> bool;

    /// The controller can be handed `sample`.
    spec fn loss_sample_fits(&self, now: Instant, sample: &LossSample) -> bool;

    /// The window can be computed.
    spec fn window_fits(&self) -> bool;

    /// The window.
    spec fn window_size(&self) -> u64;

    /// The window that the controller starts with.
    spec fn first_window(&self) -> u64;

    /// One or more packets were just sent
    fn on_sent(&mut self, now: Instant, bytes: u64, last_packet_number: u64)
        requires
            old(self).wf(),
            old(self).sent_fits(now, bytes, last_packet_number),
        ensures
            final(self).wf(),
        default_ensures
            &*final(self) == &*old(self),
    {
    }

    /// Packet deliveries were confirmed
    ///
    /// `app_limited` indicates whether the connection was blocked on outgoing
    /// application data prior to receiving these acknowledgements.
    fn on_ack(
        &mut self,
        now: Instant,
        sent: Instant,
        bytes: u64,
        app_limited: bool,
        rtt: &RttEstimator,
    )
        requires
            old(self).wf(),
            old(self).ack_fits(now, sent, bytes, app_limited, rtt),
        ensures
            final(self).wf(),
        default_ensures
            &*final(self) == &*old(self),
    {
    }

    /// Packets are acked in batches, all with the same `now` argument. This indicates one of those batches has completed.
    fn on_end_acks(
        &mut self,
        now: Instant,
        in_flight: u64,
        app_limited: bool,
        largest_packet_num_acked: Option<u64>,
    )
        requires
            old(self).wf(),
            old(self).end_acks_fits(now, in_flight, app_limited, largest_packet_num_acked),
        ensures
            final(self).wf(),
        default_ensures
            &*final(self) == &*old(self),
    {
    }

    /// Packets were deemed lost or marked congested
    ///
    /// `in_persistent_congestion` indicates whether all packets sent within the persistent
    /// congestion threshold period ending when the most recent packet in this batch was sent were
    /// lost.
    /// `lost_bytes` indicates how many bytes were lost. This value will be 0 for ECN triggers.
    fn on_congestion_event(
        &mut self,
        now: Instant,
        sent: Instant,
        is_persistent_congestion: bool,
        lost_bytes: u64,
    )
        requires
            old(self).wf(),
            old(self).congestion_event_fits(now, sent, is_persistent_congestion, lost_bytes),
        ensures
            final(self).wf(),
    ;

    /// A per-ack delivery-rate sample (draft-cheng-iccrg-delivery-rate-estimation)
    ///
    /// Called once per newly acked ack-eliciting packet, alongside
    /// [`Controller::on_ack`], with a sample computed from delivery state
    /// stamped into the packet at send time. Default no-op.
    fn on_ack_sample(&mut self, now: Instant, sample: &RateSample)
        requires
            old(self).wf(),
            old(self).ack_sample_fits(now, sample),
        ensures
            final(self).wf(),
        default_ensures
            &*final(self) == &*old(self),
    {
    }

    /// A per-loss-event sample
    ///
    /// Called once per packet declared lost (in packet-number order) with the
    /// state stamped at that packet's send time. [`Self::on_congestion_event`]
    /// is still delivered once per loss batch; this adds the per-packet
    /// granularity BBRv2-style controllers need. Default no-op.
    fn on_loss_sample(&mut self, now: Instant, sample: &LossSample)
        requires
            old(self).wf(),
            old(self).loss_sample_fits(now, sample),
        ensures
            final(self).wf(),
        default_ensures
            &*final(self) == &*old(self),
    {
    }

    /// The known MTU for the current network path has been updated
    fn on_mtu_update(&mut self, new_mtu: u16)
        requires
            old(self).wf(),
        ensures
            final(self).wf(),
    ;

    /// Number of ack-eliciting bytes that may be in flight
    fn window(&self) -> (window: u64)
        requires
            self.wf(),
            self.window_fits(),
        ensures
            window == self.window_size(),
    ;

    /// Retrieve implementation-specific metrics used to populate `qlog` traces when they are enabled
    fn metrics(&self) -> (metrics: ControllerMetrics)
        requires
            self.wf(),
            self.window_fits(),
        ensures
            metrics.congestion_window == self.window_size(),
        default_ensures
            metrics.ssthresh is None,
            metrics.pacing_rate is None,
    {
        ControllerMetrics { congestion_window: self.window(), ssthresh: None, pacing_rate: None }
    }

    /// Initial congestion window
    fn initial_window(&self) -> (window: u64)
        requires
            self.wf(),
        ensures
            window == self.first_window(),
    ;
}

/// Common congestion controller metrics
#[derive(Debug, Clone, Copy, PartialEq, Eq, Structural)]
#[non_exhaustive]
pub struct ControllerMetrics {
    /// Congestion window (bytes)
    pub congestion_window: u64,
    /// Slow start threshold (bytes)
    pub ssthresh: Option<u64>,
    /// Pacing rate (bits/s)
    pub pacing_rate: Option<u64>,
}

impl Default for ControllerMetrics {
    fn default() -> (metrics: Self)
        ensures
            metrics == (ControllerMetrics {
                congestion_window: 0,
                ssthresh: None,
                pacing_rate: None,
            }),
    {
        ControllerMetrics { congestion_window: 0, ssthresh: None, pacing_rate: None }
    }
}

/// A per-ack delivery-rate sample
/// (draft-cheng-iccrg-delivery-rate-estimation section 3.3)
///
/// "C" refers to the connection's running delivery totals, "P" to the state
/// stamped into the acked packet when it was sent.
#[derive(Debug, Clone, Copy, PartialEq, Eq, Structural)]
pub struct RateSample {
    /// Bytes delivered between the acked packet's send and its ack
    /// (`C.delivered - P.delivered`)
    pub delivered: u64,
    /// `C.delivered` when the acked packet was sent (`P.delivered`); round
    /// counters compare this against a delivered-bytes round end
    pub prior_delivered: u64,
    /// The sampling interval: `max(send_elapsed, ack_elapsed)`
    pub interval: Duration,
    /// Bytes in flight when the acked packet was sent, including that packet
    pub tx_in_flight: u64,
    /// Bytes declared lost between the acked packet's send and its ack
    /// (`C.lost - P.lost`)
    pub lost: u64,
    /// Whether the connection was app-limited when the acked packet was sent
    pub is_app_limited: bool,
    /// Bytes newly acked by this packet (the packet's size)
    pub bytes_acked: u64,
}

impl Default for RateSample {
    fn default() -> (sample: Self)
        ensures
            sample == (RateSample {
                delivered: 0,
                prior_delivered: 0,
                interval: Duration { nanos: 0 },
                tx_in_flight: 0,
                lost: 0,
                is_app_limited: false,
                bytes_acked: 0,
            }),
    {
        RateSample {
            delivered: 0,
            prior_delivered: 0,
            interval: Duration { nanos: 0 },
            tx_in_flight: 0,
            lost: 0,
            is_app_limited: false,
            bytes_acked: 0,
        }
    }
}

/// A per-loss-event sample
#[derive(Debug, Clone, Copy, PartialEq, Eq, Structural)]
pub struct LossSample {
    /// Size in bytes of the lost packet
    pub bytes: u64,
    /// Bytes in flight when the lost packet was sent, including that packet
    pub tx_in_flight: u64,
    /// Bytes declared lost between the packet's send and its loss declaration,
    /// including the packet itself (`C.lost - P.lost`)
    pub lost: u64,
    /// Total bytes delivered (`C.delivered`) when the loss was declared
    pub delivered: u64,
    /// Whether the connection was app-limited when the lost packet was sent
    pub is_app_limited: bool,
    /// Whether this packet starts a new loss burst (i.e. it is not contiguous
    /// with the previously declared lost packet)
    pub new_loss_burst: bool,
}

/// Constructs controllers on demand
pub trait ControllerFactory {
    /// The kind of controller that is constructed.
    type Built: Controller;

    /// Construct a fresh `Controller`
    fn build(self: Arc<Self>, now: Instant, current_mtu: u16) -> (controller: Self::Built)
        ensures
            controller.wf(),
    ;
}

} // verus!
