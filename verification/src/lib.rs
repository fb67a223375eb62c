//! Congestion control for a QUIC transport: how much data may be in flight, and at what pace.
//!
//! [`congestion`] holds the interface of a controller and the BBRv2 controller [`congestion::Bbr2`].
//! Gains and thresholds are fractions in single precision; [`float`] holds the arithmetic on them.

pub mod congestion;
pub mod float;
pub mod ints;
pub mod time;
