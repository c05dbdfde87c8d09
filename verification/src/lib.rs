//! Real-time control of addressable LED strips: the wire protocol, the pixel
//! buffer and its effects, the output sinks and the scheduling rules that tie
//! them together, with contracts that Verus checks.
//!
//! The library computes and decides; it neither waits nor sends. A loop
//! around it owns the timers and the sockets, hands each event to the
//! [`scheduler`], and carries out the reaction: it rearms timers and
//! delivers the transfers that the sinks hand out.
//!
//! Brightness is kept in fixed point, a thousand units to the step of an
//! 8-bit channel, so that a fade keeps its fractions and still ends at
//! zero. The hue rotation of the rainbow is left to the loop, which is
//! given the stored colours and the shift of each position.

pub mod color;
pub mod effects;
pub mod protocol;
pub mod sampling;
pub mod scheduler;
pub mod strip;
pub mod strip_transport;
