//! A verified decoder for a length-prefixed, checksummed serial protocol
//! (an RC-receiver telemetry/actuator bus), together with the fixed-capacity
//! ring buffer that carries the raw bytes from the producing side to the
//! consuming side.
//!
//! - [`deque`] holds the ring buffer.
//! - [`ibus`] holds the message types and the non-destructive decoder, which
//!   inspects the buffer and reports how many bytes the caller must discard.
//! - [`ibusbm`] holds the consuming decoder, which discards those bytes
//!   itself, and the matching frame encoder.

pub mod deque;
pub mod ibus;
pub mod ibusbm;
