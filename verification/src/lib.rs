//! Client-side engine for an MQTT-style publish/subscribe session.
//!
//! The crate verifies the session core: handshake sequencing, keep-alive
//! supervision, acknowledgment tracking for QoS 1 and QoS 2 deliveries in
//! both directions, and the packet-identifier discipline.  Wire encoding is
//! delegated to a published codec crate behind a small trusted boundary.

pub mod codec;
pub mod engine;
pub mod error;
pub mod laws;
pub mod message;
pub mod options;
pub mod packet;
