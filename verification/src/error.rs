use vstd::prelude::*;

verus! {

/// Errors surfaced by the session engine.
///
/// Decode failures on a single inbound packet are recovered locally by the
/// caller and never reach this type; these variants cover the conditions
/// that are reported to the application or escalated to the connection
/// manager.
#[derive(Clone, Copy, PartialEq, Eq, Structural, Debug)]
pub enum Error {
    /// The transport failed while connecting, reading or writing.
    TransportError,
    /// The broker rejected the handshake with this connect return code.
    Rejected(u8),
    /// An operation was requested in a connection state that cannot serve it.
    StateError,
    /// A packet could not be constructed before sending.
    EncodeError,
}

} // verus!
