use crate::message::QoS;
use vstd::prelude::*;

verus! {

/// QoS of an inbound publish together with its packet identifier.
///
/// Level 0 publishes carry no identifier; levels 1 and 2 carry the 16-bit
/// correlation token that the acknowledgment handshake echoes back.
#[derive(Clone, Copy, PartialEq, Eq, Structural, Debug)]
pub enum QosWithId {
    /// At most once, no identifier.
    Level0,
    /// At least once, with its packet identifier.
    Level1(u16),
    /// Exactly once, with its packet identifier.
    Level2(u16),
}

impl QosWithId {
    /// The plain QoS level, with the identifier dropped.
    pub open spec fn spec_qos(self) -> QoS {
        match self {
            QosWithId::Level0 => QoS::AtMostOnce,
            QosWithId::Level1(_) => QoS::AtLeastOnce,
            QosWithId::Level2(_) => QoS::ExactlyOnce,
        }
    }

    /// The plain QoS level, with the identifier dropped.
    pub fn qos(&self) -> (r: QoS)
        ensures
            r == self.spec_qos(),
    {
        match self {
            QosWithId::Level0 => QoS::AtMostOnce,
            QosWithId::Level1(_) => QoS::AtLeastOnce,
            QosWithId::Level2(_) => QoS::ExactlyOnce,
        }
    }
}

/// A decoded inbound control packet, as the event loop dispatches on it.
///
/// The wire-level decoder (an external codec) produces these; the engine's
/// packet handler consumes them.  Kinds the engine deliberately ignores
/// (for instance unsubscribe-acks) are still represented so that ignoring
/// them is a stated, verified decision rather than a decode failure.
#[derive(Debug, PartialEq, Eq)]
pub enum Packet {
    /// Handshake reply: session-present flag and connect return code.
    Connack { session_present: bool, return_code: u8 },
    /// Subscribe acknowledgment: one granted entry per requested filter,
    /// `None` where the broker refused the entry.
    Suback { pkid: u16, granted: Vec<Option<QoS>> },
    /// An application message published by the broker.
    Publish { topic: String, payload: Vec<u8>, qos: QosWithId, retained: bool },
    /// QoS 1 acknowledgment of an outbound publish.
    Puback { pkid: u16 },
    /// First QoS 2 acknowledgment ("received") of an outbound publish.
    Pubrec { pkid: u16 },
    /// QoS 2 release of an inbound publish held by the engine.
    Pubrel { pkid: u16 },
    /// Final QoS 2 acknowledgment ("complete") of an outbound publish.
    Pubcomp { pkid: u16 },
    /// Reply to a ping request.
    Pingresp,
    /// Broker-initiated disconnect notice.
    Disconnect,
    /// Unsubscribe acknowledgment.
    Unsuback { pkid: u16 },
}

} // verus!
