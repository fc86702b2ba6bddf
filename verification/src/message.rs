use vstd::prelude::*;

verus! {

/// Delivery guarantee requested or granted for a message.
#[derive(Clone, Copy, PartialEq, Eq, Structural, Debug)]
pub enum QoS {
    /// Level 0: at most once, no acknowledgment.
    AtMostOnce,
    /// Level 1: at least once, acknowledged by a publish-ack.
    AtLeastOnce,
    /// Level 2: exactly once, four-step handshake.
    ExactlyOnce,
}

impl QoS {
    /// The numeric protocol level of this QoS.
    pub open spec fn spec_level(self) -> u8 {
        match self {
            QoS::AtMostOnce => 0,
            QoS::AtLeastOnce => 1,
            QoS::ExactlyOnce => 2,
        }
    }

    /// Numeric protocol level: 0, 1 or 2.
    pub fn level(&self) -> (r: u8)
        ensures
            r == self.spec_level(),
    {
        match self {
            QoS::AtMostOnce => 0,
            QoS::AtLeastOnce => 1,
            QoS::ExactlyOnce => 2,
        }
    }
}

/// An application-level message, immutable once constructed.
#[derive(Debug, PartialEq, Eq)]
pub struct Message {
    /// Topic the message was published to.
    pub topic: String,
    /// Raw payload bytes.
    pub payload: Vec<u8>,
    /// Delivery guarantee the message was published with.
    pub qos: QoS,
    /// Whether the broker marked the message as retained.
    pub retained: bool,
}

impl Clone for Message {
    fn clone(&self) -> (r: Self)
        ensures
            r.topic == self.topic,
            r.payload@ == self.payload@,
            r.qos == self.qos,
            r.retained == self.retained,
    {
        let payload = self.payload.clone();
        proof {
            assert(payload@ =~= self.payload@);
        }
        Message { topic: self.topic.clone(), payload, qos: self.qos, retained: self.retained }
    }
}

/// One entry of a subscribe request: a topic filter and the desired QoS.
#[derive(Debug, PartialEq, Eq)]
pub struct Subscription {
    /// Topic filter, possibly containing wildcards.
    pub filter: String,
    /// Highest QoS the application asks for on this filter.
    pub qos: QoS,
}

impl Clone for Subscription {
    fn clone(&self) -> (r: Self)
        ensures
            r == *self,
    {
        Subscription { filter: self.filter.clone(), qos: self.qos }
    }
}

} // verus!
