//! Trusted boundary to the wire-level packet codec.
//!
//! The engine treats packet encoding as an external, already-correct
//! service.  Each wrapper here builds one packet through the codec crate
//! and encodes it into a byte buffer; Verus believes the stated contract
//! and never reads the bodies.  The fixed-size acknowledgment packets have
//! their exact bytes stated; the variable-length packets get an
//! uninterpreted name for their encoding, a function of the arguments
//! alone.

use crate::error::Error;
use crate::message::{QoS, Subscription};
use mqtt::Encodable;
use vstd::prelude::*;

verus! {

/// The wire encoding of a connect packet, as the codec produces it.
pub uninterp spec fn connect_packet_bytes(
    client_id: Seq<char>,
    clean_session: bool,
    keep_alive: u16,
    username: Option<Seq<char>>,
    password: Option<Seq<char>>,
) -> Seq<u8>;

/// The wire encoding of a subscribe packet, as the codec produces it.
pub uninterp spec fn subscribe_packet_bytes(pkid: u16, topics: Seq<(Seq<char>, u8)>) -> Seq<u8>;

/// The wire encoding of a publish packet, as the codec produces it.
pub uninterp spec fn publish_packet_bytes(
    topic: Seq<char>,
    qos_level: u8,
    pkid: u16,
    retained: bool,
    payload: Seq<u8>,
) -> Seq<u8>;

/// Whether the codec accepts every topic filter of a subscribe request:
/// a function of the filter strings alone.
pub uninterp spec fn subscribe_encodable(topics: Seq<(Seq<char>, u8)>) -> bool;

/// The codec's rule for a publish topic name: nonempty, within the
/// protocol's length limit (guaranteed separately by a length bound),
/// and free of the wildcard characters.
pub open spec fn topic_name_valid(topic: Seq<char>) -> bool {
    topic.len() > 0 && forall|i: int| 0 <= i < topic.len() ==> topic[i] != '#' && topic[i] != '+'
}

/// The view of an optional credential string.
pub open spec fn opt_string_view(s: Option<String>) -> Option<Seq<char>> {
    match s {
        Some(x) => Some(x@),
        None => None,
    }
}

/// The view of a subscribe request's entries: filter text and QoS level.
pub open spec fn subscriptions_view(s: Seq<Subscription>) -> Seq<(Seq<char>, u8)> {
    s.map_values(|t: Subscription| (t.filter@, t.qos.spec_level()))
}

/// A fixed-header acknowledgment packet: the kind byte, a remaining length
/// of two, and the packet identifier in big-endian order.
pub open spec fn ack_packet_bytes(kind: u8, pkid: u16) -> Seq<u8> {
    seq![kind, 2u8, (pkid >> 8u16) as u8, (pkid & 0xffu16) as u8]
}

/// The two fixed bytes of a ping-request packet.
pub open spec fn pingreq_packet_bytes() -> Seq<u8> {
    seq![0xc0u8, 0u8]
}

/// Relies on `mqtt::packet::ConnectPacket` and `Encodable::encode`: the
/// bytes are a function of identity, flags and credentials alone, and
/// encoding into a byte buffer cannot fail for strings within the
/// protocol's 65535-byte limit, which the length bounds here guarantee.
#[verifier::external_body]
pub(crate) fn encode_connect(
    client_id: &String,
    clean_session: bool,
    keep_alive: u16,
    username: &Option<String>,
    password: &Option<String>,
) -> (r: Vec<u8>)
    requires
        client_id@.len() <= 16383,
        *username matches Some(u) ==> u@.len() <= 16383,
        *password matches Some(p) ==> p@.len() <= 16383,
    ensures
        r@ == connect_packet_bytes(
            client_id@,
            clean_session,
            keep_alive,
            opt_string_view(*username),
            opt_string_view(*password),
        ),
{
    let mut pkt = mqtt::packet::ConnectPacket::new(client_id.clone());
    pkt.set_clean_session(clean_session);
    pkt.set_keep_alive(keep_alive);
    pkt.set_user_name(username.clone());
    pkt.set_password(password.clone());
    let mut buf = Vec::new();
    pkt.encode(&mut buf).expect("encoding into a buffer cannot fail");
    buf
}

/// Relies on `mqtt::packet::PingreqPacket` and `Encodable::encode`: a
/// ping-request is the fixed header alone, `0xc0` followed by a zero
/// remaining length.
#[verifier::external_body]
pub(crate) fn encode_pingreq() -> (r: Vec<u8>)
    ensures
        r@ == pingreq_packet_bytes(),
{
    let pkt = mqtt::packet::PingreqPacket::new();
    let mut buf = Vec::new();
    pkt.encode(&mut buf).expect("encoding into a buffer cannot fail");
    buf
}

/// Relies on `mqtt::packet::PubackPacket` and `Encodable::encode`: kind
/// byte `0x40`, remaining length two, then the identifier big-endian.
#[verifier::external_body]
pub(crate) fn encode_puback(pkid: u16) -> (r: Vec<u8>)
    ensures
        r@ == ack_packet_bytes(0x40, pkid),
{
    let pkt = mqtt::packet::PubackPacket::new(pkid);
    let mut buf = Vec::new();
    pkt.encode(&mut buf).expect("encoding into a buffer cannot fail");
    buf
}

/// Relies on `mqtt::packet::PubrecPacket` and `Encodable::encode`: kind
/// byte `0x50`, remaining length two, then the identifier big-endian.
#[verifier::external_body]
pub(crate) fn encode_pubrec(pkid: u16) -> (r: Vec<u8>)
    ensures
        r@ == ack_packet_bytes(0x50, pkid),
{
    let pkt = mqtt::packet::PubrecPacket::new(pkid);
    let mut buf = Vec::new();
    pkt.encode(&mut buf).expect("encoding into a buffer cannot fail");
    buf
}

/// Relies on `mqtt::packet::PubrelPacket` and `Encodable::encode`: kind
/// byte `0x62` (release carries flag bits `0010`), remaining length two,
/// then the identifier big-endian.
#[verifier::external_body]
pub(crate) fn encode_pubrel(pkid: u16) -> (r: Vec<u8>)
    ensures
        r@ == ack_packet_bytes(0x62, pkid),
{
    let pkt = mqtt::packet::PubrelPacket::new(pkid);
    let mut buf = Vec::new();
    pkt.encode(&mut buf).expect("encoding into a buffer cannot fail");
    buf
}

/// Relies on `mqtt::packet::PubcompPacket` and `Encodable::encode`: kind
/// byte `0x70`, remaining length two, then the identifier big-endian.
#[verifier::external_body]
pub(crate) fn encode_pubcomp(pkid: u16) -> (r: Vec<u8>)
    ensures
        r@ == ack_packet_bytes(0x70, pkid),
{
    let pkt = mqtt::packet::PubcompPacket::new(pkid);
    let mut buf = Vec::new();
    pkt.encode(&mut buf).expect("encoding into a buffer cannot fail");
    buf
}

/// Relies on `mqtt::packet::SubscribePacket`, `mqtt::TopicFilter` and
/// `Encodable::encode`: the bytes are a function of the identifier and
/// the requested entries alone, and the codec accepts or refuses a
/// request by its filter strings alone (empty, overlong or with a
/// misplaced wildcard is refused); a refusal is reported as an encode
/// error.  Encoding an accepted request into a byte buffer cannot fail.
#[verifier::external_body]
pub(crate) fn encode_subscribe(pkid: u16, topics: &Vec<Subscription>) -> (r: Result<
    Vec<u8>,
    Error,
>)
    ensures
        r is Ok <==> subscribe_encodable(subscriptions_view(topics@)),
        r matches Ok(b) ==> b@ == subscribe_packet_bytes(pkid, subscriptions_view(topics@)),
        r matches Err(e) ==> e == Error::EncodeError,
{
    let mut subs = Vec::with_capacity(topics.len());
    for t in topics.iter() {
        let filter = mqtt::TopicFilter::new(t.filter.clone()).map_err(|_| Error::EncodeError)?;
        let qos = match t.qos {
            QoS::AtMostOnce => mqtt::QualityOfService::Level0,
            QoS::AtLeastOnce => mqtt::QualityOfService::Level1,
            QoS::ExactlyOnce => mqtt::QualityOfService::Level2,
        };
        subs.push((filter, qos));
    }
    let pkt = mqtt::packet::SubscribePacket::new(pkid, subs);
    let mut buf = Vec::new();
    pkt.encode(&mut buf).map_err(|_| Error::EncodeError)?;
    Ok(buf)
}

/// Relies on `mqtt::packet::PublishPacket`, `mqtt::TopicName` and
/// `Encodable::encode`: the bytes are a function of topic, QoS,
/// identifier, retain flag and payload alone.  The codec refuses exactly
/// an empty, overlong or wildcard-bearing topic name; the length bound
/// here keeps the topic under the protocol's 65535-byte limit, so within
/// it acceptance is the stated validity rule, and encoding an accepted
/// packet into a byte buffer cannot fail.
#[verifier::external_body]
pub(crate) fn encode_publish(
    topic: &String,
    qos_level: u8,
    pkid: u16,
    retained: bool,
    payload: &Vec<u8>,
) -> (r: Result<Vec<u8>, Error>)
    requires
        qos_level <= 2,
        payload@.len() < 268435455,
        topic@.len() <= 16383,
    ensures
        r is Ok <==> topic_name_valid(topic@),
        r matches Ok(b) ==> b@ == publish_packet_bytes(topic@, qos_level, pkid, retained, payload@),
        r matches Err(e) ==> e == Error::EncodeError,
{
    let name = mqtt::TopicName::new(topic.clone()).map_err(|_| Error::EncodeError)?;
    let qos = match qos_level {
        0 => mqtt::packet::QoSWithPacketIdentifier::Level0,
        1 => mqtt::packet::QoSWithPacketIdentifier::Level1(pkid),
        _ => mqtt::packet::QoSWithPacketIdentifier::Level2(pkid),
    };
    let mut pkt = mqtt::packet::PublishPacket::new(name, qos, payload.clone());
    pkt.set_retain(retained);
    let mut buf = Vec::new();
    pkt.encode(&mut buf).map_err(|_| Error::EncodeError)?;
    Ok(buf)
}

} // verus!
