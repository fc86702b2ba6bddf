use mqtt::Encodable;
use mqttc::engine::{MqttClientState, ProxyClient, QoS2Phase};
use mqttc::error::Error;
use mqttc::message::{QoS, Subscription};
use mqttc::options::ClientOptions;
use mqttc::packet::{Packet, QosWithId};

fn connected_engine() -> ProxyClient {
    let mut opts = ClientOptions::new();
    opts.set_client_id(String::from("test-client"));
    let mut engine = ProxyClient::new(opts);
    let _connect_bytes = engine.start_handshake();
    engine.handle_connack(false, 0).unwrap();
    engine
}

#[test]
fn handshake_accepted_connects() {
    let mut opts = ClientOptions::new();
    opts.set_client_id(String::from("test-client"));
    let mut engine = ProxyClient::new(opts);
    assert_eq!(engine.state, MqttClientState::Disconnected);
    let bytes = engine.start_handshake();
    assert_eq!(engine.state, MqttClientState::Handshake);
    assert!(!bytes.is_empty());
    engine.handle_connack(true, 0).unwrap();
    assert_eq!(engine.state, MqttClientState::Connected);
    assert!(engine.session_present);
}

#[test]
fn handshake_rejected_reports_code() {
    let mut opts = ClientOptions::new();
    opts.set_client_id(String::from("test-client"));
    let mut engine = ProxyClient::new(opts);
    let _ = engine.start_handshake();
    let r = engine.handle_connack(false, 5);
    assert_eq!(r, Err(Error::Rejected(5)));
    assert_eq!(engine.state, MqttClientState::Disconnected);
}

#[test]
fn connect_packet_matches_codec() {
    let mut opts = ClientOptions::new();
    opts.set_client_id(String::from("test-client"));
    opts.set_keep_alive(7);
    opts.set_clean_session(false);
    let mut engine = ProxyClient::new(opts);
    let bytes = engine.start_handshake();

    let mut pkt = mqtt::packet::ConnectPacket::new("test-client");
    pkt.set_clean_session(false);
    pkt.set_keep_alive(7);
    pkt.set_user_name(None);
    pkt.set_password(None);
    let mut expected = Vec::new();
    pkt.encode(&mut expected).unwrap();
    assert_eq!(bytes, expected);
}

#[test]
fn ping_request_sent_once_then_dead() {
    let mut engine = connected_engine();
    let first = engine.handle_timer().unwrap();
    assert_eq!(first, vec![0xc0, 0x00]);
    assert!(engine.await_ping);
    // The peer stays silent: a second fire is a dead connection.
    let second = engine.handle_timer();
    assert_eq!(second, Err(Error::TransportError));
}

#[test]
fn ping_response_clears_flag() {
    let mut engine = connected_engine();
    let _ = engine.handle_timer().unwrap();
    assert!(engine.await_ping);
    engine.handle_packet(Packet::Pingresp).unwrap();
    assert!(!engine.await_ping);
    // With the flag cleared the next timer fire pings again.
    let again = engine.handle_timer().unwrap();
    assert_eq!(again, vec![0xc0, 0x00]);
}

#[test]
fn subscribe_roundtrip_clears_record() {
    let mut engine = connected_engine();
    let topics = vec![Subscription { filter: String::from("sensors/+"), qos: QoS::AtLeastOnce }];
    let (pkid, bytes) = engine.handle_subscribe_request(topics).unwrap();
    assert_eq!(engine.pending_subs.len(), 1);

    let expected_pkt = mqtt::packet::SubscribePacket::new(
        pkid,
        vec![(
            mqtt::TopicFilter::new("sensors/+".to_string()).unwrap(),
            mqtt::QualityOfService::Level1,
        )],
    );
    let mut expected = Vec::new();
    expected_pkt.encode(&mut expected).unwrap();
    assert_eq!(bytes, expected);

    let reaction = engine
        .handle_packet(Packet::Suback { pkid, granted: vec![Some(QoS::AtLeastOnce)] })
        .unwrap();
    assert!(reaction.refused.is_empty());
    assert!(engine.pending_subs.is_empty());
}

#[test]
fn suback_reports_refused_entries() {
    let mut engine = connected_engine();
    let topics = vec![
        Subscription { filter: String::from("a/b"), qos: QoS::AtLeastOnce },
        Subscription { filter: String::from("c/d"), qos: QoS::ExactlyOnce },
    ];
    let (pkid, _bytes) = engine.handle_subscribe_request(topics).unwrap();
    let reaction = engine
        .handle_packet(Packet::Suback { pkid, granted: vec![Some(QoS::AtLeastOnce), None] })
        .unwrap();
    assert_eq!(reaction.refused.len(), 1);
    assert_eq!(reaction.refused[0].filter, "c/d");
    assert!(engine.pending_subs.is_empty());
}

#[test]
fn suback_unknown_identifier_ignored() {
    let mut engine = connected_engine();
    let topics = vec![Subscription { filter: String::from("a/b"), qos: QoS::AtMostOnce }];
    let (pkid, _bytes) = engine.handle_subscribe_request(topics).unwrap();
    let reaction = engine
        .handle_packet(Packet::Suback { pkid: pkid.wrapping_add(1), granted: vec![None] })
        .unwrap();
    assert!(reaction.refused.is_empty());
    assert_eq!(engine.pending_subs.len(), 1);
}

#[test]
fn subscribe_while_disconnected_refused() {
    let opts = ClientOptions::new();
    let mut engine = ProxyClient::new(opts);
    let topics = vec![Subscription { filter: String::from("a/b"), qos: QoS::AtMostOnce }];
    assert_eq!(engine.handle_subscribe_request(topics), Err(Error::StateError));
}

#[test]
fn subscribe_invalid_filter_is_encode_error() {
    let mut engine = connected_engine();
    let topics = vec![Subscription { filter: String::from("a/#/b"), qos: QoS::AtMostOnce }];
    assert_eq!(engine.handle_subscribe_request(topics), Err(Error::EncodeError));
    assert!(engine.pending_subs.is_empty());
}

#[test]
fn qos1_ack_removes_pending_record() {
    let mut engine = connected_engine();
    let (id1, _b1) = engine
        .publish(String::from("a/b"), b"one".to_vec(), QoS::AtLeastOnce, false)
        .unwrap();
    let (id2, _b2) = engine
        .publish(String::from("a/b"), b"two".to_vec(), QoS::AtLeastOnce, false)
        .unwrap();
    assert_ne!(id1, id2);
    assert_eq!(engine.outgoing_ack.len(), 2);

    // An ack for an unrelated identifier leaves the table unchanged.
    engine.handle_packet(Packet::Puback { pkid: 60000 }).unwrap();
    assert_eq!(engine.outgoing_ack.len(), 2);

    // The matching ack removes exactly its record.
    engine.handle_packet(Packet::Puback { pkid: id1 }).unwrap();
    assert_eq!(engine.outgoing_ack.len(), 1);
    assert_eq!(engine.outgoing_ack[0].pkid, id2);
}

#[test]
fn qos1_publish_packet_matches_codec() {
    let mut engine = connected_engine();
    let (pkid, bytes) = engine
        .publish(String::from("a/b"), b"payload".to_vec(), QoS::AtLeastOnce, true)
        .unwrap();

    let name = mqtt::TopicName::new("a/b".to_string()).unwrap();
    let mut pkt = mqtt::packet::PublishPacket::new(
        name,
        mqtt::packet::QoSWithPacketIdentifier::Level1(pkid),
        b"payload".to_vec(),
    );
    pkt.set_retain(true);
    let mut expected = Vec::new();
    pkt.encode(&mut expected).unwrap();
    assert_eq!(bytes, expected);
}

#[test]
fn qos2_outbound_phases_in_order() {
    let mut engine = connected_engine();
    let (pkid, _bytes) = engine
        .publish(String::from("a/b"), b"x".to_vec(), QoS::ExactlyOnce, false)
        .unwrap();
    assert_eq!(engine.outgoing_rec.len(), 1);
    assert_eq!(engine.outgoing_rec[0].phase, QoS2Phase::AwaitingReceived);

    // A "complete" before the "received" step is not honored.
    engine.handle_packet(Packet::Pubcomp { pkid }).unwrap();
    assert_eq!(engine.outgoing_rec.len(), 1);
    assert_eq!(engine.outgoing_rec[0].phase, QoS2Phase::AwaitingReceived);

    // The "received" step flips the phase and sends the release.
    let reaction = engine.handle_packet(Packet::Pubrec { pkid }).unwrap();
    let hi = (pkid >> 8) as u8;
    let lo = (pkid & 0xff) as u8;
    assert_eq!(reaction.reply, Some(vec![0x62, 0x02, hi, lo]));
    assert_eq!(engine.outgoing_rec[0].phase, QoS2Phase::AwaitingComplete);

    // A repeated "received" is ignored once the phase moved on.
    let repeat = engine.handle_packet(Packet::Pubrec { pkid }).unwrap();
    assert_eq!(repeat.reply, None);

    // The "complete" step removes the record.
    engine.handle_packet(Packet::Pubcomp { pkid }).unwrap();
    assert!(engine.outgoing_rec.is_empty());
}

#[test]
fn qos0_publish_delivered_immediately() {
    let mut engine = connected_engine();
    let reaction = engine
        .handle_packet(Packet::Publish {
            topic: String::from("t"),
            payload: b"now".to_vec(),
            qos: QosWithId::Level0,
            retained: false,
        })
        .unwrap();
    let msg = reaction.deliver.unwrap();
    assert_eq!(msg.topic, "t");
    assert_eq!(msg.payload, b"now".to_vec());
    assert_eq!(msg.qos, QoS::AtMostOnce);
    assert_eq!(reaction.reply, None);
}

#[test]
fn qos1_publish_delivered_with_ack() {
    let mut engine = connected_engine();
    let reaction = engine
        .handle_packet(Packet::Publish {
            topic: String::from("t"),
            payload: b"once-or-more".to_vec(),
            qos: QosWithId::Level1(7),
            retained: false,
        })
        .unwrap();
    let msg = reaction.deliver.unwrap();
    assert_eq!(msg.qos, QoS::AtLeastOnce);
    assert_eq!(reaction.reply, Some(vec![0x40, 0x02, 0x00, 0x07]));
}

#[test]
fn qos2_inbound_delivers_exactly_once() {
    let mut engine = connected_engine();

    // Broker publishes identifier 42 with payload "hello": held, not delivered.
    let reaction = engine
        .handle_packet(Packet::Publish {
            topic: String::from("t"),
            payload: b"hello".to_vec(),
            qos: QosWithId::Level2(42),
            retained: false,
        })
        .unwrap();
    assert!(reaction.deliver.is_none());
    assert_eq!(reaction.reply, Some(vec![0x50, 0x02, 0x00, 42]));
    assert_eq!(engine.incoming_rec.len(), 1);

    // Redelivery of the same identifier repeats the reply, holds nothing new.
    let again = engine
        .handle_packet(Packet::Publish {
            topic: String::from("t"),
            payload: b"hello".to_vec(),
            qos: QosWithId::Level2(42),
            retained: false,
        })
        .unwrap();
    assert!(again.deliver.is_none());
    assert_eq!(engine.incoming_rec.len(), 1);

    // The release delivers the held message exactly once.
    let released = engine.handle_packet(Packet::Pubrel { pkid: 42 }).unwrap();
    let msg = released.deliver.unwrap();
    assert_eq!(msg.topic, "t");
    assert_eq!(msg.payload, b"hello".to_vec());
    assert_eq!(msg.qos, QoS::ExactlyOnce);
    assert_eq!(released.reply, Some(vec![0x70, 0x02, 0x00, 42]));
    assert!(engine.incoming_rec.is_empty());

    // A duplicate release still answers "complete" but delivers nothing.
    let duplicate = engine.handle_packet(Packet::Pubrel { pkid: 42 }).unwrap();
    assert!(duplicate.deliver.is_none());
    assert_eq!(duplicate.reply, Some(vec![0x70, 0x02, 0x00, 42]));
}

#[test]
fn outstanding_identifiers_pairwise_distinct() {
    let mut engine = connected_engine();
    let (sub_id, _) = engine
        .handle_subscribe_request(vec![Subscription {
            filter: String::from("a/b"),
            qos: QoS::AtLeastOnce,
        }])
        .unwrap();
    let (q1_id, _) = engine
        .publish(String::from("a/b"), b"1".to_vec(), QoS::AtLeastOnce, false)
        .unwrap();
    let (q2_id, _) = engine
        .publish(String::from("a/b"), b"2".to_vec(), QoS::ExactlyOnce, false)
        .unwrap();
    assert_ne!(sub_id, q1_id);
    assert_ne!(sub_id, q2_id);
    assert_ne!(q1_id, q2_id);
}

#[test]
fn publish_while_disconnected_refused() {
    let opts = ClientOptions::new();
    let mut engine = ProxyClient::new(opts);
    let r = engine.publish(String::from("a/b"), b"x".to_vec(), QoS::AtMostOnce, false);
    assert_eq!(r, Err(Error::StateError));
}

#[test]
fn publish_invalid_topic_is_encode_error() {
    let mut engine = connected_engine();
    let r = engine.publish(String::from("a/+"), b"x".to_vec(), QoS::AtMostOnce, false);
    assert_eq!(r, Err(Error::EncodeError));
    assert!(engine.outgoing_ack.is_empty());
    assert!(engine.outgoing_rec.is_empty());
}

#[test]
fn disconnect_clean_session_drops_state() {
    let mut engine = connected_engine();
    let _ = engine
        .publish(String::from("a/b"), b"x".to_vec(), QoS::AtLeastOnce, false)
        .unwrap();
    let _ = engine
        .handle_subscribe_request(vec![Subscription {
            filter: String::from("a/b"),
            qos: QoS::AtMostOnce,
        }])
        .unwrap();
    engine.on_disconnect();
    assert_eq!(engine.state, MqttClientState::Disconnected);
    assert!(!engine.await_ping);
    assert!(engine.outgoing_ack.is_empty());
    assert!(engine.pending_subs.is_empty());
}

#[test]
fn disconnect_resumed_session_keeps_qos_state() {
    let mut opts = ClientOptions::new();
    opts.set_client_id(String::from("test-client"));
    opts.set_clean_session(false);
    let mut engine = ProxyClient::new(opts);
    let _ = engine.start_handshake();
    engine.handle_connack(true, 0).unwrap();
    let (pkid, _) = engine
        .publish(String::from("a/b"), b"x".to_vec(), QoS::AtLeastOnce, false)
        .unwrap();
    engine.on_disconnect();
    assert_eq!(engine.outgoing_ack.len(), 1);
    assert_eq!(engine.outgoing_ack[0].pkid, pkid);
    assert!(engine.pending_subs.is_empty());
}

#[test]
fn disconnect_and_unsuback_ignored() {
    let mut engine = connected_engine();
    let r1 = engine.handle_packet(Packet::Disconnect).unwrap();
    assert!(r1.deliver.is_none() && r1.reply.is_none());
    let r2 = engine.handle_packet(Packet::Unsuback { pkid: 3 }).unwrap();
    assert!(r2.deliver.is_none() && r2.reply.is_none());
    assert_eq!(engine.state, MqttClientState::Connected);
}
