use minimq::packets::{Connect, PingReq, PubRel, PublishHeader, Reason, Subscribe, TopicFilter, Will};
use minimq::properties::{Properties, Property};
use minimq::ser::{serialize_control_packet, MqttSerializer};
use minimq::wire::Utf8String;
use minimq::{QoS, ReasonCode, Retain};

#[test]
fn serialize_serialize_publish() {
    let good_publish: [u8; 10] = [0x30, 0x08, 0x00, 0x03, 0x41, 0x42, 0x43, 0x00, 0xAB, 0xCD];
    let header = PublishHeader {
        qos: QoS::AtMostOnce,
        packet_id: None,
        dup: false,
        properties: Properties::from_slice(&[]),
        retain: Retain::NotRetained,
        topic: Utf8String("ABC"),
    };
    let mut buffer: [u8; 900] = [0; 900];
    let message = MqttSerializer::encode_publish(&mut buffer, &header, &[0xAB, 0xCD][..]).unwrap();
    assert_eq!(message, good_publish);
}

#[test]
fn serialize_serialize_publish_qos1() {
    let good_publish: [u8; 12] =
        [0x32, 0x0a, 0x00, 0x03, 0x41, 0x42, 0x43, 0xBE, 0xEF, 0x00, 0xAB, 0xCD];
    let header = PublishHeader {
        qos: QoS::AtLeastOnce,
        topic: Utf8String("ABC"),
        packet_id: Some(0xBEEF),
        dup: false,
        properties: Properties::from_slice(&[]),
        retain: Retain::NotRetained,
    };
    let mut buffer: [u8; 900] = [0; 900];
    let message = MqttSerializer::encode_publish(&mut buffer, &header, &[0xAB, 0xCD][..]).unwrap();
    assert_eq!(message, good_publish);
}

#[test]
fn serialize_serialize_subscribe() {
    let good_subscribe: [u8; 11] = [
        0x82, // Subscribe request
        0x09, // Remaining length (11)
        0x00, 0x10, // Packet identifier (16)
        0x00, // Property length
        0x00, 0x03, 0x41, 0x42, 0x43, // Topic: ABC
        0x00, // Options byte = 0
    ];

    let subscribe = Subscribe {
        packet_id: 16,
        dup: false,
        properties: Properties::from_slice(&[]),
        topics: &[TopicFilter::new("ABC")],
    };

    let mut buffer: [u8; 900] = [0; 900];
    let message = serialize_control_packet(&mut buffer, subscribe).unwrap();

    assert_eq!(message, good_subscribe);
}

#[test]
fn serialize_serialize_publish_with_properties() {
    let good_publish: [u8; 14] =
        [0x30, 0x0c, 0x00, 0x03, 0x41, 0x42, 0x43, 0x04, 0x08, 0x00, 0x01, 0x41, 0xAB, 0xCD];
    let props = [Property::ResponseTopic("A")];
    let header = PublishHeader {
        qos: QoS::AtMostOnce,
        topic: Utf8String("ABC"),
        packet_id: None,
        dup: false,
        properties: Properties::from_slice(&props),
        retain: Retain::NotRetained,
    };
    let mut buffer: [u8; 900] = [0; 900];
    let message = MqttSerializer::encode_publish(&mut buffer, &header, &[0xAB, 0xCD][..]).unwrap();
    assert_eq!(message, good_publish);
}

#[test]
fn serialize_serialize_connect() {
    let good_serialized_connect: [u8; 18] = [
        0x10, // Connect
        0x10, // Remaining length (16)
        0x00, 0x04, 0x4d, 0x51, 0x54, 0x54, 0x05, // MQTT5 header
        0x02, // Flags (Clean start)
        0x00, 0x0a, // Keep-alive (10)
        0x00, // Properties length
        0x00, 0x03, 0x41, 0x42, 0x43, // ABC client ID
    ];

    let mut buffer: [u8; 900] = [0; 900];
    let connect = Connect {
        client_id: Utf8String("ABC"),
        auth: None,
        will: None,
        keepalive: 10,
        properties: Properties::from_slice(&[]),
        clean_start: true,
    };

    let message = serialize_control_packet(&mut buffer, connect).unwrap();

    assert_eq!(message, good_serialized_connect)
}

#[test]
fn serialize_serialize_connect_with_will() {
    let good_serialized_connect: [u8; 28] = [
        0x10, // Connect
        26,   // Remaining length
        0x00, 0x04, 0x4d, 0x51, 0x54, 0x54, 0x05, // Header: "MQTT5"
        0b0000_0110, // Flags: Clean start, will present, will not retained, will QoS = 0,
        0x00, 0x0a, // Keep-alive: 10 seconds
        0x00, // Connected Properties: None
        0x00, 0x03, 0x41, 0x42, 0x43, // Client ID: "ABC"
        0x00, // Will properties: None
        0x00, 0x03, 0x45, 0x46, 0x47, // Will topic: "EFG"
        0x00, 0x02, 0xAB, 0xCD, // Will payload: [0xAB, 0xCD]
    ];

    let mut buffer: [u8; 900] = [0; 900];
    let will = Will::new("EFG", &[0xAB, 0xCD], &[]).unwrap();
    let connect = Connect {
        clean_start: true,
        keepalive: 10,
        properties: Properties::from_slice(&[]),
        client_id: Utf8String("ABC"),
        auth: None,
        will: Some(will),
    };

    let message = serialize_control_packet(&mut buffer, connect).unwrap();

    assert_eq!(message, good_serialized_connect)
}

#[test]
fn serialize_serialize_ping_req() {
    let good_ping_req: [u8; 2] = [
        0xc0, // Ping
        0x00, // Remaining length (0)
    ];

    let mut buffer: [u8; 1024] = [0; 1024];
    let message = serialize_control_packet(&mut buffer, PingReq {}).unwrap();
    assert_eq!(message, good_ping_req);
}

#[test]
fn serialize_serialize_pubrel() {
    let good_pubrel: [u8; 6] = [
        6 << 4 | 0b10, // PubRel
        0x04,          // Remaining length
        0x00,
        0x05, // Identifier
        0x10, // Response Code
        0x00, // Properties length
    ];

    let pubrel = PubRel {
        packet_id: 5,
        reason: Reason::with_properties(ReasonCode::NoMatchingSubscribers, &[]),
    };

    let mut buffer: [u8; 1024] = [0; 1024];
    assert_eq!(serialize_control_packet(&mut buffer, pubrel).unwrap(), good_pubrel);
}

#[test]
fn control_packet_errors_become_malformed_packet() {
    let mut buffer: [u8; 3] = [0; 3];
    assert_eq!(
        serialize_control_packet(&mut buffer, PingReq {}),
        Err(minimq::ProtocolError::MalformedPacket)
    );
}
