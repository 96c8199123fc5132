use minimq::packets::{
    Connect, Disconnect, PingReq, PubAck, PubComp, PubRel, PublishHeader, Reason, ReasonData,
    Subscribe, TopicFilter, Unsubscribe, Will,
};
use minimq::properties::{Properties, Property};
use minimq::ser::MqttSerializer;
use minimq::wire::Utf8String;
use minimq::{QoS, ReasonCode, Retain};

#[test]
fn packets_serialize_publish() {
    let good_publish: [u8; 10] = [
        0x30, // Publish message
        0x08, // Remaining length (8)
        0x00, 0x03, 0x41, 0x42, 0x43, // Topic: ABC
        0x00, // Properties length
        0xAB, 0xCD, // Payload
    ];

    let header = PublishHeader {
        qos: QoS::AtMostOnce,
        packet_id: None,
        dup: false,
        properties: Properties::from_slice(&[]),
        retain: Retain::NotRetained,
        topic: Utf8String("ABC"),
    };
    let payload = &[0xAB, 0xCD][..];

    let mut buffer: [u8; 900] = [0; 900];
    let message = MqttSerializer::encode_publish(&mut buffer, &header, payload).unwrap();

    assert_eq!(message, good_publish);
}

#[test]
fn packets_serialize_publish_qos1() {
    let good_publish: [u8; 12] = [
        0x32, // Publish message
        0x0a, // Remaining length (10)
        0x00, 0x03, 0x41, 0x42, 0x43, // Topic: ABC
        0xBE, 0xEF, // Packet identifier
        0x00, // Properties length
        0xAB, 0xCD, // Payload
    ];

    let header = PublishHeader {
        qos: QoS::AtLeastOnce,
        topic: Utf8String("ABC"),
        packet_id: Some(0xBEEF),
        dup: false,
        properties: Properties::from_slice(&[]),
        retain: Retain::NotRetained,
    };
    let payload = &[0xAB, 0xCD][..];

    let mut buffer: [u8; 900] = [0; 900];
    let message = MqttSerializer::encode_publish(&mut buffer, &header, payload).unwrap();

    assert_eq!(message, good_publish);
}

#[test]
fn serialize_publish_qos1_dup() {
    let good_publish: [u8; 12] = [
        0x3A, // Publish message, QoS 1, DUP
        0x0a, // Remaining length (10)
        0x00, 0x03, 0x41, 0x42, 0x43, // Topic: ABC
        0xBE, 0xEF, // Packet identifier
        0x00, // Properties length
        0xAB, 0xCD, // Payload
    ];

    let header = PublishHeader {
        qos: QoS::AtLeastOnce,
        topic: Utf8String("ABC"),
        packet_id: Some(0xBEEF),
        dup: true,
        properties: Properties::from_slice(&[]),
        retain: Retain::NotRetained,
    };
    let payload = &[0xAB, 0xCD][..];

    let mut buffer: [u8; 900] = [0; 900];
    let message = MqttSerializer::encode_publish(&mut buffer, &header, payload).unwrap();

    assert_eq!(message, good_publish);
}

#[test]
fn packets_serialize_subscribe() {
    let good_subscribe: [u8; 11] = [
        0x82, // Subscribe request
        0x09, // Remaining length (11)
        0x00, 0x10, // Packet identifier (16)
        0x00, // Property length
        0x00, 0x03, 0x41, 0x42, 0x43, // Topic: ABC
        0x00, // Options byte = 0
    ];

    let subscribe = Subscribe {
        packet_id: 16,
        dup: false,
        properties: Properties::from_slice(&[]),
        topics: &[TopicFilter::new("ABC")],
    };

    let mut buffer: [u8; 900] = [0; 900];
    let message = MqttSerializer::encode(&mut buffer, &subscribe).unwrap();

    assert_eq!(message, good_subscribe);
}

#[test]
fn serialize_unsubscribe() {
    let good_unsubscribe: [u8; 10] = [
        0xA2, // Unsubscribe request
        0x08, // Remaining length (8)
        0x00, 0x10, // Packet identifier (16)
        0x00, // Property length
        0x00, 0x03, 0x41, 0x42, 0x43, // Topic: ABC
    ];

    let unsubscribe = Unsubscribe {
        packet_id: 16,
        dup: false,
        properties: Properties::from_slice(&[]),
        topics: &["ABC"],
    };

    let mut buffer: [u8; 900] = [0; 900];
    let message = MqttSerializer::encode(&mut buffer, &unsubscribe).unwrap();

    assert_eq!(message, good_unsubscribe);
}

#[test]
fn packets_serialize_publish_with_properties() {
    let good_publish: [u8; 14] = [
        0x30, // Publish message
        0x0c, // Remaining length (14)
        0x00, 0x03, 0x41, 0x42, 0x43, // Topic: ABC
        0x04, // Properties length - 1 property encoding a string of length 4
        0x08, 0x00, 0x01, 0x41, // Response topic "A"
        0xAB, 0xCD, // Payload
    ];

    let props = [Property::ResponseTopic("A")];
    let header = PublishHeader {
        qos: QoS::AtMostOnce,
        topic: Utf8String("ABC"),
        packet_id: None,
        dup: false,
        properties: Properties::from_slice(&props),
        retain: Retain::NotRetained,
    };
    let payload = &[0xAB, 0xCD][..];

    let mut buffer: [u8; 900] = [0; 900];
    let message = MqttSerializer::encode_publish(&mut buffer, &header, payload).unwrap();

    assert_eq!(message, good_publish);
}

#[test]
fn serialize_publish_with_user_prop() {
    let good_publish: [u8; 17] = [
        0x30, // Publish message
        0x0f, // Remaining length (15)
        0x00, 0x03, 0x41, 0x42, 0x43, // Topic: ABC
        0x07, // Properties length - 1 property encoding a string pair, each of length 1
        0x26, 0x00, 0x01, 0x41, 0x00, 0x01, 0x42, // UserProperty("A", "B")
        0xAB, 0xCD, // Payload
    ];

    let props = [Property::UserProperty("A", "B")];
    let header = PublishHeader {
        qos: QoS::AtMostOnce,
        topic: Utf8String("ABC"),
        packet_id: None,
        dup: false,
        properties: Properties::from_slice(&props),
        retain: Retain::NotRetained,
    };
    let payload = &[0xAB, 0xCD][..];

    let mut buffer: [u8; 900] = [0; 900];
    let message = MqttSerializer::encode_publish(&mut buffer, &header, payload).unwrap();

    assert_eq!(message, good_publish);
}

#[test]
fn packets_serialize_connect() {
    let good_serialized_connect: [u8; 18] = [
        0x10, // Connect
        0x10, // Remaining length (16)
        0x00, 0x04, 0x4d, 0x51, 0x54, 0x54, 0x05, // MQTT5 header
        0x02, // Flags (Clean start)
        0x00, 0x0a, // Keep-alive (10)
        0x00, // Properties length
        0x00, 0x03, 0x41, 0x42, 0x43, // ABC client ID
    ];

    let mut buffer: [u8; 900] = [0; 900];
    let connect = Connect {
        client_id: Utf8String("ABC"),
        auth: None,
        will: None,
        keepalive: 10,
        properties: Properties::from_slice(&[]),
        clean_start: true,
    };

    let message = MqttSerializer::encode(&mut buffer, &connect).unwrap();

    assert_eq!(message, good_serialized_connect)
}

#[test]
fn packets_serialize_connect_with_will() {
    let good_serialized_connect: [u8; 28] = [
        0x10, // Connect
        26,   // Remaining length
        0x00, 0x04, 0x4d, 0x51, 0x54, 0x54, 0x05, // Header: "MQTT5"
        0b0000_0110, // Flags: Clean start, will present, will not retained, will QoS = 0,
        0x00, 0x0a, // Keep-alive: 10 seconds
        0x00, // Connected Properties: None
        0x00, 0x03, 0x41, 0x42, 0x43, // Client ID: "ABC"
        0x00, // Will properties: None
        0x00, 0x03, 0x45, 0x46, 0x47, // Will topic: "EFG"
        0x00, 0x02, 0xAB, 0xCD, // Will payload: [0xAB, 0xCD]
    ];

    let mut buffer: [u8; 900] = [0; 900];
    let will = Will::new("EFG", &[0xAB, 0xCD], &[]).unwrap().qos(QoS::AtMostOnce);

    let connect = Connect {
        clean_start: true,
        keepalive: 10,
        properties: Properties::from_slice(&[]),
        client_id: Utf8String("ABC"),
        auth: None,
        will: Some(will),
    };

    let message = MqttSerializer::encode(&mut buffer, &connect).unwrap();

    assert_eq!(message, good_serialized_connect)
}

#[test]
fn packets_serialize_ping_req() {
    let good_ping_req: [u8; 2] = [
        0xc0, // Ping
        0x00, // Remaining length (0)
    ];

    let mut buffer: [u8; 1024] = [0; 1024];
    let message = MqttSerializer::encode(&mut buffer, &PingReq {}).unwrap();
    assert_eq!(message, good_ping_req);
}

#[test]
fn serialize_disconnect_success() {
    let mut buffer = [0u8; 16];
    let message = MqttSerializer::encode(&mut buffer, &Disconnect::success()).unwrap();
    assert_eq!(message, [0xe0, 0x00]);
}

#[test]
fn serialize_disconnect_with_will() {
    let mut buffer = [0u8; 16];
    let message = MqttSerializer::encode(&mut buffer, &Disconnect::with_will()).unwrap();
    assert_eq!(message, [0xe0, 0x01, ReasonCode::DisconnectWithWill.to_u8()]);
}

#[test]
fn serialize_disconnect_with_explicit_empty_properties() {
    let mut buffer = [0u8; 16];
    let disconnect = Disconnect::with_reason(ReasonCode::Success).with_properties(&[]);
    let message = MqttSerializer::encode(&mut buffer, &disconnect).unwrap();
    assert_eq!(message, [0xe0, 0x02, ReasonCode::Success.to_u8(), 0x00]);
}

#[test]
fn packets_serialize_pubrel() {
    let good_pubrel: [u8; 5] = [
        6 << 4 | 0b10, // PubRel
        0x03,          // Remaining length
        0x00,
        0x05, // Identifier
        0x10, // Response Code
    ];

    let pubrel = PubRel { packet_id: 5, reason: Reason::from_code(ReasonCode::NoMatchingSubscribers) };

    let mut buffer: [u8; 1024] = [0; 1024];
    assert_eq!(MqttSerializer::encode(&mut buffer, &pubrel).unwrap(), good_pubrel);
}

#[test]
fn serialize_puback() {
    let good_puback: [u8; 5] = [
        4 << 4, // PubAck
        0x03,   // Remaining length
        0x00,
        0x15, // Identifier
        0x00, // Response Code
    ];

    let pubrel = PubAck {
        packet_id: 0x15,
        reason: Reason { reason: Some(ReasonData { code: ReasonCode::Success, properties: None }) },
    };

    let mut buffer: [u8; 1024] = [0; 1024];
    assert_eq!(MqttSerializer::encode(&mut buffer, &pubrel).unwrap(), good_puback);
}

#[test]
fn serialize_pubcomp() {
    let good_pubcomp: [u8; 5] = [
        7 << 4, // PubComp
        0x03,   // Remaining length
        0x00,
        0x15, // Identifier
        0x00, // Response Code
    ];

    let pubrel = PubComp {
        packet_id: 0x15,
        reason: Reason { reason: Some(ReasonData { code: ReasonCode::Success, properties: None }) },
    };

    let mut buffer: [u8; 1024] = [0; 1024];
    assert_eq!(MqttSerializer::encode(&mut buffer, &pubrel).unwrap(), good_pubcomp);
}

#[test]
fn will_refuses_properties_not_allowed_for_wills() {
    let props = [Property::TopicAlias(3)];
    assert!(matches!(
        Will::new("t", b"x", &props),
        Err(minimq::ConfigError::InvalidConfig)
    ));
}

#[test]
fn connect_flags_cover_will_and_credentials() {
    let will = Will::new("t", b"x", &[]).unwrap().qos(QoS::AtLeastOnce).retained(Retain::Retained);
    let connect = Connect {
        clean_start: false,
        keepalive: 0,
        properties: Properties::from_slice(&[]),
        client_id: Utf8String("c"),
        auth: Some(minimq::packets::Auth::new("u", b"p")),
        will: Some(will),
    };
    assert_eq!(connect.flags(), 0b1110_1100);
}
