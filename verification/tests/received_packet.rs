use minimq::de::Error as DeError;
use minimq::received::ReceivedPacket;
use minimq::{ProtocolError, QoS, ReasonCode, Retain};

#[test]
fn received_packet_deserialize_good_connack() {
    let serialized_connack: [u8; 5] = [
        0x20, 0x03, // Remaining length = 3 bytes
        0x00, // Connect acknowledge flags - bit 0 clear.
        0x00, // Connect reason code - 0 (Success)
        0x00, // Property length = 0
              // No payload.
    ];

    let packet = ReceivedPacket::from_buffer(&serialized_connack).unwrap();
    match packet {
        ReceivedPacket::ConnAck(conn_ack) => {
            assert_eq!(conn_ack.reason_code, ReasonCode::Success);
        }
        _ => panic!("Invalid message"),
    }
}

#[test]
fn received_packet_deserialize_good_publish() {
    let serialized_publish: [u8; 7] = [
        0x30, // Publish, no QoS
        0x05, // Remaining length
        0x00, 0x01, // Topic length (1)
        0x41, // Topic name: 'A'
        0x00, // Properties length
        0x05, // Payload
    ];

    let packet = ReceivedPacket::from_buffer(&serialized_publish).unwrap();
    match packet {
        ReceivedPacket::Publish(pub_info) => {
            assert_eq!(pub_info.topic.0, "A");
        }
        _ => panic!("Invalid message"),
    }
}

#[test]
fn received_packet_deserialize_good_puback() {
    let serialized_puback: [u8; 6] = [
        0x40, // PubAck
        0x04, // Remaining length
        0x00, 0x05, // Identifier
        0x10, // Response Code
        0x00, // Properties length
    ];

    let packet = ReceivedPacket::from_buffer(&serialized_puback).unwrap();
    match packet {
        ReceivedPacket::PubAck(pub_ack) => {
            assert_eq!(pub_ack.reason.code(), ReasonCode::NoMatchingSubscribers);
            assert_eq!(pub_ack.packet_id, 5);
        }
        _ => panic!("Invalid message"),
    }
}

#[test]
fn received_packet_deserialize_good_puback_without_reason() {
    let serialized_puback: [u8; 4] = [
        0x40, // PubAck
        0x02, // Remaining length
        0x00, 0x06, // Identifier
    ];

    let packet = ReceivedPacket::from_buffer(&serialized_puback).unwrap();
    match packet {
        ReceivedPacket::PubAck(pub_ack) => {
            assert_eq!(pub_ack.packet_id, 6);
            assert_eq!(pub_ack.reason.code(), ReasonCode::Success);
        }
        _ => panic!("Invalid message"),
    }
}

#[test]
fn deserialize_good_puback_without_properties() {
    let serialized_puback: [u8; 5] = [
        0x40, // PubAck
        0x03, // Remaining length
        0x00, 0x06, // Identifier
        0x10, // ReasonCode
    ];

    let packet = ReceivedPacket::from_buffer(&serialized_puback).unwrap();
    match packet {
        ReceivedPacket::PubAck(pub_ack) => {
            assert_eq!(pub_ack.packet_id, 6);
            assert_eq!(pub_ack.reason.code(), ReasonCode::NoMatchingSubscribers);
        }
        _ => panic!("Invalid message"),
    }
}

#[test]
fn received_packet_deserialize_good_suback() {
    let serialized_suback: [u8; 6] = [
        0x90, // SubAck
        0x04, // Remaining length
        0x00, 0x05, // Identifier
        0x00, // Properties length
        0x02, // Response Code
    ];

    let packet = ReceivedPacket::from_buffer(&serialized_suback).unwrap();
    match packet {
        ReceivedPacket::SubAck(sub_ack) => {
            assert_eq!(sub_ack.codes.len(), 1);
            assert_eq!(ReasonCode::from_u8(sub_ack.codes[0]), ReasonCode::GrantedQos2);
            assert_eq!(sub_ack.packet_id, 5);
        }
        _ => panic!("Invalid message"),
    }
}

#[test]
fn deserialize_good_unsuback() {
    let serialized_unsuback: [u8; 6] = [
        0xB0, // UnsubAck
        0x04, // Remaining length
        0x00, 0x05, // Identifier
        0x00, // Properties length
        0x11, // Response Code
    ];

    let packet = ReceivedPacket::from_buffer(&serialized_unsuback).unwrap();
    match packet {
        ReceivedPacket::UnsubAck(unsub_ack) => {
            assert_eq!(unsub_ack.codes.len(), 1);
            assert_eq!(
                ReasonCode::from_u8(unsub_ack.codes[0]),
                ReasonCode::NoSubscriptionExisted
            );
            assert_eq!(unsub_ack.packet_id, 5);
        }
        _ => panic!("Invalid message"),
    }
}

#[test]
fn received_packet_deserialize_good_ping_resp() {
    let serialized_ping_req: [u8; 2] = [
        0xd0, // Ping resp
        0x00, // Remaining length (0)
    ];

    let packet = ReceivedPacket::from_buffer(&serialized_ping_req).unwrap();
    match packet {
        ReceivedPacket::PingResp => {}
        _ => panic!("Invalid message"),
    }
}

#[test]
fn reject_ping_resp_with_invalid_flags() {
    let serialized_ping_resp: [u8; 2] = [
        0xd1, // Ping resp with invalid flags
        0x00,
    ];

    assert!(matches!(
        ReceivedPacket::from_buffer(&serialized_ping_resp),
        Err(ProtocolError::Deserialization(DeError::Custom))
    ));
}

#[test]
fn reject_pubrel_with_invalid_flags() {
    let serialized_pubrel: [u8; 4] = [
        0x60, // PubRel with invalid flags
        0x02, 0x00, 0x05,
    ];

    assert!(matches!(
        ReceivedPacket::from_buffer(&serialized_pubrel),
        Err(ProtocolError::Deserialization(DeError::Custom))
    ));
}

#[test]
fn received_packet_deserialize_good_pubcomp() {
    let serialized_pubcomp: [u8; 6] = [
        7 << 4, // PubComp
        0x04,   // Remaining length
        0x00,
        0x05, // Identifier
        0x92, // Response Code
        0x00, // Properties length
    ];
    let packet = ReceivedPacket::from_buffer(&serialized_pubcomp).unwrap();
    match packet {
        ReceivedPacket::PubComp(comp) => {
            assert_eq!(comp.packet_id, 5);
            assert_eq!(comp.reason.code(), ReasonCode::PacketIdNotFound);
        }
        _ => panic!("Invalid message"),
    }
}

#[test]
fn received_packet_deserialize_short_pubcomp() {
    let serialized_pubcomp: [u8; 4] = [
        7 << 4, // PubComp
        0x02,   // Remaining length
        0x00,
        0x05, // Identifier
    ];
    let packet = ReceivedPacket::from_buffer(&serialized_pubcomp).unwrap();
    match packet {
        ReceivedPacket::PubComp(comp) => {
            assert_eq!(comp.packet_id, 5);
            assert_eq!(comp.reason.code(), ReasonCode::Success);
        }
        _ => panic!("Invalid message"),
    }
}

#[test]
fn received_packet_deserialize_good_pubrec() {
    let serialized_pubrec: [u8; 6] = [
        5 << 4, // PubRec
        0x04,   // Remaining length
        0x00,
        0x05, // Identifier
        0x10, // Response Code
        0x00, // Properties length
    ];
    let packet = ReceivedPacket::from_buffer(&serialized_pubrec).unwrap();
    match packet {
        ReceivedPacket::PubRec(rec) => {
            assert_eq!(rec.packet_id, 5);
            assert_eq!(rec.reason.code(), ReasonCode::NoMatchingSubscribers);
        }
        _ => panic!("Invalid message"),
    }
}

#[test]
fn received_packet_deserialize_short_pubrec() {
    let serialized_pubrec: [u8; 4] = [
        5 << 4, // PubRec
        0x02,   // Remaining length
        0x00,
        0x05, // Identifier
    ];
    let packet = ReceivedPacket::from_buffer(&serialized_pubrec).unwrap();
    match packet {
        ReceivedPacket::PubRec(rec) => {
            assert_eq!(rec.packet_id, 5);
            assert_eq!(rec.reason.code(), ReasonCode::Success);
        }
        _ => panic!("Invalid message"),
    }
}

#[test]
fn deserialize_good_pubrel() {
    let serialized_pubrel: [u8; 6] = [
        6 << 4 | 0b10, // PubRec
        0x04,          // Remaining length
        0x00,
        0x05, // Identifier
        0x10, // Response Code
        0x00, // Properties length
    ];
    let packet = ReceivedPacket::from_buffer(&serialized_pubrel).unwrap();
    match packet {
        ReceivedPacket::PubRel(rec) => {
            assert_eq!(rec.packet_id, 5);
            assert_eq!(rec.reason.code(), ReasonCode::NoMatchingSubscribers);
        }
        _ => panic!("Invalid message"),
    }
}

#[test]
fn deserialize_short_pubrel() {
    let serialized_pubrel: [u8; 4] = [
        6 << 4 | 0b10, // PubRec
        0x02,          // Remaining length
        0x00,
        0x05, // Identifier
    ];
    let packet = ReceivedPacket::from_buffer(&serialized_pubrel).unwrap();
    match packet {
        ReceivedPacket::PubRel(rec) => {
            assert_eq!(rec.packet_id, 5);
            assert_eq!(rec.reason.code(), ReasonCode::Success);
        }
        _ => panic!("Invalid message"),
    }
}

#[test]
fn deserialize_disconnect_with_reason_only() {
    let serialized_disconnect: [u8; 3] = [
        14 << 4, // Disconnect
        0x01,    // Remaining length
        0x82,    // Protocol Error
    ];
    let packet = ReceivedPacket::from_buffer(&serialized_disconnect).unwrap();
    match packet {
        ReceivedPacket::Disconnect(disconnect) => {
            assert_eq!(disconnect.reason_code(), ReasonCode::ProtocolError);
        }
        _ => panic!("Invalid message"),
    }
}

#[test]
fn deserialize_disconnect_without_reason() {
    let serialized_disconnect: [u8; 2] = [
        14 << 4, // Disconnect
        0x00,    // Remaining length
    ];
    let packet = ReceivedPacket::from_buffer(&serialized_disconnect).unwrap();
    match packet {
        ReceivedPacket::Disconnect(disconnect) => {
            assert_eq!(disconnect.reason_code(), ReasonCode::Success);
        }
        _ => panic!("Invalid message"),
    }
}

#[test]
fn received_publish_qos1_carries_id_properties_and_payload() {
    // QoS 1, retained, duplicate; topic "ab", id 0x0102, one payload format property.
    let buf: [u8; 13] = [
        0x3B, 0x0B, 0x00, 0x02, b'a', b'b', 0x01, 0x02, 0x02, 0x01, 0x01, 0xAA, 0xBB,
    ];
    match ReceivedPacket::from_buffer(&buf).unwrap() {
        ReceivedPacket::Publish(p) => {
            assert_eq!(p.topic.0, "ab");
            assert_eq!(p.packet_id, Some(0x0102));
            assert_eq!(p.qos, QoS::AtLeastOnce);
            assert_eq!(p.retain, Retain::Retained);
            assert!(p.dup);
            assert_eq!(p.payload, &[0xAA, 0xBB]);
            let items = p.properties.iter();
            assert_eq!(items.len(), 1);
            assert_eq!(items[0], Ok(minimq::properties::Property::PayloadFormatIndicator(1)));
        }
        _ => panic!("Invalid message"),
    }
}

#[test]
fn received_packet_errors() {
    assert!(matches!(
        ReceivedPacket::from_buffer(&[]),
        Err(ProtocolError::Deserialization(DeError::InsufficientData))
    ));
    // Remaining length that never terminates.
    assert!(matches!(
        ReceivedPacket::from_buffer(&[0xd0, 0x80]),
        Err(ProtocolError::Deserialization(DeError::InsufficientData))
    ));
    // Overlong remaining length.
    assert!(matches!(
        ReceivedPacket::from_buffer(&[0xd0, 0x80, 0x00]),
        Err(ProtocolError::Deserialization(DeError::Custom))
    ));
    // Packet type 0.
    assert!(matches!(
        ReceivedPacket::from_buffer(&[0x00, 0x00]),
        Err(ProtocolError::Deserialization(DeError::Custom))
    ));
    // A client-to-broker packet type.
    assert!(matches!(
        ReceivedPacket::from_buffer(&[0xc0, 0x00]),
        Err(ProtocolError::Deserialization(DeError::Custom))
    ));
    // Publish with QoS 3.
    assert!(matches!(
        ReceivedPacket::from_buffer(&[0x36, 0x03, 0x00, 0x00, 0x00]),
        Err(ProtocolError::Deserialization(DeError::Custom))
    ));
    // CONNACK with a session-present byte that is not a boolean.
    assert!(matches!(
        ReceivedPacket::from_buffer(&[0x20, 0x03, 0x02, 0x00, 0x00]),
        Err(ProtocolError::Deserialization(DeError::BadBool))
    ));
    // Publish topic that is not UTF-8.
    assert!(matches!(
        ReceivedPacket::from_buffer(&[0x30, 0x04, 0x00, 0x01, 0xff, 0x00]),
        Err(ProtocolError::Deserialization(DeError::BadString))
    ));
    // Trailing bytes after a PINGRESP.
    assert!(matches!(
        ReceivedPacket::from_buffer(&[0xd0, 0x01, 0x00]),
        Err(ProtocolError::MalformedPacket)
    ));
    // Trailing bytes after an acknowledgement's property block.
    assert!(matches!(
        ReceivedPacket::from_buffer(&[0x40, 0x05, 0x00, 0x01, 0x00, 0x00, 0x07]),
        Err(ProtocolError::MalformedPacket)
    ));
    // Property block longer than the buffer.
    assert!(matches!(
        ReceivedPacket::from_buffer(&[0x20, 0x03, 0x00, 0x00, 0x05]),
        Err(ProtocolError::Deserialization(DeError::InsufficientData))
    ));
}

#[test]
fn received_packet_kind_names() {
    assert_eq!(ReceivedPacket::from_buffer(&[0xd0, 0x00]).unwrap().kind(), "PINGRESP");
    assert_eq!(ReceivedPacket::from_buffer(&[0x40, 0x02, 0x00, 0x01]).unwrap().kind(), "PUBACK");
}
