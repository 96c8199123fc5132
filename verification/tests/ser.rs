use minimq::packets::{PingReq, PublishHeader};
use minimq::publication::Publication;
use minimq::ser::{Error, MqttSerializer, PubError, MAX_FIXED_HEADER_SIZE};
use minimq::wire::Utf8String;

#[test]
fn control_packet_encode_rejects_buffers_smaller_than_fixed_header() {
    for len in 0..MAX_FIXED_HEADER_SIZE {
        let mut buf = vec![0u8; len];
        let result = MqttSerializer::encode(&mut buf, &PingReq);
        assert!(matches!(result, Err(Error::InsufficientMemory)));
    }
}

#[test]
fn publish_encode_rejects_buffers_smaller_than_fixed_header() {
    for len in 0..MAX_FIXED_HEADER_SIZE {
        let mut buf = vec![0u8; len];
        let publication = Publication::bytes("a", b"x");
        let header = PublishHeader {
            topic: Utf8String(publication.topic),
            packet_id: None,
            properties: publication.properties,
            retain: publication.retain,
            qos: publication.qos,
            dup: false,
        };
        let result = MqttSerializer::encode_publish(&mut buf, &header, publication.payload);
        assert!(matches!(result, Err(PubError::Encode(Error::InsufficientMemory))));
    }
}

#[test]
fn publish_payload_that_does_not_fit_is_a_payload_error() {
    let mut buf = vec![0u8; 10];
    let header = PublishHeader {
        topic: Utf8String("a"),
        packet_id: None,
        properties: minimq::properties::Properties::empty(),
        retain: minimq::Retain::NotRetained,
        qos: minimq::QoS::AtMostOnce,
        dup: false,
    };
    let payload = [7u8; 8];
    let result = MqttSerializer::encode_publish(&mut buf, &header, &payload[..]);
    assert!(matches!(result, Err(PubError::Payload(()))));
}

#[test]
fn finish_without_fixed_header_returns_fields_only() {
    let mut buf = [0u8; 16];
    let mut ser = MqttSerializer::new(&mut buf);
    ser.push_u16(0x1234).unwrap();
    assert_eq!(ser.finish_without_fixed_header(), &[0x12, 0x34]);
}

#[test]
fn failed_push_leaves_the_body_as_it_was() {
    let mut buf = [0u8; 8];
    let mut ser = MqttSerializer::new(&mut buf);
    ser.push_bytes(&[1, 2, 3]).unwrap();
    assert_eq!(ser.push_bytes(&[4]), Err(Error::InsufficientMemory));
    assert_eq!(ser.push(5), Err(Error::InsufficientMemory));
    assert_eq!(ser.finish_without_fixed_header(), &[1, 2, 3]);
}

#[test]
fn finalize_puts_the_packet_at_its_offset() {
    let mut buf = [0xEEu8; 8];
    let ser = MqttSerializer::new(&mut buf);
    let (offset, packet) = ser.finalize(minimq::wire::MessageType::PingReq, 0).unwrap();
    assert_eq!(offset, 3);
    assert_eq!(packet, &[0xC0, 0x00]);
    assert_eq!(buf, [0xEE, 0xEE, 0xEE, 0xC0, 0x00, 0xEE, 0xEE, 0xEE]);
}

#[test]
fn finalize_in_a_short_buffer_changes_nothing() {
    let mut buf = [1u8, 2, 3];
    let ser = MqttSerializer::new(&mut buf);
    assert_eq!(ser.finalize(minimq::wire::MessageType::PingReq, 0), Err(Error::InsufficientMemory));
    assert_eq!(buf, [1, 2, 3]);
}
