use minimq::received::ReceivedPacket;

#[test]
fn deserialize_deserialize_good_publish() {
    let serialized_publish: [u8; 7] = [
        0x30, // Publish, no QoS
        0x05, // Remaining length
        0x00, 0x01, // Topic length (1)
        0x41, // Topic name: 'A'
        0x00, // Properties length
        0x05, // Payload
    ];

    let packet = ReceivedPacket::from_buffer(&serialized_publish).unwrap();
    match packet {
        ReceivedPacket::Publish(pub_info) => {
            assert_eq!(pub_info.topic.0, "A");
            assert_eq!(pub_info.payload, &[0x05]);
        }
        _ => panic!("Invalid message"),
    }
}

#[test]
fn deserialize_deserialize_good_suback() {
    let serialized_suback: [u8; 6] = [
        0x90, // SubAck
        0x04, // Remaining length
        0x00, 0x05, // Identifier
        0x00, // Properties length
        0x02, // Response Code
    ];

    let packet = ReceivedPacket::from_buffer(&serialized_suback).unwrap();
    match packet {
        ReceivedPacket::SubAck(sub_ack) => {
            assert_eq!(sub_ack.codes, &[2]);
            assert_eq!(sub_ack.packet_id, 5);
        }
        _ => panic!("Invalid message"),
    }
}
