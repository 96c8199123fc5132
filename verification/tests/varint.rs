use minimq::varint::{
    read_mqtt_u32_varint, write_mqtt_u32_varint, VarintBuffer, VarintError, MQTT_VARINT_MAX,
};

#[test]
fn mqtt_varint_rejects_fourth_byte_overflow() {
    let bytes = [0xFF, 0xFF, 0xFF, 0xFF];
    let result = read_mqtt_u32_varint(&bytes);
    assert_eq!(result, Err(VarintError::Invalid));
}

#[test]
fn mqtt_varint_encodes_four_bytes_max() {
    let mut buffer = VarintBuffer::new();
    write_mqtt_u32_varint(MQTT_VARINT_MAX, &mut buffer).unwrap();
    assert_eq!(buffer.as_slice(), &[0xFF, 0xFF, 0xFF, 0x7F]);
}

#[test]
fn mqtt_varint_rejects_overlong_zero() {
    let bytes = [0x80, 0x00];
    let result = read_mqtt_u32_varint(&bytes);
    assert_eq!(result, Err(VarintError::Invalid));
}

#[test]
fn mqtt_varint_rejects_oversize_encode() {
    let mut buffer = VarintBuffer::new();
    assert_eq!(write_mqtt_u32_varint(MQTT_VARINT_MAX + 1, &mut buffer), Err(()));
}

#[test]
fn mqtt_varint_round_trips_two_bytes() {
    let mut buffer = VarintBuffer::new();
    write_mqtt_u32_varint(200, &mut buffer).unwrap();
    assert_eq!(buffer.as_slice(), &[0xC8, 0x01]);
    assert_eq!(read_mqtt_u32_varint(buffer.as_slice()), Ok((200, 2)));
}

#[test]
fn mqtt_varint_reports_incomplete_input() {
    assert_eq!(read_mqtt_u32_varint(&[0x80]), Err(VarintError::Incomplete));
}
