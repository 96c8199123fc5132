use minimq::de::PacketParser;
use minimq::packet_writer::ReversedPacketWriter;
use minimq::properties::Property;
use minimq::ProtocolError;

#[test]
fn write_utf8_string_lands_at_the_end_of_the_buffer() {
    let mut buffer = [0u8; 5];
    let mut w = ReversedPacketWriter::new(&mut buffer);
    assert_eq!(w.write_utf8_string("ABC"), Ok(()));
    assert_eq!(w.current_length(), 5);
    w.release();
    assert_eq!(buffer, [0x00, 0x03, 0x41, 0x42, 0x43]);
}

#[test]
fn write_u32_is_big_endian_and_bounded() {
    let mut buffer = [0u8; 4];
    let mut w = ReversedPacketWriter::new(&mut buffer);
    assert_eq!(w.write_u32(0x0102_0304), Ok(()));
    assert_eq!(w.current_length(), 4);
    assert_eq!(w.write_u32(0), Err(ProtocolError::Bounds));
    drop(w);
    assert_eq!(buffer, [0x01, 0x02, 0x03, 0x04]);
}

#[test]
fn u16_round_trips_through_the_buffer() {
    for v in [0u16, 1, 0x1234, 0xFFFF] {
        let mut buf = [0u8; 2];
        let mut w = ReversedPacketWriter::new(&mut buf);
        assert_eq!(w.write_u16(v), Ok(()));
        drop(w);
        let mut p = PacketParser::new(&buf);
        assert_eq!(p.read_u16(), Ok(v));
    }
    let one = [7u8];
    let mut p = PacketParser::new(&one);
    assert_eq!(p.read_u16(), Err(ProtocolError::DataSize));
}

#[test]
fn writer_leaves_the_front_of_the_buffer_alone() {
    let mut buffer = [9u8; 6];
    let mut w = ReversedPacketWriter::new(&mut buffer);
    assert_eq!(w.write_u16(0xABCD), Ok(()));
    w.release();
    assert_eq!(buffer, [9, 9, 9, 9, 0xAB, 0xCD]);
}

#[test]
fn variable_length_integer_is_low_group_first() {
    let cases: [(usize, &[u8]); 6] = [
        (0, &[0x00]),
        (127, &[0x7F]),
        (128, &[0x80, 0x01]),
        (16_383, &[0xFF, 0x7F]),
        (16_384, &[0x80, 0x80, 0x01]),
        (268_435_455, &[0xFF, 0xFF, 0xFF, 0x7F]),
    ];
    for (value, expected) in cases {
        let mut buffer = [0u8; 4];
        let mut w = ReversedPacketWriter::new(&mut buffer);
        assert_eq!(w.write_variable_length_integer(value), Ok(()));
        let n = w.current_length();
        w.release();
        assert_eq!(&buffer[4 - n..], expected);
        let mut p = PacketParser::new(&buffer[4 - n..]);
        assert_eq!(p.read_variable_length_integer(), Ok(value));
    }
    let mut buffer = [0u8; 4];
    let mut w = ReversedPacketWriter::new(&mut buffer);
    assert_eq!(w.write_variable_length_integer(268_435_456), Err(ProtocolError::DataSize));
    assert_eq!(w.current_length(), 0);
}

#[test]
fn long_property_block_gets_an_mqtt_length_prefix() {
    let key = "k".repeat(60);
    let value = "v".repeat(63);
    let props = [Property::UserProperty(&key, &value)];
    let mut buffer = [0u8; 200];
    let mut w = ReversedPacketWriter::new(&mut buffer);
    assert_eq!(w.write_properties(&props), Ok(()));
    assert_eq!(w.current_length(), 130);
    w.release();
    assert_eq!(&buffer[70..73], &[0x80, 0x01, 0x26]);
    let mut p = PacketParser::new(&buffer[70..]);
    assert_eq!(p.read_variable_length_integer(), Ok(128));

    let mut small = [0u8; 1];
    let mut w = ReversedPacketWriter::new(&mut small);
    assert_eq!(w.write_properties(&[]), Ok(()));
    w.release();
    assert_eq!(small, [0x00]);
}
