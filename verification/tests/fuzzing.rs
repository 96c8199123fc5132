use minimq::fuzzing::{drive_packet_reader, encode_packet, parse_received_packet};

#[test]
fn reader_takes_one_whole_packet_and_stops() {
    let mut storage = [0xAAu8; 8];
    // A PINGRESP-shaped packet of two bytes, then the start of another.
    let taken = drive_packet_reader(&mut storage, &[0x30, 0x00, 0x30], &[]);
    assert_eq!(taken, 2);
    assert_eq!(&storage[..2], &[0x30, 0x00]);
    assert_eq!(&storage[2..], &[0xAA; 6]);
}

#[test]
fn reader_takes_fragments_up_to_the_packet_end() {
    let mut storage = [0u8; 16];
    let input = [0x30, 0x03, 1, 2, 3, 9, 9];
    let taken = drive_packet_reader(&mut storage, &input, &[1, 1, 10]);
    assert_eq!(taken, 5);
    assert_eq!(&storage[..5], &input[..5]);
}

#[test]
fn reader_stops_when_the_packet_does_not_fit() {
    let mut storage = [0u8; 4];
    let taken = drive_packet_reader(&mut storage, &[0x30, 0x10, 0, 0, 0], &[]);
    assert_eq!(taken, 2);
}

#[test]
fn reader_takes_all_of_a_short_input() {
    let mut storage = [0u8; 8];
    let taken = drive_packet_reader(&mut storage, &[0x30], &[]);
    assert_eq!(taken, 1);
}

#[test]
fn encode_packet_writes_a_ping() {
    let mut buf = [0u8; 16];
    encode_packet(&mut buf, 0, "t", b"", 0, false, 0);
    // The two-byte PINGREQ sits just before the body's reserved space ends.
    assert_eq!(&buf[3..5], &[0xC0, 0x00]);
}

#[test]
fn parsing_arbitrary_bytes_does_not_panic() {
    parse_received_packet(&[0x30, 0x05, 0x00, 0x01, b'a', 0xFF]);
    parse_received_packet(&[]);
}

#[test]
fn encode_packet_keeps_bytes_outside_the_packet() {
    let mut buf = [0u8; 12];
    encode_packet(&mut buf, 11, "a", b"x", 5, false, 0);
    assert_eq!(buf, [0x00, 0x00, 0x00, 0x32, 0x07, 0x00, 0x01, 0x61, 0x00, 0x01, 0x00, 0x78]);

    let mut marked = [0xAAu8; 14];
    encode_packet(&mut marked, 0, "t", b"", 0, false, 0);
    assert_eq!(&marked[0..3], &[0xAA, 0xAA, 0xAA]);
    assert_eq!(&marked[3..5], &[0xC0, 0x00]);
    assert!(marked[5..].iter().all(|b| *b == 0xAA));
}

#[test]
fn encode_packet_leaves_a_short_buffer_alone() {
    let mut buf = [7u8, 8, 9, 10];
    for tag in 0..10u8 {
        encode_packet(&mut buf, tag, "topic", b"payload", 1, true, 0xFF);
        assert_eq!(buf, [7, 8, 9, 10]);
    }
}
