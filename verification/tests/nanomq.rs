use minimq::nanomq::{
    msg_connect, msg_publish, msg_subscribe, read_binary_data, read_connack, read_fixed_header,
    read_publish, read_suback, read_two_byte_integer, read_utf8_encoded_string,
    read_variable_byte_integer, read_byte, write_byte, write_fixed_header,
    write_two_byte_integer, write_utf8_encoded_string, write_variable_byte_integer, Meta, Packet,
    PacketReader, Protocol, ProtocolState, PubInfo, CONNACK, CONNECT, PACKET_MAX, PUBLISH,
    SUBACK, SUBSCRIBE,
};
use minimq::properties::{property_data, Data, SUBSCRIPTION_IDENTIFIER};

#[test]
fn protocol() {
    let mut proto = Protocol::new();
    let mut r = PacketReader::new();

    // Initial CONNECT
    let id = "01234567890123456789012".as_bytes();
    let connect = proto.connect(id, 10);
    let (read, done) = r.slurp(connect).unwrap();
    assert_eq!(read, connect.len());
    assert_eq!(done, true);
    assert_eq!(r.packet().typ(), CONNECT);
    assert_eq!(proto.state(), ProtocolState::Connect);
    r.reset();

    // Inbound PUBLISH during in Connect state is an error.
    let mut i = PubInfo::new();
    i.topic = Meta::new("test".as_bytes());
    let mut p = msg_publish(&i, "Hello, World!".as_bytes());
    let err = proto.receive(p.buf());
    assert_eq!(err, Err(()));
    assert_eq!(proto.state(), ProtocolState::Close);
    proto.s = ProtocolState::Connect;

    // CONNACK with reason code > 0 is an error.
    let mut p = Packet::new(PACKET_MAX, PACKET_MAX);
    write_byte(42, &mut p); // Reason code
    write_byte(0, &mut p); // Ack flags
    write_fixed_header(CONNACK, 0, &mut p);
    let err = proto.receive(p.buf());
    assert_eq!(err, Err(()));
    assert_eq!(proto.state(), ProtocolState::Close);
    proto.s = ProtocolState::Connect;

    // CONNACK with reason code 0 transitions to Ready state.
    let mut p = Packet::new(PACKET_MAX, PACKET_MAX);
    write_byte(0, &mut p); // Reason code
    write_byte(0, &mut p); // Ack flags
    write_fixed_header(CONNACK, 0, &mut p);
    let (read, reply) = proto.receive(p.buf()).unwrap();
    assert_eq!(read, p.len());
    assert_eq!(reply, None);
    assert_eq!(proto.state(), ProtocolState::Ready);

    // Inbound messages other that PUBLISH during Ready state are errors.
    let mut p = msg_subscribe("test".as_bytes(), 0, 42, 12);
    let err = proto.receive(p.buf());
    assert_eq!(err, Err(()));
    assert_eq!(proto.state(), ProtocolState::Close);
    proto.s = ProtocolState::Ready;

    // Inbound PUBLISH during Ready state need to be handled.
    let payload = "Hello, World!".as_bytes();
    let mut i = PubInfo::new();
    i.response = Some(Meta::new("test".as_bytes()));
    i.cd = Some(Meta::new("foo".as_bytes()));
    let mut p = msg_publish(&i, payload);
    p.pop(5); // Pop prop. len., emtpy topic, fixed header
    // Graft Subscription Identifier into packet...
    write_variable_byte_integer(12, &mut p);
    write_variable_byte_integer(SUBSCRIPTION_IDENTIFIER, &mut p);
    let plen = p.len() - payload.len();
    write_variable_byte_integer(plen, &mut p); // Prop. len.
    write_utf8_encoded_string(i.topic.get(), &mut p);
    write_fixed_header(PUBLISH, 0, &mut p);
    let (read, reply) = proto.receive(p.buf()).unwrap();
    assert_eq!(read, p.len());
    assert_eq!(reply, None); // XXX QoS / PUBACK
    if let Some((pi, pl)) = proto.handle() {
        assert_eq!(pi.sid, Some(12));
        assert_eq!(pi.response.as_ref().unwrap().get(), "test".as_bytes());
        assert_eq!(pi.cd.as_ref().unwrap().get(), "foo".as_bytes());
        i.topic.set(pi.response.as_ref().unwrap().get()).unwrap();
        assert_eq!(pl, payload);
        let response = proto.publish(&i, "OK".as_bytes());
        let (read, done) = r.slurp(response).unwrap();
        assert_eq!(read, response.len());
        assert_eq!(done, true);
        r.reset();
        assert_eq!(proto.state(), ProtocolState::Ready);
    } else {
        panic!("Expected PUBLISH to handle.");
    }

    // We can SUBSCRIBE while in Ready state.
    let sub = proto.subscribe("test".as_bytes(), 12);
    let (read, done) = r.slurp(sub).unwrap();
    assert_eq!(read, sub.len());
    assert_eq!(done, true);
    assert_eq!(r.packet().typ(), SUBSCRIBE);
    assert_eq!(proto.state(), ProtocolState::Subscribe);
    r.reset();

    // Inbound PUBLISH messages are discarded while in Subscribe state.
    let mut i = PubInfo::new();
    i.topic = Meta::new("test".as_bytes());
    let mut p = msg_publish(&i, "Hello, World!".as_bytes());
    let (read, reply) = proto.receive(p.buf()).unwrap();
    assert_eq!(read, p.len());
    assert_eq!(reply, None);
    assert_eq!(proto.state(), ProtocolState::Subscribe);

    // Matching inbound SUBACK transitions from Subscribe into Ready state.
    let mut p = Packet::new(PACKET_MAX, PACKET_MAX);
    write_byte(0, &mut p); // Reason code
    write_variable_byte_integer(0, &mut p); // No properties
    write_two_byte_integer(proto.pid, &mut p); // Id
    write_fixed_header(SUBACK, 0, &mut p);
    let (read, reply) = proto.receive(p.buf()).unwrap();
    assert_eq!(read, p.len());
    assert_eq!(reply, None);
    assert_eq!(proto.state(), ProtocolState::Ready);

    // Any other inbound message while in Subscribe state is an error.
    // Reason Code > 0
    proto.s = ProtocolState::Subscribe;
    let mut p = Packet::new(PACKET_MAX, PACKET_MAX);
    write_byte(1, &mut p); // Reason code
    write_variable_byte_integer(0, &mut p); // No properties
    write_two_byte_integer(proto.pid, &mut p); // Id
    write_fixed_header(SUBACK, 0, &mut p);
    let err = proto.receive(p.buf());
    assert_eq!(err, Err(()));
    assert_eq!(proto.state(), ProtocolState::Close);
    // Wrong Packet ID
    proto.s = ProtocolState::Subscribe;
    let mut p = Packet::new(PACKET_MAX, PACKET_MAX);
    write_byte(1, &mut p); // Reason code
    write_variable_byte_integer(0, &mut p); // No properties
    write_two_byte_integer(0, &mut p); // Id
    write_fixed_header(SUBACK, 0, &mut p);
    let err = proto.receive(p.buf());
    assert_eq!(err, Err(()));
    assert_eq!(proto.state(), ProtocolState::Close);
    // Bogus message
    proto.s = ProtocolState::Subscribe;
    let mut p = msg_subscribe("test".as_bytes(), 0, 42, 12);
    let err = proto.receive(p.buf());
    assert_eq!(err, Err(()));
    assert_eq!(proto.state(), ProtocolState::Close);
}

#[test]
fn connect() {
    let mut p = msg_connect(0b10, 10, "foobar42".as_bytes());
    assert_eq!(p.typ(), CONNECT);
    let (typ, flags, rlen) = read_fixed_header(&mut p).unwrap();
    assert_eq!(typ, CONNECT);
    assert_eq!(flags, 0);
    assert_eq!(rlen, p.len());
    let magic = read_utf8_encoded_string(&mut p).unwrap();
    assert_eq!(magic, "MQTT".as_bytes());
    let version = read_byte(&mut p).unwrap();
    assert_eq!(version, 5);
    let flags = read_byte(&mut p).unwrap();
    assert_eq!(flags, 0b10);
    let keep_alive = read_two_byte_integer(&mut p).unwrap();
    assert_eq!(keep_alive, 10);
    let prop_len = read_variable_byte_integer(&mut p).unwrap();
    assert_eq!(prop_len, 0);
    let client_id = read_binary_data(&mut p).unwrap();
    assert_eq!(client_id, "foobar42".as_bytes());

    let mut p = Packet::new(PACKET_MAX, PACKET_MAX);
    write_byte(42, &mut p); // Reason code
    write_byte(0, &mut p); // Ack flags
    write_fixed_header(CONNACK, 0, &mut p);
    let reason_code = read_connack(&mut p).unwrap();
    assert_eq!(reason_code, 42);
}

#[test]
fn publish() {
    let mut i = PubInfo::new();
    i.topic = Meta::new("test".as_bytes());
    i.cd = Some(Meta::new("foobar".as_bytes()));
    let mut p = msg_publish(&i, "Hello, World!".as_bytes());
    let i = read_publish(&mut p).unwrap();
    assert_eq!(i.sid, None);
    assert_eq!(i.response.is_none(), true);
    assert_eq!(i.cd.unwrap().get(), "foobar".as_bytes());
    assert_eq!(p.buf(), "Hello, World!".as_bytes());
}

#[test]
fn subscribe() {
    let mut p = msg_subscribe("test".as_bytes(), 0b11111111, 42, 12);
    let (typ, flags, rlen) = read_fixed_header(&mut p).unwrap();
    assert_eq!(typ, SUBSCRIBE);
    assert_eq!(flags, 0b0010);
    assert_eq!(rlen, p.len());
    let id = read_two_byte_integer(&mut p).unwrap();
    assert_eq!(id, 42);
    let plen = read_variable_byte_integer(&mut p).unwrap();
    assert_eq!(plen, 2);
    let prop = read_variable_byte_integer(&mut p).unwrap();
    assert_eq!(prop, SUBSCRIPTION_IDENTIFIER);
    let sid = read_variable_byte_integer(&mut p).unwrap();
    assert_eq!(sid, 12);
    let topic = read_utf8_encoded_string(&mut p).unwrap();
    assert_eq!(topic, "test".as_bytes());
    let options = read_byte(&mut p).unwrap();
    assert_eq!(options, 0b00111111);

    let mut p = Packet::new(PACKET_MAX, PACKET_MAX);
    write_byte(1, &mut p); // Reason code
    p.push(13);
    write_variable_byte_integer(13, &mut p); // Bogus properties
    write_two_byte_integer(42, &mut p); // Id
    write_fixed_header(SUBACK, 0, &mut p);
    let (id, reason_code) = read_suback(&mut p).unwrap();
    assert_eq!(id, 42);
    assert_eq!(reason_code, 1);
}

#[test]
fn slurp() {
    let mut r = PacketReader::new();
    let (read, done) = r.slurp(&[0b1000_0001]).unwrap();
    assert_eq!(read, 1);
    assert_eq!(done, false);
    let (read, done) = r.slurp(&[2, 1, 2, 3, 4, 5]).unwrap();
    assert_eq!(read, 3);
    assert_eq!(done, true);
    assert_eq!(r.packet().typ(), 0b1000);
    assert_eq!(r.packet().len(), 4);
    assert_eq!(r.packet().buf()[0], 0b1000_0001);
    assert_eq!(r.packet().buf()[1], 2);
    assert_eq!(r.packet().buf()[2], 1);
    assert_eq!(r.packet().buf()[3], 2);
    let (read, done) = r.slurp(&[6]).unwrap();
    assert_eq!(read, 0);
    assert_eq!(done, true);
    r.reset();
    let (read, done) = r.slurp(&[0, 0b1000_0000, 0b1000_0000]).unwrap();
    assert_eq!(read, 3);
    assert_eq!(done, false);
    let (read, done) = r.slurp(&[0b1000_0000]).unwrap();
    assert_eq!(read, 1);
    assert_eq!(done, false);
    let err = r.slurp(&[0b1000_0000]);
    assert_eq!(err, Err(()));
    r.reset();
    let err = r.slurp(&[0, 0b1111_1111, 0b0111_1111]);
    assert_eq!(err, Err(()));
}

#[test]
fn property() {
    let data = property_data(SUBSCRIPTION_IDENTIFIER);
    assert_eq!(data.unwrap(), Data::VariableByteInteger);
    let none = property_data(0);
    assert_eq!(none, None);
}

#[test]
fn four_byte_writer_is_big_endian() {
    let mut p = Packet::new(PACKET_MAX, PACKET_MAX);
    minimq::nanomq::write_four_byte_integer(0x0102_0304, &mut p);
    assert_eq!(p.buf(), &[0x01, 0x02, 0x03, 0x04]);
    for n in [0u32, 0x1_0000, 0xFF00_FF00, u32::MAX] {
        let mut p = Packet::new(PACKET_MAX, PACKET_MAX);
        minimq::nanomq::write_four_byte_integer(n, &mut p);
        assert_eq!(minimq::nanomq::read_four_byte_integer(&mut p), Ok(n));
        assert_eq!(p.len(), 0);
    }
}

#[test]
fn receive_consumes_only_the_announced_packet() {
    let mut proto = Protocol::new();
    let id = "01234567890123456789012".as_bytes();
    let _ = proto.connect(id, 10);
    // A CONNACK followed by bytes of the next packet: only the CONNACK is taken.
    let stream = [0x20, 0x02, 0x00, 0x00, 0x30, 0x01];
    assert_eq!(proto.receive(&stream), Ok((4, None)));
    assert_eq!(proto.state(), ProtocolState::Ready);
}

#[test]
fn receive_collects_a_packet_in_pieces() {
    let mut proto = Protocol::new();
    let id = "01234567890123456789012".as_bytes();
    let _ = proto.connect(id, 10);
    assert_eq!(proto.receive(&[0x20]), Ok((1, None)));
    assert_eq!(proto.state(), ProtocolState::Connect);
    assert_eq!(proto.receive(&[0x02, 0x00]), Ok((2, None)));
    assert_eq!(proto.state(), ProtocolState::Connect);
    assert_eq!(proto.receive(&[0x2A, 0xFF]), Err(()));
    assert_eq!(proto.state(), ProtocolState::Close);
}

#[test]
fn receive_refuses_a_malformed_length() {
    let mut proto = Protocol::new();
    let id = "01234567890123456789012".as_bytes();
    let _ = proto.connect(id, 10);
    // Four continuation bytes: the remaining length never ends.
    assert_eq!(proto.receive(&[0x20, 0x80, 0x80, 0x80, 0x80]), Err(()));
    assert_eq!(proto.state(), ProtocolState::Connect);
}
