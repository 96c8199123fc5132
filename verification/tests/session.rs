use minimq::outbound::{ControlAction, OutboundStep, SendState};
use minimq::received::ReceivedPacket;
use minimq::session::{handle_packet, ConnectionState, PacketOutcome, RuntimeState, SessionData};
use minimq::{Error, PeerError, QoS, ReasonCode, ResourceError};

fn active_runtime() -> RuntimeState {
    let mut runtime = RuntimeState::new(60_000);
    runtime.state = ConnectionState::Active;
    runtime.send_quota = 7;
    runtime.max_send_quota = 8;
    runtime
}

#[test]
fn connack_applies_properties_and_activates() {
    let mut storage = [0u8; 64];
    let mut session = SessionData::new(&mut storage);
    let mut runtime = RuntimeState::new(60_000);
    runtime.state = ConnectionState::Establishing;
    let mut client_id: heapless::String<64> = heapless::String::new();
    // CONNACK, no session, success; properties: receive maximum 2, server keepalive 10,
    // maximum packet size 100, assigned client identifier "abc".
    let buf = [
        0x20, 0x14, 0x00, 0x00, 0x11, 0x21, 0x00, 0x02, 0x13, 0x00, 0x0A, 0x27, 0x00, 0x00,
        0x00, 0x64, 0x12, 0x00, 0x03, b'a', b'b', b'c',
    ];
    let packet = ReceivedPacket::from_buffer(&buf).unwrap();
    let outcome = handle_packet::<()>(&mut client_id, &mut session, &mut runtime, packet, 1_000);
    assert!(matches!(outcome, Ok(PacketOutcome::Connected(false))));
    assert_eq!(runtime.state, ConnectionState::Active);
    assert_eq!(runtime.send_quota, 2);
    assert_eq!(runtime.max_send_quota, 2);
    assert_eq!(runtime.keepalive_interval_ms, 10_000);
    assert_eq!(runtime.maximum_packet_size, Some(100));
    assert_eq!(runtime.next_ping, Some(6_000));
    assert_eq!(runtime.ping_timeout, None);
    assert_eq!(client_id.as_str(), "abc");
    assert!(session.session_present);
}

#[test]
fn rejected_connack_disconnects() {
    let mut storage = [0u8; 64];
    let mut session = SessionData::new(&mut storage);
    let mut runtime = RuntimeState::new(0);
    runtime.state = ConnectionState::Establishing;
    let mut client_id: heapless::String<64> = heapless::String::new();
    let buf = [0x20, 0x03, 0x00, 0x87, 0x00];
    let packet = ReceivedPacket::from_buffer(&buf).unwrap();
    let outcome = handle_packet::<()>(&mut client_id, &mut session, &mut runtime, packet, 0);
    assert!(matches!(
        outcome,
        Err(Error::Peer(PeerError::Rejected(ReasonCode::NotAuthorized)))
    ));
    assert_eq!(runtime.state, ConnectionState::Disconnected);
}

#[test]
fn connack_with_bad_maximum_qos_is_invalid() {
    let mut storage = [0u8; 64];
    let mut session = SessionData::new(&mut storage);
    let mut runtime = RuntimeState::new(0);
    runtime.state = ConnectionState::Establishing;
    let mut client_id: heapless::String<64> = heapless::String::new();
    let buf = [0x20, 0x05, 0x01, 0x00, 0x02, 0x24, 0x03];
    let packet = ReceivedPacket::from_buffer(&buf).unwrap();
    let outcome = handle_packet::<()>(&mut client_id, &mut session, &mut runtime, packet, 0);
    assert!(matches!(outcome, Err(Error::Peer(PeerError::InvalidPacket))));
    assert_eq!(runtime.state, ConnectionState::Establishing);
    assert!(runtime.session_resumed);
}

#[test]
fn unexpected_packets_are_refused() {
    let mut storage = [0u8; 64];
    let mut session = SessionData::new(&mut storage);
    let mut runtime = RuntimeState::new(0);
    runtime.state = ConnectionState::Establishing;
    let mut client_id: heapless::String<64> = heapless::String::new();
    let packet = ReceivedPacket::from_buffer(&[0xd0, 0x00]).unwrap();
    let outcome = handle_packet::<()>(&mut client_id, &mut session, &mut runtime, packet, 0);
    assert!(matches!(outcome, Err(Error::Peer(PeerError::InvalidPacket))));

    let mut runtime = active_runtime();
    let packet = ReceivedPacket::from_buffer(&[0x20, 0x03, 0x00, 0x00, 0x00]).unwrap();
    let outcome = handle_packet::<()>(&mut client_id, &mut session, &mut runtime, packet, 0);
    assert!(matches!(outcome, Err(Error::Peer(PeerError::InvalidPacket))));
}

#[test]
fn qos1_publish_is_acknowledged_and_delivered() {
    let mut storage = [0u8; 64];
    let mut session = SessionData::new(&mut storage);
    let mut runtime = active_runtime();
    let mut client_id: heapless::String<64> = heapless::String::new();
    let buf = [0x32, 0x08, 0x00, 0x01, b't', 0x00, 0x05, 0x00, 0xAA, 0xBB];
    let packet = ReceivedPacket::from_buffer(&buf).unwrap();
    match handle_packet::<()>(&mut client_id, &mut session, &mut runtime, packet, 0) {
        Ok(PacketOutcome::Inbound(inbound)) => {
            assert_eq!(inbound.topic(), "t");
            assert_eq!(inbound.payload(), &[0xAA, 0xBB]);
            assert_eq!(inbound.qos(), QoS::AtLeastOnce);
        }
        _ => panic!("expected an inbound message"),
    }
    assert!(matches!(
        session.outbound.next_step(),
        Some(OutboundStep::Control(step))
            if step.action == ControlAction::PubAck { packet_id: 5, reason: ReasonCode::Success }
                && step.state == SendState::Write { written: 0 }
    ));
}

#[test]
fn qos2_exchange_records_and_releases_identifier() {
    let mut storage = [0u8; 64];
    let mut session = SessionData::new(&mut storage);
    let mut runtime = active_runtime();
    let mut client_id: heapless::String<64> = heapless::String::new();
    let buf = [0x34, 0x07, 0x00, 0x01, b't', 0x00, 0x09, 0x00, 0x01];
    let packet = ReceivedPacket::from_buffer(&buf).unwrap();
    let first = handle_packet::<()>(&mut client_id, &mut session, &mut runtime, packet, 0);
    assert!(matches!(first, Ok(PacketOutcome::Inbound(_))));
    // The same identifier again is a duplicate: acknowledged, not delivered.
    let packet = ReceivedPacket::from_buffer(&buf).unwrap();
    let again = handle_packet::<()>(&mut client_id, &mut session, &mut runtime, packet, 0);
    assert!(matches!(again, Ok(PacketOutcome::NoEvent)));
    assert_eq!(session.outbound.pending_control_len(), 2);
    // PUBREL completes the exchange.
    let packet = ReceivedPacket::from_buffer(&[0x62, 0x02, 0x00, 0x09]).unwrap();
    let released = handle_packet::<()>(&mut client_id, &mut session, &mut runtime, packet, 0);
    assert!(matches!(released, Ok(PacketOutcome::NoEvent)));
    assert!(session.outbound.flush_control(ControlAction::PubRec { packet_id: 9, reason: ReasonCode::Success }));
    assert!(session.outbound.flush_control(ControlAction::PubRec { packet_id: 9, reason: ReasonCode::Success }));
    assert!(matches!(
        session.outbound.next_step(),
        Some(OutboundStep::Control(step))
            if step.action == ControlAction::PubComp { packet_id: 9, reason: ReasonCode::Success }
    ));
    // A second PUBREL finds nothing pending.
    let packet = ReceivedPacket::from_buffer(&[0x62, 0x02, 0x00, 0x09]).unwrap();
    handle_packet::<()>(&mut client_id, &mut session, &mut runtime, packet, 0).unwrap();
    assert!(session.outbound.flush_control(ControlAction::PubComp { packet_id: 9, reason: ReasonCode::Success }));
    assert!(matches!(
        session.outbound.next_step(),
        Some(OutboundStep::Control(step))
            if step.action == ControlAction::PubComp { packet_id: 9, reason: ReasonCode::PacketIdNotFound }
    ));
}

#[test]
fn puback_drops_retained_publish_and_raises_quota() {
    let mut storage = [0u8; 64];
    let mut session = SessionData::new(&mut storage);
    let mut runtime = active_runtime();
    let mut client_id: heapless::String<64> = heapless::String::new();
    session.outbound.retain_packet(3, 0, 6).unwrap();
    let packet = ReceivedPacket::from_buffer(&[0x40, 0x02, 0x00, 0x03]).unwrap();
    let outcome = handle_packet::<()>(&mut client_id, &mut session, &mut runtime, packet, 0);
    assert!(matches!(outcome, Ok(PacketOutcome::NoEvent)));
    assert!(!session.outbound.has_retained(3));
    assert_eq!(runtime.send_quota, 8);
    // A stale acknowledgement changes nothing.
    let packet = ReceivedPacket::from_buffer(&[0x40, 0x02, 0x00, 0x03]).unwrap();
    handle_packet::<()>(&mut client_id, &mut session, &mut runtime, packet, 0).unwrap();
    assert_eq!(runtime.send_quota, 8);
}

#[test]
fn pubrec_queues_release_and_reports_failure() {
    let mut storage = [0u8; 64];
    let mut session = SessionData::new(&mut storage);
    let mut runtime = active_runtime();
    let mut client_id: heapless::String<64> = heapless::String::new();
    session.outbound.retain_packet(4, 0, 6).unwrap();
    let packet = ReceivedPacket::from_buffer(&[0x50, 0x02, 0x00, 0x04]).unwrap();
    handle_packet::<()>(&mut client_id, &mut session, &mut runtime, packet, 0).unwrap();
    assert!(session.outbound.has_pending_release(4));
    session.outbound.retain_packet(5, 0, 6).unwrap();
    let packet = ReceivedPacket::from_buffer(&[0x50, 0x03, 0x00, 0x05, 0x80]).unwrap();
    let outcome = handle_packet::<()>(&mut client_id, &mut session, &mut runtime, packet, 0);
    assert!(matches!(
        outcome,
        Err(Error::Peer(PeerError::Rejected(ReasonCode::UnspecifiedError)))
    ));
    assert!(!session.outbound.has_pending_release(5));
    // A PUBREC whose release is pending already is a repeat.
    let packet = ReceivedPacket::from_buffer(&[0x50, 0x02, 0x00, 0x04]).unwrap();
    assert!(matches!(
        handle_packet::<()>(&mut client_id, &mut session, &mut runtime, packet, 0),
        Ok(PacketOutcome::NoEvent)
    ));
    assert_eq!(session.outbound.pending_release_len(), 1);
}

#[test]
fn suback_failure_code_is_reported() {
    let mut storage = [0u8; 64];
    let mut session = SessionData::new(&mut storage);
    let mut runtime = active_runtime();
    let mut client_id: heapless::String<64> = heapless::String::new();
    session.outbound.retain_packet(2, 0, 6).unwrap();
    let packet = ReceivedPacket::from_buffer(&[0x90, 0x05, 0x00, 0x02, 0x00, 0x01, 0x97]).unwrap();
    assert!(matches!(
        handle_packet::<()>(&mut client_id, &mut session, &mut runtime, packet, 0),
        Err(Error::Resource(ResourceError::PacketTooLarge)) | Err(Error::Peer(PeerError::Rejected(_)))
    ));
    assert!(!session.outbound.has_retained(2));
}

#[test]
fn broker_disconnect_arms_replay() {
    let mut storage = [0u8; 64];
    storage[0] = 0x32;
    let mut session = SessionData::new(&mut storage);
    let mut runtime = active_runtime();
    let mut client_id: heapless::String<64> = heapless::String::new();
    session.outbound.retain_packet(2, 0, 6).unwrap();
    session.outbound.flush_retained(2);
    let packet = ReceivedPacket::from_buffer(&[0xE0, 0x00]).unwrap();
    assert!(matches!(
        handle_packet::<()>(&mut client_id, &mut session, &mut runtime, packet, 0),
        Ok(PacketOutcome::NoEvent)
    ));
    assert_eq!(runtime.state, ConnectionState::Disconnected);
    assert_eq!(session.outbound.retained_packet(0, 1), &[0x3A]);
    assert!(matches!(
        session.outbound.next_step(),
        Some(OutboundStep::Retained(step)) if step.state == SendState::Write { written: 0 }
    ));
}

#[test]
fn runtime_keepalive_schedule() {
    let mut runtime = RuntimeState::new(4_000);
    assert_eq!(runtime.keepalive_send_interval(), Some(2_000));
    runtime.note_outbound_activity(100);
    assert_eq!(runtime.next_ping, Some(2_100));
    runtime.ping_timeout = Some(1_000);
    assert_eq!(runtime.next_deadline(), Some(1_000));
    let idle = RuntimeState::new(0);
    assert_eq!(idle.keepalive_send_interval(), None);
    let long = RuntimeState::new(60_000);
    assert_eq!(long.keepalive_send_interval(), Some(55_000));
    runtime.disconnect();
    assert_eq!(runtime.next_deadline(), None);
}

#[test]
fn packet_identifiers_skip_zero() {
    let mut storage = [0u8; 8];
    let mut session = SessionData::new(&mut storage);
    assert_eq!(session.next_packet_id(), 1);
    assert_eq!(session.next_packet_id(), 2);
    session.packet_id = u16::MAX;
    assert_eq!(session.next_packet_id(), u16::MAX);
    assert_eq!(session.next_packet_id(), 1);
}
