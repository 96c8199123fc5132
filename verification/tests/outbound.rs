use minimq::outbound::{
    check_control_packet_size, check_pubrel_size, encode_control_packet, serialize_control_packet,
    ControlAction, Outbound, OutboundStep, SendState,
};
use minimq::packets::{PublishHeader, Subscribe, TopicFilter};
use minimq::properties::Properties;
use minimq::publication::Publication;
use minimq::ser::{Error as SerError, MAX_FIXED_HEADER_SIZE};
use minimq::wire::Utf8String;
use minimq::{Error, ProtocolError, PubError, ReasonCode, ResourceError};

#[test]
fn encode_packet_returns_absolute_offset_after_retained_prefix() {
    let mut storage = [0u8; 64];
    let mut outbound = Outbound::new(&mut storage);

    outbound.retain_packet(7, 0, 10).unwrap();

    let topics = [TopicFilter::new("ABC")];
    let (offset, len) = outbound
        .encode_packet(&Subscribe {
            packet_id: 16,
            dup: false,
            properties: Properties::from_slice(&[]),
            topics: &topics,
        })
        .unwrap();

    assert_eq!(&outbound.retained_packet(offset, len)[..2], &[0x82, 0x09]);
}

#[test]
fn outbound_can_retain_requires_fixed_header_scratch() {
    let mut storage = [0u8; MAX_FIXED_HEADER_SIZE + 4];
    let mut outbound = Outbound::new(&mut storage);

    outbound.retain_packet(7, 0, 5).unwrap();

    assert!(!outbound.can_retain());
}

#[test]
fn outbound_encode_publish_returns_insufficient_memory_when_only_header_gap_remains() {
    let mut storage = [0u8; MAX_FIXED_HEADER_SIZE + 4];
    let mut outbound = Outbound::new(&mut storage);

    outbound.retain_packet(7, 0, 5).unwrap();

    let publication = Publication::bytes("a", b"x");
    let header = PublishHeader {
        topic: Utf8String(publication.topic),
        packet_id: None,
        properties: publication.properties,
        retain: publication.retain,
        qos: publication.qos,
        dup: false,
    };
    let result = outbound.encode_publish::<_, ()>(&header, publication.payload);

    assert!(matches!(
        result,
        Err(PubError::Session(Error::Resource(
            ResourceError::BufferTooSmall
        )))
    ));
}

#[test]
fn outbound_arm_replay_restarts_pending_control_from_byte_zero() {
    let mut storage = [0u8; 32];
    let mut outbound = Outbound::new(&mut storage);
    let action = ControlAction::PubAck {
        packet_id: 7,
        reason: ReasonCode::Success,
    };
    outbound.queue_control(action).unwrap();
    outbound.set_control_written(action, 5, 5);

    outbound.arm_replay();

    assert!(matches!(
        outbound.next_step(),
        Some(OutboundStep::Control(step))
            if step.action == action && step.state == SendState::Write { written: 0 }
    ));
}

#[test]
fn ack_packet_drops_entry_and_packs_the_rest() {
    let mut storage = [0u8; 32];
    for (i, b) in storage.iter_mut().enumerate() {
        *b = i as u8;
    }
    let mut outbound = Outbound::new(&mut storage);
    outbound.retain_packet(1, 0, 4).unwrap();
    outbound.retain_packet(2, 6, 3).unwrap();
    outbound.retain_packet(3, 12, 2).unwrap();
    assert_eq!(outbound.used(), 14);

    assert!(!outbound.ack_packet(9));
    assert_eq!(outbound.retained_len(), 3);
    assert!(outbound.ack_packet(1));
    assert!(!outbound.has_retained(1));
    assert!(outbound.has_retained(2));
    // The remaining packets now sit at the front, bytes kept.
    assert_eq!(outbound.used(), 5);
    assert_eq!(outbound.retained_packet(0, 3), &[6, 7, 8]);
    assert_eq!(outbound.retained_packet(3, 2), &[12, 13]);
    assert_eq!(outbound.used_after_compact(), 5);
    assert_eq!(outbound.scratch_len(), 27);
}

#[test]
fn queues_are_bounded() {
    let mut storage = [0u8; 64];
    let mut outbound = Outbound::new(&mut storage);
    for id in 0..8u16 {
        outbound.queue_control(ControlAction::PubAck { packet_id: id, reason: ReasonCode::Success }).unwrap();
        outbound.queue_release(id, ReasonCode::Success).unwrap();
        outbound.retain_packet(id, id as usize * 2, 2).unwrap();
    }
    assert_eq!(
        outbound.queue_control(ControlAction::PingReq),
        Err(ProtocolError::InflightMetadataExhausted)
    );
    assert_eq!(
        outbound.queue_release(9, ReasonCode::Success),
        Err(ProtocolError::InflightMetadataExhausted)
    );
    assert_eq!(
        outbound.retain_packet(9, 20, 2),
        Err(ProtocolError::InflightMetadataExhausted)
    );
    assert!(outbound.retained_full());
    assert!(!outbound.can_retain());
    assert_eq!(outbound.max_inflight(), 8);
    assert_eq!(outbound.pending_control_len(), 8);
    assert_eq!(outbound.pending_release_len(), 8);
    assert!(!outbound.is_quiescent());
    outbound.clear();
    assert!(outbound.is_quiescent());
    assert_eq!(outbound.used(), 0);
}

#[test]
fn next_step_prefers_packets_in_progress() {
    let mut storage = [0u8; 64];
    let mut outbound = Outbound::new(&mut storage);
    outbound.retain_packet(5, 0, 10).unwrap();
    outbound.queue_release(6, ReasonCode::Success).unwrap();
    outbound.queue_control(ControlAction::PingReq).unwrap();
    // Fresh packets: control first.
    assert!(matches!(
        outbound.next_step(),
        Some(OutboundStep::Control(step)) if step.action == ControlAction::PingReq
    ));
    // A retained packet that is partly written goes before every fresh one.
    assert!(outbound.set_retained_written(5, 3, 10));
    assert!(matches!(
        outbound.next_step(),
        Some(OutboundStep::Retained(step)) if step.packet_id == 5 && step.state == SendState::Write { written: 3 }
    ));
    assert!(outbound.set_retained_written(5, 10, 10));
    assert!(outbound.flush_retained(5));
    assert!(outbound.has_pending_pingreq());
    assert!(outbound.flush_control(ControlAction::PingReq));
    assert!(!outbound.has_pending_pingreq());
    assert_eq!(outbound.pending_control_len(), 0);
    assert!(matches!(
        outbound.next_step(),
        Some(OutboundStep::Release(step)) if step.packet_id == 6
    ));
    assert!(outbound.set_release_written(6, 5, 5));
    assert!(outbound.flush_release(6));
    assert_eq!(outbound.next_step(), None);
    assert!(outbound.ack_release(6));
    assert!(!outbound.ack_release(6));
}

#[test]
fn arm_replay_marks_retained_publishes_duplicate() {
    let mut storage = [0u8; 16];
    storage[0] = 0x32;
    storage[4] = 0x34;
    let mut outbound = Outbound::new(&mut storage);
    outbound.retain_packet(1, 0, 4).unwrap();
    outbound.retain_packet(2, 4, 4).unwrap();
    outbound.flush_retained(1);
    outbound.arm_replay();
    assert_eq!(outbound.retained_packet(0, 1), &[0x3A]);
    assert_eq!(outbound.retained_packet(4, 1), &[0x3C]);
    assert!(matches!(
        outbound.next_step(),
        Some(OutboundStep::Retained(step)) if step.packet_id == 1 && step.state == SendState::Write { written: 0 }
    ));
}

#[test]
fn control_packet_encodings() {
    let mut buffer = [0u8; 9];
    let bytes = encode_control_packet(
        &mut buffer,
        ControlAction::PubAck { packet_id: 0x0102, reason: ReasonCode::PacketIdInUse },
    )
    .unwrap();
    assert_eq!(bytes, &[0x40, 0x03, 0x01, 0x02, 0x91]);
    let mut buffer = [0u8; 9];
    assert_eq!(encode_control_packet(&mut buffer, ControlAction::PingReq).unwrap(), &[0xC0, 0x00]);
    let mut small = [0u8; 7];
    assert_eq!(
        encode_control_packet(&mut small, ControlAction::PubRec { packet_id: 1, reason: ReasonCode::Success }),
        Err(ProtocolError::Encode(SerError::InsufficientMemory))
    );
    assert_eq!(check_control_packet_size(Some(4), ControlAction::PubComp { packet_id: 1, reason: ReasonCode::Success }),
        Err(ProtocolError::Failed(ReasonCode::PacketTooLarge)));
    assert_eq!(check_control_packet_size(Some(5), ControlAction::PubComp { packet_id: 1, reason: ReasonCode::Success }), Ok(()));
    assert_eq!(check_control_packet_size(Some(2), ControlAction::PingReq), Ok(()));
    assert_eq!(check_pubrel_size(Some(4), 1, ReasonCode::Success), Err(ProtocolError::Failed(ReasonCode::PacketTooLarge)));
    assert_eq!(check_pubrel_size(None, 1, ReasonCode::Success), Ok(()));
    let mut buffer = [0u8; 9];
    assert!(matches!(
        serialize_control_packet::<()>(&mut buffer, ControlAction::PingReq, Some(1)),
        Err(Error::Resource(ResourceError::PacketTooLarge))
    ));
    let mut small = [0u8; 3];
    assert!(matches!(
        serialize_control_packet::<()>(&mut small, ControlAction::PingReq, None),
        Err(Error::Resource(ResourceError::BufferTooSmall))
    ));
}
