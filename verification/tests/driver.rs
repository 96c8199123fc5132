use minimq::client::{Op, OpKind, OpStatus};
use minimq::driver::{
    begin_publish, check_disconnect, check_request, enqueue_publish, op_status, take_request_id,
    PublishStart,
};
use minimq::properties::{Properties, Property, PropertyContext};
use minimq::session::{RuntimeState, SessionData};
use minimq::{Error, QoS, ResourceError};

#[test]
fn publish_is_refused_while_disconnected() {
    let mut buf = [0u8; 64];
    let mut session = SessionData::new(&mut buf);
    let runtime = RuntimeState::new(0);
    let props = Properties::from_slice(&[]);
    let r: Result<PublishStart, Error<()>> =
        begin_publish(&mut session, &runtime, false, &props, QoS::AtLeastOnce, false);
    assert_eq!(r, Err(Error::Disconnected));
    assert_eq!(session.packet_id, 1);
}

#[test]
fn publish_with_properties_not_for_publish_is_invalid() {
    let mut buf = [0u8; 64];
    let mut session = SessionData::new(&mut buf);
    let runtime = RuntimeState::new(0);
    let list = [Property::SessionExpiryInterval(5)];
    let props = Properties::from_slice(&list);
    let r: Result<PublishStart, Error<()>> =
        begin_publish(&mut session, &runtime, true, &props, QoS::AtMostOnce, false);
    assert_eq!(r, Err(Error::InvalidRequest));
}

#[test]
fn qos0_publish_takes_no_identifier() {
    let mut buf = [0u8; 64];
    let mut session = SessionData::new(&mut buf);
    let runtime = RuntimeState::new(0);
    let props = Properties::from_slice(&[]);
    let r: Result<PublishStart, Error<()>> =
        begin_publish(&mut session, &runtime, true, &props, QoS::AtMostOnce, false);
    assert_eq!(r, Ok(PublishStart { qos: QoS::AtMostOnce, packet_id: None }));
    assert_eq!(session.packet_id, 1);
}

#[test]
fn qos1_publish_takes_the_next_identifier() {
    let mut buf = [0u8; 64];
    let mut session = SessionData::new(&mut buf);
    let runtime = RuntimeState::new(0);
    let props = Properties::from_slice(&[]);
    let r: Result<PublishStart, Error<()>> =
        begin_publish(&mut session, &runtime, true, &props, QoS::ExactlyOnce, false);
    assert_eq!(r, Ok(PublishStart { qos: QoS::ExactlyOnce, packet_id: Some(1) }));
    assert_eq!(session.packet_id, 2);
}

#[test]
fn qos_is_downgraded_to_the_broker_maximum() {
    let mut buf = [0u8; 64];
    let mut session = SessionData::new(&mut buf);
    let mut runtime = RuntimeState::new(0);
    runtime.max_qos = Some(QoS::AtMostOnce);
    let props = Properties::from_slice(&[]);
    let r: Result<PublishStart, Error<()>> =
        begin_publish(&mut session, &runtime, true, &props, QoS::ExactlyOnce, true);
    assert_eq!(r, Ok(PublishStart { qos: QoS::AtMostOnce, packet_id: None }));
    let r: Result<PublishStart, Error<()>> =
        begin_publish(&mut session, &runtime, true, &props, QoS::ExactlyOnce, false);
    assert_eq!(r, Ok(PublishStart { qos: QoS::ExactlyOnce, packet_id: Some(1) }));
}

#[test]
fn spent_send_quota_is_not_ready() {
    let mut buf = [0u8; 64];
    let mut session = SessionData::new(&mut buf);
    let mut runtime = RuntimeState::new(0);
    runtime.send_quota = 0;
    let props = Properties::from_slice(&[]);
    let r: Result<PublishStart, Error<()>> =
        begin_publish(&mut session, &runtime, true, &props, QoS::AtLeastOnce, false);
    assert_eq!(r, Err(Error::NotReady));
    // The identifier was taken all the same.
    assert_eq!(session.packet_id, 2);
}

#[test]
fn requests_are_checked_before_anything_is_sent() {
    let none = Properties::from_slice(&[]);
    let r: Result<(), Error<()>> = check_request(false, 1, &none, PropertyContext::Subscribe);
    assert_eq!(r, Err(Error::Disconnected));
    let r: Result<(), Error<()>> = check_request(true, 0, &none, PropertyContext::Subscribe);
    assert_eq!(r, Err(Error::InvalidRequest));
    let r: Result<(), Error<()>> = check_request(true, 2, &none, PropertyContext::Unsubscribe);
    assert_eq!(r, Ok(()));
    let list = [Property::TopicAlias(3)];
    let alias = Properties::from_slice(&list);
    let r: Result<(), Error<()>> = check_request(true, 1, &alias, PropertyContext::Subscribe);
    assert_eq!(r, Err(Error::InvalidRequest));
}

#[test]
fn request_ids_count_up() {
    let mut buf = [0u8; 64];
    let mut session = SessionData::new(&mut buf);
    let r: Result<u16, Error<()>> = take_request_id(&mut session);
    assert_eq!(r, Ok(1));
    let r: Result<u16, Error<()>> = take_request_id(&mut session);
    assert_eq!(r, Ok(2));
    assert_eq!(session.packet_id, 3);
}

#[test]
fn disconnect_properties_are_checked() {
    let r: Result<(), Error<()>> = check_disconnect(None);
    assert_eq!(r, Ok(()));
    let list = [Property::SessionExpiryInterval(0)];
    let ok = Properties::from_slice(&list);
    let r: Result<(), Error<()>> = check_disconnect(Some(&ok));
    assert_eq!(r, Ok(()));
    let list = [Property::TopicAlias(1)];
    let bad = Properties::from_slice(&list);
    let r: Result<(), Error<()>> = check_disconnect(Some(&bad));
    assert_eq!(r, Err(Error::InvalidRequest));
}

#[test]
fn enqueued_publish_spends_send_quota_and_is_pending() {
    let mut buf = [0u8; 64];
    let mut session = SessionData::new(&mut buf);
    let mut runtime = RuntimeState::new(0);
    runtime.send_quota = 2;
    let op = Op::new(OpKind::PublishAtLeastOnce, 1, session.generation());
    assert_eq!(op_status(&session, &op), OpStatus::Complete);
    let r: Result<(), Error<()>> = enqueue_publish(&mut session, &mut runtime, 1, 0, 10);
    assert_eq!(r, Ok(()));
    assert_eq!(runtime.send_quota, 1);
    assert_eq!(op_status(&session, &op), OpStatus::Pending);
    let r: Result<(), Error<()>> = enqueue_publish(&mut session, &mut runtime, 2, 10, 10);
    assert_eq!(r, Ok(()));
    assert_eq!(runtime.send_quota, 0);
    let r: Result<(), Error<()>> = enqueue_publish(&mut session, &mut runtime, 3, 20, 10);
    assert_eq!(r, Ok(()));
    assert_eq!(runtime.send_quota, 0);
    session.reset();
    assert_eq!(op_status(&session, &op), OpStatus::Invalidated);
}

#[test]
fn oversized_publish_is_not_enqueued() {
    let mut buf = [0u8; 64];
    let mut session = SessionData::new(&mut buf);
    let mut runtime = RuntimeState::new(0);
    runtime.maximum_packet_size = Some(8);
    let r: Result<(), Error<()>> = enqueue_publish(&mut session, &mut runtime, 1, 0, 10);
    assert_eq!(r, Err(Error::Resource(ResourceError::PacketTooLarge)));
    assert_eq!(runtime.send_quota, u16::MAX);
    let op = Op::new(OpKind::PublishAtLeastOnce, 1, session.generation());
    assert_eq!(op_status(&session, &op), OpStatus::Complete);
}
