use minimq::client::{ConnectEvent, InboundPublish, Op, OpKind, OpStatus};
use minimq::packets::RetainHandling;
use minimq::properties::{Properties, Property};
use minimq::rpc::{
    response_properties, response_publication, ConfigError, Handle, RejectReason, Service,
    StepAction, MAX_TOPIC_LENGTH, RESPONSE_CODE_PROPERTY, SUCCESS_CODE,
};
use minimq::{Error, QoS, ResourceError, Retain};

#[test]
fn joins_prefix() {
    assert_eq!(Service::new("device").unwrap().rpc_topic(), "device/rpc");
    assert_eq!(Service::new("").unwrap().rpc_topic(), "/rpc");
    assert_eq!(Service::new("device/").unwrap().rpc_topic(), "device//rpc");
}

#[test]
fn routes_only_the_rpc_tree() {
    let service = Service::new("root/device").unwrap();
    assert_eq!(service.method("root/device/rpc"), Some(""));
    assert_eq!(
        service.method("root/device/rpc/settings/store"),
        Some("settings/store")
    );
    // Empty topic levels are valid MQTT syntax and remain application-visible.
    assert_eq!(
        service.method("root/device/rpc//settings/store"),
        Some("/settings/store")
    );
    assert_eq!(service.method("root/device/rpcx/store"), None);
    assert_eq!(service.method("other/device/rpc/store"), None);
}

#[test]
fn rejects_oversized_topic() {
    let prefix = "x".repeat(MAX_TOPIC_LENGTH);
    assert_eq!(Service::new(&prefix).err(), Some(ConfigError::TopicTooLong));
}

#[test]
fn longest_prefix_that_leaves_room_for_the_filter() {
    let prefix = "x".repeat(MAX_TOPIC_LENGTH - 6);
    let service = Service::new(&prefix).unwrap();
    assert_eq!(service.rpc_filter().as_str(), format!("{}/rpc/#", prefix));
    let longer = "x".repeat(MAX_TOPIC_LENGTH - 5);
    assert_eq!(Service::new(&longer).err(), Some(ConfigError::TopicTooLong));
}

#[test]
fn reject_reason_codes_are_stable() {
    assert_eq!(RejectReason::Retained.code(), "Retained");
    assert_eq!(RejectReason::MissingResponseTopic.code(), "MissingResponseTopic");
    assert_eq!(RejectReason::ResponseTargetTooLong.code(), "ResponseTargetTooLong");
    assert_eq!(RejectReason::EmptyMethod.code(), "EmptyMethod");
}

fn inbound<'a>(topic: &'a str, payload: &'a [u8], props: &'a [Property<'a>], retain: Retain) -> InboundPublish<'a> {
    InboundPublish::new(topic, payload, Properties::from_slice(props), retain, QoS::AtLeastOnce)
}

#[test]
fn valid_request_keeps_method_payload_and_target() {
    let service = Service::new("dev").unwrap();
    let props = [Property::ResponseTopic("reply/here"), Property::CorrelationData(b"42")];
    let message = inbound("dev/rpc/settings/store", b"{}", &props, Retain::NotRetained);
    match service.handle(&message) {
        Handle::Request(request) => {
            assert_eq!(request.method(), "settings/store");
            assert_eq!(request.payload(), b"{}");
            let target = request.into_response_target();
            assert_eq!(target.topic(), "reply/here");
            assert_eq!(target.correlation_data(), Some(&b"42"[..]));
        }
        other => panic!("unexpected {:?}", other),
    }
}

#[test]
fn other_topics_are_unhandled() {
    let service = Service::new("dev").unwrap();
    let props = [Property::ResponseTopic("reply")];
    let message = inbound("dev/rpcx", b"", &props, Retain::NotRetained);
    assert!(matches!(service.handle(&message), Handle::Unhandled));
}

#[test]
fn retained_request_is_rejected_with_its_target() {
    let service = Service::new("dev").unwrap();
    let props = [Property::ResponseTopic("reply")];
    let message = inbound("dev/rpc/x", b"", &props, Retain::Retained);
    match service.handle(&message) {
        Handle::Rejected(rejected) => {
            assert_eq!(rejected.reason(), RejectReason::Retained);
            assert_eq!(rejected.into_response_target().unwrap().topic(), "reply");
        }
        other => panic!("unexpected {:?}", other),
    }
}

#[test]
fn request_without_response_topic_is_rejected() {
    let service = Service::new("dev").unwrap();
    let message = inbound("dev/rpc/x", b"", &[], Retain::NotRetained);
    match service.handle(&message) {
        Handle::Rejected(rejected) => {
            assert_eq!(rejected.reason(), RejectReason::MissingResponseTopic);
            assert!(rejected.into_response_target().is_none());
        }
        other => panic!("unexpected {:?}", other),
    }
}

#[test]
fn oversized_correlation_data_is_rejected() {
    let service = Service::new("dev").unwrap();
    let data = [7u8; 33];
    let props = [Property::ResponseTopic("reply"), Property::CorrelationData(&data)];
    let message = inbound("dev/rpc/x", b"", &props, Retain::NotRetained);
    match service.handle(&message) {
        Handle::Rejected(rejected) => {
            assert_eq!(rejected.reason(), RejectReason::ResponseTargetTooLong);
            assert!(rejected.into_response_target().is_none());
        }
        other => panic!("unexpected {:?}", other),
    }
}

#[test]
fn empty_method_is_rejected_with_its_target() {
    let service = Service::new("dev").unwrap();
    let props = [Property::ResponseTopic("reply")];
    let message = inbound("dev/rpc", b"", &props, Retain::NotRetained);
    match service.handle(&message) {
        Handle::Rejected(rejected) => {
            assert_eq!(rejected.reason(), RejectReason::EmptyMethod);
            assert!(rejected.into_response_target().is_some());
        }
        other => panic!("unexpected {:?}", other),
    }
}

#[test]
fn startup_subscribes_then_waits_then_becomes_ready() {
    let mut service = Service::new("dev").unwrap();
    service.begin_connection(ConnectEvent::Connected);
    assert!(!service.is_ready());
    assert_eq!(service.step(OpStatus::Pending), StepAction::Subscribe);
    assert_eq!(service.rpc_filter().as_str(), "dev/rpc/#");
    let options = Service::subscription_options();
    assert_eq!(options.maximum_qos, QoS::AtLeastOnce);
    assert_eq!(options.retain_handling, RetainHandling::Never);
    assert!(options.retain_as_published);
    assert!(options.no_local);
    let op = Op::new(OpKind::Subscribe, 3, 1);
    assert_eq!(service.subscribe_started::<()>(Ok(op)), Ok(false));
    assert_eq!(service.pending_subscribe(), Some(op));
    assert_eq!(service.step(OpStatus::Pending), StepAction::Wait);
    assert_eq!(service.step(OpStatus::Complete), StepAction::Ready);
    assert!(service.is_ready());
    assert_eq!(service.pending_subscribe(), None);
    assert_eq!(service.step(OpStatus::Invalidated), StepAction::Ready);
}

#[test]
fn invalidated_subscribe_reports_disconnect() {
    let mut service = Service::new("dev").unwrap();
    let op = Op::new(OpKind::Subscribe, 3, 1);
    assert_eq!(service.subscribe_started::<()>(Ok(op)), Ok(false));
    assert_eq!(service.step(OpStatus::Invalidated), StepAction::Disconnected);
    assert_eq!(service.pending_subscribe(), None);
    assert!(!service.is_ready());
}

#[test]
fn busy_session_defers_subscribe_and_other_errors_are_returned() {
    let mut service = Service::new("dev").unwrap();
    assert_eq!(service.subscribe_started::<()>(Err(Error::NotReady)), Ok(false));
    assert_eq!(
        service.subscribe_started::<()>(Err(Error::Resource(ResourceError::InflightExhausted))),
        Ok(false)
    );
    assert_eq!(service.pending_subscribe(), None);
    assert_eq!(service.subscribe_started::<()>(Err(Error::Disconnected)), Err(Error::Disconnected));
}

#[test]
fn resumed_session_is_ready_at_once() {
    let mut service = Service::new("dev").unwrap();
    service.begin_connection(ConnectEvent::Reconnected);
    assert!(service.is_ready());
    assert_eq!(service.step(OpStatus::Pending), StepAction::Ready);
}

#[test]
fn response_carries_code_expiry_and_correlation() {
    let service = Service::new("dev").unwrap();
    let props = [Property::ResponseTopic("reply"), Property::CorrelationData(b"7")];
    let message = inbound("dev/rpc/run", b"", &props, Retain::NotRetained);
    let target = match service.handle(&message) {
        Handle::Request(request) => request.into_response_target(),
        other => panic!("unexpected {:?}", other),
    };
    let properties = response_properties(SUCCESS_CODE);
    assert_eq!(properties[0], Property::MessageExpiryInterval(30));
    assert_eq!(properties[1], Property::UserProperty(RESPONSE_CODE_PROPERTY, "Ok"));
    let publication = response_publication(&target, &properties, &b"done"[..]);
    assert_eq!(publication.topic, "reply");
    assert_eq!(publication.qos, QoS::AtLeastOnce);
    assert_eq!(publication.retain, Retain::NotRetained);
    assert_eq!(publication.properties.response_topic(), None);
    assert_eq!(publication.properties.correlation_data(), Some(&b"7"[..]));
}

#[test]
fn reply_matches_the_getters() {
    let props = [
        Property::CorrelationData(b"id-1"),
        Property::ResponseTopic("back/here"),
        Property::ResponseTopic("ignored"),
    ];
    let message = inbound("req", b"ping", &props, Retain::NotRetained);
    let reply = message.reply(&b"pong"[..]).unwrap();
    assert_eq!(Some(reply.topic), message.response_topic());
    assert_eq!(reply.properties.correlation_data(), message.correlation_data());
    assert_eq!(message.response_topic(), Some("back/here"));

    let bare = inbound("req", b"ping", &[], Retain::NotRetained);
    assert!(bare.reply(&b"pong"[..]).is_none());
    assert_eq!(bare.response_topic(), None);
}
