//! MQTT v5 reason codes.
use crate::ProtocolError;
use vstd::prelude::*;

verus! {

/// MQTTv5-defined codes that may be returned in response to control packets.
#[derive(Debug, Copy, Clone, PartialEq, Eq, Structural)]
pub enum ReasonCode {
    /// Success.
    Success,
    /// Granted QoS 1.
    GrantedQos1,
    /// Granted QoS 2.
    GrantedQos2,
    /// Disconnect and publish the will.
    DisconnectWithWill,
    /// The publish matched no subscribers.
    NoMatchingSubscribers,
    /// The unsubscribe found no existing subscription.
    NoSubscriptionExisted,
    /// Continue authentication exchange.
    ContinueAuthentication,
    /// Re-authentication is requested.
    Reauthenticate,
    /// Unspecified error.
    UnspecifiedError,
    /// Malformed packet.
    MalformedPacket,
    /// Protocol error.
    ProtocolError,
    /// Implementation-specific error.
    ImplementationError,
    /// Unsupported protocol version.
    UnsupportedProtocol,
    /// Invalid client identifier.
    ClientIdentifierInvalid,
    /// Bad username or password.
    BadUsernameOrPassword,
    /// Not authorized.
    NotAuthorized,
    /// Server unavailable.
    ServerUnavailable,
    /// Server busy.
    ServerBusy,
    /// Bad authentication method.
    BadAuthMethod,
    /// Keepalive timeout.
    KeepAliveTimeout,
    /// Session taken over by another client.
    SessionTakenOver,
    /// Invalid topic filter.
    TopicFilterInvalid,
    /// Invalid topic name.
    TopicNameInvalid,
    /// Packet identifier already in use.
    PacketIdInUse,
    /// Packet identifier not found.
    PacketIdNotFound,
    /// Receive maximum exceeded.
    ReceiveMaxExceeded,
    /// Invalid topic alias.
    TopicAliasInvalid,
    /// Packet too large.
    PacketTooLarge,
    /// Message rate too high.
    MessageRateTooHigh,
    /// Quota exceeded.
    QuotaExceeded,
    /// Administrative action.
    AdministrativeAction,
    /// Payload format invalid.
    PayloadFormatInvalid,
    /// Retained messages are not supported.
    RetainNotSupported,
    /// QoS is not supported.
    QoSNotSupported,
    /// Use another server.
    UseAnotherServer,
    /// Server moved.
    ServerMoved,
    /// Shared subscriptions are not supported.
    SharedSubscriptionsNotSupported,
    /// Connection rate exceeded.
    ConnectionRateExceeded,
    /// Maximum connect time reached.
    MaximumConnectTime,
    /// Subscription identifiers are not supported.
    SubscriptionIdentifiersNotSupported,
    /// Wildcard subscriptions are not supported.
    WildcardSubscriptionsNotSupported,
    /// The reason code is not one of the documented MQTT reason codes.
    Unknown,
}

/// The byte that carries a reason code on the wire.
pub open spec fn spec_reason_code_value(code: ReasonCode) -> u8 {
    match code {
        ReasonCode::Success => 0x00,
        ReasonCode::GrantedQos1 => 0x01,
        ReasonCode::GrantedQos2 => 0x02,
        ReasonCode::DisconnectWithWill => 0x04,
        ReasonCode::NoMatchingSubscribers => 0x10,
        ReasonCode::NoSubscriptionExisted => 0x11,
        ReasonCode::ContinueAuthentication => 0x18,
        ReasonCode::Reauthenticate => 0x19,
        ReasonCode::UnspecifiedError => 0x80,
        ReasonCode::MalformedPacket => 0x81,
        ReasonCode::ProtocolError => 0x82,
        ReasonCode::ImplementationError => 0x83,
        ReasonCode::UnsupportedProtocol => 0x84,
        ReasonCode::ClientIdentifierInvalid => 0x85,
        ReasonCode::BadUsernameOrPassword => 0x86,
        ReasonCode::NotAuthorized => 0x87,
        ReasonCode::ServerUnavailable => 0x88,
        ReasonCode::ServerBusy => 0x89,
        ReasonCode::BadAuthMethod => 0x8c,
        ReasonCode::KeepAliveTimeout => 0x8d,
        ReasonCode::SessionTakenOver => 0x8e,
        ReasonCode::TopicFilterInvalid => 0x8f,
        ReasonCode::TopicNameInvalid => 0x90,
        ReasonCode::PacketIdInUse => 0x91,
        ReasonCode::PacketIdNotFound => 0x92,
        ReasonCode::ReceiveMaxExceeded => 0x93,
        ReasonCode::TopicAliasInvalid => 0x94,
        ReasonCode::PacketTooLarge => 0x95,
        ReasonCode::MessageRateTooHigh => 0x96,
        ReasonCode::QuotaExceeded => 0x97,
        ReasonCode::AdministrativeAction => 0x98,
        ReasonCode::PayloadFormatInvalid => 0x99,
        ReasonCode::RetainNotSupported => 0x9a,
        ReasonCode::QoSNotSupported => 0x9b,
        ReasonCode::UseAnotherServer => 0x9c,
        ReasonCode::ServerMoved => 0x9d,
        ReasonCode::SharedSubscriptionsNotSupported => 0x9e,
        ReasonCode::ConnectionRateExceeded => 0x9f,
        ReasonCode::MaximumConnectTime => 0xa0,
        ReasonCode::SubscriptionIdentifiersNotSupported => 0xa1,
        ReasonCode::WildcardSubscriptionsNotSupported => 0xa2,
        ReasonCode::Unknown => 0xff,
    }
}

/// The reason code that a wire byte stands for; undocumented bytes are `Unknown`.
pub open spec fn spec_reason_code_from(value: u8) -> ReasonCode {
    match value {
        0x00 => ReasonCode::Success,
        0x01 => ReasonCode::GrantedQos1,
        0x02 => ReasonCode::GrantedQos2,
        0x04 => ReasonCode::DisconnectWithWill,
        0x10 => ReasonCode::NoMatchingSubscribers,
        0x11 => ReasonCode::NoSubscriptionExisted,
        0x18 => ReasonCode::ContinueAuthentication,
        0x19 => ReasonCode::Reauthenticate,
        0x80 => ReasonCode::UnspecifiedError,
        0x81 => ReasonCode::MalformedPacket,
        0x82 => ReasonCode::ProtocolError,
        0x83 => ReasonCode::ImplementationError,
        0x84 => ReasonCode::UnsupportedProtocol,
        0x85 => ReasonCode::ClientIdentifierInvalid,
        0x86 => ReasonCode::BadUsernameOrPassword,
        0x87 => ReasonCode::NotAuthorized,
        0x88 => ReasonCode::ServerUnavailable,
        0x89 => ReasonCode::ServerBusy,
        0x8c => ReasonCode::BadAuthMethod,
        0x8d => ReasonCode::KeepAliveTimeout,
        0x8e => ReasonCode::SessionTakenOver,
        0x8f => ReasonCode::TopicFilterInvalid,
        0x90 => ReasonCode::TopicNameInvalid,
        0x91 => ReasonCode::PacketIdInUse,
        0x92 => ReasonCode::PacketIdNotFound,
        0x93 => ReasonCode::ReceiveMaxExceeded,
        0x94 => ReasonCode::TopicAliasInvalid,
        0x95 => ReasonCode::PacketTooLarge,
        0x96 => ReasonCode::MessageRateTooHigh,
        0x97 => ReasonCode::QuotaExceeded,
        0x98 => ReasonCode::AdministrativeAction,
        0x99 => ReasonCode::PayloadFormatInvalid,
        0x9a => ReasonCode::RetainNotSupported,
        0x9b => ReasonCode::QoSNotSupported,
        0x9c => ReasonCode::UseAnotherServer,
        0x9d => ReasonCode::ServerMoved,
        0x9e => ReasonCode::SharedSubscriptionsNotSupported,
        0x9f => ReasonCode::ConnectionRateExceeded,
        0xa0 => ReasonCode::MaximumConnectTime,
        0xa1 => ReasonCode::SubscriptionIdentifiersNotSupported,
        0xa2 => ReasonCode::WildcardSubscriptionsNotSupported,
        _ => ReasonCode::Unknown,
    }
}

impl ReasonCode {
    /// Convert a wire byte into a reason code.
    pub fn from_u8(value: u8) -> (r: ReasonCode)
        ensures
            r == spec_reason_code_from(value),
    {
        match value {
            0x00 => ReasonCode::Success,
            0x01 => ReasonCode::GrantedQos1,
            0x02 => ReasonCode::GrantedQos2,
            0x04 => ReasonCode::DisconnectWithWill,
            0x10 => ReasonCode::NoMatchingSubscribers,
            0x11 => ReasonCode::NoSubscriptionExisted,
            0x18 => ReasonCode::ContinueAuthentication,
            0x19 => ReasonCode::Reauthenticate,
            0x80 => ReasonCode::UnspecifiedError,
            0x81 => ReasonCode::MalformedPacket,
            0x82 => ReasonCode::ProtocolError,
            0x83 => ReasonCode::ImplementationError,
            0x84 => ReasonCode::UnsupportedProtocol,
            0x85 => ReasonCode::ClientIdentifierInvalid,
            0x86 => ReasonCode::BadUsernameOrPassword,
            0x87 => ReasonCode::NotAuthorized,
            0x88 => ReasonCode::ServerUnavailable,
            0x89 => ReasonCode::ServerBusy,
            0x8c => ReasonCode::BadAuthMethod,
            0x8d => ReasonCode::KeepAliveTimeout,
            0x8e => ReasonCode::SessionTakenOver,
            0x8f => ReasonCode::TopicFilterInvalid,
            0x90 => ReasonCode::TopicNameInvalid,
            0x91 => ReasonCode::PacketIdInUse,
            0x92 => ReasonCode::PacketIdNotFound,
            0x93 => ReasonCode::ReceiveMaxExceeded,
            0x94 => ReasonCode::TopicAliasInvalid,
            0x95 => ReasonCode::PacketTooLarge,
            0x96 => ReasonCode::MessageRateTooHigh,
            0x97 => ReasonCode::QuotaExceeded,
            0x98 => ReasonCode::AdministrativeAction,
            0x99 => ReasonCode::PayloadFormatInvalid,
            0x9a => ReasonCode::RetainNotSupported,
            0x9b => ReasonCode::QoSNotSupported,
            0x9c => ReasonCode::UseAnotherServer,
            0x9d => ReasonCode::ServerMoved,
            0x9e => ReasonCode::SharedSubscriptionsNotSupported,
            0x9f => ReasonCode::ConnectionRateExceeded,
            0xa0 => ReasonCode::MaximumConnectTime,
            0xa1 => ReasonCode::SubscriptionIdentifiersNotSupported,
            0xa2 => ReasonCode::WildcardSubscriptionsNotSupported,
            _ => ReasonCode::Unknown,
        }
    }

    /// The wire byte of this reason code.
    pub fn to_u8(&self) -> (r: u8)
        ensures
            r == spec_reason_code_value(*self),
    {
        match self {
            ReasonCode::Success => 0x00,
            ReasonCode::GrantedQos1 => 0x01,
            ReasonCode::GrantedQos2 => 0x02,
            ReasonCode::DisconnectWithWill => 0x04,
            ReasonCode::NoMatchingSubscribers => 0x10,
            ReasonCode::NoSubscriptionExisted => 0x11,
            ReasonCode::ContinueAuthentication => 0x18,
            ReasonCode::Reauthenticate => 0x19,
            ReasonCode::UnspecifiedError => 0x80,
            ReasonCode::MalformedPacket => 0x81,
            ReasonCode::ProtocolError => 0x82,
            ReasonCode::ImplementationError => 0x83,
            ReasonCode::UnsupportedProtocol => 0x84,
            ReasonCode::ClientIdentifierInvalid => 0x85,
            ReasonCode::BadUsernameOrPassword => 0x86,
            ReasonCode::NotAuthorized => 0x87,
            ReasonCode::ServerUnavailable => 0x88,
            ReasonCode::ServerBusy => 0x89,
            ReasonCode::BadAuthMethod => 0x8c,
            ReasonCode::KeepAliveTimeout => 0x8d,
            ReasonCode::SessionTakenOver => 0x8e,
            ReasonCode::TopicFilterInvalid => 0x8f,
            ReasonCode::TopicNameInvalid => 0x90,
            ReasonCode::PacketIdInUse => 0x91,
            ReasonCode::PacketIdNotFound => 0x92,
            ReasonCode::ReceiveMaxExceeded => 0x93,
            ReasonCode::TopicAliasInvalid => 0x94,
            ReasonCode::PacketTooLarge => 0x95,
            ReasonCode::MessageRateTooHigh => 0x96,
            ReasonCode::QuotaExceeded => 0x97,
            ReasonCode::AdministrativeAction => 0x98,
            ReasonCode::PayloadFormatInvalid => 0x99,
            ReasonCode::RetainNotSupported => 0x9a,
            ReasonCode::QoSNotSupported => 0x9b,
            ReasonCode::UseAnotherServer => 0x9c,
            ReasonCode::ServerMoved => 0x9d,
            ReasonCode::SharedSubscriptionsNotSupported => 0x9e,
            ReasonCode::ConnectionRateExceeded => 0x9f,
            ReasonCode::MaximumConnectTime => 0xa0,
            ReasonCode::SubscriptionIdentifiersNotSupported => 0xa1,
            ReasonCode::WildcardSubscriptionsNotSupported => 0xa2,
            ReasonCode::Unknown => 0xff,
        }
    }

    /// Return `true` for MQTT success codes (wire values below 0x80).
    pub fn success(&self) -> (r: bool)
        ensures
            r == (spec_reason_code_value(*self) < 0x80),
    {
        let value: u8 = self.to_u8();
        value < 0x80
    }

    /// Return `true` for MQTT failure codes.
    pub fn failed(&self) -> (r: bool)
        ensures
            r == (spec_reason_code_value(*self) >= 0x80),
    {
        !self.success()
    }

    /// Convert the reason code to `Ok(())` for success codes or a protocol error otherwise.
    pub fn as_result(&self) -> (r: Result<(), ProtocolError>)
        ensures
            spec_reason_code_value(*self) < 0x80 ==> r is Ok,
            spec_reason_code_value(*self) >= 0x80 ==> r == Err::<(), ProtocolError>(
                ProtocolError::Failed(*self),
            ),
    {
        if self.success() {
            return Ok(());
        }
        Err(ProtocolError::Failed(*self))
    }
}

/// Every documented reason code survives a trip through its wire byte.
pub proof fn lemma_reason_code_roundtrip(code: ReasonCode)
    ensures
        spec_reason_code_from(spec_reason_code_value(code)) == code,
{
}

} // verus!
