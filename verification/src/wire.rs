//! MQTT control packet types and the fixed-header byte.
use crate::{qos_level, QoS, Retain};
use vstd::prelude::*;

verus! {

/// MQTT control packet type, the high nibble of the fixed header.
#[derive(Debug, Copy, Clone, PartialEq, Eq, Structural)]
pub enum MessageType {
    Connect,
    ConnAck,
    Publish,
    PubAck,
    PubRec,
    PubRel,
    PubComp,
    Subscribe,
    SubAck,
    Unsubscribe,
    UnsubAck,
    PingReq,
    PingResp,
    Disconnect,
    Auth,
}

/// Numeric packet type.
pub open spec fn spec_message_type_value(t: MessageType) -> u8 {
    match t {
        MessageType::Connect => 1,
        MessageType::ConnAck => 2,
        MessageType::Publish => 3,
        MessageType::PubAck => 4,
        MessageType::PubRec => 5,
        MessageType::PubRel => 6,
        MessageType::PubComp => 7,
        MessageType::Subscribe => 8,
        MessageType::SubAck => 9,
        MessageType::Unsubscribe => 10,
        MessageType::UnsubAck => 11,
        MessageType::PingReq => 12,
        MessageType::PingResp => 13,
        MessageType::Disconnect => 14,
        MessageType::Auth => 15,
    }
}

/// Packet type of a numeric value, if any (0 and values above 15 are none).
pub open spec fn spec_message_type_from(value: u8) -> Option<MessageType> {
    match value {
        1 => Some(MessageType::Connect),
        2 => Some(MessageType::ConnAck),
        3 => Some(MessageType::Publish),
        4 => Some(MessageType::PubAck),
        5 => Some(MessageType::PubRec),
        6 => Some(MessageType::PubRel),
        7 => Some(MessageType::PubComp),
        8 => Some(MessageType::Subscribe),
        9 => Some(MessageType::SubAck),
        10 => Some(MessageType::Unsubscribe),
        11 => Some(MessageType::UnsubAck),
        12 => Some(MessageType::PingReq),
        13 => Some(MessageType::PingResp),
        14 => Some(MessageType::Disconnect),
        15 => Some(MessageType::Auth),
        _ => None,
    }
}

/// Flags that a packet of this type must carry (publish flags vary).
pub open spec fn spec_required_flags(t: MessageType) -> u8 {
    match t {
        MessageType::PubRel | MessageType::Subscribe | MessageType::Unsubscribe => 0b0010,
        _ => 0,
    }
}

impl MessageType {
    /// Numeric packet type.
    pub fn value(self) -> (r: u8)
        ensures
            r == spec_message_type_value(self),
            1 <= r <= 15,
    {
        match self {
            MessageType::Connect => 1,
            MessageType::ConnAck => 2,
            MessageType::Publish => 3,
            MessageType::PubAck => 4,
            MessageType::PubRec => 5,
            MessageType::PubRel => 6,
            MessageType::PubComp => 7,
            MessageType::Subscribe => 8,
            MessageType::SubAck => 9,
            MessageType::Unsubscribe => 10,
            MessageType::UnsubAck => 11,
            MessageType::PingReq => 12,
            MessageType::PingResp => 13,
            MessageType::Disconnect => 14,
            MessageType::Auth => 15,
        }
    }

    /// Packet type of a numeric value, if any.
    pub fn try_from_u8(value: u8) -> (r: Option<MessageType>)
        ensures
            r == spec_message_type_from(value),
    {
        match value {
            1 => Some(MessageType::Connect),
            2 => Some(MessageType::ConnAck),
            3 => Some(MessageType::Publish),
            4 => Some(MessageType::PubAck),
            5 => Some(MessageType::PubRec),
            6 => Some(MessageType::PubRel),
            7 => Some(MessageType::PubComp),
            8 => Some(MessageType::Subscribe),
            9 => Some(MessageType::SubAck),
            10 => Some(MessageType::Unsubscribe),
            11 => Some(MessageType::UnsubAck),
            12 => Some(MessageType::PingReq),
            13 => Some(MessageType::PingResp),
            14 => Some(MessageType::Disconnect),
            15 => Some(MessageType::Auth),
            _ => None,
        }
    }

    /// Flags that a packet of this type must carry.
    pub fn required_flags(self) -> (r: u8)
        ensures
            r == spec_required_flags(self),
    {
        match self {
            MessageType::PubRel | MessageType::Subscribe | MessageType::Unsubscribe => 0b0010,
            _ => 0,
        }
    }

    /// Whether `flags` are allowed for this packet type: publish accepts any, others only
    /// their required flags.
    pub fn flags_valid(self, flags: u8) -> (r: bool)
        ensures
            r == (self == MessageType::Publish || flags == spec_required_flags(self)),
    {
        matches!(self, MessageType::Publish) || flags == self.required_flags()
    }
}

/// The first byte of an MQTT packet: type in the high nibble, flags in the low one.
#[derive(Debug, Copy, Clone, PartialEq, Eq, Structural)]
pub struct FixedHeader(pub u8);

/// Publish retain flag.
pub const PUBLISH_RETAIN_FLAG: u8 = 0b0001;

/// Publish duplicate flag.
pub const PUBLISH_DUP_FLAG: u8 = 0b1000;

impl FixedHeader {
    /// Combine a packet type and its flags.
    pub fn new(message_type: MessageType, flags: u8) -> (r: Self)
        requires
            flags <= 15,
        ensures
            r.0 == (spec_message_type_value(message_type) << 4u8) | flags,
            r.0 >> 4u8 == spec_message_type_value(message_type),
            r.0 & 0x0f == flags,
    {
        let t: u8 = message_type.value();
        assert(((t << 4u8) | flags) >> 4u8 == t && ((t << 4u8) | flags) & 0x0f == flags)
            by (bit_vector)
            requires
                1 <= t <= 15,
                flags <= 15,
        ;
        FixedHeader((t << 4) | flags)
    }

    /// Wrap a raw header byte.
    pub fn from_byte(byte: u8) -> (r: Self)
        ensures
            r.0 == byte,
    {
        FixedHeader(byte)
    }

    /// The raw header byte.
    pub fn byte(self) -> (r: u8)
        ensures
            r == self.0,
    {
        self.0
    }

    /// The packet type in the high nibble, if it names one.
    pub fn message_type(self) -> (r: Option<MessageType>)
        ensures
            r == spec_message_type_from(self.0 >> 4u8),
    {
        MessageType::try_from_u8(self.0 >> 4)
    }

    /// The low nibble.
    pub fn flags(self) -> (r: u8)
        ensures
            r == self.0 & 0x0f,
            r <= 15,
    {
        let b: u8 = self.0;
        assert((b & 0x0f) <= 15) by (bit_vector);
        b & 0x0f
    }

    /// Whether the type is known and the flags are allowed for it.
    pub fn flags_valid(self) -> (r: bool)
        ensures
            r == match spec_message_type_from(self.0 >> 4u8) {
                Some(t) => t == MessageType::Publish || self.0 & 0x0f == spec_required_flags(t),
                None => false,
            },
    {
        match self.message_type() {
            Some(message_type) => message_type.flags_valid(self.flags()),
            None => false,
        }
    }

    /// The QoS encoded in publish flags bits 1-2, if valid.
    pub fn publish_qos(self) -> (r: Option<QoS>)
        ensures
            ((self.0 & 0b0110) >> 1u8) <= 2 ==> r is Some && qos_level(r->Some_0) == (self.0
                & 0b0110) >> 1u8,
            ((self.0 & 0b0110) >> 1u8) > 2 ==> r is None,
    {
        let b: u8 = self.0;
        let level: u8 = (self.flags() & 0b0110) >> 1;
        assert(((b & 0x0f) & 0b0110) >> 1u8 == (b & 0b0110) >> 1u8) by (bit_vector);
        QoS::try_from_level(level)
    }

    /// The retain status encoded in publish flag bit 0.
    pub fn publish_retain(self) -> (r: Retain)
        ensures
            r == (if self.0 & PUBLISH_RETAIN_FLAG == 0 {
                Retain::NotRetained
            } else {
                Retain::Retained
            }),
    {
        let b: u8 = self.0;
        assert(((b & 0x0f) & 1) == (b & 1)) by (bit_vector);
        if self.flags() & PUBLISH_RETAIN_FLAG == 0 {
            Retain::NotRetained
        } else {
            Retain::Retained
        }
    }

    /// Whether publish flag bit 3 (duplicate delivery) is set.
    pub fn publish_duplicate(self) -> (r: bool)
        ensures
            r == (self.0 & PUBLISH_DUP_FLAG != 0),
    {
        let b: u8 = self.0;
        assert(((b & 0x0f) & 8) == (b & 8)) by (bit_vector);
        self.flags() & PUBLISH_DUP_FLAG != 0
    }

    /// The same header with the duplicate flag set.
    pub fn with_publish_duplicate(self) -> (r: Self)
        ensures
            r.0 == self.0 | PUBLISH_DUP_FLAG,
    {
        FixedHeader(self.0 | PUBLISH_DUP_FLAG)
    }
}

/// Mark an encoded PUBLISH fixed header as a retransmission.
pub fn mark_publish_duplicate(fixed_header: &mut u8)
    requires
        spec_message_type_from(*old(fixed_header) >> 4u8) == Some(MessageType::Publish),
    ensures
        *final(fixed_header) == *old(fixed_header) | PUBLISH_DUP_FLAG,
{
    let header = FixedHeader::from_byte(*fixed_header);
    *fixed_header = header.with_publish_duplicate().byte();
}

/// Setting the duplicate flag keeps the packet type, QoS and retain bits and makes the header
/// report a duplicate.
pub proof fn lemma_duplicate_keeps_header(byte: u8)
    ensures
        (byte | PUBLISH_DUP_FLAG) >> 4u8 == byte >> 4u8,
        ((byte | PUBLISH_DUP_FLAG) & 0b0110) == (byte & 0b0110),
        ((byte | PUBLISH_DUP_FLAG) & PUBLISH_RETAIN_FLAG) == (byte & PUBLISH_RETAIN_FLAG),
        ((byte | PUBLISH_DUP_FLAG) & PUBLISH_DUP_FLAG) != 0,
{
    assert((byte | 8) >> 4u8 == byte >> 4u8 && ((byte | 8) & 0b0110) == (byte & 0b0110) && ((byte
        | 8) & 1) == (byte & 1) && ((byte | 8) & 8) != 0) by (bit_vector);
}

/// A header built from a type and flags reports that type and those flags back.
pub proof fn lemma_fixed_header_roundtrip(t: MessageType, flags: u8)
    requires
        flags <= 15,
    ensures
        spec_message_type_from(((spec_message_type_value(t) << 4u8) | flags) >> 4u8) == Some(t),
        ((spec_message_type_value(t) << 4u8) | flags) & 0x0f == flags,
{
    let v = spec_message_type_value(t);
    assert(((v << 4u8) | flags) >> 4u8 == v && ((v << 4u8) | flags) & 0x0f == flags)
        by (bit_vector)
        requires
            1 <= v <= 15,
            flags <= 15,
    ;
}

} // verus!

verus! {

/// An MQTT UTF-8 string field: a 16-bit length, then the bytes.
#[derive(Debug, Copy, Clone, PartialEq, Eq)]
pub struct Utf8String<'a>(pub &'a str);

/// An MQTT binary data field: a 16-bit length, then the bytes.
#[derive(Debug, Copy, Clone, PartialEq, Eq)]
pub struct BinaryData<'a>(pub &'a [u8]);

} // verus!
