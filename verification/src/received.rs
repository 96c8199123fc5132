//! Packets received from the broker, read from one complete packet buffer.
use crate::de::{leb_end, leb_overlong, leb_sum, lemma_leb_end_bound, Error, MqttDeserializer};
use crate::decode::{is_leb_overlong, read_text, spec_prefixed_field};
use crate::packets::{Disconnect, PubAck, PubComp, PubRec, PubRel, Reason, ReasonData};
use crate::properties::Properties;
use crate::reason_codes::{spec_reason_code_from, ReasonCode};
use crate::varint::{read_mqtt_u32_varint, spec_decode_from, spec_varint_decode, VarintError};
use crate::wire::{spec_message_type_from, FixedHeader, MessageType, Utf8String};
use crate::{qos_level, ProtocolError, QoS, Retain};
use vstd::prelude::*;
use vstd::string::StringSliceAdditionalSpecFns;

verus! {

/// MQTT `CONNACK` packet.
#[derive(Debug, Copy, Clone)]
pub struct ConnAck<'a> {
    /// Whether the broker resumed an existing session.
    pub session_present: bool,
    /// The broker's answer to the connection request.
    pub reason_code: ReasonCode,
    /// Properties sent by the broker.
    pub properties: Properties<'a>,
}

/// MQTT `SUBACK` packet.
#[derive(Debug, Copy, Clone)]
pub struct SubAck<'a> {
    /// Packet identifier.
    pub packet_id: u16,
    /// Properties sent by the broker.
    pub properties: Properties<'a>,
    /// One reason code per requested topic filter.
    pub codes: &'a [u8],
}

/// MQTT `UNSUBACK` packet.
#[derive(Debug, Copy, Clone)]
pub struct UnsubAck<'a> {
    /// Packet identifier.
    pub packet_id: u16,
    /// Properties sent by the broker.
    pub properties: Properties<'a>,
    /// One reason code per requested topic filter.
    pub codes: &'a [u8],
}

/// An inbound MQTT `PUBLISH` packet.
#[derive(Debug)]
pub struct Pub<'a, P> {
    /// Topic the message was published on.
    pub topic: Utf8String<'a>,
    /// Packet identifier, present for QoS 1 and 2.
    pub packet_id: Option<u16>,
    /// Properties sent with the message.
    pub properties: Properties<'a>,
    /// Application payload.
    pub payload: P,
    /// Whether the message was retained by the broker.
    pub retain: Retain,
    /// Whether this is a redelivery.
    pub dup: bool,
    /// Delivery quality of service.
    pub qos: QoS,
}

/// A packet received from the broker.
#[derive(Debug)]
pub enum ReceivedPacket<'a> {
    ConnAck(ConnAck<'a>),
    Publish(Pub<'a, &'a [u8]>),
    PubAck(PubAck<'a>),
    SubAck(SubAck<'a>),
    UnsubAck(UnsubAck<'a>),
    PubRel(PubRel<'a>),
    PubRec(PubRec<'a>),
    PubComp(PubComp<'a>),
    Disconnect(Disconnect<'a>),
    PingResp,
}

/// `ProtocolError` for a failed read.
pub open spec fn spec_deser<T>(e: Error) -> Result<T, ProtocolError> {
    Err(ProtocolError::Deserialization(e))
}

/// Where the property block at the front of `t` sits: after its length, a variable byte
/// integer read as the `varint_rs` crate reads a `u32`, up to that many bytes further on. A
/// length whose first five bytes all continue is refused.
pub open spec fn spec_block(t: Seq<u8>) -> Result<(nat, nat), Error> {
    if leb_overlong(t) {
        Err(Error::Custom)
    } else {
        match leb_end(t, 0) {
            None => Err(Error::InsufficientData),
            Some(n) => {
                let len = leb_sum(t, n) % 0x1_0000_0000;
                if t.len() < n + len {
                    Err(Error::InsufficientData)
                } else {
                    Ok((n, n + len))
                }
            },
        }
    }
}

/// Whether `p` is the still-encoded property block `bytes`.
pub open spec fn props_are(p: Properties, bytes: Seq<u8>) -> bool {
    p.is_encoded() && p.encoded_bytes() == bytes
}

/// Big-endian 16-bit value of the bytes at `i` and `i + 1`.
pub open spec fn u16_at(b: Seq<u8>, i: int) -> u16 {
    (b[i] as u16 * 256 + b[i + 1] as u16) as u16
}

/// Read a property block from `de`.
fn read_block<'a>(de: &mut MqttDeserializer<'a>) -> (r: Result<Properties<'a>, Error>)
    ensures
        final(de).data() == old(de).data(),
        ({
            let t = old(de).rest();
            match spec_block(t) {
                Ok((a, z)) => (r matches Ok(p) && props_are(p, t.subrange(a as int, z as int))
                    && final(de).rest() == t.subrange(z as int, t.len() as int)),
                Err(e) => r == Err::<Properties<'a>, Error>(e),
            }
        }),
{
    let ghost t = de.rest();
    proof {
        lemma_leb_end_bound(t, 0);
    }
    if is_leb_overlong(de.remainder()) {
        return Err(Error::Custom);
    }
    let len = de.read_varint()?;
    let ghost n = leb_end(t, 0)->Some_0;
    let ghost mid = de.rest();
    let data = de.try_take_n(len as usize)?;
    assert(mid.subrange(0, len as int) =~= t.subrange(n as int, n + len));
    assert(mid.subrange(len as int, mid.len() as int) =~= t.subrange(n + len, t.len() as int));
    Ok(Properties::encoded(data))
}

/// A decoded variable byte integer lies within the bytes it was read from.
proof fn lemma_decode_within(s: Seq<u8>, i: nat, acc: nat)
    ensures
        spec_decode_from(s, i, acc) matches Ok((_, n)) ==> n <= s.len(),
    decreases 4 - i,
{
    if i < 4 && i < s.len() && s[i as int] >= 128 {
        lemma_decode_within(
            s,
            i + 1,
            acc + ((s[i as int] % 128) as nat) * crate::varint::group_weight(i),
        );
    }
}

/// What reading the body `b` of a `CONNACK` gives.
pub open spec fn connack_read<'a>(b: Seq<u8>, r: Result<ReceivedPacket<'a>, ProtocolError>) -> bool {
    if b.len() < 1 {
        r == spec_deser::<ReceivedPacket<'a>>(Error::InsufficientData)
    } else if b[0] > 1 {
        r == spec_deser::<ReceivedPacket<'a>>(Error::BadBool)
    } else if b.len() < 2 {
        r == spec_deser::<ReceivedPacket<'a>>(Error::InsufficientData)
    } else {
        match spec_block(b.subrange(2, b.len() as int)) {
            Err(e) => r == spec_deser::<ReceivedPacket<'a>>(e),
            Ok((x, z)) => if 2 + z < b.len() {
                r == Err::<ReceivedPacket<'a>, ProtocolError>(ProtocolError::MalformedPacket)
            } else {
                r matches Ok(ReceivedPacket::ConnAck(c)) && c.session_present == (b[0] == 1)
                    && c.reason_code == spec_reason_code_from(b[1]) && props_are(
                    c.properties,
                    b.subrange(2 + x as int, 2 + z as int),
                )
            },
        }
    }
}

fn read_connack<'a>(de: &mut MqttDeserializer<'a>) -> (r: Result<ReceivedPacket<'a>, ProtocolError>)
    ensures
        connack_read(old(de).rest(), r),
{
    let ghost b = de.rest();
    let flag = match de.pop() {
        Ok(v) => v,
        Err(e) => return Err(ProtocolError::Deserialization(e)),
    };
    if flag > 1 {
        return Err(ProtocolError::Deserialization(Error::BadBool));
    }
    let code = match de.pop() {
        Ok(v) => v,
        Err(e) => return Err(ProtocolError::Deserialization(e)),
    };
    assert(de.rest() =~= b.subrange(2, b.len() as int));
    let properties = match read_block(de) {
        Ok(p) => p,
        Err(e) => return Err(ProtocolError::Deserialization(e)),
    };
    if de.len() > 0 {
        return Err(ProtocolError::MalformedPacket);
    }
    proof {
        let (x, z) = spec_block(b.subrange(2, b.len() as int))->Ok_0;
        assert(b.subrange(2, b.len() as int).subrange(x as int, z as int) =~= b.subrange(
            2 + x as int,
            2 + z as int,
        ));
    }
    Ok(
        ReceivedPacket::ConnAck(
            ConnAck { session_present: flag == 1, reason_code: ReasonCode::from_u8(code), properties },
        ),
    )
}

/// Fields of an acknowledgement body `b`: the packet identifier, then, when more bytes
/// follow, a reason code and, when more follow still, a property block; with where the fields
/// end.
pub open spec fn spec_ack(b: Seq<u8>) -> Result<(u16, Option<(u8, Option<(nat, nat)>)>, nat), Error> {
    if b.len() < 2 {
        Err(Error::InsufficientData)
    } else if b.len() == 2 {
        Ok((u16_at(b, 0), None, 2))
    } else if b.len() == 3 {
        Ok((u16_at(b, 0), Some((b[2], None)), 3))
    } else {
        match spec_block(b.subrange(3, b.len() as int)) {
            Err(e) => Err(e),
            Ok((x, z)) => Ok((u16_at(b, 0), Some((b[2], Some((3 + x, 3 + z)))), 3 + z)),
        }
    }
}

/// Whether `reason` is the reason read from `b`.
pub open spec fn reason_is(reason: Reason, b: Seq<u8>, read: Option<(u8, Option<(nat, nat)>)>) -> bool {
    match read {
        None => reason.reason is None,
        Some((c, None)) => reason.reason matches Some(d) && d.code == spec_reason_code_from(c)
            && d.properties is None,
        Some((c, Some((x, z)))) => reason.reason matches Some(d) && d.code == spec_reason_code_from(
            c,
        ) && (d.properties matches Some(p) && props_are(p, b.subrange(x as int, z as int))),
    }
}

/// The packet identifier and reason of `p` when it is an acknowledgement of type `kind`.
pub open spec fn ack_of<'a>(kind: MessageType, p: ReceivedPacket<'a>) -> Option<(u16, Reason<'a>)> {
    match p {
        ReceivedPacket::PubAck(a) => if kind == MessageType::PubAck {
            Some((a.packet_id, a.reason))
        } else {
            None
        },
        ReceivedPacket::PubRec(a) => if kind == MessageType::PubRec {
            Some((a.packet_id, a.reason))
        } else {
            None
        },
        ReceivedPacket::PubRel(a) => if kind == MessageType::PubRel {
            Some((a.packet_id, a.reason))
        } else {
            None
        },
        ReceivedPacket::PubComp(a) => if kind == MessageType::PubComp {
            Some((a.packet_id, a.reason))
        } else {
            None
        },
        _ => None,
    }
}

/// What reading the body `b` of an acknowledgement of type `kind` gives.
pub open spec fn ack_read<'a>(
    kind: MessageType,
    b: Seq<u8>,
    r: Result<ReceivedPacket<'a>, ProtocolError>,
) -> bool {
    match spec_ack(b) {
        Err(e) => r == spec_deser::<ReceivedPacket<'a>>(e),
        Ok((id, read, end)) => if end < b.len() {
            r == Err::<ReceivedPacket<'a>, ProtocolError>(ProtocolError::MalformedPacket)
        } else {
            r matches Ok(p) && (ack_of(kind, p) matches Some((i, reason)) && i == id && reason_is(
                reason,
                b,
                read,
            ))
        },
    }
}

/// Read the fields of an acknowledgement and check that nothing follows them.
fn read_ack_fields<'a>(de: &mut MqttDeserializer<'a>) -> (r: Result<(u16, Reason<'a>), ProtocolError>)
    ensures
        ({
            let b = old(de).rest();
            match spec_ack(b) {
                Err(e) => r == spec_deser::<(u16, Reason<'a>)>(e),
                Ok((id, read, end)) => if end < b.len() {
                    r == Err::<(u16, Reason<'a>), ProtocolError>(ProtocolError::MalformedPacket)
                } else {
                    r matches Ok((i, reason)) && i == id && reason_is(reason, b, read)
                },
            }
        }),
{
    let ghost b = de.rest();
    let packet_id = match de.read_u16() {
        Ok(v) => v,
        Err(e) => return Err(ProtocolError::Deserialization(e)),
    };
    if de.len() == 0 {
        return Ok((packet_id, Reason { reason: None }));
    }
    let code = match de.pop() {
        Ok(v) => v,
        Err(e) => return Err(ProtocolError::Deserialization(e)),
    };
    let reason_code = ReasonCode::from_u8(code);
    if de.len() == 0 {
        return Ok((packet_id, Reason { reason: Some(ReasonData { code: reason_code, properties: None }) }));
    }
    assert(de.rest() =~= b.subrange(3, b.len() as int));
    let properties = match read_block(de) {
        Ok(p) => p,
        Err(e) => return Err(ProtocolError::Deserialization(e)),
    };
    if de.len() > 0 {
        return Err(ProtocolError::MalformedPacket);
    }
    proof {
        let (x, z) = spec_block(b.subrange(3, b.len() as int))->Ok_0;
        assert(b.subrange(3, b.len() as int).subrange(x as int, z as int) =~= b.subrange(
            3 + x as int,
            3 + z as int,
        ));
    }
    Ok(
        (
            packet_id,
            Reason { reason: Some(ReasonData { code: reason_code, properties: Some(properties) }) },
        ),
    )
}

fn read_ack<'a>(kind: MessageType, de: &mut MqttDeserializer<'a>) -> (r: Result<
    ReceivedPacket<'a>,
    ProtocolError,
>)
    requires
        kind == MessageType::PubAck || kind == MessageType::PubRec || kind == MessageType::PubRel
            || kind == MessageType::PubComp,
    ensures
        ack_read(kind, old(de).rest(), r),
{
    let (packet_id, reason) = read_ack_fields(de)?;
    Ok(
        match kind {
            MessageType::PubAck => ReceivedPacket::PubAck(PubAck { packet_id, reason }),
            MessageType::PubRec => ReceivedPacket::PubRec(PubRec { packet_id, reason }),
            MessageType::PubRel => ReceivedPacket::PubRel(PubRel { packet_id, reason }),
            _ => ReceivedPacket::PubComp(PubComp { packet_id, reason }),
        },
    )
}

/// Fields of a `SUBACK` or `UNSUBACK` body `b`: the packet identifier and where the property
/// block sits; the reason codes follow it.
pub open spec fn spec_suback(b: Seq<u8>) -> Result<(u16, nat, nat), Error> {
    if b.len() < 2 {
        Err(Error::InsufficientData)
    } else {
        match spec_block(b.subrange(2, b.len() as int)) {
            Err(e) => Err(e),
            Ok((x, z)) => Ok((u16_at(b, 0), 2 + x, 2 + z)),
        }
    }
}

/// What reading the body `b` of a `SUBACK` (or, with `unsubscribe`, an `UNSUBACK`) gives.
pub open spec fn suback_read<'a>(
    unsubscribe: bool,
    b: Seq<u8>,
    r: Result<ReceivedPacket<'a>, ProtocolError>,
) -> bool {
    match spec_suback(b) {
        Err(e) => r == spec_deser::<ReceivedPacket<'a>>(e),
        Ok((id, x, z)) => if unsubscribe {
            r matches Ok(ReceivedPacket::UnsubAck(a)) && a.packet_id == id && props_are(
                a.properties,
                b.subrange(x as int, z as int),
            ) && a.codes@ == b.subrange(z as int, b.len() as int)
        } else {
            r matches Ok(ReceivedPacket::SubAck(a)) && a.packet_id == id && props_are(
                a.properties,
                b.subrange(x as int, z as int),
            ) && a.codes@ == b.subrange(z as int, b.len() as int)
        },
    }
}

fn read_suback<'a>(unsubscribe: bool, de: &mut MqttDeserializer<'a>) -> (r: Result<
    ReceivedPacket<'a>,
    ProtocolError,
>)
    ensures
        suback_read(unsubscribe, old(de).rest(), r),
{
    let ghost b = de.rest();
    let packet_id = match de.read_u16() {
        Ok(v) => v,
        Err(e) => return Err(ProtocolError::Deserialization(e)),
    };
    assert(de.rest() =~= b.subrange(2, b.len() as int));
    let properties = match read_block(de) {
        Ok(p) => p,
        Err(e) => return Err(ProtocolError::Deserialization(e)),
    };
    let codes = de.remainder();
    proof {
        let (x, z) = spec_block(b.subrange(2, b.len() as int))->Ok_0;
        assert(b.subrange(2, b.len() as int).subrange(x as int, z as int) =~= b.subrange(
            2 + x as int,
            2 + z as int,
        ));
        assert(codes@ =~= b.subrange(2 + z as int, b.len() as int));
    }
    if unsubscribe {
        Ok(ReceivedPacket::UnsubAck(UnsubAck { packet_id, properties, codes }))
    } else {
        Ok(ReceivedPacket::SubAck(SubAck { packet_id, properties, codes }))
    }
}

/// Fields of a `DISCONNECT` body `b`: a reason code when any byte is there, a property block
/// when more follow; with where the fields end.
pub open spec fn spec_disconnect(b: Seq<u8>) -> Result<(Option<u8>, Option<(nat, nat)>, nat), Error> {
    if b.len() == 0 {
        Ok((None, None, 0))
    } else if b.len() == 1 {
        Ok((Some(b[0]), None, 1))
    } else {
        match spec_block(b.subrange(1, b.len() as int)) {
            Err(e) => Err(e),
            Ok((x, z)) => Ok((Some(b[0]), Some((1 + x, 1 + z)), 1 + z)),
        }
    }
}

/// What reading the body `b` of a `DISCONNECT` gives.
pub open spec fn disconnect_read<'a>(b: Seq<u8>, r: Result<ReceivedPacket<'a>, ProtocolError>) -> bool {
    match spec_disconnect(b) {
        Err(e) => r == spec_deser::<ReceivedPacket<'a>>(e),
        Ok((code, block, end)) => if end < b.len() {
            r == Err::<ReceivedPacket<'a>, ProtocolError>(ProtocolError::MalformedPacket)
        } else {
            r matches Ok(ReceivedPacket::Disconnect(d)) && d.wire_reason() == (match code {
                Some(c) => Some(spec_reason_code_from(c)),
                None => None,
            }) && match block {
                Some((x, z)) => (d.wire_properties() matches Some(p) && props_are(
                    p,
                    b.subrange(x as int, z as int),
                )),
                None => d.wire_properties() is None,
            }
        },
    }
}

fn read_disconnect<'a>(de: &mut MqttDeserializer<'a>) -> (r: Result<ReceivedPacket<'a>, ProtocolError>)
    ensures
        disconnect_read(old(de).rest(), r),
{
    let ghost b = de.rest();
    if de.len() == 0 {
        return Ok(ReceivedPacket::Disconnect(Disconnect::from_wire(None, None)));
    }
    let code = match de.pop() {
        Ok(v) => v,
        Err(e) => return Err(ProtocolError::Deserialization(e)),
    };
    let reason_code = ReasonCode::from_u8(code);
    if de.len() == 0 {
        return Ok(ReceivedPacket::Disconnect(Disconnect::from_wire(Some(reason_code), None)));
    }
    assert(de.rest() =~= b.subrange(1, b.len() as int));
    let properties = match read_block(de) {
        Ok(p) => p,
        Err(e) => return Err(ProtocolError::Deserialization(e)),
    };
    if de.len() > 0 {
        return Err(ProtocolError::MalformedPacket);
    }
    proof {
        let (x, z) = spec_block(b.subrange(1, b.len() as int))->Ok_0;
        assert(b.subrange(1, b.len() as int).subrange(x as int, z as int) =~= b.subrange(
            1 + x as int,
            1 + z as int,
        ));
    }
    Ok(ReceivedPacket::Disconnect(Disconnect::from_wire(Some(reason_code), Some(properties))))
}

/// Fields of a `PUBLISH` body `b`: where the topic ends, the packet identifier when
/// `with_id`, and where the property block sits; the payload follows it.
pub open spec fn spec_publish(with_id: bool, b: Seq<u8>) -> Result<(nat, Option<u16>, nat, nat), Error> {
    match spec_prefixed_field(b, true) {
        Err(e) => Err(e),
        Ok(n) => if with_id && b.len() < n + 2 {
            Err(Error::InsufficientData)
        } else {
            let m = if with_id {
                n + 2
            } else {
                n
            };
            match spec_block(b.subrange(m as int, b.len() as int)) {
                Err(e) => Err(e),
                Ok((x, z)) => Ok(
                    (
                        n,
                        if with_id {
                            Some(u16_at(b, n as int))
                        } else {
                            None
                        },
                        m + x,
                        m + z,
                    ),
                ),
            }
        },
    }
}

/// QoS level carried in the flags of a `PUBLISH` header byte.
pub open spec fn header_qos_level(header: u8) -> u8 {
    (header & 0b0110) >> 1u8
}

/// What reading the body `b` of a `PUBLISH` whose header byte is `header` gives.
pub open spec fn publish_read<'a>(header: u8, b: Seq<u8>, r: Result<ReceivedPacket<'a>, ProtocolError>) -> bool {
    let level = header_qos_level(header);
    if level > 2 {
        r == spec_deser::<ReceivedPacket<'a>>(Error::Custom)
    } else {
        match spec_publish(level != 0, b) {
            Err(e) => r == spec_deser::<ReceivedPacket<'a>>(e),
            Ok((n, id, x, z)) => r matches Ok(ReceivedPacket::Publish(p)) && p.topic.0.spec_bytes()
                == b.subrange(2, n as int) && p.packet_id == id && props_are(
                p.properties,
                b.subrange(x as int, z as int),
            ) && p.payload@ == b.subrange(z as int, b.len() as int) && qos_level(p.qos) == level
                && p.retain == (if header & 1u8 == 0 {
                Retain::NotRetained
            } else {
                Retain::Retained
            }) && p.dup == (header & 8u8 != 0),
        }
    }
}

fn read_publish<'a>(header: u8, de: &mut MqttDeserializer<'a>) -> (r: Result<
    ReceivedPacket<'a>,
    ProtocolError,
>)
    ensures
        publish_read(header, old(de).rest(), r),
{
    let fh = FixedHeader::from_byte(header);
    let qos = match fh.publish_qos() {
        Some(q) => q,
        None => return Err(ProtocolError::Deserialization(Error::Custom)),
    };
    let ghost b = de.rest();
    let topic = match read_text(de) {
        Ok(t) => t,
        Err(e) => return Err(ProtocolError::Deserialization(e)),
    };
    let ghost n = spec_prefixed_field(b, true)->Ok_0;
    let packet_id = if qos.level() != 0 {
        match de.read_u16() {
            Ok(v) => Some(v),
            Err(e) => return Err(ProtocolError::Deserialization(e)),
        }
    } else {
        None
    };
    let ghost m: nat = if qos_level(qos) != 0 {
        n + 2
    } else {
        n
    };
    assert(de.rest() =~= b.subrange(m as int, b.len() as int));
    let properties = match read_block(de) {
        Ok(p) => p,
        Err(e) => return Err(ProtocolError::Deserialization(e)),
    };
    let payload = de.remainder();
    proof {
        let (x, z) = spec_block(b.subrange(m as int, b.len() as int))->Ok_0;
        assert(b.subrange(m as int, b.len() as int).subrange(x as int, z as int) =~= b.subrange(
            m + x as int,
            m + z as int,
        ));
        assert(payload@ =~= b.subrange(m + z as int, b.len() as int));
    }
    Ok(
        ReceivedPacket::Publish(
            Pub {
                topic: Utf8String(topic),
                packet_id,
                properties,
                payload,
                retain: fh.publish_retain(),
                dup: fh.publish_duplicate(),
                qos,
            },
        ),
    )
}

/// What reading the body `b` of a packet whose header byte is `header` gives: the packet,
/// or why it cannot be read. Only packets a broker sends to a client are read; each must carry
/// the flags that MQTT v5 fixes for its type.
pub open spec fn body_read<'a>(header: u8, b: Seq<u8>, r: Result<ReceivedPacket<'a>, ProtocolError>) -> bool {
    let flags = header & 0x0f;
    match spec_message_type_from(header >> 4u8) {
        Some(MessageType::Publish) => publish_read(header, b, r),
        Some(MessageType::PubRel) => if flags != 2 {
            r == spec_deser::<ReceivedPacket<'a>>(Error::Custom)
        } else {
            ack_read(MessageType::PubRel, b, r)
        },
        Some(MessageType::ConnAck) => if flags != 0 {
            r == spec_deser::<ReceivedPacket<'a>>(Error::Custom)
        } else {
            connack_read(b, r)
        },
        Some(MessageType::PubAck) => if flags != 0 {
            r == spec_deser::<ReceivedPacket<'a>>(Error::Custom)
        } else {
            ack_read(MessageType::PubAck, b, r)
        },
        Some(MessageType::PubRec) => if flags != 0 {
            r == spec_deser::<ReceivedPacket<'a>>(Error::Custom)
        } else {
            ack_read(MessageType::PubRec, b, r)
        },
        Some(MessageType::PubComp) => if flags != 0 {
            r == spec_deser::<ReceivedPacket<'a>>(Error::Custom)
        } else {
            ack_read(MessageType::PubComp, b, r)
        },
        Some(MessageType::SubAck) => if flags != 0 {
            r == spec_deser::<ReceivedPacket<'a>>(Error::Custom)
        } else {
            suback_read(false, b, r)
        },
        Some(MessageType::UnsubAck) => if flags != 0 {
            r == spec_deser::<ReceivedPacket<'a>>(Error::Custom)
        } else {
            suback_read(true, b, r)
        },
        Some(MessageType::PingResp) => if flags != 0 {
            r == spec_deser::<ReceivedPacket<'a>>(Error::Custom)
        } else if b.len() > 0 {
            r == Err::<ReceivedPacket<'a>, ProtocolError>(ProtocolError::MalformedPacket)
        } else {
            r matches Ok(ReceivedPacket::PingResp)
        },
        Some(MessageType::Disconnect) => if flags != 0 {
            r == spec_deser::<ReceivedPacket<'a>>(Error::Custom)
        } else {
            disconnect_read(b, r)
        },
        _ => r == spec_deser::<ReceivedPacket<'a>>(Error::Custom),
    }
}

/// What reading the packet buffer `s` gives: the header byte, the remaining length as a
/// canonical variable byte integer (its value is not checked against the buffer), then the
/// body, which runs to the end of the buffer.
pub open spec fn spec_from_buffer<'a>(s: Seq<u8>, r: Result<ReceivedPacket<'a>, ProtocolError>) -> bool {
    if s.len() == 0 {
        r == spec_deser::<ReceivedPacket<'a>>(Error::InsufficientData)
    } else {
        match spec_varint_decode(s.subrange(1, s.len() as int)) {
            Err(VarintError::Incomplete) => r == spec_deser::<ReceivedPacket<'a>>(
                Error::InsufficientData,
            ),
            Err(VarintError::Invalid) => r == spec_deser::<ReceivedPacket<'a>>(Error::Custom),
            Ok((_, n)) => body_read(s[0], s.subrange(1 + n as int, s.len() as int), r),
        }
    }
}

#[verifier::rlimit(40)]
fn read_body<'a>(header: u8, de: &mut MqttDeserializer<'a>) -> (r: Result<
    ReceivedPacket<'a>,
    ProtocolError,
>)
    ensures
        body_read(header, old(de).rest(), r),
{
    let fh = FixedHeader::from_byte(header);
    let flags = fh.flags();
    match fh.message_type() {
        Some(MessageType::Publish) => read_publish(header, de),
        Some(MessageType::PubRel) => if flags != 2 {
            Err(ProtocolError::Deserialization(Error::Custom))
        } else {
            read_ack(MessageType::PubRel, de)
        },
        Some(MessageType::ConnAck) => if flags != 0 {
            Err(ProtocolError::Deserialization(Error::Custom))
        } else {
            read_connack(de)
        },
        Some(MessageType::PubAck) => if flags != 0 {
            Err(ProtocolError::Deserialization(Error::Custom))
        } else {
            read_ack(MessageType::PubAck, de)
        },
        Some(MessageType::PubRec) => if flags != 0 {
            Err(ProtocolError::Deserialization(Error::Custom))
        } else {
            read_ack(MessageType::PubRec, de)
        },
        Some(MessageType::PubComp) => if flags != 0 {
            Err(ProtocolError::Deserialization(Error::Custom))
        } else {
            read_ack(MessageType::PubComp, de)
        },
        Some(MessageType::SubAck) => if flags != 0 {
            Err(ProtocolError::Deserialization(Error::Custom))
        } else {
            read_suback(false, de)
        },
        Some(MessageType::UnsubAck) => if flags != 0 {
            Err(ProtocolError::Deserialization(Error::Custom))
        } else {
            read_suback(true, de)
        },
        Some(MessageType::PingResp) => if flags != 0 {
            Err(ProtocolError::Deserialization(Error::Custom))
        } else if de.len() > 0 {
            Err(ProtocolError::MalformedPacket)
        } else {
            Ok(ReceivedPacket::PingResp)
        },
        Some(MessageType::Disconnect) => if flags != 0 {
            Err(ProtocolError::Deserialization(Error::Custom))
        } else {
            read_disconnect(de)
        },
        _ => Err(ProtocolError::Deserialization(Error::Custom)),
    }
}

impl<'a> ReceivedPacket<'a> {
    /// Name of the packet type.
    pub fn kind(&self) -> (r: &'static str)
        ensures
            r@ == match self {
                ReceivedPacket::ConnAck(_) => "CONNACK"@,
                ReceivedPacket::Publish(_) => "PUBLISH"@,
                ReceivedPacket::PubAck(_) => "PUBACK"@,
                ReceivedPacket::SubAck(_) => "SUBACK"@,
                ReceivedPacket::UnsubAck(_) => "UNSUBACK"@,
                ReceivedPacket::PubRel(_) => "PUBREL"@,
                ReceivedPacket::PubRec(_) => "PUBREC"@,
                ReceivedPacket::PubComp(_) => "PUBCOMP"@,
                ReceivedPacket::Disconnect(_) => "DISCONNECT"@,
                ReceivedPacket::PingResp => "PINGRESP"@,
            },
    {
        match self {
            ReceivedPacket::ConnAck(_) => "CONNACK",
            ReceivedPacket::Publish(_) => "PUBLISH",
            ReceivedPacket::PubAck(_) => "PUBACK",
            ReceivedPacket::SubAck(_) => "SUBACK",
            ReceivedPacket::UnsubAck(_) => "UNSUBACK",
            ReceivedPacket::PubRel(_) => "PUBREL",
            ReceivedPacket::PubRec(_) => "PUBREC",
            ReceivedPacket::PubComp(_) => "PUBCOMP",
            ReceivedPacket::Disconnect(_) => "DISCONNECT",
            ReceivedPacket::PingResp => "PINGRESP",
        }
    }

    /// Read one complete packet from `buf`. Bytes left after the fields are the payload of a
    /// `PUBLISH` and the reason codes of a `SUBACK` or `UNSUBACK`; after any other packet they
    /// make it malformed.
    pub fn from_buffer(buf: &'a [u8]) -> (r: Result<Self, ProtocolError>)
        ensures
            spec_from_buffer(buf@, r),
    {
        let mut de = MqttDeserializer::new(buf);
        let header = match de.pop() {
            Ok(h) => h,
            Err(e) => return Err(ProtocolError::Deserialization(e)),
        };
        let ghost t = de.rest();
        assert(t =~= buf@.subrange(1, buf@.len() as int));
        match read_mqtt_u32_varint(de.remainder()) {
            Ok((_, n)) => {
                proof {
                    lemma_decode_within(t, 0, 0);
                }
                let _ = de.try_take_n(n);
                assert(de.rest() =~= buf@.subrange(1 + n as int, buf@.len() as int));
            },
            Err(VarintError::Incomplete) => {
                return Err(ProtocolError::Deserialization(Error::InsufficientData));
            },
            Err(VarintError::Invalid) => {
                return Err(ProtocolError::Deserialization(Error::Custom));
            },
        }
        read_body(header, &mut de)
    }
}

} // verus!

verus! {

/// Reading back an acknowledgement encoded as this library writes it (`PUBACK`, `PUBREC`
/// and `PUBCOMP` with flags 0, `PUBREL` with flags 2) gives the same kind of packet with the
/// same packet identifier and reason code, and no properties.
pub proof fn law_ack_roundtrip<'a>(
    kind: MessageType,
    flags: u8,
    packet_id: u16,
    reason: ReasonCode,
    r: Result<ReceivedPacket<'a>, ProtocolError>,
)
    requires
        (kind == MessageType::PubAck && flags == 0) || (kind == MessageType::PubRec && flags == 0)
            || (kind == MessageType::PubComp && flags == 0) || (kind == MessageType::PubRel
            && flags == 2),
        spec_from_buffer(crate::outbound::spec_ack_bytes(kind, flags, packet_id, reason), r),
    ensures
        r matches Ok(p) && (ack_of(kind, p) matches Some((id, rs)) && id == packet_id && (
        rs.reason matches Some(d) && d.code == reason && d.properties is None)),
{
    let s = crate::outbound::spec_ack_bytes(kind, flags, packet_id, reason);
    crate::wire::lemma_fixed_header_roundtrip(kind, flags);
    crate::reason_codes::lemma_reason_code_roundtrip(reason);
    crate::varint::lemma_varint_roundtrip(3, s.subrange(2, 5));
    assert(crate::varint::spec_varint_encode(3) =~= seq![3u8]);
    assert(s.subrange(1, 5) =~= crate::varint::spec_varint_encode(3) + s.subrange(2, 5));
    let b = s.subrange(2, 5);
    let id = packet_id as nat;
    assert(b.len() == 3);
    assert(flags & 0x0f == flags) by (bit_vector)
        requires
            flags <= 15,
    ;
    assert(s[0] == crate::ser::spec_header_byte(kind, flags));
    assert(spec_varint_decode(s.subrange(1, s.len() as int)) == Ok::<(nat, nat), VarintError>(
        (3, 1),
    ));
    assert(s.subrange(2, s.len() as int) =~= b);
    assert(body_read(s[0], b, r));
    assert(spec_message_type_from(s[0] >> 4u8) == Some(kind));
    assert(s[0] & 0x0f == flags);
    assert(b[2] == crate::reason_codes::spec_reason_code_value(reason));
    assert(ack_read(kind, b, r));
    assert(u16_at(b, 0) == packet_id) by {
        assert(b[0] == ((id / 256) % 256) as u8);
        assert(b[1] == (id % 256) as u8);
        assert(((id / 256) % 256) * 256 + id % 256 == id) by (nonlinear_arith)
            requires
                id < 65536,
        ;
    }
}

} // verus!
