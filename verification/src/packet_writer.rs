//! A packet writer that fills its buffer from the end towards the start, so that the length of
//! what follows a field is known when the field is written.
use crate::bits::{set_bits, spec_set_bits};
use crate::packets::{lemma_enc_then_assoc, lemma_enc_then_unit};
use crate::properties::{spec_property_enc, spec_props_enc, Property};
use crate::ser::enc_then;
use crate::ser::{be16, be32, enc_prefixed};
use crate::de::spec_vli_from;
use crate::varint::{spec_varint_encode, spec_varint_len, write_mqtt_u32_varint, VarintBuffer, MQTT_VARINT_MAX};
use crate::wire::{spec_message_type_value, MessageType};
use crate::ProtocolError;
use vstd::prelude::*;
use vstd::string::StringSliceAdditionalSpecFns;

verus! {

/// Encoding a list of properties encodes the first one, then the rest.
proof fn lemma_props_enc_front(t: Seq<Property>)
    requires
        t.len() > 0,
    ensures
        spec_props_enc(t) == enc_then(spec_property_enc(t[0]), spec_props_enc(t.drop_first())),
    decreases t.len(),
{
    if t.len() == 1 {
        assert(t.drop_last() =~= Seq::<Property>::empty());
        assert(t.drop_first() =~= Seq::<Property>::empty());
        lemma_enc_then_unit(spec_property_enc(t[0]));
    } else {
        lemma_props_enc_front(t.drop_last());
        assert(t.drop_last().drop_first() =~= t.drop_first().drop_last());
        assert(t.drop_first().last() == t.last());
        lemma_enc_then_assoc(
            spec_property_enc(t[0]),
            spec_props_enc(t.drop_first().drop_last()),
            spec_property_enc(t.last()),
        );
    }
}

/// Writes a packet from its last byte towards its first.
pub struct ReversedPacketWriter<'a> {
    buffer: &'a mut [u8],
    index: usize,
}

impl<'a> ReversedPacketWriter<'a> {
    #[verifier::type_invariant]
    spec fn inv(self) -> bool {
        self.index <= self.buffer@.len()
    }

    /// Size of the buffer.
    pub closed spec fn capacity(&self) -> nat {
        (*self.buffer)@.len()
    }

    /// The whole buffer being written.
    pub closed spec fn storage(&self) -> Seq<u8> {
        (*self.buffer)@
    }

    /// The buffer being written; callers learn what it holds once the writer is done from its
    /// final value.
    pub closed spec fn buffer(&self) -> &'a mut [u8] {
        self.buffer
    }

    /// The bytes written so far, in packet order.
    pub closed spec fn written(&self) -> Seq<u8> {
        (*self.buffer)@.subrange(self.index as int, (*self.buffer)@.len() as int)
    }

    /// Whether a write of `data` went through: `data` now leads what was written, or, without
    /// room for it, nothing changed and `Bounds` came back.
    pub open spec fn prepended(&self, old: &Self, data: Seq<u8>, r: Result<(), ProtocolError>) -> bool {
        &&& self.capacity() == old.capacity()
        &&& old.written().len() + data.len() <= old.capacity() ==> r is Ok && self.written() == data
            + old.written()
        &&& old.written().len() + data.len() > old.capacity() ==> r == Err::<(), ProtocolError>(
            ProtocolError::Bounds,
        ) && self.written() == old.written()
    }

    /// A writer with nothing written, filling `buffer` from its end.
    pub fn new(buffer: &'a mut [u8]) -> (r: Self)
        ensures
            r.capacity() == old(buffer)@.len(),
            r.written() == Seq::<u8>::empty(),
            r.storage() == old(buffer)@,
            final(r.buffer())@ == final(buffer)@,
    {
        let index = buffer.len();
        ReversedPacketWriter { buffer, index }
    }

    /// Stop writing: the buffer keeps what it holds, the bytes written at its end.
    pub fn release(self)
        ensures
            final(self.buffer())@ == self.storage(),
            self.storage().len() == self.capacity(),
            self.written().len() <= self.capacity(),
            self.storage().subrange(
                self.capacity() - self.written().len(),
                self.capacity() as int,
            ) == self.written(),
    {
        proof {
            use_type_invariant(&self);
        }
        let whole: &'a [u8] = self.buffer;
        let _ = whole;
    }

    /// Put `data` in front of what was written.
    pub fn write(&mut self, data: &[u8]) -> (r: Result<(), ProtocolError>)
        ensures
            final(final(self).buffer())@ == final(old(self).buffer())@,
            final(self).prepended(old(self), data@, r),
    {
        proof {
            use_type_invariant(&*self);
        }
        if self.index < data.len() {
            return Err(ProtocolError::Bounds);
        }
        let start = self.index - data.len();
        let end = self.index;
        let ghost before = (*self.buffer)@;
        let n = data.len();
        let mut i: usize = 0;
        while i < n
            invariant
                final(self.buffer())@ == final(old(self).buffer())@,
                n == data@.len(),
                start + n == end,
                self.index == end,
                end <= self.buffer@.len(),
                self.buffer@.len() == before.len(),
                i <= n,
                forall|k: int| 0 <= k < i ==> self.buffer@[start + k] == data@[k],
                forall|k: int| end <= k < before.len() ==> self.buffer@[k] == before[k],
            decreases n - i,
        {
            self.buffer[start + i] = data[i];
            i = i + 1;
        }
        self.index = start;
        assert(self.written() =~= data@ + old(self).written());
        Ok(())
    }

    /// Put a length-prefixed block in front of what was written. Blocks longer than 65535
    /// bytes are refused with `DataSize`.
    pub fn write_binary_data(&mut self, data: &[u8]) -> (r: Result<(), ProtocolError>)
        ensures
            final(final(self).buffer())@ == final(old(self).buffer())@,
            final(self).capacity() == old(self).capacity(),
            data@.len() > 65535 ==> r == Err::<(), ProtocolError>(ProtocolError::DataSize)
                && final(self).written() == old(self).written(),
            data@.len() <= 65535 && old(self).written().len() + data@.len() + 2 <= old(
                self,
            ).capacity() ==> r is Ok && final(self).written() == be16(data@.len()) + data@ + old(
                self,
            ).written(),
            data@.len() <= 65535 && old(self).written().len() + data@.len() + 2 > old(
                self,
            ).capacity() ==> r == Err::<(), ProtocolError>(ProtocolError::Bounds),
    {
        if data.len() > 65535 {
            return Err(ProtocolError::DataSize);
        }
        self.write(data)?;
        let len = data.len() as u16;
        self.write_u16(len)?;
        assert(be16(data@.len()) + data@ + old(self).written() =~= be16(data@.len()) + (data@ + old(
            self,
        ).written()));
        Ok(())
    }

    /// Put a big-endian 16-bit integer in front of what was written.
    pub fn write_u16(&mut self, value: u16) -> (r: Result<(), ProtocolError>)
        ensures
            final(final(self).buffer())@ == final(old(self).buffer())@,
            final(self).prepended(old(self), be16(value as nat), r),
    {
        let bytes: [u8; 2] = [(value / 256) as u8, (value % 256) as u8];
        assert(bytes@ =~= be16(value as nat));
        self.write(&bytes)
    }

    /// Put a big-endian 32-bit integer in front of what was written.
    pub fn write_u32(&mut self, value: u32) -> (r: Result<(), ProtocolError>)
        ensures
            final(final(self).buffer())@ == final(old(self).buffer())@,
            final(self).prepended(old(self), be32(value as nat), r),
    {
        let bytes: [u8; 4] = [
            (value / 16777216) as u8,
            ((value / 65536) % 256) as u8,
            ((value / 256) % 256) as u8,
            (value % 256) as u8,
        ];
        assert(bytes@ =~= be32(value as nat));
        self.write(&bytes)
    }

    /// Put a length-prefixed UTF-8 string in front of what was written.
    pub fn write_utf8_string(&mut self, string: &str) -> (r: Result<(), ProtocolError>)
        ensures
            final(final(self).buffer())@ == final(old(self).buffer())@,
            final(self).capacity() == old(self).capacity(),
            string.spec_bytes().len() > 65535 ==> r == Err::<(), ProtocolError>(
                ProtocolError::DataSize,
            ),
            string.spec_bytes().len() <= 65535 && old(self).written().len()
                + string.spec_bytes().len() + 2 <= old(self).capacity() ==> r is Ok
                && final(self).written() == be16(string.spec_bytes().len()) + string.spec_bytes()
                + old(self).written(),
            string.spec_bytes().len() <= 65535 && old(self).written().len()
                + string.spec_bytes().len() + 2 > old(self).capacity() ==> r == Err::<
                (),
                ProtocolError,
            >(ProtocolError::Bounds),
    {
        self.write_binary_data(string.as_bytes())
    }

    /// Put an MQTT variable byte integer in front of what was written: its 7-bit groups,
    /// least significant first, with the continuation bit on every byte but the last, so that
    /// reading the written bytes back gives `value`. Values above 2^28 - 1 are refused with
    /// `DataSize`.
    pub fn write_variable_length_integer(&mut self, value: usize) -> (r: Result<(), ProtocolError>)
        ensures
            final(final(self).buffer())@ == final(old(self).buffer())@,
            value > MQTT_VARINT_MAX ==> r == Err::<(), ProtocolError>(ProtocolError::DataSize)
                && final(self).written() == old(self).written() && final(self).capacity() == old(
                self,
            ).capacity(),
            value <= MQTT_VARINT_MAX ==> final(self).prepended(
                old(self),
                spec_varint_encode(value as nat),
                r,
            ),
            r is Ok ==> spec_vli_from(final(self).written(), 0, 0) == Ok::<(nat, nat), ProtocolError>(
                (value as nat, spec_varint_len(value as nat)),
            ),
    {
        if value > 0x0FFF_FFFF {
            return Err(ProtocolError::DataSize);
        }
        let mut encoded = VarintBuffer::new();
        proof {
            crate::varint::lemma_encode_len_max(value as nat);
            assert(Seq::<u8>::empty() + spec_varint_encode(value as nat) =~= spec_varint_encode(
                value as nat,
            ));
        }
        if write_mqtt_u32_varint(value as u32, &mut encoded).is_err() {
            return Err(ProtocolError::DataSize);
        }
        let r = self.write(encoded.as_slice());
        proof {
            if r is Ok {
                crate::de::law_vli_reads_encoding(value as nat, old(self).written());
            }
        }
        r
    }

    /// The number of bytes written so far.
    pub fn current_length(&self) -> (r: usize)
        ensures
            r == self.written().len(),
    {
        proof {
            use_type_invariant(self);
        }
        self.buffer.len() - self.index
    }

    /// Put the value of one property in front of what was written.
    #[verifier::rlimit(60)]
    fn write_property_value(&mut self, property: &Property) -> (r: Result<(), ProtocolError>)
        ensures
            final(final(self).buffer())@ == final(old(self).buffer())@,
            final(self).capacity() == old(self).capacity(),
            match crate::properties::spec_property_value_enc(*property) {
                Err(_) => r is Err,
                Ok(e) => if old(self).written().len() + e.len() <= old(self).capacity() {
                    r is Ok && final(self).written() == e + old(self).written()
                } else {
                    r == Err::<(), ProtocolError>(ProtocolError::Bounds)
                },
            },
    {
        let ghost w0 = self.written();
        reveal(crate::properties::spec_property_value_enc);
        match property {
            Property::PayloadFormatIndicator(v) | Property::RequestProblemInformation(v)
            | Property::RequestResponseInformation(v) | Property::MaximumQoS(v)
            | Property::RetainAvailable(v) | Property::WildcardSubscriptionAvailable(v)
            | Property::SubscriptionIdentifierAvailable(v) | Property::SharedSubscriptionAvailable(
                v,
            ) => {
                let b: [u8; 1] = [*v];
                assert(b@ =~= seq![*v]);
                self.write(&b)
            },
            Property::MessageExpiryInterval(v) | Property::SessionExpiryInterval(v)
            | Property::WillDelayInterval(v) | Property::MaximumPacketSize(v) => self.write_u32(*v),
            Property::ServerKeepAlive(v) | Property::ReceiveMaximum(v)
            | Property::TopicAliasMaximum(v) | Property::TopicAlias(v) => self.write_u16(*v),
            Property::ContentType(v) | Property::ResponseTopic(v)
            | Property::AssignedClientIdentifier(v) | Property::AuthenticationMethod(v)
            | Property::ResponseInformation(v) | Property::ServerReference(v)
            | Property::ReasonString(v) => self.write_utf8_string(v),
            Property::CorrelationData(v) | Property::AuthenticationData(v) => self.write_binary_data(
                v,
            ),
            Property::SubscriptionIdentifier(v) => {
                let mut encoded = VarintBuffer::new();
                proof {
                    if *v <= MQTT_VARINT_MAX {
                        crate::varint::lemma_encode_len_max(*v as nat);
                        assert(Seq::<u8>::empty() + spec_varint_encode(*v as nat) =~= spec_varint_encode(
                            *v as nat,
                        ));
                    }
                }
                if write_mqtt_u32_varint(*v, &mut encoded).is_err() {
                    return Err(ProtocolError::DataSize);
                }
                self.write(encoded.as_slice())
            },
            Property::UserProperty(key, value) => {
                self.write_utf8_string(value)?;
                self.write_utf8_string(key)?;
                assert(be16(key.spec_bytes().len()) + key.spec_bytes() + (be16(
                    value.spec_bytes().len(),
                ) + value.spec_bytes() + w0) =~= (be16(key.spec_bytes().len()) + key.spec_bytes()
                    + be16(value.spec_bytes().len()) + value.spec_bytes()) + w0);
                Ok(())
            },
        }
    }

    /// Put one property in front of what was written: its identifier, then its value.
    fn write_property(&mut self, property: &Property) -> (r: Result<(), ProtocolError>)
        ensures
            final(final(self).buffer())@ == final(old(self).buffer())@,
            final(self).capacity() == old(self).capacity(),
            match spec_property_enc(*property) {
                Err(_) => r is Err,
                Ok(e) => if old(self).written().len() + e.len() <= old(self).capacity() {
                    r is Ok && final(self).written() == e + old(self).written()
                } else {
                    r == Err::<(), ProtocolError>(ProtocolError::Bounds)
                },
            },
    {
        let ghost w0 = self.written();
        let id: u32 = property.identifier();
        proof {
            crate::varint::lemma_encode_len(id as nat);
            assert(spec_varint_encode(id as nat) =~= seq![id as u8]) by {
                reveal_with_fuel(spec_varint_encode, 2);
            }
        }
        self.write_property_value(property)?;
        let ghost w1 = self.written();
        let idb: [u8; 1] = [id as u8];
        assert(idb@ =~= seq![id as u8]);
        self.write(&idb)?;
        proof {
            if let Ok(v) = crate::properties::spec_property_value_enc(*property) {
                assert(self.written() =~= (seq![id as u8] + v) + w0);
            }
        }
        Ok(())
    }

    /// Put a property block in front of what was written: the properties in the given order,
    /// preceded by their total length.
    #[verifier::rlimit(30)]
    pub fn write_properties(&mut self, properties: &[Property]) -> (r: Result<(), ProtocolError>)
        ensures
            final(final(self).buffer())@ == final(old(self).buffer())@,
            final(self).capacity() == old(self).capacity(),
            match spec_props_enc(properties@) {
                Err(_) => r is Err,
                Ok(block) => if block.len() > MQTT_VARINT_MAX {
                    r is Err
                } else if old(self).written().len() + block.len() + spec_varint_encode(
                    block.len(),
                ).len() <= old(self).capacity() {
                    r is Ok && final(self).written() == spec_varint_encode(block.len()) + block + old(
                        self,
                    ).written()
                } else {
                    r == Err::<(), ProtocolError>(ProtocolError::Bounds)
                },
            },
    {
        let start_length = self.current_length();
        let n = properties.len();
        let mut i: usize = n;
        let ghost mut mid: Seq<u8> = Seq::empty();
        proof {
            assert(properties@.subrange(n as int, n as int) =~= Seq::<Property>::empty());
        }
        while i > 0
            invariant
                final(self.buffer())@ == final(old(self).buffer())@,
                i <= n,
                n == properties@.len(),
                self.capacity() == old(self).capacity(),
                start_length == old(self).written().len(),
                self.written() == mid + old(self).written(),
                spec_props_enc(properties@.subrange(i as int, n as int)) == Ok::<Seq<u8>, Seq<u8>>(
                    mid,
                ),
            decreases i,
        {
            i = i - 1;
            let ghost w = self.written();
            let ghost t = properties@.subrange(i as int, n as int);
            proof {
                lemma_props_enc_front(t);
                assert(t.drop_first() =~= properties@.subrange(i + 1, n as int));
                assert(t[0] == properties@[i as int]);
                crate::properties::lemma_props_enc_split(properties@, i as int);
                assert(properties@.skip(i as int) =~= t);
            }
            match self.write_property(&properties[i]) {
                Ok(()) => {},
                Err(e) => {
                    proof {
                        if let Ok(block) = spec_props_enc(properties@) {
                            let pre = spec_props_enc(properties@.take(i as int))->Ok_0;
                            let ei = spec_property_enc(properties@[i as int])->Ok_0;
                            assert(block == pre + (ei + mid));
                        }
                    }
                    return Err(e);
                },
            }
            proof {
                let e = spec_property_enc(properties@[i as int])->Ok_0;
                assert(self.written() =~= (e + mid) + old(self).written());
                mid = e + mid;
            }
        }
        assert(properties@.subrange(0, n as int) =~= properties@);
        let total = self.current_length() - start_length;
        self.write_variable_length_integer(total)?;
        assert(mid.len() == total);
        Ok(())
    }

    /// Put the fixed header in front of what was written.
    fn write_fixed_header(&mut self, typ: MessageType, flags: u8, len: usize) -> (r: Result<
        (),
        ProtocolError,
    >)
        requires
            flags < 16,
        ensures
            final(final(self).buffer())@ == final(old(self).buffer())@,
            final(self).capacity() == old(self).capacity(),
            r is Ok ==> len <= MQTT_VARINT_MAX && final(self).written() == seq![
                ((spec_message_type_value(typ) * 16) + flags) as u8,
            ] + spec_varint_encode(len as nat) + old(self).written(),
            r is Err ==> !(len <= MQTT_VARINT_MAX && old(self).written().len()
                + spec_varint_encode(len as nat).len() + 1 <= old(self).capacity()),
    {
        self.write_variable_length_integer(len)?;
        let t = typ.value();
        assert(crate::bits::fits_bits(t, 4)) by (bit_vector)
            requires
                t < 16,
        ;
        assert(crate::bits::fits_bits(flags, 4)) by (bit_vector)
            requires
                flags < 16,
        ;
        let high = set_bits(0u8, 4, 8, t);
        let header = set_bits(high, 0, 4, flags);
        assert(spec_set_bits(0u8, 4, 8, t) == t * 16) by (bit_vector)
            requires
                t < 16,
        ;
        assert(spec_set_bits((t * 16) as u8, 0, 4, flags) == t * 16 + flags) by (bit_vector)
            requires
                t < 16,
                flags < 16,
        ;
        let hb: [u8; 1] = [header];
        self.write(&hb)?;
        Ok(())
    }

    /// Finish the packet by putting the fixed header in front of it.
    pub fn finalize(self, typ: MessageType, flags: u8) -> (r: Result<&'a [u8], ProtocolError>)
        requires
            flags < 16,
        ensures
            r matches Ok(p) ==> self.written().len() <= MQTT_VARINT_MAX && p@ == seq![
                ((spec_message_type_value(typ) * 16) + flags) as u8,
            ] + spec_varint_encode(self.written().len()) + self.written(),
            r is Err ==> !(self.written().len() <= MQTT_VARINT_MAX && self.written().len()
                + spec_varint_encode(self.written().len()).len() + 1 <= self.capacity()),
            final(self.buffer())@.len() == self.capacity(),
            r matches Ok(p) ==> p@.len() <= self.capacity() && final(self.buffer())@.subrange(
                self.capacity() - p@.len(),
                self.capacity() as int,
            ) == p@,
    {
        let len = self.current_length();
        let mut writer = self;
        writer.write_fixed_header(typ, flags, len)?;
        proof {
            use_type_invariant(&writer);
            assert(writer.written().len() >= 1);
        }
        if writer.index == writer.buffer.len() {
            Err(ProtocolError::MalformedPacket)
        } else {
            let index = writer.index;
            let whole: &'a [u8] = writer.buffer;
            Ok(crate::de::slice_from(whole, index))
        }
    }
}

} // verus!
