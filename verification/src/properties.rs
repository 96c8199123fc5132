//! MQTT v5 properties.
use crate::ser::{
    be16, be32, enc_prefixed, enc_then, enc_varint, lemma_push_then, spec_body_result, Enc,
    Error as SerError,
    MqttSerializer,
};
use crate::decode::{parse_block, spec_block_entries};
use crate::varint::{spec_varint_len, Varint, MQTT_VARINT_MAX};
use crate::PeerError;
use vstd::prelude::*;
use vstd::string::StringSliceAdditionalSpecFns;

verus! {

/// All of the possible properties that MQTT version 5 supports.
#[derive(Debug, Clone, Copy, PartialEq, Eq)]
pub enum Property<'a> {
    /// Payload format indicator.
    PayloadFormatIndicator(u8),
    /// Message expiry interval in seconds.
    MessageExpiryInterval(u32),
    /// Content type of the application payload.
    ContentType(&'a str),
    /// Response topic for request/reply patterns.
    ResponseTopic(&'a str),
    /// Correlation data for request/reply patterns.
    CorrelationData(&'a [u8]),
    /// Subscription identifier.
    SubscriptionIdentifier(u32),
    /// Session expiry interval in seconds.
    SessionExpiryInterval(u32),
    /// Client identifier assigned by the broker.
    AssignedClientIdentifier(&'a str),
    /// Broker-advertised keepalive.
    ServerKeepAlive(u16),
    /// Authentication method name.
    AuthenticationMethod(&'a str),
    /// Authentication data bytes.
    AuthenticationData(&'a [u8]),
    /// Whether problem information is requested.
    RequestProblemInformation(u8),
    /// Delay before publishing the will, in seconds.
    WillDelayInterval(u32),
    /// Whether response information is requested.
    RequestResponseInformation(u8),
    /// Broker response information.
    ResponseInformation(&'a str),
    /// Alternate broker reference.
    ServerReference(&'a str),
    /// Human-readable reason string.
    ReasonString(&'a str),
    /// Maximum concurrent QoS 1/2 receives.
    ReceiveMaximum(u16),
    /// Maximum supported topic alias.
    TopicAliasMaximum(u16),
    /// Topic alias value.
    TopicAlias(u16),
    /// Maximum supported QoS.
    MaximumQoS(u8),
    /// Whether retained messages are supported.
    RetainAvailable(u8),
    /// User-defined key/value property.
    UserProperty(&'a str, &'a str),
    /// Maximum packet size in bytes.
    MaximumPacketSize(u32),
    /// Whether wildcard subscriptions are supported.
    WildcardSubscriptionAvailable(u8),
    /// Whether subscription identifiers are supported.
    SubscriptionIdentifierAvailable(u8),
    /// Whether shared subscriptions are supported.
    SharedSubscriptionAvailable(u8),
}

/// Property identifier on the wire.
pub open spec fn spec_property_id(p: Property) -> u32 {
    match p {
        Property::PayloadFormatIndicator(_) => 0x01,
        Property::MessageExpiryInterval(_) => 0x02,
        Property::ContentType(_) => 0x03,
        Property::ResponseTopic(_) => 0x08,
        Property::CorrelationData(_) => 0x09,
        Property::SubscriptionIdentifier(_) => 0x0b,
        Property::SessionExpiryInterval(_) => 0x11,
        Property::AssignedClientIdentifier(_) => 0x12,
        Property::ServerKeepAlive(_) => 0x13,
        Property::AuthenticationMethod(_) => 0x15,
        Property::AuthenticationData(_) => 0x16,
        Property::RequestProblemInformation(_) => 0x17,
        Property::WillDelayInterval(_) => 0x18,
        Property::RequestResponseInformation(_) => 0x19,
        Property::ResponseInformation(_) => 0x1a,
        Property::ServerReference(_) => 0x1c,
        Property::ReasonString(_) => 0x1f,
        Property::ReceiveMaximum(_) => 0x21,
        Property::TopicAliasMaximum(_) => 0x22,
        Property::TopicAlias(_) => 0x23,
        Property::MaximumQoS(_) => 0x24,
        Property::RetainAvailable(_) => 0x25,
        Property::UserProperty(_, _) => 0x26,
        Property::MaximumPacketSize(_) => 0x27,
        Property::WildcardSubscriptionAvailable(_) => 0x28,
        Property::SubscriptionIdentifierAvailable(_) => 0x29,
        Property::SharedSubscriptionAvailable(_) => 0x2a,
    }
}

/// Encoding of a property: identifier, then value.
pub open spec fn spec_property_enc(p: Property) -> Enc {
    enc_then(enc_varint(spec_property_id(p) as nat), spec_property_value_enc(p))
}

/// Encoding of a property's value.
#[verifier::opaque]
pub open spec fn spec_property_value_enc(p: Property) -> Enc {
        match p {
            Property::PayloadFormatIndicator(v) => Ok(seq![v]),
            Property::MessageExpiryInterval(v) => Ok(be32(v as nat)),
            Property::ContentType(v) => enc_prefixed(v.spec_bytes()),
            Property::ResponseTopic(v) => enc_prefixed(v.spec_bytes()),
            Property::CorrelationData(v) => enc_prefixed(v@),
            Property::SubscriptionIdentifier(v) => enc_varint(v as nat),
            Property::SessionExpiryInterval(v) => Ok(be32(v as nat)),
            Property::AssignedClientIdentifier(v) => enc_prefixed(v.spec_bytes()),
            Property::ServerKeepAlive(v) => Ok(be16(v as nat)),
            Property::AuthenticationMethod(v) => enc_prefixed(v.spec_bytes()),
            Property::AuthenticationData(v) => enc_prefixed(v@),
            Property::RequestProblemInformation(v) => Ok(seq![v]),
            Property::WillDelayInterval(v) => Ok(be32(v as nat)),
            Property::RequestResponseInformation(v) => Ok(seq![v]),
            Property::ResponseInformation(v) => enc_prefixed(v.spec_bytes()),
            Property::ServerReference(v) => enc_prefixed(v.spec_bytes()),
            Property::ReasonString(v) => enc_prefixed(v.spec_bytes()),
            Property::ReceiveMaximum(v) => Ok(be16(v as nat)),
            Property::TopicAliasMaximum(v) => Ok(be16(v as nat)),
            Property::TopicAlias(v) => Ok(be16(v as nat)),
            Property::MaximumQoS(v) => Ok(seq![v]),
            Property::RetainAvailable(v) => Ok(seq![v]),
            Property::UserProperty(key, value) => enc_then(
                enc_prefixed(key.spec_bytes()),
                enc_prefixed(value.spec_bytes()),
            ),
            Property::MaximumPacketSize(v) => Ok(be32(v as nat)),
            Property::WildcardSubscriptionAvailable(v) => Ok(seq![v]),
            Property::SubscriptionIdentifierAvailable(v) => Ok(seq![v]),
            Property::SharedSubscriptionAvailable(v) => Ok(seq![v]),
        }
}

/// Encoded size of a property, as the size computation counts it.
pub open spec fn spec_property_size(p: Property) -> nat {
    spec_varint_len(spec_property_id(p) as nat) + match p {
        Property::PayloadFormatIndicator(_) => 1,
        Property::MessageExpiryInterval(_) => 4,
        Property::ContentType(v) => v.spec_bytes().len() + 2,
        Property::ResponseTopic(v) => v.spec_bytes().len() + 2,
        Property::CorrelationData(v) => v@.len() + 2,
        Property::SubscriptionIdentifier(v) => spec_varint_len(v as nat),
        Property::SessionExpiryInterval(_) => 4,
        Property::AssignedClientIdentifier(v) => v.spec_bytes().len() + 2,
        Property::ServerKeepAlive(_) => 2,
        Property::AuthenticationMethod(v) => v.spec_bytes().len() + 2,
        Property::AuthenticationData(v) => v@.len() + 2,
        Property::RequestProblemInformation(_) => 1,
        Property::WillDelayInterval(_) => 4,
        Property::RequestResponseInformation(_) => 1,
        Property::ResponseInformation(v) => v.spec_bytes().len() + 2,
        Property::ServerReference(v) => v.spec_bytes().len() + 2,
        Property::ReasonString(v) => v.spec_bytes().len() + 2,
        Property::ReceiveMaximum(_) => 2,
        Property::TopicAliasMaximum(_) => 2,
        Property::TopicAlias(_) => 2,
        Property::MaximumQoS(_) => 1,
        Property::RetainAvailable(_) => 1,
        Property::UserProperty(key, value) => (value.spec_bytes().len() + 2) + (key.spec_bytes().len() + 2),
        Property::MaximumPacketSize(_) => 4,
        Property::WildcardSubscriptionAvailable(_) => 1,
        Property::SubscriptionIdentifierAvailable(_) => 1,
        Property::SharedSubscriptionAvailable(_) => 1,
    }
}

/// Packet kinds whose properties are checked for applicability.
#[derive(Debug, Copy, Clone, PartialEq, Eq, Structural)]
pub enum PropertyContext {
    Publish,
    Subscribe,
    Unsubscribe,
    Disconnect,
    Will,
}

/// Whether the property value lies in its allowed range.
pub open spec fn spec_has_valid_value(p: Property) -> bool {
    match p {
        Property::PayloadFormatIndicator(v) | Property::RequestProblemInformation(v)
        | Property::RequestResponseInformation(v) | Property::RetainAvailable(v)
        | Property::WildcardSubscriptionAvailable(v) | Property::SubscriptionIdentifierAvailable(v)
        | Property::SharedSubscriptionAvailable(v) => v <= 1,
        Property::MaximumQoS(v) => v <= 2,
        Property::SubscriptionIdentifier(v) => 1 <= v <= MQTT_VARINT_MAX,
        _ => true,
    }
}

/// Whether the property may be sent in the given packet kind.
pub open spec fn spec_allowed_in(p: Property, context: PropertyContext) -> bool {
    let id = spec_property_id(p);
    match context {
        PropertyContext::Publish => id == 0x01 || id == 0x02 || id == 0x03 || id == 0x08 || id
            == 0x09 || id == 0x26 || id == 0x23,
        PropertyContext::Will => id == 0x01 || id == 0x02 || id == 0x03 || id == 0x08 || id
            == 0x09 || id == 0x26,
        PropertyContext::Subscribe => id == 0x0b || id == 0x26,
        PropertyContext::Unsubscribe => id == 0x26,
        PropertyContext::Disconnect => id == 0x11 || id == 0x1f || id == 0x26 || id == 0x1c,
    }
}

impl<'a> Property<'a> {
    /// The property identifier.
    pub fn identifier(&self) -> (r: u32)
        ensures
            r == spec_property_id(*self),
            r < 128,
    {
        match self {
            Property::PayloadFormatIndicator(_) => 0x01,
            Property::MessageExpiryInterval(_) => 0x02,
            Property::ContentType(_) => 0x03,
            Property::ResponseTopic(_) => 0x08,
            Property::CorrelationData(_) => 0x09,
            Property::SubscriptionIdentifier(_) => 0x0b,
            Property::SessionExpiryInterval(_) => 0x11,
            Property::AssignedClientIdentifier(_) => 0x12,
            Property::ServerKeepAlive(_) => 0x13,
            Property::AuthenticationMethod(_) => 0x15,
            Property::AuthenticationData(_) => 0x16,
            Property::RequestProblemInformation(_) => 0x17,
            Property::WillDelayInterval(_) => 0x18,
            Property::RequestResponseInformation(_) => 0x19,
            Property::ResponseInformation(_) => 0x1a,
            Property::ServerReference(_) => 0x1c,
            Property::ReasonString(_) => 0x1f,
            Property::ReceiveMaximum(_) => 0x21,
            Property::TopicAliasMaximum(_) => 0x22,
            Property::TopicAlias(_) => 0x23,
            Property::MaximumQoS(_) => 0x24,
            Property::RetainAvailable(_) => 0x25,
            Property::UserProperty(_, _) => 0x26,
            Property::MaximumPacketSize(_) => 0x27,
            Property::WildcardSubscriptionAvailable(_) => 0x28,
            Property::SubscriptionIdentifierAvailable(_) => 0x29,
            Property::SharedSubscriptionAvailable(_) => 0x2a,
        }
    }

    /// Encoded size of the property.
    pub fn size(&self) -> (r: usize)
        requires
            spec_property_size(*self) <= usize::MAX,
        ensures
            r == spec_property_size(*self),
    {
        let identifier_length: usize = Varint(self.identifier()).encoded_len();
        match self {
            Property::ContentType(data) | Property::ResponseTopic(data)
            | Property::AuthenticationMethod(data) | Property::ResponseInformation(data)
            | Property::ServerReference(data) | Property::ReasonString(data)
            | Property::AssignedClientIdentifier(data) => data.len() + 2 + identifier_length,
            Property::UserProperty(key, value) => (value.len() + 2) + (key.len() + 2)
                + identifier_length,
            Property::CorrelationData(data) | Property::AuthenticationData(data) => data.len() + 2
                + identifier_length,
            Property::SubscriptionIdentifier(id) => Varint(*id).encoded_len() + identifier_length,
            Property::MessageExpiryInterval(_) | Property::SessionExpiryInterval(_)
            | Property::WillDelayInterval(_) | Property::MaximumPacketSize(_) => 4
                + identifier_length,
            Property::ServerKeepAlive(_) | Property::ReceiveMaximum(_)
            | Property::TopicAliasMaximum(_) | Property::TopicAlias(_) => 2 + identifier_length,
            Property::PayloadFormatIndicator(_) | Property::RequestProblemInformation(_)
            | Property::RequestResponseInformation(_) | Property::MaximumQoS(_)
            | Property::RetainAvailable(_) | Property::WildcardSubscriptionAvailable(_)
            | Property::SubscriptionIdentifierAvailable(_) | Property::SharedSubscriptionAvailable(
                _,
            ) => 1 + identifier_length,
        }
    }

    /// Whether the property value lies in its allowed range.
    pub fn has_valid_value(&self) -> (r: bool)
        ensures
            r == spec_has_valid_value(*self),
    {
        match self {
            Property::PayloadFormatIndicator(value) | Property::RequestProblemInformation(value)
            | Property::RequestResponseInformation(value) | Property::RetainAvailable(value)
            | Property::WildcardSubscriptionAvailable(value)
            | Property::SubscriptionIdentifierAvailable(value)
            | Property::SharedSubscriptionAvailable(value) => *value <= 1,
            Property::MaximumQoS(value) => *value <= 2,
            Property::SubscriptionIdentifier(value) => 1 <= *value && *value <= MQTT_VARINT_MAX,
            _ => true,
        }
    }

    /// Whether the property has a valid value and may be sent in the given packet kind.
    pub fn is_valid_for(&self, context: PropertyContext) -> (r: bool)
        ensures
            r == (spec_has_valid_value(*self) && spec_allowed_in(*self, context)),
    {
        if !self.has_valid_value() {
            return false;
        }
        let id: u32 = self.identifier();
        match context {
            PropertyContext::Publish => id == 0x01 || id == 0x02 || id == 0x03 || id == 0x08 || id
                == 0x09 || id == 0x26 || id == 0x23,
            PropertyContext::Will => id == 0x01 || id == 0x02 || id == 0x03 || id == 0x08 || id
                == 0x09 || id == 0x26,
            PropertyContext::Subscribe => id == 0x0b || id == 0x26,
            PropertyContext::Unsubscribe => id == 0x26,
            PropertyContext::Disconnect => id == 0x11 || id == 0x1f || id == 0x26 || id == 0x1c,
        }
    }

    /// Serialize the property's value.
    #[verifier::rlimit(40)]
    fn encode_value(&self, ser: &mut MqttSerializer) -> (r: Result<(), SerError>)
        requires
            old(ser).wf(),
        ensures
            final(ser).pushed(old(ser), spec_property_value_enc(*self), r),
            final(final(ser).buffer())@ == final(old(ser).buffer())@,
    {
        reveal(spec_property_value_enc);
        proof {
            ser.lemma_wf();
        }
        match self {
            Property::PayloadFormatIndicator(v) | Property::RequestProblemInformation(v)
            | Property::RequestResponseInformation(v) | Property::MaximumQoS(v)
            | Property::RetainAvailable(v) | Property::WildcardSubscriptionAvailable(v)
            | Property::SubscriptionIdentifierAvailable(v) | Property::SharedSubscriptionAvailable(
                v,
            ) => ser.push(*v),
            Property::MessageExpiryInterval(v) | Property::SessionExpiryInterval(v)
            | Property::WillDelayInterval(v) | Property::MaximumPacketSize(v) => ser.push_u32(*v),
            Property::ServerKeepAlive(v) | Property::ReceiveMaximum(v)
            | Property::TopicAliasMaximum(v) | Property::TopicAlias(v) => ser.push_u16(*v),
            Property::ContentType(v) | Property::ResponseTopic(v)
            | Property::AssignedClientIdentifier(v) | Property::AuthenticationMethod(v)
            | Property::ResponseInformation(v) | Property::ServerReference(v)
            | Property::ReasonString(v) => ser.push_prefixed(v.as_bytes()),
            Property::CorrelationData(v) | Property::AuthenticationData(v) => ser.push_prefixed(v),
            Property::SubscriptionIdentifier(v) => ser.push_varint(*v),
            Property::UserProperty(key, value) => {
                proof {
                    lemma_push_then(
                        ser.capacity(),
                        ser.written(),
                        enc_prefixed(key.spec_bytes()),
                        enc_prefixed(value.spec_bytes()),
                    );
                }
                ser.push_prefixed(key.as_bytes())?;
                ser.push_prefixed(value.as_bytes())
            },
        }
    }

    /// Serialize the property: its identifier as a variable byte integer, then its value.
    pub fn encode_into(&self, ser: &mut MqttSerializer) -> (r: Result<(), SerError>)
        requires
            old(ser).wf(),
        ensures
            final(ser).pushed(old(ser), spec_property_enc(*self), r),
            final(final(ser).buffer())@ == final(old(ser).buffer())@,
    {
        let id: u32 = self.identifier();
        proof {
            ser.lemma_wf();
            lemma_push_then(
                ser.capacity(),
                ser.written(),
                enc_varint(id as nat),
                spec_property_value_enc(*self),
            );
        }
        ser.push_varint(id)?;
        self.encode_value(ser)
    }
}

} // verus!

verus! {

/// Total size of a list of properties.
pub open spec fn spec_props_size(s: Seq<Property>) -> nat
    decreases s.len(),
{
    if s.len() == 0 {
        0
    } else {
        spec_props_size(s.drop_last()) + spec_property_size(s.last())
    }
}

/// Encoding of a list of properties, one after the other.
pub open spec fn spec_props_enc(s: Seq<Property>) -> Enc
    decreases s.len(),
{
    if s.len() == 0 {
        Ok(Seq::empty())
    } else {
        enc_then(spec_props_enc(s.drop_last()), spec_property_enc(s.last()))
    }
}

proof fn lemma_props_size_prefix(s: Seq<Property>, i: int)
    requires
        0 <= i <= s.len(),
    ensures
        spec_props_size(s.take(i)) <= spec_props_size(s),
    decreases s.len(),
{
    if i < s.len() {
        assert(s.drop_last().take(i) =~= s.take(i));
        lemma_props_size_prefix(s.drop_last(), i);
    } else {
        assert(s.take(i) =~= s);
    }
}

/// Storage forms of a property collection.
#[derive(Debug, Clone, Copy, PartialEq, Eq)]
enum PropertiesData<'a> {
    Slice(&'a [Property<'a>]),
    Encoded(&'a [u8]),
    WithCorrelation { correlation: Property<'a>, properties: &'a [Property<'a>] },
}

/// MQTT property collection attached to a packet: borrowed decoded values, borrowed encoded
/// broker data, or a correlation property in front of a borrowed slice.
#[derive(Debug, Clone, Copy, PartialEq, Eq)]
pub struct Properties<'a> {
    inner: PropertiesData<'a>,
}

impl<'a> Properties<'a> {
    /// Whether the collection holds still-encoded broker data.
    pub closed spec fn is_encoded(&self) -> bool {
        self.inner is Encoded
    }

    /// The still-encoded property block, for an encoded collection.
    pub closed spec fn encoded_bytes(&self) -> Seq<u8> {
        match self.inner {
            PropertiesData::Encoded(data) => data@,
            _ => Seq::empty(),
        }
    }

    /// The properties held, in iteration order, for a decoded collection.
    pub closed spec fn list(&self) -> Seq<Property<'a>> {
        match self.inner {
            PropertiesData::Slice(props) => props@,
            PropertiesData::WithCorrelation { correlation, properties } => seq![correlation]
                + properties@,
            PropertiesData::Encoded(_) => Seq::empty(),
        }
    }

    /// Whether a correlation property sits in front of the borrowed slice.
    pub closed spec fn has_correlation(&self) -> bool {
        self.inner is WithCorrelation
    }

    /// The borrowed properties, without any correlation property in front.
    pub closed spec fn tail(&self) -> Seq<Property<'a>> {
        match self.inner {
            PropertiesData::Slice(props) => props@,
            PropertiesData::WithCorrelation { properties, .. } => properties@,
            PropertiesData::Encoded(_) => Seq::empty(),
        }
    }

    /// Encoded size of the property block.
    pub open spec fn spec_size(&self) -> nat {
        if self.is_encoded() {
            self.encoded_bytes().len()
        } else {
            spec_props_size(self.list())
        }
    }

    /// Encoding of the property block: its size, then the properties.
    pub open spec fn spec_enc(&self) -> Enc {
        enc_then(
            enc_varint((self.spec_size() as u32) as nat),
            if self.is_encoded() {
                Ok(self.encoded_bytes())
            } else {
                spec_props_enc(self.list())
            },
        )
    }

    /// Return an empty property collection.
    pub fn empty() -> (r: Self)
        ensures
            !r.is_encoded(),
            !r.has_correlation(),
            r.list() == Seq::<Property>::empty(),
            r.tail() == Seq::<Property>::empty(),
    {
        Properties { inner: PropertiesData::Slice(&[]) }
    }

    /// The collection that borrows a decoded slice.
    pub closed spec fn from_slice_spec(properties: &'a [Property<'a>]) -> Self {
        Properties { inner: PropertiesData::Slice(properties) }
    }

    /// Borrow a decoded property slice.
    pub fn from_slice(properties: &'a [Property<'a>]) -> (r: Self)
        ensures
            r == Self::from_slice_spec(properties),
            !r.is_encoded(),
            !r.has_correlation(),
            r.list() == properties@,
            r.tail() == properties@,
    {
        Properties { inner: PropertiesData::Slice(properties) }
    }

    /// Wrap a still-encoded property block received from the broker.
    pub fn encoded(data: &'a [u8]) -> (r: Self)
        ensures
            r.is_encoded(),
            r.encoded_bytes() == data@,
    {
        Properties { inner: PropertiesData::Encoded(data) }
    }

    /// Keep a correlation property already attached, and take `properties` as the rest.
    pub fn with_properties(self, props: &'a [Property<'a>]) -> (r: Self)
        ensures
            !r.is_encoded(),
            r.has_correlation() == self.has_correlation(),
            r.tail() == props@,
            self.has_correlation() ==> r.list() == seq![self.list()[0]] + props@,
            !self.has_correlation() ==> r.list() == props@,
    {
        match &self.inner {
            PropertiesData::WithCorrelation { correlation: c, properties: _ } => {
                let r = Properties {
                    inner: PropertiesData::WithCorrelation { correlation: *c, properties: props },
                };
                r
            },
            PropertiesData::Slice(_) | PropertiesData::Encoded(_) => Self::from_slice(props),
        }
    }

    /// Attach correlation data in front of the properties already held (encoded data is
    /// dropped).
    pub fn with_correlation(self, data: &'a [u8]) -> (r: Self)
        ensures
            !r.is_encoded(),
            r.has_correlation(),
            r.tail() == self.tail(),
            r.list() == seq![Property::CorrelationData(data)] + self.tail(),
    {
        let correlation = Property::CorrelationData(data);
        match self.inner {
            PropertiesData::Slice(properties) | PropertiesData::WithCorrelation {
                properties,
                ..
            } => Properties { inner: PropertiesData::WithCorrelation { correlation, properties } },
            PropertiesData::Encoded(_) => Properties {
                inner: PropertiesData::WithCorrelation { correlation, properties: &[] },
            },
        }
    }

    /// Return the encoded MQTT property block size in bytes.
    pub fn size(&self) -> (r: usize)
        requires
            self.spec_size() <= usize::MAX,
        ensures
            r == self.spec_size(),
    {
        match self.inner {
            PropertiesData::Encoded(block) => block.len(),
            PropertiesData::Slice(props) => sum_sizes(props, 0),
            PropertiesData::WithCorrelation { correlation, properties } => {
                let ghost list = self.list();
                proof {
                    lemma_props_size_cons(correlation, properties@);
                    lemma_props_size_prefix(properties@, properties@.len() as int);
                    assert(properties@.take(properties@.len() as int) =~= properties@);
                }
                sum_sizes(properties, 0) + correlation.size()
            },
        }
    }

    /// Serialize the property block: its size as a variable byte integer, then the
    /// properties (or the still-encoded bytes).
    pub fn encode_into(&self, ser: &mut MqttSerializer) -> (r: Result<(), SerError>)
        requires
            old(ser).wf(),
            self.spec_size() <= usize::MAX,
        ensures
            final(ser).pushed(old(ser), self.spec_enc(), r),
            final(final(ser).buffer())@ == final(old(ser).buffer())@,
    {
        let size: usize = self.size();
        proof {
            ser.lemma_wf();
            lemma_push_then(
                ser.capacity(),
                ser.written(),
                enc_varint((self.spec_size() as u32) as nat),
                if self.is_encoded() {
                    Ok(self.encoded_bytes())
                } else {
                    spec_props_enc(self.list())
                },
            );
        }
        ser.push_varint(size as u32)?;
        match self.inner {
            PropertiesData::Encoded(block) => ser.push_bytes(block),
            PropertiesData::Slice(props) => encode_list(props, ser),
            PropertiesData::WithCorrelation { correlation, properties } => {
                proof {
                    lemma_props_enc_cons(correlation, properties@);
                    ser.lemma_wf();
                    lemma_push_then(
                        ser.capacity(),
                        ser.written(),
                        spec_property_enc(correlation),
                        spec_props_enc(properties@),
                    );
                }
                correlation.encode_into(ser)?;
                encode_list(properties, ser)
            },
        }
    }
}

proof fn lemma_props_size_cons(p: Property, s: Seq<Property>)
    ensures
        spec_props_size(seq![p] + s) == spec_property_size(p) + spec_props_size(s),
    decreases s.len(),
{
    if s.len() > 0 {
        assert((seq![p] + s).drop_last() =~= seq![p] + s.drop_last());
        assert((seq![p] + s).last() == s.last());
        lemma_props_size_cons(p, s.drop_last());
    } else {
        let one = seq![p];
        assert(one + s =~= one);
        assert(one.drop_last() =~= Seq::<Property>::empty());
        assert(one.last() == p);
        assert(spec_props_size(one) == spec_props_size(one.drop_last()) + spec_property_size(one.last()));
        assert(spec_props_size(Seq::<Property>::empty()) == 0);
    }
}

proof fn lemma_enc_then_assoc(a: Enc, b: Enc, c: Enc)
    ensures
        enc_then(enc_then(a, b), c) == enc_then(a, enc_then(b, c)),
{
    match a {
        Ok(x) => match b {
            Ok(y) => match c {
                Ok(z) => {
                    assert((x + y) + z =~= x + (y + z));
                },
                Err(z) => {
                    assert((x + y) + z =~= x + (y + z));
                },
            },
            Err(_) => {},
        },
        Err(_) => {},
    }
}

proof fn lemma_enc_then_unit(a: Enc)
    ensures
        enc_then(a, Ok(Seq::empty())) == a,
        enc_then(Ok(Seq::empty()), a) == a,
{
    match a {
        Ok(x) => {
            assert(x + Seq::<u8>::empty() =~= x);
            assert(Seq::<u8>::empty() + x =~= x);
        },
        Err(x) => {
            assert(Seq::<u8>::empty() + x =~= x);
        },
    }
}

/// Encoding a list splits into encoding its first `k` properties and then the rest.
pub(crate) proof fn lemma_props_enc_split(s: Seq<Property>, k: int)
    requires
        0 <= k <= s.len(),
    ensures
        spec_props_enc(s) == enc_then(spec_props_enc(s.take(k)), spec_props_enc(s.skip(k))),
    decreases s.len(),
{
    if k == s.len() {
        assert(s.take(k) =~= s);
        assert(s.skip(k) =~= Seq::<Property>::empty());
        lemma_enc_then_unit(spec_props_enc(s));
    } else {
        let dl = s.drop_last();
        lemma_props_enc_split(dl, k);
        assert(dl.take(k) =~= s.take(k));
        assert(s.skip(k).drop_last() =~= dl.skip(k));
        assert(s.skip(k).last() == s.last());
        lemma_enc_then_assoc(
            spec_props_enc(s.take(k)),
            spec_props_enc(dl.skip(k)),
            spec_property_enc(s.last()),
        );
    }
}

proof fn lemma_props_enc_cons(p: Property, s: Seq<Property>)
    ensures
        spec_props_enc(seq![p] + s) == enc_then(spec_property_enc(p), spec_props_enc(s)),
{
    let one = seq![p];
    let t = one + s;
    lemma_props_enc_split(t, 1);
    assert(t.take(1) =~= one);
    assert(t.skip(1) =~= s);
    assert(one.drop_last() =~= Seq::<Property>::empty());
    assert(one.last() == p);
    assert(spec_props_enc(one) == enc_then(spec_props_enc(one.drop_last()), spec_property_enc(one.last())));
    lemma_enc_then_unit(spec_property_enc(p));
}

/// Sum of the sizes of `props[start..]`, added to the sizes before.
fn sum_sizes(props: &[Property], start: usize) -> (r: usize)
    requires
        start == 0,
        spec_props_size(props@) <= usize::MAX,
    ensures
        r == spec_props_size(props@),
{
    let mut total: usize = 0;
    let mut i: usize = 0;
    while i < props.len()
        invariant
            i <= props@.len(),
            total == spec_props_size(props@.take(i as int)),
            spec_props_size(props@) <= usize::MAX,
        decreases props@.len() - i,
    {
        proof {
            assert(props@.take((i + 1) as int).drop_last() =~= props@.take(i as int));
            lemma_props_size_prefix(props@, (i + 1) as int);
        }
        total = total + props[i].size();
        i += 1;
    }
    proof {
        assert(props@.take(props@.len() as int) =~= props@);
    }
    total
}

/// Serialize a list of properties one after the other.
fn encode_list(props: &[Property], ser: &mut MqttSerializer) -> (r: Result<(), SerError>)
    requires
        old(ser).wf(),
    ensures
        final(ser).pushed(old(ser), spec_props_enc(props@), r),
        final(final(ser).buffer())@ == final(old(ser).buffer())@,
{
    let mut i: usize = 0;
    proof {
        assert(props@.take(0) =~= Seq::<Property>::empty());
        assert(old(ser).written() + Seq::<u8>::empty() =~= old(ser).written());
        ser.lemma_wf();
    }
    while i < props.len()
        invariant
            final(ser.buffer())@ == final(old(ser).buffer())@,
            i <= props@.len(),
            ser.wf(),
            !crate::ser::overflows(ser.capacity(), old(ser).written()),
            ser.capacity() == old(ser).capacity(),
            ser.position() >= old(ser).position(),
            crate::ser::keeps_outside(
                old(ser).storage(),
                ser.storage(),
                old(ser).position() as int,
                ser.position() as int,
            ),
            spec_body_result(ser.capacity(), enc_then(Ok(old(ser).written()), spec_props_enc(props@.take(i as int)))) == Ok::<Seq<u8>, SerError>(ser.written()),
        decreases props@.len() - i,
    {
        proof {
            assert(props@.take((i + 1) as int).drop_last() =~= props@.take(i as int));
            assert(props@.take((i + 1) as int).last() == props@[i as int]);
            ser.lemma_wf();
            lemma_push_then(ser.capacity(), old(ser).written(), spec_props_enc(props@.take(i as int)), spec_property_enc(props@[i as int]));
            lemma_props_enc_split(props@, (i + 1) as int);
            lemma_push_then(ser.capacity(), old(ser).written(), spec_props_enc(props@.take((i + 1) as int)), spec_props_enc(props@.skip((i + 1) as int)));
        }
        props[i].encode_into(ser)?;
        i += 1;
    }
    proof {
        assert(props@.take(props@.len() as int) =~= props@);
    }
    Ok(())
}

} // verus!

verus! {

/// Property identifier of the subscription identifier.
pub const SUBSCRIPTION_IDENTIFIER: usize = 0x0B;

/// Property identifier of the response topic.
pub const RESPONSE_TOPIC: usize = 0x08;

/// Property identifier of the correlation data.
pub const CORRELATION_DATA: usize = 0x09;

/// The wire type of a property's value.
#[derive(Debug, Copy, Clone, PartialEq, Eq, Structural)]
pub enum Data {
    Byte,
    TwoByteInteger,
    FourByteInteger,
    VariableByteInteger,
    BinaryData,
    UTF8EncodedString,
    UTF8StringPair,
}

/// The wire type of the value of the property with identifier `id`, if `id` names one.
pub open spec fn spec_property_data(id: nat) -> Option<Data> {
    if id == 0x01 || id == 0x17 || id == 0x19 || id == 0x24 || id == 0x25 || id == 0x28 || id
        == 0x29 || id == 0x2a {
        Some(Data::Byte)
    } else if id == 0x13 || id == 0x21 || id == 0x22 || id == 0x23 {
        Some(Data::TwoByteInteger)
    } else if id == 0x02 || id == 0x11 || id == 0x18 || id == 0x27 {
        Some(Data::FourByteInteger)
    } else if id == 0x0b {
        Some(Data::VariableByteInteger)
    } else if id == 0x09 || id == 0x16 {
        Some(Data::BinaryData)
    } else if id == 0x03 || id == 0x08 || id == 0x12 || id == 0x15 || id == 0x1a || id == 0x1c
        || id == 0x1f {
        Some(Data::UTF8EncodedString)
    } else if id == 0x26 {
        Some(Data::UTF8StringPair)
    } else {
        None
    }
}

/// The wire type of the value of the property with identifier `id`.
pub fn property_data(id: usize) -> (r: Option<Data>)
    ensures
        r == spec_property_data(id as nat),
{
    if id == 0x01 || id == 0x17 || id == 0x19 || id == 0x24 || id == 0x25 || id == 0x28 || id
        == 0x29 || id == 0x2a {
        Some(Data::Byte)
    } else if id == 0x13 || id == 0x21 || id == 0x22 || id == 0x23 {
        Some(Data::TwoByteInteger)
    } else if id == 0x02 || id == 0x11 || id == 0x18 || id == 0x27 {
        Some(Data::FourByteInteger)
    } else if id == 0x0b {
        Some(Data::VariableByteInteger)
    } else if id == 0x09 || id == 0x16 {
        Some(Data::BinaryData)
    } else if id == 0x03 || id == 0x08 || id == 0x12 || id == 0x15 || id == 0x1a || id == 0x1c
        || id == 0x1f {
        Some(Data::UTF8EncodedString)
    } else if id == 0x26 {
        Some(Data::UTF8StringPair)
    } else {
        None
    }
}

} // verus!

verus! {

/// The property whose identifier is `id` and whose value encodes as `value`.
pub open spec fn spec_decoded(id: nat, value: Seq<u8>) -> Property<'static> {
    choose|p: Property<'static>|
        spec_property_id(p) == id && spec_property_value_enc(p) == Ok::<Seq<u8>, Seq<u8>>(value)
}

/// Whether `items` is what iterating `props` yields: the held properties in order, or, for
/// an encoded block, the properties read from it one after the other up to the first one that
/// cannot be read.
pub open spec fn spec_iterated<'a>(props: Properties<'a>, items: Seq<Result<Property<'a>, PeerError>>) -> bool {
    if props.is_encoded() {
        let entries = spec_block_entries(props.encoded_bytes(), 0);
        &&& items.len() == entries.len()
        &&& forall|i: int|
            0 <= i < items.len() ==> match #[trigger] entries[i] {
                Ok((id, a, b)) => (items[i] matches Ok(p) && spec_property_id(p) == id
                    && spec_property_value_enc(p) == Ok::<Seq<u8>, Seq<u8>>(
                    props.encoded_bytes().subrange(a as int, b as int),
                )),
                Err(_) => items[i] == Err::<Property<'a>, PeerError>(PeerError::InvalidPacket),
            }
    } else {
        &&& items.len() == props.list().len()
        &&& forall|i: int|
            0 <= i < items.len() ==> #[trigger] items[i] == Ok::<Property<'a>, PeerError>(
                props.list()[i],
            )
    }
}

/// Index of the first item at or after `from` that is a property with identifier `id`.
pub open spec fn spec_first_with_id<'a>(
    items: Seq<Result<Property<'a>, PeerError>>,
    id: nat,
    from: int,
) -> Option<int>
    decreases items.len() - from,
{
    if from < 0 || from >= items.len() {
        None
    } else if items[from] matches Ok(p) && spec_property_id(p) == id {
        Some(from)
    } else {
        spec_first_with_id(items, id, from + 1)
    }
}

/// Whether `r` is the first response topic among the properties iterated from `props`.
pub open spec fn is_first_response_topic<'a>(props: Properties<'a>, r: Option<&'a str>) -> bool {
    exists|items: Seq<Result<Property<'a>, PeerError>>|
        #![trigger spec_iterated(props, items)]
        spec_iterated(props, items) && match spec_first_with_id(items, 0x08, 0) {
            Some(i) => (items[i] matches Ok(Property::ResponseTopic(t)) && r == Some(t)),
            None => r is None,
        }
}

/// Two readings of the same properties agree, item by item, on which items are properties
/// and on their identifiers, so the first property with a given identifier sits at the same
/// place in both.
proof fn lemma_first_with_id_same<'a>(
    a: Seq<Result<Property<'a>, PeerError>>,
    b: Seq<Result<Property<'a>, PeerError>>,
    id: nat,
    from: int,
)
    requires
        a.len() == b.len(),
        forall|i: int|
            0 <= i < a.len() ==> (#[trigger] a[i] is Ok <==> b[i] is Ok) && (a[i] is Ok
                ==> spec_property_id(a[i]->Ok_0) == spec_property_id(b[i]->Ok_0)),
    ensures
        spec_first_with_id(a, id, from) == spec_first_with_id(b, id, from),
    decreases a.len() - from,
{
    if 0 <= from < a.len() {
        assert(a[from] is Ok <==> b[from] is Ok);
        lemma_first_with_id_same(a, b, id, from + 1);
    }
}

/// Two readings of `props` agree on each item's kind and identifier; where the item at `i`
/// is a property in both, the two encode their values alike.
proof fn lemma_iterated_agree<'a>(
    props: Properties<'a>,
    a: Seq<Result<Property<'a>, PeerError>>,
    b: Seq<Result<Property<'a>, PeerError>>,
)
    requires
        spec_iterated(props, a),
        spec_iterated(props, b),
    ensures
        a.len() == b.len(),
        forall|i: int|
            0 <= i < a.len() ==> (#[trigger] a[i] is Ok <==> b[i] is Ok) && (a[i] is Ok
                ==> spec_property_id(a[i]->Ok_0) == spec_property_id(b[i]->Ok_0)
                && spec_property_value_enc(a[i]->Ok_0) == spec_property_value_enc(b[i]->Ok_0)),
{
    if props.is_encoded() {
        let entries = spec_block_entries(props.encoded_bytes(), 0);
        assert forall|i: int| 0 <= i < a.len() implies (#[trigger] a[i] is Ok <==> b[i] is Ok) && (
        a[i] is Ok ==> spec_property_id(a[i]->Ok_0) == spec_property_id(b[i]->Ok_0)
            && spec_property_value_enc(a[i]->Ok_0) == spec_property_value_enc(b[i]->Ok_0)) by {
            match entries[i] {
                Ok(_) => {},
                Err(_) => {},
            }
        }
    } else {
        assert forall|i: int| 0 <= i < a.len() implies (#[trigger] a[i] is Ok <==> b[i] is Ok) && (
        a[i] is Ok ==> spec_property_id(a[i]->Ok_0) == spec_property_id(b[i]->Ok_0)
            && spec_property_value_enc(a[i]->Ok_0) == spec_property_value_enc(b[i]->Ok_0)) by {
            assert(a[i] == b[i]);
        }
    }
}

/// A length-prefixed field determines the bytes it carries.
proof fn lemma_prefixed_same(x: Seq<u8>, y: Seq<u8>)
    requires
        enc_prefixed(x) is Ok,
        enc_prefixed(x) == enc_prefixed(y),
    ensures
        x == y,
{
    let ex = enc_prefixed(x)->Ok_0;
    assert(ex.len() == 2 + x.len());
    assert(ex.len() == 2 + y.len());
    assert(x =~= ex.subrange(2, ex.len() as int));
    assert(y =~= ex.subrange(2, ex.len() as int));
}

/// The first property with an identifier lies inside the items.
proof fn lemma_first_with_id_bounds<'a>(items: Seq<Result<Property<'a>, PeerError>>, id: nat, from: int)
    ensures
        spec_first_with_id(items, id, from) matches Some(i) ==> 0 <= from <= i < items.len(),
    decreases items.len() - from,
{
    if 0 <= from < items.len() {
        lemma_first_with_id_bounds(items, id, from + 1);
    }
}

/// Read from an encoded block, every property's value has an encoding.
proof fn lemma_item_enc<'a>(props: Properties<'a>, items: Seq<Result<Property<'a>, PeerError>>, i: int)
    requires
        spec_iterated(props, items),
        props.is_encoded(),
        0 <= i < items.len(),
        items[i] is Ok,
    ensures
        spec_property_value_enc(items[i]->Ok_0) is Ok,
{
    let entries = spec_block_entries(props.encoded_bytes(), 0);
    match entries[i] {
        Ok(_) => {},
        Err(_) => {},
    }
}

/// Two response topics whose values encode alike carry the same bytes.
proof fn lemma_same_topic(x: &str, y: &str)
    requires
        spec_property_value_enc(Property::ResponseTopic(x)) == spec_property_value_enc(
            Property::ResponseTopic(y),
        ),
    ensures
        spec_property_value_enc(Property::ResponseTopic(x)) is Ok ==> x.spec_bytes()
            == y.spec_bytes(),
{
    reveal(spec_property_value_enc);
    if enc_prefixed(x.spec_bytes()) is Ok {
        lemma_prefixed_same(x.spec_bytes(), y.spec_bytes());
    }
}

/// Two correlation data whose values encode alike carry the same bytes.
proof fn lemma_same_data(x: &[u8], y: &[u8])
    requires
        spec_property_value_enc(Property::CorrelationData(x)) == spec_property_value_enc(
            Property::CorrelationData(y),
        ),
    ensures
        spec_property_value_enc(Property::CorrelationData(x)) is Ok ==> x@ == y@,
{
    reveal(spec_property_value_enc);
    if enc_prefixed(x@) is Ok {
        lemma_prefixed_same(x@, y@);
    }
}

/// There is one first response topic: two results of the search agree on whether there is
/// one, and on its bytes.
pub proof fn lemma_first_response_topic_unique<'a>(
    props: Properties<'a>,
    a: Option<&'a str>,
    b: Option<&'a str>,
)
    requires
        is_first_response_topic(props, a),
        is_first_response_topic(props, b),
    ensures
        a is Some <==> b is Some,
        a matches Some(x) ==> b->Some_0.spec_bytes() == x.spec_bytes(),
{
    let ia = choose|items: Seq<Result<Property<'a>, PeerError>>|
        spec_iterated(props, items) && match spec_first_with_id(items, 0x08, 0) {
            Some(i) => (items[i] matches Ok(Property::ResponseTopic(t)) && a == Some(t)),
            None => a is None,
        };
    let ib = choose|items: Seq<Result<Property<'a>, PeerError>>|
        spec_iterated(props, items) && match spec_first_with_id(items, 0x08, 0) {
            Some(i) => (items[i] matches Ok(Property::ResponseTopic(t)) && b == Some(t)),
            None => b is None,
        };
    lemma_iterated_agree(props, ia, ib);
    lemma_first_with_id_same(ia, ib, 0x08, 0);
    lemma_first_with_id_bounds(ia, 0x08, 0);
    if let Some(i) = spec_first_with_id(ia, 0x08, 0) {
        assert(ia[i] is Ok);
        let x = a->Some_0;
        let y = b->Some_0;
        assert(ia[i] == Ok::<Property<'a>, PeerError>(Property::ResponseTopic(x)));
        assert(ib[i] == Ok::<Property<'a>, PeerError>(Property::ResponseTopic(y)));
        lemma_same_topic(x, y);
        if props.is_encoded() {
            lemma_item_enc(props, ia, i);
        } else {
            assert(ia[i] == ib[i]);
        }
    }
}

/// There is one first correlation data: two results of the search agree on whether there is
/// one, and on its bytes.
pub proof fn lemma_first_correlation_data_unique<'a>(
    props: Properties<'a>,
    a: Option<&'a [u8]>,
    b: Option<&'a [u8]>,
)
    requires
        is_first_correlation_data(props, a),
        is_first_correlation_data(props, b),
    ensures
        a is Some <==> b is Some,
        a matches Some(x) ==> b->Some_0@ == x@,
{
    let ia = choose|items: Seq<Result<Property<'a>, PeerError>>|
        spec_iterated(props, items) && match spec_first_with_id(items, 0x09, 0) {
            Some(i) => (items[i] matches Ok(Property::CorrelationData(d)) && a == Some(d)),
            None => a is None,
        };
    let ib = choose|items: Seq<Result<Property<'a>, PeerError>>|
        spec_iterated(props, items) && match spec_first_with_id(items, 0x09, 0) {
            Some(i) => (items[i] matches Ok(Property::CorrelationData(d)) && b == Some(d)),
            None => b is None,
        };
    lemma_iterated_agree(props, ia, ib);
    lemma_first_with_id_same(ia, ib, 0x09, 0);
    lemma_first_with_id_bounds(ia, 0x09, 0);
    if let Some(i) = spec_first_with_id(ia, 0x09, 0) {
        assert(ia[i] is Ok);
        let x = a->Some_0;
        let y = b->Some_0;
        assert(ia[i] == Ok::<Property<'a>, PeerError>(Property::CorrelationData(x)));
        assert(ib[i] == Ok::<Property<'a>, PeerError>(Property::CorrelationData(y)));
        lemma_same_data(x, y);
        if props.is_encoded() {
            lemma_item_enc(props, ia, i);
        } else {
            assert(ia[i] == ib[i]);
        }
    }
}

/// Whether `r` is the first correlation data among the properties iterated from `props`.
pub open spec fn is_first_correlation_data<'a>(props: Properties<'a>, r: Option<&'a [u8]>) -> bool {
    exists|items: Seq<Result<Property<'a>, PeerError>>|
        #![trigger spec_iterated(props, items)]
        spec_iterated(props, items) && match spec_first_with_id(items, 0x09, 0) {
            Some(i) => (items[i] matches Ok(Property::CorrelationData(d)) && r == Some(d)),
            None => r is None,
        }
}

impl<'a> Properties<'a> {
    /// Every property of the collection, in order; an encoded block is read up to its first
    /// property that cannot be read, which comes out as an error.
    pub fn iter(&self) -> (r: Vec<Result<Property<'a>, PeerError>>)
        ensures
            spec_iterated(*self, r@),
    {
        match self.inner {
            PropertiesData::Encoded(data) => {
                let r = parse_block(data);
                assert(self.encoded_bytes() == data@);
                assert(self.is_encoded());
                let ghost entries = spec_block_entries(data@, 0);
                assert forall|i: int| 0 <= i < r@.len() implies match #[trigger] entries[i] {
                    Ok((id, a, b)) => (r@[i] matches Ok(p) && spec_property_id(p) == id
                        && spec_property_value_enc(p) == Ok::<Seq<u8>, Seq<u8>>(
                        data@.subrange(a as int, b as int),
                    )),
                    Err(_) => r@[i] == Err::<Property<'a>, PeerError>(PeerError::InvalidPacket),
                } by {
                    assert(spec_block_entries(data@, 0)[i] == entries[i]);
                }
                r
            },
            PropertiesData::Slice(props) => {
                let mut out: Vec<Result<Property<'a>, PeerError>> = Vec::new();
                push_all(&mut out, props);
                assert(!self.is_encoded() && self.list() == props@);
                assert forall|i: int| 0 <= i < out@.len() implies #[trigger] out@[i] == Ok::<
                    Property<'a>,
                    PeerError,
                >(self.list()[i]) by {
                    assert(out@[0 + i] == Ok::<Property<'a>, PeerError>(props@[i]));
                }
                out
            },
            PropertiesData::WithCorrelation { correlation, properties } => {
                let mut out: Vec<Result<Property<'a>, PeerError>> = Vec::new();
                out.push(Ok(correlation));
                push_all(&mut out, properties);
                assert(!self.is_encoded());
                assert(self.list() == seq![correlation] + properties@);
                assert forall|i: int| 0 <= i < out@.len() implies #[trigger] out@[i] == Ok::<
                    Property<'a>,
                    PeerError,
                >(self.list()[i]) by {
                    if i > 0 {
                        assert(out@[1 + (i - 1)] == Ok::<Property<'a>, PeerError>(
                            properties@[i - 1],
                        ));
                    }
                }
                out
            },
        }
    }

    /// The first response topic among the properties.
    pub fn response_topic(&self) -> (r: Option<&'a str>)
        ensures
            is_first_response_topic(*self, r),
    {
        let items = self.iter();
        let n = items.len();
        let mut i: usize = 0;
        while i < n
            invariant
                n == items@.len(),
                i <= n,
                spec_iterated(*self, items@),
                spec_first_with_id(items@, 0x08, 0) == spec_first_with_id(items@, 0x08, i as int),
            decreases n - i,
        {
            if let Ok(Property::ResponseTopic(t)) = items[i] {
                assert(spec_first_with_id(items@, 0x08, i as int) == Some(i as int));
                return Some(t);
            }
            proof {
                match items@[i as int] {
                    Ok(q) => {
                        assert(spec_property_id(q) == 0x08 ==> q is ResponseTopic);
                    },
                    Err(_) => {},
                }
            }
            i = i + 1;
        }
        None
    }

    /// The first correlation data among the properties.
    pub fn correlation_data(&self) -> (r: Option<&'a [u8]>)
        ensures
            is_first_correlation_data(*self, r),
    {
        let items = self.iter();
        let n = items.len();
        let mut i: usize = 0;
        while i < n
            invariant
                n == items@.len(),
                i <= n,
                spec_iterated(*self, items@),
                spec_first_with_id(items@, 0x09, 0) == spec_first_with_id(items@, 0x09, i as int),
            decreases n - i,
        {
            if let Ok(Property::CorrelationData(d)) = items[i] {
                assert(spec_first_with_id(items@, 0x09, i as int) == Some(i as int));
                return Some(d);
            }
            proof {
                match items@[i as int] {
                    Ok(q) => {
                        assert(spec_property_id(q) == 0x09 ==> q is CorrelationData);
                    },
                    Err(_) => {},
                }
            }
            i = i + 1;
        }
        None
    }

    /// Whether every property reads, has a valid value and may be sent in `context`.
    pub fn valid_for(&self, context: PropertyContext) -> (r: bool)
        ensures
            exists|items: Seq<Result<Property<'a>, PeerError>>|
                #![trigger spec_iterated(*self, items)]
                spec_iterated(*self, items) && r == forall|i: int|
                    0 <= i < items.len() ==> (#[trigger] items[i] matches Ok(p)
                        && spec_has_valid_value(p) && spec_allowed_in(p, context)),
    {
        let items = self.iter();
        let n = items.len();
        let mut i: usize = 0;
        while i < n
            invariant
                n == items@.len(),
                i <= n,
                spec_iterated(*self, items@),
                forall|j: int| 0 <= j < i ==> (#[trigger] items@[j] matches Ok(p)
                    && spec_has_valid_value(p) && spec_allowed_in(p, context)),
            decreases n - i,
        {
            match &items[i] {
                Ok(p) => {
                    if !p.is_valid_for(context) {
                        assert(!(items@[i as int] matches Ok(q) && spec_has_valid_value(q)
                            && spec_allowed_in(q, context)));
                        return false;
                    }
                },
                Err(_) => {
                    assert(!(items@[i as int] matches Ok(q) && spec_has_valid_value(q)
                        && spec_allowed_in(q, context)));
                    return false;
                },
            }
            i = i + 1;
        }
        true
    }
}

/// Append every property of `props`, each as a success.
fn push_all<'a>(out: &mut Vec<Result<Property<'a>, PeerError>>, props: &'a [Property<'a>])
    ensures
        final(out)@.len() == old(out)@.len() + props@.len(),
        forall|i: int| 0 <= i < old(out)@.len() ==> #[trigger] final(out)@[i] == old(out)@[i],
        forall|i: int|
            0 <= i < props@.len() ==> #[trigger] final(out)@[old(out)@.len() + i] == Ok::<
                Property<'a>,
                PeerError,
            >(props@[i]),
{
    let n = props.len();
    let mut i: usize = 0;
    while i < n
        invariant
            n == props@.len(),
            i <= n,
            out@.len() == old(out)@.len() + i,
            forall|k: int| 0 <= k < old(out)@.len() ==> #[trigger] out@[k] == old(out)@[k],
            forall|k: int|
                0 <= k < i ==> #[trigger] out@[old(out)@.len() + k] == Ok::<Property<'a>, PeerError>(
                    props@[k],
                ),
        decreases n - i,
    {
        out.push(Ok(props[i]));
        i = i + 1;
    }
}


/// Which single properties pass the check for each packet kind: for a `SUBSCRIBE` a
/// subscription identifier from 1 to 2^28 - 1 or a user property; for an `UNSUBSCRIBE` a user
/// property only; for a `PUBLISH` a payload format indicator of 0 or 1, a message expiry, a
/// content type, a response topic, correlation data, a user property or a topic alias; for a
/// `DISCONNECT` a session expiry, a reason string, a user property or a server reference.
pub proof fn law_allowed_properties(p: Property)
    ensures
        (spec_has_valid_value(p) && spec_allowed_in(p, PropertyContext::Subscribe)) <==> (
        p matches Property::SubscriptionIdentifier(v) && 1 <= v <= MQTT_VARINT_MAX
            || p matches Property::UserProperty(_, _)),
        (spec_has_valid_value(p) && spec_allowed_in(p, PropertyContext::Unsubscribe)) <==> (
        p matches Property::UserProperty(_, _)),
        (spec_has_valid_value(p) && spec_allowed_in(p, PropertyContext::Publish)) <==> (
        p matches Property::PayloadFormatIndicator(v) && v <= 1
            || p matches Property::MessageExpiryInterval(_)
            || p matches Property::ContentType(_)
            || p matches Property::ResponseTopic(_)
            || p matches Property::CorrelationData(_)
            || p matches Property::UserProperty(_, _)
            || p matches Property::TopicAlias(_)),
        (spec_has_valid_value(p) && spec_allowed_in(p, PropertyContext::Disconnect)) <==> (
        p matches Property::SessionExpiryInterval(_)
            || p matches Property::ReasonString(_)
            || p matches Property::UserProperty(_, _)
            || p matches Property::ServerReference(_)),
{
}

} // verus!
