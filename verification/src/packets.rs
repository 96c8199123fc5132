//! MQTT control packets and their wire encodings.
use crate::properties::{
    spec_allowed_in, spec_has_valid_value, Properties, Property, PropertyContext,
};
use crate::reason_codes::{spec_reason_code_value, ReasonCode};
use crate::ser::{
    be16, enc_prefixed, enc_then, lemma_push_then, ControlPacket, Enc, Error, MqttSerializer,
};
use crate::ser::{keeps_outside, spec_body_result, spec_finalize, spec_header_byte, PubError};
use crate::publication::ToPayload;
use crate::wire::{FixedHeader, MessageType, Utf8String};
use crate::{qos_level, ConfigError, QoS, Retain};
use vstd::prelude::*;
use vstd::string::StringSliceAdditionalSpecFns;

verus! {

/// Encoding of a list of items, one after the other.
pub open spec fn enc_fold<T>(s: Seq<T>, f: spec_fn(T) -> Enc) -> Enc
    decreases s.len(),
{
    if s.len() == 0 {
        Ok(Seq::empty())
    } else {
        enc_then(enc_fold(s.drop_last(), f), f(s.last()))
    }
}

pub proof fn lemma_enc_then_assoc(a: Enc, b: Enc, c: Enc)
    ensures
        enc_then(enc_then(a, b), c) == enc_then(a, enc_then(b, c)),
{
    match a {
        Ok(x) => match b {
            Ok(y) => match c {
                Ok(z) => {
                    assert((x + y) + z =~= x + (y + z));
                },
                Err(z) => {
                    assert((x + y) + z =~= x + (y + z));
                },
            },
            Err(_) => {},
        },
        Err(_) => {},
    }
}

pub proof fn lemma_enc_then_unit(a: Enc)
    ensures
        enc_then(a, Ok(Seq::empty())) == a,
        enc_then(Ok(Seq::empty()), a) == a,
{
    match a {
        Ok(x) => {
            assert(x + Seq::<u8>::empty() =~= x);
            assert(Seq::<u8>::empty() + x =~= x);
        },
        Err(x) => {
            assert(Seq::<u8>::empty() + x =~= x);
        },
    }
}

/// Folding a list splits into folding its first `k` items and then the rest.
pub proof fn lemma_enc_fold_split<T>(s: Seq<T>, f: spec_fn(T) -> Enc, k: int)
    requires
        0 <= k <= s.len(),
    ensures
        enc_fold(s, f) == enc_then(enc_fold(s.take(k), f), enc_fold(s.skip(k), f)),
    decreases s.len(),
{
    if k == s.len() {
        assert(s.take(k) =~= s);
        assert(s.skip(k) =~= Seq::<T>::empty());
        lemma_enc_then_unit(enc_fold(s, f));
    } else {
        let dl = s.drop_last();
        lemma_enc_fold_split(dl, f, k);
        assert(dl.take(k) =~= s.take(k));
        assert(s.skip(k).drop_last() =~= dl.skip(k));
        assert(s.skip(k).last() == s.last());
        lemma_enc_then_assoc(enc_fold(s.take(k), f), enc_fold(dl.skip(k), f), f(s.last()));
    }
}

/// Retain-handling option of a subscription.
#[derive(Debug, Copy, Clone, PartialEq, Eq, Structural)]
pub enum RetainHandling {
    /// Send retained messages at the time of the subscribe.
    Immediately,
    /// Send retained messages only if the subscription does not exist yet.
    IfSubscriptionDoesNotExist,
    /// Never send retained messages for this subscription.
    Never,
}

/// Options byte attached to one subscription topic filter.
#[derive(Debug, Copy, Clone, PartialEq, Eq, Structural)]
pub struct SubscriptionOptions {
    /// Maximum QoS granted for the subscription.
    pub maximum_qos: QoS,
    /// Do not deliver messages published by this client.
    pub no_local: bool,
    /// Keep the retain flag of forwarded messages.
    pub retain_as_published: bool,
    /// When retained messages are sent.
    pub retain_handling: RetainHandling,
}

/// The options byte of a subscription.
pub open spec fn spec_options_byte(qos: QoS, no_local: bool, rap: bool, rh: RetainHandling) -> u8 {
    (qos_level(qos) + (if no_local {
        4u8
    } else {
        0u8
    }) + (if rap {
        8u8
    } else {
        0u8
    }) + match rh {
        RetainHandling::Immediately => 0u8,
        RetainHandling::IfSubscriptionDoesNotExist => 16u8,
        RetainHandling::Never => 32u8,
    }) as u8
}

impl SubscriptionOptions {
    /// The options byte.
    pub open spec fn spec_byte(&self) -> u8 {
        spec_options_byte(
            self.maximum_qos,
            self.no_local,
            self.retain_as_published,
            self.retain_handling,
        )
    }

    /// Default options: QoS 0, local messages delivered, retain flag cleared, retained
    /// messages sent on subscribe.
    pub fn default() -> (r: Self)
        ensures
            r == Self::default_spec(),
            r.spec_byte() == 0,
    {
        SubscriptionOptions {
            maximum_qos: QoS::AtMostOnce,
            no_local: false,
            retain_as_published: false,
            retain_handling: RetainHandling::Immediately,
        }
    }

    /// Set the maximum QoS granted for the subscription.
    pub fn maximum_qos(self, qos: QoS) -> (r: Self)
        ensures
            r == (SubscriptionOptions { maximum_qos: qos, ..self }),
    {
        SubscriptionOptions { maximum_qos: qos, ..self }
    }

    /// Set the retained-message behavior of the subscription.
    pub fn retain_behavior(self, handling: RetainHandling) -> (r: Self)
        ensures
            r == (SubscriptionOptions { retain_handling: handling, ..self }),
    {
        SubscriptionOptions { retain_handling: handling, ..self }
    }

    /// Do not deliver messages that this client published itself.
    pub fn ignore_local_messages(self) -> (r: Self)
        ensures
            r == (SubscriptionOptions { no_local: true, ..self }),
    {
        SubscriptionOptions { no_local: true, ..self }
    }

    /// Keep the retain flag of forwarded messages as published.
    pub fn retain_as_published(self) -> (r: Self)
        ensures
            r == (SubscriptionOptions { retain_as_published: true, ..self }),
    {
        SubscriptionOptions { retain_as_published: true, ..self }
    }

    /// The options byte.
    pub fn byte(&self) -> (r: u8)
        ensures
            r == self.spec_byte(),
    {
        let q: u8 = self.maximum_qos.level();
        let nl: u8 = if self.no_local {
            4
        } else {
            0
        };
        let rap: u8 = if self.retain_as_published {
            8
        } else {
            0
        };
        let rh: u8 = match self.retain_handling {
            RetainHandling::Immediately => 0,
            RetainHandling::IfSubscriptionDoesNotExist => 16,
            RetainHandling::Never => 32,
        };
        q + nl + rap + rh
    }
}

/// One topic filter of a subscribe request with its options.
#[derive(Debug, Copy, Clone, PartialEq, Eq)]
pub struct TopicFilter<'a> {
    /// The topic filter string.
    pub topic: &'a str,
    /// The subscription options.
    pub options: SubscriptionOptions,
}

/// Encoding of one topic filter: the topic string, then the options byte.
pub open spec fn spec_filter_enc(f: TopicFilter) -> Enc {
    enc_then(enc_prefixed(f.topic.spec_bytes()), Ok(seq![f.options.spec_byte()]))
}

/// Encoding of one unsubscribe topic.
pub open spec fn spec_topic_enc(t: &str) -> Enc {
    enc_prefixed(t.spec_bytes())
}

impl<'a> TopicFilter<'a> {
    /// A filter with default options.
    pub fn new(topic: &'a str) -> (r: Self)
        ensures
            r.topic == topic,
            r.options == SubscriptionOptions::default_spec(),
    {
        TopicFilter { topic, options: SubscriptionOptions::default() }
    }

    /// The same filter with other options.
    pub fn options(self, options: SubscriptionOptions) -> (r: Self)
        ensures
            r.topic == self.topic,
            r.options == options,
    {
        TopicFilter { topic: self.topic, options }
    }

    /// Serialize the filter.
    pub fn serialize(&self, ser: &mut MqttSerializer) -> (r: Result<(), Error>)
        requires
            old(ser).wf(),
        ensures
            final(ser).pushed(old(ser), spec_filter_enc(*self), r),
            final(final(ser).buffer())@ == final(old(ser).buffer())@,
    {
        proof {
            ser.lemma_wf();
            lemma_push_then(
                ser.capacity(),
                ser.written(),
                enc_prefixed(self.topic.spec_bytes()),
                Ok(seq![self.options.spec_byte()]),
            );
        }
        ser.push_prefixed(self.topic.as_bytes())?;
        ser.push(self.options.byte())
    }
}

impl SubscriptionOptions {
    /// Default options, as a value.
    pub open spec fn default_spec() -> Self {
        SubscriptionOptions {
            maximum_qos: QoS::AtMostOnce,
            no_local: false,
            retain_as_published: false,
            retain_handling: RetainHandling::Immediately,
        }
    }
}

} // verus!

verus! {

/// Encoding of a list of topic filters.
pub open spec fn spec_filters_enc(s: Seq<TopicFilter>) -> Enc {
    enc_fold(s, |f: TopicFilter| spec_filter_enc(f))
}

/// Encoding of a list of unsubscribe topics.
pub open spec fn spec_topics_enc(s: Seq<&str>) -> Enc {
    enc_fold(s, |t: &str| spec_topic_enc(t))
}

fn encode_filters(filters: &[TopicFilter], ser: &mut MqttSerializer) -> (r: Result<(), Error>)
    requires
        old(ser).wf(),
    ensures
        final(ser).pushed(old(ser), spec_filters_enc(filters@), r),
        final(final(ser).buffer())@ == final(old(ser).buffer())@,
{
    let ghost f = |x: TopicFilter| spec_filter_enc(x);
    let mut i: usize = 0;
    proof {
        assert(filters@.take(0) =~= Seq::<TopicFilter>::empty());
        assert(old(ser).written() + Seq::<u8>::empty() =~= old(ser).written());
        ser.lemma_wf();
    }
    while i < filters.len()
        invariant
            final(ser.buffer())@ == final(old(ser).buffer())@,
            i <= filters@.len(),
            ser.wf(),
            !crate::ser::overflows(ser.capacity(), old(ser).written()),
            ser.capacity() == old(ser).capacity(),
            ser.position() >= old(ser).position(),
            crate::ser::keeps_outside(
                old(ser).storage(),
                ser.storage(),
                old(ser).position() as int,
                ser.position() as int,
            ),
            f == (|x: TopicFilter| spec_filter_enc(x)),
            crate::ser::spec_body_result(
                ser.capacity(),
                enc_then(Ok(old(ser).written()), enc_fold(filters@.take(i as int), f)),
            ) == Ok::<Seq<u8>, Error>(ser.written()),
        decreases filters@.len() - i,
    {
        proof {
            assert(filters@.take((i + 1) as int).drop_last() =~= filters@.take(i as int));
            assert(filters@.take((i + 1) as int).last() == filters@[i as int]);
            ser.lemma_wf();
            lemma_push_then(
                ser.capacity(),
                old(ser).written(),
                enc_fold(filters@.take(i as int), f),
                spec_filter_enc(filters@[i as int]),
            );
            lemma_enc_fold_split(filters@, f, (i + 1) as int);
            lemma_push_then(
                ser.capacity(),
                old(ser).written(),
                enc_fold(filters@.take((i + 1) as int), f),
                enc_fold(filters@.skip((i + 1) as int), f),
            );
        }
        filters[i].serialize(ser)?;
        i += 1;
    }
    proof {
        assert(filters@.take(filters@.len() as int) =~= filters@);
    }
    Ok(())
}

fn encode_topics(topics: &[&str], ser: &mut MqttSerializer) -> (r: Result<(), Error>)
    requires
        old(ser).wf(),
    ensures
        final(ser).pushed(old(ser), spec_topics_enc(topics@), r),
        final(final(ser).buffer())@ == final(old(ser).buffer())@,
{
    let ghost f = |x: &str| spec_topic_enc(x);
    let mut i: usize = 0;
    proof {
        assert(topics@.take(0) =~= Seq::<&str>::empty());
        assert(old(ser).written() + Seq::<u8>::empty() =~= old(ser).written());
        ser.lemma_wf();
    }
    while i < topics.len()
        invariant
            final(ser.buffer())@ == final(old(ser).buffer())@,
            i <= topics@.len(),
            ser.wf(),
            !crate::ser::overflows(ser.capacity(), old(ser).written()),
            ser.capacity() == old(ser).capacity(),
            ser.position() >= old(ser).position(),
            crate::ser::keeps_outside(
                old(ser).storage(),
                ser.storage(),
                old(ser).position() as int,
                ser.position() as int,
            ),
            f == (|x: &str| spec_topic_enc(x)),
            crate::ser::spec_body_result(
                ser.capacity(),
                enc_then(Ok(old(ser).written()), enc_fold(topics@.take(i as int), f)),
            ) == Ok::<Seq<u8>, Error>(ser.written()),
        decreases topics@.len() - i,
    {
        proof {
            assert(topics@.take((i + 1) as int).drop_last() =~= topics@.take(i as int));
            assert(topics@.take((i + 1) as int).last() == topics@[i as int]);
            ser.lemma_wf();
            lemma_push_then(
                ser.capacity(),
                old(ser).written(),
                enc_fold(topics@.take(i as int), f),
                spec_topic_enc(topics@[i as int]),
            );
            lemma_enc_fold_split(topics@, f, (i + 1) as int);
            lemma_push_then(
                ser.capacity(),
                old(ser).written(),
                enc_fold(topics@.take((i + 1) as int), f),
                enc_fold(topics@.skip((i + 1) as int), f),
            );
        }
        let topic: &str = topics[i];
        ser.push_prefixed(topic.as_bytes())?;
        i += 1;
    }
    proof {
        assert(topics@.take(topics@.len() as int) =~= topics@);
    }
    Ok(())
}

/// MQTT `SUBSCRIBE` packet.
#[derive(Debug)]
pub struct Subscribe<'a> {
    /// Packet identifier.
    pub packet_id: u16,
    /// Whether this is a retransmission.
    pub dup: bool,
    /// Subscribe properties.
    pub properties: Properties<'a>,
    /// Topic filters requested.
    pub topics: &'a [TopicFilter<'a>],
}

impl<'a> ControlPacket for Subscribe<'a> {
    open spec fn spec_fields(&self) -> Enc {
        enc_then(
            Ok(be16(self.packet_id as nat)),
            enc_then(self.properties.spec_enc(), spec_filters_enc(self.topics@)),
        )
    }

    open spec fn spec_message_type(&self) -> MessageType {
        MessageType::Subscribe
    }

    open spec fn spec_flags(&self) -> u8 {
        if self.dup {
            0b1010
        } else {
            0b0010
        }
    }

    open spec fn encodable(&self) -> bool {
        self.properties.spec_size() <= usize::MAX
    }

    fn message_type(&self) -> (r: MessageType) {
        MessageType::Subscribe
    }

    fn fixed_header_flags(&self) -> (r: u8) {
        if self.dup {
            0b1010
        } else {
            0b0010
        }
    }

    fn serialize(&self, ser: &mut MqttSerializer) -> (r: Result<(), Error>) {
        proof {
            ser.lemma_wf();
            lemma_push_then(
                ser.capacity(),
                ser.written(),
                Ok(be16(self.packet_id as nat)),
                enc_then(self.properties.spec_enc(), spec_filters_enc(self.topics@)),
            );
        }
        ser.push_u16(self.packet_id)?;
        proof {
            ser.lemma_wf();
            lemma_push_then(
                ser.capacity(),
                ser.written(),
                self.properties.spec_enc(),
                spec_filters_enc(self.topics@),
            );
        }
        self.properties.encode_into(ser)?;
        encode_filters(self.topics, ser)
    }
}

/// MQTT `UNSUBSCRIBE` packet.
#[derive(Debug)]
pub struct Unsubscribe<'a> {
    /// Packet identifier.
    pub packet_id: u16,
    /// Whether this is a retransmission.
    pub dup: bool,
    /// Unsubscribe properties.
    pub properties: Properties<'a>,
    /// Topic filters to remove.
    pub topics: &'a [&'a str],
}

impl<'a> ControlPacket for Unsubscribe<'a> {
    open spec fn spec_fields(&self) -> Enc {
        enc_then(
            Ok(be16(self.packet_id as nat)),
            enc_then(self.properties.spec_enc(), spec_topics_enc(self.topics@)),
        )
    }

    open spec fn spec_message_type(&self) -> MessageType {
        MessageType::Unsubscribe
    }

    open spec fn spec_flags(&self) -> u8 {
        if self.dup {
            0b1010
        } else {
            0b0010
        }
    }

    open spec fn encodable(&self) -> bool {
        self.properties.spec_size() <= usize::MAX
    }

    fn message_type(&self) -> (r: MessageType) {
        MessageType::Unsubscribe
    }

    fn fixed_header_flags(&self) -> (r: u8) {
        if self.dup {
            0b1010
        } else {
            0b0010
        }
    }

    fn serialize(&self, ser: &mut MqttSerializer) -> (r: Result<(), Error>) {
        proof {
            ser.lemma_wf();
            lemma_push_then(
                ser.capacity(),
                ser.written(),
                Ok(be16(self.packet_id as nat)),
                enc_then(self.properties.spec_enc(), spec_topics_enc(self.topics@)),
            );
        }
        ser.push_u16(self.packet_id)?;
        proof {
            ser.lemma_wf();
            lemma_push_then(
                ser.capacity(),
                ser.written(),
                self.properties.spec_enc(),
                spec_topics_enc(self.topics@),
            );
        }
        self.properties.encode_into(ser)?;
        encode_topics(self.topics, ser)
    }
}

/// MQTT `PINGREQ` packet.
#[derive(Debug, Copy, Clone, PartialEq, Eq, Structural)]
pub struct PingReq;

impl ControlPacket for PingReq {
    open spec fn spec_fields(&self) -> Enc {
        Ok(Seq::empty())
    }

    open spec fn spec_message_type(&self) -> MessageType {
        MessageType::PingReq
    }

    open spec fn spec_flags(&self) -> u8 {
        0
    }

    open spec fn encodable(&self) -> bool {
        true
    }

    fn message_type(&self) -> (r: MessageType) {
        MessageType::PingReq
    }

    fn fixed_header_flags(&self) -> (r: u8) {
        0
    }

    fn serialize(&self, ser: &mut MqttSerializer) -> (r: Result<(), Error>) {
        proof {
            ser.lemma_wf();
            assert(ser.written() + Seq::<u8>::empty() =~= ser.written());
        }
        Ok(())
    }
}

} // verus!

verus! {

/// Reason code and properties carried by an acknowledgement.
#[derive(Debug, Copy, Clone, PartialEq, Eq)]
pub struct ReasonData<'a> {
    /// Reason code.
    pub code: ReasonCode,
    /// Optional properties.
    pub properties: Option<Properties<'a>>,
}

/// Optional reason attached to an acknowledgement; absent means success.
#[derive(Debug, Copy, Clone, PartialEq, Eq)]
pub struct Reason<'a> {
    /// The reason, when present on the wire.
    pub reason: Option<ReasonData<'a>>,
}

impl<'a> Reason<'a> {
    /// Encoding of the reason: nothing, or the code and any properties.
    pub open spec fn spec_enc(&self) -> Enc {
        match self.reason {
            None => Ok(Seq::empty()),
            Some(data) => enc_then(
                Ok(seq![spec_reason_code_value(data.code)]),
                match data.properties {
                    None => Ok(Seq::empty()),
                    Some(p) => p.spec_enc(),
                },
            ),
        }
    }

    /// Whether any property block has a computable size.
    pub open spec fn encodable(&self) -> bool {
        match self.reason {
            Some(ReasonData { properties: Some(p), .. }) => p.spec_size() <= usize::MAX,
            _ => true,
        }
    }

    /// A reason with a code and no properties.
    pub fn from_code(code: ReasonCode) -> (r: Self)
        ensures
            r.reason == Some(ReasonData { code, properties: None }),
    {
        Reason { reason: Some(ReasonData { code, properties: None }) }
    }

    /// A reason with a code and properties.
    pub fn with_properties(code: ReasonCode, properties: &'a [Property<'a>]) -> (r: Self)
        ensures
            r.reason is Some,
            r.reason->Some_0.code == code,
            r.reason->Some_0.properties is Some,
            !r.reason->Some_0.properties->Some_0.is_encoded(),
            !r.reason->Some_0.properties->Some_0.has_correlation(),
            r.reason->Some_0.properties->Some_0.list() == properties@,
    {
        Reason {
            reason: Some(ReasonData { code, properties: Some(Properties::from_slice(properties)) }),
        }
    }

    /// The reason code, `Success` when absent.
    pub open spec fn spec_code(&self) -> ReasonCode {
        match self.reason {
            Some(data) => data.code,
            None => ReasonCode::Success,
        }
    }

    /// The reason code, `Success` when absent.
    pub fn code(&self) -> (r: ReasonCode)
        ensures
            r == self.spec_code(),
    {
        match &self.reason {
            Some(data) => data.code,
            None => ReasonCode::Success,
        }
    }

    /// Serialize the reason.
    pub fn serialize(&self, ser: &mut MqttSerializer) -> (r: Result<(), Error>)
        requires
            old(ser).wf(),
            self.encodable(),
        ensures
            final(ser).pushed(old(ser), self.spec_enc(), r),
            final(final(ser).buffer())@ == final(old(ser).buffer())@,
    {
        proof {
            ser.lemma_wf();
        }
        match &self.reason {
            None => {
                proof {
                    assert(ser.written() + Seq::<u8>::empty() =~= ser.written());
                }
                Ok(())
            },
            Some(data) => {
                proof {
                    lemma_push_then(
                        ser.capacity(),
                        ser.written(),
                        Ok(seq![spec_reason_code_value(data.code)]),
                        match data.properties {
                            None => Ok(Seq::empty()),
                            Some(p) => p.spec_enc(),
                        },
                    );
                }
                ser.push(data.code.to_u8())?;
                match &data.properties {
                    None => {
                        proof {
                            assert(ser.written() + Seq::<u8>::empty() =~= ser.written());
                            ser.lemma_wf();
                        }
                        Ok(())
                    },
                    Some(p) => p.encode_into(ser),
                }
            },
        }
    }
}

/// MQTT `PUBACK` packet.
#[derive(Debug, Copy, Clone, PartialEq, Eq)]
pub struct PubAck<'a> {
    /// Packet identifier.
    pub packet_id: u16,
    /// Optional reason.
    pub reason: Reason<'a>,
}

impl<'a> ControlPacket for PubAck<'a> {
    open spec fn spec_fields(&self) -> Enc {
        enc_then(Ok(be16(self.packet_id as nat)), self.reason.spec_enc())
    }

    open spec fn spec_message_type(&self) -> MessageType {
        MessageType::PubAck
    }

    open spec fn spec_flags(&self) -> u8 {
        0
    }

    open spec fn encodable(&self) -> bool {
        self.reason.encodable()
    }

    fn message_type(&self) -> (r: MessageType) {
        MessageType::PubAck
    }

    fn fixed_header_flags(&self) -> (r: u8) {
        0
    }

    fn serialize(&self, ser: &mut MqttSerializer) -> (r: Result<(), Error>) {
        proof {
            ser.lemma_wf();
            lemma_push_then(
                ser.capacity(),
                ser.written(),
                Ok(be16(self.packet_id as nat)),
                self.reason.spec_enc(),
            );
        }
        ser.push_u16(self.packet_id)?;
        self.reason.serialize(ser)
    }
}

/// MQTT `PUBREC` packet.
#[derive(Debug, Copy, Clone, PartialEq, Eq)]
pub struct PubRec<'a> {
    /// Packet identifier.
    pub packet_id: u16,
    /// Optional reason.
    pub reason: Reason<'a>,
}

impl<'a> ControlPacket for PubRec<'a> {
    open spec fn spec_fields(&self) -> Enc {
        enc_then(Ok(be16(self.packet_id as nat)), self.reason.spec_enc())
    }

    open spec fn spec_message_type(&self) -> MessageType {
        MessageType::PubRec
    }

    open spec fn spec_flags(&self) -> u8 {
        0
    }

    open spec fn encodable(&self) -> bool {
        self.reason.encodable()
    }

    fn message_type(&self) -> (r: MessageType) {
        MessageType::PubRec
    }

    fn fixed_header_flags(&self) -> (r: u8) {
        0
    }

    fn serialize(&self, ser: &mut MqttSerializer) -> (r: Result<(), Error>) {
        proof {
            ser.lemma_wf();
            lemma_push_then(
                ser.capacity(),
                ser.written(),
                Ok(be16(self.packet_id as nat)),
                self.reason.spec_enc(),
            );
        }
        ser.push_u16(self.packet_id)?;
        self.reason.serialize(ser)
    }
}

/// MQTT `PUBREL` packet.
#[derive(Debug, Copy, Clone, PartialEq, Eq)]
pub struct PubRel<'a> {
    /// Packet identifier.
    pub packet_id: u16,
    /// Optional reason.
    pub reason: Reason<'a>,
}

impl<'a> ControlPacket for PubRel<'a> {
    open spec fn spec_fields(&self) -> Enc {
        enc_then(Ok(be16(self.packet_id as nat)), self.reason.spec_enc())
    }

    open spec fn spec_message_type(&self) -> MessageType {
        MessageType::PubRel
    }

    open spec fn spec_flags(&self) -> u8 {
        0b0010
    }

    open spec fn encodable(&self) -> bool {
        self.reason.encodable()
    }

    fn message_type(&self) -> (r: MessageType) {
        MessageType::PubRel
    }

    fn fixed_header_flags(&self) -> (r: u8) {
        0b0010
    }

    fn serialize(&self, ser: &mut MqttSerializer) -> (r: Result<(), Error>) {
        proof {
            ser.lemma_wf();
            lemma_push_then(
                ser.capacity(),
                ser.written(),
                Ok(be16(self.packet_id as nat)),
                self.reason.spec_enc(),
            );
        }
        ser.push_u16(self.packet_id)?;
        self.reason.serialize(ser)
    }
}

/// MQTT `PUBCOMP` packet.
#[derive(Debug, Copy, Clone, PartialEq, Eq)]
pub struct PubComp<'a> {
    /// Packet identifier.
    pub packet_id: u16,
    /// Optional reason.
    pub reason: Reason<'a>,
}

impl<'a> ControlPacket for PubComp<'a> {
    open spec fn spec_fields(&self) -> Enc {
        enc_then(Ok(be16(self.packet_id as nat)), self.reason.spec_enc())
    }

    open spec fn spec_message_type(&self) -> MessageType {
        MessageType::PubComp
    }

    open spec fn spec_flags(&self) -> u8 {
        0
    }

    open spec fn encodable(&self) -> bool {
        self.reason.encodable()
    }

    fn message_type(&self) -> (r: MessageType) {
        MessageType::PubComp
    }

    fn fixed_header_flags(&self) -> (r: u8) {
        0
    }

    fn serialize(&self, ser: &mut MqttSerializer) -> (r: Result<(), Error>) {
        proof {
            ser.lemma_wf();
            lemma_push_then(
                ser.capacity(),
                ser.written(),
                Ok(be16(self.packet_id as nat)),
                self.reason.spec_enc(),
            );
        }
        ser.push_u16(self.packet_id)?;
        self.reason.serialize(ser)
    }
}

/// MQTT `DISCONNECT` packet.
#[derive(Debug, Copy, Clone, PartialEq, Eq)]
pub struct Disconnect<'a> {
    reason_code: Option<ReasonCode>,
    properties: Option<Properties<'a>>,
}

impl<'a> Disconnect<'a> {
    /// The reason code as carried on the wire, if any.
    pub closed spec fn wire_reason(&self) -> Option<ReasonCode> {
        self.reason_code
    }

    /// The property block as carried on the wire, if any.
    pub closed spec fn wire_properties(&self) -> Option<Properties<'a>> {
        self.properties
    }

    /// A `DISCONNECT` as read from the wire, each field present or not.
    pub fn from_wire(reason_code: Option<ReasonCode>, properties: Option<Properties<'a>>) -> (r: Self)
        ensures
            r.wire_reason() == reason_code,
            r.wire_properties() == properties,
    {
        Disconnect { reason_code, properties }
    }

    /// Construct a minimal successful `DISCONNECT`.
    pub fn success() -> (r: Self)
        ensures
            r.wire_reason() is None,
            r.wire_properties() is None,
    {
        Disconnect { reason_code: None, properties: None }
    }

    /// Construct a `DISCONNECT` with an explicit reason code.
    pub fn with_reason(reason_code: ReasonCode) -> (r: Self)
        ensures
            r.wire_reason() == Some(reason_code),
            r.wire_properties() is None,
    {
        Disconnect { reason_code: Some(reason_code), properties: None }
    }

    /// Ask the broker to publish the configured Will immediately.
    pub fn with_will() -> (r: Self)
        ensures
            r.wire_reason() == Some(ReasonCode::DisconnectWithWill),
            r.wire_properties() is None,
    {
        Self::with_reason(ReasonCode::DisconnectWithWill)
    }

    /// Attach MQTT v5 DISCONNECT properties; a missing reason code becomes `Success`.
    pub fn with_properties(self, properties: &'a [Property<'a>]) -> (r: Self)
        ensures
            r.wire_reason() == Some(
                match self.wire_reason() {
                    Some(c) => c,
                    None => ReasonCode::Success,
                },
            ),
            r.wire_properties() == Some(Properties::from_slice_spec(properties)),
    {
        let reason_code = match self.reason_code {
            Some(c) => Some(c),
            None => Some(ReasonCode::Success),
        };
        Disconnect { reason_code, properties: Some(Properties::from_slice(properties)) }
    }

    /// Return the reason code, defaulting to `Success` when omitted on the wire.
    pub fn reason_code(&self) -> (r: ReasonCode)
        ensures
            r == match self.wire_reason() {
                Some(c) => c,
                None => ReasonCode::Success,
            },
    {
        match self.reason_code {
            Some(c) => c,
            None => ReasonCode::Success,
        }
    }

    /// Return the property block when it was present on the wire or builder.
    pub fn properties(&self) -> (r: Option<&Properties<'a>>)
        ensures
            r == match self.wire_properties() {
                Some(p) => Some(&p),
                None => None::<&Properties<'a>>,
            },
    {
        match &self.properties {
            Some(p) => Some(p),
            None => None,
        }
    }
}

impl<'a> ControlPacket for Disconnect<'a> {
    open spec fn spec_fields(&self) -> Enc {
        enc_then(
            match self.wire_reason() {
                Some(c) => Ok(seq![spec_reason_code_value(c)]),
                None => Ok(Seq::empty()),
            },
            match self.wire_properties() {
                Some(p) => p.spec_enc(),
                None => Ok(Seq::empty()),
            },
        )
    }

    open spec fn spec_message_type(&self) -> MessageType {
        MessageType::Disconnect
    }

    open spec fn spec_flags(&self) -> u8 {
        0
    }

    open spec fn encodable(&self) -> bool {
        match self.wire_properties() {
            Some(p) => p.spec_size() <= usize::MAX,
            None => true,
        }
    }

    fn message_type(&self) -> (r: MessageType) {
        MessageType::Disconnect
    }

    fn fixed_header_flags(&self) -> (r: u8) {
        0
    }

    fn serialize(&self, ser: &mut MqttSerializer) -> (r: Result<(), Error>) {
        proof {
            ser.lemma_wf();
            lemma_push_then(
                ser.capacity(),
                ser.written(),
                match self.wire_reason() {
                    Some(c) => Ok(seq![spec_reason_code_value(c)]),
                    None => Ok(Seq::empty()),
                },
                match self.wire_properties() {
                    Some(p) => p.spec_enc(),
                    None => Ok(Seq::empty()),
                },
            );
        }
        match self.reason_code {
            Some(c) => {
                ser.push(c.to_u8())?;
            },
            None => {
                proof {
                    assert(ser.written() + Seq::<u8>::empty() =~= ser.written());
                }
            },
        }
        proof {
            ser.lemma_wf();
        }
        match &self.properties {
            Some(p) => p.encode_into(ser),
            None => {
                proof {
                    assert(ser.written() + Seq::<u8>::empty() =~= ser.written());
                }
                Ok(())
            },
        }
    }
}

} // verus!

verus! {

/// User name and password sent with `CONNECT`.
#[derive(Debug, Copy, Clone)]
pub struct Auth<'a> {
    user_name: &'a str,
    password: &'a [u8],
}

impl<'a> Auth<'a> {
    /// The user name.
    pub closed spec fn spec_user_name(&self) -> &'a str {
        self.user_name
    }

    /// The password.
    pub closed spec fn spec_password(&self) -> Seq<u8> {
        self.password@
    }

    /// Credentials made of `user_name` and `password`.
    pub fn new(user_name: &'a str, password: &'a [u8]) -> (r: Self)
        ensures
            r.spec_user_name() == user_name,
            r.spec_password() == password@,
    {
        Auth { user_name, password }
    }

    /// The user name.
    pub fn user_name(&self) -> (r: &'a str)
        ensures
            r == self.spec_user_name(),
    {
        self.user_name
    }

    /// The password.
    pub fn password(&self) -> (r: &'a [u8])
        ensures
            r@ == self.spec_password(),
    {
        self.password
    }
}

/// The will message the broker publishes when the client disappears.
#[derive(Debug, Copy, Clone)]
pub struct Will<'a> {
    topic: &'a str,
    payload: &'a [u8],
    properties: &'a [Property<'a>],
    qos: QoS,
    retained: Retain,
}

/// Whether every property may be sent with a will message.
pub open spec fn spec_will_properties_valid(props: Seq<Property>) -> bool {
    forall|i: int|
        0 <= i < props.len() ==> spec_has_valid_value(#[trigger] props[i]) && spec_allowed_in(
            props[i],
            PropertyContext::Will,
        )
}

impl<'a> Will<'a> {
    /// The will topic.
    pub closed spec fn spec_topic(&self) -> &'a str {
        self.topic
    }

    /// The will payload.
    pub closed spec fn spec_payload(&self) -> Seq<u8> {
        self.payload@
    }

    /// The will properties.
    pub closed spec fn spec_properties(&self) -> Seq<Property<'a>> {
        self.properties@
    }

    /// The will QoS.
    pub closed spec fn spec_qos(&self) -> QoS {
        self.qos
    }

    /// Whether the will is retained.
    pub closed spec fn spec_retained(&self) -> Retain {
        self.retained
    }

    /// Encoding of the will's fields in `CONNECT`: properties, topic, payload.
    pub open spec fn spec_enc(&self) -> Enc {
        enc_then(
            Properties::from_slice_spec(self.spec_properties_slice()).spec_enc(),
            enc_then(enc_prefixed(self.spec_topic().spec_bytes()), enc_prefixed(self.spec_payload())),
        )
    }

    /// The will properties as a slice.
    pub closed spec fn spec_properties_slice(&self) -> &'a [Property<'a>] {
        self.properties
    }

    /// A will with QoS 0, not retained; fails with `InvalidConfig` when a property may not be
    /// sent with a will.
    pub fn new(topic: &'a str, payload: &'a [u8], properties: &'a [Property<'a>]) -> (r: Result<
        Self,
        ConfigError,
    >)
        ensures
            spec_will_properties_valid(properties@) <==> r is Ok,
            r matches Err(e) ==> e == ConfigError::InvalidConfig,
            r matches Ok(w) ==> w.spec_topic() == topic && w.spec_payload() == payload@
                && w.spec_properties() == properties@ && w.spec_properties_slice() == properties
                && w.spec_qos() == QoS::AtMostOnce && w.spec_retained() == Retain::NotRetained,
    {
        let n = properties.len();
        let mut i: usize = 0;
        while i < n
            invariant
                n == properties@.len(),
                i <= n,
                forall|k: int|
                    0 <= k < i ==> spec_has_valid_value(#[trigger] properties@[k])
                        && spec_allowed_in(properties@[k], PropertyContext::Will),
            decreases n - i,
        {
            if !properties[i].is_valid_for(PropertyContext::Will) {
                return Err(ConfigError::InvalidConfig);
            }
            i = i + 1;
        }
        Ok(Will { topic, payload, properties, qos: QoS::AtMostOnce, retained: Retain::NotRetained })
    }

    /// The same will with QoS `qos`.
    pub fn qos(self, qos: QoS) -> (r: Self)
        ensures
            r.spec_qos() == qos,
            r.spec_topic() == self.spec_topic(),
            r.spec_payload() == self.spec_payload(),
            r.spec_properties_slice() == self.spec_properties_slice(),
            r.spec_properties() == self.spec_properties(),
            r.spec_retained() == self.spec_retained(),
    {
        Will { qos, ..self }
    }

    /// The same will, retained as `retain` says.
    pub fn retained(self, retain: Retain) -> (r: Self)
        ensures
            r.spec_retained() == retain,
            r.spec_topic() == self.spec_topic(),
            r.spec_payload() == self.spec_payload(),
            r.spec_properties_slice() == self.spec_properties_slice(),
            r.spec_properties() == self.spec_properties(),
            r.spec_qos() == self.spec_qos(),
    {
        Will { retained: retain, ..self }
    }

    /// The will QoS.
    pub fn qos_level(&self) -> (r: QoS)
        ensures
            r == self.spec_qos(),
    {
        self.qos
    }

    /// Whether the will is retained.
    pub fn retained_flag(&self) -> (r: Retain)
        ensures
            r == self.spec_retained(),
    {
        self.retained
    }

    /// Serialize the will's fields.
    pub fn serialize(&self, ser: &mut MqttSerializer) -> (r: Result<(), Error>)
        requires
            old(ser).wf(),
            Properties::from_slice_spec(self.spec_properties_slice()).spec_size() <= usize::MAX,
        ensures
            final(ser).pushed(old(ser), self.spec_enc(), r),
            final(final(ser).buffer())@ == final(old(ser).buffer())@,
    {
        let props = Properties::from_slice(self.properties);
        proof {
            ser.lemma_wf();
            lemma_push_then(
                ser.capacity(),
                ser.written(),
                props.spec_enc(),
                enc_then(enc_prefixed(self.topic.spec_bytes()), enc_prefixed(self.payload@)),
            );
        }
        props.encode_into(ser)?;
        proof {
            ser.lemma_wf();
            lemma_push_then(
                ser.capacity(),
                ser.written(),
                enc_prefixed(self.topic.spec_bytes()),
                enc_prefixed(self.payload@),
            );
        }
        ser.push_prefixed(self.topic.as_bytes())?;
        ser.push_prefixed(self.payload)
    }
}

/// The `CONNECT` flags byte.
pub open spec fn spec_connect_flags(clean_start: bool, will: Option<Will>, auth: bool) -> u8 {
    ((if clean_start {
        2nat
    } else {
        0
    }) + match will {
        Some(w) => 4 + qos_level(w.spec_qos()) as nat * 8 + (if w.spec_retained()
            == Retain::Retained {
            32nat
        } else {
            0
        }),
        None => 0,
    } + (if auth {
        192nat
    } else {
        0
    })) as u8
}

/// MQTT `CONNECT` packet.
#[derive(Debug)]
pub struct Connect<'a> {
    /// Keep-alive interval in seconds.
    pub keepalive: u16,
    /// Connect properties.
    pub properties: Properties<'a>,
    /// Client identifier.
    pub client_id: Utf8String<'a>,
    /// Credentials.
    pub auth: Option<Auth<'a>>,
    /// Will message.
    pub will: Option<Will<'a>>,
    /// Whether to start a clean session.
    pub clean_start: bool,
}

impl<'a> Connect<'a> {
    /// The flags byte.
    pub fn flags(&self) -> (r: u8)
        ensures
            r == spec_connect_flags(self.clean_start, self.will, self.auth is Some),
    {
        let mut flags: u8 = 0;
        if self.clean_start {
            flags = flags + 2;
        }
        if let Some(will) = &self.will {
            flags = flags + 4 + will.qos_level().level() * 8;
            if will.retained_flag() == Retain::Retained {
                flags = flags + 32;
            }
        }
        if self.auth.is_some() {
            flags = flags + 192;
        }
        flags
    }

    /// Encoding of the will part, if any.
    pub open spec fn spec_will_enc(&self) -> Enc {
        match self.will {
            Some(w) => w.spec_enc(),
            None => Ok(Seq::empty()),
        }
    }

    /// Encoding of the credentials, if any.
    pub open spec fn spec_auth_enc(&self) -> Enc {
        match self.auth {
            Some(a) => enc_then(
                enc_prefixed(a.spec_user_name().spec_bytes()),
                enc_prefixed(a.spec_password()),
            ),
            None => Ok(Seq::empty()),
        }
    }
}

impl<'a> ControlPacket for Connect<'a> {
    open spec fn spec_fields(&self) -> Enc {
        enc_then(
            enc_prefixed(seq![77u8, 81u8, 84u8, 84u8]),
            enc_then(
                Ok(
                    seq![5u8, spec_connect_flags(self.clean_start, self.will, self.auth is Some)]
                        + be16(self.keepalive as nat),
                ),
                enc_then(
                    self.properties.spec_enc(),
                    enc_then(
                        enc_prefixed(self.client_id.0.spec_bytes()),
                        enc_then(self.spec_will_enc(), self.spec_auth_enc()),
                    ),
                ),
            ),
        )
    }

    open spec fn spec_message_type(&self) -> MessageType {
        MessageType::Connect
    }

    open spec fn spec_flags(&self) -> u8 {
        0
    }

    open spec fn encodable(&self) -> bool {
        &&& self.properties.spec_size() <= usize::MAX
        &&& self.will matches Some(w) ==> Properties::from_slice_spec(
            w.spec_properties_slice(),
        ).spec_size() <= usize::MAX
    }

    fn message_type(&self) -> (r: MessageType) {
        MessageType::Connect
    }

    fn fixed_header_flags(&self) -> (r: u8) {
        0
    }

    fn serialize(&self, ser: &mut MqttSerializer) -> (r: Result<(), Error>) {
        let magic: [u8; 4] = [77, 81, 84, 84];
        let flags = self.flags();
        let ghost fixed = seq![5u8, flags] + be16(self.keepalive as nat);
        let ghost rest = enc_then(
            self.properties.spec_enc(),
            enc_then(
                enc_prefixed(self.client_id.0.spec_bytes()),
                enc_then(self.spec_will_enc(), self.spec_auth_enc()),
            ),
        );
        assert(magic@ =~= seq![77u8, 81u8, 84u8, 84u8]);
        proof {
            ser.lemma_wf();
            lemma_push_then(ser.capacity(), ser.written(), enc_prefixed(magic@), enc_then(Ok(fixed), rest));
        }
        ser.push_prefixed(&magic)?;
        proof {
            ser.lemma_wf();
            lemma_push_then(ser.capacity(), ser.written(), Ok(seq![5u8]), enc_then(Ok(seq![flags] + be16(self.keepalive as nat)), rest));
            crate::packets::lemma_enc_then_assoc(Ok(seq![5u8]), Ok(seq![flags] + be16(self.keepalive as nat)), rest);
            assert(seq![5u8] + (seq![flags] + be16(self.keepalive as nat)) =~= fixed);
        }
        ser.push(5)?;
        proof {
            ser.lemma_wf();
            lemma_push_then(ser.capacity(), ser.written(), Ok(seq![flags]), enc_then(Ok(be16(self.keepalive as nat)), rest));
            crate::packets::lemma_enc_then_assoc(Ok(seq![flags]), Ok(be16(self.keepalive as nat)), rest);
        }
        ser.push(flags)?;
        proof {
            ser.lemma_wf();
            lemma_push_then(ser.capacity(), ser.written(), Ok(be16(self.keepalive as nat)), rest);
        }
        ser.push_u16(self.keepalive)?;
        proof {
            ser.lemma_wf();
            lemma_push_then(
                ser.capacity(),
                ser.written(),
                self.properties.spec_enc(),
                enc_then(
                    enc_prefixed(self.client_id.0.spec_bytes()),
                    enc_then(self.spec_will_enc(), self.spec_auth_enc()),
                ),
            );
        }
        self.properties.encode_into(ser)?;
        proof {
            ser.lemma_wf();
            lemma_push_then(
                ser.capacity(),
                ser.written(),
                enc_prefixed(self.client_id.0.spec_bytes()),
                enc_then(self.spec_will_enc(), self.spec_auth_enc()),
            );
        }
        ser.push_prefixed(self.client_id.0.as_bytes())?;
        proof {
            ser.lemma_wf();
            lemma_push_then(ser.capacity(), ser.written(), self.spec_will_enc(), self.spec_auth_enc());
        }
        match &self.will {
            Some(will) => will.serialize(ser)?,
            None => {
                assert(ser.written() + Seq::<u8>::empty() =~= ser.written());
            },
        }
        match &self.auth {
            Some(auth) => {
                proof {
                    ser.lemma_wf();
                    lemma_push_then(
                        ser.capacity(),
                        ser.written(),
                        enc_prefixed(auth.spec_user_name().spec_bytes()),
                        enc_prefixed(auth.spec_password()),
                    );
                }
                ser.push_prefixed(auth.user_name().as_bytes())?;
                ser.push_prefixed(auth.password())
            },
            None => {
                assert(ser.written() + Seq::<u8>::empty() =~= ser.written());
                Ok(())
            },
        }
    }
}

/// The variable header of an MQTT `PUBLISH`, without the payload.
#[derive(Debug)]
pub struct PublishHeader<'a> {
    /// Topic name.
    pub topic: Utf8String<'a>,
    /// Packet identifier, present for QoS 1 and 2.
    pub packet_id: Option<u16>,
    /// Publish properties.
    pub properties: Properties<'a>,
    /// Retain flag.
    pub retain: Retain,
    /// Requested QoS.
    pub qos: QoS,
    /// Whether this is a retransmission.
    pub dup: bool,
}

impl<'a> PublishHeader<'a> {
    /// The fixed-header flags: QoS in bits 1-2, retain in bit 0, duplicate in bit 3.
    pub open spec fn spec_flags(&self) -> u8 {
        (qos_level(self.qos) as nat * 2 + (if self.retain == Retain::Retained {
            1nat
        } else {
            0
        }) + (if self.dup {
            8nat
        } else {
            0
        })) as u8
    }

    /// Encoding of the variable header: topic, packet identifier if any, properties.
    pub open spec fn spec_fields(&self) -> Enc {
        enc_then(
            enc_prefixed(self.topic.0.spec_bytes()),
            enc_then(
                match self.packet_id {
                    Some(id) => Ok(be16(id as nat)),
                    None => Ok(Seq::empty()),
                },
                self.properties.spec_enc(),
            ),
        )
    }

    /// The fixed-header flags.
    pub fn fixed_header_flags(&self) -> (r: u8)
        ensures
            r == self.spec_flags(),
            r <= 15,
    {
        let mut flags: u8 = self.qos.level() * 2;
        if self.retain == Retain::Retained {
            flags = flags + 1;
        }
        if self.dup {
            flags = flags + 8;
        }
        flags
    }

    /// The fixed header of the packet.
    pub fn fixed_header(&self) -> (r: FixedHeader)
        ensures
            r.0 == spec_header_byte(MessageType::Publish, self.spec_flags()),
    {
        let flags = self.fixed_header_flags();
        let r = FixedHeader::new(MessageType::Publish, flags);
        assert(flags & 0x0f == flags) by (bit_vector)
            requires
                flags <= 15,
        ;
        r
    }

    /// Serialize the variable header.
    pub fn serialize(&self, ser: &mut MqttSerializer) -> (r: Result<(), Error>)
        requires
            old(ser).wf(),
            self.properties.spec_size() <= usize::MAX,
        ensures
            final(ser).pushed(old(ser), self.spec_fields(), r),
            final(final(ser).buffer())@ == final(old(ser).buffer())@,
    {
        let ghost id_enc = match self.packet_id {
            Some(id) => Ok(be16(id as nat)),
            None => Ok(Seq::<u8>::empty()),
        };
        proof {
            ser.lemma_wf();
            lemma_push_then(
                ser.capacity(),
                ser.written(),
                enc_prefixed(self.topic.0.spec_bytes()),
                enc_then(id_enc, self.properties.spec_enc()),
            );
        }
        ser.push_prefixed(self.topic.0.as_bytes())?;
        proof {
            ser.lemma_wf();
            lemma_push_then(ser.capacity(), ser.written(), id_enc, self.properties.spec_enc());
        }
        match self.packet_id {
            Some(id) => ser.push_u16(id)?,
            None => {
                assert(ser.written() + Seq::<u8>::empty() =~= ser.written());
            },
        }
        self.properties.encode_into(ser)
    }
}

/// Room left for a publish payload in a buffer of `cap` bytes after the reserved header
/// space and a variable header `body`.
pub open spec fn spec_payload_room(cap: nat, body: Seq<u8>) -> nat {
    if crate::ser::MAX_FIXED_HEADER_SIZE + body.len() <= cap {
        (cap - crate::ser::MAX_FIXED_HEADER_SIZE - body.len()) as nat
    } else {
        0
    }
}

impl<'a> MqttSerializer<'a> {
    /// Encode a `PUBLISH` with `header` and `payload`, and return the packet's start offset
    /// in the buffer with its bytes.
    pub fn encode_publish_with_offset<P: ToPayload>(
        buf: &'a mut [u8],
        header: &PublishHeader<'_>,
        payload: P,
    ) -> (r: Result<(usize, &'a [u8]), PubError<P::Error>>)
        requires
            header.properties.spec_size() <= usize::MAX,
        ensures
            match spec_body_result(old(buf)@.len(), header.spec_fields()) {
                Err(e) => r matches Err(PubError::Encode(x)) && x == e,
                Ok(body) => {
                    let whole = spec_finalize(
                        old(buf)@.len(),
                        body + payload.payload_bytes(),
                        spec_header_byte(MessageType::Publish, header.spec_flags()),
                    );
                    &&& r matches Ok((offset, packet)) ==> (whole matches Ok((o, b)) && offset == o
                        && packet@ == b)
                    &&& r matches Err(PubError::Encode(x)) ==> x == Error::InsufficientMemory
                        && whole is Err
                },
            },
            final(buf)@.len() == old(buf)@.len(),
            r matches Ok((offset, packet)) ==> offset + packet@.len() <= old(buf)@.len()
                && final(buf)@.subrange(offset as int, offset + packet@.len()) == packet@
                && keeps_outside(old(buf)@, final(buf)@, offset as int, offset + packet@.len()),
            old(buf)@.len() < crate::ser::MAX_FIXED_HEADER_SIZE ==> final(buf)@ == old(buf)@,
            r is Err && spec_body_result(old(buf)@.len(), header.spec_fields()) is Ok ==> {
                let body = spec_body_result(old(buf)@.len(), header.spec_fields())->Ok_0;
                ||| r matches Err(PubError::Payload(_)) && !payload.fits(
                    spec_payload_room(old(buf)@.len(), body),
                )
                ||| r matches Err(PubError::Encode(_))
            },
    {
        let mut serializer = Self::new(buf);
        let ghost s0 = serializer.storage();
        proof {
            serializer.lemma_position();
            assert(Seq::<u8>::empty() + Seq::<u8>::empty() =~= Seq::<u8>::empty());
            match header.spec_fields() {
                Ok(x) => {
                    assert(Seq::<u8>::empty() + x =~= x);
                },
                Err(x) => {
                    assert(Seq::<u8>::empty() + x =~= x);
                },
            }
        }
        match header.serialize(&mut serializer) {
            Ok(()) => {},
            Err(e) => {
                proof {
                    serializer.lemma_storage_len();
                    if s0.len() < crate::ser::MAX_FIXED_HEADER_SIZE {
                        assert(serializer.storage() =~= s0);
                    }
                }
                serializer.release();
                return Err(PubError::Encode(e));
            },
        }
        let flags = header.fixed_header_flags();
        let ghost before = serializer;
        proof {
            serializer.lemma_position();
            serializer.lemma_storage_len();
        }
        let rem = serializer.remainder();
        let ghost rem_before = rem@;
        let written_payload = payload.serialize(rem);
        assert(serializer.capacity() == before.capacity());
        assert(serializer.position() == before.position());
        proof {
            if before.position() > before.capacity() {
                assert(serializer.storage() =~= before.storage());
            }
            if s0.len() < crate::ser::MAX_FIXED_HEADER_SIZE {
                assert(serializer.storage() =~= s0);
            }
        }
        let len = match written_payload {
            Ok(n) => n,
            Err(e) => {
                serializer.release();
                return Err(PubError::Payload(e));
            },
        };
        match serializer.commit(len) {
            Ok(()) => {},
            Err(e) => {
                serializer.release();
                return Err(PubError::Encode(e));
            },
        }
        proof {
            serializer.lemma_storage_len();
            if before.position() <= before.capacity() {
                let p = before.position() as int;
                assert(serializer.storage() == before.storage().subrange(0, p) + final(rem)@);
                assert(rem_before.len() == before.capacity() - p);
                assert(final(rem)@.len() == rem_before.len());
                assert(len <= rem_before.len());
                assert(serializer.storage().subrange(p, p + len) =~= final(rem)@.subrange(0, len as int));
                serializer.lemma_commit_written(&before, len as nat);
                assert forall|k: int| 0 <= k < before.storage().len() && !(p <= k < p + len) implies
                    #[trigger] serializer.storage()[k] == before.storage()[k] by {
                    if k >= p + len {
                        assert(final(rem)@.subrange(len as int, rem_before.len() as int)[k - p - len]
                            == rem_before.subrange(len as int, rem_before.len() as int)[k - p - len]);
                    }
                }
            }
        }
        let ghost s2 = serializer.storage();
        let ghost p2 = serializer.position();
        proof {
            serializer.lemma_position();
            assert(keeps_outside(s0, s2, crate::ser::MAX_FIXED_HEADER_SIZE as int, p2 as int));
        }
        match serializer.finalize(MessageType::Publish, flags) {
            Ok((offset, packet)) => Ok((offset, packet)),
            Err(e) => Err(PubError::Encode(e)),
        }
    }

    /// Encode a `PUBLISH` with `header` and `payload`.
    pub fn encode_publish<P: ToPayload>(
        buf: &'a mut [u8],
        header: &PublishHeader<'_>,
        payload: P,
    ) -> (r: Result<&'a [u8], PubError<P::Error>>)
        requires
            header.properties.spec_size() <= usize::MAX,
        ensures
            match spec_body_result(old(buf)@.len(), header.spec_fields()) {
                Err(e) => r matches Err(PubError::Encode(x)) && x == e,
                Ok(body) => {
                    let whole = spec_finalize(
                        old(buf)@.len(),
                        body + payload.payload_bytes(),
                        spec_header_byte(MessageType::Publish, header.spec_flags()),
                    );
                    &&& r matches Ok(packet) ==> (whole matches Ok((o, b)) && packet@ == b)
                    &&& r matches Err(PubError::Encode(x)) ==> x == Error::InsufficientMemory
                        && whole is Err
                },
            },
    {
        let (_, packet) = Self::encode_publish_with_offset(buf, header, payload)?;
        Ok(packet)
    }
}


/// The fixed-header flags of a `PUBLISH` carry its parts where MQTT puts them: retain in
/// bit 0, the QoS level in bits 1 and 2, duplicate in bit 3, nothing above.
pub proof fn law_publish_flags_layout(h: PublishHeader)
    ensures
        h.spec_flags() < 16,
        (h.spec_flags() % 2 == 1) == (h.retain == Retain::Retained),
        (h.spec_flags() / 2) % 4 == qos_level(h.qos),
        (h.spec_flags() / 8 == 1) == h.dup,
{
}

} // verus!
