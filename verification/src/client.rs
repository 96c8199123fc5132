//! What a session hands to its user: operation handles, inbound messages, connection events
//! and the errors of the client runner.
use crate::error::{Error, PubError};
use crate::properties::{is_first_correlation_data, is_first_response_topic, Properties, Property};
use crate::publication::Publication;
use crate::reply::{OwnedResponseTarget, ResponseTarget};
use crate::{ResourceError, QoS, Retain};
use vstd::string::StringSliceAdditionalSpecFns;
use vstd::prelude::*;

verus! {

/// Kind of an outbound operation that waits for the broker.
#[derive(Debug, Copy, Clone, PartialEq, Eq, Structural)]
pub enum OpKind {
    PublishAtLeastOnce,
    PublishExactlyOnce,
    Subscribe,
    Unsubscribe,
}

/// Handle for one outbound MQTT operation accepted into local session state.
#[derive(Debug, Copy, Clone, PartialEq, Eq, Structural)]
pub struct Op {
    kind: OpKind,
    packet_id: u16,
    generation: u32,
}

impl Op {
    /// The kind of operation.
    pub closed spec fn spec_kind(&self) -> OpKind {
        self.kind
    }

    /// The packet identifier it was sent with.
    pub closed spec fn spec_packet_id(&self) -> u16 {
        self.packet_id
    }

    /// The session generation it was accepted in.
    pub closed spec fn spec_generation(&self) -> u32 {
        self.generation
    }

    /// A handle for an operation of `kind` sent with `packet_id` in session `generation`.
    pub fn new(kind: OpKind, packet_id: u16, generation: u32) -> (r: Self)
        ensures
            r.spec_kind() == kind,
            r.spec_packet_id() == packet_id,
            r.spec_generation() == generation,
    {
        Op { kind, packet_id, generation }
    }

    /// The kind of operation.
    pub fn kind(&self) -> (r: OpKind)
        ensures
            r == self.spec_kind(),
    {
        self.kind
    }

    /// The packet identifier it was sent with.
    pub fn packet_id(&self) -> (r: u16)
        ensures
            r == self.spec_packet_id(),
    {
        self.packet_id
    }

    /// The session generation it was accepted in.
    pub fn generation(&self) -> (r: u32)
        ensures
            r == self.spec_generation(),
    {
        self.generation
    }
}

/// Where an operation stands.
#[derive(Debug, Copy, Clone, PartialEq, Eq, Structural)]
pub enum OpStatus {
    /// The operation is still present in local in-flight state.
    Pending,
    /// The operation is no longer pending in this session generation.
    Complete,
    /// The local session state that could complete this operation was discarded.
    Invalidated,
}

/// Output of connecting a session.
#[derive(Debug, Copy, Clone, PartialEq, Eq, Structural)]
pub enum ConnectEvent {
    /// The broker created a fresh session.
    Connected,
    /// The broker resumed the existing session.
    Reconnected,
}

/// Inbound MQTT `PUBLISH` handed to the user.
#[derive(Debug)]
pub struct InboundPublish<'a> {
    /// Topic the message was published on.
    pub topic: &'a str,
    /// Application payload.
    pub payload: &'a [u8],
    /// Properties sent with the message.
    pub properties: Properties<'a>,
    /// Whether the broker marked the message as retained.
    pub retain: Retain,
    /// Delivery quality of service.
    pub qos: QoS,
}

impl<'a> InboundPublish<'a> {
    /// An inbound message with these parts.
    pub fn new(
        topic: &'a str,
        payload: &'a [u8],
        properties: Properties<'a>,
        retain: Retain,
        qos: QoS,
    ) -> (r: Self)
        ensures
            r.topic == topic,
            r.payload == payload,
            r.properties == properties,
            r.retain == retain,
            r.qos == qos,
    {
        InboundPublish { topic, payload, properties, retain, qos }
    }

    /// The inbound topic name.
    pub fn topic(&self) -> (r: &'a str)
        ensures
            r == self.topic,
    {
        self.topic
    }

    /// The inbound payload bytes.
    pub fn payload(&self) -> (r: &'a [u8])
        ensures
            r == self.payload,
    {
        self.payload
    }

    /// The inbound MQTT v5 properties.
    pub fn properties(&self) -> (r: &Properties<'a>)
        ensures
            *r == self.properties,
    {
        &self.properties
    }

    /// Whether the broker marked this message as retained.
    pub fn retained(&self) -> (r: bool)
        ensures
            r == (self.retain == Retain::Retained),
    {
        matches!(self.retain, Retain::Retained)
    }

    /// The inbound QoS level.
    pub fn qos(&self) -> (r: QoS)
        ensures
            r == self.qos,
    {
        self.qos
    }

    /// The first MQTT v5 response topic among the properties, if any.
    pub fn response_topic(&self) -> (r: Option<&'a str>)
        ensures
            is_first_response_topic(self.properties, r),
    {
        self.properties.response_topic()
    }

    /// The first MQTT v5 correlation data among the properties, if any.
    pub fn correlation_data(&self) -> (r: Option<&'a [u8]>)
        ensures
            is_first_correlation_data(self.properties, r),
    {
        self.properties.correlation_data()
    }

    /// Where a reply goes: the response topic with the correlation data, when there is a
    /// response topic.
    pub fn response_target(&self) -> (r: Option<ResponseTarget<'a>>)
        ensures
            exists|topic: Option<&'a str>, data: Option<&'a [u8]>|
                is_first_response_topic(self.properties, topic) && is_first_correlation_data(
                    self.properties,
                    data,
                ) && r == match topic {
                    Some(t) => Some(ResponseTarget { topic: t, correlation_data: data }),
                    None => None,
                },
    {
        let topic = self.response_topic();
        let data = self.correlation_data();
        match topic {
            Some(t) => Some(ResponseTarget { topic: t, correlation_data: data }),
            None => None,
        }
    }

    /// Copy the response target into owned storage, so that a reply can outlive the message:
    /// `None` without a response topic, `BufferTooSmall` where the topic takes more than 128
    /// bytes or the correlation data more than 32.
    pub fn reply_owned(&self) -> (r: Result<Option<OwnedResponseTarget>, ResourceError>)
        ensures
            exists|topic: Option<&'a str>, data: Option<&'a [u8]>|
                is_first_response_topic(self.properties, topic) && is_first_correlation_data(
                    self.properties,
                    data,
                ) && match topic {
                    None => r matches Ok(None),
                    Some(t) => if t.spec_bytes().len() <= 128 && (data matches Some(d) ==> d@.len()
                        <= 32) {
                        r matches Ok(Some(o)) && o.spec_topic() == t.spec_bytes()
                            && o.spec_correlation_data() == match data {
                            Some(d) => Some(d@),
                            None => None,
                        }
                    } else {
                        r == Err::<Option<OwnedResponseTarget>, ResourceError>(
                            ResourceError::BufferTooSmall,
                        )
                    },
                },
    {
        match self.response_target() {
            Some(target) => match target.to_owned() {
                Ok(owned) => Ok(Some(owned)),
                Err(_) => Err(ResourceError::BufferTooSmall),
            },
            None => Ok(None),
        }
    }

    /// A direct reply publication of `payload`, when the message carries a response topic:
    /// addressed to it and carrying the correlation data back.
    pub fn reply<P>(&self, payload: P) -> (r: Option<Publication<'a, P>>)
        ensures
            exists|topic: Option<&'a str>, data: Option<&'a [u8]>|
                is_first_response_topic(self.properties, topic) && is_first_correlation_data(
                    self.properties,
                    data,
                ) && reply_is(payload, topic, data, r),
    {
        let ghost pl = payload;
        let target = self.response_target();
        let ghost (topic, data) = choose|topic: Option<&'a str>, data: Option<&'a [u8]>|
            is_first_response_topic(self.properties, topic) && is_first_correlation_data(
                self.properties,
                data,
            ) && target == match topic {
                Some(t) => Some(ResponseTarget { topic: t, correlation_data: data }),
                None => None,
            };
        let r = match target {
            Some(target) => Some(target.publication(payload)),
            None => None,
        };
        assert(reply_is(pl, topic, data, r));
        r
    }
}

/// Whether `r` is the reply publication of `payload` for a message whose response topic is
/// `topic` and whose correlation data is `data`: none without a topic, else a QoS 0, not
/// retained publication to that topic that carries the data back.
pub open spec fn reply_is<'a, P>(
    payload: P,
    topic: Option<&'a str>,
    data: Option<&'a [u8]>,
    r: Option<Publication<'a, P>>,
) -> bool {
    match topic {
        Some(t) => (r matches Some(p) && p.topic == t && p.payload == payload && p.qos
            == QoS::AtMostOnce && p.retain == Retain::NotRetained && !p.properties.is_encoded()
            && p.properties.list() == match data {
            Some(d) => seq![Property::CorrelationData(d)],
            None => Seq::<Property<'a>>::empty(),
        }),
        None => r is None,
    }
}

/// A reply goes where `response_topic` says and carries back what `correlation_data` says:
/// with `topic` and `data` what those getters return for message `m`, and `r` what `reply`
/// returns for `payload`, there is a reply exactly when there is a topic, its topic has that
/// topic's bytes, and it carries the same correlation data bytes, or none when there is none.
pub proof fn law_reply_matches_getters<'a, P>(
    m: InboundPublish<'a>,
    payload: P,
    topic: Option<&'a str>,
    data: Option<&'a [u8]>,
    r: Option<Publication<'a, P>>,
)
    requires
        is_first_response_topic(m.properties, topic),
        is_first_correlation_data(m.properties, data),
        exists|t: Option<&'a str>, d: Option<&'a [u8]>|
            is_first_response_topic(m.properties, t) && is_first_correlation_data(m.properties, d)
                && reply_is(payload, t, d, r),
    ensures
        r is Some <==> topic is Some,
        r matches Some(p) ==> p.topic.spec_bytes() == topic->Some_0.spec_bytes() && p.payload
            == payload && p.qos == QoS::AtMostOnce && p.retain == Retain::NotRetained,
        r matches Some(p) ==> match data {
            Some(d) => p.properties.list().len() == 1 && (p.properties.list()[0] matches Property::CorrelationData(
                e,
            ) && e@ == d@),
            None => p.properties.list().len() == 0,
        },
{
    let (t, d) = choose|t: Option<&'a str>, d: Option<&'a [u8]>|
        is_first_response_topic(m.properties, t) && is_first_correlation_data(m.properties, d)
            && reply_is(payload, t, d, r);
    crate::properties::lemma_first_response_topic_unique(m.properties, t, topic);
    crate::properties::lemma_first_correlation_data_unique(m.properties, d, data);
}

/// Error of the client runner.
#[derive(Debug)]
pub enum RunnerError<Connect, Io, Time> {
    /// Establishing the connection failed.
    Connect(Connect),
    /// The session failed.
    Network(Error<Io>),
    /// The timer failed.
    Timer(Time),
    /// The runner is not in a state that allows the request.
    State,
}

impl<Connect, Io, Time> From<Error<Io>> for RunnerError<Connect, Io, Time> {
    fn from(value: Error<Io>) -> (r: Self) {
        RunnerError::Network(value)
    }
}

impl<Connect, Io, Time> vstd::std_specs::convert::FromSpecImpl<Error<Io>> for RunnerError<Connect, Io, Time> {
    open spec fn obeys_from_spec() -> bool {
        true
    }

    open spec fn from_spec(value: Error<Io>) -> Self {
        RunnerError::Network(value)
    }
}

/// Error of publishing through the client runner.
#[derive(Debug)]
pub enum RunnerPubError<Connect, Io, Time, Serialization> {
    /// The publish itself failed.
    Publish(PubError<Io, Serialization>),
    /// The runner failed.
    Runner(RunnerError<Connect, Io, Time>),
}

impl<Connect, Io, Time, Serialization> From<RunnerError<Connect, Io, Time>> for RunnerPubError<Connect, Io, Time, Serialization> {
    fn from(value: RunnerError<Connect, Io, Time>) -> (r: Self) {
        RunnerPubError::Runner(value)
    }
}

impl<Connect, Io, Time, Serialization> vstd::std_specs::convert::FromSpecImpl<RunnerError<Connect, Io, Time>> for RunnerPubError<Connect, Io, Time, Serialization> {
    open spec fn obeys_from_spec() -> bool {
        true
    }

    open spec fn from_spec(value: RunnerError<Connect, Io, Time>) -> Self {
        RunnerPubError::Runner(value)
    }
}

/// What one poll of the client runner produced.
#[derive(Debug)]
pub struct PollOutcome<'a> {
    /// A message received from the broker, if any.
    pub inbound: Option<InboundPublish<'a>>,
    /// Whether the connection was re-established.
    pub reconnected: bool,
}

} // verus!
