//! Replies to received messages: where a reply goes and what it carries back.
use crate::heapless_vec::{
    correlation_bytes, correlation_slice, correlation_try_from, topic_as_str, topic_bytes,
    topic_try_from,
};
use crate::properties::Property;
use crate::publication::Publication;
use crate::ProtocolError;
use vstd::prelude::*;
use vstd::string::StringSliceAdditionalSpecFns;

verus! {

/// The first response topic in `s`.
pub open spec fn first_response_topic<'a>(s: Seq<Property<'a>>) -> Option<&'a str>
    decreases s.len(),
{
    if s.len() == 0 {
        None
    } else {
        match s[0] {
            Property::ResponseTopic(t) => Some(t),
            _ => first_response_topic(s.drop_first()),
        }
    }
}

/// The first correlation data in `s`.
pub open spec fn first_correlation_data<'a>(s: Seq<Property<'a>>) -> Option<&'a [u8]>
    decreases s.len(),
{
    if s.len() == 0 {
        None
    } else {
        match s[0] {
            Property::CorrelationData(d) => Some(d),
            _ => first_correlation_data(s.drop_first()),
        }
    }
}

/// Where a reply to a received message goes, and the correlation data it carries back.
#[derive(Debug, Copy, Clone, PartialEq, Eq)]
pub struct ResponseTarget<'a> {
    /// The response topic of the received message.
    pub topic: &'a str,
    /// The correlation data of the received message, if any.
    pub correlation_data: Option<&'a [u8]>,
}

impl<'a> ResponseTarget<'a> {
    /// A publication of `payload` to the response topic, carrying the correlation data.
    pub fn publication<P>(self, payload: P) -> (r: Publication<'a, P>)
        ensures
            r.topic == self.topic,
            r.payload == payload,
            r.qos == crate::QoS::AtMostOnce,
            r.retain == crate::Retain::NotRetained,
            !r.properties.is_encoded(),
            r.properties.has_correlation() == self.correlation_data is Some,
            r.properties.list() == match self.correlation_data {
                Some(d) => seq![Property::CorrelationData(d)],
                None => Seq::<Property<'a>>::empty(),
            },
    {
        let publication = Publication::new(self.topic, payload);
        match self.correlation_data {
            Some(data) => {
                let r = publication.correlate(data);
                assert(r.properties.list() =~= seq![Property::CorrelationData(data)]);
                r
            },
            None => publication,
        }
    }
}

/// Used to specify information about replies to received MQTT messages.
pub struct ReplyOptions<'a> {
    response_topic: Option<&'a str>,
    correlation_data: Option<&'a [u8]>,
    ignore_missing_response: bool,
}

impl<'a> ReplyOptions<'a> {
    /// The topic replies go to.
    pub closed spec fn spec_response_topic(&self) -> Option<&'a str> {
        self.response_topic
    }

    /// The correlation data replies carry back.
    pub closed spec fn spec_correlation_data(&self) -> Option<&'a [u8]> {
        self.correlation_data
    }

    /// Whether a reply without a response topic is dropped silently.
    pub closed spec fn spec_ignore_missing(&self) -> bool {
        self.ignore_missing_response
    }

    /// Options for a reply to a message with `properties`: its first `ResponseTopic` and its
    /// first `CorrelationData`.
    pub fn new(properties: &[Property<'a>]) -> (r: Self)
        ensures
            r.spec_response_topic() == first_response_topic(properties@),
            r.spec_correlation_data() == first_correlation_data(properties@),
            !r.spec_ignore_missing(),
    {
        let mut response_topic: Option<&'a str> = None;
        let mut correlation_data: Option<&'a [u8]> = None;
        let n = properties.len();
        let mut i: usize = n;
        while i > 0
            invariant
                i <= n,
                n == properties@.len(),
                response_topic == first_response_topic(properties@.subrange(i as int, n as int)),
                correlation_data == first_correlation_data(
                    properties@.subrange(i as int, n as int),
                ),
            decreases i,
        {
            let ghost tail = properties@.subrange(i as int, n as int);
            i = i - 1;
            let ghost s = properties@.subrange(i as int, n as int);
            assert(s.drop_first() =~= tail);
            match properties[i] {
                Property::ResponseTopic(t) => {
                    response_topic = Some(t);
                },
                Property::CorrelationData(d) => {
                    correlation_data = Some(d);
                },
                _ => {},
            }
        }
        assert(properties@.subrange(0, n as int) =~= properties@);
        ReplyOptions { response_topic, correlation_data, ignore_missing_response: false }
    }

    /// The same options, dropping a reply silently when no response topic is known.
    pub fn ignore_missing_response_topic(self) -> (r: Self)
        ensures
            r.spec_ignore_missing(),
            r.spec_response_topic() == self.spec_response_topic(),
            r.spec_correlation_data() == self.spec_correlation_data(),
    {
        ReplyOptions { ignore_missing_response: true, ..self }
    }

    /// The same options with `topic` as the response topic when none was found.
    pub fn default_response_topic(self, topic: &'a str) -> (r: Self)
        ensures
            r.spec_response_topic() == match self.spec_response_topic() {
                Some(t) => Some(t),
                None => Some(topic),
            },
            r.spec_correlation_data() == self.spec_correlation_data(),
            r.spec_ignore_missing() == self.spec_ignore_missing(),
    {
        let response_topic = match self.response_topic {
            Some(t) => Some(t),
            None => Some(topic),
        };
        ReplyOptions { response_topic, ..self }
    }

    /// The topic replies go to, if known.
    pub fn response_topic(&self) -> (r: Option<&'a str>)
        ensures
            r == self.spec_response_topic(),
    {
        self.response_topic
    }

    /// The correlation data replies carry back, if any.
    pub fn correlation_data(&self) -> (r: Option<&'a [u8]>)
        ensures
            r == self.spec_correlation_data(),
    {
        self.correlation_data
    }

    /// Whether a reply without a response topic is dropped silently.
    pub fn ignores_missing_response_topic(&self) -> (r: bool)
        ensures
            r == self.spec_ignore_missing(),
    {
        self.ignore_missing_response
    }
}

impl<'a> ResponseTarget<'a> {
    /// Copy the target into owned storage: `BufferSize` where the topic takes more than 128
    /// bytes or the correlation data more than 32.
    pub fn to_owned(self) -> (r: Result<OwnedResponseTarget, ProtocolError>)
        ensures
            ({
                let fits = self.topic.spec_bytes().len() <= 128 && (self.correlation_data matches Some(
                    d,
                ) ==> d@.len() <= 32);
                &&& fits ==> (r matches Ok(o) && o.spec_topic() == self.topic.spec_bytes()
                    && o.spec_correlation_data() == match self.correlation_data {
                    Some(d) => Some(d@),
                    None => None,
                })
                &&& !fits ==> r == Err::<OwnedResponseTarget, ProtocolError>(
                    ProtocolError::BufferSize,
                )
            }),
    {
        let topic = match topic_try_from(self.topic) {
            Ok(t) => t,
            Err(_) => return Err(ProtocolError::BufferSize),
        };
        let correlation_data = match self.correlation_data {
            Some(d) => match correlation_try_from(d) {
                Ok(v) => Some(v),
                Err(_) => return Err(ProtocolError::BufferSize),
            },
            None => None,
        };
        Ok(OwnedResponseTarget { topic, correlation_data })
    }
}

/// A response target copied out of a received message, so that a reply can be sent after
/// the message is gone: a topic of at most 128 bytes and correlation data of at most 32.
#[derive(Debug)]
pub struct OwnedResponseTarget {
    topic: heapless::String<128>,
    correlation_data: Option<heapless::Vec<u8, 32>>,
}

impl OwnedResponseTarget {
    /// The bytes of the response topic.
    pub closed spec fn spec_topic(&self) -> Seq<u8> {
        topic_bytes(self.topic)
    }

    /// The correlation data, if any.
    pub closed spec fn spec_correlation_data(&self) -> Option<Seq<u8>> {
        match self.correlation_data {
            Some(v) => Some(correlation_bytes(v)),
            None => None,
        }
    }

    /// The response topic.
    pub fn topic(&self) -> (r: &str)
        ensures
            r.spec_bytes() == self.spec_topic(),
    {
        topic_as_str(&self.topic)
    }

    /// The correlation data, if present.
    pub fn correlation_data(&self) -> (r: Option<&[u8]>)
        ensures
            match self.spec_correlation_data() {
                Some(d) => r matches Some(x) && x@ == d,
                None => r is None,
            },
    {
        match &self.correlation_data {
            Some(v) => Some(correlation_slice(v)),
            None => None,
        }
    }

    /// A publication of `payload` to this target, carrying the correlation data.
    pub fn publication<'b, P>(&'b self, payload: P) -> (r: Publication<'b, P>)
        ensures
            r.topic.spec_bytes() == self.spec_topic(),
            r.payload == payload,
            r.qos == crate::QoS::AtMostOnce,
            r.retain == crate::Retain::NotRetained,
            !r.properties.is_encoded(),
            r.properties.has_correlation() == self.spec_correlation_data() is Some,
            match self.spec_correlation_data() {
                Some(d) => r.properties.list().len() == 1 && (r.properties.list()[0] matches Property::CorrelationData(x) && x@ == d),
                None => r.properties.list() == Seq::<Property<'b>>::empty(),
            },
    {
        let target = ResponseTarget { topic: self.topic(), correlation_data: self.correlation_data() };
        target.publication(payload)
    }
}

} // verus!
