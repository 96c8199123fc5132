//! Request and response routing for embedded services over MQTT 5: which received messages
//! are requests below `<device-prefix>/rpc`, which method they address, and where their
//! correlated responses go. Applications keep request payloads, dispatch and execution.
use crate::client::{ConnectEvent, InboundPublish, Op, OpStatus};
use crate::de::{lemma_ascii_bytes, starts_with, str_strip_prefix};
use crate::error::Error;
use crate::heapless_vec::{topic_as_str, topic_bytes, topic_clone, topic_new, topic_push_str};
use crate::packets::{RetainHandling, SubscriptionOptions};
use crate::properties::{is_first_correlation_data, is_first_response_topic, Property};
use crate::publication::Publication;
use crate::reply::OwnedResponseTarget;
use crate::{QoS, ResourceError, Retain};
use vstd::prelude::*;
use vstd::string::StringSliceAdditionalSpecFns;

verus! {

/// Maximum request and response topic length retained by the service.
pub const MAX_TOPIC_LENGTH: usize = 128;

/// Maximum MQTT correlation-data length retained for a deferred response.
pub const MAX_CORRELATION_LENGTH: usize = 32;

/// Expiry applied to transient RPC responses.
pub const RESPONSE_EXPIRY_SECS: u32 = 30;

/// MQTT user-property name carrying an RPC response code.
pub const RESPONSE_CODE_PROPERTY: &'static str = "code";

/// Response code indicating successful request execution.
pub const SUCCESS_CODE: &'static str = "Ok";

const RPC_SUFFIX: &'static str = "/rpc";

const RPC_FILTER_SUFFIX: &'static str = "/#";

const SLASH: &'static str = "/";

/// An owned MQTT response destination and optional correlation data.
pub type ResponseTarget = OwnedResponseTarget;

/// Invalid service configuration.
#[derive(Clone, Copy, Debug, Eq, PartialEq, Structural)]
pub enum ConfigError {
    /// The resulting RPC subscription topic exceeds `MAX_TOPIC_LENGTH`.
    TopicTooLong,
}

/// Why an inbound RPC publication was rejected before application dispatch.
#[derive(Clone, Copy, Debug, Eq, PartialEq, Structural)]
pub enum RejectReason {
    /// RPC requests must not be retained broker state.
    Retained,
    /// The request did not provide an MQTT response topic.
    MissingResponseTopic,
    /// The response topic or correlation data exceeds fixed local storage.
    ResponseTargetTooLong,
    /// The request addressed `/rpc` without a method path.
    EmptyMethod,
}

impl RejectReason {
    /// The stable response code for this rejection.
    pub fn code(self) -> (r: &'static str)
        ensures
            r == match self {
                RejectReason::Retained => "Retained",
                RejectReason::MissingResponseTopic => "MissingResponseTopic",
                RejectReason::ResponseTargetTooLong => "ResponseTargetTooLong",
                RejectReason::EmptyMethod => "EmptyMethod",
            },
    {
        match self {
            RejectReason::Retained => "Retained",
            RejectReason::MissingResponseTopic => "MissingResponseTopic",
            RejectReason::ResponseTargetTooLong => "ResponseTargetTooLong",
            RejectReason::EmptyMethod => "EmptyMethod",
        }
    }
}

/// The bytes of "/rpc", "/#" and "/".
proof fn lemma_suffixes()
    ensures
        RPC_SUFFIX.spec_bytes() == seq![47u8, 114u8, 112u8, 99u8],
        RPC_FILTER_SUFFIX.spec_bytes() == seq![47u8, 35u8],
        SLASH.spec_bytes() == seq![47u8],
{
    reveal_strlit("/rpc");
    reveal_strlit("/#");
    reveal_strlit("/");
    assert(RPC_SUFFIX@ =~= seq!['/', 'r', 'p', 'c']);
    assert(RPC_FILTER_SUFFIX@ =~= seq!['/', '#']);
    assert(SLASH@ =~= seq!['/']);
    lemma_ascii_bytes(RPC_SUFFIX);
    lemma_ascii_bytes(RPC_FILTER_SUFFIX);
    lemma_ascii_bytes(SLASH);
    assert(RPC_SUFFIX.spec_bytes() =~= seq![47u8, 114u8, 112u8, 99u8]);
    assert(RPC_FILTER_SUFFIX.spec_bytes() =~= seq![47u8, 35u8]);
    assert(SLASH.spec_bytes() =~= seq![47u8]);
}

/// The method a topic addresses below the request topic `rpc`: the empty method for `rpc`
/// itself, the rest after `rpc/` below it, and none elsewhere.
pub open spec fn spec_rpc_method(topic: Seq<u8>, rpc: Seq<u8>) -> Option<Seq<u8>> {
    if !starts_with(topic, rpc) {
        None
    } else {
        let suffix = topic.subrange(rpc.len() as int, topic.len() as int);
        if suffix.len() == 0 {
            Some(suffix)
        } else if suffix[0] == 47u8 {
            Some(suffix.subrange(1, suffix.len() as int))
        } else {
            None
        }
    }
}

/// A valid request borrowing its method and payload from the inbound MQTT packet.
#[derive(Debug)]
pub struct Request<'a> {
    method: &'a str,
    payload: &'a [u8],
    response: ResponseTarget,
}

impl<'a> Request<'a> {
    /// The method topic suffix.
    pub closed spec fn spec_method(&self) -> &'a str {
        self.method
    }

    /// The payload.
    pub closed spec fn spec_payload(&self) -> &'a [u8] {
        self.payload
    }

    /// Where the response goes.
    pub closed spec fn spec_response(&self) -> ResponseTarget {
        self.response
    }

    /// The method topic suffix following `<device-prefix>/rpc/`.
    pub fn method(&self) -> (r: &'a str)
        ensures
            r == self.spec_method(),
    {
        self.method
    }

    /// The request payload.
    pub fn payload(&self) -> (r: &'a [u8])
        ensures
            r == self.spec_payload(),
    {
        self.payload
    }

    /// Consume the request and keep its response destination for deferred completion.
    pub fn into_response_target(self) -> (r: ResponseTarget)
        ensures
            r == self.spec_response(),
    {
        self.response
    }
}

/// A rejected request and any response destination that could safely be retained.
#[derive(Debug)]
pub struct Rejected {
    reason: RejectReason,
    response: Option<ResponseTarget>,
}

impl Rejected {
    /// The rejection reason.
    pub closed spec fn spec_reason(&self) -> RejectReason {
        self.reason
    }

    /// The response destination kept, if any.
    pub closed spec fn spec_response(&self) -> Option<ResponseTarget> {
        self.response
    }

    /// The rejection reason.
    pub fn reason(&self) -> (r: RejectReason)
        ensures
            r == self.spec_reason(),
    {
        self.reason
    }

    /// Consume the rejection and return its response destination, when available.
    pub fn into_response_target(self) -> (r: Option<ResponseTarget>)
        ensures
            r == self.spec_response(),
    {
        self.response
    }
}

/// Classification of one inbound MQTT publication.
#[derive(Debug)]
pub enum Handle<'a> {
    /// The publication is outside this service's RPC topic tree.
    Unhandled,
    /// The publication belongs to the service but is not a valid request.
    Rejected(Rejected),
    /// A valid request ready for application dispatch.
    Request(Request<'a>),
}

/// Whether `o` holds the response topic `t` and the correlation data `data`.
pub open spec fn owns_target(o: ResponseTarget, t: &str, data: Option<&[u8]>) -> bool {
    &&& o.spec_topic() == t.spec_bytes()
    &&& o.spec_correlation_data() == match data {
        Some(d) => Some(d@),
        None => None,
    }
}

/// Whether a response topic `t` with correlation data `data` fits the owned storage.
pub open spec fn target_fits(t: &str, data: Option<&[u8]>) -> bool {
    t.spec_bytes().len() <= MAX_TOPIC_LENGTH && (data matches Some(d) ==> d@.len()
        <= MAX_CORRELATION_LENGTH)
}

/// What `handle` answers for a message on `topic`, retained or not, with `payload`, whose
/// first response topic is `response` and first correlation data `data`, for a service whose
/// request topic is `rpc`.
pub open spec fn spec_handled<'a>(
    r: Handle<'a>,
    rpc: Seq<u8>,
    topic: &'a str,
    payload: &'a [u8],
    retained: bool,
    response: Option<&'a str>,
    data: Option<&'a [u8]>,
) -> bool {
    match spec_rpc_method(topic.spec_bytes(), rpc) {
        None => r is Unhandled,
        Some(method) => if retained {
            r matches Handle::Rejected(x) && x.spec_reason() == RejectReason::Retained && match response {
                Some(t) => if target_fits(t, data) {
                    x.spec_response() matches Some(o) && owns_target(o, t, data)
                } else {
                    x.spec_response() is None
                },
                None => x.spec_response() is None,
            }
        } else {
            match response {
                None => r matches Handle::Rejected(x) && x.spec_reason()
                    == RejectReason::MissingResponseTopic && x.spec_response() is None,
                Some(t) => if !target_fits(t, data) {
                    r matches Handle::Rejected(x) && x.spec_reason()
                        == RejectReason::ResponseTargetTooLong && x.spec_response() is None
                } else if method.len() == 0 {
                    r matches Handle::Rejected(x) && x.spec_reason() == RejectReason::EmptyMethod
                        && (x.spec_response() matches Some(o) && owns_target(o, t, data))
                } else {
                    r matches Handle::Request(q) && q.spec_method().spec_bytes() == method
                        && q.spec_payload() == payload && owns_target(q.spec_response(), t, data)
                }
            }
        },
    }
}

/// What one `step` of subscription startup asks of the caller.
#[derive(Clone, Copy, Debug, Eq, PartialEq, Structural)]
pub enum StepAction {
    /// The request subscription is active.
    Ready,
    /// The subscribe is in flight: keep driving the connection.
    Wait,
    /// The session that carried the subscribe was lost.
    Disconnected,
    /// Subscribe `rpc_filter()` with `subscription_options()` and hand the outcome to
    /// `subscribe_started`.
    Subscribe,
}

/// MQTT RPC topic routing and subscription state.
pub struct Service {
    rpc_topic: heapless::String<128>,
    subscribe: Option<Op>,
    ready: bool,
}

impl Service {
    /// The request topic, `<device-prefix>/rpc`.
    pub closed spec fn spec_rpc_topic(&self) -> Seq<u8> {
        topic_bytes(self.rpc_topic)
    }

    /// The subscribe in flight, if any.
    pub closed spec fn spec_subscribe(&self) -> Option<Op> {
        self.subscribe
    }

    /// Whether the request subscription is active.
    pub closed spec fn spec_ready(&self) -> bool {
        self.ready
    }

    /// The service's invariant: the subscription filter `<rpc topic>/#` fits the topic storage.
    pub closed spec fn wf(&self) -> bool {
        topic_bytes(self.rpc_topic).len() + 2 <= MAX_TOPIC_LENGTH
    }

    /// An RPC service below one device prefix; `TopicTooLong` where the subscription filter
    /// `<device_prefix>/rpc/#` would take more than `MAX_TOPIC_LENGTH` bytes.
    pub fn new(device_prefix: &str) -> (r: Result<Self, ConfigError>)
        ensures
            device_prefix.spec_bytes().len() + 6 > MAX_TOPIC_LENGTH <==> r is Err,
            r matches Ok(s) ==> s.wf() && s.spec_rpc_topic() == device_prefix.spec_bytes()
                + seq![47u8, 114u8, 112u8, 99u8] && s.spec_subscribe() is None && !s.spec_ready(),
            r matches Err(e) ==> e == ConfigError::TopicTooLong,
    {
        proof {
            lemma_suffixes();
        }
        if device_prefix.as_bytes().len() > MAX_TOPIC_LENGTH - 6 {
            return Err(ConfigError::TopicTooLong);
        }
        let mut rpc_topic = topic_new();
        if topic_push_str(&mut rpc_topic, device_prefix).is_err() {
            return Err(ConfigError::TopicTooLong);
        }
        if topic_push_str(&mut rpc_topic, RPC_SUFFIX).is_err() {
            return Err(ConfigError::TopicTooLong);
        }
        Ok(Service { rpc_topic, subscribe: None, ready: false })
    }

    /// The request topic, `<device-prefix>/rpc`.
    pub fn rpc_topic(&self) -> (r: &str)
        ensures
            r.spec_bytes() == self.spec_rpc_topic(),
    {
        topic_as_str(&self.rpc_topic)
    }

    /// Begin service startup for a newly connected or resumed MQTT session: a resumed session
    /// keeps its subscription.
    pub fn begin_connection(&mut self, event: ConnectEvent)
        ensures
            final(self).spec_rpc_topic() == old(self).spec_rpc_topic(),
            final(self).wf() == old(self).wf(),
            final(self).spec_subscribe() is None,
            final(self).spec_ready() == (event == ConnectEvent::Reconnected),
    {
        self.subscribe = None;
        self.ready = matches!(event, ConnectEvent::Reconnected);
    }

    /// Whether the request subscription is active.
    pub fn is_ready(&self) -> (r: bool)
        ensures
            r == self.spec_ready(),
    {
        self.ready
    }

    /// The subscribe in flight, whose status `step` needs.
    pub fn pending_subscribe(&self) -> (r: Option<Op>)
        ensures
            r == self.spec_subscribe(),
    {
        self.subscribe
    }

    /// One step of subscription startup, given where the subscribe in flight stands (ignored
    /// when there is none): ready once it completed, waiting while it is pending, disconnected
    /// when it was invalidated, and a new subscribe when there is none.
    pub fn step(&mut self, status: OpStatus) -> (r: StepAction)
        ensures
            final(self).spec_rpc_topic() == old(self).spec_rpc_topic(),
            final(self).wf() == old(self).wf(),
            old(self).spec_ready() ==> r == StepAction::Ready && *final(self) == *old(self),
            !old(self).spec_ready() && old(self).spec_subscribe() is Some ==> match status {
                OpStatus::Pending => r == StepAction::Wait && *final(self) == *old(self),
                OpStatus::Complete => r == StepAction::Ready && final(self).spec_ready()
                    && final(self).spec_subscribe() is None,
                OpStatus::Invalidated => r == StepAction::Disconnected && !final(self).spec_ready()
                    && final(self).spec_subscribe() is None,
            },
            !old(self).spec_ready() && old(self).spec_subscribe() is None ==> r
                == StepAction::Subscribe && *final(self) == *old(self),
    {
        if self.ready {
            return StepAction::Ready;
        }
        if self.subscribe.is_some() {
            match status {
                OpStatus::Pending => StepAction::Wait,
                OpStatus::Complete => {
                    self.subscribe = None;
                    self.ready = true;
                    StepAction::Ready
                },
                OpStatus::Invalidated => {
                    self.subscribe = None;
                    StepAction::Disconnected
                },
            }
        } else {
            StepAction::Subscribe
        }
    }

    /// Take the outcome of the subscribe that `step` asked for: a started subscribe is
    /// tracked; a session not ready, or out of in-flight space, is tried again on a later step;
    /// any other error is handed back.
    pub fn subscribe_started<E>(&mut self, outcome: Result<Op, Error<E>>) -> (r: Result<
        bool,
        Error<E>,
    >)
        ensures
            final(self).spec_rpc_topic() == old(self).spec_rpc_topic(),
            final(self).wf() == old(self).wf(),
            final(self).spec_ready() == old(self).spec_ready(),
            match outcome {
                Ok(op) => r == Ok::<bool, Error<E>>(false) && final(self).spec_subscribe() == Some(
                    op,
                ),
                Err(Error::NotReady) | Err(Error::Resource(ResourceError::InflightExhausted)) => r
                    == Ok::<bool, Error<E>>(false) && final(self).spec_subscribe()
                    == old(self).spec_subscribe(),
                Err(e) => r == Err::<bool, Error<E>>(e) && final(self).spec_subscribe() == old(
                    self,
                ).spec_subscribe(),
            },
    {
        match outcome {
            Ok(op) => {
                self.subscribe = Some(op);
                Ok(false)
            },
            Err(Error::NotReady) => Ok(false),
            Err(Error::Resource(ResourceError::InflightExhausted)) => Ok(false),
            Err(e) => Err(e),
        }
    }

    /// The subscription filter, `<device-prefix>/rpc/#`.
    pub fn rpc_filter(&self) -> (r: heapless::String<128>)
        requires
            self.wf(),
        ensures
            topic_bytes(r) == self.spec_rpc_topic() + seq![47u8, 35u8],
    {
        proof {
            lemma_suffixes();
        }
        let mut filter = topic_clone(&self.rpc_topic);
        let _ = topic_push_str(&mut filter, RPC_FILTER_SUFFIX);
        filter
    }

    /// The options of the request subscription: QoS 1, no retained messages, retain flags
    /// kept, own messages not delivered.
    pub fn subscription_options() -> (r: SubscriptionOptions)
        ensures
            r == (SubscriptionOptions {
                maximum_qos: QoS::AtLeastOnce,
                no_local: true,
                retain_as_published: true,
                retain_handling: RetainHandling::Never,
            }),
    {
        SubscriptionOptions::default().maximum_qos(QoS::AtLeastOnce).retain_behavior(
            RetainHandling::Never,
        ).retain_as_published().ignore_local_messages()
    }

    /// Classify an inbound publication and keep the response destination of valid requests.
    pub fn handle<'a>(&self, inbound: &'a InboundPublish<'a>) -> (r: Handle<'a>)
        ensures
            spec_rpc_method(inbound.topic.spec_bytes(), self.spec_rpc_topic()) is None ==> r is Unhandled,
            spec_rpc_method(inbound.topic.spec_bytes(), self.spec_rpc_topic()) is Some ==> exists|
                response: Option<&'a str>,
                data: Option<&'a [u8]>,
            |
                is_first_response_topic(inbound.properties, response)
                    && is_first_correlation_data(inbound.properties, data) && spec_handled(
                    r,
                    self.spec_rpc_topic(),
                    inbound.topic,
                    inbound.payload,
                    inbound.retain == Retain::Retained,
                    response,
                    data,
                ),
    {
        let method = match self.method(inbound.topic()) {
            Some(m) => m,
            None => return Handle::Unhandled,
        };
        let response = inbound.reply_owned();
        if inbound.retained() {
            let kept = match response {
                Ok(Some(o)) => Some(o),
                _ => None,
            };
            return Handle::Rejected(Rejected { reason: RejectReason::Retained, response: kept });
        }
        let response = match response {
            Ok(response) => response,
            Err(_) => {
                return Handle::Rejected(
                    Rejected { reason: RejectReason::ResponseTargetTooLong, response: None },
                );
            },
        };
        let response = match response {
            Some(response) => response,
            None => {
                return Handle::Rejected(
                    Rejected { reason: RejectReason::MissingResponseTopic, response: None },
                );
            },
        };
        if method.as_bytes().len() == 0 {
            return Handle::Rejected(
                Rejected { reason: RejectReason::EmptyMethod, response: Some(response) },
            );
        }
        Handle::Request(Request { method, payload: inbound.payload(), response })
    }

    /// The method that `topic` addresses below the request topic, if any.
    pub fn method<'a>(&self, topic: &'a str) -> (r: Option<&'a str>)
        ensures
            match spec_rpc_method(topic.spec_bytes(), self.spec_rpc_topic()) {
                Some(m) => r matches Some(x) && x.spec_bytes() == m,
                None => r is None,
            },
    {
        proof {
            lemma_suffixes();
        }
        let suffix = match str_strip_prefix(topic, topic_as_str(&self.rpc_topic)) {
            Some(s) => s,
            None => return None,
        };
        if suffix.as_bytes().len() == 0 {
            return Some(suffix);
        }
        let r = str_strip_prefix(suffix, SLASH);
        proof {
            let sb = suffix.spec_bytes();
            if sb.len() > 0 {
                assert(starts_with(sb, seq![47u8]) <==> sb[0] == 47u8) by {
                    if sb[0] == 47u8 {
                        assert(sb.subrange(0, 1) =~= seq![47u8]);
                    }
                    if starts_with(sb, seq![47u8]) {
                        assert(sb.subrange(0, 1)[0] == sb[0]);
                    }
                }
            }
        }
        r
    }
}

/// The properties of a response carrying `code`: it expires after `RESPONSE_EXPIRY_SECS`,
/// and `code` goes in the `RESPONSE_CODE_PROPERTY` user property.
pub fn response_properties<'b>(code: &'b str) -> (r: Vec<Property<'b>>)
    ensures
        r@ == seq![
            Property::MessageExpiryInterval(RESPONSE_EXPIRY_SECS),
            Property::UserProperty(RESPONSE_CODE_PROPERTY, code),
        ],
{
    vec![
        Property::MessageExpiryInterval(RESPONSE_EXPIRY_SECS),
        Property::UserProperty(RESPONSE_CODE_PROPERTY, code),
    ]
}

/// A transient, correlated response of `payload` to `target` with `properties` (those of
/// `response_properties`): QoS 1, not retained, the correlation data in front.
pub fn response_publication<'b, P>(
    target: &'b ResponseTarget,
    properties: &'b [Property<'b>],
    payload: P,
) -> (r: Publication<'b, P>)
    ensures
        r.topic.spec_bytes() == target.spec_topic(),
        r.payload == payload,
        r.qos == QoS::AtLeastOnce,
        r.retain == Retain::NotRetained,
        !r.properties.is_encoded(),
        r.properties.tail() == properties@,
        match target.spec_correlation_data() {
            Some(d) => r.properties.list().len() == properties@.len() + 1 && (
            r.properties.list()[0] matches Property::CorrelationData(x) && x@ == d)
                && r.properties.list().subrange(1, r.properties.list().len() as int)
                == properties@,
            None => r.properties.list() == properties@,
        },
{
    let p = target.publication(payload).properties(properties).qos(QoS::AtLeastOnce);
    proof {
        if target.spec_correlation_data() is Some {
            assert(p.properties.list().subrange(1, p.properties.list().len() as int)
                =~= properties@);
        }
    }
    p
}

} // verus!

verus! {

/// The service routes exactly the request tree: the request topic itself addresses the empty
/// method, `<rpc>/<method>` addresses `method` whatever it holds, and any other topic that
/// yields a method is one of these two.
pub proof fn law_rpc_routes_request_tree(rpc: Seq<u8>, method: Seq<u8>, topic: Seq<u8>)
    ensures
        spec_rpc_method(rpc, rpc) == Some(Seq::<u8>::empty()),
        spec_rpc_method(rpc + seq![47u8] + method, rpc) == Some(method),
        spec_rpc_method(topic, rpc) matches Some(m) ==> topic == rpc || topic == rpc + seq![47u8]
            + m,
{
    assert(rpc.subrange(0, rpc.len() as int) =~= rpc);
    assert(rpc.subrange(rpc.len() as int, rpc.len() as int) =~= Seq::<u8>::empty());
    let t = rpc + seq![47u8] + method;
    assert(t.subrange(0, rpc.len() as int) =~= rpc);
    let suffix = t.subrange(rpc.len() as int, t.len() as int);
    assert(suffix =~= seq![47u8] + method);
    assert(suffix.subrange(1, suffix.len() as int) =~= method);
    if spec_rpc_method(topic, rpc) is Some {
        let rest = topic.subrange(rpc.len() as int, topic.len() as int);
        assert(topic =~= topic.subrange(0, rpc.len() as int) + rest);
        if rest.len() > 0 {
            assert(rest =~= seq![rest[0]] + rest.subrange(1, rest.len() as int));
        }
    }
}

} // verus!
