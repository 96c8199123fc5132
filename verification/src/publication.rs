//! Outbound publications and the payload writers they carry.
use crate::properties::{Properties, Property};
use crate::{QoS, Retain};
use vstd::prelude::*;
use vstd::string::StringSliceAdditionalSpecFns;

verus! {

/// A payload that writes itself into the packet buffer and reports how many bytes it wrote.
pub trait ToPayload: Sized {
    /// Payload serialization error.
    type Error;

    /// The bytes the payload writes when it succeeds.
    spec fn payload_bytes(&self) -> Seq<u8>;

    /// Whether the payload can be written into `room` bytes.
    spec fn fits(&self, room: nat) -> bool;

    /// Serialize the payload into the front of `buffer`.
    fn serialize(self, buffer: &mut [u8]) -> (r: Result<usize, Self::Error>)
        ensures
            final(buffer)@.len() == old(buffer)@.len(),
            r is Err ==> !self.fits(old(buffer)@.len()),
            r matches Ok(n) ==> n == self.payload_bytes().len() && n <= old(buffer)@.len()
                && final(buffer)@.subrange(0, n as int) == self.payload_bytes()
                && final(buffer)@.subrange(n as int, old(buffer)@.len() as int) == old(
                buffer,
            )@.subrange(n as int, old(buffer)@.len() as int),
    ;
}

impl<'p> ToPayload for &'p [u8] {
    type Error = ();

    open spec fn payload_bytes(&self) -> Seq<u8> {
        (*self)@
    }

    open spec fn fits(&self, room: nat) -> bool {
        (*self)@.len() <= room
    }

    fn serialize(self, buffer: &mut [u8]) -> (r: Result<usize, ()>)
        ensures
            r is Ok <==> self@.len() <= old(buffer)@.len(),
    {
        let n = self.len();
        if buffer.len() < n {
            return Err(());
        }
        let mut i: usize = 0;
        while i < n
            invariant
                n == self@.len(),
                n <= buffer@.len(),
                buffer@.len() == old(buffer)@.len(),
                i <= n,
                forall|k: int| 0 <= k < i ==> buffer@[k] == self@[k],
                forall|k: int| n <= k < buffer@.len() ==> buffer@[k] == old(buffer)@[k],
            decreases n - i,
        {
            buffer[i] = self[i];
            i = i + 1;
        }
        assert(buffer@.subrange(0, n as int) =~= self@);
        Ok(n)
    }
}

impl<'p> ToPayload for &'p str {
    type Error = ();

    open spec fn payload_bytes(&self) -> Seq<u8> {
        self.spec_bytes()
    }

    open spec fn fits(&self, room: nat) -> bool {
        self.spec_bytes().len() <= room
    }

    fn serialize(self, buffer: &mut [u8]) -> (r: Result<usize, ()>)
        ensures
            r is Ok <==> self.spec_bytes().len() <= old(buffer)@.len(),
    {
        self.as_bytes().serialize(buffer)
    }
}

} // verus!

verus! {

/// Builder for an outbound MQTT `PUBLISH`.
pub struct Publication<'a, P> {
    /// Topic to publish to.
    pub topic: &'a str,
    /// Publish properties.
    pub properties: Properties<'a>,
    /// Requested QoS.
    pub qos: QoS,
    /// The payload.
    pub payload: P,
    /// Retain flag.
    pub retain: Retain,
}

/// Whether `after` is `before` with the slice `ps` in place of its properties: a correlation
/// data attached before stays in front.
pub open spec fn replaced_props<'a>(before: Properties<'a>, after: Properties<'a>, ps: Seq<Property<'a>>) -> bool {
    &&& !after.is_encoded()
    &&& after.has_correlation() == before.has_correlation()
    &&& after.tail() == ps
    &&& before.has_correlation() ==> after.list() == seq![before.list()[0]] + ps
    &&& !before.has_correlation() ==> after.list() == ps
}

/// Whether `after` is `before` with correlation data `data` in front of its properties, in
/// place of any correlation data attached before.
pub open spec fn correlated_props<'a>(before: Properties<'a>, after: Properties<'a>, data: &'a [u8]) -> bool {
    &&& !after.is_encoded()
    &&& after.has_correlation()
    &&& after.tail() == before.tail()
    &&& after.list() == seq![Property::CorrelationData(data)] + before.tail()
}

/// Attaching correlation data and setting the properties commute: from any starting
/// properties `p`, correlating with `data` and then setting `ps` gives the same list as
/// setting `ps` and then correlating, the correlation data in front of `ps`.
pub proof fn law_correlate_properties_commute<'a>(
    p: Properties<'a>,
    data: &'a [u8],
    ps: Seq<Property<'a>>,
    x1: Properties<'a>,
    x2: Properties<'a>,
    y1: Properties<'a>,
    y2: Properties<'a>,
)
    requires
        correlated_props(p, x1, data),
        replaced_props(x1, x2, ps),
        replaced_props(p, y1, ps),
        correlated_props(y1, y2, data),
    ensures
        x2.list() == y2.list(),
        x2.list() == seq![Property::CorrelationData(data)] + ps,
        x2.has_correlation() && y2.has_correlation(),
{
}

/// A later slice of properties replaces an earlier one, and correlation data attached before
/// either stays.
pub proof fn law_later_properties_replace<'a>(
    p: Properties<'a>,
    ps1: Seq<Property<'a>>,
    ps2: Seq<Property<'a>>,
    a: Properties<'a>,
    b: Properties<'a>,
)
    requires
        replaced_props(p, a, ps1),
        replaced_props(a, b, ps2),
    ensures
        b.tail() == ps2,
        b.has_correlation() == p.has_correlation(),
        p.has_correlation() ==> b.list() == seq![p.list()[0]] + ps2,
        !p.has_correlation() ==> b.list() == ps2,
{
}

impl<'a, P> Publication<'a, P> {
    /// A publication with QoS 0, no retain flag, and no properties.
    pub fn new(topic: &'a str, payload: P) -> (r: Self)
        ensures
            r.topic == topic,
            r.payload == payload,
            r.qos == QoS::AtMostOnce,
            r.retain == Retain::NotRetained,
            !r.properties.is_encoded(),
            !r.properties.has_correlation(),
            r.properties.list() == Seq::<Property>::empty(),
            r.properties.tail() == Seq::<Property>::empty(),
    {
        Publication {
            payload,
            qos: QoS::AtMostOnce,
            topic,
            properties: Properties::empty(),
            retain: Retain::NotRetained,
        }
    }

    /// The property set of this publication.
    pub fn properties_ref(&self) -> (r: &Properties<'a>)
        ensures
            *r == self.properties,
    {
        &self.properties
    }

    /// The same publication with QoS `qos`.
    pub fn qos(self, qos: QoS) -> (r: Self)
        ensures
            r.qos == qos,
            r.topic == self.topic,
            r.payload == self.payload,
            r.retain == self.retain,
            r.properties == self.properties,
    {
        Publication { qos, ..self }
    }

    /// The same publication, retained.
    pub fn retain(self) -> (r: Self)
        ensures
            r.retain == Retain::Retained,
            r.topic == self.topic,
            r.payload == self.payload,
            r.qos == self.qos,
            r.properties == self.properties,
    {
        Publication { retain: Retain::Retained, ..self }
    }

    /// The same publication with `properties`, keeping any correlation data already
    /// attached.
    pub fn properties(self, properties: &'a [Property<'a>]) -> (r: Self)
        ensures
            replaced_props(self.properties, r.properties, properties@),
            r.topic == self.topic,
            r.payload == self.payload,
            r.qos == self.qos,
            r.retain == self.retain,
    {
        let Publication { topic, properties: props, qos, payload, retain } = self;
        Publication { topic, properties: props.with_properties(properties), qos, payload, retain }
    }

    /// The same publication with correlation data `data` in front of its properties.
    pub fn correlate(self, data: &'a [u8]) -> (r: Self)
        ensures
            correlated_props(self.properties, r.properties, data),
            r.topic == self.topic,
            r.payload == self.payload,
            r.qos == self.qos,
            r.retain == self.retain,
    {
        let Publication { topic, properties: props, qos, payload, retain } = self;
        Publication { topic, properties: props.with_correlation(data), qos, payload, retain }
    }
}

impl<'a> Publication<'a, &'a [u8]> {
    /// A publication of raw bytes with QoS 0, no retain flag, and no properties.
    pub fn bytes(topic: &'a str, payload: &'a [u8]) -> (r: Self)
        ensures
            r.topic == topic,
            r.payload == payload,
            r.qos == QoS::AtMostOnce,
            r.retain == Retain::NotRetained,
            !r.properties.is_encoded(),
            r.properties.list() == Seq::<Property>::empty(),
    {
        Self::new(topic, payload)
    }
}

} // verus!
