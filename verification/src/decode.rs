//! Decoding of MQTT v5 properties from the wire.
use crate::de::{leb_end, leb_overlong, leb_sum, str_from_utf8, utf8_valid, Error, MqttDeserializer};
use crate::properties::{
    spec_property_data, spec_property_id, spec_property_value_enc, Data, Property,
};
use crate::ser::{be16, be32, enc_prefixed, enc_then, enc_varint};
use crate::varint::{
    lemma_varint_canonical, read_mqtt_u32_varint, spec_varint_decode, VarintError,
};
use vstd::prelude::*;
use vstd::string::StringSliceAdditionalSpecFns;

verus! {

/// Big-endian value of the two bytes at the front of `t`.
pub open spec fn be16_front(t: Seq<u8>) -> nat {
    (t[0] as nat) * 256 + (t[1] as nat)
}

/// Bytes taken by a length-prefixed field at the front of `t`, or why it cannot be read;
/// `text` asks for its content to be UTF-8.
pub open spec fn spec_prefixed_field(t: Seq<u8>, text: bool) -> Result<nat, Error> {
    if t.len() < 2 {
        Err(Error::InsufficientData)
    } else if t.len() - 2 < be16_front(t) {
        Err(Error::InsufficientData)
    } else if text && !utf8_valid(t.subrange(2, (2 + be16_front(t)) as int)) {
        Err(Error::BadString)
    } else {
        Ok(2 + be16_front(t))
    }
}

/// Bytes taken by a property value of type `kind` at the front of `t`, or why it cannot be
/// read.
pub open spec fn spec_value_parse(kind: Data, t: Seq<u8>) -> Result<nat, Error> {
    match kind {
        Data::Byte => if t.len() >= 1 {
            Ok(1)
        } else {
            Err(Error::InsufficientData)
        },
        Data::TwoByteInteger => if t.len() >= 2 {
            Ok(2)
        } else {
            Err(Error::InsufficientData)
        },
        Data::FourByteInteger => if t.len() >= 4 {
            Ok(4)
        } else {
            Err(Error::InsufficientData)
        },
        Data::VariableByteInteger => match spec_varint_decode(t) {
            Ok((_, n)) => Ok(n),
            Err(VarintError::Incomplete) => Err(Error::InsufficientData),
            Err(VarintError::Invalid) => Err(Error::Custom),
        },
        Data::BinaryData => spec_prefixed_field(t, false),
        Data::UTF8EncodedString => spec_prefixed_field(t, true),
        Data::UTF8StringPair => match spec_prefixed_field(t, true) {
            Ok(n) => if n > t.len() {
                Err(Error::InsufficientData)
            } else {
                match spec_prefixed_field(t.subrange(n as int, t.len() as int), true) {
                    Ok(m) => Ok(n + m),
                    Err(e) => Err(e),
                }
            },
            Err(e) => Err(e),
        },
    }
}

/// The property at the front of `s`: its identifier, where its value starts and where it
/// ends; or why it cannot be read. An identifier is read as the `varint_rs` crate reads a
/// `u32`; one whose first five bytes all continue is refused.
pub open spec fn spec_property_parse(s: Seq<u8>) -> Result<(nat, nat, nat), Error> {
    if leb_overlong(s) {
        Err(Error::Custom)
    } else {
        match leb_end(s, 0) {
            None => Err(Error::InsufficientData),
            Some(k) => {
                let id = leb_sum(s, k) % 0x1_0000_0000;
                match spec_property_data(id) {
                    None => Err(Error::Custom),
                    Some(kind) => if k > s.len() {
                        Err(Error::InsufficientData)
                    } else {
                        match spec_value_parse(kind, s.subrange(k as int, s.len() as int)) {
                            Ok(n) => Ok((id, k, k + n)),
                            Err(e) => Err(e),
                        }
                    },
                }
            },
        }
    }
}

/// Whether `s` starts with five bytes that all have the continuation bit set, while a sixth
/// byte follows.
pub fn is_leb_overlong(s: &[u8]) -> (r: bool)
    ensures
        r == leb_overlong(s@),
{
    if s.len() < 6 {
        return false;
    }
    let mut i: usize = 0;
    while i < 5
        invariant
            i <= 5,
            s@.len() >= 6,
            forall|k: int| 0 <= k < i ==> s@[k] >= 128,
        decreases 5 - i,
    {
        if s[i] < 128 {
            return false;
        }
        i = i + 1;
    }
    true
}

/// Read a length-prefixed field from `de`.
pub(crate) fn read_prefixed<'a>(de: &mut MqttDeserializer<'a>) -> (r: Result<&'a [u8], Error>)
    ensures
        final(de).data() == old(de).data(),
        ({
            let t = old(de).rest();
            match spec_prefixed_field(t, false) {
                Ok(n) => (r matches Ok(b) && b@ == t.subrange(2, n as int) && final(de).rest()
                    == t.subrange(n as int, t.len() as int)),
                Err(e) => r == Err::<&'a [u8], Error>(e),
            }
        }),
{
    let ghost t = de.rest();
    let len = de.read_u16()?;
    let b = de.try_take_n(len as usize)?;
    assert(t.subrange(2, t.len() as int).subrange(0, len as int) =~= t.subrange(2, 2 + len));
    assert(t.subrange(2, t.len() as int).subrange(len as int, t.len() - 2) =~= t.subrange(
        2 + len,
        t.len() as int,
    ));
    Ok(b)
}

/// Read a length-prefixed UTF-8 string from `de`.
pub(crate) fn read_text<'a>(de: &mut MqttDeserializer<'a>) -> (r: Result<&'a str, Error>)
    ensures
        final(de).data() == old(de).data(),
        ({
            let t = old(de).rest();
            match spec_prefixed_field(t, true) {
                Ok(n) => (r matches Ok(b) && b.spec_bytes() == t.subrange(2, n as int)
                    && final(de).rest() == t.subrange(n as int, t.len() as int)),
                Err(e) => r == Err::<&'a str, Error>(e),
            }
        }),
{
    let bytes = read_prefixed(de)?;
    match str_from_utf8(bytes) {
        Ok(s) => Ok(s),
        Err(()) => Err(Error::BadString),
    }
}

proof fn lemma_be16_bytes(t: Seq<u8>)
    requires
        t.len() >= 2,
    ensures
        be16(be16_front(t)) == t.subrange(0, 2),
{
    let v = be16_front(t);
    let a = t[0];
    let b = t[1];
    assert((v / 256) % 256 == a && v % 256 == b) by (nonlinear_arith)
        requires
            v == (a as nat) * 256 + (b as nat),
            a < 256,
            b < 256,
    ;
    assert(be16(v) =~= t.subrange(0, 2));
}

proof fn lemma_prefixed_enc(t: Seq<u8>, text: bool)
    requires
        spec_prefixed_field(t, text) is Ok,
    ensures
        enc_prefixed(t.subrange(2, spec_prefixed_field(t, text)->Ok_0 as int)) == Ok::<
            Seq<u8>,
            Seq<u8>,
        >(t.subrange(0, spec_prefixed_field(t, text)->Ok_0 as int)),
{
    lemma_be16_bytes(t);
    let n = spec_prefixed_field(t, text)->Ok_0;
    assert(t.subrange(0, 2) + t.subrange(2, n as int) =~= t.subrange(0, n as int));
}

/// What a property value helper promises: the value of type `kind` at the front of `t` read
/// into a property with identifier `id` whose value encodes exactly as the bytes read.
pub open spec fn value_read<'a>(
    kind: Data,
    id: nat,
    t: Seq<u8>,
    r: Result<Property<'a>, Error>,
    after: Seq<u8>,
) -> bool {
    match spec_value_parse(kind, t) {
        Ok(n) => (r matches Ok(p) && spec_property_id(p) == id && spec_property_value_enc(p)
            == Ok::<Seq<u8>, Seq<u8>>(t.subrange(0, n as int)) && n <= t.len() && after
            == t.subrange(n as int, t.len() as int)),
        Err(e) => r == Err::<Property<'a>, Error>(e),
    }
}

#[verifier::rlimit(40)]
fn parse_byte_value<'a>(id: u32, de: &mut MqttDeserializer<'a>) -> (r: Result<Property<'a>, Error>)
    requires
        spec_property_data(id as nat) == Some(Data::Byte),
    ensures
        final(de).data() == old(de).data(),
        value_read(Data::Byte, id as nat, old(de).rest(), r, final(de).rest()),
{
    reveal(spec_property_value_enc);
    let ghost t = de.rest();
    let v = de.pop()?;
    assert(t.subrange(0, 1) =~= seq![v]);
    assert(de.rest() =~= t.subrange(1, t.len() as int));
    Ok(
        if id == 0x01 {
            Property::PayloadFormatIndicator(v)
        } else if id == 0x17 {
            Property::RequestProblemInformation(v)
        } else if id == 0x19 {
            Property::RequestResponseInformation(v)
        } else if id == 0x24 {
            Property::MaximumQoS(v)
        } else if id == 0x25 {
            Property::RetainAvailable(v)
        } else if id == 0x28 {
            Property::WildcardSubscriptionAvailable(v)
        } else if id == 0x29 {
            Property::SubscriptionIdentifierAvailable(v)
        } else {
            Property::SharedSubscriptionAvailable(v)
        },
    )
}

#[verifier::rlimit(40)]
fn parse_two_byte_value<'a>(id: u32, de: &mut MqttDeserializer<'a>) -> (r: Result<
    Property<'a>,
    Error,
>)
    requires
        spec_property_data(id as nat) == Some(Data::TwoByteInteger),
    ensures
        final(de).data() == old(de).data(),
        value_read(Data::TwoByteInteger, id as nat, old(de).rest(), r, final(de).rest()),
{
    reveal(spec_property_value_enc);
    let ghost t = de.rest();
    let v = de.read_u16()?;
    proof {
        lemma_be16_bytes(t);
    }
    Ok(
        if id == 0x13 {
            Property::ServerKeepAlive(v)
        } else if id == 0x21 {
            Property::ReceiveMaximum(v)
        } else if id == 0x22 {
            Property::TopicAliasMaximum(v)
        } else {
            Property::TopicAlias(v)
        },
    )
}

#[verifier::rlimit(40)]
fn parse_four_byte_value<'a>(id: u32, de: &mut MqttDeserializer<'a>) -> (r: Result<
    Property<'a>,
    Error,
>)
    requires
        spec_property_data(id as nat) == Some(Data::FourByteInteger),
    ensures
        final(de).data() == old(de).data(),
        value_read(Data::FourByteInteger, id as nat, old(de).rest(), r, final(de).rest()),
{
    reveal(spec_property_value_enc);
    let b = de.try_take_n(4)?;
    let v: u32 = (b[0] as u32) * 0x100_0000 + (b[1] as u32) * 0x1_0000 + (b[2] as u32) * 0x100
        + b[3] as u32;
    proof {
        lemma_be32_bytes(b@, v);
    }
    Ok(
        if id == 0x02 {
            Property::MessageExpiryInterval(v)
        } else if id == 0x11 {
            Property::SessionExpiryInterval(v)
        } else if id == 0x18 {
            Property::WillDelayInterval(v)
        } else {
            Property::MaximumPacketSize(v)
        },
    )
}

#[verifier::rlimit(40)]
fn parse_varint_value<'a>(id: u32, de: &mut MqttDeserializer<'a>) -> (r: Result<
    Property<'a>,
    Error,
>)
    requires
        spec_property_data(id as nat) == Some(Data::VariableByteInteger),
    ensures
        final(de).data() == old(de).data(),
        value_read(Data::VariableByteInteger, id as nat, old(de).rest(), r, final(de).rest()),
{
    reveal(spec_property_value_enc);
    let rest = de.remainder();
    match read_mqtt_u32_varint(rest) {
        Ok((v, n)) => {
            proof {
                lemma_varint_canonical(rest@);
                lemma_decode_within(rest@, 0, 0);
            }
            let _ = de.try_take_n(n)?;
            Ok(Property::SubscriptionIdentifier(v))
        },
        Err(VarintError::Incomplete) => Err(Error::InsufficientData),
        Err(VarintError::Invalid) => Err(Error::Custom),
    }
}

#[verifier::rlimit(40)]
fn parse_binary_value<'a>(id: u32, de: &mut MqttDeserializer<'a>) -> (r: Result<
    Property<'a>,
    Error,
>)
    requires
        spec_property_data(id as nat) == Some(Data::BinaryData),
    ensures
        final(de).data() == old(de).data(),
        value_read(Data::BinaryData, id as nat, old(de).rest(), r, final(de).rest()),
{
    reveal(spec_property_value_enc);
    let ghost t = de.rest();
    let b = read_prefixed(de)?;
    proof {
        lemma_prefixed_enc(t, false);
    }
    Ok(
        if id == 0x09 {
            Property::CorrelationData(b)
        } else {
            Property::AuthenticationData(b)
        },
    )
}

#[verifier::rlimit(40)]
fn parse_text_value<'a>(id: u32, de: &mut MqttDeserializer<'a>) -> (r: Result<
    Property<'a>,
    Error,
>)
    requires
        spec_property_data(id as nat) == Some(Data::UTF8EncodedString),
    ensures
        final(de).data() == old(de).data(),
        value_read(Data::UTF8EncodedString, id as nat, old(de).rest(), r, final(de).rest()),
{
    reveal(spec_property_value_enc);
    let ghost t = de.rest();
    let b = read_text(de)?;
    proof {
        lemma_prefixed_enc(t, true);
    }
    Ok(
        if id == 0x03 {
            Property::ContentType(b)
        } else if id == 0x08 {
            Property::ResponseTopic(b)
        } else if id == 0x12 {
            Property::AssignedClientIdentifier(b)
        } else if id == 0x15 {
            Property::AuthenticationMethod(b)
        } else if id == 0x1a {
            Property::ResponseInformation(b)
        } else if id == 0x1c {
            Property::ServerReference(b)
        } else {
            Property::ReasonString(b)
        },
    )
}

#[verifier::rlimit(40)]
fn parse_pair_value<'a>(id: u32, de: &mut MqttDeserializer<'a>) -> (r: Result<
    Property<'a>,
    Error,
>)
    requires
        spec_property_data(id as nat) == Some(Data::UTF8StringPair),
    ensures
        final(de).data() == old(de).data(),
        value_read(Data::UTF8StringPair, id as nat, old(de).rest(), r, final(de).rest()),
{
    reveal(spec_property_value_enc);
    let ghost t = de.rest();
    let key = read_text(de)?;
    let ghost t2 = de.rest();
    let value = read_text(de)?;
    proof {
        lemma_prefixed_enc(t, true);
        lemma_prefixed_enc(t2, true);
        let n = spec_prefixed_field(t, true)->Ok_0;
        let m = spec_prefixed_field(t2, true)->Ok_0;
        assert(t.subrange(0, n as int) + t2.subrange(0, m as int) =~= t.subrange(
            0,
            (n + m) as int,
        ));
        assert(de.rest() =~= t.subrange((n + m) as int, t.len() as int));
    }
    Ok(Property::UserProperty(key, value))
}

impl<'a> Property<'a> {
    /// Read one property from `de`: its identifier, then a value of the identifier's type.
    pub fn parse(de: &mut MqttDeserializer<'a>) -> (r: Result<Property<'a>, Error>)
        ensures
            final(de).data() == old(de).data(),
            ({
                let s = old(de).rest();
                match spec_property_parse(s) {
                    Ok((id, k, end)) => (r matches Ok(p) && spec_property_id(p) == id
                        && spec_property_value_enc(p) == Ok::<Seq<u8>, Seq<u8>>(
                        s.subrange(k as int, end as int),
                    ) && final(de).rest() == s.subrange(end as int, s.len() as int)),
                    Err(e) => r == Err::<Property<'a>, Error>(e),
                }
            }),
    {
        let ghost s = de.rest();
        if is_leb_overlong(de.remainder()) {
            return Err(Error::Custom);
        }
        let id = de.read_varint()?;
        let ghost t = de.rest();
        proof {
            crate::de::lemma_leb_end_bound(s, 0);
            let k = leb_end(s, 0)->Some_0;
            assert(t =~= s.subrange(k as int, s.len() as int));
        }
        let r = match crate::properties::property_data(id as usize) {
            Some(Data::Byte) => parse_byte_value(id, de),
            Some(Data::TwoByteInteger) => parse_two_byte_value(id, de),
            Some(Data::FourByteInteger) => parse_four_byte_value(id, de),
            Some(Data::VariableByteInteger) => parse_varint_value(id, de),
            Some(Data::BinaryData) => parse_binary_value(id, de),
            Some(Data::UTF8EncodedString) => parse_text_value(id, de),
            Some(Data::UTF8StringPair) => parse_pair_value(id, de),
            None => return Err(Error::Custom),
        };
        proof {
            let k = leb_end(s, 0)->Some_0;
            if let Ok((pid, pk, end)) = spec_property_parse(s) {
                assert(de.rest() =~= s.subrange(end as int, s.len() as int));
                assert(t.subrange(0, end - k) =~= s.subrange(k as int, end as int));
            }
        }
        r
    }
}

proof fn lemma_decode_within(s: Seq<u8>, i: nat, acc: nat)
    ensures
        crate::varint::spec_decode_from(s, i, acc) matches Ok((v, n)) ==> n <= s.len(),
    decreases 4 - i,
{
    if i < 4 && i < s.len() && s[i as int] >= 128 {
        lemma_decode_within(
            s,
            i + 1,
            acc + ((s[i as int] % 128) as nat) * crate::varint::group_weight(i),
        );
    }
}

proof fn lemma_be32_bytes(b: Seq<u8>, v: u32)
    requires
        b.len() == 4,
        v == (b[0] as int) * 0x100_0000 + (b[1] as int) * 0x1_0000 + (b[2] as int) * 0x100
            + b[3] as int,
    ensures
        be32(v as nat) == b,
{
    let x = v as nat;
    assert((x / 16777216) % 256 == b[0] && (x / 65536) % 256 == b[1] && (x / 256) % 256 == b[2]
        && x % 256 == b[3]) by (nonlinear_arith)
        requires
            x == (b[0] as nat) * 0x100_0000 + (b[1] as nat) * 0x1_0000 + (b[2] as nat) * 0x100
                + b[3] as nat,
            b[0] < 256,
            b[1] < 256,
            b[2] < 256,
            b[3] < 256,
    ;
    assert(be32(x) =~= b);
}

} // verus!

verus! {

/// The properties of an encoded block `s` from offset `pos` on, read one after the other:
/// for each, its identifier and where its value starts and ends in `s`; reading stops after
/// the first property that cannot be read.
pub open spec fn spec_block_entries(s: Seq<u8>, pos: nat) -> Seq<Result<(nat, nat, nat), Error>>
    decreases s.len() - pos,
{
    if pos >= s.len() {
        Seq::empty()
    } else {
        match spec_property_parse(s.subrange(pos as int, s.len() as int)) {
            Ok((id, k, end)) => {
                proof {
                    lemma_parse_progress(s.subrange(pos as int, s.len() as int));
                }
                seq![Ok((id, pos + k, pos + end))] + spec_block_entries(s, pos + end)
            },
            Err(e) => seq![Err(e)],
        }
    }
}

/// A property that reads takes at least its identifier's byte and stays within the bytes.
pub proof fn lemma_parse_progress(s: Seq<u8>)
    ensures
        spec_property_parse(s) matches Ok((id, k, end)) ==> 1 <= k <= end <= s.len(),
{
    crate::de::lemma_leb_end_bound(s, 0);
    if let Ok((id, k, end)) = spec_property_parse(s) {
        let t = s.subrange(k as int, s.len() as int);
        lemma_value_within(spec_property_data(id)->Some_0, t);
    }
}

proof fn lemma_value_within(kind: Data, t: Seq<u8>)
    ensures
        spec_value_parse(kind, t) matches Ok(n) ==> n <= t.len(),
{
    lemma_decode_within(t, 0, 0);
}

/// Read every property of the encoded block `data`, stopping after the first one that
/// cannot be read.
pub fn parse_block<'a>(data: &'a [u8]) -> (r: Vec<Result<Property<'a>, crate::PeerError>>)
    ensures
        r@.len() == spec_block_entries(data@, 0).len(),
        forall|i: int|
            0 <= i < r@.len() ==> match #[trigger] spec_block_entries(data@, 0)[i] {
                Ok((id, a, b)) => (r@[i] matches Ok(p) && spec_property_id(p) == id
                    && spec_property_value_enc(p) == Ok::<Seq<u8>, Seq<u8>>(
                    data@.subrange(a as int, b as int),
                )),
                Err(_) => r@[i] == Err::<Property<'a>, crate::PeerError>(
                    crate::PeerError::InvalidPacket,
                ),
            },
{
    let mut out: Vec<Result<Property<'a>, crate::PeerError>> = Vec::new();
    let mut de = MqttDeserializer::new(data);
    let ghost mut pos: nat = 0;
    while de.len() > 0
        invariant
            de.data() == data@,
            pos <= data@.len(),
            de.rest() == data@.subrange(pos as int, data@.len() as int),
            out@.len() + spec_block_entries(data@, pos).len() == spec_block_entries(data@, 0).len(),
            forall|j: int| 0 <= j < spec_block_entries(data@, pos).len() ==> spec_block_entries(data@, 0)[out@.len() + j] == #[trigger] spec_block_entries(data@, pos)[j],
            forall|i: int|
                0 <= i < out@.len() ==> match #[trigger] spec_block_entries(data@, 0)[i] {
                    Ok((id, a, b)) => (out@[i] matches Ok(p) && spec_property_id(p) == id
                        && spec_property_value_enc(p) == Ok::<Seq<u8>, Seq<u8>>(
                        data@.subrange(a as int, b as int),
                    )),
                    Err(_) => out@[i] == Err::<Property<'a>, crate::PeerError>(
                        crate::PeerError::InvalidPacket,
                    ),
                },
        decreases de.rest().len(),
    {
        let ghost rest = de.rest();
        let ghost old_len = out@.len() as int;
        proof {
            lemma_parse_progress(rest);
            if spec_block_entries(data@, pos).len() > 0 {
                assert(spec_block_entries(data@, 0)[old_len + 0] == spec_block_entries(data@, pos)[0]);
            }
        }
        match Property::parse(&mut de) {
            Ok(p) => {
                proof {
                    let (id, k, end) = spec_property_parse(rest)->Ok_0;
                    let next = pos + end;
                    assert(spec_block_entries(data@, pos) == seq![Ok::<(nat, nat, nat), Error>((id, pos + k, next))] + spec_block_entries(data@, next));
                    assert(rest.subrange(k as int, end as int) =~= data@.subrange((pos + k) as int, next as int));
                    assert(de.rest() =~= data@.subrange(next as int, data@.len() as int));
                    assert forall|j: int| 0 <= j < spec_block_entries(data@, next).len() implies spec_block_entries(data@, 0)[old_len + 1 + j] == #[trigger] spec_block_entries(data@, next)[j] by {
                        assert(spec_block_entries(data@, 0)[old_len + (j + 1)] == spec_block_entries(data@, pos)[j + 1]);
                    }
                    pos = next;
                }
                out.push(Ok(p));
            },
            Err(_) => {
                out.push(Err(crate::PeerError::InvalidPacket));
                proof {
                    assert(spec_block_entries(data@, pos).len() == 1);
                }
                return out;
            },
        }
    }
    out
}

} // verus!
