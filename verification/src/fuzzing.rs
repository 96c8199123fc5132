//! Entry points that exercise the packet reader and encoders on arbitrary input; each is
//! verified to stay within its buffers and never panic, whatever it is given.
use crate::de::{lemma_probe_extend, spec_probe, PacketReader};
use crate::packets::{
    spec_filters_enc, spec_topics_enc, Connect, Disconnect, PingReq, PubAck, PubComp, PubRec,
    PubRel, PublishHeader, Reason, Subscribe, SubscriptionOptions, TopicFilter, Unsubscribe,
    spec_connect_flags,
};
use crate::properties::{spec_props_enc, spec_props_size, spec_property_size, Properties, Property};
use crate::publication::Publication;
use crate::reason_codes::{spec_reason_code_from, spec_reason_code_value, ReasonCode};
use crate::received::ReceivedPacket;
use crate::ser::{
    be16, enc_prefixed, enc_then, enc_varint, spec_body_result, spec_encode, spec_finalize,
    spec_header_byte, keeps_outside, ControlPacket, Enc, Error, MqttSerializer, MAX_FIXED_HEADER_SIZE,
};
use crate::wire::{MessageType, Utf8String};
use crate::{qos_level, ProtocolError, QoS, Retain};
use vstd::prelude::*;
use vstd::string::StringSliceAdditionalSpecFns;

verus! {

/// Parse one inbound packet buffer.
pub fn parse_received_packet(buf: &[u8]) {
    let _ = ReceivedPacket::from_buffer(buf);
}

/// Copy the first `count` bytes of `src` from `offset` into `window`.
fn fill_window(window: &mut [u8], src: &[u8], offset: usize, count: usize)
    requires
        count <= old(window)@.len(),
        offset + count <= src@.len(),
    ensures
        final(window)@.len() == old(window)@.len(),
        final(window)@.subrange(0, count as int) == src@.subrange(offset as int, offset + count),
        final(window)@.subrange(count as int, old(window)@.len() as int) == old(window)@.subrange(
            count as int,
            old(window)@.len() as int,
        ),
        forall|k: int| 0 <= k < count ==> #[trigger] final(window)@[k] == src@[offset + k],
        forall|k: int|
            count <= k < old(window)@.len() ==> #[trigger] final(window)@[k] == old(window)@[k],
{
    let ghost before = window@;
    let _ = src.len();
    let mut i: usize = 0;
    while i < count
        invariant
            i <= count,
            count <= before.len(),
            offset + count <= src@.len(),
            src@.len() <= usize::MAX,
            window@.len() == before.len(),
            forall|k: int| 0 <= k < i ==> #[trigger] window@[k] == src@[offset + k],
            forall|k: int| i <= k < before.len() ==> #[trigger] window@[k] == before[k],
        decreases count - i,
    {
        window[i] = src[offset + i];
        i = i + 1;
    }
    assert(window@.subrange(0, count as int) =~= src@.subrange(offset as int, offset + count));
    assert(window@.subrange(count as int, before.len() as int) =~= before.subrange(
        count as int,
        before.len() as int,
    ));
}

/// Whether a reader over storage of `capacity` bytes that has received `seen` takes no more:
/// the header is bad, the packet does not fit or is complete (or shorter than what came),
/// or the storage is full without a complete header.
pub open spec fn spec_reader_stops(seen: Seq<u8>, capacity: nat) -> bool {
    match spec_probe(seen) {
        Err(_) => true,
        Ok(Some(n)) => n > capacity || n <= seen.len(),
        Ok(None) => seen.len() >= capacity,
    }
}

/// Whether `r` is how many bytes of `input` a reader over `capacity` bytes takes: the first
/// count at which the input runs out or the reader stops.
pub open spec fn spec_taken(input: Seq<u8>, capacity: nat, r: nat) -> bool {
    &&& r <= input.len()
    &&& r == input.len() || spec_reader_stops(input.subrange(0, r as int), capacity)
    &&& forall|k: int|
        0 <= k < r ==> !spec_reader_stops(#[trigger] input.subrange(0, k), capacity)
}

/// Drive a `PacketReader` over `storage` with `input`, handing it over in fragments whose
/// sizes `fragments` gives (1 once they run out, at least 1 each); every completed packet is
/// parsed. Returns how many input bytes the reader took: the storage then begins with them
/// and keeps the rest of what it held.
pub fn drive_packet_reader(storage: &mut [u8], input: &[u8], fragments: &[u8]) -> (r: usize)
    ensures
        spec_taken(input@, old(storage)@.len(), r as nat),
        r <= input@.len(),
        r <= old(storage)@.len(),
        final(storage)@.len() == old(storage)@.len(),
        final(storage)@.subrange(0, r as int) == input@.subrange(0, r as int),
        final(storage)@.subrange(r as int, old(storage)@.len() as int) == old(storage)@.subrange(
            r as int,
            old(storage)@.len() as int,
        ),
{
    let mut reader = PacketReader::new(storage);
    proof {
        assert(reader.storage().subrange(0, 0) =~= input@.subrange(0, 0));
        assert(reader.storage().subrange(0, reader.capacity() as int) =~= reader.storage());
    }
    let taken = feed_reader(&mut reader, input, fragments);
    reader.release();
    taken
}

/// The loop of `drive_packet_reader`, on a reader that has received nothing yet.
fn feed_reader(reader: &mut PacketReader, input: &[u8], fragments: &[u8]) -> (r: usize)
    requires
        old(reader).wf(),
        old(reader).received() == 0,
        old(reader).packet_len() is None,
        old(reader).capacity() == old(reader).storage().len(),
    ensures
        final(reader).wf(),
        final(final(reader).buffer())@ == final(old(reader).buffer())@,
        spec_taken(input@, old(reader).capacity(), r as nat),
        r <= input@.len(),
        r <= old(reader).capacity(),
        final(reader).storage().len() == old(reader).storage().len(),
        final(reader).storage().subrange(0, r as int) == input@.subrange(0, r as int),
        final(reader).storage().subrange(r as int, old(reader).capacity() as int) == old(
            reader,
        ).storage().subrange(r as int, old(reader).capacity() as int),
{
    let ghost initial = reader.storage();
    let input_len = input.len();
    let mut offset: usize = 0;
    let mut fragment_index: usize = 0;
    proof {
        assert(initial.subrange(0, 0) =~= input@.subrange(0, 0));
        assert(initial.subrange(0, initial.len() as int) =~= initial);
    }
    loop
        invariant_except_break
            reader.packet_len() matches Some(n) ==> n <= initial.len() && offset <= n
                && spec_probe(input@.subrange(0, offset as int)) == Ok::<
                Option<nat>,
                ProtocolError,
            >(Some(n)),
        invariant
            reader.wf(),
            input_len == input@.len(),
            offset <= input@.len(),
            offset <= initial.len(),
            reader.received() == offset,
            reader.capacity() == initial.len(),
            reader.storage().len() == initial.len(),
            reader.storage().subrange(0, offset as int) == input@.subrange(0, offset as int),
            reader.storage().subrange(offset as int, initial.len() as int) == initial.subrange(
                offset as int,
                initial.len() as int,
            ),
            final(reader.buffer())@ == final(old(reader).buffer())@,
            forall|k: int|
                0 <= k < offset ==> !spec_reader_stops(
                    #[trigger] input@.subrange(0, k),
                    initial.len(),
                ),
        ensures
            offset == input@.len() || spec_reader_stops(
                input@.subrange(0, offset as int),
                initial.len(),
            ),
        decreases input@.len() - offset,
    {
        let ghost before = reader.storage();
        let ghost pl = reader.packet_len();
        let ghost seen = input@.subrange(0, offset as int);
        proof {
            assert(before.subrange(0, offset as int) == seen);
        }
        let window = match reader.receive_buffer() {
            Ok(w) => w,
            Err(_) => break,
        };
        if window.len() == 0 || offset >= input_len {
            break;
        }
        proof {
            assert(!spec_reader_stops(seen, initial.len()));
        }
        let requested: usize = if fragment_index < fragments.len() {
            fragments[fragment_index] as usize
        } else {
            1
        };
        fragment_index = fragment_index.saturating_add(1);
        let mut count: usize = if requested < 1 {
            1
        } else {
            requested
        };
        if count > window.len() {
            count = window.len();
        }
        if count > input_len - offset {
            count = input_len - offset;
        }
        let ghost w_before = window@;
        fill_window(window, input, offset, count);
        proof {
            let end = reader.window_end();
            assert(w_before.len() == end - offset);
            let after = reader.storage();
            assert(after == before.subrange(0, offset as int) + window@ + before.subrange(
                end as int,
                initial.len() as int,
            ));
            assert(after.subrange(0, (offset + count) as int) =~= input@.subrange(
                0,
                (offset + count) as int,
            )) by {
                assert forall|k: int| 0 <= k < offset + count implies after[k] == input@[k] by {
                    if k < offset {
                        assert(before.subrange(0, offset as int)[k] == before[k]);
                        assert(input@.subrange(0, offset as int)[k] == input@[k]);
                    } else {
                        assert(window@[k - offset] == input@[offset + (k - offset)]);
                    }
                }
            }
            assert(after.subrange((offset + count) as int, initial.len() as int) =~= initial.subrange(
                (offset + count) as int,
                initial.len() as int,
            )) by {
                assert forall|k: int| offset + count <= k < initial.len() implies after[k]
                    == initial[k] by {
                    if k < end {
                        assert(window@[k - offset] == w_before[k - offset]);
                        assert(before.subrange(offset as int, initial.len() as int)[k - offset]
                            == before[k]);
                        assert(initial.subrange(offset as int, initial.len() as int)[k - offset]
                            == initial[k]);
                    } else {
                        assert(before.subrange(end as int, initial.len() as int)[k - end]
                            == before[k]);
                        assert(before.subrange(offset as int, initial.len() as int)[k - offset]
                            == before[k]);
                        assert(initial.subrange(offset as int, initial.len() as int)[k - offset]
                            == initial[k]);
                    }
                }
            }
        }
        proof {
            let q = input@.subrange(0, (offset + count) as int);
            if let Some(n) = reader.packet_len() {
                assert forall|k: int| offset < k <= offset + count implies spec_probe(
                    #[trigger] input@.subrange(0, k),
                ) == spec_probe(seen) by {
                    assert(input@.subrange(0, k).subrange(0, offset as int) =~= seen);
                    lemma_probe_extend(seen, input@.subrange(0, k));
                }
                assert(spec_probe(q) == spec_probe(seen));
            }
            assert forall|k: int| 0 <= k < offset + count implies !spec_reader_stops(
                #[trigger] input@.subrange(0, k),
                initial.len(),
            ) by {
                if k > offset {
                    assert(spec_probe(input@.subrange(0, k)) == spec_probe(seen));
                }
            }
        }
        reader.commit(count);
        offset = offset + count;
        if reader.packet_available() {
            let _ = reader.received_packet();
        }
    }
    offset
}

/// The QoS that a fuzz byte selects from its low two bits.
pub open spec fn spec_fuzz_qos(qos: u8) -> QoS {
    if qos & 3 == 0 {
        QoS::AtMostOnce
    } else if qos & 3 == 1 {
        QoS::AtLeastOnce
    } else {
        QoS::ExactlyOnce
    }
}

fn fuzz_qos(qos: u8) -> (r: QoS)
    ensures
        r == spec_fuzz_qos(qos),
{
    let low = qos & 3;
    if low == 0 {
        QoS::AtMostOnce
    } else if low == 1 {
        QoS::AtLeastOnce
    } else {
        QoS::ExactlyOnce
    }
}

/// Publish properties chosen by the low two bits of `sel`.
pub open spec fn spec_publish_properties(sel: u8) -> Seq<Property<'static>> {
    if sel & 3 == 0 {
        Seq::empty()
    } else if sel & 3 == 1 {
        seq![Property::ResponseTopic("r")]
    } else if sel & 3 == 2 {
        seq![Property::UserProperty("k", "v")]
    } else {
        seq![Property::ContentType("t")]
    }
}

/// Subscribe properties chosen by the low bit of `sel`.
pub open spec fn spec_subscribe_properties(sel: u8) -> Seq<Property<'static>> {
    if sel & 1 == 0 {
        Seq::empty()
    } else {
        seq![Property::SubscriptionIdentifier(1)]
    }
}

/// Unsubscribe properties chosen by the low bit of `sel`.
pub open spec fn spec_generic_properties(sel: u8) -> Seq<Property<'static>> {
    if sel & 1 == 0 {
        Seq::empty()
    } else {
        seq![Property::UserProperty("a", "b")]
    }
}

/// Connect properties chosen by the low two bits of `sel`.
pub open spec fn spec_connect_properties(sel: u8) -> Seq<Property<'static>> {
    if sel & 3 == 0 {
        Seq::empty()
    } else if sel & 3 == 1 {
        seq![Property::SessionExpiryInterval(1)]
    } else {
        seq![
            Property::ReceiveMaximum(2),
            Property::MaximumPacketSize(32),
            Property::RequestProblemInformation(1),
        ]
    }
}

/// Acknowledgement properties chosen by bits 4 and 5 of `sel`: none, a reason string, or a
/// user property.
pub open spec fn spec_reason_properties(sel: u8) -> Option<Seq<Property<'static>>> {
    if (sel >> 4u8) & 3 == 0 {
        None
    } else if (sel >> 4u8) & 3 == 1 {
        Some(seq![Property::ReasonString("r")])
    } else {
        Some(seq![Property::UserProperty("x", "y")])
    }
}

/// Encoding of a property block holding `list`.
pub open spec fn spec_block_enc(list: Seq<Property>) -> Enc {
    enc_then(enc_varint((spec_props_size(list) as u32) as nat), spec_props_enc(list))
}

/// Encoding of an acknowledgement with packet identifier 1 and the reason that `sel` picks:
/// the reason code `sel` stands for, and the properties its bits 4 and 5 pick.
pub open spec fn spec_ack_fields(sel: u8) -> Enc {
    enc_then(
        Ok(be16(1)),
        enc_then(
            Ok(seq![spec_reason_code_value(spec_reason_code_from(sel))]),
            match spec_reason_properties(sel) {
                None => Ok(Seq::empty()),
                Some(list) => spec_block_enc(list),
            },
        ),
    )
}

/// The property list of the publish shape: those `aux` picks, behind correlation data `id`
/// when bit 2 of `aux` is set.
pub open spec fn spec_publish_list<'a>(aux: u8, id: &'a [u8]) -> Seq<Property<'a>> {
    if aux & 4 != 0 {
        seq![Property::CorrelationData(id)] + spec_publish_properties(aux)
    } else {
        spec_publish_properties(aux)
    }
}

/// Variable header of the publish shape.
pub open spec fn spec_publish_fields(topic: &str, qos: u8, list: Seq<Property>) -> Enc {
    enc_then(
        enc_prefixed(topic.spec_bytes()),
        enc_then(
            if spec_fuzz_qos(qos) == QoS::AtMostOnce {
                Ok(Seq::empty())
            } else {
                Ok(be16(1))
            },
            spec_block_enc(list),
        ),
    )
}

/// Fixed-header flags of the publish shape.
pub open spec fn spec_publish_flags(qos: u8, retain: bool) -> u8 {
    (qos_level(spec_fuzz_qos(qos)) as nat * 2 + (if retain {
        1nat
    } else {
        0
    })) as u8
}

/// Outcome of encoding a control packet: its offset and bytes in the buffer, when it fits.
pub open spec fn spec_written_control(cap: nat, e: Enc, t: MessageType, flags: u8) -> Option<
    (nat, Seq<u8>),
> {
    match spec_encode(cap, e, t, flags) {
        Ok(x) => Some(x),
        Err(_) => None,
    }
}

/// The packet that `encode_packet` writes into a buffer of `cap` bytes, at which offset, or
/// `None` where it does not fit or cannot be encoded. `id` holds the correlation data "id".
pub open spec fn spec_fuzz_packet(
    cap: nat,
    tag: u8,
    topic: &str,
    payload: Seq<u8>,
    qos: u8,
    retain: bool,
    aux: u8,
    id: &[u8],
) -> Option<(nat, Seq<u8>)> {
    spec_fuzz_shape(cap, tag % 10, topic, payload, qos, retain, aux, id)
}

/// `spec_fuzz_packet` by shape: 0 ping, 1 publish, 2 subscribe, 3 unsubscribe, 4 connect,
/// 5 to 8 the acknowledgements, and disconnect for the rest.
pub open spec fn spec_fuzz_shape(
    cap: nat,
    shape: u8,
    topic: &str,
    payload: Seq<u8>,
    qos: u8,
    retain: bool,
    aux: u8,
    id: &[u8],
) -> Option<(nat, Seq<u8>)> {
    if shape == 0 {
        spec_written_control(cap, Ok(Seq::empty()), MessageType::PingReq, 0)
    } else if shape == 1 {
        match spec_body_result(cap, spec_publish_fields(topic, qos, spec_publish_list(aux, id))) {
            Ok(body) => if payload.len() <= crate::packets::spec_payload_room(cap, body) {
                match spec_finalize(
                    cap,
                    body + payload,
                    spec_header_byte(MessageType::Publish, spec_publish_flags(qos, retain)),
                ) {
                    Ok(x) => Some(x),
                    Err(_) => None,
                }
            } else {
                None
            },
            Err(_) => None,
        }
    } else if shape == 2 {
        spec_written_control(
            cap,
            enc_then(
                Ok(be16(1)),
                enc_then(
                    spec_block_enc(spec_subscribe_properties(aux)),
                    spec_filters_enc(
                        seq![TopicFilter { topic, options: SubscriptionOptions::default_spec() }],
                    ),
                ),
            ),
            MessageType::Subscribe,
            if retain {
                0b1010
            } else {
                0b0010
            },
        )
    } else if shape == 3 {
        spec_written_control(
            cap,
            enc_then(
                Ok(be16(1)),
                enc_then(
                    spec_block_enc(spec_generic_properties(aux)),
                    spec_topics_enc(seq![topic]),
                ),
            ),
            MessageType::Unsubscribe,
            if retain {
                0b1010
            } else {
                0b0010
            },
        )
    } else if shape == 4 {
        spec_written_control(
            cap,
            enc_then(
                enc_prefixed(seq![77u8, 81u8, 84u8, 84u8]),
                enc_then(
                    Ok(seq![5u8, spec_connect_flags(retain, None, false)] + be16(aux as nat)),
                    enc_then(
                        spec_block_enc(spec_connect_properties(aux >> 4u8)),
                        enc_then(
                            enc_prefixed(topic.spec_bytes()),
                            enc_then(Ok(Seq::empty()), Ok(Seq::empty())),
                        ),
                    ),
                ),
            ),
            MessageType::Connect,
            0,
        )
    } else if shape == 5 {
        spec_written_control(cap, spec_ack_fields(aux), MessageType::PubRel, 0b0010)
    } else if shape == 6 {
        spec_written_control(cap, spec_ack_fields(aux), MessageType::PubAck, 0)
    } else if shape == 7 {
        spec_written_control(cap, spec_ack_fields(aux), MessageType::PubRec, 0)
    } else if shape == 8 {
        spec_written_control(cap, spec_ack_fields(aux), MessageType::PubComp, 0)
    } else {
        spec_written_control(cap, Ok(Seq::empty()), MessageType::Disconnect, 0)
    }
}

/// Whether `after`, what a buffer holding `before` holds after an encoding attempt, is as long
/// as `before`, holds the packet of `outcome` at its offset and every other byte of `before`,
/// and is `before` itself when `before` is too short for a fixed header.
pub open spec fn spec_holds_packet(
    before: Seq<u8>,
    after: Seq<u8>,
    outcome: Option<(nat, Seq<u8>)>,
) -> bool {
    &&& after.len() == before.len()
    &&& before.len() < MAX_FIXED_HEADER_SIZE ==> after == before
    &&& match outcome {
        Some((offset, bytes)) => {
            &&& offset + bytes.len() <= after.len()
            &&& after.subrange(offset as int, (offset + bytes.len()) as int) == bytes
            &&& keeps_outside(before, after, offset as int, (offset + bytes.len()) as int)
        },
        None => true,
    }
}


/// A one-character ASCII string is one byte long.
proof fn lemma_one_ascii_char(s: &str, c: char)
    requires
        s@ == seq![c],
        c <= '\u{7f}',
    ensures
        s.spec_bytes().len() == 1,
{
    broadcast use vstd::string::is_ascii_spec_bytes;

    assert(vstd::string::is_ascii(s));
}

/// The strings that the fuzz property lists use are one byte each.
proof fn lemma_fuzz_strings()
    ensures
        "r".spec_bytes().len() == 1,
        "k".spec_bytes().len() == 1,
        "v".spec_bytes().len() == 1,
        "t".spec_bytes().len() == 1,
        "a".spec_bytes().len() == 1,
        "b".spec_bytes().len() == 1,
        "x".spec_bytes().len() == 1,
        "y".spec_bytes().len() == 1,
{
    reveal_strlit("r");
    reveal_strlit("k");
    reveal_strlit("v");
    reveal_strlit("t");
    reveal_strlit("a");
    reveal_strlit("b");
    reveal_strlit("x");
    reveal_strlit("y");
    assert("r"@ =~= seq!['r']);
    lemma_one_ascii_char("r", 'r');
    assert("k"@ =~= seq!['k']);
    lemma_one_ascii_char("k", 'k');
    assert("v"@ =~= seq!['v']);
    lemma_one_ascii_char("v", 'v');
    assert("t"@ =~= seq!['t']);
    lemma_one_ascii_char("t", 't');
    assert("a"@ =~= seq!['a']);
    lemma_one_ascii_char("a", 'a');
    assert("b"@ =~= seq!['b']);
    lemma_one_ascii_char("b", 'b');
    assert("x"@ =~= seq!['x']);
    lemma_one_ascii_char("x", 'x');
    assert("y"@ =~= seq!['y']);
    lemma_one_ascii_char("y", 'y');
}

/// A list of at most three properties of at most 16 bytes each has a small encoded size.
proof fn lemma_small_list(list: Seq<Property>)
    requires
        list.len() <= 3,
        forall|i: int| 0 <= i < list.len() ==> spec_property_size(#[trigger] list[i]) <= 16,
    ensures
        spec_props_size(list) <= 16 * list.len(),
    decreases list.len(),
{
    if list.len() > 0 {
        let rest = list.drop_last();
        assert forall|i: int| 0 <= i < rest.len() implies spec_property_size(#[trigger] rest[i])
            <= 16 by {
            assert(rest[i] == list[i]);
        }
        lemma_small_list(rest);
        assert(spec_property_size(list[list.len() - 1]) <= 16);
    }
}

fn publish_properties(sel: u8) -> (r: Vec<Property<'static>>)
    ensures
        r@ == spec_publish_properties(sel),
{
    let low = sel & 3;
    if low == 0 {
        Vec::new()
    } else if low == 1 {
        vec![Property::ResponseTopic("r")]
    } else if low == 2 {
        vec![Property::UserProperty("k", "v")]
    } else {
        vec![Property::ContentType("t")]
    }
}

fn subscribe_properties(sel: u8) -> (r: Vec<Property<'static>>)
    ensures
        r@ == spec_subscribe_properties(sel),
{
    if sel & 1 == 0 {
        Vec::new()
    } else {
        vec![Property::SubscriptionIdentifier(1)]
    }
}

fn generic_properties(sel: u8) -> (r: Vec<Property<'static>>)
    ensures
        r@ == spec_generic_properties(sel),
{
    if sel & 1 == 0 {
        Vec::new()
    } else {
        vec![Property::UserProperty("a", "b")]
    }
}

fn connect_properties(sel: u8) -> (r: Vec<Property<'static>>)
    ensures
        r@ == spec_connect_properties(sel),
{
    let low = sel & 3;
    if low == 0 {
        Vec::new()
    } else if low == 1 {
        vec![Property::SessionExpiryInterval(1)]
    } else {
        vec![
            Property::ReceiveMaximum(2),
            Property::MaximumPacketSize(32),
            Property::RequestProblemInformation(1),
        ]
    }
}

/// The properties of an acknowledgement's reason that `sel` picks; empty where it carries
/// none.
fn reason_properties(sel: u8) -> (r: Vec<Property<'static>>)
    ensures
        match spec_reason_properties(sel) {
            Some(list) => r@ == list,
            None => r@ == Seq::<Property>::empty(),
        },
{
    let kind = (sel >> 4u8) & 3;
    if kind == 0 {
        Vec::new()
    } else if kind == 1 {
        vec![Property::ReasonString("r")]
    } else {
        vec![Property::UserProperty("x", "y")]
    }
}

/// The reason that `sel` picks, with `properties` as its property list where it has one.
fn reason<'a>(sel: u8, properties: &'a [Property<'a>]) -> (r: Reason<'a>)
    requires
        match spec_reason_properties(sel) {
            Some(list) => properties@ == list,
            None => true,
        },
    ensures
        r.spec_enc() == enc_then(
            Ok(seq![spec_reason_code_value(spec_reason_code_from(sel))]),
            match spec_reason_properties(sel) {
                None => Ok(Seq::empty()),
                Some(list) => spec_block_enc(list),
            },
        ),
        r.encodable(),
{
    let code = ReasonCode::from_u8(sel);
    proof {
        lemma_fuzz_strings();
        if spec_reason_properties(sel) is Some {
            lemma_small_list(properties@);
        }
    }
    if (sel >> 4u8) & 3 == 0 {
        Reason::from_code(code)
    } else {
        Reason::with_properties(code, properties)
    }
}

/// Encode `packet` into `buf`; nothing is done with the outcome.
fn write_control<T: ControlPacket>(buf: &mut [u8], packet: &T)
    requires
        packet.encodable(),
    ensures
        final(buf)@.len() == old(buf)@.len(),
        spec_holds_packet(
            old(buf)@,
            final(buf)@,
            spec_written_control(
                old(buf)@.len(),
                packet.spec_fields(),
                packet.spec_message_type(),
                packet.spec_flags(),
            ),
        ),
{
    let _ = MqttSerializer::encode_with_offset(buf, packet);
}

/// Encode one bounded packet shape, chosen by `tag`, into `buf`; the outcome is dropped.
/// Where the packet fits, `buf` holds it at its offset afterwards and keeps every other byte;
/// a buffer too short for a fixed header is left as it was.
pub fn encode_packet(
    buf: &mut [u8],
    tag: u8,
    topic: &str,
    payload: &[u8],
    qos: u8,
    retain: bool,
    aux: u8,
)
    ensures
        final(buf)@.len() == old(buf)@.len(),
        exists|id: &[u8]|
            id@ == seq![105u8, 100u8] && spec_holds_packet(
                old(buf)@,
                final(buf)@,
                #[trigger] spec_fuzz_packet(
                    old(buf)@.len(),
                    tag,
                    topic,
                    payload@,
                    qos,
                    retain,
                    aux,
                    id,
                ),
            ),
{
    let id: Vec<u8> = vec![105u8, 100u8];
    let id_slice = id.as_slice();
    let ghost cap = buf@.len();
    let ghost before = buf@;
    let shape = tag % 10;
    encode_fuzz_shape(buf, shape, topic, payload, qos, retain, aux, id_slice);
    assert(spec_holds_packet(
        before,
        buf@,
        spec_fuzz_packet(cap, tag, topic, payload@, qos, retain, aux, id_slice),
    ));
}

/// `encode_packet` for a shape below 10.
fn encode_fuzz_shape(
    buf: &mut [u8],
    shape: u8,
    topic: &str,
    payload: &[u8],
    qos: u8,
    retain: bool,
    aux: u8,
    id: &[u8],
)
    requires
        shape < 10,
        id@ == seq![105u8, 100u8],
    ensures
        final(buf)@.len() == old(buf)@.len(),
        spec_holds_packet(
            old(buf)@,
            final(buf)@,
            spec_fuzz_shape(old(buf)@.len(), shape, topic, payload@, qos, retain, aux, id),
        ),
{
    proof {
        lemma_fuzz_strings();
    }
    if shape == 0 {
        write_control(buf, &PingReq);
    } else if shape == 1 {
        encode_fuzz_publish(buf, topic, payload, qos, retain, aux, id);
    } else if shape == 2 {
        encode_fuzz_subscribe(buf, topic, payload, qos, retain, aux, id);
    } else if shape == 3 {
        encode_fuzz_unsubscribe(buf, topic, payload, qos, retain, aux, id);
    } else if shape == 4 {
        encode_fuzz_connect(buf, topic, payload, qos, retain, aux, id);
    } else {
        encode_fuzz_ack(buf, shape, topic, payload, qos, retain, aux, id);
    }
}

/// The subscribe shape of `encode_packet`.
fn encode_fuzz_subscribe(
    buf: &mut [u8],
    topic: &str,
    payload: &[u8],
    qos: u8,
    retain: bool,
    aux: u8,
    id: &[u8],
)
    ensures
        final(buf)@.len() == old(buf)@.len(),
        spec_holds_packet(
            old(buf)@,
            final(buf)@,
            spec_fuzz_shape(old(buf)@.len(), 2, topic, payload@, qos, retain, aux, id),
        ),
{
    let props = subscribe_properties(aux);
    let topics = vec![TopicFilter::new(topic)];
    let ghost filters = seq![TopicFilter { topic, options: SubscriptionOptions::default_spec() }];
    proof {
        lemma_small_list(props@);
        assert(topics@ =~= filters);
    }
    let packet = Subscribe {
        packet_id: 1,
        dup: retain,
        properties: Properties::from_slice(props.as_slice()),
        topics: topics.as_slice(),
    };
    assert(packet.spec_fields() == enc_then(
        Ok(be16(1)),
        enc_then(spec_block_enc(spec_subscribe_properties(aux)), spec_filters_enc(filters)),
    ));
    write_control(buf, &packet);
}

/// The unsubscribe shape of `encode_packet`.
fn encode_fuzz_unsubscribe(
    buf: &mut [u8],
    topic: &str,
    payload: &[u8],
    qos: u8,
    retain: bool,
    aux: u8,
    id: &[u8],
)
    ensures
        final(buf)@.len() == old(buf)@.len(),
        spec_holds_packet(
            old(buf)@,
            final(buf)@,
            spec_fuzz_shape(old(buf)@.len(), 3, topic, payload@, qos, retain, aux, id),
        ),
{
    let props = generic_properties(aux);
    let topics = vec![topic];
    proof {
        lemma_fuzz_strings();
        lemma_small_list(props@);
        assert(topics@ =~= seq![topic]);
    }
    let packet = Unsubscribe {
        packet_id: 1,
        dup: retain,
        properties: Properties::from_slice(props.as_slice()),
        topics: topics.as_slice(),
    };
    assert(packet.spec_fields() == enc_then(
        Ok(be16(1)),
        enc_then(spec_block_enc(spec_generic_properties(aux)), spec_topics_enc(seq![topic])),
    ));
    write_control(buf, &packet);
}

/// The connect shape of `encode_packet`.
fn encode_fuzz_connect(
    buf: &mut [u8],
    topic: &str,
    payload: &[u8],
    qos: u8,
    retain: bool,
    aux: u8,
    id: &[u8],
)
    ensures
        final(buf)@.len() == old(buf)@.len(),
        spec_holds_packet(
            old(buf)@,
            final(buf)@,
            spec_fuzz_shape(old(buf)@.len(), 4, topic, payload@, qos, retain, aux, id),
        ),
{
    let props = connect_properties(aux >> 4u8);
    proof {
        lemma_small_list(props@);
    }
    let packet = Connect {
        keepalive: aux as u16,
        properties: Properties::from_slice(props.as_slice()),
        client_id: Utf8String(topic),
        auth: None,
        will: None,
        clean_start: retain,
    };
    write_control(buf, &packet);
}

/// The acknowledgement and disconnect shapes of `encode_packet`.
fn encode_fuzz_ack(
    buf: &mut [u8],
    shape: u8,
    topic: &str,
    payload: &[u8],
    qos: u8,
    retain: bool,
    aux: u8,
    id: &[u8],
)
    requires
        5 <= shape < 10,
    ensures
        final(buf)@.len() == old(buf)@.len(),
        spec_holds_packet(
            old(buf)@,
            final(buf)@,
            spec_fuzz_shape(old(buf)@.len(), shape, topic, payload@, qos, retain, aux, id),
        ),
{
    let props = reason_properties(aux);
    if shape == 5 {
        write_control(buf, &PubRel { packet_id: 1, reason: reason(aux, props.as_slice()) });
    } else if shape == 6 {
        write_control(buf, &PubAck { packet_id: 1, reason: reason(aux, props.as_slice()) });
    } else if shape == 7 {
        write_control(buf, &PubRec { packet_id: 1, reason: reason(aux, props.as_slice()) });
    } else if shape == 8 {
        write_control(buf, &PubComp { packet_id: 1, reason: reason(aux, props.as_slice()) });
    } else {
        write_control(buf, &Disconnect::success());
    }
}

/// The publish shape of `encode_packet`.
fn encode_fuzz_publish(
    buf: &mut [u8],
    topic: &str,
    payload: &[u8],
    qos: u8,
    retain: bool,
    aux: u8,
    id: &[u8],
)
    requires
        id@ == seq![105u8, 100u8],
    ensures
        final(buf)@.len() == old(buf)@.len(),
        spec_holds_packet(
            old(buf)@,
            final(buf)@,
            spec_fuzz_shape(old(buf)@.len(), 1, topic, payload@, qos, retain, aux, id),
        ),
{
    let props = publish_properties(aux);
    proof {
        lemma_fuzz_strings();
    }
    let mut publication = Publication::new(topic, payload).qos(fuzz_qos(qos));
    if retain {
        publication = publication.retain();
    }
    publication = publication.properties(props.as_slice());
    if aux & 4 != 0 {
        publication = publication.correlate(id);
    }
    proof {
        lemma_small_list(publication.properties.list());
    }
    let header = PublishHeader {
        topic: Utf8String(publication.topic),
        packet_id: if publication.qos != QoS::AtMostOnce {
            Some(1)
        } else {
            None
        },
        properties: publication.properties,
        retain: publication.retain,
        qos: publication.qos,
        dup: false,
    };
    assert(header.spec_fields() == spec_publish_fields(topic, qos, spec_publish_list(aux, id)));
    assert(header.spec_flags() == spec_publish_flags(qos, retain));
    let _ = MqttSerializer::encode_publish_with_offset(buf, &header, publication.payload);
}


/// The flags of the fuzzed `PUBLISH` carry retain in bit 0 and the QoS level in bits 1 and 2.
pub proof fn law_fuzz_publish_flags(qos: u8, retain: bool)
    ensures
        (spec_publish_flags(qos, retain) % 2 == 1) == retain,
        spec_publish_flags(qos, retain) / 2 == qos_level(spec_fuzz_qos(qos)),
{
}

} // verus!
