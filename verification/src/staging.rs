//! Staging of one object over MQTT: a manifest announces it, chunks carry it in order, and a
//! storage backend prepares, writes and finalizes it, while status publications report
//! progress. The state machine is here; the broker traffic and the storage belong to the
//! owner, who performs each request and reports its outcome.
use crate::client::{ConnectEvent, Op, OpStatus};
use crate::de::{lemma_ascii_bytes, starts_with, str_strip_prefix};
use crate::heapless_vec::{
    topic_as_str, topic_bytes, topic_clone, topic_push_str, topic_try_from, transfer_id_as_str,
    transfer_id_bytes, transfer_id_try_from,
};
use crate::packets::{RetainHandling, SubscriptionOptions};
use crate::properties::{is_first_correlation_data, spec_iterated, Properties, Property};
use crate::publication::Publication;
use crate::varint::spec_varint_len;
use crate::{PeerError, QoS, ResourceError};
use vstd::prelude::*;
use vstd::string::StringSliceAdditionalSpecFns;

verus! {

/// Longest transfer identifier, in bytes.
pub const MAX_TRANSFER_ID_BYTES: usize = 48;

/// Room for one JSON status publication.
pub const MAX_STATUS_BYTES: usize = 256;

/// Every this many chunks, progress is worth reporting.
pub const INFO_CHUNK_STRIDE: usize = 128;

const MANIFEST_SUFFIX: &'static str = "/manifest";

const STATUS_SUFFIX: &'static str = "/status";

const CHUNK_SUFFIX: &'static str = "/chunk";

/// The user property that carries a chunk's offset.
pub const OFFSET_KEY: &'static str = "offset";

/// Immediate result of one cooperative `step()`.
#[derive(Debug, Clone, Copy, PartialEq, Eq, Structural)]
pub enum Step {
    /// No queued staging work remains after this step.
    Quiescent,
    /// Staging still has queued or in-flight MQTT work.
    Pending,
}

/// Error returned while constructing a staging service.
#[derive(Debug, Clone, Copy, PartialEq, Eq, Structural)]
pub enum CreateError {
    /// A derived protocol topic does not fit the fixed topic buffer.
    Topic(ResourceError),
    /// The maximum chunk size or storage write size cannot support aligned writes.
    InvalidChunkSize,
}

/// Storage limits for one staging service.
#[derive(Debug, Clone, Copy, PartialEq, Eq, Structural)]
pub struct Config {
    /// Maximum staged object size in bytes.
    pub capacity: u32,
    /// Maximum bytes accepted in one MQTT chunk.
    pub max_chunk_size: usize,
    /// Required storage-write alignment in bytes.
    pub write_size: usize,
}

/// Current staging phase.
#[derive(Debug, Clone, Copy, PartialEq, Eq, Structural)]
pub enum State {
    /// No transfer is active.
    Idle,
    /// The storage backend is preparing the staging area.
    Preparing,
    /// The device is ready for the next chunk.
    Ready,
    /// The storage backend is writing one chunk.
    Writing,
    /// The full object was staged.
    Complete,
    /// The transfer failed or was aborted.
    Error,
}

/// Result conveyed by a staging status publication.
#[derive(Debug, Clone, Copy, PartialEq, Eq, Structural)]
pub enum StatusCode {
    /// No transfer is active.
    Idle,
    /// The manifest or latest chunk was accepted.
    Accepted,
    /// An already accepted chunk was received again.
    Duplicate,
    /// The chunk did not match the requested offset.
    Offset,
    /// The object or chunk exceeds a configured limit.
    Oversize,
    /// The MQTT RX packet budget cannot carry a configured chunk.
    Mtu,
    /// The chunk does not meet the storage write alignment.
    Unaligned,
    /// The storage backend rejected an operation.
    Storage,
    /// The object was staged.
    Complete,
    /// The request or service state was invalid.
    Error,
}

/// Current staging progress and device limits.
#[derive(Debug, Clone, Copy, PartialEq, Eq)]
pub struct Status<'a> {
    /// Current transfer state.
    pub state: State,
    /// Result associated with this status publication.
    pub code: StatusCode,
    /// Manifest identifier, or an empty string while idle.
    pub id: &'a str,
    /// First object byte not yet written.
    pub next_offset: u32,
    /// Declared object size in bytes.
    pub size: u32,
    /// Maximum chunk payload accepted by this service.
    pub mtu: usize,
    /// Required chunk alignment in bytes.
    pub write_size: usize,
}

/// MQTT work the service queues: a status publication with a code, or the subscription.
#[derive(Debug, Clone, Copy, PartialEq, Eq, Structural)]
pub enum Action {
    /// Publish the status with this code.
    Publish(StatusCode),
    /// Subscribe the manifest and chunk topics.
    Subscribe,
}

/// Why a chunk was not written: ignored with a status, or failing the transfer.
#[derive(Debug, Clone, Copy, PartialEq, Eq, Structural)]
pub enum ChunkError {
    /// The chunk is ignored and the status code reported.
    Queue(StatusCode),
    /// The transfer fails with the status code.
    Fail(StatusCode),
}

/// Storage work waiting for its outcome.
#[derive(Debug, Clone, Copy, PartialEq, Eq, Structural)]
pub enum PendingRequest {
    /// The staging area is being prepared.
    Prepare,
    /// A chunk is being written; `next_offset` follows it.
    Write { next_offset: u32, final_chunk: bool },
}

/// Storage operation requested by the staging state machine.
#[derive(Debug)]
pub enum StagingRequest<'a> {
    /// Prepare the staging area for one object.
    Prepare {
        /// Declared object size in bytes.
        size: u32,
    },
    /// Write one accepted chunk and optionally finalize the object.
    Write(StagingWrite<'a>),
}

/// One accepted chunk ready for storage.
#[derive(Debug)]
pub struct StagingWrite<'a> {
    /// Object byte offset.
    pub offset: u32,
    /// Chunk bytes borrowed from the current inbound publish; the owner must consume or copy
    /// them before polling the connection again.
    pub payload: &'a [u8],
    /// Manifest size, excluding any final erased-storage padding.
    pub size: u32,
    /// Expected FNV-1a checksum. Present only on the final chunk.
    pub fnv1a64: Option<u64>,
}

/// Result of handling one inbound MQTT publish.
#[derive(Debug)]
pub enum Handle<'a> {
    /// The publish is not staging traffic.
    Unhandled,
    /// Staging traffic was consumed without new storage work.
    Consumed,
    /// The owner must execute this storage request and report its result with
    /// `Service::complete_request`.
    Request(StagingRequest<'a>),
}

/// A manifest as decoded from its JSON object: identifier, size and checksum.
#[derive(Debug, Clone, Copy, PartialEq, Eq)]
pub struct Manifest<'a> {
    /// Transfer identifier.
    pub id: &'a str,
    /// Object size in bytes.
    pub size: u32,
    /// FNV-1a checksum of the object.
    pub fnv1a64: u64,
}

/// The transfer in progress.
#[derive(Debug)]
pub struct Transfer {
    id: heapless::String<48>,
    size: u32,
    next_offset: u32,
    fnv1a64: u64,
}

/// What a transfer holds.
pub struct TransferView {
    pub id: Seq<u8>,
    pub size: u32,
    pub next_offset: u32,
    pub fnv1a64: u64,
}

impl Transfer {
    /// What the transfer holds.
    pub closed spec fn spec_view(&self) -> TransferView {
        TransferView {
            id: transfer_id_bytes(self.id),
            size: self.size,
            next_offset: self.next_offset,
            fnv1a64: self.fnv1a64,
        }
    }

    /// Identifier bytes.
    pub fn id(&self) -> (r: &str)
        ensures
            r.spec_bytes() == self.spec_view().id,
    {
        transfer_id_as_str(&self.id)
    }

    /// Declared size.
    pub fn size(&self) -> (r: u32)
        ensures
            r == self.spec_view().size,
    {
        self.size
    }

    /// First byte not yet written.
    pub fn next_offset(&self) -> (r: u32)
        ensures
            r == self.spec_view().next_offset,
    {
        self.next_offset
    }

    /// Expected checksum.
    pub fn fnv1a64(&self) -> (r: u64)
        ensures
            r == self.spec_view().fnv1a64,
    {
        self.fnv1a64
    }
}

// Pure helpers.

/// Number of bytes of the MQTT variable byte integer encoding of `value`.
pub fn mqtt_varint_len(value: usize) -> (r: usize)
    ensures
        r == spec_varint_len(value as nat),
{
    let mut rest = value;
    let mut len: usize = 1;
    proof {
        lemma_varint_len_bound(value as nat);
    }
    while rest >= 128
        invariant
            1 <= len,
            len + spec_varint_len(rest as nat) - 1 == spec_varint_len(value as nat),
            rest >= 1 ==> spec_varint_len(value as nat) <= value,
            rest <= value,
        decreases rest,
    {
        proof {
            lemma_varint_len_bound((rest / 128) as nat);
        }
        rest = rest / 128;
        len = len + 1;
    }
    len
}

/// The encoding of `v` takes at least one byte, and at most `v` bytes for a positive `v`.
proof fn lemma_varint_len_bound(v: nat)
    ensures
        v >= 1 ==> spec_varint_len(v) <= v,
        spec_varint_len(v) >= 1,
    decreases v,
{
    if v >= 128 {
        lemma_varint_len_bound(v / 128);
    }
}

/// Packet bytes needed to receive one chunk of `payload_size` bytes on a topic of
/// `topic_len` bytes for a transfer identifier of `id_len` bytes, at QoS 1 with the chunk
/// properties at their largest.
pub open spec fn spec_required_rx_bytes(topic_len: nat, id_len: nat, payload_size: nat) -> nat {
    let properties = 26 + id_len;
    let remaining = 2 + topic_len + 2 + spec_varint_len(properties) + properties + payload_size;
    1 + spec_varint_len(remaining) + remaining
}

/// Packet bytes needed to receive one chunk of `payload_size` bytes on `topic` for the
/// transfer `id`.
pub fn required_rx_bytes(topic: &str, id: &[u8], payload_size: usize) -> (r: usize)
    requires
        topic.spec_bytes().len() + id@.len() + payload_size + 64 <= usize::MAX,
    ensures
        r == spec_required_rx_bytes(topic.spec_bytes().len(), id@.len(), payload_size as nat),
{
    let topic_len = topic.as_bytes().len();
    let properties = 2 + 1 + 2 + id.len() + 1 + 2 + 6 + 2 + 10;
    let properties_len = mqtt_varint_len(properties);
    proof {
        lemma_varint_len_bound(properties as nat);
        assert(properties_len <= 10) by {
            lemma_varint_len_small(properties as nat);
        }
    }
    let remaining = 2 + topic_len + 2 + properties_len + properties + payload_size;
    let remaining_len = mqtt_varint_len(remaining);
    proof {
        lemma_varint_len_small(remaining as nat);
    }
    1 + remaining_len + remaining
}

/// Any `usize` value is encoded in at most ten bytes.
proof fn lemma_varint_len_small(v: nat)
    requires
        v <= usize::MAX,
    ensures
        spec_varint_len(v) <= 10,
{
    reveal_with_fuel(spec_varint_len, 11);
    assert(v / 128 / 128 / 128 / 128 / 128 / 128 / 128 / 128 / 128 < 128);
}

/// The bytes of `payload` past the first `object_bytes`, when there are any.
pub fn payload_padding(payload: &[u8], object_bytes: u32) -> (r: Option<&[u8]>)
    ensures
        object_bytes < payload@.len() ==> (r matches Some(x) && x@ == payload@.subrange(
            object_bytes as int,
            payload@.len() as int,
        )),
        object_bytes >= payload@.len() ==> r is None,
{
    let object_bytes = object_bytes as usize;
    if object_bytes < payload.len() {
        Some(crate::de::slice_from(payload, object_bytes))
    } else {
        None
    }
}

/// Whether every byte is the erased-storage value `0xff`.
pub open spec fn all_erased(bytes: Seq<u8>) -> bool {
    forall|i: int| 0 <= i < bytes.len() ==> #[trigger] bytes[i] == 0xffu8
}

fn is_all_erased(bytes: &[u8]) -> (r: bool)
    ensures
        r == all_erased(bytes@),
{
    let mut i: usize = 0;
    while i < bytes.len()
        invariant
            i <= bytes@.len(),
            forall|k: int| 0 <= k < i ==> #[trigger] bytes@[k] == 0xffu8,
        decreases bytes@.len() - i,
    {
        if bytes[i] != 0xff {
            return false;
        }
        i = i + 1;
    }
    true
}

/// Outcome of checking a chunk at `offset` with `payload` against the transfer `t`: the
/// offset after it, or why it is refused. Earlier offsets are duplicates and later ones out
/// of order; the payload must be non-empty, at most `max_chunk_size` bytes and a multiple of
/// `write_size`; the chunk must end within `capacity`; past the object's size, only erased
/// bytes (`0xff`) may pad the final chunk.
pub open spec fn spec_validate_chunk(
    t: TransferView,
    offset: u32,
    payload: Seq<u8>,
    capacity: u32,
    max_chunk_size: usize,
    write_size: usize,
) -> Result<u32, ChunkError> {
    if offset < t.next_offset {
        Err(ChunkError::Queue(StatusCode::Duplicate))
    } else if offset != t.next_offset {
        Err(ChunkError::Queue(StatusCode::Offset))
    } else if payload.len() == 0 || payload.len() > max_chunk_size {
        Err(ChunkError::Fail(StatusCode::Mtu))
    } else if payload.len() % (write_size as nat) != 0 {
        Err(ChunkError::Fail(StatusCode::Unaligned))
    } else if offset + (payload.len() as u32) > u32::MAX {
        Err(ChunkError::Fail(StatusCode::Oversize))
    } else if offset + (payload.len() as u32) > capacity {
        Err(ChunkError::Fail(StatusCode::Oversize))
    } else if offset + (payload.len() as u32) <= t.size {
        Ok((offset + (payload.len() as u32)) as u32)
    } else if t.size - offset >= payload.len() {
        Err(ChunkError::Fail(StatusCode::Oversize))
    } else if !all_erased(payload.subrange(t.size - offset, payload.len() as int)) {
        Err(ChunkError::Fail(StatusCode::Oversize))
    } else {
        Ok(t.size)
    }
}

/// Check a chunk at `offset` with `payload` against `transfer`.
pub fn validate_chunk(
    transfer: &Transfer,
    offset: u32,
    payload: &[u8],
    capacity: u32,
    max_chunk_size: usize,
    write_size: usize,
) -> (r: Result<u32, ChunkError>)
    requires
        write_size > 0,
        transfer.spec_view().next_offset <= transfer.spec_view().size,
    ensures
        r == spec_validate_chunk(
            transfer.spec_view(),
            offset,
            payload@,
            capacity,
            max_chunk_size,
            write_size,
        ),
{
    if offset < transfer.next_offset {
        return Err(ChunkError::Queue(StatusCode::Duplicate));
    }
    if offset != transfer.next_offset {
        return Err(ChunkError::Queue(StatusCode::Offset));
    }
    if payload.len() == 0 || payload.len() > max_chunk_size {
        return Err(ChunkError::Fail(StatusCode::Mtu));
    }
    if payload.len() % write_size != 0 {
        return Err(ChunkError::Fail(StatusCode::Unaligned));
    }
    let end = match offset.checked_add(payload.len() as u32) {
        Some(end) => end,
        None => return Err(ChunkError::Fail(StatusCode::Oversize)),
    };
    if end > capacity {
        return Err(ChunkError::Fail(StatusCode::Oversize));
    }
    if end <= transfer.size {
        return Ok(end);
    }
    let padding = match payload_padding(payload, transfer.size - offset) {
        Some(p) => p,
        None => return Err(ChunkError::Fail(StatusCode::Oversize)),
    };
    if !is_all_erased(padding) {
        return Err(ChunkError::Fail(StatusCode::Oversize));
    }
    Ok(transfer.size)
}

/// Whether `b` may appear in a transfer identifier: an ASCII letter or digit, `-`, `.` or
/// `_`.
pub open spec fn id_byte(b: u8) -> bool {
    (48 <= b <= 57) || (65 <= b <= 90) || (97 <= b <= 122) || b == 45 || b == 46 || b == 95
}

/// Whether `id` is a valid transfer identifier: 1 to 48 bytes, each an `id_byte`.
pub open spec fn spec_valid_id(id: Seq<u8>) -> bool {
    &&& id.len() > 0
    &&& id.len() <= MAX_TRANSFER_ID_BYTES
    &&& forall|i: int| 0 <= i < id.len() ==> id_byte(#[trigger] id[i])
}

/// Whether `id` is a valid transfer identifier.
pub fn valid_id(id: &str) -> (r: bool)
    ensures
        r == spec_valid_id(id.spec_bytes()),
{
    let bytes = id.as_bytes();
    if bytes.len() == 0 || bytes.len() > MAX_TRANSFER_ID_BYTES {
        return false;
    }
    let mut i: usize = 0;
    while i < bytes.len()
        invariant
            i <= bytes@.len(),
            bytes@ == id.spec_bytes(),
            forall|k: int| 0 <= k < i ==> id_byte(#[trigger] bytes@[k]),
        decreases bytes@.len() - i,
    {
        let b = bytes[i];
        let ok = (b >= 48 && b <= 57) || (b >= 65 && b <= 90) || (b >= 97 && b <= 122) || b == 45
            || b == 46 || b == 95;
        if !ok {
            return false;
        }
        i = i + 1;
    }
    true
}

/// Whether `b` is ASCII whitespace: space, tab, line feed, form feed or carriage return.
pub open spec fn ascii_space(b: u8) -> bool {
    b == 32 || b == 9 || b == 10 || b == 12 || b == 13
}

fn all_ascii_space(bytes: &[u8]) -> (r: bool)
    ensures
        r == (forall|i: int| 0 <= i < bytes@.len() ==> ascii_space(#[trigger] bytes@[i])),
{
    let mut i: usize = 0;
    while i < bytes.len()
        invariant
            i <= bytes@.len(),
            forall|k: int| 0 <= k < i ==> ascii_space(#[trigger] bytes@[k]),
        decreases bytes@.len() - i,
    {
        let b = bytes[i];
        if !(b == 32 || b == 9 || b == 10 || b == 12 || b == 13) {
            return false;
        }
        i = i + 1;
    }
    true
}

/// Whether a manifest decoded from the first `used` bytes of `payload` is acceptable: a
/// valid identifier, and nothing but ASCII whitespace after the JSON object.
pub open spec fn spec_manifest_ok(payload: Seq<u8>, m: Manifest, used: nat) -> bool {
    &&& spec_valid_id(m.id.spec_bytes())
    &&& forall|i: int| used <= i < payload.len() ==> ascii_space(#[trigger] payload[i])
}

/// The transfer that a manifest announces, given what decoding the JSON object at the
/// front of `payload` gave (`None` where it is not a manifest object): refused without a
/// valid identifier or with anything but whitespace after the object.
pub fn parse_manifest(payload: &[u8], decoded: Option<(Manifest<'_>, usize)>) -> (r: Result<
    Transfer,
    (),
>)
    requires
        decoded matches Some((_, used)) ==> used <= payload@.len(),
    ensures
        match decoded {
            None => r is Err,
            Some((m, used)) => if spec_manifest_ok(payload@, m, used as nat) {
                r matches Ok(t) && t.spec_view() == (TransferView {
                    id: m.id.spec_bytes(),
                    size: m.size,
                    next_offset: 0,
                    fnv1a64: m.fnv1a64,
                })
            } else {
                r is Err
            },
        },
{
    let (manifest, used) = match decoded {
        Some(d) => d,
        None => return Err(()),
    };
    if !valid_id(manifest.id) {
        return Err(());
    }
    let rest = crate::de::slice_from(payload, used);
    let trailing_ok = all_ascii_space(rest);
    proof {
        if trailing_ok {
            assert forall|i: int| used <= i < payload@.len() implies ascii_space(
                #[trigger] payload@[i],
            ) by {
                assert(rest@[i - used] == payload@[i]);
            }
        } else {
            let k = choose|k: int| 0 <= k < rest@.len() && !ascii_space(#[trigger] rest@[k]);
            assert(payload@[used + k] == rest@[k]);
        }
    }
    if !trailing_ok {
        return Err(());
    }
    let id = match transfer_id_try_from(manifest.id) {
        Ok(id) => id,
        Err(_) => return Err(()),
    };
    Ok(Transfer { id, size: manifest.size, next_offset: 0, fnv1a64: manifest.fnv1a64 })
}

/// Value of the decimal digits `d`.
pub open spec fn spec_digits_value(d: Seq<u8>) -> nat
    decreases d.len(),
{
    if d.len() == 0 {
        0
    } else {
        spec_digits_value(d.drop_last()) * 10 + (d.last() - 48) as nat
    }
}

/// What `u32::from_str` reads from `text`: an optional `+` and then one or more decimal
/// digits whose value fits in a `u32`; anything else is refused.
pub open spec fn spec_parse_u32(text: Seq<u8>) -> Option<u32> {
    let digits = if text.len() > 0 && text[0] == 43u8 {
        text.drop_first()
    } else {
        text
    };
    if digits.len() > 0 && (forall|i: int| 0 <= i < digits.len() ==> 48u8 <= #[trigger] digits[i]
        <= 57u8) && spec_digits_value(digits) <= u32::MAX {
        Some(spec_digits_value(digits) as u32)
    } else {
        None
    }
}

/// `str::parse::<u32>`: the decimal number `text` holds, if it is one that fits.
#[verifier::external_body]
fn parse_u32(text: &str) -> (r: Option<u32>)
    ensures
        r == spec_parse_u32(text.spec_bytes()),
{
    match text.parse::<u32>() {
        Ok(v) => Some(v),
        Err(_) => None,
    }
}

/// The decimal digits of `n`, most significant first, without leading zeros.
pub open spec fn spec_decimal(n: nat) -> Seq<char>
    decreases n,
{
    if n < 10 {
        seq![(48 + n) as char]
    } else {
        spec_decimal(n / 10).push((48 + n % 10) as char)
    }
}

/// `itoa::Buffer::format`: `value` in decimal.
#[verifier::external_body]
pub(crate) fn decimal_text(value: u32) -> (r: String)
    ensures
        r@ == spec_decimal(value as nat),
{
    let mut buffer = itoa::Buffer::new();
    String::from(buffer.format(value))
}

/// The transfer identifier and offset that a chunk carries.
#[derive(Debug, Clone, Copy, PartialEq, Eq)]
pub struct ChunkProperties<'a> {
    /// Transfer identifier, from the correlation data.
    pub id: &'a [u8],
    /// Object offset, from the `offset` user property.
    pub offset: u32,
}

/// The bytes of "offset".
pub open spec fn offset_key() -> Seq<u8> {
    seq![111u8, 102u8, 102u8, 115u8, 101u8, 116u8]
}

/// The offset that the first `n` iterated properties leave: each `offset` user property
/// replaces it with what its value reads as, a number or nothing.
pub open spec fn spec_offset_property(items: Seq<Result<Property, PeerError>>, n: nat) -> Option<u32>
    decreases n,
{
    if n == 0 || n > items.len() {
        None
    } else {
        let prev = spec_offset_property(items, (n - 1) as nat);
        match items[n - 1] {
            Ok(Property::UserProperty(key, value)) => if key.spec_bytes() == offset_key() {
                spec_parse_u32(value.spec_bytes())
            } else {
                prev
            },
            _ => prev,
        }
    }
}

fn bytes_eq(a: &[u8], b: &[u8]) -> (r: bool)
    ensures
        r == (a@ == b@),
{
    if a.len() != b.len() {
        return false;
    }
    let mut i: usize = 0;
    while i < a.len()
        invariant
            a@.len() == b@.len(),
            i <= a@.len(),
            forall|k: int| 0 <= k < i ==> a@[k] == b@[k],
        decreases a@.len() - i,
    {
        if a[i] != b[i] {
            return false;
        }
        i = i + 1;
    }
    assert(a@ =~= b@);
    true
}

proof fn lemma_offset_key()
    ensures
        OFFSET_KEY.spec_bytes() == offset_key(),
{
    reveal_strlit("offset");
    assert(OFFSET_KEY@ =~= seq!['o', 'f', 'f', 's', 'e', 't']);
    lemma_ascii_bytes(OFFSET_KEY);
    assert(OFFSET_KEY.spec_bytes() =~= offset_key());
}

/// The transfer identifier (the correlation data) and offset (the last `offset` user
/// property, read as a number) of a chunk; `None` where either is missing.
pub fn chunk_properties<'a>(properties: &Properties<'a>) -> (r: Option<ChunkProperties<'a>>)
    ensures
        exists|id: Option<&'a [u8]>, items: Seq<Result<Property<'a>, PeerError>>|
            is_first_correlation_data(*properties, id) && spec_iterated(*properties, items)
                && match (id, spec_offset_property(items, items.len())) {
                (Some(i), Some(o)) => r == Some(ChunkProperties { id: i, offset: o }),
                _ => r is None,
            },
{
    let id = properties.correlation_data();
    let items = properties.iter();
    proof {
        lemma_offset_key();
    }
    let mut offset: Option<u32> = None;
    let mut i: usize = 0;
    while i < items.len()
        invariant
            i <= items@.len(),
            offset == spec_offset_property(items@, i as nat),
            OFFSET_KEY.spec_bytes() == offset_key(),
        decreases items@.len() - i,
    {
        match &items[i] {
            Ok(Property::UserProperty(key, value)) => {
                if bytes_eq(key.as_bytes(), OFFSET_KEY.as_bytes()) {
                    offset = parse_u32(value);
                }
            },
            _ => {},
        }
        i = i + 1;
    }
    match (id, offset) {
        (Some(id), Some(offset)) => Some(ChunkProperties { id, offset }),
        _ => None,
    }
}

/// Whether progress at `next_offset` of an object of `size` bytes sent in chunks of
/// `chunk_size` bytes is worth an informational report: the first chunk, the last, and
/// every `INFO_CHUNK_STRIDE`-th.
pub fn should_log_chunk_progress(next_offset: u32, size: u32, chunk_size: usize) -> (r: bool)
    requires
        next_offset != 0 ==> next_offset + (chunk_size as u32) <= u32::MAX,
        next_offset != 0 && next_offset + (chunk_size as u32) < size ==> chunk_size > 0,
    ensures
        r == (next_offset == 0 || next_offset + (chunk_size as u32) >= size || (next_offset as nat
            / chunk_size as nat) % (INFO_CHUNK_STRIDE as nat) == 0),
{
    if next_offset == 0 {
        return true;
    }
    if next_offset + chunk_size as u32 >= size {
        return true;
    }
    (next_offset as usize / chunk_size) % INFO_CHUNK_STRIDE == 0
}

/// The bytes of the topic suffixes.
proof fn lemma_topic_suffixes()
    ensures
        MANIFEST_SUFFIX.spec_bytes() == manifest_suffix(),
        STATUS_SUFFIX.spec_bytes() == status_suffix(),
        CHUNK_SUFFIX.spec_bytes() == chunk_suffix(),
{
    reveal_strlit("/manifest");
    reveal_strlit("/status");
    reveal_strlit("/chunk");
    assert(MANIFEST_SUFFIX@ =~= seq!['/', 'm', 'a', 'n', 'i', 'f', 'e', 's', 't']);
    assert(STATUS_SUFFIX@ =~= seq!['/', 's', 't', 'a', 't', 'u', 's']);
    assert(CHUNK_SUFFIX@ =~= seq!['/', 'c', 'h', 'u', 'n', 'k']);
    lemma_ascii_bytes(MANIFEST_SUFFIX);
    lemma_ascii_bytes(STATUS_SUFFIX);
    lemma_ascii_bytes(CHUNK_SUFFIX);
    assert(MANIFEST_SUFFIX.spec_bytes() =~= manifest_suffix());
    assert(STATUS_SUFFIX.spec_bytes() =~= status_suffix());
    assert(CHUNK_SUFFIX.spec_bytes() =~= chunk_suffix());
}

/// The bytes of "/manifest".
pub open spec fn manifest_suffix() -> Seq<u8> {
    seq![47u8, 109u8, 97u8, 110u8, 105u8, 102u8, 101u8, 115u8, 116u8]
}

/// The bytes of "/status".
pub open spec fn status_suffix() -> Seq<u8> {
    seq![47u8, 115u8, 116u8, 97u8, 116u8, 117u8, 115u8]
}

/// The bytes of "/chunk".
pub open spec fn chunk_suffix() -> Seq<u8> {
    seq![47u8, 99u8, 104u8, 117u8, 110u8, 107u8]
}

/// `prefix` followed by `suffix`, when that fits a topic.
pub fn topic(prefix: &heapless::String<128>, suffix: &str) -> (r: Result<
    heapless::String<128>,
    ResourceError,
>)
    ensures
        topic_bytes(*prefix).len() + suffix.spec_bytes().len() <= 128 ==> (r matches Ok(t)
            && topic_bytes(t) == topic_bytes(*prefix) + suffix.spec_bytes()),
        topic_bytes(*prefix).len() + suffix.spec_bytes().len() > 128 ==> r
            == Err::<heapless::String<128>, ResourceError>(ResourceError::BufferTooSmall),
{
    let mut t = topic_clone(prefix);
    match topic_push_str(&mut t, suffix) {
        Ok(()) => Ok(t),
        Err(_) => Err(ResourceError::BufferTooSmall),
    }
}

/// The queued MQTT work in flight: the action and the operation that carries it.
#[derive(Debug)]
struct InFlightAction {
    action: Action,
    op: Op,
}

/// What a staging service holds.
pub struct ServiceView {
    /// The protocol topic root.
    pub prefix: Seq<u8>,
    /// The action in flight with its operation.
    pub inflight: Option<(Action, Op)>,
    /// The action queued next.
    pub pending: Option<Action>,
    /// A status to publish once the startup subscription is done.
    pub startup_publish: Option<StatusCode>,
    /// The staging phase.
    pub state: State,
    /// The transfer, if one was announced.
    pub transfer: Option<TransferView>,
    /// Storage work waiting for its outcome.
    pub request: Option<PendingRequest>,
    /// Largest object.
    pub capacity: u32,
    /// Largest chunk.
    pub max_chunk_size: usize,
    /// Largest packet the session receives.
    pub max_rx_packet_size: usize,
    /// Storage write alignment.
    pub write_size: usize,
}

/// The service's invariant: every protocol topic fits, the chunk and write sizes allow
/// aligned writes, and a transfer never runs past its size.
pub open spec fn view_wf(v: ServiceView) -> bool {
    &&& v.prefix.len() + 9 <= 128
    &&& v.write_size > 0
    &&& v.max_chunk_size > 0
    &&& v.max_chunk_size % v.write_size == 0
    &&& v.transfer matches Some(t) ==> t.next_offset <= t.size
    &&& v.request matches Some(PendingRequest::Write { next_offset, final_chunk }) ==> (
    v.transfer matches Some(t) && t.next_offset <= next_offset <= t.size && final_chunk == (
    next_offset == t.size))
    &&& v.request matches Some(PendingRequest::Prepare) ==> (v.transfer matches Some(t)
        && t.next_offset < t.size)
    &&& v.state == State::Ready ==> (v.transfer matches Some(t) && t.next_offset < t.size)
}

/// The service after aborting, and whether a transfer was active: an active transfer fails,
/// its storage request is dropped, and an `Error` status follows, held back until a startup
/// subscription in flight or queued is done.
pub open spec fn spec_abort(v: ServiceView) -> (ServiceView, bool) {
    if !(v.state == State::Preparing || v.state == State::Ready || v.state == State::Writing) {
        (v, false)
    } else {
        let failed = ServiceView { state: State::Error, request: None, ..v };
        (
            if (v.inflight matches Some((a, _)) && a == Action::Subscribe) || v.pending == Some(
                Action::Subscribe,
            ) {
                ServiceView { startup_publish: Some(StatusCode::Error), ..failed }
            } else {
                spec_queue(failed, Action::Publish(StatusCode::Error))
            },
            true,
        )
    }
}

/// The service after the storage request in progress ended, well or not.
pub open spec fn spec_complete_request(v: ServiceView, success: bool) -> ServiceView {
    if v.request is None {
        v
    } else {
        let taken = ServiceView { request: None, ..v };
        if v.transfer is None {
            spec_queue(ServiceView { state: State::Error, ..taken }, Action::Publish(StatusCode::Error))
        } else if !success {
            spec_queue(
                ServiceView { state: State::Error, ..taken },
                Action::Publish(StatusCode::Storage),
            )
        } else {
            let t = v.transfer->Some_0;
            match v.request->Some_0 {
                PendingRequest::Prepare => spec_queue(
                    ServiceView { state: State::Ready, ..taken },
                    Action::Publish(StatusCode::Accepted),
                ),
                PendingRequest::Write { next_offset, final_chunk } => if final_chunk {
                    spec_queue(
                        ServiceView {
                            state: State::Complete,
                            transfer: Some(TransferView { next_offset: t.size, ..t }),
                            ..taken
                        },
                        Action::Publish(StatusCode::Complete),
                    )
                } else {
                    spec_queue(
                        ServiceView {
                            state: State::Ready,
                            transfer: Some(TransferView { next_offset, ..t }),
                            ..taken
                        },
                        Action::Publish(StatusCode::Accepted),
                    )
                },
            }
        }
    }
}

/// The status code for a phase.
pub open spec fn spec_code_for(state: State) -> StatusCode {
    match state {
        State::Idle => StatusCode::Idle,
        State::Preparing | State::Ready | State::Writing => StatusCode::Accepted,
        State::Complete => StatusCode::Complete,
        State::Error => StatusCode::Error,
    }
}

/// The service after queueing `action`: the action becomes the next one, except that a
/// subscription already in flight is not queued again.
pub open spec fn spec_queue(v: ServiceView, action: Action) -> ServiceView {
    if action == Action::Subscribe && (v.inflight matches Some((a, _)) && a == Action::Subscribe) {
        v
    } else {
        ServiceView { pending: Some(action), ..v }
    }
}

/// The status to publish again after a reconnect: the current one, unless idle.
pub open spec fn spec_replay(v: ServiceView) -> Option<StatusCode> {
    if v.state != State::Idle {
        Some(spec_code_for(v.state))
    } else {
        None
    }
}

/// Cooperative MQTT staging service.
pub struct Service {
    prefix: heapless::String<128>,
    inflight: Option<InFlightAction>,
    pending: Option<Action>,
    startup_publish: Option<StatusCode>,
    state: State,
    transfer: Option<Transfer>,
    request: Option<PendingRequest>,
    capacity: u32,
    max_chunk_size: usize,
    max_rx_packet_size: usize,
    write_size: usize,
}

impl View for Service {
    type V = ServiceView;

    closed spec fn view(&self) -> ServiceView {
        ServiceView {
            prefix: topic_bytes(self.prefix),
            inflight: match self.inflight {
                Some(i) => Some((i.action, i.op)),
                None => None,
            },
            pending: self.pending,
            startup_publish: self.startup_publish,
            state: self.state,
            transfer: match self.transfer {
                Some(t) => Some(t.spec_view()),
                None => None,
            },
            request: self.request,
            capacity: self.capacity,
            max_chunk_size: self.max_chunk_size,
            max_rx_packet_size: self.max_rx_packet_size,
            write_size: self.write_size,
        }
    }
}

impl Service {
    /// The service's invariant.
    pub open spec fn wf(&self) -> bool {
        view_wf(self@)
    }

    /// A staging service at the protocol topic root `prefix`: `InvalidChunkSize` where the
    /// write size or chunk size is zero or the chunk size is not a multiple of the write size,
    /// `Topic(BufferTooSmall)` where `prefix/manifest` does not fit a 128-byte topic.
    pub fn new(prefix: &str, config: Config) -> (r: Result<Self, CreateError>)
        ensures
            config.write_size == 0 || config.max_chunk_size == 0 || config.max_chunk_size
                % config.write_size != 0 ==> r == Err::<Self, CreateError>(
                CreateError::InvalidChunkSize,
            ),
            !(config.write_size == 0 || config.max_chunk_size == 0 || config.max_chunk_size
                % config.write_size != 0) && prefix.spec_bytes().len() + 9 > 128 ==> r
                == Err::<Self, CreateError>(CreateError::Topic(ResourceError::BufferTooSmall)),
            r matches Ok(s) ==> s.wf() && s@ == (ServiceView {
                prefix: prefix.spec_bytes(),
                inflight: None,
                pending: None,
                startup_publish: None,
                state: State::Idle,
                transfer: None,
                request: None,
                capacity: config.capacity,
                max_chunk_size: config.max_chunk_size,
                max_rx_packet_size: 0,
                write_size: config.write_size,
            }),
            r is Ok <==> !(config.write_size == 0 || config.max_chunk_size == 0
                || config.max_chunk_size % config.write_size != 0) && prefix.spec_bytes().len() + 9
                <= 128,
    {
        if config.write_size == 0 || config.max_chunk_size == 0 || config.max_chunk_size
            % config.write_size != 0 {
            return Err(CreateError::InvalidChunkSize);
        }
        let prefix = match topic_try_from(prefix) {
            Ok(p) => p,
            Err(_) => return Err(CreateError::Topic(ResourceError::BufferTooSmall)),
        };
        proof {
            lemma_topic_suffixes();
        }
        match topic(&prefix, MANIFEST_SUFFIX) {
            Ok(_) => {},
            Err(e) => return Err(CreateError::Topic(e)),
        }
        match topic(&prefix, STATUS_SUFFIX) {
            Ok(_) => {},
            Err(e) => return Err(CreateError::Topic(e)),
        }
        match topic(&prefix, CHUNK_SUFFIX) {
            Ok(_) => {},
            Err(e) => return Err(CreateError::Topic(e)),
        }
        Ok(Service {
            prefix,
            inflight: None,
            pending: None,
            startup_publish: None,
            state: State::Idle,
            transfer: None,
            request: None,
            capacity: config.capacity,
            max_chunk_size: config.max_chunk_size,
            max_rx_packet_size: 0,
            write_size: config.write_size,
        })
    }

    /// The action queued next, if any.
    pub fn pending(&self) -> (r: Option<Action>)
        ensures
            r == self@.pending,
    {
        self.pending
    }

    /// The status held back until the startup subscription is done, if any.
    pub fn startup_publish(&self) -> (r: Option<StatusCode>)
        ensures
            r == self@.startup_publish,
    {
        self.startup_publish
    }

    /// The staging phase.
    pub fn state(&self) -> (r: State)
        ensures
            r == self@.state,
    {
        self.state
    }

    /// The transfer, if one was announced.
    pub fn transfer(&self) -> (r: Option<&Transfer>)
        ensures
            match self@.transfer {
                Some(t) => r matches Some(x) && x.spec_view() == t,
                None => r is None,
            },
    {
        match &self.transfer {
            Some(t) => Some(t),
            None => None,
        }
    }

    /// The operation in flight, whose status `step` needs, if any.
    pub fn inflight_op(&self) -> (r: Option<Op>)
        ensures
            r == match self@.inflight {
                Some((_, op)) => Some(op),
                None => None::<Op>,
            },
    {
        match &self.inflight {
            Some(i) => Some(i.op),
            None => None,
        }
    }

    /// Record the largest packet the session receives, as the subscription starts.
    pub fn set_max_rx_packet_size(&mut self, size: usize)
        ensures
            final(self)@ == (ServiceView { max_rx_packet_size: size, ..old(self)@ }),
    {
        self.max_rx_packet_size = size;
    }

    fn current_code(&self) -> (r: StatusCode)
        ensures
            r == spec_code_for(self@.state),
    {
        match self.state {
            State::Idle => StatusCode::Idle,
            State::Preparing | State::Ready | State::Writing => StatusCode::Accepted,
            State::Complete => StatusCode::Complete,
            State::Error => StatusCode::Error,
        }
    }

    fn replay_status(&self) -> (r: Option<StatusCode>)
        ensures
            r == spec_replay(self@),
    {
        if self.state != State::Idle {
            Some(self.current_code())
        } else {
            None
        }
    }

    fn queue(&mut self, action: Action)
        ensures
            final(self)@ == spec_queue(old(self)@, action),
    {
        let skip = match &self.inflight {
            Some(inflight) => action == Action::Subscribe && inflight.action == Action::Subscribe,
            None => false,
        };
        if skip {
            return;
        }
        self.pending = Some(action);
    }

    /// Begin staging startup for one MQTT connect event: on a fresh session, subscribe and
    /// hold the current status back until the subscription is done; on a resumed one,
    /// publish the current status again, unless idle.
    pub fn begin_startup(&mut self, event: ConnectEvent)
        requires
            old(self).wf(),
        ensures
            final(self).wf(),
            event == ConnectEvent::Connected ==> final(self)@ == (ServiceView {
                inflight: None,
                startup_publish: spec_replay(old(self)@),
                pending: Some(Action::Subscribe),
                ..old(self)@
            }),
            event == ConnectEvent::Reconnected ==> final(self)@ == match spec_replay(old(self)@) {
                Some(code) => spec_queue(
                    ServiceView { startup_publish: None, ..old(self)@ },
                    Action::Publish(code),
                ),
                None => ServiceView { startup_publish: None, ..old(self)@ },
            },
    {
        let replay = self.replay_status();
        match event {
            ConnectEvent::Connected => {
                self.inflight = None;
                self.startup_publish = replay;
                self.queue(Action::Subscribe);
            },
            ConnectEvent::Reconnected => {
                self.startup_publish = None;
                if let Some(code) = replay {
                    self.queue(Action::Publish(code));
                }
            },
        }
    }

    /// Whether staging has reached a terminal complete state with no queued or in-flight
    /// MQTT work left.
    pub fn is_complete(&self) -> (r: bool)
        ensures
            r == (self@.state == State::Complete && self@.request is None && self@.pending is None
                && self@.inflight is None && self@.startup_publish is None),
    {
        self.state == State::Complete && self.request.is_none() && self.pending.is_none()
            && self.inflight.is_none() && self.startup_publish.is_none()
    }
}

impl Service {
    /// The status published with `code`: the phase, the transfer's identifier, next offset
    /// and size (empty and zero without a transfer), and the chunk and write sizes.
    pub fn status_with(&self, code: StatusCode) -> (r: Status<'_>)
        ensures
            r.state == self@.state,
            r.code == code,
            r.mtu == self@.max_chunk_size,
            r.write_size == self@.write_size,
            match self@.transfer {
                Some(t) => r.id.spec_bytes() == t.id && r.next_offset == t.next_offset && r.size
                    == t.size,
                None => r.id.spec_bytes() == Seq::<u8>::empty() && r.next_offset == 0 && r.size
                    == 0,
            },
    {
        proof {
            reveal_strlit("");
            assert(""@ =~= Seq::<char>::empty());
            lemma_ascii_bytes("");
        }
        match &self.transfer {
            Some(t) => Status {
                state: self.state,
                code,
                id: t.id(),
                next_offset: t.next_offset,
                size: t.size,
                mtu: self.max_chunk_size,
                write_size: self.write_size,
            },
            None => Status {
                state: self.state,
                code,
                id: "",
                next_offset: 0,
                size: 0,
                mtu: self.max_chunk_size,
                write_size: self.write_size,
            },
        }
    }

    /// The current staging status.
    pub fn status(&self) -> (r: Status<'_>)
        ensures
            r.state == self@.state,
            r.code == spec_code_for(self@.state),
            r.mtu == self@.max_chunk_size,
            r.write_size == self@.write_size,
            match self@.transfer {
                Some(t) => r.id.spec_bytes() == t.id && r.next_offset == t.next_offset && r.size
                    == t.size,
                None => r.id.spec_bytes() == Seq::<u8>::empty() && r.next_offset == 0 && r.size
                    == 0,
            },
    {
        self.status_with(self.current_code())
    }

    /// Abort an active transfer (preparing, ready or writing): it fails, its storage request
    /// is dropped, and an `Error` status follows, held back until a startup subscription in
    /// flight or queued is done. Returns whether a transfer was active.
    pub fn abort(&mut self) -> (r: bool)
        requires
            old(self).wf(),
        ensures
            final(self).wf(),
            (final(self)@, r) == spec_abort(old(self)@),
    {
        if !(self.state == State::Preparing || self.state == State::Ready || self.state
            == State::Writing) {
            return false;
        }
        self.state = State::Error;
        self.request = None;
        let subscribing = match &self.inflight {
            Some(inflight) => inflight.action == Action::Subscribe,
            None => false,
        } || self.pending == Some(Action::Subscribe);
        if subscribing {
            self.startup_publish = Some(StatusCode::Error);
        } else {
            self.queue(Action::Publish(StatusCode::Error));
        }
        true
    }

    /// Take the outcome of the storage request in progress. Without one nothing changes.
    /// Without a transfer, or on failure, the transfer fails (`Error`, or `Storage` for a
    /// failed operation). A prepared area makes the service ready for the first chunk; a
    /// written chunk advances the next offset, and the final one completes the object.
    /// Each outcome queues the matching status.
    pub fn complete_request(&mut self, success: bool)
        requires
            old(self).wf(),
        ensures
            final(self).wf(),
            final(self)@ == spec_complete_request(old(self)@, success),
    {
        let request = match self.request.take() {
            Some(r) => r,
            None => return,
        };
        match self.transfer.as_mut() {
            None => {
                self.state = State::Error;
                self.queue(Action::Publish(StatusCode::Error));
            },
            Some(transfer) => {
                if !success {
                    self.state = State::Error;
                    self.queue(Action::Publish(StatusCode::Storage));
                    return;
                }
                match request {
                    PendingRequest::Prepare => {
                        self.state = State::Ready;
                        self.queue(Action::Publish(StatusCode::Accepted));
                    },
                    PendingRequest::Write { next_offset, final_chunk } => {
                        if final_chunk {
                            transfer.next_offset = transfer.size;
                            self.state = State::Complete;
                            self.queue(Action::Publish(StatusCode::Complete));
                        } else {
                            transfer.next_offset = next_offset;
                            self.state = State::Ready;
                            self.queue(Action::Publish(StatusCode::Accepted));
                        }
                    },
                }
            },
        }
    }
}

/// The transfer a manifest announces, given what decoding its JSON object gave.
pub open spec fn spec_parsed(payload: Seq<u8>, decoded: Option<(Manifest, usize)>) -> Option<
    TransferView,
> {
    match decoded {
        None => None,
        Some((m, used)) => if spec_manifest_ok(payload, m, used as nat) {
            Some(TransferView { id: m.id.spec_bytes(), size: m.size, next_offset: 0, fnv1a64: m.fnv1a64 })
        } else {
            None
        },
    }
}

/// The service after a manifest that announces `parsed` (`None` for an invalid one), and the
/// size of the area to prepare, when it is accepted. While a transfer is active only the
/// same manifest is answered, with the current status; otherwise an empty, oversized or
/// unreceivable object is refused with its status, and an acceptable one starts preparing.
pub open spec fn spec_handle_manifest(v: ServiceView, parsed: Option<TransferView>) -> (
    ServiceView,
    Option<u32>,
) {
    match parsed {
        None => (
            if v.state == State::Idle {
                spec_queue(v, Action::Publish(StatusCode::Error))
            } else {
                v
            },
            None,
        ),
        Some(m) => if v.state != State::Idle {
            if v.transfer matches Some(t) && t.id == m.id && t.size == m.size && t.fnv1a64
                == m.fnv1a64 {
                (spec_queue(v, Action::Publish(spec_code_for(v.state))), None)
            } else {
                (v, None)
            }
        } else if m.size == 0 {
            (spec_queue(v, Action::Publish(StatusCode::Error)), None)
        } else if m.size > v.capacity {
            (spec_queue(v, Action::Publish(StatusCode::Oversize)), None)
        } else if spec_required_rx_bytes(v.prefix.len() + 6, m.id.len(), v.max_chunk_size as nat)
            > v.max_rx_packet_size {
            (spec_queue(v, Action::Publish(StatusCode::Mtu)), None)
        } else {
            (
                ServiceView {
                    transfer: Some(m),
                    state: State::Preparing,
                    request: Some(PendingRequest::Prepare),
                    ..spec_queue(v, Action::Publish(StatusCode::Accepted))
                },
                Some(m.size),
            )
        },
    }
}

/// The service after a chunk for transfer `id` at `offset` with `payload`, and the offset
/// after it, when it is to be written. Chunks for another transfer, or while preparing or
/// writing, are ignored; after the end the final status is repeated; without a ready
/// transfer `Idle` is reported; otherwise the chunk is checked and either written, ignored
/// with a status, or failing the transfer.
pub open spec fn spec_handle_chunk(v: ServiceView, id: Seq<u8>, offset: u32, payload: Seq<u8>) -> (
    ServiceView,
    Option<u32>,
) {
    match v.transfer {
        None => (spec_queue(v, Action::Publish(StatusCode::Idle)), None),
        Some(t) => if id != t.id {
            (v, None)
        } else if v.state == State::Preparing {
            (v, None)
        } else if v.state == State::Complete || v.state == State::Error {
            (spec_queue(v, Action::Publish(spec_code_for(v.state))), None)
        } else if v.state == State::Writing {
            (v, None)
        } else if v.state != State::Ready {
            (spec_queue(v, Action::Publish(StatusCode::Idle)), None)
        } else {
            match spec_validate_chunk(
                t,
                offset,
                payload,
                v.capacity,
                v.max_chunk_size,
                v.write_size,
            ) {
                Ok(next) => (
                    ServiceView {
                        state: State::Writing,
                        request: Some(
                            PendingRequest::Write { next_offset: next, final_chunk: next == t.size },
                        ),
                        ..v
                    },
                    Some(next),
                ),
                Err(ChunkError::Queue(code)) => (spec_queue(v, Action::Publish(code)), None),
                Err(ChunkError::Fail(code)) => (
                    spec_queue(ServiceView { state: State::Error, ..v }, Action::Publish(code)),
                    None,
                ),
            }
        },
    }
}

/// Whether `r` hands out the write of `payload` at `offset` for transfer `t`, the offset
/// after it being `next`: the checksum comes with the final chunk only.
pub open spec fn spec_write_request(r: Handle, t: TransferView, offset: u32, payload: &[u8], next: u32) -> bool {
    r matches Handle::Request(StagingRequest::Write(w)) && w.offset == offset && w.payload
        == payload && w.size == t.size && w.fnv1a64 == if next == t.size {
        Some(t.fnv1a64)
    } else {
        None
    }
}

/// Where a topic goes below the protocol root `prefix`.
#[derive(Debug, Clone, Copy, PartialEq, Eq, Structural)]
pub enum Route {
    /// The manifest topic.
    Manifest,
    /// The chunk topic.
    Chunk,
    /// Not staging traffic.
    Other,
}

/// Where `topic` goes below `prefix`.
pub open spec fn spec_route(topic: Seq<u8>, prefix: Seq<u8>) -> Route {
    if starts_with(topic, prefix) && topic.subrange(prefix.len() as int, topic.len() as int)
        == manifest_suffix() {
        Route::Manifest
    } else if starts_with(topic, prefix) && topic.subrange(prefix.len() as int, topic.len() as int)
        == chunk_suffix() {
        Route::Chunk
    } else {
        Route::Other
    }
}

impl Service {
    /// Where `topic` goes.
    pub fn route(&self, topic: &str) -> (r: Route)
        ensures
            r == spec_route(topic.spec_bytes(), self@.prefix),
    {
        proof {
            lemma_topic_suffixes();
        }
        match str_strip_prefix(topic, topic_as_str(&self.prefix)) {
            Some(rest) => {
                if bytes_eq(rest.as_bytes(), MANIFEST_SUFFIX.as_bytes()) {
                    Route::Manifest
                } else if bytes_eq(rest.as_bytes(), CHUNK_SUFFIX.as_bytes()) {
                    Route::Chunk
                } else {
                    Route::Other
                }
            },
            None => Route::Other,
        }
    }

    /// The manifest topic, `<prefix>/manifest`.
    pub fn manifest_topic(&self) -> (r: heapless::String<128>)
        requires
            self.wf(),
        ensures
            topic_bytes(r) == self@.prefix + manifest_suffix(),
    {
        proof {
            lemma_topic_suffixes();
        }
        match topic(&self.prefix, MANIFEST_SUFFIX) {
            Ok(t) => t,
            Err(_) => topic_clone(&self.prefix),
        }
    }

    /// The status topic, `<prefix>/status`.
    pub fn status_topic(&self) -> (r: heapless::String<128>)
        requires
            self.wf(),
        ensures
            topic_bytes(r) == self@.prefix + status_suffix(),
    {
        proof {
            lemma_topic_suffixes();
        }
        match topic(&self.prefix, STATUS_SUFFIX) {
            Ok(t) => t,
            Err(_) => topic_clone(&self.prefix),
        }
    }

    /// The chunk topic, `<prefix>/chunk`.
    pub fn chunk_topic(&self) -> (r: heapless::String<128>)
        requires
            self.wf(),
        ensures
            topic_bytes(r) == self@.prefix + chunk_suffix(),
    {
        proof {
            lemma_topic_suffixes();
        }
        match topic(&self.prefix, CHUNK_SUFFIX) {
            Ok(t) => t,
            Err(_) => topic_clone(&self.prefix),
        }
    }

    /// Handle a manifest with `payload`, given what decoding its JSON object gave.
    pub fn handle_manifest<'a>(
        &mut self,
        payload: &'a [u8],
        decoded: Option<(Manifest<'_>, usize)>,
    ) -> (r: Handle<'a>)
        requires
            old(self).wf(),
            old(self)@.max_chunk_size + 256 <= usize::MAX,
            decoded matches Some((_, used)) ==> used <= payload@.len(),
        ensures
            final(self).wf(),
            final(self)@ == spec_handle_manifest(old(self)@, spec_parsed(payload@, decoded)).0,
            match spec_handle_manifest(old(self)@, spec_parsed(payload@, decoded)).1 {
                Some(size) => r matches Handle::Request(StagingRequest::Prepare { size: x }) && x
                    == size,
                None => r is Consumed,
            },
    {
        let manifest = match parse_manifest(payload, decoded) {
            Ok(m) => m,
            Err(_) => {
                if self.state == State::Idle {
                    self.queue(Action::Publish(StatusCode::Error));
                }
                return Handle::Consumed;
            },
        };
        if self.state != State::Idle {
            let same = match &self.transfer {
                Some(t) => bytes_eq(t.id().as_bytes(), manifest.id().as_bytes()) && t.size
                    == manifest.size && t.fnv1a64 == manifest.fnv1a64,
                None => false,
            };
            if same {
                let code = self.current_code();
                self.queue(Action::Publish(code));
            }
            return Handle::Consumed;
        }
        if manifest.size == 0 {
            self.queue(Action::Publish(StatusCode::Error));
            return Handle::Consumed;
        }
        if manifest.size > self.capacity {
            self.queue(Action::Publish(StatusCode::Oversize));
            return Handle::Consumed;
        }
        let chunk_topic = self.chunk_topic();
        let needed = required_rx_bytes(
            topic_as_str(&chunk_topic),
            manifest.id().as_bytes(),
            self.max_chunk_size,
        );
        if needed > self.max_rx_packet_size {
            self.queue(Action::Publish(StatusCode::Mtu));
            return Handle::Consumed;
        }
        let size = manifest.size;
        self.transfer = Some(manifest);
        self.state = State::Preparing;
        self.queue(Action::Publish(StatusCode::Accepted));
        self.request = Some(PendingRequest::Prepare);
        Handle::Request(StagingRequest::Prepare { size })
    }

    /// Handle a chunk for transfer `id` at `offset` with `payload`.
    pub fn handle_chunk<'a>(&mut self, id: &[u8], offset: u32, payload: &'a [u8]) -> (r: Handle<
        'a,
    >)
        requires
            old(self).wf(),
        ensures
            final(self).wf(),
            final(self)@ == spec_handle_chunk(old(self)@, id@, offset, payload@).0,
            match spec_handle_chunk(old(self)@, id@, offset, payload@).1 {
                Some(next) => spec_write_request(
                    r,
                    old(self)@.transfer->Some_0,
                    offset,
                    payload,
                    next,
                ),
                None => r is Consumed,
            },
    {
        let ghost v = self@;
        let (transfer_size, transfer_fnv, matches_id) = match &self.transfer {
            Some(t) => (t.size, t.fnv1a64, bytes_eq(id, t.id().as_bytes())),
            None => {
                self.queue(Action::Publish(StatusCode::Idle));
                return Handle::Consumed;
            },
        };
        if !matches_id {
            return Handle::Consumed;
        }
        if self.state == State::Preparing {
            return Handle::Consumed;
        }
        if self.state == State::Complete || self.state == State::Error {
            let code = self.current_code();
            self.queue(Action::Publish(code));
            return Handle::Consumed;
        }
        if self.state == State::Writing {
            return Handle::Consumed;
        }
        if self.state != State::Ready {
            self.queue(Action::Publish(StatusCode::Idle));
            return Handle::Consumed;
        }
        let checked = match &self.transfer {
            Some(t) => validate_chunk(
                t,
                offset,
                payload,
                self.capacity,
                self.max_chunk_size,
                self.write_size,
            ),
            None => Err(ChunkError::Queue(StatusCode::Idle)),
        };
        let next_offset = match checked {
            Ok(next_offset) => next_offset,
            Err(ChunkError::Queue(code)) => {
                self.queue(Action::Publish(code));
                return Handle::Consumed;
            },
            Err(ChunkError::Fail(code)) => {
                self.state = State::Error;
                self.queue(Action::Publish(code));
                return Handle::Consumed;
            },
        };
        let final_chunk = next_offset == transfer_size;
        let fnv1a64 = if final_chunk {
            Some(transfer_fnv)
        } else {
            None
        };
        self.state = State::Writing;
        self.request = Some(PendingRequest::Write { next_offset, final_chunk });
        Handle::Request(
            StagingRequest::Write(StagingWrite { offset, payload, size: transfer_size, fnv1a64 }),
        )
    }
}

/// What `step` does next.
#[derive(Debug, Clone, Copy, PartialEq, Eq, Structural)]
pub enum StepPoll {
    /// MQTT work is still in flight.
    Pending,
    /// The session that carried the work in flight was lost; the work is queued again.
    Disconnected,
    /// Nothing is queued.
    Quiescent,
    /// Start this action (subscribe, or publish the status with a code) and report how that
    /// went with `action_started` or `action_failed`.
    Start(Action),
}

/// The service and answer of the first part of `step`, given where the operation in flight
/// stands.
pub open spec fn spec_step_poll(v: ServiceView, status: OpStatus) -> (ServiceView, StepPoll) {
    let after_inflight = match v.inflight {
        Some((action, _)) => match status {
            OpStatus::Pending => None,
            OpStatus::Invalidated => Some(
                (spec_queue(ServiceView { inflight: None, ..v }, action), true),
            ),
            OpStatus::Complete => if action == Action::Subscribe && v.startup_publish is Some {
                Some(
                    (
                        spec_queue(
                            ServiceView { inflight: None, startup_publish: None, ..v },
                            Action::Publish(v.startup_publish->Some_0),
                        ),
                        false,
                    ),
                )
            } else {
                Some((ServiceView { inflight: None, ..v }, false))
            },
        },
        None => Some((v, false)),
    };
    match after_inflight {
        None => (v, StepPoll::Pending),
        Some((w, true)) => (w, StepPoll::Disconnected),
        Some((w, false)) => match w.pending {
            None => (w, StepPoll::Quiescent),
            Some(a) => (ServiceView { pending: None, ..w }, StepPoll::Start(a)),
        },
    }
}

impl Service {
    /// Handle one inbound publish on `topic` with `payload` and `properties`, given what
    /// decoding its payload as a manifest's JSON object gave (consulted on the manifest topic
    /// only): manifests and chunks are handled, anything else is left to the owner. A chunk
    /// without its identifier or offset is consumed and ignored.
    pub fn handle_publish_with_properties<'a>(
        &mut self,
        topic: &str,
        payload: &'a [u8],
        properties: &Properties<'_>,
        decoded: Option<(Manifest<'_>, usize)>,
    ) -> (r: Handle<'a>)
        requires
            old(self).wf(),
            old(self)@.max_chunk_size + 256 <= usize::MAX,
            decoded matches Some((_, used)) ==> used <= payload@.len(),
        ensures
            final(self).wf(),
            spec_route(topic.spec_bytes(), old(self)@.prefix) == Route::Other ==> r is Unhandled
                && final(self)@ == old(self)@,
            spec_route(topic.spec_bytes(), old(self)@.prefix) == Route::Manifest ==> {
                let (after, prepare) = spec_handle_manifest(
                    old(self)@,
                    spec_parsed(payload@, decoded),
                );
                &&& final(self)@ == after
                &&& match prepare {
                    Some(size) => r matches Handle::Request(StagingRequest::Prepare { size: x })
                        && x == size,
                    None => r is Consumed,
                }
            },
            spec_route(topic.spec_bytes(), old(self)@.prefix) == Route::Chunk ==> exists|
                id: Option<&[u8]>,
                items: Seq<Result<Property, PeerError>>,
            |
                is_first_correlation_data(*properties, id) && spec_iterated(*properties, items)
                    && match (id, spec_offset_property(items, items.len())) {
                    (Some(i), Some(o)) => {
                        let (after, next) = spec_handle_chunk(old(self)@, i@, o, payload@);
                        &&& final(self)@ == after
                        &&& match next {
                            Some(n) => spec_write_request(
                                r,
                                old(self)@.transfer->Some_0,
                                o,
                                payload,
                                n,
                            ),
                            None => r is Consumed,
                        }
                    },
                    _ => r is Consumed && final(self)@ == old(self)@,
                },
    {
        match self.route(topic) {
            Route::Manifest => self.handle_manifest(payload, decoded),
            Route::Chunk => match chunk_properties(properties) {
                Some(chunk) => self.handle_chunk(chunk.id, chunk.offset, payload),
                None => Handle::Consumed,
            },
            Route::Other => Handle::Unhandled,
        }
    }

    /// Handle one inbound publish, given what decoding its payload as a manifest's JSON object
    /// gave (consulted on the manifest topic only).
    pub fn handle<'a>(
        &mut self,
        inbound: &crate::client::InboundPublish<'a>,
        decoded: Option<(Manifest<'_>, usize)>,
    ) -> (r: Handle<'a>)
        requires
            old(self).wf(),
            old(self)@.max_chunk_size + 256 <= usize::MAX,
            decoded matches Some((_, used)) ==> used <= inbound.payload@.len(),
        ensures
            final(self).wf(),
            spec_route(inbound.topic.spec_bytes(), old(self)@.prefix) == Route::Other ==> r is Unhandled
                && final(self)@ == old(self)@,
            spec_route(inbound.topic.spec_bytes(), old(self)@.prefix) == Route::Manifest ==> {
                let (after, prepare) = spec_handle_manifest(
                    old(self)@,
                    spec_parsed(inbound.payload@, decoded),
                );
                &&& final(self)@ == after
                &&& match prepare {
                    Some(size) => r matches Handle::Request(StagingRequest::Prepare { size: x })
                        && x == size,
                    None => r is Consumed,
                }
            },
            spec_route(inbound.topic.spec_bytes(), old(self)@.prefix) == Route::Chunk ==> exists|
                id: Option<&[u8]>,
                items: Seq<Result<Property, PeerError>>,
            |
                is_first_correlation_data(inbound.properties, id) && spec_iterated(
                    inbound.properties,
                    items,
                ) && match (id, spec_offset_property(items, items.len())) {
                    (Some(i), Some(o)) => {
                        let (after, next) = spec_handle_chunk(old(self)@, i@, o, inbound.payload@);
                        &&& final(self)@ == after
                        &&& match next {
                            Some(n) => spec_write_request(
                                r,
                                old(self)@.transfer->Some_0,
                                o,
                                inbound.payload,
                                n,
                            ),
                            None => r is Consumed,
                        }
                    },
                    _ => r is Consumed && final(self)@ == old(self)@,
                },
    {
        self.handle_publish_with_properties(
            inbound.topic(),
            inbound.payload(),
            inbound.properties(),
            decoded,
        )
    }

    /// The first part of one cooperative step, given where the operation in flight stands
    /// (ignored when nothing is in flight): work still in flight stays; work whose session
    /// was lost is queued again; a finished startup subscription releases the held-back
    /// status; then the next queued action, if any, is taken to be started.
    pub fn step_poll(&mut self, status: OpStatus) -> (r: StepPoll)
        requires
            old(self).wf(),
        ensures
            final(self).wf(),
            (final(self)@, r) == spec_step_poll(old(self)@, status),
    {
        let taken = self.inflight.take();
        if let Some(inflight) = taken {
            match status {
                OpStatus::Pending => {
                    self.inflight = Some(inflight);
                    return StepPoll::Pending;
                },
                OpStatus::Invalidated => {
                    self.queue(inflight.action);
                    return StepPoll::Disconnected;
                },
                OpStatus::Complete => {
                    if inflight.action == Action::Subscribe {
                        if let Some(code) = self.startup_publish.take() {
                            self.queue(Action::Publish(code));
                        }
                    }
                },
            }
        }
        match self.pending.take() {
            None => StepPoll::Quiescent,
            Some(action) => StepPoll::Start(action),
        }
    }

    /// The second part of a step: `action` was started, and `op` tracks it when the broker
    /// is to acknowledge it. Quiescent when nothing is in flight or queued.
    pub fn action_started(&mut self, action: Action, op: Option<Op>) -> (r: Step)
        requires
            old(self).wf(),
        ensures
            final(self).wf(),
            final(self)@ == (ServiceView {
                inflight: match op {
                    Some(o) => Some((action, o)),
                    None => None,
                },
                ..old(self)@
            }),
            r == if op is None && old(self)@.pending is None {
                Step::Quiescent
            } else {
                Step::Pending
            },
    {
        self.inflight = match op {
            Some(op) => Some(InFlightAction { action, op }),
            None => None,
        };
        if self.inflight.is_none() && self.pending.is_none() {
            Step::Quiescent
        } else {
            Step::Pending
        }
    }

    /// The second part of a step: starting `action` failed; it stays queued.
    pub fn action_failed(&mut self, action: Action)
        requires
            old(self).wf(),
        ensures
            final(self).wf(),
            final(self)@ == (ServiceView { pending: Some(action), ..old(self)@ }),
    {
        self.pending = Some(action);
    }

    /// The options of the staging subscriptions: QoS 1, no retained messages, own messages
    /// not delivered.
    pub fn subscription_options() -> (r: SubscriptionOptions)
        ensures
            r == (SubscriptionOptions {
                maximum_qos: QoS::AtLeastOnce,
                no_local: true,
                retain_as_published: false,
                retain_handling: RetainHandling::Never,
            }),
    {
        SubscriptionOptions::default().maximum_qos(QoS::AtLeastOnce).retain_behavior(
            RetainHandling::Never,
        ).ignore_local_messages()
    }

    /// The correlation data of status publications: the transfer's identifier, empty without
    /// a transfer.
    pub fn status_correlation(&self) -> (r: &[u8])
        ensures
            r@ == match self@.transfer {
                Some(t) => t.id,
                None => Seq::<u8>::empty(),
            },
    {
        match &self.transfer {
            Some(t) => t.id().as_bytes(),
            None => {
                let empty: &[u8] = &[];
                assert(empty@ =~= Seq::<u8>::empty());
                empty
            },
        }
    }
}

/// `offset` in decimal, as the `offset` user property carries it.
pub fn offset_text(offset: u32) -> (r: String)
    ensures
        r@ == spec_decimal(offset as nat),
{
    decimal_text(offset)
}

/// The properties of a status publication: a UTF-8 payload, the chunk topic as response
/// topic, the transfer identifier as correlation data, and the next offset as the `offset`
/// user property.
pub fn status_properties<'b>(chunk_topic: &'b str, id: &'b [u8], offset: &'b str) -> (r: Vec<
    Property<'b>,
>)
    ensures
        r@ == seq![
            Property::PayloadFormatIndicator(1),
            Property::ResponseTopic(chunk_topic),
            Property::CorrelationData(id),
            Property::UserProperty(OFFSET_KEY, offset),
        ],
{
    vec![
        Property::PayloadFormatIndicator(1),
        Property::ResponseTopic(chunk_topic),
        Property::CorrelationData(id),
        Property::UserProperty(OFFSET_KEY, offset),
    ]
}

/// The status publication of `payload` (the status as JSON) to `status_topic` with
/// `properties`: QoS 1, not retained.
pub fn status_publication<'b>(
    status_topic: &'b str,
    payload: &'b [u8],
    properties: &'b [Property<'b>],
) -> (r: Publication<'b, &'b [u8]>)
    ensures
        r.topic == status_topic,
        r.payload == payload,
        r.qos == QoS::AtLeastOnce,
        r.retain == crate::Retain::NotRetained,
        !r.properties.is_encoded(),
        r.properties.list() == properties@,
{
    Publication::new(status_topic, payload).properties(properties).qos(QoS::AtLeastOnce)
}

} // verus!

verus! {

/// The manifest and chunk topics route to their handlers, and the status topic the service
/// publishes on is not taken for staging traffic.
pub proof fn law_staging_routes(prefix: Seq<u8>)
    ensures
        spec_route(prefix + manifest_suffix(), prefix) == Route::Manifest,
        spec_route(prefix + chunk_suffix(), prefix) == Route::Chunk,
        spec_route(prefix + status_suffix(), prefix) == Route::Other,
{
    let m = prefix + manifest_suffix();
    let c = prefix + chunk_suffix();
    let st = prefix + status_suffix();
    assert(m.subrange(0, prefix.len() as int) =~= prefix);
    assert(c.subrange(0, prefix.len() as int) =~= prefix);
    assert(st.subrange(0, prefix.len() as int) =~= prefix);
    assert(m.subrange(prefix.len() as int, m.len() as int) =~= manifest_suffix());
    assert(c.subrange(prefix.len() as int, c.len() as int) =~= chunk_suffix());
    assert(st.subrange(prefix.len() as int, st.len() as int) =~= status_suffix());
    assert(status_suffix() != manifest_suffix()) by {
        assert(status_suffix().len() != manifest_suffix().len());
    }
    assert(status_suffix() != chunk_suffix()) by {
        assert(status_suffix()[1] != chunk_suffix()[1]);
    }
}

/// Chunks are written in order: storage gets a chunk only when the service is ready for it,
/// for the transfer it names, at exactly the next offset, with a non-empty payload of at most
/// one chunk that is a multiple of the write size, and the offset after it does not pass the
/// object's size.
pub proof fn law_chunks_written_in_order(v: ServiceView, id: Seq<u8>, offset: u32, payload: Seq<u8>)
    requires
        view_wf(v),
        payload.len() <= u32::MAX,
    ensures
        spec_handle_chunk(v, id, offset, payload).1 matches Some(next) ==> {
            &&& v.state == State::Ready
            &&& v.transfer matches Some(t) && id == t.id && offset == t.next_offset && offset
                < next && next <= t.size
            &&& 0 < payload.len() <= v.max_chunk_size
            &&& payload.len() % (v.write_size as nat) == 0
        },
        view_wf(spec_handle_chunk(v, id, offset, payload).0),
{
}

/// A transfer starts only from idle, with a manifest that was accepted: its size is between
/// one byte and the capacity, and writing begins at offset 0 once the area is prepared.
pub proof fn law_manifest_starts_transfer(v: ServiceView, parsed: Option<TransferView>)
    requires
        view_wf(v),
        parsed matches Some(m) ==> m.next_offset == 0,
    ensures
        spec_handle_manifest(v, parsed).1 matches Some(size) ==> {
            &&& v.state == State::Idle
            &&& parsed is Some
            &&& size == parsed->Some_0.size && 0 < size <= v.capacity
            &&& spec_handle_manifest(v, parsed).0.transfer == parsed
            &&& spec_handle_manifest(v, parsed).0.state == State::Preparing
            &&& spec_complete_request(spec_handle_manifest(v, parsed).0, true).state == State::Ready
            &&& spec_complete_request(spec_handle_manifest(v, parsed).0, true).transfer == parsed
        },
{
}

/// An abort takes effect once: right after one, there is nothing left to abort.
pub proof fn law_abort_once(v: ServiceView)
    ensures
        !spec_abort(spec_abort(v).0).1,
{
}

/// Progress never goes back: handling a chunk or a manifest of an active transfer leaves the
/// next offset where it was, and completing a storage request for the same transfer moves it
/// forward or keeps it.
pub proof fn law_progress_monotone(
    v: ServiceView,
    id: Seq<u8>,
    offset: u32,
    payload: Seq<u8>,
    success: bool,
)
    requires
        view_wf(v),
        v.transfer is Some,
    ensures
        spec_handle_chunk(v, id, offset, payload).0.transfer == v.transfer,
        spec_complete_request(v, success).transfer matches Some(t) && t.id == v.transfer->Some_0.id
            && t.next_offset >= v.transfer->Some_0.next_offset,
{
}


/// Whether `b` is an ASCII letter of either case, an ASCII digit, or one of '-', '.', '_'.
pub open spec fn ascii_name_byte(b: u8) -> bool {
    let c = b as char;
    ||| 'a' <= c && c <= 'z'
    ||| 'A' <= c && c <= 'Z'
    ||| '0' <= c && c <= '9'
    ||| c == '-' || c == '.' || c == '_'
}

/// A transfer identifier is accepted exactly when it is 1 to 48 bytes long and every byte is
/// an ASCII letter of either case, an ASCII digit, '-', '.' or '_'.
pub proof fn law_valid_ids(id: Seq<u8>)
    ensures
        spec_valid_id(id) <==> (1 <= id.len() <= 48 && forall|i: int|
            0 <= i < id.len() ==> ascii_name_byte(#[trigger] id[i])),
{
    assert forall|b: u8| id_byte(b) <==> ascii_name_byte(b) by {
        assert(('a' as u8) == 97 && ('z' as u8) == 122 && ('A' as u8) == 65 && ('Z' as u8) == 90);
        assert(('0' as u8) == 48 && ('9' as u8) == 57 && ('-' as u8) == 45 && ('.' as u8) == 46
            && ('_' as u8) == 95);
    }
    if spec_valid_id(id) {
        assert forall|i: int| 0 <= i < id.len() implies ascii_name_byte(#[trigger] id[i]) by {
            assert(id_byte(id[i]));
        }
    }
    if 1 <= id.len() <= 48 && forall|i: int| 0 <= i < id.len() ==> ascii_name_byte(#[trigger] id[i]) {
        assert forall|i: int| 0 <= i < id.len() implies id_byte(#[trigger] id[i]) by {
            assert(ascii_name_byte(id[i]));
        }
    }
}

} // verus!
