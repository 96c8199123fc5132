//! The fixed-capacity `heapless::Vec` collections that session state keeps, each seen through
//! a name for the items it holds, in order.
use crate::outbound::{PendingControl, PendingRelease, RetainedPacket, SendState};
use vstd::prelude::*;
use vstd::string::StringSliceAdditionalSpecFns;

verus! {

/// `heapless::Vec`, a vector of at most `N` items stored inline.
#[verifier::external_type_specification]
#[verifier::external_body]
#[verifier::reject_recursive_types(T)]
pub struct ExHeaplessVec<T, const N: usize>(heapless::Vec<T, N>);

/// Packet identifiers held by a `heapless::Vec<u16, 8>`, in order.
pub uninterp spec fn packet_ids(v: heapless::Vec<u16, 8>) -> Seq<u16>;

/// Control packets held by a `heapless::Vec<PendingControl, 8>`, in order.
pub uninterp spec fn controls(v: heapless::Vec<PendingControl, 8>) -> Seq<PendingControl>;

/// Releases held by a `heapless::Vec<PendingRelease, 8>`, in order.
pub uninterp spec fn releases(v: heapless::Vec<PendingRelease, 8>) -> Seq<PendingRelease>;

/// Retained packets held by a `heapless::Vec<RetainedPacket, 8>`, in order.
pub uninterp spec fn retained_packets(v: heapless::Vec<RetainedPacket, 8>) -> Seq<RetainedPacket>;

// Packet identifiers.

/// `heapless::Vec::new`: no items.
#[verifier::external_body]
pub(crate) fn ids_new() -> (r: heapless::Vec<u16, 8>)
    ensures
        packet_ids(r) == Seq::<u16>::empty(),
{
    heapless::Vec::new()
}

/// `heapless::Vec::as_slice`: the items, at most 8 of them.
#[verifier::external_body]
pub(crate) fn ids_slice(v: &heapless::Vec<u16, 8>) -> (r: &[u16])
    ensures
        r@ == packet_ids(*v),
        r@.len() <= 8,
{
    v.as_slice()
}

/// `heapless::Vec::push`: appends `item` when fewer than 8 items are held; hands it back
/// otherwise, leaving the items as they were.
#[verifier::external_body]
pub(crate) fn ids_push(v: &mut heapless::Vec<u16, 8>, item: u16) -> (r: Result<(), u16>)
    ensures
        packet_ids(*old(v)).len() < 8 ==> r is Ok && packet_ids(*final(v)) == packet_ids(
            *old(v),
        ).push(item),
        packet_ids(*old(v)).len() >= 8 ==> (r matches Err(x) && x == item) && packet_ids(
            *final(v),
        ) == packet_ids(*old(v)),
{
    v.push(item)
}

/// `heapless::Vec::swap_remove`: removes the item at `index`, moving the last item into its
/// place.
#[verifier::external_body]
pub(crate) fn ids_swap_remove(v: &mut heapless::Vec<u16, 8>, index: usize) -> (r: u16)
    requires
        index < packet_ids(*old(v)).len(),
    ensures
        r == packet_ids(*old(v))[index as int],
        packet_ids(*final(v)) == packet_ids(*old(v)).update(
            index as int,
            packet_ids(*old(v)).last(),
        ).drop_last(),
{
    v.swap_remove(index)
}

/// `heapless::Vec::clear`: no items left.
#[verifier::external_body]
pub(crate) fn ids_clear(v: &mut heapless::Vec<u16, 8>)
    ensures
        packet_ids(*final(v)) == Seq::<u16>::empty(),
{
    v.clear()
}

// Control packets.

/// `heapless::Vec::new`: no items.
#[verifier::external_body]
pub(crate) fn controls_new() -> (r: heapless::Vec<PendingControl, 8>)
    ensures
        controls(r) == Seq::<PendingControl>::empty(),
{
    heapless::Vec::new()
}

/// `heapless::Vec::as_slice`: the items, at most 8 of them.
#[verifier::external_body]
pub(crate) fn controls_slice(v: &heapless::Vec<PendingControl, 8>) -> (r: &[PendingControl])
    ensures
        r@ == controls(*v),
        r@.len() <= 8,
{
    v.as_slice()
}

/// `heapless::Vec::push`: appends `item` when fewer than 8 items are held; hands it back
/// otherwise, leaving the items as they were.
#[verifier::external_body]
pub(crate) fn controls_push(v: &mut heapless::Vec<PendingControl, 8>, item: PendingControl) -> (r:
    Result<(), PendingControl>)
    ensures
        controls(*old(v)).len() < 8 ==> r is Ok && controls(*final(v)) == controls(*old(v)).push(
            item,
        ),
        controls(*old(v)).len() >= 8 ==> (r matches Err(x) && x == item) && controls(*final(v))
            == controls(*old(v)),
{
    v.push(item)
}

/// Indexing through `heapless::Vec`'s `DerefMut`: replaces the item at `index`.
#[verifier::external_body]
pub(crate) fn controls_set(v: &mut heapless::Vec<PendingControl, 8>, index: usize, item: PendingControl)
    requires
        index < controls(*old(v)).len(),
    ensures
        controls(*final(v)) == controls(*old(v)).update(index as int, item),
{
    v[index] = item;
}

/// Whether a control packet has not been sent in full yet.
pub(crate) fn control_unsent(entry: &PendingControl) -> (r: bool)
    ensures
        r == (entry.state != SendState::Sent),
{
    entry.state != SendState::Sent
}

/// `heapless::Vec::retain`: keeps, in order, the items not sent in full yet.
#[verifier::external_body]
pub(crate) fn controls_retain_unsent(v: &mut heapless::Vec<PendingControl, 8>)
    ensures
        controls(*final(v)) == controls(*old(v)).filter(
            |e: PendingControl| e.state != SendState::Sent,
        ),
{
    v.retain(|entry| control_unsent(entry))
}

/// `heapless::Vec::clear`: no items left.
#[verifier::external_body]
pub(crate) fn controls_clear(v: &mut heapless::Vec<PendingControl, 8>)
    ensures
        controls(*final(v)) == Seq::<PendingControl>::empty(),
{
    v.clear()
}

// Releases.

/// `heapless::Vec::new`: no items.
#[verifier::external_body]
pub(crate) fn releases_new() -> (r: heapless::Vec<PendingRelease, 8>)
    ensures
        releases(r) == Seq::<PendingRelease>::empty(),
{
    heapless::Vec::new()
}

/// `heapless::Vec::as_slice`: the items, at most 8 of them.
#[verifier::external_body]
pub(crate) fn releases_slice(v: &heapless::Vec<PendingRelease, 8>) -> (r: &[PendingRelease])
    ensures
        r@ == releases(*v),
        r@.len() <= 8,
{
    v.as_slice()
}

/// `heapless::Vec::push`: appends `item` when fewer than 8 items are held; hands it back
/// otherwise, leaving the items as they were.
#[verifier::external_body]
pub(crate) fn releases_push(v: &mut heapless::Vec<PendingRelease, 8>, item: PendingRelease) -> (r:
    Result<(), PendingRelease>)
    ensures
        releases(*old(v)).len() < 8 ==> r is Ok && releases(*final(v)) == releases(*old(v)).push(
            item,
        ),
        releases(*old(v)).len() >= 8 ==> (r matches Err(x) && x == item) && releases(*final(v))
            == releases(*old(v)),
{
    v.push(item)
}

/// Indexing through `heapless::Vec`'s `DerefMut`: replaces the item at `index`.
#[verifier::external_body]
pub(crate) fn releases_set(v: &mut heapless::Vec<PendingRelease, 8>, index: usize, item: PendingRelease)
    requires
        index < releases(*old(v)).len(),
    ensures
        releases(*final(v)) == releases(*old(v)).update(index as int, item),
{
    v[index] = item;
}

/// `heapless::Vec::swap_remove`: removes the item at `index`, moving the last item into its
/// place.
#[verifier::external_body]
pub(crate) fn releases_swap_remove(v: &mut heapless::Vec<PendingRelease, 8>, index: usize) -> (r:
    PendingRelease)
    requires
        index < releases(*old(v)).len(),
    ensures
        r == releases(*old(v))[index as int],
        releases(*final(v)) == releases(*old(v)).update(
            index as int,
            releases(*old(v)).last(),
        ).drop_last(),
{
    v.swap_remove(index)
}

/// `heapless::Vec::clear`: no items left.
#[verifier::external_body]
pub(crate) fn releases_clear(v: &mut heapless::Vec<PendingRelease, 8>)
    ensures
        releases(*final(v)) == Seq::<PendingRelease>::empty(),
{
    v.clear()
}

// Retained packets.

/// `heapless::Vec::new`: no items.
#[verifier::external_body]
pub(crate) fn retained_new() -> (r: heapless::Vec<RetainedPacket, 8>)
    ensures
        retained_packets(r) == Seq::<RetainedPacket>::empty(),
{
    heapless::Vec::new()
}

/// `heapless::Vec::as_slice`: the items, at most 8 of them.
#[verifier::external_body]
pub(crate) fn retained_slice(v: &heapless::Vec<RetainedPacket, 8>) -> (r: &[RetainedPacket])
    ensures
        r@ == retained_packets(*v),
        r@.len() <= 8,
{
    v.as_slice()
}

/// `heapless::Vec::push`: appends `item` when fewer than 8 items are held; hands it back
/// otherwise, leaving the items as they were.
#[verifier::external_body]
pub(crate) fn retained_push(v: &mut heapless::Vec<RetainedPacket, 8>, item: RetainedPacket) -> (r:
    Result<(), RetainedPacket>)
    ensures
        retained_packets(*old(v)).len() < 8 ==> r is Ok && retained_packets(*final(v))
            == retained_packets(*old(v)).push(item),
        retained_packets(*old(v)).len() >= 8 ==> (r matches Err(x) && x == item)
            && retained_packets(*final(v)) == retained_packets(*old(v)),
{
    v.push(item)
}

/// Indexing through `heapless::Vec`'s `DerefMut`: replaces the item at `index`.
#[verifier::external_body]
pub(crate) fn retained_set(v: &mut heapless::Vec<RetainedPacket, 8>, index: usize, item: RetainedPacket)
    requires
        index < retained_packets(*old(v)).len(),
    ensures
        retained_packets(*final(v)) == retained_packets(*old(v)).update(index as int, item),
{
    v[index] = item;
}

/// `heapless::Vec::remove`: removes the item at `index`, keeping the others in order.
#[verifier::external_body]
pub(crate) fn retained_remove(v: &mut heapless::Vec<RetainedPacket, 8>, index: usize) -> (r:
    RetainedPacket)
    requires
        index < retained_packets(*old(v)).len(),
    ensures
        r == retained_packets(*old(v))[index as int],
        retained_packets(*final(v)) == retained_packets(*old(v)).remove(index as int),
{
    v.remove(index)
}

/// `heapless::Vec::clear`: no items left.
#[verifier::external_body]
pub(crate) fn retained_clear(v: &mut heapless::Vec<RetainedPacket, 8>)
    ensures
        retained_packets(*final(v)) == Seq::<RetainedPacket>::empty(),
{
    v.clear()
}

// Client identifiers.

/// `heapless::String`, text of at most `N` bytes stored inline.
#[verifier::external_type_specification]
#[verifier::external_body]
pub struct ExHeaplessString<const N: usize>(heapless::String<N>);

/// The bytes of a `heapless::String<64>`.
pub uninterp spec fn client_id_bytes(s: heapless::String<64>) -> Seq<u8>;

/// `heapless::String::new`: no text.
#[verifier::external_body]
pub(crate) fn client_id_new() -> (r: heapless::String<64>)
    ensures
        client_id_bytes(r) == Seq::<u8>::empty(),
{
    heapless::String::new()
}

/// `heapless::String::try_from(&str)`: the text, when it takes at most 64 bytes.
#[verifier::external_body]
pub(crate) fn client_id_try_from(text: &str) -> (r: Result<heapless::String<64>, ()>)
    ensures
        r is Ok <==> text.spec_bytes().len() <= 64,
        r matches Ok(s) ==> client_id_bytes(s) == text.spec_bytes(),
{
    heapless::String::try_from(text)
}

// Topics.

/// The bytes of a `heapless::String<128>`.
pub uninterp spec fn topic_bytes(s: heapless::String<128>) -> Seq<u8>;

/// `heapless::String::new`: no text.
#[verifier::external_body]
pub(crate) fn topic_new() -> (r: heapless::String<128>)
    ensures
        topic_bytes(r) == Seq::<u8>::empty(),
{
    heapless::String::new()
}

/// `heapless::String::try_from(&str)`: the text, when it takes at most 128 bytes.
#[verifier::external_body]
pub(crate) fn topic_try_from(text: &str) -> (r: Result<heapless::String<128>, ()>)
    ensures
        r is Ok <==> text.spec_bytes().len() <= 128,
        r matches Ok(s) ==> topic_bytes(s) == text.spec_bytes(),
{
    heapless::String::try_from(text)
}

/// `heapless::String::push_str`: appends `text` when the result takes at most 128 bytes;
/// leaves the text as it was otherwise.
#[verifier::external_body]
pub(crate) fn topic_push_str(s: &mut heapless::String<128>, text: &str) -> (r: Result<(), ()>)
    ensures
        topic_bytes(*old(s)).len() + text.spec_bytes().len() <= 128 ==> r is Ok && topic_bytes(
            *final(s),
        ) == topic_bytes(*old(s)) + text.spec_bytes(),
        topic_bytes(*old(s)).len() + text.spec_bytes().len() > 128 ==> r is Err && topic_bytes(
            *final(s),
        ) == topic_bytes(*old(s)),
{
    s.push_str(text)
}

/// `heapless::String::as_str`: the text, at most 128 bytes.
#[verifier::external_body]
pub(crate) fn topic_as_str(s: &heapless::String<128>) -> (r: &str)
    ensures
        r.spec_bytes() == topic_bytes(*s),
        r.spec_bytes().len() <= 128,
{
    s.as_str()
}

/// `heapless::String::clone`: the same text.
#[verifier::external_body]
pub(crate) fn topic_clone(s: &heapless::String<128>) -> (r: heapless::String<128>)
    ensures
        topic_bytes(r) == topic_bytes(*s),
{
    s.clone()
}

// Correlation data.

/// The bytes held by a `heapless::Vec<u8, 32>`.
pub uninterp spec fn correlation_bytes(v: heapless::Vec<u8, 32>) -> Seq<u8>;

/// `heapless::Vec::try_from(&[u8])`: the bytes, when there are at most 32 of them.
#[verifier::external_body]
pub(crate) fn correlation_try_from(data: &[u8]) -> (r: Result<heapless::Vec<u8, 32>, ()>)
    ensures
        r is Ok <==> data@.len() <= 32,
        r matches Ok(v) ==> correlation_bytes(v) == data@,
{
    heapless::Vec::try_from(data)
}

/// `heapless::Vec::as_slice`: the bytes held.
#[verifier::external_body]
pub(crate) fn correlation_slice(v: &heapless::Vec<u8, 32>) -> (r: &[u8])
    ensures
        r@ == correlation_bytes(*v),
{
    v.as_slice()
}

// Transfer identifiers.

/// The bytes of a `heapless::String<48>`.
pub uninterp spec fn transfer_id_bytes(s: heapless::String<48>) -> Seq<u8>;

/// `heapless::String::try_from(&str)`: the text, when it takes at most 48 bytes.
#[verifier::external_body]
pub(crate) fn transfer_id_try_from(text: &str) -> (r: Result<heapless::String<48>, ()>)
    ensures
        r is Ok <==> text.spec_bytes().len() <= 48,
        r matches Ok(s) ==> transfer_id_bytes(s) == text.spec_bytes(),
{
    heapless::String::try_from(text)
}

/// `heapless::String::as_str`: the text.
#[verifier::external_body]
pub(crate) fn transfer_id_as_str(s: &heapless::String<48>) -> (r: &str)
    ensures
        r.spec_bytes() == transfer_id_bytes(*s),
{
    s.as_str()
}

} // verus!
