//! Outbound session state: acknowledgements waiting to be written, QoS 2 releases waiting for
//! completion, and retained in-flight packets kept in the transmit buffer until acknowledged.
use crate::heapless_vec::{
    controls, controls_clear, controls_new, controls_push, controls_retain_unsent, controls_set,
    controls_slice, releases, releases_clear, releases_new, releases_push, releases_set,
    releases_slice, releases_swap_remove, retained_clear, retained_new, retained_packets,
    retained_push, retained_remove, retained_set, retained_slice,
};
use crate::error::{spec_from_ser, Error, PubError};
use crate::packets::PublishHeader;
use crate::publication::ToPayload;
use crate::packets::{PingReq, PubAck, PubComp, PubRec, PubRel, Reason, ReasonData};
use crate::reason_codes::{spec_reason_code_value, ReasonCode};
use crate::ser::{
    be16, enc_then, spec_body_result, spec_encode, spec_finalize, spec_header_byte, ControlPacket,
    MqttSerializer,
};
use crate::wire::MessageType;
use crate::{ProtocolError, ResourceError};
use vstd::prelude::*;

verus! {

/// Bytes enough for any acknowledgement or `PINGREQ` the session writes.
pub const CONTROL_PACKET_LEN: usize = 9;

/// Retained in-flight packets at most.
pub const MAX_RETAINED: usize = 8;

/// Queued control packets at most.
pub const MAX_PENDING_CONTROL: usize = 8;

/// QoS 2 releases awaiting completion at most.
pub const MAX_PENDING_RELEASE: usize = 8;

/// A control packet the session owes the broker.
#[derive(Debug, Copy, Clone, PartialEq, Eq, Structural)]
pub enum ControlAction {
    PubAck { packet_id: u16, reason: ReasonCode },
    PubRec { packet_id: u16, reason: ReasonCode },
    PubComp { packet_id: u16, reason: ReasonCode },
    PingReq,
}

/// How far the writing of a packet has come.
#[derive(Debug, Copy, Clone, PartialEq, Eq, Structural)]
pub enum SendState {
    /// `written` bytes have been handed to the transport.
    Write { written: usize },
    /// Every byte was written; a flush is owed.
    Flush,
    /// Written and flushed.
    Sent,
}

/// Whether nothing of the packet has been written yet.
pub open spec fn spec_is_fresh(s: SendState) -> bool {
    s == SendState::Write { written: 0 }
}

/// Whether the packet is partly written or awaits its flush.
pub open spec fn spec_is_in_progress(s: SendState) -> bool {
    (s matches SendState::Write { written } && written >= 1) || s == SendState::Flush
}

/// Whether the packet belongs to the round of `in_progress` packets, or of fresh ones.
pub open spec fn spec_matches_priority(s: SendState, in_progress: bool) -> bool {
    if in_progress {
        spec_is_in_progress(s)
    } else {
        spec_is_fresh(s)
    }
}

/// State after `written` of `len` bytes went out.
pub open spec fn spec_after_written(written: usize, len: usize) -> SendState {
    if written >= len {
        SendState::Flush
    } else {
        SendState::Write { written }
    }
}

impl SendState {
    /// Whether nothing of the packet has been written yet.
    pub fn is_fresh(self) -> (r: bool)
        ensures
            r == spec_is_fresh(self),
    {
        matches!(self, SendState::Write { written: 0 })
    }

    /// Whether the packet is partly written or awaits its flush.
    pub fn is_in_progress(self) -> (r: bool)
        ensures
            r == spec_is_in_progress(self),
    {
        match self {
            SendState::Write { written } => written >= 1,
            SendState::Flush => true,
            SendState::Sent => false,
        }
    }

    /// Record that `written` of the packet's `len` bytes have gone out.
    pub fn set_written(&mut self, written: usize, len: usize)
        ensures
            *final(self) == spec_after_written(written, len),
    {
        *self = if written >= len {
            SendState::Flush
        } else {
            SendState::Write { written }
        };
    }

    /// Whether the packet belongs to the round of `in_progress` packets, or of fresh ones.
    pub fn matches_priority(self, in_progress: bool) -> (r: bool)
        ensures
            r == spec_matches_priority(self, in_progress),
    {
        if in_progress {
            self.is_in_progress()
        } else {
            self.is_fresh()
        }
    }
}

/// A queued control packet.
#[derive(Debug, Copy, Clone, PartialEq, Eq, Structural)]
pub struct PendingControl {
    pub action: ControlAction,
    pub state: SendState,
}

/// A `PUBREL` owed for a QoS 2 publish the broker has received.
#[derive(Debug, Copy, Clone, PartialEq, Eq, Structural)]
pub struct PendingRelease {
    pub packet_id: u16,
    pub reason: ReasonCode,
    pub state: SendState,
}

/// An in-flight packet kept in the transmit buffer until the broker acknowledges it.
#[derive(Debug, Copy, Clone, PartialEq, Eq, Structural)]
pub struct RetainedPacket {
    pub packet_id: u16,
    pub offset: usize,
    pub len: usize,
    pub state: SendState,
}

/// A retained packet to write next.
#[derive(Debug, Copy, Clone, PartialEq, Eq, Structural)]
pub struct RetainedStep {
    pub packet_id: u16,
    pub offset: usize,
    pub len: usize,
    pub state: SendState,
}

/// A release to write next.
#[derive(Debug, Copy, Clone, PartialEq, Eq, Structural)]
pub struct ReleaseStep {
    pub packet_id: u16,
    pub reason: ReasonCode,
    pub state: SendState,
}

/// A control packet to write next.
#[derive(Debug, Copy, Clone, PartialEq, Eq, Structural)]
pub struct ControlStep {
    pub action: ControlAction,
    pub state: SendState,
}

/// The next outbound packet to write.
#[derive(Debug, Copy, Clone, PartialEq, Eq, Structural)]
pub enum OutboundStep {
    Control(ControlStep),
    Release(ReleaseStep),
    Retained(RetainedStep),
}

/// Index of the first item at or after `from` that satisfies `p`.
pub open spec fn first_match<T>(s: Seq<T>, p: spec_fn(T) -> bool, from: int) -> Option<int>
    decreases s.len() - from,
{
    if from < 0 || from >= s.len() {
        None
    } else if p(s[from]) {
        Some(from)
    } else {
        first_match(s, p, from + 1)
    }
}

/// What `first_match` finds, it finds first.
pub proof fn lemma_first_match<T>(s: Seq<T>, p: spec_fn(T) -> bool, from: int)
    requires
        0 <= from,
    ensures
        first_match(s, p, from) matches Some(i) ==> from <= i < s.len() && p(s[i]) && forall|
            k: int,
        |
            from <= k < i ==> !p(#[trigger] s[k]),
        first_match(s, p, from) is None ==> forall|k: int| from <= k < s.len() ==> !p(#[trigger] s[k]),
    decreases s.len() - from,
{
    if from < s.len() && !p(s[from]) {
        lemma_first_match(s, p, from + 1);
    }
}

/// Total length of the retained packets.
pub open spec fn total_len(s: Seq<RetainedPacket>) -> nat
    decreases s.len(),
{
    if s.len() == 0 {
        0
    } else {
        total_len(s.drop_last()) + s.last().len as nat
    }
}

/// Where a retained packet ends in the buffer.
pub open spec fn end_of(e: RetainedPacket) -> nat {
    (e.offset + e.len) as nat
}

/// Whether the retained packets lie in the buffer's first `used` bytes, each non-empty, in
/// order and without overlapping.
pub open spec fn well_placed(s: Seq<RetainedPacket>, used: nat) -> bool {
    &&& forall|i: int| 0 <= i < s.len() ==> #[trigger] end_of(s[i]) <= used && s[i].len > 0
    &&& forall|i: int, j: int| 0 <= i < j < s.len() ==> end_of(#[trigger] s[i]) <= (#[trigger] s[j]).offset
}

/// The bytes of the retained packet `e`.
pub open spec fn packet_of(bytes: Seq<u8>, e: RetainedPacket) -> Seq<u8> {
    bytes.subrange(e.offset as int, end_of(e) as int)
}

/// Whether `t` keeps the packets of `s` in order: same identifiers, lengths, states and
/// bytes, wherever they now sit.
pub open spec fn same_packets(
    bytes: Seq<u8>,
    s: Seq<RetainedPacket>,
    new_bytes: Seq<u8>,
    t: Seq<RetainedPacket>,
) -> bool {
    &&& t.len() == s.len()
    &&& forall|i: int|
        0 <= i < s.len() ==> (#[trigger] t[i]).packet_id == s[i].packet_id && t[i].len == s[i].len
            && t[i].state == s[i].state && packet_of(new_bytes, t[i]) == packet_of(bytes, s[i])
}

/// Session state for outbound packets, over a transmit buffer.
pub struct Outbound<'a> {
    buf: &'a mut [u8],
    used: usize,
    pending_control: heapless::Vec<PendingControl, 8>,
    retained: heapless::Vec<RetainedPacket, 8>,
    pending_release: heapless::Vec<PendingRelease, 8>,
}

impl<'a> Outbound<'a> {
    /// What the transmit buffer holds.
    pub closed spec fn bytes(&self) -> Seq<u8> {
        (*self.buf)@
    }

    /// Bytes of the buffer in use by retained packets, gaps included.
    pub closed spec fn spec_used(&self) -> nat {
        self.used as nat
    }

    /// Queued control packets, oldest first.
    pub closed spec fn control(&self) -> Seq<PendingControl> {
        controls(self.pending_control)
    }

    /// Retained in-flight packets, oldest first.
    pub closed spec fn retained(&self) -> Seq<RetainedPacket> {
        retained_packets(self.retained)
    }

    /// Releases awaiting completion, in the order kept.
    pub closed spec fn release(&self) -> Seq<PendingRelease> {
        releases(self.pending_release)
    }

    /// Consistency of the state: every collection within its capacity, the retained packets
    /// in place within the used part of the buffer.
    pub open spec fn wf(&self) -> bool {
        &&& self.control().len() <= MAX_PENDING_CONTROL
        &&& self.retained().len() <= MAX_RETAINED
        &&& self.release().len() <= MAX_PENDING_RELEASE
        &&& self.spec_used() <= self.bytes().len()
        &&& well_placed(self.retained(), self.spec_used())
    }

    /// Outbound state over `buf`, with nothing pending.
    pub fn new(buf: &'a mut [u8]) -> (r: Self)
        ensures
            r.wf(),
            r.bytes() == old(buf)@,
            r.spec_used() == 0,
            r.control() == Seq::<PendingControl>::empty(),
            r.retained() == Seq::<RetainedPacket>::empty(),
            r.release() == Seq::<PendingRelease>::empty(),
    {
        Outbound {
            buf,
            used: 0,
            pending_control: controls_new(),
            retained: retained_new(),
            pending_release: releases_new(),
        }
    }

    /// Drop everything pending.
    pub fn clear(&mut self)
        ensures
            final(self).wf(),
            final(self).bytes() == old(self).bytes(),
            final(self).spec_used() == 0,
            final(self).control() == Seq::<PendingControl>::empty(),
            final(self).retained() == Seq::<RetainedPacket>::empty(),
            final(self).release() == Seq::<PendingRelease>::empty(),
    {
        self.used = 0;
        controls_clear(&mut self.pending_control);
        retained_clear(&mut self.retained);
        releases_clear(&mut self.pending_release);
    }

    /// Whether anything is pending.
    pub fn has_pending_state(&self) -> (r: bool)
        ensures
            r == (self.control().len() > 0 || self.retained().len() > 0 || self.release().len()
                > 0),
    {
        controls_slice(&self.pending_control).len() > 0 || retained_slice(&self.retained).len() > 0
            || releases_slice(&self.pending_release).len() > 0
    }

    /// Whether nothing is pending.
    pub fn is_quiescent(&self) -> (r: bool)
        ensures
            r == (self.control().len() == 0 && self.retained().len() == 0 && self.release().len()
                == 0),
    {
        !self.has_pending_state()
    }

    /// Whether no further packet can be retained.
    pub fn retained_full(&self) -> (r: bool)
        ensures
            r == (self.retained().len() == MAX_RETAINED),
    {
        retained_slice(&self.retained).len() == MAX_RETAINED
    }

    /// Bytes of the buffer in use by retained packets, gaps included.
    pub fn used(&self) -> (r: usize)
        ensures
            r == self.spec_used(),
    {
        self.used
    }

    /// Size of the transmit buffer.
    pub fn capacity(&self) -> (r: usize)
        ensures
            r == self.bytes().len(),
    {
        self.buf.len()
    }

    /// Number of retained packets.
    pub fn retained_len(&self) -> (r: usize)
        ensures
            r == self.retained().len(),
    {
        retained_slice(&self.retained).len()
    }

    /// Number of queued control packets.
    pub fn pending_control_len(&self) -> (r: usize)
        ensures
            r == self.control().len(),
    {
        controls_slice(&self.pending_control).len()
    }

    /// Number of releases awaiting completion.
    pub fn pending_release_len(&self) -> (r: usize)
        ensures
            r == self.release().len(),
    {
        releases_slice(&self.pending_release).len()
    }

    /// How many QoS 1 and 2 publishes may be in flight at once.
    pub fn max_inflight(&self) -> (r: u16)
        ensures
            r == 8,
    {
        if MAX_RETAINED < MAX_PENDING_RELEASE {
            MAX_RETAINED as u16
        } else {
            MAX_PENDING_RELEASE as u16
        }
    }

    /// Queue the control packet `action`, or fail when the queue is full.
    pub fn queue_control(&mut self, action: ControlAction) -> (r: Result<(), ProtocolError>)
        requires
            old(self).wf(),
        ensures
            final(self).wf(),
            final(self).bytes() == old(self).bytes(),
            final(self).spec_used() == old(self).spec_used(),
            final(self).retained() == old(self).retained(),
            final(self).release() == old(self).release(),
            old(self).control().len() < MAX_PENDING_CONTROL ==> r is Ok && final(self).control()
                == old(self).control().push(
                PendingControl { action, state: SendState::Write { written: 0 } },
            ),
            old(self).control().len() >= MAX_PENDING_CONTROL ==> r == Err::<(), ProtocolError>(
                ProtocolError::InflightMetadataExhausted,
            ) && final(self).control() == old(self).control(),
    {
        match controls_push(
            &mut self.pending_control,
            PendingControl { action, state: SendState::Write { written: 0 } },
        ) {
            Ok(()) => Ok(()),
            Err(_) => Err(ProtocolError::InflightMetadataExhausted),
        }
    }

    /// Queue a `PUBREL` for `packet_id` with `reason`, or fail when the queue is full.
    pub fn queue_release(&mut self, packet_id: u16, reason: ReasonCode) -> (r: Result<
        (),
        ProtocolError,
    >)
        requires
            old(self).wf(),
        ensures
            final(self).wf(),
            final(self).bytes() == old(self).bytes(),
            final(self).spec_used() == old(self).spec_used(),
            final(self).retained() == old(self).retained(),
            final(self).control() == old(self).control(),
            old(self).release().len() < MAX_PENDING_RELEASE ==> r is Ok && final(self).release()
                == old(self).release().push(
                PendingRelease { packet_id, reason, state: SendState::Write { written: 0 } },
            ),
            old(self).release().len() >= MAX_PENDING_RELEASE ==> r == Err::<(), ProtocolError>(
                ProtocolError::InflightMetadataExhausted,
            ) && final(self).release() == old(self).release(),
    {
        match releases_push(
            &mut self.pending_release,
            PendingRelease { packet_id, reason, state: SendState::Write { written: 0 } },
        ) {
            Ok(()) => Ok(()),
            Err(_) => Err(ProtocolError::InflightMetadataExhausted),
        }
    }

    /// Whether a `PINGREQ` is queued and not sent yet.
    pub fn has_pending_pingreq(&self) -> (r: bool)
        ensures
            r == exists|i: int|
                0 <= i < self.control().len() && (#[trigger] self.control()[i]).action
                    == ControlAction::PingReq && self.control()[i].state != SendState::Sent,
    {
        let items = controls_slice(&self.pending_control);
        let mut i: usize = 0;
        while i < items.len()
            invariant
                i <= items@.len(),
                items@ == self.control(),
                forall|k: int|
                    0 <= k < i ==> !((#[trigger] items@[k]).action == ControlAction::PingReq
                        && items@[k].state != SendState::Sent),
            decreases items@.len() - i,
        {
            if items[i].action == ControlAction::PingReq && items[i].state != SendState::Sent {
                assert(self.control()[i as int] == items@[i as int]);
                return true;
            }
            i = i + 1;
        }
        false
    }

    /// Whether a packet with `packet_id` is retained.
    pub fn has_retained(&self, packet_id: u16) -> (r: bool)
        ensures
            r == exists|i: int|
                0 <= i < self.retained().len() && (#[trigger] self.retained()[i]).packet_id
                    == packet_id,
    {
        let items = retained_slice(&self.retained);
        let mut i: usize = 0;
        while i < items.len()
            invariant
                i <= items@.len(),
                items@ == self.retained(),
                forall|k: int| 0 <= k < i ==> (#[trigger] items@[k]).packet_id != packet_id,
            decreases items@.len() - i,
        {
            if items[i].packet_id == packet_id {
                assert(self.retained()[i as int] == items@[i as int]);
                return true;
            }
            i = i + 1;
        }
        false
    }

    /// Whether a release for `packet_id` awaits completion.
    pub fn has_pending_release(&self, packet_id: u16) -> (r: bool)
        ensures
            r == exists|i: int|
                0 <= i < self.release().len() && (#[trigger] self.release()[i]).packet_id
                    == packet_id,
    {
        let items = releases_slice(&self.pending_release);
        let mut i: usize = 0;
        while i < items.len()
            invariant
                i <= items@.len(),
                items@ == self.release(),
                forall|k: int| 0 <= k < i ==> (#[trigger] items@[k]).packet_id != packet_id,
            decreases items@.len() - i,
        {
            if items[i].packet_id == packet_id {
                assert(self.release()[i as int] == items@[i as int]);
                return true;
            }
            i = i + 1;
        }
        false
    }

    /// The `len` bytes of the buffer from `offset`.
    pub fn retained_packet(&self, offset: usize, len: usize) -> (r: &[u8])
        requires
            offset + len <= self.bytes().len(),
        ensures
            r@ == self.bytes().subrange(offset as int, offset + len),
    {
        let whole: &[u8] = self.buf;
        let n = whole.len();
        crate::de::slice_range(whole, offset, offset + len)
    }
}

/// The retained packets `s` moved to sit one after the other from the start of the buffer.
pub open spec fn compacted(s: Seq<RetainedPacket>) -> Seq<RetainedPacket> {
    Seq::new(
        s.len(),
        |i: int|
            RetainedPacket {
                packet_id: s[i].packet_id,
                offset: total_len(s.take(i)) as usize,
                len: s[i].len,
                state: s[i].state,
            },
    )
}

/// In-place packets leave room for everything before them: the packets in front of packet
/// `i` take no more bytes than there are in front of it.
pub proof fn lemma_total_len_before(s: Seq<RetainedPacket>, used: nat, i: int)
    requires
        well_placed(s, used),
        0 <= i <= s.len(),
    ensures
        i < s.len() ==> total_len(s.take(i)) <= s[i].offset,
        i > 0 ==> total_len(s.take(i)) <= end_of(s[i - 1]),
        total_len(s.take(i)) <= used,
    decreases i,
{
    if i > 0 {
        lemma_total_len_before(s, used, i - 1);
        assert(s.take(i).drop_last() =~= s.take(i - 1));
        if i < s.len() {
            assert(end_of(s[i - 1]) <= s[i].offset);
        }
    }
}

/// Moving `len` bytes at `from` down to `to`, as `copy_within` does; bytes outside the
/// destination stay.
fn move_down(buf: &mut [u8], from: usize, to: usize, len: usize)
    requires
        to <= from,
        from + len <= old(buf)@.len(),
    ensures
        final(buf)@.len() == old(buf)@.len(),
        final(buf)@.subrange(to as int, to + len) == old(buf)@.subrange(from as int, from + len),
        forall|k: int|
            0 <= k < old(buf)@.len() && !(to <= k < to + len) ==> final(buf)@[k] == old(buf)@[k],
{
    let ghost orig = buf@;
    let size = buf.len();
    let mut t: usize = 0;
    while t < len
        invariant
            size == orig.len(),
            to <= from,
            from + len <= orig.len(),
            buf@.len() == orig.len(),
            t <= len,
            forall|k: int| to <= k < to + t ==> #[trigger] buf@[k] == orig[k - to + from],
            forall|k: int| 0 <= k < orig.len() && !(to <= k < to + t) ==> #[trigger] buf@[k] == orig[k],
        decreases len - t,
    {
        let b = buf[from + t];
        buf[to + t] = b;
        t = t + 1;
    }
    assert(buf@.subrange(to as int, to + len) =~= orig.subrange(from as int, from + len));
}

impl<'a> Outbound<'a> {
    /// Bytes the retained packets take once packed.
    pub fn used_after_compact(&self) -> (r: usize)
        requires
            self.wf(),
        ensures
            r == total_len(self.retained()),
    {
        let items = retained_slice(&self.retained);
        let mut sum: usize = 0;
        let mut i: usize = 0;
        proof {
            lemma_total_len_before(items@, self.spec_used(), items@.len() as int);
            assert(items@.take(items@.len() as int) =~= items@);
        }
        while i < items.len()
            invariant
                i <= items@.len(),
                items@ == self.retained(),
                well_placed(items@, self.spec_used()),
                self.spec_used() <= usize::MAX,
                sum == total_len(items@.take(i as int)),
            decreases items@.len() - i,
        {
            proof {
                assert(items@.take(i + 1).drop_last() =~= items@.take(i as int));
                lemma_total_len_before(items@, self.spec_used(), i + 1);
            }
            sum = sum + items[i].len;
            i = i + 1;
        }
        assert(items@.take(i as int) =~= items@);
        sum
    }

    /// Free bytes once the retained packets are packed.
    pub fn scratch_len(&self) -> (r: usize)
        requires
            self.wf(),
        ensures
            r == self.bytes().len() - total_len(self.retained()),
    {
        proof {
            lemma_total_len_before(self.retained(), self.spec_used(), self.retained().len() as int);
            assert(self.retained().take(self.retained().len() as int) =~= self.retained());
        }
        self.buf.len() - self.used_after_compact()
    }

    /// Whether one more packet can be retained: a free slot, and room for a fixed header.
    pub fn can_retain(&self) -> (r: bool)
        requires
            self.wf(),
        ensures
            r == (self.retained().len() < MAX_RETAINED && self.bytes().len() - total_len(
                self.retained(),
            ) >= crate::ser::MAX_FIXED_HEADER_SIZE),
    {
        retained_slice(&self.retained).len() < MAX_RETAINED && self.scratch_len()
            >= crate::ser::MAX_FIXED_HEADER_SIZE
    }

    /// Keep the `len` bytes at `offset`, just written after the packets already retained, as
    /// the in-flight packet `packet_id`.
    pub fn retain_packet(&mut self, packet_id: u16, offset: usize, len: usize) -> (r: Result<
        (),
        ProtocolError,
    >)
        requires
            old(self).wf(),
            old(self).spec_used() <= offset,
            offset + len <= old(self).bytes().len(),
            len > 0,
        ensures
            final(self).wf(),
            final(self).bytes() == old(self).bytes(),
            final(self).control() == old(self).control(),
            final(self).release() == old(self).release(),
            old(self).retained().len() < MAX_RETAINED ==> r is Ok && final(self).retained()
                == old(self).retained().push(
                RetainedPacket { packet_id, offset, len, state: SendState::Write { written: 0 } },
            ) && final(self).spec_used() == offset + len,
            old(self).retained().len() >= MAX_RETAINED ==> r == Err::<(), ProtocolError>(
                ProtocolError::InflightMetadataExhausted,
            ) && final(self).retained() == old(self).retained() && final(self).spec_used()
                == old(self).spec_used(),
    {
        let entry = RetainedPacket {
            packet_id,
            offset,
            len,
            state: SendState::Write { written: 0 },
        };
        match retained_push(&mut self.retained, entry) {
            Ok(()) => {},
            Err(_) => return Err(ProtocolError::InflightMetadataExhausted),
        }
        let size = self.buf.len();
        if self.used < offset + len {
            self.used = offset + len;
        }
        proof {
            let s = self.retained();
            assert forall|i: int, j: int| 0 <= i < j < s.len() implies end_of(#[trigger] s[i]) <= (
            #[trigger] s[j]).offset by {
                if j == s.len() - 1 {
                    assert(end_of(s[i]) <= old(self).spec_used());
                }
            }
        }
        Ok(())
    }

    /// Pack the retained packets at the start of the buffer, in order.
    #[verifier::rlimit(40)]
    fn compact(&mut self)
        requires
            old(self).wf(),
        ensures
            final(self).wf(),
            final(self).bytes().len() == old(self).bytes().len(),
            final(self).control() == old(self).control(),
            final(self).release() == old(self).release(),
            final(self).retained() == compacted(old(self).retained()),
            final(self).spec_used() == total_len(old(self).retained()),
            same_packets(old(self).bytes(), old(self).retained(), final(self).bytes(), final(self).retained()),
    {
        let ghost old_bytes = self.bytes();
        let ghost old_items = self.retained();
        let ghost used0 = self.spec_used();
        let n = retained_slice(&self.retained).len();
        let mut cursor: usize = 0;
        let mut i: usize = 0;
        while i < n
            invariant
                n == old_items.len(),
                i <= n,
                used0 == old(self).spec_used(),
                old_items == old(self).retained(),
                old_bytes == old(self).bytes(),
                used0 <= old_bytes.len(),
                well_placed(old_items, used0),
                self.bytes().len() == old_bytes.len(),
                self.control() == old(self).control(),
                self.release() == old(self).release(),
                cursor == total_len(old_items.take(i as int)),
                cursor <= used0,
                self.retained().len() == n,
                forall|k: int| i <= k < n ==> #[trigger] self.retained()[k] == old_items[k],
                forall|k: int| 0 <= k < i ==> #[trigger] self.retained()[k] == compacted(old_items)[k],
                forall|k: int| 0 <= k < i ==> packet_of(self.bytes(), #[trigger] self.retained()[k])
                    == packet_of(old_bytes, old_items[k]),
                forall|p: int| cursor <= p < old_bytes.len() ==> self.bytes()[p] == old_bytes[p],
            decreases n - i,
        {
            proof {
                lemma_total_len_before(old_items, used0, i as int);
                lemma_total_len_before(old_items, used0, i + 1);
                assert(old_items.take(i + 1).drop_last() =~= old_items.take(i as int));
            }
            let entry = retained_slice(&self.retained)[i];
            assert(entry == old_items[i as int]);
            let ghost before = self.bytes();
            if entry.offset != cursor {
                move_down(self.buf, entry.offset, cursor, entry.len);
                retained_set(
                    &mut self.retained,
                    i,
                    RetainedPacket { offset: cursor, ..entry },
                );
            }
            proof {
                assert(packet_of(self.bytes(), self.retained()[i as int]) =~= packet_of(
                    old_bytes,
                    old_items[i as int],
                ));
                assert forall|k: int| 0 <= k < i implies packet_of(
                    self.bytes(),
                    #[trigger] self.retained()[k],
                ) == packet_of(old_bytes, old_items[k]) by {
                    lemma_total_len_before(old_items, used0, k + 1);
                    lemma_total_len_before(old_items, used0, k);
                    assert(old_items.take(k + 1).drop_last() =~= old_items.take(k));
                    lemma_prefix_total_le(old_items, k + 1, i as int);
                    assert(packet_of(self.bytes(), self.retained()[k]) =~= packet_of(
                        before,
                        self.retained()[k],
                    ));
                }
            }
            cursor = cursor + entry.len;
            i = i + 1;
        }
        self.used = cursor;
        proof {
            assert(old_items.take(n as int) =~= old_items);
            assert(self.retained() =~= compacted(old_items));
            let s = self.retained();
            assert forall|k: int| 0 <= k < s.len() implies #[trigger] end_of(s[k]) <= cursor
                && s[k].len > 0 by {
                lemma_total_len_before(old_items, used0, k + 1);
                lemma_total_len_before(old_items, used0, k);
                assert(old_items.take(k + 1).drop_last() =~= old_items.take(k));
                lemma_prefix_total_le(old_items, k + 1, n as int);
            }
            assert forall|a: int, b: int| 0 <= a < b < s.len() implies end_of(#[trigger] s[a])
                <= (#[trigger] s[b]).offset by {
                assert(old_items.take(a + 1).drop_last() =~= old_items.take(a));
                lemma_total_len_before(old_items, used0, a);
                lemma_total_len_before(old_items, used0, b);
                lemma_prefix_total_le(old_items, a + 1, b);
            }
        }
    }
}

/// Totals of prefixes grow with the prefix.
proof fn lemma_prefix_total_le(s: Seq<RetainedPacket>, i: int, j: int)
    requires
        0 <= i <= j <= s.len(),
    ensures
        total_len(s.take(i)) <= total_len(s.take(j)),
    decreases j - i,
{
    if i < j {
        lemma_prefix_total_le(s, i, j - 1);
        assert(s.take(j).drop_last() =~= s.take(j - 1));
    }
}

/// Whether a retained packet has identifier `id`.
pub open spec fn retained_with_id(id: u16) -> spec_fn(RetainedPacket) -> bool {
    |e: RetainedPacket| e.packet_id == id
}

/// Whether a release is for identifier `id`.
pub open spec fn release_with_id(id: u16) -> spec_fn(PendingRelease) -> bool {
    |e: PendingRelease| e.packet_id == id
}

/// Whether a queued control packet is `action`.
pub open spec fn control_is(action: ControlAction) -> spec_fn(PendingControl) -> bool {
    |e: PendingControl| e.action == action
}

/// Whether a queued control packet belongs to the round of `in_progress` packets.
pub open spec fn control_in_round(in_progress: bool) -> spec_fn(PendingControl) -> bool {
    |e: PendingControl| spec_matches_priority(e.state, in_progress)
}

/// Whether a release belongs to the round of `in_progress` packets.
pub open spec fn release_in_round(in_progress: bool) -> spec_fn(PendingRelease) -> bool {
    |e: PendingRelease| spec_matches_priority(e.state, in_progress)
}

/// Whether a retained packet belongs to the round of `in_progress` packets.
pub open spec fn retained_in_round(in_progress: bool) -> spec_fn(RetainedPacket) -> bool {
    |e: RetainedPacket| spec_matches_priority(e.state, in_progress)
}

/// Position of the first retained packet with identifier `id`.
fn find_retained(items: &[RetainedPacket], id: u16) -> (r: Option<usize>)
    ensures
        match first_match(items@, retained_with_id(id), 0) {
            Some(i) => r == Some(i as usize),
            None => r is None,
        },
{
    let mut i: usize = 0;
    while i < items.len()
        invariant
            i <= items@.len(),
            first_match(items@, retained_with_id(id), 0) == first_match(
                items@,
                retained_with_id(id),
                i as int,
            ),
        decreases items@.len() - i,
    {
        if items[i].packet_id == id {
            return Some(i);
        }
        i = i + 1;
    }
    None
}

/// Position of the first release for identifier `id`.
fn find_release(items: &[PendingRelease], id: u16) -> (r: Option<usize>)
    ensures
        match first_match(items@, release_with_id(id), 0) {
            Some(i) => r == Some(i as usize),
            None => r is None,
        },
{
    let mut i: usize = 0;
    while i < items.len()
        invariant
            i <= items@.len(),
            first_match(items@, release_with_id(id), 0) == first_match(
                items@,
                release_with_id(id),
                i as int,
            ),
        decreases items@.len() - i,
    {
        if items[i].packet_id == id {
            return Some(i);
        }
        i = i + 1;
    }
    None
}

/// Position of the first queued control packet equal to `action`.
fn find_control(items: &[PendingControl], action: ControlAction) -> (r: Option<usize>)
    ensures
        match first_match(items@, control_is(action), 0) {
            Some(i) => r == Some(i as usize),
            None => r is None,
        },
{
    let mut i: usize = 0;
    while i < items.len()
        invariant
            i <= items@.len(),
            first_match(items@, control_is(action), 0) == first_match(
                items@,
                control_is(action),
                i as int,
            ),
        decreases items@.len() - i,
    {
        if items[i].action == action {
            return Some(i);
        }
        i = i + 1;
    }
    None
}

/// Removing packets keeps the rest in place.
proof fn lemma_remove_well_placed(s: Seq<RetainedPacket>, used: nat, i: int)
    requires
        well_placed(s, used),
        0 <= i < s.len(),
    ensures
        well_placed(s.remove(i), used),
{
    let t = s.remove(i);
    assert forall|a: int, b: int| 0 <= a < b < t.len() implies end_of(#[trigger] t[a]) <= (
    #[trigger] t[b]).offset by {
        let a0 = if a < i { a } else { a + 1 };
        let b0 = if b < i { b } else { b + 1 };
        assert(t[a] == s[a0] && t[b] == s[b0]);
    }
    assert forall|a: int| 0 <= a < t.len() implies #[trigger] end_of(t[a]) <= used && t[a].len > 0 by {
        let a0 = if a < i { a } else { a + 1 };
        assert(t[a] == s[a0]);
    }
}

impl<'a> Outbound<'a> {
    /// Drop the retained packet `packet_id` once the broker acknowledged it, and pack the
    /// others; whether it was retained.
    pub fn ack_packet(&mut self, packet_id: u16) -> (r: bool)
        requires
            old(self).wf(),
        ensures
            final(self).wf(),
            final(self).bytes().len() == old(self).bytes().len(),
            final(self).control() == old(self).control(),
            final(self).release() == old(self).release(),
            match first_match(old(self).retained(), retained_with_id(packet_id), 0) {
                None => !r && final(self).retained() == old(self).retained() && final(self).bytes()
                    == old(self).bytes() && final(self).spec_used() == old(self).spec_used(),
                Some(i) => r && final(self).retained() == compacted(old(self).retained().remove(i))
                    && final(self).spec_used() == total_len(old(self).retained().remove(i))
                    && same_packets(
                    old(self).bytes(),
                    old(self).retained().remove(i),
                    final(self).bytes(),
                    final(self).retained(),
                ),
            },
    {
        let position = find_retained(retained_slice(&self.retained), packet_id);
        match position {
            None => false,
            Some(i) => {
                proof {
                    lemma_first_match(self.retained(), retained_with_id(packet_id), 0);
                    lemma_remove_well_placed(self.retained(), self.spec_used(), i as int);
                }
                retained_remove(&mut self.retained, i);
                self.compact();
                true
            },
        }
    }

    /// Drop the release `packet_id` once the broker completed it; whether it was pending.
    pub fn ack_release(&mut self, packet_id: u16) -> (r: bool)
        requires
            old(self).wf(),
        ensures
            final(self).wf(),
            final(self).bytes() == old(self).bytes(),
            final(self).spec_used() == old(self).spec_used(),
            final(self).control() == old(self).control(),
            final(self).retained() == old(self).retained(),
            match first_match(old(self).release(), release_with_id(packet_id), 0) {
                None => !r && final(self).release() == old(self).release(),
                Some(i) => r && final(self).release() == old(self).release().update(
                    i,
                    old(self).release().last(),
                ).drop_last(),
            },
    {
        let position = find_release(releases_slice(&self.pending_release), packet_id);
        match position {
            None => false,
            Some(i) => {
                proof {
                    lemma_first_match(self.release(), release_with_id(packet_id), 0);
                }
                releases_swap_remove(&mut self.pending_release, i);
                true
            },
        }
    }

    /// Record that `written` of the `len` bytes of the queued control packet `action` went
    /// out; whether it is queued.
    pub fn set_control_written(&mut self, action: ControlAction, written: usize, len: usize) -> (r:
        bool)
        requires
            old(self).wf(),
        ensures
            final(self).wf(),
            final(self).bytes() == old(self).bytes(),
            final(self).spec_used() == old(self).spec_used(),
            final(self).retained() == old(self).retained(),
            final(self).release() == old(self).release(),
            match first_match(old(self).control(), control_is(action), 0) {
                None => !r && final(self).control() == old(self).control(),
                Some(i) => r && final(self).control() == old(self).control().update(
                    i,
                    PendingControl {
                        action: old(self).control()[i].action,
                        state: spec_after_written(written, len),
                    },
                ),
            },
    {
        match find_control(controls_slice(&self.pending_control), action) {
            None => false,
            Some(i) => {
                proof {
                    lemma_first_match(self.control(), control_is(action), 0);
                }
                let entry = controls_slice(&self.pending_control)[i];
                let mut state = entry.state;
                state.set_written(written, len);
                controls_set(&mut self.pending_control, i, PendingControl { action: entry.action, state });
                true
            },
        }
    }

    /// Mark the queued control packet `action` sent and drop every sent control packet;
    /// whether it was queued.
    pub fn flush_control(&mut self, action: ControlAction) -> (r: bool)
        requires
            old(self).wf(),
        ensures
            final(self).wf(),
            final(self).bytes() == old(self).bytes(),
            final(self).spec_used() == old(self).spec_used(),
            final(self).retained() == old(self).retained(),
            final(self).release() == old(self).release(),
            match first_match(old(self).control(), control_is(action), 0) {
                None => !r && final(self).control() == old(self).control().filter(
                    |e: PendingControl| e.state != SendState::Sent,
                ),
                Some(i) => r && final(self).control() == old(self).control().update(
                    i,
                    PendingControl { action: old(self).control()[i].action, state: SendState::Sent },
                ).filter(|e: PendingControl| e.state != SendState::Sent),
            },
    {
        let found = match find_control(controls_slice(&self.pending_control), action) {
            None => false,
            Some(i) => {
                proof {
                    lemma_first_match(self.control(), control_is(action), 0);
                }
                let entry = controls_slice(&self.pending_control)[i];
                controls_set(
                    &mut self.pending_control,
                    i,
                    PendingControl { action: entry.action, state: SendState::Sent },
                );
                true
            },
        };
        proof {
            self.control().lemma_filter_len(|e: PendingControl| e.state != SendState::Sent);
        }
        controls_retain_unsent(&mut self.pending_control);
        found
    }

    /// Record that `written` of the `len` bytes of the retained packet `packet_id` went out;
    /// whether it is retained.
    pub fn set_retained_written(&mut self, packet_id: u16, written: usize, len: usize) -> (r: bool)
        requires
            old(self).wf(),
        ensures
            final(self).wf(),
            final(self).bytes() == old(self).bytes(),
            final(self).spec_used() == old(self).spec_used(),
            final(self).control() == old(self).control(),
            final(self).release() == old(self).release(),
            match first_match(old(self).retained(), retained_with_id(packet_id), 0) {
                None => !r && final(self).retained() == old(self).retained(),
                Some(i) => r && final(self).retained() == old(self).retained().update(
                    i,
                    RetainedPacket { state: spec_after_written(written, len), ..old(self).retained()[i] },
                ),
            },
    {
        self.set_retained_state(packet_id, if written >= len {
            SendState::Flush
        } else {
            SendState::Write { written }
        })
    }

    /// Mark the retained packet `packet_id` sent; whether it is retained.
    pub fn flush_retained(&mut self, packet_id: u16) -> (r: bool)
        requires
            old(self).wf(),
        ensures
            final(self).wf(),
            final(self).bytes() == old(self).bytes(),
            final(self).spec_used() == old(self).spec_used(),
            final(self).control() == old(self).control(),
            final(self).release() == old(self).release(),
            match first_match(old(self).retained(), retained_with_id(packet_id), 0) {
                None => !r && final(self).retained() == old(self).retained(),
                Some(i) => r && final(self).retained() == old(self).retained().update(
                    i,
                    RetainedPacket { state: SendState::Sent, ..old(self).retained()[i] },
                ),
            },
    {
        self.set_retained_state(packet_id, SendState::Sent)
    }

    fn set_retained_state(&mut self, packet_id: u16, state: SendState) -> (r: bool)
        requires
            old(self).wf(),
        ensures
            final(self).wf(),
            final(self).bytes() == old(self).bytes(),
            final(self).spec_used() == old(self).spec_used(),
            final(self).control() == old(self).control(),
            final(self).release() == old(self).release(),
            match first_match(old(self).retained(), retained_with_id(packet_id), 0) {
                None => !r && final(self).retained() == old(self).retained(),
                Some(i) => r && final(self).retained() == old(self).retained().update(
                    i,
                    RetainedPacket { state, ..old(self).retained()[i] },
                ),
            },
    {
        match find_retained(retained_slice(&self.retained), packet_id) {
            None => false,
            Some(i) => {
                proof {
                    lemma_first_match(self.retained(), retained_with_id(packet_id), 0);
                }
                let entry = retained_slice(&self.retained)[i];
                retained_set(&mut self.retained, i, RetainedPacket { state, ..entry });
                proof {
                    let s = self.retained();
                    let o = old(self).retained();
                    assert forall|a: int| 0 <= a < s.len() implies #[trigger] end_of(s[a])
                        <= self.spec_used() && s[a].len > 0 by {
                        assert(end_of(s[a]) == end_of(o[a]));
                    }
                    assert forall|a: int, b: int| 0 <= a < b < s.len() implies end_of(
                        #[trigger] s[a],
                    ) <= (#[trigger] s[b]).offset by {
                        assert(end_of(s[a]) == end_of(o[a]) && s[b].offset == o[b].offset);
                    }
                }
                true
            },
        }
    }

    /// Record that `written` of the `len` bytes of the release `packet_id` went out; whether
    /// it is pending.
    pub fn set_release_written(&mut self, packet_id: u16, written: usize, len: usize) -> (r: bool)
        requires
            old(self).wf(),
        ensures
            final(self).wf(),
            final(self).bytes() == old(self).bytes(),
            final(self).spec_used() == old(self).spec_used(),
            final(self).control() == old(self).control(),
            final(self).retained() == old(self).retained(),
            match first_match(old(self).release(), release_with_id(packet_id), 0) {
                None => !r && final(self).release() == old(self).release(),
                Some(i) => r && final(self).release() == old(self).release().update(
                    i,
                    PendingRelease { state: spec_after_written(written, len), ..old(self).release()[i] },
                ),
            },
    {
        self.set_release_state(packet_id, if written >= len {
            SendState::Flush
        } else {
            SendState::Write { written }
        })
    }

    /// Mark the release `packet_id` sent; whether it is pending.
    pub fn flush_release(&mut self, packet_id: u16) -> (r: bool)
        requires
            old(self).wf(),
        ensures
            final(self).wf(),
            final(self).bytes() == old(self).bytes(),
            final(self).spec_used() == old(self).spec_used(),
            final(self).control() == old(self).control(),
            final(self).retained() == old(self).retained(),
            match first_match(old(self).release(), release_with_id(packet_id), 0) {
                None => !r && final(self).release() == old(self).release(),
                Some(i) => r && final(self).release() == old(self).release().update(
                    i,
                    PendingRelease { state: SendState::Sent, ..old(self).release()[i] },
                ),
            },
    {
        self.set_release_state(packet_id, SendState::Sent)
    }

    fn set_release_state(&mut self, packet_id: u16, state: SendState) -> (r: bool)
        requires
            old(self).wf(),
        ensures
            final(self).wf(),
            final(self).bytes() == old(self).bytes(),
            final(self).spec_used() == old(self).spec_used(),
            final(self).control() == old(self).control(),
            final(self).retained() == old(self).retained(),
            match first_match(old(self).release(), release_with_id(packet_id), 0) {
                None => !r && final(self).release() == old(self).release(),
                Some(i) => r && final(self).release() == old(self).release().update(
                    i,
                    PendingRelease { state, ..old(self).release()[i] },
                ),
            },
    {
        match find_release(releases_slice(&self.pending_release), packet_id) {
            None => false,
            Some(i) => {
                proof {
                    lemma_first_match(self.release(), release_with_id(packet_id), 0);
                }
                let entry = releases_slice(&self.pending_release)[i];
                releases_set(&mut self.pending_release, i, PendingRelease { state, ..entry });
                true
            },
        }
    }
}

/// Whether some retained packet starts at position `k`.
pub open spec fn starts_packet(s: Seq<RetainedPacket>, k: int) -> bool {
    exists|i: int| 0 <= i < s.len() && (#[trigger] s[i]).offset == k
}

/// Control packets restarted from their first byte.
pub open spec fn restarted_controls(s: Seq<PendingControl>) -> Seq<PendingControl> {
    Seq::new(
        s.len(),
        |i: int| PendingControl { action: s[i].action, state: SendState::Write { written: 0 } },
    )
}

/// Releases restarted from their first byte.
pub open spec fn restarted_releases(s: Seq<PendingRelease>) -> Seq<PendingRelease> {
    Seq::new(
        s.len(),
        |i: int|
            PendingRelease {
                packet_id: s[i].packet_id,
                reason: s[i].reason,
                state: SendState::Write { written: 0 },
            },
    )
}

/// Retained packets restarted from their first byte.
pub open spec fn restarted_retained(s: Seq<RetainedPacket>) -> Seq<RetainedPacket> {
    Seq::new(
        s.len(),
        |i: int|
            RetainedPacket {
                packet_id: s[i].packet_id,
                offset: s[i].offset,
                len: s[i].len,
                state: SendState::Write { written: 0 },
            },
    )
}

/// The next packet to write: first, in order, control packets, releases and retained packets
/// that are partly written; then, in the same order, fresh ones.
pub open spec fn spec_next_step(
    control: Seq<PendingControl>,
    release: Seq<PendingRelease>,
    retained: Seq<RetainedPacket>,
) -> Option<OutboundStep> {
    match spec_next_in_round(control, release, retained, true) {
        Some(step) => Some(step),
        None => spec_next_in_round(control, release, retained, false),
    }
}

/// The first packet of one round, in-progress or fresh.
pub open spec fn spec_next_in_round(
    control: Seq<PendingControl>,
    release: Seq<PendingRelease>,
    retained: Seq<RetainedPacket>,
    in_progress: bool,
) -> Option<OutboundStep> {
    match first_match(control, control_in_round(in_progress), 0) {
        Some(i) => Some(
            OutboundStep::Control(ControlStep { action: control[i].action, state: control[i].state }),
        ),
        None => match first_match(release, release_in_round(in_progress), 0) {
            Some(i) => Some(
                OutboundStep::Release(
                    ReleaseStep {
                        packet_id: release[i].packet_id,
                        reason: release[i].reason,
                        state: release[i].state,
                    },
                ),
            ),
            None => match first_match(retained, retained_in_round(in_progress), 0) {
                Some(i) => Some(
                    OutboundStep::Retained(
                        RetainedStep {
                            packet_id: retained[i].packet_id,
                            offset: retained[i].offset,
                            len: retained[i].len,
                            state: retained[i].state,
                        },
                    ),
                ),
                None => None,
            },
        },
    }
}

impl<'a> Outbound<'a> {
    /// Set the duplicate flag in the fixed header of every retained packet.
    pub fn mark_retained_dup(&mut self)
        requires
            old(self).wf(),
        ensures
            final(self).wf(),
            final(self).bytes().len() == old(self).bytes().len(),
            forall|i: int|
                0 <= i < old(self).retained().len() ==> final(self).bytes()[(#[trigger] old(
                    self,
                ).retained()[i]).offset as int] == old(self).bytes()[old(self).retained()[i].offset as int]
                    | 8,
            forall|k: int|
                0 <= k < old(self).bytes().len() && !starts_packet(old(self).retained(), k)
                    ==> #[trigger] final(self).bytes()[k] == old(self).bytes()[k],
            final(self).spec_used() == old(self).spec_used(),
            final(self).control() == old(self).control(),
            final(self).retained() == old(self).retained(),
            final(self).release() == old(self).release(),
    {
        let ghost orig = self.bytes();
        let ghost items = self.retained();
        let n = retained_slice(&self.retained).len();
        let size = self.buf.len();
        let mut i: usize = 0;
        while i < n
            invariant
                n == items.len(),
                i <= n,
                items == self.retained(),
                items == old(self).retained(),
                orig == old(self).bytes(),
                size == orig.len(),
                self.spec_used() == old(self).spec_used(),
                self.control() == old(self).control(),
                self.release() == old(self).release(),
                old(self).wf(),
                self.bytes().len() == orig.len(),
                forall|a: int| 0 <= a < i ==> self.bytes()[(#[trigger] items[a]).offset as int]
                    == orig[items[a].offset as int] | 8,
                forall|k: int|
                    0 <= k < orig.len() && !(exists|a: int|
                        0 <= a < i && (#[trigger] items[a]).offset == k) ==> #[trigger] self.bytes()[k]
                        == orig[k],
            decreases n - i,
        {
            let entry = retained_slice(&self.retained)[i];
            assert(entry == items[i as int]);
            assert(end_of(entry) <= self.spec_used() && entry.len > 0);
            let b = self.buf[entry.offset];
            self.buf[entry.offset] = b | 8;
            proof {
                assert forall|a: int| 0 <= a < i implies items[a].offset != entry.offset by {
                    assert(end_of(items[a]) <= items[i as int].offset);
                }
                assert(self.bytes()[entry.offset as int] == orig[entry.offset as int] | 8);
            }
            i = i + 1;
        }
        proof {
            assert forall|k: int|
                0 <= k < orig.len() && !starts_packet(items, k) implies #[trigger] self.bytes()[k]
                == orig[k] by {
                assert(!(exists|a: int| 0 <= a < n && (#[trigger] items[a]).offset == k));
            }
        }
    }

    /// Restart every pending packet from its first byte, marking retained ones as
    /// duplicates; nothing changes when nothing is pending.
    pub fn arm_replay(&mut self)
        requires
            old(self).wf(),
        ensures
            final(self).wf(),
            final(self).spec_used() == old(self).spec_used(),
            final(self).bytes().len() == old(self).bytes().len(),
            (old(self).control().len() == 0 && old(self).retained().len() == 0
                && old(self).release().len() == 0) ==> final(self).bytes() == old(self).bytes()
                && final(self).control() == old(self).control() && final(self).retained() == old(
                self,
            ).retained() && final(self).release() == old(self).release(),
            !(old(self).control().len() == 0 && old(self).retained().len() == 0
                && old(self).release().len() == 0) ==> {
                &&& final(self).control() == restarted_controls(old(self).control())
                &&& final(self).release() == restarted_releases(old(self).release())
                &&& final(self).retained() == restarted_retained(old(self).retained())
                &&& forall|i: int|
                    0 <= i < old(self).retained().len() ==> final(self).bytes()[(#[trigger] old(
                        self,
                    ).retained()[i]).offset as int] == old(self).bytes()[old(
                        self,
                    ).retained()[i].offset as int] | 8
                &&& forall|k: int|
                    0 <= k < old(self).bytes().len() && !starts_packet(old(self).retained(), k)
                        ==> #[trigger] final(self).bytes()[k] == old(self).bytes()[k]
            },
    {
        if !self.has_pending_state() {
            return;
        }
        self.mark_retained_dup();
        self.restart_controls();
        self.restart_retained();
        self.restart_releases();
    }

    fn restart_controls(&mut self)
        requires
            old(self).wf(),
        ensures
            final(self).wf(),
            final(self).bytes() == old(self).bytes(),
            final(self).spec_used() == old(self).spec_used(),
            final(self).retained() == old(self).retained(),
            final(self).release() == old(self).release(),
            final(self).control() == restarted_controls(old(self).control()),
    {
        let n = controls_slice(&self.pending_control).len();
        let mut i: usize = 0;
        while i < n
            invariant
                n == old(self).control().len(),
                i <= n,
                self.control().len() == n,
                self.bytes() == old(self).bytes(),
                self.spec_used() == old(self).spec_used(),
                self.retained() == old(self).retained(),
                self.release() == old(self).release(),
                forall|k: int| 0 <= k < i ==> #[trigger] self.control()[k] == restarted_controls(
                    old(self).control(),
                )[k],
                forall|k: int| i <= k < n ==> #[trigger] self.control()[k] == old(self).control()[k],
            decreases n - i,
        {
            let entry = controls_slice(&self.pending_control)[i];
            controls_set(
                &mut self.pending_control,
                i,
                PendingControl { action: entry.action, state: SendState::Write { written: 0 } },
            );
            i = i + 1;
        }
        assert(self.control() =~= restarted_controls(old(self).control()));
    }

    fn restart_retained(&mut self)
        requires
            old(self).wf(),
        ensures
            final(self).wf(),
            final(self).bytes() == old(self).bytes(),
            final(self).spec_used() == old(self).spec_used(),
            final(self).control() == old(self).control(),
            final(self).release() == old(self).release(),
            final(self).retained() == restarted_retained(old(self).retained()),
    {
        let n = retained_slice(&self.retained).len();
        let mut i: usize = 0;
        while i < n
            invariant
                n == old(self).retained().len(),
                i <= n,
                self.retained().len() == n,
                self.bytes() == old(self).bytes(),
                self.spec_used() == old(self).spec_used(),
                self.control() == old(self).control(),
                self.release() == old(self).release(),
                forall|k: int| 0 <= k < i ==> #[trigger] self.retained()[k] == restarted_retained(
                    old(self).retained(),
                )[k],
                forall|k: int| i <= k < n ==> #[trigger] self.retained()[k] == old(self).retained()[k],
            decreases n - i,
        {
            let entry = retained_slice(&self.retained)[i];
            retained_set(
                &mut self.retained,
                i,
                RetainedPacket { state: SendState::Write { written: 0 }, ..entry },
            );
            i = i + 1;
        }
        proof {
            assert(self.retained() =~= restarted_retained(old(self).retained()));
            let s = self.retained();
            let o = old(self).retained();
            assert forall|a: int| 0 <= a < s.len() implies #[trigger] end_of(s[a])
                <= self.spec_used() && s[a].len > 0 by {
                assert(end_of(s[a]) == end_of(o[a]));
            }
            assert forall|a: int, b: int| 0 <= a < b < s.len() implies end_of(#[trigger] s[a]) <= (
            #[trigger] s[b]).offset by {
                assert(end_of(s[a]) == end_of(o[a]) && s[b].offset == o[b].offset);
            }
        }
    }

    fn restart_releases(&mut self)
        requires
            old(self).wf(),
        ensures
            final(self).wf(),
            final(self).bytes() == old(self).bytes(),
            final(self).spec_used() == old(self).spec_used(),
            final(self).control() == old(self).control(),
            final(self).retained() == old(self).retained(),
            final(self).release() == restarted_releases(old(self).release()),
    {
        let n = releases_slice(&self.pending_release).len();
        let mut i: usize = 0;
        while i < n
            invariant
                n == old(self).release().len(),
                i <= n,
                self.release().len() == n,
                self.bytes() == old(self).bytes(),
                self.spec_used() == old(self).spec_used(),
                self.control() == old(self).control(),
                self.retained() == old(self).retained(),
                forall|k: int| 0 <= k < i ==> #[trigger] self.release()[k] == restarted_releases(
                    old(self).release(),
                )[k],
                forall|k: int| i <= k < n ==> #[trigger] self.release()[k] == old(self).release()[k],
            decreases n - i,
        {
            let entry = releases_slice(&self.pending_release)[i];
            releases_set(
                &mut self.pending_release,
                i,
                PendingRelease { state: SendState::Write { written: 0 }, ..entry },
            );
            i = i + 1;
        }
        assert(self.release() =~= restarted_releases(old(self).release()));
    }

    /// The next packet to write.
    pub fn next_step(&self) -> (r: Option<OutboundStep>)
        ensures
            r == spec_next_step(self.control(), self.release(), self.retained()),
    {
        match self.next_in_round(true) {
            Some(step) => Some(step),
            None => self.next_in_round(false),
        }
    }

    fn next_in_round(&self, in_progress: bool) -> (r: Option<OutboundStep>)
        ensures
            r == spec_next_in_round(self.control(), self.release(), self.retained(), in_progress),
    {
        let controls = controls_slice(&self.pending_control);
        proof {
            lemma_first_match(self.control(), control_in_round(in_progress), 0);
            lemma_first_match(self.release(), release_in_round(in_progress), 0);
            lemma_first_match(self.retained(), retained_in_round(in_progress), 0);
        }
        if let Some(i) = find_control_in_round(controls, in_progress) {
            return Some(
                OutboundStep::Control(ControlStep { action: controls[i].action, state: controls[i].state }),
            );
        }
        let releases = releases_slice(&self.pending_release);
        if let Some(i) = find_release_in_round(releases, in_progress) {
            return Some(
                OutboundStep::Release(
                    ReleaseStep {
                        packet_id: releases[i].packet_id,
                        reason: releases[i].reason,
                        state: releases[i].state,
                    },
                ),
            );
        }
        let retained = retained_slice(&self.retained);
        if let Some(i) = find_retained_in_round(retained, in_progress) {
            return Some(
                OutboundStep::Retained(
                    RetainedStep {
                        packet_id: retained[i].packet_id,
                        offset: retained[i].offset,
                        len: retained[i].len,
                        state: retained[i].state,
                    },
                ),
            );
        }
        None
    }
}

/// Position of the first control packet of the round.
fn find_control_in_round(items: &[PendingControl], in_progress: bool) -> (r: Option<usize>)
    ensures
        match first_match(items@, control_in_round(in_progress), 0) {
            Some(i) => r == Some(i as usize),
            None => r is None,
        },
{
    let mut i: usize = 0;
    while i < items.len()
        invariant
            i <= items@.len(),
            first_match(items@, control_in_round(in_progress), 0) == first_match(
                items@,
                control_in_round(in_progress),
                i as int,
            ),
        decreases items@.len() - i,
    {
        if items[i].state.matches_priority(in_progress) {
            return Some(i);
        }
        i = i + 1;
    }
    None
}

/// Position of the first release of the round.
fn find_release_in_round(items: &[PendingRelease], in_progress: bool) -> (r: Option<usize>)
    ensures
        match first_match(items@, release_in_round(in_progress), 0) {
            Some(i) => r == Some(i as usize),
            None => r is None,
        },
{
    let mut i: usize = 0;
    while i < items.len()
        invariant
            i <= items@.len(),
            first_match(items@, release_in_round(in_progress), 0) == first_match(
                items@,
                release_in_round(in_progress),
                i as int,
            ),
        decreases items@.len() - i,
    {
        if items[i].state.matches_priority(in_progress) {
            return Some(i);
        }
        i = i + 1;
    }
    None
}

/// Position of the first retained packet of the round.
fn find_retained_in_round(items: &[RetainedPacket], in_progress: bool) -> (r: Option<usize>)
    ensures
        match first_match(items@, retained_in_round(in_progress), 0) {
            Some(i) => r == Some(i as usize),
            None => r is None,
        },
{
    let mut i: usize = 0;
    while i < items.len()
        invariant
            i <= items@.len(),
            first_match(items@, retained_in_round(in_progress), 0) == first_match(
                items@,
                retained_in_round(in_progress),
                i as int,
            ),
        decreases items@.len() - i,
    {
        if items[i].state.matches_priority(in_progress) {
            return Some(i);
        }
        i = i + 1;
    }
    None
}

/// The bytes of an acknowledgement of type `t` with header flags `flags` for `packet_id`
/// carrying `reason`.
pub open spec fn spec_ack_bytes(t: MessageType, flags: u8, packet_id: u16, reason: ReasonCode) -> Seq<u8> {
    seq![spec_header_byte(t, flags), 3u8] + be16(packet_id as nat) + seq![
        spec_reason_code_value(reason),
    ]
}

/// The bytes of the control packet `action`.
pub open spec fn spec_control_bytes(action: ControlAction) -> Seq<u8> {
    match action {
        ControlAction::PubAck { packet_id, reason } => spec_ack_bytes(
            MessageType::PubAck,
            0,
            packet_id,
            reason,
        ),
        ControlAction::PubRec { packet_id, reason } => spec_ack_bytes(
            MessageType::PubRec,
            0,
            packet_id,
            reason,
        ),
        ControlAction::PubComp { packet_id, reason } => spec_ack_bytes(
            MessageType::PubComp,
            0,
            packet_id,
            reason,
        ),
        ControlAction::PingReq => seq![spec_header_byte(MessageType::PingReq, 0), 0u8],
    }
}

/// Buffer bytes the serializer needs for the control packet `action`: its fields after the
/// room reserved for the largest fixed header.
pub open spec fn spec_control_room(action: ControlAction) -> nat {
    match action {
        ControlAction::PingReq => 5,
        _ => 8,
    }
}

/// Encoding an acknowledgement with a reason code and no properties into `cap` bytes.
proof fn lemma_ack_encoding(cap: nat, t: MessageType, flags: u8, packet_id: u16, reason: ReasonCode)
    ensures
        spec_encode(
            cap,
            enc_then(Ok(be16(packet_id as nat)), (Reason { reason: Some(ReasonData { code: reason, properties: None }) }).spec_enc()),
            t,
            flags,
        ) == if cap >= 8 {
            Ok::<(nat, Seq<u8>), crate::ser::Error>((3, spec_ack_bytes(t, flags, packet_id, reason)))
        } else {
            Err::<(nat, Seq<u8>), crate::ser::Error>(crate::ser::Error::InsufficientMemory)
        },
{
    let body = be16(packet_id as nat) + seq![spec_reason_code_value(reason)];
    assert((Reason { reason: Some(ReasonData { code: reason, properties: None }) }).spec_enc() == Ok::<Seq<u8>, Seq<u8>>(
        seq![spec_reason_code_value(reason)],
    )) by {
        assert(seq![spec_reason_code_value(reason)] + Seq::<u8>::empty() =~= seq![
            spec_reason_code_value(reason),
        ]);
    }
    assert(body.len() == 3);
    assert(crate::varint::spec_varint_encode(3) == seq![3u8]);
    if cap >= 8 {
        assert(seq![spec_header_byte(t, flags)] + seq![3u8] + body =~= spec_ack_bytes(
            t,
            flags,
            packet_id,
            reason,
        ));
    }
}

/// Encode the control packet `action` into `buffer`.
pub fn encode_control_packet(buffer: &mut [u8], action: ControlAction) -> (r: Result<
    &[u8],
    ProtocolError,
>)
    ensures
        old(buffer)@.len() >= spec_control_room(action) ==> (r matches Ok(b) && b@
            == spec_control_bytes(action)),
        old(buffer)@.len() < spec_control_room(action) ==> r == Err::<&[u8], ProtocolError>(
            ProtocolError::Encode(crate::ser::Error::InsufficientMemory),
        ),
{
    let encoded = match action {
        ControlAction::PubAck { packet_id, reason } => {
            proof {
                lemma_ack_encoding(buffer@.len(), MessageType::PubAck, 0, packet_id, reason);
            }
            MqttSerializer::encode(buffer, &PubAck { packet_id, reason: Reason::from_code(reason) })
        },
        ControlAction::PubRec { packet_id, reason } => {
            proof {
                lemma_ack_encoding(buffer@.len(), MessageType::PubRec, 0, packet_id, reason);
            }
            MqttSerializer::encode(buffer, &PubRec { packet_id, reason: Reason::from_code(reason) })
        },
        ControlAction::PubComp { packet_id, reason } => {
            proof {
                lemma_ack_encoding(buffer@.len(), MessageType::PubComp, 0, packet_id, reason);
            }
            MqttSerializer::encode(buffer, &PubComp { packet_id, reason: Reason::from_code(reason) })
        },
        ControlAction::PingReq => {
            proof {
                assert(crate::varint::spec_varint_encode(0) == seq![0u8]);
                assert(seq![spec_header_byte(MessageType::PingReq, 0)] + seq![0u8]
                    + Seq::<u8>::empty() =~= seq![spec_header_byte(MessageType::PingReq, 0), 0u8]);
            }
            MqttSerializer::encode(buffer, &PingReq)
        },
    };
    match encoded {
        Ok(bytes) => Ok(bytes),
        Err(e) => Err(ProtocolError::Encode(e)),
    }
}

/// Encode a `PUBREL` for `packet_id` with `reason` into `buffer`.
pub fn encode_pubrel(buffer: &mut [u8], packet_id: u16, reason: ReasonCode) -> (r: Result<
    &[u8],
    ProtocolError,
>)
    ensures
        old(buffer)@.len() >= 8 ==> (r matches Ok(b) && b@ == spec_ack_bytes(
            MessageType::PubRel,
            0b0010,
            packet_id,
            reason,
        )),
        old(buffer)@.len() < 8 ==> r == Err::<&[u8], ProtocolError>(
            ProtocolError::Encode(crate::ser::Error::InsufficientMemory),
        ),
{
    proof {
        lemma_ack_encoding(buffer@.len(), MessageType::PubRel, 0b0010, packet_id, reason);
    }
    match MqttSerializer::encode(buffer, &PubRel { packet_id, reason: Reason::from_code(reason) }) {
        Ok(bytes) => Ok(bytes),
        Err(e) => Err(ProtocolError::Encode(e)),
    }
}

/// Whether a packet of `len` bytes exceeds the broker's maximum packet size, if one is known.
pub open spec fn too_large(maximum_packet_size: Option<u32>, len: nat) -> bool {
    maximum_packet_size matches Some(max) && len > max
}

/// Refuse a packet of `len` bytes larger than the broker's maximum packet size.
pub fn require_packet_size(maximum_packet_size: Option<u32>, len: usize) -> (r: Result<
    (),
    ProtocolError,
>)
    ensures
        too_large(maximum_packet_size, len as nat) ==> r == Err::<(), ProtocolError>(
            ProtocolError::Failed(ReasonCode::PacketTooLarge),
        ),
        !too_large(maximum_packet_size, len as nat) ==> r is Ok,
{
    match maximum_packet_size {
        Some(max) => if len as u64 > max as u64 {
            Err(ProtocolError::Failed(ReasonCode::PacketTooLarge))
        } else {
            Ok(())
        },
        None => Ok(()),
    }
}

/// Check that the control packet `action` fits within the broker's maximum packet size.
pub fn check_control_packet_size(maximum_packet_size: Option<u32>, action: ControlAction) -> (r:
    Result<(), ProtocolError>)
    ensures
        too_large(maximum_packet_size, spec_control_bytes(action).len()) ==> r == Err::<
            (),
            ProtocolError,
        >(ProtocolError::Failed(ReasonCode::PacketTooLarge)),
        !too_large(maximum_packet_size, spec_control_bytes(action).len()) ==> r is Ok,
{
    let mut buffer = [0u8; CONTROL_PACKET_LEN];
    let len = match encode_control_packet(&mut buffer, action) {
        Ok(bytes) => bytes.len(),
        Err(e) => return Err(e),
    };
    require_packet_size(maximum_packet_size, len)
}

/// Check that a `PUBREL` for `packet_id` with `reason` fits within the broker's maximum
/// packet size.
pub fn check_pubrel_size(maximum_packet_size: Option<u32>, packet_id: u16, reason: ReasonCode) -> (r:
    Result<(), ProtocolError>)
    ensures
        too_large(maximum_packet_size, 5) ==> r == Err::<(), ProtocolError>(
            ProtocolError::Failed(ReasonCode::PacketTooLarge),
        ),
        !too_large(maximum_packet_size, 5) ==> r is Ok,
{
    let mut buffer = [0u8; CONTROL_PACKET_LEN];
    let len = match encode_pubrel(&mut buffer, packet_id, reason) {
        Ok(bytes) => bytes.len(),
        Err(e) => return Err(e),
    };
    require_packet_size(maximum_packet_size, len)
}

/// Encode the control packet `action` into `buffer` for sending, refusing it when larger
/// than the broker's maximum packet size.
pub fn serialize_control_packet<E>(
    buffer: &mut [u8],
    action: ControlAction,
    maximum_packet_size: Option<u32>,
) -> (r: Result<&[u8], Error<E>>)
    ensures
        old(buffer)@.len() < spec_control_room(action) ==> r matches Err(Error::Resource(
            ResourceError::BufferTooSmall,
        )),
        old(buffer)@.len() >= spec_control_room(action) && too_large(
            maximum_packet_size,
            spec_control_bytes(action).len(),
        ) ==> r matches Err(Error::Resource(ResourceError::PacketTooLarge)),
        old(buffer)@.len() >= spec_control_room(action) && !too_large(
            maximum_packet_size,
            spec_control_bytes(action).len(),
        ) ==> (r matches Ok(b) && b@ == spec_control_bytes(action)),
{
    let bytes = match encode_control_packet(buffer, action) {
        Ok(b) => b,
        Err(e) => return Err(Error::from(e)),
    };
    if let Some(max) = maximum_packet_size {
        if bytes.len() as u64 > max as u64 {
            return Err(Error::Resource(ResourceError::PacketTooLarge));
        }
    }
    Ok(bytes)
}

/// Encode a `PUBREL` for `packet_id` with `reason` into `buffer` for sending, refusing it
/// when larger than the broker's maximum packet size.
pub fn serialize_pubrel<E>(
    buffer: &mut [u8],
    packet_id: u16,
    reason: ReasonCode,
    maximum_packet_size: Option<u32>,
) -> (r: Result<&[u8], Error<E>>)
    ensures
        old(buffer)@.len() < 8 ==> r matches Err(Error::Resource(ResourceError::BufferTooSmall)),
        old(buffer)@.len() >= 8 && too_large(maximum_packet_size, 5) ==> r matches Err(
            Error::Resource(ResourceError::PacketTooLarge),
        ),
        old(buffer)@.len() >= 8 && !too_large(maximum_packet_size, 5) ==> (r matches Ok(b) && b@
            == spec_ack_bytes(MessageType::PubRel, 0b0010, packet_id, reason)),
{
    let bytes = match encode_pubrel(buffer, packet_id, reason) {
        Ok(b) => b,
        Err(e) => return Err(Error::from(e)),
    };
    if let Some(max) = maximum_packet_size {
        if bytes.len() as u64 > max as u64 {
            return Err(Error::Resource(ResourceError::PacketTooLarge));
        }
    }
    Ok(bytes)
}

impl<'a> Outbound<'a> {
    /// Encode the control packet `packet` after the packed retained packets; its offset in the
    /// buffer and its length.
    pub fn encode_packet<T: ControlPacket>(&mut self, packet: &T) -> (r: Result<
        (usize, usize),
        ProtocolError,
    >)
        requires
            old(self).wf(),
            packet.encodable(),
        ensures
            final(self).wf(),
            final(self).bytes().len() == old(self).bytes().len(),
            final(self).control() == old(self).control(),
            final(self).release() == old(self).release(),
            final(self).retained() == compacted(old(self).retained()),
            final(self).spec_used() == total_len(old(self).retained()),
            same_packets(old(self).bytes(), old(self).retained(), final(self).bytes(), final(self).retained()),
            ({
                let start = total_len(old(self).retained());
                match spec_encode(
                    (old(self).bytes().len() - start) as nat,
                    packet.spec_fields(),
                    packet.spec_message_type(),
                    packet.spec_flags(),
                ) {
                    Ok((o, b)) => (r matches Ok((x, y)) && x == start + o && y == b.len()
                        && final(self).bytes().subrange(x as int, x + y) == b),
                    Err(e) => r == Err::<(usize, usize), ProtocolError>(ProtocolError::Encode(e)),
                }
            }),
    {
        self.compact();
        let ghost packed = self.bytes();
        let start = self.used;
        let size = self.buf.len();
        let (front, back) = self.buf.split_at_mut(start);
        let encoded = MqttSerializer::encode_with_offset(back, packet);
        let r = match encoded {
            Ok((offset, bytes)) => Ok((start + offset, bytes.len())),
            Err(e) => Err(ProtocolError::Encode(e)),
        };
        proof {
            assert(self.bytes().subrange(0, start as int) =~= packed.subrange(0, start as int));
            let s = self.retained();
            assert forall|i: int| 0 <= i < s.len() implies packet_of(self.bytes(), #[trigger] s[i])
                =~= packet_of(packed, s[i]) by {
                assert(end_of(s[i]) <= start);
            }
            if let Ok((x, y)) = r {
                assert(self.bytes().subrange(x as int, x + y) =~= final(back)@.subrange(
                    x - start,
                    x - start + y,
                ));
            }
        }
        r
    }
}

impl<'a> Outbound<'a> {
    /// Encode a `PUBLISH` with `header` and `payload` after the packed retained packets; its
    /// offset in the buffer and its length.
    pub fn encode_publish<P: ToPayload, E>(&mut self, header: &PublishHeader<'_>, payload: P) -> (r:
        Result<(usize, usize), PubError<P::Error, E>>)
        requires
            old(self).wf(),
            header.properties.spec_size() <= usize::MAX,
        ensures
            final(self).wf(),
            final(self).bytes().len() == old(self).bytes().len(),
            final(self).control() == old(self).control(),
            final(self).release() == old(self).release(),
            final(self).retained() == compacted(old(self).retained()),
            final(self).spec_used() == total_len(old(self).retained()),
            same_packets(old(self).bytes(), old(self).retained(), final(self).bytes(), final(self).retained()),
            ({
                let start = total_len(old(self).retained());
                let cap = (old(self).bytes().len() - start) as nat;
                match spec_body_result(cap, header.spec_fields()) {
                    Err(e) => r matches Err(PubError::Session(x)) && x == spec_from_ser::<E>(e),
                    Ok(body) => {
                        let whole = spec_finalize(
                            cap,
                            body + payload.payload_bytes(),
                            spec_header_byte(MessageType::Publish, header.spec_flags()),
                        );
                        &&& r matches Ok((x, y)) ==> (whole matches Ok((o, b)) && x == start + o
                            && y == b.len() && final(self).bytes().subrange(x as int, x + y) == b)
                        &&& r matches Err(PubError::Session(x)) ==> whole is Err && x
                            == Error::<E>::Resource(ResourceError::BufferTooSmall)
                    },
                }
            }),
    {
        self.compact();
        let ghost packed = self.bytes();
        let start = self.used;
        let size = self.buf.len();
        let (front, back) = self.buf.split_at_mut(start);
        let encoded = MqttSerializer::encode_publish_with_offset(back, header, payload);
        let r = match encoded {
            Ok((offset, bytes)) => Ok((start + offset, bytes.len())),
            Err(e) => Err(PubError::from(e)),
        };
        proof {
            assert(self.bytes().subrange(0, start as int) =~= packed.subrange(0, start as int));
            let s = self.retained();
            assert forall|i: int| 0 <= i < s.len() implies packet_of(self.bytes(), #[trigger] s[i])
                =~= packet_of(packed, s[i]) by {
                assert(end_of(s[i]) <= start);
            }
            if let Ok((x, y)) = r {
                assert(self.bytes().subrange(x as int, x + y) =~= final(back)@.subrange(
                    x - start,
                    x - start + y,
                ));
            }
        }
        r
    }

    /// The free part of the buffer once the retained packets are packed.
    pub fn scratch_space(&mut self) -> (r: &mut [u8])
        requires
            old(self).wf(),
        ensures
            final(self).control() == old(self).control(),
            final(self).release() == old(self).release(),
            final(self).retained() == compacted(old(self).retained()),
            final(self).spec_used() == total_len(old(self).retained()),
            r@.len() == old(self).bytes().len() - total_len(old(self).retained()),
            final(r)@.len() == r@.len() ==> final(self).wf() && final(self).bytes().len() == old(
                self,
            ).bytes().len(),
    {
        self.compact();
        let start = self.used;
        let (front, back) = self.buf.split_at_mut(start);
        back
    }
}

} // verus!
