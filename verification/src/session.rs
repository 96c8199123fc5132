//! Session state kept across packets, and what the session does with each packet the broker
//! sends. Times are milliseconds on the caller's monotonic clock.
use crate::client::InboundPublish;
use crate::error::{spec_from_protocol, Error};
use crate::heapless_vec::{
    client_id_bytes, client_id_try_from, ids_clear, ids_new, ids_push, ids_slice, ids_swap_remove,
    packet_ids,
};
use crate::outbound::{
    check_control_packet_size, check_pubrel_size, compacted, first_match, lemma_first_match,
    release_with_id, restarted_controls, restarted_releases, restarted_retained,
    retained_with_id, same_packets, spec_control_bytes, starts_packet, too_large, total_len,
    ControlAction, Outbound, PendingControl, PendingRelease, RetainedPacket, SendState,
    MAX_PENDING_CONTROL, MAX_PENDING_RELEASE,
};
use crate::properties::{spec_iterated, Property};
use crate::reason_codes::{spec_reason_code_from, spec_reason_code_value, ReasonCode};
use crate::received::{ConnAck, Pub, ReceivedPacket};
use crate::{qos_level, PeerError, ProtocolError, QoS};
use vstd::prelude::*;
use vstd::string::StringSliceAdditionalSpecFns;

verus! {

/// Lead time of a keepalive ping before the broker's deadline, at most.
pub const PING_TIMEOUT_MS: u64 = 5_000;

/// Inbound QoS 2 exchanges tracked at once.
pub const MAX_INBOUND_QOS2: usize = 8;

/// Keepalive interval at most: MQTT keepalive is a 16-bit count of seconds.
pub const MAX_KEEPALIVE_MS: u64 = 65_535_000;

/// Where the connection stands.
#[derive(Debug, Copy, Clone, PartialEq, Eq, Structural)]
pub enum ConnectionState {
    /// No connection.
    Disconnected,
    /// `CONNECT` sent, `CONNACK` awaited.
    Establishing,
    /// Connected.
    Active,
}

/// Connection-scoped state negotiated with the broker.
#[derive(Debug, Copy, Clone, PartialEq, Eq, Structural)]
pub struct RuntimeState {
    pub state: ConnectionState,
    pub session_resumed: bool,
    pub keepalive_interval_ms: u64,
    pub send_quota: u16,
    pub max_send_quota: u16,
    pub maximum_packet_size: Option<u32>,
    pub max_qos: Option<QoS>,
    pub next_ping: Option<u64>,
    pub ping_timeout: Option<u64>,
}

/// Interval after outbound activity at which a keepalive ping is due, if keepalive is on:
/// the keepalive interval less a lead of `PING_TIMEOUT_MS`, or of half the interval when that
/// is shorter.
pub open spec fn spec_keepalive_send_interval(keepalive_ms: u64) -> Option<u64> {
    if keepalive_ms == 0 {
        None
    } else {
        let lead = if PING_TIMEOUT_MS < keepalive_ms / 2 {
            PING_TIMEOUT_MS
        } else {
            keepalive_ms / 2
        };
        Some((keepalive_ms - lead) as u64)
    }
}

/// Time of the next ping after outbound activity at `now`.
pub open spec fn spec_next_ping(keepalive_ms: u64, now: u64) -> Option<u64> {
    match spec_keepalive_send_interval(keepalive_ms) {
        Some(interval) => Some((now + interval) as u64),
        None => None,
    }
}

/// The earlier of two optional deadlines.
pub open spec fn spec_earliest(a: Option<u64>, b: Option<u64>) -> Option<u64> {
    match (a, b) {
        (Some(x), Some(y)) => Some(
            if x <= y {
                x
            } else {
                y
            },
        ),
        (Some(x), None) => Some(x),
        (None, Some(y)) => Some(y),
        (None, None) => None,
    }
}

impl RuntimeState {
    /// Fresh state with keepalive interval `keepalive_interval_ms`.
    pub fn new(keepalive_interval_ms: u64) -> (r: Self)
        ensures
            r == (RuntimeState {
                state: ConnectionState::Disconnected,
                session_resumed: false,
                keepalive_interval_ms,
                send_quota: u16::MAX,
                max_send_quota: u16::MAX,
                maximum_packet_size: None,
                max_qos: None,
                next_ping: None,
                ping_timeout: None,
            }),
    {
        RuntimeState {
            state: ConnectionState::Disconnected,
            session_resumed: false,
            keepalive_interval_ms,
            send_quota: u16::MAX,
            max_send_quota: u16::MAX,
            maximum_packet_size: None,
            max_qos: None,
            next_ping: None,
            ping_timeout: None,
        }
    }

    /// Forget what belonged to the transport connection.
    pub fn reset_transport(&mut self)
        ensures
            *final(self) == (RuntimeState {
                session_resumed: false,
                next_ping: None,
                ping_timeout: None,
                ..*old(self)
            }),
    {
        self.session_resumed = false;
        self.next_ping = None;
        self.ping_timeout = None;
    }

    /// The connection is gone.
    pub fn disconnect(&mut self)
        ensures
            *final(self) == (RuntimeState {
                state: ConnectionState::Disconnected,
                session_resumed: false,
                next_ping: None,
                ping_timeout: None,
                ..*old(self)
            }),
    {
        self.state = ConnectionState::Disconnected;
        self.reset_transport();
    }

    /// Interval after outbound activity at which a keepalive ping is due, if keepalive is on.
    pub fn keepalive_send_interval(&self) -> (r: Option<u64>)
        ensures
            r == spec_keepalive_send_interval(self.keepalive_interval_ms),
    {
        let keepalive_ms = self.keepalive_interval_ms;
        if keepalive_ms == 0 {
            return None;
        }
        let lead_ms = if PING_TIMEOUT_MS < keepalive_ms / 2 {
            PING_TIMEOUT_MS
        } else {
            keepalive_ms / 2
        };
        Some(keepalive_ms - lead_ms)
    }

    /// Outbound activity at `now` moves the next ping to one interval later.
    pub fn note_outbound_activity(&mut self, now: u64)
        requires
            now + old(self).keepalive_interval_ms <= u64::MAX,
        ensures
            *final(self) == (RuntimeState {
                next_ping: spec_next_ping(old(self).keepalive_interval_ms, now),
                ..*old(self)
            }),
    {
        self.next_ping = match self.keepalive_send_interval() {
            Some(interval) => Some(now + interval),
            None => None,
        };
    }

    /// The next time something is due: a ping or the end of the wait for its answer.
    pub fn next_deadline(&self) -> (r: Option<u64>)
        ensures
            r == spec_earliest(self.next_ping, self.ping_timeout),
    {
        match (self.next_ping, self.ping_timeout) {
            (Some(next_ping), Some(ping_timeout)) => Some(
                if next_ping <= ping_timeout {
                    next_ping
                } else {
                    ping_timeout
                },
            ),
            (Some(next_ping), None) => Some(next_ping),
            (None, Some(ping_timeout)) => Some(ping_timeout),
            (None, None) => None,
        }
    }

    /// Refuse a packet of `len` bytes larger than the broker's maximum packet size.
    pub fn require_packet_size<E>(&self, len: usize) -> (r: Result<(), Error<E>>)
        ensures
            too_large(self.maximum_packet_size, len as nat) ==> r matches Err(
                Error::Resource(crate::ResourceError::PacketTooLarge),
            ),
            !too_large(self.maximum_packet_size, len as nat) ==> r is Ok,
    {
        match crate::outbound::require_packet_size(self.maximum_packet_size, len) {
            Ok(()) => Ok(()),
            Err(e) => Err(Error::from(e)),
        }
    }
}

/// Session state that survives reconnections when the broker keeps the session.
pub struct SessionData<'a> {
    /// The identifier the next outbound packet gets.
    pub packet_id: u16,
    /// Outbound packets and their progress.
    pub outbound: Outbound<'a>,
    /// Identifiers of inbound QoS 2 publishes received and not yet released.
    pub pending_server_packet_ids: heapless::Vec<u16, 8>,
    /// Whether the broker holds this session.
    pub session_present: bool,
    /// Counts the times the session state was discarded, modulo 2^32; operations accepted
    /// before a discard cannot complete.
    pub generation: u32,
}

impl<'a> SessionData<'a> {
    /// The current session generation.
    pub fn generation(&self) -> (r: u32)
        ensures
            r == self.generation,
    {
        self.generation
    }

    /// Identifiers of inbound QoS 2 publishes received and not yet released.
    pub open spec fn pending_ids(&self) -> Seq<u16> {
        packet_ids(self.pending_server_packet_ids)
    }

    /// Consistency: outbound state well formed, packet identifiers never zero.
    pub open spec fn wf(&self) -> bool {
        &&& self.outbound.wf()
        &&& self.packet_id != 0
    }

    /// A new session over the transmit buffer `outbound`.
    pub fn new(outbound: &'a mut [u8]) -> (r: Self)
        ensures
            r.wf(),
            r.packet_id == 1,
            !r.session_present,
            r.pending_ids() == Seq::<u16>::empty(),
            r.outbound.bytes() == old(outbound)@,
            r.outbound.spec_used() == 0,
            r.outbound.control() == Seq::<PendingControl>::empty(),
            r.outbound.retained() == Seq::<RetainedPacket>::empty(),
            r.outbound.release() == Seq::<PendingRelease>::empty(),
            r.generation == 0,
    {
        SessionData {
            packet_id: 1,
            outbound: Outbound::new(outbound),
            pending_server_packet_ids: ids_new(),
            session_present: false,
            generation: 0,
        }
    }

    /// The broker holds this session.
    pub fn register_connected(&mut self)
        requires
            old(self).wf(),
        ensures
            final(self).wf(),
            final(self).session_present,
            final(self).packet_id == old(self).packet_id,
            final(self).pending_ids() == old(self).pending_ids(),
            final(self).outbound == old(self).outbound,
            final(self).generation == old(self).generation,
    {
        self.session_present = true;
    }

    /// Start over: no session at the broker, identifiers from 1, nothing pending, and a new
    /// generation, so that operations accepted before cannot complete.
    pub fn reset(&mut self)
        requires
            old(self).wf(),
        ensures
            final(self).wf(),
            !final(self).session_present,
            final(self).packet_id == 1,
            final(self).pending_ids() == Seq::<u16>::empty(),
            final(self).outbound.bytes() == old(self).outbound.bytes(),
            final(self).outbound.spec_used() == 0,
            final(self).outbound.control() == Seq::<PendingControl>::empty(),
            final(self).outbound.retained() == Seq::<RetainedPacket>::empty(),
            final(self).outbound.release() == Seq::<PendingRelease>::empty(),
            final(self).generation == if old(self).generation == u32::MAX {
                0
            } else {
                (old(self).generation + 1) as u32
            },
    {
        self.generation = self.generation.wrapping_add(1);
        self.session_present = false;
        self.packet_id = 1;
        self.outbound.clear();
        ids_clear(&mut self.pending_server_packet_ids);
    }

    /// Hand out the next packet identifier; identifiers count up from 1 and wrap past 65535
    /// back to 1, never 0.
    pub fn next_packet_id(&mut self) -> (r: u16)
        requires
            old(self).wf(),
        ensures
            final(self).wf(),
            r == old(self).packet_id,
            final(self).packet_id == if old(self).packet_id == u16::MAX {
                1
            } else {
                (old(self).packet_id + 1) as u16
            },
            final(self).session_present == old(self).session_present,
            final(self).pending_ids() == old(self).pending_ids(),
            final(self).outbound == old(self).outbound,
            final(self).generation == old(self).generation,
    {
        let packet_id = self.packet_id;
        let next = packet_id.wrapping_add(1);
        self.packet_id = if next == 0 {
            1
        } else {
            next
        };
        packet_id
    }
}

/// What handling one packet from the broker produced.
#[derive(Debug)]
pub enum PacketOutcome<'pkt> {
    /// Nothing for the user.
    NoEvent,
    /// The connection is up; whether the broker resumed the session.
    Connected(bool),
    /// A message for the user.
    Inbound(InboundPublish<'pkt>),
}

/// Whether `code` reports a failure.
pub open spec fn fails(code: ReasonCode) -> bool {
    spec_reason_code_value(code) >= 0x80
}

/// The session error for the broker's failure reason `code`.
pub open spec fn spec_rejection<E>(code: ReasonCode) -> Error<E> {
    spec_from_protocol(ProtocolError::Failed(code))
}

/// Whether a wire reason code reports a failure.
pub open spec fn code_fails() -> spec_fn(u8) -> bool {
    |c: u8| fails(spec_reason_code_from(c))
}

/// Whether an identifier is `id`.
pub open spec fn id_is(id: u16) -> spec_fn(u16) -> bool {
    |x: u16| x == id
}

/// Whether two outbound states hold the same bytes and the same pending packets.
pub open spec fn same_outbound(a: Outbound, b: Outbound) -> bool {
    &&& b.wf() == a.wf()
    &&& b.bytes() == a.bytes()
    &&& b.spec_used() == a.spec_used()
    &&& b.control() == a.control()
    &&& b.retained() == a.retained()
    &&& b.release() == a.release()
}

/// Whether `new` is `old` once its retained packet at `i` was dropped and the rest packed.
pub open spec fn acked(old: Outbound, new: Outbound, i: int) -> bool {
    &&& new.wf()
    &&& new.bytes().len() == old.bytes().len()
    &&& new.control() == old.control()
    &&& new.release() == old.release()
    &&& new.retained() == compacted(old.retained().remove(i))
    &&& new.spec_used() == total_len(old.retained().remove(i))
    &&& same_packets(old.bytes(), old.retained().remove(i), new.bytes(), new.retained())
}

/// Whether the session apart from its outbound state is unchanged.
pub open spec fn same_session_rest(a: SessionData, b: SessionData) -> bool {
    &&& b.packet_id == a.packet_id
    &&& b.pending_ids() == a.pending_ids()
    &&& b.session_present == a.session_present
}

/// Send quota once one more publish is acknowledged: one more, up to the maximum.
pub open spec fn quota_after_ack(rt: RuntimeState) -> u16 {
    let up: int = if rt.send_quota == u16::MAX {
        u16::MAX as int
    } else {
        rt.send_quota + 1
    };
    if up <= rt.max_send_quota {
        up as u16
    } else {
        rt.max_send_quota
    }
}

/// Outcome of an acknowledgement that matched: an error for a failure reason.
pub open spec fn reason_outcome<'pkt, E>(code: ReasonCode, r: Result<PacketOutcome<'pkt>, Error<E>>) -> bool {
    if fails(code) {
        r matches Err(x) && x == spec_rejection::<E>(code)
    } else {
        r matches Ok(PacketOutcome::NoEvent)
    }
}

/// Whether queueing the control packet `action` took the outbound state from `old` to `new`
/// with result `r`, given the broker's maximum packet size.
pub open spec fn queued_control<'pkt, E>(
    old: Outbound,
    new: Outbound,
    maximum_packet_size: Option<u32>,
    action: ControlAction,
    ok: PacketOutcome<'pkt>,
    r: Result<PacketOutcome<'pkt>, Error<E>>,
) -> bool {
    if too_large(maximum_packet_size, spec_control_bytes(action).len()) {
        same_outbound(old, new) && (r matches Err(x) && x == Error::<E>::Resource(
            crate::ResourceError::PacketTooLarge,
        ))
    } else if old.control().len() >= MAX_PENDING_CONTROL {
        same_outbound(old, new) && (r matches Err(x) && x == Error::<E>::Resource(
            crate::ResourceError::InflightExhausted,
        ))
    } else {
        &&& new.wf()
        &&& new.bytes() == old.bytes()
        &&& new.spec_used() == old.spec_used()
        &&& new.retained() == old.retained()
        &&& new.release() == old.release()
        &&& new.control() == old.control().push(
            PendingControl { action, state: SendState::Write { written: 0 } },
        )
        &&& r == Ok::<PacketOutcome<'pkt>, Error<E>>(ok)
    }
}

/// Queue the control packet `action` after checking it against the broker's maximum packet
/// size.
fn queue_checked<'a, 'pkt, E>(
    outbound: &mut Outbound<'a>,
    maximum_packet_size: Option<u32>,
    action: ControlAction,
    ok: PacketOutcome<'pkt>,
) -> (r: Result<PacketOutcome<'pkt>, Error<E>>)
    requires
        old(outbound).wf(),
    ensures
        queued_control(*old(outbound), *final(outbound), maximum_packet_size, action, ok, r),
{
    if let Err(e) = check_control_packet_size(maximum_packet_size, action) {
        return Err(Error::from(e));
    }
    match outbound.queue_control(action) {
        Ok(()) => Ok(ok),
        Err(e) => Err(Error::from(e)),
    }
}

/// Position of `id` among the pending identifiers.
fn find_id(items: &[u16], id: u16) -> (r: Option<usize>)
    ensures
        match first_match(items@, id_is(id), 0) {
            Some(i) => r == Some(i as usize),
            None => r is None,
        },
{
    let mut i: usize = 0;
    while i < items.len()
        invariant
            i <= items@.len(),
            first_match(items@, id_is(id), 0) == first_match(items@, id_is(id), i as int),
        decreases items@.len() - i,
    {
        if items[i] == id {
            return Some(i);
        }
        i = i + 1;
    }
    None
}

/// Position of the first failure among wire reason codes.
fn find_failing_code(codes: &[u8]) -> (r: Option<usize>)
    ensures
        match first_match(codes@, code_fails(), 0) {
            Some(i) => r == Some(i as usize),
            None => r is None,
        },
{
    let mut i: usize = 0;
    while i < codes.len()
        invariant
            i <= codes@.len(),
            first_match(codes@, code_fails(), 0) == first_match(codes@, code_fails(), i as int),
        decreases codes@.len() - i,
    {
        if ReasonCode::from_u8(codes[i]).failed() {
            return Some(i);
        }
        i = i + 1;
    }
    None
}

/// Raise the send quota once one more publish is acknowledged.
fn raise_quota(runtime: &mut RuntimeState)
    ensures
        *final(runtime) == (RuntimeState { send_quota: quota_after_ack(*old(runtime)), ..*old(runtime) }),
{
    let up = runtime.send_quota.saturating_add(1);
    runtime.send_quota = if up <= runtime.max_send_quota {
        up
    } else {
        runtime.max_send_quota
    };
}

/// What handling a `PUBACK` for `id` with reason `code` does: a retained publish with that
/// identifier is dropped and the quota raised, and a failure reason is reported; an unknown
/// identifier is ignored.
pub open spec fn puback_handled<'a, 'pkt, E>(
    old_s: SessionData<'a>,
    new_s: SessionData<'a>,
    old_rt: RuntimeState,
    new_rt: RuntimeState,
    id: u16,
    code: ReasonCode,
    r: Result<PacketOutcome<'pkt>, Error<E>>,
) -> bool {
    &&& same_session_rest(old_s, new_s)
    &&& match first_match(old_s.outbound.retained(), retained_with_id(id), 0) {
        None => same_outbound(old_s.outbound, new_s.outbound) && new_rt == old_rt && (r matches Ok(
            PacketOutcome::NoEvent,
        )),
        Some(i) => acked(old_s.outbound, new_s.outbound, i) && new_rt == (RuntimeState {
            send_quota: quota_after_ack(old_rt),
            ..old_rt
        }) && reason_outcome(code, r),
    }
}

fn handle_puback<'a, 'pkt, E>(
    session: &mut SessionData<'a>,
    runtime: &mut RuntimeState,
    packet_id: u16,
    code: ReasonCode,
) -> (r: Result<PacketOutcome<'pkt>, Error<E>>)
    requires
        old(session).wf(),
    ensures
        final(session).wf(),
        puback_handled(*old(session), *final(session), *old(runtime), *final(runtime), packet_id, code, r),
{
    if !session.outbound.ack_packet(packet_id) {
        return Ok(PacketOutcome::NoEvent);
    }
    raise_quota(runtime);
    match code.as_result() {
        Ok(()) => Ok(PacketOutcome::NoEvent),
        Err(e) => Err(Error::from(e)),
    }
}

/// What handling a `PUBCOMP` for `id` with reason `code` does: the release for that
/// identifier is dropped and a failure reason is reported; an unknown identifier is ignored.
pub open spec fn pubcomp_handled<'a, 'pkt, E>(
    old_s: SessionData<'a>,
    new_s: SessionData<'a>,
    id: u16,
    code: ReasonCode,
    r: Result<PacketOutcome<'pkt>, Error<E>>,
) -> bool {
    &&& same_session_rest(old_s, new_s)
    &&& match first_match(old_s.outbound.release(), release_with_id(id), 0) {
        None => same_outbound(old_s.outbound, new_s.outbound) && (r matches Ok(
            PacketOutcome::NoEvent,
        )),
        Some(i) => {
            &&& new_s.outbound.wf()
            &&& new_s.outbound.bytes() == old_s.outbound.bytes()
            &&& new_s.outbound.spec_used() == old_s.outbound.spec_used()
            &&& new_s.outbound.control() == old_s.outbound.control()
            &&& new_s.outbound.retained() == old_s.outbound.retained()
            &&& new_s.outbound.release() == old_s.outbound.release().update(
                i,
                old_s.outbound.release().last(),
            ).drop_last()
            &&& reason_outcome(code, r)
        },
    }
}

fn handle_pubcomp<'a, 'pkt, E>(session: &mut SessionData<'a>, packet_id: u16, code: ReasonCode) -> (r:
    Result<PacketOutcome<'pkt>, Error<E>>)
    requires
        old(session).wf(),
    ensures
        final(session).wf(),
        pubcomp_handled(*old(session), *final(session), packet_id, code, r),
{
    if !session.outbound.ack_release(packet_id) {
        return Ok(PacketOutcome::NoEvent);
    }
    match code.as_result() {
        Ok(()) => Ok(PacketOutcome::NoEvent),
        Err(e) => Err(Error::from(e)),
    }
}

/// What handling a `PUBREC` for `id` with reason `code` does. A retained publish with that
/// identifier is dropped and the quota raised; then a failure reason is reported, or a
/// `PUBREL` is queued when it fits the broker's packet size and the release queue. When only
/// a release for the identifier is pending, the `PUBREC` is a repeat: a failure reason is
/// reported and nothing else happens. Any other identifier is ignored.
pub open spec fn pubrec_handled<'a, 'pkt, E>(
    old_s: SessionData<'a>,
    new_s: SessionData<'a>,
    old_rt: RuntimeState,
    new_rt: RuntimeState,
    id: u16,
    code: ReasonCode,
    r: Result<PacketOutcome<'pkt>, Error<E>>,
) -> bool {
    &&& same_session_rest(old_s, new_s)
    &&& match first_match(old_s.outbound.retained(), retained_with_id(id), 0) {
        Some(i) => {
            &&& new_rt == (RuntimeState { send_quota: quota_after_ack(old_rt), ..old_rt })
            &&& new_s.outbound.wf()
            &&& new_s.outbound.bytes().len() == old_s.outbound.bytes().len()
            &&& new_s.outbound.control() == old_s.outbound.control()
            &&& new_s.outbound.retained() == compacted(old_s.outbound.retained().remove(i))
            &&& new_s.outbound.spec_used() == total_len(old_s.outbound.retained().remove(i))
            &&& same_packets(
                old_s.outbound.bytes(),
                old_s.outbound.retained().remove(i),
                new_s.outbound.bytes(),
                new_s.outbound.retained(),
            )
            &&& if fails(code) {
                new_s.outbound.release() == old_s.outbound.release() && (r matches Err(x) && x
                    == spec_rejection::<E>(code))
            } else if too_large(old_rt.maximum_packet_size, 5) {
                new_s.outbound.release() == old_s.outbound.release() && (r matches Err(x) && x
                    == Error::<E>::Resource(crate::ResourceError::PacketTooLarge))
            } else if old_s.outbound.release().len() >= MAX_PENDING_RELEASE {
                new_s.outbound.release() == old_s.outbound.release() && (r matches Err(x) && x
                    == Error::<E>::Resource(crate::ResourceError::InflightExhausted))
            } else {
                new_s.outbound.release() == old_s.outbound.release().push(
                    PendingRelease {
                        packet_id: id,
                        reason: ReasonCode::Success,
                        state: SendState::Write { written: 0 },
                    },
                ) && (r matches Ok(PacketOutcome::NoEvent))
            }
        },
        None => {
            &&& same_outbound(old_s.outbound, new_s.outbound)
            &&& new_rt == old_rt
            &&& if first_match(old_s.outbound.release(), release_with_id(id), 0) is Some {
                reason_outcome(code, r)
            } else {
                r matches Ok(PacketOutcome::NoEvent)
            }
        },
    }
}

fn handle_pubrec<'a, 'pkt, E>(
    session: &mut SessionData<'a>,
    runtime: &mut RuntimeState,
    packet_id: u16,
    code: ReasonCode,
) -> (r: Result<PacketOutcome<'pkt>, Error<E>>)
    requires
        old(session).wf(),
    ensures
        final(session).wf(),
        pubrec_handled(*old(session), *final(session), *old(runtime), *final(runtime), packet_id, code, r),
{
    proof {
        lemma_first_match(session.outbound.release(), release_with_id(packet_id), 0);
    }
    let queue_release = if session.outbound.ack_packet(packet_id) {
        raise_quota(runtime);
        true
    } else if session.outbound.has_pending_release(packet_id) {
        false
    } else {
        return Ok(PacketOutcome::NoEvent);
    };
    if let Err(e) = code.as_result() {
        return Err(Error::from(e));
    }
    if queue_release {
        if let Err(e) = check_pubrel_size(runtime.maximum_packet_size, packet_id, ReasonCode::Success) {
            return Err(Error::from(e));
        }
        if let Err(e) = session.outbound.queue_release(packet_id, ReasonCode::Success) {
            return Err(Error::from(e));
        }
    }
    Ok(PacketOutcome::NoEvent)
}

/// What handling a `SUBACK` or `UNSUBACK` for `id` with reason codes `codes` does: the
/// retained request with that identifier is dropped and the first failure among the codes is
/// reported; an unknown identifier is ignored.
pub open spec fn suback_handled<'a, 'pkt, E>(
    old_s: SessionData<'a>,
    new_s: SessionData<'a>,
    id: u16,
    codes: Seq<u8>,
    r: Result<PacketOutcome<'pkt>, Error<E>>,
) -> bool {
    &&& same_session_rest(old_s, new_s)
    &&& match first_match(old_s.outbound.retained(), retained_with_id(id), 0) {
        None => same_outbound(old_s.outbound, new_s.outbound) && (r matches Ok(
            PacketOutcome::NoEvent,
        )),
        Some(i) => acked(old_s.outbound, new_s.outbound, i) && match first_match(
            codes,
            code_fails(),
            0,
        ) {
            Some(k) => r matches Err(x) && x == spec_rejection::<E>(spec_reason_code_from(codes[k])),
            None => r matches Ok(PacketOutcome::NoEvent),
        },
    }
}

fn handle_suback<'a, 'pkt, E>(session: &mut SessionData<'a>, packet_id: u16, codes: &[u8]) -> (r:
    Result<PacketOutcome<'pkt>, Error<E>>)
    requires
        old(session).wf(),
    ensures
        final(session).wf(),
        suback_handled(*old(session), *final(session), packet_id, codes@, r),
{
    if !session.outbound.ack_packet(packet_id) {
        return Ok(PacketOutcome::NoEvent);
    }
    proof {
        lemma_first_match(codes@, code_fails(), 0);
    }
    match find_failing_code(codes) {
        Some(k) => {
            let code = ReasonCode::from_u8(codes[k]);
            match code.as_result() {
                Ok(()) => Ok(PacketOutcome::NoEvent),
                Err(e) => Err(Error::from(e)),
            }
        },
        None => Ok(PacketOutcome::NoEvent),
    }
}

/// What handling a `PUBREL` for `id` does: the identifier leaves the pending inbound QoS 2
/// exchanges, and a `PUBCOMP` is queued, successful when the identifier was pending and
/// reporting an unknown identifier otherwise.
pub open spec fn pubrel_handled<'a, 'pkt, E>(
    old_s: SessionData<'a>,
    new_s: SessionData<'a>,
    maximum_packet_size: Option<u32>,
    id: u16,
    r: Result<PacketOutcome<'pkt>, Error<E>>,
) -> bool {
    let ids = old_s.pending_ids();
    &&& new_s.packet_id == old_s.packet_id
    &&& new_s.session_present == old_s.session_present
    &&& match first_match(ids, id_is(id), 0) {
        Some(k) => new_s.pending_ids() == ids.update(k, ids.last()).drop_last() && queued_control(
            old_s.outbound,
            new_s.outbound,
            maximum_packet_size,
            ControlAction::PubComp { packet_id: id, reason: ReasonCode::Success },
            PacketOutcome::NoEvent,
            r,
        ),
        None => new_s.pending_ids() == ids && queued_control(
            old_s.outbound,
            new_s.outbound,
            maximum_packet_size,
            ControlAction::PubComp { packet_id: id, reason: ReasonCode::PacketIdNotFound },
            PacketOutcome::NoEvent,
            r,
        ),
    }
}

fn handle_pubrel<'a, 'pkt, E>(
    session: &mut SessionData<'a>,
    maximum_packet_size: Option<u32>,
    packet_id: u16,
) -> (r: Result<PacketOutcome<'pkt>, Error<E>>)
    requires
        old(session).wf(),
    ensures
        final(session).wf(),
        pubrel_handled(*old(session), *final(session), maximum_packet_size, packet_id, r),
{
    proof {
        lemma_first_match(session.pending_ids(), id_is(packet_id), 0);
    }
    let reason = match find_id(ids_slice(&session.pending_server_packet_ids), packet_id) {
        Some(index) => {
            ids_swap_remove(&mut session.pending_server_packet_ids, index);
            ReasonCode::Success
        },
        None => ReasonCode::PacketIdNotFound,
    };
    queue_checked(
        &mut session.outbound,
        maximum_packet_size,
        ControlAction::PubComp { packet_id, reason },
        PacketOutcome::NoEvent,
    )
}

/// The message handed to the user for a received `PUBLISH`.
pub open spec fn inbound_of<'pkt>(info: Pub<'pkt, &'pkt [u8]>) -> InboundPublish<'pkt> {
    InboundPublish {
        topic: info.topic.0,
        payload: info.payload,
        properties: info.properties,
        retain: info.retain,
        qos: info.qos,
    }
}

/// Whether the whole session is unchanged.
pub open spec fn same_session<'a>(a: SessionData<'a>, b: SessionData<'a>) -> bool {
    same_outbound(a.outbound, b.outbound) && same_session_rest(a, b)
}

/// What handling a `PUBLISH` does. QoS 0 goes to the user. QoS 1 queues a `PUBACK`,
/// reporting an identifier in use by a pending QoS 2 exchange, and goes to the user. QoS 2
/// records the identifier as pending when new and there is room, and queues a `PUBREC`,
/// reporting a full receive window; it goes to the user only when new and recorded. A QoS 1
/// or 2 publish without identifier is invalid.
pub open spec fn publish_handled<'a, 'pkt, E>(
    old_s: SessionData<'a>,
    new_s: SessionData<'a>,
    maximum_packet_size: Option<u32>,
    info: Pub<'pkt, &'pkt [u8]>,
    r: Result<PacketOutcome<'pkt>, Error<E>>,
) -> bool {
    let inbound = PacketOutcome::Inbound(inbound_of(info));
    let ids = old_s.pending_ids();
    match info.qos {
        QoS::AtMostOnce => same_session(old_s, new_s) && r == Ok::<PacketOutcome<'pkt>, Error<E>>(
            inbound,
        ),
        QoS::AtLeastOnce => match info.packet_id {
            None => same_session(old_s, new_s) && (r matches Err(x) && x == Error::<E>::Peer(
                PeerError::InvalidPacket,
            )),
            Some(id) => same_session_rest(old_s, new_s) && queued_control(
                old_s.outbound,
                new_s.outbound,
                maximum_packet_size,
                ControlAction::PubAck {
                    packet_id: id,
                    reason: if ids.contains(id) {
                        ReasonCode::PacketIdInUse
                    } else {
                        ReasonCode::Success
                    },
                },
                inbound,
                r,
            ),
        },
        QoS::ExactlyOnce => match info.packet_id {
            None => same_session(old_s, new_s) && (r matches Err(x) && x == Error::<E>::Peer(
                PeerError::InvalidPacket,
            )),
            Some(id) => {
                let duplicate = ids.contains(id);
                let recorded = !duplicate && ids.len() < MAX_INBOUND_QOS2;
                &&& new_s.packet_id == old_s.packet_id
                &&& new_s.session_present == old_s.session_present
                &&& new_s.pending_ids() == if recorded {
                    ids.push(id)
                } else {
                    ids
                }
                &&& queued_control(
                    old_s.outbound,
                    new_s.outbound,
                    maximum_packet_size,
                    ControlAction::PubRec {
                        packet_id: id,
                        reason: if duplicate || recorded {
                            ReasonCode::Success
                        } else {
                            ReasonCode::ReceiveMaxExceeded
                        },
                    },
                    if recorded {
                        inbound
                    } else {
                        PacketOutcome::NoEvent
                    },
                    r,
                )
            },
        },
    }
}

/// Whether `id` is among the pending identifiers.
fn has_pending_id(session: &SessionData, id: u16) -> (r: bool)
    ensures
        r == session.pending_ids().contains(id),
{
    let found = find_id(ids_slice(&session.pending_server_packet_ids), id);
    proof {
        lemma_first_match(session.pending_ids(), id_is(id), 0);
    }
    match found {
        Some(_) => true,
        None => false,
    }
}

fn handle_publish<'a, 'pkt, E>(
    session: &mut SessionData<'a>,
    maximum_packet_size: Option<u32>,
    info: Pub<'pkt, &'pkt [u8]>,
) -> (r: Result<PacketOutcome<'pkt>, Error<E>>)
    requires
        old(session).wf(),
    ensures
        final(session).wf(),
        publish_handled(*old(session), *final(session), maximum_packet_size, info, r),
{
    let inbound = InboundPublish::new(info.topic.0, info.payload, info.properties, info.retain, info.qos);
    match info.qos {
        QoS::AtMostOnce => Ok(PacketOutcome::Inbound(inbound)),
        QoS::AtLeastOnce => {
            let packet_id = match info.packet_id {
                Some(id) => id,
                None => return Err(Error::from(ProtocolError::MalformedPacket)),
            };
            let reason = if has_pending_id(session, packet_id) {
                ReasonCode::PacketIdInUse
            } else {
                ReasonCode::Success
            };
            queue_checked(
                &mut session.outbound,
                maximum_packet_size,
                ControlAction::PubAck { packet_id, reason },
                PacketOutcome::Inbound(inbound),
            )
        },
        QoS::ExactlyOnce => {
            let packet_id = match info.packet_id {
                Some(id) => id,
                None => return Err(Error::from(ProtocolError::MalformedPacket)),
            };
            let duplicate = has_pending_id(session, packet_id);
            let reason = if !duplicate {
                match ids_push(&mut session.pending_server_packet_ids, packet_id) {
                    Ok(()) => ReasonCode::Success,
                    Err(_) => ReasonCode::ReceiveMaxExceeded,
                }
            } else {
                ReasonCode::Success
            };
            let outcome = if duplicate || !reason.success() {
                PacketOutcome::NoEvent
            } else {
                PacketOutcome::Inbound(inbound)
            };
            queue_checked(
                &mut session.outbound,
                maximum_packet_size,
                ControlAction::PubRec { packet_id, reason },
                outcome,
            )
        },
    }
}

/// The QoS of a level of at most 2.
pub open spec fn spec_qos_of_level(level: u8) -> QoS {
    if level == 0 {
        QoS::AtMostOnce
    } else if level == 1 {
        QoS::AtLeastOnce
    } else {
        QoS::ExactlyOnce
    }
}

/// What one `CONNACK` property sets: the broker's maximum packet size, an assigned client
/// identifier (too long for local storage is an error), the broker's keepalive, its receive
/// maximum (capped by local in-flight room, for both quotas), its maximum QoS (a value above
/// 2 is an error); other properties change nothing.
pub open spec fn apply_connack_property<'p, E>(rt: RuntimeState, cid: Seq<u8>, p: Property<'p>) -> Result<
    (RuntimeState, Seq<u8>),
    Error<E>,
> {
    match p {
        Property::MaximumPacketSize(size) => Ok(
            (RuntimeState { maximum_packet_size: Some(size), ..rt }, cid),
        ),
        Property::AssignedClientIdentifier(id) => if id.spec_bytes().len() <= 64 {
            Ok((rt, id.spec_bytes()))
        } else {
            Err(spec_from_protocol(ProtocolError::ProvidedClientIdTooLong))
        },
        Property::ServerKeepAlive(k) => Ok(
            (RuntimeState { keepalive_interval_ms: (k as u64 * 1000) as u64, ..rt }, cid),
        ),
        Property::ReceiveMaximum(max) => {
            let q: u16 = if max <= 8 {
                max
            } else {
                8
            };
            Ok((RuntimeState { send_quota: q, max_send_quota: q, ..rt }, cid))
        },
        Property::MaximumQoS(max) => if max <= 2 {
            Ok((RuntimeState { max_qos: Some(spec_qos_of_level(max)), ..rt }, cid))
        } else {
            Err(spec_from_protocol(ProtocolError::WrongQos))
        },
        _ => Ok((rt, cid)),
    }
}

/// The `CONNACK` properties `items`, from position `i` on, applied in order to `rt` and the
/// client identifier `cid`; the first unreadable or refused property stops them with its
/// error, what came before it applied.
pub open spec fn apply_connack_from<'p, E>(
    rt: RuntimeState,
    cid: Seq<u8>,
    items: Seq<Result<Property<'p>, PeerError>>,
    i: int,
) -> (RuntimeState, Seq<u8>, Option<Error<E>>)
    decreases items.len() - i,
{
    if i < 0 || i >= items.len() {
        (rt, cid, None)
    } else {
        match items[i] {
            Err(e) => (rt, cid, Some(Error::Peer(e))),
            Ok(p) => match apply_connack_property::<E>(rt, cid, p) {
                Err(e) => (rt, cid, Some(e)),
                Ok((rt2, cid2)) => apply_connack_from(rt2, cid2, items, i + 1),
            },
        }
    }
}

/// Runtime state once a successful `CONNACK` is taken, before its properties: the session's
/// resumption, quotas at the local in-flight room, no maximum QoS or packet size known.
pub open spec fn connack_base(rt: RuntimeState, session_present: bool) -> RuntimeState {
    RuntimeState {
        session_resumed: session_present,
        send_quota: 8,
        max_send_quota: 8,
        max_qos: None,
        maximum_packet_size: None,
        ..rt
    }
}

/// What handling a `CONNACK` does. A failure reason disconnects and is reported. Otherwise a
/// session the broker does not resume is reset; the properties are applied in order; when all
/// of them are taken the connection is active, a ping is scheduled after `now` and the outcome
/// says whether the session was resumed; the first refused property is reported instead.
pub open spec fn connack_handled<'a, 'pkt, E>(
    old_s: SessionData<'a>,
    new_s: SessionData<'a>,
    old_rt: RuntimeState,
    new_rt: RuntimeState,
    old_cid: Seq<u8>,
    new_cid: Seq<u8>,
    ack: ConnAck<'pkt>,
    now: u64,
    r: Result<PacketOutcome<'pkt>, Error<E>>,
) -> bool {
    if fails(ack.reason_code) {
        &&& new_rt == (RuntimeState {
            state: ConnectionState::Disconnected,
            session_resumed: false,
            next_ping: None,
            ping_timeout: None,
            ..old_rt
        })
        &&& same_session(old_s, new_s)
        &&& new_cid == old_cid
        &&& r matches Err(x) && x == spec_rejection::<E>(ack.reason_code)
    } else {
        &&& ack.session_present ==> same_outbound(old_s.outbound, new_s.outbound)
            && new_s.packet_id == old_s.packet_id && new_s.pending_ids() == old_s.pending_ids()
        &&& !ack.session_present ==> {
            &&& new_s.packet_id == 1
            &&& new_s.pending_ids() == Seq::<u16>::empty()
            &&& new_s.outbound.wf()
            &&& new_s.outbound.bytes() == old_s.outbound.bytes()
            &&& new_s.outbound.spec_used() == 0
            &&& new_s.outbound.control() == Seq::<PendingControl>::empty()
            &&& new_s.outbound.retained() == Seq::<RetainedPacket>::empty()
            &&& new_s.outbound.release() == Seq::<PendingRelease>::empty()
        }
        &&& exists|items: Seq<Result<Property<'pkt>, PeerError>>|
            #![trigger spec_iterated(ack.properties, items)]
            spec_iterated(ack.properties, items) && {
                let applied = apply_connack_from::<E>(
                    connack_base(old_rt, ack.session_present),
                    old_cid,
                    items,
                    0,
                );
                &&& new_cid == applied.1
                &&& match applied.2 {
                    Some(e) => new_rt == applied.0 && new_s.session_present == (ack.session_present
                        && old_s.session_present) && (r matches Err(x) && x == e),
                    None => new_rt == (RuntimeState {
                        state: ConnectionState::Active,
                        next_ping: spec_next_ping(applied.0.keepalive_interval_ms, now),
                        ping_timeout: None,
                        ..applied.0
                    }) && new_s.session_present && (r matches Ok(PacketOutcome::Connected(p)) && p
                        == ack.session_present),
                }
            }
    }
}

/// Apply the `CONNACK` properties `items` in order.
fn apply_connack_properties<'pkt, E>(
    client_id: &mut heapless::String<64>,
    runtime: &mut RuntimeState,
    items: &[Result<Property<'pkt>, PeerError>],
) -> (r: Option<Error<E>>)
    ensures
        ({
            let applied = apply_connack_from::<E>(
                *old(runtime),
                client_id_bytes(*old(client_id)),
                items@,
                0,
            );
            &&& *final(runtime) == applied.0
            &&& client_id_bytes(*final(client_id)) == applied.1
            &&& r == applied.2
        }),
        final(runtime).keepalive_interval_ms == old(runtime).keepalive_interval_ms
            || final(runtime).keepalive_interval_ms <= MAX_KEEPALIVE_MS,
{
    let mut i: usize = 0;
    while i < items.len()
        invariant
            i <= items@.len(),
            apply_connack_from::<E>(*old(runtime), client_id_bytes(*old(client_id)), items@, 0)
                == apply_connack_from::<E>(*runtime, client_id_bytes(*client_id), items@, i as int),
            runtime.keepalive_interval_ms == old(runtime).keepalive_interval_ms
                || runtime.keepalive_interval_ms <= MAX_KEEPALIVE_MS,
        decreases items@.len() - i,
    {
        match items[i] {
            Err(e) => return Some(Error::from(e)),
            Ok(property) => match property {
                Property::MaximumPacketSize(size) => {
                    runtime.maximum_packet_size = Some(size);
                },
                Property::AssignedClientIdentifier(id) => {
                    match client_id_try_from(id) {
                        Ok(assigned) => {
                            *client_id = assigned;
                        },
                        Err(()) => return Some(Error::from(ProtocolError::ProvidedClientIdTooLong)),
                    }
                },
                Property::ServerKeepAlive(keepalive) => {
                    runtime.keepalive_interval_ms = keepalive as u64 * 1000;
                },
                Property::ReceiveMaximum(max) => {
                    let local: u16 = 8;
                    let quota = if max <= local {
                        max
                    } else {
                        local
                    };
                    runtime.send_quota = quota;
                    runtime.max_send_quota = quota;
                },
                Property::MaximumQoS(max) => {
                    match QoS::try_from_level(max) {
                        Some(qos) => {
                            runtime.max_qos = Some(qos);
                        },
                        None => return Some(Error::from(ProtocolError::WrongQos)),
                    }
                },
                _ => {},
            },
        }
        i = i + 1;
    }
    None
}

#[verifier::rlimit(40)]
fn handle_connack<'a, 'pkt, E>(
    client_id: &mut heapless::String<64>,
    session: &mut SessionData<'a>,
    runtime: &mut RuntimeState,
    ack: ConnAck<'pkt>,
    now: u64,
) -> (r: Result<PacketOutcome<'pkt>, Error<E>>)
    requires
        old(session).wf(),
        now + old(runtime).keepalive_interval_ms <= u64::MAX,
        now + MAX_KEEPALIVE_MS <= u64::MAX,
    ensures
        final(session).wf(),
        connack_handled(
            *old(session),
            *final(session),
            *old(runtime),
            *final(runtime),
            client_id_bytes(*old(client_id)),
            client_id_bytes(*final(client_id)),
            ack,
            now,
            r,
        ),
{
    if let Err(e) = ack.reason_code.as_result() {
        runtime.disconnect();
        return Err(Error::from(e));
    }
    runtime.session_resumed = ack.session_present;
    if !ack.session_present {
        session.reset();
    }
    let inflight = session.outbound.max_inflight();
    runtime.send_quota = inflight;
    runtime.max_send_quota = inflight;
    runtime.max_qos = None;
    runtime.maximum_packet_size = None;
    let items = ack.properties.iter();
    if let Some(e) = apply_connack_properties(client_id, runtime, items.as_slice()) {
        return Err(e);
    }
    runtime.state = ConnectionState::Active;
    session.register_connected();
    runtime.note_outbound_activity(now);
    runtime.ping_timeout = None;
    Ok(PacketOutcome::Connected(ack.session_present))
}

/// Whether `packet` may not arrive while the connection is in `state`: anything but a
/// `CONNACK` or a `DISCONNECT` while connecting, a second `CONNACK` once connected.
pub open spec fn unexpected<'pkt>(state: ConnectionState, packet: ReceivedPacket<'pkt>) -> bool {
    ||| state == ConnectionState::Establishing && !(packet is ConnAck || packet is Disconnect)
    ||| state == ConnectionState::Active && packet is ConnAck
}

/// What handling `packet` at `now` does to the session, the connection state and the client
/// identifier, and what it returns.
pub open spec fn packet_handled<'a, 'pkt, E>(
    old_s: SessionData<'a>,
    new_s: SessionData<'a>,
    old_rt: RuntimeState,
    new_rt: RuntimeState,
    old_cid: Seq<u8>,
    new_cid: Seq<u8>,
    packet: ReceivedPacket<'pkt>,
    now: u64,
    r: Result<PacketOutcome<'pkt>, Error<E>>,
) -> bool {
    if unexpected(old_rt.state, packet) {
        same_session(old_s, new_s) && new_rt == old_rt && new_cid == old_cid && (r matches Err(x)
            && x == Error::<E>::Peer(PeerError::InvalidPacket))
    } else {
        match packet {
            ReceivedPacket::ConnAck(ack) => connack_handled(
                old_s,
                new_s,
                old_rt,
                new_rt,
                old_cid,
                new_cid,
                ack,
                now,
                r,
            ),
            ReceivedPacket::SubAck(ack) => new_rt == old_rt && new_cid == old_cid && suback_handled(
                old_s,
                new_s,
                ack.packet_id,
                ack.codes@,
                r,
            ),
            ReceivedPacket::UnsubAck(ack) => new_rt == old_rt && new_cid == old_cid
                && suback_handled(old_s, new_s, ack.packet_id, ack.codes@, r),
            ReceivedPacket::PingResp => same_session(old_s, new_s) && new_cid == old_cid && new_rt
                == (RuntimeState { ping_timeout: None, ..old_rt }) && (r matches Ok(
                PacketOutcome::NoEvent,
            )),
            ReceivedPacket::PubAck(ack) => new_cid == old_cid && puback_handled(
                old_s,
                new_s,
                old_rt,
                new_rt,
                ack.packet_id,
                ack.reason.spec_code(),
                r,
            ),
            ReceivedPacket::PubRec(rec) => new_cid == old_cid && pubrec_handled(
                old_s,
                new_s,
                old_rt,
                new_rt,
                rec.packet_id,
                rec.reason.spec_code(),
                r,
            ),
            ReceivedPacket::PubComp(comp) => new_rt == old_rt && new_cid == old_cid
                && pubcomp_handled(old_s, new_s, comp.packet_id, comp.reason.spec_code(), r),
            ReceivedPacket::PubRel(rel) => new_rt == old_rt && new_cid == old_cid && pubrel_handled(
                old_s,
                new_s,
                old_rt.maximum_packet_size,
                rel.packet_id,
                r,
            ),
            ReceivedPacket::Publish(info) => new_rt == old_rt && new_cid == old_cid
                && publish_handled(old_s, new_s, old_rt.maximum_packet_size, info, r),
            ReceivedPacket::Disconnect(_) => {
                &&& new_cid == old_cid
                &&& same_session_rest(old_s, new_s)
                &&& new_rt == (RuntimeState {
                    state: ConnectionState::Disconnected,
                    session_resumed: false,
                    next_ping: None,
                    ping_timeout: None,
                    ..old_rt
                })
                &&& new_s.outbound.wf()
                &&& new_s.outbound.spec_used() == old_s.outbound.spec_used()
                &&& new_s.outbound.bytes().len() == old_s.outbound.bytes().len()
                &&& replayed(old_s.outbound, new_s.outbound)
                &&& r matches Ok(PacketOutcome::NoEvent)
            },
        }
    }
}

/// Whether `new` is `old` restarted for replay: every pending packet from its first byte,
/// retained packets marked as duplicates; nothing changes when nothing is pending.
pub open spec fn replayed(old: Outbound, new: Outbound) -> bool {
    if old.control().len() == 0 && old.retained().len() == 0 && old.release().len() == 0 {
        new.bytes() == old.bytes() && new.control() == old.control() && new.retained()
            == old.retained() && new.release() == old.release()
    } else {
        &&& new.control() == restarted_controls(old.control())
        &&& new.release() == restarted_releases(old.release())
        &&& new.retained() == restarted_retained(old.retained())
        &&& forall|i: int|
            0 <= i < old.retained().len() ==> new.bytes()[(#[trigger] old.retained()[i]).offset as int]
                == old.bytes()[old.retained()[i].offset as int] | 8
        &&& forall|k: int|
            0 <= k < old.bytes().len() && !starts_packet(old.retained(), k) ==> #[trigger] new.bytes()[k]
                == old.bytes()[k]
    }
}

/// Act on one packet received from the broker at `now`: track acknowledgements, answer
/// inbound publishes and releases, take the broker's connection acknowledgement, and hand
/// messages for the user back.
#[verifier::rlimit(60)]
pub fn handle_packet<'a, 'pkt, E>(
    client_id: &mut heapless::String<64>,
    session: &mut SessionData<'a>,
    runtime: &mut RuntimeState,
    packet: ReceivedPacket<'pkt>,
    now: u64,
) -> (r: Result<PacketOutcome<'pkt>, Error<E>>)
    requires
        old(session).wf(),
        now + old(runtime).keepalive_interval_ms <= u64::MAX,
        now + MAX_KEEPALIVE_MS <= u64::MAX,
    ensures
        final(session).wf(),
        packet_handled(
            *old(session),
            *final(session),
            *old(runtime),
            *final(runtime),
            client_id_bytes(*old(client_id)),
            client_id_bytes(*final(client_id)),
            packet,
            now,
            r,
        ),
{
    let connecting = runtime.state == ConnectionState::Establishing;
    let active = runtime.state == ConnectionState::Active;
    let is_connack = matches!(packet, ReceivedPacket::ConnAck(_));
    let is_disconnect = matches!(packet, ReceivedPacket::Disconnect(_));
    if (connecting && !(is_connack || is_disconnect)) || (active && is_connack) {
        return Err(Error::from(ProtocolError::UnexpectedPacket));
    }
    match packet {
        ReceivedPacket::ConnAck(ack) => handle_connack(client_id, session, runtime, ack, now),
        ReceivedPacket::SubAck(ack) => handle_suback(session, ack.packet_id, ack.codes),
        ReceivedPacket::UnsubAck(ack) => handle_suback(session, ack.packet_id, ack.codes),
        ReceivedPacket::PingResp => {
            runtime.ping_timeout = None;
            Ok(PacketOutcome::NoEvent)
        },
        ReceivedPacket::PubAck(ack) => handle_puback(session, runtime, ack.packet_id, ack.reason.code()),
        ReceivedPacket::PubRec(rec) => handle_pubrec(session, runtime, rec.packet_id, rec.reason.code()),
        ReceivedPacket::PubComp(comp) => handle_pubcomp(session, comp.packet_id, comp.reason.code()),
        ReceivedPacket::PubRel(rel) => handle_pubrel(session, runtime.maximum_packet_size, rel.packet_id),
        ReceivedPacket::Publish(info) => handle_publish(session, runtime.maximum_packet_size, info),
        ReceivedPacket::Disconnect(_) => {
            session.outbound.arm_replay();
            runtime.disconnect();
            Ok(PacketOutcome::NoEvent)
        },
    }
}


/// A broker's maximum QoS is recorded as the QoS of that level: a `MaximumQoS(m)` property
/// with `m` at most 2 sets the maximum QoS to the QoS whose level is `m`, leaving the rest of
/// the runtime state; a larger `m` is refused.
pub proof fn law_connack_maximum_qos<E>(rt: RuntimeState, cid: Seq<u8>, m: u8)
    ensures
        m <= 2 ==> (apply_connack_property::<E>(rt, cid, Property::MaximumQoS(m)) matches Ok(
            (r, c),
        ) && r.max_qos matches Some(q) && qos_level(q) == m && r == RuntimeState {
            max_qos: Some(q),
            ..rt
        } && c == cid),
        m > 2 ==> apply_connack_property::<E>(rt, cid, Property::MaximumQoS(m)) is Err,
{
}

/// A `CONNACK` whose only property is `MaximumQoS(m)`, `m` at most 2, leaves the runtime with
/// the maximum QoS of level `m` and no error.
pub proof fn law_connack_maximum_qos_applied<'p, E>(rt: RuntimeState, cid: Seq<u8>, m: u8)
    requires
        m <= 2,
    ensures
        ({
            let out = apply_connack_from::<E>(
                rt,
                cid,
                seq![Ok::<Property<'p>, PeerError>(Property::MaximumQoS(m))],
                0,
            );
            &&& out.2 is None
            &&& out.0.max_qos matches Some(q) && qos_level(q) == m
        }),
{
    let items = seq![Ok::<Property<'p>, PeerError>(Property::MaximumQoS(m))];
    reveal_with_fuel(apply_connack_from, 2);
    assert(items[0] == Ok::<Property<'p>, PeerError>(Property::MaximumQoS(m)));
}

} // verus!
