//! The decisions of the client's I/O loop, each taking what the transport did as an argument:
//! when a keepalive ping is queued, which bytes an outbound step writes, how a write or a
//! flush moves the packet on, what a lost transport resets, how a connection attempt ends,
//! and whether a publication, a subscription request or a disconnect may start. The loop
//! itself, which performs each write, flush and read, stays with the caller.
use crate::client::{ConnectEvent, Op, OpKind, OpStatus};
use crate::error::{spec_from_protocol, Error};
use crate::heapless_vec::client_id_bytes;
use crate::outbound::{
    check_control_packet_size, control_is, first_match, release_with_id, retained_with_id,
    serialize_control_packet, serialize_pubrel, spec_ack_bytes, spec_after_written,
    spec_control_bytes, spec_control_room, too_large, ControlAction, Outbound, OutboundStep,
    PendingControl, PendingRelease, RetainedPacket, SendState, MAX_PENDING_CONTROL,
};
use crate::properties::{spec_allowed_in, spec_has_valid_value, spec_iterated, Properties, Property, PropertyContext};
use crate::received::ReceivedPacket;
use crate::session::{
    packet_handled, replayed, spec_next_ping, ConnectionState, PacketOutcome, RuntimeState,
    SessionData, MAX_KEEPALIVE_MS, PING_TIMEOUT_MS, handle_packet,
};
use crate::wire::MessageType;
use crate::{qos_level, PeerError, ProtocolError, QoS, ResourceError};
use vstd::prelude::*;

verus! {

/// Whether a keepalive ping is queued and not yet sent.
pub open spec fn spec_ping_pending(control: Seq<PendingControl>) -> bool {
    exists|i: int|
        0 <= i < control.len() && (#[trigger] control[i]).action == ControlAction::PingReq
            && control[i].state != SendState::Sent
}

/// Whether a keepalive ping is due at `now`: none is awaited, the next one's time has come,
/// and none is queued.
pub open spec fn spec_should_ping(runtime: RuntimeState, control: Seq<PendingControl>, now: u64) -> bool {
    &&& runtime.ping_timeout is None
    &&& runtime.next_ping matches Some(deadline) && now >= deadline
    &&& !spec_ping_pending(control)
}

/// Whether a keepalive ping is due at `now`.
pub fn should_queue_pingreq(session: &SessionData, runtime: &RuntimeState, now: u64) -> (r: bool)
    ensures
        r == spec_should_ping(*runtime, session.outbound.control(), now),
{
    if runtime.ping_timeout.is_some() {
        return false;
    }
    let due = match runtime.next_ping {
        Some(deadline) => now >= deadline,
        None => false,
    };
    due && !session.outbound.has_pending_pingreq()
}

/// Queue a keepalive ping when one is due at `now`: refused when the broker's maximum packet
/// size is below a ping, or when the control queue is full.
pub fn maybe_queue_pingreq<E>(session: &mut SessionData, runtime: &RuntimeState, now: u64) -> (r:
    Result<(), Error<E>>)
    requires
        old(session).wf(),
    ensures
        final(session).wf(),
        final(session).packet_id == old(session).packet_id,
        final(session).session_present == old(session).session_present,
        final(session).pending_ids() == old(session).pending_ids(),
        final(session).outbound.bytes() == old(session).outbound.bytes(),
        final(session).outbound.spec_used() == old(session).outbound.spec_used(),
        final(session).outbound.retained() == old(session).outbound.retained(),
        final(session).outbound.release() == old(session).outbound.release(),
        !spec_should_ping(*runtime, old(session).outbound.control(), now) ==> r is Ok
            && final(session).outbound.control() == old(session).outbound.control(),
        spec_should_ping(*runtime, old(session).outbound.control(), now) ==> if too_large(
            runtime.maximum_packet_size,
            spec_control_bytes(ControlAction::PingReq).len(),
        ) {
            r == Err::<(), Error<E>>(
                spec_from_protocol(ProtocolError::Failed(crate::ReasonCode::PacketTooLarge)),
            ) && final(session).outbound.control() == old(session).outbound.control()
        } else if old(session).outbound.control().len() >= MAX_PENDING_CONTROL {
            r == Err::<(), Error<E>>(spec_from_protocol(ProtocolError::InflightMetadataExhausted))
                && final(session).outbound.control() == old(session).outbound.control()
        } else {
            r is Ok && final(session).outbound.control() == old(session).outbound.control().push(
                PendingControl {
                    action: ControlAction::PingReq,
                    state: SendState::Write { written: 0 },
                },
            )
        },
{
    if should_queue_pingreq(session, runtime, now) {
        match check_control_packet_size(runtime.maximum_packet_size, ControlAction::PingReq) {
            Ok(()) => {},
            Err(e) => return Err(Error::from(e)),
        }
        match session.outbound.queue_control(ControlAction::PingReq) {
            Ok(()) => {},
            Err(e) => return Err(Error::from(e)),
        }
    }
    Ok(())
}

/// Whether the answer to a keepalive ping is overdue at `now`.
pub fn ping_timed_out(runtime: &RuntimeState, now: u64) -> (r: bool)
    ensures
        r == (runtime.ping_timeout matches Some(deadline) && now >= deadline),
{
    match runtime.ping_timeout {
        Some(deadline) => now >= deadline,
        None => false,
    }
}

/// The transport is gone: pending packets are armed for replay on the next connection, and
/// what belonged to the transport is forgotten. The caller starts its packet reader over.
pub fn handle_disconnect(session: &mut SessionData, runtime: &mut RuntimeState)
    requires
        old(session).wf(),
    ensures
        final(session).wf(),
        final(session).packet_id == old(session).packet_id,
        final(session).session_present == old(session).session_present,
        final(session).pending_ids() == old(session).pending_ids(),
        final(session).outbound.spec_used() == old(session).outbound.spec_used(),
        final(session).outbound.bytes().len() == old(session).outbound.bytes().len(),
        replayed(old(session).outbound, final(session).outbound),
        *final(runtime) == (RuntimeState {
            session_resumed: false,
            next_ping: None,
            ping_timeout: None,
            ..*old(runtime)
        }),
{
    session.outbound.arm_replay();
    runtime.reset_transport();
}

/// What the transport has to do for an outbound step.
#[derive(Debug, Copy, Clone, PartialEq, Eq, Structural)]
pub enum OutboundIo {
    /// Write the packet's bytes from this position on.
    Write(usize),
    /// Flush what was written.
    Flush,
    /// Nothing: the packet is sent.
    Nothing,
}

/// The send state of a step.
pub open spec fn step_state(step: OutboundStep) -> SendState {
    match step {
        OutboundStep::Control(c) => c.state,
        OutboundStep::Release(r) => r.state,
        OutboundStep::Retained(r) => r.state,
    }
}

/// What the transport has to do for `step`.
pub fn step_io(step: OutboundStep) -> (r: OutboundIo)
    ensures
        r == match step_state(step) {
            SendState::Write { written } => OutboundIo::Write(written),
            SendState::Flush => OutboundIo::Flush,
            SendState::Sent => OutboundIo::Nothing,
        },
{
    let state = match step {
        OutboundStep::Control(c) => c.state,
        OutboundStep::Release(r) => r.state,
        OutboundStep::Retained(r) => r.state,
    };
    match state {
        SendState::Write { written } => OutboundIo::Write(written),
        SendState::Flush => OutboundIo::Flush,
        SendState::Sent => OutboundIo::Nothing,
    }
}

/// The bytes of the packet that `step` sends: a control packet or release encoded into
/// `small`, or a retained packet where it sits in the transmit buffer. A packet above the
/// broker's maximum packet size, or one that `small` cannot hold, is refused.
pub fn step_bytes<'b, 'a, E>(
    outbound: &'b Outbound<'a>,
    maximum_packet_size: Option<u32>,
    step: OutboundStep,
    small: &'b mut [u8],
) -> (r: Result<&'b [u8], Error<E>>)
    requires
        step matches OutboundStep::Retained(s) ==> s.offset + s.len <= outbound.bytes().len(),
    ensures
        match step {
            OutboundStep::Control(c) => if old(small)@.len() < spec_control_room(c.action) {
                r matches Err(Error::Resource(ResourceError::BufferTooSmall))
            } else if too_large(maximum_packet_size, spec_control_bytes(c.action).len()) {
                r matches Err(Error::Resource(ResourceError::PacketTooLarge))
            } else {
                r matches Ok(b) && b@ == spec_control_bytes(c.action)
            },
            OutboundStep::Release(rel) => if old(small)@.len() < 8 {
                r matches Err(Error::Resource(ResourceError::BufferTooSmall))
            } else if too_large(maximum_packet_size, 5) {
                r matches Err(Error::Resource(ResourceError::PacketTooLarge))
            } else {
                r matches Ok(b) && b@ == spec_ack_bytes(
                    MessageType::PubRel,
                    0b0010,
                    rel.packet_id,
                    rel.reason,
                )
            },
            OutboundStep::Retained(s) => if too_large(maximum_packet_size, s.len as nat) {
                r matches Err(Error::Resource(ResourceError::PacketTooLarge))
            } else {
                r matches Ok(b) && b@ == outbound.bytes().subrange(
                    s.offset as int,
                    s.offset + s.len,
                )
            },
        },
{
    match step {
        OutboundStep::Control(c) => serialize_control_packet(small, c.action, maximum_packet_size),
        OutboundStep::Release(rel) => serialize_pubrel(
            small,
            rel.packet_id,
            rel.reason,
            maximum_packet_size,
        ),
        OutboundStep::Retained(s) => {
            match crate::outbound::require_packet_size(maximum_packet_size, s.len) {
                Ok(()) => {},
                Err(_) => return Err(Error::Resource(ResourceError::PacketTooLarge)),
            }
            Ok(outbound.retained_packet(s.offset, s.len))
        },
    }
}

/// Whether `new` is `old` with the packet of `step` set to `state`, where it is still
/// pending.
pub open spec fn step_set(old: Outbound, new: Outbound, step: OutboundStep, state: SendState) -> bool {
    &&& new.wf()
    &&& new.bytes() == old.bytes()
    &&& new.spec_used() == old.spec_used()
    &&& match step {
        OutboundStep::Control(c) => {
            &&& new.retained() == old.retained()
            &&& new.release() == old.release()
            &&& new.control() == match first_match(old.control(), control_is(c.action), 0) {
                None => old.control(),
                Some(i) => old.control().update(
                    i,
                    PendingControl { action: old.control()[i].action, state },
                ),
            }
        },
        OutboundStep::Release(rel) => {
            &&& new.retained() == old.retained()
            &&& new.control() == old.control()
            &&& new.release() == match first_match(
                old.release(),
                release_with_id(rel.packet_id),
                0,
            ) {
                None => old.release(),
                Some(i) => old.release().update(i, PendingRelease { state, ..old.release()[i] }),
            }
        },
        OutboundStep::Retained(s) => {
            &&& new.control() == old.control()
            &&& new.release() == old.release()
            &&& new.retained() == match first_match(
                old.retained(),
                retained_with_id(s.packet_id),
                0,
            ) {
                None => old.retained(),
                Some(i) => old.retained().update(i, RetainedPacket { state, ..old.retained()[i] }),
            }
        },
    }
}

/// Whether `new` is `old` with the packet of `step` flushed: a retained packet or release is
/// marked sent, a control packet is marked sent and sent control packets are dropped.
pub open spec fn step_flushed(old: Outbound, new: Outbound, step: OutboundStep) -> bool {
    match step {
        OutboundStep::Control(c) => {
            &&& new.wf()
            &&& new.bytes() == old.bytes()
            &&& new.spec_used() == old.spec_used()
            &&& new.retained() == old.retained()
            &&& new.release() == old.release()
            &&& new.control() == match first_match(old.control(), control_is(c.action), 0) {
                None => old.control().filter(|e: PendingControl| e.state != SendState::Sent),
                Some(i) => old.control().update(
                    i,
                    PendingControl { action: old.control()[i].action, state: SendState::Sent },
                ).filter(|e: PendingControl| e.state != SendState::Sent),
            }
        },
        _ => step_set(old, new, step, SendState::Sent),
    }
}

/// Take how writing the bytes of the `len`-byte packet of `step` from `written` on went. A
/// write of nothing or a transport error loses the transport (`WriteZero`, or the error);
/// otherwise the packet moves on by what was written, and the result says whether it is
/// all written, so that a flush is owed.
pub fn note_written<E>(
    session: &mut SessionData,
    runtime: &mut RuntimeState,
    step: OutboundStep,
    written: usize,
    len: usize,
    result: Result<usize, E>,
) -> (r: Result<bool, Error<E>>)
    requires
        old(session).wf(),
        result matches Ok(n) ==> written + n <= len,
    ensures
        final(session).wf(),
        final(session).packet_id == old(session).packet_id,
        final(session).session_present == old(session).session_present,
        final(session).pending_ids() == old(session).pending_ids(),
        match result {
            Ok(0) => r matches Err(Error::WriteZero) && replayed(
                old(session).outbound,
                final(session).outbound,
            ) && *final(runtime) == (RuntimeState {
                session_resumed: false,
                next_ping: None,
                ping_timeout: None,
                ..*old(runtime)
            }),
            Ok(n) => r == Ok::<bool, Error<E>>(written + n >= len) && step_set(
                old(session).outbound,
                final(session).outbound,
                step,
                spec_after_written((written + n) as usize, len),
            ) && *final(runtime) == *old(runtime),
            Err(e) => (r matches Err(Error::Transport(x)) && x == e) && replayed(
                old(session).outbound,
                final(session).outbound,
            ) && *final(runtime) == (RuntimeState {
                session_resumed: false,
                next_ping: None,
                ping_timeout: None,
                ..*old(runtime)
            }),
        },
{
    let count = match result {
        Ok(0) => {
            handle_disconnect(session, runtime);
            return Err(Error::WriteZero);
        },
        Ok(count) => count,
        Err(e) => {
            handle_disconnect(session, runtime);
            return Err(Error::Transport(e));
        },
    };
    let progress = written + count;
    match step {
        OutboundStep::Control(c) => {
            session.outbound.set_control_written(c.action, progress, len);
        },
        OutboundStep::Release(rel) => {
            session.outbound.set_release_written(rel.packet_id, progress, len);
        },
        OutboundStep::Retained(s) => {
            session.outbound.set_retained_written(s.packet_id, progress, len);
        },
    }
    Ok(progress >= len)
}

/// The packet of `step` was flushed at `now`: a ping starts the wait for its answer, the
/// next ping moves one interval on, and the packet is marked sent.
pub fn complete_flush(session: &mut SessionData, runtime: &mut RuntimeState, step: OutboundStep, now: u64)
    requires
        old(session).wf(),
        now + PING_TIMEOUT_MS <= u64::MAX,
        now + old(runtime).keepalive_interval_ms <= u64::MAX,
    ensures
        final(session).wf(),
        final(session).packet_id == old(session).packet_id,
        final(session).session_present == old(session).session_present,
        final(session).pending_ids() == old(session).pending_ids(),
        step_flushed(old(session).outbound, final(session).outbound, step),
        *final(runtime) == (RuntimeState {
            ping_timeout: if step matches OutboundStep::Control(c) && c.action == ControlAction::PingReq {
                Some((now + PING_TIMEOUT_MS) as u64)
            } else {
                old(runtime).ping_timeout
            },
            next_ping: spec_next_ping(old(runtime).keepalive_interval_ms, now),
            ..*old(runtime)
        }),
{
    if let OutboundStep::Control(c) = step {
        if c.action == ControlAction::PingReq {
            runtime.ping_timeout = Some(now + PING_TIMEOUT_MS);
        }
    }
    runtime.note_outbound_activity(now);
    match step {
        OutboundStep::Control(c) => {
            session.outbound.flush_control(c.action);
        },
        OutboundStep::Release(rel) => {
            session.outbound.flush_release(rel.packet_id);
        },
        OutboundStep::Retained(s) => {
            session.outbound.flush_retained(s.packet_id);
        },
    }
}

/// Take how flushing the packet of `step` at `now` went: an error loses the transport,
/// otherwise the flush is complete.
pub fn note_flushed<E>(
    session: &mut SessionData,
    runtime: &mut RuntimeState,
    step: OutboundStep,
    result: Result<(), E>,
    now: u64,
) -> (r: Result<(), Error<E>>)
    requires
        old(session).wf(),
        now + PING_TIMEOUT_MS <= u64::MAX,
        now + old(runtime).keepalive_interval_ms <= u64::MAX,
    ensures
        final(session).wf(),
        final(session).packet_id == old(session).packet_id,
        final(session).session_present == old(session).session_present,
        final(session).pending_ids() == old(session).pending_ids(),
        match result {
            Ok(()) => r is Ok && step_flushed(old(session).outbound, final(session).outbound, step)
                && *final(runtime) == (RuntimeState {
                ping_timeout: if step matches OutboundStep::Control(c) && c.action
                    == ControlAction::PingReq {
                    Some((now + PING_TIMEOUT_MS) as u64)
                } else {
                    old(runtime).ping_timeout
                },
                next_ping: spec_next_ping(old(runtime).keepalive_interval_ms, now),
                ..*old(runtime)
            }),
            Err(e) => (r matches Err(Error::Transport(x)) && x == e) && replayed(
                old(session).outbound,
                final(session).outbound,
            ) && *final(runtime) == (RuntimeState {
                session_resumed: false,
                next_ping: None,
                ping_timeout: None,
                ..*old(runtime)
            }),
        },
{
    match result {
        Ok(()) => {
            complete_flush(session, runtime, step, now);
            Ok(())
        },
        Err(e) => {
            handle_disconnect(session, runtime);
            Err(Error::Transport(e))
        },
    }
}

/// Refuse a new QoS 1 or 2 publication when no retained slot is left.
pub fn require_retained_slot<E>(session: &SessionData) -> (r: Result<(), Error<E>>)
    ensures
        session.outbound.retained().len() == crate::outbound::MAX_RETAINED ==> r == Err::<
            (),
            Error<E>,
        >(spec_from_protocol(ProtocolError::InflightMetadataExhausted)),
        session.outbound.retained().len() != crate::outbound::MAX_RETAINED ==> r is Ok,
{
    if session.outbound.retained_full() {
        return Err(Error::from(ProtocolError::InflightMetadataExhausted));
    }
    Ok(())
}

/// The properties of `CONNECT`: the largest packet the reader takes, the session expiry, and
/// the receive maximum of the inbound QoS 2 tracking.
pub fn connect_properties(rx_capacity: usize, session_expiry_interval: u32) -> (r: Vec<
    Property<'static>,
>)
    ensures
        r@ == seq![
            Property::MaximumPacketSize(rx_capacity as u32),
            Property::SessionExpiryInterval(session_expiry_interval),
            Property::ReceiveMaximum(8),
        ],
{
    vec![
        Property::MaximumPacketSize(rx_capacity as u32),
        Property::SessionExpiryInterval(session_expiry_interval),
        Property::ReceiveMaximum(crate::session::MAX_INBOUND_QOS2 as u16),
    ]
}

/// `CONNECT` was written: the connection is being established and no ping is scheduled.
pub fn begin_connect(runtime: &mut RuntimeState)
    ensures
        *final(runtime) == (RuntimeState {
            state: ConnectionState::Establishing,
            next_ping: None,
            ping_timeout: None,
            ..*old(runtime)
        }),
{
    runtime.state = ConnectionState::Establishing;
    runtime.next_ping = None;
    runtime.ping_timeout = None;
}

/// A connection event as the packet outcome that handling its `CONNACK` gave.
pub open spec fn event_outcome<'pkt, E>(r: Result<ConnectEvent, Error<E>>) -> Result<
    PacketOutcome<'pkt>,
    Error<E>,
> {
    match r {
        Ok(ConnectEvent::Reconnected) => Ok(PacketOutcome::Connected(true)),
        Ok(ConnectEvent::Connected) => Ok(PacketOutcome::Connected(false)),
        Err(e) => Err(e),
    }
}

/// End a connection attempt with the first packet the broker answered (or why it could not
/// be read): a `CONNACK` is handled as `handle_packet` does, giving whether the session was
/// resumed; a `DISCONNECT`, anything else, or an unreadable packet loses the transport.
pub fn finish_connect<'a, 'pkt, E>(
    client_id: &mut heapless::String<64>,
    session: &mut SessionData<'a>,
    runtime: &mut RuntimeState,
    packet: Result<ReceivedPacket<'pkt>, ProtocolError>,
    now: u64,
) -> (r: Result<ConnectEvent, Error<E>>)
    requires
        old(session).wf(),
        now + old(runtime).keepalive_interval_ms <= u64::MAX,
        now + MAX_KEEPALIVE_MS <= u64::MAX,
    ensures
        final(session).wf(),
        match packet {
            Ok(ReceivedPacket::ConnAck(ack)) => packet_handled(
                *old(session),
                *final(session),
                *old(runtime),
                *final(runtime),
                client_id_bytes(*old(client_id)),
                client_id_bytes(*final(client_id)),
                ReceivedPacket::ConnAck(ack),
                now,
                event_outcome::<'pkt, E>(r),
            ),
            _ => {
                &&& final(session).packet_id == old(session).packet_id
                &&& final(session).session_present == old(session).session_present
                &&& final(session).pending_ids() == old(session).pending_ids()
                &&& replayed(old(session).outbound, final(session).outbound)
                &&& *final(runtime) == (RuntimeState {
                    session_resumed: false,
                    next_ping: None,
                    ping_timeout: None,
                    ..*old(runtime)
                })
                &&& client_id_bytes(*final(client_id)) == client_id_bytes(*old(client_id))
                &&& match packet {
                    Err(e) => r == Err::<ConnectEvent, Error<E>>(spec_from_protocol(e)),
                    Ok(ReceivedPacket::Disconnect(_)) => r == Err::<ConnectEvent, Error<E>>(
                        Error::Disconnected,
                    ),
                    Ok(_) => r == Err::<ConnectEvent, Error<E>>(
                        spec_from_protocol(ProtocolError::UnexpectedPacket),
                    ),
                }
            },
        },
{
    match packet {
        Ok(ReceivedPacket::ConnAck(ack)) => {
            match handle_packet(client_id, session, runtime, ReceivedPacket::ConnAck(ack), now) {
                Ok(PacketOutcome::Connected(true)) => Ok(ConnectEvent::Reconnected),
                Ok(PacketOutcome::Connected(false)) => Ok(ConnectEvent::Connected),
                Ok(_) => Err(Error::from(ProtocolError::UnexpectedPacket)),
                Err(e) => Err(e),
            }
        },
        Ok(ReceivedPacket::Disconnect(_)) => {
            handle_disconnect(session, runtime);
            Err(Error::Disconnected)
        },
        Ok(_) => {
            handle_disconnect(session, runtime);
            Err(Error::from(ProtocolError::UnexpectedPacket))
        },
        Err(e) => {
            handle_disconnect(session, runtime);
            Err(Error::from(e))
        },
    }
}

/// How an accepted publication goes out: at `qos`, under `packet_id` when it is retained
/// until acknowledged (QoS 1 and 2), or written straight away without one (QoS 0).
#[derive(Debug, Copy, Clone, PartialEq, Eq, Structural)]
pub struct PublishStart {
    pub qos: QoS,
    pub packet_id: Option<u16>,
}

/// Whether `valid` is what checking `props` for use in `context` gives: every property reads
/// and has a value in range that may be sent in that context.
pub open spec fn valid_for_is<'a>(props: Properties<'a>, context: PropertyContext, valid: bool) -> bool {
    exists|items: Seq<Result<Property<'a>, PeerError>>|
        #![trigger spec_iterated(props, items)]
        spec_iterated(props, items) && valid == forall|i: int|
            0 <= i < items.len() ==> (#[trigger] items[i] matches Ok(p) && spec_has_valid_value(p)
                && spec_allowed_in(p, context))
}

/// The QoS a publication goes out at: the requested one, lowered to the broker's maximum when
/// it is above it and downgrading is on.
pub open spec fn spec_effective_qos(requested: QoS, max_qos: Option<QoS>, downgrade: bool) -> QoS {
    match max_qos {
        Some(m) => if downgrade && qos_level(requested) > qos_level(m) {
            m
        } else {
            requested
        },
        None => requested,
    }
}

/// What the session decides about a publication at `requested` QoS: refused while
/// disconnected or with properties not valid for a PUBLISH; at QoS 0 accepted when the scratch
/// space holds a fixed header, else not ready; above QoS 0 it takes the next packet
/// identifier, and is refused when no retained slot is left, not ready when the send quota is
/// spent or nothing more can be retained, and accepted otherwise.
pub open spec fn spec_begin_publish<E>(
    session: SessionData,
    runtime: RuntimeState,
    connected: bool,
    valid: bool,
    requested: QoS,
    downgrade: bool,
) -> Result<PublishStart, Error<E>> {
    let qos = spec_effective_qos(requested, runtime.max_qos, downgrade);
    let scratch = session.outbound.bytes().len() - crate::outbound::total_len(
        session.outbound.retained(),
    );
    if !connected {
        Err(Error::Disconnected)
    } else if !valid {
        Err(Error::InvalidRequest)
    } else if qos == QoS::AtMostOnce {
        if scratch >= crate::ser::MAX_FIXED_HEADER_SIZE {
            Ok(PublishStart { qos, packet_id: None })
        } else {
            Err(Error::NotReady)
        }
    } else if session.outbound.retained().len() == crate::outbound::MAX_RETAINED {
        Err(Error::Resource(ResourceError::InflightExhausted))
    } else if runtime.send_quota == 0 || !(scratch >= crate::ser::MAX_FIXED_HEADER_SIZE) {
        Err(Error::NotReady)
    } else {
        Ok(PublishStart { qos, packet_id: Some(session.packet_id) })
    }
}

/// The numeric level of a QoS.
fn qos_value(qos: QoS) -> (r: u8)
    ensures
        r == qos_level(qos),
{
    match qos {
        QoS::AtMostOnce => 0,
        QoS::AtLeastOnce => 1,
        QoS::ExactlyOnce => 2,
    }
}

/// Decide how a publication at `qos` with `properties` starts, before anything is encoded;
/// `connected` tells whether a transport is up. A publication above QoS 0 that gets as far as
/// the retained-slot check takes the next packet identifier, whether or not it is accepted.
/// Encoding, retaining and writing follow with the caller.
pub fn begin_publish<E>(
    session: &mut SessionData,
    runtime: &RuntimeState,
    connected: bool,
    properties: &Properties,
    qos: QoS,
    downgrade_qos: bool,
) -> (r: Result<PublishStart, Error<E>>)
    requires
        old(session).wf(),
    ensures
        final(session).wf(),
        final(session).outbound == old(session).outbound,
        final(session).session_present == old(session).session_present,
        final(session).pending_ids() == old(session).pending_ids(),
        exists|valid: bool|
            valid_for_is(*properties, PropertyContext::Publish, valid) && r == spec_begin_publish::<E>(
                *old(session),
                *runtime,
                connected,
                valid,
                qos,
                downgrade_qos,
            ) && final(session).packet_id == if connected && valid && spec_effective_qos(
                qos,
                runtime.max_qos,
                downgrade_qos,
            ) != QoS::AtMostOnce {
                if old(session).packet_id == u16::MAX {
                    1
                } else {
                    (old(session).packet_id + 1) as u16
                }
            } else {
                old(session).packet_id
            },
{
    let valid = properties.valid_for(PropertyContext::Publish);
    assert(valid_for_is(*properties, PropertyContext::Publish, valid));
    if !connected {
        return Err(Error::Disconnected);
    }
    if !valid {
        return Err(Error::InvalidRequest);
    }
    let effective = match runtime.max_qos {
        Some(max_qos) => if downgrade_qos && qos_value(qos) > qos_value(max_qos) {
            max_qos
        } else {
            qos
        },
        None => qos,
    };
    if effective == QoS::AtMostOnce {
        if session.outbound.scratch_len() >= crate::ser::MAX_FIXED_HEADER_SIZE {
            return Ok(PublishStart { qos: effective, packet_id: None });
        }
        return Err(Error::NotReady);
    }
    let packet_id = session.next_packet_id();
    require_retained_slot::<E>(session)?;
    if runtime.send_quota == 0 || !session.outbound.can_retain() {
        return Err(Error::NotReady);
    }
    Ok(PublishStart { qos: effective, packet_id: Some(packet_id) })
}

/// Check a `SUBSCRIBE` or `UNSUBSCRIBE` request of `topic_count` topics with `properties`
/// for `context`, before anything is flushed or encoded: refused while disconnected, and an
/// invalid request without topics or with properties not valid for the packet.
pub fn check_request<E>(
    connected: bool,
    topic_count: usize,
    properties: &Properties,
    context: PropertyContext,
) -> (r: Result<(), Error<E>>)
    ensures
        exists|valid: bool|
            valid_for_is(*properties, context, valid) && r == if !connected {
                Err(Error::Disconnected)
            } else if topic_count == 0 || !valid {
                Err(Error::InvalidRequest)
            } else {
                Ok::<(), Error<E>>(())
            },
{
    let valid = properties.valid_for(context);
    assert(valid_for_is(*properties, context, valid));
    if !connected {
        return Err(Error::Disconnected);
    }
    if topic_count == 0 || !valid {
        return Err(Error::InvalidRequest);
    }
    Ok(())
}

/// Reserve what a retained request needs once what was queued is flushed: refused when no
/// retained slot is left, else the next packet identifier, which the session then moves past.
pub fn take_request_id<E>(session: &mut SessionData) -> (r: Result<u16, Error<E>>)
    requires
        old(session).wf(),
    ensures
        final(session).wf(),
        final(session).outbound == old(session).outbound,
        final(session).session_present == old(session).session_present,
        final(session).pending_ids() == old(session).pending_ids(),
        old(session).outbound.retained().len() == crate::outbound::MAX_RETAINED ==> r == Err::<
            u16,
            Error<E>,
        >(Error::Resource(ResourceError::InflightExhausted)) && final(session).packet_id == old(
            session,
        ).packet_id,
        old(session).outbound.retained().len() != crate::outbound::MAX_RETAINED ==> r == Ok::<
            u16,
            Error<E>,
        >(old(session).packet_id) && final(session).packet_id == if old(session).packet_id
            == u16::MAX {
            1
        } else {
            (old(session).packet_id + 1) as u16
        },
{
    require_retained_slot::<E>(session)?;
    Ok(session.next_packet_id())
}

/// Check the properties of a `DISCONNECT` before it is encoded: an invalid request when they
/// may not be sent with it.
pub fn check_disconnect<E>(properties: Option<&Properties>) -> (r: Result<(), Error<E>>)
    ensures
        properties is None ==> r is Ok,
        properties matches Some(p) ==> exists|valid: bool|
            valid_for_is(*p, PropertyContext::Disconnect, valid) && r == if valid {
                Ok::<(), Error<E>>(())
            } else {
                Err(Error::InvalidRequest)
            },
{
    match properties {
        Some(p) => {
            let valid = p.valid_for(PropertyContext::Disconnect);
            assert(valid_for_is(*p, PropertyContext::Disconnect, valid));
            if valid {
                Ok(())
            } else {
                Err(Error::InvalidRequest)
            }
        },
        None => Ok(()),
    }
}

/// Keep the publication just encoded at `offset`, `len` bytes long, as in-flight packet
/// `packet_id`, and spend one unit of the send quota (none is left to spend at zero). A packet
/// larger than the broker takes is refused first, and one that finds no retained slot is
/// refused next; either way nothing changes.
pub fn enqueue_publish<E>(
    session: &mut SessionData,
    runtime: &mut RuntimeState,
    packet_id: u16,
    offset: usize,
    len: usize,
) -> (r: Result<(), Error<E>>)
    requires
        old(session).wf(),
        old(session).outbound.spec_used() <= offset,
        offset + len <= old(session).outbound.bytes().len(),
        len > 0,
    ensures
        final(session).wf(),
        final(session).packet_id == old(session).packet_id,
        final(session).session_present == old(session).session_present,
        final(session).pending_ids() == old(session).pending_ids(),
        final(session).outbound.bytes() == old(session).outbound.bytes(),
        final(session).outbound.control() == old(session).outbound.control(),
        final(session).outbound.release() == old(session).outbound.release(),
        too_large(old(runtime).maximum_packet_size, len as nat) ==> r == Err::<(), Error<E>>(
            Error::Resource(ResourceError::PacketTooLarge),
        ) && final(session).outbound.retained() == old(session).outbound.retained()
            && *final(runtime) == *old(runtime),
        !too_large(old(runtime).maximum_packet_size, len as nat)
            && old(session).outbound.retained().len() >= crate::outbound::MAX_RETAINED ==> r
            == Err::<(), Error<E>>(Error::Resource(ResourceError::InflightExhausted))
            && final(session).outbound.retained() == old(session).outbound.retained()
            && *final(runtime) == *old(runtime),
        !too_large(old(runtime).maximum_packet_size, len as nat)
            && old(session).outbound.retained().len() < crate::outbound::MAX_RETAINED ==> {
            &&& r is Ok
            &&& final(session).outbound.retained() == old(session).outbound.retained().push(
                RetainedPacket { packet_id, offset, len, state: SendState::Write { written: 0 } },
            )
            &&& *final(runtime) == (RuntimeState {
                send_quota: if old(runtime).send_quota == 0 {
                    0
                } else {
                    (old(runtime).send_quota - 1) as u16
                },
                ..*old(runtime)
            })
        },
{
    if let Err(_) = crate::outbound::require_packet_size(runtime.maximum_packet_size, len) {
        return Err(Error::Resource(ResourceError::PacketTooLarge));
    }
    if let Err(_) = session.outbound.retain_packet(packet_id, offset, len) {
        return Err(Error::Resource(ResourceError::InflightExhausted));
    }
    runtime.send_quota = if runtime.send_quota == 0 {
        0
    } else {
        runtime.send_quota - 1
    };
    Ok(())
}

/// Where operation `op` stands in `session`: invalidated when the session state it was
/// accepted in was discarded since; else pending while its packet is retained, or, for an
/// exactly-once publication, while its release awaits completion; else complete.
pub open spec fn spec_op_status(session: SessionData, op: Op) -> OpStatus {
    let id = op.spec_packet_id();
    let retained = exists|i: int|
        0 <= i < session.outbound.retained().len() && (#[trigger] session.outbound.retained()[i]).packet_id
            == id;
    let releasing = exists|i: int|
        0 <= i < session.outbound.release().len() && (#[trigger] session.outbound.release()[i]).packet_id
            == id;
    if op.spec_generation() != session.generation {
        OpStatus::Invalidated
    } else if retained || (op.spec_kind() == OpKind::PublishExactlyOnce && releasing) {
        OpStatus::Pending
    } else {
        OpStatus::Complete
    }
}

/// Where operation `op` stands in `session`.
pub fn op_status(session: &SessionData, op: &Op) -> (r: OpStatus)
    ensures
        r == spec_op_status(*session, *op),
{
    if op.generation() != session.generation() {
        return OpStatus::Invalidated;
    }
    let pending = match op.kind() {
        OpKind::PublishExactlyOnce => session.outbound.has_retained(op.packet_id())
            || session.outbound.has_pending_release(op.packet_id()),
        _ => session.outbound.has_retained(op.packet_id()),
    };
    if pending {
        OpStatus::Pending
    } else {
        OpStatus::Complete
    }
}

/// Discarding the session state invalidates every operation accepted before: after `reset`,
/// whose generation moves on, an operation of the old generation is invalidated.
pub proof fn law_reset_invalidates(before: SessionData, after: SessionData, op: Op)
    requires
        op.spec_generation() == before.generation,
        after.generation == if before.generation == u32::MAX {
            0
        } else {
            (before.generation + 1) as u32
        },
    ensures
        spec_op_status(after, op) == OpStatus::Invalidated,
{
}


/// Downgrading lowers a QoS exactly to the broker's maximum and no further: with downgrading
/// on, the effective level is the smaller of the requested level and the broker's; with it
/// off, or with no known maximum, the requested QoS goes out.
pub proof fn law_downgrade_to_broker_maximum(requested: QoS, max: QoS, downgrade: bool)
    ensures
        qos_level(spec_effective_qos(requested, Some(max), true)) == if qos_level(requested)
            < qos_level(max) {
            qos_level(requested)
        } else {
            qos_level(max)
        },
        spec_effective_qos(requested, Some(max), false) == requested,
        spec_effective_qos(requested, None, downgrade) == requested,
{
}

/// An accepted publication goes out at the downgraded QoS, and carries a packet identifier
/// exactly when that QoS is above 0: the current identifier of the session.
pub proof fn law_publish_start<E>(
    session: SessionData,
    runtime: RuntimeState,
    requested: QoS,
    downgrade: bool,
)
    ensures
        spec_begin_publish::<E>(session, runtime, true, true, requested, downgrade) matches Ok(s)
            ==> {
            &&& qos_level(s.qos) == match runtime.max_qos {
                Some(m) => if downgrade && qos_level(m) < qos_level(requested) {
                    qos_level(m)
                } else {
                    qos_level(requested)
                },
                None => qos_level(requested),
            }
            &&& (s.packet_id is Some) == (qos_level(s.qos) > 0)
            &&& s.packet_id is Some ==> s.packet_id == Some(session.packet_id)
        },
{
}

/// Whether a property may go with a `SUBSCRIBE`: a subscription identifier from 1 to
/// 2^28 - 1, or a user property.
pub open spec fn subscribe_property(p: Property) -> bool {
    ||| p matches Property::SubscriptionIdentifier(v) && 1 <= v <= crate::varint::MQTT_VARINT_MAX
    ||| p matches Property::UserProperty(_, _)
}

/// The properties a `SUBSCRIBE` request may carry are exactly subscription identifiers from
/// 1 to 2^28 - 1 and user properties; an `UNSUBSCRIBE` request may carry only user
/// properties. A list of properties passes the check for the request exactly when every one
/// of them is of those kinds.
pub proof fn law_request_properties<'a>(props: Properties<'a>, valid_sub: bool, valid_unsub: bool)
    requires
        !props.is_encoded(),
        valid_for_is(props, PropertyContext::Subscribe, valid_sub),
        valid_for_is(props, PropertyContext::Unsubscribe, valid_unsub),
    ensures
        valid_sub <==> forall|i: int|
            0 <= i < props.list().len() ==> subscribe_property(#[trigger] props.list()[i]),
        valid_unsub <==> forall|i: int|
            0 <= i < props.list().len() ==> (#[trigger] props.list()[i] matches Property::UserProperty(
                _,
                _,
            )),
{
    let a = choose|items: Seq<Result<Property<'a>, PeerError>>|
        spec_iterated(props, items) && valid_sub == forall|i: int|
            0 <= i < items.len() ==> (#[trigger] items[i] matches Ok(p) && spec_has_valid_value(p)
                && spec_allowed_in(p, PropertyContext::Subscribe));
    let b = choose|items: Seq<Result<Property<'a>, PeerError>>|
        spec_iterated(props, items) && valid_unsub == forall|i: int|
            0 <= i < items.len() ==> (#[trigger] items[i] matches Ok(p) && spec_has_valid_value(p)
                && spec_allowed_in(p, PropertyContext::Unsubscribe));
    assert forall|i: int| 0 <= i < props.list().len() implies (#[trigger] a[i] matches Ok(p)
        && spec_has_valid_value(p) && spec_allowed_in(p, PropertyContext::Subscribe))
        == subscribe_property(props.list()[i]) by {
        crate::properties::law_allowed_properties(props.list()[i]);
        assert(a[i] == Ok::<Property<'a>, PeerError>(props.list()[i]));
    }
    assert forall|i: int| 0 <= i < props.list().len() implies (#[trigger] b[i] matches Ok(p)
        && spec_has_valid_value(p) && spec_allowed_in(p, PropertyContext::Unsubscribe))
        == (props.list()[i] matches Property::UserProperty(_, _)) by {
        crate::properties::law_allowed_properties(props.list()[i]);
        assert(b[i] == Ok::<Property<'a>, PeerError>(props.list()[i]));
    }
    if valid_sub {
        assert forall|i: int| 0 <= i < props.list().len() implies subscribe_property(
            #[trigger] props.list()[i],
        ) by {
            let _ = a[i];
        }
    }
    if valid_unsub {
        assert forall|i: int| 0 <= i < props.list().len() implies (#[trigger] props.list()[i] matches Property::UserProperty(
            _,
            _,
        )) by {
            let _ = b[i];
        }
    }
    if forall|i: int| 0 <= i < props.list().len() ==> subscribe_property(#[trigger] props.list()[i]) {
        assert forall|i: int| 0 <= i < a.len() implies (#[trigger] a[i] matches Ok(p)
            && spec_has_valid_value(p) && spec_allowed_in(p, PropertyContext::Subscribe)) by {
            let _ = props.list()[i];
        }
    }
    if forall|i: int| 0 <= i < props.list().len() ==> (#[trigger] props.list()[i] matches Property::UserProperty(
        _,
        _,
    )) {
        assert forall|i: int| 0 <= i < b.len() implies (#[trigger] b[i] matches Ok(p)
            && spec_has_valid_value(p) && spec_allowed_in(p, PropertyContext::Unsubscribe)) by {
            let _ = props.list()[i];
        }
    }
}

} // verus!
