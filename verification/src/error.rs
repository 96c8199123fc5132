//! Errors reported to users of the session, and how internal errors map onto them.
use crate::reason_codes::ReasonCode;
use crate::{de, ser, PeerError, ProtocolError, ResourceError};
use vstd::prelude::*;

verus! {

/// Possible errors encountered during MQTT operation.
#[derive(Debug, PartialEq, Eq)]
pub enum Error<E> {
    /// Local buffers or in-flight state are not currently ready for the requested operation.
    NotReady,
    /// The session is currently disconnected.
    Disconnected,
    /// The requested operation arguments are not valid.
    InvalidRequest,
    /// The broker rejected the operation or sent invalid MQTT data.
    Peer(PeerError),
    /// Local buffers or in-flight state were insufficient for the requested operation.
    Resource(ResourceError),
    /// Transport-layer failure during connect or I/O.
    Transport(E),
    /// A write operation returned `Ok(0)` for a non-empty buffer.
    WriteZero,
}

/// The session error for an encoding failure: no room is a local resource failure, anything
/// else an invalid request.
pub open spec fn spec_from_ser<E>(err: ser::Error) -> Error<E> {
    match err {
        ser::Error::InsufficientMemory => Error::Resource(ResourceError::BufferTooSmall),
        ser::Error::Custom => Error::InvalidRequest,
    }
}

/// The session error for a protocol failure. Bad data from the broker, in any form, is an
/// invalid packet; a rejection is the broker's reason, except that a packet the broker found
/// too large is a local resource failure; running out of room, of in-flight tracking space or
/// of storage for an assigned client identifier is a local resource failure; setting up
/// credentials or a will twice is an invalid request.
pub open spec fn spec_from_protocol<E>(p: ProtocolError) -> Error<E> {
    match p {
        ProtocolError::UnexpectedPacket | ProtocolError::MalformedPacket
        | ProtocolError::MalformedInteger | ProtocolError::DataSize | ProtocolError::PacketSize
        | ProtocolError::WrongQos | ProtocolError::Deserialization(_) => Error::Peer(
            PeerError::InvalidPacket,
        ),
        ProtocolError::InflightMetadataExhausted => Error::Resource(
            ResourceError::InflightExhausted,
        ),
        ProtocolError::Bounds | ProtocolError::BufferSize
        | ProtocolError::ProvidedClientIdTooLong => Error::Resource(ResourceError::BufferTooSmall),
        ProtocolError::Failed(code) => if code == ReasonCode::PacketTooLarge {
            Error::Resource(ResourceError::PacketTooLarge)
        } else {
            Error::Peer(PeerError::Rejected(code))
        },
        ProtocolError::Encode(err) => spec_from_ser(err),
        ProtocolError::AuthAlreadySpecified | ProtocolError::WillAlreadySpecified => Error::InvalidRequest,
    }
}

impl<E> From<ser::Error> for Error<E> {
    fn from(err: ser::Error) -> (r: Self) {
        match err {
            ser::Error::InsufficientMemory => Error::Resource(ResourceError::BufferTooSmall),
            ser::Error::Custom => Error::InvalidRequest,
        }
    }
}

impl<E> vstd::std_specs::convert::FromSpecImpl<ser::Error> for Error<E> {
    open spec fn obeys_from_spec() -> bool {
        true
    }

    open spec fn from_spec(err: ser::Error) -> Self {
        spec_from_ser(err)
    }
}

impl<E> From<ProtocolError> for Error<E> {
    fn from(p: ProtocolError) -> (r: Self) {
        match p {
            ProtocolError::UnexpectedPacket | ProtocolError::MalformedPacket
            | ProtocolError::MalformedInteger | ProtocolError::DataSize | ProtocolError::PacketSize
            | ProtocolError::WrongQos | ProtocolError::Deserialization(_) => Error::Peer(
                PeerError::InvalidPacket,
            ),
            ProtocolError::InflightMetadataExhausted => Error::Resource(
                ResourceError::InflightExhausted,
            ),
            ProtocolError::Bounds | ProtocolError::BufferSize
            | ProtocolError::ProvidedClientIdTooLong => Error::Resource(ResourceError::BufferTooSmall),
            ProtocolError::Failed(code) => match code {
                ReasonCode::PacketTooLarge => Error::Resource(ResourceError::PacketTooLarge),
                code => Error::Peer(PeerError::Rejected(code)),
            },
            ProtocolError::Encode(err) => Self::from(err),
            ProtocolError::AuthAlreadySpecified | ProtocolError::WillAlreadySpecified => Error::InvalidRequest,
        }
    }
}

impl<E> vstd::std_specs::convert::FromSpecImpl<ProtocolError> for Error<E> {
    open spec fn obeys_from_spec() -> bool {
        true
    }

    open spec fn from_spec(p: ProtocolError) -> Self {
        spec_from_protocol(p)
    }
}

impl<E> From<de::Error> for Error<E> {
    fn from(err: de::Error) -> (r: Self) {
        Error::Peer(PeerError::InvalidPacket)
    }
}

impl<E> vstd::std_specs::convert::FromSpecImpl<de::Error> for Error<E> {
    open spec fn obeys_from_spec() -> bool {
        true
    }

    open spec fn from_spec(err: de::Error) -> Self {
        Error::Peer(PeerError::InvalidPacket)
    }
}

impl<E> From<PeerError> for Error<E> {
    fn from(err: PeerError) -> (r: Self) {
        Error::Peer(err)
    }
}

impl<E> vstd::std_specs::convert::FromSpecImpl<PeerError> for Error<E> {
    open spec fn obeys_from_spec() -> bool {
        true
    }

    open spec fn from_spec(err: PeerError) -> Self {
        Error::Peer(err)
    }
}

impl<E> From<ResourceError> for Error<E> {
    fn from(err: ResourceError) -> (r: Self) {
        Error::Resource(err)
    }
}

impl<E> vstd::std_specs::convert::FromSpecImpl<ResourceError> for Error<E> {
    open spec fn obeys_from_spec() -> bool {
        true
    }

    open spec fn from_spec(err: ResourceError) -> Self {
        Error::Resource(err)
    }
}

/// Error returned when publishing.
#[derive(Debug, PartialEq, Eq)]
pub enum PubError<P, E> {
    /// Session, transport, peer, or local resource failure.
    Session(Error<E>),
    /// Payload serialization failed before the packet was sent.
    Payload(P),
}

/// The publish error for a failed publish encoding.
pub open spec fn spec_pub_from_encoding<P, E>(e: ser::PubError<P>) -> PubError<P, E> {
    match e {
        ser::PubError::Payload(p) => PubError::Payload(p),
        ser::PubError::Encode(err) => PubError::Session(spec_from_ser(err)),
    }
}

impl<P, E> From<Error<E>> for PubError<P, E> {
    fn from(e: Error<E>) -> (r: Self) {
        PubError::Session(e)
    }
}

impl<P, E> vstd::std_specs::convert::FromSpecImpl<Error<E>> for PubError<P, E> {
    open spec fn obeys_from_spec() -> bool {
        true
    }

    open spec fn from_spec(e: Error<E>) -> Self {
        PubError::Session(e)
    }
}

impl<P, E> From<ser::PubError<P>> for PubError<P, E> {
    fn from(e: ser::PubError<P>) -> (r: Self) {
        match e {
            ser::PubError::Payload(p) => PubError::Payload(p),
            ser::PubError::Encode(err) => PubError::Session(Error::from(err)),
        }
    }
}

impl<P, E> vstd::std_specs::convert::FromSpecImpl<ser::PubError<P>> for PubError<P, E> {
    open spec fn obeys_from_spec() -> bool {
        true
    }

    open spec fn from_spec(e: ser::PubError<P>) -> Self {
        spec_pub_from_encoding(e)
    }
}

impl<P, E> From<ProtocolError> for PubError<P, E> {
    fn from(err: ProtocolError) -> (r: Self) {
        PubError::Session(Error::from(err))
    }
}

impl<P, E> vstd::std_specs::convert::FromSpecImpl<ProtocolError> for PubError<P, E> {
    open spec fn obeys_from_spec() -> bool {
        true
    }

    open spec fn from_spec(err: ProtocolError) -> Self {
        PubError::Session(spec_from_protocol(err))
    }
}

} // verus!
