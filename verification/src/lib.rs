//! Verified MQTT v5 wire-format core: variable byte integers, fixed headers, packet
//! encoding and decoding, inbound packet assembly, and outbound session bookkeeping.
use vstd::prelude::*;

pub mod bits;
pub mod packets;
pub mod properties;
pub mod reason_codes;
pub mod varint;
pub mod wire;
pub mod ser;
pub mod de;
pub mod ring_buffer;
pub mod config;
pub mod packet_writer;
pub mod nanomq;
pub mod publication;
pub mod decode;
pub mod received;
pub mod reply;
pub mod error;
pub mod client;
pub mod outbound;
pub mod heapless_vec;
pub mod session;
pub mod fuzzing;
pub mod rpc;
pub mod staging;
pub mod driver;

pub use reason_codes::ReasonCode;
pub use error::{Error, PubError};

verus! {

/// Default port number for unencrypted MQTT traffic.
pub const MQTT_INSECURE_DEFAULT_PORT: u16 = 1883;

/// Default port number for encrypted MQTT traffic.
pub const MQTT_SECURE_DEFAULT_PORT: u16 = 8883;

/// The quality-of-service for an MQTT message.
#[derive(Debug, Copy, Clone, PartialEq, Eq, Structural)]
pub enum QoS {
    /// Deliver at most once. No acknowledgment or retry.
    AtMostOnce,
    /// Deliver at least once. Retries are possible.
    AtLeastOnce,
    /// Deliver exactly once through the MQTT QoS 2 handshake.
    ExactlyOnce,
}

/// Numeric level of a QoS.
pub open spec fn qos_level(qos: QoS) -> u8 {
    match qos {
        QoS::AtMostOnce => 0,
        QoS::AtLeastOnce => 1,
        QoS::ExactlyOnce => 2,
    }
}

impl QoS {
    /// The numeric QoS level (0, 1 or 2).
    pub fn level(self) -> (r: u8)
        ensures
            r == qos_level(self),
    {
        match self {
            QoS::AtMostOnce => 0,
            QoS::AtLeastOnce => 1,
            QoS::ExactlyOnce => 2,
        }
    }

    /// Convert a numeric QoS level; levels above 2 are not a QoS.
    pub fn try_from_level(level: u8) -> (r: Option<QoS>)
        ensures
            level <= 2 ==> r is Some && qos_level(r->Some_0) == level,
            level > 2 ==> r is None,
    {
        match level {
            0 => Some(QoS::AtMostOnce),
            1 => Some(QoS::AtLeastOnce),
            2 => Some(QoS::ExactlyOnce),
            _ => None,
        }
    }
}

/// The retained status for an MQTT message.
#[derive(Debug, Copy, Clone, PartialEq, Eq, Structural)]
pub enum Retain {
    /// Do not retain the message on the broker.
    NotRetained,
    /// Ask the broker to retain the message.
    Retained,
}

/// Configuration errors detected before a session is created.
#[derive(Debug, Copy, Clone, PartialEq, Eq, Structural)]
pub enum ConfigError {
    /// The requested RX split does not fit in the provided backing buffer.
    BufferSplit,
    /// The configured client identifier exceeds the internal fixed-capacity storage.
    ClientIdTooLong,
    /// The configured topic exceeds the internal fixed-capacity storage.
    TopicTooLong,
    /// One configuration setting was specified more than once.
    DuplicateConfig,
    /// The provided configuration is not valid for MQTT.
    InvalidConfig,
}

/// Failures caused by broker behavior or invalid inbound MQTT data.
#[derive(Debug, Copy, Clone, PartialEq, Eq, Structural)]
pub enum PeerError {
    /// The broker explicitly rejected the operation with an MQTT reason code.
    Rejected(ReasonCode),
    /// The broker sent an invalid MQTT packet or protocol state transition.
    InvalidPacket,
}

/// Local capacity and sizing failures.
#[derive(Debug, Copy, Clone, PartialEq, Eq, Structural)]
pub enum ResourceError {
    /// Local fixed-capacity storage or packet scratch space was too small.
    BufferTooSmall,
    /// The requested or required packet exceeds the negotiated packet size limit.
    PacketTooLarge,
    /// Internal tracking space for in-flight packet metadata was exhausted.
    InflightExhausted,
}

/// Protocol-level failures raised while encoding, decoding or tracking packets.
#[derive(Debug, Copy, Clone, PartialEq, Eq, Structural)]
pub enum ProtocolError {
    /// The broker sent a packet that is invalid in the current protocol state.
    UnexpectedPacket,
    /// The broker sent malformed bytes.
    MalformedPacket,
    /// A variable byte integer did not terminate within four bytes.
    MalformedInteger,
    /// A field ran past the end of the available data.
    DataSize,
    /// Serialization ran out of room at the head of the buffer.
    Bounds,
    /// No complete packet length is known yet.
    PacketSize,
    /// A fixed-capacity buffer was too small.
    BufferSize,
    /// Internal tracking space for in-flight packet metadata was exhausted.
    InflightMetadataExhausted,
    /// A client identifier is longer than the local storage for it.
    ProvidedClientIdTooLong,
    /// Credentials were attached to a configuration that already had some.
    AuthAlreadySpecified,
    /// A will was attached to a configuration that already had one.
    WillAlreadySpecified,
    /// The broker announced a maximum QoS that is not a QoS level.
    WrongQos,
    /// The broker rejected the operation with an MQTT reason code.
    Failed(ReasonCode),
    /// Packet encoding failed.
    Encode(ser::Error),
    /// Packet decoding failed.
    Deserialization(de::Error),
}

} // verus!
