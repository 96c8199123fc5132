//! Caller-owned packet buffers and the settings a session starts from.
use crate::heapless_vec::{client_id_bytes, client_id_new, client_id_try_from};
use crate::packets::{Auth, Will};
use crate::ProtocolError;
use vstd::prelude::*;
use vstd::string::StringSliceAdditionalSpecFns;

verus! {

/// Caller-owned packet buffers.
///
/// `rx` holds exactly one inbound MQTT control packet at a time. `tx` is the transmit arena:
/// outbound packets are encoded there, and unacknowledged packets are retained there.
pub struct Buffers<'a> {
    rx: &'a mut [u8],
    tx: &'a mut [u8],
}

/// Setup errors detected before a session is created.
#[derive(Debug, Copy, Clone, PartialEq, Eq, Structural)]
pub enum SetupError {
    /// The requested RX split does not fit in the provided backing buffer.
    BufferSplit,
}

impl<'a> Buffers<'a> {
    /// Contents of the inbound packet storage.
    pub closed spec fn rx_view(&self) -> Seq<u8> {
        (*self.rx)@
    }

    /// Contents of the outbound packet storage.
    pub closed spec fn tx_view(&self) -> Seq<u8> {
        (*self.tx)@
    }

    /// Construct caller-owned RX/TX packet buffers.
    pub fn new(rx: &'a mut [u8], tx: &'a mut [u8]) -> (r: Self)
        ensures
            r.rx_view() == old(rx)@,
            r.tx_view() == old(tx)@,
    {
        Buffers { rx, tx }
    }

    /// Borrow the inbound packet storage.
    pub fn rx(&self) -> (r: &[u8])
        ensures
            r@ == self.rx_view(),
    {
        self.rx
    }

    /// Borrow the outbound packet storage.
    pub fn tx(&self) -> (r: &[u8])
        ensures
            r@ == self.tx_view(),
    {
        self.tx
    }

    /// Give up the two buffers, inbound first.
    pub fn into_parts(self) -> (r: (&'a mut [u8], &'a mut [u8]))
        ensures
            r.0@ == self.rx_view(),
            r.1@ == self.tx_view(),
    {
        (self.rx, self.tx)
    }

    /// Split one backing buffer into an RX region of `rx_size` bytes and a TX region made of
    /// the rest. Fails when `rx_size` exceeds the buffer.
    pub fn split(buffer: &'a mut [u8], rx_size: usize) -> (r: Result<Self, SetupError>)
        ensures
            rx_size > old(buffer)@.len() <==> r is Err,
            r matches Err(e) ==> e == SetupError::BufferSplit,
            r matches Ok(b) ==> {
                &&& b.rx_view() == old(buffer)@.subrange(0, rx_size as int)
                &&& b.tx_view() == old(buffer)@.subrange(rx_size as int, old(buffer)@.len() as int)
            },
    {
        if rx_size > buffer.len() {
            return Err(SetupError::BufferSplit);
        }
        let (rx, tx) = buffer.split_at_mut(rx_size);
        Ok(Self::new(rx, tx))
    }
}

/// Keepalive interval, in seconds, that a new configuration advertises.
pub const DEFAULT_KEEPALIVE_SECS: u64 = 59;

/// Builder for session setup: the buffers, and the application-facing settings.
pub struct ConfigBuilder<'a> {
    buffers: Buffers<'a>,
    will: Option<Will<'a>>,
    client_id: heapless::String<64>,
    keepalive_secs: u64,
    session_expiry_interval: u32,
    downgrade_qos: bool,
    auth: Option<Auth<'a>>,
}

impl<'a> ConfigBuilder<'a> {
    /// The inbound packet storage.
    pub closed spec fn rx_view(&self) -> Seq<u8> {
        self.buffers.rx_view()
    }

    /// The outbound packet storage.
    pub closed spec fn tx_view(&self) -> Seq<u8> {
        self.buffers.tx_view()
    }

    /// The will message, if one was attached.
    pub closed spec fn spec_will(&self) -> Option<Will<'a>> {
        self.will
    }

    /// The bytes of the client identifier.
    pub closed spec fn spec_client_id(&self) -> Seq<u8> {
        client_id_bytes(self.client_id)
    }

    /// The keepalive interval advertised in `CONNECT`, in seconds.
    pub closed spec fn spec_keepalive_secs(&self) -> u64 {
        self.keepalive_secs
    }

    /// The session expiry interval, in seconds.
    pub closed spec fn spec_session_expiry(&self) -> u32 {
        self.session_expiry_interval
    }

    /// Whether outbound QoS is lowered to the broker's maximum.
    pub closed spec fn spec_downgrade_qos(&self) -> bool {
        self.downgrade_qos
    }

    /// The credentials, if some were attached.
    pub closed spec fn spec_auth(&self) -> Option<Auth<'a>> {
        self.auth
    }

    /// Whether `self` and `other` agree on every setting but those `changed` names: 0 the will,
    /// 1 the client identifier, 2 the keepalive, 3 the session expiry, 4 the QoS downgrade,
    /// 5 the credentials. The buffers always agree.
    pub open spec fn same_but(&self, other: &Self, changed: int) -> bool {
        &&& self.rx_view() == other.rx_view()
        &&& self.tx_view() == other.tx_view()
        &&& changed != 0 ==> self.spec_will() == other.spec_will()
        &&& changed != 1 ==> self.spec_client_id() == other.spec_client_id()
        &&& changed != 2 ==> self.spec_keepalive_secs() == other.spec_keepalive_secs()
        &&& changed != 3 ==> self.spec_session_expiry() == other.spec_session_expiry()
        &&& changed != 4 ==> self.spec_downgrade_qos() == other.spec_downgrade_qos()
        &&& changed != 5 ==> self.spec_auth() == other.spec_auth()
    }

    /// A configuration over `buffers`: no will, an empty client identifier, no credentials, a
    /// keepalive of `DEFAULT_KEEPALIVE_SECS`, the longest session expiry (a persistent
    /// session), and no QoS downgrade.
    pub fn new(buffers: Buffers<'a>) -> (r: Self)
        ensures
            r.rx_view() == buffers.rx_view(),
            r.tx_view() == buffers.tx_view(),
            r.spec_will() is None,
            r.spec_client_id() == Seq::<u8>::empty(),
            r.spec_auth() is None,
            r.spec_keepalive_secs() == DEFAULT_KEEPALIVE_SECS,
            r.spec_session_expiry() == u32::MAX,
            !r.spec_downgrade_qos(),
    {
        ConfigBuilder {
            buffers,
            will: None,
            client_id: client_id_new(),
            auth: None,
            keepalive_secs: DEFAULT_KEEPALIVE_SECS,
            session_expiry_interval: u32::MAX,
            downgrade_qos: false,
        }
    }

    /// A configuration over one backing buffer split into an inbound region of `rx_size`
    /// bytes and an outbound region made of the rest; fails when `rx_size` exceeds the buffer.
    pub fn from_buffer(buffer: &'a mut [u8], rx_size: usize) -> (r: Result<Self, SetupError>)
        ensures
            rx_size > old(buffer)@.len() <==> r is Err,
            r matches Err(e) ==> e == SetupError::BufferSplit,
            r matches Ok(c) ==> {
                &&& c.rx_view() == old(buffer)@.subrange(0, rx_size as int)
                &&& c.tx_view() == old(buffer)@.subrange(rx_size as int, old(buffer)@.len() as int)
                &&& c.spec_will() is None
                &&& c.spec_client_id() == Seq::<u8>::empty()
                &&& c.spec_auth() is None
                &&& c.spec_keepalive_secs() == DEFAULT_KEEPALIVE_SECS
                &&& c.spec_session_expiry() == u32::MAX
                &&& !c.spec_downgrade_qos()
            },
    {
        Ok(Self::new(Buffers::split(buffer, rx_size)?))
    }

    /// Attach user name and password credentials; a second call fails with
    /// `AuthAlreadySpecified`.
    pub fn auth(self, user_name: &'a str, password: &'a [u8]) -> (r: Result<Self, ProtocolError>)
        ensures
            self.spec_auth() is Some <==> r is Err,
            r matches Err(e) ==> e == ProtocolError::AuthAlreadySpecified,
            r matches Ok(c) ==> c.same_but(&self, 5) && (c.spec_auth() matches Some(a)
                && a.spec_user_name() == user_name && a.spec_password() == password@),
    {
        if self.auth.is_some() {
            return Err(ProtocolError::AuthAlreadySpecified);
        }
        Ok(ConfigBuilder { auth: Some(Auth::new(user_name, password)), ..self })
    }

    /// Set the client identifier; one of more than 64 bytes fails with
    /// `ProvidedClientIdTooLong`.
    pub fn client_id(self, id: &str) -> (r: Result<Self, ProtocolError>)
        ensures
            id.spec_bytes().len() > 64 <==> r is Err,
            r matches Err(e) ==> e == ProtocolError::ProvidedClientIdTooLong,
            r matches Ok(c) ==> c.same_but(&self, 1) && c.spec_client_id() == id.spec_bytes(),
    {
        match client_id_try_from(id) {
            Ok(client_id) => Ok(ConfigBuilder { client_id, ..self }),
            Err(()) => Err(ProtocolError::ProvidedClientIdTooLong),
        }
    }

    /// Set the keepalive interval advertised in `CONNECT`, in seconds.
    pub fn keepalive_interval(self, seconds: u16) -> (r: Self)
        ensures
            r.same_but(&self, 2),
            r.spec_keepalive_secs() == seconds,
    {
        ConfigBuilder { keepalive_secs: seconds as u64, ..self }
    }

    /// Set the session expiry interval, in seconds.
    pub fn session_expiry_interval(self, seconds: u32) -> (r: Self)
        ensures
            r.same_but(&self, 3),
            r.spec_session_expiry() == seconds,
    {
        ConfigBuilder { session_expiry_interval: seconds, ..self }
    }

    /// Lower outbound publish QoS to the broker's maximum; without this, a publish above it
    /// goes out as requested.
    pub fn autodowngrade_qos(self) -> (r: Self)
        ensures
            r.same_but(&self, 4),
            r.spec_downgrade_qos(),
    {
        ConfigBuilder { downgrade_qos: true, ..self }
    }

    /// The length of the inbound packet storage.
    pub fn rx_len(&self) -> (r: usize)
        ensures
            r == self.rx_view().len(),
    {
        self.buffers.rx().len()
    }

    /// The length of the outbound packet storage.
    pub fn tx_len(&self) -> (r: usize)
        ensures
            r == self.tx_view().len(),
    {
        self.buffers.tx().len()
    }

    /// Attach a will message; a second call fails with `WillAlreadySpecified`.
    pub fn will(self, will: Will<'a>) -> (r: Result<Self, ProtocolError>)
        ensures
            self.spec_will() is Some <==> r is Err,
            r matches Err(e) ==> e == ProtocolError::WillAlreadySpecified,
            r matches Ok(c) ==> c.same_but(&self, 0) && c.spec_will() == Some(will),
    {
        if self.will.is_some() {
            return Err(ProtocolError::WillAlreadySpecified);
        }
        Ok(ConfigBuilder { will: Some(will), ..self })
    }

    /// Take the configuration apart: the buffers, the will, the client identifier, the
    /// keepalive in seconds, the session expiry, the QoS downgrade and the credentials.
    pub fn into_parts(self) -> (r: (
        Buffers<'a>,
        Option<Will<'a>>,
        heapless::String<64>,
        u64,
        u32,
        bool,
        Option<Auth<'a>>,
    ))
        ensures
            r.0.rx_view() == self.rx_view(),
            r.0.tx_view() == self.tx_view(),
            r.1 == self.spec_will(),
            client_id_bytes(r.2) == self.spec_client_id(),
            r.3 == self.spec_keepalive_secs(),
            r.4 == self.spec_session_expiry(),
            r.5 == self.spec_downgrade_qos(),
            r.6 == self.spec_auth(),
    {
        (
            self.buffers,
            self.will,
            self.client_id,
            self.keepalive_secs,
            self.session_expiry_interval,
            self.downgrade_qos,
            self.auth,
        )
    }
}

} // verus!
