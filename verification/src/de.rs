//! MQTT packet deserializer.
//!
//! Integers are big-endian and fixed-width; strings and binary data carry a 16-bit length
//! prefix; variable byte integers use seven bits per byte with a continuation flag.
use crate::bits::{get_bits, spec_get_bits};
use crate::varint::group_weight;
use crate::wire::{spec_message_type_from, MessageType};
use crate::ProtocolError;
use varint_rs::VarintReader;
use vstd::string::StringSliceAdditionalSpecFns;
use vstd::prelude::*;

verus! {

/// Errors that result from the deserialization process.
#[derive(Debug, Copy, Clone, PartialEq, Eq, Structural)]
pub enum Error {
    /// A custom deserialization error occurred.
    Custom,
    /// An invalid string was encountered, where UTF-8 decoding failed.
    BadString,
    /// An invalid boolean was encountered, which did not use "0" or "1" to encode its value.
    BadBool,
    /// There was not sufficient data to deserialize the required datatype.
    InsufficientData,
}

/// Position just past the first byte at or after `i` whose continuation bit is clear.
pub open spec fn leb_end(s: Seq<u8>, i: nat) -> Option<nat>
    decreases s.len() - i,
{
    if i >= s.len() {
        None
    } else if s[i as int] < 128 {
        Some(i + 1)
    } else {
        leb_end(s, i + 1)
    }
}

pub proof fn lemma_leb_end_bound(s: Seq<u8>, i: nat)
    ensures
        leb_end(s, i) matches Some(n) ==> i < n <= s.len(),
    decreases s.len() - i,
{
    if i < s.len() && s[i as int] >= 128 {
        lemma_leb_end_bound(s, i + 1);
    }
}

/// Sum of the first `n` seven-bit groups of `s`, least significant group first.
pub open spec fn leb_sum(s: Seq<u8>, n: nat) -> nat
    decreases n,
{
    if n == 0 {
        0
    } else {
        leb_sum(s, (n - 1) as nat) + ((s[n - 1] % 128) as nat) * group_weight((n - 1) as nat)
    }
}

/// Whether reading a varint-rs `u32` from `s` would reach a sixth byte after five bytes with
/// the continuation bit set, where the crate's shift overflows.
pub open spec fn leb_overlong(s: Seq<u8>) -> bool {
    s.len() >= 6 && forall|k: int| 0 <= k < 5 ==> s[k] >= 128
}

/// `VarintReader::read_u32_varint` of the `varint_rs` crate, reading from a byte slice: the
/// groups up to the first byte without the continuation bit, least significant first, added
/// together and truncated to 32 bits, with the unread rest of the slice; an error when the
/// slice ends first.
#[verifier::external_body]
fn varint_rs_read_u32(bytes: &[u8]) -> (r: Result<(u32, &[u8]), ()>)
    requires
        !leb_overlong(bytes@),
    ensures
        match leb_end(bytes@, 0) {
            Some(n) => (r matches Ok((v, rest)) && v == leb_sum(bytes@, n) % 0x1_0000_0000
                && rest@ == bytes@.subrange(n as int, bytes@.len() as int)),
            None => r is Err,
        },
{
    let mut cursor: &[u8] = bytes;
    match cursor.read_u32_varint() {
        Ok(value) => Ok((value, cursor)),
        Err(_) => Err(()),
    }
}

/// Reads MQTT values from the front of a byte buffer.
pub struct MqttDeserializer<'a> {
    buf: &'a [u8],
    index: usize,
}

impl<'a> MqttDeserializer<'a> {
    #[verifier::type_invariant]
    spec fn inv(self) -> bool {
        self.index <= self.buf@.len()
    }

    /// The whole buffer.
    pub closed spec fn data(&self) -> Seq<u8> {
        self.buf@
    }

    /// Number of bytes already consumed.
    pub closed spec fn position(&self) -> nat {
        self.index as nat
    }

    /// The bytes not consumed yet.
    pub closed spec fn rest(&self) -> Seq<u8> {
        self.buf@.subrange(self.index as int, self.buf@.len() as int)
    }

    /// Construct a deserializer from a provided data buffer.
    pub fn new(buf: &'a [u8]) -> (r: Self)
        ensures
            r.data() == buf@,
            r.position() == 0,
            r.rest() == buf@,
    {
        let r = MqttDeserializer { buf, index: 0 };
        assert(r.rest() =~= buf@);
        r
    }

    /// Take the next `n` bytes, or fail without consuming anything when fewer are left.
    pub fn try_take_n(&mut self, n: usize) -> (r: Result<&'a [u8], Error>)
        ensures
            final(self).data() == old(self).data(),
            old(self).rest().len() < n ==> r == Err::<&'a [u8], Error>(Error::InsufficientData)
                && final(self).position() == old(self).position() && final(self).rest() == old(
                self,
            ).rest(),
            old(self).rest().len() >= n ==> (r matches Ok(d) && d@ == old(self).rest().subrange(
                0,
                n as int,
            ) && final(self).rest() == old(self).rest().subrange(
                n as int,
                old(self).rest().len() as int,
            ) && final(self).position() == old(self).position() + n),
    {
        proof {
            use_type_invariant(&*self);
        }
        if self.buf.len() - self.index < n {
            return Err(Error::InsufficientData);
        }
        let data = slice_range(self.buf, self.index, self.index + n);
        self.index = self.index + n;
        assert(data@ =~= old(self).rest().subrange(0, n as int));
        assert(self.rest() =~= old(self).rest().subrange(n as int, old(self).rest().len() as int));
        Ok(data)
    }

    /// Take the next byte.
    pub fn pop(&mut self) -> (r: Result<u8, Error>)
        ensures
            final(self).data() == old(self).data(),
            old(self).rest().len() == 0 ==> r == Err::<u8, Error>(Error::InsufficientData)
                && final(self).position() == old(self).position() && final(self).rest() == old(
                self,
            ).rest(),
            old(self).rest().len() > 0 ==> r == Ok::<u8, Error>(old(self).rest()[0])
                && final(self).rest() == old(self).rest().drop_first() && final(self).position()
                == old(self).position() + 1,
    {
        proof {
            use_type_invariant(&*self);
        }
        if self.len() == 0 {
            return Err(Error::InsufficientData);
        }
        let byte = self.buf[self.index];
        self.index = self.index + 1;
        assert(self.rest() =~= old(self).rest().drop_first());
        Ok(byte)
    }

    /// Read a big-endian 16-bit integer. With fewer than two bytes left it fails, having
    /// consumed what was there.
    pub fn read_u16(&mut self) -> (r: Result<u16, Error>)
        ensures
            final(self).data() == old(self).data(),
            old(self).rest().len() < 2 ==> r == Err::<u16, Error>(Error::InsufficientData)
                && final(self).rest().len() == 0,
            old(self).rest().len() >= 2 ==> r == Ok::<u16, Error>(
                (old(self).rest()[0] as u16 * 256 + old(self).rest()[1] as u16) as u16,
            ) && final(self).rest() == old(self).rest().subrange(
                2,
                old(self).rest().len() as int,
            ),
    {
        let hi = self.pop()?;
        let lo = self.pop()?;
        assert(self.rest() =~= old(self).rest().subrange(2, old(self).rest().len() as int));
        Ok((hi as u16) * 256 + lo as u16)
    }

    /// The number of bytes not consumed yet.
    pub fn len(&self) -> (r: usize)
        ensures
            r == self.rest().len(),
    {
        proof {
            use_type_invariant(self);
        }
        self.buf.len() - self.index
    }

    /// Read a variable-length integer as the `varint_rs` crate decodes it. When the buffer
    /// ends before the integer does, every remaining byte has been consumed.
    pub fn read_varint(&mut self) -> (r: Result<u32, Error>)
        requires
            !leb_overlong(old(self).rest()),
        ensures
            final(self).data() == old(self).data(),
            match leb_end(old(self).rest(), 0) {
                Some(n) => r == Ok::<u32, Error>((leb_sum(old(self).rest(), n) % 0x1_0000_0000) as u32)
                    && final(self).rest() == old(self).rest().subrange(
                    n as int,
                    old(self).rest().len() as int,
                ),
                None => r == Err::<u32, Error>(Error::InsufficientData) && final(self).rest().len()
                    == 0,
            },
    {
        proof {
            use_type_invariant(&*self);
        }
        let rest = slice_from(self.buf, self.index);
        proof {
            lemma_leb_end_bound(rest@, 0);
        }
        match varint_rs_read_u32(rest) {
            Ok((value, after)) => {
                self.index = self.buf.len() - after.len();
                assert(self.rest() =~= after@);
                Ok(value)
            },
            Err(()) => {
                self.index = self.buf.len();
                Err(Error::InsufficientData)
            },
        }
    }

    /// Every byte not consumed yet.
    pub fn remainder(&self) -> (r: &'a [u8])
        ensures
            r@ == self.rest(),
    {
        proof {
            use_type_invariant(self);
        }
        slice_from(self.buf, self.index)
    }
}

/// The bytes `start..end` of `s`.
pub fn slice_range<'b>(s: &'b [u8], start: usize, end: usize) -> (r: &'b [u8])
    requires
        start <= end <= s@.len(),
    ensures
        r@ == s@.subrange(start as int, end as int),
{
    let (front, _) = s.split_at(end);
    let (_, back) = front.split_at(start);
    assert(back@ =~= s@.subrange(start as int, end as int));
    back
}

/// The bytes of `s` from `start` on.
pub fn slice_from<'b>(s: &'b [u8], start: usize) -> (r: &'b [u8])
    requires
        start <= s@.len(),
    ensures
        r@ == s@.subrange(start as int, s@.len() as int),
{
    let (_, back) = s.split_at(start);
    back
}

} // verus!

verus! {

/// Whether `bytes` is well-formed UTF-8.
pub closed spec fn utf8_valid(bytes: Seq<u8>) -> bool {
    vstd::utf8::valid_utf8(bytes)
}

/// The bytes of any string are well-formed UTF-8.
pub proof fn lemma_str_utf8_valid(s: &str)
    ensures
        utf8_valid(s.spec_bytes()),
{
    vstd::utf8::encode_utf8_valid_utf8(s@);
}

/// `core::str::from_utf8`: the bytes viewed as a string when they are well-formed UTF-8.
#[verifier::external_body]
pub(crate) fn str_from_utf8<'b>(bytes: &'b [u8]) -> (r: Result<&'b str, ()>)
    ensures
        r is Ok <==> utf8_valid(bytes@),
        r matches Ok(s) ==> s.spec_bytes() == bytes@,
{
    match core::str::from_utf8(bytes) {
        Ok(s) => Ok(s),
        Err(_) => Err(()),
    }
}

/// The bytes of an ASCII string are its characters, one byte each.
pub proof fn lemma_ascii_bytes(s: &str)
    requires
        vstd::string::is_ascii(s),
    ensures
        s.spec_bytes() == Seq::new(s@.len(), |i: int| s@[i] as u8),
{
    broadcast use vstd::string::is_ascii_spec_bytes;

}

/// Whether `text` begins with the bytes of `prefix`.
pub open spec fn starts_with(text: Seq<u8>, prefix: Seq<u8>) -> bool {
    prefix.len() <= text.len() && text.subrange(0, prefix.len() as int) == prefix
}

/// `str::strip_prefix` with a string prefix: the rest of `text` after `prefix`, when `text`
/// begins with it.
#[verifier::external_body]
pub(crate) fn str_strip_prefix<'b>(text: &'b str, prefix: &str) -> (r: Option<&'b str>)
    ensures
        r is Some <==> starts_with(text.spec_bytes(), prefix.spec_bytes()),
        r matches Some(rest) ==> rest.spec_bytes() == text.spec_bytes().subrange(
            prefix.spec_bytes().len() as int,
            text.spec_bytes().len() as int,
        ),
{
    text.strip_prefix(prefix)
}

/// Big-endian value of the two bytes of `s` at `at`.
pub open spec fn be16_at(s: Seq<u8>, at: int) -> int {
    (s[at] as int) * 256 + (s[at + 1] as int)
}

/// Decoding of a fixed-header remaining length as the packet parser reads it: up to four
/// groups, least significant first, stopping at the first byte without the continuation bit.
/// Encodings that are not minimal are accepted.
pub open spec fn spec_vli_from(s: Seq<u8>, i: nat, acc: nat) -> Result<(nat, nat), ProtocolError>
    decreases 4 - i,
{
    if i >= 4 {
        Err(ProtocolError::MalformedInteger)
    } else if i >= s.len() {
        Err(ProtocolError::DataSize)
    } else {
        let value = acc + ((s[i as int] % 128) as nat) * group_weight(i);
        if s[i as int] < 128 {
            Ok((value, i + 1))
        } else {
            spec_vli_from(s, i + 1, value)
        }
    }
}

/// Where the canonical decoding succeeds, the reader's decoding gives the same value and
/// length.
proof fn lemma_decode_is_vli(s: Seq<u8>, i: nat, acc: nat)
    requires
        crate::varint::spec_decode_from(s, i, acc) is Ok,
    ensures
        spec_vli_from(s, i, acc) == Ok::<(nat, nat), ProtocolError>(
            crate::varint::spec_decode_from(s, i, acc)->Ok_0,
        ),
    decreases 4 - i,
{
    if i < 4 && i < s.len() && s[i as int] >= 128 {
        lemma_decode_is_vli(s, i + 1, acc + ((s[i as int] % 128) as nat) * group_weight(i));
    }
}

/// Reading a variable byte integer from bytes that start with the MQTT encoding of `v`, up to
/// `MQTT_VARINT_MAX`, gives back `v` and the length of its encoding, whatever follows.
pub proof fn law_vli_reads_encoding(v: nat, rest: Seq<u8>)
    requires
        v <= crate::varint::MQTT_VARINT_MAX,
    ensures
        spec_vli_from(crate::varint::spec_varint_encode(v) + rest, 0, 0) == Ok::<
            (nat, nat),
            ProtocolError,
        >((v, crate::varint::spec_varint_len(v))),
{
    crate::varint::lemma_varint_roundtrip(v, rest);
    lemma_decode_is_vli(crate::varint::spec_varint_encode(v) + rest, 0, 0);
}

/// Reads MQTT fields from the front of one received packet.
pub struct PacketParser<'a> {
    buffer: &'a [u8],
    index: usize,
}

impl<'a> PacketParser<'a> {
    #[verifier::type_invariant]
    spec fn inv(self) -> bool {
        self.index <= self.buffer@.len()
    }

    /// The whole packet.
    pub closed spec fn data(&self) -> Seq<u8> {
        self.buffer@
    }

    /// The bytes not read yet.
    pub closed spec fn rest(&self) -> Seq<u8> {
        self.buffer@.subrange(self.index as int, self.buffer@.len() as int)
    }

    /// Start reading `buffer` from its first byte.
    pub fn new(buffer: &'a [u8]) -> (r: Self)
        ensures
            r.data() == buffer@,
            r.rest() == buffer@,
    {
        let r = PacketParser { buffer, index: 0 };
        assert(r.rest() =~= buffer@);
        r
    }

    /// Every byte not read yet.
    pub fn payload(&self) -> (r: Result<&'a [u8], ProtocolError>)
        ensures
            r matches Ok(p) && p@ == self.rest(),
    {
        proof {
            use_type_invariant(self);
        }
        Ok(slice_from(self.buffer, self.index))
    }

    /// Fill `dest` with the next bytes, or fail with `DataSize`, reading nothing, when fewer
    /// are left.
    pub fn read(&mut self, dest: &mut [u8]) -> (r: Result<(), ProtocolError>)
        ensures
            final(self).data() == old(self).data(),
            old(self).rest().len() < old(dest)@.len() ==> r == Err::<(), ProtocolError>(
                ProtocolError::DataSize,
            ) && final(self).rest() == old(self).rest() && final(dest)@ == old(dest)@,
            old(self).rest().len() >= old(dest)@.len() ==> r is Ok && final(dest)@ == old(
                self,
            ).rest().subrange(0, old(dest)@.len() as int) && final(self).rest() == old(
                self,
            ).rest().subrange(old(dest)@.len() as int, old(self).rest().len() as int),
    {
        proof {
            use_type_invariant(&*self);
        }
        let n = dest.len();
        if n > self.buffer.len() - self.index {
            return Err(ProtocolError::DataSize);
        }
        let start = self.index;
        let src = self.buffer;
        let total = src.len();
        let mut i: usize = 0;
        while i < n
            invariant
                total == src@.len(),
                n == dest@.len(),
                start + n <= src@.len(),
                i <= n,
                forall|k: int| 0 <= k < i ==> dest@[k] == src@[start + k],
            decreases n - i,
        {
            dest[i] = src[start + i];
            i = i + 1;
        }
        self.index = self.index + n;
        assert(dest@ =~= old(self).rest().subrange(0, n as int));
        assert(self.rest() =~= old(self).rest().subrange(n as int, old(self).rest().len() as int));
        Ok(())
    }

    /// Borrow the next `count` bytes, or fail with `DataSize`, reading nothing.
    fn read_borrowed(&mut self, count: usize) -> (r: Result<&'a [u8], ProtocolError>)
        ensures
            final(self).data() == old(self).data(),
            old(self).rest().len() < count ==> r == Err::<&'a [u8], ProtocolError>(
                ProtocolError::DataSize,
            ) && final(self).rest() == old(self).rest(),
            old(self).rest().len() >= count ==> (r matches Ok(d) && d@ == old(self).rest().subrange(
                0,
                count as int,
            ) && final(self).rest() == old(self).rest().subrange(
                count as int,
                old(self).rest().len() as int,
            )),
    {
        proof {
            use_type_invariant(&*self);
        }
        if count > self.buffer.len() - self.index {
            return Err(ProtocolError::DataSize);
        }
        let d = slice_range(self.buffer, self.index, self.index + count);
        self.index = self.index + count;
        assert(d@ =~= old(self).rest().subrange(0, count as int));
        assert(self.rest() =~= old(self).rest().subrange(
            count as int,
            old(self).rest().len() as int,
        ));
        Ok(d)
    }

    /// The number of bytes not read yet.
    pub fn len(&self) -> (r: Result<usize, ProtocolError>)
        ensures
            r matches Ok(n) && n == self.rest().len(),
    {
        proof {
            use_type_invariant(self);
        }
        Ok(self.buffer.len() - self.index)
    }

    /// Read a remaining-length integer of at most four bytes.
    pub fn read_variable_length_integer(&mut self) -> (r: Result<usize, ProtocolError>)
        ensures
            final(self).data() == old(self).data(),
            match spec_vli_from(old(self).rest(), 0, 0) {
                Ok((v, n)) => r == Ok::<usize, ProtocolError>(v as usize) && final(self).rest()
                    == old(self).rest().subrange(n as int, old(self).rest().len() as int),
                Err(e) => r == Err::<usize, ProtocolError>(e),
            },
    {
        let ghost s = self.rest();
        let mut accumulator: usize = 0;
        let mut i: usize = 0;
        proof {
            lemma_vli_small(s, 0, 0);
        }
        while i < 4
            invariant
                i <= 4,
                s == old(self).rest(),
                self.data() == old(self).data(),
                i <= s.len(),
                self.rest() == s.subrange(i as int, s.len() as int),
                accumulator < group_weight(i as nat),
                spec_vli_from(s, 0, 0) == spec_vli_from(s, i as nat, accumulator as nat),
                forall|k: int| 0 <= k < i ==> s[k] >= 128,
            decreases 4 - i,
        {
            let mut byte = [0u8; 1];
            let got = self.read(&mut byte);
            if got.is_err() {
                return Err(ProtocolError::DataSize);
            }
            let b = byte[0];
            assert(b == s[i as int]);
            let part = (b & 0x7f) as usize;
            assert(b & 0x7f == b % 128) by (bit_vector);
            proof {
                lemma_group_weights_small(i as nat);
                lemma_vli_small(s, i as nat, accumulator as nat);
            }
            let ghost before = accumulator;
            let weight: usize = if i == 0 {
                1
            } else if i == 1 {
                128
            } else if i == 2 {
                16384
            } else {
                2097152
            };
            accumulator = accumulator + part * weight;
            assert(accumulator == before + ((s[i as int] % 128) as nat) * group_weight(i as nat));
            if (b & 0x80) == 0 {
                assert(b & 0x80 == 0 ==> b < 128) by (bit_vector);
                assert(spec_vli_from(s, i as nat, before as nat) == Ok::<(nat, nat), ProtocolError>((accumulator as nat, (i + 1) as nat)));
                assert(self.rest() =~= s.subrange(i + 1, s.len() as int));
                return Ok(accumulator);
            }
            assert(b & 0x80 != 0 ==> b >= 128) by (bit_vector);
            assert(self.rest() =~= s.subrange(i + 1, s.len() as int));
            i = i + 1;
        }
        Err(ProtocolError::MalformedInteger)
    }

    /// Read the fixed header: the packet type (when the high nibble names one), the flags
    /// nibble, and the remaining length.
    pub fn read_fixed_header(&mut self) -> (r: Result<(Option<MessageType>, u8, usize), ProtocolError>)
        ensures
            final(self).data() == old(self).data(),
            old(self).rest().len() == 0 ==> r == Err::<(Option<MessageType>, u8, usize), ProtocolError>(ProtocolError::DataSize),
            old(self).rest().len() > 0 ==> match spec_vli_from(old(self).rest().drop_first(), 0, 0) {
                Ok((v, n)) => r == Ok::<(Option<MessageType>, u8, usize), ProtocolError>((
                    spec_message_type_from(old(self).rest()[0] / 16),
                    old(self).rest()[0] % 16,
                    v as usize,
                )) && final(self).rest() == old(self).rest().subrange(
                    (n + 1) as int,
                    old(self).rest().len() as int,
                ),
                Err(e) => r == Err::<(Option<MessageType>, u8, usize), ProtocolError>(e),
            },
    {
        let header = self.read_u8()?;
        let ghost after = self.rest();
        let length = self.read_variable_length_integer()?;
        let kind = get_bits(header, 4, 8);
        let flags = get_bits(header, 0, 4);
        assert(spec_get_bits(header, 4, 8) == header / 16) by (bit_vector);
        assert(spec_get_bits(header, 0, 4) == header % 16) by (bit_vector);
        assert(after =~= old(self).rest().drop_first());
        proof {
            if let Ok((v, n)) = spec_vli_from(after, 0, 0) {
                lemma_vli_consumed(after, 0, 0);
                assert(after.subrange(n as int, after.len() as int) =~= old(self).rest().subrange(
                    (n + 1) as int,
                    old(self).rest().len() as int,
                ));
            }
        }
        Ok((MessageType::try_from_u8(kind), flags, length))
    }

    /// Read a length-prefixed UTF-8 string.
    pub fn read_utf8_string(&mut self) -> (r: Result<&'a str, ProtocolError>)
        ensures
            final(self).data() == old(self).data(),
            ({
                let s = old(self).rest();
                if s.len() < 2 {
                    r == Err::<&'a str, ProtocolError>(ProtocolError::DataSize)
                } else if s.len() < 2 + be16_at(s, 0) {
                    r == Err::<&'a str, ProtocolError>(ProtocolError::DataSize)
                } else if !utf8_valid(s.subrange(2, 2 + be16_at(s, 0))) {
                    r == Err::<&'a str, ProtocolError>(ProtocolError::MalformedPacket)
                } else {
                    r matches Ok(t) && t.spec_bytes() == s.subrange(2, 2 + be16_at(s, 0))
                        && final(self).rest() == s.subrange(2 + be16_at(s, 0), s.len() as int)
                }
            }),
    {
        let ghost s = self.rest();
        proof {
            use_type_invariant(&*self);
        }
        let length = self.read_u16()? as usize;
        proof {
            use_type_invariant(&*self);
        }
        if self.buffer.len() < length {
            return Err(ProtocolError::DataSize);
        }
        let bytes = self.read_borrowed(length)?;
        assert(bytes@ =~= s.subrange(2, 2 + be16_at(s, 0)));
        assert(self.rest() =~= s.subrange(2 + be16_at(s, 0), s.len() as int));
        match str_from_utf8(bytes) {
            Ok(t) => Ok(t),
            Err(()) => Err(ProtocolError::MalformedPacket),
        }
    }

    /// Read length-prefixed binary data.
    pub fn read_binary_data(&mut self) -> (r: Result<&'a [u8], ProtocolError>)
        ensures
            final(self).data() == old(self).data(),
            ({
                let s = old(self).rest();
                if s.len() < 2 || s.len() < 2 + be16_at(s, 0) {
                    r == Err::<&'a [u8], ProtocolError>(ProtocolError::DataSize)
                } else {
                    r matches Ok(t) && t@ == s.subrange(2, 2 + be16_at(s, 0)) && final(self).rest()
                        == s.subrange(2 + be16_at(s, 0), s.len() as int)
                }
            }),
    {
        let ghost s = self.rest();
        let length = self.read_u16()? as usize;
        let r = self.read_borrowed(length);
        assert(self.rest() =~= s.subrange(2 + be16_at(s, 0), s.len() as int) || r is Err);
        r
    }

    /// Read a big-endian 32-bit integer.
    pub fn read_u32(&mut self) -> (r: Result<u32, ProtocolError>)
        ensures
            final(self).data() == old(self).data(),
            old(self).rest().len() < 4 ==> r == Err::<u32, ProtocolError>(ProtocolError::DataSize)
                && final(self).rest() == old(self).rest(),
            old(self).rest().len() >= 4 ==> r == Ok::<u32, ProtocolError>(
                (((old(self).rest()[0] as nat) * 16777216 + (old(self).rest()[1] as nat) * 65536
                    + (old(self).rest()[2] as nat) * 256 + old(self).rest()[3] as nat) as u32),
            ) && final(self).rest() == old(self).rest().subrange(
                4,
                old(self).rest().len() as int,
            ),
    {
        let mut buffer: [u8; 4] = [0; 4];
        let ghost s = self.rest();
        let got = self.read(&mut buffer);
        if got.is_err() {
            return Err(ProtocolError::DataSize);
        }
        assert(buffer@ =~= s.subrange(0, 4));
        let v = (buffer[0] as u32) * 16777216 + (buffer[1] as u32) * 65536 + (buffer[2] as u32)
            * 256 + buffer[3] as u32;
        Ok(v)
    }

    /// Read a big-endian 16-bit integer.
    pub fn read_u16(&mut self) -> (r: Result<u16, ProtocolError>)
        ensures
            final(self).data() == old(self).data(),
            old(self).rest().len() < 2 ==> r == Err::<u16, ProtocolError>(ProtocolError::DataSize)
                && final(self).rest() == old(self).rest(),
            old(self).rest().len() >= 2 ==> r == Ok::<u16, ProtocolError>(
                be16_at(old(self).rest(), 0) as u16,
            ) && final(self).rest() == old(self).rest().subrange(
                2,
                old(self).rest().len() as int,
            ),
    {
        let mut buffer: [u8; 2] = [0; 2];
        let ghost s = self.rest();
        let got = self.read(&mut buffer);
        if got.is_err() {
            return Err(ProtocolError::DataSize);
        }
        assert(buffer@ =~= s.subrange(0, 2));
        Ok((buffer[0] as u16) * 256 + buffer[1] as u16)
    }

    /// Read one byte.
    pub fn read_u8(&mut self) -> (r: Result<u8, ProtocolError>)
        ensures
            final(self).data() == old(self).data(),
            old(self).rest().len() == 0 ==> r == Err::<u8, ProtocolError>(ProtocolError::DataSize)
                && final(self).rest() == old(self).rest(),
            old(self).rest().len() > 0 ==> r == Ok::<u8, ProtocolError>(old(self).rest()[0])
                && final(self).rest() == old(self).rest().drop_first(),
    {
        let mut byte: [u8; 1] = [0];
        let ghost s = self.rest();
        let got = self.read(&mut byte);
        if got.is_err() {
            return Err(ProtocolError::DataSize);
        }
        assert(s.subrange(1, s.len() as int) =~= s.drop_first());
        Ok(byte[0])
    }
}

proof fn lemma_vli_consumed(s: Seq<u8>, i: nat, acc: nat)
    requires
        i <= 4,
        acc < group_weight(i),
    ensures
        spec_vli_from(s, i, acc) matches Ok((v, n)) ==> i < n <= s.len() && n <= 4 && v
            < 268435456,
    decreases 4 - i,
{
    if i < 4 && i < s.len() {
        lemma_vli_small(s, i, acc);
        lemma_group_weights_small(i);
        if s[i as int] >= 128 {
            lemma_vli_consumed(s, i + 1, acc + ((s[i as int] % 128) as nat) * group_weight(i));
        } else {
            if i < 3 {
                lemma_group_weights_small(i + 1);
                lemma_group_weight_le(i + 1);
            }
        }
    }
}

/// A remaining-length integer takes one to four bytes and stays below 2^28.
pub proof fn lemma_vli_bounds(s: Seq<u8>)
    ensures
        spec_vli_from(s, 0, 0) matches Ok((v, n)) ==> 0 < n <= s.len() && n <= 4 && v < 268435456,
{
    lemma_group_weights_small(0);
    lemma_vli_consumed(s, 0, 0);
}

proof fn lemma_group_weight_le(i: nat)
    requires
        i <= 4,
    ensures
        group_weight(i) <= 268435456,
    decreases i,
{
    reveal_with_fuel(group_weight, 5);
}

proof fn lemma_group_weights_small(i: nat)
    requires
        i < 4,
    ensures
        i == 0 ==> group_weight(i) == 1,
        i == 1 ==> group_weight(i) == 128,
        i == 2 ==> group_weight(i) == 16384,
        i == 3 ==> group_weight(i) == 2097152,
        group_weight(i + 1) == 128 * group_weight(i),
{
    reveal_with_fuel(group_weight, 5);
}

proof fn lemma_vli_small(s: Seq<u8>, i: nat, acc: nat)
    requires
        i < 4,
        acc < group_weight(i),
    ensures
        i < s.len() ==> acc + ((s[i as int] % 128) as nat) * group_weight(i) < group_weight(i + 1),
{
    lemma_group_weights_small(i);
    if i < s.len() {
        let part = (s[i as int] % 128) as nat;
        assert(part * group_weight(i) <= 127 * group_weight(i)) by (nonlinear_arith)
            requires
                part <= 127,
        ;
    }
}

} // verus!

verus! {

/// What the bytes received so far say of the packet's total length: `Ok(Some(n))` once the
/// remaining-length integer is complete, `Ok(None)` while it is still incomplete, and an
/// error when it runs past four bytes.
pub open spec fn spec_probe(received: Seq<u8>) -> Result<Option<nat>, ProtocolError> {
    if received.len() <= 1 {
        Ok(None)
    } else {
        match spec_vli_from(received.subrange(1, received.len() as int), 0, 0) {
            Ok((v, n)) => Ok(Some(1 + n + v)),
            Err(ProtocolError::MalformedInteger) => Err(ProtocolError::MalformedPacket),
            Err(_) => Ok(None),
        }
    }
}

/// Reading the remaining length does not look past where it ends: bytes added after a
/// complete (or overlong) length change nothing.
proof fn lemma_vli_extend(s: Seq<u8>, t: Seq<u8>, i: nat, acc: nat)
    requires
        s.len() <= t.len(),
        t.subrange(0, s.len() as int) == s,
        !(spec_vli_from(s, i, acc) matches Err(ProtocolError::DataSize)),
    ensures
        spec_vli_from(t, i, acc) == spec_vli_from(s, i, acc),
    decreases 4 - i,
{
    if i < 4 && i < s.len() {
        assert(t[i as int] == t.subrange(0, s.len() as int)[i as int]);
        if s[i as int] >= 128 {
            lemma_vli_extend(s, t, i + 1, acc + ((s[i as int] % 128) as nat) * group_weight(i));
        }
    }
}

/// Once the received bytes give the packet length, more bytes give the same length.
pub proof fn lemma_probe_extend(p: Seq<u8>, q: Seq<u8>)
    requires
        p.len() <= q.len(),
        q.subrange(0, p.len() as int) == p,
        spec_probe(p) matches Ok(Some(_)),
    ensures
        spec_probe(q) == spec_probe(p),
{
    let ps = p.subrange(1, p.len() as int);
    let qs = q.subrange(1, q.len() as int);
    assert(qs.subrange(0, ps.len() as int) =~= ps) by {
        assert forall|k: int| 0 <= k < ps.len() implies qs[k] == ps[k] by {
            assert(q.subrange(0, p.len() as int)[k + 1] == q[k + 1]);
        }
    }
    lemma_vli_extend(ps, qs, 0, 0);
}

/// Whether `receive_buffer` hands out a window: with the packet length known, unless more
/// than the packet was received; otherwise unless the received bytes give a bad header, a
/// packet longer than the storage or shorter than what was received, or fill the storage
/// without giving the length.
pub open spec fn spec_receive_ok(packet_len: Option<nat>, seen: Seq<u8>, capacity: nat) -> bool {
    match packet_len {
        Some(n) => n >= seen.len(),
        None => match spec_probe(seen) {
            Ok(Some(n)) => n <= capacity && n >= seen.len(),
            Ok(None) => seen.len() < capacity,
            Err(_) => false,
        },
    }
}

/// Assembles one inbound packet from bytes that arrive in pieces.
pub struct PacketReader<'a> {
    buffer: &'a mut [u8],
    read_bytes: usize,
    packet_length: Option<usize>,
}

impl<'a> PacketReader<'a> {
    /// Size of the storage.
    pub closed spec fn capacity(&self) -> nat {
        (*self.buffer)@.len()
    }

    /// The storage.
    pub closed spec fn storage(&self) -> Seq<u8> {
        (*self.buffer)@
    }

    /// The storage reference itself, through which what the reader leaves behind is seen.
    pub closed spec fn buffer(&self) -> &'a mut [u8] {
        self.buffer
    }

    /// Number of bytes received so far.
    pub closed spec fn received(&self) -> nat {
        self.read_bytes as nat
    }

    /// The packet's total length, once the fixed header has been seen.
    pub closed spec fn packet_len(&self) -> Option<nat> {
        match self.packet_length {
            Some(n) => Some(n as nat),
            None => None,
        }
    }

    /// The reader's invariant: what was received fits in the storage, and so does a packet
    /// whose length is known.
    pub closed spec fn wf(&self) -> bool {
        &&& (*self.buffer)@.len() <= usize::MAX
        &&& self.read_bytes <= (*self.buffer)@.len()
        &&& self.packet_length matches Some(n) ==> n <= (*self.buffer)@.len()
    }

    /// End of the window that the next `receive_buffer` hands out.
    pub closed spec fn window_end(&self) -> nat {
        match self.packet_length {
            Some(n) => n as nat,
            None => (self.read_bytes + 1) as nat,
        }
    }

    /// An empty reader over `buffer`.
    pub fn new(buffer: &'a mut [u8]) -> (r: Self)
        ensures
            r.wf(),
            r.capacity() == old(buffer)@.len(),
            r.capacity() == r.storage().len(),
            r.storage() == old(buffer)@,
            r.received() == 0,
            r.packet_len() is None,
            final(r.buffer())@ == final(buffer)@,
    {
        let _ = buffer.len();
        PacketReader { buffer, read_bytes: 0, packet_length: None }
    }

    /// Work out the packet length from the bytes received so far, unless already known.
    fn probe_fixed_header(&mut self) -> (r: Result<(), ProtocolError>)
        requires
            old(self).wf(),
            old(self).packet_len() is None,
        ensures
            final(final(self).buffer())@ == final(old(self).buffer())@,
            final(self).wf(),
            final(self).storage() == old(self).storage(),
            final(self).received() == old(self).received(),
            ({
                let seen = old(self).storage().subrange(0, old(self).received() as int);
                match spec_probe(seen) {
                    Ok(Some(n)) => if n <= old(self).capacity() {
                        r is Ok && final(self).packet_len() == Some(n)
                    } else {
                        r == Err::<(), ProtocolError>(ProtocolError::BufferSize)
                            && final(self).packet_len() is None
                    },
                    Ok(None) => r is Ok && final(self).packet_len() is None,
                    Err(e) => r == Err::<(), ProtocolError>(e) && final(self).packet_len() is None,
                }
            }),
    {
        let ghost seen = self.storage().subrange(0, self.read_bytes as int);
        if self.read_bytes <= 1 {
            return Ok(());
        }
        let header = slice_range(self.buffer, 1, self.read_bytes);
        assert(header@ =~= seen.subrange(1, seen.len() as int));
        let mut parser = PacketParser::new(header);
        match parser.read_variable_length_integer() {
            Ok(value) => {
                let remaining = parser.len();
                proof {
                    lemma_vli_consumed(header@, 0, 0);
                }
                let consumed = match remaining {
                    Ok(rest) => header.len() - rest,
                    Err(_) => 0,
                };
                let total = 1 + consumed;
                if value > self.buffer.len() || total > self.buffer.len() - value {
                    return Err(ProtocolError::BufferSize);
                }
                self.packet_length = Some(total + value);
                Ok(())
            },
            Err(ProtocolError::MalformedInteger) => Err(ProtocolError::MalformedPacket),
            Err(_) => Ok(()),
        }
    }

    /// The part of the storage that the next bytes go to: the rest of the packet once its
    /// length is known, else the single next byte.
    pub fn receive_buffer(&mut self) -> (r: Result<&mut [u8], ProtocolError>)
        requires
            old(self).wf(),
        ensures
            final(final(self).buffer())@ == final(old(self).buffer())@,
            final(self).capacity() == final(self).storage().len(),
            final(self).received() == old(self).received(),
            r matches Ok(w) ==> w@.len() + old(self).received() == match final(self).packet_len() {
                Some(n) => n,
                None => old(self).received() + 1,
            },
            r is Ok <==> spec_receive_ok(
                old(self).packet_len(),
                old(self).storage().subrange(0, old(self).received() as int),
                old(self).capacity(),
            ),
            old(self).packet_len() is Some ==> final(self).packet_len() == old(self).packet_len(),
            ({
                let seen = old(self).storage().subrange(0, old(self).received() as int);
                old(self).packet_len() is None ==> match spec_probe(seen) {
                    Ok(Some(n)) => n <= old(self).capacity() && final(self).packet_len() == Some(n)
                        || n > old(self).capacity() && r == Err::<&mut [u8], ProtocolError>(
                        ProtocolError::BufferSize,
                    ),
                    Ok(None) => final(self).packet_len() is None,
                    Err(e) => r == Err::<&mut [u8], ProtocolError>(e),
                }
            }),
            r is Ok ==> final(self).window_end() <= old(self).capacity() && final(self).received()
                <= final(self).window_end(),
            r matches Ok(w) ==> w@ == old(self).storage().subrange(
                old(self).received() as int,
                final(self).window_end() as int,
            ) && (final(w)@.len() == w@.len() ==> final(self).storage() == old(
                self,
            ).storage().subrange(0, old(self).received() as int) + final(w)@ + old(
                self,
            ).storage().subrange(final(self).window_end() as int, old(self).capacity() as int)
                && final(self).wf() && final(self).capacity() == old(self).capacity()),
            r is Err ==> final(self).storage() == old(self).storage() && final(self).wf()
                && final(self).capacity() == old(self).capacity(),
            old(self).packet_len() matches Some(n) ==> (n < old(self).received() <==> r
                == Err::<&mut [u8], ProtocolError>(ProtocolError::MalformedPacket)),
            old(self).packet_len() is None && old(self).received() == old(self).capacity() && !(
            spec_probe(old(self).storage().subrange(0, old(self).received() as int)) is Err) && (
            spec_probe(old(self).storage().subrange(0, old(self).received() as int)) is Ok ==> 
            spec_probe(old(self).storage().subrange(0, old(self).received() as int))->Ok_0 is None)
                ==> r == Err::<&mut [u8], ProtocolError>(ProtocolError::BufferSize),
    {
        if self.packet_length.is_none() {
            self.probe_fixed_header()?;
        }
        let end = match self.packet_length {
            Some(n) => n,
            None => {
                if self.read_bytes >= self.buffer.len() {
                    return Err(ProtocolError::BufferSize);
                }
                self.read_bytes + 1
            },
        };
        if end < self.read_bytes {
            return Err(ProtocolError::MalformedPacket);
        }
        let ghost before = (*self.buffer)@;
        let start = self.read_bytes;
        let (front, back) = self.buffer.split_at_mut(start);
        let (window, rest) = back.split_at_mut(end - start);
        assert(front@ =~= before.subrange(0, start as int));
        assert(rest@ =~= before.subrange(end as int, before.len() as int));
        assert(window@ =~= before.subrange(start as int, end as int));
        Ok(window)
    }

    /// Record that `count` more bytes were written into the window.
    pub fn commit(&mut self, count: usize)
        requires
            old(self).wf(),
            old(self).received() + count <= old(self).window_end(),
            old(self).window_end() <= old(self).capacity(),
        ensures
            final(self).wf(),
            final(self).received() == old(self).received() + count,
            final(self).capacity() == old(self).capacity(),
            final(self).packet_len() == old(self).packet_len(),
            final(self).storage() == old(self).storage(),
            final(final(self).buffer())@ == final(old(self).buffer())@,
    {
        self.read_bytes = self.read_bytes + count;
    }

    /// Once the packet's length is known, the window that `receive_buffer` hands out ends
    /// where the packet ends: it is exactly the part of the packet not received yet.
    pub proof fn law_window_is_missing_part(&self)
        requires
            self.wf(),
            self.packet_len() is Some,
            self.received() <= self.packet_len()->0,
        ensures
            self.window_end() == self.packet_len()->0,
            self.window_end() - self.received() == self.packet_len()->0 - self.received(),
    {
    }

    /// Committing every byte of that window completes the packet: a reader that received
    /// the window's length more, with the same packet length, has a packet available.
    pub proof fn law_full_window_completes(before: &Self, after: &Self)
        requires
            before.wf(),
            before.packet_len() is Some,
            before.received() <= before.window_end(),
            after.packet_len() == before.packet_len(),
            after.received() == before.received() + (before.window_end() - before.received()),
        ensures
            after.packet_len() matches Some(n) && after.received() >= n,
    {
    }

    /// The packet that `received_packet` hands out after a whole window was filled: when the
    /// window from what was received up to the packet's end was filled with `filled` and
    /// committed, the first packet-length bytes of the storage are what was received before
    /// followed by `filled`, and a packet is available.
    pub proof fn law_filled_window_is_packet(before: &Self, after: &Self, filled: Seq<u8>)
        requires
            before.wf(),
            before.packet_len() is Some,
            before.received() <= before.packet_len()->0,
            filled.len() == before.packet_len()->0 - before.received(),
            after.storage() == before.storage().subrange(0, before.received() as int) + filled
                + before.storage().subrange(before.window_end() as int, before.capacity() as int),
            after.packet_len() == before.packet_len(),
            after.received() == before.received() + filled.len(),
        ensures
            after.packet_len() matches Some(n) && after.received() >= n && after.storage().subrange(
                0,
                n as int,
            ) == before.storage().subrange(0, before.received() as int) + filled,
    {
        let n = before.packet_len()->0;
        assert(after.storage().subrange(0, n as int) =~= before.storage().subrange(
            0,
            before.received() as int,
        ) + filled);
    }

    /// Hand the storage back: it keeps what was received into it.
    pub fn release(self)
        ensures
            final(self.buffer())@ == self.storage(),
    {
        let whole: &'a [u8] = self.buffer;
        let _ = whole;
    }

    /// Whether a whole packet has been received.
    pub fn packet_available(&self) -> (r: bool)
        ensures
            r == (self.packet_len() matches Some(n) && self.received() >= n),
    {
        match self.packet_length {
            Some(length) => self.read_bytes >= length,
            None => false,
        }
    }

    /// Forget what was received and start on the next packet.
    pub fn reset(&mut self)
        requires
            old(self).wf(),
        ensures
            final(self).wf(),
            final(self).received() == 0,
            final(self).packet_len() is None,
            final(self).storage() == old(self).storage(),
            final(self).capacity() == old(self).capacity(),
            final(self).capacity() == final(self).storage().len(),
            final(final(self).buffer())@ == final(old(self).buffer())@,
    {
        self.read_bytes = 0;
        self.packet_length = None;
    }

    /// A parser over the packet, once its length is known.
    pub fn received_packet(&self) -> (r: Result<PacketParser<'_>, ProtocolError>)
        requires
            self.wf(),
        ensures
            self.packet_len() is None ==> r == Err::<PacketParser<'_>, ProtocolError>(
                ProtocolError::PacketSize,
            ),
            self.packet_len() matches Some(n) ==> (r matches Ok(p) && p.data()
                == self.storage().subrange(0, n as int) && p.rest() == p.data()),
    {
        match self.packet_length {
            Some(n) => {
                let whole: &[u8] = self.buffer;
                Ok(PacketParser::new(slice_range(whole, 0, n)))
            },
            None => Err(ProtocolError::PacketSize),
        }
    }
}

} // verus!
