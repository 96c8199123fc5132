//! A minimal MQTT v5 client: packets are built back to front in a fixed-size frame, parsed
//! front to back, and a small state machine drives connect, subscribe and publish.
use crate::de::{spec_vli_from, PacketParser};
use crate::ProtocolError;
use vstd::math::min;
use crate::properties::{
    property_data, spec_property_data, Data, CORRELATION_DATA, RESPONSE_TOPIC,
    SUBSCRIPTION_IDENTIFIER,
};
use crate::ser::{be16, be32};
use crate::varint::{spec_varint_encode, spec_varint_len};
use vstd::prelude::*;

verus! {

/// Size of the frame that every packet lives in.
pub const PACKET_MAX: usize = 9000;

/// A packet under construction or being read: the bytes `start..end` of a fixed-size frame.
pub struct Packet {
    data: Vec<u8>,
    start: usize,
    end: usize,
}

/// A length-prefixed field as `write_binary_data` writes it: the length modulo 2^16, then the
/// bytes.
pub open spec fn spec_binary(b: Seq<u8>) -> Seq<u8> {
    be16(b.len() % 65536) + b
}

impl Packet {
    /// The packet's bytes.
    pub closed spec fn view(&self) -> Seq<u8> {
        self.data@.subrange(self.start as int, self.end as int)
    }

    /// Room left in front of the packet.
    pub closed spec fn room(&self) -> nat {
        self.start as nat
    }

    /// End of the packet within the frame.
    pub closed spec fn end_pos(&self) -> nat {
        self.end as nat
    }

    /// The packet lies inside its frame.
    pub closed spec fn wf(&self) -> bool {
        &&& self.data@.len() == PACKET_MAX
        &&& self.start <= self.end <= PACKET_MAX
    }

    /// A zeroed frame holding the bytes `start..end`.
    pub fn new(start: usize, end: usize) -> (r: Packet)
        requires
            start <= end <= PACKET_MAX,
        ensures
            r.wf(),
            r.room() == start,
            r.end_pos() == end,
            r@ == Seq::new((end - start) as nat, |i: int| 0u8),
    {
        let data = vec![0u8; PACKET_MAX];
        let r = Packet { data, start, end };
        assert(r@ =~= Seq::new((end - start) as nat, |i: int| 0u8));
        r
    }

    /// Grow the packet by `n` bytes at its front; the new bytes are whatever the frame held.
    pub fn push(&mut self, n: usize)
        requires
            old(self).wf(),
            old(self).room() >= n,
        ensures
            final(self).wf(),
            final(self).room() == old(self).room() - n,
            final(self).end_pos() == old(self).end_pos(),
            final(self)@.len() == old(self)@.len() + n,
            final(self)@.subrange(n as int, final(self)@.len() as int) == old(self)@,
    {
        self.start = self.start - n;
        assert(self@.subrange(n as int, self@.len() as int) =~= old(self)@);
    }

    /// Take `n` bytes off the front of the packet.
    pub fn pop(&mut self, n: usize) -> (r: &[u8])
        requires
            old(self).wf(),
            n <= old(self)@.len(),
        ensures
            final(self).wf(),
            r@ == old(self)@.subrange(0, n as int),
            final(self)@ == old(self)@.subrange(n as int, old(self)@.len() as int),
            final(self).room() == old(self).room() + n,
            final(self).end_pos() == old(self).end_pos(),
    {
        let prev = self.start;
        self.start = self.start + n;
        let r = crate::de::slice_range(self.data.as_slice(), prev, self.start);
        assert(self@ =~= old(self)@.subrange(n as int, old(self)@.len() as int));
        r
    }

    /// Keep the first `n` bytes of the packet, or extend it to `n` bytes with what the frame
    /// holds.
    pub fn truncate(&mut self, n: usize)
        requires
            old(self).wf(),
            old(self).room() + n <= PACKET_MAX,
        ensures
            final(self).wf(),
            final(self)@.len() == n,
            final(self).room() == old(self).room(),
            n <= old(self)@.len() ==> final(self)@ == old(self)@.subrange(0, n as int),
            final(self).end_pos() == old(self).room() + n,
    {
        self.end = self.start + n;
        assert(n <= old(self)@.len() ==> self@ =~= old(self)@.subrange(0, n as int));
    }

    /// The packet's bytes, for writing in place.
    pub fn buf(&mut self) -> (r: &mut [u8])
        requires
            old(self).wf(),
        ensures
            r@ == old(self)@,
            final(r)@.len() == r@.len() ==> final(self).wf() && final(self)@ == final(r)@
                && final(self).room() == old(self).room() && final(self).end_pos() == old(self).end_pos(),
    {
        let start = self.start;
        let end = self.end;
        let whole = self.data.as_mut_slice();
        let ghost frame = whole@;
        let (front, back) = whole.split_at_mut(start);
        let (mid, rest) = back.split_at_mut(end - start);
        assert(mid@ =~= frame.subrange(start as int, end as int));
        assert(front@ =~= frame.subrange(0, start as int));
        assert(rest@ =~= frame.subrange(end as int, frame.len() as int));
        mid
    }

    /// The packet's bytes, for reading.
    fn bytes(&self) -> (r: &[u8])
        requires
            self.wf(),
        ensures
            r@ == self@,
    {
        crate::de::slice_range(self.data.as_slice(), self.start, self.end)
    }

    /// The packet's length.
    pub fn len(&self) -> (r: usize)
        requires
            self.wf(),
        ensures
            r == self@.len(),
    {
        self.end - self.start
    }

    /// The packet type: the high nibble of the first byte.
    pub fn typ(&mut self) -> (r: u8)
        requires
            old(self).wf(),
            old(self)@.len() > 0,
        ensures
            *final(self) == *old(self),
            r == old(self)@[0] / 16,
    {
        let b = self.bytes()[0];
        assert((b >> 4) & 0x0F == b / 16) by (bit_vector);
        (b >> 4) & 0x0F
    }

    /// Overwrite the packet's bytes from offset `at` on with `bytes`.
    fn copy_in(&mut self, at: usize, bytes: &[u8])
        requires
            old(self).wf(),
            at + bytes@.len() <= old(self)@.len(),
        ensures
            final(self).wf(),
            final(self).room() == old(self).room(),
            final(self).end_pos() == old(self).end_pos(),
            final(self)@ == old(self)@.subrange(0, at as int) + bytes@ + old(self)@.subrange(
                at + bytes@.len(),
                old(self)@.len() as int,
            ),
    {
        let n = bytes.len();
        let base = self.start + at;
        let mut i: usize = 0;
        while i < n
            invariant
                n == bytes@.len(),
                base == self.start + at,
                base + n <= self.end,
                self.start <= self.end <= PACKET_MAX,
                self.data@.len() == PACKET_MAX,
                self.start == old(self).start,
                self.end == old(self).end,
                i <= n,
                forall|k: int| 0 <= k < i ==> self.data@[base + k] == bytes@[k],
                forall|k: int|
                    0 <= k < PACKET_MAX && !(base <= k < base + i) ==> self.data@[k] == old(self).data@[k],
            decreases n - i,
        {
            self.data.set(base + i, bytes[i]);
            i = i + 1;
        }
        assert(self@ =~= old(self)@.subrange(0, at as int) + bytes@ + old(self)@.subrange(
            at + bytes@.len(),
            old(self)@.len() as int,
        ));
    }

    /// Put `bytes` in front of the packet.
    fn prepend(&mut self, bytes: &[u8])
        requires
            old(self).wf(),
            old(self).room() >= bytes@.len(),
        ensures
            final(self).wf(),
            final(self)@ == bytes@ + old(self)@,
            final(self).room() == old(self).room() - bytes@.len(),
            final(self).end_pos() == old(self).end_pos(),
    {
        let n = bytes.len();
        let start = self.start - n;
        let mut i: usize = 0;
        while i < n
            invariant
                n == bytes@.len(),
                start + n == self.start,
                self.start <= self.end <= PACKET_MAX,
                self.data@.len() == PACKET_MAX,
                self.end == old(self).end,
                self.start == old(self).start,
                i <= n,
                forall|k: int| 0 <= k < i ==> self.data@[start + k] == bytes@[k],
                forall|k: int|
                    self.start <= k < PACKET_MAX ==> self.data@[k] == old(self).data@[k],
            decreases n - i,
        {
            self.data.set(start + i, bytes[i]);
            i = i + 1;
        }
        self.start = start;
        assert(self@ =~= bytes@ + old(self)@);
    }
}

/// Put one byte in front of `dst`.
pub fn write_byte(b: u8, dst: &mut Packet)
    requires
        old(dst).wf(),
        old(dst).room() >= 1,
    ensures
        final(dst).wf(),
        final(dst)@ == seq![b] + old(dst)@,
        final(dst).room() == old(dst).room() - 1,
        final(dst).end_pos() == old(dst).end_pos(),
{
    let one: [u8; 1] = [b];
    assert(one@ =~= seq![b]);
    dst.prepend(&one);
}

/// Put a big-endian 16-bit integer in front of `dst`.
pub fn write_two_byte_integer(n: u16, dst: &mut Packet)
    requires
        old(dst).wf(),
        old(dst).room() >= 2,
    ensures
        final(dst).wf(),
        final(dst)@ == be16(n as nat) + old(dst)@,
        final(dst).room() == old(dst).room() - 2,
        final(dst).end_pos() == old(dst).end_pos(),
{
    let two: [u8; 2] = [(n / 256) as u8, (n % 256) as u8];
    assert(two@ =~= be16(n as nat));
    dst.prepend(&two);
}

/// Put a big-endian four-byte integer in front of `dst`; reading four bytes back as
/// `read_four_byte_integer` does gives `n`.
pub fn write_four_byte_integer(n: u32, dst: &mut Packet)
    requires
        old(dst).wf(),
        old(dst).room() >= 4,
    ensures
        final(dst).wf(),
        final(dst)@ == be32(n as nat) + old(dst)@,
        final(dst).room() == old(dst).room() - 4,
        final(dst).end_pos() == old(dst).end_pos(),
        final(dst)@[0] as int * 0x100_0000 + final(dst)@[1] as int * 0x1_0000 + final(dst)@[2] as int
            * 0x100 + final(dst)@[3] as int == n,
{
    let b0 = ((n >> 24) & 0xFF) as u8;
    let b1 = ((n >> 16) & 0xFF) as u8;
    let b2 = ((n >> 8) & 0xFF) as u8;
    let b3 = (n & 0xFF) as u8;
    assert(((n >> 24) & 0xFF) * 0x100_0000 + ((n >> 16) & 0xFF) * 0x1_0000 + ((n >> 8) & 0xFF)
        * 0x100 + (n & 0xFF) == n) by (bit_vector);
    assert((n >> 24) & 0xFF == (n / 0x100_0000) % 256) by (bit_vector);
    assert((n >> 16) & 0xFF == (n / 0x1_0000) % 256) by (bit_vector);
    assert((n >> 8) & 0xFF == (n / 0x100) % 256) by (bit_vector);
    assert(n & 0xFF == n % 256) by (bit_vector);
    let four: [u8; 4] = [b0, b1, b2, b3];
    assert(four@ =~= be32(n as nat));
    dst.prepend(&four);
}

/// Put a length-prefixed string in front of `dst`.
pub fn write_utf8_encoded_string(s: &[u8], dst: &mut Packet)
    requires
        old(dst).wf(),
        old(dst).room() >= s@.len() + 2,
    ensures
        final(dst).wf(),
        final(dst)@ == spec_binary(s@) + old(dst)@,
        final(dst).room() == old(dst).room() - s@.len() - 2,
        final(dst).end_pos() == old(dst).end_pos(),
{
    write_binary_data(s, dst);
}

/// Put a variable byte integer in front of `dst`.
pub fn write_variable_byte_integer(n: usize, dst: &mut Packet)
    requires
        old(dst).wf(),
        n <= 0x0FFF_FFFF,
        old(dst).room() >= spec_varint_len(n as nat),
    ensures
        final(dst).wf(),
        final(dst)@ == spec_varint_encode(n as nat) + old(dst)@,
        final(dst).room() == old(dst).room() - spec_varint_len(n as nat),
        final(dst).end_pos() == old(dst).end_pos(),
{
    let v = n as u32;
    proof {
        crate::varint::lemma_encode_len(n as nat);
        reveal_with_fuel(spec_varint_encode, 5);
        reveal_with_fuel(spec_varint_len, 5);
    }
    if v >= 0x20_0000 {
        write_byte(((v / 0x20_0000) % 128) as u8, dst);
        write_byte(((v / 0x4000) % 128 + 128) as u8, dst);
        write_byte(((v / 0x80) % 128 + 128) as u8, dst);
        write_byte((v % 128 + 128) as u8, dst);
    } else if v >= 0x4000 {
        write_byte(((v / 0x4000) % 128) as u8, dst);
        write_byte(((v / 0x80) % 128 + 128) as u8, dst);
        write_byte((v % 128 + 128) as u8, dst);
    } else if v >= 0x80 {
        write_byte(((v / 0x80) % 128) as u8, dst);
        write_byte((v % 128 + 128) as u8, dst);
    } else {
        write_byte(v as u8, dst);
    }
    assert(dst@ =~= spec_varint_encode(n as nat) + old(dst)@);
}

/// Put a length-prefixed block in front of `dst`; the length is taken modulo 2^16.
pub fn write_binary_data(b: &[u8], dst: &mut Packet)
    requires
        old(dst).wf(),
        old(dst).room() >= b@.len() + 2,
    ensures
        final(dst).wf(),
        final(dst)@ == spec_binary(b@) + old(dst)@,
        final(dst).room() == old(dst).room() - b@.len() - 2,
        final(dst).end_pos() == old(dst).end_pos(),
{
    dst.prepend(b);
    let len = (b.len() % 65536) as u16;
    write_two_byte_integer(len, dst);
    assert(dst@ =~= spec_binary(b@) + old(dst)@);
}

/// The fixed-header byte of a packet type and its flags.
pub open spec fn spec_type_flags(typ: u8, flags: u8) -> u8 {
    ((typ % 16) * 16 + flags % 16) as u8
}

/// Put the fixed header in front of `dst`: the type and flags byte, then the current length.
pub fn write_fixed_header(typ: u8, flags: u8, dst: &mut Packet)
    requires
        old(dst).wf(),
        old(dst).room() >= spec_varint_len(old(dst)@.len()) + 1,
    ensures
        final(dst).wf(),
        final(dst)@ == seq![spec_type_flags(typ, flags)] + spec_varint_encode(old(dst)@.len())
            + old(dst)@,
        final(dst).room() == old(dst).room() - spec_varint_len(old(dst)@.len()) - 1,
        final(dst).end_pos() == old(dst).end_pos(),
{
    let len = dst.len();
    write_variable_byte_integer(len, dst);
    let b = ((typ << 4) & 0xF0) | (flags & 0x0F);
    assert(((typ << 4) & 0xF0) | (flags & 0x0F) == ((typ % 16) * 16 + flags % 16) as u8)
        by (bit_vector);
    write_byte(b, dst);
    assert(dst@ =~= seq![spec_type_flags(typ, flags)] + spec_varint_encode(old(dst)@.len())
        + old(dst)@);
}

/// Take one byte off the front of `src`.
pub fn read_byte(src: &mut Packet) -> (r: Result<u8, ()>)
    requires
        old(src).wf(),
    ensures
        final(src).wf(),
        final(src).end_pos() == old(src).end_pos(),
        old(src)@.len() < 1 ==> r is Err && final(src)@ == old(src)@,
        old(src)@.len() >= 1 ==> r == Ok::<u8, ()>(old(src)@[0]) && final(src)@ == old(src)@.drop_first(),
{
    if src.len() < 1 {
        return Err(());
    }
    let b = src.pop(1)[0];
    assert(old(src)@.subrange(1, old(src)@.len() as int) =~= old(src)@.drop_first());
    Ok(b)
}

/// Take a big-endian 16-bit integer off the front of `src`.
pub fn read_two_byte_integer(src: &mut Packet) -> (r: Result<u16, ()>)
    requires
        old(src).wf(),
    ensures
        final(src).wf(),
        final(src).end_pos() == old(src).end_pos(),
        old(src)@.len() < 2 ==> r is Err && final(src)@ == old(src)@,
        old(src)@.len() >= 2 ==> r == Ok::<u16, ()>(
            (old(src)@[0] as int * 256 + old(src)@[1] as int) as u16,
        ) && final(src)@ == old(src)@.subrange(2, old(src)@.len() as int),
{
    if src.len() < 2 {
        return Err(());
    }
    let i = src.pop(2);
    Ok((i[0] as u16) * 256 + i[1] as u16)
}

/// Take a big-endian 32-bit integer off the front of `src`.
pub fn read_four_byte_integer(src: &mut Packet) -> (r: Result<u32, ()>)
    requires
        old(src).wf(),
    ensures
        final(src).wf(),
        final(src).end_pos() == old(src).end_pos(),
        old(src)@.len() < 4 ==> r is Err && final(src)@ == old(src)@,
        old(src)@.len() >= 4 ==> r == Ok::<u32, ()>(
            (old(src)@[0] as int * 0x100_0000 + old(src)@[1] as int * 0x1_0000 + old(src)@[2] as int
                * 0x100 + old(src)@[3] as int) as u32,
        ) && final(src)@ == old(src)@.subrange(4, old(src)@.len() as int),
{
    if src.len() < 4 {
        return Err(());
    }
    let i = src.pop(4);
    Ok((i[0] as u32) * 0x100_0000 + (i[1] as u32) * 0x1_0000 + (i[2] as u32) * 0x100
        + i[3] as u32)
}

/// Take a length-prefixed string off the front of `src`.
pub fn read_utf8_encoded_string(src: &mut Packet) -> (r: Result<&[u8], ()>)
    requires
        old(src).wf(),
    ensures
        final(src).wf(),
        final(src).end_pos() == old(src).end_pos(),
        spec_binary_read(old(src)@) matches Some((d, n)) ==> (r matches Ok(s) && s@ == d
            && final(src)@ == old(src)@.subrange(n as int, old(src)@.len() as int)),
        spec_binary_read(old(src)@) is None ==> r is Err,
{
    read_binary_data(src)
}

/// Take two length-prefixed strings off the front of `src`.
pub fn read_utf8_string_pair(src: &mut Packet) -> (r: Result<(), ()>)
    requires
        old(src).wf(),
    ensures
        final(src).wf(),
        final(src).end_pos() == old(src).end_pos(),
        r is Ok <==> spec_skip(Data::UTF8StringPair, old(src)@) is Some,
        r is Ok ==> final(src)@ == old(src)@.subrange(
            spec_skip(Data::UTF8StringPair, old(src)@)->Some_0 as int,
            old(src)@.len() as int,
        ),
{
    let ghost s = src@;
    read_utf8_encoded_string(src)?;
    let ghost s1 = src@;
    read_utf8_encoded_string(src)?;
    proof {
        if let Some((_, n)) = spec_binary_read(s) {
            lemma_binary_read_bound(s);
            if let Some((_, m)) = spec_binary_read(s1) {
                lemma_binary_read_bound(s1);
                assert(s1 =~= s.subrange(n as int, s.len() as int));
                assert(src@ =~= s.subrange((n + m) as int, s.len() as int));
            }
        }
    }
    Ok(())
}

/// Take a variable byte integer off the front of `src`.
pub fn read_variable_byte_integer(src: &mut Packet) -> (r: Result<usize, ()>)
    requires
        old(src).wf(),
    ensures
        final(src).wf(),
        final(src).end_pos() == old(src).end_pos(),
        match spec_vli_from(old(src)@, 0, 0) {
            Ok((v, n)) => r == Ok::<usize, ()>(v as usize) && final(src)@ == old(src)@.subrange(
                n as int,
                old(src)@.len() as int,
            ),
            Err(_) => r is Err && final(src)@ == old(src)@,
        },
{
    proof {
        crate::de::lemma_vli_bounds(src@);
    }
    if let Some((i, b)) = parse_variable_byte_integer(src.bytes()) {
        src.pop(b);
        return Ok(i);
    }
    Err(())
}

/// Number of bytes that a value of type `kind` takes at the front of `s`, when it is all
/// there.
pub open spec fn spec_skip(kind: Data, s: Seq<u8>) -> Option<nat> {
    match kind {
        Data::Byte => if s.len() >= 1 { Some(1) } else { None },
        Data::TwoByteInteger => if s.len() >= 2 { Some(2) } else { None },
        Data::FourByteInteger => if s.len() >= 4 { Some(4) } else { None },
        Data::VariableByteInteger => match spec_vli_from(s, 0, 0) {
            Ok((_, n)) => Some(n),
            Err(_) => None,
        },
        Data::BinaryData | Data::UTF8EncodedString => match spec_binary_read(s) {
            Some((_, n)) => Some(n),
            None => None,
        },
        Data::UTF8StringPair => match spec_binary_read(s) {
            Some((_, n)) => match spec_binary_read(s.subrange(n as int, s.len() as int)) {
                Some((_, m)) => Some(n + m),
                None => None,
            },
            None => None,
        },
    }
}

/// The length-prefixed field at the front of `s`, with the number of bytes it takes.
pub open spec fn spec_binary_read(s: Seq<u8>) -> Option<(Seq<u8>, nat)> {
    if s.len() < 2 {
        None
    } else {
        let len = s[0] as nat * 256 + s[1] as nat;
        if s.len() - 2 >= len {
            Some((s.subrange(2, (2 + len) as int), 2 + len))
        } else {
            None
        }
    }
}

pub proof fn lemma_binary_read_bound(s: Seq<u8>)
    ensures
        spec_binary_read(s) matches Some((d, n)) ==> n <= s.len() && d == s.subrange(2, n as int),
{
}

/// Take a length-prefixed block off the front of `src`. When the block is longer than what
/// is left, the length has been consumed and the call fails.
pub fn read_binary_data(src: &mut Packet) -> (r: Result<&[u8], ()>)
    requires
        old(src).wf(),
    ensures
        final(src).wf(),
        final(src).end_pos() == old(src).end_pos(),
        spec_binary_read(old(src)@) matches Some((d, n)) ==> (r matches Ok(s) && s@ == d
            && final(src)@ == old(src)@.subrange(n as int, old(src)@.len() as int)),
        spec_binary_read(old(src)@) is None ==> r is Err,
{
    let ghost s = src@;
    let len = read_two_byte_integer(src)? as usize;
    if src.len() >= len {
        assert(s.subrange(2, s.len() as int).subrange(len as int, s.len() - 2) =~= s.subrange(
            2 + len,
            s.len() as int,
        ));
        assert(s.subrange(2, s.len() as int).subrange(0, len as int) =~= s.subrange(2, 2 + len));
        let d = src.pop(len);
        Ok(d)
    } else {
        Err(())
    }
}

/// Take the fixed header off the front of `src`: the packet type, the flags and the
/// remaining length.
pub fn read_fixed_header(src: &mut Packet) -> (r: Result<(u8, u8, usize), ()>)
    requires
        old(src).wf(),
    ensures
        final(src).wf(),
        final(src).end_pos() == old(src).end_pos(),
        spec_fixed_header(old(src)@) matches Some((t, f, l, n)) ==> r == Ok::<(u8, u8, usize), ()>(
            (t, f, l as usize),
        ) && final(src)@ == old(src)@.subrange(n as int, old(src)@.len() as int),
        spec_fixed_header(old(src)@) is None ==> r is Err,
{
    let ghost s = src@;
    let typ_flags = read_byte(src)?;
    let typ = (typ_flags >> 4) & 0x0F;
    let flags = typ_flags & 0x0F;
    assert((typ_flags >> 4) & 0x0F == typ_flags / 16) by (bit_vector);
    assert(typ_flags & 0x0F == typ_flags % 16) by (bit_vector);
    let ghost s1 = src@;
    if let Ok(rlen) = read_variable_byte_integer(src) {
        proof {
            if let Ok((v, n)) = spec_vli_from(s1, 0, 0) {
                crate::de::lemma_vli_bounds(s1);
                assert(src@ =~= s.subrange((1 + n) as int, s.len() as int));
            }
        }
        Ok((typ, flags, rlen))
    } else {
        Err(())
    }
}

/// The fixed header at the front of `s`: type, flags, remaining length, and the number of
/// bytes it takes.
pub open spec fn spec_fixed_header(s: Seq<u8>) -> Option<(u8, u8, nat, nat)> {
    if s.len() < 1 {
        None
    } else {
        match spec_vli_from(s.drop_first(), 0, 0) {
            Ok((v, n)) => Some(((s[0] / 16) as u8, (s[0] % 16) as u8, v, 1 + n)),
            Err(_) => None,
        }
    }
}

/// Decode a variable byte integer at the front of `bytes`: its value and length in bytes, or
/// nothing when none of the first four bytes ends it.
pub fn parse_variable_byte_integer(bytes: &[u8]) -> (r: Option<(usize, usize)>)
    ensures
        match spec_vli_from(bytes@, 0, 0) {
            Ok((v, n)) => r == Some((v as usize, n as usize)),
            Err(_) => r is None,
        },
{
    let mut parser = PacketParser::new(bytes);
    match parser.read_variable_length_integer() {
        Ok(value) => {
            proof {
                crate::de::lemma_vli_bounds(bytes@);
            }
            match parser.len() {
                Ok(rest) => Some((value, bytes.len() - rest)),
                Err(_) => None,
            }
        },
        Err(_) => None,
    }
}

} // verus!

verus! {

/// Longest topic, response topic or correlation data that a `Meta` holds.
pub const META_MAX: usize = 64;

/// A short byte string held inline: a topic, response topic or correlation data.
#[derive(Clone, Copy)]
pub struct Meta {
    buf: [u8; 64],
    len: usize,
}

impl Meta {
    /// The bytes held.
    pub closed spec fn view(&self) -> Seq<u8> {
        self.buf@.subrange(0, self.len as int)
    }

    /// At most `META_MAX` bytes are held.
    pub closed spec fn wf(&self) -> bool {
        self.len <= META_MAX
    }

    /// Hold a copy of `data`.
    pub fn new(data: &[u8]) -> (r: Meta)
        requires
            data@.len() <= META_MAX,
        ensures
            r.wf(),
            r@ == data@,
    {
        let mut meta = Meta { buf: [0u8; 64], len: 0 };
        let _ = meta.set(data);
        meta
    }

    /// The bytes held.
    pub fn get(&self) -> (r: &[u8])
        requires
            self.wf(),
        ensures
            r@ == self@,
    {
        crate::de::slice_range(self.buf.as_slice(), 0, self.len)
    }

    /// Hold a copy of `data`, or fail without change when it is longer than `META_MAX`.
    pub fn set(&mut self, data: &[u8]) -> (r: Result<(), ()>)
        ensures
            data@.len() <= META_MAX ==> r is Ok && final(self)@ == data@ && final(self).wf(),
            data@.len() > META_MAX ==> r is Err && *final(self) == *old(self),
    {
        if data.len() <= META_MAX {
            let n = data.len();
            let mut i: usize = 0;
            while i < n
                invariant
                    n == data@.len(),
                    n <= META_MAX,
                    i <= n,
                    self.buf@.len() == META_MAX,
                    forall|k: int| 0 <= k < i ==> self.buf@[k] == data@[k],
                decreases n - i,
            {
                self.buf[i] = data[i];
                i = i + 1;
            }
            self.len = n;
            assert(self@ =~= data@);
            Ok(())
        } else {
            Err(())
        }
    }
}

/// What a PUBLISH carries besides its payload.
pub struct PubInfo {
    pub sid: Option<usize>,
    pub topic: Meta,
    pub response: Option<Meta>,
    pub cd: Option<Meta>,
}

impl PubInfo {
    /// No subscription identifier, an empty topic, no response topic, no correlation data.
    pub fn new() -> (r: PubInfo)
        ensures
            r.sid is None,
            r.topic.wf(),
            r.topic@ == Seq::<u8>::empty(),
            r.response is None,
            r.cd is None,
    {
        let empty: [u8; 0] = [];
        PubInfo { sid: None, topic: Meta::new(&empty), response: None, cd: None }
    }

    /// Every held byte string fits its `Meta`.
    pub open spec fn wf(&self) -> bool {
        &&& self.topic.wf()
        &&& self.response matches Some(m) ==> m.wf()
        &&& self.cd matches Some(m) ==> m.wf()
    }
}

/// Packet type of CONNECT.
pub const CONNECT: u8 = 1;

/// Packet type of CONNACK.
pub const CONNACK: u8 = 2;

/// Packet type of PUBLISH.
pub const PUBLISH: u8 = 3;

/// Packet type of SUBSCRIBE.
pub const SUBSCRIBE: u8 = 8;

/// Packet type of SUBACK.
pub const SUBACK: u8 = 9;

/// Longest client identifier.
pub const CLIENT_ID_MAX: usize = 23;

/// A packet of type `typ` with `flags` whose remaining part is `body`.
pub open spec fn spec_framed(typ: u8, flags: u8, body: Seq<u8>) -> Seq<u8> {
    seq![spec_type_flags(typ, flags)] + spec_varint_encode(body.len()) + body
}

/// The CONNECT packet built by `msg_connect`.
pub open spec fn spec_connect(flags: u8, keep_alive: u16, client_id: Seq<u8>) -> Seq<u8> {
    spec_framed(
        CONNECT,
        0,
        spec_binary(seq![77u8, 81u8, 84u8, 84u8]) + seq![5u8, (flags / 2 * 2) as u8] + be16(
            keep_alive as nat,
        ) + seq![0u8] + spec_binary(client_id),
    )
}

/// Build a CONNECT packet: protocol name and version 5, `flags` without its reserved bit,
/// `keep_alive`, no properties, and `client_id`.
pub fn msg_connect(flags: u8, keep_alive: u16, client_id: &[u8]) -> (r: Packet)
    requires
        client_id@.len() <= CLIENT_ID_MAX,
    ensures
        r.wf(),
        r.end_pos() == PACKET_MAX,
        r@ == spec_connect(flags, keep_alive, client_id@),
{
    let mut p = Packet::new(PACKET_MAX, PACKET_MAX);
    assert(p@ =~= Seq::<u8>::empty());
    write_binary_data(client_id, &mut p);
    proof {
        reveal_with_fuel(spec_varint_encode, 2);
        reveal_with_fuel(spec_varint_len, 2);
    }
    write_variable_byte_integer(0, &mut p);
    write_two_byte_integer(keep_alive, &mut p);
    let f = flags & 0b1111_1110;
    assert(flags & 0b1111_1110 == flags / 2 * 2) by (bit_vector);
    write_byte(f, &mut p);
    write_byte(5, &mut p);
    let magic: [u8; 4] = [77, 81, 84, 84];
    write_utf8_encoded_string(&magic, &mut p);
    let ghost body = p@;
    proof {
        crate::varint::lemma_encode_len(body.len());
        lemma_varint_len_small(body.len());
    }
    write_fixed_header(CONNECT, 0, &mut p);
    assert(magic@ =~= seq![77u8, 81u8, 84u8, 84u8]);
    assert(p@ =~= spec_connect(flags, keep_alive, client_id@));
    p
}

proof fn lemma_varint_len_small(n: nat)
    requires
        n < 16384,
    ensures
        spec_varint_len(n) <= 2,
{
    reveal_with_fuel(spec_varint_len, 3);
}

proof fn lemma_fixed_header_bounds(s: Seq<u8>)
    ensures
        spec_fixed_header(s) matches Some((t, f, l, n)) ==> 2 <= n <= s.len() && n <= 5 && l
            < 268435456,
{
    if s.len() >= 1 {
        crate::de::lemma_vli_bounds(s.drop_first());
    }
}

/// The reason code of the CONNACK at the front of `s`.
pub open spec fn spec_connack(s: Seq<u8>) -> Option<u8> {
    match spec_fixed_header(s) {
        Some((t, _, _, n)) => if t == CONNACK && s.len() >= n + 2 {
            Some(s[(n + 1) as int])
        } else {
            None
        },
        None => None,
    }
}

/// Read a CONNACK: its reason code.
pub fn read_connack(p: &mut Packet) -> (r: Result<u8, ()>)
    requires
        old(p).wf(),
    ensures
        final(p).wf(),
        match spec_connack(old(p)@) {
            Some(c) => r == Ok::<u8, ()>(c),
            None => r is Err,
        },
{
    let ghost s = p@;
    proof {
        lemma_fixed_header_bounds(s);
    }
    let (typ, _, _) = read_fixed_header(p)?;
    if typ != CONNACK {
        return Err(());
    }
    let _ = read_byte(p)?;
    let reason_code = read_byte(p)?;
    Ok(reason_code)
}

/// The property part of the PUBLISH that `msg_publish` builds: the response topic, then the
/// correlation data, each present when set.
pub open spec fn spec_publish_props(response: Option<Seq<u8>>, cd: Option<Seq<u8>>) -> Seq<u8> {
    (match response {
        Some(t) => spec_varint_encode(RESPONSE_TOPIC as nat) + spec_binary(t),
        None => Seq::empty(),
    }) + (match cd {
        Some(d) => spec_varint_encode(CORRELATION_DATA as nat) + spec_binary(d),
        None => Seq::empty(),
    })
}

/// The view of an optional `Meta`.
pub open spec fn meta_view(m: Option<Meta>) -> Option<Seq<u8>> {
    match m {
        Some(x) => Some(x@),
        None => None,
    }
}

/// The PUBLISH packet that `msg_publish` builds.
pub open spec fn spec_publish(info: PubInfo, payload: Seq<u8>) -> Seq<u8> {
    let props = spec_publish_props(meta_view(info.response), meta_view(info.cd));
    spec_framed(
        PUBLISH,
        0,
        spec_binary(info.topic@) + spec_varint_encode(props.len()) + props + payload,
    )
}

#[verifier::rlimit(80)]
/// Build a PUBLISH packet (QoS 0) with the topic, response topic and correlation data of
/// `info`, and `payload`.
pub fn msg_publish(info: &PubInfo, payload: &[u8]) -> (r: Packet)
    requires
        info.wf(),
        spec_publish(*info, payload@).len() <= PACKET_MAX,
    ensures
        r.wf(),
        r.end_pos() == PACKET_MAX,
        r@ == spec_publish(*info, payload@),
{
    let mut p = Packet::new(PACKET_MAX, PACKET_MAX);
    assert(p@ =~= Seq::<u8>::empty());
    proof {
        reveal_with_fuel(spec_varint_encode, 2);
        reveal_with_fuel(spec_varint_len, 2);
        let props = spec_publish_props(meta_view(info.response), meta_view(info.cd));
        let body = spec_binary(info.topic@) + spec_varint_encode(props.len()) + props + payload@;
        crate::varint::lemma_encode_len(props.len());
        crate::varint::lemma_encode_len(body.len());
        assert(spec_publish(*info, payload@).len() == 1 + spec_varint_len(body.len()) + body.len());
        assert(body.len() == 2 + info.topic@.len() + spec_varint_len(props.len()) + props.len()
            + payload@.len());
    }
    p.prepend(payload);
    if let Some(meta) = &info.cd {
        write_binary_data(meta.get(), &mut p);
        write_variable_byte_integer(CORRELATION_DATA, &mut p);
    }
    if let Some(meta) = &info.response {
        write_utf8_encoded_string(meta.get(), &mut p);
        write_variable_byte_integer(RESPONSE_TOPIC, &mut p);
    }
    let ghost props = spec_publish_props(meta_view(info.response), meta_view(info.cd));
    assert(p@ =~= props + payload@);
    let plen = p.len() - payload.len();
    proof {
        crate::varint::lemma_encode_len(plen as nat);
        lemma_varint_len_small(plen as nat);
    }
    write_variable_byte_integer(plen, &mut p);
    write_utf8_encoded_string(info.topic.get(), &mut p);
    let ghost body = p@;
    proof {
        crate::varint::lemma_encode_len(body.len());
        lemma_varint_len_small(body.len());
    }
    write_fixed_header(PUBLISH, 0, &mut p);
    assert(p@ =~= spec_publish(*info, payload@));
    p
}

/// The SUBSCRIBE packet that `msg_subscribe` builds.
pub open spec fn spec_subscribe(topic: Seq<u8>, options: u8, id: u16, sid: nat) -> Seq<u8> {
    let props = spec_varint_encode(SUBSCRIPTION_IDENTIFIER as nat) + spec_varint_encode(sid);
    spec_framed(
        SUBSCRIBE,
        0b0010,
        be16(id as nat) + spec_varint_encode(props.len()) + props + spec_binary(topic) + seq![
            (options % 64) as u8,
        ],
    )
}

/// Build a SUBSCRIBE packet for one topic, with its options (reserved bits cleared), packet
/// identifier `id` and subscription identifier `sid`.
pub fn msg_subscribe(topic: &[u8], options: u8, id: u16, sid: usize) -> (r: Packet)
    requires
        sid <= 0x0FFF_FFFF,
        spec_subscribe(topic@, options, id, sid as nat).len() <= PACKET_MAX,
    ensures
        r.wf(),
        r.end_pos() == PACKET_MAX,
        r@ == spec_subscribe(topic@, options, id, sid as nat),
{
    let mut p = Packet::new(PACKET_MAX, PACKET_MAX);
    assert(p@ =~= Seq::<u8>::empty());
    proof {
        let props = spec_varint_encode(SUBSCRIPTION_IDENTIFIER as nat) + spec_varint_encode(sid as nat);
        let body = be16(id as nat) + spec_varint_encode(props.len()) + props + spec_binary(topic@)
            + seq![(options % 64) as u8];
        crate::varint::lemma_encode_len(props.len());
        crate::varint::lemma_encode_len(body.len());
        crate::varint::lemma_encode_len(sid as nat);
        crate::varint::lemma_encode_len(SUBSCRIPTION_IDENTIFIER as nat);
        assert(spec_subscribe(topic@, options, id, sid as nat).len() == 1 + spec_varint_len(body.len())
            + body.len());
        assert(body.len() == 2 + spec_varint_len(props.len()) + props.len() + 2 + topic@.len() + 1);
    }
    let o = options & 0b0011_1111;
    assert(options & 0b0011_1111 == options % 64) by (bit_vector);
    write_byte(o, &mut p);
    write_utf8_encoded_string(topic, &mut p);
    let pend = p.len();
    proof {
        crate::varint::lemma_encode_len(sid as nat);
        crate::varint::lemma_encode_len_max(sid as nat);
        reveal_with_fuel(spec_varint_encode, 2);
        reveal_with_fuel(spec_varint_len, 2);
    }
    write_variable_byte_integer(sid, &mut p);
    write_variable_byte_integer(SUBSCRIPTION_IDENTIFIER, &mut p);
    let plen = p.len() - pend;
    proof {
        crate::varint::lemma_encode_len(plen as nat);
        lemma_varint_len_small(plen as nat);
    }
    write_variable_byte_integer(plen, &mut p);
    write_two_byte_integer(id, &mut p);
    let ghost body = p@;
    proof {
        crate::varint::lemma_encode_len(body.len());
        lemma_varint_len_small(body.len());
    }
    write_fixed_header(SUBSCRIBE, 0b0010, &mut p);
    assert(p@ =~= spec_subscribe(topic@, options, id, sid as nat));
    p
}

/// The packet identifier and reason code of the SUBACK at the front of `s`; the properties
/// are skipped.
pub open spec fn spec_suback(s: Seq<u8>) -> Option<(u16, u8)> {
    match spec_fixed_header(s) {
        Some((t, _, _, n)) => if t == SUBACK && s.len() >= n + 2 {
            let id = (s[n as int] as int * 256 + s[(n + 1) as int] as int) as u16;
            let rest = s.subrange((n + 2) as int, s.len() as int);
            match spec_vli_from(rest, 0, 0) {
                Ok((plen, m)) => if rest.len() - m >= plen + 1 {
                    Some((id, rest[(m + plen) as int]))
                } else {
                    None
                },
                Err(_) => None,
            }
        } else {
            None
        },
        None => None,
    }
}

/// Read a SUBACK: its packet identifier and first reason code.
pub fn read_suback(p: &mut Packet) -> (r: Result<(u16, u8), ()>)
    requires
        old(p).wf(),
    ensures
        final(p).wf(),
        match spec_suback(old(p)@) {
            Some(x) => r == Ok::<(u16, u8), ()>(x),
            None => r is Err,
        },
{
    let ghost s = p@;
    proof {
        lemma_fixed_header_bounds(s);
    }
    let (typ, _, _) = read_fixed_header(p)?;
    if typ != SUBACK {
        return Err(());
    }
    let ghost n = s.len() - p@.len();
    let id = read_two_byte_integer(p)?;
    let ghost rest = p@;
    proof {
        crate::de::lemma_vli_bounds(rest);
        if let Some((t, f, l, k)) = spec_fixed_header(s) {
            assert(rest =~= s.subrange((k + 2) as int, s.len() as int));
        }
    }
    let plen = read_variable_byte_integer(p)?;
    if plen > p.len() {
        return Err(());
    }
    proof {
        crate::de::lemma_vli_bounds(rest);
    }
    p.pop(plen);
    let reason_code = read_byte(p)?;
    proof {
        if let Some((t, f, l, k)) = spec_fixed_header(s) {
            assert(s.subrange(k as int, s.len() as int).subrange(2, s.len() - k) =~= s.subrange(
                (k + 2) as int,
                s.len() as int,
            ));
        }
    }
    Ok((id, reason_code))
}

/// Skip the value of the property with identifier `property`; unknown identifiers fail.
pub fn skip_property(property: usize, p: &mut Packet) -> (r: Result<(), ()>)
    requires
        old(p).wf(),
    ensures
        final(p).wf(),
        final(p).end_pos() == old(p).end_pos(),
        r is Ok <==> (spec_property_data(property as nat) matches Some(kind) && spec_skip(
            kind,
            old(p)@,
        ) is Some),
        r is Ok ==> final(p)@ == old(p)@.subrange(
            spec_skip(spec_property_data(property as nat)->Some_0, old(p)@)->Some_0 as int,
            old(p)@.len() as int,
        ),
{
    let ghost s = p@;
    match property_data(property) {
        Some(Data::Byte) => {
            read_byte(p)?;
            assert(s.drop_first() =~= s.subrange(1, s.len() as int));
        },
        Some(Data::TwoByteInteger) => {
            read_two_byte_integer(p)?;
        },
        Some(Data::FourByteInteger) => {
            read_four_byte_integer(p)?;
        },
        Some(Data::VariableByteInteger) => {
            read_variable_byte_integer(p)?;
        },
        Some(Data::BinaryData) => {
            read_binary_data(p)?;
        },
        Some(Data::UTF8EncodedString) => {
            read_utf8_encoded_string(p)?;
        },
        Some(Data::UTF8StringPair) => {
            read_utf8_string_pair(p)?;
        },
        None => return Err(()),
    }
    Ok(())
}

} // verus!

verus! {

/// Subscription identifier, response topic and correlation data found so far.
pub type ScanFields = (Option<usize>, Option<Seq<u8>>, Option<Seq<u8>>);

pub proof fn lemma_skip_bound(kind: Data, s: Seq<u8>)
    ensures
        spec_skip(kind, s) matches Some(m) ==> m <= s.len(),
{
    crate::de::lemma_vli_bounds(s);
    lemma_binary_read_bound(s);
    if let Some((_, n)) = spec_binary_read(s) {
        lemma_binary_read_bound(s.subrange(n as int, s.len() as int));
    }
}

/// The properties at the front of `s`, read one by one while more than `stop` bytes are
/// left, starting from `f`: the fields found, when reading stops exactly `stop` bytes before
/// the end. A later subscription identifier, response topic or correlation data replaces an
/// earlier one; other known properties are skipped.
pub open spec fn spec_scan_props(s: Seq<u8>, stop: nat, f: ScanFields) -> Option<ScanFields>
    decreases s.len(),
{
    if s.len() <= stop {
        if s.len() == stop {
            Some(f)
        } else {
            None
        }
    } else {
        match spec_vli_from(s, 0, 0) {
            Err(_) => None,
            Ok((id, n)) => {
                proof {
                    crate::de::lemma_vli_bounds(s);
                }
                let t = s.subrange(n as int, s.len() as int);
                if id == SUBSCRIPTION_IDENTIFIER {
                    match spec_vli_from(t, 0, 0) {
                        Ok((v, m)) => {
                            proof {
                                crate::de::lemma_vli_bounds(t);
                            }
                            spec_scan_props(
                                t.subrange(m as int, t.len() as int),
                                stop,
                                (Some(v as usize), f.1, f.2),
                            )
                        },
                        Err(_) => None,
                    }
                } else if id == RESPONSE_TOPIC || id == CORRELATION_DATA {
                    match spec_binary_read(t) {
                        Some((d, m)) => {
                            proof {
                                lemma_binary_read_bound(t);
                            }
                            if d.len() <= META_MAX {
                                spec_scan_props(
                                    t.subrange(m as int, t.len() as int),
                                    stop,
                                    if id == RESPONSE_TOPIC {
                                        (f.0, Some(d), f.2)
                                    } else {
                                        (f.0, f.1, Some(d))
                                    },
                                )
                            } else {
                                None
                            }
                        },
                        None => None,
                    }
                } else {
                    match spec_property_data(id) {
                        Some(kind) => match spec_skip(kind, t) {
                            Some(m) => {
                                proof {
                                    lemma_skip_bound(kind, t);
                                }
                                spec_scan_props(t.subrange(m as int, t.len() as int), stop, f)
                            },
                            None => None,
                        },
                        None => None,
                    }
                }
            },
        }
    }
}

/// What `read_publish` finds in the PUBLISH at the front of `s`: topic, subscription
/// identifier, response topic, correlation data, and the length of the payload that ends the
/// packet.
pub open spec fn spec_read_publish(s: Seq<u8>) -> Option<(Seq<u8>, ScanFields, nat)> {
    match spec_fixed_header(s) {
        Some((t, _, _, n)) => if t != PUBLISH || n > s.len() {
            None
        } else {
            let s1 = s.subrange(n as int, s.len() as int);
            match spec_binary_read(s1) {
                Some((topic, m)) => if topic.len() > META_MAX || m > s1.len() {
                    None
                } else {
                    let s2 = s1.subrange(m as int, s1.len() as int);
                    match spec_vli_from(s2, 0, 0) {
                        Ok((plen, k)) => if k > s2.len() {
                            None
                        } else {
                            let s3 = s2.subrange(k as int, s2.len() as int);
                            if plen > s3.len() {
                                None
                            } else {
                                let payload = (s3.len() - plen) as nat;
                                match spec_scan_props(s3, payload, (None, None, None)) {
                                    Some(f) => Some((topic, f, payload)),
                                    None => None,
                                }
                            }
                        },
                        Err(_) => None,
                    }
                },
                None => None,
            }
        },
        None => None,
    }
}

/// Read a PUBLISH up to its payload, which is what is left in `p` afterwards. A property
/// length longer than the rest of the packet fails.
#[verifier::rlimit(40)]
pub fn read_publish(p: &mut Packet) -> (r: Result<PubInfo, ()>)
    requires
        old(p).wf(),
    ensures
        final(p).wf(),
        final(p).end_pos() == old(p).end_pos(),
        match spec_read_publish(old(p)@) {
            Some((topic, f, payload)) => (r matches Ok(info) && info.wf() && info.topic@ == topic
                && info.sid == f.0 && meta_view(info.response) == f.1 && meta_view(info.cd) == f.2
                && final(p)@ == old(p)@.subrange(
                old(p)@.len() - payload,
                old(p)@.len() as int,
            )),
            None => r is Err,
        },
{
    let ghost s = p@;
    proof {
        lemma_fixed_header_bounds(s);
    }
    let (typ, _, _) = read_fixed_header(p)?;
    if typ != PUBLISH {
        return Err(());
    }
    let ghost s1 = p@;
    proof {
        lemma_binary_read_bound(s1);
    }
    let mut info = PubInfo::new();
    let topic = read_utf8_encoded_string(p)?;
    info.topic.set(topic)?;
    let ghost s2 = p@;
    proof {
        crate::de::lemma_vli_bounds(s2);
    }
    let plen = read_variable_byte_integer(p)?;
    if plen > p.len() {
        return Err(());
    }
    let payload = p.len() - plen;
    let ghost s3 = p@;
    while p.len() > payload
        invariant
            p.wf(),
            p.end_pos() == old(p).end_pos(),
            info.wf(),
            info.topic@ == spec_binary_read(s1)->Some_0.0,
            spec_scan_props(s3, payload as nat, (None, None, None)) == spec_scan_props(
                p@,
                payload as nat,
                (info.sid, meta_view(info.response), meta_view(info.cd)),
            ),
            p@.len() <= s3.len(),
            s3.len() <= s.len(),
            s == old(p)@,
            spec_read_publish(s) == match spec_scan_props(s3, payload as nat, (None, None, None)) {
                Some(f) => Some((spec_binary_read(s1)->Some_0.0, f, payload as nat)),
                None => None,
            },
            p@ == s3.subrange(s3.len() - p@.len(), s3.len() as int),
        decreases p@.len(),
    {
        let ghost before = p@;
        proof {
            crate::de::lemma_vli_bounds(before);
        }
        let id = read_variable_byte_integer(p)?;
        let ghost t = p@;
        if id == SUBSCRIPTION_IDENTIFIER {
            proof {
                crate::de::lemma_vli_bounds(t);
            }
            info.sid = Some(read_variable_byte_integer(p)?);
        } else if id == RESPONSE_TOPIC {
            proof {
                lemma_binary_read_bound(t);
            }
            let mut response_topic = Meta::new(&[]);
            response_topic.set(read_utf8_encoded_string(p)?)?;
            info.response = Some(response_topic);
        } else if id == CORRELATION_DATA {
            proof {
                lemma_binary_read_bound(t);
            }
            let mut cd = Meta::new(&[]);
            cd.set(read_binary_data(p)?)?;
            info.cd = Some(cd);
        } else {
            proof {
                if let Some(kind) = spec_property_data(id as nat) {
                    lemma_skip_bound(kind, t);
                }
            }
            skip_property(id, p)?;
        }
        assert(p@ =~= s3.subrange(s3.len() - p@.len(), s3.len() as int));
    }
    if p.len() != payload {
        return Err(());
    }
    assert(s1 =~= s.subrange(s.len() - s1.len(), s.len() as int));
    assert(p@ =~= s.subrange(s.len() - payload, s.len() as int));
    Ok(info)
}

} // verus!

verus! {

/// Longest fixed header: the type byte and a four-byte remaining length.
pub const FIXED_HEADER_MAX: usize = 5;

/// Total packet length announced by the fixed header at the front of `received`, once its
/// remaining length is complete.
pub open spec fn spec_probe_total(received: Seq<u8>) -> Option<nat> {
    if received.len() <= 1 {
        None
    } else {
        match spec_vli_from(received.subrange(1, received.len() as int), 0, 0) {
            Ok((v, n)) => Some(1 + n + v),
            Err(_) => None,
        }
    }
}

/// What taking `stream` does to a reader that has `received` bytes of a packet whose total
/// length is `total`, once known: `None` when the stream cannot continue a packet that fits
/// the frame, else how many bytes are taken, what has been received then, and the total
/// length known then. The packet is complete when that length is reached.
pub open spec fn spec_slurp(received: Seq<u8>, total: Option<nat>, stream: Seq<u8>) -> Option<
    (nat, Seq<u8>, Option<nat>),
> {
    let frame = match total {
        Some(t) => t,
        None => PACKET_MAX as nat,
    };
    let n = min(stream.len() as int, frame - received.len()) as nat;
    let got = received + stream.subrange(0, n as int);
    match total {
        Some(t) => Some((n, got, Some(t))),
        None => match spec_probe_total(got) {
            Some(t) => if t > PACKET_MAX {
                None
            } else {
                let kept = min(got.len() as int, t as int);
                Some((min(n as int, kept - received.len()) as nat, got.subrange(0, kept), Some(t)))
            },
            None => if got.len() >= FIXED_HEADER_MAX {
                None
            } else {
                Some((n, got, None))
            },
        },
    }
}

/// Collects one inbound packet from a byte stream.
pub struct PacketReader {
    p: Packet,
    read: usize,
    have_fixed_header: bool,
}

impl PacketReader {
    /// The bytes collected so far.
    pub closed spec fn received(&self) -> Seq<u8> {
        self.p@.subrange(0, self.read as int)
    }

    /// The packet's total length, once its fixed header has been seen.
    pub closed spec fn total(&self) -> Option<nat> {
        if self.have_fixed_header {
            Some(self.p@.len())
        } else {
            None
        }
    }

    /// Number of bytes received.
    pub closed spec fn count(&self) -> nat {
        self.read as nat
    }

    /// Whether the fixed header has been seen.
    pub closed spec fn has_length(&self) -> bool {
        self.have_fixed_header
    }

    /// The frame the packet is collected in.
    pub closed spec fn frame(&self) -> Packet {
        self.p
    }

    /// The reader's invariant: the frame starts at offset 0, what was received lies inside
    /// it, and without a known length fewer than five bytes have come, none of them ending the
    /// remaining length.
    pub closed spec fn wf(&self) -> bool {
        &&& self.p.wf()
        &&& self.p.room() == 0
        &&& self.read <= self.p@.len()
        &&& self.have_fixed_header ==> self.p@.len() >= 2
        &&& !self.have_fixed_header ==> {
            &&& self.p@.len() == PACKET_MAX
            &&& self.read < FIXED_HEADER_MAX
            &&& spec_probe_total(self.received()) is None
        }
    }

    /// An empty reader.
    pub fn new() -> (r: PacketReader)
        ensures
            r.wf(),
            r.received() == Seq::<u8>::empty(),
            r.total() is None,
    {
        let r = PacketReader { p: Packet::new(0, PACKET_MAX), read: 0, have_fixed_header: false };
        assert(r.received() =~= Seq::<u8>::empty());
        r
    }

    /// The frame, holding the packet once it is complete.
    pub fn packet(&mut self) -> (r: &mut Packet)
        ensures
            *r == old(self).frame(),
            final(self).frame() == *final(r),
            final(self).count() == old(self).count(),
            final(self).has_length() == old(self).has_length(),
    {
        &mut self.p
    }

    /// Forget everything received.
    pub fn reset(&mut self)
        ensures
            final(self).wf(),
            final(self).received() == Seq::<u8>::empty(),
            final(self).total() is None,
    {
        self.p = Packet::new(0, PACKET_MAX);
        self.read = 0;
        self.have_fixed_header = false;
        assert(self.received() =~= Seq::<u8>::empty());
    }

    /// Copy as much of `stream` as fits after what was received; returns how much.
    fn fill(&mut self, stream: &[u8]) -> (r: usize)
        requires
            old(self).p.wf(),
            old(self).p.room() == 0,
            old(self).read <= old(self).p@.len(),
        ensures
            final(self).p.wf(),
            final(self).p.room() == 0,
            final(self).p@.len() == old(self).p@.len(),
            final(self).have_fixed_header == old(self).have_fixed_header,
            r == min(stream@.len() as int, old(self).p@.len() - old(self).read),
            final(self).read == old(self).read + r,
            final(self).received() == old(self).received() + stream@.subrange(0, r as int),
    {
        let room = self.p.len() - self.read;
        let n = if stream.len() < room {
            stream.len()
        } else {
            room
        };
        let part = crate::de::slice_range(stream, 0, n);
        self.p.copy_in(self.read, part);
        self.read = self.read + n;
        assert(self.received() =~= old(self).received() + stream@.subrange(0, n as int));
        n
    }

    /// The total length announced by the fixed header received so far.
    fn probe_fixed_header(&mut self) -> (r: Option<usize>)
        requires
            old(self).p.wf(),
            old(self).read <= old(self).p@.len(),
        ensures
            *final(self) == *old(self),
            r == match spec_probe_total(old(self).received()) {
                Some(t) => Some(t as usize),
                None => None::<usize>,
            },
            r matches Some(t) ==> 2 <= t < 0x1000_0006,
            spec_probe_total(old(self).received()) matches Some(t) ==> t < 0x1000_0006,
    {
        if self.read <= 1 {
            return None;
        }
        let seen = crate::de::slice_range(self.p.bytes(), 1, self.read);
        assert(seen@ =~= self.received().subrange(1, self.received().len() as int));
        proof {
            crate::de::lemma_vli_bounds(seen@);
        }
        match parse_variable_byte_integer(seen) {
            Some((rlen, nbytes)) => Some(1 + nbytes + rlen),
            None => None,
        }
    }

    /// Take bytes from `stream` towards the current packet: how many were taken, and whether
    /// the packet is now complete. Fails when the announced length exceeds the frame, or when
    /// five bytes came without a complete fixed header.
    pub fn slurp(&mut self, stream: &[u8]) -> (r: Result<(usize, bool), ()>)
        requires
            old(self).wf(),
        ensures
            ({
                let n = min(stream@.len() as int, old(self).frame()@.len() - old(self).count()) as nat;
                let got = old(self).received() + stream@.subrange(0, n as int);
                match old(self).total() {
                    Some(t) => r == Ok::<(usize, bool), ()>((n as usize, got.len() == t))
                        && final(self).received() == got && final(self).total() == Some(t),
                    None => match spec_probe_total(got) {
                        Some(t) => if t > PACKET_MAX {
                            r is Err
                        } else {
                            let kept = min(got.len() as int, t as int);
                            r == Ok::<(usize, bool), ()>(
                                (min(n as int, kept - old(self).count()) as usize, kept == t),
                            ) && final(self).received() == got.subrange(0, kept)
                                && final(self).total() == Some(t)
                        },
                        None => if got.len() >= FIXED_HEADER_MAX {
                            r is Err
                        } else {
                            r == Ok::<(usize, bool), ()>((n as usize, false))
                                && final(self).received() == got && final(self).total() is None
                        },
                    },
                }
            }),
            r is Ok ==> final(self).wf(),
            match spec_slurp(old(self).received(), old(self).total(), stream@) {
                Some((n, got, t)) => r == Ok::<(usize, bool), ()>((n as usize, t == Some(got.len())))
                    && final(self).received() == got && final(self).total() == t,
                None => r is Err,
            },
    {
        proof {
            assert(old(self).received().len() == old(self).count());
        }
        let prev_read = self.read;
        let ghost before = self.received();
        let read = self.fill(stream);
        if !self.have_fixed_header {
            let ghost got = self.received();
            match self.probe_fixed_header() {
                Some(total_len) => {
                    if total_len > PACKET_MAX {
                        return Err(());
                    }
                    proof {
                        assert(got.subrange(0, before.len() as int) =~= before);
                        assert(before.len() == prev_read);
                        assert(spec_probe_total(before) is None);
                        lemma_probe_extends(before, got);
                        crate::de::lemma_vli_bounds(got.subrange(1, got.len() as int));
                    }
                    self.p.truncate(total_len);
                    self.read = if self.read < total_len {
                        self.read
                    } else {
                        total_len
                    };
                    self.have_fixed_header = true;
                    assert(self.received() =~= got.subrange(0, self.read as int));
                },
                None => {
                    if self.read >= FIXED_HEADER_MAX {
                        return Err(());
                    }
                },
            }
        }
        let advanced = self.read - prev_read;
        let taken = if read < advanced {
            read
        } else {
            advanced
        };
        let complete = self.read == self.p.len();
        Ok((taken, complete))
    }
}

/// A fixed header that was incomplete stays so until the bytes after it end it: once more
/// bytes make it complete, it announces at least one byte more than were received before.
proof fn lemma_probe_extends(before: Seq<u8>, got: Seq<u8>)
    requires
        spec_probe_total(before) is None,
        before.len() < FIXED_HEADER_MAX,
        before.len() <= got.len(),
        got.subrange(0, before.len() as int) == before,
    ensures
        spec_probe_total(got) matches Some(t) ==> t > before.len(),
{
    if got.len() > 1 {
        let a = if before.len() <= 1 {
            Seq::<u8>::empty()
        } else {
            before.subrange(1, before.len() as int)
        };
        let s = got.subrange(1, got.len() as int);
        assert(s.subrange(0, a.len() as int) =~= a);
        lemma_vli_prefix(a, s, 0, 0);
    }
}

proof fn lemma_vli_prefix(a: Seq<u8>, s: Seq<u8>, i: nat, acc: nat)
    requires
        a.len() <= s.len(),
        s.subrange(0, a.len() as int) == a,
        a.len() < 4,
        i <= a.len(),
        spec_vli_from(a, i, acc) is Err,
    ensures
        spec_vli_from(s, i, acc) matches Ok((v, n)) ==> n > a.len(),
    decreases 4 - i,
{
    if i < a.len() {
        assert(s[i as int] == a[i as int]);
        if a[i as int] >= 128 {
            lemma_vli_prefix(a, s, i + 1, acc + ((a[i as int] % 128) as nat) * crate::varint::group_weight(i));
        }
    } else {
        crate::de::lemma_vli_bounds(s);
        lemma_vli_from_grows(s, i, acc);
    }
}

proof fn lemma_vli_from_grows(s: Seq<u8>, i: nat, acc: nat)
    ensures
        spec_vli_from(s, i, acc) matches Ok((v, n)) ==> n > i,
    decreases 4 - i,
{
    if i < 4 && i < s.len() && s[i as int] >= 128 {
        lemma_vli_from_grows(s, i + 1, acc + ((s[i as int] % 128) as nat) * crate::varint::group_weight(i));
    }
}

} // verus!

verus! {

/// Where the client stands in its exchange with the broker.
#[derive(PartialEq, Eq, Clone, Copy, Debug, Structural)]
pub enum ProtocolState {
    Close,
    Connect,
    Subscribe,
    Ready,
    Handle,
}

/// The state that a complete inbound packet `pkt` leads to from `state`, or `None` when the
/// packet is refused and the connection closes.
pub open spec fn spec_next_state(state: ProtocolState, pkt: Seq<u8>, pid: u16) -> Option<
    ProtocolState,
> {
    match state {
        ProtocolState::Close => None,
        ProtocolState::Connect => if spec_connack(pkt) == Some(0u8) {
            Some(ProtocolState::Ready)
        } else {
            None
        },
        ProtocolState::Subscribe => if pkt.len() > 0 && pkt[0] / 16 == PUBLISH {
            if spec_read_publish(pkt) is Some {
                Some(ProtocolState::Subscribe)
            } else {
                None
            }
        } else if pkt.len() > 0 && pkt[0] / 16 == SUBACK {
            if spec_suback(pkt) == Some((pid, 0u8)) {
                Some(ProtocolState::Ready)
            } else {
                None
            }
        } else {
            None
        },
        ProtocolState::Ready => if spec_read_publish(pkt) is Some {
            Some(ProtocolState::Handle)
        } else {
            None
        },
        ProtocolState::Handle => None,
    }
}

/// The SUBACK that grants the subscription with packet identifier `id`: no properties, and
/// reason code 0.
pub open spec fn spec_granting_suback(id: u16) -> Seq<u8> {
    spec_framed(SUBACK, 0, be16(id as nat) + seq![0u8, 0u8])
}

/// `subscribe` leaves the engine in `Subscribe` under the new packet identifier; the SUBACK
/// that grants that identifier with reason code 0, once received whole, returns it to
/// `Ready`.
pub proof fn law_suback_returns_to_ready(id: u16)
    ensures
        spec_next_state(ProtocolState::Subscribe, spec_granting_suback(id), id) == Some(
            ProtocolState::Ready,
        ),
{
    let s = spec_granting_suback(id);
    reveal_with_fuel(spec_varint_encode, 2);
    assert(s =~= seq![0x90u8, 4u8, ((id as nat / 256) % 256) as u8, (id as nat % 256) as u8, 0u8, 0u8]);
    assert(s.drop_first() =~= seq![4u8, ((id as nat / 256) % 256) as u8, (id as nat % 256) as u8, 0u8, 0u8]);
    assert(spec_fixed_header(s) == Some((9u8, 0u8, 4nat, 2nat)));
    let rest = s.subrange(4, 6);
    assert(rest =~= seq![0u8, 0u8]);
    assert(spec_vli_from(rest, 0, 0) == Ok::<(nat, nat), ProtocolError>((0nat, 1nat)));
    assert((((id as nat / 256) % 256) as u8) as int * 256 + ((id as nat % 256) as u8) as int == id);
    assert(spec_suback(s) == Some((id, 0u8)));
}

/// The client's protocol engine: it builds outbound packets and consumes inbound bytes.
pub struct Protocol {
    p: Packet,
    pi: PubInfo,
    r: PacketReader,
    r_need_reset: bool,
    pub s: ProtocolState,
    pub pid: u16,
    seen: Ghost<Seq<u8>>,
}

impl Protocol {
    /// The current state.
    pub closed spec fn cur(&self) -> ProtocolState {
        self.s
    }

    /// The identifier of the last SUBSCRIBE.
    pub closed spec fn packet_id(&self) -> u16 {
        self.pid
    }

    /// The engine's invariant.
    pub closed spec fn wf(&self) -> bool {
        &&& self.p.wf()
        &&& self.pi.wf()
        &&& self.r.p.wf()
        &&& !self.r_need_reset ==> self.r.wf()
    }

    /// The last complete inbound packet.
    pub closed spec fn last_packet(&self) -> Seq<u8> {
        self.seen@
    }

    /// What is left of the last complete inbound packet after the state machine read it: the
    /// payload, for a PUBLISH.
    pub closed spec fn inbound(&self) -> Seq<u8> {
        self.r.p@
    }

    /// Whether the last call completed an inbound packet and handed it to the state machine.
    pub closed spec fn completed(&self) -> bool {
        self.r_need_reset
    }

    /// The publication info of the last inbound PUBLISH.
    pub closed spec fn info(&self) -> PubInfo {
        self.pi
    }

    /// The bytes received so far of the next inbound packet.
    pub closed spec fn pending(&self) -> Seq<u8> {
        if self.r_need_reset {
            Seq::empty()
        } else {
            self.r.received()
        }
    }

    /// The total length of the next inbound packet, once its fixed header has been received.
    pub closed spec fn pending_total(&self) -> Option<nat> {
        if self.r_need_reset {
            None
        } else {
            self.r.total()
        }
    }

    /// A closed engine.
    pub fn new() -> (r: Protocol)
        ensures
            r.wf(),
            r.cur() == ProtocolState::Close,
            r.packet_id() == 0,
            !r.completed(),
            r.pending() == Seq::<u8>::empty(),
            r.pending_total() is None,
    {
        Protocol {
            p: Packet::new(PACKET_MAX, PACKET_MAX),
            pi: PubInfo::new(),
            r: PacketReader::new(),
            r_need_reset: false,
            s: ProtocolState::Close,
            pid: 0,
            seen: Ghost(Seq::empty()),
        }
    }

    /// The current state.
    pub fn state(&self) -> (r: ProtocolState)
        ensures
            r == self.cur(),
    {
        self.s
    }

    /// Start connecting: the CONNECT packet to send, with a clean start and the first
    /// `CLIENT_ID_MAX` bytes of `client_id`.
    pub fn connect(&mut self, client_id: &[u8], keep_alive: u16) -> (r: &[u8])
        requires
            old(self).wf(),
            old(self).cur() == ProtocolState::Close,
            client_id@.len() >= CLIENT_ID_MAX,
        ensures
            final(self).wf(),
            final(self).cur() == ProtocolState::Connect,
            final(self).packet_id() == old(self).packet_id(),
            final(self).completed() == old(self).completed(),
            r@ == spec_connect(0b10, keep_alive, client_id@.subrange(0, CLIENT_ID_MAX as int)),
            final(self).pending() == old(self).pending(),
            final(self).pending_total() == old(self).pending_total(),
    {
        let id = crate::de::slice_range(client_id, 0, CLIENT_ID_MAX);
        self.p = msg_connect(0b10, keep_alive, id);
        self.s = ProtocolState::Connect;
        self.p.bytes()
    }

    /// A PUBLISH packet to send.
    pub fn publish(&mut self, info: &PubInfo, payload: &[u8]) -> (r: &[u8])
        requires
            old(self).wf(),
            old(self).cur() == ProtocolState::Ready,
            info.wf(),
            spec_publish(*info, payload@).len() <= PACKET_MAX,
        ensures
            final(self).wf(),
            final(self).cur() == ProtocolState::Ready,
            final(self).packet_id() == old(self).packet_id(),
            final(self).completed() == old(self).completed(),
            r@ == spec_publish(*info, payload@),
            final(self).pending() == old(self).pending(),
            final(self).pending_total() == old(self).pending_total(),
    {
        self.p = msg_publish(info, payload);
        self.p.bytes()
    }

    /// A SUBSCRIBE packet to send, under the next packet identifier.
    pub fn subscribe(&mut self, topic: &[u8], sid: usize) -> (r: &[u8])
        requires
            old(self).wf(),
            0 < sid <= 0x0FFF_FFFF,
            old(self).cur() == ProtocolState::Ready,
            old(self).packet_id() < u16::MAX,
            spec_subscribe(topic@, 0, (old(self).packet_id() + 1) as u16, sid as nat).len()
                <= PACKET_MAX,
        ensures
            final(self).wf(),
            final(self).cur() == ProtocolState::Subscribe,
            final(self).packet_id() == old(self).packet_id() + 1,
            final(self).completed() == old(self).completed(),
            r@ == spec_subscribe(topic@, 0, final(self).packet_id(), sid as nat),
            final(self).pending() == old(self).pending(),
            final(self).pending_total() == old(self).pending_total(),
    {
        self.pid = self.pid + 1;
        self.p = msg_subscribe(topic, 0, self.pid, sid);
        self.s = ProtocolState::Subscribe;
        self.p.bytes()
    }

    /// Act on the complete inbound packet, reading it.
    fn fsm(&mut self) -> (r: Result<Option<&[u8]>, ()>)
        requires
            old(self).p.wf(),
            old(self).pi.wf(),
            old(self).r.p.wf(),
            old(self).r.p@.len() > 0,
        ensures
            final(self).p.wf(),
            final(self).pi.wf(),
            final(self).r.p.wf(),
            final(self).packet_id() == old(self).packet_id(),
            final(self).r_need_reset == old(self).r_need_reset,
            final(self).seen == old(self).seen,
            match spec_next_state(old(self).cur(), old(self).r.p@, old(self).packet_id()) {
                Some(next) => r == Ok::<Option<&[u8]>, ()>(None) && final(self).cur() == next,
                None => r is Err && final(self).cur() == ProtocolState::Close,
            },
            old(self).cur() == ProtocolState::Ready && r is Ok ==> (spec_read_publish(
                old(self).r.p@,
            ) matches Some((topic, f, pl)) && final(self).pi.topic@ == topic && final(self).pi.sid == f.0 && meta_view(final(self).pi.response) == f.1 && meta_view(
                final(self).pi.cd,
            ) == f.2 && final(self).r.p@ == old(self).r.p@.subrange(
                old(self).r.p@.len() - pl,
                old(self).r.p@.len() as int,
            )),
    {
        let state = self.s;
        self.s = ProtocolState::Close;
        match state {
            ProtocolState::Close => return Err(()),
            ProtocolState::Connect => {
                let reason_code = read_connack(&mut self.r.p)?;
                if reason_code != 0 {
                    return Err(());
                }
                self.s = ProtocolState::Ready;
            },
            ProtocolState::Subscribe => {
                let typ = self.r.p.typ();
                if typ == PUBLISH {
                    read_publish(&mut self.r.p)?;
                    self.s = ProtocolState::Subscribe;
                } else if typ == SUBACK {
                    let (id, reason_code) = read_suback(&mut self.r.p)?;
                    if id != self.pid {
                        return Err(());
                    }
                    if reason_code != 0 {
                        return Err(());
                    }
                    self.s = ProtocolState::Ready;
                } else {
                    return Err(());
                }
            },
            ProtocolState::Ready => {
                self.pi = read_publish(&mut self.r.p)?;
                self.s = ProtocolState::Handle;
            },
            ProtocolState::Handle => return Err(()),
        }
        Ok(None)
    }

    /// Take inbound bytes: how many were consumed, and a reply to send, if any. Bytes are
    /// taken up to the end of the packet that their fixed header announces; once that packet
    /// is complete it drives the state machine, and a packet the state machine refuses fails
    /// the call and closes the engine. Bytes that cannot begin a packet that fits the frame
    /// fail the call and are dropped, the state left as it was.
    pub fn receive(&mut self, stream: &[u8]) -> (r: Result<(usize, Option<&[u8]>), ()>)
        requires
            old(self).wf(),
        ensures
            final(self).wf(),
            final(self).packet_id() == old(self).packet_id(),
            match spec_slurp(old(self).pending(), old(self).pending_total(), stream@) {
                None => r is Err && !final(self).completed() && final(self).cur() == old(self).cur()
                    && final(self).pending() == Seq::<u8>::empty() && final(self).pending_total() is None,
                Some((n, got, t)) => if t == Some(got.len()) {
                    &&& final(self).completed()
                    &&& final(self).last_packet() == got
                    &&& match spec_next_state(old(self).cur(), got, old(self).packet_id()) {
                        Some(next) => r == Ok::<(usize, Option<&[u8]>), ()>((n as usize, None))
                            && final(self).cur() == next,
                        None => r is Err && final(self).cur() == ProtocolState::Close,
                    }
                } else {
                    &&& r == Ok::<(usize, Option<&[u8]>), ()>((n as usize, None))
                    &&& !final(self).completed()
                    &&& final(self).cur() == old(self).cur()
                    &&& final(self).pending() == got
                    &&& final(self).pending_total() == t
                },
            },
            final(self).completed() && old(self).cur() == ProtocolState::Ready && r is Ok ==> (
            spec_read_publish(final(self).last_packet()) matches Some((topic, f, pl))
                && final(self).info().topic@ == topic && final(self).info().sid == f.0
                && meta_view(final(self).info().response) == f.1 && meta_view(
                final(self).info().cd) == f.2 && final(self).inbound() == final(self).last_packet().subrange(
                final(self).last_packet().len() - pl,
                final(self).last_packet().len() as int,
            )),
    {
        if self.r_need_reset {
            self.r.reset();
            self.r_need_reset = false;
        }
        match self.r.slurp(stream) {
            Ok((read, complete)) => {
                if !complete {
                    return Ok((read, None));
                }
                self.r_need_reset = true;
                assert(self.r.received() =~= self.r.p@);
                self.seen = Ghost(self.r.p@);
                match self.fsm() {
                    Ok(reply) => Ok((read, reply)),
                    Err(_) => Err(()),
                }
            },
            Err(_) => {
                self.r.reset();
                Err(())
            },
        }
    }

    /// Hand out the inbound PUBLISH waiting to be handled, with its payload, and get ready
    /// for the next one.
    pub fn handle(&mut self) -> (r: Option<(&PubInfo, &[u8])>)
        requires
            old(self).wf(),
        ensures
            final(self).wf(),
            final(self).packet_id() == old(self).packet_id(),
            final(self).completed() == old(self).completed(),
            old(self).cur() == ProtocolState::Handle ==> final(self).cur() == ProtocolState::Ready
                && r is Some,
            old(self).cur() != ProtocolState::Handle ==> final(self).cur() == old(self).cur() && r is None,
            r matches Some((info, payload)) ==> *info == old(self).info() && payload@ == old(self).inbound(),
            final(self).pending() == old(self).pending(),
            final(self).pending_total() == old(self).pending_total(),
    {
        match self.s {
            ProtocolState::Handle => {
                self.s = ProtocolState::Ready;
                Some((&self.pi, self.r.p.bytes()))
            },
            _ => None,
        }
    }
}

} // verus!
