//! MQTT packet serializer.
//!
//! The encoder reserves room for the largest fixed header, writes the variable header and
//! payload linearly, then backfills the fixed header right in front of them.
use crate::varint::{
    lemma_encode_len_max, spec_varint_encode, write_mqtt_u32_varint, VarintBuffer,
    MQTT_VARINT_MAX,
};
use crate::wire::{spec_message_type_value, MessageType};
use vstd::prelude::*;

verus! {

/// The maximum size of the MQTT fixed header in bytes: the header byte and the longest
/// variable byte integer.
pub const MAX_FIXED_HEADER_SIZE: usize = 5;

/// Errors that result from the serialization process.
#[derive(Debug, Copy, Clone, PartialEq, Eq, Structural)]
pub enum Error {
    /// The provided memory buffer did not have enough space to serialize into.
    InsufficientMemory,
    /// A custom serialization error occurred.
    Custom,
}

/// Error of a publish encoding: the packet itself, or the payload writer.
#[derive(Debug, PartialEq, Eq)]
pub enum PubError<E> {
    /// The packet could not be encoded.
    Encode(Error),
    /// The payload could not be written.
    Payload(E),
}

/// The encoding of a run of fields: all their bytes, or the bytes that come before the first
/// field that cannot be encoded at all (such as a string longer than 65535 bytes).
pub type Enc = Result<Seq<u8>, Seq<u8>>;

/// Two runs of fields one after the other.
pub open spec fn enc_then(a: Enc, b: Enc) -> Enc {
    match a {
        Err(p) => Err(p),
        Ok(x) => match b {
            Ok(y) => Ok(x + y),
            Err(p) => Err(x + p),
        },
    }
}

/// Big-endian two-byte integer.
pub open spec fn be16(v: nat) -> Seq<u8> {
    seq![((v / 256) % 256) as u8, (v % 256) as u8]
}

/// Big-endian four-byte integer.
pub open spec fn be32(v: nat) -> Seq<u8> {
    seq![
        ((v / 16777216) % 256) as u8,
        ((v / 65536) % 256) as u8,
        ((v / 256) % 256) as u8,
        (v % 256) as u8,
    ]
}

/// A length-prefixed string or binary field.
pub open spec fn enc_prefixed(s: Seq<u8>) -> Enc {
    if s.len() > 65535 {
        Err(Seq::empty())
    } else {
        Ok(be16(s.len()) + s)
    }
}

/// A variable byte integer field.
pub open spec fn enc_varint(v: nat) -> Enc {
    if v > MQTT_VARINT_MAX {
        Err(Seq::empty())
    } else {
        Ok(spec_varint_encode(v))
    }
}

/// Whether `written` bytes after the reserved header space exceed a buffer of `cap` bytes.
pub open spec fn overflows(cap: nat, written: Seq<u8>) -> bool {
    written.len() > 0 && MAX_FIXED_HEADER_SIZE + written.len() > cap
}

/// Outcome of serializing the fields `e` into a buffer of `cap` bytes: the body written, or
/// the first error met.
pub open spec fn spec_body_result(cap: nat, e: Enc) -> Result<Seq<u8>, Error> {
    match e {
        Err(p) => if overflows(cap, p) {
            Err(Error::InsufficientMemory)
        } else {
            Err(Error::Custom)
        },
        Ok(b) => if overflows(cap, b) {
            Err(Error::InsufficientMemory)
        } else {
            Ok(b)
        },
    }
}

/// The fixed-header byte of a packet type and its flags.
pub open spec fn spec_header_byte(t: MessageType, flags: u8) -> u8 {
    ((spec_message_type_value(t) << 4u8) | (flags & 0x0f)) as u8
}

/// Outcome of finalizing `body` in a buffer of `cap` bytes: the packet's start offset in the
/// buffer and its bytes.
pub open spec fn spec_finalize(cap: nat, body: Seq<u8>, header: u8) -> Result<
    (nat, Seq<u8>),
    Error,
> {
    if body.len() > MQTT_VARINT_MAX || cap < MAX_FIXED_HEADER_SIZE {
        Err(Error::InsufficientMemory)
    } else {
        let len = spec_varint_encode(body.len());
        Ok(((4 - len.len()) as nat, seq![header] + len + body))
    }
}

/// Outcome of encoding a packet of type `t` with `flags` whose fields encode as `e`.
pub open spec fn spec_encode(cap: nat, e: Enc, t: MessageType, flags: u8) -> Result<
    (nat, Seq<u8>),
    Error,
> {
    match spec_body_result(cap, e) {
        Err(x) => Err(x),
        Ok(body) => spec_finalize(cap, body, spec_header_byte(t, flags)),
    }
}

/// Pushing `b` after `a` from `w` goes as pushing `a` and then, if that went through,
/// pushing `b`.
pub proof fn lemma_push_then(cap: nat, w: Seq<u8>, a: Enc, b: Enc)
    requires
        !overflows(cap, w),
    ensures
        spec_body_result(cap, enc_then(Ok(w), a)) is Err ==> spec_body_result(
            cap,
            enc_then(Ok(w), enc_then(a, b)),
        ) == spec_body_result(cap, enc_then(Ok(w), a)),
        spec_body_result(cap, enc_then(Ok(w), a)) is Ok ==> spec_body_result(
            cap,
            enc_then(Ok(w), enc_then(a, b)),
        ) == spec_body_result(
            cap,
            enc_then(Ok(spec_body_result(cap, enc_then(Ok(w), a))->Ok_0), b),
        ),
{
    match a {
        Err(p) => {},
        Ok(x) => {
            match b {
                Ok(y) => {
                    assert(w + (x + y) =~= (w + x) + y);
                },
                Err(p) => {
                    assert(w + (x + p) =~= (w + x) + p);
                },
            }
        },
    }
}

/// Whether `after` is as long as `before` and holds the same byte at every position outside
/// `lo..hi`.
pub open spec fn keeps_outside(before: Seq<u8>, after: Seq<u8>, lo: int, hi: int) -> bool {
    &&& after.len() == before.len()
    &&& forall|k: int| 0 <= k < before.len() && !(lo <= k < hi) ==> #[trigger] after[k] == before[k]
}

/// The data of the pushes that went through, in order: `data[k]` was offered by the `k`-th
/// push and `results[k]` is what it answered.
pub open spec fn successful_pushes(data: Seq<Seq<u8>>, results: Seq<Result<(), Error>>) -> Seq<u8>
    decreases data.len(),
{
    if data.len() == 0 || results.len() == 0 {
        Seq::empty()
    } else {
        successful_pushes(data.drop_last(), results.drop_last()) + if results.last() is Ok {
            data.last()
        } else {
            Seq::<u8>::empty()
        }
    }
}

/// Serializer for MQTT packet fields.
pub struct MqttSerializer<'a> {
    buf: &'a mut [u8],
    index: usize,
}

impl<'a> MqttSerializer<'a> {
    /// Length of the underlying buffer.
    pub closed spec fn capacity(&self) -> nat {
        (*self.buf)@.len()
    }

    /// Bytes written after the reserved fixed-header space.
    pub closed spec fn written(&self) -> Seq<u8> {
        if self.index <= (*self.buf)@.len() {
            (*self.buf)@.subrange(MAX_FIXED_HEADER_SIZE as int, self.index as int)
        } else {
            Seq::empty()
        }
    }

    /// The whole underlying buffer.
    pub closed spec fn storage(&self) -> Seq<u8> {
        (*self.buf)@
    }

    /// The buffer being written; callers learn what it holds once the serializer is done from
    /// its final value.
    pub closed spec fn buffer(&self) -> &'a mut [u8] {
        self.buf
    }

    /// Current write position in the buffer.
    pub closed spec fn position(&self) -> nat {
        self.index as nat
    }

    /// Internal consistency of the write position.
    pub closed spec fn wf(&self) -> bool {
        &&& self.index >= MAX_FIXED_HEADER_SIZE
        &&& (self.index <= (*self.buf)@.len() || self.index == MAX_FIXED_HEADER_SIZE)
        &&& !overflows(self.capacity(), self.written())
    }

    /// A well-formed serializer has not run past its buffer.
    pub proof fn lemma_wf(&self)
        requires
            self.wf(),
        ensures
            !overflows(self.capacity(), self.written()),
    {
    }

    /// The capacity is the storage's length.
    pub proof fn lemma_storage_len(&self)
        ensures
            self.storage().len() == self.capacity(),
    {
    }

    /// The write position sits right after what was written.
    pub proof fn lemma_position(&self)
        requires
            self.wf(),
        ensures
            self.position() == MAX_FIXED_HEADER_SIZE + self.written().len(),
            self.position() <= self.capacity() || self.written().len() == 0,
    {
    }

    /// Whether pushing the fields `e` took this serializer from `old` to `self` with result `r`.
    pub open spec fn pushed(&self, old: &Self, e: Enc, r: Result<(), Error>) -> bool {
        &&& self.wf()
        &&& self.capacity() == old.capacity()
        &&& self.position() >= old.position()
        &&& keeps_outside(old.storage(), self.storage(), old.position() as int, self.position() as int)
        &&& match spec_body_result(old.capacity(), enc_then(Ok(old.written()), e)) {
            Ok(b) => r is Ok && self.written() == b,
            Err(x) => r == Err::<(), Error>(x),
        }
    }

    /// Construct a serializer over one packet buffer.
    pub fn new(buf: &'a mut [u8]) -> (r: Self)
        ensures
            r.wf(),
            r.capacity() == old(buf)@.len(),
            r.written() == Seq::<u8>::empty(),
            r.storage() == old(buf)@,
            final(r.buffer())@ == final(buf)@,
    {
        let r = MqttSerializer { buf, index: MAX_FIXED_HEADER_SIZE };
        proof {
            assert(r.written() =~= Seq::<u8>::empty());
        }
        r
    }

    /// Finish the packet without the fixed header: the bytes written after the reserved space.
    pub fn finish_without_fixed_header(self) -> (r: &'a [u8])
        requires
            self.wf(),
            self.capacity() >= MAX_FIXED_HEADER_SIZE,
        ensures
            r@ == self.written(),
    {
        let index = self.index;
        let whole: &'a [u8] = self.buf;
        crate::de::slice_range(whole, MAX_FIXED_HEADER_SIZE, index)
    }

    /// The free part of the buffer after what was written, for writing in place before a
    /// `commit`.
    pub fn remainder(&mut self) -> (r: &mut [u8])
        requires
            old(self).wf(),
        ensures
            old(self).position() <= old(self).capacity() ==> r@ == old(self).storage().subrange(
                old(self).position() as int,
                old(self).capacity() as int,
            ),
            old(self).position() > old(self).capacity() ==> r@.len() == 0,
            final(final(self).buffer())@ == final(old(self).buffer())@,
            final(r)@.len() == r@.len() ==> {
                &&& final(self).wf()
                &&& final(self).capacity() == old(self).capacity()
                &&& final(self).position() == old(self).position()
                &&& final(self).written() == old(self).written()
                &&& old(self).position() <= old(self).capacity() ==> final(self).storage()
                    == old(self).storage().subrange(0, old(self).position() as int) + final(r)@
                &&& old(self).position() <= old(self).capacity() ==> final(self).storage().subrange(
                    0,
                    old(self).position() as int,
                ) == old(self).storage().subrange(0, old(self).position() as int)
                &&& old(self).position() > old(self).capacity() ==> final(self).storage()
                    == old(self).storage()
            },
    {
        let len = self.buf.len();
        let start = if self.index < len {
            self.index
        } else {
            len
        };
        let ghost before = (*self.buf)@;
        let (front, back) = self.buf.split_at_mut(start);
        assert(front@ =~= before.subrange(0, start as int));
        back
    }

    /// After `n` payload bytes were written in place at the write position, the written
    /// part grows by them.
    pub proof fn lemma_commit_written(&self, before: &Self, n: nat)
        requires
            before.wf(),
            self.wf(),
            before.position() + n <= before.capacity(),
            self.position() == before.position() + n,
            self.capacity() == before.capacity(),
            self.storage().subrange(0, before.position() as int) == before.storage().subrange(
                0,
                before.position() as int,
            ),
        ensures
            self.written() == before.written() + self.storage().subrange(
                before.position() as int,
                (before.position() + n) as int,
            ),
    {
        let p = before.position() as int;
        assert(before.written() == before.storage().subrange(MAX_FIXED_HEADER_SIZE as int, p));
        assert(self.written() == self.storage().subrange(MAX_FIXED_HEADER_SIZE as int, p + n));
        assert(before.storage().subrange(MAX_FIXED_HEADER_SIZE as int, p) =~= self.storage().subrange(
            0,
            p,
        ).subrange(MAX_FIXED_HEADER_SIZE as int, p));
        assert(self.written() =~= before.written() + self.storage().subrange(p, p + n));
    }

    /// A fresh serializer over a buffer with room for the fixed header has an empty body, and
    /// pushing `d` onto it succeeds exactly when `d` fits after the reserved bytes; the body
    /// is then `d`.
    pub proof fn law_fresh_push(&self, after: &Self, d: Seq<u8>, r: Result<(), Error>)
        requires
            self.wf(),
            self.written() == Seq::<u8>::empty(),
            self.capacity() >= MAX_FIXED_HEADER_SIZE,
            after.pushed(self, Ok(d), r),
        ensures
            r is Ok <==> d.len() <= self.capacity() - MAX_FIXED_HEADER_SIZE,
            r is Ok ==> after.written() == d,
    {
        assert(Seq::<u8>::empty() + d =~= d);
    }

    /// The body of a serializer that started empty is the data of the pushes that went
    /// through, in order: `states` are the serializer before the first push and after each
    /// one, the `k`-th push offering `data[k]` and answering `results[k]`, and a push that
    /// failed left the body as it was.
    pub proof fn law_body_is_successful_pushes(
        states: Seq<Self>,
        data: Seq<Seq<u8>>,
        results: Seq<Result<(), Error>>,
    )
        requires
            states.len() == data.len() + 1,
            results.len() == data.len(),
            states[0].wf(),
            states[0].written() == Seq::<u8>::empty(),
            forall|k: int|
                #![trigger results[k]]
                0 <= k < data.len() ==> states[k + 1].pushed(&states[k], Ok(data[k]), results[k])
                    && (results[k] is Err ==> states[k + 1].written() == states[k].written()),
        ensures
            states.last().written() == successful_pushes(data, results),
        decreases data.len(),
    {
        if data.len() > 0 {
            let n = data.len() - 1;
            Self::law_body_is_successful_pushes(states.drop_last(), data.drop_last(), results.drop_last());
            assert(states.drop_last().last() == states[n]);
            let _ = results[n];
            let w = states[n].written();
            assert(enc_then(Ok(w), Ok(data[n])) == Ok::<Seq<u8>, Seq<u8>>(w + data[n]));
            assert(data.drop_last().len() == n);
            if results[n] is Ok {
                assert(successful_pushes(data, results) =~= successful_pushes(
                    data.drop_last(),
                    results.drop_last(),
                ) + data[n]);
            } else {
                assert(successful_pushes(data, results) =~= successful_pushes(
                    data.drop_last(),
                    results.drop_last(),
                ));
            }
        }
    }

    /// Write data into the packet.
    pub fn push_bytes(&mut self, data: &[u8]) -> (r: Result<(), Error>)
        requires
            old(self).wf(),
        ensures
            final(self).pushed(old(self), Ok(data@), r),
            final(final(self).buffer())@ == final(old(self).buffer())@,
            r is Err ==> final(self).written() == old(self).written() && final(self).storage()
                == old(self).storage(),
    {
        if self.buf.len() - (if self.index <= self.buf.len() {
            self.index
        } else {
            self.buf.len()
        }) < data.len() {
            return Err(Error::InsufficientMemory);
        }
        if data.len() == 0 {
            proof {
                assert(old(self).written() + data@ =~= old(self).written());
            }
            return Ok(());
        }
        let ghost old_buf = (*self.buf)@;
        let start: usize = self.index;
        let blen: usize = self.buf.len();
        let mut i: usize = 0;
        while i < data.len()
            invariant
                final(self.buffer())@ == final(old(self).buffer())@,
                blen == (*self.buf)@.len(),
                start == self.index,
                start >= MAX_FIXED_HEADER_SIZE,
                start + data@.len() <= (*self.buf)@.len(),
                i <= data@.len(),
                (*self.buf)@.len() == old_buf.len(),
                forall|k: int| 0 <= k < start ==> (*self.buf)@[k] == old_buf[k],
                forall|k: int| start + i <= k < old_buf.len() ==> (*self.buf)@[k] == old_buf[k],
                forall|k: int| 0 <= k < i ==> (*self.buf)@[start + k] == data@[k],
            decreases data@.len() - i,
        {
            self.buf[start + i] = data[i];
            i += 1;
        }
        self.index = start + data.len();
        proof {
            assert(self.written() =~= old(self).written() + data@);
        }
        Ok(())
    }

    /// Push a byte to the tail of the packet.
    pub fn push(&mut self, byte: u8) -> (r: Result<(), Error>)
        requires
            old(self).wf(),
        ensures
            final(self).pushed(old(self), Ok(seq![byte]), r),
            final(final(self).buffer())@ == final(old(self).buffer())@,
            r is Err ==> final(self).written() == old(self).written() && final(self).storage()
                == old(self).storage(),
    {
        if self.index >= self.buf.len() {
            return Err(Error::InsufficientMemory);
        }
        let ghost old_buf = (*self.buf)@;
        self.buf[self.index] = byte;
        self.index = self.index + 1;
        proof {
            assert(self.written() =~= old(self).written() + seq![byte]);
        }
        Ok(())
    }

    /// Commit `len` bytes written directly into the buffer after the current position.
    pub fn commit(&mut self, len: usize) -> (r: Result<(), Error>)
        requires
            old(self).wf(),
        ensures
            final(self).wf(),
            final(self).capacity() == old(self).capacity(),
            final(self).storage() == old(self).storage(),
            r is Err ==> final(self).position() == old(self).position(),
            r is Ok <==> (len == 0 || old(self).position() + len <= old(self).capacity()),
            r is Ok ==> final(self).position() == old(self).position() + len,
            r is Err ==> r == Err::<(), Error>(Error::InsufficientMemory),
            final(final(self).buffer())@ == final(old(self).buffer())@,
    {
        if self.buf.len() - (if self.index <= self.buf.len() {
            self.index
        } else {
            self.buf.len()
        }) < len {
            return Err(Error::InsufficientMemory);
        }
        self.index = self.index + len;
        Ok(())
    }

    /// Give up on the packet: the buffer keeps what was written to it so far.
    pub(crate) fn release(self)
        ensures
            final(self.buffer())@ == self.storage(),
    {
        let whole: &'a [u8] = self.buf;
        let _ = whole;
    }

    /// Finalize the packet, prepending the MQTT fixed header, and return its start offset in
    /// the buffer together with its bytes. The buffer then holds the packet at that offset and
    /// keeps every other byte; on failure it keeps what it held.
    pub fn finalize(self, typ: MessageType, flags: u8) -> (r: Result<(usize, &'a [u8]), Error>)
        requires
            self.wf(),
        ensures
            match spec_finalize(self.capacity(), self.written(), spec_header_byte(typ, flags)) {
                Ok((offset, bytes)) => r is Ok && r->Ok_0.0 == offset && r->Ok_0.1@ == bytes,
                Err(e) => r == Err::<(usize, &'a [u8]), Error>(e),
            },
            final(self.buffer())@.len() == self.capacity(),
            r matches Ok((offset, bytes)) ==> offset + bytes@.len() == self.position()
                && self.position() <= self.capacity()
                && final(self.buffer())@.subrange(offset as int, offset + bytes@.len()) == bytes@
                && keeps_outside(self.storage(), final(self.buffer())@, offset as int, offset + bytes@.len()),
            r is Err ==> final(self.buffer())@ == self.storage(),
    {
        let len: usize = self.index - MAX_FIXED_HEADER_SIZE;
        let ghost body = self.written();
        if len > MQTT_VARINT_MAX as usize {
            return Err(Error::InsufficientMemory);
        }
        let mut buffer = VarintBuffer::new();
        let written = write_mqtt_u32_varint(len as u32, &mut buffer);
        proof {
            lemma_encode_len_max(len as nat);
            assert(Seq::<u8>::empty() + spec_varint_encode(len as nat) =~= spec_varint_encode(
                len as nat,
            ));
        }
        if written.is_err() {
            return Err(Error::InsufficientMemory);
        }
        let remaining_len = buffer.as_slice();
        if self.buf.len() < MAX_FIXED_HEADER_SIZE {
            return Err(Error::InsufficientMemory);
        }
        let n: usize = remaining_len.len();
        assert(remaining_len@ == spec_varint_encode(len as nat));
        assert(body.len() == len);
        let start: usize = MAX_FIXED_HEADER_SIZE - n;
        let mut i: usize = 0;
        let ghost old_buf = (*self.buf)@;
        let ghost fin = final(self.buffer())@;
        assert(self.index <= old_buf.len());
        assert(body == old_buf.subrange(MAX_FIXED_HEADER_SIZE as int, self.index as int));
        while i < n
            invariant
                final(self.buffer())@ == fin,
                n == remaining_len@.len(),
                remaining_len@ == spec_varint_encode(len as nat),
                body.len() == len,
                len == self.index - MAX_FIXED_HEADER_SIZE,
                body == old_buf.subrange(MAX_FIXED_HEADER_SIZE as int, self.index as int),
                1 <= n <= 4,
                start == MAX_FIXED_HEADER_SIZE - n,
                self.index >= MAX_FIXED_HEADER_SIZE,
                self.index <= (*self.buf)@.len(),
                i <= n,
                (*self.buf)@.len() == old_buf.len(),
                forall|k: int| MAX_FIXED_HEADER_SIZE <= k < old_buf.len() ==> (*self.buf)@[k]
                    == old_buf[k],
                forall|k: int| 0 <= k < start ==> (*self.buf)@[k] == old_buf[k],
                forall|k: int| 0 <= k < i ==> (*self.buf)@[start + k] == remaining_len@[k],
            decreases n - i,
        {
            self.buf[start + i] = remaining_len[i];
            i += 1;
        }
        let t: u8 = typ.value();
        let header: u8 = (t << 4) | (flags & 0x0f);
        let offset: usize = start - 1;
        self.buf[offset] = header;
        proof {
            let out = (*self.buf)@.subrange(offset as int, self.index as int);
            let expect = seq![header] + spec_varint_encode(len as nat) + body;
            assert((*self.buf)@.len() == old_buf.len());
            assert(self.index <= (*self.buf)@.len());
            assert(out.len() == self.index - offset);
            assert(expect.len() == 1 + n + body.len());
            assert(out.len() == expect.len());
            assert forall|k: int| 0 <= k < out.len() implies out[k] == expect[k] by {
                if k == 0 {
                } else if k < 1 + n {
                    assert(out[k] == (*self.buf)@[start + (k - 1)]);
                } else {
                    assert(out[k] == old_buf[offset + k]);
                }
            }
            assert(out =~= expect);
        }
        let end = self.index;
        let whole: &'a [u8] = self.buf;
        Ok((offset, crate::de::slice_range(whole, offset, end)))
    }
}

} // verus!

verus! {

impl<'a> MqttSerializer<'a> {
    /// Push a big-endian two-byte integer.
    pub fn push_u16(&mut self, value: u16) -> (r: Result<(), Error>)
        requires
            old(self).wf(),
        ensures
            final(self).pushed(old(self), Ok(be16(value as nat)), r),
            final(final(self).buffer())@ == final(old(self).buffer())@,
            r is Err ==> final(self).written() == old(self).written() && final(self).storage()
                == old(self).storage(),
    {
        let hi: u8 = (value >> 8) as u8;
        let lo: u8 = (value & 0xff) as u8;
        proof {
            assert((value >> 8) as u8 == ((value / 256) % 256) as u8) by (bit_vector);
            assert((value & 0xff) as u8 == (value % 256) as u8) by (bit_vector);
        }
        let bytes: [u8; 2] = [hi, lo];
        proof {
            assert(bytes@ =~= be16(value as nat));
        }
        self.push_bytes(bytes.as_slice())
    }

    /// Push a big-endian four-byte integer.
    pub fn push_u32(&mut self, value: u32) -> (r: Result<(), Error>)
        requires
            old(self).wf(),
        ensures
            final(self).pushed(old(self), Ok(be32(value as nat)), r),
            final(final(self).buffer())@ == final(old(self).buffer())@,
            r is Err ==> final(self).written() == old(self).written() && final(self).storage()
                == old(self).storage(),
    {
        let b0: u8 = (value >> 24) as u8;
        let b1: u8 = ((value >> 16) & 0xff) as u8;
        let b2: u8 = ((value >> 8) & 0xff) as u8;
        let b3: u8 = (value & 0xff) as u8;
        proof {
            assert((value >> 24) as u8 == ((value / 16777216) % 256) as u8) by (bit_vector);
            assert(((value >> 16) & 0xff) as u8 == ((value / 65536) % 256) as u8) by (bit_vector);
            assert(((value >> 8) & 0xff) as u8 == ((value / 256) % 256) as u8) by (bit_vector);
            assert((value & 0xff) as u8 == (value % 256) as u8) by (bit_vector);
        }
        let bytes: [u8; 4] = [b0, b1, b2, b3];
        proof {
            assert(bytes@ =~= be32(value as nat));
        }
        self.push_bytes(bytes.as_slice())
    }

    /// Push a UTF-8 string or binary data field: a two-byte length, then the bytes. Fields
    /// longer than 65535 bytes cannot be encoded.
    pub fn push_prefixed(&mut self, data: &[u8]) -> (r: Result<(), Error>)
        requires
            old(self).wf(),
        ensures
            final(self).pushed(old(self), enc_prefixed(data@), r),
            final(final(self).buffer())@ == final(old(self).buffer())@,
    {
        if data.len() > 65535 {
            proof {
                assert(old(self).written() + Seq::<u8>::empty() =~= old(self).written());
            }
            return Err(Error::Custom);
        }
        proof {
            lemma_push_then(self.capacity(), self.written(), Ok(be16(data@.len())), Ok(data@));
        }
        self.push_u16(data.len() as u16)?;
        self.push_bytes(data)
    }

    /// Push an MQTT variable byte integer; values above the 28-bit maximum cannot be encoded.
    pub fn push_varint(&mut self, value: u32) -> (r: Result<(), Error>)
        requires
            old(self).wf(),
        ensures
            final(self).pushed(old(self), enc_varint(value as nat), r),
            final(final(self).buffer())@ == final(old(self).buffer())@,
            r is Err ==> final(self).written() == old(self).written() && final(self).storage()
                == old(self).storage(),
    {
        let mut buffer = VarintBuffer::new();
        if write_mqtt_u32_varint(value, &mut buffer).is_err() {
            proof {
                if value <= MQTT_VARINT_MAX {
                    lemma_encode_len_max(value as nat);
                }
                assert(old(self).written() + Seq::<u8>::empty() =~= old(self).written());
            }
            return Err(Error::Custom);
        }
        proof {
            assert(Seq::<u8>::empty() + spec_varint_encode(value as nat) =~= spec_varint_encode(
                value as nat,
            ));
        }
        self.push_bytes(buffer.as_slice())
    }
}

} // verus!

verus! {

/// A control packet that the serializer can encode.
pub trait ControlPacket {
    /// Encoding of the packet's variable header and payload.
    spec fn spec_fields(&self) -> Enc;

    /// The packet's type.
    spec fn spec_message_type(&self) -> MessageType;

    /// The packet's fixed-header flags.
    spec fn spec_flags(&self) -> u8;

    /// Whether the packet's property blocks have sizes that can be computed.
    spec fn encodable(&self) -> bool;

    /// The packet's type.
    fn message_type(&self) -> (r: MessageType)
        ensures
            r == self.spec_message_type(),
    ;

    /// The packet's fixed-header flags.
    fn fixed_header_flags(&self) -> (r: u8)
        ensures
            r == self.spec_flags(),
    ;

    /// Serialize the variable header and payload.
    fn serialize(&self, ser: &mut MqttSerializer) -> (r: Result<(), Error>)
        requires
            old(ser).wf(),
            self.encodable(),
        ensures
            final(ser).pushed(old(ser), self.spec_fields(), r),
            final(final(ser).buffer())@ == final(old(ser).buffer())@,
    ;
}

impl<'a> MqttSerializer<'a> {
    /// Encode an MQTT control packet and return its start offset in the provided buffer.
    pub fn encode_with_offset<T: ControlPacket>(buf: &'a mut [u8], packet: &T) -> (r: Result<
        (usize, &'a [u8]),
        Error,
    >)
        requires
            packet.encodable(),
        ensures
            match spec_encode(
                old(buf)@.len(),
                packet.spec_fields(),
                packet.spec_message_type(),
                packet.spec_flags(),
            ) {
                Ok((offset, bytes)) => r is Ok && r->Ok_0.0 == offset && r->Ok_0.1@ == bytes,
                Err(e) => r == Err::<(usize, &'a [u8]), Error>(e),
            },
            final(buf)@.len() == old(buf)@.len(),
            r matches Ok((offset, bytes)) ==> offset + bytes@.len() <= old(buf)@.len()
                && final(buf)@.subrange(offset as int, offset + bytes@.len()) == bytes@
                && keeps_outside(old(buf)@, final(buf)@, offset as int, offset + bytes@.len()),
            old(buf)@.len() < MAX_FIXED_HEADER_SIZE ==> final(buf)@ == old(buf)@,
    {
        let mut serializer = Self::new(buf);
        proof {
            assert(Seq::<u8>::empty() + Seq::<u8>::empty() =~= Seq::<u8>::empty());
            match packet.spec_fields() {
                Ok(x) => {
                    assert(Seq::<u8>::empty() + x =~= x);
                },
                Err(x) => {
                    assert(Seq::<u8>::empty() + x =~= x);
                },
            }
        }
        packet.serialize(&mut serializer)?;
        serializer.finalize(packet.message_type(), packet.fixed_header_flags())
    }

    /// Encode an MQTT control packet into a buffer.
    pub fn encode<T: ControlPacket>(buf: &'a mut [u8], packet: &T) -> (r: Result<&'a [u8], Error>)
        requires
            packet.encodable(),
        ensures
            match spec_encode(
                old(buf)@.len(),
                packet.spec_fields(),
                packet.spec_message_type(),
                packet.spec_flags(),
            ) {
                Ok((offset, bytes)) => r is Ok && r->Ok_0@ == bytes,
                Err(e) => r == Err::<&'a [u8], Error>(e),
            },
    {
        let (_, packet) = Self::encode_with_offset(buf, packet)?;
        Ok(packet)
    }
}

} // verus!

verus! {

/// Encode a control packet, reporting any encoding failure as a malformed packet.
pub fn serialize_control_packet<'a, T: ControlPacket>(buf: &'a mut [u8], packet: T) -> (r: Result<
    &'a [u8],
    crate::ProtocolError,
>)
    requires
        packet.encodable(),
    ensures
        match spec_encode(
            old(buf)@.len(),
            packet.spec_fields(),
            packet.spec_message_type(),
            packet.spec_flags(),
        ) {
            Ok((_, bytes)) => r is Ok && r->Ok_0@ == bytes,
            Err(_) => r == Err::<&'a [u8], crate::ProtocolError>(
                crate::ProtocolError::MalformedPacket,
            ),
        },
{
    match MqttSerializer::encode(buf, &packet) {
        Ok(bytes) => Ok(bytes),
        Err(_) => Err(crate::ProtocolError::MalformedPacket),
    }
}

} // verus!
