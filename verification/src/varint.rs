//! MQTT variable byte integers (at most four 7-bit groups, least significant first).
use vstd::prelude::*;

verus! {

/// Largest value representable by an MQTT variable byte integer (28 bits).
pub const MQTT_VARINT_MAX: u32 = 0x0FFF_FFFF;

/// Number of bytes that an MQTT variable byte integer may occupy.
pub const MQTT_VARINT_MAX_BYTES: usize = 4;

/// Canonical encoding of `v`: 7-bit groups, least significant first, with the top bit of
/// every byte but the last set.
pub open spec fn spec_varint_encode(v: nat) -> Seq<u8>
    decreases v,
{
    if v < 128 {
        seq![v as u8]
    } else {
        seq![((v % 128) + 128) as u8] + spec_varint_encode(v / 128)
    }
}

/// Number of bytes in the canonical encoding of `v`.
pub open spec fn spec_varint_len(v: nat) -> nat
    decreases v,
{
    if v < 128 {
        1
    } else {
        1 + spec_varint_len(v / 128)
    }
}

/// Weight of the 7-bit group at position `i`.
pub open spec fn group_weight(i: nat) -> nat
    decreases i,
{
    if i == 0 {
        1
    } else {
        128 * group_weight((i - 1) as nat)
    }
}

/// Why decoding stopped without a value.
#[derive(Debug, Copy, Clone, PartialEq, Eq, Structural)]
pub enum VarintError {
    /// The input ended before the integer was terminated.
    Incomplete,
    /// The encoding is overlong or runs past four bytes.
    Invalid,
}

/// Decoding of the groups starting at position `i`, with `acc` the value of the groups before.
pub open spec fn spec_decode_from(s: Seq<u8>, i: nat, acc: nat) -> Result<(nat, nat), VarintError>
    decreases 4 - i,
{
    if i >= 4 {
        Err(VarintError::Invalid)
    } else if i >= s.len() {
        Err(VarintError::Incomplete)
    } else {
        let part = (s[i as int] % 128) as nat;
        let value = acc + part * group_weight(i);
        if s[i as int] < 128 {
            if i != 0 && part == 0 {
                Err(VarintError::Invalid)
            } else {
                Ok((value, i + 1))
            }
        } else {
            spec_decode_from(s, i + 1, value)
        }
    }
}

/// Canonical decoding of an MQTT variable byte integer at the start of `s`: the value and the
/// number of bytes it occupies, or why there is none.
pub open spec fn spec_varint_decode(s: Seq<u8>) -> Result<(nat, nat), VarintError> {
    spec_decode_from(s, 0, 0)
}

} // verus!

verus! {

/// A value to be written as an MQTT variable byte integer.
#[derive(Debug, Copy, Clone, PartialEq, Eq, Structural)]
pub struct Varint(pub u32);

proof fn lemma_group_weights()
    ensures
        group_weight(0) == 1,
        group_weight(1) == 128,
        group_weight(2) == 16384,
        group_weight(3) == 2097152,
        group_weight(4) == 268435456,
        group_weight(5) == 34359738368,
{
    reveal_with_fuel(group_weight, 6);
}

proof fn lemma_group_weight_pos(i: nat)
    ensures
        group_weight(i) >= 1,
    decreases i,
{
    if i > 0 {
        lemma_group_weight_pos((i - 1) as nat);
    }
}

/// Values below `128^k` take at most `k` bytes.
proof fn lemma_len_bound(v: nat, k: nat)
    requires
        k >= 1,
        v < group_weight(k),
    ensures
        spec_varint_len(v) <= k,
    decreases k,
{
    if v >= 128 {
        let g = group_weight((k - 1) as nat);
        assert(k >= 2) by {
            if k == 1 {
                reveal_with_fuel(group_weight, 2);
            }
        }
        assert(v / 128 < g) by (nonlinear_arith)
            requires
                v < 128 * g,
        ;
        lemma_len_bound(v / 128, (k - 1) as nat);
    }
}

/// The canonical encoding has `spec_varint_len` bytes.
pub proof fn lemma_encode_len(v: nat)
    ensures
        spec_varint_encode(v).len() == spec_varint_len(v),
    decreases v,
{
    if v >= 128 {
        lemma_encode_len(v / 128);
    }
}

/// Every value up to `MQTT_VARINT_MAX` encodes in one to four bytes.
pub proof fn lemma_encode_len_max(v: nat)
    requires
        v <= MQTT_VARINT_MAX,
    ensures
        1 <= spec_varint_len(v) <= 4,
        spec_varint_encode(v).len() == spec_varint_len(v),
{
    lemma_group_weights();
    lemma_len_bound(v, 4);
    lemma_encode_len(v);
}

impl Varint {
    /// Return the encoded length for a valid MQTT variable byte integer.
    pub fn encoded_len(&self) -> (len: usize)
        ensures
            len == spec_varint_len(self.0 as nat),
            len <= 5,
    {
        proof {
            lemma_group_weights();
            lemma_len_bound(self.0 as nat, 5);
        }
        let mut value: u32 = self.0;
        let mut len: usize = 1;
        while value >= 128
            invariant
                len >= 1,
                spec_varint_len(self.0 as nat) == len - 1 + spec_varint_len(value as nat),
                spec_varint_len(self.0 as nat) <= 5,
            decreases value,
        {
            value = value / 128;
            len += 1;
        }
        len
    }
}

} // verus!

verus! {

/// Scratch storage for one encoded MQTT variable byte integer.
pub struct VarintBuffer {
    data: [u8; 4],
    len: u8,
}

impl View for VarintBuffer {
    type V = Seq<u8>;

    closed spec fn view(&self) -> Seq<u8> {
        self.data@.subrange(0, self.len as int)
    }
}

impl VarintBuffer {
    #[verifier::type_invariant]
    closed spec fn inv(self) -> bool {
        self.len <= 4
    }

    /// Construct an empty buffer.
    pub fn new() -> (r: Self)
        ensures
            r@ == Seq::<u8>::empty(),
    {
        VarintBuffer { data: [0; 4], len: 0 }
    }

    /// The bytes written so far.
    pub fn as_slice(&self) -> (r: &[u8])
        ensures
            r@ == self@,
            r@.len() <= 4,
    {
        proof {
            use_type_invariant(self);
        }
        let n: usize = self.len as usize;
        self.data.as_slice().split_at(n).0
    }

    /// Append one byte; fails without change once four bytes are held.
    pub fn push(&mut self, byte: u8) -> (r: Result<(), ()>)
        ensures
            old(self)@.len() < 4 ==> r is Ok && final(self)@ == old(self)@.push(byte),
            old(self)@.len() >= 4 ==> r is Err && final(self)@ == old(self)@,
            final(self)@.len() <= 4,
    {
        proof {
            use_type_invariant(&*self);
        }
        let index: usize = self.len as usize;
        if index >= 4 {
            return Err(());
        }
        self.data[index] = byte;
        self.len = self.len + 1;
        proof {
            assert(self@ =~= old(self)@.push(byte));
        }
        Ok(())
    }
}

proof fn lemma_encode_step(v: u32)
    ensures
        v < 128 ==> spec_varint_encode(v as nat) == seq![(v & 0x7f) as u8],
        v >= 128 ==> spec_varint_encode(v as nat) == seq![((v & 0x7f) | 0x80) as u8]
            + spec_varint_encode((v >> 7) as nat),
{
    assert((v & 0x7f) == v % 128) by (bit_vector);
    assert((v >> 7) == v / 128) by (bit_vector);
    assert(((v & 0x7f) | 0x80) == (v & 0x7f) + 128) by (bit_vector);
    assert(v < 128 ==> (v & 0x7f) == v) by (bit_vector);
}

/// Encode one MQTT variable byte integer into a fixed four-byte scratch buffer.
pub fn write_mqtt_u32_varint(value: u32, out: &mut VarintBuffer) -> (r: Result<(), ()>)
    ensures
        value > MQTT_VARINT_MAX ==> r is Err && final(out)@ == old(out)@,
        value <= MQTT_VARINT_MAX ==> {
            let full = old(out)@ + spec_varint_encode(value as nat);
            &&& (r is Ok <==> full.len() <= 4)
            &&& r is Ok ==> final(out)@ == full
            &&& r is Err ==> final(out)@ == full.subrange(0, 4)
        },
{
    if value > MQTT_VARINT_MAX {
        return Err(());
    }
    let ghost full = old(out)@ + spec_varint_encode(value as nat);
    proof {
        use_type_invariant(&*out);
    }
    let mut rest: u32 = value;
    loop
        invariant
            full == out@ + spec_varint_encode(rest as nat),
            full == old(out)@ + spec_varint_encode(value as nat),
            value <= MQTT_VARINT_MAX,
            out@.len() <= 4,
        decreases rest,
    {
        let ghost before = rest;
        proof {
            lemma_encode_step(rest);
        }
        assert((rest & 0x7f) < 128) by (bit_vector);
        let mut byte: u8 = (rest & 0x7f) as u8;
        rest = rest >> 7;
        if rest != 0 {
            byte = byte | 0x80;
        }
        proof {
            assert(before >= 128 <==> rest != 0) by (bit_vector)
                requires
                    rest == before >> 7,
            ;
            assert(rest < before || rest == 0) by (bit_vector)
                requires
                    rest == before >> 7,
            ;
            assert((byte == ((before & 0x7f) | 0x80) as u8) || rest == 0) by (bit_vector)
                requires
                    rest == before >> 7,
                    rest != 0 ==> byte == ((before & 0x7f) as u8 | 0x80),
            ;
        }
        let pushed = out.push(byte);
        if pushed.is_err() {
            proof {
                lemma_encode_len(rest as nat);
                assert(out@ =~= full.subrange(0, 4));
            }
            return Err(());
        }
        if rest == 0 {
            proof {
                assert(out@ =~= full);
            }
            return Ok(());
        }
        proof {
            assert(full =~= out@ + spec_varint_encode(rest as nat));
        }
    }
}

} // verus!

verus! {

proof fn lemma_or_group(value: u32, part: u32, index: usize)
    requires
        index < 4,
        value < group_weight(index as nat),
        part < 128,
    ensures
        (value | (part << ((index * 7) as u32))) == value + part * group_weight(index as nat),
        value + part * group_weight(index as nat) < group_weight((index + 1) as nat),
{
    lemma_group_weights();
    if index == 0 {
        assert((value | (part << 0u32)) == value + part) by (bit_vector)
            requires
                value < 1,
                part < 128,
        ;
    } else if index == 1 {
        assert((value | (part << 7u32)) == value + part * 128) by (bit_vector)
            requires
                value < 128,
                part < 128,
        ;
    } else if index == 2 {
        assert((value | (part << 14u32)) == value + part * 16384) by (bit_vector)
            requires
                value < 16384,
                part < 128,
        ;
    } else {
        assert((value | (part << 21u32)) == value + part * 2097152) by (bit_vector)
            requires
                value < 2097152,
                part < 128,
        ;
    }
}

/// Decode one canonical MQTT variable byte integer from the start of `bytes`, returning the
/// value and the number of bytes it occupies.
///
/// Rejects overlong encodings and sequences that do not terminate within four bytes; reports
/// `Incomplete` when the input ends first.
pub fn read_mqtt_u32_varint(bytes: &[u8]) -> (r: Result<(u32, usize), VarintError>)
    ensures
        match r {
            Ok((value, len)) => spec_varint_decode(bytes@) == Ok::<(nat, nat), VarintError>(
                (value as nat, len as nat),
            ),
            Err(e) => spec_varint_decode(bytes@) == Err::<(nat, nat), VarintError>(e),
        },
{
    let mut value: u32 = 0;
    let mut index: usize = 0;
    proof {
        lemma_group_weights();
    }
    while index < MQTT_VARINT_MAX_BYTES
        invariant
            index <= 4,
            value < group_weight(index as nat),
            spec_varint_decode(bytes@) == spec_decode_from(bytes@, index as nat, value as nat),
            group_weight(0) == 1,
        decreases 4 - index,
    {
        if index >= bytes.len() {
            return Err(VarintError::Incomplete);
        }
        let shift: u32 = (index * 7) as u32;
        let byte: u8 = bytes[index];
        let part: u32 = (byte & 0x7f) as u32;
        proof {
            assert((byte & 0x7f) == byte % 128) by (bit_vector);
            assert((byte & 0x80) == 0 <==> byte < 128) by (bit_vector);
            lemma_or_group(value, part, index);
        }
        value = value | (part << shift);
        if value > MQTT_VARINT_MAX {
            proof {
                lemma_group_weights();
                lemma_group_weight_monotone((index + 1) as nat, 4);
            }
            return Err(VarintError::Invalid);
        }
        if (byte & 0x80) == 0 {
            if shift != 0 && part == 0 {
                return Err(VarintError::Invalid);
            }
            return Ok((value, index + 1));
        }
        index += 1;
    }
    Err(VarintError::Invalid)
}

proof fn lemma_group_weight_monotone(i: nat, j: nat)
    requires
        i <= j,
    ensures
        group_weight(i) <= group_weight(j),
    decreases j - i,
{
    if i < j {
        lemma_group_weight_monotone(i, (j - 1) as nat);
        lemma_group_weight_pos((j - 1) as nat);
    }
}

/// Probe a possibly incomplete MQTT variable byte integer: `Ok(None)` while more bytes are
/// needed, `Err(())` once the bytes cannot start a valid integer.
pub fn probe_mqtt_u32_varint(bytes: &[u8]) -> (r: Result<Option<(u32, usize)>, ()>)
    ensures
        match spec_varint_decode(bytes@) {
            Ok((value, len)) => r == Ok::<Option<(u32, usize)>, ()>(
                Some((value as u32, len as usize)),
            ),
            Err(VarintError::Incomplete) => r == Ok::<Option<(u32, usize)>, ()>(None),
            Err(VarintError::Invalid) => r == Err::<Option<(u32, usize)>, ()>(()),
        },
{
    match read_mqtt_u32_varint(bytes) {
        Ok((value, len)) => Ok(Some((value, len))),
        Err(VarintError::Incomplete) => Ok(None),
        Err(VarintError::Invalid) => Err(()),
    }
}

} // verus!

verus! {

proof fn lemma_decode_encoded(s: Seq<u8>, i: nat, acc: nat, v: nat)
    requires
        i + spec_varint_len(v) <= 4,
        i + spec_varint_len(v) <= s.len(),
        s.subrange(i as int, (i + spec_varint_len(v)) as int) == spec_varint_encode(v),
        i > 0 ==> v > 0,
    ensures
        spec_decode_from(s, i, acc) == Ok::<(nat, nat), VarintError>(
            (acc + v * group_weight(i), i + spec_varint_len(v)),
        ),
    decreases v,
{
    let enc = spec_varint_encode(v);
    assert(s[i as int] == enc[0]);
    if v < 128 {
        assert(enc[0] == v as u8);
    } else {
        let g = group_weight(i);
        let part = v % 128;
        assert(enc[0] == (part + 128) as u8);
        assert((s[i as int] % 128) as nat == part);
        lemma_encode_len(v / 128);
        assert(s.subrange((i + 1) as int, (i + 1 + spec_varint_len(v / 128)) as int) =~= spec_varint_encode(
            v / 128,
        )) by {
            assert(enc =~= seq![(part + 128) as u8] + spec_varint_encode(v / 128));
            assert forall|k: int| 0 <= k < spec_varint_len(v / 128) implies s[i + 1 + k]
                == #[trigger] spec_varint_encode(v / 128)[k] by {
                assert(s[i + 1 + k] == s.subrange(i as int, (i + spec_varint_len(v)) as int)[1 + k]);
            }
        }
        lemma_decode_encoded(s, i + 1, acc + part * g, v / 128);
        assert(part * g + (v / 128) * (128 * g) == v * g) by (nonlinear_arith)
            requires
                v == 128 * (v / 128) + part,
        ;
    }
}

/// Decoding the canonical encoding of any value up to `MQTT_VARINT_MAX`, whatever follows
/// it, gives back that value and the length of the encoding.
pub proof fn lemma_varint_roundtrip(v: nat, rest: Seq<u8>)
    requires
        v <= MQTT_VARINT_MAX,
    ensures
        spec_varint_decode(spec_varint_encode(v) + rest) == Ok::<(nat, nat), VarintError>(
            (v, spec_varint_len(v)),
        ),
{
    lemma_encode_len_max(v);
    let s = spec_varint_encode(v) + rest;
    assert(s.subrange(0, spec_varint_len(v) as int) =~= spec_varint_encode(v));
    lemma_decode_encoded(s, 0, 0, v);
    lemma_group_weights();
    assert(0 + v * group_weight(0) == v);
}

proof fn lemma_decoded_is_encoding(s: Seq<u8>, i: nat, acc: nat) -> (v: nat)
    requires
        spec_decode_from(s, i, acc) is Ok,
    ensures
        ({
            let (value, n) = spec_decode_from(s, i, acc)->Ok_0;
            &&& i < n <= 4
            &&& n <= s.len()
            &&& value == acc + v * group_weight(i)
            &&& v < group_weight((n - i) as nat)
            &&& spec_varint_len(v) == n - i
            &&& s.subrange(i as int, n as int) == spec_varint_encode(v)
            &&& i > 0 ==> v > 0
        }),
    decreases 4 - i,
{
    let b = s[i as int];
    let part = (b % 128) as nat;
    let g = group_weight(i);
    lemma_group_weight_pos(i);
    if b < 128 {
        reveal_with_fuel(group_weight, 2);
        assert(s.subrange(i as int, (i + 1) as int) =~= seq![b]);
        assert(spec_varint_encode(part) =~= seq![b]);
        part
    } else {
        let w = lemma_decoded_is_encoding(s, i + 1, acc + part * g);
        let (value, n) = spec_decode_from(s, i, acc)->Ok_0;
        let v = part + 128 * w;
        assert(v / 128 == w && v % 128 == part) by (nonlinear_arith)
            requires
                v == part + 128 * w,
                part < 128,
        ;
        assert(v >= 128) by (nonlinear_arith)
            requires
                v == part + 128 * w,
                w > 0,
        ;
        assert(spec_varint_encode(v) =~= seq![b] + spec_varint_encode(w)) by {
            assert(((part + 128) as u8) == b);
        }
        assert(s.subrange(i as int, n as int) =~= seq![b] + s.subrange((i + 1) as int, n as int));
        assert(value == acc + v * g) by (nonlinear_arith)
            requires
                value == acc + part * g + w * group_weight(i + 1),
                group_weight(i + 1) == 128 * g,
                v == part + 128 * w,
        ;
        assert(v < group_weight((n - i) as nat)) by {
            assert(group_weight((n - i) as nat) == 128 * group_weight((n - (i + 1)) as nat));
            assert(part + 128 * w < 128 * group_weight((n - (i + 1)) as nat)) by (nonlinear_arith)
                requires
                    w < group_weight((n - (i + 1)) as nat),
                    part < 128,
            ;
        }
        v
    }
}

/// Whatever decodes successfully is exactly the canonical encoding of the decoded value, and
/// that value is at most `MQTT_VARINT_MAX`: every MQTT variable byte integer has one encoding.
pub proof fn lemma_varint_canonical(s: Seq<u8>)
    requires
        spec_varint_decode(s) is Ok,
    ensures
        ({
            let (value, n) = spec_varint_decode(s)->Ok_0;
            &&& value <= MQTT_VARINT_MAX
            &&& n == spec_varint_len(value)
            &&& s.subrange(0, n as int) == spec_varint_encode(value)
        }),
{
    let v = lemma_decoded_is_encoding(s, 0, 0);
    let (value, n) = spec_varint_decode(s)->Ok_0;
    lemma_group_weights();
    lemma_group_weight_monotone(n, 4);
    assert(value == v);
}

} // verus!
