//! Bit-range access on single bytes, through the `bit_field` crate.
use bit_field::BitField;
use vstd::prelude::*;

verus! {

/// Bits `start..end` of `value`, moved down to bit 0.
pub open spec fn spec_get_bits(value: u8, start: u8, end: u8) -> u8 {
    if start == end {
        0
    } else {
        ((value << ((8 - end) as u8)) >> ((8 - end) as u8)) >> start
    }
}

/// `value` with bits `start..end` replaced by `bits`.
pub open spec fn spec_set_bits(value: u8, start: u8, end: u8, bits: u8) -> u8 {
    if start == end {
        value
    } else {
        (value & !(((0xffu8 << ((8 - end) as u8)) >> ((8 - end) as u8) >> start) << start)) | (
        bits << start)
    }
}

/// Whether `bits` fits in a field of `width` bits.
pub open spec fn fits_bits(bits: u8, width: u8) -> bool {
    if width == 0 {
        bits == 0
    } else {
        (bits << ((8 - width) as u8)) >> ((8 - width) as u8) == bits
    }
}

/// `BitField::get_bits` on a byte: bits `start..end` of `value`, shifted down to bit 0, as the
/// crate computes them (shift the high bits out, then the low ones).
#[verifier::external_body]
pub fn get_bits(value: u8, start: usize, end: usize) -> (r: u8)
    requires
        start < 8,
        end <= 8,
        start <= end,
    ensures
        r == spec_get_bits(value, start as u8, end as u8),
{
    value.get_bits(start..end)
}

/// `BitField::set_bits` on a byte: the field `start..end` of `value` replaced by `bits`; the
/// crate panics unless `bits` fits in the field, which `requires` rules out.
#[verifier::external_body]
pub fn set_bits(value: u8, start: usize, end: usize, bits: u8) -> (r: u8)
    requires
        start < 8,
        end <= 8,
        start <= end,
        fits_bits(bits, (end - start) as u8),
    ensures
        r == spec_set_bits(value, start as u8, end as u8, bits),
{
    let mut out: u8 = value;
    out.set_bits(start..end, bits);
    out
}

/// `BitField::get_bit` on a byte: whether bit `bit` of `value` is set.
#[verifier::external_body]
pub fn get_bit(value: u8, bit: usize) -> (r: bool)
    requires
        bit < 8,
    ensures
        r == ((value & (1u8 << (bit as u8))) != 0),
{
    value.get_bit(bit)
}

} // verus!
