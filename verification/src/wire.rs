//! Big-endian encoding of 16-bit signed values, as the MPU-6050 registers
//! and the stored calibration record lay them out.
use vstd::prelude::*;
use vstd::arithmetic::div_mod::lemma_fundamental_div_mod;

verus! {

/// The 16-bit two's-complement pattern of `v`, as an unsigned number.
pub open spec fn bits_of(v: i16) -> int {
    if v >= 0 {
        v as int
    } else {
        v + 0x1_0000
    }
}

/// High (first) byte of `v` in big-endian order.
pub open spec fn be_hi(v: i16) -> u8 {
    (bits_of(v) / 256) as u8
}

/// Low (second) byte of `v` in big-endian order.
pub open spec fn be_lo(v: i16) -> u8 {
    (bits_of(v) % 256) as u8
}

/// The value whose big-endian bytes are `hi`, `lo`.
pub open spec fn from_be(hi: u8, lo: u8) -> i16 {
    let u = hi * 256 + lo;
    if u >= 0x8000 {
        (u - 0x1_0000) as i16
    } else {
        u as i16
    }
}

/// Big-endian bytes of `v`.
pub fn i16_to_be(v: i16) -> (b: (u8, u8))
    ensures
        b == (be_hi(v), be_lo(v)),
{
    let u: i32 = if v >= 0 { v as i32 } else { v as i32 + 0x1_0000 };
    ((u / 256) as u8, (u % 256) as u8)
}

/// The value with big-endian bytes `hi`, `lo`.
pub fn i16_from_be(hi: u8, lo: u8) -> (v: i16)
    ensures
        v == from_be(hi, lo),
{
    let u: i32 = (hi as i32) * 256 + (lo as i32);
    if u >= 0x8000 {
        (u - 0x1_0000) as i16
    } else {
        u as i16
    }
}

/// Decoding the encoding of a value gives the value back.
pub proof fn lemma_be_roundtrip(v: i16)
    ensures
        from_be(be_hi(v), be_lo(v)) == v,
{
    lemma_fundamental_div_mod(bits_of(v), 256);
}

/// Encoding a decoded value gives the same bytes back.
pub proof fn lemma_be_bytes_roundtrip(hi: u8, lo: u8)
    ensures
        be_hi(from_be(hi, lo)) == hi,
        be_lo(from_be(hi, lo)) == lo,
{
    let u = hi * 256 + lo;
    assert(bits_of(from_be(hi, lo)) == u);
    assert(u / 256 == hi && u % 256 == lo) by {
        lemma_fundamental_div_mod(u, 256);
    }
}

} // verus!
