//! Two's-complement reinterpretation between signed and unsigned integers of one width, as
//! `as` performs it.
use vstd::prelude::*;

verus! {

/// The unsigned value with the same `bits`-wide two's-complement bits as `v`.
pub open spec fn to_unsigned(v: int, bits: nat) -> int {
    if v < 0 {
        v + vstd::arithmetic::power2::pow2(bits)
    } else {
        v
    }
}

/// The signed value with the same `bits`-wide two's-complement bits as `v`.
pub open spec fn to_signed(v: int, bits: nat) -> int {
    if v >= vstd::arithmetic::power2::pow2((bits - 1) as nat) {
        v - vstd::arithmetic::power2::pow2(bits)
    } else {
        v
    }
}

/// The powers of two that bound the integer types used here.
pub proof fn lemma_pow2_values()
    ensures
        vstd::arithmetic::power2::pow2(15) == 32768,
        vstd::arithmetic::power2::pow2(16) == 65536,
        vstd::arithmetic::power2::pow2(31) == 2147483648,
        vstd::arithmetic::power2::pow2(32) == 4294967296,
        vstd::arithmetic::power2::pow2(63) == 9223372036854775808,
        vstd::arithmetic::power2::pow2(64) == 18446744073709551616,
{
    vstd::arithmetic::power2::lemma2_to64();
    vstd::arithmetic::power2::lemma2_to64_rest();
}

pub fn u64_from_i64(v: i64) -> (r: u64)
    ensures
        r == to_unsigned(v as int, 64),
{
    proof {
        lemma_pow2_values();
    }
    if v < 0 {
        (v as i128 + 18446744073709551616i128) as u64
    } else {
        v as u64
    }
}

pub fn i64_from_u64(v: u64) -> (r: i64)
    ensures
        r == to_signed(v as int, 64),
{
    proof {
        lemma_pow2_values();
    }
    if v >= 9223372036854775808u64 {
        (v as i128 - 18446744073709551616i128) as i64
    } else {
        v as i64
    }
}

pub fn u32_from_i32(v: i32) -> (r: u32)
    ensures
        r == to_unsigned(v as int, 32),
{
    proof {
        lemma_pow2_values();
    }
    if v < 0 {
        (v as i64 + 4294967296i64) as u32
    } else {
        v as u32
    }
}

pub fn i32_from_u32(v: u32) -> (r: i32)
    ensures
        r == to_signed(v as int, 32),
{
    proof {
        lemma_pow2_values();
    }
    if v >= 2147483648u32 {
        (v as i64 - 4294967296i64) as i32
    } else {
        v as i32
    }
}

pub fn u16_from_i16(v: i16) -> (r: u16)
    ensures
        r == to_unsigned(v as int, 16),
{
    proof {
        lemma_pow2_values();
    }
    if v < 0 {
        (v as i32 + 65536i32) as u16
    } else {
        v as u16
    }
}

pub fn i16_from_u16(v: u16) -> (r: i16)
    ensures
        r == to_signed(v as int, 16),
{
    proof {
        lemma_pow2_values();
    }
    if v >= 32768u16 {
        (v as i32 - 65536i32) as i16
    } else {
        v as i16
    }
}

/// Reinterpreting as signed and back as unsigned gives the value back.
pub proof fn lemma_unsigned_signed_roundtrip(v: int, bits: nat)
    requires
        bits == 16 || bits == 32 || bits == 64,
        0 <= v < vstd::arithmetic::power2::pow2(bits),
    ensures
        to_unsigned(to_signed(v, bits), bits) == v,
{
    lemma_pow2_values();
}

/// Reinterpreting as unsigned and back as signed gives the value back.
pub proof fn lemma_signed_unsigned_roundtrip(v: int, bits: nat)
    requires
        bits == 16 || bits == 32 || bits == 64,
        -vstd::arithmetic::power2::pow2((bits - 1) as nat) <= v < vstd::arithmetic::power2::pow2(
            (bits - 1) as nat,
        ),
    ensures
        to_signed(to_unsigned(v, bits), bits) == v,
{
    lemma_pow2_values();
}

} // verus!
