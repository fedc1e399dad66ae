//! CRC-32C (Castagnoli) checksums, as used to protect frame payloads.
use vstd::prelude::*;

verus! {

/// Reversed Castagnoli polynomial.
pub const CRC32C_POLY: u32 = 0x82F63B78;

/// One step of the bit-serial (reflected) CRC register.
pub open spec fn crc_bit(c: u32) -> u32 {
    if c & 1 == 1 {
        (c >> 1) ^ CRC32C_POLY
    } else {
        c >> 1
    }
}

/// `n` steps of the CRC register.
pub open spec fn crc_bits(c: u32, n: nat) -> u32
    decreases n,
{
    if n == 0 {
        c
    } else {
        crc_bits(crc_bit(c), (n - 1) as nat)
    }
}

/// The CRC register after absorbing byte `b`.
pub open spec fn crc_byte(c: u32, b: u8) -> u32 {
    crc_bits(c ^ (b as u32), 8)
}

/// The CRC register after absorbing all of `s`, starting from register `c`.
pub open spec fn crc_update(c: u32, s: Seq<u8>) -> u32
    decreases s.len(),
{
    if s.len() == 0 {
        c
    } else {
        crc_byte(crc_update(c, s.drop_last()), s.last())
    }
}

/// CRC-32C of a byte sequence: initial register all ones, final complement.
pub open spec fn spec_crc32(s: Seq<u8>) -> u32 {
    crc_update(0xFFFF_FFFFu32, s) ^ 0xFFFF_FFFFu32
}

/// Concatenation of a sequence of byte sequences.
pub open spec fn flatten_bytes(parts: Seq<Seq<u8>>) -> Seq<u8>
    decreases parts.len(),
{
    if parts.len() == 0 {
        Seq::empty()
    } else {
        flatten_bytes(parts.drop_last()) + parts.last()
    }
}

/// Absorbing `a + b` is absorbing `a`, then `b`.
pub proof fn lemma_crc_update_append(c: u32, a: Seq<u8>, b: Seq<u8>)
    ensures
        crc_update(c, a + b) == crc_update(crc_update(c, a), b),
    decreases b.len(),
{
    if b.len() == 0 {
        assert(a + b =~= a);
    } else {
        assert((a + b).drop_last() =~= a + b.drop_last());
        assert((a + b).last() == b.last());
        lemma_crc_update_append(c, a, b.drop_last());
    }
}

fn crc_register_byte(c: u32, b: u8) -> (r: u32)
    ensures
        r == crc_byte(c, b),
{
    let mut x: u32 = c ^ (b as u32);
    let mut k: u32 = 0;
    while k < 8
        invariant
            k <= 8,
            crc_bits(x, (8 - k) as nat) == crc_byte(c, b),
        decreases 8 - k,
    {
        x = if x & 1 == 1 {
            (x >> 1) ^ CRC32C_POLY
        } else {
            x >> 1
        };
        k = k + 1;
    }
    x
}

fn crc_register_update(c: u32, data: &[u8]) -> (r: u32)
    ensures
        r == crc_update(c, data@),
{
    let mut x = c;
    let mut i: usize = 0;
    while i < data.len()
        invariant
            i <= data@.len(),
            x == crc_update(c, data@.take(i as int)),
        decreases data@.len() - i,
    {
        assert(data@.take(i + 1).drop_last() =~= data@.take(i as int));
        x = crc_register_byte(x, data[i]);
        i = i + 1;
    }
    assert(data@.take(i as int) =~= data@);
    x
}

/// CRC-32C of `data`.
pub fn crc32(data: &[u8]) -> (r: u32)
    ensures
        r == spec_crc32(data@),
{
    crc_register_update(0xFFFF_FFFF, data) ^ 0xFFFF_FFFF
}

/// CRC-32C of the concatenation of `parts`.
pub fn crc32_vectored(parts: &Vec<Vec<u8>>) -> (r: u32)
    ensures
        r == spec_crc32(flatten_bytes(parts@.map_values(|p: Vec<u8>| p@))),
{
    let ghost views = parts@.map_values(|p: Vec<u8>| p@);
    let mut x: u32 = 0xFFFF_FFFF;
    let mut i: usize = 0;
    while i < parts.len()
        invariant
            i <= parts@.len(),
            views == parts@.map_values(|p: Vec<u8>| p@),
            x == crc_update(0xFFFF_FFFFu32, flatten_bytes(views.take(i as int))),
        decreases parts@.len() - i,
    {
        proof {
            assert(views.take(i + 1).drop_last() =~= views.take(i as int));
            lemma_crc_update_append(
                0xFFFF_FFFFu32,
                flatten_bytes(views.take(i as int)),
                parts@[i as int]@,
            );
        }
        x = crc_register_update(x, parts[i].as_slice());
        i = i + 1;
    }
    assert(views.take(i as int) =~= views);
    x ^ 0xFFFF_FFFF
}

} // verus!
