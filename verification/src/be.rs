//! Big-endian (network order) integer encoding on byte sequences.
use vstd::prelude::*;

verus! {

/// Value of two big-endian bytes.
pub open spec fn be16(s: Seq<u8>) -> int {
    (s[0] as int) * 256 + (s[1] as int)
}

/// Value of three big-endian bytes.
pub open spec fn be24(s: Seq<u8>) -> int {
    (s[0] as int) * 65536 + (s[1] as int) * 256 + (s[2] as int)
}

/// Value of four big-endian bytes.
pub open spec fn be32(s: Seq<u8>) -> int {
    (s[0] as int) * 16777216 + (s[1] as int) * 65536 + (s[2] as int) * 256 + (s[3] as int)
}

/// Value of eight big-endian bytes.
pub open spec fn be64(s: Seq<u8>) -> int {
    be32(s.subrange(0, 4)) * 4294967296 + be32(s.subrange(4, 8))
}

/// The two big-endian bytes of `v`.
pub open spec fn be16_bytes(v: int) -> Seq<u8> {
    seq![(v / 256) as u8, (v % 256) as u8]
}

/// The three big-endian bytes of `v`.
pub open spec fn be24_bytes(v: int) -> Seq<u8> {
    seq![(v / 65536) as u8, ((v / 256) % 256) as u8, (v % 256) as u8]
}

/// The four big-endian bytes of `v`.
pub open spec fn be32_bytes(v: int) -> Seq<u8> {
    seq![(v / 16777216) as u8, ((v / 65536) % 256) as u8, ((v / 256) % 256) as u8, (v % 256) as u8]
}

/// The eight big-endian bytes of `v`.
pub open spec fn be64_bytes(v: int) -> Seq<u8> {
    be32_bytes(v / 4294967296) + be32_bytes(v % 4294967296)
}

/// Reading back the two big-endian bytes of `v` gives `v`.
pub proof fn lemma_be16_roundtrip(v: int)
    requires
        0 <= v < 65536,
    ensures
        be16_bytes(v).len() == 2,
        be16(be16_bytes(v)) == v,
{
}

/// Reading back the three big-endian bytes of `v` gives `v`.
pub proof fn lemma_be24_roundtrip(v: int)
    requires
        0 <= v < 16777216,
    ensures
        be24_bytes(v).len() == 3,
        be24(be24_bytes(v)) == v,
{
}

/// Reading back the four big-endian bytes of `v` gives `v`.
pub proof fn lemma_be32_roundtrip(v: int)
    requires
        0 <= v < 4294967296,
    ensures
        be32_bytes(v).len() == 4,
        be32(be32_bytes(v)) == v,
{
}

/// Reading back the eight big-endian bytes of `v` gives `v`.
pub proof fn lemma_be64_roundtrip(v: int)
    requires
        0 <= v < 18446744073709551616,
    ensures
        be64_bytes(v).len() == 8,
        be64(be64_bytes(v)) == v,
{
    lemma_be32_roundtrip(v / 4294967296);
    lemma_be32_roundtrip(v % 4294967296);
    let s = be64_bytes(v);
    assert(s.subrange(0, 4) =~= be32_bytes(v / 4294967296));
    assert(s.subrange(4, 8) =~= be32_bytes(v % 4294967296));
}

/// Reads a big-endian `u16` at `pos`.
pub fn read_be16(b: &[u8], pos: usize) -> (r: u16)
    requires
        pos + 2 <= b@.len(),
    ensures
        r == be16(b@.subrange(pos as int, pos + 2)),
{
    (b[pos] as u16) * 256 + (b[pos + 1] as u16)
}

/// Reads a big-endian `u32` at `pos`.
pub fn read_be32(b: &[u8], pos: usize) -> (r: u32)
    requires
        pos + 4 <= b@.len(),
    ensures
        r == be32(b@.subrange(pos as int, pos + 4)),
{
    (b[pos] as u32) * 16777216 + (b[pos + 1] as u32) * 65536 + (b[pos + 2] as u32) * 256 + (
    b[pos + 3] as u32)
}

/// Reads a big-endian `u64` at `pos`.
pub fn read_be64(b: &[u8], pos: usize) -> (r: u64)
    requires
        pos + 8 <= b@.len(),
    ensures
        r == be64(b@.subrange(pos as int, pos + 8)),
{
    let hi = read_be32(b, pos);
    let _n = b.len();
    let lo = read_be32(b, pos + 4);
    let ghost s = b@.subrange(pos as int, pos + 8);
    assert(s.subrange(0, 4) =~= b@.subrange(pos as int, pos + 4));
    assert(s.subrange(4, 8) =~= b@.subrange(pos + 4, pos + 8));
    (hi as u64) * 4294967296 + (lo as u64)
}

/// Appends the two big-endian bytes of `v`.
pub fn put_be16(out: &mut Vec<u8>, v: u16)
    ensures
        final(out)@ == old(out)@ + be16_bytes(v as int),
{
    out.push((v / 256) as u8);
    out.push((v % 256) as u8);
}

/// Appends the three low big-endian bytes of `v`.
pub fn put_be24(out: &mut Vec<u8>, v: u32)
    requires
        v < 16777216,
    ensures
        final(out)@ == old(out)@ + be24_bytes(v as int),
{
    out.push((v / 65536) as u8);
    out.push(((v / 256) % 256) as u8);
    out.push((v % 256) as u8);
}

/// Appends the four big-endian bytes of `v`.
pub fn put_be32(out: &mut Vec<u8>, v: u32)
    ensures
        final(out)@ == old(out)@ + be32_bytes(v as int),
{
    out.push((v / 16777216) as u8);
    out.push(((v / 65536) % 256) as u8);
    out.push(((v / 256) % 256) as u8);
    out.push((v % 256) as u8);
}

/// Appends the eight big-endian bytes of `v`.
pub fn put_be64(out: &mut Vec<u8>, v: u64)
    ensures
        final(out)@ == old(out)@ + be64_bytes(v as int),
{
    put_be32(out, (v / 4294967296) as u32);
    put_be32(out, (v % 4294967296) as u32);
}

/// Whether `a` sorts before `b` byte-wise, as byte strings compare: at the first byte where
/// they differ, or, when one is a prefix of the other, the shorter first.
pub open spec fn bytes_below(a: Seq<u8>, b: Seq<u8>) -> bool
    decreases a.len(),
{
    if a.len() == 0 || b.len() == 0 {
        a.len() < b.len()
    } else if a[0] != b[0] {
        a[0] < b[0]
    } else {
        bytes_below(a.drop_first(), b.drop_first())
    }
}

/// Comparing two byte strings whose first parts have the same length compares the first
/// parts, or the second parts when the first parts are equal.
pub proof fn lemma_bytes_below_concat(x1: Seq<u8>, y1: Seq<u8>, x2: Seq<u8>, y2: Seq<u8>)
    requires
        x1.len() == x2.len(),
    ensures
        bytes_below(x1 + y1, x2 + y2) == if x1 == x2 {
            bytes_below(y1, y2)
        } else {
            bytes_below(x1, x2)
        },
    decreases x1.len(),
{
    if x1.len() == 0 {
        assert(x1 + y1 =~= y1);
        assert(x2 + y2 =~= y2);
        assert(x1 =~= x2);
    } else {
        assert((x1 + y1)[0] == x1[0]);
        assert((x2 + y2)[0] == x2[0]);
        assert((x1 + y1).drop_first() =~= x1.drop_first() + y1);
        assert((x2 + y2).drop_first() =~= x2.drop_first() + y2);
        lemma_bytes_below_concat(x1.drop_first(), y1, x2.drop_first(), y2);
        if x1[0] == x2[0] {
            if x1.drop_first() == x2.drop_first() {
                assert(x1 =~= x2) by {
                    assert forall|i: int| 0 <= i < x1.len() implies x1[i] == x2[i] by {
                        if i > 0 {
                            assert(x1[i] == x1.drop_first()[i - 1]);
                            assert(x2[i] == x2.drop_first()[i - 1]);
                        }
                    }
                }
            } else {
                assert(x1 != x2);
            }
        } else {
            assert(x1 != x2);
        }
    }
}

/// Four big-endian bytes sort byte-wise as their values do.
pub proof fn lemma_bytes_below_be32(a: Seq<u8>, b: Seq<u8>)
    requires
        a.len() == 4,
        b.len() == 4,
    ensures
        bytes_below(a, b) == (be32(a) < be32(b)),
        0 <= be32(a) < 4294967296,
{
    reveal_with_fuel(bytes_below, 5);
    let a1 = a.drop_first();
    let b1 = b.drop_first();
    let a2 = a1.drop_first();
    let b2 = b1.drop_first();
    let a3 = a2.drop_first();
    let b3 = b2.drop_first();
    assert(a1[0] == a[1] && a2[0] == a[2] && a3[0] == a[3]);
    assert(b1[0] == b[1] && b2[0] == b[2] && b3[0] == b[3]);
    assert(a3.drop_first().len() == 0 && b3.drop_first().len() == 0);
}

/// Eight big-endian bytes sort byte-wise as their values do.
pub proof fn lemma_bytes_below_be64(a: Seq<u8>, b: Seq<u8>)
    requires
        a.len() == 8,
        b.len() == 8,
    ensures
        bytes_below(a, b) == (be64(a) < be64(b)),
{
    let ah = a.subrange(0, 4);
    let al = a.subrange(4, 8);
    let bh = b.subrange(0, 4);
    let bl = b.subrange(4, 8);
    assert(a =~= ah + al);
    assert(b =~= bh + bl);
    lemma_bytes_below_concat(ah, al, bh, bl);
    lemma_bytes_below_be32(ah, bh);
    lemma_bytes_below_be32(al, bl);
    lemma_bytes_below_be32(bh, ah);
    lemma_bytes_below_be32(bl, al);
    if ah == bh {
        assert(be32(ah) == be32(bh));
    } else {
        assert(be32(ah) != be32(bh)) by {
            if be32(ah) == be32(bh) {
                assert(!bytes_below(ah, bh) && !bytes_below(bh, ah));
                lemma_bytes_below_total(ah, bh);
            }
        }
    }
}

/// Of two different byte strings, one sorts before the other.
pub proof fn lemma_bytes_below_total(a: Seq<u8>, b: Seq<u8>)
    requires
        a != b,
    ensures
        bytes_below(a, b) || bytes_below(b, a),
    decreases a.len(),
{
    if a.len() > 0 && b.len() > 0 && a[0] == b[0] {
        if a.drop_first() == b.drop_first() {
            assert(a.drop_first().len() == b.drop_first().len());
            assert(a =~= b) by {
                assert forall|i: int| 0 <= i < a.len() implies a[i] == b[i] by {
                    if i > 0 {
                        assert(a[i] == a.drop_first()[i - 1]);
                        assert(b[i] == b.drop_first()[i - 1]);
                    }
                }
            }
        }
        lemma_bytes_below_total(a.drop_first(), b.drop_first());
    } else if a.len() == 0 && b.len() == 0 {
        assert(a =~= b);
    }
}

} // verus!
