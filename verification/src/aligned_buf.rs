//! Memory buffers that mirror an aligned region of the write-ahead log (WAL).
use vstd::prelude::*;
use crate::be::{be32_bytes, put_be32};
use crate::store_error::StoreError;

verus! {

/// Whether `a` is a power of two.
pub open spec fn is_power_of_two(a: usize) -> bool {
    a > 0 && a & ((a - 1) as usize) == 0
}

/// `len` rounded up to a multiple of `alignment`.
pub open spec fn round_up(len: int, alignment: int) -> int {
    (len + alignment - 1) / alignment * alignment
}

/// Whether a block of `size` bytes aligned to `alignment` can be laid out in memory.
pub open spec fn layout_fits(size: int, alignment: int) -> bool {
    size <= isize::MAX - (alignment - 1)
}

/// A buffer for the WAL region that starts at `wal_offset` and spans `capacity` bytes.
///
/// The buffer holds data from its start up to its limit.
#[derive(Clone, Debug)]
pub struct AlignedBuf {
    /// WAL offset of the first byte of the buffer.
    pub wal_offset: u64,
    /// Number of bytes the buffer spans, a multiple of its alignment.
    pub capacity: usize,
    /// Alignment of the region, a power of two.
    pub alignment: usize,
    /// End of the data: bytes `[0, limit)` hold data.
    pub limit: usize,
    /// The bytes of the region.
    pub data: Vec<u8>,
}

impl AlignedBuf {
    /// Whether the buffer's fields agree.
    pub open spec fn wf(&self) -> bool {
        &&& self.data@.len() == self.capacity
        &&& self.limit <= self.capacity
        &&& self.capacity > 0
        &&& self.wal_offset + self.capacity <= u64::MAX
    }

    /// End of the data: bytes `[0, limit)` hold data.
    pub open spec fn spec_limit(&self) -> nat {
        self.limit as nat
    }

    /// All bytes of the buffer.
    pub open spec fn bytes(&self) -> Seq<u8> {
        self.data@
    }

    /// The bytes that hold data.
    pub open spec fn written(&self) -> Seq<u8> {
        self.bytes().take(self.spec_limit() as int)
    }

    /// WAL offset just past the buffer.
    pub open spec fn end(&self) -> int {
        self.wal_offset + self.capacity
    }

    /// A buffer for the WAL region at `wal_offset` of at least `len` bytes: `len` rounded up
    /// to a multiple of `alignment`. It fails with `MemoryAlignment` when a block of that size
    /// and alignment cannot be laid out.
    pub fn new(wal_offset: u64, len: usize, alignment: usize) -> (r: Result<AlignedBuf, StoreError>)
        requires
            len > 0,
            is_power_of_two(alignment),
            round_up(len as int, alignment as int) <= usize::MAX,
            wal_offset + round_up(len as int, alignment as int) <= u64::MAX,
        ensures
            match r {
                Ok(buf) => {
                    &&& layout_fits(round_up(len as int, alignment as int), alignment as int)
                    &&& buf.wf()
                    &&& buf.wal_offset == wal_offset
                    &&& buf.capacity == round_up(len as int, alignment as int)
                    &&& buf.spec_limit() == 0
                },
                Err(e) => {
                    &&& !layout_fits(round_up(len as int, alignment as int), alignment as int)
                    &&& e == StoreError::MemoryAlignment
                },
            },
    {
        proof {
            lemma_round_up(len as int, alignment as int);
            lemma_block_split(len as int, alignment as int);
        }
        let whole = len / alignment * alignment;
        let capacity = if len % alignment == 0 {
            whole
        } else {
            whole + alignment
        };
        if alignment - 1 > isize::MAX as usize || capacity > (isize::MAX as usize) - (alignment
            - 1) {
            return Err(StoreError::MemoryAlignment);
        }
        let mut data: Vec<u8> = Vec::with_capacity(capacity);
        let mut i: usize = 0;
        while i < capacity
            invariant
                i <= capacity,
                data@.len() == i,
            decreases capacity - i,
        {
            data.push(0u8);
            i = i + 1;
        }
        Ok(AlignedBuf { wal_offset, capacity, alignment, limit: 0, data })
    }

    /// End of the data.
    pub fn limit(&self) -> (l: usize)
        ensures
            l == self.spec_limit(),
    {
        self.limit
    }

    /// Number of bytes after the data.
    pub fn remaining(&self) -> (r: usize)
        requires
            self.wf(),
        ensures
            r == self.capacity - self.spec_limit(),
    {
        self.capacity - self.limit
    }

    /// Whether the buffer holds any data.
    pub fn has_data(&self) -> (b: bool)
        ensures
            b == (self.spec_limit() > 0),
    {
        self.limit > 0
    }

    /// Copies `buf` to WAL offset `cursor` within the buffer, and ends the data there.
    /// Returns `false`, leaving the buffer as it was, when `buf` does not fit.
    pub fn write_buf(&mut self, cursor: u64, buf: &[u8]) -> (ok: bool)
        requires
            old(self).wf(),
            old(self).wal_offset <= cursor,
        ensures
            final(self).wf(),
            final(self).wal_offset == old(self).wal_offset,
            final(self).capacity == old(self).capacity,
            ok == (cursor - old(self).wal_offset + buf@.len() <= old(self).capacity),
            ok ==> {
                let pos = cursor - old(self).wal_offset;
                &&& final(self).spec_limit() == pos + buf@.len()
                &&& final(self).bytes() == old(self).bytes().take(pos) + buf@ + old(
                    self,
                ).bytes().skip(pos + buf@.len())
            },
            !ok ==> *final(self) == *old(self),
    {
        let offset = cursor - self.wal_offset;
        if offset > self.capacity as u64 {
            return false;
        }
        let pos = offset as usize;
        if buf.len() > self.capacity - pos {
            return false;
        }
        let ghost before = self.data@;
        let mut i: usize = 0;
        while i < buf.len()
            invariant
                pos + buf@.len() <= self.capacity,
                self.data@.len() == self.capacity,
                self.capacity == old(self).capacity,
                self.wal_offset == old(self).wal_offset,
                self.limit == old(self).limit,
                self.alignment == old(self).alignment,
                before == old(self).data@,
                i <= buf@.len(),
                forall|j: int| 0 <= j < pos ==> #[trigger] self.data@[j] == before[j],
                forall|j: int| pos <= j < pos + i ==> #[trigger] self.data@[j] == buf@[j - pos],
                forall|j: int| pos + i <= j < self.capacity ==> #[trigger] self.data@[j] == before[j],
            decreases buf@.len() - i,
        {
            self.data.set(pos + i, buf[i]);
            i = i + 1;
        }
        assert(self.data@ =~= before.take(pos as int) + buf@ + before.skip(pos + buf@.len()));
        self.limit = pos + buf.len();
        true
    }

    /// Whether `other` holds the same region and bytes.
    pub open spec fn same_as(&self, other: &AlignedBuf) -> bool {
        &&& self.wal_offset == other.wal_offset
        &&& self.capacity == other.capacity
        &&& self.alignment == other.alignment
        &&& self.limit == other.limit
        &&& self.data@ == other.data@
    }

    /// A copy of the buffer.
    pub fn duplicate(&self) -> (r: AlignedBuf)
        ensures
            r.same_as(self),
    {
        let mut data: Vec<u8> = Vec::new();
        data.extend_from_slice(self.data.as_slice());
        assert(data@ =~= self.data@);
        AlignedBuf {
            wal_offset: self.wal_offset,
            capacity: self.capacity,
            alignment: self.alignment,
            limit: self.limit,
            data,
        }
    }

    /// Writes `value` in big-endian order at WAL offset `cursor`; see `write_buf`.
    pub fn write_u32(&mut self, cursor: u64, value: u32) -> (ok: bool)
        requires
            old(self).wf(),
            old(self).wal_offset <= cursor,
        ensures
            final(self).wf(),
            final(self).wal_offset == old(self).wal_offset,
            final(self).capacity == old(self).capacity,
            ok == (cursor - old(self).wal_offset + 4 <= old(self).capacity),
            ok ==> {
                let pos = cursor - old(self).wal_offset;
                &&& final(self).spec_limit() == pos + 4
                &&& final(self).bytes() == old(self).bytes().take(pos) + be32_bytes(value as int)
                    + old(self).bytes().skip(pos + 4)
            },
            !ok ==> *final(self) == *old(self),
    {
        let mut b: Vec<u8> = Vec::new();
        put_be32(&mut b, value);
        assert(b@ =~= be32_bytes(value as int));
        self.write_buf(cursor, b.as_slice())
    }
}

/// Rounding up gives a multiple of the alignment, no smaller than the length and less than an
/// alignment above it; a multiple of the alignment is its own rounding.
pub proof fn lemma_round_up(len: int, alignment: int)
    requires
        len >= 0,
        alignment > 0,
    ensures
        len <= round_up(len, alignment) < len + alignment,
        round_up(len, alignment) % alignment == 0,
        len % alignment == 0 ==> round_up(len, alignment) == len,
{
    let q = (len + alignment - 1) / alignment;
    let r = (len + alignment - 1) % alignment;
    assert(len + alignment - 1 == q * alignment + r && 0 <= r < alignment) by (nonlinear_arith)
        requires
            alignment > 0,
            q == (len + alignment - 1) / alignment,
            r == (len + alignment - 1) % alignment,
    ;
    assert((q * alignment) % alignment == 0) by (nonlinear_arith)
        requires
            alignment > 0,
    ;
    if len % alignment == 0 {
        let k = len / alignment;
        assert(len == k * alignment) by (nonlinear_arith)
            requires
                alignment > 0,
                len % alignment == 0,
                k == len / alignment,
        ;
        assert(q == k) by (nonlinear_arith)
            requires
                alignment > 0,
                len == k * alignment,
                len + alignment - 1 == q * alignment + r,
                0 <= r < alignment,
        ;
    }
}

/// An amount splits into whole blocks and a remainder, which together round up as the
/// amount does.
pub proof fn lemma_block_split(n: int, a: int)
    requires
        n >= 0,
        a > 0,
    ensures
        n / a * a + n % a == n,
        0 <= n % a < a,
        n / a * a <= n,
        n >= a ==> n / a * a >= a,
        n < a ==> n / a * a == 0,
        n / a * a % a == 0,
        round_up(n, a) == n / a * a + (if n % a == 0 {
            0
        } else {
            a
        }),
{
    let q = n / a;
    let r = n % a;
    assert(n == q * a + r && 0 <= r < a) by (nonlinear_arith)
        requires
            a > 0,
            q == n / a,
            r == n % a,
    ;
    assert(q * a % a == 0) by (nonlinear_arith)
        requires
            a > 0,
    ;
    assert(n < a ==> q == 0) by (nonlinear_arith)
        requires
            a > 0,
            n >= 0,
            q == n / a,
    ;
    assert(n >= a ==> q * a >= a) by (nonlinear_arith)
        requires
            a > 0,
            n == q * a + r,
            0 <= r < a,
    ;
    let rq = (n + a - 1) / a;
    if r == 0 {
        assert(rq == q) by (nonlinear_arith)
            requires
                a > 0,
                n == q * a,
                rq == (n + a - 1) / a,
        ;
    } else {
        assert(rq == q + 1) by (nonlinear_arith)
            requires
                a > 0,
                n == q * a + r,
                0 < r < a,
                rq == (n + a - 1) / a,
        ;
        assert(rq * a == q * a + a) by (nonlinear_arith)
            requires
                rq == q + 1,
        ;
    }
}

} // verus!
