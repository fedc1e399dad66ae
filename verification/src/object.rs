//! Metadata of data objects offloaded to object storage.
use vstd::prelude::*;
use crate::be::{be32, be32_bytes, be64_bytes, put_be32, put_be64, read_be32};
use crate::casts::{
    lemma_pow2_values, lemma_unsigned_signed_roundtrip, i16_from_u16, i32_from_u32, i64_from_u64, to_signed, to_unsigned, u16_from_i16, u32_from_i32,
    u64_from_i64,
};
use crate::text::{
    hex, lemma_hex_injective, lemma_hex_no_underscore, lemma_split_at_last_underscore,
    lemma_split_at_underscore, push_char,
    push_hex, push_reversed_hex,
};

verus! {

pub const BLOCK_DELIMITER: u8 = 0x66;

pub const FOOTER_MAGIC: u64 = 0x88e241b785f4cff7;

/// Metadata of one object: a run of records of a stream range, and its sparse index.
///
/// The sparse index is a list of 8-byte entries, each a big-endian `u32` end-offset delta
/// (relative to `start_offset`) followed by a big-endian `u32` position in the object data.
#[derive(Debug, Clone, PartialEq, Eq)]
pub struct ObjectMetadata {
    pub stream_id: u64,
    pub range_index: u32,
    pub epoch: u16,
    pub start_offset: u64,
    pub end_offset_delta: u32,
    pub data_len: u32,
    pub sparse_index: Vec<u8>,
    pub key: Option<String>,
}

/// End-offset delta of sparse index entry `i`.
pub open spec fn entry_delta(index: Seq<u8>, i: int) -> int {
    be32(index.subrange(8 * i, 8 * i + 4))
}

/// Data position of sparse index entry `i`.
pub open spec fn entry_position(index: Seq<u8>, i: int) -> int {
    be32(index.subrange(8 * i + 4, 8 * i + 8))
}

/// Number of entries of a sparse index.
pub open spec fn entry_count(index: Seq<u8>) -> int {
    index.len() as int / 8
}

/// Position and size hint after scanning the first `k` entries for the start of
/// `start_offset`: the position of the last entry ending at or before it, with the hint
/// grown by each later entry's distance from that position.
pub open spec fn start_scan(m: ObjectMetadata, start_offset: u64, hint: u32, k: int) -> (int, int)
    decreases k,
{
    if k <= 0 {
        (0, hint as int)
    } else {
        let (p, h) = start_scan(m, start_offset, hint, k - 1);
        let ip = entry_position(m.sparse_index@, k - 1);
        if m.start_offset + entry_delta(m.sparse_index@, k - 1) <= start_offset {
            (ip, h)
        } else {
            (p, h + ip - p)
        }
    }
}

/// Whether the scan for the start stays in range over the first `k` entries.
pub open spec fn start_scan_safe(m: ObjectMetadata, start_offset: u64, hint: u32, k: int) -> bool
    decreases k,
{
    if k <= 0 {
        true
    } else {
        let (p, h) = start_scan(m, start_offset, hint, k - 1);
        let ip = entry_position(m.sparse_index@, k - 1);
        &&& start_scan_safe(m, start_offset, hint, k - 1)
        &&& m.start_offset + entry_delta(m.sparse_index@, k - 1) <= u64::MAX
        &&& m.start_offset + entry_delta(m.sparse_index@, k - 1) > start_offset ==> (p <= ip
            && h + ip - p <= u32::MAX)
    }
}

/// Whether index entry `i` ends the scan for the end position: it ends at or after
/// `end_offset`, or it lies at least `hint` bytes past `start_position`.
pub open spec fn ends_scan(
    m: ObjectMetadata,
    end_offset: Option<u64>,
    start_position: int,
    hint: int,
    i: int,
) -> bool {
    let ie = m.start_offset + entry_delta(m.sparse_index@, i);
    let ip = entry_position(m.sparse_index@, i);
    (end_offset matches Some(e) && ie >= e) || (ip >= start_position && ip - start_position
        >= hint)
}

/// End position found by scanning entries from `i` on: the position of the first entry that
/// ends the scan; the data length when there is none.
pub open spec fn end_scan(
    m: ObjectMetadata,
    end_offset: Option<u64>,
    start_position: int,
    hint: int,
    i: int,
) -> int
    decreases entry_count(m.sparse_index@) - i,
{
    if i < 0 || i >= entry_count(m.sparse_index@) {
        m.data_len as int
    } else if ends_scan(m, end_offset, start_position, hint, i) {
        entry_position(m.sparse_index@, i)
    } else {
        end_scan(m, end_offset, start_position, hint, i + 1)
    }
}

/// Whether entry `i` ends at a stream offset that fits in 64 bits.
pub open spec fn entry_in_range(m: ObjectMetadata, i: int) -> bool {
    m.start_offset + entry_delta(m.sparse_index@, i) <= u64::MAX
}

/// Whether the scan for the end, from entry `i` on, reads only whole entries whose end
/// offsets fit in 64 bits: every entry it reaches, up to the one it stops at, is in range,
/// and when it reaches the end of the index no partial entry is left over.
pub open spec fn end_scan_safe(
    m: ObjectMetadata,
    end_offset: Option<u64>,
    start_position: int,
    hint: int,
    i: int,
) -> bool
    decreases entry_count(m.sparse_index@) - i,
{
    if i < 0 {
        false
    } else if i >= entry_count(m.sparse_index@) {
        m.sparse_index@.len() % 8 == 0
    } else {
        &&& entry_in_range(m, i)
        &&& (ends_scan(m, end_offset, start_position, hint, i) || end_scan_safe(
            m,
            end_offset,
            start_position,
            hint,
            i + 1,
        ))
    }
}

/// The start position and size hint that `find_bound` works with.
pub open spec fn bound_start(
    m: ObjectMetadata,
    start_offset: u64,
    size_hint: u32,
    position: Option<u32>,
) -> (int, int) {
    if start_offset == m.start_offset {
        (0, size_hint as int)
    } else {
        match position {
            Some(p) => (p as int, size_hint as int),
            None => {
                let (p, h) = start_scan(m, start_offset, size_hint, entry_count(m.sparse_index@));
                if p == 0 {
                    (0, m.data_len as int)
                } else {
                    (p, h)
                }
            },
        }
    }
}

/// What `find_bound` returns.
pub open spec fn spec_find_bound(
    m: ObjectMetadata,
    start_offset: u64,
    end_offset: Option<u64>,
    size_hint: u32,
    position: Option<u32>,
) -> Option<(u32, u32)> {
    if start_offset >= m.start_offset + m.end_offset_delta {
        None
    } else if end_offset matches Some(e) && e <= m.start_offset {
        None
    } else {
        let (sp, h) = bound_start(m, start_offset, size_hint, position);
        Some((sp as u32, end_scan(m, end_offset, sp, h, 0) as u32))
    }
}

/// Whether `find_bound` runs on these arguments without a fault: the object's end offset
/// fits in 64 bits and, past the two early returns, each scan of the index reads only whole
/// entries whose end offsets fit, and the scan for the start keeps its sums in range.
pub open spec fn find_bound_safe(
    m: ObjectMetadata,
    start_offset: u64,
    end_offset: Option<u64>,
    size_hint: u32,
    position: Option<u32>,
) -> bool {
    &&& m.start_offset + m.end_offset_delta <= u64::MAX
    &&& (start_offset < m.start_offset + m.end_offset_delta && !(end_offset matches Some(e) && e
        <= m.start_offset)) ==> {
        &&& (start_offset != m.start_offset && position is None) ==> {
            &&& m.sparse_index@.len() % 8 == 0
            &&& start_scan_safe(m, start_offset, size_hint, entry_count(m.sparse_index@))
        }
        &&& end_scan_safe(
            m,
            end_offset,
            bound_start(m, start_offset, size_hint, position).0,
            bound_start(m, start_offset, size_hint, position).1,
            0,
        )
    }
}

/// Hexadecimal key of an object:
/// `{reversed hex prefix}_{cluster}_{stream id}_{range index}_{epoch}_{start offset}`, the
/// numbers in lower-case hexadecimal. The prefix is the hexadecimal numeral of
/// `(stream_id * 31 + range_index) * 31 + start_offset`, in wrapping 64-bit arithmetic,
/// written backwards so that keys spread out.
pub open spec fn object_key(
    cluster: Seq<char>,
    stream_id: u64,
    range_index: u32,
    epoch: u16,
    start_offset: u64,
) -> Seq<char> {
    hex(key_prefix_number(stream_id, range_index, start_offset) as nat).reverse() + seq!['_']
        + cluster + seq!['_'] + hex(stream_id as nat) + seq!['_'] + hex(range_index as nat)
        + seq!['_'] + hex(epoch as nat) + seq!['_'] + hex(start_offset as nat)
}

/// `(stream_id * 31 + range_index) * 31 + start_offset` modulo 2^64.
pub open spec fn key_prefix_number(stream_id: u64, range_index: u32, start_offset: u64) -> int {
    ((((stream_id as int * 31) % 18446744073709551616 + range_index as int) % 18446744073709551616
        * 31) % 18446744073709551616 + start_offset as int) % 18446744073709551616
}

/// Key of the object with these coordinates in cluster `cluster`.
pub fn gen_object_key(
    cluster: &str,
    stream_id: u64,
    range_index: u32,
    epoch: u16,
    start_offset: u64,
) -> (key: String)
    ensures
        key@ == object_key(cluster@, stream_id, range_index, epoch, start_offset),
{
    let mut prefix_number = stream_id.wrapping_mul(31);
    prefix_number = prefix_number.wrapping_add(range_index as u64).wrapping_mul(31);
    prefix_number = prefix_number.wrapping_add(start_offset);
    assert(prefix_number == key_prefix_number(stream_id, range_index, start_offset));
    let mut s = String::new();
    push_reversed_hex(&mut s, prefix_number);
    push_char(&mut s, '_');
    s.append(cluster);
    push_char(&mut s, '_');
    push_hex(&mut s, stream_id);
    push_char(&mut s, '_');
    push_hex(&mut s, range_index as u64);
    push_char(&mut s, '_');
    push_hex(&mut s, epoch as u64);
    push_char(&mut s, '_');
    push_hex(&mut s, start_offset);
    assert(s@ =~= object_key(cluster@, stream_id, range_index, epoch, start_offset));
    s
}

/// The 48-byte object footer: the sparse index position (`data_len + 1`, past the block
/// delimiter) and size as big-endian `u32`s, zero padding, then the footer magic as a
/// big-endian `u64`.
pub open spec fn spec_footer(data_len: u32, index_len: u32) -> Seq<u8> {
    be32_bytes(data_len + 1) + be32_bytes(index_len as int) + Seq::new(32, |i: int| 0u8)
        + be64_bytes(FOOTER_MAGIC as int)
}

/// The footer of an object with `data_len` bytes of data and `index_len` bytes of index.
pub fn gen_footer(data_len: u32, index_len: u32) -> (footer: Vec<u8>)
    requires
        data_len < u32::MAX,
    ensures
        footer@ == spec_footer(data_len, index_len),
        footer@.len() == 48,
{
    let mut footer: Vec<u8> = Vec::with_capacity(48);
    put_be32(&mut footer, data_len + 1);
    put_be32(&mut footer, index_len);
    let mut i: usize = 0;
    while i < 32
        invariant
            i <= 32,
            footer@ == be32_bytes(data_len + 1) + be32_bytes(index_len as int) + Seq::new(
                i as nat,
                |j: int| 0u8,
            ),
        decreases 32 - i,
    {
        footer.push(0u8);
        i = i + 1;
        assert(footer@ =~= be32_bytes(data_len + 1) + be32_bytes(index_len as int) + Seq::new(
            i as nat,
            |j: int| 0u8,
        ));
    }
    put_be64(&mut footer, FOOTER_MAGIC);
    footer
}

impl ObjectMetadata {
    /// Metadata of an empty object of a stream range starting at `start_offset`.
    pub fn new(stream_id: u64, range_index: u32, epoch: u16, start_offset: u64) -> (m: Self)
        ensures
            m.stream_id == stream_id,
            m.range_index == range_index,
            m.epoch == epoch,
            m.start_offset == start_offset,
            m.end_offset_delta == 0,
            m.data_len == 0,
            m.sparse_index@.len() == 0,
            m.key is None,
    {
        ObjectMetadata {
            stream_id,
            range_index,
            epoch,
            start_offset,
            end_offset_delta: 0,
            data_len: 0,
            sparse_index: Vec::new(),
            key: None,
        }
    }

    /// Stream offset just past the object's records.
    pub fn end_offset(&self) -> (r: u64)
        requires
            self.start_offset + self.end_offset_delta <= u64::MAX,
        ensures
            r == self.start_offset + self.end_offset_delta,
    {
        self.start_offset + self.end_offset_delta as u64
    }

    /// Sets the object's key for cluster `cluster`.
    pub fn gen_object_key(&mut self, cluster: &str)
        ensures
            final(self).key matches Some(k) && k@ == object_key(
                cluster@,
                old(self).stream_id,
                old(self).range_index,
                old(self).epoch,
                old(self).start_offset,
            ),
            final(self).stream_id == old(self).stream_id,
            final(self).range_index == old(self).range_index,
            final(self).epoch == old(self).epoch,
            final(self).start_offset == old(self).start_offset,
            final(self).end_offset_delta == old(self).end_offset_delta,
            final(self).data_len == old(self).data_len,
            final(self).sparse_index@ == old(self).sparse_index@,
    {
        self.key = Some(
            gen_object_key(
                cluster,
                self.stream_id,
                self.range_index,
                self.epoch,
                self.start_offset,
            ),
        );
    }

    fn entry_at(&self, i: usize) -> (r: (u64, u32))
        requires
            0 <= i < entry_count(self.sparse_index@),
            entry_in_range(*self, i as int),
        ensures
            r.0 == self.start_offset + entry_delta(self.sparse_index@, i as int),
            r.1 == entry_position(self.sparse_index@, i as int),
    {
        let len = self.sparse_index.len();
        assert(8 * (len as int / 8) <= len) by (nonlinear_arith);
        let d = read_be32(self.sparse_index.as_slice(), 8 * i);
        let p = read_be32(self.sparse_index.as_slice(), 8 * i + 4);
        (self.start_offset + d as u64, p)
    }

    /// Finds, from the sparse index, the range of data positions to read for the records from
    /// `start_offset` up to `end_offset`: `None` when the object holds none of them.
    ///
    /// The start position is 0 when `start_offset` is the object's first offset, else the
    /// given `position`, else the position of the last index entry ending at or before
    /// `start_offset` (with `size_hint` grown to cover the entries after it, or the whole
    /// data when there is no such entry). The end position is that of the first index entry
    /// ending at or after `end_offset`, or lying at least `size_hint` bytes past the start
    /// position; the data length when there is none.
    pub fn find_bound(
        &self,
        start_offset: u64,
        end_offset: Option<u64>,
        size_hint: u32,
        position: Option<u32>,
    ) -> (r: Option<(u32, u32)>)
        requires
            find_bound_safe(*self, start_offset, end_offset, size_hint, position),
        ensures
            r == spec_find_bound(*self, start_offset, end_offset, size_hint, position),
    {
        let object_end_offset = self.start_offset + self.end_offset_delta as u64;
        if start_offset >= object_end_offset {
            return None;
        }
        match end_offset {
            Some(e) => {
                if e <= self.start_offset {
                    return None;
                }
            },
            None => {},
        }
        let n = self.sparse_index.len() / 8;
        let mut size_hint = size_hint;
        let ghost hint0 = size_hint;
        let start_position: u32 = if start_offset == self.start_offset {
            0
        } else {
            match position {
                Some(p) => p,
                None => {
                    let mut p: u32 = 0;
                    let mut i: usize = 0;
                    while i < n
                        invariant
                            n == entry_count(self.sparse_index@),
                            i <= n,
                            start_scan_safe(*self, start_offset, hint0, n as int),
                            (p as int, size_hint as int) == start_scan(
                                *self,
                                start_offset,
                                hint0,
                                i as int,
                            ),
                        decreases n - i,
                    {
                        proof {
                            lemma_start_scan_safe_prefix(
                                *self,
                                start_offset,
                                hint0,
                                n as int,
                                i as int + 1,
                            );
                        }
                        let (ie, ip) = self.entry_at(i);
                        if ie <= start_offset {
                            p = ip;
                        } else {
                            size_hint = size_hint + (ip - p);
                        }
                        i = i + 1;
                    }
                    if p == 0 {
                        size_hint = self.data_len;
                    }
                    p
                },
            }
        };
        assert((start_position as int, size_hint as int) == bound_start(
            *self,
            start_offset,
            hint0,
            position,
        ));
        let mut end_position = self.data_len;
        let mut i: usize = 0;
        while i < n
            invariant_except_break
                n == entry_count(self.sparse_index@),
                end_position == self.data_len,
                i <= n,
                end_scan_safe(*self, end_offset, start_position as int, size_hint as int, i as int),
                end_scan(*self, end_offset, start_position as int, size_hint as int, 0) == end_scan(
                    *self,
                    end_offset,
                    start_position as int,
                    size_hint as int,
                    i as int,
                ),
            ensures
                end_position == end_scan(
                    *self,
                    end_offset,
                    start_position as int,
                    size_hint as int,
                    0,
                ),
            decreases n - i,
        {
            let (ie, ip) = self.entry_at(i);
            let stop_at_end = match end_offset {
                Some(e) => ie >= e,
                None => false,
            };
            if stop_at_end {
                end_position = ip;
                break;
            }
            if ip < start_position {
                i = i + 1;
                continue;
            }
            if ip - start_position >= size_hint {
                end_position = ip;
                break;
            }
            i = i + 1;
        }
        Some((start_position, end_position))
    }
}

/// Object metadata as the placement driver describes an object of a range.
#[derive(Debug, Clone, PartialEq, Eq, Default)]
pub struct ObjectMetadataT {
    pub key: String,
    pub start_offset: i64,
    pub end_offset_delta: i32,
    pub data_len: i32,
    pub sparse_index: Option<Vec<u8>>,
}

/// Object metadata as the placement driver describes an object of a stream.
#[derive(Debug, Clone, PartialEq, Eq, Default)]
pub struct ObjT {
    pub stream_id: i64,
    pub range_index: i32,
    pub epoch: i16,
    pub start_offset: i64,
    pub end_offset_delta: i32,
    pub data_len: i32,
    pub sparse_index: Option<Vec<u8>>,
}

fn copy_vec(v: &Vec<u8>) -> (r: Vec<u8>)
    ensures
        r@ == v@,
{
    let mut r: Vec<u8> = Vec::new();
    r.extend_from_slice(v.as_slice());
    assert(r@ =~= v@);
    r
}

/// The bytes of an optional index, none when absent.
pub open spec fn index_bytes(index: Option<Vec<u8>>) -> Seq<u8> {
    match index {
        Some(v) => v@,
        None => Seq::empty(),
    }
}

impl ObjectMetadata {
    /// Metadata from a range-level record: stream, range and epoch are zero, the integers are
    /// reinterpreted as unsigned, the key is kept and a missing index is empty.
    pub fn from_range_record(t: &ObjectMetadataT) -> (m: ObjectMetadata)
        ensures
            m.stream_id == 0,
            m.range_index == 0,
            m.epoch == 0,
            m.start_offset == to_unsigned(t.start_offset as int, 64),
            m.end_offset_delta == to_unsigned(t.end_offset_delta as int, 32),
            m.data_len == to_unsigned(t.data_len as int, 32),
            m.sparse_index@ == index_bytes(t.sparse_index),
            m.key matches Some(k) && k@ == t.key@,
    {
        let sparse_index = match &t.sparse_index {
            Some(v) => copy_vec(v),
            None => Vec::new(),
        };
        ObjectMetadata {
            stream_id: 0,
            range_index: 0,
            epoch: 0,
            start_offset: u64_from_i64(t.start_offset),
            end_offset_delta: u32_from_i32(t.end_offset_delta),
            data_len: u32_from_i32(t.data_len),
            sparse_index,
            key: Some(t.key.clone()),
        }
    }

    /// The range-level record of this metadata: the key (empty when unset), the integers
    /// reinterpreted as signed, and the index.
    pub fn into_range_record(self) -> (t: ObjectMetadataT)
        ensures
            t.key@ == match self.key {
                Some(k) => k@,
                None => Seq::<char>::empty(),
            },
            t.start_offset == to_signed(self.start_offset as int, 64),
            t.end_offset_delta == to_signed(self.end_offset_delta as int, 32),
            t.data_len == to_signed(self.data_len as int, 32),
            t.sparse_index matches Some(v) && v@ == self.sparse_index@,
    {
        let key = match self.key {
            Some(k) => k,
            None => String::new(),
        };
        ObjectMetadataT {
            key,
            start_offset: i64_from_u64(self.start_offset),
            end_offset_delta: i32_from_u32(self.end_offset_delta),
            data_len: i32_from_u32(self.data_len),
            sparse_index: Some(self.sparse_index),
        }
    }

    /// Metadata from a stream-level record: the integers are reinterpreted as unsigned, there
    /// is no key, and a missing index is empty.
    pub fn from_obj_record(t: &ObjT) -> (m: ObjectMetadata)
        ensures
            m.stream_id == to_unsigned(t.stream_id as int, 64),
            m.range_index == to_unsigned(t.range_index as int, 32),
            m.epoch == to_unsigned(t.epoch as int, 16),
            m.start_offset == to_unsigned(t.start_offset as int, 64),
            m.end_offset_delta == to_unsigned(t.end_offset_delta as int, 32),
            m.data_len == to_unsigned(t.data_len as int, 32),
            m.sparse_index@ == index_bytes(t.sparse_index),
            m.key is None,
    {
        let sparse_index = match &t.sparse_index {
            Some(v) => copy_vec(v),
            None => Vec::new(),
        };
        ObjectMetadata {
            stream_id: u64_from_i64(t.stream_id),
            range_index: u32_from_i32(t.range_index),
            epoch: u16_from_i16(t.epoch),
            start_offset: u64_from_i64(t.start_offset),
            end_offset_delta: u32_from_i32(t.end_offset_delta),
            data_len: u32_from_i32(t.data_len),
            sparse_index,
            key: None,
        }
    }

    /// The stream-level record of this metadata: the integers reinterpreted as signed and a
    /// copy of the index.
    pub fn to_obj_record(&self) -> (t: ObjT)
        ensures
            t.stream_id == to_signed(self.stream_id as int, 64),
            t.range_index == to_signed(self.range_index as int, 32),
            t.epoch == to_signed(self.epoch as int, 16),
            t.start_offset == to_signed(self.start_offset as int, 64),
            t.end_offset_delta == to_signed(self.end_offset_delta as int, 32),
            t.data_len == to_signed(self.data_len as int, 32),
            t.sparse_index matches Some(v) && v@ == self.sparse_index@,
    {
        ObjT {
            stream_id: i64_from_u64(self.stream_id),
            range_index: i32_from_u32(self.range_index),
            epoch: i16_from_u16(self.epoch),
            start_offset: i64_from_u64(self.start_offset),
            end_offset_delta: i32_from_u32(self.end_offset_delta),
            data_len: i32_from_u32(self.data_len),
            sparse_index: Some(copy_vec(&self.sparse_index)),
        }
    }
}

/// Safety over all entries covers every prefix.
pub proof fn lemma_start_scan_safe_prefix(
    m: ObjectMetadata,
    start_offset: u64,
    hint: u32,
    n: int,
    k: int,
)
    requires
        start_scan_safe(m, start_offset, hint, n),
        0 <= k <= n,
    ensures
        start_scan_safe(m, start_offset, hint, k),
    decreases n - k,
{
    if k < n {
        lemma_start_scan_safe_prefix(m, start_offset, hint, n - 1, k);
    }
}

/// Converting metadata to a stream-level record and back gives the same coordinates, offsets,
/// lengths and index.
pub proof fn lemma_obj_record_roundtrip(m: ObjectMetadata)
    ensures
        to_unsigned(to_signed(m.stream_id as int, 64), 64) == m.stream_id,
        to_unsigned(to_signed(m.range_index as int, 32), 32) == m.range_index,
        to_unsigned(to_signed(m.epoch as int, 16), 16) == m.epoch,
        to_unsigned(to_signed(m.start_offset as int, 64), 64) == m.start_offset,
        to_unsigned(to_signed(m.end_offset_delta as int, 32), 32) == m.end_offset_delta,
        to_unsigned(to_signed(m.data_len as int, 32), 32) == m.data_len,
{
    lemma_pow2_values();
    lemma_unsigned_signed_roundtrip(m.stream_id as int, 64);
    lemma_unsigned_signed_roundtrip(m.range_index as int, 32);
    lemma_unsigned_signed_roundtrip(m.epoch as int, 16);
    lemma_unsigned_signed_roundtrip(m.start_offset as int, 64);
    lemma_unsigned_signed_roundtrip(m.end_offset_delta as int, 32);
    lemma_unsigned_signed_roundtrip(m.data_len as int, 32);
}

/// Different objects get different keys, across clusters too: the key determines the
/// cluster, the stream id, the range index, the epoch and the start offset. The prefix and
/// the four numbers hold no `_`, so the cluster is what lies between the first `_` and the
/// fourth `_` from the end, whatever it holds.
pub proof fn lemma_object_key_injective(
    cluster: Seq<char>,
    stream_id: u64,
    range_index: u32,
    epoch: u16,
    start_offset: u64,
    cluster2: Seq<char>,
    stream_id2: u64,
    range_index2: u32,
    epoch2: u16,
    start_offset2: u64,
)
    requires
        object_key(cluster, stream_id, range_index, epoch, start_offset) == object_key(
            cluster2,
            stream_id2,
            range_index2,
            epoch2,
            start_offset2,
        ),
    ensures
        cluster == cluster2,
        stream_id == stream_id2,
        range_index == range_index2,
        epoch == epoch2,
        start_offset == start_offset2,
{
    let u = seq!['_'];
    let p1 = key_prefix_number(stream_id, range_index, start_offset) as nat;
    let p2 = key_prefix_number(stream_id2, range_index2, start_offset2) as nat;
    let r1 = hex(p1).reverse();
    let r2 = hex(p2).reverse();
    lemma_hex_no_underscore(p1);
    lemma_hex_no_underscore(p2);
    assert forall|i: int| 0 <= i < r1.len() implies r1[i] != '_' by {
        assert(r1[i] == hex(p1)[hex(p1).len() - 1 - i]);
    }
    assert forall|i: int| 0 <= i < r2.len() implies r2[i] != '_' by {
        assert(r2[i] == hex(p2)[hex(p2).len() - 1 - i]);
    }
    let (hs1, hr1, he1, ho1) = (
        hex(stream_id as nat),
        hex(range_index as nat),
        hex(epoch as nat),
        hex(start_offset as nat),
    );
    let (hs2, hr2, he2, ho2) = (
        hex(stream_id2 as nat),
        hex(range_index2 as nat),
        hex(epoch2 as nat),
        hex(start_offset2 as nat),
    );
    lemma_hex_no_underscore(stream_id as nat);
    lemma_hex_no_underscore(range_index as nat);
    lemma_hex_no_underscore(epoch as nat);
    lemma_hex_no_underscore(start_offset as nat);
    lemma_hex_no_underscore(stream_id2 as nat);
    lemma_hex_no_underscore(range_index2 as nat);
    lemma_hex_no_underscore(epoch2 as nat);
    lemma_hex_no_underscore(start_offset2 as nat);
    let c1 = cluster + u + hs1;
    let c2 = cluster2 + u + hs2;
    let d1 = c1 + u + hr1;
    let d2 = c2 + u + hr2;
    let e1 = d1 + u + he1;
    let e2 = d2 + u + he2;
    let f1 = e1 + u + ho1;
    let f2 = e2 + u + ho2;
    let k1 = object_key(cluster, stream_id, range_index, epoch, start_offset);
    let k2 = object_key(cluster2, stream_id2, range_index2, epoch2, start_offset2);
    assert(k1 =~= r1 + u + f1);
    assert(k2 =~= r2 + u + f2);
    lemma_split_at_underscore(r1, f1, r2, f2);
    lemma_split_at_last_underscore(e1, ho1, e2, ho2);
    lemma_split_at_last_underscore(d1, he1, d2, he2);
    lemma_split_at_last_underscore(c1, hr1, c2, hr2);
    lemma_split_at_last_underscore(cluster, hs1, cluster2, hs2);
    lemma_hex_injective(stream_id as nat, stream_id2 as nat);
    lemma_hex_injective(range_index as nat, range_index2 as nat);
    lemma_hex_injective(epoch as nat, epoch2 as nat);
    lemma_hex_injective(start_offset as nat, start_offset2 as nat);
}

/// Whether index entry `j` ends at or before `start_offset`.
pub open spec fn ends_by(m: ObjectMetadata, start_offset: u64, j: int) -> bool {
    m.start_offset + entry_delta(m.sparse_index@, j) <= start_offset
}

/// The scan for the start settles on the position of the last entry, among the first `k`,
/// that ends at or before `start_offset`; on 0 when there is none.
pub proof fn lemma_start_scan_last_entry(m: ObjectMetadata, start_offset: u64, hint: u32, k: int)
    requires
        0 <= k,
    ensures
        (forall|j: int| 0 <= j < k ==> !#[trigger] ends_by(m, start_offset, j)) ==> start_scan(
            m,
            start_offset,
            hint,
            k,
        ).0 == 0,
        forall|j: int|
            0 <= j < k && #[trigger] ends_by(m, start_offset, j) && (forall|l: int|
                j < l < k ==> !#[trigger] ends_by(m, start_offset, l)) ==> start_scan(
                m,
                start_offset,
                hint,
                k,
            ).0 == entry_position(m.sparse_index@, j),
    decreases k,
{
    if k > 0 {
        lemma_start_scan_last_entry(m, start_offset, hint, k - 1);
        if ends_by(m, start_offset, k - 1) {
            assert forall|j: int|
                0 <= j < k && #[trigger] ends_by(m, start_offset, j) && (forall|l: int|
                    j < l < k ==> !#[trigger] ends_by(m, start_offset, l)) implies start_scan(
                m,
                start_offset,
                hint,
                k,
            ).0 == entry_position(m.sparse_index@, j) by {
                if j < k - 1 {
                    assert(!ends_by(m, start_offset, k - 1));
                }
            }
        } else {
            assert forall|j: int|
                0 <= j < k && #[trigger] ends_by(m, start_offset, j) && (forall|l: int|
                    j < l < k ==> !#[trigger] ends_by(m, start_offset, l)) implies start_scan(
                m,
                start_offset,
                hint,
                k,
            ).0 == entry_position(m.sparse_index@, j) by {
                assert(j < k - 1);
                assert forall|l: int| j < l < k - 1 implies !#[trigger] ends_by(
                    m,
                    start_offset,
                    l,
                ) by {}
            }
            if forall|j: int| 0 <= j < k ==> !#[trigger] ends_by(m, start_offset, j) {
                assert forall|j: int| 0 <= j < k - 1 implies !#[trigger] ends_by(
                    m,
                    start_offset,
                    j,
                ) by {}
            }
        }
    }
}

/// The scan for the end, from entry `i` on, settles on the position of the first entry that
/// ends the scan; on the data length when none does.
pub proof fn lemma_end_scan_first_entry(
    m: ObjectMetadata,
    end_offset: Option<u64>,
    start_position: int,
    hint: int,
    i: int,
)
    requires
        0 <= i,
    ensures
        (forall|l: int|
            i <= l < entry_count(m.sparse_index@) ==> !#[trigger] ends_scan(
                m,
                end_offset,
                start_position,
                hint,
                l,
            )) ==> end_scan(m, end_offset, start_position, hint, i) == m.data_len,
        forall|j: int|
            i <= j < entry_count(m.sparse_index@) && #[trigger] ends_scan(
                m,
                end_offset,
                start_position,
                hint,
                j,
            ) && (forall|l: int|
                i <= l < j ==> !#[trigger] ends_scan(m, end_offset, start_position, hint, l))
                ==> end_scan(m, end_offset, start_position, hint, i) == entry_position(
                m.sparse_index@,
                j,
            ),
    decreases entry_count(m.sparse_index@) - i,
{
    if i < entry_count(m.sparse_index@) {
        lemma_end_scan_first_entry(m, end_offset, start_position, hint, i + 1);
        if !ends_scan(m, end_offset, start_position, hint, i) {
            assert forall|j: int|
                i <= j < entry_count(m.sparse_index@) && #[trigger] ends_scan(
                    m,
                    end_offset,
                    start_position,
                    hint,
                    j,
                ) && (forall|l: int|
                    i <= l < j ==> !#[trigger] ends_scan(m, end_offset, start_position, hint, l))
                implies end_scan(m, end_offset, start_position, hint, i) == entry_position(
                m.sparse_index@,
                j,
            ) by {
                assert(j > i);
                assert forall|l: int| i + 1 <= l < j implies !#[trigger] ends_scan(
                    m,
                    end_offset,
                    start_position,
                    hint,
                    l,
                ) by {}
            }
        } else {
            assert forall|j: int|
                i <= j < entry_count(m.sparse_index@) && #[trigger] ends_scan(
                    m,
                    end_offset,
                    start_position,
                    hint,
                    j,
                ) && (forall|l: int|
                    i <= l < j ==> !#[trigger] ends_scan(m, end_offset, start_position, hint, l))
                implies end_scan(m, end_offset, start_position, hint, i) == entry_position(
                m.sparse_index@,
                j,
            ) by {
                if j > i {
                    assert(!ends_scan(m, end_offset, start_position, hint, i));
                }
            }
        }
    }
}

/// What `find_bound` finds, said directly. The start position is 0 when `start_offset` is the
/// object's first offset, else the given position, else that of the last index entry ending
/// at or before `start_offset` (0 when there is none). The end position is that of the first
/// index entry that ends the scan (see `ends_scan`), else the data length.
pub proof fn lemma_find_bound_positions(
    m: ObjectMetadata,
    start_offset: u64,
    end_offset: Option<u64>,
    size_hint: u32,
    position: Option<u32>,
)
    requires
        spec_find_bound(m, start_offset, end_offset, size_hint, position) is Some,
    ensures
        ({
            let (s, e) = spec_find_bound(m, start_offset, end_offset, size_hint, position)->0;
            let (sp, h) = bound_start(m, start_offset, size_hint, position);
            let n = entry_count(m.sparse_index@);
            &&& start_offset == m.start_offset ==> s == 0
            &&& start_offset != m.start_offset ==> (position matches Some(p) ==> s == p)
            &&& (start_offset != m.start_offset && position is None) ==> {
                &&& (forall|j: int| 0 <= j < n ==> !#[trigger] ends_by(m, start_offset, j))
                    ==> s == 0
                &&& forall|j: int|
                    0 <= j < n && #[trigger] ends_by(m, start_offset, j) && (forall|l: int|
                        j < l < n ==> !#[trigger] ends_by(m, start_offset, l)) ==> s
                        == entry_position(m.sparse_index@, j)
            }
            &&& (forall|l: int| 0 <= l < n ==> !#[trigger] ends_scan(m, end_offset, sp, h, l))
                ==> e == m.data_len
            &&& forall|j: int|
                0 <= j < n && #[trigger] ends_scan(m, end_offset, sp, h, j) && (forall|l: int|
                    0 <= l < j ==> !#[trigger] ends_scan(m, end_offset, sp, h, l)) ==> e
                    == entry_position(m.sparse_index@, j)
        }),
{
    let n = entry_count(m.sparse_index@);
    let (sp, h) = bound_start(m, start_offset, size_hint, position);
    lemma_start_scan_last_entry(m, start_offset, size_hint, n);
    lemma_end_scan_first_entry(m, end_offset, sp, h, 0);
    assert forall|j: int| 0 <= j < n implies 0 <= #[trigger] entry_position(m.sparse_index@, j)
        < 4294967296 by {
        let t = m.sparse_index@.subrange(8 * j + 4, 8 * j + 8);
        assert(0 <= t[0] < 256 && 0 <= t[1] < 256 && 0 <= t[2] < 256 && 0 <= t[3] < 256);
    }
    assert(0 <= start_scan(m, start_offset, size_hint, n).0 < 4294967296) by {
        lemma_start_scan_in_u32(m, start_offset, size_hint, n);
    }
}

/// The scan for the start settles on a 32-bit position.
proof fn lemma_start_scan_in_u32(m: ObjectMetadata, start_offset: u64, hint: u32, k: int)
    ensures
        0 <= start_scan(m, start_offset, hint, k).0 < 4294967296,
    decreases k,
{
    if k > 0 {
        lemma_start_scan_in_u32(m, start_offset, hint, k - 1);
        let t = m.sparse_index@.subrange(8 * (k - 1) + 4, 8 * (k - 1) + 8);
        assert(0 <= t[0] < 256 && 0 <= t[1] < 256 && 0 <= t[2] < 256 && 0 <= t[3] < 256);
    }
}

/// Sum, over index entries `from` up to `to` (exclusive), of their positions' distances from
/// `base`.
pub open spec fn gap_sum(m: ObjectMetadata, base: int, from: int, to: int) -> int
    decreases to - from,
{
    if to <= from {
        0
    } else {
        gap_sum(m, base, from, to - 1) + entry_position(m.sparse_index@, to - 1) - base
    }
}

/// Scanning only entries that end at or before `start_offset` settles on the last of them
/// and leaves the hint alone.
proof fn lemma_start_scan_all_before(m: ObjectMetadata, start_offset: u64, hint: u32, k: int)
    requires
        0 <= k,
        forall|l: int| 0 <= l < k ==> #[trigger] ends_by(m, start_offset, l),
    ensures
        start_scan(m, start_offset, hint, k) == (
            if k == 0 {
                0
            } else {
                entry_position(m.sparse_index@, k - 1)
            },
            hint as int,
        ),
    decreases k,
{
    if k > 0 {
        assert(ends_by(m, start_offset, k - 1));
        lemma_start_scan_all_before(m, start_offset, hint, k - 1);
    }
}

/// When the entries ending at or before `start_offset` are the first `c`, the scan for the
/// start settles on the position of the last of them (0 when there is none), and the size
/// hint grows by the sum of the distances from that position of all later entries.
pub proof fn lemma_start_scan_hint_sum(
    m: ObjectMetadata,
    start_offset: u64,
    hint: u32,
    k: int,
    c: int,
)
    requires
        0 <= c <= k,
        forall|l: int| 0 <= l < c ==> #[trigger] ends_by(m, start_offset, l),
        forall|l: int| c <= l < k ==> !#[trigger] ends_by(m, start_offset, l),
    ensures
        ({
            let p = if c == 0 {
                0
            } else {
                entry_position(m.sparse_index@, c - 1)
            };
            start_scan(m, start_offset, hint, k) == (p, hint + gap_sum(m, p, c, k))
        }),
    decreases k,
{
    if k == c {
        lemma_start_scan_all_before(m, start_offset, hint, k);
    } else {
        assert(!ends_by(m, start_offset, k - 1));
        lemma_start_scan_hint_sum(m, start_offset, hint, k - 1, c);
    }
}

/// When the start is found by scanning the index and the entries ending at or before
/// `start_offset` are the first `c`, `find_bound` starts at the last of them and widens the
/// size hint by the distance from there of every later entry; with no such entry, or one at
/// position 0, it starts at 0 and reads up to the whole data.
pub proof fn lemma_find_bound_start_hint(
    m: ObjectMetadata,
    start_offset: u64,
    size_hint: u32,
    c: int,
)
    requires
        start_offset != m.start_offset,
        0 <= c <= entry_count(m.sparse_index@),
        forall|l: int| 0 <= l < c ==> #[trigger] ends_by(m, start_offset, l),
        forall|l: int|
            c <= l < entry_count(m.sparse_index@) ==> !#[trigger] ends_by(m, start_offset, l),
    ensures
        ({
            let p = if c == 0 {
                0
            } else {
                entry_position(m.sparse_index@, c - 1)
            };
            bound_start(m, start_offset, size_hint, None) == if p == 0 {
                (0, m.data_len as int)
            } else {
                (p, size_hint + gap_sum(m, p, c, entry_count(m.sparse_index@)))
            }
        }),
{
    lemma_start_scan_hint_sum(m, start_offset, size_hint, entry_count(m.sparse_index@), c);
}

} // verus!
