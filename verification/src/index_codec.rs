//! Keys and values of the record index and of the range metadata kept in the key-value
//! store, and the decisions that index lookups make on what the store returns.
use vstd::prelude::*;
use crate::be::{
    be32, be32_bytes, be64, be64_bytes, bytes_below, lemma_be32_roundtrip, lemma_be64_roundtrip,
    lemma_bytes_below_be64, lemma_bytes_below_concat, put_be32,
    put_be64, read_be32, read_be64,
};
use crate::casts::{
    i32_from_u32, i64_from_u64, lemma_pow2_values, lemma_signed_unsigned_roundtrip, to_signed,
    to_unsigned, u32_from_i32, u64_from_i64,
};
use crate::range::RangeMetadata;
use crate::store_error::StoreError;

verus! {

/// First byte of every range record key.
pub const RANGE_PREFIX: u8 = 114;

/// Index key of a record: stream id (`i64`), range index (`u32`), offset (`u64`), all
/// big-endian.
pub open spec fn index_key(stream_id: i64, range: u32, offset: u64) -> Seq<u8> {
    be64_bytes(to_unsigned(stream_id as int, 64)) + be32_bytes(range as int) + be64_bytes(
        offset as int,
    )
}

/// Key prefix of the records of one range: stream id (`i64`), range index (`u32`).
pub open spec fn range_prefix(stream_id: i64, range: u32) -> Seq<u8> {
    be64_bytes(to_unsigned(stream_id as int, 64)) + be32_bytes(range as int)
}

/// Index keys of one range sort byte-wise in offset order, so that a scan of the keys of a
/// range meets its records by increasing offset.
pub proof fn lemma_index_key_order(stream_id: i64, range: u32, offset1: u64, offset2: u64)
    ensures
        bytes_below(index_key(stream_id, range, offset1), index_key(stream_id, range, offset2))
            == (offset1 < offset2),
{
    let p = range_prefix(stream_id, range);
    let k1 = be64_bytes(offset1 as int);
    let k2 = be64_bytes(offset2 as int);
    assert(index_key(stream_id, range, offset1) =~= p + k1);
    assert(index_key(stream_id, range, offset2) =~= p + k2);
    lemma_bytes_below_concat(p, k1, p, k2);
    lemma_be64_roundtrip(offset1 as int);
    lemma_be64_roundtrip(offset2 as int);
    lemma_bytes_below_be64(k1, k2);
}

/// The index key of a record.
pub fn build_index_key(stream_id: i64, range: u32, offset: u64) -> (k: Vec<u8>)
    ensures
        k@ == index_key(stream_id, range, offset),
{
    let mut k: Vec<u8> = Vec::with_capacity(20);
    put_be64(&mut k, u64_from_i64(stream_id));
    put_be32(&mut k, range);
    put_be64(&mut k, offset);
    k
}

/// Stream id, range index and offset of an index key.
pub fn decode_index_key(key: &[u8]) -> (r: (i64, u32, u64))
    requires
        key@.len() == 20,
    ensures
        r.0 == to_signed(be64(key@.subrange(0, 8)), 64),
        r.1 == be32(key@.subrange(8, 12)),
        r.2 == be64(key@.subrange(12, 20)),
{
    (i64_from_u64(read_be64(key, 0)), read_be32(key, 8), read_be64(key, 12))
}

/// Decoding an index key gives back the stream id, range index and offset it was built from.
pub proof fn lemma_index_key_roundtrip(stream_id: i64, range: u32, offset: u64)
    ensures
        ({
            let k = index_key(stream_id, range, offset);
            &&& k.len() == 20
            &&& to_signed(be64(k.subrange(0, 8)), 64) == stream_id
            &&& be32(k.subrange(8, 12)) == range
            &&& be64(k.subrange(12, 20)) == offset
        }),
{
    lemma_pow2_values();
    let s = to_unsigned(stream_id as int, 64);
    lemma_be64_roundtrip(s);
    lemma_be32_roundtrip(range as int);
    lemma_be64_roundtrip(offset as int);
    lemma_signed_unsigned_roundtrip(stream_id as int, 64);
    let k = index_key(stream_id, range, offset);
    assert(k.subrange(0, 8) =~= be64_bytes(s));
    assert(k.subrange(8, 12) =~= be32_bytes(range as int));
    assert(k.subrange(12, 20) =~= be64_bytes(offset as int));
}

/// Lower and upper key bounds of the records of one range: the range's prefix and the next
/// range's prefix.
pub fn range_key_bounds(stream_id: i64, range: u32) -> (r: (Vec<u8>, Vec<u8>))
    requires
        range < u32::MAX,
    ensures
        r.0@ == range_prefix(stream_id, range),
        r.1@ == range_prefix(stream_id, (range + 1) as u32),
{
    let s = u64_from_i64(stream_id);
    let mut lower: Vec<u8> = Vec::with_capacity(12);
    put_be64(&mut lower, s);
    put_be32(&mut lower, range);
    let mut upper: Vec<u8> = Vec::with_capacity(12);
    put_be64(&mut upper, s);
    put_be32(&mut upper, range + 1);
    (lower, upper)
}

/// The stored value of the WAL checkpoint: the offset as a big-endian `u64`.
pub fn encode_wal_checkpoint(offset: u64) -> (v: Vec<u8>)
    ensures
        v@ == be64_bytes(offset as int),
{
    let mut v: Vec<u8> = Vec::with_capacity(8);
    put_be64(&mut v, offset);
    v
}

/// The WAL checkpoint from the stored value: 0 when none is stored, `DataCorrupted` when the
/// value is shorter than 8 bytes, else its first 8 bytes as a big-endian `u64`.
pub fn decode_wal_checkpoint(value: Option<&[u8]>) -> (r: Result<u64, StoreError>)
    ensures
        match value {
            None => r == Ok::<u64, StoreError>(0),
            Some(v) => if v@.len() < 8 {
                r == Err::<u64, StoreError>(StoreError::DataCorrupted)
            } else {
                r == Ok::<u64, StoreError>(be64(v@.subrange(0, 8)) as u64)
            },
        },
{
    match value {
        None => Ok(0),
        Some(v) => {
            if v.len() < 8 {
                Err(StoreError::DataCorrupted)
            } else {
                Ok(read_be64(v, 0))
            }
        },
    }
}

/// How to find the largest indexed offset at or below an offset, once the largest indexed
/// offset of the range is known.
#[derive(Debug)]
pub enum LeftKeyPlan {
    /// There is none: the range is empty, or the offset is past its largest offset.
    NotFound,
    /// The offset is the largest offset itself.
    MaxKey,
    /// Scan backwards from `upper` (exclusive) down to `lower` and take the first key.
    ScanBelow { lower: Vec<u8>, upper: Vec<u8> },
}

/// Plans the lookup of the largest indexed offset at or below `offset` in a range whose
/// largest indexed offset is `max_offset` (none when the range has no record).
pub fn plan_left_key(stream_id: i64, range: u32, offset: u64, max_offset: Option<u64>) -> (p:
    LeftKeyPlan)
    ensures
        match max_offset {
            None => p is NotFound,
            Some(m) => if offset > m {
                p is NotFound
            } else if offset == m {
                p is MaxKey
            } else {
                (p matches LeftKeyPlan::ScanBelow { lower, upper } && lower@ == index_key(
                    stream_id,
                    range,
                    0,
                ) && upper@ == index_key(stream_id, range, (offset + 1) as u64))
            },
        },
{
    match max_offset {
        None => LeftKeyPlan::NotFound,
        Some(m) => {
            if offset > m {
                LeftKeyPlan::NotFound
            } else if offset == m {
                LeftKeyPlan::MaxKey
            } else {
                LeftKeyPlan::ScanBelow {
                    lower: build_index_key(stream_id, range, 0),
                    upper: build_index_key(stream_id, range, offset + 1),
                }
            }
        },
    }
}

/// Whether a stored index value is long enough to hold a record handle (WAL offset and
/// length-type, plus more).
pub fn is_valid_handle_value(len: usize) -> (b: bool)
    ensures
        b == (len > 12),
{
    len > 8 + 4
}

/// Sum of the first `k` lengths.
pub open spec fn sum_lens(lens: Seq<u32>, k: int) -> int
    decreases k,
{
    if k <= 0 {
        0
    } else {
        sum_lens(lens, k - 1) + lens[k - 1]
    }
}

/// Number of record handles, in scan order, that a scan with a budget of `max_bytes` takes:
/// handles are taken while the bytes taken so far are below the budget, so the last one may
/// overshoot it.
pub open spec fn budget_count(lens: Seq<u32>, max_bytes: u32, k: int) -> int
    decreases lens.len() - k,
{
    if k >= lens.len() || k < 0 || sum_lens(lens, k) >= max_bytes {
        k
    } else {
        budget_count(lens, max_bytes, k + 1)
    }
}

/// A budgeted scan starting at `k` takes at least the first `k` handles.
proof fn lemma_budget_count_at_least(lens: Seq<u32>, max_bytes: u32, k: int)
    requires
        0 <= k,
    ensures
        budget_count(lens, max_bytes, k) >= k,
    decreases lens.len() - k,
{
    if k < lens.len() && sum_lens(lens, k) < max_bytes {
        lemma_budget_count_at_least(lens, max_bytes, k + 1);
    }
}

/// A budgeted scan takes handles up to the first count at which the bytes taken reach the
/// budget, or all of them when they never do: `k` handles, when the sums of the first `j`
/// lengths stay below `max_bytes` for every `j < k` and `k` is the number of handles or its sum
/// reaches the budget.
pub proof fn lemma_budget_count_first(lens: Seq<u32>, max_bytes: u32, k: int)
    requires
        0 <= k <= lens.len(),
        k == lens.len() || sum_lens(lens, k) >= max_bytes,
        forall|j: int| 0 <= j < k ==> #[trigger] sum_lens(lens, j) < max_bytes,
    ensures
        budget_count(lens, max_bytes, 0) == k,
{
    lemma_budget_count_from(lens, max_bytes, 0, k);
}

proof fn lemma_budget_count_from(lens: Seq<u32>, max_bytes: u32, i: int, k: int)
    requires
        0 <= i <= k <= lens.len(),
        k == lens.len() || sum_lens(lens, k) >= max_bytes,
        forall|j: int| i <= j < k ==> #[trigger] sum_lens(lens, j) < max_bytes,
    ensures
        budget_count(lens, max_bytes, i) == k,
    decreases k - i,
{
    if i < k {
        assert(sum_lens(lens, i) < max_bytes);
        lemma_budget_count_from(lens, max_bytes, i + 1, k);
    }
}

/// How many of the record handles of lengths `lens` a scan takes within `max_bytes`.
pub fn take_within_budget(lens: &[u32], max_bytes: u32) -> (n: usize)
    requires
        forall|k: int|
            0 <= k <= budget_count(lens@, max_bytes, 0) ==> #[trigger] sum_lens(lens@, k)
                <= u32::MAX,
    ensures
        n == budget_count(lens@, max_bytes, 0),
{
    let mut bytes: u32 = 0;
    let mut i: usize = 0;
    while i < lens.len()
        invariant_except_break
            i <= lens@.len(),
            bytes == sum_lens(lens@, i as int),
            forall|k: int|
                0 <= k <= budget_count(lens@, max_bytes, 0) ==> #[trigger] sum_lens(lens@, k)
                    <= u32::MAX,
            budget_count(lens@, max_bytes, 0) == budget_count(lens@, max_bytes, i as int),
        ensures
            i == budget_count(lens@, max_bytes, 0),
        decreases lens@.len() - i,
    {
        if bytes >= max_bytes {
            break;
        }
        proof {
            lemma_budget_count_at_least(lens@, max_bytes, i as int + 1);
        }
        assert(sum_lens(lens@, i + 1) <= u32::MAX);
        bytes = bytes + lens[i];
        i = i + 1;
    }
    i
}

/// Whether the put count after one more put reaches the flush threshold.
pub fn should_flush(prev: usize, threshold: usize) -> (b: bool)
    requires
        prev < usize::MAX,
    ensures
        b == (prev + 1 >= threshold),
{
    prev + 1 >= threshold
}

/// Key of a range record: the range prefix byte, stream id (`i64`), range index (`i32`),
/// big-endian.
pub open spec fn range_record_key_bytes(stream_id: i64, index: i32) -> Seq<u8> {
    seq![RANGE_PREFIX] + be64_bytes(to_unsigned(stream_id as int, 64)) + be32_bytes(
        to_unsigned(index as int, 32),
    )
}

/// Value of a range record: the start offset, then the end offset when the range is sealed.
pub open spec fn range_record_value_bytes(range: RangeMetadata) -> Seq<u8> {
    be64_bytes(range.start as int) + match range.end {
        Some(e) => be64_bytes(e as int),
        None => Seq::empty(),
    }
}

/// Key prefix of the range records of one stream.
pub fn stream_range_prefix(stream_id: i64) -> (k: Vec<u8>)
    ensures
        k@ == seq![RANGE_PREFIX] + be64_bytes(to_unsigned(stream_id as int, 64)),
{
    let mut k: Vec<u8> = Vec::with_capacity(9);
    k.push(RANGE_PREFIX);
    put_be64(&mut k, u64_from_i64(stream_id));
    assert(k@ =~= seq![RANGE_PREFIX] + be64_bytes(to_unsigned(stream_id as int, 64)));
    k
}

/// Key of the record of range `index` of stream `stream_id`.
pub fn range_record_key(stream_id: i64, index: i32) -> (k: Vec<u8>)
    ensures
        k@ == range_record_key_bytes(stream_id, index),
{
    let mut k: Vec<u8> = Vec::with_capacity(13);
    k.push(RANGE_PREFIX);
    put_be64(&mut k, u64_from_i64(stream_id));
    put_be32(&mut k, u32_from_i32(index));
    assert(k@ =~= range_record_key_bytes(stream_id, index));
    k
}

/// Value of the record of `range` when it is added: its start, and its end if known.
pub fn range_record_value(range: &RangeMetadata) -> (v: Vec<u8>)
    ensures
        v@ == range_record_value_bytes(*range),
{
    let mut v: Vec<u8> = Vec::with_capacity(16);
    put_be64(&mut v, range.start());
    match range.end() {
        Some(e) => put_be64(&mut v, e),
        None => {},
    }
    assert(v@ =~= range_record_value_bytes(*range));
    v
}

/// Value of the record of `range` when it is sealed: its start and end. A range without an
/// end cannot be sealed: `Internal`.
pub fn sealed_range_record_value(range: &RangeMetadata) -> (r: Result<Vec<u8>, StoreError>)
    requires
        range.end matches Some(e) ==> e >= range.start,
    ensures
        match r {
            Ok(v) => range.end is Some && v@ == range_record_value_bytes(*range),
            Err(e) => range.end is None && (e matches StoreError::Internal(s) && s@.len() == 0),
        },
{
    match range.end() {
        Some(_) => Ok(range_record_value(range)),
        None => Err(StoreError::Internal(String::new())),
    }
}

/// Whether `key` starts with `prefix`.
pub fn has_prefix(key: &[u8], prefix: &[u8]) -> (b: bool)
    ensures
        b == (prefix@.len() <= key@.len() && key@.subrange(0, prefix@.len() as int) == prefix@),
{
    if prefix.len() > key.len() {
        return false;
    }
    let mut i: usize = 0;
    while i < prefix.len()
        invariant
            i <= prefix@.len() <= key@.len(),
            key@.subrange(0, i as int) == prefix@.subrange(0, i as int),
        decreases prefix@.len() - i,
    {
        if key[i] != prefix[i] {
            assert(key@.subrange(0, prefix@.len() as int)[i as int] != prefix@[i as int]);
            return false;
        }
        i = i + 1;
        assert(key@.subrange(0, i as int) =~= prefix@.subrange(0, i as int));
    }
    assert(prefix@.subrange(0, i as int) =~= prefix@);
    true
}

/// The range metadata a range record describes: stream id and range index from the key,
/// epoch 0, start and (when the value holds one) end from the value.
pub fn decode_range_record(key: &[u8], value: &[u8]) -> (r: RangeMetadata)
    requires
        key@.len() == 13,
        value@.len() == 8 || value@.len() == 16,
    ensures
        r.stream_id == to_signed(be64(key@.subrange(1, 9)), 64),
        r.index == to_signed(be32(key@.subrange(9, 13)), 32),
        r.epoch == 0,
        r.start == be64(value@.subrange(0, 8)),
        r.end == if value@.len() == 8 {
            None::<u64>
        } else {
            Some(be64(value@.subrange(8, 16)) as u64)
        },
{
    let stream_id = i64_from_u64(read_be64(key, 1));
    let index = i32_from_u32(read_be32(key, 9));
    let start = read_be64(value, 0);
    let end = if value.len() == 8 {
        None
    } else {
        Some(read_be64(value, 8))
    };
    RangeMetadata::new(stream_id, index, 0, start, end)
}

/// Decoding the stored WAL checkpoint gives back the offset that was stored.
pub proof fn lemma_wal_checkpoint_roundtrip(offset: u64)
    ensures
        be64_bytes(offset as int).len() == 8,
        be64(be64_bytes(offset as int).subrange(0, 8)) == offset,
{
    lemma_be64_roundtrip(offset as int);
    assert(be64_bytes(offset as int).subrange(0, 8) =~= be64_bytes(offset as int));
}

/// Decoding the record of a range, as added or sealed, gives back its stream, index, start
/// and end; the epoch is not stored.
pub proof fn lemma_range_record_roundtrip(range: RangeMetadata)
    ensures
        ({
            let key = range_record_key_bytes(range.stream_id, range.index);
            let value = range_record_value_bytes(range);
            &&& key.len() == 13
            &&& value.len() == if range.end is Some {
                16int
            } else {
                8int
            }
            &&& to_signed(be64(key.subrange(1, 9)), 64) == range.stream_id
            &&& to_signed(be32(key.subrange(9, 13)), 32) == range.index
            &&& be64(value.subrange(0, 8)) == range.start
            &&& range.end == if value.len() == 8 {
                None::<u64>
            } else {
                Some(be64(value.subrange(8, 16)) as u64)
            }
        }),
{
    lemma_pow2_values();
    let key = range_record_key_bytes(range.stream_id, range.index);
    let value = range_record_value_bytes(range);
    let s = to_unsigned(range.stream_id as int, 64);
    let i = to_unsigned(range.index as int, 32);
    lemma_be64_roundtrip(s);
    lemma_be32_roundtrip(i);
    lemma_be64_roundtrip(range.start as int);
    lemma_signed_unsigned_roundtrip(range.stream_id as int, 64);
    lemma_signed_unsigned_roundtrip(range.index as int, 32);
    assert(key.subrange(1, 9) =~= be64_bytes(s));
    assert(key.subrange(9, 13) =~= be32_bytes(i));
    assert(value.subrange(0, 8) =~= be64_bytes(range.start as int));
    if let Some(e) = range.end {
        lemma_be64_roundtrip(e as int);
        assert(value.subrange(8, 16) =~= be64_bytes(e as int));
    }
}

} // verus!
