//! The ranges a range server serves, grouped by stream.
use vstd::prelude::*;
use std::collections::HashMap;
use crate::casts::{
    i32_from_u32, i64_from_u64, u32_from_i32, lemma_pow2_values, lemma_signed_unsigned_roundtrip, to_signed,
    to_unsigned, u64_from_i64,
};
use crate::range::RangeMetadata;
use crate::text::{decimal, push_char, push_decimal};

verus! {

/// Why a range-server operation failed.
#[derive(Debug, PartialEq, Eq)]
pub enum ServiceError {
    /// The named resource is not served here.
    NotFound(String),
}

/// Metadata of a stream.
#[derive(Debug, Clone, Copy, PartialEq, Eq, Structural)]
pub struct StreamMetadata {
    pub stream_id: Option<u64>,
    pub replica: u8,
    pub ack_count: u8,
    pub retention_period_secs: u64,
}

/// A new commit of a range, of `bytes_len` bytes, as object storage is told of it.
#[derive(Debug, Clone, Copy, PartialEq, Eq, Structural)]
pub struct NewCommit {
    pub stream_id: u64,
    pub range_index: u32,
    pub bytes_len: u32,
}

/// Commit progress of a range that is being offloaded.
#[derive(Debug, Clone, Copy, PartialEq, Eq, Structural)]
pub struct RangeProgress {
    pub stream_id: u64,
    pub range_index: u32,
    pub confirm_offset: u64,
}

/// A range served here, with the offset up to which its records are committed.
#[derive(Debug, Clone, Copy, PartialEq, Eq, Structural)]
pub struct Range {
    pub metadata: RangeMetadata,
    pub committed: Option<u64>,
}

impl Range {
    /// A range with nothing committed yet.
    pub fn new(metadata: RangeMetadata) -> (r: Range)
        ensures
            r == (Range { metadata, committed: None }),
    {
        Range { metadata, committed: None }
    }

    /// The offset up to which records are committed, if any.
    pub fn committed(&self) -> (c: Option<u64>)
        ensures
            c == self.committed,
    {
        self.committed
    }

    /// Records that records up to `offset` are committed.
    pub fn commit(&mut self, offset: u64)
        ensures
            *final(self) == (Range { committed: Some(offset), ..*old(self) }),
    {
        self.committed = Some(offset);
    }
}

/// A stream served here and its ranges, at most one per range index.
pub struct Stream {
    pub metadata: StreamMetadata,
    pub ranges: Vec<Range>,
}

/// Position of the range with index `index` among `ranges`, if any.
pub open spec fn find_range(ranges: Seq<Range>, index: i32) -> Option<int>
    decreases ranges.len(),
{
    if ranges.len() == 0 {
        None
    } else if ranges.last().metadata.index == index {
        Some(ranges.len() - 1)
    } else {
        find_range(ranges.drop_last(), index)
    }
}

/// The range with index `index` among `ranges`, if any.
pub open spec fn range_with_index(ranges: Seq<Range>, index: i32) -> Option<Range> {
    match find_range(ranges, index) {
        Some(i) => Some(ranges[i]),
        None => None,
    }
}

/// `find_range` gives a position holding a range with the index looked for, and none only
/// when no range has that index.
pub proof fn lemma_find_range(ranges: Seq<Range>, index: i32)
    ensures
        find_range(ranges, index) matches Some(i) ==> 0 <= i < ranges.len()
            && ranges[i].metadata.index == index,
        find_range(ranges, index) is None ==> forall|j: int|
            0 <= j < ranges.len() ==> (#[trigger] ranges[j]).metadata.index != index,
    decreases ranges.len(),
{
    if ranges.len() > 0 {
        lemma_find_range(ranges.drop_last(), index);
        if find_range(ranges, index) is None {
            assert forall|j: int| 0 <= j < ranges.len() implies (
            #[trigger] ranges[j]).metadata.index != index by {
                if j < ranges.len() - 1 {
                    assert(ranges.drop_last()[j] == ranges[j]);
                }
            }
        }
    }
}

impl Stream {
    /// A stream with no range.
    pub fn new(metadata: StreamMetadata) -> (s: Stream)
        ensures
            s.metadata == metadata,
            s.ranges@.len() == 0,
    {
        Stream { metadata, ranges: Vec::new() }
    }

    fn position_of(&self, index: i32) -> (r: Option<usize>)
        ensures
            r matches Some(i) ==> Some(i as int) == find_range(self.ranges@, index),
            r is None ==> find_range(self.ranges@, index) is None,
    {
        let mut i = self.ranges.len();
        assert(self.ranges@.take(i as int) =~= self.ranges@);
        while i > 0
            invariant
                i <= self.ranges@.len(),
                find_range(self.ranges@, index) == find_range(self.ranges@.take(i as int), index),
            decreases i,
        {
            if self.ranges[i - 1].metadata.index == index {
                assert(self.ranges@.take(i as int).last() == self.ranges@[i - 1]);
                return Some(i - 1);
            }
            assert(self.ranges@.take(i as int).drop_last() =~= self.ranges@.take(i - 1));
            i = i - 1;
        }
        None
    }

    /// Whether the stream has a range with index `index`.
    pub fn has_range(&self, index: i32) -> (b: bool)
        ensures
            b == find_range(self.ranges@, index) is Some,
    {
        self.position_of(index).is_some()
    }

    /// The range with index `index`, if any.
    pub fn get_range(&self, index: i32) -> (r: Option<&Range>)
        ensures
            match r {
                Some(x) => range_with_index(self.ranges@, index) == Some(*x),
                None => range_with_index(self.ranges@, index) is None,
            },
    {
        proof {
            lemma_find_range(self.ranges@, index);
        }
        match self.position_of(index) {
            Some(i) => Some(&self.ranges[i]),
            None => None,
        }
    }

    /// Serves `metadata`: it replaces the range with the same index, with nothing committed,
    /// or is added after the others.
    pub fn create_range(&mut self, metadata: RangeMetadata)
        ensures
            final(self).metadata == old(self).metadata,
            match find_range(old(self).ranges@, metadata.index) {
                Some(i) => final(self).ranges@ == old(self).ranges@.update(i, Range::new_spec(metadata)),
                None => final(self).ranges@ == old(self).ranges@.push(Range::new_spec(metadata)),
            },
    {
        proof {
            lemma_find_range(self.ranges@, metadata.index);
        }
        match self.position_of(metadata.index) {
            Some(i) => {
                self.ranges.set(i, Range::new(metadata));
            },
            None => {
                self.ranges.push(Range::new(metadata));
            },
        }
    }

    /// Sets the committed offset of range `index`, when the stream has it.
    pub fn reset_commit(&mut self, index: i32, offset: u64)
        ensures
            final(self).metadata == old(self).metadata,
            match find_range(old(self).ranges@, index) {
                Some(i) => final(self).ranges@ == old(self).ranges@.update(
                    i,
                    Range { committed: Some(offset), ..old(self).ranges@[i] },
                ),
                None => final(self).ranges@ == old(self).ranges@,
            },
    {
        proof {
            lemma_find_range(self.ranges@, index);
        }
        match self.position_of(index) {
            Some(i) => {
                let mut r = self.ranges[i];
                r.commit(offset);
                self.ranges.set(i, r);
            },
            None => {},
        }
    }
}

/// The committed offset of range `range_index` of stream `stream_id` when it is served by `m`
/// and has one.
pub open spec fn served_committed(m: &DefaultRangeManager, stream_id: u64, range_index: u32) -> Option<u64> {
    match m.ranges_of(to_signed(stream_id as int, 64) as i64) {
        Some(rs) => match range_with_index(rs, to_signed(range_index as int, 32) as i32) {
            Some(r) => r.committed,
            None => None,
        },
        None => None,
    }
}

/// Progress entries of the listed ranges that are served by `m` and have a committed offset.
pub open spec fn progress_of(m: &DefaultRangeManager, keys: Seq<(u64, u32)>) -> Seq<RangeProgress>
    decreases keys.len(),
{
    if keys.len() == 0 {
        Seq::empty()
    } else {
        let (s, r) = keys.last();
        progress_of(m, keys.drop_last()) + match served_committed(m, s, r) {
            Some(c) => seq![RangeProgress { stream_id: s, range_index: r, confirm_offset: c }],
            None => Seq::empty(),
        }
    }
}

/// Replacing the range found for an index by another with that index, or adding one when
/// none was found, makes the new one the range found.
pub proof fn lemma_find_after_create(ranges: Seq<Range>, index: i32, x: Range)
    requires
        x.metadata.index == index,
    ensures
        match find_range(ranges, index) {
            Some(i) => find_range(ranges.update(i, x), index) == Some(i),
            None => find_range(ranges.push(x), index) == Some(ranges.len() as int),
        },
    decreases ranges.len(),
{
    match find_range(ranges, index) {
        Some(i) => {
            lemma_find_range(ranges, index);
            if i < ranges.len() - 1 {
                lemma_find_after_create(ranges.drop_last(), index, x);
                assert(ranges.update(i, x).drop_last() =~= ranges.drop_last().update(i, x));
            }
        },
        None => {
            assert(ranges.push(x).last() == x);
        },
    }
}

impl Range {
    pub open spec fn new_spec(metadata: RangeMetadata) -> Range {
        Range { metadata, committed: None }
    }
}

/// Metadata of a stream first seen through one of its ranges: its id, no replica
/// requirement, and a one-second retention.
pub open spec fn placeholder_stream(stream_id: i64) -> StreamMetadata {
    StreamMetadata {
        stream_id: Some(to_unsigned(stream_id as int, 64) as u64),
        replica: 0,
        ack_count: 0,
        retention_period_secs: 1,
    }
}

/// Whether `new` is `old` after serving `range`: its stream (created with placeholder metadata
/// when not served yet) has the range, replacing the one with the same index or added after
/// the others, and the other streams are unchanged.
pub open spec fn range_created(
    old: DefaultRangeManager,
    new: DefaultRangeManager,
    range: RangeMetadata,
) -> bool {
    &&& new.streams@.dom() == old.streams@.dom().insert(range.stream_id)
    &&& forall|id: i64|
        id != range.stream_id && old.streams@.contains_key(id) ==> #[trigger] new.streams@[id]
            == old.streams@[id]
    &&& ({
        let s = new.streams@[range.stream_id];
        match old.ranges_of(range.stream_id) {
            Some(rs) => {
                &&& s.metadata == old.streams@[range.stream_id].metadata
                &&& match find_range(rs, range.index) {
                    Some(i) => s.ranges@ == rs.update(i, Range::new_spec(range)),
                    None => s.ranges@ == rs.push(Range::new_spec(range)),
                }
            },
            None => {
                &&& s.metadata == placeholder_stream(range.stream_id)
                &&& s.ranges@ == seq![Range::new_spec(range)]
            },
        }
    })
}

/// Whether `new` is `old` after recording that range `index` of stream `stream_id`, which
/// `old` serves, is committed up to `offset`.
pub open spec fn range_commit_recorded(
    old: DefaultRangeManager,
    new: DefaultRangeManager,
    stream_id: i64,
    index: i32,
    offset: u64,
) -> bool {
    match old.ranges_of(stream_id) {
        Some(rs) => match find_range(rs, index) {
            Some(i) => {
                &&& new.streams@ == old.streams@.insert(
                    stream_id,
                    Stream { ranges: new.streams@[stream_id].ranges, ..old.streams@[stream_id] },
                )
                &&& new.streams@[stream_id].ranges@ == rs.update(
                    i,
                    Range { committed: Some(offset), ..rs[i] },
                )
            },
            None => false,
        },
        None => false,
    }
}

/// Text naming a range: `range[{stream id}#{range index}]`.
pub open spec fn range_name(stream_id: i64, index: i32) -> Seq<char> {
    "range["@ + signed_decimal(stream_id as int) + seq!['#'] + signed_decimal(index as int)
        + seq![']']
}

/// Decimal numeral of `v`, with a minus sign when negative.
pub open spec fn signed_decimal(v: int) -> Seq<char> {
    if v < 0 {
        seq!['-'] + decimal((-v) as nat)
    } else {
        decimal(v as nat)
    }
}

fn push_signed_decimal(s: &mut String, v: i64)
    ensures
        final(s)@ == old(s)@ + signed_decimal(v as int),
{
    if v < 0 {
        push_char(s, '-');
        let m: u64 = if v == i64::MIN {
            9223372036854775808u64
        } else {
            (-v) as u64
        };
        push_decimal(s, m);
        assert(old(s)@ + signed_decimal(v as int) =~= old(s)@.push('-') + decimal(m as nat));
    } else {
        push_decimal(s, v as u64);
    }
}

/// The ranges served here, by stream.
pub struct DefaultRangeManager {
    pub streams: HashMap<i64, Stream>,
}

impl DefaultRangeManager {
    /// The ranges of stream `stream_id`, as a map view.
    pub open spec fn ranges_of(&self, stream_id: i64) -> Option<Seq<Range>> {
        if self.streams@.contains_key(stream_id) {
            Some(self.streams@[stream_id].ranges@)
        } else {
            None
        }
    }

    /// A manager that serves nothing.
    pub fn new() -> (m: Self)
        ensures
            m.streams@ == Map::<i64, Stream>::empty(),
    {
        DefaultRangeManager { streams: HashMap::new() }
    }

    /// The range `range_index` of stream `stream_id`, if it is served here. The identifiers
    /// are reinterpreted as the signed integers the streams are kept under.
    pub fn get_range(&self, stream_id: u64, range_index: u32) -> (r: Option<&Range>)
        ensures
            match self.ranges_of(to_signed(stream_id as int, 64) as i64) {
                Some(rs) => match r {
                    Some(x) => range_with_index(rs, to_signed(range_index as int, 32) as i32) == Some(
                        *x,
                    ),
                    None => range_with_index(rs, to_signed(range_index as int, 32) as i32) is None,
                },
                None => r is None,
            },
    {
        proof {
            broadcast use vstd::std_specs::hash::group_hash_axioms;
        }
        match self.streams.get(&i64_from_u64(stream_id)) {
            Some(stream) => stream.get_range(i32_from_u32(range_index)),
            None => None,
        }
    }

    /// Whether stream `stream_id` is served here.
    pub fn has_stream(&self, stream_id: i64) -> (b: bool)
        ensures
            b == self.streams@.contains_key(stream_id),
    {
        proof {
            broadcast use vstd::std_specs::hash::group_hash_axioms;
        }
        self.streams.contains_key(&stream_id)
    }

    /// Serves `range`: it is created in its stream, which is created with placeholder
    /// metadata when not served yet.
    pub fn create_range(&mut self, range: RangeMetadata) -> (r: Result<(), ServiceError>)
        ensures
            r is Ok,
            range_created(*old(self), *final(self), range),
    {
        proof {
            broadcast use vstd::std_specs::hash::group_hash_axioms;
        }
        let id = range.stream_id();
        match self.streams.remove(&id) {
            Some(mut stream) => {
                stream.create_range(range);
                self.streams.insert(id, stream);
            },
            None => {
                let metadata = StreamMetadata {
                    stream_id: Some(u64_from_i64(id)),
                    replica: 0,
                    ack_count: 0,
                    retention_period_secs: 1,
                };
                let mut stream = Stream::new(metadata);
                stream.create_range(range);
                assert(stream.ranges@ =~= seq![Range::new_spec(range)]);
                self.streams.insert(id, stream);
            },
        }
        proof {
            assert(self.streams@.dom() =~= old(self).streams@.dom().insert(range.stream_id));
        }
        Ok(())
    }

    /// Serves a range assigned to this server at start-up, with the offset up to which the
    /// store already holds its records; a stream not served yet is created with `metadata`.
    pub fn bootstrap_range(
        &mut self,
        range: RangeMetadata,
        committed: Option<u64>,
        metadata: StreamMetadata,
    )
        ensures
            final(self).streams@.dom() == old(self).streams@.dom().insert(range.stream_id),
            forall|id: i64|
                id != range.stream_id && old(self).streams@.contains_key(id)
                    ==> #[trigger] final(self).streams@[id] == old(self).streams@[id],
            ({
                let s = final(self).streams@[range.stream_id];
                let rs = match old(self).ranges_of(range.stream_id) {
                    Some(rs) => rs,
                    None => Seq::<Range>::empty(),
                };
                let created = match find_range(rs, range.index) {
                    Some(i) => rs.update(i, Range::new_spec(range)),
                    None => rs.push(Range::new_spec(range)),
                };
                let i = match find_range(rs, range.index) {
                    Some(i) => i,
                    None => rs.len() as int,
                };
                &&& s.metadata == match old(self).ranges_of(range.stream_id) {
                    Some(_) => old(self).streams@[range.stream_id].metadata,
                    None => metadata,
                }
                &&& s.ranges@ == match committed {
                    Some(c) => created.update(i, Range { committed: Some(c), ..created[i] }),
                    None => created,
                }
            }),
    {
        proof {
            broadcast use vstd::std_specs::hash::group_hash_axioms;
        }
        let id = range.stream_id();
        let mut stream = match self.streams.remove(&id) {
            Some(s) => s,
            None => Stream::new(metadata),
        };
        let ghost rs = stream.ranges@;
        proof {
            assert(old(self).ranges_of(range.stream_id) is None ==> rs =~= Seq::<Range>::empty());
            lemma_find_range(rs, range.index);
        }
        stream.create_range(range);
        proof {
            lemma_find_range(stream.ranges@, range.index);
            let i = match find_range(rs, range.index) {
                Some(i) => i,
                None => rs.len() as int,
            };
            lemma_find_after_create(rs, range.index, Range::new_spec(range));
        }
        match committed {
            Some(offset) => stream.reset_commit(range.index(), offset),
            None => {},
        }
        self.streams.insert(id, stream);
        proof {
            assert(self.streams@.dom() =~= old(self).streams@.dom().insert(range.stream_id));
        }
    }

    /// Records that the records of range `range_index` of stream `stream_id` are committed up
    /// to `offset`, and gives the notice of the new commit, `bytes_len` bytes long, that object
    /// storage is to receive once; `NotFound` naming the range, with no notice, when the range
    /// is not served here. The last offset delta plays no part.
    pub fn commit(
        &mut self,
        stream_id: i64,
        range_index: i32,
        offset: u64,
        _last_offset_delta: u32,
        bytes_len: u32,
    ) -> (r: Result<NewCommit, ServiceError>)
        ensures
            match old(self).ranges_of(stream_id) {
                Some(rs) => match find_range(rs, range_index) {
                    Some(i) => {
                        &&& r == Ok::<NewCommit, ServiceError>(
                            NewCommit {
                                stream_id: to_unsigned(stream_id as int, 64) as u64,
                                range_index: to_unsigned(range_index as int, 32) as u32,
                                bytes_len,
                            },
                        )
                        &&& range_commit_recorded(
                            *old(self),
                            *final(self),
                            stream_id,
                            range_index,
                            offset,
                        )
                    },
                    None => (r matches Err(ServiceError::NotFound(s)) && s@ == range_name(
                        stream_id,
                        range_index,
                    )) && final(self).streams@ == old(self).streams@,
                },
                None => (r matches Err(ServiceError::NotFound(s)) && s@ == range_name(
                    stream_id,
                    range_index,
                )) && final(self).streams@ == old(self).streams@,
            },
    {
        proof {
            broadcast use vstd::std_specs::hash::group_hash_axioms;
        }
        let found = match self.streams.get(&stream_id) {
            Some(stream) => stream.has_range(range_index),
            None => false,
        };
        if !found {
            let mut s = String::from_str("range[");
            push_signed_decimal(&mut s, stream_id);
            push_char(&mut s, '#');
            push_signed_decimal(&mut s, range_index as i64);
            push_char(&mut s, ']');
            return Err(ServiceError::NotFound(s));
        }
        let mut stream = self.streams.remove(&stream_id).unwrap();
        stream.reset_commit(range_index, offset);
        self.streams.insert(stream_id, stream);
        proof {
            assert(self.streams@ =~= old(self).streams@.insert(
                stream_id,
                Stream { ranges: self.streams@[stream_id].ranges, ..old(self).streams@[stream_id] },
            ));
        }
        Ok(
            NewCommit {
                stream_id: u64_from_i64(stream_id),
                range_index: u32_from_i32(range_index),
                bytes_len,
            },
        )
    }

    /// Commit progress of the ranges among `offloading` that are served here and have a
    /// committed offset, in the order of `offloading`.
    pub fn get_range_progress(&self, offloading: &Vec<(u64, u32)>) -> (p: Vec<RangeProgress>)
        ensures
            p@ == progress_of(self, offloading@),
    {
        let mut progress: Vec<RangeProgress> = Vec::new();
        let mut i: usize = 0;
        while i < offloading.len()
            invariant
                i <= offloading@.len(),
                progress@ == progress_of(self, offloading@.take(i as int)),
            decreases offloading@.len() - i,
        {
            let (stream_id, range_index) = offloading[i];
            assert(offloading@.take(i + 1).drop_last() =~= offloading@.take(i as int));
            match self.get_range(stream_id, range_index) {
                Some(range) => {
                    match range.committed() {
                        Some(committed) => {
                            progress.push(
                                RangeProgress { stream_id, range_index, confirm_offset: committed },
                            );
                        },
                        None => {},
                    }
                },
                None => {},
            }
            i = i + 1;
        }
        assert(offloading@.take(i as int) =~= offloading@);
        progress
    }
}

/// A range that was just served is found, with nothing committed, under its stream id and
/// index as `get_range` looks them up.
pub proof fn lemma_created_range_found(
    old: DefaultRangeManager,
    new: DefaultRangeManager,
    range: RangeMetadata,
)
    requires
        range_created(old, new, range),
    ensures
        to_signed(to_unsigned(range.stream_id as int, 64), 64) == range.stream_id,
        to_signed(to_unsigned(range.index as int, 32), 32) == range.index,
        new.ranges_of(range.stream_id) matches Some(rs) && range_with_index(rs, range.index)
            == Some(Range::new_spec(range)),
{
    lemma_pow2_values();
    lemma_signed_unsigned_roundtrip(range.stream_id as int, 64);
    lemma_signed_unsigned_roundtrip(range.index as int, 32);
    let x = Range::new_spec(range);
    assert(new.streams@.dom().contains(range.stream_id));
    let nrs = new.streams@[range.stream_id].ranges@;
    match old.ranges_of(range.stream_id) {
        Some(rs) => {
            lemma_find_after_create(rs, range.index, x);
            match find_range(rs, range.index) {
                Some(i) => {
                    lemma_find_range(rs, range.index);
                    assert(nrs[i] == x);
                },
                None => {
                    assert(nrs[rs.len() as int] == x);
                },
            }
        },
        None => {
            lemma_find_after_create(Seq::<Range>::empty(), range.index, x);
            assert(Seq::<Range>::empty().push(x) =~= seq![x]);
            assert(nrs[0] == x);
        },
    }
}

/// After a commit is recorded, the range reports the committed offset, so that commit
/// progress lists it.
pub proof fn lemma_committed_range_reports_offset(
    old: DefaultRangeManager,
    new: DefaultRangeManager,
    stream_id: i64,
    index: i32,
    offset: u64,
)
    requires
        range_commit_recorded(old, new, stream_id, index, offset),
    ensures
        served_committed(
            &new,
            to_unsigned(stream_id as int, 64) as u64,
            to_unsigned(index as int, 32) as u32,
        ) == Some(offset),
{
    lemma_pow2_values();
    lemma_signed_unsigned_roundtrip(stream_id as int, 64);
    lemma_signed_unsigned_roundtrip(index as int, 32);
    let rs = old.ranges_of(stream_id)->0;
    let i = find_range(rs, index)->0;
    lemma_find_range(rs, index);
    lemma_find_after_create(rs, index, Range { committed: Some(offset), ..rs[i] });
}

} // verus!
