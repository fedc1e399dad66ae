//! Metadata of stream ranges.
use vstd::prelude::*;

verus! {

/// A range of a stream: records from `start` up to `end`, which is unknown while the range
/// is open for appends.
#[derive(Debug, Clone, Copy, PartialEq, Eq, Structural)]
pub struct RangeMetadata {
    pub stream_id: i64,
    pub index: i32,
    pub epoch: u64,
    pub start: u64,
    pub end: Option<u64>,
}

impl RangeMetadata {
    pub fn new(stream_id: i64, index: i32, epoch: u64, start: u64, end: Option<u64>) -> (r: Self)
        ensures
            r == (RangeMetadata { stream_id, index, epoch, start, end }),
    {
        RangeMetadata { stream_id, index, epoch, start, end }
    }

    pub fn stream_id(&self) -> (r: i64)
        ensures
            r == self.stream_id,
    {
        self.stream_id
    }

    pub fn index(&self) -> (r: i32)
        ensures
            r == self.index,
    {
        self.index
    }

    pub fn epoch(&self) -> (r: u64)
        ensures
            r == self.epoch,
    {
        self.epoch
    }

    pub fn start(&self) -> (r: u64)
        ensures
            r == self.start,
    {
        self.start
    }

    pub fn end(&self) -> (r: Option<u64>)
        ensures
            r == self.end,
    {
        self.end
    }

    /// Whether the range is sealed, with a known end.
    pub fn has_end(&self) -> (r: bool)
        ensures
            r == self.end is Some,
    {
        self.end.is_some()
    }

    /// Seals the range at `end`.
    pub fn set_end(&mut self, end: u64)
        ensures
            *final(self) == (RangeMetadata { end: Some(end), ..*old(self) }),
    {
        self.end = Some(end);
    }
}

} // verus!
