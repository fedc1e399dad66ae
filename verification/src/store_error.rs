//! Errors of the storage layer.
use vstd::prelude::*;

verus! {

/// Why a storage operation failed.
#[derive(Debug, PartialEq, Eq)]
pub enum StoreError {
    /// Pre-allocated buffer memory ran out.
    OutOfMemory,
    /// A buffer of the requested size and alignment cannot be laid out.
    MemoryAlignment,
    /// Stored data is corrupted.
    DataCorrupted,
    /// The storage engine failed; the text says how.
    RocksDB(String),
    /// Configuration is invalid.
    Configuration(String),
    /// An internal invariant was broken.
    Internal(String),
}

} // verus!
