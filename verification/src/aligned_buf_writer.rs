//! Staging of WAL writes in pre-allocated aligned buffers.
use vstd::prelude::*;
use std::collections::VecDeque;
use crate::aligned_buf::{
    is_power_of_two, layout_fits, lemma_block_split, lemma_round_up, round_up, AlignedBuf,
};
use crate::be::{be32_bytes, be64_bytes, put_be32, put_be64};
use crate::crc32::flatten_bytes;
use crate::store_error::StoreError;

verus! {

/// Whether `s` is a run of empty, well-formed buffers, each starting where the previous ends.
pub open spec fn chained(s: Seq<AlignedBuf>) -> bool {
    &&& forall|i: int| 0 <= i < s.len() ==> (#[trigger] s[i]).wf() && s[i].limit == 0
    &&& forall|i: int| 0 <= i < s.len() - 1 ==> (#[trigger] s[i]).end() == s[i + 1].wal_offset
}

/// Total free bytes of a list of buffers.
pub open spec fn sum_remaining(s: Seq<AlignedBuf>) -> int
    decreases s.len(),
{
    if s.len() == 0 {
        0
    } else {
        sum_remaining(s.drop_last()) + (s.last().capacity - s.last().limit)
    }
}

/// The data of a list of buffers, concatenated.
pub open spec fn written_of(s: Seq<AlignedBuf>) -> Seq<u8> {
    flatten_bytes(s.map_values(|b: AlignedBuf| b.written()))
}

/// The free bytes of a run of empty buffers span the run.
pub proof fn lemma_chained_sum(s: Seq<AlignedBuf>)
    requires
        chained(s),
        s.len() > 0,
    ensures
        sum_remaining(s) == s.last().end() - s[0].wal_offset,
    decreases s.len(),
{
    if s.len() > 1 {
        let t = s.drop_last();
        assert(chained(t)) by {
            assert forall|i: int| 0 <= i < t.len() implies (#[trigger] t[i]).wf() && t[i].limit
                == 0 by {
                assert(t[i] == s[i]);
            }
            assert forall|i: int| 0 <= i < t.len() - 1 implies (#[trigger] t[i]).end()
                == t[i + 1].wal_offset by {
                assert(t[i] == s[i]);
                assert(t[i + 1] == s[i + 1]);
            }
        }
        lemma_chained_sum(t);
        assert(t.last() == s[s.len() - 2]);
        assert(t[0] == s[0]);
        assert(s[s.len() - 2].end() == s[s.len() - 1].wal_offset);
        assert(s.last().wf() && s.last().limit == 0);
    } else {
        assert(s.drop_last() =~= Seq::<AlignedBuf>::empty());
        assert(sum_remaining(Seq::<AlignedBuf>::empty()) == 0);
        assert(s[0].wf() && s[0].limit == 0);
    }
}

/// Free byte counts are not negative.
pub proof fn lemma_sum_nonneg(s: Seq<AlignedBuf>)
    requires
        forall|i: int| 0 <= i < s.len() ==> (#[trigger] s[i]).limit <= s[i].capacity,
    ensures
        sum_remaining(s) >= 0,
    decreases s.len(),
{
    if s.len() > 0 {
        let t = s.drop_last();
        assert forall|i: int| 0 <= i < t.len() implies (#[trigger] t[i]).limit <= t[i].capacity by {
            assert(t[i] == s[i]);
        }
        lemma_sum_nonneg(t);
        assert(s.last() == s[s.len() - 1]);
    }
}

/// The free bytes of a prefix of a run of buffers are no more than those of the run.
pub proof fn lemma_sum_prefix_bound(s: Seq<AlignedBuf>, k: int)
    requires
        chained(s),
        0 <= k <= s.len(),
    ensures
        0 <= sum_remaining(s.take(k)) <= sum_remaining(s),
    decreases s.len(),
{
    let t = s.take(k);
    assert forall|i: int| 0 <= i < t.len() implies (#[trigger] t[i]).limit <= t[i].capacity by {
        assert(t[i] == s[i]);
        assert(s[i].wf());
    }
    lemma_sum_nonneg(t);
    if k < s.len() {
        let u = s.drop_last();
        assert(chained(u)) by {
            assert forall|i: int| 0 <= i < u.len() implies (#[trigger] u[i]).wf() && u[i].limit
                == 0 by {
                assert(u[i] == s[i]);
            }
            assert forall|i: int| 0 <= i < u.len() - 1 implies (#[trigger] u[i]).end()
                == u[i + 1].wal_offset by {
                assert(u[i] == s[i]);
                assert(u[i + 1] == s[i + 1]);
            }
        }
        assert(u.take(k) =~= t);
        lemma_sum_prefix_bound(u, k);
        assert(s.last() == s[s.len() - 1]);
        assert(s[s.len() - 1].wf());
    } else {
        assert(t =~= s);
    }
}

/// The data of a run of full buffers spans the run.
pub proof fn lemma_full_run_len(s: Seq<AlignedBuf>)
    requires
        s.len() > 0,
        forall|i: int| 0 <= i < s.len() ==> (#[trigger] s[i]).wf() && s[i].limit == s[i].capacity,
        forall|i: int| 0 <= i < s.len() - 1 ==> (#[trigger] s[i]).end() == s[i + 1].wal_offset,
    ensures
        written_of(s).len() == s.last().end() - s[0].wal_offset,
    decreases s.len(),
{
    let f = |b: AlignedBuf| b.written();
    let m = s.map_values(f);
    assert(m.drop_last() =~= s.drop_last().map_values(f));
    assert(written_of(s) == flatten_bytes(m));
    assert(flatten_bytes(m) == flatten_bytes(m.drop_last()) + m.last());
    assert(m.last() == s.last().written());
    assert(written_of(s.drop_last()) == flatten_bytes(m.drop_last()));
    assert(s.last().written().len() == s.last().capacity);
    if s.len() == 1 {
        assert(s.drop_last() =~= Seq::<AlignedBuf>::empty());
        assert(flatten_bytes(Seq::<Seq<u8>>::empty()) == Seq::<u8>::empty());
    } else {
        let t = s.drop_last();
        assert forall|i: int| 0 <= i < t.len() implies (#[trigger] t[i]).wf() && t[i].limit
            == t[i].capacity by {
            assert(t[i] == s[i]);
        }
        assert forall|i: int| 0 <= i < t.len() - 1 implies (#[trigger] t[i]).end() == t[i
            + 1].wal_offset by {
            assert(t[i] == s[i]);
            assert(t[i + 1] == s[i + 1]);
        }
        lemma_full_run_len(t);
        assert(s[s.len() - 2].end() == s.last().wal_offset);
    }
}

/// The free bytes of a list are those of its first buffer and of the rest.
pub proof fn lemma_sum_first(s: Seq<AlignedBuf>)
    requires
        s.len() > 0,
    ensures
        sum_remaining(s) == (s[0].capacity - s[0].limit) + sum_remaining(s.drop_first()),
    decreases s.len(),
{
    if s.len() == 1 {
        assert(s.drop_first() =~= Seq::<AlignedBuf>::empty());
        assert(s.drop_last() =~= Seq::<AlignedBuf>::empty());
        assert(sum_remaining(Seq::<AlignedBuf>::empty()) == 0);
    } else {
        lemma_sum_first(s.drop_last());
        assert(s.drop_last().drop_first() =~= s.drop_first().drop_last());
        assert(s.drop_first().last() == s.last());
        assert(s.drop_last()[0] == s[0]);
    }
}

/// The WAL regions, as (offset, size), of some buffers.
pub open spec fn regions(bufs: Seq<AlignedBuf>) -> Seq<(int, int)> {
    bufs.map_values(|b: AlignedBuf| (b.wal_offset as int, b.capacity as int))
}

/// The regions that reserving `additional` bytes past WAL offset `max` lays out, in order:
/// one region of the whole blocks of alignment `a` that the bytes fill, then one block for
/// the bytes left over.
pub open spec fn reserve_layout(max: int, additional: int, a: int) -> Seq<(int, int)> {
    let whole = additional / a * a;
    (if additional >= a {
        seq![(max, whole)]
    } else {
        Seq::empty()
    }) + (if additional % a != 0 {
        seq![(max + whole, a)]
    } else {
        Seq::empty()
    })
}

/// Stages WAL data in aligned buffers: `full` buffers wait to be flushed, `current` takes
/// the next bytes, and `allocated` buffers are reserved for later bytes.
pub struct AlignedBufWriter {
    /// WAL offset where the next write goes; not necessarily aligned.
    pub cursor: u64,
    pub alignment: usize,
    /// Buffers full of data.
    pub full: Vec<AlignedBuf>,
    /// Buffer that is being appended to.
    pub current: Option<AlignedBuf>,
    /// Pre-allocated empty buffers.
    pub allocated: VecDeque<AlignedBuf>,
    /// Whether buffered data is available to take and flush.
    pub buffering: bool,
}

impl AlignedBufWriter {
    /// Whether the buffers agree: full buffers are full, reserved buffers are empty, the full,
    /// current and reserved buffers cover one run of WAL offsets in that order, and every byte
    /// count fits the machine.
    pub open spec fn wf(&self) -> bool {
        &&& forall|i: int|
            0 <= i < self.full@.len() ==> (#[trigger] self.full@[i]).wf() && self.full@[i].limit
                == self.full@[i].capacity
        &&& forall|i: int|
            0 <= i < self.full@.len() - 1 ==> (#[trigger] self.full@[i]).end() == self.full@[i
                + 1].wal_offset
        &&& self.full@.len() > 0 ==> (self.current matches Some(c) && self.full@.last().end()
            == c.wal_offset)
        &&& self.current matches Some(c) ==> c.wf()
        &&& chained(self.allocated@)
        &&& self.current matches Some(c) ==> (self.allocated@.len() > 0 ==> c.end()
            == self.allocated@[0].wal_offset)
        &&& self.spec_remaining() <= usize::MAX
    }

    /// Whether the cursor sits at the end of the data: in the current buffer when there is
    /// one, else at the start of the first reserved buffer.
    pub open spec fn in_step_at(&self, at: int) -> bool {
        match self.current {
            Some(c) => at == c.wal_offset + c.limit,
            None => self.allocated@.len() == 0 || self.allocated@[0].wal_offset == at,
        }
    }

    /// Whether the cursor sits at the end of the data.
    pub open spec fn in_step(&self) -> bool {
        self.in_step_at(self.cursor as int)
    }

    /// WAL offset up to which memory is allocated.
    pub open spec fn spec_max_allocated(&self) -> int {
        if self.allocated@.len() > 0 {
            self.allocated@.last().end()
        } else if self.current is Some {
            self.current->0.end()
        } else {
            self.cursor as int
        }
    }

    /// Free bytes left in the current and reserved buffers.
    pub open spec fn spec_remaining(&self) -> int {
        (match self.current {
            Some(c) => c.capacity - c.limit,
            None => 0,
        }) + sum_remaining(self.allocated@)
    }

    /// Data that has been written and not taken: the full buffers, then the current one.
    pub open spec fn pending(&self) -> Seq<u8> {
        written_of(self.full@) + match self.current {
            Some(c) => c.written(),
            None => Seq::empty(),
        }
    }

    /// The buffers holding data, in WAL order: the full ones, then the current one.
    pub open spec fn data_bufs(&self) -> Seq<AlignedBuf> {
        self.full@ + match self.current {
            Some(c) => seq![c],
            None => Seq::empty(),
        }
    }

    /// All buffers in WAL order: the full ones, the current one, then the reserved ones.
    pub open spec fn all_bufs(&self) -> Seq<AlignedBuf> {
        self.data_bufs() + self.allocated@
    }

    /// WAL offset of the first pending byte: the start of the first full buffer, else of the
    /// current buffer, else the cursor. As the buffers cover one run of WAL offsets and the full
    /// ones are full, byte `k` of `pending()` belongs at WAL offset `pending_start() + k`.
    pub open spec fn pending_start(&self) -> int {
        if self.full@.len() > 0 {
            self.full@[0].wal_offset as int
        } else if self.current is Some {
            self.current->0.wal_offset as int
        } else {
            self.cursor as int
        }
    }

    /// The pending bytes run from `pending_start()` up to the cursor.
    pub proof fn lemma_pending_layout(&self)
        requires
            self.wf(),
            self.in_step(),
        ensures
            self.cursor == self.pending_start() + self.pending().len(),
    {
        if self.full@.len() > 0 {
            lemma_full_run_len(self.full@);
        } else {
            assert(self.full@.map_values(|b: AlignedBuf| b.written()) =~= Seq::<Seq<u8>>::empty());
            assert(flatten_bytes(Seq::<Seq<u8>>::empty()) == Seq::<u8>::empty());
        }
        match self.current {
            Some(c) => {
                assert(c.written().len() == c.limit);
            },
            None => {},
        }
    }

    /// The free bytes are exactly those between the cursor and the end of allocated memory.
    pub proof fn lemma_remaining_is_gap(&self)
        requires
            self.wf(),
            self.in_step(),
        ensures
            self.spec_remaining() == self.spec_max_allocated() - self.cursor,
    {
        if self.allocated@.len() > 0 {
            lemma_chained_sum(self.allocated@);
        }
    }

    /// A writer with no buffers, whose next write goes to `cursor`.
    pub fn new(cursor: u64, alignment: usize) -> (w: Self)
        ensures
            w.cursor == cursor,
            w.alignment == alignment,
            w.full@.len() == 0,
            w.current is None,
            w.allocated@.len() == 0,
            !w.buffering,
            w.wf(),
            w.in_step(),
            w.spec_max_allocated() == cursor,
            w.spec_remaining() == 0,
    {
        AlignedBufWriter {
            cursor,
            alignment,
            full: Vec::new(),
            current: None,
            allocated: VecDeque::new(),
            buffering: false,
        }
    }

    /// Resets the cursor after recovery.
    pub fn reset_cursor(&mut self, cursor: u64)
        ensures
            final(self).cursor == cursor,
            final(self).alignment == old(self).alignment,
            final(self).full == old(self).full,
            final(self).current == old(self).current,
            final(self).allocated == old(self).allocated,
            final(self).buffering == old(self).buffering,
    {
        self.cursor = cursor;
    }

    /// Makes `buf`, the partially committed last page of the WAL, the current buffer, so that
    /// new records are appended to it. The cursor must already be reset to the end of its data.
    pub fn rebase_buf(&mut self, buf: AlignedBuf)
        requires
            old(self).full@.len() == 0,
            old(self).allocated@.len() == 0,
            old(self).cursor == buf.wal_offset + buf.limit,
            buf.wf(),
            buf.capacity - buf.limit <= usize::MAX,
        ensures
            final(self).current == Some(buf),
            final(self).cursor == old(self).cursor,
            final(self).alignment == old(self).alignment,
            final(self).full == old(self).full,
            final(self).allocated == old(self).allocated,
            final(self).buffering == old(self).buffering,
            final(self).wf(),
            final(self).in_step(),
    {
        self.current = Some(buf);
    }

    /// WAL offset up to which memory is allocated: the end of the last reserved buffer, else
    /// of the current buffer, else the cursor.
    pub fn max_allocated_wal_offset(&self) -> (r: u64)
        requires
            self.wf(),
        ensures
            r == self.spec_max_allocated(),
    {
        let n = self.allocated.len();
        if n > 0 {
            let buf = &self.allocated[n - 1];
            assert(buf.wf());
            return buf.wal_offset + buf.capacity as u64;
        }
        match &self.current {
            Some(buf) => buf.wal_offset + buf.capacity as u64,
            None => self.cursor,
        }
    }

    fn push_allocated(&mut self, buf: AlignedBuf)
        requires
            old(self).wf(),
            buf.wf(),
            buf.limit == 0,
            buf.wal_offset == old(self).spec_max_allocated(),
            old(self).in_step() || old(self).allocated@.len() > 0 || old(self).current is Some,
            old(self).spec_remaining() + buf.capacity <= usize::MAX,
        ensures
            final(self).wf(),
            final(self).cursor == old(self).cursor,
            final(self).alignment == old(self).alignment,
            final(self).full == old(self).full,
            final(self).current == old(self).current,
            final(self).buffering == old(self).buffering,
            final(self).allocated@ == old(self).allocated@.push(buf),
            final(self).spec_max_allocated() == buf.end(),
            final(self).spec_remaining() == old(self).spec_remaining() + buf.capacity,
            old(self).in_step() ==> final(self).in_step(),
    {
        let ghost before = self.allocated@;
        self.allocated.push_back(buf);
        proof {
            let s = self.allocated@;
            assert(s.drop_last() =~= before);
            assert(chained(s)) by {
                assert forall|i: int| 0 <= i < s.len() - 1 implies (#[trigger] s[i]).end()
                    == s[i + 1].wal_offset by {
                    if i < s.len() - 2 {
                        assert(s[i] == before[i]);
                        assert(s[i + 1] == before[i + 1]);
                    }
                }
            }
        }
    }

    /// Reserves memory so that writes up to WAL offset `wal_offset` can be buffered: whole
    /// aligned blocks for the part that fills them, and one more aligned block for the rest.
    /// Nothing is reserved when memory up to `wal_offset` is already allocated.
    ///
    /// Fails with `MemoryAlignment` when a block cannot be laid out; blocks reserved before
    /// the failure stay reserved.
    pub fn reserve_to(&mut self, wal_offset: u64, file_size: usize) -> (r: Result<(), StoreError>)
        requires
            old(self).wf(),
            wal_offset > old(self).spec_max_allocated() ==> {
                &&& is_power_of_two(old(self).alignment)
                &&& file_size > 0
                &&& old(self).spec_max_allocated() / (file_size as int) == (wal_offset - 1) / (
                file_size as int)
                &&& old(self).spec_remaining() + (wal_offset - old(self).spec_max_allocated())
                    + old(self).alignment <= usize::MAX
                &&& wal_offset + old(self).alignment <= u64::MAX
            },
        ensures
            final(self).wf(),
            final(self).cursor == old(self).cursor,
            final(self).alignment == old(self).alignment,
            final(self).full == old(self).full,
            final(self).current == old(self).current,
            final(self).buffering == old(self).buffering,
            old(self).in_step() ==> final(self).in_step(),
            old(self).allocated@.is_prefix_of(final(self).allocated@),
            final(self).spec_remaining() - old(self).spec_remaining()
                == final(self).spec_max_allocated() - old(self).spec_max_allocated(),
            wal_offset > old(self).spec_max_allocated() ==> {
                let added = final(self).allocated@.skip(old(self).allocated@.len() as int);
                let layout = reserve_layout(
                    old(self).spec_max_allocated(),
                    wal_offset - old(self).spec_max_allocated(),
                    old(self).alignment as int,
                );
                &&& forall|i: int| 0 <= i < added.len() ==> (#[trigger] added[i]).limit == 0
                &&& regions(added).is_prefix_of(layout)
                &&& r is Ok ==> regions(added) == layout
            },
            ({
                let max = old(self).spec_max_allocated();
                let a = old(self).alignment as int;
                let additional = wal_offset - max;
                match r {
                    Ok(()) => {
                        &&& wal_offset <= max ==> *final(self) == *old(self)
                        &&& wal_offset > max ==> final(self).spec_max_allocated() == max
                            + round_up(additional, a)
                        &&& final(self).spec_max_allocated() >= wal_offset
                        &&& wal_offset > max ==> (additional < a || layout_fits(
                            additional / a * a,
                            a,
                        )) && (additional % a == 0 || layout_fits(a, a))
                    },
                    Err(e) => {
                        &&& e == StoreError::MemoryAlignment
                        &&& wal_offset > max
                        &&& !((additional < a || layout_fits(additional / a * a, a)) && (
                        additional % a == 0 || layout_fits(a, a)))
                    },
                }
            }),
    {
        let max = self.max_allocated_wal_offset();
        if wal_offset <= max {
            return Ok(());
        }
        proof {
            assert forall|i: int| 0 <= i < self.allocated@.len() implies (
            #[trigger] self.allocated@[i]).limit <= self.allocated@[i].capacity by {
                assert(self.allocated@[i].wf());
            }
            lemma_sum_nonneg(self.allocated@);
        }
        if max / (file_size as u64) != (wal_offset - 1) / (file_size as u64) {
            assert(false);
        }
        let a = self.alignment;
        let additional = (wal_offset - max) as usize;
        let mut offset = max;
        proof {
            lemma_round_up(additional as int, a as int);
            lemma_block_split(additional as int, a as int);
        }
        let ghost n0 = self.allocated@.len() as int;
        let ghost layout = reserve_layout(max as int, additional as int, a as int);
        proof {
            assert(self.allocated@.skip(n0) =~= Seq::<AlignedBuf>::empty());
            assert(regions(Seq::<AlignedBuf>::empty()) =~= Seq::<(int, int)>::empty());
        }
        if additional >= a {
            let size = additional / a * a;
            proof {
                lemma_round_up(size as int, a as int);
            }
            let buf = AlignedBuf::new(offset, size, a)?;
            offset = offset + buf.capacity as u64;
            self.push_allocated(buf);
            proof {
                assert(self.allocated@.skip(n0) =~= seq![buf]);
                assert(regions(seq![buf]) =~= seq![(max as int, size as int)]);
            }
        }
        assert(offset == max + additional / a * a);
        assert(self.spec_max_allocated() == offset);
        let ghost first = self.allocated@.skip(n0);
        proof {
            assert(regions(first) =~= layout.take(regions(first).len() as int));
        }
        let r = additional % a;
        if r != 0 {
            proof {
                lemma_round_up(a as int, a as int);
            }
            let buf = AlignedBuf::new(offset, a, a)?;
            self.push_allocated(buf);
            proof {
                assert(self.allocated@.skip(n0) =~= first.push(buf));
                assert(regions(first.push(buf)) =~= regions(first).push(
                    (offset as int, a as int),
                ));
            }
        }
        proof {
            assert(regions(self.allocated@.skip(n0)) =~= layout);
        }
        assert(self.spec_max_allocated() == max + round_up(additional as int, a as int));
        assert(round_up(additional as int, a as int) >= additional);
        Ok(())
    }

    /// Appends `data` at the cursor, filling the current buffer and then the reserved ones in
    /// turn; memory must have been reserved before.
    ///
    /// Fails with `OutOfMemory` when the reserved memory runs out, having filled it all with
    /// the front of `data` and left the cursor where it was; in particular when there is no
    /// buffer at all.
    #[verifier::spinoff_prover]
    #[verifier::rlimit(60)]
    pub fn write(&mut self, data: &[u8]) -> (r: Result<(), StoreError>)
        requires
            old(self).wf(),
            old(self).in_step(),
            old(self).cursor + data@.len() <= u64::MAX,
        ensures
            final(self).wf(),
            final(self).alignment == old(self).alignment,
            final(self).spec_max_allocated() == old(self).spec_max_allocated(),
            final(self).pending_start() == old(self).pending_start(),
            regions(final(self).all_bufs()) == regions(old(self).all_bufs()),
            final(self).allocated@ == old(self).allocated@.skip(
                old(self).allocated@.len() - final(self).allocated@.len(),
            ),
            old(self).full@.is_prefix_of(final(self).full@),
            match r {
                Ok(()) => {
                    &&& data@.len() <= old(self).spec_remaining()
                    &&& !(old(self).current is None && old(self).allocated@.len() == 0)
                    &&& final(self).cursor == old(self).cursor + data@.len()
                    &&& final(self).buffering
                    &&& final(self).in_step()
                    &&& final(self).pending() == old(self).pending() + data@
                    &&& final(self).cursor == final(self).pending_start()
                        + final(self).pending().len()
                    &&& forall|i: int|
                        0 <= i < data@.len() ==> #[trigger] final(self).pending()[old(self).cursor
                            - final(self).pending_start() + i] == data@[i]
                    &&& final(self).spec_remaining() == old(self).spec_remaining() - data@.len()
                },
                Err(e) => {
                    &&& e == StoreError::OutOfMemory
                    &&& (data@.len() > old(self).spec_remaining() || (old(self).current is None
                        && old(self).allocated@.len() == 0))
                    &&& final(self).cursor == old(self).cursor
                    &&& final(self).buffering == old(self).buffering
                    &&& final(self).allocated@.len() == 0
                    &&& final(self).spec_remaining() == 0
                    &&& final(self).pending() == old(self).pending() + data@.take(
                        old(self).spec_remaining(),
                    )
                },
            },
    {
        let len = data.len();
        let mut pos: usize = 0;
        proof {
            assert(data@.take(0) =~= Seq::<u8>::empty());
            assert(old(self).pending() + data@.take(0) =~= old(self).pending());
            self.lemma_remaining_is_gap();
        }
        loop
            invariant
                self.wf(),
                pos <= len == data@.len(),
                old(self).cursor + len <= u64::MAX,
                self.cursor == old(self).cursor,
                self.alignment == old(self).alignment,
                self.buffering == old(self).buffering,
                self.in_step_at(old(self).cursor + pos),
                self.pending() == old(self).pending() + data@.take(pos as int),
                self.spec_remaining() == old(self).spec_remaining() - pos,
                self.spec_max_allocated() == old(self).spec_max_allocated(),
                self.pending_start() == old(self).pending_start(),
                regions(self.all_bufs()) == regions(old(self).all_bufs()),
                self.allocated@.len() <= old(self).allocated@.len(),
                self.allocated@ == old(self).allocated@.skip(
                    old(self).allocated@.len() - self.allocated@.len(),
                ),
                old(self).full@.is_prefix_of(self.full@),
                self.current is None ==> pos == 0 && old(self).current is None
                    && self.allocated@ == old(self).allocated@,
                (old(self).current is None && old(self).allocated@.len() == 0) ==> self.current is None,
            ensures
                pos == len,
                self.current is Some,
            decreases self.allocated@.len(),
        {
            let cursor = self.cursor;
            let start = pos;
            let mut need_swap = true;
            let ghost before = *self;
            match &mut self.current {
                Some(buf) => {
                    let r = buf.remaining();
                    if r >= len - pos {
                        let ok = buf.write_buf(cursor + pos as u64, &data[pos..len]);
                        assert(ok);
                        proof {
                            assert(data@.subrange(pos as int, len as int) =~= data@.skip(pos as int));
                        }
                        pos = len;
                        need_swap = false;
                    } else {
                        let ok = buf.write_buf(cursor + pos as u64, &data[pos..pos + r]);
                        assert(ok);
                        pos = pos + r;
                    }
                },
                None => {},
            }
            proof {
                if before.current is Some {
                    let c0 = before.current->0;
                    let c1 = self.current->0;
                    let chunk = data@.subrange(start as int, pos as int);
                    assert(self.full@ == before.full@);
                    assert(c1.wal_offset == c0.wal_offset && c1.end() == c0.end());
                    assert(c1.written() =~= c0.written() + chunk);
                    assert(data@.take(pos as int) =~= data@.take(start as int) + chunk);
                    assert(self.pending() =~= before.pending() + chunk);
                    lemma_refill_keeps_layout(before, *self);
                } else {
                    assert(*self == before);
                }
            }
            if !need_swap {
                break;
            }
            let ghost pre = *self;
            self.swap()?;
            proof {
                lemma_swap_keeps_layout(pre, *self);
                lemma_skip_one_more(old(self).allocated@, pre.allocated@);
            }
        }
        proof {
            assert(self.current->0.wf());
            assert forall|i: int| 0 <= i < self.allocated@.len() implies (
            #[trigger] self.allocated@[i]).limit <= self.allocated@[i].capacity by {
                assert(self.allocated@[i].wf());
            }
            lemma_sum_nonneg(self.allocated@);
        }
        self.cursor = self.cursor + len as u64;
        self.buffering = true;
        assert(data@.take(len as int) =~= data@);
        proof {
            old(self).lemma_pending_layout();
            self.lemma_pending_layout();
        }
        Ok(())
    }

    /// Appends the big-endian bytes of `value`; see `write`.
    pub fn write_u32(&mut self, value: u32) -> (r: Result<(), StoreError>)
        requires
            old(self).wf(),
            old(self).in_step(),
            old(self).cursor + 4 <= u64::MAX,
        ensures
            final(self).wf(),
            final(self).alignment == old(self).alignment,
            final(self).spec_max_allocated() == old(self).spec_max_allocated(),
            match r {
                Ok(()) => {
                    &&& 4 <= old(self).spec_remaining()
                    &&& final(self).cursor == old(self).cursor + 4
                    &&& final(self).buffering
                    &&& final(self).in_step()
                    &&& final(self).pending() == old(self).pending() + be32_bytes(value as int)
                    &&& final(self).spec_remaining() == old(self).spec_remaining() - 4
                },
                Err(e) => {
                    &&& e == StoreError::OutOfMemory
                    &&& (4 > old(self).spec_remaining() || (old(self).current is None
                        && old(self).allocated@.len() == 0))
                    &&& final(self).cursor == old(self).cursor
                    &&& final(self).spec_remaining() == 0
                    &&& final(self).pending() == old(self).pending() + be32_bytes(value as int).take(
                        old(self).spec_remaining(),
                    )
                },
            },
    {
        let mut b: Vec<u8> = Vec::new();
        put_be32(&mut b, value);
        assert(b@ =~= be32_bytes(value as int));
        self.write(b.as_slice())
    }

    /// Appends the big-endian bytes of `value`; see `write`.
    pub fn write_u64(&mut self, value: u64) -> (r: Result<(), StoreError>)
        requires
            old(self).wf(),
            old(self).in_step(),
            old(self).cursor + 8 <= u64::MAX,
        ensures
            final(self).wf(),
            final(self).alignment == old(self).alignment,
            final(self).spec_max_allocated() == old(self).spec_max_allocated(),
            match r {
                Ok(()) => {
                    &&& 8 <= old(self).spec_remaining()
                    &&& final(self).cursor == old(self).cursor + 8
                    &&& final(self).buffering
                    &&& final(self).in_step()
                    &&& final(self).pending() == old(self).pending() + be64_bytes(value as int)
                    &&& final(self).spec_remaining() == old(self).spec_remaining() - 8
                },
                Err(e) => {
                    &&& e == StoreError::OutOfMemory
                    &&& (8 > old(self).spec_remaining() || (old(self).current is None
                        && old(self).allocated@.len() == 0))
                    &&& final(self).cursor == old(self).cursor
                    &&& final(self).spec_remaining() == 0
                    &&& final(self).pending() == old(self).pending() + be64_bytes(value as int).take(
                        old(self).spec_remaining(),
                    )
                },
            },
    {
        let mut b: Vec<u8> = Vec::new();
        put_be64(&mut b, value);
        assert(b@ =~= be64_bytes(value as int));
        self.write(b.as_slice())
    }

    /// Takes up to `slots` full buffers, oldest first, to be flushed. When fewer than `slots`
    /// buffers are full, a copy of the current buffer is taken too if it holds data, and all
    /// buffered data counts as taken.
    pub fn take(&mut self, slots: usize) -> (items: Vec<AlignedBuf>)
        ensures
            ({
                let n = old(self).full@.len();
                let k = if slots < n {
                    slots as int
                } else {
                    n as int
                };
                let with_current = n < slots && (old(self).current matches Some(c) && c.limit > 0);
                &&& items@.len() == k + (if with_current {
                    1int
                } else {
                    0int
                })
                &&& items@.take(k) == old(self).full@.take(k)
                &&& with_current ==> items@[k].same_as(&old(self).current->0)
                &&& final(self).full@ == old(self).full@.skip(k)
                &&& final(self).buffering == if n < slots {
                    false
                } else if n == slots {
                    old(self).current matches Some(c) && c.limit > 0
                } else {
                    old(self).buffering
                }
            }),
            final(self).current == old(self).current,
            final(self).allocated == old(self).allocated,
            final(self).cursor == old(self).cursor,
            final(self).alignment == old(self).alignment,
            old(self).wf() ==> final(self).wf(),
            old(self).in_step() ==> final(self).in_step(),
    {
        let n = self.full.len();
        let k = if slots < n {
            slots
        } else {
            n
        };
        let mut items = self.full.split_off(k);
        std::mem::swap(&mut items, &mut self.full);
        proof {
            assert(items@ =~= old(self).full@.take(k as int));
            assert(self.full@ =~= old(self).full@.skip(k as int));
            if old(self).wf() {
                assert forall|i: int| 0 <= i < self.full@.len() implies (
                #[trigger] self.full@[i]).wf() && self.full@[i].limit == self.full@[i].capacity by {
                    assert(self.full@[i] == old(self).full@[i + k]);
                }
            }
        }
        if n < slots {
            match &self.current {
                Some(buf) => {
                    if buf.has_data() {
                        let ghost before = items@;
                        items.push(buf.duplicate());
                        assert(items@.take(k as int) =~= before);
                    }
                },
                None => {},
            }
            self.buffering = false;
        } else if self.full.len() == 0 {
            self.buffering = match &self.current {
                Some(buf) => buf.limit() > 0,
                None => false,
            };
        }
        items
    }

    /// Whether buffered data is available to take and flush.
    pub fn buffering(&self) -> (b: bool)
        ensures
            b == self.buffering,
    {
        self.buffering
    }

    /// Free bytes left in the current and reserved buffers.
    pub fn remaining(&self) -> (r: usize)
        requires
            self.wf(),
        ensures
            r == self.spec_remaining(),
    {
        let mut total: usize = match &self.current {
            Some(buf) => buf.remaining(),
            None => 0,
        };
        let ghost head: int = total as int;
        let mut i: usize = 0;
        while i < self.allocated.len()
            invariant
                self.wf(),
                i <= self.allocated@.len(),
                head + sum_remaining(self.allocated@) == self.spec_remaining(),
                total == head + sum_remaining(self.allocated@.take(i as int)),
                head >= 0,
            decreases self.allocated@.len() - i,
        {
            let buf = &self.allocated[i];
            proof {
                let s = self.allocated@;
                assert(s.take(i + 1).drop_last() =~= s.take(i as int));
                assert(s[i as int].wf());
                lemma_sum_prefix_bound(s, i as int + 1);
            }
            total = total + buf.remaining();
            i = i + 1;
        }
        assert(self.allocated@.take(i as int) =~= self.allocated@);
        total
    }

    /// Moves the current buffer, which is full, to the full buffers, and makes the first
    /// reserved buffer current. Fails with `OutOfMemory`, changing nothing, when no buffer is
    /// reserved.
    fn swap(&mut self) -> (r: Result<(), StoreError>)
        requires
            old(self).wf(),
            old(self).current matches Some(c) ==> c.limit == c.capacity,
        ensures
            final(self).wf(),
            final(self).cursor == old(self).cursor,
            final(self).alignment == old(self).alignment,
            final(self).buffering == old(self).buffering,
            final(self).spec_remaining() == old(self).spec_remaining(),
            final(self).spec_max_allocated() == old(self).spec_max_allocated(),
            final(self).pending() == old(self).pending(),
            match r {
                Ok(()) => {
                    &&& old(self).allocated@.len() > 0
                    &&& final(self).current == Some(old(self).allocated@[0])
                    &&& final(self).allocated@ == old(self).allocated@.drop_first()
                    &&& final(self).full@ == match old(self).current {
                        Some(c) => old(self).full@.push(c),
                        None => old(self).full@,
                    }
                },
                Err(e) => {
                    &&& e == StoreError::OutOfMemory
                    &&& old(self).allocated@.len() == 0
                    &&& final(self).allocated@ == old(self).allocated@
                    &&& final(self).current == old(self).current
                    &&& final(self).full@ == old(self).full@
                },
            },
    {
        let ghost old_alloc = self.allocated@;
        let ghost old_full = self.full@;
        match self.allocated.pop_front() {
            Some(buf) => {
                proof {
                    assert(self.allocated@ =~= old_alloc.drop_first());
                    assert(old_alloc[0].wf() && old_alloc[0].limit == 0);
                    assert(old_alloc[0].written() =~= Seq::<u8>::empty());
                    lemma_sum_first(old_alloc);
                    if old_alloc.len() > 1 {
                        assert(old_alloc[0].end() == old_alloc[1].wal_offset);
                        assert(old_alloc.drop_first().last() == old_alloc.last());
                    }
                    assert(chained(self.allocated@)) by {
                        let s = self.allocated@;
                        assert forall|i: int| 0 <= i < s.len() implies (#[trigger] s[i]).wf()
                            && s[i].limit == 0 by {
                            assert(s[i] == old_alloc[i + 1]);
                        }
                        assert forall|i: int| 0 <= i < s.len() - 1 implies (#[trigger] s[i]).end()
                            == s[i + 1].wal_offset by {
                            assert(s[i] == old_alloc[i + 1]);
                            assert(s[i + 1] == old_alloc[i + 2]);
                        }
                    }
                }
                let mut prev = Some(buf);
                std::mem::swap(&mut prev, &mut self.current);
                match prev {
                    Some(p) => {
                        self.full.push(p);
                        proof {
                            let v = self.full@.map_values(|b: AlignedBuf| b.written());
                            assert(v.drop_last() =~= old_full.map_values(
                                |b: AlignedBuf| b.written(),
                            ));
                        }
                    },
                    None => {},
                }
                proof {
                    assert(self.pending() =~= old(self).pending());
                }
                Ok(())
            },
            None => {
                Err(StoreError::OutOfMemory)
            },
        }
    }
}

/// Reserving is enough: once memory is allocated up to some WAL offset, a non-empty write
/// that ends at or before that offset fits in the free bytes and finds a buffer to go to.
pub proof fn lemma_reserved_write_fits(w: &AlignedBufWriter, n: int)
    requires
        w.wf(),
        w.in_step(),
        0 < n,
        w.cursor + n <= w.spec_max_allocated(),
    ensures
        n <= w.spec_remaining(),
        !(w.current is None && w.allocated@.len() == 0),
{
    w.lemma_remaining_is_gap();
}

/// Writing into the current buffer keeps the buffers' regions and where pending data starts.
proof fn lemma_refill_keeps_layout(before: AlignedBufWriter, after: AlignedBufWriter)
    requires
        before.current is Some,
        after.current is Some,
        after.full@ == before.full@,
        after.allocated@ == before.allocated@,
        after.cursor == before.cursor,
        after.current->0.wal_offset == before.current->0.wal_offset,
        after.current->0.capacity == before.current->0.capacity,
    ensures
        regions(after.all_bufs()) == regions(before.all_bufs()),
        after.pending_start() == before.pending_start(),
{
    let k = before.full@.len() as int;
    assert(after.all_bufs() =~= before.all_bufs().update(k, after.current->0));
    assert(regions(after.all_bufs()) =~= regions(before.all_bufs()));
}

/// Moving the current buffer to the full ones and the first reserved one to current keeps
/// the buffers in WAL order and where pending data starts.
proof fn lemma_swap_keeps_layout(pre: AlignedBufWriter, post: AlignedBufWriter)
    requires
        pre.wf(),
        pre.current is None ==> pre.allocated@.len() > 0 && pre.allocated@[0].wal_offset
            == pre.cursor,
        pre.allocated@.len() > 0,
        post.cursor == pre.cursor,
        post.current == Some(pre.allocated@[0]),
        post.allocated@ == pre.allocated@.drop_first(),
        post.full@ == match pre.current {
            Some(c) => pre.full@.push(c),
            None => pre.full@,
        },
    ensures
        post.all_bufs() == pre.all_bufs(),
        post.pending_start() == pre.pending_start(),
        pre.full@.is_prefix_of(post.full@),
{
    assert(post.all_bufs() =~= pre.all_bufs());
    if pre.current is None {
        assert(pre.full@.len() == 0);
    }
}

/// Dropping the first of the buffers left after skipping `k` leaves those after skipping
/// `k + 1`.
proof fn lemma_skip_one_more(all: Seq<AlignedBuf>, rest: Seq<AlignedBuf>)
    requires
        rest.len() > 0,
        rest.len() <= all.len(),
        rest == all.skip(all.len() - rest.len()),
    ensures
        rest.drop_first() == all.skip(all.len() - (rest.len() - 1)),
{
    assert(rest.drop_first() =~= all.skip(all.len() - (rest.len() - 1)));
}

} // verus!
