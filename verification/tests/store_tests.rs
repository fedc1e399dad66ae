use elastic_stream::aligned_buf::AlignedBuf;
use elastic_stream::aligned_buf_writer::AlignedBufWriter;
use elastic_stream::store_error::StoreError;

const ALIGNMENT: usize = 512;

#[test]
fn test_aligned_buf_writer() -> Result<(), StoreError> {
    let mut buf_writer = AlignedBufWriter::new(0, ALIGNMENT);
    assert_eq!(0, buf_writer.cursor);
    buf_writer.reset_cursor(4100);
    let mut aligned_buf = AlignedBuf::new(4096, 4096, ALIGNMENT)?;
    aligned_buf.write_u32(4096, 100);
    buf_writer.rebase_buf(aligned_buf);
    assert_eq!(4100, buf_writer.cursor);

    buf_writer.reserve_to(8192, 16384)?;
    buf_writer.write_u32(101)?;
    assert_eq!(4104, buf_writer.cursor);
    Ok(())
}

#[test]
fn test_max_allocated_wal_offset() -> Result<(), StoreError> {
    let mut buf_writer = AlignedBufWriter::new(0, ALIGNMENT);
    assert_eq!(0, buf_writer.max_allocated_wal_offset());

    let aligned_buf = AlignedBuf::new(1024, 512, 512)?;
    buf_writer.current = Some(aligned_buf.clone());
    assert_eq!(buf_writer.max_allocated_wal_offset(), 1024 + 512);

    buf_writer.current = None;
    buf_writer.allocated.push_back(aligned_buf.clone());
    assert_eq!(buf_writer.max_allocated_wal_offset(), 1024 + 512);

    let aligned_buf = AlignedBuf::new(1024 + 512, 512, 512)?;
    buf_writer.allocated.push_back(aligned_buf);
    assert_eq!(buf_writer.max_allocated_wal_offset(), 2048);

    Ok(())
}

#[test]
fn test_reserve_to() -> Result<(), StoreError> {
    let mut buf_writer = AlignedBufWriter::new(0, ALIGNMENT);
    assert_eq!(0, buf_writer.cursor);
    assert_eq!(0, buf_writer.max_allocated_wal_offset());

    buf_writer.reserve_to(ALIGNMENT as u64, 16384)?;
    assert_eq!(buf_writer.remaining(), { ALIGNMENT });
    assert_eq!(ALIGNMENT as u64, buf_writer.max_allocated_wal_offset());
    assert_eq!(0, buf_writer.cursor);

    buf_writer.reserve_to(ALIGNMENT as u64, 16384)?;
    assert_eq!(buf_writer.remaining(), { ALIGNMENT });
    assert_eq!(ALIGNMENT as u64, buf_writer.max_allocated_wal_offset());
    assert_eq!(0, buf_writer.cursor);

    buf_writer.reserve_to((ALIGNMENT + 1) as u64, 16384)?;
    assert_eq!(buf_writer.remaining(), { ALIGNMENT * 2 });
    assert_eq!(ALIGNMENT as u64 * 2, buf_writer.max_allocated_wal_offset());

    buf_writer.reserve_to(ALIGNMENT as u64 * 2 - 1, 16384)?;
    assert_eq!(buf_writer.remaining(), { ALIGNMENT * 2 });
    assert_eq!(ALIGNMENT as u64 * 2, buf_writer.max_allocated_wal_offset());
    Ok(())
}

#[test]
fn writer_write_spans_buffers_and_take() -> Result<(), StoreError> {
    let mut w = AlignedBufWriter::new(0, ALIGNMENT);
    w.reserve_to(1500, 16384)?;
    // Two whole blocks and one partial block.
    assert_eq!(1536, w.max_allocated_wal_offset());
    assert_eq!(1536, w.remaining());
    let data: Vec<u8> = (0..1000u32).map(|i| (i % 251) as u8).collect();
    w.write(&data)?;
    assert_eq!(1000, w.cursor);
    assert_eq!(536, w.remaining());
    assert!(w.buffering());
    let taken = w.take(8);
    // The first reserved buffer spans 1024 bytes and holds all the data.
    assert_eq!(1, taken.len());
    assert_eq!(0, taken[0].wal_offset);
    assert_eq!(1024, taken[0].capacity);
    assert_eq!(1000, taken[0].limit());
    assert_eq!(&data[..], &taken[0].data[..1000]);
    assert!(!w.buffering());
    Ok(())
}

#[test]
fn writer_write_without_reservation_fails() {
    let mut w = AlignedBufWriter::new(0, ALIGNMENT);
    assert_eq!(Err(StoreError::OutOfMemory), w.write(b"x"));
    assert_eq!(0, w.cursor);
}

#[test]
fn writer_write_beyond_reservation_fills_then_fails() -> Result<(), StoreError> {
    let mut w = AlignedBufWriter::new(0, ALIGNMENT);
    w.reserve_to(10, 16384)?;
    assert_eq!(512, w.remaining());
    let data = vec![7u8; 600];
    assert_eq!(Err(StoreError::OutOfMemory), w.write(&data));
    assert_eq!(0, w.cursor);
    assert_eq!(0, w.remaining());
    Ok(())
}

#[test]
fn writer_take_respects_slots() -> Result<(), StoreError> {
    let mut w = AlignedBufWriter::new(0, ALIGNMENT);
    for end in [512u64, 1024, 1536, 2048] {
        w.reserve_to(end, 16384)?;
    }
    w.write(&vec![1u8; 1600])?;
    let first = w.take(2);
    assert_eq!(2, first.len());
    assert_eq!(0, first[0].wal_offset);
    assert_eq!(512, first[1].wal_offset);
    // One full buffer is left, so data is still buffered.
    assert!(w.buffering());
    let second = w.take(1);
    assert_eq!(1, second.len());
    assert_eq!(1024, second[0].wal_offset);
    // Exactly the full buffers were taken: the partial current one still holds data.
    assert!(w.buffering());
    let third = w.take(4);
    assert_eq!(1, third.len());
    assert_eq!(64, third[0].limit());
    assert!(!w.buffering());
    Ok(())
}

#[test]
fn aligned_buf_rounds_capacity_up() -> Result<(), StoreError> {
    let b = AlignedBuf::new(0, 513, 512)?;
    assert_eq!(1024, b.capacity);
    assert_eq!(1024, b.remaining());
    assert!(!b.has_data());
    Ok(())
}

#[test]
fn aligned_buf_write_past_capacity_is_refused() -> Result<(), StoreError> {
    let mut b = AlignedBuf::new(0, 512, 512)?;
    assert!(!b.write_buf(510, b"abc"));
    assert_eq!(0, b.limit());
    assert!(b.write_buf(509, b"abc"));
    assert_eq!(512, b.limit());
    Ok(())
}

#[test]
fn aligned_buf_layout_too_large() {
    let r = AlignedBuf::new(0, isize::MAX as usize, 512);
    assert_eq!(Err(StoreError::MemoryAlignment), r.map(|_| ()));
}

#[test]
fn writer_reserve_lays_out_whole_blocks_then_partial() -> Result<(), StoreError> {
    let mut w = AlignedBufWriter::new(0, ALIGNMENT);
    w.reserve_to(1300, 16384)?;
    let regions: Vec<(u64, usize)> = w.allocated.iter().map(|b| (b.wal_offset, b.capacity)).collect();
    assert_eq!(vec![(0, 1024), (1024, 512)], regions);
    assert!(w.allocated.iter().all(|b| b.limit() == 0));
    w.reserve_to(2048, 16384)?;
    let regions: Vec<(u64, usize)> = w.allocated.iter().map(|b| (b.wal_offset, b.capacity)).collect();
    assert_eq!(vec![(0, 1024), (1024, 512), (1536, 512)], regions);
    Ok(())
}

#[test]
fn writer_reserve_below_allocated_end_needs_no_alignment() -> Result<(), StoreError> {
    let mut w = AlignedBufWriter::new(100, 3);
    w.reserve_to(100, 0)?;
    w.reserve_to(7, 0)?;
    assert_eq!(100, w.max_allocated_wal_offset());
    assert_eq!(0, w.remaining());
    Ok(())
}
