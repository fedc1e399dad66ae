//! Checking and decoding frames from a byte cursor.
use vstd::prelude::*;
use crate::be::{be16, be24, be32, read_be16, read_be32};
use crate::crc32::{crc32, spec_crc32};
use crate::cursor::Cursor;
use crate::frame::{
    header_format_of, opcode_of_bits, Frame, HeaderFormat, MAGIC_CODE, MAX_FRAME_LENGTH,
    MIN_FRAME_LENGTH,
};
use crate::frame_error::FrameError;
use crate::text::{decimal, push_decimal};

verus! {

/// What checking the bytes at the front of a buffer finds.
pub enum CheckOutcome {
    /// A whole, well-formed frame of this many bytes, checksum included.
    Complete(u64),
    /// More bytes are needed.
    Incomplete,
    /// The frame length is below the minimum.
    TooShort(u32),
    /// The frame length is above the maximum.
    TooLong(u32),
    /// The magic code is wrong.
    BadMagic(u8),
    /// The header length (first) exceeds what the frame length (second) leaves room for.
    HeaderTooLong(u32, u32),
    /// The payload length (first) exceeds the buffered bytes, given the frame length
    /// (second) and the header length (third).
    PayloadTooLong(u32, u32, u32),
    /// The checksum field (first) differs from the CRC-32C of the payload (second).
    BadChecksum(u32, u32),
}

/// The frame length field at the front of `b`.
pub open spec fn length_field(b: Seq<u8>) -> int {
    be32(b.subrange(0, 4))
}

/// The header length field of the frame at the front of `b`.
pub open spec fn header_length_field(b: Seq<u8>) -> int {
    be24(b.subrange(13, 16))
}

/// What checking finds at the front of `b`.
pub open spec fn check_outcome(b: Seq<u8>) -> CheckOutcome {
    if b.len() < 4 {
        CheckOutcome::Incomplete
    } else {
        let fl = length_field(b);
        if fl < MIN_FRAME_LENGTH {
            CheckOutcome::TooShort(fl as u32)
        } else if fl > MAX_FRAME_LENGTH {
            CheckOutcome::TooLong(fl as u32)
        } else if b.len() - 4 < fl {
            CheckOutcome::Incomplete
        } else if b[4] != MAGIC_CODE {
            CheckOutcome::BadMagic(b[4])
        } else {
            let h = header_length_field(b);
            if h > fl - 16 {
                CheckOutcome::HeaderTooLong(h as u32, fl as u32)
            } else if h + 16 < fl {
                let p = fl - h - 16;
                if p > (b.len() - 16 - h) % 4294967296 {
                    CheckOutcome::PayloadTooLong(p as u32, fl as u32, h as u32)
                } else {
                    let field = be32(b.subrange(fl, fl + 4));
                    let actual = spec_crc32(b.subrange(16 + h, fl));
                    if field != actual {
                        CheckOutcome::BadChecksum(field as u32, actual)
                    } else {
                        CheckOutcome::Complete((fl + 4) as u64)
                    }
                }
            } else {
                CheckOutcome::Complete((fl + 4) as u64)
            }
        }
    }
}

/// How far checking moves the read position over the bytes `b`.
pub open spec fn check_advance(b: Seq<u8>) -> int {
    if b.len() < 4 {
        0
    } else {
        let fl = length_field(b);
        if fl < MIN_FRAME_LENGTH || fl > MAX_FRAME_LENGTH || b.len() - 4 < fl {
            4
        } else if b[4] != MAGIC_CODE {
            5
        } else {
            let h = header_length_field(b);
            if h > fl - 16 {
                16
            } else if h + 16 < fl && fl - h - 16 > (b.len() - 16 - h) % 4294967296 {
                16 + h
            } else {
                fl + 4
            }
        }
    }
}

/// Text of the error for a frame length below the minimum.
pub open spec fn too_short_message(fl: u32) -> Seq<char> {
    "Length of the incoming frame is: "@ + decimal(fl as nat)
        + ", less than the minimum possible: "@ + decimal(MIN_FRAME_LENGTH as nat)
}

/// Text of the error for a header length that the frame length leaves no room for.
pub open spec fn header_too_long_message(h: u32, fl: u32) -> Seq<char> {
    "Header length["@ + decimal(h as nat)
        + "] exceeds maximum value possible given that frame-length is "@ + decimal(fl as nat)
}

/// Text of the error for a payload length beyond the buffered bytes.
pub open spec fn payload_too_long_message(p: u32, fl: u32, h: u32) -> Seq<char> {
    "Payload length["@ + decimal(p as nat)
        + "] exceeds maximum value possible given that frame-length is "@ + decimal(fl as nat)
        + " and header-length is "@ + decimal(h as nat)
}

/// Whether `e` is the error that reports outcome `o`.
pub open spec fn error_reports(e: FrameError, o: CheckOutcome) -> bool {
    match o {
        CheckOutcome::Complete(_) => false,
        CheckOutcome::Incomplete => e == FrameError::Incomplete,
        CheckOutcome::TooShort(fl) => e matches FrameError::BadFrame(s) && s@ == too_short_message(
            fl,
        ),
        CheckOutcome::TooLong(fl) => e == FrameError::TooLongFrame {
            found: fl,
            max: MAX_FRAME_LENGTH,
        },
        CheckOutcome::BadMagic(m) => e == FrameError::MagicCodeMismatch {
            found: m,
            expected: MAGIC_CODE,
        },
        CheckOutcome::HeaderTooLong(h, fl) => e matches FrameError::BadFrame(s) && s@
            == header_too_long_message(h, fl),
        CheckOutcome::PayloadTooLong(p, fl, h) => e matches FrameError::BadFrame(s) && s@
            == payload_too_long_message(p, fl, h),
        CheckOutcome::BadChecksum(expected, actual) => e == FrameError::PayloadChecksumMismatch {
            expected,
            actual,
        },
    }
}

fn too_short_error(fl: u32) -> (e: FrameError)
    ensures
        e matches FrameError::BadFrame(s) && s@ == too_short_message(fl),
{
    let mut s = String::from_str("Length of the incoming frame is: ");
    push_decimal(&mut s, fl as u64);
    s.append(", less than the minimum possible: ");
    push_decimal(&mut s, MIN_FRAME_LENGTH as u64);
    FrameError::BadFrame(s)
}

fn header_too_long_error(h: u32, fl: u32) -> (e: FrameError)
    ensures
        e matches FrameError::BadFrame(s) && s@ == header_too_long_message(h, fl),
{
    let mut s = String::from_str("Header length[");
    push_decimal(&mut s, h as u64);
    s.append("] exceeds maximum value possible given that frame-length is ");
    push_decimal(&mut s, fl as u64);
    FrameError::BadFrame(s)
}

fn payload_too_long_error(p: u32, fl: u32, h: u32) -> (e: FrameError)
    ensures
        e matches FrameError::BadFrame(s) && s@ == payload_too_long_message(p, fl, h),
{
    let mut s = String::from_str("Payload length[");
    push_decimal(&mut s, p as u64);
    s.append("] exceeds maximum value possible given that frame-length is ");
    push_decimal(&mut s, fl as u64);
    s.append(" and header-length is ");
    push_decimal(&mut s, h as u64);
    FrameError::BadFrame(s)
}

/// Whether the bytes at the front of `b` hold a frame that `Frame::parse` can decode:
/// its length field and header length field agree and all its bytes are present.
pub open spec fn parsable(b: Seq<u8>) -> bool {
    &&& b.len() >= 16
    &&& length_field(b) >= 16 + header_length_field(b)
    &&& b.len() >= length_field(b) + 4
}

/// Whether `f` is the frame that the bytes at the front of `b` encode.
pub open spec fn decodes_to(b: Seq<u8>, f: &Frame) -> bool {
    let fl = length_field(b);
    let h = header_length_field(b);
    &&& f.operation_code == opcode_of_bits(be16(b.subrange(5, 7)))
    &&& f.flag == b[7]
    &&& f.stream_id == be32(b.subrange(8, 12))
    &&& f.header_format == header_format_of(b[12])
    &&& if h > 0 {
        f.header matches Some(v) && v@ == b.subrange(16, 16 + h)
    } else {
        f.header is None
    }
    &&& if fl - 16 - h > 0 {
        f.payload matches Some(parts) && parts@.len() == 1 && parts@[0]@ == b.subrange(16 + h, fl)
    } else {
        f.payload is None
    }
}

fn copy_range(data: &[u8], from: usize, to: usize) -> (r: Vec<u8>)
    requires
        from <= to <= data@.len(),
    ensures
        r@ == data@.subrange(from as int, to as int),
{
    let mut r: Vec<u8> = Vec::new();
    let mut i = from;
    while i < to
        invariant
            from <= i <= to <= data@.len(),
            r@ == data@.subrange(from as int, i as int),
        decreases to - i,
    {
        r.push(data[i]);
        i = i + 1;
        assert(r@ =~= data@.subrange(from as int, i as int));
    }
    r
}

/// Whether the bytes from the cursor's position hold a frame that `Frame::parse` can decode.
pub fn is_parsable(src: &Cursor) -> (b: bool)
    ensures
        b == parsable(src.rest()),
{
    let ghost b = src.rest();
    let rem = src.remaining();
    if rem < 16 {
        return false;
    }
    let data = src.get_ref();
    let pos = src.position();
    let n = data.len();
    assert(pos <= n);
    let start = pos as usize;
    assert(b =~= data@.skip(start as int));
    let fl = read_be32(data, start);
    assert(data@.subrange(start as int, start + 4) =~= b.subrange(0, 4));
    let h: u32 = (data[start + 13] as u32) * 65536 + (read_be16(data, start + 14) as u32);
    assert(data@.subrange(start + 14, start + 16) =~= b.subrange(14, 16));
    assert(h == header_length_field(b));
    (fl as u64) >= 16 + (h as u64) && (rem as u64) >= (fl as u64) + 4
}

impl Frame {
    /// Checks whether the bytes from the cursor's position hold a whole, well-formed frame.
    ///
    /// On success the cursor is moved past the frame (checksum included); on failure the
    /// error says what was found, and the cursor is moved as far as checking read.
    pub fn check(src: &mut Cursor) -> (r: Result<(), FrameError>)
        ensures
            final(src).bytes() == old(src).bytes(),
            final(src).pos() == old(src).pos() + check_advance(old(src).rest()),
            match r {
                Ok(()) => check_outcome(old(src).rest()) is Complete,
                Err(e) => error_reports(e, check_outcome(old(src).rest())),
            },
    {
        let ghost b = src.rest();
        let rem = src.remaining();
        if rem < 4 {
            return Err(FrameError::Incomplete);
        }
        let data = src.get_ref();
        let pos = src.position();
        let start = pos as usize;
        let n = data.len();
        assert(b =~= data@.skip(start as int));
        let fl = read_be32(data, start);
        assert(data@.subrange(start as int, start + 4) =~= b.subrange(0, 4));
        if fl < MIN_FRAME_LENGTH {
            src.set_position(pos + 4);
            return Err(too_short_error(fl));
        }
        if fl > MAX_FRAME_LENGTH {
            src.set_position(pos + 4);
            return Err(FrameError::TooLongFrame { found: fl, max: MAX_FRAME_LENGTH });
        }
        if rem - 4 < fl as usize {
            src.set_position(pos + 4);
            return Err(FrameError::Incomplete);
        }
        let magic = data[start + 4];
        if magic != MAGIC_CODE {
            src.set_position(pos + 5);
            return Err(FrameError::MagicCodeMismatch { found: magic, expected: MAGIC_CODE });
        }
        let h: u32 = (data[start + 13] as u32) * 65536 + (read_be16(data, start + 14) as u32);
        assert(data@.subrange(start + 14, start + 16) =~= b.subrange(14, 16));
        if h > fl - MIN_FRAME_LENGTH {
            src.set_position(pos + 16);
            return Err(header_too_long_error(h, fl));
        }
        let body = start + 16 + h as usize;
        if h + MIN_FRAME_LENGTH < fl {
            let p = fl - h - MIN_FRAME_LENGTH;
            let left = rem - 16 - h as usize;
            let left_low = ((left as u64) % 4294967296) as u32;
            if p > left_low {
                src.set_position(pos + 16 + h as u64);
                return Err(payload_too_long_error(p, fl, h));
            }
            let end = start + fl as usize;
            let field = read_be32(data, end);
            assert(data@.subrange(end as int, end + 4) =~= b.subrange(fl as int, fl + 4));
            let actual = crc32(&data[body..end]);
            assert(data@.subrange(body as int, end as int) =~= b.subrange(16 + h, fl as int));
            src.set_position(pos + fl as u64 + 4);
            if field != actual {
                return Err(FrameError::PayloadChecksumMismatch { expected: field, actual });
            }
        } else {
            src.set_position(pos + fl as u64 + 4);
        }
        Ok(())
    }

    /// Decodes the frame at the cursor's position and moves the cursor past it.
    ///
    /// The magic code and the checksum are not checked here: `check` does that first.
    pub fn parse(src: &mut Cursor) -> (r: Result<Frame, FrameError>)
        requires
            parsable(old(src).rest()),
        ensures
            final(src).bytes() == old(src).bytes(),
            final(src).pos() == old(src).pos() + length_field(old(src).rest()) + 4,
            match r {
                Ok(f) => decodes_to(old(src).rest(), &f),
                Err(_) => false,
            },
    {
        let ghost b = src.rest();
        let data = src.get_ref();
        let pos = src.position();
        let start = pos as usize;
        let n = data.len();
        assert(b =~= data@.skip(start as int));
        let fl = read_be32(data, start);
        assert(data@.subrange(start as int, start + 4) =~= b.subrange(0, 4));
        let op = Frame::to_opcode_unchecked(read_be16(data, start + 5));
        assert(data@.subrange(start + 5, start + 7) =~= b.subrange(5, 7));
        let flag = data[start + 7];
        let stream_id = read_be32(data, start + 8);
        assert(data@.subrange(start + 8, start + 12) =~= b.subrange(8, 12));
        let header_format = match HeaderFormat::try_from(data[start + 12]) {
            Ok(f) => f,
            Err(_) => HeaderFormat::Unknown,
        };
        let h: u32 = (data[start + 13] as u32) * 65536 + (read_be16(data, start + 14) as u32);
        assert(data@.subrange(start + 14, start + 16) =~= b.subrange(14, 16));
        let body = start + 16 + h as usize;
        let end = start + fl as usize;
        let header = if h > 0 {
            let v = copy_range(data, start + 16, body);
            assert(data@.subrange(start + 16, body as int) =~= b.subrange(16, 16 + h));
            Some(v)
        } else {
            None
        };
        let payload_length = fl - h - MIN_FRAME_LENGTH;
        let payload = if payload_length > 0 {
            let v = copy_range(data, body, end);
            assert(data@.subrange(body as int, end as int) =~= b.subrange(16 + h, fl as int));
            Some(vec![v])
        } else {
            None
        };
        src.set_position(pos + fl as u64 + 4);
        Ok(Frame { operation_code: op, flag, stream_id, header_format, header, payload })
    }
}

/// A complete frame can be decoded.
pub proof fn lemma_complete_is_parsable(b: Seq<u8>)
    requires
        check_outcome(b) is Complete,
    ensures
        parsable(b),
        check_outcome(b) == CheckOutcome::Complete((length_field(b) + 4) as u64),
        check_advance(b) == length_field(b) + 4,
{
}

} // verus!
