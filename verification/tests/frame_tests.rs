use elastic_stream::crc32::crc32;
use elastic_stream::cursor::Cursor;
use elastic_stream::frame::{
    Frame, HeaderFormat, OperationCode, StreamIdGenerator, MAGIC_CODE, MAX_FRAME_LENGTH,
    MIN_FRAME_LENGTH,
};
use elastic_stream::frame_check::is_parsable;
use elastic_stream::frame_error::FrameError;

fn put_u32(buf: &mut Vec<u8>, v: u32) {
    buf.extend_from_slice(&v.to_be_bytes());
}

fn put_i16(buf: &mut Vec<u8>, v: i16) {
    buf.extend_from_slice(&v.to_be_bytes());
}

/// Reads big-endian integers off the front of a byte buffer.
struct Reader {
    data: Vec<u8>,
    pos: usize,
}

impl Reader {
    fn new(parts: Vec<Vec<u8>>) -> Self {
        let mut data = Vec::new();
        for p in parts {
            data.extend_from_slice(&p);
        }
        Reader { data, pos: 0 }
    }

    fn take(&mut self, n: usize) -> Vec<u8> {
        let v = self.data[self.pos..self.pos + n].to_vec();
        self.pos += n;
        v
    }

    fn get_u8(&mut self) -> u8 {
        self.take(1)[0]
    }

    fn get_u16(&mut self) -> u16 {
        let b = self.take(2);
        u16::from_be_bytes([b[0], b[1]])
    }

    fn get_u32(&mut self) -> u32 {
        let b = self.take(4);
        u32::from_be_bytes([b[0], b[1], b[2], b[3]])
    }

    fn remaining(&self) -> usize {
        self.data.len() - self.pos
    }
}

#[test]
fn test_num_enum() {
    let res = HeaderFormat::try_from(1u8);
    assert_eq!(Ok(HeaderFormat::FlatBuffer), res);

    let num: u8 = HeaderFormat::JSON.into();
    assert_eq!(3, num);

    let res = Frame::to_opcode_unchecked(0u16);
    assert_eq!(OperationCode::UNKNOWN(), res);
}

#[test]
fn test_check() {
    let raw = [1u8];
    let mut rdr = Cursor::new(&raw[..]);
    let res = Frame::check(&mut rdr);
    assert_eq!(Err(FrameError::Incomplete), res);

    // On read failure, the cursor should be intact.
    assert_eq!(1, rdr.remaining());
}

#[test]
fn test_check_min_frame_length() {
    let mut buffer = Vec::new();
    put_u32(&mut buffer, 10);

    let mut cursor = Cursor::new(&buffer[..]);
    match Frame::check(&mut cursor) {
        Ok(_) => {
            panic!("Should have detected the frame length issue");
        }
        Err(e) => {
            assert_eq!(
                FrameError::BadFrame(
                    "Length of the incoming frame is: 10, less than the minimum possible: 16"
                        .to_owned()
                ),
                e
            );
        }
    }
}

#[test]
fn test_check_max_frame_length() {
    let mut buffer = Vec::new();
    put_u32(&mut buffer, MAX_FRAME_LENGTH + 1);
    let mut cursor = Cursor::new(&buffer[..]);
    match Frame::check(&mut cursor) {
        Ok(_) => {
            panic!("Should have detected the frame length issue");
        }
        Err(e) => {
            assert_eq!(
                FrameError::TooLongFrame {
                    found: MAX_FRAME_LENGTH + 1,
                    max: MAX_FRAME_LENGTH
                },
                e
            );
        }
    }
}

#[test]
fn test_check_magic_code() {
    let mut buffer = Vec::new();
    put_u32(&mut buffer, MIN_FRAME_LENGTH);
    // magic code
    buffer.push(16u8);
    // operation code
    put_i16(&mut buffer, OperationCode::PING().0);
    // flag
    buffer.push(0u8);
    // stream identifier
    put_u32(&mut buffer, 2);
    // header format + header length
    put_u32(&mut buffer, 0);
    // payload checksum
    put_u32(&mut buffer, 0);

    let mut cursor = Cursor::new(&buffer[..]);

    match Frame::check(&mut cursor) {
        Ok(_) => {
            panic!("Should have detected the frame magic code mismatch issue");
        }
        Err(e) => {
            assert_eq!(
                FrameError::MagicCodeMismatch {
                    found: 16u8,
                    expected: MAGIC_CODE
                },
                e
            );
        }
    }
}

#[test]
fn test_encode_header() {
    let frame = Frame {
        operation_code: OperationCode::PING(),
        flag: 1,
        stream_id: 2,
        header_format: HeaderFormat::FlatBuffer,
        header: Some(b"abc".to_vec()),
        payload: None,
    };

    let encode_result = frame.encode();
    let mut buf = Reader::new(encode_result.unwrap());

    let frame_length = buf.get_u32();
    assert_eq!(19, frame_length);
    assert_eq!(MAGIC_CODE, buf.get_u8());
    assert_eq!(1, buf.get_u16());
    assert_eq!(1, buf.get_u8());
    assert_eq!(2, buf.get_u32());
    assert_eq!(1, buf.get_u8());
    // header length
    assert_eq!(0, buf.get_u8());
    assert_eq!(3, buf.get_u16());

    let header = buf.take(3);
    assert_eq!(b"abc", &header[..]);

    assert_eq!(0, buf.get_u32());

    assert_eq!(0, buf.remaining());
}

#[test]
fn test_encode_body() {
    let frame = Frame {
        operation_code: OperationCode::PING(),
        flag: 1,
        stream_id: 2,
        header_format: HeaderFormat::FlatBuffer,
        header: None,
        payload: Some(vec![b"abc".to_vec()]),
    };

    let encode_result = frame.encode();
    let mut buf = Reader::new(encode_result.unwrap());

    assert_eq!(19, buf.get_u32());

    assert_eq!(MAGIC_CODE, buf.get_u8());
    assert_eq!(1, buf.get_u16());
    assert_eq!(1, buf.get_u8());
    assert_eq!(2, buf.get_u32());
    assert_eq!(1, buf.get_u8());
    // header length
    assert_eq!(0, buf.get_u8());
    assert_eq!(0, buf.get_u16());

    let body = buf.take(3);
    assert_eq!(b"abc", &body[..]);
    // checksum
    assert_eq!(crc32(b"abc"), buf.get_u32());
    assert_eq!(0, buf.remaining());
}

#[test]
fn test_too_long_header_length() {
    let mut raw_frame = Vec::with_capacity(16);
    // frame length
    put_u32(&mut raw_frame, 19);
    // magic code
    raw_frame.push(MAGIC_CODE);
    // operation code
    put_i16(&mut raw_frame, OperationCode::PING().0);
    // flag
    raw_frame.push(1);
    // stream identifier
    put_u32(&mut raw_frame, 2);
    // header format
    raw_frame.push(HeaderFormat::FlatBuffer.into());
    // Set a header length that is too long
    raw_frame.extend_from_slice((1024_i32).to_be_bytes()[1..].as_ref());
    // header
    raw_frame.extend_from_slice(b"abc");
    // payload checksum
    put_u32(&mut raw_frame, 0);

    let mut cursor = Cursor::new(&raw_frame[..]);
    match Frame::check(&mut cursor) {
        Ok(_) => {
            panic!("Should have detected the frame header length issue");
        }
        Err(e) => {
            assert!(matches!(e, FrameError::BadFrame { .. }));
        }
    }
}

#[test]
fn test_bad_frame_no_checksum() {
    let mut raw_frame = Vec::with_capacity(16);
    // frame length
    put_u32(&mut raw_frame, 25);
    // magic code
    raw_frame.push(MAGIC_CODE);
    // operation code
    put_i16(&mut raw_frame, OperationCode::PING().0);
    // flag
    raw_frame.push(1);
    // stream identifier
    put_u32(&mut raw_frame, 2);
    // header format
    raw_frame.push(HeaderFormat::FlatBuffer.into());
    // header length
    raw_frame.extend_from_slice((10_i32).to_be_bytes()[1..].as_ref());
    // header
    raw_frame.extend_from_slice(b"header");
    // payload
    raw_frame.extend_from_slice(b"abc");
    // payload checksum
    put_u32(&mut raw_frame, 0);

    let mut cursor = Cursor::new(&raw_frame[..]);

    match Frame::check(&mut cursor) {
        Ok(_) => {
            panic!("Should have detected the frame payload length issue");
        }
        Err(e) => {
            assert!(matches!(e, FrameError::BadFrame { .. }));
        }
    }
}

#[test]
fn test_check_and_parse() {
    let frame = Frame {
        operation_code: OperationCode::PING(),
        flag: 1,
        stream_id: 2,
        header_format: HeaderFormat::FlatBuffer,
        header: Some(b"header".to_vec()),
        payload: Some(vec![b"abc".to_vec()]),
    };

    let encode_result = frame.encode();
    let mut buf = Vec::new();
    for ele in encode_result.unwrap() {
        buf.extend_from_slice(&ele);
    }
    buf.extend_from_slice("dummy".as_bytes());

    assert_eq!(29 + 5, buf.len());

    let mut cursor = Cursor::new(&buf[..]);

    // Frame::check should pass
    assert_eq!(Ok(()), Frame::check(&mut cursor));

    // Reset cursor
    cursor.set_position(0);

    // Validate parse
    let decoded = Frame::parse(&mut cursor).unwrap();
    assert_eq!(OperationCode::PING(), decoded.operation_code);
    assert_eq!(1, decoded.flag);
    assert_eq!(2, decoded.stream_id);
    assert_eq!(HeaderFormat::FlatBuffer, decoded.header_format);
    assert_eq!(Some(b"header".to_vec()), decoded.header);
    assert_eq!(Some(vec![b"abc".to_vec()]), decoded.payload);
}

#[test]
fn frame_check_moves_cursor_past_frame() {
    let frame = Frame {
        operation_code: OperationCode::HEARTBEAT(),
        flag: 0,
        stream_id: 7,
        header_format: HeaderFormat::JSON,
        header: Some(b"h".to_vec()),
        payload: Some(vec![b"ab".to_vec(), b"cd".to_vec()]),
    };
    let mut buf = Vec::new();
    for ele in frame.encode().unwrap() {
        buf.extend_from_slice(&ele);
    }
    // 16 fixed bytes + 1 header byte + 4 payload bytes + 4 checksum bytes.
    assert_eq!(25, buf.len());
    let mut cursor = Cursor::new(&buf[..]);
    assert_eq!(Ok(()), Frame::check(&mut cursor));
    assert_eq!(25, cursor.position());
    cursor.set_position(0);
    let decoded = Frame::parse(&mut cursor).unwrap();
    assert_eq!(Some(vec![b"abcd".to_vec()]), decoded.payload);
    assert_eq!(HeaderFormat::JSON, decoded.header_format);
    assert_eq!(7, decoded.stream_id);
}

#[test]
fn frame_check_detects_checksum_mismatch() {
    let frame = Frame {
        operation_code: OperationCode::PING(),
        flag: 0,
        stream_id: 1,
        header_format: HeaderFormat::FlatBuffer,
        header: None,
        payload: Some(vec![b"abc".to_vec()]),
    };
    let mut buf = Vec::new();
    for ele in frame.encode().unwrap() {
        buf.extend_from_slice(&ele);
    }
    let n = buf.len();
    buf[n - 1] ^= 0xff;
    let mut cursor = Cursor::new(&buf[..]);
    match Frame::check(&mut cursor) {
        Err(FrameError::PayloadChecksumMismatch { expected, actual }) => {
            assert_eq!(crc32(b"abc"), actual);
            assert_eq!(crc32(b"abc") ^ 0xff, expected);
        }
        other => panic!("unexpected {:?}", other),
    }
}

#[test]
fn frame_check_incomplete_body() {
    let mut buffer = Vec::new();
    put_u32(&mut buffer, 20);
    buffer.push(MAGIC_CODE);
    let mut cursor = Cursor::new(&buffer[..]);
    assert_eq!(Err(FrameError::Incomplete), Frame::check(&mut cursor));
    assert_eq!(4, cursor.position());
}

#[test]
fn frame_encode_too_long() {
    let frame = Frame {
        operation_code: OperationCode::PING(),
        flag: 0,
        stream_id: 1,
        header_format: HeaderFormat::FlatBuffer,
        header: None,
        payload: Some(vec![vec![0u8; MAX_FRAME_LENGTH as usize]]),
    };
    assert_eq!(
        Err(FrameError::TooLongFrame {
            found: MAX_FRAME_LENGTH + 16,
            max: MAX_FRAME_LENGTH
        }),
        frame.encode()
    );
}

#[test]
fn frame_flags() {
    let mut ids = StreamIdGenerator::new();
    let mut frame = Frame::new(OperationCode::PING(), &mut ids);
    assert_eq!(1, frame.stream_id);
    assert_eq!(2, Frame::new(OperationCode::PING(), &mut ids).stream_id);
    assert!(!frame.is_response());
    frame.flag_response();
    assert!(frame.is_response());
    assert!(!frame.end_of_stream());
    frame.flag_system_err();
    assert!(frame.is_response() && frame.end_of_stream() && frame.system_error());
    assert_eq!(7, frame.flag);
}

#[test]
fn frame_response_payload_joins_parts() {
    let frame = Frame {
        operation_code: OperationCode::PING(),
        flag: 0,
        stream_id: 1,
        header_format: HeaderFormat::FlatBuffer,
        header: None,
        payload: Some(vec![b"ab".to_vec(), b"c".to_vec()]),
    };
    assert_eq!(Some(b"abc".to_vec()), frame.get_response_payload());
}

#[test]
fn crc32_known_value() {
    // CRC-32C check value.
    assert_eq!(0xE306_9283, crc32(b"123456789"));
}

#[test]
fn opcode_from_high_bits_is_negative() {
    assert_eq!(OperationCode(-1), Frame::to_opcode_unchecked(0xffff));
}

#[test]
fn frame_parsable_ignores_magic_and_checksum() {
    let frame = Frame {
        operation_code: OperationCode::PING(),
        flag: 0,
        stream_id: 9,
        header_format: HeaderFormat::FlatBuffer,
        header: None,
        payload: Some(vec![b"xyz".to_vec()]),
    };
    let mut buf = Vec::new();
    for part in frame.encode().unwrap() {
        buf.extend_from_slice(&part);
    }
    buf[4] = MAGIC_CODE + 1;
    let last = buf.len() - 1;
    buf[last] ^= 0xff;
    let mut cursor = Cursor::new(&buf[..]);
    assert!(is_parsable(&cursor));
    let decoded = Frame::parse(&mut cursor).unwrap();
    assert_eq!(9, decoded.stream_id);
    assert_eq!(Some(vec![b"xyz".to_vec()]), decoded.payload);
    let short = Cursor::new(&buf[..buf.len() - 1]);
    assert!(!is_parsable(&short));
    let tiny = Cursor::new(&buf[..10]);
    assert!(!is_parsable(&tiny));
}
