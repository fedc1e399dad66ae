//! Frames of the RPC wire protocol: layout, flags and encoding.
//!
//! Layout, all integers big-endian:
//! `frame length: u32 | magic: u8 | operation code: i16 | flag: u8 | stream id: u32 |
//! header format: u8 | header length: u24 | header | payload | payload checksum: u32`.
//! The frame length counts every byte after the length field except the checksum,
//! plus four: it is `16 + header length + payload length`.
use vstd::prelude::*;
use crate::be::{be16_bytes, be24_bytes, be32_bytes, put_be16, put_be24, put_be32};
use crate::crc32::{crc32_vectored, flatten_bytes, spec_crc32};
use crate::frame_error::FrameError;

verus! {

pub const MAGIC_CODE: u8 = 23;

pub const MIN_FRAME_LENGTH: u32 = 16;

/// Max frame length: 16 MiB.
pub const MAX_FRAME_LENGTH: u32 = 16777216;

/// Operation code of a frame.
#[derive(Debug, Clone, Copy, PartialEq, Eq, Structural)]
pub struct OperationCode(pub i16);

impl OperationCode {
    #[allow(non_snake_case)]
    pub open spec fn spec_UNKNOWN() -> OperationCode {
        OperationCode(0)
    }

    #[allow(non_snake_case)]
    #[verifier::when_used_as_spec(spec_UNKNOWN)]
    pub fn UNKNOWN() -> (r: OperationCode)
        ensures
            r == OperationCode(0),
    {
        OperationCode(0)
    }

    #[allow(non_snake_case)]
    pub open spec fn spec_PING() -> OperationCode {
        OperationCode(1)
    }

    #[allow(non_snake_case)]
    #[verifier::when_used_as_spec(spec_PING)]
    pub fn PING() -> (r: OperationCode)
        ensures
            r == OperationCode(1),
    {
        OperationCode(1)
    }

    #[allow(non_snake_case)]
    pub open spec fn spec_GO_AWAY() -> OperationCode {
        OperationCode(2)
    }

    #[allow(non_snake_case)]
    #[verifier::when_used_as_spec(spec_GO_AWAY)]
    pub fn GO_AWAY() -> (r: OperationCode)
        ensures
            r == OperationCode(2),
    {
        OperationCode(2)
    }

    #[allow(non_snake_case)]
    pub open spec fn spec_HEARTBEAT() -> OperationCode {
        OperationCode(3)
    }

    #[allow(non_snake_case)]
    #[verifier::when_used_as_spec(spec_HEARTBEAT)]
    pub fn HEARTBEAT() -> (r: OperationCode)
        ensures
            r == OperationCode(3),
    {
        OperationCode(3)
    }
}

/// Flags whose meaning is shared by all operation codes.
#[derive(Debug, Clone, Copy, PartialEq, Eq, Structural)]
pub struct CommonFlags(pub u8);

impl CommonFlags {
    #[allow(non_snake_case)]
    pub open spec fn spec_RESPONSE() -> CommonFlags {
        CommonFlags(1)
    }

    #[allow(non_snake_case)]
    #[verifier::when_used_as_spec(spec_RESPONSE)]
    pub fn RESPONSE() -> (r: CommonFlags)
        ensures
            r == CommonFlags(1),
    {
        CommonFlags(1)
    }

    #[allow(non_snake_case)]
    pub open spec fn spec_END_OF_STREAM() -> CommonFlags {
        CommonFlags(2)
    }

    #[allow(non_snake_case)]
    #[verifier::when_used_as_spec(spec_END_OF_STREAM)]
    pub fn END_OF_STREAM() -> (r: CommonFlags)
        ensures
            r == CommonFlags(2),
    {
        CommonFlags(2)
    }

    #[allow(non_snake_case)]
    pub open spec fn spec_SYSTEM_ERROR() -> CommonFlags {
        CommonFlags(4)
    }

    #[allow(non_snake_case)]
    #[verifier::when_used_as_spec(spec_SYSTEM_ERROR)]
    pub fn SYSTEM_ERROR() -> (r: CommonFlags)
        ensures
            r == CommonFlags(4),
    {
        CommonFlags(4)
    }
}

/// Flags of a go-away frame.
#[derive(Debug, Clone, Copy, PartialEq, Eq, Structural)]
pub struct GoAwayFlags(pub u8);

impl GoAwayFlags {
    #[allow(non_snake_case)]
    pub open spec fn spec_SERVER_MAINTENANCE() -> GoAwayFlags {
        GoAwayFlags(1)
    }

    #[allow(non_snake_case)]
    #[verifier::when_used_as_spec(spec_SERVER_MAINTENANCE)]
    pub fn SERVER_MAINTENANCE() -> (r: GoAwayFlags)
        ensures
            r == GoAwayFlags(1),
    {
        GoAwayFlags(1)
    }

    #[allow(non_snake_case)]
    pub open spec fn spec_CONNECTION_IDLE() -> GoAwayFlags {
        GoAwayFlags(2)
    }

    #[allow(non_snake_case)]
    #[verifier::when_used_as_spec(spec_CONNECTION_IDLE)]
    pub fn CONNECTION_IDLE() -> (r: GoAwayFlags)
        ensures
            r == GoAwayFlags(2),
    {
        GoAwayFlags(2)
    }
}

/// Serialization format of the extended header.
#[derive(Debug, Clone, Copy, PartialEq, Eq, Structural)]
pub enum HeaderFormat {
    Unknown,
    /// The header is serialized by flatbuffers; the only format in use.
    FlatBuffer,
    ProtoBuffer,
    JSON,
}

/// Wire code of a header format.
pub open spec fn header_format_code(f: HeaderFormat) -> u8 {
    match f {
        HeaderFormat::Unknown => 0,
        HeaderFormat::FlatBuffer => 1,
        HeaderFormat::ProtoBuffer => 2,
        HeaderFormat::JSON => 3,
    }
}

/// Header format of a wire code; codes without a format are `Unknown`.
pub open spec fn header_format_of(code: u8) -> HeaderFormat {
    if code == 1 {
        HeaderFormat::FlatBuffer
    } else if code == 2 {
        HeaderFormat::ProtoBuffer
    } else if code == 3 {
        HeaderFormat::JSON
    } else {
        HeaderFormat::Unknown
    }
}

impl HeaderFormat {
    /// The format with wire code `code`, or the code back when none has it.
    pub fn try_from(code: u8) -> (r: Result<HeaderFormat, u8>)
        ensures
            match r {
                Ok(f) => header_format_code(f) == code,
                Err(c) => c == code && code > 3,
            },
    {
        if code == 0 {
            Ok(HeaderFormat::Unknown)
        } else if code == 1 {
            Ok(HeaderFormat::FlatBuffer)
        } else if code == 2 {
            Ok(HeaderFormat::ProtoBuffer)
        } else if code == 3 {
            Ok(HeaderFormat::JSON)
        } else {
            Err(code)
        }
    }

    /// Wire code of this format.
    pub fn code(&self) -> (c: u8)
        ensures
            c == header_format_code(*self),
    {
        match self {
            HeaderFormat::Unknown => 0,
            HeaderFormat::FlatBuffer => 1,
            HeaderFormat::ProtoBuffer => 2,
            HeaderFormat::JSON => 3,
        }
    }
}

impl From<HeaderFormat> for u8 {
    fn from(f: HeaderFormat) -> (c: u8) {
        f.code()
    }
}

impl vstd::std_specs::convert::FromSpecImpl<HeaderFormat> for u8 {
    open spec fn obeys_from_spec() -> bool {
        true
    }

    open spec fn from_spec(f: HeaderFormat) -> u8 {
        header_format_code(f)
    }
}

/// Hands out stream identifiers 1, 2, 3, ... in turn.
pub struct StreamIdGenerator {
    next: u32,
}

impl StreamIdGenerator {
    /// The identifier that the next allocation hands out.
    pub closed spec fn next_id(&self) -> u32 {
        self.next
    }

    /// A generator whose first identifier is 1.
    pub fn new() -> (g: Self)
        ensures
            g.next_id() == 1,
    {
        StreamIdGenerator { next: 1 }
    }

    /// Whether another identifier can be handed out.
    pub fn can_allocate(&self) -> (b: bool)
        ensures
            b == (self.next_id() < u32::MAX),
    {
        self.next < u32::MAX
    }

    /// Hands out the current identifier and moves to the next one.
    pub fn allocate(&mut self) -> (id: u32)
        requires
            old(self).next_id() < u32::MAX,
        ensures
            id == old(self).next_id(),
            final(self).next_id() == old(self).next_id() + 1,
    {
        let id = self.next;
        self.next = self.next + 1;
        id
    }
}

/// One frame of the RPC protocol.
#[derive(Debug)]
pub struct Frame {
    pub operation_code: OperationCode,
    /// Further refines the semantic of the operation code, per operation code.
    pub flag: u8,
    /// Stream identifier, starting from 1; `0` is a placeholder only.
    pub stream_id: u32,
    pub header_format: HeaderFormat,
    pub header: Option<Vec<u8>>,
    pub payload: Option<Vec<Vec<u8>>>,
}

/// The header bytes of a frame; none when it has no header.
pub open spec fn header_bytes(f: &Frame) -> Seq<u8> {
    match f.header {
        Some(h) => h@,
        None => Seq::empty(),
    }
}

/// The payload parts of a frame as byte sequences.
pub open spec fn payload_parts(f: &Frame) -> Seq<Seq<u8>> {
    match f.payload {
        Some(p) => p@.map_values(|b: Vec<u8>| b@),
        None => Seq::empty(),
    }
}

/// The payload of a frame, its parts concatenated.
pub open spec fn payload_bytes(f: &Frame) -> Seq<u8> {
    flatten_bytes(payload_parts(f))
}

/// The frame length field of the encoding of `f`.
pub open spec fn frame_length(f: &Frame) -> int {
    16 + header_bytes(f).len() as int + payload_bytes(f).len() as int
}

/// Two's-complement bits of an operation code, as an unsigned 16-bit value.
pub open spec fn opcode_bits(op: OperationCode) -> int {
    if op.0 < 0 {
        op.0 + 65536
    } else {
        op.0 as int
    }
}

/// Operation code whose two's-complement bits are `v`.
pub open spec fn opcode_of_bits(v: int) -> OperationCode {
    if v >= 32768 {
        OperationCode((v - 65536) as i16)
    } else {
        OperationCode(v as i16)
    }
}

/// The trailing checksum field of the encoding of `f`: the CRC-32C of the payload when
/// there is a payload, else zero bytes.
pub open spec fn checksum_field(f: &Frame) -> Seq<u8> {
    if f.payload is Some {
        be32_bytes(spec_crc32(payload_bytes(f)) as int)
    } else {
        seq![0u8, 0u8, 0u8, 0u8]
    }
}

/// The fixed 16-byte part of the encoding of `f`.
pub open spec fn fixed_part(f: &Frame) -> Seq<u8> {
    be32_bytes(frame_length(f)) + seq![MAGIC_CODE] + be16_bytes(opcode_bits(f.operation_code))
        + seq![f.flag] + be32_bytes(f.stream_id as int) + seq![header_format_code(f.header_format)]
        + be24_bytes(header_bytes(f).len() as int)
}

/// The bytes of the encoding of `f`.
pub open spec fn spec_encode(f: &Frame) -> Seq<u8> {
    fixed_part(f) + header_bytes(f) + payload_bytes(f) + checksum_field(f)
}

/// Whether the encoding of `f` fits in the machine's address space.
pub open spec fn encodable(f: &Frame) -> bool {
    frame_length(f) <= usize::MAX
}

fn copy_bytes(v: &Vec<u8>) -> (r: Vec<u8>)
    ensures
        r@ == v@,
{
    let mut r: Vec<u8> = Vec::new();
    r.extend_from_slice(v.as_slice());
    assert(r@ =~= v@);
    r
}

impl Frame {
    /// A frame with operation code `op`, no flag, no header, no payload, a flatbuffers header
    /// format, and the next stream identifier of `ids`.
    pub fn new(op: OperationCode, ids: &mut StreamIdGenerator) -> (f: Frame)
        requires
            old(ids).next_id() < u32::MAX,
        ensures
            f.operation_code == op,
            f.flag == 0,
            f.stream_id == old(ids).next_id(),
            final(ids).next_id() == old(ids).next_id() + 1,
            f.header_format == HeaderFormat::FlatBuffer,
            f.header is None,
            f.payload is None,
    {
        let stream_id = ids.allocate();
        Frame {
            operation_code: op,
            flag: 0,
            stream_id,
            header_format: HeaderFormat::FlatBuffer,
            header: None,
            payload: None,
        }
    }

    /// Whether the frame is a response.
    pub fn is_response(&self) -> (b: bool)
        ensures
            b == (self.flag & CommonFlags::RESPONSE().0 == CommonFlags::RESPONSE().0),
    {
        self.has_common_flag(CommonFlags::RESPONSE())
    }

    /// Marks the frame as a response.
    pub fn flag_response(&mut self)
        ensures
            final(self).flag == old(self).flag | CommonFlags::RESPONSE().0,
            final(self).operation_code == old(self).operation_code,
            final(self).stream_id == old(self).stream_id,
            final(self).header_format == old(self).header_format,
            final(self).header == old(self).header,
            final(self).payload == old(self).payload,
    {
        self.flag_common(CommonFlags::RESPONSE());
    }

    /// Whether the frame ends its stream.
    pub fn end_of_stream(&self) -> (b: bool)
        ensures
            b == (self.flag & CommonFlags::END_OF_STREAM().0 == CommonFlags::END_OF_STREAM().0),
    {
        self.has_common_flag(CommonFlags::END_OF_STREAM())
    }

    /// Marks the frame as the last response of its stream.
    pub fn flag_end_of_response_stream(&mut self)
        ensures
            final(self).flag == old(self).flag | CommonFlags::RESPONSE().0
                | CommonFlags::END_OF_STREAM().0,
            final(self).operation_code == old(self).operation_code,
            final(self).stream_id == old(self).stream_id,
            final(self).header_format == old(self).header_format,
            final(self).header == old(self).header,
            final(self).payload == old(self).payload,
    {
        self.flag_common(CommonFlags::RESPONSE());
        self.flag_common(CommonFlags::END_OF_STREAM());
    }

    /// Whether the frame reports a system error.
    pub fn system_error(&self) -> (b: bool)
        ensures
            b == (self.flag & CommonFlags::SYSTEM_ERROR().0 == CommonFlags::SYSTEM_ERROR().0),
    {
        self.has_common_flag(CommonFlags::SYSTEM_ERROR())
    }

    /// Marks the frame as a system-error response that ends its stream.
    pub fn flag_system_err(&mut self)
        ensures
            final(self).flag == old(self).flag | CommonFlags::END_OF_STREAM().0
                | CommonFlags::RESPONSE().0 | CommonFlags::SYSTEM_ERROR().0,
            final(self).operation_code == old(self).operation_code,
            final(self).stream_id == old(self).stream_id,
            final(self).header_format == old(self).header_format,
            final(self).header == old(self).header,
            final(self).payload == old(self).payload,
    {
        self.flag_common(CommonFlags::END_OF_STREAM());
        self.flag_common(CommonFlags::RESPONSE());
        self.flag_common(CommonFlags::SYSTEM_ERROR());
    }

    fn flag_common(&mut self, flag: CommonFlags)
        ensures
            final(self).flag == old(self).flag | flag.0,
            final(self).operation_code == old(self).operation_code,
            final(self).stream_id == old(self).stream_id,
            final(self).header_format == old(self).header_format,
            final(self).header == old(self).header,
            final(self).payload == old(self).payload,
    {
        self.flag = self.flag | flag.0;
    }

    fn has_common_flag(&self, flag: CommonFlags) -> (b: bool)
        ensures
            b == (self.flag & flag.0 == flag.0),
    {
        self.flag & flag.0 == flag.0
    }

    /// Sets the bits of a go-away flag.
    pub fn flag_go_away(&mut self, flag: GoAwayFlags)
        ensures
            final(self).flag == old(self).flag | flag.0,
            final(self).operation_code == old(self).operation_code,
            final(self).stream_id == old(self).stream_id,
            final(self).header_format == old(self).header_format,
            final(self).header == old(self).header,
            final(self).payload == old(self).payload,
    {
        self.flag = self.flag | flag.0;
    }

    /// Whether all bits of a go-away flag are set.
    pub fn has_go_away_flag(&self, flag: GoAwayFlags) -> (b: bool)
        ensures
            b == (self.flag & flag.0 == flag.0),
    {
        self.flag & flag.0 == flag.0
    }

    /// Operation code whose two's-complement bits are `code`.
    pub fn to_opcode_unchecked(code: u16) -> (op: OperationCode)
        ensures
            op == opcode_of_bits(code as int),
    {
        if code >= 32768 {
            OperationCode((code as i32 - 65536) as i16)
        } else {
            OperationCode(code as i16)
        }
    }

    /// Total length of the payload parts.
    fn payload_len(&self) -> (n: usize)
        requires
            payload_bytes(self).len() <= usize::MAX,
        ensures
            n == payload_bytes(self).len(),
    {
        match &self.payload {
            None => 0,
            Some(parts) => {
                let ghost views = parts@.map_values(|b: Vec<u8>| b@);
                let mut n: usize = 0;
                let mut i: usize = 0;
                while i < parts.len()
                    invariant
                        i <= parts@.len(),
                        views == parts@.map_values(|b: Vec<u8>| b@),
                        views == payload_parts(self),
                        flatten_bytes(views).len() <= usize::MAX,
                        n == flatten_bytes(views.take(i as int)).len(),
                    decreases parts@.len() - i,
                {
                    proof {
                        assert(views.take(i + 1).drop_last() =~= views.take(i as int));
                        lemma_flatten_prefix_len(views, i as int + 1);
                    }
                    n = n + parts[i].len();
                    i = i + 1;
                }
                assert(views.take(i as int) =~= views);
                n
            }
        }
    }

    /// Encodes the frame as a list of byte buffers: the fixed part with the header, then each
    /// payload part, then the checksum field.
    ///
    /// Fails with `TooLongFrame` when the frame length exceeds `MAX_FRAME_LENGTH`.
    pub fn encode(&self) -> (r: Result<Vec<Vec<u8>>, FrameError>)
        requires
            encodable(self),
        ensures
            match r {
                Ok(bufs) => {
                    &&& frame_length(self) <= MAX_FRAME_LENGTH
                    &&& flatten_bytes(bufs@.map_values(|b: Vec<u8>| b@)) == spec_encode(self)
                    &&& bufs@.len() == payload_parts(self).len() + 2
                    &&& bufs@[0]@ == fixed_part(self) + header_bytes(self)
                    &&& forall|i: int|
                        0 <= i < payload_parts(self).len() ==> #[trigger] bufs@[i + 1]@
                            == payload_parts(self)[i]
                    &&& bufs@.last()@ == checksum_field(self)
                },
                Err(e) => {
                    &&& frame_length(self) > MAX_FRAME_LENGTH
                    &&& e == FrameError::TooLongFrame {
                        found: (frame_length(self) % 4294967296) as u32,
                        max: MAX_FRAME_LENGTH,
                    }
                },
            },
    {
        let header_len: usize = match &self.header {
            Some(h) => h.len(),
            None => 0,
        };
        let payload_len = self.payload_len();
        let frame_len: usize = 16 + header_len + payload_len;
        if frame_len > MAX_FRAME_LENGTH as usize {
            let wide = frame_len as u64;
            return Err(
                FrameError::TooLongFrame {
                    found: (wide % 4294967296) as u32,
                    max: MAX_FRAME_LENGTH,
                },
            );
        }
        let mut basic: Vec<u8> = Vec::new();
        put_be32(&mut basic, frame_len as u32);
        basic.push(MAGIC_CODE);
        let op = self.operation_code.0;
        let bits: u16 = if op < 0 {
            (op as i32 + 65536) as u16
        } else {
            op as u16
        };
        put_be16(&mut basic, bits);
        basic.push(self.flag);
        put_be32(&mut basic, self.stream_id);
        basic.push(self.header_format.code());
        put_be24(&mut basic, header_len as u32);
        match &self.header {
            Some(h) => {
                basic.extend_from_slice(h.as_slice());
            },
            None => {},
        }
        let ghost fixed = fixed_part(self);
        assert(basic@ =~= fixed + header_bytes(self));
        let mut out: Vec<Vec<u8>> = Vec::new();
        out.push(basic);
        let ghost parts = payload_parts(self);
        proof {
            let v = out@.map_values(|b: Vec<u8>| b@);
            assert(v.drop_last() =~= Seq::<Seq<u8>>::empty());
            assert(flatten_bytes(Seq::<Seq<u8>>::empty()) == Seq::<u8>::empty());
            assert(v.last() == out@[0]@);
            assert(flatten_bytes(v) =~= fixed + header_bytes(self));
            assert(parts.take(0) =~= Seq::<Seq<u8>>::empty());
            assert(flatten_bytes(v) =~= fixed + header_bytes(self) + flatten_bytes(parts.take(0)));
        }
        match &self.payload {
            Some(p) => {
                let mut i: usize = 0;
                while i < p.len()
                    invariant
                        i <= p@.len(),
                        parts == p@.map_values(|b: Vec<u8>| b@),
                        out@.len() == i + 1,
                        out@[0]@ == fixed + header_bytes(self),
                        forall|j: int| 0 <= j < i ==> #[trigger] out@[j + 1]@ == parts[j],
                        flatten_bytes(out@.map_values(|b: Vec<u8>| b@)) == fixed + header_bytes(
                            self,
                        ) + flatten_bytes(parts.take(i as int)),
                    decreases p@.len() - i,
                {
                    let part = copy_bytes(&p[i]);
                    let ghost before = out@.map_values(|b: Vec<u8>| b@);
                    out.push(part);
                    proof {
                        let after = out@.map_values(|b: Vec<u8>| b@);
                        assert(after.drop_last() =~= before);
                        assert(parts.take(i + 1).drop_last() =~= parts.take(i as int));
                        assert(after.last() == parts[i as int]);
                        assert(flatten_bytes(after) =~= fixed + header_bytes(self) + flatten_bytes(
                            parts.take(i + 1),
                        ));
                    }
                    i = i + 1;
                }
                assert(parts.take(i as int) =~= parts);
                let checksum = crc32_vectored(p);
                let mut ck: Vec<u8> = Vec::new();
                put_be32(&mut ck, checksum);
                let ghost before = out@.map_values(|b: Vec<u8>| b@);
                out.push(ck);
                proof {
                    let after = out@.map_values(|b: Vec<u8>| b@);
                    assert(after.drop_last() =~= before);
                    assert(ck@ =~= checksum_field(self));
                    assert(flatten_bytes(after) == flatten_bytes(before) + ck@);
                    assert(flatten_bytes(after) =~= spec_encode(self));
                }
            },
            None => {
                let ck: Vec<u8> = vec![0u8, 0u8, 0u8, 0u8];
                let ghost before = out@.map_values(|b: Vec<u8>| b@);
                out.push(ck);
                proof {
                    let after = out@.map_values(|b: Vec<u8>| b@);
                    assert(after.drop_last() =~= before);
                    assert(before.drop_last() =~= Seq::<Seq<u8>>::empty());
                    assert(ck@ =~= checksum_field(self));
                    assert(parts =~= Seq::<Seq<u8>>::empty());
                    assert(flatten_bytes(after) == flatten_bytes(before) + ck@);
                    assert(flatten_bytes(after) =~= spec_encode(self));
                }
            },
        }
        Ok(out)
    }

    /// The payload as one buffer: its parts concatenated, or `None` when there is no payload.
    pub fn get_response_payload(&self) -> (r: Option<Vec<u8>>)
        ensures
            match r {
                Some(b) => self.payload is Some && b@ == payload_bytes(self),
                None => self.payload is None,
            },
    {
        match &self.payload {
            None => None,
            Some(parts) => {
                let ghost views = parts@.map_values(|b: Vec<u8>| b@);
                if parts.len() == 1 {
                    proof {
                        assert(views.drop_last() =~= Seq::<Seq<u8>>::empty());
                        assert(flatten_bytes(Seq::<Seq<u8>>::empty()) == Seq::<u8>::empty());
                        assert(views.last() == parts@[0]@);
                        assert(flatten_bytes(views) =~= parts@[0]@);
                    }
                    return Some(copy_bytes(&parts[0]));
                }
                let mut out: Vec<u8> = Vec::new();
                let mut i: usize = 0;
                while i < parts.len()
                    invariant
                        i <= parts@.len(),
                        views == parts@.map_values(|b: Vec<u8>| b@),
                        out@ == flatten_bytes(views.take(i as int)),
                    decreases parts@.len() - i,
                {
                    assert(views.take(i + 1).drop_last() =~= views.take(i as int));
                    out.extend_from_slice(parts[i].as_slice());
                    i = i + 1;
                }
                assert(views.take(i as int) =~= views);
                Some(out)
            },
        }
    }
}

/// The concatenation of a prefix is no longer than the whole.
pub proof fn lemma_flatten_prefix_len(parts: Seq<Seq<u8>>, k: int)
    requires
        0 <= k <= parts.len(),
    ensures
        flatten_bytes(parts.take(k)).len() <= flatten_bytes(parts).len(),
    decreases parts.len(),
{
    if k < parts.len() {
        assert(parts.drop_last().take(k) =~= parts.take(k));
        lemma_flatten_prefix_len(parts.drop_last(), k);
    } else {
        assert(parts.take(k) =~= parts);
    }
}

} // verus!
