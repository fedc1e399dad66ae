//! Laws relating frame encoding, checking and decoding, and the frame flags.
use vstd::prelude::*;
use crate::be::{
    be16, be16_bytes, be24, be24_bytes, be32, be32_bytes, lemma_be16_roundtrip,
    lemma_be24_roundtrip, lemma_be32_roundtrip,
};
use crate::frame::{
    checksum_field, fixed_part, frame_length, header_bytes, header_format_code,
    header_format_of, opcode_bits, opcode_of_bits, payload_bytes, spec_encode, CommonFlags, Frame,
    MAGIC_CODE, MAX_FRAME_LENGTH,
};
use crate::frame_check::{
    check_advance, check_outcome, decodes_to, header_length_field, length_field, parsable,
    CheckOutcome,
};

verus! {

/// Whether `g` carries what `f` carries, with an empty header read as no header and the
/// payload parts of `f` joined into one part (none when the payload is empty).
pub open spec fn same_content(g: &Frame, f: &Frame) -> bool {
    &&& g.operation_code == f.operation_code
    &&& g.flag == f.flag
    &&& g.stream_id == f.stream_id
    &&& g.header_format == f.header_format
    &&& if header_bytes(f).len() > 0 {
        g.header matches Some(v) && v@ == header_bytes(f)
    } else {
        g.header is None
    }
    &&& if payload_bytes(f).len() > 0 {
        g.payload matches Some(parts) && parts@.len() == 1 && parts@[0]@ == payload_bytes(f)
    } else {
        g.payload is None
    }
}

/// The header format and the operation code survive their encodings.
proof fn lemma_codes_roundtrip(f: &Frame)
    ensures
        header_format_of(header_format_code(f.header_format)) == f.header_format,
        opcode_of_bits(opcode_bits(f.operation_code)) == f.operation_code,
        0 <= opcode_bits(f.operation_code) < 65536,
{
}

/// Where each field of a frame lies in its encoding, and what checking the encoding finds.
#[verifier::spinoff_prover]
#[verifier::rlimit(60)]
proof fn lemma_encoding_layout(f: &Frame, extra: Seq<u8>)
    requires
        frame_length(f) <= MAX_FRAME_LENGTH,
    ensures
        ({
            let e = spec_encode(f) + extra;
            let fl = frame_length(f);
            let h = header_bytes(f).len() as int;
            &&& spec_encode(f).len() == fl + 4
            &&& e.len() == fl + 4 + extra.len()
            &&& length_field(e) == fl
            &&& header_length_field(e) == h
            &&& e[4] == MAGIC_CODE
            &&& be16(e.subrange(5, 7)) == opcode_bits(f.operation_code)
            &&& e[7] == f.flag
            &&& be32(e.subrange(8, 12)) == f.stream_id
            &&& e[12] == header_format_code(f.header_format)
            &&& e.subrange(16, 16 + h) == header_bytes(f)
            &&& e.subrange(16 + h, fl) == payload_bytes(f)
            &&& e.subrange(fl, fl + 4) == checksum_field(f)
        }),
{
    let e = spec_encode(f) + extra;
    let fl = frame_length(f);
    let hdr = header_bytes(f);
    let pay = payload_bytes(f);
    let h = hdr.len() as int;
    lemma_be32_roundtrip(fl);
    lemma_be16_roundtrip(opcode_bits(f.operation_code));
    lemma_be32_roundtrip(f.stream_id as int);
    lemma_be24_roundtrip(h);
    let fixed = fixed_part(f);
    assert(fixed.len() == 16);
    let ck = checksum_field(f);
    assert(ck.len() == 4);
    assert(spec_encode(f).len() == fl + 4);
    assert(e.subrange(0, 4) =~= be32_bytes(fl));
    assert(fixed[4] == MAGIC_CODE);
    assert(e[4] == fixed[4]);
    assert(e.subrange(5, 7) =~= be16_bytes(opcode_bits(f.operation_code)));
    assert(e[7] == fixed[7]);
    assert(e.subrange(8, 12) =~= be32_bytes(f.stream_id as int));
    assert(e[12] == fixed[12]);
    assert(e.subrange(13, 16) =~= be24_bytes(h));
    assert(e.subrange(16, 16 + h) =~= hdr);
    assert(e.subrange(16 + h, fl) =~= pay);
    assert(e.subrange(fl, fl + 4) =~= ck);
}

/// Encoding then decoding: whatever bytes follow it, however many, the encoding of a frame
/// that is not too long can be parsed, parsing reads exactly the encoding, and the frame it
/// gives back carries what the frame carries.
pub proof fn lemma_encode_decode(f: &Frame, extra: Seq<u8>, g: &Frame)
    requires
        frame_length(f) <= MAX_FRAME_LENGTH,
    ensures
        parsable(spec_encode(f) + extra),
        length_field(spec_encode(f) + extra) + 4 == spec_encode(f).len(),
        decodes_to(spec_encode(f) + extra, g) <==> same_content(g, f),
{
    lemma_encoding_layout(f, extra);
    lemma_codes_roundtrip(f);
}

/// Encoding then checking: whatever bytes follow it (in a buffer under 4 GiB), the encoding of
/// a frame that is not too long is found to be one complete frame spanning exactly its
/// encoding, and decoding it gives back what the frame carries.
pub proof fn lemma_encode_check_decode(f: &Frame, extra: Seq<u8>, g: &Frame)
    requires
        frame_length(f) <= MAX_FRAME_LENGTH,
        spec_encode(f).len() + extra.len() < 4294967296,
    ensures
        check_outcome(spec_encode(f) + extra) == CheckOutcome::Complete(
            (frame_length(f) + 4) as u64,
        ),
        check_advance(spec_encode(f) + extra) == spec_encode(f).len(),
        parsable(spec_encode(f) + extra),
        length_field(spec_encode(f) + extra) + 4 == spec_encode(f).len(),
        decodes_to(spec_encode(f) + extra, g) <==> same_content(g, f),
{
    let e = spec_encode(f) + extra;
    lemma_encoding_layout(f, extra);
    lemma_codes_roundtrip(f);
    if f.payload is Some {
        lemma_be32_roundtrip(crate::crc32::spec_crc32(payload_bytes(f)) as int);
    }
    assert(check_outcome(e) == CheckOutcome::Complete((frame_length(f) + 4) as u64));
}

/// Setting a flag leaves every flag that was set still set, and sets the new one.
pub proof fn lemma_flag_set(flag: u8, bits: u8, other: u8)
    ensures
        (flag | bits) & bits == bits,
        flag & other == other ==> (flag | bits) & other == other,
{
    assert((flag | bits) & bits == bits) by (bit_vector);
    assert(flag & other == other ==> (flag | bits) & other == other) by (bit_vector);
}

/// A frame marked as a system error reads as a system error, as a response and as the end
/// of its stream, whatever flags it had before.
pub proof fn lemma_system_error_flags(flag: u8)
    ensures
        ({
            let g = flag | CommonFlags::END_OF_STREAM().0 | CommonFlags::RESPONSE().0
                | CommonFlags::SYSTEM_ERROR().0;
            &&& g & CommonFlags::SYSTEM_ERROR().0 == CommonFlags::SYSTEM_ERROR().0
            &&& g & CommonFlags::RESPONSE().0 == CommonFlags::RESPONSE().0
            &&& g & CommonFlags::END_OF_STREAM().0 == CommonFlags::END_OF_STREAM().0
        }),
{
    assert((flag | 2u8 | 1u8 | 4u8) & 4u8 == 4u8) by (bit_vector);
    assert((flag | 2u8 | 1u8 | 4u8) & 1u8 == 1u8) by (bit_vector);
    assert((flag | 2u8 | 1u8 | 4u8) & 2u8 == 2u8) by (bit_vector);
}

} // verus!
