use vstd::prelude::*;
use bytebuffer::ByteBuffer;
use crate::buffer::{
    bb_from_slice, bb_new, bb_read_u16, bb_read_u8, bb_write_u16, bb_write_u8, be16, buffer_bytes,
    buffer_clean, buffer_wpos, u16_hi, u16_lo,
};
use crate::error::DnsError;

verus! {

/// The fixed 12-byte DNS message header.
///
/// The single-bit and narrow fields are held in a `u8` each; a header is
/// well formed (`wf`) when every field fits its wire bit width.
#[derive(Clone, Copy, Debug, PartialEq, Eq, Structural)]
pub struct DnsPacketHeader {
    pub id: u16,
    pub qr_indicator: u8,
    pub opcode: u8,
    pub authorative_answer: u8,
    pub truncation: u8,
    pub recursion_desired: u8,
    pub recursion_available: u8,
    pub reserved: u8,
    pub response_code: u8,
    pub question_count: u16,
    pub answer_count: u16,
    pub authority_count: u16,
    pub additional_count: u16,
}

impl DnsPacketHeader {
    /// Every field fits the bit width it occupies on the wire.
    pub open spec fn wf(self) -> bool {
        &&& self.qr_indicator <= 1
        &&& self.opcode <= 15
        &&& self.authorative_answer <= 1
        &&& self.truncation <= 1
        &&& self.recursion_desired <= 1
        &&& self.recursion_available <= 1
        &&& self.reserved <= 7
        &&& self.response_code <= 15
    }
}

/// Byte 2 of the header: `qr` in the top bit, then opcode, authoritative
/// answer, truncation and recursion desired.
pub open spec fn spec_flags_byte1(h: DnsPacketHeader) -> u8 {
    (h.qr_indicator << 7) | (h.opcode << 3) | (h.authorative_answer << 2) | (h.truncation << 1)
        | h.recursion_desired
}

/// Byte 3 of the header: recursion available in the top bit, then the
/// reserved bits and the response code.
pub open spec fn spec_flags_byte2(h: DnsPacketHeader) -> u8 {
    (h.recursion_available << 7) | (h.reserved << 4) | h.response_code
}

/// The 12 bytes of a header on the wire: id, the two flag bytes, and the
/// four section counts, all multi-byte fields big-endian.
pub open spec fn spec_header_bytes(h: DnsPacketHeader) -> Seq<u8> {
    seq![
        u16_hi(h.id),
        u16_lo(h.id),
        spec_flags_byte1(h),
        spec_flags_byte2(h),
        u16_hi(h.question_count),
        u16_lo(h.question_count),
        u16_hi(h.answer_count),
        u16_lo(h.answer_count),
        u16_hi(h.authority_count),
        u16_lo(h.authority_count),
        u16_hi(h.additional_count),
        u16_lo(h.additional_count),
    ]
}

/// The header read from the first 12 bytes of a buffer: the inverse bit
/// extraction of `spec_header_bytes`. Meaningful only when
/// `raw.len() >= 12`.
pub open spec fn spec_parse_header(raw: Seq<u8>) -> DnsPacketHeader {
    DnsPacketHeader {
        id: be16(raw[0], raw[1]),
        qr_indicator: raw[2] >> 7,
        opcode: (raw[2] >> 3) & 0xF,
        authorative_answer: (raw[2] >> 2) & 1,
        truncation: (raw[2] >> 1) & 1,
        recursion_desired: raw[2] & 1,
        recursion_available: raw[3] >> 7,
        reserved: (raw[3] >> 4) & 0x7,
        response_code: raw[3] & 0xF,
        question_count: be16(raw[4], raw[5]),
        answer_count: be16(raw[6], raw[7]),
        authority_count: be16(raw[8], raw[9]),
        additional_count: be16(raw[10], raw[11]),
    }
}

impl DnsPacketHeader {
    /// Packs the header into its 12-byte wire form.
    pub fn to_bytes(&self) -> (buf: ByteBuffer)
        requires
            self.wf(),
        ensures
            buffer_bytes(buf) == spec_header_bytes(*self),
            buffer_bytes(buf).len() == 12,
            buffer_wpos(buf) == 12,
            buffer_clean(buf),
    {
        let flags_b1 = (self.qr_indicator << 7) | (self.opcode << 3) | (self.authorative_answer
            << 2) | (self.truncation << 1) | self.recursion_desired;
        let flags_b2 = (self.recursion_available << 7) | (self.reserved << 4) | self.response_code;

        let mut buf = bb_new();
        bb_write_u16(&mut buf, self.id);
        bb_write_u8(&mut buf, flags_b1);
        bb_write_u8(&mut buf, flags_b2);
        bb_write_u16(&mut buf, self.question_count);
        bb_write_u16(&mut buf, self.answer_count);
        bb_write_u16(&mut buf, self.authority_count);
        bb_write_u16(&mut buf, self.additional_count);

        proof {
            assert(buffer_bytes(buf) =~= spec_header_bytes(*self));
        }
        buf
    }

    /// Unpacks a header from the first 12 bytes of `data`; rejects a
    /// buffer of fewer than 12 bytes before reading any field.
    pub fn from_bytes(data: &[u8]) -> (r: Result<DnsPacketHeader, DnsError>)
        ensures
            match r {
                Ok(h) => {
                    &&& data@.len() >= 12
                    &&& h == spec_parse_header(data@)
                    &&& h.wf()
                },
                Err(e) => {
                    &&& e == DnsError::TruncatedInput
                    &&& data@.len() < 12
                },
            },
    {
        if data.len() < 12 {
            return Err(DnsError::TruncatedInput);
        }

        let mut buf = bb_from_slice(data);
        let id = bb_read_u16(&mut buf);
        let flags1 = bb_read_u8(&mut buf);
        let flags2 = bb_read_u8(&mut buf);
        let qc = bb_read_u16(&mut buf);
        let anc = bb_read_u16(&mut buf);
        let auc = bb_read_u16(&mut buf);
        let adc = bb_read_u16(&mut buf);

        proof {
            assert(flags1 >> 7 <= 1 && (flags1 >> 3) & 0xF <= 15 && (flags1 >> 2) & 1 <= 1 && (
            flags1 >> 1) & 1 <= 1 && flags1 & 1 <= 1) by (bit_vector);
            assert(flags2 >> 7 <= 1 && (flags2 >> 4) & 0x7 <= 7 && flags2 & 0xF <= 15)
                by (bit_vector);
        }

        Ok(
            DnsPacketHeader {
                id,
                qr_indicator: flags1 >> 7,
                opcode: (flags1 >> 3) & 0xF,
                authorative_answer: (flags1 >> 2) & 1,
                truncation: (flags1 >> 1) & 1,
                recursion_desired: flags1 & 1,
                recursion_available: flags2 >> 7,
                reserved: (flags2 >> 4) & 0x7,
                response_code: flags2 & 0xF,
                question_count: qc,
                answer_count: anc,
                authority_count: auc,
                additional_count: adc,
            },
        )
    }
}

/// Header round trip: reading back the 12 bytes written for any well
/// formed header yields that header, field for field.
pub proof fn lemma_header_round_trip(h: DnsPacketHeader)
    requires
        h.wf(),
    ensures
        spec_parse_header(spec_header_bytes(h)) == h,
{
    let qr = h.qr_indicator;
    let op = h.opcode;
    let aa = h.authorative_answer;
    let tc = h.truncation;
    let rd = h.recursion_desired;
    let ra = h.recursion_available;
    let rv = h.reserved;
    let rc = h.response_code;
    let f1 = spec_flags_byte1(h);
    let f2 = spec_flags_byte2(h);
    assert(f1 >> 7 == qr && (f1 >> 3) & 0xF == op && (f1 >> 2) & 1 == aa && (f1 >> 1) & 1 == tc
        && f1 & 1 == rd) by (bit_vector)
        requires
            qr <= 1,
            op <= 15,
            aa <= 1,
            tc <= 1,
            rd <= 1,
            f1 == (qr << 7) | (op << 3) | (aa << 2) | (tc << 1) | rd,
    ;
    assert(f2 >> 7 == ra && (f2 >> 4) & 0x7 == rv && f2 & 0xF == rc) by (bit_vector)
        requires
            ra <= 1,
            rv <= 7,
            rc <= 15,
            f2 == (ra << 7) | (rv << 4) | rc,
    ;
    lemma_be16_round_trip(h.id);
    lemma_be16_round_trip(h.question_count);
    lemma_be16_round_trip(h.answer_count);
    lemma_be16_round_trip(h.authority_count);
    lemma_be16_round_trip(h.additional_count);
}

/// Splitting a 16-bit value into its big-endian bytes and reading them
/// back yields the value.
pub proof fn lemma_be16_round_trip(v: u16)
    ensures
        be16(u16_hi(v), u16_lo(v)) == v,
{
    assert((((((v >> 8) as u8) as u16) << 8) | (((v & 0xFF) as u8) as u16)) == v) by (bit_vector);
}

} // verus!
