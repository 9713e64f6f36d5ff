use vstd::prelude::*;
use bytebuffer::ByteBuffer;
use crate::buffer::{
    bb_write_bytes, bb_write_u16, bb_write_u32, be16, be32_bytes, buffer_bytes, buffer_clean,
    buffer_wpos, u16_hi, u16_lo,
};
use crate::error::DnsError;
use crate::name::{
    domain_to_byte_buffer, lemma_decode_consumed_bounds, spec_decode_name, spec_encode_name,
    spec_encode_name_checked, u8_to_name, Name,
};

verus! {

/// One resource record: a name, a record type, a class, a time to live,
/// and an opaque payload of `rdlength` bytes.
pub struct Answer {
    pub name: Name,
    pub record_type: u16,
    pub class: u16,
    pub ttl: u32,
    pub rdlength: u16,
    pub rdata: Vec<u8>,
}

impl View for Answer {
    type V = (Seq<Seq<u8>>, u16, u16, u32, u16, Seq<u8>);

    open spec fn view(&self) -> (Seq<Seq<u8>>, u16, u16, u32, u16, Seq<u8>) {
        (self.name@, self.record_type, self.class, self.ttl, self.rdlength, self.rdata@)
    }
}

/// The 32-bit value read from four bytes in big-endian order.
pub open spec fn be32(b0: u8, b1: u8, b2: u8, b3: u8) -> u32 {
    (((b0 as u32) << 24) | ((b1 as u32) << 16) | ((b2 as u32) << 8) | (b3 as u32)) as u32
}

/// The wire form of a record: the encoded name, then type, class, TTL
/// and `rdlength`, all big-endian, then the `rdata` bytes verbatim; or
/// the error the record is rejected with. A record whose `rdlength`
/// disagrees with its `rdata` is rejected before its name is looked at.
pub open spec fn spec_encode_answer_checked(a: Answer) -> Result<Seq<u8>, DnsError> {
    if a.rdata@.len() != a.rdlength {
        Err(DnsError::RdataLengthMismatch)
    } else {
        match spec_encode_name_checked(a.name@) {
            Ok(nb) => Ok(
                nb + seq![
                    u16_hi(a.record_type),
                    u16_lo(a.record_type),
                    u16_hi(a.class),
                    u16_lo(a.class),
                ] + be32_bytes(a.ttl) + seq![u16_hi(a.rdlength), u16_lo(a.rdlength)] + a.rdata@,
            ),
            Err(e) => Err(e),
        }
    }
}

/// The record read from `raw` at `pos`, with the offset just past it:
/// the name, the four fixed big-endian fields, then exactly `rdlength`
/// bytes of payload.
pub open spec fn spec_decode_answer(raw: Seq<u8>, pos: int) -> Result<
    ((Seq<Seq<u8>>, u16, u16, u32, u16, Seq<u8>), int),
    DnsError,
> {
    match spec_decode_name(raw, pos, pos) {
        Err(e) => Err(e),
        Ok(pair) => {
            let after = pos + pair.1;
            if after + 10 > raw.len() {
                Err(DnsError::TruncatedInput)
            } else {
                let rdlength = be16(raw[after + 8], raw[after + 9]);
                if after + 10 + rdlength > raw.len() {
                    Err(DnsError::TruncatedInput)
                } else {
                    Ok(
                        (
                            (
                                pair.0,
                                be16(raw[after], raw[after + 1]),
                                be16(raw[after + 2], raw[after + 3]),
                                be32(raw[after + 4], raw[after + 5], raw[after + 6], raw[after + 7]),
                                rdlength,
                                raw.subrange(after + 10, after + 10 + rdlength),
                            ),
                            after + 10 + rdlength,
                        ),
                    )
                }
            }
        },
    }
}

/// Copies `len` bytes of `raw` starting at `start`.
fn copy_range(raw: &[u8], start: usize, len: usize) -> (r: Vec<u8>)
    requires
        start + len <= raw@.len(),
    ensures
        r@ == raw@.subrange(start as int, start as int + len as int),
{
    let rl = raw.len();
    let mut r: Vec<u8> = Vec::new();
    let mut k: usize = 0;
    while k < len
        invariant
            k <= len,
            rl == raw@.len(),
            start + len <= rl,
            r@ == raw@.subrange(start as int, start as int + k as int),
        decreases len - k,
    {
        r.push(raw[start + k]);
        k += 1;
        proof {
            assert(r@ =~= raw@.subrange(start as int, start as int + k as int));
        }
    }
    r
}

impl Answer {
    /// Encodes the record for the wire; `rdlength` must equal the length
    /// of `rdata` or the record is rejected with `RdataLengthMismatch`.
    pub fn to_byte_buffer(&self) -> (r: Result<ByteBuffer, DnsError>)
        ensures
            match r {
                Ok(buf) => {
                    &&& spec_encode_answer_checked(*self) == Ok::<Seq<u8>, DnsError>(
                        buffer_bytes(buf),
                    )
                    &&& buffer_wpos(buf) == buffer_bytes(buf).len()
                    &&& buffer_clean(buf)
                },
                Err(e) => spec_encode_answer_checked(*self) == Err::<Seq<u8>, DnsError>(e),
            },
    {
        if self.rdata.len() != self.rdlength as usize {
            return Err(DnsError::RdataLengthMismatch);
        }
        match domain_to_byte_buffer(&self.name) {
            Err(e) => Err(e),
            Ok(mut buf) => {
                bb_write_u16(&mut buf, self.record_type);
                bb_write_u16(&mut buf, self.class);
                bb_write_u32(&mut buf, self.ttl);
                bb_write_u16(&mut buf, self.rdlength);
                bb_write_bytes(&mut buf, self.rdata.as_slice());
                proof {
                    assert(spec_encode_name_checked(self.name@) == Ok::<Seq<u8>, DnsError>(
                        spec_encode_name(self.name@),
                    ));
                    assert(buffer_bytes(buf) =~= spec_encode_name(self.name@) + seq![
                        u16_hi(self.record_type),
                        u16_lo(self.record_type),
                        u16_hi(self.class),
                        u16_lo(self.class),
                    ] + be32_bytes(self.ttl) + seq![u16_hi(self.rdlength), u16_lo(self.rdlength)]
                        + self.rdata@);
                }
                Ok(buf)
            },
        }
    }

    /// Decodes one record starting at `offset` in the message buffer,
    /// returning it together with the offset just past it.
    pub fn from_raw(raw: &[u8], offset: usize) -> (r: Result<(Answer, usize), DnsError>)
        ensures
            match r {
                Ok(pair) => spec_decode_answer(raw@, offset as int) == Ok::<
                    ((Seq<Seq<u8>>, u16, u16, u32, u16, Seq<u8>), int),
                    DnsError,
                >((pair.0@, pair.1 as int)),
                Err(e) => spec_decode_answer(raw@, offset as int) == Err::<
                    ((Seq<Seq<u8>>, u16, u16, u32, u16, Seq<u8>), int),
                    DnsError,
                >(e),
            },
    {
        let (name, used) = match u8_to_name(raw, offset) {
            Err(e) => {
                return Err(e);
            },
            Ok(pair) => pair,
        };
        let rl = raw.len();
        proof {
            lemma_decode_consumed_bounds(raw@, offset as int, offset as int);
            assert(offset + used <= rl);
        }
        let after = offset + used;
        if rl - after < 10 {
            return Err(DnsError::TruncatedInput);
        }
        let record_type = ((raw[after] as u16) << 8) | (raw[after + 1] as u16);
        let class = ((raw[after + 2] as u16) << 8) | (raw[after + 3] as u16);
        let ttl = ((raw[after + 4] as u32) << 24) | ((raw[after + 5] as u32) << 16) | ((raw[after
            + 6] as u32) << 8) | (raw[after + 7] as u32);
        let rdlength = ((raw[after + 8] as u16) << 8) | (raw[after + 9] as u16);
        if rl - (after + 10) < rdlength as usize {
            return Err(DnsError::TruncatedInput);
        }
        let rdata = copy_range(raw, after + 10, rdlength as usize);
        let a = Answer { name, record_type, class, ttl, rdlength, rdata };
        proof {
            assert(a@ =~= (a.name@, a.record_type, a.class, a.ttl, a.rdlength, a.rdata@));
        }
        Ok((a, after + 10 + rdlength as usize))
    }
}

} // verus!
