use vstd::prelude::*;
use bytebuffer::ByteBuffer;
use crate::buffer::{bb_write_u16, be16, buffer_bytes, buffer_clean, buffer_wpos, u16_hi, u16_lo};
use crate::error::DnsError;
use crate::name::{
    domain_to_byte_buffer, spec_decode_name, spec_encode_name, spec_encode_name_checked,
    u8_to_name, Name,
};

verus! {

/// One question entry: a name, a record type and a class.
pub struct Question {
    pub name: Name,
    pub record_type: u16,
    pub class: u16,
}

impl View for Question {
    type V = (Seq<Seq<u8>>, u16, u16);

    open spec fn view(&self) -> (Seq<Seq<u8>>, u16, u16) {
        (self.name@, self.record_type, self.class)
    }
}

/// The wire form of a question: the encoded name, then the record type
/// and the class, each big-endian, or the error its name is rejected
/// with.
pub open spec fn spec_encode_question_checked(q: Question) -> Result<Seq<u8>, DnsError> {
    match spec_encode_name_checked(q.name@) {
        Ok(nb) => Ok(
            nb + seq![
                u16_hi(q.record_type),
                u16_lo(q.record_type),
                u16_hi(q.class),
                u16_lo(q.class),
            ],
        ),
        Err(e) => Err(e),
    }
}

/// The question read from `raw` at `pos`, with the offset just past it:
/// the name, then the two big-endian fields immediately following.
pub open spec fn spec_decode_question(raw: Seq<u8>, pos: int) -> Result<
    ((Seq<Seq<u8>>, u16, u16), int),
    DnsError,
> {
    match spec_decode_name(raw, pos, pos) {
        Err(e) => Err(e),
        Ok(pair) => {
            let after = pos + pair.1;
            if after + 4 > raw.len() {
                Err(DnsError::TruncatedInput)
            } else {
                Ok(
                    (
                        (pair.0, be16(raw[after], raw[after + 1]), be16(
                            raw[after + 2],
                            raw[after + 3],
                        )),
                        after + 4,
                    ),
                )
            }
        },
    }
}

impl Question {
    /// Encodes the question for the wire.
    pub fn to_byte_buffer(&self) -> (r: Result<ByteBuffer, DnsError>)
        ensures
            match r {
                Ok(buf) => {
                    &&& spec_encode_question_checked(*self) == Ok::<Seq<u8>, DnsError>(
                        buffer_bytes(buf),
                    )
                    &&& buffer_wpos(buf) == buffer_bytes(buf).len()
                    &&& buffer_clean(buf)
                },
                Err(e) => spec_encode_question_checked(*self) == Err::<Seq<u8>, DnsError>(e),
            },
    {
        match domain_to_byte_buffer(&self.name) {
            Err(e) => Err(e),
            Ok(mut buf) => {
                bb_write_u16(&mut buf, self.record_type);
                bb_write_u16(&mut buf, self.class);
                proof {
                    assert(spec_encode_name_checked(self.name@) == Ok::<Seq<u8>, DnsError>(
                        spec_encode_name(self.name@),
                    ));
                    assert(buffer_bytes(buf) =~= spec_encode_name(self.name@) + seq![
                        u16_hi(self.record_type),
                        u16_lo(self.record_type),
                        u16_hi(self.class),
                        u16_lo(self.class),
                    ]);
                }
                Ok(buf)
            },
        }
    }

    /// Decodes one question starting at `offset` in the message buffer,
    /// returning it together with the offset just past it.
    pub fn from_raw(raw: &[u8], offset: usize) -> (r: Result<(Question, usize), DnsError>)
        ensures
            match r {
                Ok(pair) => spec_decode_question(raw@, offset as int) == Ok::<
                    ((Seq<Seq<u8>>, u16, u16), int),
                    DnsError,
                >((pair.0@, pair.1 as int)),
                Err(e) => spec_decode_question(raw@, offset as int) == Err::<
                    ((Seq<Seq<u8>>, u16, u16), int),
                    DnsError,
                >(e),
            },
    {
        let (name, used) = match u8_to_name(raw, offset) {
            Err(e) => {
                return Err(e);
            },
            Ok(pair) => pair,
        };
        let rl = raw.len();
        proof {
            crate::name::lemma_decode_consumed_bounds(raw@, offset as int, offset as int);
            assert(offset + used <= rl);
        }
        let after = offset + used;
        if rl - after < 4 {
            return Err(DnsError::TruncatedInput);
        }
        let record_type = ((raw[after] as u16) << 8) | (raw[after + 1] as u16);
        let class = ((raw[after + 2] as u16) << 8) | (raw[after + 3] as u16);
        let q = Question { name, record_type, class };
        proof {
            assert(q@ =~= (q.name@, q.record_type, q.class));
        }
        Ok((q, after + 4))
    }
}

/// The sequence of question views a vector of questions stands for.
pub open spec fn questions_view(qs: Seq<Question>) -> Seq<(Seq<Seq<u8>>, u16, u16)> {
    Seq::new(qs.len(), |i: int| qs[i]@)
}

/// The `count` questions read one after another from `raw` starting at
/// `pos`, with the offset just past the last one.
pub open spec fn spec_decode_questions(raw: Seq<u8>, pos: int, count: nat) -> Result<
    (Seq<(Seq<Seq<u8>>, u16, u16)>, int),
    DnsError,
>
    decreases count,
{
    if count == 0 {
        Ok((Seq::<(Seq<Seq<u8>>, u16, u16)>::empty(), pos))
    } else {
        match spec_decode_question(raw, pos) {
            Err(e) => Err(e),
            Ok(pair) => match spec_decode_questions(raw, pair.1, (count - 1) as nat) {
                Err(e) => Err(e),
                Ok(rest) => Ok((seq![pair.0] + rest.0, rest.1)),
            },
        }
    }
}

/// A successful question-section decode yields exactly `count` entries.
pub proof fn lemma_decode_questions_count(raw: Seq<u8>, pos: int, count: nat)
    requires
        spec_decode_questions(raw, pos, count) is Ok,
    ensures
        spec_decode_questions(raw, pos, count)->Ok_0.0.len() == count,
    decreases count,
{
    if count != 0 {
        let pair = spec_decode_question(raw, pos)->Ok_0;
        lemma_decode_questions_count(raw, pair.1, (count - 1) as nat);
    }
}

/// What the whole question-section decode yields, given the questions
/// `acc` already read and `remaining` still to be read from `pos`.
pub open spec fn spec_questions_progress(
    raw: Seq<u8>,
    pos: int,
    remaining: nat,
    acc: Seq<(Seq<Seq<u8>>, u16, u16)>,
) -> Result<(Seq<(Seq<Seq<u8>>, u16, u16)>, int), DnsError> {
    match spec_decode_questions(raw, pos, remaining) {
        Ok(rest) => Ok((acc + rest.0, rest.1)),
        Err(e) => Err(e),
    }
}

/// Decodes `count` questions one after another, starting at `offset` in
/// the message buffer, returning them with the offset just past the
/// last; any entry's failure aborts the whole read.
pub fn questions_from_raw(count: u16, raw: &[u8], offset: usize) -> (r: Result<
    (Vec<Question>, usize),
    DnsError,
>)
    ensures
        match r {
            Ok(pair) => spec_decode_questions(raw@, offset as int, count as nat) == Ok::<
                (Seq<(Seq<Seq<u8>>, u16, u16)>, int),
                DnsError,
            >((questions_view(pair.0@), pair.1 as int)),
            Err(e) => spec_decode_questions(raw@, offset as int, count as nat) == Err::<
                (Seq<(Seq<Seq<u8>>, u16, u16)>, int),
                DnsError,
            >(e),
        },
{
    let ghost target = spec_decode_questions(raw@, offset as int, count as nat);
    let mut questions: Vec<Question> = Vec::new();
    let mut pos: usize = offset;
    let mut i: u16 = 0;
    proof {
        assert(questions_view(questions@) =~= Seq::<(Seq<Seq<u8>>, u16, u16)>::empty());
        let s = spec_decode_questions(raw@, offset as int, count as nat);
        if s is Ok {
            let rest = s->Ok_0;
            assert(questions_view(questions@) + rest.0 =~= rest.0);
            assert((rest.0, rest.1) =~= rest);
        }
    }
    while i < count
        invariant
            i <= count,
            target == spec_decode_questions(raw@, offset as int, count as nat),
            target == spec_questions_progress(
                raw@,
                pos as int,
                (count - i) as nat,
                questions_view(questions@),
            ),
        decreases count - i,
    {
        let (q, next) = match Question::from_raw(raw, pos) {
            Err(e) => {
                return Err(e);
            },
            Ok(pair) => pair,
        };
        proof {
            let rem = (count - i) as nat;
            let inner = spec_decode_questions(raw@, next as int, (rem - 1) as nat);
            if inner is Ok {
                let rest = inner->Ok_0;
                assert(questions_view(questions@.push(q)) =~= questions_view(
                questions@).push(q@));
                assert(questions_view(questions@) + (seq![q@] + rest.0) =~= questions_view(
                questions@).push(q@) + rest.0);
            } else {
                assert(questions_view(questions@.push(q)) =~= questions_view(
                questions@).push(q@));
            }
        }
        questions.push(q);
        pos = next;
        i += 1;
    }
    proof {
        let s = spec_decode_questions(raw@, pos as int, 0);
        assert(s == Ok::<(Seq<(Seq<Seq<u8>>, u16, u16)>, int), DnsError>(
            (Seq::<(Seq<Seq<u8>>, u16, u16)>::empty(), pos as int),
        ));
        assert(questions_view(questions@) + Seq::<(Seq<Seq<u8>>, u16, u16)>::empty()
            =~= questions_view(questions@));
    }
    Ok((questions, pos))
}

} // verus!
