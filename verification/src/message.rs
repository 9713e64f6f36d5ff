use vstd::prelude::*;
use crate::buffer::{bb_to_vec, be16};
use crate::error::DnsError;
use crate::header::{spec_header_bytes, spec_parse_header, DnsPacketHeader};
use crate::question::{
    lemma_decode_questions_count, questions_from_raw, questions_view, spec_decode_questions,
    spec_encode_question_checked, Question,
};
use crate::record::{spec_encode_answer_checked, Answer};

verus! {

/// One DNS message: a header, the question section, and the answer,
/// authority and additional record sections.
pub struct Message {
    pub header: DnsPacketHeader,
    pub questions: Vec<Question>,
    pub answers: Vec<Answer>,
    pub authority: Vec<Answer>,
    pub additional: Vec<Answer>,
}

impl Message {
    /// The header is well formed and its counts match the sections;
    /// the authority and additional sections, which this responder
    /// never fills, are empty.
    pub open spec fn wf(self) -> bool {
        &&& self.header.wf()
        &&& self.header.question_count == self.questions@.len()
        &&& self.header.answer_count == self.answers@.len()
        &&& self.header.authority_count == 0
        &&& self.header.additional_count == 0
        &&& self.authority@.len() == 0
        &&& self.additional@.len() == 0
    }
}

/// The header and question section read from a request buffer. A buffer
/// of fewer than 12 bytes is rejected before any field is read; the
/// request path does not parse record sections.
pub open spec fn spec_parse_message(raw: Seq<u8>) -> Result<
    (DnsPacketHeader, Seq<(Seq<Seq<u8>>, u16, u16)>),
    DnsError,
> {
    if raw.len() < 12 {
        Err(DnsError::TruncatedInput)
    } else {
        let h = spec_parse_header(raw);
        match spec_decode_questions(raw, 12, h.question_count as nat) {
            Err(e) => Err(e),
            Ok(pair) => Ok((h, pair.0)),
        }
    }
}

/// Parses a request: the header, then exactly `question_count`
/// questions; a malformed question section aborts the whole parse.
pub fn parse(raw: &[u8]) -> (r: Result<Message, DnsError>)
    ensures
        match r {
            Ok(m) => {
                &&& spec_parse_message(raw@) == Ok::<
                    (DnsPacketHeader, Seq<(Seq<Seq<u8>>, u16, u16)>),
                    DnsError,
                >((m.header, questions_view(m.questions@)))
                &&& m.header.wf()
                &&& m.questions@.len() == m.header.question_count
                &&& m.answers@.len() == 0
                &&& m.authority@.len() == 0
                &&& m.additional@.len() == 0
            },
            Err(e) => spec_parse_message(raw@) == Err::<
                (DnsPacketHeader, Seq<(Seq<Seq<u8>>, u16, u16)>),
                DnsError,
            >(e),
        },
        raw@.len() < 12 ==> r == Err::<Message, DnsError>(DnsError::TruncatedInput),
{
    let header = match DnsPacketHeader::from_bytes(raw) {
        Err(e) => {
            return Err(e);
        },
        Ok(h) => h,
    };
    let questions = match questions_from_raw(header.question_count, raw, 12) {
        Err(e) => {
            return Err(e);
        },
        Ok(pair) => pair.0,
    };
    proof {
        lemma_decode_questions_count(raw@, 12, header.question_count as nat);
    }
    Ok(
        Message {
            header,
            questions,
            answers: Vec::new(),
            authority: Vec::new(),
            additional: Vec::new(),
        },
    )
}

/// The response header derived from a request header and the number of
/// questions it carried: same id, opcode and recursion-desired bit,
/// the response bit set, response code 0 for a standard query and 4
/// (not implemented) otherwise, and one synthesized answer per question
/// only for a standard query.
pub open spec fn spec_response_header(req: DnsPacketHeader, n_questions: u16) -> DnsPacketHeader {
    DnsPacketHeader {
        id: req.id,
        qr_indicator: 1,
        opcode: req.opcode,
        authorative_answer: 0,
        truncation: 0,
        recursion_desired: req.recursion_desired,
        recursion_available: 0,
        reserved: 0,
        response_code: if req.opcode == 0 {
            0
        } else {
            4
        },
        question_count: n_questions,
        answer_count: if req.opcode == 0 {
            n_questions
        } else {
            0
        },
        authority_count: 0,
        additional_count: 0,
    }
}

/// The time to live of every synthesized answer, in seconds.
pub const ANSWER_TTL: u32 = 60;

/// Builds the response to a parsed request: the derived header, every
/// question echoed unchanged, and, for a standard query only, one
/// synthesized answer per question carrying the question's name, type
/// and class, a 60-second TTL and the fixed 4-byte placeholder address.
pub fn build_response(req: &Message) -> (resp: Message)
    requires
        req.header.wf(),
        req.questions@.len() <= u16::MAX,
    ensures
        resp.header == spec_response_header(req.header, req.questions@.len() as u16),
        resp.wf(),
        resp.questions@.len() == req.questions@.len(),
        forall|i: int|
            0 <= i < req.questions@.len() ==> (#[trigger] resp.questions@[i])@
                == req.questions@[i]@,
        req.header.opcode == 0 ==> {
            &&& resp.answers@.len() == req.questions@.len()
            &&& forall|i: int|
                0 <= i < req.questions@.len() ==> (#[trigger] resp.answers@[i])@ == (
                req.questions@[i]@.0,
                req.questions@[i]@.1,
                req.questions@[i]@.2,
                ANSWER_TTL,
                4u16,
                seq![8u8, 8u8, 8u8, 8u8],
                )
        },
        req.header.opcode != 0 ==> resp.answers@.len() == 0,
        resp.authority@.len() == 0,
        resp.additional@.len() == 0,
{
    let n = req.questions.len();
    let header = DnsPacketHeader {
        id: req.header.id,
        qr_indicator: 1,
        opcode: req.header.opcode,
        authorative_answer: 0,
        truncation: 0,
        recursion_desired: req.header.recursion_desired,
        recursion_available: 0,
        reserved: 0,
        response_code: if req.header.opcode == 0 {
            0
        } else {
            4
        },
        question_count: n as u16,
        answer_count: if req.header.opcode == 0 {
            n as u16
        } else {
            0
        },
        authority_count: 0,
        additional_count: 0,
    };

    let mut questions: Vec<Question> = Vec::new();
    let mut answers: Vec<Answer> = Vec::new();
    let mut i: usize = 0;
    while i < n
        invariant
            n == req.questions@.len(),
            n <= u16::MAX,
            i <= n,
            questions@.len() == i,
            forall|k: int|
                0 <= k < i ==> (#[trigger] questions@[k])@ == req.questions@[k]@,
            req.header.opcode == 0 ==> {
                &&& answers@.len() == i
                &&& forall|k: int|
                    0 <= k < i ==> (#[trigger] answers@[k])@ == (
                    req.questions@[k]@.0,
                    req.questions@[k]@.1,
                    req.questions@[k]@.2,
                    ANSWER_TTL,
                    4u16,
                    seq![8u8, 8u8, 8u8, 8u8],
                    )
            },
            req.header.opcode != 0 ==> answers@.len() == 0,
        decreases n - i,
    {
        let q = &req.questions[i];
        questions.push(
            Question {
                name: q.name.duplicate(),
                record_type: q.record_type,
                class: q.class,
            },
        );
        if req.header.opcode == 0 {
            let mut rdata: Vec<u8> = Vec::new();
            rdata.push(8);
            rdata.push(8);
            rdata.push(8);
            rdata.push(8);
            proof {
                assert(rdata@ =~= seq![8u8, 8u8, 8u8, 8u8]);
            }
            answers.push(
                Answer {
                    name: q.name.duplicate(),
                    record_type: q.record_type,
                    class: q.class,
                    ttl: ANSWER_TTL,
                    rdlength: 4,
                    rdata,
                },
            );
        }
        i += 1;
    }

    Message { header, questions, answers, authority: Vec::new(), additional: Vec::new() }
}

/// The wire form of a question section, in order, or the first entry's
/// error.
pub open spec fn spec_serialize_questions(qs: Seq<Question>) -> Result<Seq<u8>, DnsError>
    decreases qs.len(),
{
    if qs.len() == 0 {
        Ok(Seq::<u8>::empty())
    } else {
        match spec_encode_question_checked(qs[0]) {
            Err(e) => Err(e),
            Ok(b) => match spec_serialize_questions(qs.drop_first()) {
                Err(e) => Err(e),
                Ok(rest) => Ok(b + rest),
            },
        }
    }
}

/// The wire form of an answer section, in order, or the first entry's
/// error.
pub open spec fn spec_serialize_answers(ans: Seq<Answer>) -> Result<Seq<u8>, DnsError>
    decreases ans.len(),
{
    if ans.len() == 0 {
        Ok(Seq::<u8>::empty())
    } else {
        match spec_encode_answer_checked(ans[0]) {
            Err(e) => Err(e),
            Ok(b) => match spec_serialize_answers(ans.drop_first()) {
                Err(e) => Err(e),
                Ok(rest) => Ok(b + rest),
            },
        }
    }
}

/// The wire form of a whole message: the header's 12 bytes, then the
/// encoded questions, then the encoded answers; or the first error
/// among them, questions first.
pub open spec fn spec_serialize_message(
    h: DnsPacketHeader,
    qs: Seq<Question>,
    ans: Seq<Answer>,
) -> Result<Seq<u8>, DnsError> {
    match spec_serialize_questions(qs) {
        Err(e) => Err(e),
        Ok(qb) => match spec_serialize_answers(ans) {
            Err(e) => Err(e),
            Ok(ab) => Ok(spec_header_bytes(h) + qb + ab),
        },
    }
}

/// Serializes a message whose counts match its sections: header bytes,
/// then each question, then each answer.
pub fn serialize(msg: &Message) -> (r: Result<Vec<u8>, DnsError>)
    requires
        msg.wf(),
    ensures
        match r {
            Ok(out) => spec_serialize_message(msg.header, msg.questions@, msg.answers@) == Ok::<
                Seq<u8>,
                DnsError,
            >(out@),
            Err(e) => spec_serialize_message(msg.header, msg.questions@, msg.answers@) == Err::<
                Seq<u8>,
                DnsError,
            >(e),
        },
{
    let hbuf = msg.header.to_bytes();
    let mut out: Vec<u8> = bb_to_vec(&hbuf);
    proof {
        assert(out@.subrange(0, 12) =~= spec_header_bytes(msg.header));
        assert(out@.subrange(12, out@.len() as int) =~= Seq::<u8>::empty());
        assert(msg.questions@.skip(0) =~= msg.questions@);
    }

    let mut i: usize = 0;
    while i < msg.questions.len()
        invariant
            i <= msg.questions@.len(),
            out@.len() >= 12,
            out@.subrange(0, 12) == spec_header_bytes(msg.header),
            spec_serialize_questions(msg.questions@) == (match spec_serialize_questions(
                msg.questions@.skip(i as int),
            ) {
                Ok(rest) => Ok(out@.subrange(12, out@.len() as int) + rest),
                Err(e) => Err::<Seq<u8>, DnsError>(e),
            }),
        decreases msg.questions@.len() - i,
    {
        proof {
            assert(msg.questions@.skip(i as int)[0] == msg.questions@[i as int]);
            assert(msg.questions@.skip(i as int).drop_first() =~= msg.questions@.skip(i + 1));
        }
        let qbuf = match msg.questions[i].to_byte_buffer() {
            Err(e) => {
                proof {
                    assert(spec_encode_question_checked(msg.questions@[i as int]) == Err::<Seq<u8>, DnsError>(
                        e,
                    ));
                    assert(spec_serialize_questions(msg.questions@.skip(i as int)) == Err::<
                        Seq<u8>,
                        DnsError,
                    >(e));
                    assert(spec_serialize_questions(msg.questions@) == Err::<Seq<u8>, DnsError>(e));
                }
                return Err(e);
            },
            Ok(b) => b,
        };
        let mut qv = bb_to_vec(&qbuf);
        let ghost old_out = out@;
        let ghost qbytes = qv@;
        out.append(&mut qv);
        proof {
            assert(out@.subrange(0, 12) =~= old_out.subrange(0, 12));
            assert(out@.subrange(12, out@.len() as int) =~= old_out.subrange(
                12,
                old_out.len() as int,
            ) + qbytes);
            if spec_serialize_questions(msg.questions@.skip(i + 1)) is Ok {
                let rest = spec_serialize_questions(msg.questions@.skip(i + 1))->Ok_0;
                assert(old_out.subrange(12, old_out.len() as int) + (qbytes + rest)
                    =~= out@.subrange(12, out@.len() as int) + rest);
            }
        }
        i += 1;
    }
    proof {
        assert(msg.questions@.skip(msg.questions@.len() as int) =~= Seq::<Question>::empty());
        let qb = out@.subrange(12, out@.len() as int);
        assert(qb + Seq::<u8>::empty() =~= qb);
        assert(spec_serialize_questions(msg.questions@) == Ok::<Seq<u8>, DnsError>(qb));
        assert(msg.answers@.skip(0) =~= msg.answers@);
    }
    let ghost qlen = out@.len() as int;
    proof {
        assert(out@.subrange(0, qlen) =~= out@);
    }

    let mut j: usize = 0;
    while j < msg.answers.len()
        invariant
            j <= msg.answers@.len(),
            12 <= qlen <= out@.len(),
            out@.subrange(0, qlen).subrange(0, 12) == spec_header_bytes(msg.header),
            spec_serialize_questions(msg.questions@) == Ok::<Seq<u8>, DnsError>(
                out@.subrange(0, qlen).subrange(12, qlen),
            ),
            spec_serialize_answers(msg.answers@) == (match spec_serialize_answers(
                msg.answers@.skip(j as int),
            ) {
                Ok(rest) => Ok(out@.subrange(qlen, out@.len() as int) + rest),
                Err(e) => Err::<Seq<u8>, DnsError>(e),
            }),
        decreases msg.answers@.len() - j,
    {
        proof {
            assert(msg.answers@.skip(j as int)[0] == msg.answers@[j as int]);
            assert(msg.answers@.skip(j as int).drop_first() =~= msg.answers@.skip(j + 1));
        }
        let abuf = match msg.answers[j].to_byte_buffer() {
            Err(e) => {
                proof {
                    assert(spec_encode_answer_checked(msg.answers@[j as int]) == Err::<Seq<u8>, DnsError>(
                        e,
                    ));
                    assert(spec_serialize_answers(msg.answers@.skip(j as int)) == Err::<Seq<u8>, DnsError>(
                        e,
                    ));
                    assert(spec_serialize_answers(msg.answers@) == Err::<Seq<u8>, DnsError>(e));
                }
                return Err(e);
            },
            Ok(b) => b,
        };
        let mut av = bb_to_vec(&abuf);
        let ghost old_out = out@;
        let ghost abytes = av@;
        out.append(&mut av);
        proof {
            assert(out@.subrange(0, qlen) =~= old_out.subrange(0, qlen));
            assert(out@.subrange(qlen, out@.len() as int) =~= old_out.subrange(
                qlen,
                old_out.len() as int,
            ) + abytes);
            if spec_serialize_answers(msg.answers@.skip(j + 1)) is Ok {
                let rest = spec_serialize_answers(msg.answers@.skip(j + 1))->Ok_0;
                assert(old_out.subrange(qlen, old_out.len() as int) + (abytes + rest)
                    =~= out@.subrange(qlen, out@.len() as int) + rest);
            }
        }
        j += 1;
    }
    proof {
        assert(msg.answers@.skip(msg.answers@.len() as int) =~= Seq::<Answer>::empty());
        let ab = out@.subrange(qlen, out@.len() as int);
        assert(ab + Seq::<u8>::empty() =~= ab);
        assert(spec_serialize_answers(msg.answers@) == Ok::<Seq<u8>, DnsError>(ab));
        let pre = out@.subrange(0, qlen);
        assert(out@ =~= pre + ab);
        assert(pre =~= pre.subrange(0, 12) + pre.subrange(12, qlen));
        assert(out@ =~= spec_header_bytes(msg.header) + pre.subrange(12, qlen) + ab);
    }
    Ok(out)
}

/// Boundary behaviour: a 12-byte buffer whose question count is zero
/// parses to a header and no questions, and, when its opcode is zero,
/// the derived response carries response code 0 and empty question and
/// answer sections.
pub proof fn lemma_empty_question_boundary(raw: Seq<u8>)
    requires
        raw.len() == 12,
        raw[4] == 0,
        raw[5] == 0,
    ensures
        spec_parse_message(raw) == Ok::<(DnsPacketHeader, Seq<(Seq<Seq<u8>>, u16, u16)>), DnsError>(
            (spec_parse_header(raw), Seq::<(Seq<Seq<u8>>, u16, u16)>::empty()),
        ),
        spec_parse_header(raw).question_count == 0,
        spec_parse_header(raw).opcode == 0 ==> {
            &&& spec_response_header(spec_parse_header(raw), 0).response_code == 0
            &&& spec_response_header(spec_parse_header(raw), 0).question_count == 0
            &&& spec_response_header(spec_parse_header(raw), 0).answer_count == 0
        },
{
    assert(be16(0, 0) == 0) by (bit_vector);
    assert(spec_parse_header(raw).question_count == 0);
}

} // verus!
