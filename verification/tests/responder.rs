use dns_codec::error::DnsError;
use dns_codec::header::DnsPacketHeader;
use dns_codec::message::{build_response, parse, serialize};
use dns_codec::question::Question;
use dns_codec::record::Answer;

fn request_bytes(id: u16, opcode: u8, questions: &[(&str, u16, u16)]) -> Vec<u8> {
    let mut raw = Vec::new();
    raw.extend_from_slice(&id.to_be_bytes());
    raw.push(opcode << 3 | 1); // query, recursion desired
    raw.push(0);
    raw.extend_from_slice(&(questions.len() as u16).to_be_bytes());
    raw.extend_from_slice(&[0, 0, 0, 0, 0, 0]);
    for (name, record_type, class) in questions {
        for label in name.split('.') {
            raw.push(label.len() as u8);
            raw.extend_from_slice(label.as_bytes());
        }
        raw.push(0);
        raw.extend_from_slice(&record_type.to_be_bytes());
        raw.extend_from_slice(&class.to_be_bytes());
    }
    raw
}

fn labels(name: &str) -> Vec<Vec<u8>> {
    name.split('.').map(|l| l.as_bytes().to_vec()).collect()
}

#[test]
fn standard_query_end_to_end() {
    let raw = request_bytes(0x04D2, 0, &[("codecrafters.io", 1, 1)]);
    let request = parse(&raw).unwrap();
    assert_eq!(request.header.question_count, 1);
    assert_eq!(request.questions.len(), 1);

    let response = build_response(&request);
    assert_eq!(response.header.id, 0x04D2);
    assert_eq!(response.header.qr_indicator, 1);
    assert_eq!(response.header.opcode, 0);
    assert_eq!(response.header.recursion_desired, 1);
    assert_eq!(response.header.response_code, 0);
    assert_eq!(response.header.question_count, 1);
    assert_eq!(response.header.answer_count, 1);

    assert_eq!(response.questions.len(), 1);
    let q = &response.questions[0];
    assert_eq!(q.name.labels, labels("codecrafters.io"));
    assert_eq!(q.record_type, 1);
    assert_eq!(q.class, 1);

    assert_eq!(response.answers.len(), 1);
    let a = &response.answers[0];
    assert_eq!(a.name.labels, labels("codecrafters.io"));
    assert_eq!(a.record_type, 1);
    assert_eq!(a.class, 1);
    assert_eq!(a.ttl, 60);
    assert_eq!(a.rdlength, 4);
    assert_eq!(a.rdata, vec![8, 8, 8, 8]);

    let out = serialize(&response).unwrap();
    let header = DnsPacketHeader::from_bytes(&out).unwrap();
    assert_eq!(header, response.header);
    let (q_back, next) = Question::from_raw(&out, 12).unwrap();
    assert_eq!(q_back.name.labels, labels("codecrafters.io"));
    let (a_back, end) = Answer::from_raw(&out, next).unwrap();
    assert_eq!(a_back.name.labels, labels("codecrafters.io"));
    assert_eq!(a_back.ttl, 60);
    assert_eq!(a_back.rdata, vec![8, 8, 8, 8]);
    assert_eq!(end, out.len());
}

#[test]
fn non_standard_opcode_end_to_end() {
    let raw = request_bytes(7, 1, &[("example.com", 1, 1)]);
    let request = parse(&raw).unwrap();
    let response = build_response(&request);
    assert_eq!(response.header.response_code, 4);
    assert_eq!(response.header.question_count, 1);
    assert_eq!(response.header.answer_count, 0);
    assert!(response.answers.is_empty());
    assert_eq!(response.questions.len(), 1);

    let out = serialize(&response).unwrap();
    let header = DnsPacketHeader::from_bytes(&out).unwrap();
    assert_eq!(header.response_code, 4);
    assert_eq!(header.answer_count, 0);
    let (_, next) = Question::from_raw(&out, 12).unwrap();
    assert_eq!(next, out.len()); // nothing follows the echoed question
}

#[test]
fn empty_question_boundary() {
    let raw = request_bytes(1, 0, &[]);
    assert_eq!(raw.len(), 12);
    let request = parse(&raw).unwrap();
    assert!(request.questions.is_empty());
    let response = build_response(&request);
    assert_eq!(response.header.response_code, 0);
    assert_eq!(response.header.question_count, 0);
    assert_eq!(response.header.answer_count, 0);
    assert!(response.questions.is_empty());
    assert!(response.answers.is_empty());
    let out = serialize(&response).unwrap();
    assert_eq!(out.len(), 12);
}

#[test]
fn truncated_request_rejected() {
    let raw = [0u8; 11];
    assert_eq!(parse(&raw).err(), Some(DnsError::TruncatedInput));
    let empty: [u8; 0] = [];
    assert_eq!(parse(&empty).err(), Some(DnsError::TruncatedInput));
}

#[test]
fn question_count_without_questions_rejected() {
    let mut raw = request_bytes(1, 0, &[]);
    raw[5] = 2; // claim two questions, supply none
    assert_eq!(parse(&raw).err(), Some(DnsError::TruncatedInput));
}

#[test]
fn malformed_question_aborts_parse() {
    let mut raw = request_bytes(1, 0, &[("ab", 1, 1)]);
    let base = raw.len() - 8;
    raw[base] = 0x40; // reserved label-length pattern
    assert_eq!(parse(&raw).err(), Some(DnsError::MalformedLabel));
}

#[test]
fn two_questions_two_answers() {
    let raw = request_bytes(9, 0, &[("a.b", 1, 1), ("c", 28, 1)]);
    let request = parse(&raw).unwrap();
    let response = build_response(&request);
    assert_eq!(response.header.question_count, 2);
    assert_eq!(response.header.answer_count, 2);
    let out = serialize(&response).unwrap();
    let (q1, n1) = Question::from_raw(&out, 12).unwrap();
    let (q2, n2) = Question::from_raw(&out, n1).unwrap();
    assert_eq!(q1.name.labels, labels("a.b"));
    assert_eq!(q2.name.labels, labels("c"));
    assert_eq!(q2.record_type, 28);
    let (a1, n3) = Answer::from_raw(&out, n2).unwrap();
    let (a2, n4) = Answer::from_raw(&out, n3).unwrap();
    assert_eq!(a1.name.labels, labels("a.b"));
    assert_eq!(a2.name.labels, labels("c"));
    assert_eq!(a2.record_type, 28);
    assert_eq!(n4, out.len());
}

#[test]
fn compressed_question_name_parses() {
    // a hand-built request whose question name points back into the buffer
    let mut raw = request_bytes(3, 0, &[("abc.de", 1, 1)]);
    let q2_start = raw.len();
    raw.push(0xC0);
    raw.push(12); // the first question's name starts right after the header
    raw.extend_from_slice(&[0x00, 0x01, 0x00, 0x01]);
    raw[5] = 2; // two questions now
    let request = parse(&raw).unwrap();
    assert_eq!(request.questions.len(), 2);
    assert_eq!(request.questions[1].name.labels, labels("abc.de"));
    assert!(q2_start > 12);
}

#[test]
fn pointer_loop_in_question_rejected() {
    let mut raw = request_bytes(3, 0, &[]);
    raw[5] = 1; // one question
    raw.push(0xC0);
    raw.push(12); // the question's name points at itself
    raw.extend_from_slice(&[0x00, 0x01, 0x00, 0x01]);
    assert_eq!(parse(&raw).err(), Some(DnsError::CompressionLoop));
}
