use dns_codec::error::DnsError;
use dns_codec::name::Name;
use dns_codec::question::{questions_from_raw, Question};
use dns_codec::record::Answer;

fn name_of(labels: &[&[u8]]) -> Name {
    Name {
        labels: labels.iter().map(|l| l.to_vec()).collect(),
    }
}

#[test]
fn question_encode_exact() {
    let q = Question {
        name: name_of(&[b"codecrafters", b"io"]),
        record_type: 1,
        class: 1,
    };
    let buf = q.to_byte_buffer().unwrap();
    assert_eq!(buf.as_bytes(), b"\x0ccodecrafters\x02io\x00\x00\x01\x00\x01");
}

#[test]
fn question_round_trip() {
    let q = Question {
        name: name_of(&[b"example", b"com"]),
        record_type: 0x1C,
        class: 0x0301,
    };
    let buf = q.to_byte_buffer().unwrap();
    let bytes = buf.as_bytes();
    let (back, next) = Question::from_raw(bytes, 0).unwrap();
    assert_eq!(back.name.labels, q.name.labels);
    assert_eq!(back.record_type, q.record_type);
    assert_eq!(back.class, q.class);
    assert_eq!(next, bytes.len());
}

#[test]
fn question_truncated_after_name() {
    // a full name but only three of the four fixed bytes
    let raw = b"\x02io\x00\x00\x01\x00";
    assert_eq!(
        Question::from_raw(raw, 0).err(),
        Some(DnsError::TruncatedInput)
    );
}

#[test]
fn question_encode_rejects_long_label() {
    let long = [b'x'; 64];
    let q = Question {
        name: name_of(&[&long]),
        record_type: 1,
        class: 1,
    };
    assert_eq!(q.to_byte_buffer().err(), Some(DnsError::LabelTooLong));
}

#[test]
fn questions_from_raw_two_entries() {
    let mut raw: Vec<u8> = vec![0xFF; 12]; // stand-in header bytes
    raw.extend_from_slice(b"\x01a\x00\x00\x01\x00\x01");
    raw.extend_from_slice(b"\x01b\x00\x00\x0F\x00\x03");
    let (qs, end) = questions_from_raw(2, &raw, 12).unwrap();
    assert_eq!(qs.len(), 2);
    assert_eq!(qs[0].name.labels, vec![b"a".to_vec()]);
    assert_eq!(qs[0].record_type, 1);
    assert_eq!(qs[0].class, 1);
    assert_eq!(qs[1].name.labels, vec![b"b".to_vec()]);
    assert_eq!(qs[1].record_type, 15);
    assert_eq!(qs[1].class, 3);
    assert_eq!(end, raw.len());
}

#[test]
fn questions_from_raw_count_beyond_buffer() {
    let mut raw: Vec<u8> = vec![0u8; 12];
    raw.extend_from_slice(b"\x01a\x00\x00\x01\x00\x01");
    assert_eq!(
        questions_from_raw(2, &raw, 12).err(),
        Some(DnsError::TruncatedInput)
    );
}

#[test]
fn answer_encode_exact() {
    let a = Answer {
        name: name_of(&[b"io"]),
        record_type: 1,
        class: 1,
        ttl: 60,
        rdlength: 4,
        rdata: vec![8, 8, 8, 8],
    };
    let buf = a.to_byte_buffer().unwrap();
    assert_eq!(
        buf.as_bytes(),
        b"\x02io\x00\x00\x01\x00\x01\x00\x00\x00\x3C\x00\x04\x08\x08\x08\x08"
    );
}

#[test]
fn answer_encode_rdata_length_mismatch() {
    let a = Answer {
        name: name_of(&[b"io"]),
        record_type: 1,
        class: 1,
        ttl: 60,
        rdlength: 5,
        rdata: vec![8, 8, 8, 8],
    };
    assert_eq!(a.to_byte_buffer().err(), Some(DnsError::RdataLengthMismatch));
}

#[test]
fn answer_round_trip() {
    let a = Answer {
        name: name_of(&[b"example", b"com"]),
        record_type: 1,
        class: 1,
        ttl: 0x01020304,
        rdlength: 3,
        rdata: vec![9, 7, 5],
    };
    let buf = a.to_byte_buffer().unwrap();
    let bytes = buf.as_bytes();
    let (back, next) = Answer::from_raw(bytes, 0).unwrap();
    assert_eq!(back.name.labels, a.name.labels);
    assert_eq!(back.record_type, a.record_type);
    assert_eq!(back.class, a.class);
    assert_eq!(back.ttl, a.ttl);
    assert_eq!(back.rdlength, a.rdlength);
    assert_eq!(back.rdata, a.rdata);
    assert_eq!(next, bytes.len());
}

#[test]
fn answer_decode_truncated_rdata() {
    // rdlength claims 4 bytes but only 2 follow
    let raw = b"\x02io\x00\x00\x01\x00\x01\x00\x00\x00\x3C\x00\x04\x08\x08";
    assert_eq!(
        Answer::from_raw(raw, 0).err(),
        Some(DnsError::TruncatedInput)
    );
}
