use dns_codec::error::DnsError;
use dns_codec::header::DnsPacketHeader;

fn sample_header() -> DnsPacketHeader {
    DnsPacketHeader {
        id: 0x1234,
        qr_indicator: 1,
        opcode: 5,
        authorative_answer: 1,
        truncation: 0,
        recursion_desired: 1,
        recursion_available: 1,
        reserved: 3,
        response_code: 4,
        question_count: 2,
        answer_count: 3,
        authority_count: 4,
        additional_count: 5,
    }
}

#[test]
fn header_to_bytes_exact() {
    let h = DnsPacketHeader {
        id: 0x1234,
        qr_indicator: 1,
        opcode: 0,
        authorative_answer: 0,
        truncation: 0,
        recursion_desired: 1,
        recursion_available: 0,
        reserved: 0,
        response_code: 0,
        question_count: 1,
        answer_count: 1,
        authority_count: 0,
        additional_count: 0,
    };
    let buf = h.to_bytes();
    assert_eq!(
        buf.as_bytes(),
        &[0x12, 0x34, 0x81, 0x00, 0x00, 0x01, 0x00, 0x01, 0x00, 0x00, 0x00, 0x00]
    );
}

#[test]
fn header_round_trip() {
    let h = sample_header();
    let buf = h.to_bytes();
    let back = DnsPacketHeader::from_bytes(buf.as_bytes()).unwrap();
    assert_eq!(back, h);
}

#[test]
fn header_round_trip_all_flag_bits() {
    let h = DnsPacketHeader {
        id: 0xFFFF,
        qr_indicator: 1,
        opcode: 15,
        authorative_answer: 1,
        truncation: 1,
        recursion_desired: 1,
        recursion_available: 1,
        reserved: 7,
        response_code: 15,
        question_count: 0xFFFF,
        answer_count: 0,
        authority_count: 0xFFFF,
        additional_count: 1,
    };
    let buf = h.to_bytes();
    let back = DnsPacketHeader::from_bytes(buf.as_bytes()).unwrap();
    assert_eq!(back, h);
}

#[test]
fn header_from_bytes_exact_fields() {
    let raw = [0xAB, 0xCD, 0x99, 0xB7, 0x00, 0x02, 0x00, 0x03, 0x00, 0x04, 0x00, 0x05];
    let h = DnsPacketHeader::from_bytes(&raw).unwrap();
    assert_eq!(h.id, 0xABCD);
    assert_eq!(h.qr_indicator, 1);
    assert_eq!(h.opcode, 3);
    assert_eq!(h.authorative_answer, 0);
    assert_eq!(h.truncation, 0);
    assert_eq!(h.recursion_desired, 1);
    assert_eq!(h.recursion_available, 1);
    assert_eq!(h.reserved, 3);
    assert_eq!(h.response_code, 7);
    assert_eq!(h.question_count, 2);
    assert_eq!(h.answer_count, 3);
    assert_eq!(h.authority_count, 4);
    assert_eq!(h.additional_count, 5);
}

#[test]
fn header_from_bytes_too_short() {
    let raw = [0u8; 11];
    assert_eq!(
        DnsPacketHeader::from_bytes(&raw),
        Err(DnsError::TruncatedInput)
    );
}
