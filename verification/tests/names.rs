use dns_codec::error::DnsError;
use dns_codec::name::{domain_to_byte_buffer, u8_to_name, Name};

fn name_of(labels: &[&[u8]]) -> Name {
    Name {
        labels: labels.iter().map(|l| l.to_vec()).collect(),
    }
}

#[test]
fn name_encode_exact() {
    let name = name_of(&[b"codecrafters", b"io"]);
    let buf = domain_to_byte_buffer(&name).unwrap();
    assert_eq!(buf.as_bytes(), b"\x0ccodecrafters\x02io\x00");
}

#[test]
fn name_encode_skips_empty_labels() {
    let name = name_of(&[b"", b"abc", b""]);
    let buf = domain_to_byte_buffer(&name).unwrap();
    assert_eq!(buf.as_bytes(), b"\x03abc\x00");
}

#[test]
fn name_encode_root() {
    let name = name_of(&[]);
    let buf = domain_to_byte_buffer(&name).unwrap();
    assert_eq!(buf.as_bytes(), b"\x00");
}

#[test]
fn name_encode_label_too_long() {
    let long = [b'a'; 64];
    let name = name_of(&[&long]);
    assert_eq!(domain_to_byte_buffer(&name).err(), Some(DnsError::LabelTooLong));
}

#[test]
fn name_encode_name_too_long() {
    let label = [b'a'; 63];
    let name = name_of(&[&label, &label, &label, &label]);
    // four labels of 64 encoded bytes each, plus the terminator: 257 > 255
    assert_eq!(domain_to_byte_buffer(&name).err(), Some(DnsError::NameTooLong));
}

#[test]
fn name_encode_at_limit() {
    let label = [b'a'; 62];
    let short = [b'b'; 2];
    // 3 * 63 + 3 + 62 + 1 = wire length 255 exactly
    let long = [b'c'; 61];
    let name = name_of(&[&label, &label, &label, &short, &long]);
    let buf = domain_to_byte_buffer(&name).unwrap();
    assert_eq!(buf.as_bytes().len(), 255);
}

#[test]
fn name_round_trip() {
    let name = name_of(&[b"codecrafters", b"io"]);
    let buf = domain_to_byte_buffer(&name).unwrap();
    let bytes = buf.as_bytes();
    let (back, used) = u8_to_name(bytes, 0).unwrap();
    assert_eq!(back.labels, name.labels);
    assert_eq!(used, bytes.len());
}

#[test]
fn name_decode_root() {
    let raw = [0u8];
    let (name, used) = u8_to_name(&raw, 0).unwrap();
    assert!(name.labels.is_empty());
    assert_eq!(used, 1);
}

#[test]
fn name_decode_compression_pointer() {
    // "abc.de" spelled at offset 0, then junk, then a pointer back to 0.
    let mut raw: Vec<u8> = b"\x03abc\x02de\x00".to_vec();
    raw.push(0xFF); // unrelated byte between the two names
    let at = raw.len();
    raw.push(0xC0);
    raw.push(0x00);
    let (name, used) = u8_to_name(&raw, at).unwrap();
    assert_eq!(name.labels, vec![b"abc".to_vec(), b"de".to_vec()]);
    assert_eq!(used, 2);
}

#[test]
fn name_decode_labels_then_pointer() {
    // "www" followed by a pointer to "abc.de" at offset 0.
    let mut raw: Vec<u8> = b"\x03abc\x02de\x00".to_vec();
    let at = raw.len();
    raw.extend_from_slice(b"\x03www\xC0\x00");
    let (name, used) = u8_to_name(&raw, at).unwrap();
    assert_eq!(
        name.labels,
        vec![b"www".to_vec(), b"abc".to_vec(), b"de".to_vec()]
    );
    assert_eq!(used, 6); // 1 + 3 for the label, 2 for the pointer
}

#[test]
fn name_decode_mutual_pointers_loop() {
    // A pointer at offset 0 to offset 4, and one at offset 4 back to 0.
    let raw = [0xC0, 0x04, 0x00, 0x00, 0xC0, 0x00];
    assert_eq!(u8_to_name(&raw, 4).err(), Some(DnsError::CompressionLoop));
    assert_eq!(u8_to_name(&raw, 0).err(), Some(DnsError::CompressionLoop));
}

#[test]
fn name_decode_self_pointer_loop() {
    let raw = [0x00, 0xC0, 0x01];
    assert_eq!(u8_to_name(&raw, 1).err(), Some(DnsError::CompressionLoop));
}

#[test]
fn name_decode_forward_pointer_rejected() {
    let raw = [0xC0, 0x02, 0x00];
    assert_eq!(u8_to_name(&raw, 0).err(), Some(DnsError::CompressionLoop));
}

#[test]
fn name_decode_reserved_length_byte() {
    let raw = [0x40, 0x00];
    assert_eq!(u8_to_name(&raw, 0).err(), Some(DnsError::MalformedLabel));
}

#[test]
fn name_decode_non_ascii_label() {
    let raw = [0x01, 0x80, 0x00];
    assert_eq!(u8_to_name(&raw, 0).err(), Some(DnsError::MalformedLabel));
}

#[test]
fn name_decode_truncated_label() {
    let raw = [0x03, b'a'];
    assert_eq!(u8_to_name(&raw, 0).err(), Some(DnsError::TruncatedInput));
}

#[test]
fn name_decode_missing_terminator() {
    let raw = [0x01, b'a'];
    assert_eq!(u8_to_name(&raw, 0).err(), Some(DnsError::TruncatedInput));
}

#[test]
fn name_decode_offset_past_end() {
    let raw = [0x00];
    assert_eq!(u8_to_name(&raw, 5).err(), Some(DnsError::TruncatedInput));
}

#[test]
fn name_decode_truncated_pointer() {
    let raw = [0x00, 0xC0];
    assert_eq!(u8_to_name(&raw, 1).err(), Some(DnsError::TruncatedInput));
}

#[test]
fn name_duplicate_is_deep() {
    let name = name_of(&[b"abc", b"de"]);
    let copy = name.duplicate();
    assert_eq!(copy.labels, name.labels);
}
