use dns_resolver::cursor::Cursor;
use dns_resolver::header::DNSHeader;
use dns_resolver::name::{decode_name_bytes, encode_dns_name};
use dns_resolver::packet::DNSPacket;
use dns_resolver::question::DNSQuestion;
use dns_resolver::record::{DNSRecord, DNSRecordData};
use dns_resolver::resolver::{build_query, build_query_with_id};
use dns_resolver::{DnsError, IpAddress, CLASS_IN, RECORD_TYPE_A, RECORD_TYPE_NS};

fn header(
    id: u16,
    flags: u16,
    qd: u16,
    an: u16,
    ns: u16,
    ar: u16,
) -> DNSHeader {
    DNSHeader {
        id,
        flags,
        question_count: qd,
        answer_count: an,
        authority_count: ns,
        additional_count: ar,
    }
}

#[test]
fn header_to_bytes_exact() {
    let h = header(0x1234, 0x0100, 1, 0, 0, 0);
    assert_eq!(
        h.to_bytes(),
        vec![0x12, 0x34, 0x01, 0x00, 0x00, 0x01, 0x00, 0x00, 0x00, 0x00, 0x00, 0x00]
    );
}

#[test]
fn header_round_trip() {
    let h = header(0xBEEF, 0x8180, 1, 2, 3, 4);
    let mut cursor = Cursor::new(h.to_bytes());
    let parsed = DNSHeader::from_cursor(&mut cursor).unwrap();
    assert_eq!(parsed, h);
    assert_eq!(cursor.position, 12);
}

#[test]
fn header_truncated_is_malformed() {
    let mut cursor = Cursor::new(vec![0x12, 0x34, 0x00]);
    assert_eq!(
        DNSHeader::from_cursor(&mut cursor),
        Err(DnsError::MalformedMessage)
    );
}

#[test]
fn encode_name_exact() {
    let encoded = encode_dns_name(&b"google.com".to_vec());
    let mut expected = vec![6u8];
    expected.extend_from_slice(b"google");
    expected.push(3);
    expected.extend_from_slice(b"com");
    expected.push(0);
    assert_eq!(encoded, expected);
}

#[test]
fn encode_empty_name() {
    // An empty name is one empty label, then the terminator.
    assert_eq!(encode_dns_name(&Vec::new()), vec![0u8, 0u8]);
}

#[test]
fn name_round_trip_uncompressed() {
    let name = b"www.example.com".to_vec();
    let mut cursor = Cursor::new(encode_dns_name(&name));
    let decoded = decode_name_bytes(&mut cursor).unwrap();
    assert_eq!(decoded, name);
    assert_eq!(cursor.position, name.len() + 2);
}

#[test]
fn name_round_trip_single_label() {
    let name = b"localhost".to_vec();
    let mut cursor = Cursor::new(encode_dns_name(&name));
    assert_eq!(decode_name_bytes(&mut cursor).unwrap(), name);
}

#[test]
fn name_decode_compressed_pointer() {
    // A literal name at offset 0, and at offset 9 a pointer back to it.
    let mut buffer = encode_dns_name(&b"foo.bar".to_vec());
    assert_eq!(buffer.len(), 9);
    buffer.push(0xC0);
    buffer.push(0x00);
    let mut cursor = Cursor::new(buffer);
    cursor.position = 9;
    let decoded = decode_name_bytes(&mut cursor).unwrap();
    assert_eq!(decoded, b"foo.bar".to_vec());
    assert_eq!(cursor.position, 11);
}

#[test]
fn name_decode_labels_then_pointer() {
    // "www" as a literal label whose tail is a pointer to "foo.bar" at 0.
    let mut buffer = encode_dns_name(&b"foo.bar".to_vec());
    buffer.push(3);
    buffer.extend_from_slice(b"www");
    buffer.push(0xC0);
    buffer.push(0x00);
    let mut cursor = Cursor::new(buffer);
    cursor.position = 9;
    assert_eq!(decode_name_bytes(&mut cursor).unwrap(), b"www.foo.bar".to_vec());
    assert_eq!(cursor.position, 15);
}

#[test]
fn name_decode_forward_pointer_is_malformed() {
    // A pointer must lead strictly backwards; a self-pointer is refused.
    let mut cursor = Cursor::new(vec![0xC0, 0x00]);
    assert_eq!(
        decode_name_bytes(&mut cursor),
        Err(DnsError::MalformedMessage)
    );
}

#[test]
fn name_decode_truncated_label_is_malformed() {
    let mut cursor = Cursor::new(vec![3, b'a']);
    assert_eq!(
        decode_name_bytes(&mut cursor),
        Err(DnsError::MalformedMessage)
    );
}

#[test]
fn question_round_trip() {
    let question = DNSQuestion {
        name: encode_dns_name(&b"example.com".to_vec()),
        type_: RECORD_TYPE_A,
        class: CLASS_IN,
    };
    let mut cursor = Cursor::new(question.to_bytes());
    let parsed = DNSQuestion::from_cursor(&mut cursor).unwrap();
    assert_eq!(parsed.name, b"example.com".to_vec());
    assert_eq!(parsed.type_, RECORD_TYPE_A);
    assert_eq!(parsed.class, CLASS_IN);
}

fn record_fixed_fields(bytes: &mut Vec<u8>, type_: u16, class: u16, ttl: u32, dlen: u16) {
    bytes.extend_from_slice(&type_.to_be_bytes());
    bytes.extend_from_slice(&class.to_be_bytes());
    bytes.extend_from_slice(&ttl.to_be_bytes());
    bytes.extend_from_slice(&dlen.to_be_bytes());
}

#[test]
fn record_a_parses_address() {
    let mut bytes = encode_dns_name(&b"example.com".to_vec());
    record_fixed_fields(&mut bytes, RECORD_TYPE_A, CLASS_IN, 300, 4);
    bytes.extend_from_slice(&[93, 184, 216, 34]);
    let end = bytes.len();
    let mut cursor = Cursor::new(bytes);
    let record = DNSRecord::from_cursor(&mut cursor).unwrap();
    assert_eq!(record.name, b"example.com".to_vec());
    assert_eq!(record.type_, RECORD_TYPE_A);
    assert_eq!(record.ttl, 300);
    match record.data {
        Some(DNSRecordData::Address(ip)) => assert_eq!(ip, IpAddress::new(93, 184, 216, 34)),
        _ => panic!("expected an address payload"),
    }
    assert_eq!(cursor.position, end);
}

#[test]
fn record_a_short_payload_is_unexpected_shape() {
    let mut bytes = encode_dns_name(&b"example.com".to_vec());
    record_fixed_fields(&mut bytes, RECORD_TYPE_A, CLASS_IN, 300, 2);
    bytes.extend_from_slice(&[1, 2]);
    let mut cursor = Cursor::new(bytes);
    assert_eq!(
        DNSRecord::from_cursor(&mut cursor),
        Err(DnsError::UnexpectedRecordShape)
    );
}

#[test]
fn record_a_truncated_payload_is_malformed() {
    let mut bytes = encode_dns_name(&b"example.com".to_vec());
    record_fixed_fields(&mut bytes, RECORD_TYPE_A, CLASS_IN, 300, 4);
    bytes.extend_from_slice(&[1, 2]);
    let mut cursor = Cursor::new(bytes);
    assert_eq!(
        DNSRecord::from_cursor(&mut cursor),
        Err(DnsError::MalformedMessage)
    );
}

#[test]
fn record_ns_parses_name_payload() {
    let mut bytes = encode_dns_name(&b"example.com".to_vec());
    record_fixed_fields(&mut bytes, RECORD_TYPE_NS, CLASS_IN, 86400, 0);
    bytes.extend(encode_dns_name(&b"ns1.example.com".to_vec()));
    let end = bytes.len();
    let mut cursor = Cursor::new(bytes);
    let record = DNSRecord::from_cursor(&mut cursor).unwrap();
    match record.data {
        Some(DNSRecordData::Name(name)) => assert_eq!(name, b"ns1.example.com".to_vec()),
        _ => panic!("expected a name payload"),
    }
    assert_eq!(cursor.position, end);
}

#[test]
fn record_other_type_skips_payload() {
    let mut bytes = encode_dns_name(&b"example.com".to_vec());
    record_fixed_fields(&mut bytes, 16, CLASS_IN, 60, 3);
    bytes.extend_from_slice(b"txt");
    let end = bytes.len();
    let mut cursor = Cursor::new(bytes);
    let record = DNSRecord::from_cursor(&mut cursor).unwrap();
    assert!(record.data.is_none());
    assert_eq!(cursor.position, end);
}

#[test]
fn packet_parses_all_sections() {
    let mut bytes = header(7, 0, 1, 1, 0, 0).to_bytes();
    let question = DNSQuestion {
        name: encode_dns_name(&b"example.com".to_vec()),
        type_: RECORD_TYPE_A,
        class: CLASS_IN,
    };
    bytes.extend(question.to_bytes());
    bytes.extend(encode_dns_name(&b"example.com".to_vec()));
    record_fixed_fields(&mut bytes, RECORD_TYPE_A, CLASS_IN, 120, 4);
    bytes.extend_from_slice(&[10, 0, 0, 1]);
    let mut cursor = Cursor::new(bytes);
    let packet = DNSPacket::from_cursor(&mut cursor).unwrap();
    assert_eq!(packet.header.question_count, 1);
    assert_eq!(packet.questions.len(), 1);
    assert_eq!(packet.questions[0].name, b"example.com".to_vec());
    assert_eq!(packet.answers.len(), 1);
    assert_eq!(packet.authorities.len(), 0);
    assert_eq!(packet.additionals.len(), 0);
    match &packet.answers[0].data {
        Some(DNSRecordData::Address(ip)) => assert_eq!(*ip, IpAddress::new(10, 0, 0, 1)),
        _ => panic!("expected an address payload"),
    }
}

#[test]
fn packet_with_lying_count_is_malformed() {
    // The header promises one answer but none follows.
    let bytes = header(7, 0, 0, 1, 0, 0).to_bytes();
    let mut cursor = Cursor::new(bytes);
    assert_eq!(
        DNSPacket::from_cursor(&mut cursor),
        Err(DnsError::MalformedMessage)
    );
}

#[test]
fn build_query_with_id_exact_bytes() {
    let query = build_query_with_id(&b"example.com".to_vec(), RECORD_TYPE_A, false, 0x8298);
    let mut expected = vec![0x82, 0x98, 0, 0, 0, 1, 0, 0, 0, 0, 0, 0];
    expected.extend(encode_dns_name(&b"example.com".to_vec()));
    expected.extend_from_slice(&[0, 1, 0, 1]);
    assert_eq!(query, expected);
}

#[test]
fn build_query_recursion_bit() {
    let query = build_query_with_id(&b"a".to_vec(), RECORD_TYPE_A, true, 1);
    assert_eq!(query[2], 0x01);
    assert_eq!(query[3], 0x00);
}

#[test]
fn build_query_random_id_in_range() {
    let domain = b"example.com".to_vec();
    let query = build_query(&domain, RECORD_TYPE_A, false);
    let id = u16::from_be_bytes([query[0], query[1]]);
    assert!(1 <= id && id < 65535);
    // Apart from the id, the bytes are the deterministic encoding.
    assert_eq!(query, build_query_with_id(&domain, RECORD_TYPE_A, false, id));
}

#[test]
fn name_decode_pointer_with_high_offset_bits() {
    // The name sits at offset 260, so the pointer's first byte carries
    // offset bits above the low eight: 0xC0 | (260 >> 8), then 260 & 0xFF.
    let mut buffer = vec![0u8; 260];
    buffer.extend(encode_dns_name(&b"xy.z".to_vec()));
    let pointer_at = buffer.len();
    buffer.push(0xC1);
    buffer.push(0x04);
    let mut cursor = Cursor::new(buffer);
    cursor.position = pointer_at;
    assert_eq!(decode_name_bytes(&mut cursor).unwrap(), b"xy.z".to_vec());
    assert_eq!(cursor.position, pointer_at + 2);
}

#[test]
fn name_round_trip_long_label() {
    // A 64-byte label is still a literal label: only 0xC0 and above marks
    // a pointer.
    let name = vec![b'a'; 64];
    let mut cursor = Cursor::new(encode_dns_name(&name));
    assert_eq!(decode_name_bytes(&mut cursor).unwrap(), name);
}
