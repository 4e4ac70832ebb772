use chunkdec::model::DecodeError;
use chunkdec::raw::Packet;
use chunkdec::raw::Value;
use chunkdec::raw::parse_stream;

fn packet_eq(a: &Packet, b: &Packet) -> bool {
    a.key == b.key && a.tag == b.tag && a.size == b.size && a.repeat == b.repeat
        && match (&a.value, &b.value) {
            (Value::Raw(x), Value::Raw(y)) => x == y,
            (Value::Nested(x), Value::Nested(y)) => packets_eq(x, y),
            _ => false,
        }
}

fn packets_eq(a: &[Packet], b: &[Packet]) -> bool {
    a.len() == b.len() && a.iter().zip(b.iter()).all(|(x, y)| packet_eq(x, y))
}

/// "TEST" + 'b' + size=1 + repeat=3 + [1,2,3] + one padding byte.
fn example_raw_packet() -> Vec<u8> {
    let mut buf = b"TEST".to_vec();
    buf.push(b'b');
    buf.push(1);
    buf.extend_from_slice(&[0, 3]);
    buf.extend_from_slice(&[1, 2, 3]);
    buf.push(0);
    buf
}

#[test]
fn empty_buffer_decodes_to_empty_stream() {
    let r = parse_stream(&[]).unwrap();
    assert_eq!(r.len(), 0);
}

#[test]
fn single_raw_packet_consumes_twelve_bytes() {
    let buf = example_raw_packet();
    assert_eq!(buf.len(), 12);
    let (p, rest) = Packet::parse(&buf).unwrap();
    assert_eq!(rest.len(), 0);
    assert_eq!(p.key, "TEST");
    assert_eq!(p.tag, 'b');
    assert_eq!(p.size, 1);
    assert_eq!(p.repeat, 3);
    match &p.value {
        Value::Raw(bytes) => assert_eq!(bytes, &vec![1u8, 2, 3]),
        Value::Nested(_) => panic!("expected a raw payload"),
    }
}

#[test]
fn nul_tag_with_empty_payload_is_empty_nested_stream() {
    let mut buf = b"TEST".to_vec();
    buf.push(0); // NUL type tag
    buf.push(0); // size = 0
    buf.extend_from_slice(&[0, 0]); // repeat = 0, so length = 0 and padding = 0
    let (p, rest) = Packet::parse(&buf).unwrap();
    assert_eq!(rest.len(), 0);
    assert_eq!(p.key, "TEST");
    assert_eq!(p.tag, '\0');
    match &p.value {
        Value::Nested(children) => assert_eq!(children.len(), 0),
        Value::Raw(_) => panic!("expected a nested payload"),
    }
}

#[test]
fn truncated_payload_is_incomplete() {
    let mut buf = b"TEST".to_vec();
    buf.push(b'b');
    buf.push(1);
    buf.extend_from_slice(&[0, 3]);
    buf.extend_from_slice(&[1, 2]); // one byte short of the declared 3
    assert_eq!(Packet::parse(&buf).unwrap_err(), DecodeError::Incomplete);
}

#[test]
fn stray_byte_after_valid_packet_is_trailing_bytes() {
    let mut buf = example_raw_packet();
    buf.push(0xFF);
    assert_eq!(parse_stream(&buf).unwrap_err(), DecodeError::TrailingBytes);
}

#[test]
fn illegal_type_byte_is_invalid_type_tag() {
    let mut buf = b"TEST".to_vec();
    buf.push(b'x');
    buf.push(1);
    buf.extend_from_slice(&[0, 3]);
    buf.extend_from_slice(&[1, 2, 3]);
    buf.push(0);
    assert_eq!(Packet::parse(&buf).unwrap_err(), DecodeError::InvalidTypeTag);
}

#[test]
fn decoding_twice_gives_identical_trees() {
    let mut buf = Vec::new();
    // an outer NUL packet holding the 12-byte raw packet, then a raw packet
    buf.extend_from_slice(b"OUTR");
    buf.push(0);
    buf.push(12);
    buf.extend_from_slice(&[0, 1]);
    buf.extend_from_slice(&example_raw_packet());
    buf.extend_from_slice(&example_raw_packet());
    let once = parse_stream(&buf).unwrap();
    let twice = parse_stream(&buf).unwrap();
    assert!(packets_eq(&once, &twice));
}

#[test]
fn nul_packet_decodes_payload_as_nested_stream() {
    let mut buf = Vec::new();
    buf.extend_from_slice(b"OUTR");
    buf.push(0); // NUL type tag
    buf.push(12); // size = 12
    buf.extend_from_slice(&[0, 1]); // repeat = 1, so length = 12, padding = 0
    buf.extend_from_slice(&example_raw_packet());
    let (p, rest) = Packet::parse(&buf).unwrap();
    assert_eq!(rest.len(), 0);
    assert_eq!(p.key, "OUTR");
    assert_eq!(p.tag, '\0');
    match &p.value {
        Value::Nested(children) => {
            assert_eq!(children.len(), 1);
            assert_eq!(children[0].key, "TEST");
            assert_eq!(children[0].tag, 'b');
            match &children[0].value {
                Value::Raw(bytes) => assert_eq!(bytes, &vec![1u8, 2, 3]),
                Value::Nested(_) => panic!("expected a raw payload inside"),
            }
        },
        Value::Raw(_) => panic!("expected a nested payload"),
    }
}

#[test]
fn garbage_under_nul_tag_is_malformed_nested_payload() {
    let mut buf = Vec::new();
    buf.extend_from_slice(b"OUTR");
    buf.push(0);
    buf.push(4); // size = 4
    buf.extend_from_slice(&[0, 1]); // repeat = 1, so length = 4, padding = 0
    buf.extend_from_slice(&[0xFF, 0xFF, 0xFF, 0xFF]);
    assert_eq!(Packet::parse(&buf).unwrap_err(), DecodeError::MalformedNestedPayload);
}

#[test]
fn nested_trailing_byte_is_malformed_nested_payload() {
    let mut buf = Vec::new();
    buf.extend_from_slice(b"OUTR");
    buf.push(0);
    buf.push(13); // size = 13
    buf.extend_from_slice(&[0, 1]); // repeat = 1: 12-byte packet plus a stray byte
    buf.extend_from_slice(&example_raw_packet());
    buf.push(0x7F);
    buf.extend_from_slice(&[0, 0, 0]); // padding of the outer packet: (4 - 13 % 4) % 4 = 3
    assert_eq!(Packet::parse(&buf).unwrap_err(), DecodeError::MalformedNestedPayload);
}

#[test]
fn repeat_count_is_big_endian() {
    let mut buf = b"TEST".to_vec();
    buf.push(b's');
    buf.push(1);
    buf.extend_from_slice(&[1, 2]); // repeat = 0x0102 = 258
    buf.extend_from_slice(&vec![0xAB; 258]);
    buf.extend_from_slice(&[0, 0]); // padding: (4 - 258 % 4) % 4 = 2
    let (p, rest) = Packet::parse(&buf).unwrap();
    assert_eq!(rest.len(), 0);
    assert_eq!(p.repeat, 258);
    match &p.value {
        Value::Raw(bytes) => assert_eq!(bytes.len(), 258),
        Value::Nested(_) => panic!("expected a raw payload"),
    }
}

#[test]
fn zero_size_yields_empty_raw_payload() {
    let mut buf = b"ZERO".to_vec();
    buf.push(b'q');
    buf.push(0);
    buf.extend_from_slice(&[0, 5]); // repeat = 5, but length = 0, padding = 0
    let (p, rest) = Packet::parse(&buf).unwrap();
    assert_eq!(rest.len(), 0);
    assert_eq!(p.size, 0);
    assert_eq!(p.repeat, 5);
    match &p.value {
        Value::Raw(bytes) => assert_eq!(bytes.len(), 0),
        Value::Nested(_) => panic!("expected a raw payload"),
    }
}

#[test]
fn aligned_payload_needs_no_padding() {
    let mut buf = b"QUAD".to_vec();
    buf.push(b'l');
    buf.push(1);
    buf.extend_from_slice(&[0, 4]); // length = 4, padding = 0
    buf.extend_from_slice(&[9, 8, 7, 6]);
    let (p, rest) = Packet::parse(&buf).unwrap();
    assert_eq!(rest.len(), 0);
    match &p.value {
        Value::Raw(bytes) => assert_eq!(bytes, &vec![9u8, 8, 7, 6]),
        Value::Nested(_) => panic!("expected a raw payload"),
    }
}

#[test]
fn one_byte_payload_takes_three_padding_bytes() {
    let mut buf = b"PAD3".to_vec();
    buf.push(b'c');
    buf.push(1);
    buf.extend_from_slice(&[0, 1]); // length = 1, padding = 3
    buf.push(42);
    buf.extend_from_slice(&[0xEE, 0xEE, 0xEE]); // padding content is not validated
    let stream = parse_stream(&buf).unwrap();
    assert_eq!(stream.len(), 1);
    match &stream[0].value {
        Value::Raw(bytes) => assert_eq!(bytes, &vec![42u8]),
        Value::Nested(_) => panic!("expected a raw payload"),
    }
}

#[test]
fn missing_padding_is_incomplete() {
    let mut buf = b"PAD3".to_vec();
    buf.push(b'c');
    buf.push(1);
    buf.extend_from_slice(&[0, 1]);
    buf.push(42); // payload complete, but the 3 padding bytes are missing
    assert_eq!(Packet::parse(&buf).unwrap_err(), DecodeError::Incomplete);
}

#[test]
fn header_alone_is_incomplete() {
    assert_eq!(Packet::parse(b"TEST").unwrap_err(), DecodeError::Incomplete);
    assert_eq!(Packet::parse(&[]).unwrap_err(), DecodeError::Incomplete);
}

#[test]
fn key_is_decoded_as_latin1() {
    let mut buf = vec![0x54, 0xE9, 0x73, 0x74]; // "Tést" in Latin-1
    buf.push(b'b');
    buf.push(0);
    buf.extend_from_slice(&[0, 0]);
    let (p, _) = Packet::parse(&buf).unwrap();
    assert_eq!(p.key, "T\u{e9}st");
    assert_eq!(p.key.chars().count(), 4);
}

#[test]
fn illegal_tag_reported_before_missing_size_fields() {
    let mut buf = b"TEST".to_vec();
    buf.push(b'x'); // 5 bytes: the tag is read, and judged, before size and repeat
    assert_eq!(Packet::parse(&buf).unwrap_err(), DecodeError::InvalidTypeTag);
    let mut legal = b"TEST".to_vec();
    legal.push(b'b'); // legal tag, but size and repeat are missing
    assert_eq!(Packet::parse(&legal).unwrap_err(), DecodeError::Incomplete);
}

#[test]
fn question_mark_is_a_legal_tag() {
    let mut buf = b"WHAT".to_vec();
    buf.push(b'?');
    buf.push(0);
    buf.extend_from_slice(&[0, 0]);
    let (p, rest) = Packet::parse(&buf).unwrap();
    assert_eq!(rest.len(), 0);
    assert_eq!(p.tag, '?');
}

#[test]
fn two_packets_in_order() {
    let mut buf = Vec::new();
    let mut second = b"NEXT".to_vec();
    second.push(b'B');
    second.push(2);
    second.extend_from_slice(&[0, 1]); // length = 2, padding = 2
    second.extend_from_slice(&[5, 6]);
    second.extend_from_slice(&[0, 0]);
    buf.extend_from_slice(&example_raw_packet());
    buf.extend_from_slice(&second);
    let stream = parse_stream(&buf).unwrap();
    assert_eq!(stream.len(), 2);
    assert_eq!(stream[0].key, "TEST");
    assert_eq!(stream[1].key, "NEXT");
    assert_eq!(stream[1].tag, 'B');
    assert_eq!(stream[1].size, 2);
    assert_eq!(stream[1].repeat, 1);
}
