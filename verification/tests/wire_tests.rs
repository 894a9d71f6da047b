use mongoproxy::wire::{WireHeader, WireMessage, HEADER_LEN, MAX_MESSAGE_SIZE};

#[test]
fn header_constants() {
    assert_eq!(HEADER_LEN, 16);
    assert_eq!(MAX_MESSAGE_SIZE, 48 * 1024 * 1024);
}

#[test]
fn header_is_read_little_endian() {
    let bytes: Vec<u8> = vec![
        0x2a, 0x00, 0x00, 0x00, 0x01, 0x02, 0x03, 0x04, 0x39, 0x30, 0x00, 0x00, 0xdd, 0x07, 0x00,
        0x00,
    ];
    let header = WireHeader::parse(&bytes).unwrap();
    assert_eq!(header.total_length, 42);
    assert_eq!(header.request_id, 0x04030201);
    assert_eq!(header.response_to, 12345);
    assert_eq!(header.op_code, 2013);
}

#[test]
fn header_fields_are_signed() {
    let bytes: Vec<u8> = vec![
        0xff, 0xff, 0xff, 0xff, 0x00, 0x00, 0x00, 0x80, 0xff, 0xff, 0xff, 0x7f, 0xfe, 0xff, 0xff,
        0xff,
    ];
    let header = WireHeader::parse(&bytes).unwrap();
    assert_eq!(header.total_length, -1);
    assert_eq!(header.request_id, i32::MIN);
    assert_eq!(header.response_to, i32::MAX);
    assert_eq!(header.op_code, -2);
}

#[test]
fn header_needs_sixteen_bytes() {
    let bytes: Vec<u8> = vec![0; 15];
    assert_eq!(WireHeader::parse(&bytes), None);
    assert_eq!(WireHeader::parse(&[]), None);
    let bytes: Vec<u8> = vec![0; 16];
    assert!(WireHeader::parse(&bytes).is_some());
}

#[test]
fn header_ignores_what_follows() {
    let mut bytes: Vec<u8> = vec![16, 0, 0, 0, 1, 0, 0, 0, 0, 0, 0, 0, 1, 0, 0, 0];
    let alone = WireHeader::parse(&bytes).unwrap();
    bytes.extend_from_slice(&[9, 9, 9, 9]);
    assert_eq!(WireHeader::parse(&bytes).unwrap(), alone);
}

#[test]
fn header_bytes_round_trip() {
    let values: [i32; 9] = [0, 1, -1, 16, 255, 256, 65536, i32::MAX, i32::MIN];
    for a in values.iter() {
        for b in values.iter() {
            let header =
                WireHeader { total_length: *a, request_id: *b, response_to: *a, op_code: *b };
            let bytes = header.to_bytes();
            assert_eq!(bytes.len(), 16);
            assert_eq!(&bytes[0..4], &a.to_le_bytes()[..]);
            assert_eq!(&bytes[4..8], &b.to_le_bytes()[..]);
            assert_eq!(WireHeader::parse(&bytes), Some(header));
        }
    }
}

#[test]
fn message_length_counts_the_header() {
    let message = WireMessage::new(7, 0, 2013, vec![1, 2, 3]).unwrap();
    assert_eq!(message.header.total_length, 19);
    assert_eq!(message.header.request_id, 7);
    assert_eq!(message.header.response_to, 0);
    assert_eq!(message.header.op_code, 2013);
    assert_eq!(message.payload, vec![1, 2, 3]);
    let empty = WireMessage::new(1, 2, 3, Vec::new()).unwrap();
    assert_eq!(empty.header.total_length, 16);
}

#[test]
fn message_bytes_are_header_then_payload() {
    let message = WireMessage::new(7, 5, 1, vec![0xaa, 0xbb]).unwrap();
    let bytes = message.to_bytes();
    assert_eq!(
        bytes,
        vec![18, 0, 0, 0, 7, 0, 0, 0, 5, 0, 0, 0, 1, 0, 0, 0, 0xaa, 0xbb]
    );
}
