use std::io::Write;

use mongoproxy::compression::{
    accept_inflated, decode_compressed, decode_inflated, inflate, COMPRESSOR_NOOP,
    COMPRESSOR_SNAPPY, COMPRESSOR_ZLIB, COMPRESSOR_ZSTD,
};
use mongoproxy::decoder::{
    decode, decode_payload, CompressedEnvelope, DecodedMessage, OpKind, OP_COMPRESSED, OP_MSG,
    OP_QUERY,
};
use mongoproxy::wire::{WireMessage, MAX_MESSAGE_SIZE};

fn compression_test_find() -> Vec<u8> {
    let mut body = vec![0x02];
    body.extend_from_slice(b"find\0");
    body.extend_from_slice(&6i32.to_le_bytes());
    body.extend_from_slice(b"users\0");
    body.push(0x02);
    body.extend_from_slice(b"$db\0");
    body.extend_from_slice(&5i32.to_le_bytes());
    body.extend_from_slice(b"test\0");
    body.push(0x02);
    body.extend_from_slice(b"comment\0");
    body.extend_from_slice(&201i32.to_le_bytes());
    body.extend_from_slice(&[b'a'; 200]);
    body.push(0);
    body.push(0);
    let mut payload = vec![0, 0, 0, 0, 0];
    payload.extend_from_slice(&((body.len() + 4) as i32).to_le_bytes());
    payload.extend_from_slice(&body);
    payload
}

fn compression_test_envelope(opcode: i32, size: i32, id: u8, data: &[u8]) -> Vec<u8> {
    let mut out = opcode.to_le_bytes().to_vec();
    out.extend_from_slice(&size.to_le_bytes());
    out.push(id);
    out.extend_from_slice(data);
    out
}

fn compression_test_snappy(payload: &[u8]) -> Vec<u8> {
    snap::raw::Encoder::new().compress_vec(payload).unwrap()
}

fn compression_test_zlib(payload: &[u8]) -> Vec<u8> {
    let mut encoder = flate2::write::ZlibEncoder::new(Vec::new(), flate2::Compression::default());
    encoder.write_all(payload).unwrap();
    encoder.finish().unwrap()
}

fn compression_test_zstd(payload: &[u8]) -> Vec<u8> {
    ruzstd::encoding::compress_to_vec(payload, ruzstd::encoding::CompressionLevel::Fastest)
}

fn compression_test_expected() -> DecodedMessage {
    DecodedMessage {
        command: Some(b"find".to_vec()),
        collection: Some(b"users".to_vec()),
        database: Some(b"test".to_vec()),
        ..DecodedMessage::bare(OpKind::Msg)
    }
}

#[test]
fn compressor_identifiers() {
    assert_eq!(COMPRESSOR_NOOP, 0);
    assert_eq!(COMPRESSOR_SNAPPY, 1);
    assert_eq!(COMPRESSOR_ZLIB, 2);
    assert_eq!(COMPRESSOR_ZSTD, 3);
}

#[test]
fn plain_message_is_the_baseline() {
    let inner = compression_test_find();
    assert_eq!(decode_payload(OP_MSG, &inner), compression_test_expected());
}

#[test]
fn snappy_message_is_opened() {
    let inner = compression_test_find();
    let data = compression_test_snappy(&inner);
    assert!(data.len() < inner.len());
    let payload = compression_test_envelope(OP_MSG, inner.len() as i32, 1, &data);
    assert_eq!(decode_compressed(&payload, MAX_MESSAGE_SIZE), compression_test_expected());
    let message = WireMessage::new(1, 0, OP_COMPRESSED, payload).unwrap();
    assert_eq!(decode(&message), compression_test_expected());
}

#[test]
fn zlib_message_is_opened() {
    let inner = compression_test_find();
    let data = compression_test_zlib(&inner);
    assert!(data.len() < inner.len());
    let payload = compression_test_envelope(OP_MSG, inner.len() as i32, 2, &data);
    assert_eq!(decode_compressed(&payload, MAX_MESSAGE_SIZE), compression_test_expected());
    let message = WireMessage::new(1, 0, OP_COMPRESSED, payload).unwrap();
    assert_eq!(decode(&message), compression_test_expected());
}

#[test]
fn zstd_message_is_opened() {
    let inner = compression_test_find();
    let data = compression_test_zstd(&inner);
    let payload = compression_test_envelope(OP_MSG, inner.len() as i32, 3, &data);
    assert_eq!(decode_compressed(&payload, MAX_MESSAGE_SIZE), compression_test_expected());
    let message = WireMessage::new(1, 0, OP_COMPRESSED, payload).unwrap();
    assert_eq!(decode(&message), compression_test_expected());
}

#[test]
fn zstd_frame_written_by_hand() {
    let inner = b"hello, world";
    let mut frame = vec![0x28, 0xb5, 0x2f, 0xfd, 0x20, inner.len() as u8];
    let block = ((inner.len() as u32) << 3) | 1;
    frame.extend_from_slice(&block.to_le_bytes()[..3]);
    frame.extend_from_slice(inner);
    let envelope = CompressedEnvelope {
        original_opcode: OP_MSG,
        uncompressed_size: inner.len() as i32,
        compressor_id: COMPRESSOR_ZSTD,
    };
    assert_eq!(inflate(&envelope, &frame, 100), Some(inner.to_vec()));
}

#[test]
fn uncompressed_message_in_an_envelope() {
    let inner = compression_test_find();
    let payload = compression_test_envelope(OP_MSG, inner.len() as i32, 0, &inner);
    assert_eq!(decode_compressed(&payload, MAX_MESSAGE_SIZE), compression_test_expected());
}

#[test]
fn legacy_message_inside() {
    let mut inner = vec![0, 0, 0, 0];
    inner.extend_from_slice(b"shop.orders\0");
    inner.extend_from_slice(&[0; 40]);
    for (id, data) in [
        (0u8, inner.clone()),
        (1u8, compression_test_snappy(&inner)),
        (2u8, compression_test_zlib(&inner)),
        (3u8, compression_test_zstd(&inner)),
    ]
    .iter()
    {
        let payload = compression_test_envelope(OP_QUERY, inner.len() as i32, *id, data);
        let d = decode_compressed(&payload, MAX_MESSAGE_SIZE);
        assert_eq!(d.op, OpKind::Query);
        assert_eq!(d.collection, Some(b"shop.orders".to_vec()));
    }
}

#[test]
fn inflate_gives_back_what_was_compressed() {
    let inner: Vec<u8> = (0..5000u32).map(|i| (i * i % 251) as u8).collect();
    for (id, data) in [
        (0u8, inner.clone()),
        (1u8, compression_test_snappy(&inner)),
        (2u8, compression_test_zlib(&inner)),
        (3u8, compression_test_zstd(&inner)),
    ]
    .iter()
    {
        let envelope = CompressedEnvelope {
            original_opcode: OP_MSG,
            uncompressed_size: inner.len() as i32,
            compressor_id: *id,
        };
        assert_eq!(inflate(&envelope, data, MAX_MESSAGE_SIZE), Some(inner.clone()));
        if *id != COMPRESSOR_ZSTD {
            assert_eq!(inflate(&envelope, data, inner.len()), Some(inner.clone()));
        }
        assert_eq!(inflate(&envelope, data, inner.len() - 1), None);
    }
}

#[test]
fn zstd_window_counts_against_the_ceiling() {
    let inner = b"hello, world";
    let mut frame = vec![0x28, 0xb5, 0x2f, 0xfd, 0x00, 0x00];
    let block = ((inner.len() as u32) << 3) | 1;
    frame.extend_from_slice(&block.to_le_bytes()[..3]);
    frame.extend_from_slice(inner);
    let envelope = CompressedEnvelope {
        original_opcode: OP_MSG,
        uncompressed_size: inner.len() as i32,
        compressor_id: COMPRESSOR_ZSTD,
    };
    assert_eq!(inflate(&envelope, &frame, 1024), Some(inner.to_vec()));
    assert_eq!(inflate(&envelope, &frame, 1023), None);
    assert_eq!(inflate(&envelope, &frame, MAX_MESSAGE_SIZE), Some(inner.to_vec()));
}

#[test]
fn announced_length_must_be_the_true_one() {
    let inner = compression_test_find();
    let none = DecodedMessage::bare(OpKind::Compressed);
    for (id, data) in [
        (0u8, inner.clone()),
        (1u8, compression_test_snappy(&inner)),
        (2u8, compression_test_zlib(&inner)),
        (3u8, compression_test_zstd(&inner)),
    ]
    .iter()
    {
        for size in [inner.len() as i32 - 1, inner.len() as i32 + 1, 0, -1, i32::MAX].iter() {
            let payload = compression_test_envelope(OP_MSG, *size, *id, data);
            assert_eq!(decode_compressed(&payload, MAX_MESSAGE_SIZE), none);
        }
    }
}

#[test]
fn nothing_is_opened_beyond_the_ceiling() {
    let inner = compression_test_find();
    let data = compression_test_zlib(&inner);
    let payload = compression_test_envelope(OP_MSG, inner.len() as i32, 2, &data);
    assert_eq!(decode_compressed(&payload, inner.len()), compression_test_expected());
    assert_eq!(
        decode_compressed(&payload, inner.len() - 1),
        DecodedMessage::bare(OpKind::Compressed)
    );
    assert_eq!(decode_compressed(&payload, 0), DecodedMessage::bare(OpKind::Compressed));
}

#[test]
fn unknown_compressor_opens_nothing() {
    let inner = compression_test_find();
    for id in [4u8, 5, 100, 255].iter() {
        let payload = compression_test_envelope(OP_MSG, inner.len() as i32, *id, &inner);
        assert_eq!(
            decode_compressed(&payload, MAX_MESSAGE_SIZE),
            DecodedMessage::bare(OpKind::Compressed)
        );
    }
}

#[test]
fn damaged_data_opens_nothing() {
    let inner = compression_test_find();
    let none = DecodedMessage::bare(OpKind::Compressed);
    for (id, data) in [
        (1u8, compression_test_snappy(&inner)),
        (2u8, compression_test_zlib(&inner)),
        (3u8, compression_test_zstd(&inner)),
    ]
    .iter()
    {
        let cut = &data[..data.len() / 2];
        let payload = compression_test_envelope(OP_MSG, inner.len() as i32, *id, cut);
        assert_eq!(decode_compressed(&payload, MAX_MESSAGE_SIZE), none);
        let payload = compression_test_envelope(OP_MSG, inner.len() as i32, *id, &[]);
        assert_eq!(decode_compressed(&payload, MAX_MESSAGE_SIZE), none);
        let payload = compression_test_envelope(OP_MSG, inner.len() as i32, *id, &[0xff; 64]);
        assert_eq!(decode_compressed(&payload, MAX_MESSAGE_SIZE), none);
    }
}

#[test]
fn compressor_is_not_guessed() {
    let inner = compression_test_find();
    let data = compression_test_snappy(&inner);
    for id in [0u8, 2, 3].iter() {
        let payload = compression_test_envelope(OP_MSG, inner.len() as i32, *id, &data);
        assert_eq!(
            decode_compressed(&payload, MAX_MESSAGE_SIZE),
            DecodedMessage::bare(OpKind::Compressed)
        );
    }
}

#[test]
fn payload_shorter_than_an_envelope() {
    let none = DecodedMessage::bare(OpKind::Compressed);
    assert_eq!(decode_compressed(&[], MAX_MESSAGE_SIZE), none);
    assert_eq!(decode_compressed(&[0xdd, 0x07, 0, 0, 0, 0, 0, 0], MAX_MESSAGE_SIZE), none);
    let empty = compression_test_envelope(OP_MSG, 0, 0, &[]);
    assert_eq!(decode_compressed(&empty, MAX_MESSAGE_SIZE), DecodedMessage::bare(OpKind::Msg));
}

#[test]
fn compressed_inside_compressed_is_not_opened() {
    let inner = compression_test_find();
    let first = compression_test_envelope(OP_MSG, inner.len() as i32, 0, &inner);
    let second = compression_test_envelope(OP_COMPRESSED, first.len() as i32, 0, &first);
    assert_eq!(
        decode_compressed(&second, MAX_MESSAGE_SIZE),
        DecodedMessage::bare(OpKind::Compressed)
    );
}

#[test]
fn summary_of_what_was_decompressed() {
    let inner = compression_test_find();
    let envelope = CompressedEnvelope {
        original_opcode: OP_MSG,
        uncompressed_size: inner.len() as i32,
        compressor_id: COMPRESSOR_SNAPPY,
    };
    assert_eq!(decode_inflated(&envelope, Some(inner.clone())), compression_test_expected());
    assert_eq!(decode_inflated(&envelope, None), DecodedMessage::bare(OpKind::Compressed));
    let unknown = CompressedEnvelope { original_opcode: 7, ..envelope };
    assert_eq!(decode_inflated(&unknown, Some(inner.clone())), DecodedMessage::bare(OpKind::Unknown(7)));
    let nested = CompressedEnvelope { original_opcode: OP_COMPRESSED, ..envelope };
    assert_eq!(decode_inflated(&nested, Some(inner)), DecodedMessage::bare(OpKind::Compressed));
}

#[test]
fn result_of_a_compressor_is_checked() {
    assert_eq!(accept_inflated(Some(vec![1, 2, 3]), 3), Some(vec![1, 2, 3]));
    assert_eq!(accept_inflated(Some(vec![1, 2, 3]), 2), None);
    assert_eq!(accept_inflated(Some(vec![1, 2, 3]), 4), None);
    assert_eq!(accept_inflated(Some(Vec::new()), 0), Some(Vec::new()));
    assert_eq!(accept_inflated(None, 0), None);
}

#[test]
fn snappy_data_must_agree_with_the_envelope() {
    let inner = vec![7u8; 100];
    let data = compression_test_snappy(&inner);
    let envelope = CompressedEnvelope {
        original_opcode: OP_MSG,
        uncompressed_size: 100,
        compressor_id: COMPRESSOR_SNAPPY,
    };
    assert_eq!(inflate(&envelope, &data, 1000), Some(inner));
    let mut lying = data.clone();
    lying[0] = 99;
    assert_eq!(inflate(&envelope, &lying, 1000), None);
    let short = CompressedEnvelope { uncompressed_size: 99, ..envelope };
    assert_eq!(inflate(&short, &lying, 1000), None);
}
