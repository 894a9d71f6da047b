use bytes::Bytes;
use mongoproxy::framer::FrameError;
use mongoproxy::observer::{Observer, ObserverStep, QueueItem};
use mongoproxy::shuttle::{ReadStep, Shuttle, CHUNK, OBSERVER_QUEUE_CAPACITY};
use mongoproxy::wire::{WireHeader, WireMessage, MAX_MESSAGE_SIZE};

fn shuttle_test_stream(len: usize) -> Vec<u8> {
    let mut out = Vec::with_capacity(len);
    let mut x: u32 = 0x1234_5678;
    for _ in 0..len {
        x = x.wrapping_mul(1664525).wrapping_add(1013904223);
        out.push((x >> 24) as u8);
    }
    out
}

#[test]
fn shuttle_constants() {
    assert_eq!(CHUNK, 1024);
    assert_eq!(OBSERVER_QUEUE_CAPACITY, 32);
}

#[test]
fn empty_read_is_eof() {
    let shuttle = Shuttle::new();
    assert!(matches!(shuttle.on_read(&[]), ReadStep::Eof));
}

#[test]
fn chunk_is_forwarded_and_offered() {
    let shuttle = Shuttle::new();
    assert!(shuttle.is_observed());
    let chunk = [1u8, 2, 3, 0, 255];
    match shuttle.on_read(&chunk) {
        ReadStep::Forward { bytes, offer } => {
            assert_eq!(bytes, &chunk[..]);
            let copy = offer.unwrap();
            assert_eq!(&copy[..], &chunk[..]);
        }
        ReadStep::Eof => panic!("a chunk with bytes is no end of stream"),
    }
}

#[test]
fn offer_is_a_copy() {
    let shuttle = Shuttle::new();
    let mut buffer = vec![7u8; 8];
    let copy = match shuttle.on_read(&buffer) {
        ReadStep::Forward { offer, .. } => offer.unwrap(),
        ReadStep::Eof => panic!("a chunk with bytes is no end of stream"),
    };
    buffer[0] = 0;
    assert_eq!(&copy[..], &[7u8; 8][..]);
}

#[test]
fn observer_failure_leaves_forwarding_alone() {
    let mut shuttle = Shuttle::new();
    assert!(shuttle.on_offer_rejected());
    assert!(!shuttle.is_observed());
    let chunk = [9u8, 8, 7];
    match shuttle.on_read(&chunk) {
        ReadStep::Forward { bytes, offer } => {
            assert_eq!(bytes, &chunk[..]);
            assert!(offer.is_none());
        }
        ReadStep::Eof => panic!("a chunk with bytes is no end of stream"),
    }
    assert!(matches!(shuttle.on_read(&[]), ReadStep::Eof));
}

#[test]
fn peer_is_told_once() {
    let mut shuttle = Shuttle::new();
    assert!(shuttle.on_offer_rejected());
    assert!(!shuttle.on_offer_rejected());
    assert!(!shuttle.on_offer_rejected());
}

#[test]
fn echo_one_mebibyte() {
    let stream = shuttle_test_stream(1024 * 1024);
    let mut upstream: Vec<u8> = Vec::new();
    let mut observed: Vec<u8> = Vec::new();
    let client_to_server = Shuttle::new();
    for chunk in stream.chunks(CHUNK) {
        match client_to_server.on_read(chunk) {
            ReadStep::Forward { bytes, offer } => {
                upstream.extend_from_slice(bytes);
                observed.extend_from_slice(&offer.unwrap());
                assert!(observed.len() <= upstream.len());
            }
            ReadStep::Eof => panic!("a chunk with bytes is no end of stream"),
        }
    }
    assert_eq!(upstream, stream);
    assert_eq!(observed, stream);
    let mut downstream: Vec<u8> = Vec::new();
    let server_to_client = Shuttle::new();
    for chunk in upstream.chunks(333) {
        match server_to_client.on_read(chunk) {
            ReadStep::Forward { bytes, .. } => downstream.extend_from_slice(bytes),
            ReadStep::Eof => panic!("a chunk with bytes is no end of stream"),
        }
    }
    assert_eq!(downstream, stream);
    assert!(matches!(server_to_client.on_read(&[]), ReadStep::Eof));
}

#[test]
fn forwarding_is_exact_whatever_the_observer_does() {
    let stream = shuttle_test_stream(10_000);
    for fail_at in 0..12 {
        let mut shuttle = Shuttle::new();
        let mut written: Vec<u8> = Vec::new();
        let mut observed: Vec<u8> = Vec::new();
        let mut notices = 0;
        for (i, chunk) in stream.chunks(997).enumerate() {
            match shuttle.on_read(chunk) {
                ReadStep::Forward { bytes, offer } => {
                    written.extend_from_slice(bytes);
                    if let Some(copy) = offer {
                        if i == fail_at {
                            if shuttle.on_offer_rejected() {
                                notices += 1;
                            }
                        } else {
                            observed.extend_from_slice(&copy);
                        }
                    }
                }
                ReadStep::Eof => panic!("a chunk with bytes is no end of stream"),
            }
        }
        assert_eq!(written, stream);
        assert_eq!(&written[..observed.len()], &observed[..]);
        assert!(notices <= 1);
        assert_eq!(notices == 1, !shuttle.is_observed());
    }
}

#[test]
fn observer_frames_what_the_shuttle_offers() {
    let first = WireMessage::new(1, 0, 2013, vec![1; 100]).unwrap();
    let second = WireMessage::new(2, 0, 2013, vec![2; 150]).unwrap();
    let mut stream = first.to_bytes();
    stream.extend_from_slice(&second.to_bytes());
    let shuttle = Shuttle::new();
    let mut observer = Observer::new(MAX_MESSAGE_SIZE);
    let mut seen: Vec<WireMessage> = Vec::new();
    for chunk in stream.chunks(37) {
        let copy = match shuttle.on_read(chunk) {
            ReadStep::Forward { offer, .. } => offer.unwrap(),
            ReadStep::Eof => panic!("a chunk with bytes is no end of stream"),
        };
        match observer.on_item(Some(QueueItem::Chunk(copy))) {
            ObserverStep::Continue(messages) => seen.extend(messages),
            ObserverStep::Stop(_, _) => panic!("a valid stream does not stop the observer"),
        }
    }
    assert_eq!(seen, vec![first, second]);
    match observer.on_item(None) {
        ObserverStep::Stop(messages, result) => {
            assert!(messages.is_empty());
            assert_eq!(result, Ok(()));
        }
        ObserverStep::Continue(_) => panic!("a closed queue ends the observer"),
    }
}

#[test]
fn observer_stops_on_poison() {
    let mut observer = Observer::new(MAX_MESSAGE_SIZE);
    let step = observer.on_item(Some(QueueItem::Chunk(Bytes::copy_from_slice(&[1, 2, 3]))));
    assert!(matches!(step, ObserverStep::Continue(ref m) if m.is_empty()));
    match observer.on_item(Some(QueueItem::Poison)) {
        ObserverStep::Stop(messages, result) => {
            assert!(messages.is_empty());
            assert_eq!(result, Ok(()));
        }
        ObserverStep::Continue(_) => panic!("poison ends the observer"),
    }
}

#[test]
fn observer_reports_a_stream_cut_inside_a_message() {
    let mut observer = Observer::new(MAX_MESSAGE_SIZE);
    let bytes = WireMessage::new(1, 0, 2013, vec![5; 10]).unwrap().to_bytes();
    let step = observer.on_item(Some(QueueItem::Chunk(Bytes::copy_from_slice(&bytes[..20]))));
    assert!(matches!(step, ObserverStep::Continue(ref m) if m.is_empty()));
    match observer.on_item(None) {
        ObserverStep::Stop(messages, result) => {
            assert!(messages.is_empty());
            assert_eq!(result, Err(FrameError::UnexpectedEof));
        }
        ObserverStep::Continue(_) => panic!("a closed queue ends the observer"),
    }
}

#[test]
fn observer_ends_on_oversize_while_shuttle_goes_on() {
    let header = WireHeader {
        total_length: 256 * 1024 * 1024,
        request_id: 1,
        response_to: 0,
        op_code: 2013,
    };
    let good = WireMessage::new(9, 0, 2013, vec![3; 4]).unwrap();
    let mut stream = good.to_bytes();
    stream.extend_from_slice(&header.to_bytes());
    stream.extend_from_slice(&[0u8; 64]);
    let mut shuttle = Shuttle::new();
    let mut observer = Observer::new(MAX_MESSAGE_SIZE);
    let mut observer_alive = true;
    let mut written: Vec<u8> = Vec::new();
    let mut seen: Vec<WireMessage> = Vec::new();
    let mut ended_with = None;
    for chunk in stream.chunks(16) {
        match shuttle.on_read(chunk) {
            ReadStep::Forward { bytes, offer } => {
                written.extend_from_slice(bytes);
                if let Some(copy) = offer {
                    if observer_alive {
                        match observer.on_item(Some(QueueItem::Chunk(copy))) {
                            ObserverStep::Continue(messages) => seen.extend(messages),
                            ObserverStep::Stop(messages, result) => {
                                seen.extend(messages);
                                ended_with = Some(result);
                                observer_alive = false;
                            }
                        }
                    } else {
                        shuttle.on_offer_rejected();
                    }
                }
            }
            ReadStep::Eof => panic!("a chunk with bytes is no end of stream"),
        }
    }
    assert_eq!(ended_with, Some(Err(FrameError::ProtocolError)));
    assert_eq!(seen, vec![good]);
    assert_eq!(written, stream);
    assert!(!shuttle.is_observed());
    assert!(matches!(shuttle.on_read(&[]), ReadStep::Eof));
}
