use serial_link::data::Data;
use serial_link::worker::{ThreadMsg, process_incoming};

fn data_frame() -> Vec<u8> {
    vec![0xAA, 0x55, 0x04, 0x06, 0x01, 0x00, 0x02, 0x00, 0x03, 0x00]
}

#[test]
fn pure_text_is_printed() {
    // Free-form text comes back as a Print message; no data, no error. The
    // last byte is held back in case a marker spans the read boundary.
    let mut buffer = Vec::new();
    let msgs = process_incoming(&mut buffer, b"Hello, world!\n", false);
    assert_eq!(msgs.len(), 1);
    match &msgs[0] {
        ThreadMsg::Print(s) => assert_eq!(s.as_str(), "Hello, world!"),
        other => panic!("unexpected message: {:?}", other),
    }
    assert_eq!(buffer, b"\n");
}

#[test]
fn single_data_frame_parsed() {
    let mut buffer = Vec::new();
    let msgs = process_incoming(&mut buffer, &data_frame(), false);
    assert_eq!(msgs.len(), 1);
    match &msgs[0] {
        ThreadMsg::Data(d) => assert_eq!(*d, Data(1, 2, 3)),
        other => panic!("unexpected message: {:?}", other),
    }
    assert!(buffer.is_empty());
}

#[test]
fn interleaved_text_then_frame() {
    // "ABC" + frame + "XYZ": the text before the frame and the record come
    // out of the first call in order; the trailing text surfaces once more
    // bytes arrive.
    let mut buffer = Vec::new();
    let mut bytes = b"ABC".to_vec();
    bytes.extend_from_slice(&data_frame());
    bytes.extend_from_slice(b"XYZ");
    let msgs = process_incoming(&mut buffer, &bytes, false);
    assert_eq!(msgs.len(), 2);
    match &msgs[0] {
        ThreadMsg::Print(s) => assert_eq!(s.as_str(), "ABC"),
        other => panic!("unexpected message: {:?}", other),
    }
    match &msgs[1] {
        ThreadMsg::Data(d) => assert_eq!(*d, Data(1, 2, 3)),
        other => panic!("unexpected message: {:?}", other),
    }
    assert_eq!(buffer, b"XYZ");

    let msgs = process_incoming(&mut buffer, b"\n", false);
    assert_eq!(msgs.len(), 1);
    match &msgs[0] {
        ThreadMsg::Print(s) => assert_eq!(s.as_str(), "XYZ"),
        other => panic!("unexpected message: {:?}", other),
    }
    assert_eq!(buffer, b"\n");
}

#[test]
fn split_read_one_byte_at_a_time() {
    // The frame fed one byte per read: nine silent iterations, then the
    // record appears and the buffer is empty.
    let frame = data_frame();
    let mut buffer = Vec::new();
    for &b in &frame[..9] {
        let msgs = process_incoming(&mut buffer, &[b], false);
        assert!(msgs.is_empty(), "no message expected before the frame completes");
    }
    let msgs = process_incoming(&mut buffer, &frame[9..], false);
    assert_eq!(msgs.len(), 1);
    match &msgs[0] {
        ThreadMsg::Data(d) => assert_eq!(*d, Data(1, 2, 3)),
        other => panic!("unexpected message: {:?}", other),
    }
    assert!(buffer.is_empty());
}

#[test]
fn wrong_sized_data_payload_is_an_error() {
    // A Data frame whose payload is not six bytes is consumed but reported
    // as a conversion error.
    let mut buffer = Vec::new();
    let bytes = vec![0xAA, 0x55, 0x04, 0x02, 0x07, 0x08];
    let msgs = process_incoming(&mut buffer, &bytes, false);
    assert_eq!(msgs.len(), 1);
    match &msgs[0] {
        ThreadMsg::Error(e) => assert_eq!(e.as_str(), "Couldn't convert byte stream into data"),
        other => panic!("unexpected message: {:?}", other),
    }
    assert!(buffer.is_empty());
}

#[test]
fn notice_frames_print_their_kind() {
    let mut buffer = Vec::new();
    let mut bytes = vec![0xAA, 0x55, 0x02, 0x00];
    bytes.extend_from_slice(&[0xAA, 0x55, 0x01, 0x00]);
    bytes.extend_from_slice(&[0xAA, 0x55, 0x03, 0x00]);
    bytes.extend_from_slice(&[0xAA, 0x55, 0x05, 0x00]);
    let msgs = process_incoming(&mut buffer, &bytes, false);
    let expected = ["Received: End\n", "Received: Start\n", "Received: Heartbeat\n",
        "Received: Error\n"];
    assert_eq!(msgs.len(), expected.len());
    for (msg, want) in msgs.iter().zip(expected.iter()) {
        match msg {
            ThreadMsg::Print(s) => assert_eq!(s.as_str(), *want),
            other => panic!("unexpected message: {:?}", other),
        }
    }
}

#[test]
fn direct_mode_bypasses_decoder() {
    // In direct mode the whole buffer, frames included, comes back as text
    // and the buffer is cleared.
    let mut buffer = b"previous".to_vec();
    let msgs = process_incoming(&mut buffer, b" and next", true);
    assert_eq!(msgs.len(), 1);
    match &msgs[0] {
        ThreadMsg::Print(s) => assert_eq!(s.as_str(), "previous and next"),
        other => panic!("unexpected message: {:?}", other),
    }
    assert!(buffer.is_empty());
}

#[test]
fn lossy_rendering_of_invalid_utf8() {
    let mut buffer = Vec::new();
    let msgs = process_incoming(&mut buffer, &[0x41, 0xFF, 0x42, 0x43], true);
    assert_eq!(msgs.len(), 1);
    match &msgs[0] {
        ThreadMsg::Print(s) => assert_eq!(s.as_str(), "A\u{FFFD}BC"),
        other => panic!("unexpected message: {:?}", other),
    }
}
