use serial_link::mxs_decoder::MxsDecoder;
use serial_link::mxs_encoder::MxsEncoder;
use serial_link::mxs_shared::MxsPacketType;

fn data_frame() -> Vec<u8> {
    vec![0xAA, 0x55, 0x04, 0x06, 0x01, 0x00, 0x02, 0x00, 0x03, 0x00]
}

#[test]
fn round_trip_single_frame() {
    // An encoded frame decodes to exactly one packet with the same type and
    // payload; nothing is skipped; the whole frame is drained.
    let payload: Vec<u8> = (0u8..200u8).collect();
    let frame = MxsEncoder::create_data_package(MxsPacketType::Heartbeat, &payload);
    let result = MxsDecoder::filter_buffer(frame.as_slice());
    assert_eq!(result.packets.len(), 1);
    assert_eq!(result.packets[0].packet_type, MxsPacketType::Heartbeat);
    assert_eq!(result.packets[0].data, payload.as_slice());
    assert!(result.skipped_data.is_empty());
    assert_eq!(result.trim_index, payload.len() + 4);
}

#[test]
fn round_trip_empty_payload() {
    let frame = MxsEncoder::create_package(MxsPacketType::End);
    let result = MxsDecoder::filter_buffer(frame.as_slice());
    assert_eq!(frame.as_slice(), &[0xAA, 0x55, 0x02, 0x00]);
    assert_eq!(result.packets.len(), 1);
    assert_eq!(result.packets[0].packet_type, MxsPacketType::End);
    assert!(result.packets[0].data.is_empty());
    assert_eq!(result.trim_index, 4);
}

#[test]
fn single_data_frame() {
    // One whole data frame: one packet, buffer fully consumed.
    let buffer = data_frame();
    let result = MxsDecoder::filter_buffer(&buffer);
    assert_eq!(result.packets.len(), 1);
    assert_eq!(result.packets[0].packet_type, MxsPacketType::Data);
    assert_eq!(result.packets[0].data, &[0x01, 0x00, 0x02, 0x00, 0x03, 0x00]);
    assert!(result.skipped_data.is_empty());
    assert_eq!(result.trim_index, buffer.len());
}

#[test]
fn interleaved_text_and_frame() {
    // Text before the frame is skipped; text after it is retained.
    let mut buffer = b"ABC".to_vec();
    buffer.extend_from_slice(&data_frame());
    buffer.extend_from_slice(b"XYZ");
    let result = MxsDecoder::filter_buffer(&buffer);
    assert_eq!(result.skipped_data, b"ABC");
    assert_eq!(result.packets.len(), 1);
    assert_eq!(result.packets[0].packet_type, MxsPacketType::Data);
    assert_eq!(result.trim_index, 3 + 10);
}

#[test]
fn false_marker_advances_two_bytes() {
    // A marker followed by an unknown type byte: no packet, and the two
    // marker bytes alone are consumed so a genuine frame right after them
    // is still found later.
    let buffer = vec![0xAA, 0x55, 0x09, 0x41, 0x42];
    let result = MxsDecoder::filter_buffer(&buffer);
    assert!(result.packets.is_empty());
    assert_eq!(result.skipped_data, &[0xAA, 0x55]);
    assert_eq!(result.trim_index, 2);
}

#[test]
fn resync_past_false_marker() {
    // A false marker, some junk, then a whole data frame: the one frame is
    // found in a single pass.
    let mut buffer = vec![0xAA, 0x55, 0x00, 0x10, 0x20, 0x30];
    buffer.extend_from_slice(&data_frame());
    let result = MxsDecoder::filter_buffer(&buffer);
    assert_eq!(result.packets.len(), 1);
    assert_eq!(result.packets[0].packet_type, MxsPacketType::Data);
    assert_eq!(result.packets[0].data, &[0x01, 0x00, 0x02, 0x00, 0x03, 0x00]);
    assert_eq!(result.skipped_data, &[0xAA, 0x55]);
    assert_eq!(result.trim_index, buffer.len());
}

#[test]
fn no_marker_keeps_last_byte() {
    // Marker-free text: everything but the final byte is surfaced as
    // skipped text; the final byte might be half a split marker.
    let buffer = b"Hello, world!\n".to_vec();
    let result = MxsDecoder::filter_buffer(&buffer);
    assert!(result.packets.is_empty());
    assert_eq!(result.skipped_data, b"Hello, world!");
    assert_eq!(result.trim_index, buffer.len() - 1);
}

#[test]
fn marker_split_across_reads() {
    // A buffer ending in the first marker byte keeps it for the next read.
    let buffer = vec![0x41, 0x42, 0xAA];
    let result = MxsDecoder::filter_buffer(&buffer);
    assert!(result.packets.is_empty());
    assert_eq!(result.skipped_data, &[0x41, 0x42]);
    assert_eq!(result.trim_index, 2);

    let mut rest = buffer[2..].to_vec();
    rest.extend_from_slice(&data_frame()[1..]);
    let result = MxsDecoder::filter_buffer(&rest);
    assert_eq!(result.packets.len(), 1);
    assert_eq!(result.packets[0].packet_type, MxsPacketType::Data);
}

#[test]
fn truncated_frame_carry_over() {
    // A frame head whose payload is not all there: nothing is emitted and
    // nothing drained; appending the missing bytes completes the frame.
    let frame = data_frame();
    let head = &frame[..7];
    let result = MxsDecoder::filter_buffer(head);
    assert!(result.packets.is_empty());
    assert_eq!(result.trim_index, 0);
    assert!(result.skipped_data.is_empty());

    let whole = frame.clone();
    let result = MxsDecoder::filter_buffer(&whole);
    assert_eq!(result.packets.len(), 1);
    assert_eq!(result.packets[0].data, &frame[4..]);
}

#[test]
fn incomplete_header_retries() {
    // Marker plus type but no size byte: held for the next call.
    let buffer = vec![0x58, 0xAA, 0x55, 0x04];
    let result = MxsDecoder::filter_buffer(&buffer);
    assert!(result.packets.is_empty());
    // The first skipped position is the marker start: the "X" before it is
    // surfaced, the header is kept.
    assert_eq!(result.skipped_data, &[0x58]);
    assert_eq!(result.trim_index, 1);
}

#[test]
fn tail_after_trim_yields_nothing() {
    // Running the decoder on what remains after draining emits no packet
    // again, whatever the buffer held.
    let buffers: Vec<Vec<u8>> = vec![
        data_frame(),
        b"plain text".to_vec(),
        {
            let mut b = data_frame();
            b.extend_from_slice(&data_frame()[..5]);
            b
        },
        vec![0xAA, 0x55, 0x09, 0xAA, 0x55],
    ];
    for buffer in buffers {
        let first = MxsDecoder::filter_buffer(&buffer);
        let remainder = buffer[first.trim_index..].to_vec();
        let packets_before = first.packets.len();
        drop(first);
        let second = MxsDecoder::filter_buffer(&remainder);
        assert!(second.packets.is_empty(), "packets after trim for {:?}", remainder);
        let _ = packets_before;
    }
}

#[test]
fn two_frames_in_one_buffer() {
    let mut buffer = data_frame();
    buffer.extend_from_slice(b"mid");
    let second = MxsEncoder::create_data_package(MxsPacketType::Start, b"ok");
    buffer.extend_from_slice(second.as_slice());
    let result = MxsDecoder::filter_buffer(&buffer);
    assert_eq!(result.packets.len(), 2);
    assert_eq!(result.packets[0].packet_type, MxsPacketType::Data);
    assert_eq!(result.packets[1].packet_type, MxsPacketType::Start);
    assert_eq!(result.packets[1].data, b"ok");
    assert_eq!(result.trim_index, buffer.len());
}

#[test]
fn skipped_text_reconstructed_byte_by_byte() {
    // Feeding marker-free text one byte at a time and draining after each
    // call loses no byte and duplicates none; the last byte may lag one
    // call behind.
    let text = b"The quick brown fox jumps over the lazy dog";
    let mut buffer: Vec<u8> = Vec::new();
    let mut seen: Vec<u8> = Vec::new();
    for &b in text.iter() {
        buffer.push(b);
        let result = MxsDecoder::filter_buffer(&buffer);
        assert!(result.packets.is_empty());
        seen.extend_from_slice(result.skipped_data);
        let trim = result.trim_index;
        drop(result);
        buffer.drain(..trim);
    }
    seen.extend_from_slice(&buffer);
    assert_eq!(seen.as_slice(), text);
}

#[test]
fn payload_may_contain_marker() {
    // The marker value inside a consumed payload is not a frame start.
    let payload = [0xAA, 0x55, 0x04, 0x06, 0x00, 0x00];
    let frame = MxsEncoder::create_data_package(MxsPacketType::Data, &payload);
    let result = MxsDecoder::filter_buffer(frame.as_slice());
    assert_eq!(result.packets.len(), 1);
    assert_eq!(result.packets[0].data, &payload);
    assert_eq!(result.trim_index, 10);
}
