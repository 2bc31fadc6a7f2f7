use mcproto::buffer::ByteBuf;
use mcproto::connection::{begin_frame, read_packets_buffered, BufferSize};
use mcproto::frame::{build_frame, read_frame, read_frame_body, FrameError};
use mcproto::var::{len_varint, DeserializeError};
use std::io::Write;

fn body_for(id: i32, payload: &[u8]) -> ByteBuf {
    let mut body = ByteBuf::new();
    body.write_var_int(id);
    body.extend_from_slice(payload);
    body
}

fn payload_of(buf: &mut ByteBuf) -> Vec<u8> {
    let n = buf.remaining();
    buf.read_bytes(n).unwrap()
}

#[test]
fn frame_round_trip_uncompressed() {
    let payload = [9, 8, 7, 6, 5];
    let body = body_for(0x00, &payload);
    let frame = build_frame(body.as_slice(), None).unwrap();

    // the declared total length covers exactly the id and the payload
    let mut rd = ByteBuf::from_slice(frame.as_slice());
    let declared = rd.read_var_int().unwrap();
    assert_eq!(declared, len_varint(0x00) + payload.len() as i32);

    let mut rd = ByteBuf::from_slice(frame.as_slice());
    let (id, mut got) = read_frame(&mut rd, false).unwrap();
    assert_eq!(0x00, id);
    assert_eq!(payload.to_vec(), payload_of(&mut got));
    assert!(rd.end());
}

#[test]
fn frame_round_trip_below_threshold() {
    let payload = [1, 2, 3];
    let body = body_for(0x05, &payload);
    let frame = build_frame(body.as_slice(), Some(100)).unwrap();

    // the sub-header is the zero marker: the body went out raw
    let mut rd = ByteBuf::from_slice(frame.as_slice());
    let declared = rd.read_var_int().unwrap();
    assert_eq!(declared, body.len() as i32 + 1);
    assert_eq!(0, rd.read_var_int().unwrap());

    let mut rd = ByteBuf::from_slice(frame.as_slice());
    let (id, mut got) = read_frame(&mut rd, true).unwrap();
    assert_eq!(0x05, id);
    assert_eq!(payload.to_vec(), payload_of(&mut got));
}

#[test]
fn frame_round_trip_compressed() {
    let payload = [7u8; 300];
    let body = body_for(0x02, &payload);
    let frame = build_frame(body.as_slice(), Some(10)).unwrap();

    // the body really was deflated: a run of 300 equal bytes shrinks
    assert!(frame.len() < body.len());

    // the sub-header declares the exact inflated size
    let mut rd = ByteBuf::from_slice(frame.as_slice());
    let _total = rd.read_var_int().unwrap();
    assert_eq!(body.len() as i32, rd.read_var_int().unwrap());

    let mut rd = ByteBuf::from_slice(frame.as_slice());
    let (id, mut got) = read_frame(&mut rd, true).unwrap();
    assert_eq!(0x02, id);
    assert_eq!(payload.to_vec(), payload_of(&mut got));
    assert!(rd.end());
}

#[test]
fn partial_read_reassembly() {
    let payload: Vec<u8> = (0..20).collect();
    let body = body_for(0x07, &payload);
    let frame = build_frame(body.as_slice(), None).unwrap();
    let full = frame.as_slice();
    assert_eq!(22, full.len());

    // only the first 10 bytes have arrived
    let mut buf = ByteBuf::from_slice(&full[..10]);
    let need = begin_frame(&mut buf).unwrap();
    assert_eq!(21, need.len);
    // the prefix declares exactly the missing byte count
    assert_eq!(12, need.missing);

    // pulling exactly those bytes completes the frame: none dropped, none doubled
    buf.extend_from_slice(&full[10..]);
    let (id, mut got) = read_frame_body(&mut buf, need.len, false).unwrap();
    assert_eq!(0x07, id);
    assert_eq!(payload, payload_of(&mut got));
    assert!(buf.end());
}

#[test]
fn two_frames_in_one_chunk() {
    let f1 = build_frame(body_for(0x0B, &[10, 11]).as_slice(), None).unwrap();
    let f2 = build_frame(body_for(0x1F, &[31]).as_slice(), None).unwrap();
    let mut chunk = ByteBuf::new();
    chunk.extend_from_slice(f1.as_slice());
    chunk.extend_from_slice(f2.as_slice());

    let mut packets = read_packets_buffered(&mut chunk, false).unwrap();
    assert_eq!(2, packets.len());
    assert_eq!(0x0B, packets[0].0);
    assert_eq!(vec![10, 11], payload_of(&mut packets[0].1));
    assert_eq!(0x1F, packets[1].0);
    assert_eq!(vec![31], payload_of(&mut packets[1].1));
}

#[test]
fn two_compressed_frames_in_one_chunk() {
    let f1 = build_frame(body_for(0x03, &[1]).as_slice(), Some(100)).unwrap();
    let f2 = build_frame(body_for(0x1F, &[9u8; 200]).as_slice(), Some(100)).unwrap();
    let mut chunk = ByteBuf::new();
    chunk.extend_from_slice(f1.as_slice());
    chunk.extend_from_slice(f2.as_slice());

    let mut packets = read_packets_buffered(&mut chunk, true).unwrap();
    assert_eq!(2, packets.len());
    assert_eq!(0x03, packets[0].0);
    assert_eq!(vec![1], payload_of(&mut packets[0].1));
    assert_eq!(0x1F, packets[1].0);
    assert_eq!(vec![9u8; 200], payload_of(&mut packets[1].1));
    assert!(chunk.end());
}

#[test]
fn frame_error_variants() {
    // a continuation chain of five bytes in the length prefix
    let mut buf = ByteBuf::from_slice(&[0xFF; 5]);
    assert_eq!(
        FrameError::Codec(DeserializeError::VarIntTooBig),
        read_frame(&mut buf, false).unwrap_err()
    );

    // a negative declared length
    let mut buf = ByteBuf::new();
    buf.write_var_int(-1);
    assert_eq!(FrameError::BadLength, read_frame(&mut buf, false).unwrap_err());
    let mut buf = ByteBuf::new();
    buf.write_var_int(-1);
    assert_eq!(FrameError::BadLength, begin_frame(&mut buf).unwrap_err());

    // a frame cut off before its declared length
    let mut buf = ByteBuf::new();
    buf.write_var_int(10);
    buf.extend_from_slice(&[1, 2, 3]);
    assert_eq!(
        FrameError::Codec(DeserializeError::IoError),
        read_frame(&mut buf, false).unwrap_err()
    );

    // a compressed chunk whose deflate data is invalid
    let mut buf = ByteBuf::new();
    buf.write_var_int(7);
    buf.write_var_int(5);
    buf.extend_from_slice(&[0x78, 0x9C, 0xFF, 0xFF, 0xFF, 0xFF]);
    assert_eq!(FrameError::CorruptData, read_frame(&mut buf, true).unwrap_err());
}

#[test]
fn decompression_size_mismatch_is_an_error() {
    let body = body_for(0x02, &[42u8; 64]);
    let mut enc = flate2::write::ZlibEncoder::new(Vec::new(), flate2::Compression::fast());
    enc.write_all(body.as_slice()).unwrap();
    let compressed = enc.finish().unwrap();

    // declare one byte more than the body really inflates to
    let wrong = body.len() as i32 + 1;
    let mut buf = ByteBuf::new();
    buf.write_var_int(compressed.len() as i32 + len_varint(wrong));
    buf.write_var_int(wrong);
    buf.extend_from_slice(compressed.as_slice());
    assert_eq!(FrameError::SizeMismatch, read_frame(&mut buf, true).unwrap_err());
}

#[test]
fn chunk_size_value() {
    assert_eq!(4096, BufferSize::Medium.value());
}
