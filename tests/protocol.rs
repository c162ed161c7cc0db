use frakt::codec::{frame_message, parse_frame_header, read_message_raw, FrameHeader};
use frakt::error::FraktError;
use frakt::models::PixelIntensity;
use frakt::payload::decode_pixels;

#[test]
fn frame_round_trip_with_payload() {
    let json = br#"{"FragmentRequest":{"worker_name":"w","maximal_work_load":500}}"#.to_vec();
    let data: Vec<u8> = (0..=255u8).collect();
    let frame = frame_message(&json, Some(&data));
    assert_eq!(frame.len(), 8 + json.len() + data.len());
    let total = (json.len() + data.len()) as u32;
    assert_eq!(&frame[0..4], &total.to_be_bytes());
    assert_eq!(&frame[4..8], &(json.len() as u32).to_be_bytes());
    let m = read_message_raw(&frame).unwrap();
    assert_eq!(m.message_length, total);
    assert_eq!(m.json_length, json.len() as u32);
    assert_eq!(m.json_message, json);
    assert_eq!(m.data, data);
}

#[test]
fn frame_round_trip_without_payload() {
    let json = b"{}".to_vec();
    let frame = frame_message(&json, None);
    assert_eq!(frame, vec![0, 0, 0, 2, 0, 0, 0, 2, b'{', b'}']);
    let m = read_message_raw(&frame).unwrap();
    assert_eq!(m.json_message, json);
    assert!(m.data.is_empty());
}

#[test]
fn frame_round_trip_one_mebibyte() {
    let json = b"{\"a\":1}".to_vec();
    let data: Vec<u8> = (0..1024 * 1024).map(|i| (i % 251) as u8).collect();
    let frame = frame_message(&json, Some(&data));
    let m = read_message_raw(&frame).unwrap();
    assert_eq!(m.json_message, json);
    assert_eq!(m.data, data);
}

#[test]
fn json_longer_than_frame_is_protocol_error() {
    let mut bytes = Vec::new();
    bytes.extend_from_slice(&10u32.to_be_bytes());
    bytes.extend_from_slice(&20u32.to_be_bytes());
    assert_eq!(parse_frame_header(&bytes), Err(FraktError::Protocol));
    assert!(matches!(read_message_raw(&bytes), Err(FraktError::Protocol)));
}

#[test]
fn short_frames_are_transport_errors() {
    assert!(matches!(read_message_raw(&[0, 0, 0]), Err(FraktError::Transport)));
    let mut bytes = Vec::new();
    bytes.extend_from_slice(&10u32.to_be_bytes());
    bytes.extend_from_slice(&4u32.to_be_bytes());
    bytes.extend_from_slice(b"{}{}");
    assert!(matches!(read_message_raw(&bytes), Err(FraktError::Transport)));
    assert_eq!(
        parse_frame_header(&bytes),
        Ok(FrameHeader { message_length: 10, json_length: 4 })
    );
}

#[test]
fn pixels_decode_after_offset() {
    let mut data = vec![0u8; 16];
    data.extend_from_slice(&1.5f32.to_be_bytes());
    data.extend_from_slice(&7.0f32.to_be_bytes());
    let px = decode_pixels(&data, 16).unwrap();
    assert_eq!(px, vec![PixelIntensity::new(1.5f32.to_bits(), 7.0f32.to_bits())]);
}

#[test]
fn misaligned_pixels_are_protocol_errors() {
    let data = vec![0u8; 16 + 7];
    assert!(matches!(decode_pixels(&data, 16), Err(FraktError::Protocol)));
    assert!(matches!(decode_pixels(&data, 40), Err(FraktError::Protocol)));
}

#[test]
fn task_frame_carries_zero_signature() {
    let json = b"{\"FragmentTask\":{}}".to_vec();
    let frame = frakt::codec::frame_with_signature(&json);
    let m = read_message_raw(&frame).unwrap();
    assert_eq!(m.message_length as usize, json.len() + 16);
    assert_eq!(m.json_message, json);
    assert_eq!(m.data, vec![0u8; 16]);
}
