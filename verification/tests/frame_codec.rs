use grpc_web::frame::{Frame, FrameDecoder, FrameStep, encode_frame, encode_message};
use grpc_web::AdapterError;

fn drain(dec: &mut FrameDecoder) -> Vec<Frame> {
    let mut out = Vec::new();
    loop {
        match dec.next_frame() {
            FrameStep::Ready(f) => out.push(f),
            FrameStep::NeedMoreData => return out,
            FrameStep::Failed(e) => panic!("unexpected failure: {:?}", e),
        }
    }
}

#[test]
fn message_frame_exact_bytes() {
    let payload = vec![1u8, 2, 3];
    let encoded = encode_message(&payload);
    assert_eq!(encoded, vec![0u8, 0, 0, 0, 3, 1, 2, 3]);
}

#[test]
fn trailer_frame_exact_bytes() {
    let encoded = encode_frame(&Frame::Trailer(vec![7u8]));
    assert_eq!(encoded, vec![0x80u8, 0, 0, 0, 1, 7]);
}

#[test]
fn message_frame_round_trip() {
    let payload = b"hello world".to_vec();
    let encoded = encode_message(&payload);
    let mut dec = FrameDecoder::new(1024);
    dec.push(&encoded);
    assert_eq!(dec.next_frame(), FrameStep::Ready(Frame::Message(payload)));
    assert_eq!(dec.next_frame(), FrameStep::NeedMoreData);
}

#[test]
fn trailer_frame_round_trip() {
    let payload = b"grpc-status: 0\r\n".to_vec();
    let encoded = encode_frame(&Frame::Trailer(payload.clone()));
    let mut dec = FrameDecoder::new(1024);
    dec.push(&encoded);
    assert_eq!(dec.next_frame(), FrameStep::Ready(Frame::Trailer(payload)));
}

#[test]
fn empty_payload_round_trip() {
    let encoded = encode_message(&Vec::new());
    assert_eq!(encoded, vec![0u8, 0, 0, 0, 0]);
    let mut dec = FrameDecoder::new(16);
    dec.push(&encoded);
    assert_eq!(dec.next_frame(), FrameStep::Ready(Frame::Message(Vec::new())));
}

#[test]
fn decoder_is_resumable_without_replay() {
    let payload = vec![9u8; 10];
    let encoded = encode_message(&payload);
    let mut dec = FrameDecoder::new(1024);
    dec.push(&encoded[..3].to_vec());
    assert_eq!(dec.next_frame(), FrameStep::NeedMoreData);
    dec.push(&encoded[3..].to_vec());
    assert_eq!(dec.next_frame(), FrameStep::Ready(Frame::Message(payload)));
}

#[test]
fn chunk_boundary_independence_one_byte_chunks() {
    let mut stream = Vec::new();
    stream.extend(encode_message(&b"first".to_vec()));
    stream.extend(encode_message(&b"second".to_vec()));
    stream.extend(encode_frame(&Frame::Trailer(b"grpc-status: 0\r\n".to_vec())));

    let mut whole = FrameDecoder::new(1024);
    whole.push(&stream);
    let all_at_once = drain(&mut whole);

    let mut chunked = FrameDecoder::new(1024);
    let mut one_at_a_time = Vec::new();
    for b in &stream {
        chunked.push(&vec![*b]);
        one_at_a_time.extend(drain(&mut chunked));
    }
    assert_eq!(all_at_once.len(), 3);
    assert_eq!(all_at_once, one_at_a_time);
}

#[test]
fn malformed_flag_is_framing_error() {
    let mut dec = FrameDecoder::new(1024);
    dec.push(&vec![0x40u8, 0, 0, 0, 0]);
    assert_eq!(dec.next_frame(), FrameStep::Failed(AdapterError::Framing));
    // the decoder stays poisoned
    assert_eq!(dec.next_frame(), FrameStep::Failed(AdapterError::Framing));
}

#[test]
fn oversized_length_is_message_too_large() {
    let mut dec = FrameDecoder::new(4);
    dec.push(&vec![0u8, 0, 0, 0, 5]);
    assert_eq!(dec.next_frame(), FrameStep::Failed(AdapterError::MessageTooLarge));
}

#[test]
fn length_at_maximum_is_accepted() {
    let payload = vec![5u8; 4];
    let encoded = encode_message(&payload);
    let mut dec = FrameDecoder::new(4);
    dec.push(&encoded);
    assert_eq!(dec.next_frame(), FrameStep::Ready(Frame::Message(payload)));
}
