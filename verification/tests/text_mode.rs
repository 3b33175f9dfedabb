use grpc_web::text::{Base64Encoder, Base64Decoder};
use grpc_web::AdapterError;

#[test]
fn encode_known_values() {
    let mut enc = Base64Encoder::new();
    let out = enc.push(&b"Man".to_vec());
    assert_eq!(out, b"TWFu".to_vec());
    assert_eq!(enc.finish(), Vec::<u8>::new());
}

#[test]
fn encode_pads_one_leftover_byte() {
    let mut enc = Base64Encoder::new();
    let out = enc.push(&b"M".to_vec());
    assert_eq!(out, Vec::<u8>::new());
    assert_eq!(enc.finish(), b"TQ==".to_vec());
}

#[test]
fn encode_pads_two_leftover_bytes() {
    let mut enc = Base64Encoder::new();
    let out = enc.push(&b"Ma".to_vec());
    assert_eq!(out, Vec::<u8>::new());
    assert_eq!(enc.finish(), b"TWE=".to_vec());
}

#[test]
fn encode_buffers_across_chunks() {
    // "Manx" split as "Ma" + "nx": the first push holds both bytes
    // back, the second completes one group and holds one byte.
    let mut enc = Base64Encoder::new();
    let mut out = enc.push(&b"Ma".to_vec());
    assert_eq!(out, Vec::<u8>::new());
    out = enc.push(&b"nx".to_vec());
    assert_eq!(out, b"TWFu".to_vec());
    assert_eq!(enc.finish(), b"eA==".to_vec());
}

#[test]
fn decode_round_trips_all_lengths() {
    for len in 0..50usize {
        let bytes: Vec<u8> = (0..len as u8).map(|b| b.wrapping_mul(37).wrapping_add(11)).collect();
        let mut enc = Base64Encoder::new();
        let mut text = enc.push(&bytes);
        text.extend(enc.finish());
        let mut dec = Base64Decoder::new();
        let out = dec.push(&text).expect("valid base64");
        assert!(dec.finish().is_ok());
        assert_eq!(out, bytes);
    }
}

#[test]
fn decode_one_character_at_a_time() {
    let bytes = b"the quick brown fox".to_vec();
    let mut enc = Base64Encoder::new();
    let mut text = enc.push(&bytes);
    text.extend(enc.finish());

    let mut dec = Base64Decoder::new();
    let mut out = Vec::new();
    for c in &text {
        out.extend(dec.push(&vec![*c]).expect("valid base64"));
    }
    assert!(dec.finish().is_ok());
    assert_eq!(out, bytes);
}

#[test]
fn decode_rejects_bad_character() {
    let mut dec = Base64Decoder::new();
    assert_eq!(dec.push(&b"TW!u".to_vec()), Err(AdapterError::Framing));
}

#[test]
fn decode_rejects_data_after_padding() {
    let mut dec = Base64Decoder::new();
    assert_eq!(dec.push(&b"TQ==TWFu".to_vec()), Err(AdapterError::Framing));
}

#[test]
fn decode_rejects_data_pushed_after_final_group() {
    let mut dec = Base64Decoder::new();
    assert_eq!(dec.push(&b"TQ==".to_vec()), Ok(b"M".to_vec()));
    assert_eq!(dec.push(&b"TWFu".to_vec()), Err(AdapterError::Framing));
}

#[test]
fn decode_truncated_tail_fails_at_finish() {
    let mut dec = Base64Decoder::new();
    assert_eq!(dec.push(&b"TWF".to_vec()), Ok(Vec::new()));
    assert_eq!(dec.finish(), Err(AdapterError::Framing));
}
