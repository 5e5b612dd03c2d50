use cxl::rpc::decode_batch;
use cxl::rpc::encode_batch;
use cxl::rpc::Command;

fn sample_batch() -> Vec<Command> {
    vec![
        Command::Init { id: String::from("rs"), size: 7516258304 },
        Command::Malloc { size: 4096 },
        Command::Free { index: 17 },
        Command::Crash { delay: 250, random: true },
        Command::Crash { delay: 0, random: false },
        Command::Recover,
        Command::Exit,
    ]
}

#[test]
fn round_trip_all_variants() {
    let batch = sample_batch();
    let bytes = encode_batch(&batch);
    let (decoded, used) = decode_batch(&bytes).expect("valid frame");
    assert_eq!(used, bytes.len());
    assert_eq!(decoded, batch);
}

#[test]
fn round_trip_single_exit() {
    let batch = vec![Command::Exit];
    let bytes = encode_batch(&batch);
    let expected: Vec<u8> = vec![1, 0, 0, 0, 0, 0, 0, 0, 5];
    assert_eq!(bytes, expected);
    let (decoded, used) = decode_batch(&bytes).expect("valid frame");
    assert_eq!(used, 9);
    assert_eq!(decoded, batch);
}

#[test]
fn round_trip_non_ascii_heap_id() {
    let batch = vec![Command::Init { id: String::from("héap-α"), size: 64 }];
    let bytes = encode_batch(&batch);
    let (decoded, used) = decode_batch(&bytes).expect("valid frame");
    assert_eq!(used, bytes.len());
    assert_eq!(decoded, batch);
}

#[test]
fn decode_ignores_trailing_bytes() {
    let batch = sample_batch();
    let mut bytes = encode_batch(&batch);
    let frame_len = bytes.len();
    bytes.extend_from_slice(&[0xde, 0xad, 0xbe, 0xef]);
    let (decoded, used) = decode_batch(&bytes).expect("valid frame");
    assert_eq!(used, frame_len);
    assert_eq!(decoded, batch);
}

#[test]
fn decode_back_to_back_frames() {
    let first = vec![Command::Malloc { size: 8 }];
    let second = vec![Command::Free { index: 0 }, Command::Exit];
    let mut bytes = encode_batch(&first);
    bytes.extend_from_slice(&encode_batch(&second));
    let (d1, used1) = decode_batch(&bytes).expect("first frame");
    assert_eq!(d1, first);
    let rest: Vec<u8> = bytes[used1..].to_vec();
    let (d2, used2) = decode_batch(&rest).expect("second frame");
    assert_eq!(d2, second);
    assert_eq!(used1 + used2, bytes.len());
}

#[test]
fn decode_rejects_empty_bytes() {
    assert!(decode_batch(&Vec::new()).is_err());
}

#[test]
fn decode_rejects_zero_count() {
    let bytes: Vec<u8> = vec![0, 0, 0, 0, 0, 0, 0, 0, 5];
    assert!(decode_batch(&bytes).is_err());
}

#[test]
fn decode_rejects_truncated_frame() {
    let batch = sample_batch();
    let bytes = encode_batch(&batch);
    let truncated: Vec<u8> = bytes[..bytes.len() - 1].to_vec();
    assert!(decode_batch(&truncated).is_err());
}

#[test]
fn decode_rejects_unknown_tag() {
    let bytes: Vec<u8> = vec![1, 0, 0, 0, 0, 0, 0, 0, 9];
    assert!(decode_batch(&bytes).is_err());
}

#[test]
fn decode_rejects_bad_bool_byte() {
    // Crash with a flag byte that is neither 0 nor 1.
    let mut bytes: Vec<u8> = vec![1, 0, 0, 0, 0, 0, 0, 0, 0];
    bytes.extend_from_slice(&[0; 8]);
    bytes.push(7);
    assert!(decode_batch(&bytes).is_err());
}

#[test]
fn decode_rejects_invalid_utf8_heap_id() {
    // Init with a 1-byte id that is not valid UTF-8.
    let mut bytes: Vec<u8> = vec![1, 0, 0, 0, 0, 0, 0, 0, 1];
    bytes.extend_from_slice(&[1, 0, 0, 0, 0, 0, 0, 0]);
    bytes.push(0xff);
    bytes.extend_from_slice(&[0; 8]);
    assert!(decode_batch(&bytes).is_err());
}
