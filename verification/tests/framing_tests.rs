use igotu_gt120b::errors::FramingError;
use igotu_gt120b::framing::{decode_answer, encode_command, AnswerAssembler};

fn hex_bytes(s: &str) -> Vec<u8> {
    s.split_whitespace()
        .map(|b| u8::from_str_radix(b, 16).unwrap())
        .collect()
}

fn byte_sum_mod_256(frame: &[u8]) -> u8 {
    frame.iter().fold(0u8, |acc, b| acc.wrapping_add(*b))
}

#[test]
fn encode_command_sums_to_zero() {
    let payloads: Vec<Vec<u8>> = vec![
        vec![],
        vec![0x93],
        hex_bytes("93 01 01 03"),
        hex_bytes("93 0b 03 00 1d"),
        hex_bytes("93 09 78 38 09 74 40 3b 06 00 2e e2 8b 68"),
        vec![0xff; 15],
    ];
    for payload in payloads {
        let frame = encode_command(&payload);
        assert_eq!(frame.len(), 16);
        assert_eq!(byte_sum_mod_256(&frame), 0);
        assert_eq!(&frame[..payload.len()], &payload[..]);
    }
}

#[test]
fn encode_command_known_frame() {
    let frame = encode_command(&hex_bytes("93 0b 03 00 1d"));
    assert_eq!(
        frame,
        hex_bytes("93 0b 03 00 1d 00 00 00 00 00 00 00 00 00 00 42")
    );
}

#[test]
fn decode_answer_goodcase() {
    let payload = decode_answer(&hex_bytes("93 00 03 c2 20 15 73")).unwrap();
    assert_eq!(payload, hex_bytes("c2 20 15"));

    let empty = decode_answer(&hex_bytes("93 00 00 6d")).unwrap();
    assert_eq!(empty, Vec::<u8>::new());
}

#[test]
fn decode_answer_bad_prefix() {
    let result = decode_answer(&hex_bytes("94 00 03 c2 20 15 72"));
    assert!(matches!(result, Err(FramingError::BadPrefix)));
}

#[test]
fn decode_answer_checksum_mismatch() {
    let result = decode_answer(&hex_bytes("93 00 03 c2 20 15 74"));
    assert!(matches!(result, Err(FramingError::ChecksumMismatch)));
}

#[test]
fn decode_answer_length_mismatch() {
    // checksum valid, but the declared length (4) disagrees with 3 payload bytes
    let result = decode_answer(&hex_bytes("93 00 04 c2 20 15 72"));
    assert!(matches!(result, Err(FramingError::LengthMismatch)));

    let empty = decode_answer(&Vec::new());
    assert!(matches!(empty, Err(FramingError::LengthMismatch)));
}

#[test]
fn reassembled_answer_decodes_like_one_fragment() {
    let whole = hex_bytes("93 00 08 11 22 3f 44 55 66 77 88 f5");

    let mut one = AnswerAssembler::new();
    one.push_fragment(&whole);
    assert!(one.is_complete());

    let mut three = AnswerAssembler::new();
    three.push_fragment(&hex_bytes("93 00 08"));
    assert!(!three.is_complete());
    three.push_fragment(&hex_bytes("11 22 3f 44 55"));
    assert!(!three.is_complete());
    three.push_fragment(&hex_bytes("66 77 88 f5"));
    assert!(three.is_complete());

    let a = decode_answer(&one.into_bytes()).unwrap();
    let b = decode_answer(&three.into_bytes()).unwrap();
    assert_eq!(a, b);
    assert_eq!(a, hex_bytes("11 22 3f 44 55 66 77 88"));
}
