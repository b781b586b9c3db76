use uifs::dispatch::{dispatch, observe_text, parse_frame, Frame, Presentation, Response};
use uifs::encoder::{key, sm3, sm4_dec_cbc, sm4_dec_ecb, sm4_enc_cbc, sm4_enc_ecb};
use uifs::format::{BlockMode, OpFlag};

fn response_frame(op: u8, mode: u8, payload: &[u8]) -> Vec<u8> {
    let len = (7 + payload.len()) as u16;
    let mut v = vec![0xC0, (len >> 8) as u8, len as u8, op, mode];
    v.extend_from_slice(payload);
    v.extend_from_slice(&[0, 0]);
    v
}

#[test]
fn round_trip_key() {
    let k = [9u8; 16];
    let f = parse_frame(&key(&k)).unwrap();
    assert_eq!(f, Frame { op: OpFlag::Key, mode: None, payload: k.to_vec() });
}

#[test]
fn round_trip_hash() {
    let f = parse_frame(&sm3(b"message")).unwrap();
    assert_eq!(f, Frame { op: OpFlag::Sm3, mode: None, payload: b"message".to_vec() });
}

#[test]
fn round_trip_cipher_requests() {
    let iv = [3u8; 16];
    let mut iv_and_data = iv.to_vec();
    iv_and_data.extend_from_slice(b"data");
    assert_eq!(
        parse_frame(&sm4_enc_cbc(b"data", &iv)).unwrap(),
        Frame { op: OpFlag::Sm4Enc, mode: Some(BlockMode::CBC), payload: iv_and_data.clone() }
    );
    assert_eq!(
        parse_frame(&sm4_dec_cbc(b"data", &iv)).unwrap(),
        Frame { op: OpFlag::Sm4Dec, mode: Some(BlockMode::CBC), payload: iv_and_data }
    );
    assert_eq!(
        parse_frame(&sm4_enc_ecb(b"data")).unwrap(),
        Frame { op: OpFlag::Sm4Enc, mode: Some(BlockMode::ECB), payload: b"data".to_vec() }
    );
    assert_eq!(
        parse_frame(&sm4_dec_ecb(b"data")).unwrap(),
        Frame { op: OpFlag::Sm4Dec, mode: Some(BlockMode::ECB), payload: b"data".to_vec() }
    );
}

#[test]
fn unknown_opcode_is_malformed() {
    assert_eq!(parse_frame(&response_frame(5, 0, b"x")), None);
    assert_eq!(parse_frame(&response_frame(0, 0, b"x")), None);
}

#[test]
fn reserved_mode_must_be_zero_for_key_and_hash() {
    assert_eq!(parse_frame(&response_frame(1, 1, &[0, 1])), None);
    assert_eq!(parse_frame(&response_frame(2, 2, &[0; 32])), None);
}

#[test]
fn cipher_mode_must_be_ecb_or_cbc() {
    assert_eq!(parse_frame(&response_frame(3, 0, b"x")), None);
    assert_eq!(parse_frame(&response_frame(4, 3, b"x")), None);
}

#[test]
fn nonzero_tail_is_malformed() {
    let mut f = response_frame(2, 0, b"abc");
    let n = f.len();
    f[n - 1] = 1;
    assert_eq!(parse_frame(&f), None);
}

#[test]
fn wrong_declared_length_is_malformed() {
    let mut f = response_frame(2, 0, b"abc");
    f[2] = 9;
    assert_eq!(parse_frame(&f), None);
    assert_eq!(parse_frame(&[0xC0, 0x00]), None);
}

#[test]
fn key_ack_is_accepted() {
    let f = parse_frame(&response_frame(1, 0, &[0x00, 0x01])).unwrap();
    assert_eq!(dispatch(&f, Presentation::Raw), Some(Response::KeyAccepted));
}

#[test]
fn key_ack_with_wrong_marker_or_length_is_dropped() {
    let f = parse_frame(&response_frame(1, 0, &[0x00, 0x02])).unwrap();
    assert_eq!(dispatch(&f, Presentation::Raw), None);
    let f = parse_frame(&response_frame(1, 0, &[0x01])).unwrap();
    assert_eq!(dispatch(&f, Presentation::Raw), None);
}

#[test]
fn digest_is_hex_encoded() {
    let digest: Vec<u8> = (0u8..32).collect();
    let f = parse_frame(&response_frame(2, 0, &digest)).unwrap();
    assert_eq!(
        dispatch(&f, Presentation::Chat),
        Some(Response::Digest(
            "000102030405060708090a0b0c0d0e0f101112131415161718191a1b1c1d1e1f".to_string()
        ))
    );
}

#[test]
fn digest_of_wrong_length_is_dropped() {
    let f = parse_frame(&response_frame(2, 0, &[0xAB; 31])).unwrap();
    assert_eq!(dispatch(&f, Presentation::Raw), None);
}

#[test]
fn encrypted_result_strips_zero_padding_and_shows_hex() {
    let f = parse_frame(&response_frame(3, 2, &[0xDE, 0xAD, 0x00, 0xBE, 0xEF, 0, 0, 0])).unwrap();
    assert_eq!(
        dispatch(&f, Presentation::Raw),
        Some(Response::Encrypted { mode: BlockMode::CBC, text: "dead00beef".to_string() })
    );
}

#[test]
fn decrypted_result_in_chat_is_text() {
    let f = parse_frame(&response_frame(4, 1, b"hello\0\0\0")).unwrap();
    assert_eq!(
        dispatch(&f, Presentation::Chat),
        Some(Response::Decrypted { mode: BlockMode::ECB, text: "hello".to_string() })
    );
}

#[test]
fn chat_text_replaces_invalid_utf8() {
    let f = parse_frame(&response_frame(3, 1, &[b'a', 0xFF, b'b'])).unwrap();
    assert_eq!(
        dispatch(&f, Presentation::Chat),
        Some(Response::Encrypted { mode: BlockMode::ECB, text: "a\u{FFFD}b".to_string() })
    );
}

#[test]
fn all_zero_cipher_result_is_empty() {
    let f = parse_frame(&response_frame(4, 2, &[0, 0, 0, 0])).unwrap();
    assert_eq!(
        dispatch(&f, Presentation::Raw),
        Some(Response::Decrypted { mode: BlockMode::CBC, text: String::new() })
    );
}

#[test]
fn observer_shows_payload_of_any_frame() {
    assert_eq!(observe_text(&response_frame(9, 9, b"seen")), "seen");
    assert_eq!(observe_text(&response_frame(1, 0, b"")), "");
}
