use uifs::dispatch::Frame;
use uifs::encoder::{key, sm3, sm4_enc_cbc, sm4_enc_ecb};
use uifs::format::{BlockMode, OpFlag};
use uifs::framer::Framer;

fn abc_frame() -> Vec<u8> {
    assert_eq!(&sm3(b"abc")[..], &[0xC0, 0x00, 0x0A, 0x02, 0x00, b'a', b'b', b'c', 0x00, 0x00][..]);
    vec![0xC0, 0x00, 0x0A, 0x02, 0x00, b'a', b'b', b'c', 0x00, 0x00]
}

#[test]
fn noise_then_frame_in_two_chunks_yields_hash_frame() {
    let f = abc_frame();
    let mut framer = Framer::new();
    assert!(framer.feed_frames(&[0xFF, 0xFF]).is_empty());
    assert!(framer.feed_frames(&f[..3]).is_empty());
    let out = framer.feed_frames(&f[3..]);
    assert_eq!(
        out,
        vec![Frame { op: OpFlag::Sm3, mode: None, payload: b"abc".to_vec() }]
    );
    assert_eq!(framer.buffered(), 0);
}

#[test]
fn two_back_to_back_frames_in_one_chunk() {
    let mut bytes = sm3(b"one").to_vec();
    bytes.extend_from_slice(&sm4_enc_ecb(b"two"));
    let mut framer = Framer::new();
    let out = framer.feed(&bytes);
    assert_eq!(out, vec![sm3(b"one").to_vec(), sm4_enc_ecb(b"two").to_vec()]);
    assert_eq!(framer.buffered(), 0);
}

#[test]
fn garbage_without_flag_is_discarded_before_frame() {
    let f = sm3(b"xyz").to_vec();
    let mut bytes = vec![0x00, 0x13, 0x7F, 0xFF, 0x01, 0x02, 0x03, 0x04, 0xAA];
    bytes.extend_from_slice(&f);
    let mut framer = Framer::new();
    let out = framer.feed(&bytes);
    assert_eq!(out, vec![f]);
    assert_eq!(framer.buffered(), 0);
}

#[test]
fn fragmentation_gives_same_result_as_whole() {
    let f = sm4_enc_cbc(b"fragmented payload", &[7u8; 16]).to_vec();
    let mut whole = Framer::new();
    let expected = whole.feed(&f);
    assert_eq!(expected, vec![f.clone()]);
    for size in 1..f.len() {
        let mut framer = Framer::new();
        let mut got = Vec::new();
        for chunk in f.chunks(size) {
            got.extend(framer.feed(chunk));
        }
        assert_eq!(got, expected, "chunk size {}", size);
        assert_eq!(framer.buffered(), 0);
    }
}

#[test]
fn byte_by_byte_feeding_yields_the_frame_once() {
    let f = key(&[0x42; 16]).to_vec();
    let mut framer = Framer::new();
    let mut got = Vec::new();
    for b in &f {
        got.extend(framer.feed(&[*b]));
    }
    assert_eq!(got, vec![f]);
}

#[test]
fn declared_length_below_minimum_is_never_dispatched() {
    let good = sm3(b"ok").to_vec();
    let mut bytes = vec![0xC0, 0x00, 0x03, 0x02, 0x00, 0x00, 0x00];
    bytes.extend_from_slice(&good);
    let mut framer = Framer::new();
    let out = framer.feed(&bytes);
    assert_eq!(out, vec![good]);
}

#[test]
fn declared_length_above_maximum_is_never_dispatched() {
    let good = sm3(b"ok").to_vec();
    let mut bytes = vec![0xC0, 0xFF, 0xFF, 0x02, 0x00, 0x00, 0x00, 0x00];
    bytes.extend_from_slice(&good);
    let mut framer = Framer::new();
    let out = framer.feed(&bytes);
    assert_eq!(out, vec![good]);
    assert_eq!(framer.buffered(), 0);
}

#[test]
fn buffer_without_any_flag_is_cleared() {
    let mut framer = Framer::new();
    let out = framer.feed(&[1, 2, 3, 4, 5, 6, 7, 8]);
    assert!(out.is_empty());
    assert_eq!(framer.buffered(), 0);
}

#[test]
fn short_buffer_waits_for_more() {
    let mut framer = Framer::new();
    let out = framer.feed(&[1, 2, 3]);
    assert!(out.is_empty());
    assert_eq!(framer.buffered(), 3);
}

#[test]
fn incomplete_frame_waits_after_resync() {
    let f = sm3(b"abcdef").to_vec();
    let mut bytes = vec![0x01, 0x02];
    bytes.extend_from_slice(&f[..9]);
    let mut framer = Framer::new();
    assert!(framer.feed(&bytes).is_empty());
    assert_eq!(framer.buffered(), 9);
    let out = framer.feed(&f[9..]);
    assert_eq!(out, vec![f]);
}

#[test]
fn frame_then_fragment_keeps_fragment() {
    let a = sm3(b"first").to_vec();
    let b = sm3(b"second").to_vec();
    let mut bytes = a.clone();
    bytes.extend_from_slice(&b[..4]);
    let mut framer = Framer::new();
    assert_eq!(framer.feed(&bytes), vec![a]);
    assert_eq!(framer.buffered(), 4);
    assert_eq!(framer.feed(&b[4..]), vec![b]);
}

#[test]
fn malformed_frames_are_dropped_by_feed_frames() {
    let mut bytes = vec![0xC0, 0x00, 0x07, 0x09, 0x00, 0x00, 0x00];
    bytes.extend_from_slice(&[0xC0, 0x00, 0x07, 0x03, 0x05, 0x00, 0x00]);
    bytes.extend_from_slice(&sm4_enc_ecb(b"z"));
    let mut framer = Framer::new();
    let out = framer.feed_frames(&bytes);
    assert_eq!(
        out,
        vec![Frame { op: OpFlag::Sm4Enc, mode: Some(BlockMode::ECB), payload: b"z".to_vec() }]
    );
}
