use uifs::encoder::{key, sm3, sm4_dec_cbc, sm4_dec_ecb, sm4_enc_cbc, sm4_enc_ecb};

#[test]
fn hash_request_for_abc_has_expected_layout() {
    let f = sm3(b"abc");
    assert_eq!(&f[..], &[0xC0, 0x00, 0x0A, 0x02, 0x00, b'a', b'b', b'c', 0x00, 0x00][..]);
}

#[test]
fn hash_request_for_empty_message_is_minimal_frame() {
    let f = sm3(b"");
    assert_eq!(&f[..], &[0xC0, 0x00, 0x07, 0x02, 0x00, 0x00, 0x00][..]);
}

#[test]
fn key_request_carries_key_after_reserved_mode() {
    let k: [u8; 16] = [0x11; 16];
    let f = key(&k);
    assert_eq!(f.len(), 23);
    assert_eq!(&f[..5], &[0xC0, 0x00, 23, 0x01, 0x00][..]);
    assert_eq!(&f[5..21], &k[..]);
    assert_eq!(&f[21..], &[0, 0][..]);
}

#[test]
fn cbc_encrypt_puts_iv_before_plaintext() {
    let iv: [u8; 16] = [0xAB; 16];
    let f = sm4_enc_cbc(b"hi", &iv);
    assert_eq!(f.len(), 5 + 16 + 2 + 2);
    assert_eq!(&f[..5], &[0xC0, 0x00, 25, 0x03, 0x02][..]);
    assert_eq!(&f[5..21], &iv[..]);
    assert_eq!(&f[21..23], b"hi");
    assert_eq!(&f[23..], &[0, 0][..]);
}

#[test]
fn ecb_encrypt_omits_iv() {
    let f = sm4_enc_ecb(b"hello");
    assert_eq!(&f[..], &[0xC0, 0x00, 12, 0x03, 0x01, b'h', b'e', b'l', b'l', b'o', 0, 0][..]);
}

#[test]
fn cbc_decrypt_layout() {
    let iv: [u8; 16] = [0x01; 16];
    let f = sm4_dec_cbc(&[0xFF, 0xEE], &iv);
    assert_eq!(&f[..5], &[0xC0, 0x00, 25, 0x04, 0x02][..]);
    assert_eq!(&f[5..21], &iv[..]);
    assert_eq!(&f[21..], &[0xFF, 0xEE, 0, 0][..]);
}

#[test]
fn ecb_decrypt_layout() {
    let f = sm4_dec_ecb(&[0x10, 0x20, 0x30]);
    assert_eq!(&f[..], &[0xC0, 0x00, 10, 0x04, 0x01, 0x10, 0x20, 0x30, 0, 0][..]);
}

#[test]
fn long_message_length_is_big_endian() {
    let m = vec![0x55u8; 300];
    let f = sm3(&m);
    assert_eq!(f.len(), 307);
    assert_eq!(f[1], 0x01);
    assert_eq!(f[2], 0x33);
}

#[test]
fn largest_message_fits_length_field() {
    let m = vec![0u8; 65408];
    let f = sm3(&m);
    assert_eq!(f.len(), 65415);
    assert_eq!(f[1], 0xFF);
    assert_eq!(f[2], 0x87);
}
