//! Request encoders: one ready-to-send frame per operation.
use crate::buf::{bytes_mut_seq, bytes_seq, put_u16, put_u8};
use crate::format::{
    frame_bytes, BlockMode, OpFlag, FRM_HEAD_LEN, FRM_MIN_LEN, FRM_PAR_FLAG, FRM_PRESERVE_FLAG,
    FRM_START_FLAG, FRM_TAIL_LEN, IV_LEN, TX_MSG_MAX_LEN,
};
use bytes::{Bytes, BytesMut};
use vstd::prelude::*;

verus! {

/// Lays out one frame: header, then `prefix` and `body` as the payload, then
/// the tail.
fn encode_frame(op: u8, mode: u8, prefix: &[u8], body: &[u8]) -> (r: Bytes)
    requires
        prefix@.len() + body@.len() <= TX_MSG_MAX_LEN,
    ensures
        bytes_seq(r) == frame_bytes(op, mode, prefix@ + body@),
{
    let frm_len: usize = FRM_HEAD_LEN + prefix.len() + body.len() + FRM_TAIL_LEN;
    let mut buf = BytesMut::with_capacity(frm_len);
    put_u8(&mut buf, FRM_START_FLAG);
    put_u16(&mut buf, frm_len as u16);
    put_u8(&mut buf, op);
    put_u8(&mut buf, mode);
    buf.extend_from_slice(prefix);
    buf.extend_from_slice(body);
    put_u16(&mut buf, FRM_PAR_FLAG);
    proof {
        let payload = prefix@ + body@;
        assert(bytes_mut_seq(buf) =~= frame_bytes(op, mode, payload));
    }
    buf.freeze()
}

/// Key-injection request carrying the 16-byte key `k`.
pub fn key(k: &[u8; 16]) -> (r: Bytes)
    ensures
        bytes_seq(r) == frame_bytes(OpFlag::Key.spec_code(), FRM_PRESERVE_FLAG, k@),
{
    let empty: [u8; 0] = [];
    let r = encode_frame(OpFlag::Key.code(), FRM_PRESERVE_FLAG, k.as_slice(), empty.as_slice());
    assert(k@ + Seq::<u8>::empty() =~= k@);
    r
}

/// Hash request carrying the message `m` unpadded.
pub fn sm3(m: &[u8]) -> (r: Bytes)
    requires
        m@.len() <= TX_MSG_MAX_LEN,
    ensures
        bytes_seq(r) == frame_bytes(OpFlag::Sm3.spec_code(), FRM_PRESERVE_FLAG, m@),
{
    let empty: [u8; 0] = [];
    let r = encode_frame(OpFlag::Sm3.code(), FRM_PRESERVE_FLAG, empty.as_slice(), m);
    assert(Seq::<u8>::empty() + m@ =~= m@);
    r
}

/// Encryption request in CBC mode: the IV, then the plaintext.
pub fn sm4_enc_cbc(pt: &[u8], iv: &[u8; 16]) -> (r: Bytes)
    requires
        pt@.len() + IV_LEN <= TX_MSG_MAX_LEN,
    ensures
        bytes_seq(r) == frame_bytes(
            OpFlag::Sm4Enc.spec_code(),
            BlockMode::CBC.spec_code(),
            iv@ + pt@,
        ),
{
    encode_frame(OpFlag::Sm4Enc.code(), BlockMode::CBC.code(), iv.as_slice(), pt)
}

/// Encryption request in ECB mode: the plaintext alone.
pub fn sm4_enc_ecb(pt: &[u8]) -> (r: Bytes)
    requires
        pt@.len() <= TX_MSG_MAX_LEN,
    ensures
        bytes_seq(r) == frame_bytes(OpFlag::Sm4Enc.spec_code(), BlockMode::ECB.spec_code(), pt@),
{
    let empty: [u8; 0] = [];
    let r = encode_frame(OpFlag::Sm4Enc.code(), BlockMode::ECB.code(), empty.as_slice(), pt);
    assert(Seq::<u8>::empty() + pt@ =~= pt@);
    r
}

/// Decryption request in CBC mode: the IV, then the ciphertext.
pub fn sm4_dec_cbc(ct: &[u8], iv: &[u8; 16]) -> (r: Bytes)
    requires
        ct@.len() + IV_LEN <= TX_MSG_MAX_LEN,
    ensures
        bytes_seq(r) == frame_bytes(
            OpFlag::Sm4Dec.spec_code(),
            BlockMode::CBC.spec_code(),
            iv@ + ct@,
        ),
{
    encode_frame(OpFlag::Sm4Dec.code(), BlockMode::CBC.code(), iv.as_slice(), ct)
}

/// Decryption request in ECB mode: the ciphertext alone.
pub fn sm4_dec_ecb(ct: &[u8]) -> (r: Bytes)
    requires
        ct@.len() <= TX_MSG_MAX_LEN,
    ensures
        bytes_seq(r) == frame_bytes(OpFlag::Sm4Dec.spec_code(), BlockMode::ECB.spec_code(), ct@),
{
    let empty: [u8; 0] = [];
    let r = encode_frame(OpFlag::Sm4Dec.code(), BlockMode::ECB.code(), empty.as_slice(), ct);
    assert(Seq::<u8>::empty() + ct@ =~= ct@);
    r
}

} // verus!
