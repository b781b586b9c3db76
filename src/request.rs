//! Requests built from what a user typed, validated before any byte is sent.
use crate::buf::bytes_seq;
use crate::dispatch::mode_byte;
use crate::encoder::{key, sm3, sm4_dec_cbc, sm4_dec_ecb, sm4_enc_cbc, sm4_enc_ecb};
use crate::format::{
    frame_bytes, BlockMode, OpFlag, FRM_PRESERVE_FLAG, IV_LEN, KEY_LEN, TX_MSG_MAX_LEN,
};
use crate::text::{hex_decode, hex_decoded};
use bytes::Bytes;
use vstd::prelude::*;
use vstd::string::StrSliceExecFns;

verus! {

/// Why a request was refused before it was sent.
#[derive(Clone, Copy, Debug, PartialEq, Eq, Structural)]
pub enum RequestError {
    /// A key or IV is not 32 hexadecimal digits.
    WrongLength,
    /// Text that should be hexadecimal holds something else.
    NotHex,
    /// The payload does not fit in one frame.
    TooLong,
}

/// Number of hexadecimal digits that spell a key or an IV.
pub const BLOCK_HEX_LEN: usize = 32;

/// The 16 bytes that the text `s` spells in 32 hexadecimal digits.
pub open spec fn block_from_hex(s: Seq<char>) -> Result<Seq<u8>, RequestError> {
    if s.len() != BLOCK_HEX_LEN {
        Err(RequestError::WrongLength)
    } else {
        match hex_decoded(s) {
            None => Err(RequestError::NotHex),
            Some(b) => if b.len() != KEY_LEN {
                Err(RequestError::WrongLength)
            } else {
                Ok(b)
            },
        }
    }
}

/// The bytes that the hexadecimal text `s` spells, of any length.
pub open spec fn bytes_from_hex(s: Seq<char>) -> Result<Seq<u8>, RequestError> {
    match hex_decoded(s) {
        None => Err(RequestError::NotHex),
        Some(b) => Ok(b),
    }
}

/// A cipher request for `data` once the IV text is read: CBC carries the IV
/// before the data, ECB none.
pub open spec fn cipher_request_spec(
    op: OpFlag,
    mode: BlockMode,
    data: Seq<u8>,
    iv_hex: Seq<char>,
) -> Result<Seq<u8>, RequestError> {
    match mode {
        BlockMode::ECB => if data.len() > TX_MSG_MAX_LEN {
            Err(RequestError::TooLong)
        } else {
            Ok(frame_bytes(op.spec_code(), mode_byte(Some(mode)), data))
        },
        BlockMode::CBC => match block_from_hex(iv_hex) {
            Err(e) => Err(e),
            Ok(iv) => if data.len() + IV_LEN > TX_MSG_MAX_LEN {
                Err(RequestError::TooLong)
            } else {
                Ok(frame_bytes(op.spec_code(), mode_byte(Some(mode)), iv + data))
            },
        },
    }
}

/// Whether `r` is the outcome `spec` of building a request.
pub open spec fn request_matches(r: Result<Bytes, RequestError>, spec: Result<Seq<u8>, RequestError>) -> bool {
    match r {
        Ok(b) => spec == Ok::<Seq<u8>, RequestError>(bytes_seq(b)),
        Err(e) => spec == Err::<Seq<u8>, RequestError>(e),
    }
}

/// Reads a key or an IV: 32 hexadecimal digits.
pub fn parse_block(s: &str) -> (r: Result<[u8; 16], RequestError>)
    ensures
        match r {
            Ok(a) => block_from_hex(s@) == Ok::<Seq<u8>, RequestError>(a@),
            Err(e) => block_from_hex(s@) == Err::<Seq<u8>, RequestError>(e),
        },
{
    if s.unicode_len() != BLOCK_HEX_LEN {
        return Err(RequestError::WrongLength);
    }
    let v = match hex_decode(s) {
        Ok(v) => v,
        Err(_) => return Err(RequestError::NotHex),
    };
    if v.len() != KEY_LEN {
        return Err(RequestError::WrongLength);
    }
    let mut a: [u8; 16] = [0u8; 16];
    let mut i: usize = 0;
    while i < KEY_LEN
        invariant
            i <= KEY_LEN,
            v@.len() == KEY_LEN,
            forall|j: int| 0 <= j < i ==> a@[j] == v@[j],
        decreases KEY_LEN - i,
    {
        a[i] = v[i];
        i = i + 1;
    }
    assert(a@ =~= v@);
    Ok(a)
}

/// Reads hexadecimal text of any length.
pub fn parse_hex(s: &str) -> (r: Result<Vec<u8>, RequestError>)
    ensures
        match r {
            Ok(v) => bytes_from_hex(s@) == Ok::<Seq<u8>, RequestError>(v@),
            Err(e) => bytes_from_hex(s@) == Err::<Seq<u8>, RequestError>(e),
        },
{
    match hex_decode(s) {
        Ok(v) => Ok(v),
        Err(_) => Err(RequestError::NotHex),
    }
}

/// Key-injection request for a key typed as 32 hexadecimal digits.
pub fn key_request(key_hex: &str) -> (r: Result<Bytes, RequestError>)
    ensures
        request_matches(
            r,
            match block_from_hex(key_hex@) {
                Ok(k) => Ok(frame_bytes(OpFlag::Key.spec_code(), FRM_PRESERVE_FLAG, k)),
                Err(e) => Err(e),
            },
        ),
{
    match parse_block(key_hex) {
        Ok(k) => Ok(key(&k)),
        Err(e) => Err(e),
    }
}

/// Hash request for a message, refused when it does not fit in a frame.
pub fn hash_request(msg: &[u8]) -> (r: Result<Bytes, RequestError>)
    ensures
        request_matches(
            r,
            if msg@.len() > TX_MSG_MAX_LEN {
                Err(RequestError::TooLong)
            } else {
                Ok(frame_bytes(OpFlag::Sm3.spec_code(), FRM_PRESERVE_FLAG, msg@))
            },
        ),
{
    if msg.len() > TX_MSG_MAX_LEN {
        return Err(RequestError::TooLong);
    }
    Ok(sm3(msg))
}

/// Encryption request for a plaintext; in CBC mode `iv_hex` holds the IV as
/// 32 hexadecimal digits, in ECB mode it is not read.
pub fn encrypt_request(pt: &[u8], mode: BlockMode, iv_hex: &str) -> (r: Result<Bytes, RequestError>)
    ensures
        request_matches(r, cipher_request_spec(OpFlag::Sm4Enc, mode, pt@, iv_hex@)),
{
    match mode {
        BlockMode::ECB => {
            if pt.len() > TX_MSG_MAX_LEN {
                return Err(RequestError::TooLong);
            }
            Ok(sm4_enc_ecb(pt))
        },
        BlockMode::CBC => {
            let iv = match parse_block(iv_hex) {
                Ok(iv) => iv,
                Err(e) => return Err(e),
            };
            if pt.len() > TX_MSG_MAX_LEN - IV_LEN {
                return Err(RequestError::TooLong);
            }
            Ok(sm4_enc_cbc(pt, &iv))
        },
    }
}

/// Decryption request for a ciphertext typed in hexadecimal digits; in CBC
/// mode `iv_hex` holds the IV as 32 hexadecimal digits, in ECB mode it is not
/// read.
pub fn decrypt_request(ct_hex: &str, mode: BlockMode, iv_hex: &str) -> (r: Result<Bytes, RequestError>)
    ensures
        request_matches(
            r,
            match bytes_from_hex(ct_hex@) {
                Err(e) => Err(e),
                Ok(ct) => cipher_request_spec(OpFlag::Sm4Dec, mode, ct, iv_hex@),
            },
        ),
{
    let ct = match parse_hex(ct_hex) {
        Ok(ct) => ct,
        Err(e) => return Err(e),
    };
    match mode {
        BlockMode::ECB => {
            if ct.len() > TX_MSG_MAX_LEN {
                return Err(RequestError::TooLong);
            }
            Ok(sm4_dec_ecb(ct.as_slice()))
        },
        BlockMode::CBC => {
            let iv = match parse_block(iv_hex) {
                Ok(iv) => iv,
                Err(e) => return Err(e),
            };
            if ct.len() > TX_MSG_MAX_LEN - IV_LEN {
                return Err(RequestError::TooLong);
            }
            Ok(sm4_dec_cbc(ct.as_slice(), &iv))
        },
    }
}

} // verus!
