//! The wire format shared by the encoder and the decoder.
//!
//! ```text
//! offset  size  field
//! 0       1     start flag (0xC0)
//! 1       2     total frame length, big-endian, header and tail included
//! 3       1     operation code
//! 4       1     mode byte (reserved 0 for key and hash, block mode for ciphers)
//! 5       var   payload
//! end-2   2     tail (reserved, 0)
//! ```
use vstd::prelude::*;

verus! {

/// Bytes before the payload: start flag, length, operation code, mode byte.
pub const FRM_HEAD_LEN: usize = 1 + 2 + 1 + 1;

/// Bytes after the payload.
pub const FRM_TAIL_LEN: usize = 2;

/// Shortest frame: header and tail around an empty payload.
pub const FRM_MIN_LEN: usize = FRM_HEAD_LEN + FRM_TAIL_LEN;

/// Longest payload that a frame may carry.
pub const TX_MSG_MAX_LEN: usize = 65408;

/// Longest frame: header and tail around the longest payload.
pub const FRM_MAX_LEN: usize = FRM_HEAD_LEN + TX_MSG_MAX_LEN + FRM_TAIL_LEN;

/// First byte of every frame.
pub const FRM_START_FLAG: u8 = 0xC0;

/// Mode byte of key and hash frames.
pub const FRM_PRESERVE_FLAG: u8 = 0;

/// Value of the reserved tail.
pub const FRM_PAR_FLAG: u16 = 0;

/// Length of a cipher key.
pub const KEY_LEN: usize = 16;

/// Length of a CBC initialisation vector.
pub const IV_LEN: usize = 16;

/// Length of a hash digest returned by the coprocessor.
pub const SM3_HASH_LEN: usize = 32;

/// Length of the payload that acknowledges a key.
pub const KEY_ACK_LEN: usize = 2;

/// Baud rate of the serial link.
pub const SP_BAUD_RATE: u32 = 115_200;

/// Operation code of a frame.
#[derive(Clone, Copy, Debug, PartialEq, Eq, Structural)]
pub enum OpFlag {
    Key,
    Sm3,
    Sm4Enc,
    Sm4Dec,
}

/// Block-chaining mode of a cipher frame.
#[derive(Clone, Copy, Debug, PartialEq, Eq, Structural)]
pub enum BlockMode {
    ECB,
    CBC,
}

impl OpFlag {
    pub open spec fn spec_code(self) -> u8 {
        match self {
            OpFlag::Key => 1,
            OpFlag::Sm3 => 2,
            OpFlag::Sm4Enc => 3,
            OpFlag::Sm4Dec => 4,
        }
    }

    pub open spec fn spec_from_code(v: u8) -> Option<OpFlag> {
        if v == 1 {
            Some(OpFlag::Key)
        } else if v == 2 {
            Some(OpFlag::Sm3)
        } else if v == 3 {
            Some(OpFlag::Sm4Enc)
        } else if v == 4 {
            Some(OpFlag::Sm4Dec)
        } else {
            None
        }
    }

    /// The byte that stands for this operation on the wire.
    #[verifier::when_used_as_spec(spec_code)]
    pub fn code(self) -> (r: u8)
        ensures
            r == self.spec_code(),
    {
        match self {
            OpFlag::Key => 1,
            OpFlag::Sm3 => 2,
            OpFlag::Sm4Enc => 3,
            OpFlag::Sm4Dec => 4,
        }
    }

    /// The operation that a wire byte stands for, if any.
    pub fn from_code(v: u8) -> (r: Option<OpFlag>)
        ensures
            r == OpFlag::spec_from_code(v),
    {
        match v {
            1 => Some(OpFlag::Key),
            2 => Some(OpFlag::Sm3),
            3 => Some(OpFlag::Sm4Enc),
            4 => Some(OpFlag::Sm4Dec),
            _ => None,
        }
    }

    /// Whether this is one of the two cipher operations.
    pub open spec fn is_cipher(self) -> bool {
        self == OpFlag::Sm4Enc || self == OpFlag::Sm4Dec
    }
}

impl BlockMode {
    pub open spec fn spec_code(self) -> u8 {
        match self {
            BlockMode::ECB => 1,
            BlockMode::CBC => 2,
        }
    }

    pub open spec fn spec_from_code(v: u8) -> Option<BlockMode> {
        if v == 1 {
            Some(BlockMode::ECB)
        } else if v == 2 {
            Some(BlockMode::CBC)
        } else {
            None
        }
    }

    /// The byte that stands for this mode on the wire.
    #[verifier::when_used_as_spec(spec_code)]
    pub fn code(self) -> (r: u8)
        ensures
            r == self.spec_code(),
    {
        match self {
            BlockMode::ECB => 1,
            BlockMode::CBC => 2,
        }
    }

    /// The mode that a wire byte stands for, if any.
    pub fn from_code(v: u8) -> (r: Option<BlockMode>)
        ensures
            r == BlockMode::spec_from_code(v),
    {
        match v {
            1 => Some(BlockMode::ECB),
            2 => Some(BlockMode::CBC),
            _ => None,
        }
    }
}

/// The two bytes of `v`, most significant first.
pub open spec fn be16_bytes(v: u16) -> Seq<u8> {
    seq![(v / 256) as u8, (v % 256) as u8]
}

/// The value of two bytes read most significant first.
pub open spec fn be16_value(hi: u8, lo: u8) -> nat {
    hi as nat * 256 + lo as nat
}

/// The bytes of a frame with the given operation byte, mode byte and payload.
pub open spec fn frame_bytes(op: u8, mode: u8, payload: Seq<u8>) -> Seq<u8> {
    let len = (FRM_MIN_LEN + payload.len()) as u16;
    seq![FRM_START_FLAG] + be16_bytes(len) + seq![op, mode] + payload + seq![0u8, 0u8]
}

/// The length that the header of `b` declares (its second and third bytes).
pub open spec fn declared_len(b: Seq<u8>) -> nat
    recommends
        b.len() >= 3,
{
    be16_value(b[1], b[2])
}

/// Whether a declared length lies within the bounds of the format.
pub open spec fn len_in_bounds(n: nat) -> bool {
    FRM_MIN_LEN <= n <= FRM_MAX_LEN
}

/// Whether `b` is one whole frame as the decoder delimits it: it opens with the
/// start flag and declares its own length, which lies within the bounds.
pub open spec fn is_delimited_frame(b: Seq<u8>) -> bool {
    &&& b.len() >= FRM_MIN_LEN
    &&& b[0] == FRM_START_FLAG
    &&& len_in_bounds(declared_len(b))
    &&& declared_len(b) == b.len()
}

/// A frame built by `frame_bytes` is delimited whenever its payload fits.
pub proof fn lemma_frame_bytes_delimited(op: u8, mode: u8, payload: Seq<u8>)
    requires
        payload.len() <= TX_MSG_MAX_LEN,
    ensures
        is_delimited_frame(frame_bytes(op, mode, payload)),
        frame_bytes(op, mode, payload).len() == FRM_MIN_LEN + payload.len(),
{
    let f = frame_bytes(op, mode, payload);
    let len = (FRM_MIN_LEN + payload.len()) as u16;
    assert(f[1] == (len / 256) as u8);
    assert(f[2] == (len % 256) as u8);
    assert(be16_value(f[1], f[2]) == len as nat);
}

} // verus!
