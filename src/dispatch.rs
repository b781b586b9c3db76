//! Validation of delimited frames and the response dispatcher, which turns a
//! frame into the result that the user sees.
use crate::format::{
    declared_len, frame_bytes, is_delimited_frame, lemma_frame_bytes_delimited, BlockMode, OpFlag,
    FRM_HEAD_LEN, FRM_MAX_LEN, FRM_MIN_LEN, FRM_PRESERVE_FLAG, FRM_START_FLAG, FRM_TAIL_LEN,
    KEY_ACK_LEN, SM3_HASH_LEN, TX_MSG_MAX_LEN,
};
use crate::framer::{lemma_scan_empty, lemma_scan_frame_first, scan, views, Framer};
use crate::text::{hex_encode, hex_encoded, lossy_text, utf8_lossy};
use vstd::prelude::*;

verus! {

/// A validated frame: its operation, its block mode (cipher operations only)
/// and its payload.
#[derive(Clone, Debug, PartialEq, Eq)]
pub struct Frame {
    pub op: OpFlag,
    pub mode: Option<BlockMode>,
    pub payload: Vec<u8>,
}

/// The mathematical value of a `Frame`.
pub struct FrameModel {
    pub op: OpFlag,
    pub mode: Option<BlockMode>,
    pub payload: Seq<u8>,
}

impl View for Frame {
    type V = FrameModel;

    open spec fn view(&self) -> FrameModel {
        FrameModel { op: self.op, mode: self.mode, payload: self.payload@ }
    }
}

/// The payload of the frame `b`: what lies between header and tail.
pub open spec fn payload_of(b: Seq<u8>) -> Seq<u8> {
    b.subrange(FRM_HEAD_LEN as int, b.len() - FRM_TAIL_LEN)
}

/// What the bytes `b` mean as one frame, or `None` when they are malformed:
/// not delimited, an unknown operation, a mode byte that the operation does
/// not allow, or a tail other than the reserved value.
pub open spec fn parse_spec(b: Seq<u8>) -> Option<FrameModel> {
    if !is_delimited_frame(b) {
        None
    } else if b[b.len() - 2] != 0 || b[b.len() - 1] != 0 {
        None
    } else {
        match OpFlag::spec_from_code(b[3]) {
            None => None,
            Some(op) => if op.is_cipher() {
                match BlockMode::spec_from_code(b[4]) {
                    None => None,
                    Some(mode) => Some(
                        FrameModel { op, mode: Some(mode), payload: payload_of(b) },
                    ),
                }
            } else if b[4] == FRM_PRESERVE_FLAG {
                Some(FrameModel { op, mode: None, payload: payload_of(b) })
            } else {
                None
            },
        }
    }
}

/// The well-formed frames among `raws`, in order.
pub open spec fn parse_all(raws: Seq<Seq<u8>>) -> Seq<FrameModel>
    decreases raws.len(),
{
    if raws.len() == 0 {
        Seq::empty()
    } else {
        let head = match parse_spec(raws[0]) {
            Some(m) => seq![m],
            None => Seq::empty(),
        };
        head + parse_all(raws.drop_first())
    }
}

/// Copies `b[from..to]`.
fn copy_range(b: &[u8], from: usize, to: usize) -> (r: Vec<u8>)
    requires
        from <= to <= b@.len(),
    ensures
        r@ == b@.subrange(from as int, to as int),
{
    let mut r: Vec<u8> = Vec::new();
    let mut i = from;
    while i < to
        invariant
            from <= i <= to <= b@.len(),
            r@ == b@.subrange(from as int, i as int),
        decreases to - i,
    {
        r.push(b[i]);
        i = i + 1;
        assert(r@ =~= b@.subrange(from as int, i as int));
    }
    r
}

/// Validates the bytes of one frame, as `parse_spec` says.
pub fn parse_frame(raw: &[u8]) -> (r: Option<Frame>)
    ensures
        match r {
            Some(f) => parse_spec(raw@) == Some(f@),
            None => parse_spec(raw@) is None,
        },
{
    let n = raw.len();
    if n < FRM_MIN_LEN || raw[0] != FRM_START_FLAG {
        return None;
    }
    let declared: usize = raw[1] as usize * 256 + raw[2] as usize;
    assert(declared == declared_len(raw@));
    if declared != n || declared > FRM_MAX_LEN {
        return None;
    }
    if raw[n - 2] != 0 || raw[n - 1] != 0 {
        return None;
    }
    let op = match OpFlag::from_code(raw[3]) {
        Some(op) => op,
        None => return None,
    };
    let mode = match op {
        OpFlag::Sm4Enc | OpFlag::Sm4Dec => match BlockMode::from_code(raw[4]) {
            Some(m) => Some(m),
            None => return None,
        },
        _ => {
            if raw[4] != FRM_PRESERVE_FLAG {
                return None;
            }
            None
        },
    };
    let payload = copy_range(raw, FRM_HEAD_LEN, n - FRM_TAIL_LEN);
    Some(Frame { op, mode, payload })
}

/// The mode byte that a frame carries: the reserved value, or the block mode.
pub open spec fn mode_byte(mode: Option<BlockMode>) -> u8 {
    match mode {
        Some(m) => m.spec_code(),
        None => FRM_PRESERVE_FLAG,
    }
}

/// Round trip: a frame that the encoders build, for an operation with a mode
/// that it allows and a payload that fits, passes whole through the framer,
/// and decoding it gives back its operation, mode and payload.
pub proof fn lemma_round_trip(op: OpFlag, mode: Option<BlockMode>, payload: Seq<u8>)
    requires
        op.is_cipher() <==> mode is Some,
        payload.len() <= TX_MSG_MAX_LEN,
    ensures
        scan(frame_bytes(op.spec_code(), mode_byte(mode), payload)) == (
            seq![frame_bytes(op.spec_code(), mode_byte(mode), payload)],
            Seq::<u8>::empty(),
        ),
        parse_spec(frame_bytes(op.spec_code(), mode_byte(mode), payload)) == Some(
            FrameModel { op, mode, payload },
        ),
        parse_all(scan(frame_bytes(op.spec_code(), mode_byte(mode), payload)).0) == seq![
            FrameModel { op, mode, payload },
        ],
{
    let e = frame_bytes(op.spec_code(), mode_byte(mode), payload);
    lemma_frame_bytes_delimited(op.spec_code(), mode_byte(mode), payload);
    lemma_scan_frame_first(e, Seq::empty());
    assert(e + Seq::<u8>::empty() =~= e);
    lemma_scan_empty();
    assert(seq![e] + Seq::<Seq<u8>>::empty() =~= seq![e]);
    assert(payload_of(e) =~= payload);
    assert(e[3] == op.spec_code());
    assert(e[4] == mode_byte(mode));
    let m = FrameModel { op, mode, payload };
    assert(parse_spec(e) == Some(m));
    assert(seq![e].drop_first() =~= Seq::<Seq<u8>>::empty());
    assert(seq![e][0] == e);
    assert(parse_all(Seq::<Seq<u8>>::empty()) == Seq::<FrameModel>::empty());
    assert(seq![m] + Seq::<FrameModel>::empty() =~= seq![m]);
    assert(parse_all(seq![e]) == seq![m]);
}

/// How cipher results are shown: as hexadecimal digits, or as text in a chat.
#[derive(Clone, Copy, Debug, PartialEq, Eq, Structural)]
pub enum Presentation {
    Raw,
    Chat,
}

/// The result of one response frame.
#[derive(Clone, Debug, PartialEq, Eq)]
pub enum Response {
    /// The coprocessor took the key.
    KeyAccepted,
    /// A digest, in hexadecimal digits.
    Digest(String),
    /// The result of an encryption, trailing zero bytes stripped.
    Encrypted { mode: BlockMode, text: String },
    /// The result of a decryption, trailing zero bytes stripped.
    Decrypted { mode: BlockMode, text: String },
}

/// The model of a `Response`: the same, with text as a sequence.
pub enum ResponseModel {
    KeyAccepted,
    Digest(Seq<char>),
    Encrypted { mode: BlockMode, text: Seq<char> },
    Decrypted { mode: BlockMode, text: Seq<char> },
}

impl View for Response {
    type V = ResponseModel;

    open spec fn view(&self) -> ResponseModel {
        match self {
            Response::KeyAccepted => ResponseModel::KeyAccepted,
            Response::Digest(s) => ResponseModel::Digest(s@),
            Response::Encrypted { mode, text } => ResponseModel::Encrypted { mode: *mode, text: text@ },
            Response::Decrypted { mode, text } => ResponseModel::Decrypted { mode: *mode, text: text@ },
        }
    }
}

/// The payload that acknowledges a key.
pub open spec fn key_ack() -> Seq<u8> {
    seq![0x00u8, 0x01u8]
}

/// `b` without its trailing zero bytes.
pub open spec fn strip_trailing_zeros(b: Seq<u8>) -> Seq<u8>
    decreases b.len(),
{
    if b.len() > 0 && b.last() == 0 {
        strip_trailing_zeros(b.drop_last())
    } else {
        b
    }
}

/// The text of a cipher result under a presentation.
pub open spec fn cipher_text(b: Seq<u8>, view: Presentation) -> Seq<char> {
    match view {
        Presentation::Raw => hex_encoded(strip_trailing_zeros(b)),
        Presentation::Chat => utf8_lossy(strip_trailing_zeros(b)),
    }
}

/// What a frame yields: `None` where it is dropped (a key acknowledgement
/// other than the marker, a digest of the wrong length).
pub open spec fn response_spec(f: FrameModel, view: Presentation) -> Option<ResponseModel> {
    match f.op {
        OpFlag::Key => if f.payload == key_ack() {
            Some(ResponseModel::KeyAccepted)
        } else {
            None
        },
        OpFlag::Sm3 => if f.payload.len() == SM3_HASH_LEN {
            Some(ResponseModel::Digest(hex_encoded(f.payload)))
        } else {
            None
        },
        OpFlag::Sm4Enc => match f.mode {
            Some(mode) => Some(
                ResponseModel::Encrypted { mode, text: cipher_text(f.payload, view) },
            ),
            None => None,
        },
        OpFlag::Sm4Dec => match f.mode {
            Some(mode) => Some(
                ResponseModel::Decrypted { mode, text: cipher_text(f.payload, view) },
            ),
            None => None,
        },
    }
}

/// The length of `b` once its trailing zero bytes are stripped.
fn stripped_len(b: &[u8]) -> (r: usize)
    ensures
        r <= b@.len(),
        b@.take(r as int) == strip_trailing_zeros(b@),
{
    let mut n = b.len();
    assert(b@.take(n as int) =~= b@);
    while n > 0 && b[n - 1] == 0
        invariant
            n <= b@.len(),
            strip_trailing_zeros(b@.take(n as int)) == strip_trailing_zeros(b@),
        decreases n,
    {
        assert(b@.take(n as int).drop_last() =~= b@.take(n - 1));
        n = n - 1;
    }
    proof {
        lemma_strip_fixed(b@.take(n as int));
    }
    n
}

proof fn lemma_strip_fixed(b: Seq<u8>)
    requires
        !(b.len() > 0 && b.last() == 0),
    ensures
        strip_trailing_zeros(b) == b,
{
}

/// The text of a cipher result under a presentation.
fn present(b: &[u8], view: Presentation) -> (r: String)
    ensures
        r@ == cipher_text(b@, view),
{
    let n = stripped_len(b);
    let kept = copy_range(b, 0, n);
    assert(b@.subrange(0, n as int) =~= b@.take(n as int));
    match view {
        Presentation::Raw => hex_encode(kept.as_slice()),
        Presentation::Chat => lossy_text(kept.as_slice()),
    }
}

/// Dispatches one validated frame to the handler of its operation.
pub fn dispatch(f: &Frame, view: Presentation) -> (r: Option<Response>)
    ensures
        match r {
            Some(resp) => response_spec(f@, view) == Some(resp@),
            None => response_spec(f@, view) is None,
        },
{
    match f.op {
        OpFlag::Key => {
            if f.payload.len() == KEY_ACK_LEN && f.payload[0] == 0x00 && f.payload[1] == 0x01 {
                assert(f.payload@ =~= key_ack());
                Some(Response::KeyAccepted)
            } else {
                None
            }
        },
        OpFlag::Sm3 => {
            if f.payload.len() == SM3_HASH_LEN {
                Some(Response::Digest(hex_encode(f.payload.as_slice())))
            } else {
                None
            }
        },
        OpFlag::Sm4Enc => match f.mode {
            Some(mode) => Some(
                Response::Encrypted { mode, text: present(f.payload.as_slice(), view) },
            ),
            None => None,
        },
        OpFlag::Sm4Dec => match f.mode {
            Some(mode) => Some(
                Response::Decrypted { mode, text: present(f.payload.as_slice(), view) },
            ),
            None => None,
        },
    }
}

/// The payload of a delimited frame as lossy UTF-8 text, whatever its
/// operation; this is what an observer of the link is shown.
pub fn observe_text(raw: &[u8]) -> (r: String)
    requires
        raw@.len() >= FRM_MIN_LEN,
    ensures
        r@ == utf8_lossy(payload_of(raw@)),
{
    let payload = copy_range(raw, FRM_HEAD_LEN, raw.len() - FRM_TAIL_LEN);
    lossy_text(payload.as_slice())
}

impl Framer {
    /// Appends `chunk` and returns the well-formed frames that the pass
    /// removes from the buffer, in order; malformed ones are dropped.
    pub fn feed_frames(&mut self, chunk: &[u8]) -> (frames: Vec<Frame>)
        requires
            old(self).wf(),
            chunk@.len() + FRM_MAX_LEN <= isize::MAX,
        ensures
            final(self).wf(),
            frames@.map_values(|f: Frame| f@) == parse_all(scan(old(self)@ + chunk@).0),
            final(self)@ == scan(old(self)@ + chunk@).1,
    {
        let raws = self.feed(chunk);
        let mut frames: Vec<Frame> = Vec::new();
        let mut i: usize = 0;
        assert(views(raws@).skip(0) =~= views(raws@));
        assert(frames@.map_values(|f: Frame| f@) + parse_all(views(raws@))
            =~= parse_all(views(raws@)));
        while i < raws.len()
            invariant
                i <= raws@.len(),
                frames@.map_values(|f: Frame| f@) + parse_all(views(raws@).skip(i as int))
                    == parse_all(views(raws@)),
            decreases raws@.len() - i,
        {
            let ghost rest = views(raws@).skip(i as int);
            assert(rest.drop_first() =~= views(raws@).skip(i + 1));
            assert(rest[0] == raws@[i as int]@);
            let ghost before = frames@;
            match parse_frame(raws[i].as_slice()) {
                Some(f) => {
                    frames.push(f);
                    assert(frames@.map_values(|f: Frame| f@) =~= before.map_values(|f: Frame| f@).push(f@));
                    assert(frames@.map_values(|f: Frame| f@) + parse_all(views(raws@).skip(i + 1))
                        =~= before.map_values(|f: Frame| f@) + parse_all(rest));
                },
                None => {
                    assert(Seq::<FrameModel>::empty() + parse_all(views(raws@).skip(i + 1))
                        =~= parse_all(views(raws@).skip(i + 1)));
                },
            }
            i = i + 1;
        }
        assert(views(raws@).skip(raws@.len() as int) =~= Seq::<Seq<u8>>::empty());
        assert(frames@.map_values(|f: Frame| f@) + Seq::<FrameModel>::empty()
            =~= frames@.map_values(|f: Frame| f@));
        frames
    }
}

} // verus!
