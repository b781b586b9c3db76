//! The stream framer: turns byte chunks that arrive at arbitrary boundaries
//! into whole frames, resynchronising on the start flag after noise.
//!
//! `scan` is the model of one pass over the receive buffer; `Framer::feed`
//! appends a chunk and runs that pass.
use crate::buf::{byte_at, bytes_mut_seq, into_vec};
use crate::format::{
    declared_len, is_delimited_frame, len_in_bounds, FRM_MAX_LEN, FRM_MIN_LEN, FRM_START_FLAG,
};
use bytes::BytesMut;
use vstd::prelude::*;

verus! {

/// Position of the first start flag in `s`, or `s.len()` when there is none.
pub open spec fn flag_index(s: Seq<u8>) -> nat
    decreases s.len(),
{
    if s.len() == 0 {
        0
    } else if s[0] == FRM_START_FLAG {
        0
    } else {
        1 + flag_index(s.drop_first())
    }
}

pub proof fn lemma_flag_index_bound(s: Seq<u8>)
    ensures
        flag_index(s) <= s.len(),
        flag_index(s) < s.len() ==> s[flag_index(s) as int] == FRM_START_FLAG,
        forall|j: int| 0 <= j < flag_index(s) ==> s[j] != FRM_START_FLAG,
    decreases s.len(),
{
    if s.len() > 0 && s[0] != FRM_START_FLAG {
        lemma_flag_index_bound(s.drop_first());
        assert forall|j: int| 0 <= j < flag_index(s) implies s[j] != FRM_START_FLAG by {
            if j > 0 {
                assert(s[j] == s.drop_first()[j - 1]);
            }
        }
    }
}

/// `flag_index` is the first index that holds the flag, as a scan finds it.
pub proof fn lemma_flag_index_is(s: Seq<u8>, i: nat)
    requires
        i <= s.len(),
        forall|j: int| 0 <= j < i ==> s[j] != FRM_START_FLAG,
        i < s.len() ==> s[i as int] == FRM_START_FLAG,
    ensures
        flag_index(s) == i,
    decreases i,
{
    if i > 0 {
        lemma_flag_index_is(s.drop_first(), (i - 1) as nat);
    }
}

/// One pass of the framer over the buffer `buf`: the frames that it removes,
/// in order, and what stays in the buffer.
///
/// While at least a minimal frame's worth of bytes is buffered, the bytes
/// before the first start flag are dropped (all of them when there is no
/// flag). A flag followed by a length out of bounds is dropped on its own. A
/// frame whose declared length is buffered is removed whole; a shorter
/// remainder waits for more data.
pub open spec fn scan(buf: Seq<u8>) -> (Seq<Seq<u8>>, Seq<u8>)
    decreases buf.len(),
{
    if buf.len() < FRM_MIN_LEN {
        (Seq::empty(), buf)
    } else {
        proof {
            lemma_flag_index_bound(buf);
        }
        let b = buf.skip(flag_index(buf) as int);
        if b.len() < FRM_MIN_LEN {
            (Seq::empty(), b)
        } else if !len_in_bounds(declared_len(b)) {
            scan(b.skip(1))
        } else if b.len() < declared_len(b) {
            (Seq::empty(), b)
        } else {
            let n = declared_len(b) as int;
            let rest = scan(b.skip(n));
            (seq![b.take(n)] + rest.0, rest.1)
        }
    }
}

/// The contents of each buffer of `v`.
pub open spec fn views(v: Seq<Vec<u8>>) -> Seq<Seq<u8>> {
    v.map_values(|f: Vec<u8>| f@)
}

/// What the framer emits and keeps when `chunks` are fed one after the other
/// to a framer whose buffer holds `buf`.
pub open spec fn feed_all(buf: Seq<u8>, chunks: Seq<Seq<u8>>) -> (Seq<Seq<u8>>, Seq<u8>)
    decreases chunks.len(),
{
    if chunks.len() == 0 {
        (Seq::empty(), buf)
    } else {
        let before = feed_all(buf, chunks.drop_last());
        let pass = scan(before.1 + chunks.last());
        (before.0 + pass.0, pass.1)
    }
}

/// What a pass leaves behind is shorter than the longest frame.
pub proof fn lemma_scan_rest_short(buf: Seq<u8>)
    ensures
        scan(buf).1.len() < FRM_MAX_LEN,
    decreases buf.len(),
{
    if buf.len() >= FRM_MIN_LEN {
        lemma_flag_index_bound(buf);
        let b = buf.skip(flag_index(buf) as int);
        if b.len() >= FRM_MIN_LEN {
            if !len_in_bounds(declared_len(b)) {
                lemma_scan_rest_short(b.skip(1));
            } else if b.len() >= declared_len(b) {
                lemma_scan_rest_short(b.skip(declared_len(b) as int));
            }
        }
    }
}

/// A pass over an empty buffer emits nothing and keeps nothing.
pub proof fn lemma_scan_empty()
    ensures
        scan(Seq::<u8>::empty()) == (Seq::<Seq<u8>>::empty(), Seq::<u8>::empty()),
{
}

/// A whole frame at the head of the buffer is emitted first, and the pass
/// goes on over what follows it.
pub proof fn lemma_scan_frame_first(f: Seq<u8>, rest: Seq<u8>)
    requires
        is_delimited_frame(f),
    ensures
        scan(f + rest) == (seq![f] + scan(rest).0, scan(rest).1),
{
    let buf = f + rest;
    lemma_flag_index_is(buf, 0);
    assert(buf.skip(0) =~= buf);
    assert(declared_len(buf) == declared_len(f));
    assert(buf.take(f.len() as int) =~= f);
    assert(buf.skip(f.len() as int) =~= rest);
}

/// Frames that arrive back to back in one buffer are all emitted, in order,
/// in one pass.
pub proof fn lemma_scan_back_to_back(f: Seq<u8>, g: Seq<u8>)
    requires
        is_delimited_frame(f),
        is_delimited_frame(g),
    ensures
        scan(f + g) == (seq![f, g], Seq::<u8>::empty()),
{
    lemma_scan_frame_first(f, g);
    lemma_scan_frame_first(g, Seq::empty());
    assert(g + Seq::<u8>::empty() =~= g);
    assert(seq![f] + (seq![g] + Seq::<Seq<u8>>::empty()) =~= seq![f, g]);
}

/// Resynchronisation: noise before a frame, none of it a start flag, is
/// discarded and exactly that frame is emitted.
pub proof fn lemma_scan_skips_noise(garbage: Seq<u8>, f: Seq<u8>)
    requires
        forall|i: int| 0 <= i < garbage.len() ==> garbage[i] != FRM_START_FLAG,
        is_delimited_frame(f),
    ensures
        scan(garbage + f) == (seq![f], Seq::<u8>::empty()),
{
    let buf = garbage + f;
    assert forall|j: int| 0 <= j < garbage.len() implies buf[j] != FRM_START_FLAG by {
        assert(buf[j] == garbage[j]);
    }
    assert(buf[garbage.len() as int] == f[0]);
    lemma_flag_index_is(buf, garbage.len());
    let b = buf.skip(garbage.len() as int);
    assert(b =~= f);
    assert(b.take(f.len() as int) =~= f);
    assert(b.skip(f.len() as int) =~= Seq::<u8>::empty());
    lemma_scan_empty();
    assert(seq![f] + Seq::<Seq<u8>>::empty() =~= seq![f]);
}

/// A frame that has not fully arrived stays buffered whole, and nothing is
/// emitted.
pub proof fn lemma_scan_partial_frame(f: Seq<u8>, m: int)
    requires
        is_delimited_frame(f),
        0 <= m < f.len(),
    ensures
        scan(f.take(m)) == (Seq::<Seq<u8>>::empty(), f.take(m)),
{
    let p = f.take(m);
    if p.len() >= FRM_MIN_LEN {
        lemma_flag_index_is(p, 0);
        assert(p.skip(0) =~= p);
        assert(declared_len(p) == declared_len(f));
    }
}

/// Fragmentation invariance: a frame cut into chunks and fed to a fresh
/// framer one chunk after the other yields what feeding it whole yields, the
/// frame alone, and leaves the buffer empty.
pub proof fn lemma_fragmentation_invariance(chunks: Seq<Seq<u8>>, f: Seq<u8>)
    requires
        is_delimited_frame(f),
        chunks.flatten() == f,
    ensures
        feed_all(Seq::empty(), chunks) == scan(f),
        scan(f) == (seq![f], Seq::<u8>::empty()),
{
    lemma_scan_frame_first(f, Seq::empty());
    assert(f + Seq::<u8>::empty() =~= f);
    assert(seq![f] + Seq::<Seq<u8>>::empty() =~= seq![f]);
    assert(f.take(f.len() as int) =~= f);
    lemma_feed_prefix(chunks, f);
}

/// Feeding the chunks of a prefix of a frame: nothing is emitted before the
/// frame is complete, and then exactly the frame.
proof fn lemma_feed_prefix(chunks: Seq<Seq<u8>>, f: Seq<u8>)
    requires
        is_delimited_frame(f),
        f.take(chunks.flatten().len() as int) == chunks.flatten(),
        chunks.flatten().len() <= f.len(),
    ensures
        chunks.flatten().len() < f.len() ==> feed_all(Seq::empty(), chunks) == (
            Seq::<Seq<u8>>::empty(),
            chunks.flatten(),
        ),
        chunks.flatten().len() == f.len() ==> feed_all(Seq::empty(), chunks) == (
            seq![f],
            Seq::<u8>::empty(),
        ),
    decreases chunks.len(),
{
    if chunks.len() == 0 {
        return;
    }
    let init = chunks.drop_last();
    let c = chunks.last();
    assert(chunks =~= init.push(c));
    init.lemma_flatten_push(c);
    let p = init.flatten();
    let q = chunks.flatten();
    assert(q == p + c);
    assert(f.take(p.len() as int) =~= p) by {
        assert forall|i: int| 0 <= i < p.len() implies f.take(p.len() as int)[i] == p[i] by {
            assert(q[i] == p[i]);
            assert(f.take(q.len() as int)[i] == f[i]);
        }
    }
    lemma_feed_prefix(init, f);
    if p.len() < f.len() {
        if q.len() < f.len() {
            lemma_scan_partial_frame(f, q.len() as int);
            assert(f.take(q.len() as int) == q);
            assert(Seq::<Seq<u8>>::empty() + Seq::<Seq<u8>>::empty() =~= Seq::<Seq<u8>>::empty());
        } else {
            assert(f.take(q.len() as int) =~= f);
            lemma_scan_frame_first(f, Seq::empty());
            assert(f + Seq::<u8>::empty() =~= f);
            assert(Seq::<Seq<u8>>::empty() + (seq![f] + Seq::<Seq<u8>>::empty()) =~= seq![f]);
        }
    } else {
        assert(c.len() == 0);
        assert(Seq::<u8>::empty() + c =~= Seq::<u8>::empty());
        assert(seq![f] + Seq::<Seq<u8>>::empty() =~= seq![f]);
    }
}

/// Length bounds: a start flag followed by a declared length out of bounds is
/// dropped alone, and the pass goes on scanning from the next byte.
pub proof fn lemma_scan_drops_bad_length(b: Seq<u8>)
    requires
        b.len() >= FRM_MIN_LEN,
        b[0] == FRM_START_FLAG,
        !len_in_bounds(declared_len(b)),
    ensures
        scan(b) == scan(b.skip(1)),
{
    lemma_flag_index_is(b, 0);
    assert(b.skip(0) =~= b);
}

/// Length bounds: every frame that a pass emits opens with the start flag and
/// declares its own length, which lies within the bounds.
pub proof fn lemma_scan_emits_delimited(buf: Seq<u8>)
    ensures
        forall|i: int| 0 <= i < scan(buf).0.len() ==> is_delimited_frame(#[trigger] scan(buf).0[i]),
    decreases buf.len(),
{
    if buf.len() >= FRM_MIN_LEN {
        lemma_flag_index_bound(buf);
        let b = buf.skip(flag_index(buf) as int);
        if b.len() >= FRM_MIN_LEN {
            if !len_in_bounds(declared_len(b)) {
                lemma_scan_emits_delimited(b.skip(1));
                assert(scan(buf) == scan(b.skip(1)));
            } else if b.len() >= declared_len(b) {
                let n = declared_len(b) as int;
                lemma_scan_emits_delimited(b.skip(n));
                let fr = b.take(n);
                assert(b[0] == buf[flag_index(buf) as int]);
                assert(declared_len(fr) == declared_len(b));
                assert(is_delimited_frame(fr));
                let out = scan(buf).0;
                assert(out == seq![fr] + scan(b.skip(n)).0);
                assert forall|i: int| 0 <= i < out.len() implies is_delimited_frame(#[trigger] out[i]) by {
                    if i > 0 {
                        assert(out[i] == scan(b.skip(n)).0[i - 1]);
                    } else {
                        assert(out[i] == fr);
                    }
                }
            }
        }
    }
}

/// The receive buffer of one connection.
pub struct Framer {
    buf: BytesMut,
}

impl View for Framer {
    type V = Seq<u8>;

    closed spec fn view(&self) -> Seq<u8> {
        bytes_mut_seq(self.buf)
    }
}

impl Framer {
    /// The buffer never holds a whole frame's worth past a pass.
    pub open spec fn wf(&self) -> bool {
        self@.len() < FRM_MAX_LEN
    }

    /// A framer with an empty buffer.
    pub fn new() -> (r: Framer)
        ensures
            r@ == Seq::<u8>::empty(),
            r.wf(),
    {
        Framer { buf: BytesMut::with_capacity(FRM_MAX_LEN) }
    }

    /// The number of bytes buffered.
    pub fn buffered(&self) -> (r: usize)
        ensures
            r == self@.len(),
    {
        self.buf.len()
    }

    /// Appends `chunk` to the buffer and removes every whole frame that the
    /// buffer then holds, as `scan` describes; returns them in order.
    pub fn feed(&mut self, chunk: &[u8]) -> (frames: Vec<Vec<u8>>)
        requires
            old(self).wf(),
            chunk@.len() + FRM_MAX_LEN <= isize::MAX,
        ensures
            final(self).wf(),
            views(frames@) == scan(old(self)@ + chunk@).0,
            final(self)@ == scan(old(self)@ + chunk@).1,
    {
        self.buf.extend_from_slice(chunk);
        let ghost total = scan(old(self)@ + chunk@);
        let mut frames: Vec<Vec<u8>> = Vec::new();
        loop
            invariant
                views(frames@) + scan(self@).0 == total.0,
                scan(self@).1 == total.1,
            ensures
                views(frames@) == total.0,
                self@ == total.1,
            decreases self@.len(),
        {
            let ghost cur = self@;
            let n = self.buf.len();
            if n < FRM_MIN_LEN {
                assert(views(frames@) + Seq::<Seq<u8>>::empty() =~= views(frames@));
                break;
            }
            let mut i: usize = 0;
            while i < n && byte_at(&self.buf, i) != FRM_START_FLAG
                invariant
                    self@ == cur,
                    n == cur.len(),
                    i <= n,
                    forall|j: int| 0 <= j < i ==> cur[j] != FRM_START_FLAG,
                decreases n - i,
            {
                i = i + 1;
            }
            proof {
                lemma_flag_index_is(cur, i as nat);
            }
            if i == n {
                self.buf.clear();
                assert(cur.skip(n as int) =~= Seq::<u8>::empty());
                assert(views(frames@) + Seq::<Seq<u8>>::empty() =~= views(frames@));
                break;
            }
            let _ = self.buf.split_to(i);
            let ghost b = self@;
            if self.buf.len() < FRM_MIN_LEN {
                assert(views(frames@) + Seq::<Seq<u8>>::empty() =~= views(frames@));
                break;
            }
            let frame_length: usize = byte_at(&self.buf, 1) as usize * 256 + byte_at(&self.buf, 2) as usize;
            assert(frame_length == declared_len(b));
            if frame_length < FRM_MIN_LEN || frame_length > FRM_MAX_LEN {
                let _ = self.buf.split_to(1);
                continue;
            }
            if self.buf.len() < frame_length {
                assert(views(frames@) + Seq::<Seq<u8>>::empty() =~= views(frames@));
                break;
            }
            let frame = self.buf.split_to(frame_length);
            let ghost old_frames = frames@;
            frames.push(into_vec(frame));
            proof {
                let rest = scan(self@);
                assert(views(frames@) =~= views(old_frames).push(b.take(frame_length as int)));
                assert(views(frames@) + rest.0 =~= views(old_frames) + (seq![b.take(frame_length as int)] + rest.0));
            }
        }
        proof {
            lemma_scan_rest_short(old(self)@ + chunk@);
        }
        frames
    }
}

} // verus!
