//! The listener supervisor: at most one background reader per connection.
//!
//! The supervisor owns the slot of the running reader's handle. Installing a
//! new reader hands back the previous one, which the caller cancels; no two
//! handles are ever held at once.
use crate::dispatch::Presentation;
use vstd::prelude::*;

verus! {

/// What a reader does with the bytes that it reads.
#[derive(Clone, Copy, Debug, PartialEq, Eq, Structural)]
pub enum ListenMode {
    /// Shows the raw bytes as they come.
    Echo,
    /// Decodes frames and shows their results.
    Parse(Presentation),
    /// Decodes frames and shows every payload as text.
    Observe,
}

/// The slot of the one running reader, with its mode.
pub struct Supervisor<H> {
    slot: Option<H>,
    mode: Option<ListenMode>,
}

/// One installation: the handle that then runs, and the one handed back for
/// cancelling.
pub open spec fn start_step<H>(active: Option<H>, h: H) -> (Option<H>, Option<H>) {
    (Some(h), active)
}

/// The running reader and the readers cancelled, in order, after the
/// supervisor whose slot holds `slot` installs each handle of `hs` in turn.
pub open spec fn start_all<H>(slot: Option<H>, hs: Seq<H>) -> (Option<H>, Seq<H>)
    decreases hs.len(),
{
    if hs.len() == 0 {
        (slot, Seq::empty())
    } else {
        let before = start_all(slot, hs.drop_last());
        let step = start_step(before.0, hs.last());
        let cancelled = match step.1 {
            Some(p) => before.1.push(p),
            None => before.1,
        };
        (step.0, cancelled)
    }
}

/// Single reader: after `n` handles are installed in a supervisor that held
/// none, exactly the last one runs and the `n - 1` before it were cancelled,
/// in the order in which they were installed.
pub proof fn lemma_single_reader<H>(hs: Seq<H>)
    requires
        hs.len() >= 1,
    ensures
        start_all(None, hs) == (Some(hs.last()), hs.drop_last()),
    decreases hs.len(),
{
    let init = hs.drop_last();
    if hs.len() == 1 {
        assert(init =~= Seq::<H>::empty());
        assert(start_all(None, init) == (None::<H>, Seq::<H>::empty()));
    } else {
        lemma_single_reader(init);
        assert(init.drop_last().push(init.last()) =~= init);
    }
}

impl<H> Supervisor<H> {
    /// The handle of the running reader, if any.
    pub closed spec fn active(&self) -> Option<H> {
        self.slot
    }

    /// The mode of the running reader, if any.
    pub closed spec fn spec_mode(&self) -> Option<ListenMode> {
        self.mode
    }

    /// Whether a reader runs exactly when a mode is recorded.
    pub closed spec fn wf(&self) -> bool {
        self.slot is Some <==> self.mode is Some
    }

    /// A supervisor with no reader.
    pub fn new() -> (r: Supervisor<H>)
        ensures
            r.wf(),
            r.active() is None,
            r.spec_mode() is None,
    {
        Supervisor { slot: None, mode: None }
    }

    /// Installs the reader `h`, running in `mode`, and hands back the reader
    /// that it replaces, which the caller must cancel.
    pub fn start(&mut self, h: H, mode: ListenMode) -> (prev: Option<H>)
        ensures
            final(self).wf(),
            final(self).active() == Some(h),
            final(self).spec_mode() == Some(mode),
            prev == old(self).active(),
            (final(self).active(), prev) == start_step(old(self).active(), h),
    {
        let prev = self.slot.take();
        self.slot = Some(h);
        self.mode = Some(mode);
        prev
    }

    /// Empties the slot and hands back the reader that ran, if any, which the
    /// caller must cancel.
    pub fn stop(&mut self) -> (prev: Option<H>)
        ensures
            final(self).wf(),
            final(self).active() is None,
            final(self).spec_mode() is None,
            prev == old(self).active(),
    {
        self.mode = None;
        self.slot.take()
    }

    /// Whether a reader runs.
    pub fn is_running(&self) -> (r: bool)
        ensures
            r == self.active() is Some,
    {
        self.slot.is_some()
    }

    /// The mode of the running reader, if any.
    pub fn mode(&self) -> (r: Option<ListenMode>)
        ensures
            r == self.spec_mode(),
    {
        self.mode
    }

    /// Whether asking for `requested` replaces the running reader: always
    /// when none runs or when frames are to be decoded (the presentation may
    /// change), otherwise only when the running reader is in another mode.
    pub fn needs_restart(&self, requested: ListenMode) -> (r: bool)
        ensures
            r == (self.spec_mode() is None || requested is Parse || self.spec_mode() != Some(
                requested,
            )),
    {
        match self.mode {
            None => true,
            Some(current) => match requested {
                ListenMode::Parse(_) => true,
                _ => current != requested,
            },
        }
    }
}

} // verus!
