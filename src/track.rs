use vstd::prelude::*;

use crate::scan::{NoteScan, ScanState};
use crate::sequence::{refers_to, Instrument, Sequence};

verus! {

/// A handle to one track of a sequence: the host's handle for the track, which
/// is never null, the track's index in its sequence, and the instrument bound
/// to it, borrowed from the sequence that owns it.
pub struct SequenceTrackRef<'a> {
    ptr: usize,
    index: u32,
    instrument: Option<&'a Instrument>,
}

impl<'a> SequenceTrackRef<'a> {
    #[verifier::type_invariant]
    spec fn non_null(self) -> bool {
        self.ptr != 0
    }

    pub closed spec fn cptr_spec(&self) -> usize {
        self.ptr
    }

    pub closed spec fn index_spec(&self) -> u32 {
        self.index
    }

    pub closed spec fn instrument_spec(&self) -> Option<&'a Instrument> {
        self.instrument
    }

    /// A handle to the host track `ptr`, which must not be null.
    pub fn new(ptr: usize, index: u32, instrument: Option<&'a Instrument>) -> (r: Self)
        requires
            ptr != 0,
        ensures
            r.cptr_spec() == ptr,
            r.index_spec() == index,
            r.instrument_spec() == instrument,
    {
        SequenceTrackRef { ptr, index, instrument }
    }

    /// The host handle of the track.
    pub fn cptr(&self) -> (r: usize)
        ensures
            r == self.cptr_spec(),
            r != 0,
    {
        proof {
            use_type_invariant(self);
        }
        self.ptr
    }

    /// The track's index in its sequence.
    pub fn index(&self) -> (r: u32)
        ensures
            r == self.index_spec(),
    {
        self.index
    }

    /// The instrument bound to the track, if any.
    pub fn instrument(&self) -> (r: Option<&'a Instrument>)
        ensures
            r == self.instrument_spec(),
    {
        self.instrument
    }

    /// Starts reading the notes that begin at `step`; `first_index` is the
    /// host's first event index at or after `step`.
    pub fn notes_at_step(&self, step: u32, first_index: i32) -> (r: NoteScan)
        ensures
            r@ == (ScanState {
                filter: Some(step),
                next: first_index as int,
                found: seq![],
                finished: false,
            }),
    {
        NoteScan::at_step(step, first_index)
    }

    /// Starts reading every note of the track, from its first event on.
    pub fn notes(&self) -> (r: NoteScan)
        ensures
            r@ == (ScanState { filter: None, next: 0, found: seq![], finished: false }),
    {
        NoteScan::all()
    }
}

/// A shared view of a track: it reads the instrument that its sequence stores
/// for the track, and cannot replace it.
pub struct SequenceTrack<'a> {
    tref: SequenceTrackRef<'a>,
    seq: &'a Sequence,
}

impl<'a> SequenceTrack<'a> {
    #[verifier::type_invariant]
    spec fn bound_to_sequence(self) -> bool {
        &&& self.tref.index < self.seq@.len()
        &&& refers_to(self.tref.instrument, self.seq@[self.tref.index as int])
    }

    pub closed spec fn cptr_spec(&self) -> usize {
        self.tref.ptr
    }

    pub closed spec fn index_spec(&self) -> u32 {
        self.tref.index
    }

    /// The instruments that the owning sequence stores, by track index.
    pub closed spec fn slots(&self) -> Seq<Option<Instrument>> {
        self.seq@
    }

    pub(crate) fn new(ptr: usize, index: u32, seq: &'a Sequence) -> (r: Self)
        requires
            ptr != 0,
            index < seq@.len(),
        ensures
            r.cptr_spec() == ptr,
            r.index_spec() == index,
            r.slots() == seq@,
    {
        let instrument = seq.track_instrument(index);
        SequenceTrack { tref: SequenceTrackRef::new(ptr, index, instrument), seq }
    }

    /// The handle this view is built on.
    pub fn as_ref(&self) -> (r: &SequenceTrackRef<'a>)
        ensures
            r.cptr_spec() == self.cptr_spec(),
            r.index_spec() == self.index_spec(),
            refers_to(r.instrument_spec(), self.slots()[self.index_spec() as int]),
    {
        proof {
            use_type_invariant(self);
        }
        &self.tref
    }

    /// The host handle of the track.
    pub fn cptr(&self) -> (r: usize)
        ensures
            r == self.cptr_spec(),
            r != 0,
    {
        self.tref.cptr()
    }

    /// The track's index in its sequence.
    pub fn index(&self) -> (r: u32)
        ensures
            r == self.index_spec(),
            r < self.slots().len(),
    {
        proof {
            use_type_invariant(self);
        }
        self.tref.index()
    }

    /// The instrument bound to the track, if any.
    pub fn instrument(&self) -> (r: Option<&'a Instrument>)
        ensures
            refers_to(r, self.slots()[self.index_spec() as int]),
    {
        proof {
            use_type_invariant(self);
        }
        self.tref.instrument()
    }
}

/// An exclusive view of a track: it borrows its sequence mutably, and is the
/// one view through which the track's instrument can be replaced.
pub struct SequenceTrackMut<'a> {
    ptr: usize,
    index: u32,
    seq: &'a mut Sequence,
}

impl<'a> SequenceTrackMut<'a> {
    /// The host handle is not null, and the index names a track of the
    /// sequence.
    pub closed spec fn wf(&self) -> bool {
        &&& self.ptr != 0
        &&& self.index < self.seq@.len()
    }

    pub closed spec fn cptr_spec(&self) -> usize {
        self.ptr
    }

    pub closed spec fn index_spec(&self) -> u32 {
        self.index
    }

    /// The instruments that the borrowed sequence stores now, by track index.
    pub closed spec fn slots(&self) -> Seq<Option<Instrument>> {
        self.seq@
    }

    pub(crate) fn new(ptr: usize, index: u32, seq: &'a mut Sequence) -> (r: Self)
        requires
            ptr != 0,
            index < old(seq)@.len(),
        ensures
            r.cptr_spec() == ptr,
            r.index_spec() == index,
            r.slots() == old(seq)@,
            r.wf(),
    {
        SequenceTrackMut { ptr, index, seq }
    }

    /// The host handle of the track.
    pub fn cptr(&self) -> (r: usize)
        requires
            self.wf(),
        ensures
            r == self.cptr_spec(),
            r != 0,
    {
        self.ptr
    }

    /// The track's index in its sequence.
    pub fn index(&self) -> (r: u32)
        requires
            self.wf(),
        ensures
            r == self.index_spec(),
            r < self.slots().len(),
    {
        self.index
    }

    /// The instrument bound to the track, if any.
    pub fn instrument(&self) -> (r: Option<&Instrument>)
        requires
            self.wf(),
        ensures
            refers_to(r, self.slots()[self.index_spec() as int]),
    {
        self.seq.track_instrument(self.index)
    }

    /// Mutable access to the instrument bound to the track, if any.
    pub fn instrument_mut(&mut self) -> (r: Option<&mut Instrument>)
        requires
            old(self).wf(),
        ensures
            match r {
                Some(i) => {
                    &&& old(self).slots()[old(self).index_spec() as int] == Some(*i)
                    &&& final(self).slots() == old(self).slots().update(
                        old(self).index_spec() as int,
                        Some(*final(i)),
                    )
                },
                None => {
                    &&& old(self).slots()[old(self).index_spec() as int] is None
                    &&& final(self).slots() == old(self).slots()
                },
            },
            final(self).wf(),
            final(self).cptr_spec() == old(self).cptr_spec(),
            final(self).index_spec() == old(self).index_spec(),
    {
        self.seq.track_instrument_mut(self.index)
    }

    /// A shared handle to the track, reading the instrument stored for it.
    pub fn as_ref(&self) -> (r: SequenceTrackRef<'_>)
        requires
            self.wf(),
        ensures
            r.cptr_spec() == self.cptr_spec(),
            r.index_spec() == self.index_spec(),
            refers_to(r.instrument_spec(), self.slots()[self.index_spec() as int]),
    {
        SequenceTrackRef::new(self.ptr, self.index, self.seq.track_instrument(self.index))
    }

    /// Binds `instrument` to the track: the sequence stores it in this track's
    /// slot, and the instrument it held before, if any, is handed back so that
    /// it can be released. The view then reads the stored instrument.
    pub fn set_instrument(&mut self, instrument: Instrument) -> (r: Option<Instrument>)
        requires
            old(self).wf(),
        ensures
            final(self).wf(),
            r == old(self).slots()[old(self).index_spec() as int],
            final(self).slots() == old(self).slots().update(
                old(self).index_spec() as int,
                Some(instrument),
            ),
            final(self).cptr_spec() == old(self).cptr_spec(),
            final(self).index_spec() == old(self).index_spec(),
    {
        self.seq.set_track_instrument(self.index, instrument)
    }
}

/// Once `inst` is stored in slot `index`, the track at that index reads `inst`
/// itself, and no instrument of another identity, such as the one it replaced.
pub proof fn lemma_set_then_read(
    slots: Seq<Option<Instrument>>,
    index: int,
    inst: Instrument,
    read: Option<&Instrument>,
)
    requires
        0 <= index < slots.len(),
        refers_to(read, slots.update(index, Some(inst))[index]),
    ensures
        read is Some,
        read->0.id() == inst.id(),
        slots[index] is Some && slots[index]->0.id() != inst.id() ==> read->0.id()
            != slots[index]->0.id(),
{
}

} // verus!
