use vstd::prelude::*;

use crate::track::{SequenceTrack, SequenceTrackMut};

verus! {

/// A sound source that a track can play through, named by the host's handle for
/// it. Two instruments are the same instrument exactly when their handles are
/// equal.
#[derive(Debug)]
pub struct Instrument {
    handle: usize,
}

impl Instrument {
    /// The host handle that names this instrument.
    pub closed spec fn id(&self) -> usize {
        self.handle
    }

    /// Takes ownership of the host instrument named by `handle`.
    pub fn from_handle(handle: usize) -> (r: Instrument)
        ensures
            r.id() == handle,
    {
        Instrument { handle }
    }

    /// The host handle of this instrument.
    pub fn cptr(&self) -> (r: usize)
        ensures
            r == self.id(),
    {
        self.handle
    }
}

/// `r` refers to the instrument in `slot`, or is `None` where the slot is empty.
pub open spec fn refers_to(r: Option<&Instrument>, slot: Option<Instrument>) -> bool {
    match r {
        Some(i) => slot == Some(*i),
        None => slot is None,
    }
}

/// A sequence: the host's handle for it, and for each of its tracks the
/// instrument stored for that track, if any. The sequence owns those
/// instruments; a track view only borrows them.
pub struct Sequence {
    ptr: usize,
    instruments: Vec<Option<Instrument>>,
}

impl View for Sequence {
    type V = Seq<Option<Instrument>>;

    closed spec fn view(&self) -> Seq<Option<Instrument>> {
        self.instruments@
    }
}

impl Sequence {
    pub closed spec fn handle(&self) -> usize {
        self.ptr
    }

    /// A sequence over the host sequence `ptr` with `track_count` tracks, none of
    /// them bound to an instrument.
    pub fn new(ptr: usize, track_count: u32) -> (r: Sequence)
        ensures
            r.handle() == ptr,
            r@ == Seq::new(track_count as nat, |i: int| None::<Instrument>),
    {
        let mut instruments: Vec<Option<Instrument>> = Vec::new();
        let mut n: u32 = 0;
        while n < track_count
            invariant
                n <= track_count,
                instruments@ == Seq::new(n as nat, |i: int| None::<Instrument>),
            decreases track_count - n,
        {
            instruments.push(None);
            n = n + 1;
            assert(instruments@ =~= Seq::new(n as nat, |i: int| None::<Instrument>));
        }
        Sequence { ptr, instruments }
    }

    /// The host handle of this sequence.
    pub fn cptr(&self) -> (r: usize)
        ensures
            r == self.handle(),
    {
        self.ptr
    }

    /// The number of tracks.
    pub fn track_count(&self) -> (r: usize)
        ensures
            r == self@.len(),
    {
        self.instruments.len()
    }

    /// The instrument stored for track `index`, if any.
    pub fn track_instrument(&self, index: u32) -> (r: Option<&Instrument>)
        requires
            index < self@.len(),
        ensures
            refers_to(r, self@[index as int]),
    {
        self.instruments[index as usize].as_ref()
    }

    /// Mutable access to the instrument stored for track `index`, if any.
    pub fn track_instrument_mut(&mut self, index: u32) -> (r: Option<&mut Instrument>)
        requires
            index < old(self)@.len(),
        ensures
            match r {
                Some(i) => {
                    &&& old(self)@[index as int] == Some(*i)
                    &&& final(self)@ == old(self)@.update(index as int, Some(*final(i)))
                    &&& final(self).handle() == old(self).handle()
                },
                None => {
                    &&& old(self)@[index as int] is None
                    &&& final(self)@ == old(self)@
                    &&& final(self).handle() == old(self).handle()
                },
            },
    {
        match &mut self.instruments[index as usize] {
            Some(i) => Some(i),
            None => None,
        }
    }

    /// Stores `instrument` for track `index`, handing back the one it replaces.
    pub fn set_track_instrument(&mut self, index: u32, instrument: Instrument) -> (r: Option<Instrument>)
        requires
            index < old(self)@.len(),
        ensures
            r == old(self)@[index as int],
            final(self)@ == old(self)@.update(index as int, Some(instrument)),
            final(self).handle() == old(self).handle(),
    {
        self.instruments.push(Some(instrument));
        self.instruments.swap_remove(index as usize)
    }

    /// A shared view of track `index`, whose host handle is `track_ptr`.
    pub fn track(&self, track_ptr: usize, index: u32) -> (r: SequenceTrack<'_>)
        requires
            track_ptr != 0,
            index < self@.len(),
        ensures
            r.cptr_spec() == track_ptr,
            r.index_spec() == index,
            r.slots() == self@,
    {
        SequenceTrack::new(track_ptr, index, self)
    }

    /// An exclusive view of track `index`, whose host handle is `track_ptr`.
    pub fn track_mut(&mut self, track_ptr: usize, index: u32) -> (r: SequenceTrackMut<'_>)
        requires
            track_ptr != 0,
            index < old(self)@.len(),
        ensures
            r.cptr_spec() == track_ptr,
            r.index_spec() == index,
            r.slots() == old(self)@,
            r.wf(),
    {
        SequenceTrackMut::new(track_ptr, index, self)
    }
}

} // verus!
