use vstd::prelude::*;

verus! {

/// One note of a track: its length in steps, and its MIDI note number and
/// velocity, each held as the bit pattern of the host's single-precision value.
#[derive(Clone, Copy, Debug, PartialEq, Eq, Structural)]
pub struct TrackNote {
    pub length: u32,
    pub midi_note: u32,
    pub velocity: u32,
}

/// A note together with the step at which it starts, as the host reports it
/// for one index of a track's event list.
#[derive(Clone, Copy, Debug, PartialEq, Eq, Structural)]
pub struct NoteEvent {
    pub step: u32,
    pub note: TrackNote,
}

impl TrackNote {
    pub fn new(length: u32, midi_note: u32, velocity: u32) -> (r: TrackNote)
        ensures
            r == (TrackNote { length, midi_note, velocity }),
    {
        TrackNote { length, midi_note, velocity }
    }
}

} // verus!
